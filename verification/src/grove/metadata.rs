//! What a grove records about itself, in the configuration of its bare repository.
use vstd::prelude::*;
use crate::bytes::{copied, copied_opt, is_lit, lit, opt_view, LF};
use crate::error::{
    detailed, failure, failure_error, plain, ErrorView, GroveError, Result,
};
use crate::fsx::mountinfo::{parse_u64, parsed_u64};
use crate::git::config::{
    exit_error, exit_failure, set_config, set_config_run, unset_all, unset_all_run, Outcome,
};
use crate::git::query::opt_outcome;
use crate::git::runner::{
    args5, invoke, step, GitRunner, Invocation, InvocationView, OutputView, Reply, Session,
};
use crate::grove::discover::{config_of, Grove};
use crate::text::{decimal_nat, escape, escaped, number, text};

verus! {

/// The layout this library writes.
pub const FORMAT_VERSION: u64 = 1;

/// How far a grove's publication has come.
#[derive(Debug, Clone, Copy, PartialEq, Eq, Structural)]
pub enum PublishState {
    Unpublished,
    /// A repository is being created on a hosting provider.
    Creating,
    /// The remote is being configured and pushed to.
    Publishing,
    Published,
}

pub open spec fn state_word(state: PublishState) -> Seq<u8> {
    match state {
        PublishState::Unpublished => lit("unpublished"),
        PublishState::Creating => lit("creating"),
        PublishState::Publishing => lit("publishing"),
        PublishState::Published => lit("published"),
    }
}

pub open spec fn parsed_state(word: Seq<u8>) -> Option<PublishState> {
    if word == lit("unpublished") {
        Some(PublishState::Unpublished)
    } else if word == lit("creating") {
        Some(PublishState::Creating)
    } else if word == lit("publishing") {
        Some(PublishState::Publishing)
    } else if word == lit("published") {
        Some(PublishState::Published)
    } else {
        None
    }
}

/// What is written for a state reads back as that state.
pub proof fn states_read_back(state: PublishState)
    ensures
        parsed_state(state_word(state)) == Some(state),
{
    reveal_strlit("unpublished");
    reveal_strlit("creating");
    reveal_strlit("publishing");
    reveal_strlit("published");
    broadcast use vstd::utf8::encode_utf8_decode_utf8;

    assert(vstd::utf8::decode_utf8(lit("unpublished")) == "unpublished"@);
    assert(vstd::utf8::decode_utf8(lit("creating")) == "creating"@);
    assert(vstd::utf8::decode_utf8(lit("publishing")) == "publishing"@);
    assert(vstd::utf8::decode_utf8(lit("published")) == "published"@);
    assert("unpublished"@.len() == 11);
    assert("creating"@.len() == 8);
    assert("publishing"@.len() == 10);
    assert("published"@.len() == 9);
}

impl PublishState {
    /// The word recorded for this state.
    pub fn word(self) -> (r: &'static str)
        ensures
            lit(r) == state_word(self),
    {
        match self {
            PublishState::Unpublished => "unpublished",
            PublishState::Creating => "creating",
            PublishState::Publishing => "publishing",
            PublishState::Published => "published",
        }
    }

    /// The state that a recorded word names.
    pub fn parse(word: &[u8]) -> (r: Option<PublishState>)
        ensures
            r == parsed_state(word@),
    {
        if is_lit(word, "unpublished") {
            Some(PublishState::Unpublished)
        } else if is_lit(word, "creating") {
            Some(PublishState::Creating)
        } else if is_lit(word, "publishing") {
            Some(PublishState::Publishing)
        } else if is_lit(word, "published") {
            Some(PublishState::Published)
        } else {
            None
        }
    }
}

/// A grove's record of itself.
#[derive(Debug, PartialEq, Eq)]
pub struct Metadata {
    pub version: Option<u64>,
    pub default_branch: Option<Vec<u8>>,
    pub remote: Option<Vec<u8>>,
    pub publish_state: PublishState,
    pub publish_remote: Option<Vec<u8>>,
    pub publish_url: Option<Vec<u8>>,
    pub publish_provider: Option<Vec<u8>>,
    pub publish_owner: Option<Vec<u8>>,
    pub publish_name: Option<Vec<u8>>,
}

#[verifier::ext_equal]
pub struct MetadataView {
    pub version: Option<u64>,
    pub default_branch: Option<Seq<u8>>,
    pub remote: Option<Seq<u8>>,
    pub publish_state: PublishState,
    pub publish_remote: Option<Seq<u8>>,
    pub publish_url: Option<Seq<u8>>,
    pub publish_provider: Option<Seq<u8>>,
    pub publish_owner: Option<Seq<u8>>,
    pub publish_name: Option<Seq<u8>>,
}

impl View for Metadata {
    type V = MetadataView;

    open spec fn view(&self) -> MetadataView {
        MetadataView {
            version: self.version,
            default_branch: opt_view(self.default_branch),
            remote: opt_view(self.remote),
            publish_state: self.publish_state,
            publish_remote: opt_view(self.publish_remote),
            publish_url: opt_view(self.publish_url),
            publish_provider: opt_view(self.publish_provider),
            publish_owner: opt_view(self.publish_owner),
            publish_name: opt_view(self.publish_name),
        }
    }
}

impl Metadata {
    /// A copy of the record.
    pub fn copied(&self) -> (r: Metadata)
        ensures
            r@ == self@,
    {
        Metadata {
            version: self.version,
            default_branch: copied_opt(&self.default_branch),
            remote: copied_opt(&self.remote),
            publish_state: self.publish_state,
            publish_remote: copied_opt(&self.publish_remote),
            publish_url: copied_opt(&self.publish_url),
            publish_provider: copied_opt(&self.publish_provider),
            publish_owner: copied_opt(&self.publish_owner),
            publish_name: copied_opt(&self.publish_name),
        }
    }
}

// ------------------------------------------------------------------- receipts

/// The record of a publication: the remote it goes to, and its URL.
#[derive(Debug)]
pub struct Receipt {
    pub remote: Vec<u8>,
    pub url: Vec<u8>,
}

pub struct ReceiptView {
    pub remote: Seq<u8>,
    pub url: Seq<u8>,
}

impl View for Receipt {
    type V = ReceiptView;

    open spec fn view(&self) -> ReceiptView {
        ReceiptView { remote: self.remote@, url: self.url@ }
    }
}

/// The record of a repository being created on a hosting provider.
#[derive(Debug)]
pub struct CreatingReceipt {
    pub provider: Vec<u8>,
    pub owner: Vec<u8>,
    pub name: Vec<u8>,
    pub remote: Vec<u8>,
}

pub struct CreatingView {
    pub provider: Seq<u8>,
    pub owner: Seq<u8>,
    pub name: Seq<u8>,
    pub remote: Seq<u8>,
}

impl View for CreatingReceipt {
    type V = CreatingView;

    open spec fn view(&self) -> CreatingView {
        CreatingView {
            provider: self.provider@,
            owner: self.owner@,
            name: self.name@,
            remote: self.remote@,
        }
    }
}

pub open spec fn torn(what: Seq<char>) -> ErrorView {
    detailed(
        failure("this grove's publication record is inconsistent"@),
        what,
    )
}

fn torn_error(what: &str) -> (r: GroveError)
    ensures
        r@ == torn(what@),
{
    failure_error("this grove's publication record is inconsistent").with_detail(text(what))
}

/// The publication receipt that a record carries.
///
/// A published grove without one was cloned. An unpublished grove must not carry one, a grove
/// whose repository is being created has no URL yet, and a grove being published must carry one.
pub open spec fn receipt_in(m: MetadataView) -> Outcome<Option<ReceiptView>> {
    match m.publish_state {
        PublishState::Unpublished => if m.publish_remote is Some || m.publish_url is Some {
            Err(torn("it is unpublished but carries a publication receipt"@))
        } else {
            Ok(None)
        },
        PublishState::Creating => if m.publish_url is Some {
            Err(torn("it is creating a repository but already carries a URL"@))
        } else {
            Ok(None)
        },
        PublishState::Publishing => match (m.publish_remote, m.publish_url) {
            (Some(remote), Some(url)) => Ok(Some(ReceiptView { remote, url })),
            _ => Err(torn("it is publishing without a complete receipt"@)),
        },
        PublishState::Published => match (m.publish_remote, m.publish_url) {
            (Some(remote), Some(url)) => Ok(Some(ReceiptView { remote, url })),
            (None, None) => Ok(None),
            _ => Err(torn("it is published with half a receipt"@)),
        },
    }
}

/// The creation receipt that a record carries.
pub open spec fn creating_in(m: MetadataView) -> Outcome<Option<CreatingView>> {
    match (m.publish_provider, m.publish_owner, m.publish_name, m.publish_remote) {
        (Some(provider), Some(owner), Some(name), Some(remote)) => match m.publish_state {
            PublishState::Unpublished => Ok(None),
            PublishState::Creating => if m.publish_url is Some {
                Err(torn("it is creating a repository but already carries a URL"@))
            } else {
                Ok(Some(CreatingView { provider, owner, name, remote }))
            },
            _ => Ok(Some(CreatingView { provider, owner, name, remote })),
        },
        _ => match m.publish_state {
            PublishState::Unpublished => Ok(None),
            PublishState::Creating => if m.publish_url is Some {
                Err(torn("it is creating a repository but already carries a URL"@))
            } else {
                Err(torn("it is creating a repository without a complete receipt"@))
            },
            _ => if m.publish_provider is Some || m.publish_owner is Some || m.publish_name is Some {
                Err(torn("it carries half a creation receipt"@))
            } else {
                Ok(None)
            },
        },
    }
}

pub open spec fn receipt_outcome(r: Result<Option<Receipt>>) -> Outcome<Option<ReceiptView>> {
    match r {
        Ok(Some(v)) => Ok(Some(v@)),
        Ok(None) => Ok(None),
        Err(e) => Err(e@),
    }
}

pub open spec fn creating_outcome(r: Result<Option<CreatingReceipt>>) -> Outcome<
    Option<CreatingView>,
> {
    match r {
        Ok(Some(v)) => Ok(Some(v@)),
        Ok(None) => Ok(None),
        Err(e) => Err(e@),
    }
}

/// The publication receipt that a record carries, if it carries one.
pub fn receipt(metadata: &Metadata) -> (r: Result<Option<Receipt>>)
    ensures
        receipt_outcome(r) == receipt_in(metadata@),
{
    match metadata.publish_state {
        PublishState::Unpublished => {
            if metadata.publish_remote.is_some() || metadata.publish_url.is_some() {
                return Err(torn_error("it is unpublished but carries a publication receipt"));
            }
            Ok(None)
        },
        PublishState::Creating => {
            if metadata.publish_url.is_some() {
                return Err(torn_error("it is creating a repository but already carries a URL"));
            }
            Ok(None)
        },
        PublishState::Publishing => match (&metadata.publish_remote, &metadata.publish_url) {
            (Some(remote), Some(url)) => Ok(
                Some(Receipt { remote: copied(remote.as_slice()), url: copied(url.as_slice()) }),
            ),
            _ => Err(torn_error("it is publishing without a complete receipt")),
        },
        PublishState::Published => match (&metadata.publish_remote, &metadata.publish_url) {
            (Some(remote), Some(url)) => Ok(
                Some(Receipt { remote: copied(remote.as_slice()), url: copied(url.as_slice()) }),
            ),
            (None, None) => Ok(None),
            _ => Err(torn_error("it is published with half a receipt")),
        },
    }
}

/// The creation receipt that a record carries, if it carries one.
pub fn creating_receipt(metadata: &Metadata) -> (r: Result<Option<CreatingReceipt>>)
    ensures
        creating_outcome(r) == creating_in(metadata@),
{
    if metadata.publish_state == PublishState::Unpublished {
        return Ok(None);
    }
    if metadata.publish_state == PublishState::Creating && metadata.publish_url.is_some() {
        return Err(torn_error("it is creating a repository but already carries a URL"));
    }
    match (
        &metadata.publish_provider,
        &metadata.publish_owner,
        &metadata.publish_name,
        &metadata.publish_remote,
    ) {
        (Some(provider), Some(owner), Some(name), Some(remote)) => Ok(
            Some(
                CreatingReceipt {
                    provider: copied(provider.as_slice()),
                    owner: copied(owner.as_slice()),
                    name: copied(name.as_slice()),
                    remote: copied(remote.as_slice()),
                },
            ),
        ),
        _ => {
            if metadata.publish_state == PublishState::Creating {
                return Err(torn_error("it is creating a repository without a complete receipt"));
            }
            if metadata.publish_provider.is_some() || metadata.publish_owner.is_some()
                || metadata.publish_name.is_some() {
                return Err(torn_error("it carries half a creation receipt"));
            }
            Ok(None)
        },
    }
}

// -------------------------------------------------------------------- writing

pub open spec fn write_key(s: Session, root: Seq<u8>, key: &str, value: Seq<u8>) -> (
    Session,
    Outcome<()>,
) {
    set_config_run(s, config_of(root), lit(key), value, false)
}

fn write<R: GitRunner + ?Sized>(runner: &mut R, grove: &Grove, key: &str, value: &[u8]) -> (r: Result<
    (),
>)
    ensures
        (final(runner).session(), plain(r)) == write_key(
            old(runner).session(),
            grove.root@,
            key,
            value@,
        ),
{
    set_config(runner, grove.config_path().as_slice(), key.as_bytes(), value, false)
}

/// Recording a publication: the state, then the remote, then the URL.
pub open spec fn write_receipt_run(
    s: Session,
    root: Seq<u8>,
    state: PublishState,
    receipt: ReceiptView,
) -> (Session, Outcome<()>) {
    match write_key(s, root, "grove.publishState", state_word(state)) {
        (s1, Err(e)) => (s1, Err(e)),
        (s1, Ok(_)) => match write_key(s1, root, "grove.publishRemote", receipt.remote) {
            (s2, Err(e)) => (s2, Err(e)),
            (s2, Ok(_)) => write_key(s2, root, "grove.publishUrl", receipt.url),
        },
    }
}

/// Records a publication.
pub fn write_receipt<R: GitRunner + ?Sized>(
    runner: &mut R,
    grove: &Grove,
    state: PublishState,
    receipt: &Receipt,
) -> (r: Result<()>)
    ensures
        (final(runner).session(), plain(r)) == write_receipt_run(
            old(runner).session(),
            grove.root@,
            state,
            receipt@,
        ),
{
    write(runner, grove, "grove.publishState", state.word().as_bytes())?;
    write(runner, grove, "grove.publishRemote", receipt.remote.as_slice())?;
    write(runner, grove, "grove.publishUrl", receipt.url.as_slice())
}

/// Recording a repository about to be created.
pub open spec fn write_creating_run(s: Session, root: Seq<u8>, c: CreatingView) -> (
    Session,
    Outcome<()>,
) {
    match write_key(s, root, "grove.publishState", state_word(PublishState::Creating)) {
        (s1, Err(e)) => (s1, Err(e)),
        (s1, Ok(_)) => match write_key(s1, root, "grove.publishProvider", c.provider) {
            (s2, Err(e)) => (s2, Err(e)),
            (s2, Ok(_)) => match write_key(s2, root, "grove.publishOwner", c.owner) {
                (s3, Err(e)) => (s3, Err(e)),
                (s3, Ok(_)) => match write_key(s3, root, "grove.publishName", c.name) {
                    (s4, Err(e)) => (s4, Err(e)),
                    (s4, Ok(_)) => write_key(s4, root, "grove.publishRemote", c.remote),
                },
            },
        },
    }
}

/// Records a repository about to be created.
pub fn write_creating_receipt<R: GitRunner + ?Sized>(
    runner: &mut R,
    grove: &Grove,
    creating: &CreatingReceipt,
) -> (r: Result<()>)
    ensures
        (final(runner).session(), plain(r)) == write_creating_run(
            old(runner).session(),
            grove.root@,
            creating@,
        ),
{
    write(runner, grove, "grove.publishState", PublishState::Creating.word().as_bytes())?;
    write(runner, grove, "grove.publishProvider", creating.provider.as_slice())?;
    write(runner, grove, "grove.publishOwner", creating.owner.as_slice())?;
    write(runner, grove, "grove.publishName", creating.name.as_slice())?;
    write(runner, grove, "grove.publishRemote", creating.remote.as_slice())
}

pub open spec fn clear_key(s: Session, root: Seq<u8>, key: &str) -> (Session, Outcome<()>) {
    unset_all_run(s, config_of(root), lit(key))
}

/// Taking a creation receipt back: its keys first, the state last.
pub open spec fn rollback_run(s: Session, root: Seq<u8>) -> (Session, Outcome<()>) {
    match clear_key(s, root, "grove.publishProvider") {
        (s1, Err(e)) => (s1, Err(e)),
        (s1, Ok(_)) => match clear_key(s1, root, "grove.publishOwner") {
            (s2, Err(e)) => (s2, Err(e)),
            (s2, Ok(_)) => match clear_key(s2, root, "grove.publishName") {
                (s3, Err(e)) => (s3, Err(e)),
                (s3, Ok(_)) => match clear_key(s3, root, "grove.publishRemote") {
                    (s4, Err(e)) => (s4, Err(e)),
                    (s4, Ok(_)) => write_key(
                        s4,
                        root,
                        "grove.publishState",
                        state_word(PublishState::Unpublished),
                    ),
                },
            },
        },
    }
}

/// Takes a creation receipt back.
pub fn rollback_creating_receipt<R: GitRunner + ?Sized>(runner: &mut R, grove: &Grove) -> (r: Result<
    (),
>)
    ensures
        (final(runner).session(), plain(r)) == rollback_run(old(runner).session(), grove.root@),
{
    let config = grove.config_path();
    unset_all(runner, config.as_slice(), "grove.publishProvider".as_bytes())?;
    unset_all(runner, config.as_slice(), "grove.publishOwner".as_bytes())?;
    unset_all(runner, config.as_slice(), "grove.publishName".as_bytes())?;
    unset_all(runner, config.as_slice(), "grove.publishRemote".as_bytes())?;
    write(runner, grove, "grove.publishState", PublishState::Unpublished.word().as_bytes())
}

pub open spec fn write_optional(s: Session, config: Seq<u8>, key: &str, value: Option<Seq<u8>>) -> (
    Session,
    Outcome<()>,
) {
    match value {
        None => (s, Ok(())),
        Some(v) => set_config_run(s, config, lit(key), v, false),
    }
}

pub open spec fn version_bytes(version: Option<u64>) -> Option<Seq<u8>> {
    match version {
        None => None,
        Some(v) => Some(vstd::utf8::encode_utf8(decimal_nat(v as nat))),
    }
}

/// Writing the record of a new grove: what is known of its version, default branch and remote,
/// and its publication state last.
pub open spec fn write_to_config_run(s: Session, config: Seq<u8>, m: MetadataView) -> (
    Session,
    Outcome<()>,
) {
    match write_optional(s, config, "grove.version", version_bytes(m.version)) {
        (s1, Err(e)) => (s1, Err(e)),
        (s1, Ok(_)) => match write_optional(
            s1,
            config,
            "grove.defaultBranch",
            m.default_branch,
        ) {
            (s2, Err(e)) => (s2, Err(e)),
            (s2, Ok(_)) => match write_optional(s2, config, "grove.remote", m.remote) {
                (s3, Err(e)) => (s3, Err(e)),
                (s3, Ok(_)) => set_config_run(
                    s3,
                    config,
                    lit("grove.publishState"),
                    state_word(m.publish_state),
                    false,
                ),
            },
        },
    }
}

/// Writes the record of a new grove.
pub fn write_to_config<R: GitRunner + ?Sized>(
    runner: &mut R,
    config: &[u8],
    metadata: &Metadata,
) -> (r: Result<()>)
    ensures
        (final(runner).session(), plain(r)) == write_to_config_run(
            old(runner).session(),
            config@,
            metadata@,
        ),
{
    match metadata.version {
        None => {},
        Some(version) => {
            let digits = number(version);
            set_config(
                runner,
                config,
                "grove.version".as_bytes(),
                digits.as_str().as_bytes(),
                false,
            )?;
        },
    }
    match &metadata.default_branch {
        None => {},
        Some(branch) => {
            set_config(
                runner,
                config,
                "grove.defaultBranch".as_bytes(),
                branch.as_slice(),
                false,
            )?;
        },
    }
    match &metadata.remote {
        None => {},
        Some(remote) => {
            set_config(runner, config, "grove.remote".as_bytes(), remote.as_slice(), false)?;
        },
    }
    set_config(
        runner,
        config,
        "grove.publishState".as_bytes(),
        metadata.publish_state.word().as_bytes(),
        false,
    )
}

// -------------------------------------------------------------------- reading

/// What one answer to `config --get` carries: the value on its line, or nothing.
pub open spec fn value_in(out: OutputView, key: Seq<u8>) -> Outcome<Option<Seq<u8>>> {
    if out.status == 1 {
        Ok(None)
    } else if !out.ok() {
        Err(exit_failure("config --get "@ + escape(key), out))
    } else if out.stdout.len() == 0 || out.stdout.last() != LF {
        Err(failure("git config returned a truncated value"@))
    } else {
        Ok(Some(out.stdout.drop_last()))
    }
}

pub open spec fn read_key_run(s: Session, config: Seq<u8>, key: &str) -> (
    Session,
    Outcome<Option<Seq<u8>>>,
) {
    match step(s, asks_for(config, key)) {
        (s1, Err(e)) => (s1, Err(e)),
        (s1, Ok(out)) => (s1, value_in(out, lit(key))),
    }
}

/// Asking for the value of a key.
pub open spec fn asks_for(config: Seq<u8>, key: &str) -> InvocationView {
    invoke(args5(lit("config"), lit("--file"), config, lit("--get"), lit(key)))
}

fn read_key<R: GitRunner + ?Sized>(runner: &mut R, config: &[u8], key: &str) -> (r: Result<
    Option<Vec<u8>>,
>)
    ensures
        (final(runner).session(), opt_outcome(r)) == read_key_run(
            old(runner).session(),
            config@,
            key,
        ),
{
    let output = runner.run(
        Invocation::new().word("config").word("--file").arg(config).word("--get").word(key),
    )?;
    if output.status == 1 {
        return Ok(None);
    }
    if !output.ok() {
        let operation = text("config --get ").concat(escaped(key.as_bytes()).as_str());
        return Err(exit_error(operation.as_str(), &output));
    }
    let mut value = output.stdout;
    if value.len() == 0 || value[value.len() - 1] != LF {
        return Err(failure_error("git config returned a truncated value"));
    }
    let ghost before = value@;
    let _ = value.pop();
    proof {
        assert(value@ =~= before.drop_last());
    }
    Ok(Some(value))
}

/// The version that a recorded value names.
pub open spec fn version_of(value: Option<Seq<u8>>) -> Outcome<Option<u64>> {
    match value {
        None => Ok(None),
        Some(v) => match parsed_u64(v) {
            Some(n) => Ok(Some(n)),
            None => Err(failure("grove.version is not a number: "@ + escape(v))),
        },
    }
}

/// The state that a recorded value names. A grove that records none is unpublished.
pub open spec fn state_of(value: Option<Seq<u8>>) -> Outcome<PublishState> {
    match value {
        None => Ok(PublishState::Unpublished),
        Some(v) => match parsed_state(v) {
            Some(state) => Ok(state),
            None => Err(failure("grove.publishState is not known: "@ + escape(v))),
        },
    }
}

/// Reading the keys of a publication, after the others.
pub open spec fn read_publication(
    s: Session,
    config: Seq<u8>,
    version: Option<u64>,
    default_branch: Option<Seq<u8>>,
    remote: Option<Seq<u8>>,
    publish_state: PublishState,
) -> (Session, Outcome<MetadataView>) {
    match read_key_run(s, config, "grove.publishRemote") {
        (s1, Err(e)) => (s1, Err(e)),
        (s1, Ok(publish_remote)) => match read_key_run(s1, config, "grove.publishUrl") {
            (s2, Err(e)) => (s2, Err(e)),
            (s2, Ok(publish_url)) => match read_key_run(s2, config, "grove.publishProvider") {
                (s3, Err(e)) => (s3, Err(e)),
                (s3, Ok(publish_provider)) => match read_key_run(
                    s3,
                    config,
                    "grove.publishOwner",
                ) {
                    (s4, Err(e)) => (s4, Err(e)),
                    (s4, Ok(publish_owner)) => match read_key_run(
                        s4,
                        config,
                        "grove.publishName",
                    ) {
                        (s5, Err(e)) => (s5, Err(e)),
                        (s5, Ok(publish_name)) => (
                            s5,
                            Ok(
                                MetadataView {
                                    version,
                                    default_branch,
                                    remote,
                                    publish_state,
                                    publish_remote,
                                    publish_url,
                                    publish_provider,
                                    publish_owner,
                                    publish_name,
                                },
                            ),
                        ),
                    },
                },
            },
        },
    }
}

/// Reading a grove's record, one key at a time.
pub open spec fn read_run(s: Session, root: Seq<u8>) -> (Session, Outcome<MetadataView>) {
    let config = config_of(root);
    match read_key_run(s, config, "grove.version") {
        (s1, Err(e)) => (s1, Err(e)),
        (s1, Ok(recorded)) => match version_of(recorded) {
            Err(e) => (s1, Err(e)),
            Ok(version) => match read_key_run(s1, config, "grove.defaultBranch") {
                (s2, Err(e)) => (s2, Err(e)),
                (s2, Ok(default_branch)) => match read_key_run(s2, config, "grove.remote") {
                    (s3, Err(e)) => (s3, Err(e)),
                    (s3, Ok(remote)) => match read_key_run(s3, config, "grove.publishState") {
                        (s4, Err(e)) => (s4, Err(e)),
                        (s4, Ok(word)) => match state_of(word) {
                            Err(e) => (s4, Err(e)),
                            Ok(state) => read_publication(
                                s4,
                                config,
                                version,
                                default_branch,
                                remote,
                                state,
                            ),
                        },
                    },
                },
            },
        },
    }
}

pub open spec fn metadata_outcome(r: Result<Metadata>) -> Outcome<MetadataView> {
    match r {
        Ok(m) => Ok(m@),
        Err(e) => Err(e@),
    }
}

/// Reads a grove's record.
pub fn read<R: GitRunner + ?Sized>(runner: &mut R, grove: &Grove) -> (r: Result<Metadata>)
    ensures
        (final(runner).session(), metadata_outcome(r)) == read_run(
            old(runner).session(),
            grove.root@,
        ),
{
    let path = grove.config_path();
    let config = path.as_slice();
    let version = match read_key(runner, config, "grove.version")? {
        None => None,
        Some(v) => match parse_u64(v.as_slice()) {
            Some(n) => Some(n),
            None => return Err(
                GroveError::failure(
                    text("grove.version is not a number: ").concat(
                        escaped(v.as_slice()).as_str(),
                    ),
                ),
            ),
        },
    };
    let default_branch = read_key(runner, config, "grove.defaultBranch")?;
    let remote = read_key(runner, config, "grove.remote")?;
    let publish_state = match read_key(runner, config, "grove.publishState")? {
        None => PublishState::Unpublished,
        Some(v) => match PublishState::parse(v.as_slice()) {
            Some(state) => state,
            None => return Err(
                GroveError::failure(
                    text("grove.publishState is not known: ").concat(
                        escaped(v.as_slice()).as_str(),
                    ),
                ),
            ),
        },
    };
    let publish_remote = read_key(runner, config, "grove.publishRemote")?;
    let publish_url = read_key(runner, config, "grove.publishUrl")?;
    let publish_provider = read_key(runner, config, "grove.publishProvider")?;
    let publish_owner = read_key(runner, config, "grove.publishOwner")?;
    let publish_name = read_key(runner, config, "grove.publishName")?;
    Ok(
        Metadata {
            version,
            default_branch,
            remote,
            publish_state,
            publish_remote,
            publish_url,
            publish_provider,
            publish_owner,
            publish_name,
        },
    )
}

/// What Git answers to `config --get` for a key that has a value, or has none.
pub open spec fn answered_with(value: Option<Seq<u8>>) -> Reply {
    match value {
        Some(v) => Ok(OutputView { status: 0, stdout: v.push(LF), stderr: Seq::empty() }),
        None => Ok(OutputView { status: 1, stdout: Seq::empty(), stderr: Seq::empty() }),
    }
}

/// Whether a key is answered with a value, or with none, whatever else was asked before.
pub open spec fn holds(s: Session, config: Seq<u8>, key: &str, value: Option<Seq<u8>>) -> bool {
    forall|calls: Seq<InvocationView>|
        calls.len() > 0 && calls.last() == asks_for(config, key) ==> #[trigger] (s.script)(calls)
            == answered_with(value)
}

/// Whether every key of a grove is answered with the value that is written for it.
pub open spec fn holds_record(s: Session, config: Seq<u8>, m: MetadataView) -> bool {
    &&& holds(s, config, "grove.version", version_bytes(m.version))
    &&& holds(s, config, "grove.defaultBranch", m.default_branch)
    &&& holds(s, config, "grove.remote", m.remote)
    &&& holds(s, config, "grove.publishState", Some(state_word(m.publish_state)))
    &&& holds(s, config, "grove.publishRemote", m.publish_remote)
    &&& holds(s, config, "grove.publishUrl", m.publish_url)
    &&& holds(s, config, "grove.publishProvider", m.publish_provider)
    &&& holds(s, config, "grove.publishOwner", m.publish_owner)
    &&& holds(s, config, "grove.publishName", m.publish_name)
}

proof fn lemma_held_key(s: Session, config: Seq<u8>, key: &str, value: Option<Seq<u8>>)
    requires
        holds(s, config, key, value),
    ensures
        read_key_run(s, config, key).0.script == s.script,
        read_key_run(s, config, key).1 == Ok::<Option<Seq<u8>>, ErrorView>(value),
{
    let calls = s.calls.push(asks_for(config, key));
    assert(calls.last() == asks_for(config, key));
    assert((s.script)(calls) == answered_with(value));
    if value is Some {
        assert(value->Some_0.push(LF).drop_last() =~= value->Some_0);
    }
}

/// A record reads back as it was written: where Git answers each key with the value that is
/// written for it, reading gives the whole record.
pub proof fn records_read_back(s: Session, root: Seq<u8>, m: MetadataView)
    requires
        holds_record(s, config_of(root), m),
    ensures
        read_run(s, root).1 == Ok::<MetadataView, ErrorView>(m),
{
    if m.version is Some {
        crate::fsx::mountinfo::numbers_read_back(m.version->Some_0);
    }
    states_read_back(m.publish_state);
    let config = config_of(root);
    lemma_held_key(s, config, "grove.version", version_bytes(m.version));
    let s1 = read_key_run(s, config, "grove.version").0;
    lemma_held_key(s1, config, "grove.defaultBranch", m.default_branch);
    let s2 = read_key_run(s1, config, "grove.defaultBranch").0;
    lemma_held_key(s2, config, "grove.remote", m.remote);
    let s3 = read_key_run(s2, config, "grove.remote").0;
    lemma_held_key(s3, config, "grove.publishState", Some(state_word(m.publish_state)));
    let s4 = read_key_run(s3, config, "grove.publishState").0;
    lemma_held_key(s4, config, "grove.publishRemote", m.publish_remote);
    let s5 = read_key_run(s4, config, "grove.publishRemote").0;
    lemma_held_key(s5, config, "grove.publishUrl", m.publish_url);
    let s6 = read_key_run(s5, config, "grove.publishUrl").0;
    lemma_held_key(s6, config, "grove.publishProvider", m.publish_provider);
    let s7 = read_key_run(s6, config, "grove.publishProvider").0;
    lemma_held_key(s7, config, "grove.publishOwner", m.publish_owner);
    let s8 = read_key_run(s7, config, "grove.publishOwner").0;
    lemma_held_key(s8, config, "grove.publishName", m.publish_name);
}

// ------------------------------------------------------------------ which records are read

/// A record that a later release wrote is not worked with.
pub open spec fn supported(m: MetadataView, root: Seq<u8>) -> Outcome<()> {
    match m.version {
        Some(version) if version > FORMAT_VERSION => Err(
            crate::error::usage(escape(root) + " was written by a newer git-grove"@),
        ),
        _ => Ok(()),
    }
}

/// Refuses a record that a later release wrote.
pub fn require_supported(metadata: &Metadata, root: &[u8]) -> (r: Result<()>)
    ensures
        plain(r) == supported(metadata@, root@),
{
    match metadata.version {
        Some(version) => if version > FORMAT_VERSION {
            return Err(
                GroveError::usage(
                    escaped(root).concat(" was written by a newer git-grove"),
                ),
            );
        },
        None => {},
    }
    Ok(())
}

/// A record is written key by key: what is known of it, each value under its own key, and the state
/// of publication in any case, at the end.
pub proof fn records_are_written_key_by_key(s: Session, config: Seq<u8>, m: MetadataView)
    requires
        write_to_config_run(s, config, m).1 is Ok,
    ensures
        ({
            let put = |calls: Seq<InvocationView>, key: Seq<u8>, value: Option<Seq<u8>>|
                match value {
                    None => calls,
                    Some(v) => calls.push(
                        invoke(args5(lit("config"), lit("--file"), config, key, v)),
                    ),
                };
            let version = match m.version {
                None => None,
                Some(n) => Some(vstd::utf8::encode_utf8(decimal_nat(n as nat))),
            };
            let state = match m.publish_state {
                PublishState::Unpublished => lit("unpublished"),
                PublishState::Creating => lit("creating"),
                PublishState::Publishing => lit("publishing"),
                PublishState::Published => lit("published"),
            };
            let first = put(s.calls, lit("grove.version"), version);
            let second = put(first, lit("grove.defaultBranch"), m.default_branch);
            let third = put(second, lit("grove.remote"), m.remote);
            write_to_config_run(s, config, m).0.calls == put(
                third,
                lit("grove.publishState"),
                Some(state),
            )
        }),
{
}

/// A record of the first format, or without one, is worked with; one of a later format is refused as
/// a matter of usage.
pub proof fn later_formats_are_refused(m: MetadataView, root: Seq<u8>)
    ensures
        supported(m, root) is Ok <==> m.version is None || m.version->Some_0 <= 1,
        supported(m, root) is Err ==> supported(m, root)->Err_0.class
            == crate::error::ExitClass::Usage,
{
}

} // verus!
