//! Give an unpublished grove a remote and push it.
//!
//! Publication goes from `unpublished` over `publishing` to `published`. Its durable record is
//! the receipt in the grove's configuration, written immediately before the first step that
//! changes the remote or the local remote configuration. Until then the target is only read, so
//! a refusal leaves the recorded state as it was and a corrected request can simply be made.
//!
//! URLs and remote names are compared byte by byte, with no canonicalisation of any kind.
use vstd::prelude::*;
use crate::bytes::{
    copied, joined, lemma_views_push, lit, opt_slice, prefixed, same, strip_prefix, views,
    without_prefix,
};
use crate::error::{
    bytes_outcome, detailed, failure, failure_error, needs_decision, plain, usage, usage_error,
    ErrorView, ExitClass, GroveError, Result,
};
use crate::fsx::nonce::possible_nonce;
use crate::git::config::{one_line_of, trim_one_line, Outcome};
use crate::git::provider::Provider;
use crate::git::query::{
    any_commit_run, branch_ref_of, has_any_commit, local_branch_exists, local_branch_run,
};
use crate::git::remote::{
    advertise, advertise_run, ancestry_run, delete_probe_ref, delete_probe_run, fetch_probe,
    fetch_probe_run, is_ancestor, object_from, purge_probe_refs, purge_run, AdvertView, Ancestry,
};
use crate::git::runner::{args2, args3, invoke, invoke_in, step, GitRunner, Invocation, Session};
use crate::grove::discover::{bare_of, Grove};
use crate::grove::metadata::{
    creating_in, creating_receipt, receipt, receipt_in, CreatingView, Metadata, MetadataView,
    PublishState, Receipt, ReceiptView,
};
use crate::text::{escape, escaped, lemma_texts_push, text, texts};

verus! {

broadcast use {lemma_views_push, lemma_texts_push};

/// What the user asked for, as raw bytes.
#[derive(Debug, PartialEq, Eq)]
pub struct Request {
    pub url: Vec<u8>,
    pub remote: Vec<u8>,
    pub all_branches: bool,
}

pub struct RequestView {
    pub url: Seq<u8>,
    pub remote: Seq<u8>,
    pub all_branches: bool,
}

impl View for Request {
    type V = RequestView;

    open spec fn view(&self) -> RequestView {
        RequestView { url: self.url@, remote: self.remote@, all_branches: self.all_branches }
    }
}

/// What the recorded state says this run is: a first attempt, the continuation of an interrupted
/// one, or a repair of a completed one.
#[derive(Debug, Clone, Copy, PartialEq, Eq, Structural)]
pub enum Resume {
    Fresh,
    ResumePublishing,
    RepairPublished,
}

/// What a publication came to.
#[derive(Debug)]
pub struct PublishReport {
    pub class: ExitClass,
    pub lines: Vec<String>,
    pub diagnostics: Vec<String>,
}

#[verifier::ext_equal]
pub struct ReportView {
    pub class: ExitClass,
    pub lines: Seq<Seq<char>>,
    pub diagnostics: Seq<Seq<char>>,
}

impl View for PublishReport {
    type V = ReportView;

    open spec fn view(&self) -> ReportView {
        ReportView {
            class: self.class,
            lines: texts(self.lines@),
            diagnostics: texts(self.diagnostics@),
        }
    }
}

pub open spec fn report_outcome(r: Result<PublishReport>) -> Outcome<ReportView> {
    match r {
        Ok(report) => Ok(report@),
        Err(e) => Err(e@),
    }
}

pub open spec fn slug_of(provider: Provider) -> Seq<u8> {
    match provider {
        Provider::GitHub => lit("github"),
        Provider::GitLab => lit("gitlab"),
    }
}

/// The word recorded for a provider.
pub fn provider_slug(provider: Provider) -> (r: &'static str)
    ensures
        lit(r) == slug_of(provider),
{
    match provider {
        Provider::GitHub => "github",
        Provider::GitLab => "gitlab",
    }
}

pub open spec fn conflict_error(message: Seq<char>, detail: Seq<char>) -> ErrorView {
    detailed(needs_decision(message), detail)
}

pub(crate) fn conflict(message: String, detail: String) -> (r: GroveError)
    ensures
        r@ == conflict_error(message@, detail@),
{
    GroveError::needs_decision(message).with_detail(detail)
}

// ------------------------------------------------------- the acceptance matrix

/// Whether a recorded publication is the requested one: the same remote, then the same URL.
pub open spec fn agreement(recorded: ReceiptView, request: RequestView) -> Outcome<()> {
    if recorded.remote != request.remote {
        Err(
            conflict_error(
                "this grove records a publication to a different remote name"@,
                "recorded "@ + escape(recorded.remote) + ", requested "@ + escape(request.remote),
            ),
        )
    } else if recorded.url != request.url {
        Err(
            conflict_error(
                "this grove records a publication to a different URL"@,
                "recorded "@ + escape(recorded.url) + ", requested "@ + escape(request.url),
            ),
        )
    } else {
        Ok(())
    }
}

pub open spec fn drifted(recorded: ReceiptView, request: RequestView, live: Seq<u8>) -> ErrorView {
    conflict_error(
        "the configured remote does not match this grove's publication receipt"@,
        "receipt records "@ + escape(recorded.url) + ", "@ + escape(request.remote)
            + " points at "@ + escape(live),
    )
}

pub open spec fn being_created(c: CreatingView) -> ErrorView {
    conflict_error(
        "this grove is already creating a repository on "@ + escape(c.provider),
        "recorded "@ + escape(c.owner) + "/"@ + escape(c.name)
            + "; finish or abandon it with `git grove publish --create "@ + escape(c.owner)
            + "/"@ + escape(c.name) + "`, not a bare `publish <url>`"@,
    )
}

/// What a run may be, by what is recorded, what the remote points at now, and what is asked for.
pub open spec fn rerun(m: MetadataView, live: Option<Seq<u8>>, request: RequestView) -> Outcome<
    Resume,
> {
    match receipt_in(m) {
        Err(e) => Err(e),
        Ok(recorded) => match m.publish_state {
            PublishState::Unpublished => match live {
                None => Ok(Resume::Fresh),
                Some(l) => Err(
                    conflict_error(
                        "a remote named "@ + escape(request.remote)
                            + " already exists in this grove"@,
                        "it points at "@ + escape(l)
                            + "; this grove records no publication, so publishing would adopt a remote it did not create"@,
                    ),
                ),
            },
            PublishState::Creating => match creating_in(m) {
                Err(e) => Err(e),
                Ok(None) => Err(
                    failure(
                        "this grove's publish state is creating but its creation receipt is missing"@,
                    ),
                ),
                Ok(Some(c)) => Err(being_created(c)),
            },
            PublishState::Publishing => match agreement(recorded->Some_0, request) {
                Err(e) => Err(e),
                Ok(_) => match live {
                    None => Ok(Resume::ResumePublishing),
                    Some(l) => if l == recorded->Some_0.url {
                        Ok(Resume::ResumePublishing)
                    } else {
                        Err(drifted(recorded->Some_0, request, l))
                    },
                },
            },
            PublishState::Published => match recorded {
                None => match live {
                    None => Ok(Resume::Fresh),
                    Some(l) => Err(
                        conflict_error(
                            "this grove is already published"@,
                            escape(request.remote) + " points at "@ + escape(l)
                                + "; `publish` gives an *unpublished* grove a remote"@,
                        ),
                    ),
                },
                Some(rec) => match agreement(rec, request) {
                    Err(e) => Err(e),
                    Ok(_) => match live {
                        None => Err(
                            conflict_error(
                                "this grove records a completed publication but has no configured remote"@,
                                "the receipt records "@ + escape(rec.remote) + " at "@ + escape(
                                    rec.url,
                                ),
                            ),
                        ),
                        Some(l) => if l == rec.url {
                            Ok(Resume::RepairPublished)
                        } else {
                            Err(drifted(rec, request, l))
                        },
                    },
                },
            },
        },
    }
}

/// A run is accepted only where nothing recorded and nothing configured speaks against it: a
/// recorded publication has exactly the requested remote and URL, and a configured remote points
/// exactly there.
pub proof fn accepted_runs_agree_with_the_record(
    m: MetadataView,
    live: Option<Seq<u8>>,
    request: RequestView,
)
    requires
        rerun(m, live, request) is Ok,
    ensures
        receipt_in(m) is Ok,
        receipt_in(m)->Ok_0 matches Some(rec) ==> rec.remote == request.remote && rec.url
            == request.url,
        live matches Some(l) ==> l == request.url && receipt_in(m)->Ok_0 is Some,
        m.publish_state != PublishState::Creating,
        rerun(m, live, request)->Ok_0 == Resume::Fresh <==> receipt_in(m)->Ok_0 is None,
{
}

fn agree(recorded: &Receipt, request: &Request) -> (r: Result<()>)
    ensures
        plain(r) == agreement(recorded@, request@),
{
    if !same(recorded.remote.as_slice(), request.remote.as_slice()) {
        return Err(
            conflict(
                text("this grove records a publication to a different remote name"),
                text("recorded ").concat(escaped(recorded.remote.as_slice()).as_str()).concat(
                    ", requested ",
                ).concat(escaped(request.remote.as_slice()).as_str()),
            ),
        );
    }
    if !same(recorded.url.as_slice(), request.url.as_slice()) {
        return Err(
            conflict(
                text("this grove records a publication to a different URL"),
                text("recorded ").concat(escaped(recorded.url.as_slice()).as_str()).concat(
                    ", requested ",
                ).concat(escaped(request.url.as_slice()).as_str()),
            ),
        );
    }
    Ok(())
}

fn drift(recorded: &Receipt, request: &Request, live: &[u8]) -> (r: GroveError)
    ensures
        r@ == drifted(recorded@, request@, live@),
{
    conflict(
        text("the configured remote does not match this grove's publication receipt"),
        text("receipt records ").concat(escaped(recorded.url.as_slice()).as_str()).concat(
            ", ",
        ).concat(escaped(request.remote.as_slice()).as_str()).concat(" points at ").concat(
            escaped(live).as_str(),
        ),
    )
}

/// Decides, from what is recorded and configured alone, whether a run may go on and as what.
pub fn accept_rerun(
    metadata: &Metadata,
    live_remote_url: Option<&[u8]>,
    request: &Request,
) -> (r: Result<Resume>)
    ensures
        plain(r) == rerun(metadata@, opt_slice(live_remote_url), request@),
{
    let recorded = receipt(metadata)?;
    match metadata.publish_state {
        PublishState::Unpublished => match live_remote_url {
            None => Ok(Resume::Fresh),
            Some(live) => Err(
                conflict(
                    text("a remote named ").concat(
                        escaped(request.remote.as_slice()).as_str(),
                    ).concat(" already exists in this grove"),
                    text("it points at ").concat(escaped(live).as_str()).concat(
                        "; this grove records no publication, so publishing would adopt a remote it did not create",
                    ),
                ),
            ),
        },
        PublishState::Creating => {
            let creating = match creating_receipt(metadata)? {
                None => return Err(
                    failure_error(
                        "this grove's publish state is creating but its creation receipt is missing",
                    ),
                ),
                Some(creating) => creating,
            };
            let owner = escaped(creating.owner.as_slice());
            let name = escaped(creating.name.as_slice());
            Err(
                conflict(
                    text("this grove is already creating a repository on ").concat(
                        escaped(creating.provider.as_slice()).as_str(),
                    ),
                    text("recorded ").concat(owner.as_str()).concat("/").concat(
                        name.as_str(),
                    ).concat("; finish or abandon it with `git grove publish --create ").concat(
                        owner.as_str(),
                    ).concat("/").concat(name.as_str()).concat("`, not a bare `publish <url>`"),
                ),
            )
        },
        PublishState::Publishing => {
            let rec = match recorded {
                Some(rec) => rec,
                None => return Err(
                    failure_error("this grove is publishing without a complete receipt"),
                ),
            };
            agree(&rec, request)?;
            match live_remote_url {
                None => Ok(Resume::ResumePublishing),
                Some(live) => if same(live, rec.url.as_slice()) {
                    Ok(Resume::ResumePublishing)
                } else {
                    Err(drift(&rec, request, live))
                },
            }
        },
        PublishState::Published => match recorded {
            None => match live_remote_url {
                None => Ok(Resume::Fresh),
                Some(live) => Err(
                    conflict(
                        text("this grove is already published"),
                        escaped(request.remote.as_slice()).concat(" points at ").concat(
                            escaped(live).as_str(),
                        ).concat("; `publish` gives an *unpublished* grove a remote"),
                    ),
                ),
            },
            Some(rec) => {
                agree(&rec, request)?;
                match live_remote_url {
                    None => Err(
                        conflict(
                            text(
                                "this grove records a completed publication but has no configured remote",
                            ),
                            text("the receipt records ").concat(
                                escaped(rec.remote.as_slice()).as_str(),
                            ).concat(" at ").concat(escaped(rec.url.as_slice()).as_str()),
                        ),
                    ),
                    Some(live) => if same(live, rec.url.as_slice()) {
                        Ok(Resume::RepairPublished)
                    } else {
                        Err(drift(&rec, request, live))
                    },
                }
            },
        },
    }
}

// ------------------------------------------------------------------- preflight

/// What the preflight established before anything was changed.
#[derive(Debug)]
pub struct Preflight {
    /// The short name of the default branch.
    pub default_branch: Vec<u8>,
}

impl Preflight {
    /// `refs/heads/<default branch>`.
    pub fn default_ref(&self) -> (r: Vec<u8>)
        ensures
            r@ == branch_ref_of(self.default_branch@),
    {
        prefixed("refs/heads/", self.default_branch.as_slice())
    }
}

pub open spec fn flight_outcome(r: Result<Preflight>) -> Outcome<Seq<u8>> {
    match r {
        Ok(p) => Ok(p.default_branch@),
        Err(e) => Err(e@),
    }
}

pub open spec fn remote_name_run(s: Session, remote: Seq<u8>) -> (Session, Outcome<()>) {
    match step(
        s,
        invoke(
            args2(lit("check-ref-format"), lit("refs/remotes/") + remote + lit("/HEAD")),
        ),
    ) {
        (s1, Err(e)) => (s1, Err(e)),
        (s1, Ok(out)) => if out.ok() {
            (s1, Ok(()))
        } else {
            (s1, Err(usage(escape(remote) + " is not a valid remote name"@)))
        },
    }
}

/// Asks Git whether a remote may have this name.
pub fn validate_remote_name<R: GitRunner + ?Sized>(runner: &mut R, remote: &[u8]) -> (r: Result<()>)
    ensures
        (final(runner).session(), plain(r)) == remote_name_run(old(runner).session(), remote@),
{
    let candidate = joined(prefixed("refs/remotes/", remote).as_slice(), "/HEAD".as_bytes());
    let output = runner.run(
        Invocation::new().word("check-ref-format").arg(candidate.as_slice()),
    )?;
    if output.ok() {
        Ok(())
    } else {
        Err(
            GroveError::usage(
                escaped(remote).concat(" is not a valid remote name"),
            ),
        )
    }
}

pub open spec fn no_default_branch() -> ErrorView {
    conflict_error(
        "this grove does not record a default branch"@,
        "set grove.defaultBranch in the grove configuration, then publish again"@,
    )
}

/// The default branch that the bare repository's HEAD names, if it names one.
pub open spec fn derive_default_run(s: Session, root: Seq<u8>) -> (Session, Outcome<Seq<u8>>) {
    match step(
        s,
        invoke_in(bare_of(root), args3(lit("symbolic-ref"), lit("--quiet"), lit("HEAD"))),
    ) {
        (s1, Err(e)) => (s1, Err(e)),
        (s1, Ok(out)) => if !out.ok() {
            (s1, Err(no_default_branch()))
        } else {
            match one_line_of(out.stdout, "HEAD symref"@) {
                Err(e) => (s1, Err(e)),
                Ok(target) => match without_prefix(target, lit("refs/heads/")) {
                    None => (s1, Err(no_default_branch())),
                    Some(branch) => if branch.len() == 0 {
                        (s1, Err(no_default_branch()))
                    } else {
                        (s1, Ok(branch))
                    },
                },
            }
        },
    }
}

fn no_default() -> (r: GroveError)
    ensures
        r@ == no_default_branch(),
{
    conflict(
        text("this grove does not record a default branch"),
        text("set grove.defaultBranch in the grove configuration, then publish again"),
    )
}

/// Derives the default branch from the bare repository's HEAD, when that is unambiguous.
pub fn derive_default_branch<R: GitRunner + ?Sized>(runner: &mut R, grove: &Grove) -> (r: Result<
    Vec<u8>,
>)
    ensures
        (final(runner).session(), bytes_outcome(r)) == derive_default_run(
            old(runner).session(),
            grove.root@,
        ),
{
    let output = runner.run(
        Invocation::new().git_dir(grove.bare_dir().as_slice()).word("symbolic-ref").word(
            "--quiet",
        ).word("HEAD"),
    )?;
    if !output.ok() {
        return Err(no_default());
    }
    let target = trim_one_line(output.stdout, "HEAD symref")?;
    match strip_prefix(target.as_slice(), "refs/heads/".as_bytes()) {
        None => Err(no_default()),
        Some(branch) => if branch.len() == 0 {
            Err(no_default())
        } else {
            Ok(copied(branch))
        },
    }
}

/// The recorded default branch, or the one the bare repository's HEAD names.
pub open spec fn default_branch_run(s: Session, root: Seq<u8>, recorded: Option<Seq<u8>>) -> (
    Session,
    Outcome<Seq<u8>>,
) {
    match recorded {
        Some(branch) => (s, Ok(branch)),
        None => derive_default_run(s, root),
    }
}

/// Checking that the grove has a commit and a default branch that exists.
pub open spec fn publishable_run(s: Session, root: Seq<u8>, m: MetadataView) -> (
    Session,
    Outcome<Seq<u8>>,
) {
    match any_commit_run(s, root) {
        (s1, Err(e)) => (s1, Err(e)),
        (s1, Ok(false)) => (
            s1,
            Err(
                conflict_error(
                    "this grove has no commit to publish"@,
                    "commit on the default branch first, then run `git grove publish <url>` again"@,
                ),
            ),
        ),
        (s1, Ok(true)) => match default_branch_run(s1, root, m.default_branch) {
            (s2, Err(e)) => (s2, Err(e)),
            (s2, Ok(branch)) => match local_branch_run(s2, root, branch) {
                (s3, Err(e)) => (s3, Err(e)),
                (s3, Ok(false)) => (
                    s3,
                    Err(
                        conflict_error(
                            "this grove's default branch "@ + escape(branch)
                                + " does not exist"@,
                            "set grove.defaultBranch to a branch this grove has, or create that branch"@,
                        ),
                    ),
                ),
                (s3, Ok(true)) => (s3, Ok(branch)),
            },
        },
    }
}

/// Checks that the grove has a commit and a default branch it can push.
pub fn check_publishable_repository<R: GitRunner + ?Sized>(
    runner: &mut R,
    grove: &Grove,
    metadata: &Metadata,
) -> (r: Result<Preflight>)
    ensures
        (final(runner).session(), flight_outcome(r)) == publishable_run(
            old(runner).session(),
            grove.root@,
            metadata@,
        ),
{
    if !has_any_commit(runner, grove)? {
        return Err(
            conflict(
                text("this grove has no commit to publish"),
                text(
                    "commit on the default branch first, then run `git grove publish <url>` again",
                ),
            ),
        );
    }
    let default_branch = match &metadata.default_branch {
        Some(branch) => copied(branch.as_slice()),
        None => derive_default_branch(runner, grove)?,
    };
    if !local_branch_exists(runner, grove, default_branch.as_slice())? {
        return Err(
            conflict(
                text("this grove's default branch ").concat(
                    escaped(default_branch.as_slice()).as_str(),
                ).concat(" does not exist"),
                text(
                    "set grove.defaultBranch to a branch this grove has, or create that branch",
                ),
            ),
        );
    }
    Ok(Preflight { default_branch })
}

pub open spec fn preflight_run(s: Session, root: Seq<u8>, m: MetadataView, request: RequestView) -> (
    Session,
    Outcome<Seq<u8>>,
) {
    if request.url.len() == 0 {
        (s, Err(usage("`publish` requires a URL"@)))
    } else {
        match remote_name_run(s, request.remote) {
            (s1, Err(e)) => (s1, Err(e)),
            (s1, Ok(_)) => publishable_run(s1, root, m),
        }
    }
}

/// Checks the request and the grove before touching anything.
pub fn preflight<R: GitRunner + ?Sized>(
    runner: &mut R,
    grove: &Grove,
    metadata: &Metadata,
    request: &Request,
) -> (r: Result<Preflight>)
    ensures
        (final(runner).session(), flight_outcome(r)) == preflight_run(
            old(runner).session(),
            grove.root@,
            metadata@,
            request@,
        ),
{
    if request.url.len() == 0 {
        return Err(usage_error("`publish` requires a URL"));
    }
    validate_remote_name(runner, request.remote.as_slice())?;
    check_publishable_repository(runner, grove, metadata)
}

// ------------------------------------------------------------------ inspection

pub open spec fn purge_note(name: Seq<u8>) -> Seq<char> {
    "removed a leftover publication probe ref "@ + escape(name)
}

pub open spec fn purge_notes(names: Seq<Seq<u8>>) -> Seq<Seq<char>> {
    names.map_values(|n: Seq<u8>| purge_note(n))
}

/// What a target's advertisement decides before anything is fetched: `true` when the target is
/// empty and there is nothing to compare.
pub open spec fn advert_verdict(advert: AdvertView, branch: Seq<u8>) -> Outcome<bool> {
    if advert.empty {
        Ok(true)
    } else {
        match advert.head_symref {
            None => Err(
                conflict_error(
                    "the publication target does not resolve its default branch"@,
                    "it advertises no HEAD symref, so it cannot be confirmed to use "@ + escape(
                        branch_ref_of(branch),
                    ),
                ),
            ),
            Some(symref) => if symref != branch_ref_of(branch) {
                Err(
                    conflict_error(
                        "the publication target's default branch is not this grove's"@,
                        "the target's HEAD names "@ + escape(symref)
                            + ", this grove's default branch is "@ + escape(
                            branch_ref_of(branch),
                        ),
                    ),
                )
            } else if object_from(advert.heads, branch_ref_of(branch), 0) is None {
                Err(
                    conflict_error(
                        "the publication target does not have this grove's default branch"@,
                        "it does not advertise "@ + escape(branch_ref_of(branch))
                            + ", so it cannot be compared with this grove"@,
                    ),
                )
            } else {
                Ok(false)
            },
        }
    }
}

/// What comparing the target's branch with the grove's decides.
pub open spec fn ancestry_verdict(verdict: Ancestry, branch: Seq<u8>) -> Outcome<()> {
    match verdict {
        Ancestry::Ancestor => Ok(()),
        Ancestry::NotAncestor => Err(
            conflict_error(
                "the publication target has diverged from this grove"@,
                "its "@ + escape(branch_ref_of(branch))
                    + " is not an ancestor of this grove's; publish never force-pushes and never merges"@,
            ),
        ),
        Ancestry::MissingObject => Err(
            conflict_error(
                "the publication probe ref vanished while it was being compared"@,
                "another `git grove publish` may be running in this grove; retry when it has finished"@,
            ),
        ),
    }
}

/// Comparing the target's branch through a probe ref, which is deleted whatever the verdict.
pub open spec fn probe_run(
    s: Session,
    root: Seq<u8>,
    url: Seq<u8>,
    branch: Seq<u8>,
    nonce: Outcome<Seq<char>>,
) -> (Session, Outcome<()>) {
    match fetch_probe_run(s, root, url, branch, nonce) {
        (s1, Err(e)) => (s1, Err(e)),
        (s1, Ok(name)) => {
            let (s2, verdict) = ancestry_run(s1, root, name, branch_ref_of(branch));
            let (s3, deleted) = delete_probe_run(s2, root, name);
            match verdict {
                Err(e) => (s3, Err(e)),
                Ok(v) => match deleted {
                    Err(e) => (s3, Err(e)),
                    Ok(_) => (s3, ancestry_verdict(v, branch)),
                },
            }
        },
    }
}

/// Inspecting the target without changing it, and what there is to tell about it.
pub open spec fn inspect_run(
    s: Session,
    root: Seq<u8>,
    url: Seq<u8>,
    branch: Seq<u8>,
    nonce: Outcome<Seq<char>>,
) -> (Session, Outcome<Seq<Seq<char>>>) {
    match purge_run(s, root) {
        (s1, Err(e)) => (s1, Err(e)),
        (s1, Ok(purged)) => match advertise_run(s1, url) {
            (s2, Err(e)) => (s2, Err(e)),
            (s2, Ok(advert)) => match advert_verdict(advert, branch) {
                Err(e) => (s2, Err(e)),
                Ok(true) => (s2, Ok(purge_notes(purged))),
                Ok(false) => match probe_run(s2, root, url, branch, nonce) {
                    (s3, Err(e)) => (s3, Err(e)),
                    (s3, Ok(_)) => (s3, Ok(purge_notes(purged))),
                },
            },
        },
    }
}

pub open spec fn notes_outcome(r: Result<Vec<String>>) -> Outcome<Seq<Seq<char>>> {
    match r {
        Ok(list) => Ok(texts(list@)),
        Err(e) => Err(e@),
    }
}

fn notes_of(purged: &Vec<Vec<u8>>) -> (r: Vec<String>)
    ensures
        texts(r@) == purge_notes(views(purged@)),
{
    let ghost all = purge_notes(views(purged@));
    let mut notes: Vec<String> = Vec::new();
    let mut i: usize = 0;
    proof {
        assert(texts(notes@) =~= all.subrange(0, 0));
    }
    while i < purged.len()
        invariant
            i <= purged.len(),
            all == purge_notes(views(purged@)),
            texts(notes@) == all.subrange(0, i as int),
        decreases purged.len() - i,
    {
        notes.push(
            text("removed a leftover publication probe ref ").concat(
                escaped(purged[i].as_slice()).as_str(),
            ),
        );
        proof {
            assert(all[i as int] == purge_note(purged@[i as int]@));
            assert(all.subrange(0, i + 1) =~= all.subrange(0, i as int).push(all[i as int]));
        }
        i = i + 1;
    }
    proof {
        assert(all.subrange(0, i as int) =~= all);
    }
    notes
}

/// Decides by what a target advertises whether it can be compared at all.
pub fn judge_advertisement(advert: &crate::git::remote::RemoteAdvert, flight: &Preflight) -> (r:
    Result<bool>)
    ensures
        plain(r) == advert_verdict(advert@, flight.default_branch@),
{
    if advert.empty {
        return Ok(true);
    }
    let default_ref = flight.default_ref();
    match &advert.head_symref {
        None => {
            return Err(
                conflict(
                    text("the publication target does not resolve its default branch"),
                    text(
                        "it advertises no HEAD symref, so it cannot be confirmed to use ",
                    ).concat(escaped(default_ref.as_slice()).as_str()),
                ),
            );
        },
        Some(symref) => {
            if !same(symref.as_slice(), default_ref.as_slice()) {
                return Err(
                    conflict(
                        text("the publication target's default branch is not this grove's"),
                        text("the target's HEAD names ").concat(
                            escaped(symref.as_slice()).as_str(),
                        ).concat(", this grove's default branch is ").concat(
                            escaped(default_ref.as_slice()).as_str(),
                        ),
                    ),
                );
            }
        },
    }
    if advert.head_oid_for(flight.default_branch.as_slice()).is_none() {
        return Err(
            conflict(
                text("the publication target does not have this grove's default branch"),
                text("it does not advertise ").concat(
                    escaped(default_ref.as_slice()).as_str(),
                ).concat(", so it cannot be compared with this grove"),
            ),
        );
    }
    Ok(false)
}

fn judge_ancestry(verdict: Ancestry, flight: &Preflight) -> (r: Result<()>)
    ensures
        plain(r) == ancestry_verdict(verdict, flight.default_branch@),
{
    match verdict {
        Ancestry::Ancestor => Ok(()),
        Ancestry::NotAncestor => Err(
            conflict(
                text("the publication target has diverged from this grove"),
                text("its ").concat(escaped(flight.default_ref().as_slice()).as_str()).concat(
                    " is not an ancestor of this grove's; publish never force-pushes and never merges",
                ),
            ),
        ),
        Ancestry::MissingObject => Err(
            conflict(
                text("the publication probe ref vanished while it was being compared"),
                text(
                    "another `git grove publish` may be running in this grove; retry when it has finished",
                ),
            ),
        ),
    }
}

/// Inspects the target without changing it. On every path the probe ref is gone again.
pub fn inspect_target<R: GitRunner + ?Sized>(
    runner: &mut R,
    grove: &Grove,
    request: &Request,
    flight: &Preflight,
) -> (r: Result<Vec<String>>)
    ensures
        exists|nonce: Outcome<Seq<char>>|
            possible_nonce(nonce) && (final(runner).session(), notes_outcome(r))
                == #[trigger] inspect_run(
                old(runner).session(),
                grove.root@,
                request.url@,
                flight.default_branch@,
                nonce,
            ),
{
    let ghost any = crate::fsx::nonce::some_nonce();
    let ghost start = runner.session();
    let ghost (root, url, branch) = (grove.root@, request.url@, flight.default_branch@);
    proof {
        crate::fsx::nonce::some_nonce_is_possible();
        assert(possible_nonce(any));
    }
    let purged = match purge_probe_refs(runner, grove) {
        Ok(purged) => purged,
        Err(e) => {
            proof {
                assert((runner.session(), Err::<Seq<Seq<char>>, ErrorView>(e@)) == inspect_run(
                    start,
                    root,
                    url,
                    branch,
                    any,
                ));
            }
            return Err(e);
        },
    };
    let notes = notes_of(&purged);
    let advert = match advertise(runner, request.url.as_slice()) {
        Ok(advert) => advert,
        Err(e) => {
            proof {
                assert((runner.session(), Err::<Seq<Seq<char>>, ErrorView>(e@)) == inspect_run(
                    start,
                    root,
                    url,
                    branch,
                    any,
                ));
            }
            return Err(e);
        },
    };
    let settled = match judge_advertisement(&advert, flight) {
        Ok(settled) => settled,
        Err(e) => {
            proof {
                assert((runner.session(), Err::<Seq<Seq<char>>, ErrorView>(e@)) == inspect_run(
                    start,
                    root,
                    url,
                    branch,
                    any,
                ));
            }
            return Err(e);
        },
    };
    if settled {
        proof {
            assert((runner.session(), Ok::<Seq<Seq<char>>, ErrorView>(texts(notes@)))
                == inspect_run(start, root, url, branch, any));
        }
        return Ok(notes);
    }
    let ghost before_probe = runner.session();
    let probe = fetch_probe(
        runner,
        grove,
        request.url.as_slice(),
        flight.default_branch.as_slice(),
    );
    let ghost nonce = choose|nonce: Outcome<Seq<char>>|
        possible_nonce(nonce) && (runner.session(), crate::git::remote::probe_outcome(probe))
            == #[trigger] fetch_probe_run(before_probe, root, url, branch, nonce);
    let probe = match probe {
        Ok(probe) => probe,
        Err(e) => {
            proof {
                assert((runner.session(), Err::<Seq<Seq<char>>, ErrorView>(e@)) == inspect_run(
                    start,
                    root,
                    url,
                    branch,
                    nonce,
                ));
            }
            return Err(e);
        },
    };
    let default_ref = flight.default_ref();
    let verdict = is_ancestor(runner, grove, probe.name.as_slice(), default_ref.as_slice());
    let deleted = delete_probe_ref(runner, grove, probe.name.as_slice());
    let r = match verdict {
        Err(e) => Err(e),
        Ok(v) => match deleted {
            Err(e) => Err(e),
            Ok(_) => match judge_ancestry(v, flight) {
                Err(e) => Err(e),
                Ok(_) => Ok(notes),
            },
        },
    };
    proof {
        assert((runner.session(), notes_outcome(r)) == inspect_run(
            start,
            root,
            url,
            branch,
            nonce,
        ));
    }
    r
}

} // verus!
