//! The hosting providers' command-line tools, run in the same way as Git.
use vstd::prelude::*;
use crate::bytes::{
    bytes_of, copied, copied_list, find, lemma_views_push, lit, position, split, split_on,
    strip_prefix, views, without_prefix, DOT, LF, SPACE,
};
use crate::error::{
    bytes_outcome, detailed, failure, failure_error, plain, usage, ErrorView, GroveError, Result,
};
use crate::fsx::files::{
    ask_bytes, bytes_step, do_request, done_step, FileRequest, FileSession, FileSystem,
};
use crate::fsx::mountinfo::{parse_u64, parsed_u64};
use crate::fsx::nonce::{
    hex_nonce, nonce_outcome, possible_nonce, some_nonce, some_nonce_is_possible,
};
use crate::git::config::Outcome;
use crate::path::{child, is_within, join_path, parent_of, parent_path, within};
use crate::git::runner::{args1, empty_success, queue_script, OutputView, Reply};
use crate::text::{decimal_nat, lossy, lossy_text, number, text, trim_end, trim_start, trimmed};

verus! {

broadcast use lemma_views_push;

/// A hosting provider.
#[derive(Debug, Clone, Copy, PartialEq, Eq, Structural)]
pub enum Provider {
    GitHub,
    GitLab,
}

pub open spec fn program_of(provider: Provider) -> Seq<char> {
    match provider {
        Provider::GitHub => "gh"@,
        Provider::GitLab => "glab"@,
    }
}

pub open spec fn host_of(provider: Provider) -> Seq<char> {
    match provider {
        Provider::GitHub => "github.com"@,
        Provider::GitLab => "gitlab.com"@,
    }
}

pub open spec fn host_variable(provider: Provider) -> Seq<char> {
    match provider {
        Provider::GitHub => "GH_HOST"@,
        Provider::GitLab => "GITLAB_HOST"@,
    }
}

impl Provider {
    /// The program that speaks for this provider.
    pub fn program(self) -> (r: &'static str)
        ensures
            r@ == program_of(self),
    {
        match self {
            Provider::GitHub => "gh",
            Provider::GitLab => "glab",
        }
    }

    /// The variable that pins the host, and the value it is pinned to. Only this provider's own
    /// children get it.
    pub fn host_env(self) -> (r: (&'static str, &'static str))
        ensures
            r.0@ == host_variable(self),
            r.1@ == host_of(self),
    {
        match self {
            Provider::GitHub => ("GH_HOST", "github.com"),
            Provider::GitLab => ("GITLAB_HOST", "gitlab.com"),
        }
    }
}

/// What a provider child left behind.
#[derive(Debug)]
pub struct ProviderOutput {
    pub status: i32,
    pub stdout: Vec<u8>,
    pub stderr: Vec<u8>,
}

impl View for ProviderOutput {
    type V = OutputView;

    open spec fn view(&self) -> OutputView {
        OutputView { status: self.status as int, stdout: self.stdout@, stderr: self.stderr@ }
    }
}

/// What a provider had to say: its diagnostics, or its output when it gave none.
pub open spec fn diagnostic_of(out: OutputView) -> Seq<char> {
    let said = trim_end(trim_start(lossy_text(out.stderr)));
    if said.len() > 0 {
        said
    } else {
        trim_end(trim_start(lossy_text(out.stdout)))
    }
}

impl ProviderOutput {
    pub fn ok(&self) -> (r: bool)
        ensures
            r == self@.ok(),
    {
        self.status == 0
    }

    /// What the child had to say, for a user to read.
    pub fn diagnostic_detail(&self) -> (r: String)
        ensures
            r@ == diagnostic_of(self@),
    {
        let said = trimmed(lossy(self.stderr.as_slice()).as_str());
        if !said.as_str().is_empty() {
            return said;
        }
        trimmed(lossy(self.stdout.as_slice()).as_str())
    }

    /// A copy of the output.
    pub fn copied(&self) -> (r: ProviderOutput)
        ensures
            r@ == self@,
    {
        ProviderOutput {
            status: self.status,
            stdout: copied(self.stdout.as_slice()),
            stderr: copied(self.stderr.as_slice()),
        }
    }
}

pub open spec fn provider_reply(r: Result<ProviderOutput>) -> Reply {
    match r {
        Ok(output) => Ok(output@),
        Err(e) => Err(e@),
    }
}

/// A provider, and the arguments of its child.
pub type ProviderCall = (Provider, Seq<Seq<u8>>);

/// The provider children so far, and what a child answers after those before it.
pub struct ProviderSession {
    pub calls: Seq<ProviderCall>,
    pub script: spec_fn(Seq<ProviderCall>) -> Reply,
}

/// One more provider child, and its answer.
pub open spec fn provider_step(s: ProviderSession, provider: Provider, args: Seq<Seq<u8>>) -> (
    ProviderSession,
    Reply,
) {
    (
        ProviderSession { calls: s.calls.push((provider, args)), script: s.script },
        (s.script)(s.calls.push((provider, args))),
    )
}

/// Runs provider children, one at a time.
pub trait ProviderRunner {
    /// The children run through this runner, and the answers it will give.
    spec fn session(&self) -> ProviderSession;

    /// Runs one child to its end.
    fn run(&mut self, provider: Provider, args: Vec<Vec<u8>>) -> (r: Result<ProviderOutput>)
        ensures
            (final(self).session(), provider_reply(r)) == provider_step(
                old(self).session(),
                provider,
                views(args@),
            ),
    ;
}

// ------------------------------------------------------------------ the child

/// How a provider child is started.
#[derive(Debug)]
pub struct ProviderCommand {
    pub program: &'static str,
    pub args: Vec<Vec<u8>>,
    pub current_dir: Vec<u8>,
    /// Variables set for the child.
    pub set: Vec<(&'static str, &'static str)>,
    /// Variables the child does not inherit.
    pub removed: Vec<&'static str>,
}

/// Describes the child for one provider invocation: it runs in `scratch`, its host is pinned,
/// and it inherits no repository override.
pub fn build_command(provider: Provider, args: &Vec<Vec<u8>>, scratch: &[u8]) -> (r: ProviderCommand)
    ensures
        r.program@ == program_of(provider),
        views(r.args@) == views(args@),
        r.current_dir@ == scratch@,
        r.set@.len() == 1,
        r.set@[0].0@ == host_variable(provider),
        r.set@[0].1@ == host_of(provider),
        r.removed@.len() == 1,
        r.removed@[0]@ == "GH_REPO"@,
{
    let mut set: Vec<(&'static str, &'static str)> = Vec::new();
    set.push(provider.host_env());
    let mut removed: Vec<&'static str> = Vec::new();
    removed.push("GH_REPO");
    ProviderCommand {
        program: provider.program(),
        args: copied_list(args),
        current_dir: copied(scratch),
        set,
        removed,
    }
}

/// The children of the real providers, which never run inside the grove.
pub struct RealProvider {
    grove_root: Vec<u8>,
}

impl RealProvider {
    pub closed spec fn root(&self) -> Seq<u8> {
        self.grove_root@
    }

    pub fn new(grove_root: &[u8]) -> (r: RealProvider)
        ensures
            r.root() == grove_root@,
    {
        RealProvider { grove_root: copied(grove_root) }
    }

    /// The root of the grove whose provider this is.
    pub fn grove_root(&self) -> (r: &[u8])
        ensures
            r@ == self.root(),
    {
        self.grove_root.as_slice()
    }
}

// --------------------------------------------------------- where the children run

/// The name of a scratch directory.
pub open spec fn scratch_name(nonce: Seq<char>) -> Seq<u8> {
    vstd::utf8::encode_utf8(".git-grove-provider-"@ + nonce)
}

/// Making a directory for a child to run in: beside the grove, for its owner alone, and not
/// inside the grove wherever links lead.
pub open spec fn scratch_run(f: FileSession, root: Seq<u8>, nonce: Outcome<Seq<char>>) -> (
    FileSession,
    Outcome<Seq<u8>>,
) {
    match parent_of(root) {
        None => (
            f,
            Err(
                failure(
                    "the grove root has no parent directory for a provider scratch directory"@,
                ),
            ),
        ),
        Some(parent) => match nonce {
            Err(e) => (f, Err(e)),
            Ok(digits) => {
                let scratch = child(parent, scratch_name(digits));
                match done_step(f, FileRequest::MakeDirectory(scratch, 0x1c0)) {
                    (f1, Err(e)) => (
                        f1,
                        Err(failure("cannot create a provider scratch directory: "@ + e.text)),
                    ),
                    (f1, Ok(_)) => match bytes_step(f1, FileRequest::Canonicalize(scratch)) {
                        (f2, Err(e)) => (
                            f2,
                            Err(
                                failure(
                                    "cannot canonicalise the provider scratch directory: "@
                                        + e.text,
                                ),
                            ),
                        ),
                        (f2, Ok(canonical)) => if within(canonical, root) {
                            (
                                f2,
                                Err(
                                    failure(
                                        "the provider scratch directory lies inside the grove"@,
                                    ),
                                ),
                            )
                        } else {
                            (f2, Ok(canonical))
                        },
                    },
                }
            },
        },
    }
}

/// A directory that a child is given to run in does not lie inside the grove, and what was asked
/// to be made for it stands beside the grove.
pub proof fn children_run_outside_the_grove(
    f: FileSession,
    root: Seq<u8>,
    nonce: Outcome<Seq<char>>,
)
    ensures
        ({
            let (f1, r) = scratch_run(f, root, nonce);
            r matches Ok(place) ==> {
                &&& !within(place, root)
                &&& parent_of(root) matches Some(parent)
                &&& nonce matches Ok(digits)
                &&& f1.calls == f.calls.push(
                    FileRequest::MakeDirectory(child(parent, scratch_name(digits)), 0x1c0),
                ).push(FileRequest::Canonicalize(child(parent, scratch_name(digits))))
            }
        }),
{
}

/// Makes a directory for a child to run in. It stands beside the grove and not in the temporary
/// directory, which the environment could place inside the grove.
pub fn create_scratch_dir<F: FileSystem + ?Sized>(files: &mut F, grove_root: &[u8]) -> (r: Result<
    Vec<u8>,
>)
    ensures
        exists|nonce: Outcome<Seq<char>>|
            possible_nonce(nonce) && (final(files).files(), bytes_outcome(r))
                == #[trigger] scratch_run(old(files).files(), grove_root@, nonce),
        r matches Ok(path) ==> !within(path@, grove_root@),
{
    let ghost f = files.files();
    let parent = match parent_path(grove_root) {
        None => {
            let e = failure_error(
                "the grove root has no parent directory for a provider scratch directory",
            );
            proof {
                some_nonce_is_possible();
                assert((files.files(), Err::<Seq<u8>, ErrorView>(e@)) == scratch_run(
                    f,
                    grove_root@,
                    some_nonce(),
                ));
            }
            return Err(e);
        },
        Some(parent) => parent,
    };
    let drawn = hex_nonce();
    let ghost nonce = nonce_outcome(drawn);
    let r = match drawn {
        Err(e) => Err(e),
        Ok(digits) => make_scratch_dir(files, grove_root, parent.as_slice(), digits.as_str()),
    };
    proof {
        assert((files.files(), bytes_outcome(r)) == scratch_run(f, grove_root@, nonce));
    }
    r
}

fn make_scratch_dir<F: FileSystem + ?Sized>(
    files: &mut F,
    grove_root: &[u8],
    parent: &[u8],
    digits: &str,
) -> (r: Result<Vec<u8>>)
    requires
        parent_of(grove_root@) == Some(parent@),
    ensures
        (final(files).files(), bytes_outcome(r)) == scratch_run(
            old(files).files(),
            grove_root@,
            Ok(digits@),
        ),
{
    let name = text(".git-grove-provider-").concat(digits);
    let scratch = join_path(parent, name.as_str().as_bytes());
    match do_request(files, FileRequest::MakeDirectory(copied(scratch.as_slice()), 0x1c0)) {
        Err(e) => return Err(
            GroveError::failure(
                text("cannot create a provider scratch directory: ").concat(e.text.as_str()),
            ),
        ),
        Ok(_) => {},
    }
    let canonical = match ask_bytes(files, FileRequest::Canonicalize(scratch)) {
        Err(e) => return Err(
            GroveError::failure(
                text("cannot canonicalise the provider scratch directory: ").concat(
                    e.text.as_str(),
                ),
            ),
        ),
        Ok(canonical) => canonical,
    };
    if is_within(canonical.as_slice(), grove_root) {
        return Err(failure_error("the provider scratch directory lies inside the grove"));
    }
    Ok(canonical)
}

// ------------------------------------------------------------------- versions

/// The version of a provider's program.
#[derive(Debug, Clone, Copy, PartialEq, Eq, Structural)]
pub struct ProviderVersion {
    pub major: u64,
    pub minor: u64,
}

/// The oldest versions known to work.
pub const MINIMUM_GH: (u64, u64) = (2, 97);
pub const MINIMUM_GLAB: (u64, u64) = (1, 114);

pub open spec fn banner_of(provider: Provider) -> Seq<u8> {
    match provider {
        Provider::GitHub => lit("gh version "),
        Provider::GitLab => lit("glab "),
    }
}

/// The first word of a byte string.
pub open spec fn first_word(s: Seq<u8>) -> Seq<u8> {
    let line = s.subrange(0, find(s, LF));
    line.subrange(0, find(line, SPACE))
}

/// The version that follows a banner.
pub open spec fn announced(banner: Seq<u8>, stdout: Seq<u8>) -> Option<ProviderVersion> {
    match without_prefix(stdout, banner) {
        None => None,
        Some(rest) => {
            let fields = split(first_word(rest), DOT);
            if fields.len() < 2 {
                None
            } else {
                match (parsed_u64(fields[0]), parsed_u64(fields[1])) {
                    (Some(major), Some(minor)) => Some(ProviderVersion { major, minor }),
                    _ => None,
                }
            }
        },
    }
}

/// The version that a provider's program announces.
pub open spec fn version_in(provider: Provider, stdout: Seq<u8>) -> Option<ProviderVersion> {
    announced(banner_of(provider), stdout)
}

pub open spec fn at_least(version: ProviderVersion, major: u64, minor: u64) -> bool {
    version.major > major || (version.major == major && version.minor >= minor)
}

pub open spec fn minimum_of(provider: Provider) -> (u64, u64) {
    match provider {
        Provider::GitHub => MINIMUM_GH,
        Provider::GitLab => MINIMUM_GLAB,
    }
}

/// A later version is accepted wherever an earlier one is.
pub proof fn accepted_versions_are_upward_closed(
    a: ProviderVersion,
    b: ProviderVersion,
    major: u64,
    minor: u64,
)
    requires
        at_least(a, major, minor),
        at_least(b, a.major, a.minor),
    ensures
        at_least(b, major, minor),
{
}

impl ProviderVersion {
    pub fn at_least(&self, major: u64, minor: u64) -> (r: bool)
        ensures
            r == at_least(*self, major, minor),
    {
        self.major > major || (self.major == major && self.minor >= minor)
    }

    /// Reads the version that follows a banner.
    pub fn after_banner(banner: &str, stdout: &[u8]) -> (r: Option<ProviderVersion>)
        ensures
            r == announced(lit(banner), stdout@),
    {
        let rest = match strip_prefix(stdout, banner.as_bytes()) {
            None => return None,
            Some(rest) => rest,
        };
        let line = vstd::slice::slice_subrange(rest, 0, position(rest, LF));
        let word = vstd::slice::slice_subrange(line, 0, position(line, SPACE));
        let fields = split_on(word, DOT);
        let ghost all = views(fields@);
        proof {
            assert(all.len() == fields@.len());
        }
        if fields.len() < 2 {
            return None;
        }
        proof {
            assert(all[0] == fields@[0]@ && all[1] == fields@[1]@);
        }
        match (parse_u64(fields[0].as_slice()), parse_u64(fields[1].as_slice())) {
            (Some(major), Some(minor)) => Some(ProviderVersion { major, minor }),
            _ => None,
        }
    }

    /// Reads the version from the output of `--version`.
    pub fn parse(provider: Provider, stdout: &[u8]) -> (r: Option<ProviderVersion>)
        ensures
            r == version_in(provider, stdout@),
    {
        match provider {
            Provider::GitHub => ProviderVersion::after_banner("gh version ", stdout),
            Provider::GitLab => ProviderVersion::after_banner("glab ", stdout),
        }
    }
}

/// What the answer to `--version` decides.
pub open spec fn version_verdict(provider: Provider, out: OutputView) -> Outcome<()> {
    if !out.ok() {
        Err(
            detailed(
                failure("cannot run "@ + program_of(provider) + " --version"@),
                trim_end(trim_start(lossy_text(out.stderr))),
            ),
        )
    } else {
        match version_in(provider, out.stdout) {
            None => Err(
                failure("cannot parse the version of "@ + program_of(provider)),
            ),
            Some(version) => if at_least(version, minimum_of(provider).0, minimum_of(provider).1) {
                Ok(())
            } else {
                Err(
                    usage(
                        program_of(provider) + " "@ + decimal_nat(minimum_of(provider).0 as nat)
                            + "."@ + decimal_nat(minimum_of(provider).1 as nat)
                            + " or newer is required"@,
                    ),
                )
            },
        }
    }
}

pub open spec fn version_run(p: ProviderSession, provider: Provider) -> (
    ProviderSession,
    Outcome<()>,
) {
    match provider_step(p, provider, args1(lit("--version"))) {
        (p1, Err(e)) => (p1, Err(e)),
        (p1, Ok(out)) => (p1, version_verdict(provider, out)),
    }
}

/// A list of one fixed argument.
pub fn one_word(word: &str) -> (r: Vec<Vec<u8>>)
    ensures
        views(r@) == args1(lit(word)),
{
    let mut args: Vec<Vec<u8>> = Vec::new();
    proof {
        assert(views(args@) =~= Seq::empty());
    }
    args.push(bytes_of(word));
    args
}

/// Refuses a provider program that is older than what is known to work.
pub fn check_provider_version<P: ProviderRunner + ?Sized>(runner: &mut P, provider: Provider) -> (r:
    Result<()>)
    ensures
        (final(runner).session(), plain(r)) == version_run(old(runner).session(), provider),
{
    let output = runner.run(provider, one_word("--version"))?;
    if !output.ok() {
        return Err(
            GroveError::failure(
                text("cannot run ").concat(provider.program()).concat(" --version"),
            ).with_detail(trimmed(lossy(output.stderr.as_slice()).as_str())),
        );
    }
    let version = match ProviderVersion::parse(provider, output.stdout.as_slice()) {
        None => return Err(
            GroveError::failure(
                text("cannot parse the version of ").concat(provider.program()),
            ),
        ),
        Some(version) => version,
    };
    let (major, minor) = match provider {
        Provider::GitHub => MINIMUM_GH,
        Provider::GitLab => MINIMUM_GLAB,
    };
    if !version.at_least(major, minor) {
        return Err(
            GroveError::usage(
                text(provider.program()).concat(" ").concat(number(major).as_str()).concat(
                    ".",
                ).concat(number(minor).as_str()).concat(" or newer is required"),
            ),
        );
    }
    Ok(())
}

// ----------------------------------------------------------------------- fake

/// A runner that starts no child: it records every invocation and answers from a queue, and
/// with an empty success once the queue is used up.
pub struct RecordingFake {
    calls: Vec<(Provider, Vec<Vec<u8>>)>,
    queue: Vec<ProviderOutput>,
    served: Ghost<Seq<OutputView>>,
}

pub open spec fn call_views(list: Seq<(Provider, Vec<Vec<u8>>)>) -> Seq<(Provider, Seq<Seq<u8>>)> {
    list.map_values(|c: (Provider, Vec<Vec<u8>>)| (c.0, views(c.1@)))
}

pub open spec fn provider_outputs(list: Seq<ProviderOutput>) -> Seq<OutputView> {
    list.map_values(|o: ProviderOutput| o@)
}

impl RecordingFake {
    #[verifier::type_invariant]
    spec fn in_step(self) -> bool {
        self.served@.len() == self.calls@.len()
    }

    /// The answers already given.
    pub closed spec fn answered(&self) -> Seq<OutputView> {
        self.served@
    }

    /// The answers still queued.
    pub closed spec fn queued(&self) -> Seq<OutputView> {
        provider_outputs(self.queue@)
    }

    pub fn new() -> (r: RecordingFake)
        ensures
            r.session().calls == Seq::<(Provider, Seq<Seq<u8>>)>::empty(),
            r.session().script == queue_script::<ProviderCall>(r.answered(), r.queued()),
            r.answered() == Seq::<OutputView>::empty(),
            r.queued() == Seq::<OutputView>::empty(),
    {
        let r = RecordingFake { calls: Vec::new(), queue: Vec::new(), served: Ghost(Seq::empty()) };
        proof {
            assert(call_views(r.calls@) =~= Seq::<(Provider, Seq<Seq<u8>>)>::empty());
            assert(provider_outputs(r.queue@) =~= Seq::<OutputView>::empty());
        }
        r
    }

    /// Queues one more answer.
    pub fn push_response(&mut self, output: ProviderOutput)
        ensures
            final(self).session().calls == old(self).session().calls,
            final(self).session().script == queue_script::<ProviderCall>(
                final(self).answered(),
                final(self).queued(),
            ),
            final(self).answered() == old(self).answered(),
            final(self).queued() == old(self).queued().push(output@),
    {
        proof {
            use_type_invariant(&*self);
        }
        let ghost before = provider_outputs(self.queue@);
        let mut queue: Vec<ProviderOutput> = Vec::new();
        std::mem::swap(&mut self.queue, &mut queue);
        queue.push(output);
        self.queue = queue;
        proof {
            assert(provider_outputs(self.queue@) =~= before.push(output@));
        }
    }

    /// Every invocation made so far, in order.
    pub fn calls(&self) -> (r: Vec<(Provider, Vec<Vec<u8>>)>)
        ensures
            call_views(r@) == self.session().calls,
    {
        let mut out: Vec<(Provider, Vec<Vec<u8>>)> = Vec::new();
        let mut i: usize = 0;
        proof {
            assert(call_views(out@) =~= call_views(self.calls@).subrange(0, 0));
        }
        while i < self.calls.len()
            invariant
                i <= self.calls.len(),
                call_views(out@) == call_views(self.calls@).subrange(0, i as int),
            decreases self.calls.len() - i,
        {
            let ghost before = call_views(out@);
            let ghost item = (self.calls@[i as int].0, views(self.calls@[i as int].1@));
            out.push((self.calls[i].0, copied_list(&self.calls[i].1)));
            proof {
                assert(call_views(out@) =~= before.push(item));
                assert(call_views(self.calls@).subrange(0, i + 1) =~= call_views(
                    self.calls@,
                ).subrange(0, i as int).push(item));
            }
            i = i + 1;
        }
        proof {
            assert(call_views(self.calls@).subrange(0, i as int) =~= call_views(self.calls@));
        }
        out
    }
}

impl ProviderRunner for RecordingFake {
    closed spec fn session(&self) -> ProviderSession {
        ProviderSession {
            calls: call_views(self.calls@),
            script: queue_script(self.served@, provider_outputs(self.queue@)),
        }
    }

    fn run(&mut self, provider: Provider, args: Vec<Vec<u8>>) -> (r: Result<ProviderOutput>)
        ensures
            final(self).answered().len() == old(self).answered().len() + 1,
            final(self).answered().drop_last() == old(self).answered(),
            final(self).queued() == if old(self).queued().len() == 0 {
                old(self).queued()
            } else {
                old(self).queued().drop_first()
            },
    {
        proof {
            use_type_invariant(&*self);
        }
        let ghost served = self.served@;
        let ghost queue0 = provider_outputs(self.queue@);
        let ghost calls0 = call_views(self.calls@);
        let ghost item = (provider, views(args@));
        let mut whole = RecordingFake::new();
        std::mem::swap(self, &mut whole);
        let RecordingFake { mut calls, mut queue, served: _ } = whole;
        let output = if queue.len() == 0 {
            ProviderOutput { status: 0, stdout: Vec::new(), stderr: Vec::new() }
        } else {
            queue.remove(0)
        };
        let ghost answer = output@;
        calls.push((provider, args));
        *self = RecordingFake { calls, queue, served: Ghost(served.push(answer)) };
        proof {
            assert(call_views(self.calls@) =~= calls0.push(item));
            assert(provider_outputs(self.queue@) =~= if queue0.len() == 0 {
                queue0
            } else {
                queue0.subrange(1, queue0.len() as int)
            });
            if queue0.len() == 0 {
                assert(answer =~= empty_success());
            }
            assert(queue_script::<ProviderCall>(
                self.served@,
                provider_outputs(self.queue@),
            ) =~= queue_script(served, queue0));
        }
        Ok(output)
    }
}

} // verus!
