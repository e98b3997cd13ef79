//! Create the hosting side's repository through its command-line tool, then publish to it.
//!
//! A creation stops once on its way: what the provider reports of the repository is its own
//! format, and the caller turns it into a [`ReportedRepository`]. [`begin_create`] leads up to
//! that point and [`finish_create`] goes on from there.
use vstd::prelude::*;
use crate::bytes::{
    bytes_of, copied, is_lit, joined, lemma_views_push, lit, opt_slice, same, strip_suffix, views,
    without_suffix, LF,
};
use crate::commands::publish::{
    accept_rerun, check_publishable_repository, conflict, conflict_error, provider_slug,
    publishable_run, remote_name_run, report_outcome, rerun, slug_of, validate_remote_name,
    Preflight, PublishReport, ReportView, Request, RequestView, Resume,
};
use crate::commands::publish_push::{live_remote_url, live_url_run, target_of, when_enabled};
use crate::commands::publish_run::{
    heal_incomplete_creating_receipt, heal_run, publication, run_with_provider, Course,
};
use crate::error::{
    bytes_outcome, detailed, error_text, failure, failure_error, plain, ErrorView, GroveError,
    Result,
};
use crate::fsx::nonce::{possible_nonce, some_nonce, some_nonce_is_possible};
use crate::git::config::Outcome;
use crate::git::provider::{
    check_provider_version, diagnostic_of, host_of, program_of, provider_reply, provider_step,
    version_run, Provider, ProviderOutput, ProviderRunner, ProviderSession,
};
use crate::git::runner::{args2, args4, args5, args7, GitRunner, OutputView, Session};
use crate::grove::discover::Grove;
use crate::grove::metadata::{
    creating_in, creating_receipt, read, read_run, receipt, receipt_in, rollback_creating_receipt,
    rollback_run, write_creating_receipt, write_creating_run, write_receipt, write_receipt_run,
    CreatingReceipt, CreatingView, Metadata, MetadataView, PublishState, Receipt, ReceiptView,
};
use crate::text::{escape, escaped, lossy, lossy_text, text, trim_end, trim_start, trimmed};

verus! {

broadcast use lemma_views_push;

/// What was asked for, as raw bytes.
#[derive(Debug)]
pub struct CreateRequest {
    pub owner: Vec<u8>,
    pub name: Vec<u8>,
    pub provider: Provider,
    pub public: bool,
    pub remote: Vec<u8>,
    pub all_branches: bool,
}

pub struct CreateView {
    pub owner: Seq<u8>,
    pub name: Seq<u8>,
    pub provider: Provider,
    pub public: bool,
    pub remote: Seq<u8>,
    pub all_branches: bool,
}

impl View for CreateRequest {
    type V = CreateView;

    open spec fn view(&self) -> CreateView {
        CreateView {
            owner: self.owner@,
            name: self.name@,
            provider: self.provider,
            public: self.public,
            remote: self.remote@,
            all_branches: self.all_branches,
        }
    }
}

/// What the record says a creation is.
#[derive(Debug, PartialEq, Eq)]
pub enum CreateResume {
    /// Nothing is recorded and nothing is in the way.
    Fresh,
    /// An interrupted creation of the same repository.
    Continue,
    /// The repository was created already; its publication goes on.
    ResumeExisting(Request),
}

pub enum ResumeView {
    Fresh,
    Continue,
    ResumeExisting(RequestView),
}

impl View for CreateResume {
    type V = ResumeView;

    open spec fn view(&self) -> ResumeView {
        match self {
            CreateResume::Fresh => ResumeView::Fresh,
            CreateResume::Continue => ResumeView::Continue,
            CreateResume::ResumeExisting(request) => ResumeView::ResumeExisting(request@),
        }
    }
}

// -------------------------------------------------------------- reconciliation

/// Whether a recorded creation is the requested one.
pub open spec fn same_creation(c: CreatingView, r: CreateView) -> bool {
    c.provider == slug_of(r.provider) && c.owner == r.owner && c.name == r.name && c.remote
        == r.remote
}

pub open spec fn other_creation(c: CreatingView, r: CreateView) -> ErrorView {
    conflict_error(
        "this grove records a different `--create` request"@,
        "recorded "@ + escape(c.owner) + "/"@ + escape(c.name) + " on "@ + escape(c.provider)
            + " via remote "@ + escape(c.remote) + "; requested "@ + escape(r.owner) + "/"@
            + escape(r.name) + " on "@ + escape(slug_of(r.provider)) + " via remote "@ + escape(
            r.remote,
        ),
    )
}

/// What a creation may be, by what is recorded and configured.
pub open spec fn reconciled(m: MetadataView, live: Option<Seq<u8>>, r: CreateView) -> Outcome<
    ResumeView,
> {
    match creating_in(m) {
        Err(e) => Err(e),
        Ok(None) => match receipt_in(m) {
            Err(e) => Err(e),
            Ok(recorded) => {
                let url = match recorded {
                    Some(rec) => rec.url,
                    None => seq![],
                };
                match rerun(
                    m,
                    live,
                    RequestView { url, remote: r.remote, all_branches: r.all_branches },
                ) {
                    Err(e) => Err(e),
                    Ok(Resume::Fresh) => Ok(ResumeView::Fresh),
                    Ok(_) => Err(
                        conflict_error(
                            "this grove already has a publication in progress or complete"@,
                            "`--create` only applies before a remote exists"@,
                        ),
                    ),
                }
            },
        },
        Ok(Some(c)) => if !same_creation(c, r) {
            Err(other_creation(c, r))
        } else if m.publish_state == PublishState::Creating {
            Ok(ResumeView::Continue)
        } else {
            match receipt_in(m) {
                Err(e) => Err(e),
                Ok(None) => Err(
                    failure(
                        "this grove's creation receipt is complete but its classic publication receipt is missing"@,
                    ),
                ),
                Ok(Some(rec)) => Ok(
                    ResumeView::ResumeExisting(
                        RequestView {
                            url: rec.url,
                            remote: rec.remote,
                            all_branches: r.all_branches,
                        },
                    ),
                ),
            }
        },
    }
}

/// A creation goes on only as the one recorded: an accepted continuation has the recorded
/// provider, owner, name and remote, and a first attempt finds no creation recorded at all.
pub proof fn creations_never_change_target(m: MetadataView, live: Option<Seq<u8>>, r: CreateView)
    requires
        reconciled(m, live, r) is Ok,
    ensures
        match reconciled(m, live, r)->Ok_0 {
            ResumeView::Fresh => creating_in(m) == Ok::<Option<CreatingView>, ErrorView>(None)
                && live is None,
            ResumeView::Continue => m.publish_state == PublishState::Creating && same_creation(
                creating_in(m)->Ok_0->Some_0,
                r,
            ),
            ResumeView::ResumeExisting(request) => same_creation(
                creating_in(m)->Ok_0->Some_0,
                r,
            ) && request.url == receipt_in(m)->Ok_0->Some_0.url,
        },
{
    if reconciled(m, live, r)->Ok_0 is Fresh {
        let url = match receipt_in(m)->Ok_0 {
            Some(rec) => rec.url,
            None => seq![],
        };
        crate::commands::publish::accepted_runs_agree_with_the_record(
            m,
            live,
            RequestView { url, remote: r.remote, all_branches: r.all_branches },
        );
    }
}

pub open spec fn resume_outcome(r: Result<CreateResume>) -> Outcome<ResumeView> {
    match r {
        Ok(v) => Ok(v@),
        Err(e) => Err(e@),
    }
}

/// Decides what a creation may be, before any provider is asked.
pub fn reconcile_create(
    metadata: &Metadata,
    live_remote_url: Option<&[u8]>,
    create_request: &CreateRequest,
) -> (r: Result<CreateResume>)
    ensures
        resume_outcome(r) == reconciled(metadata@, opt_slice(live_remote_url), create_request@),
{
    let recorded = match creating_receipt(metadata)? {
        Some(recorded) => recorded,
        None => {
            let url = match receipt(metadata)? {
                Some(rec) => rec.url,
                None => Vec::new(),
            };
            proof {
                assert(receipt_in(metadata@)->Ok_0 is None ==> url@ =~= seq![]);
            }
            let synthetic = Request {
                url,
                remote: copied(create_request.remote.as_slice()),
                all_branches: create_request.all_branches,
            };
            return match accept_rerun(metadata, live_remote_url, &synthetic)? {
                Resume::Fresh => Ok(CreateResume::Fresh),
                _ => Err(
                    conflict(
                        text("this grove already has a publication in progress or complete"),
                        text("`--create` only applies before a remote exists"),
                    ),
                ),
            };
        },
    };
    let slug = provider_slug(create_request.provider);
    if !same(recorded.provider.as_slice(), slug.as_bytes()) || !same(
        recorded.owner.as_slice(),
        create_request.owner.as_slice(),
    ) || !same(recorded.name.as_slice(), create_request.name.as_slice()) || !same(
        recorded.remote.as_slice(),
        create_request.remote.as_slice(),
    ) {
        return Err(
            conflict(
                text("this grove records a different `--create` request"),
                text("recorded ").concat(escaped(recorded.owner.as_slice()).as_str()).concat(
                    "/",
                ).concat(escaped(recorded.name.as_slice()).as_str()).concat(" on ").concat(
                    escaped(recorded.provider.as_slice()).as_str(),
                ).concat(" via remote ").concat(
                    escaped(recorded.remote.as_slice()).as_str(),
                ).concat("; requested ").concat(
                    escaped(create_request.owner.as_slice()).as_str(),
                ).concat("/").concat(escaped(create_request.name.as_slice()).as_str()).concat(
                    " on ",
                ).concat(escaped(slug.as_bytes()).as_str()).concat(" via remote ").concat(
                    escaped(create_request.remote.as_slice()).as_str(),
                ),
            ),
        );
    }
    if metadata.publish_state == PublishState::Creating {
        return Ok(CreateResume::Continue);
    }
    match receipt(metadata)? {
        None => Err(
            failure_error(
                "this grove's creation receipt is complete but its classic publication receipt is missing",
            ),
        ),
        Some(classic) => Ok(
            CreateResume::ResumeExisting(
                Request {
                    url: classic.url,
                    remote: classic.remote,
                    all_branches: create_request.all_branches,
                },
            ),
        ),
    }
}

// ------------------------------------------------------------ asking the provider

pub open spec fn request_target(r: CreateView) -> Seq<u8> {
    target_of(r.owner, r.name)
}

/// `<owner>/<name>`.
pub fn create_target(create_request: &CreateRequest) -> (r: Vec<u8>)
    ensures
        r@ == request_target(create_request@),
{
    joined(
        joined(create_request.owner.as_slice(), "/".as_bytes()).as_slice(),
        create_request.name.as_slice(),
    )
}

/// A repository as a provider reports it, in plain values.
#[derive(Debug)]
pub struct ReportedRepository {
    pub https_url: Vec<u8>,
    pub ssh_url: Vec<u8>,
    pub is_empty: bool,
    /// The owner and name that the provider itself reports, with a slash between them.
    pub full_name: Vec<u8>,
}

pub struct ReportedView {
    pub https_url: Seq<u8>,
    pub ssh_url: Seq<u8>,
    pub is_empty: bool,
    pub full_name: Seq<u8>,
}

impl View for ReportedRepository {
    type V = ReportedView;

    open spec fn view(&self) -> ReportedView {
        ReportedView {
            https_url: self.https_url@,
            ssh_url: self.ssh_url@,
            is_empty: self.is_empty,
            full_name: self.full_name@,
        }
    }
}

/// What a query for a repository established, and whether it is the one asked for.
#[derive(Debug)]
pub struct RepoView {
    pub https_url: Vec<u8>,
    pub ssh_url: Vec<u8>,
    pub is_empty: bool,
    pub matches_target: bool,
}

pub struct RepoModel {
    pub https_url: Seq<u8>,
    pub ssh_url: Seq<u8>,
    pub is_empty: bool,
    pub matches_target: bool,
}

impl View for RepoView {
    type V = RepoModel;

    open spec fn view(&self) -> RepoModel {
        RepoModel {
            https_url: self.https_url@,
            ssh_url: self.ssh_url@,
            is_empty: self.is_empty,
            matches_target: self.matches_target,
        }
    }
}

pub open spec fn viewed(reported: ReportedView, r: CreateView) -> RepoModel {
    RepoModel {
        https_url: reported.https_url,
        ssh_url: reported.ssh_url,
        is_empty: reported.is_empty,
        matches_target: reported.full_name == request_target(r),
    }
}

/// Holds what a provider reported against what was asked for.
pub fn repo_view(reported: ReportedRepository, create_request: &CreateRequest) -> (r: RepoView)
    ensures
        r@ == viewed(reported@, create_request@),
{
    let requested = create_target(create_request);
    let matches_target = same(reported.full_name.as_slice(), requested.as_slice());
    RepoView {
        https_url: reported.https_url,
        ssh_url: reported.ssh_url,
        is_empty: reported.is_empty,
        matches_target,
    }
}

pub open spec fn unparsable(provider: Provider, why: Seq<char>) -> ErrorView {
    failure("cannot parse `"@ + program_of(provider) + " repo view` output: "@ + why)
}

pub open spec fn indeterminate(r: CreateView, cause: ErrorView) -> ErrorView {
    detailed(
        failure(
            "cannot confirm whether "@ + escape(request_target(r)) + " exists on "@ + host_of(
                r.provider,
            ),
        ),
        error_text(cause)
            + ". This grove stays in `creating`; clear grove.publishProvider, grove.publishOwner, grove.publishName, and grove.publishRemote by hand to force a fresh attempt, or rerun once the failure is resolved"@,
    )
}

pub open spec fn view_args(r: CreateView) -> Seq<Seq<u8>> {
    match r.provider {
        Provider::GitHub => args5(
            lit("repo"),
            lit("view"),
            request_target(r),
            lit("--json"),
            lit("url,sshUrl,isEmpty,nameWithOwner"),
        ),
        Provider::GitLab => args5(
            lit("repo"),
            lit("view"),
            request_target(r),
            lit("-F"),
            lit("json"),
        ),
    }
}

/// Asking the provider for a repository: its report, or nothing when there is no such
/// repository. Every exit status other than zero counts as there being none.
pub open spec fn query_run(p: ProviderSession, r: CreateView) -> (
    ProviderSession,
    Outcome<Option<Seq<u8>>>,
) {
    match provider_step(p, r.provider, view_args(r)) {
        (p1, Err(e)) => (p1, Err(indeterminate(r, e))),
        (p1, Ok(out)) => if out.ok() {
            (p1, Ok(Some(out.stdout)))
        } else {
            (p1, Ok(None))
        },
    }
}

fn no_args() -> (r: Vec<Vec<u8>>)
    ensures
        views(r@) == Seq::<Seq<u8>>::empty(),
{
    let args: Vec<Vec<u8>> = Vec::new();
    proof {
        assert(views(args@) =~= Seq::empty());
    }
    args
}

/// Asks the provider for the repository.
pub fn query_repo_view<P: ProviderRunner + ?Sized>(
    provider_runner: &mut P,
    create_request: &CreateRequest,
) -> (r: Result<Option<Vec<u8>>>)
    ensures
        (final(provider_runner).session(), crate::git::query::opt_outcome(r)) == query_run(
            old(provider_runner).session(),
            create_request@,
        ),
{
    let target = create_target(create_request);
    let mut args = no_args();
    args.push(bytes_of("repo"));
    args.push(bytes_of("view"));
    args.push(copied(target.as_slice()));
    match create_request.provider {
        Provider::GitHub => {
            args.push(bytes_of("--json"));
            args.push(bytes_of("url,sshUrl,isEmpty,nameWithOwner"));
        },
        Provider::GitLab => {
            args.push(bytes_of("-F"));
            args.push(bytes_of("json"));
        },
    }
    match provider_runner.run(create_request.provider, args) {
        Err(cause) => Err(
            GroveError::failure(
                text("cannot confirm whether ").concat(escaped(target.as_slice()).as_str()).concat(
                    " exists on ",
                ).concat(create_request.provider.host_env().1),
            ).with_detail(
                cause.to_text().concat(
                    ". This grove stays in `creating`; clear grove.publishProvider, grove.publishOwner, grove.publishName, and grove.publishRemote by hand to force a fresh attempt, or rerun once the failure is resolved",
                ),
            ),
        ),
        Ok(output) => if output.ok() {
            Ok(Some(output.stdout))
        } else {
            Ok(None)
        },
    }
}

pub open spec fn create_args(r: CreateView, branch: Seq<u8>) -> Seq<Seq<u8>> {
    let visibility = if r.public {
        lit("--public")
    } else {
        lit("--private")
    };
    match r.provider {
        Provider::GitHub => args4(lit("repo"), lit("create"), request_target(r), visibility),
        Provider::GitLab => args7(
            lit("repo"),
            lit("create"),
            request_target(r),
            visibility,
            lit("--skipGitInit"),
            lit("--defaultBranch"),
            branch,
        ),
    }
}

/// Asks the provider to create the repository, without an initial commit.
pub fn call_create<P: ProviderRunner + ?Sized>(
    provider_runner: &mut P,
    create_request: &CreateRequest,
    flight: &Preflight,
) -> (r: Result<ProviderOutput>)
    ensures
        (final(provider_runner).session(), provider_reply(r)) == provider_step(
            old(provider_runner).session(),
            create_request.provider,
            create_args(create_request@, flight.default_branch@),
        ),
{
    let mut args = no_args();
    args.push(bytes_of("repo"));
    args.push(bytes_of("create"));
    args.push(create_target(create_request));
    if create_request.public {
        args.push(bytes_of("--public"));
    } else {
        args.push(bytes_of("--private"));
    }
    match create_request.provider {
        Provider::GitHub => {},
        Provider::GitLab => {
            args.push(bytes_of("--skipGitInit"));
            args.push(bytes_of("--defaultBranch"));
            args.push(copied(flight.default_branch.as_slice()));
        },
    }
    provider_runner.run(create_request.provider, args)
}

/// Why a creation failed. That GitHub wants authentication is for the user to decide about.
pub open spec fn creation_failure(r: CreateView, out: OutputView) -> ErrorView {
    if r.provider == Provider::GitHub && out.status == 4 {
        conflict_error(
            "could not create "@ + escape(request_target(r)) + " on "@ + host_of(r.provider),
            diagnostic_of(out),
        )
    } else {
        detailed(
            failure(
                "cannot create "@ + escape(request_target(r)) + " on "@ + host_of(r.provider),
            ),
            diagnostic_of(out),
        )
    }
}

/// Why a creation failed.
pub fn create_failure_error(create_request: &CreateRequest, output: &ProviderOutput) -> (r:
    GroveError)
    ensures
        r@ == creation_failure(create_request@, output@),
{
    let detail = output.diagnostic_detail();
    let target = escaped(create_target(create_request).as_slice());
    let host = create_request.provider.host_env().1;
    if create_request.provider == Provider::GitHub && output.status == 4 {
        conflict(
            text("could not create ").concat(target.as_str()).concat(" on ").concat(host),
            detail,
        )
    } else {
        GroveError::failure(
            text("cannot create ").concat(target.as_str()).concat(" on ").concat(host),
        ).with_detail(detail)
    }
}

pub open spec fn unrelated(r: CreateView) -> ErrorView {
    conflict_error(
        "the publication target is an unrelated existing repository"@,
        escape(request_target(r)) + " exists on "@ + host_of(r.provider)
            + " but does not match what this grove recorded creating"@,
    )
}

/// Accepting a repository that is the one asked for; any other takes the creation receipt back.
pub open spec fn finish_view_run(s: Session, root: Seq<u8>, r: CreateView, view: RepoModel) -> (
    Session,
    Outcome<RepoModel>,
) {
    if view.matches_target {
        (s, Ok(view))
    } else {
        match rollback_run(s, root) {
            (s1, Err(e)) => (s1, Err(e)),
            (s1, Ok(_)) => (s1, Err(unrelated(r))),
        }
    }
}

pub open spec fn view_outcome(r: Result<RepoView>) -> Outcome<RepoModel> {
    match r {
        Ok(v) => Ok(v@),
        Err(e) => Err(e@),
    }
}

/// Accepts a repository that is the one asked for.
pub fn finish_repo_view<R: GitRunner + ?Sized>(
    runner: &mut R,
    grove: &Grove,
    create_request: &CreateRequest,
    view: RepoView,
) -> (r: Result<RepoView>)
    ensures
        (final(runner).session(), view_outcome(r)) == finish_view_run(
            old(runner).session(),
            grove.root@,
            create_request@,
            view@,
        ),
{
    if view.matches_target {
        return Ok(view);
    }
    rollback_creating_receipt(runner, grove)?;
    Err(
        conflict(
            text("the publication target is an unrelated existing repository"),
            escaped(create_target(create_request).as_slice()).concat(" exists on ").concat(
                create_request.provider.host_env().1,
            ).concat(" but does not match what this grove recorded creating"),
        ),
    )
}

// ------------------------------------------------------------------- sequencing

/// What a creation that is sure to have happened, or not, leads to.
pub open spec fn after_create_run(
    s: Session,
    p: ProviderSession,
    root: Seq<u8>,
    r: CreateView,
    created: OutputView,
) -> (Session, ProviderSession, Outcome<Seq<u8>>) {
    match query_run(p, r) {
        (p1, Err(e)) => (s, p1, Err(e)),
        (p1, Ok(Some(report))) => (s, p1, Ok(report)),
        (p1, Ok(None)) => if created.ok() {
            (
                s,
                p1,
                Err(
                    failure(
                        "the hosting side reported success creating the repository, but a follow-up query cannot find it"@,
                    ),
                ),
            )
        } else {
            match rollback_run(s, root) {
                (s1, Err(e)) => (s1, p1, Err(e)),
                (s1, Ok(_)) => (s1, p1, Err(creation_failure(r, created))),
            }
        },
    }
}

/// Asking for creation, and for what came of it.
pub open spec fn create_and_query_run(
    s: Session,
    p: ProviderSession,
    root: Seq<u8>,
    r: CreateView,
    branch: Seq<u8>,
) -> (Session, ProviderSession, Outcome<Seq<u8>>) {
    match provider_step(p, r.provider, create_args(r, branch)) {
        (p1, Err(e)) => (s, p1, Err(e)),
        (p1, Ok(created)) => after_create_run(s, p1, root, r, created),
    }
}

/// Getting the provider's report of the repository. A continuation asks first, and creates only
/// what is missing; whether a creation worked is told by asking, never by what it printed.
pub open spec fn sequencing_run(
    s: Session,
    p: ProviderSession,
    root: Seq<u8>,
    r: CreateView,
    branch: Seq<u8>,
    continuing: bool,
) -> (Session, ProviderSession, Outcome<Seq<u8>>) {
    if continuing {
        match query_run(p, r) {
            (p1, Err(e)) => (s, p1, Err(e)),
            (p1, Ok(Some(report))) => (s, p1, Ok(report)),
            (p1, Ok(None)) => create_and_query_run(s, p1, root, r, branch),
        }
    } else {
        create_and_query_run(s, p, root, r, branch)
    }
}

/// Gets the provider's report of the repository, creating it where that is due.
pub fn run_sequencing<R: GitRunner + ?Sized, P: ProviderRunner + ?Sized>(
    runner: &mut R,
    provider_runner: &mut P,
    grove: &Grove,
    create_request: &CreateRequest,
    flight: &Preflight,
    continuing: bool,
) -> (r: Result<Vec<u8>>)
    ensures
        (final(runner).session(), final(provider_runner).session(), bytes_outcome(r))
            == sequencing_run(
            old(runner).session(),
            old(provider_runner).session(),
            grove.root@,
            create_request@,
            flight.default_branch@,
            continuing,
        ),
{
    if continuing {
        match query_repo_view(provider_runner, create_request)? {
            Some(report) => {
                return Ok(report);
            },
            None => {},
        }
    }
    let created = call_create(provider_runner, create_request, flight)?;
    match query_repo_view(provider_runner, create_request)? {
        Some(report) => Ok(report),
        None => {
            if created.ok() {
                return Err(
                    failure_error(
                        "the hosting side reported success creating the repository, but a follow-up query cannot find it",
                    ),
                );
            }
            rollback_creating_receipt(runner, grove)?;
            Err(create_failure_error(create_request, &created))
        },
    }
}

/// A continuation that finds the repository never asks for its creation.
pub proof fn a_found_repository_is_never_created_again(
    s: Session,
    p: ProviderSession,
    root: Seq<u8>,
    r: CreateView,
    branch: Seq<u8>,
)
    requires
        query_run(p, r).1 is Ok,
        query_run(p, r).1->Ok_0 is Some,
    ensures
        sequencing_run(s, p, root, r, branch, true).0 == s,
        sequencing_run(s, p, root, r, branch, true).1.calls == p.calls.push(
            (r.provider, view_args(r)),
        ),
{
}

// -------------------------------------------------------------------- the URL

/// The protocol that the provider is configured to use; `https` wherever that cannot be told.
pub open spec fn protocol_run(p: ProviderSession, provider: Provider) -> (ProviderSession, Seq<u8>) {
    let (p1, reply) = provider_step(
        p,
        provider,
        args5(
            lit("config"),
            lit("get"),
            lit("git_protocol"),
            lit("--host"),
            vstd::utf8::encode_utf8(host_of(provider)),
        ),
    );
    match reply {
        Err(_) => (p1, lit("https")),
        Ok(out) => if !out.ok() {
            (p1, lit("https"))
        } else {
            let value = match without_suffix(out.stdout, seq![LF]) {
                Some(v) => v,
                None => out.stdout,
            };
            if value.len() == 0 {
                (p1, lit("https"))
            } else {
                (p1, value)
            }
        },
    }
}

/// The protocol that the provider is configured to use for its own host.
pub fn configured_git_protocol<P: ProviderRunner + ?Sized>(
    provider_runner: &mut P,
    provider: Provider,
) -> (r: Vec<u8>)
    ensures
        (final(provider_runner).session(), r@) == protocol_run(
            old(provider_runner).session(),
            provider,
        ),
{
    let mut args = no_args();
    args.push(bytes_of("config"));
    args.push(bytes_of("get"));
    args.push(bytes_of("git_protocol"));
    args.push(bytes_of("--host"));
    args.push(bytes_of(provider.host_env().1));
    let output = match provider_runner.run(provider, args) {
        Err(_) => return bytes_of("https"),
        Ok(output) => output,
    };
    if !output.ok() {
        return bytes_of("https");
    }
    let mut end: Vec<u8> = Vec::new();
    end.push(LF);
    proof {
        assert(end@ =~= seq![LF]);
    }
    let value = match strip_suffix(output.stdout.as_slice(), end.as_slice()) {
        Some(v) => v,
        None => output.stdout.as_slice(),
    };
    if value.len() == 0 {
        return bytes_of("https");
    }
    copied(value)
}

/// Choosing the URL by the configured protocol, and recording it.
pub open spec fn derive_run(
    s: Session,
    p: ProviderSession,
    root: Seq<u8>,
    r: CreateView,
    view: RepoModel,
) -> (Session, ProviderSession, Outcome<RequestView>) {
    let (p1, protocol) = protocol_run(p, r.provider);
    let url = if protocol == lit("ssh") {
        view.ssh_url
    } else {
        view.https_url
    };
    match write_receipt_run(
        s,
        root,
        PublishState::Publishing,
        ReceiptView { remote: r.remote, url },
    ) {
        (s1, Err(e)) => (s1, p1, Err(e)),
        (s1, Ok(_)) => (
            s1,
            p1,
            Ok(RequestView { url, remote: r.remote, all_branches: r.all_branches }),
        ),
    }
}

pub open spec fn request_outcome(r: Result<Request>) -> Outcome<RequestView> {
    match r {
        Ok(v) => Ok(v@),
        Err(e) => Err(e@),
    }
}

/// Chooses the URL by the configured protocol and records it, byte for byte as reported.
pub fn derive_and_publish<R: GitRunner + ?Sized, P: ProviderRunner + ?Sized>(
    runner: &mut R,
    provider_runner: &mut P,
    grove: &Grove,
    create_request: &CreateRequest,
    view: RepoView,
) -> (r: Result<Request>)
    ensures
        (final(runner).session(), final(provider_runner).session(), request_outcome(r))
            == derive_run(
            old(runner).session(),
            old(provider_runner).session(),
            grove.root@,
            create_request@,
            view@,
        ),
{
    let protocol = configured_git_protocol(provider_runner, create_request.provider);
    let url = if is_lit(protocol.as_slice(), "ssh") {
        view.ssh_url
    } else {
        view.https_url
    };
    write_receipt(
        runner,
        grove,
        PublishState::Publishing,
        &Receipt {
            remote: copied(create_request.remote.as_slice()),
            url: copied(url.as_slice()),
        },
    )?;
    Ok(
        Request {
            url,
            remote: copied(create_request.remote.as_slice()),
            all_branches: create_request.all_branches,
        },
    )
}

// ------------------------------------------------------------- authentication

pub open spec fn auth_run(p: ProviderSession, provider: Provider) -> (ProviderSession, Outcome<()>) {
    match provider_step(p, provider, args2(lit("auth"), lit("status"))) {
        (p1, Err(e)) => (p1, Err(e)),
        (p1, Ok(out)) => if out.ok() {
            (p1, Ok(()))
        } else {
            (
                p1,
                Err(
                    conflict_error(
                        "could not confirm authentication for "@ + host_of(provider),
                        trim_end(trim_start(lossy_text(out.stderr))),
                    ),
                ),
            )
        },
    }
}

/// Checks, by its exit status alone, that the provider's tool is authenticated.
pub fn check_provider_auth<P: ProviderRunner + ?Sized>(
    provider_runner: &mut P,
    provider: Provider,
) -> (r: Result<()>)
    ensures
        (final(provider_runner).session(), plain(r)) == auth_run(
            old(provider_runner).session(),
            provider,
        ),
{
    let mut args = no_args();
    args.push(bytes_of("auth"));
    args.push(bytes_of("status"));
    let output = provider_runner.run(provider, args)?;
    if output.ok() {
        Ok(())
    } else {
        Err(
            conflict(
                text("could not confirm authentication for ").concat(provider.host_env().1),
                trimmed(lossy(output.stderr.as_slice()).as_str()),
            ),
        )
    }
}

// ---------------------------------------------------------------------- the whole

/// How far a creation has come when its first half is over.
#[derive(Debug)]
pub enum CreateProgress {
    /// The repository is known already; this is what to publish.
    Known(Request),
    /// The provider's report of the repository, still in the provider's format.
    Reported(Vec<u8>),
}

pub enum ProgressView {
    Known(RequestView),
    Reported(Seq<u8>),
}

impl View for CreateProgress {
    type V = ProgressView;

    open spec fn view(&self) -> ProgressView {
        match self {
            CreateProgress::Known(request) => ProgressView::Known(request@),
            CreateProgress::Reported(report) => ProgressView::Reported(report@),
        }
    }
}

pub open spec fn creating_for(r: CreateView) -> CreatingView {
    CreatingView {
        provider: slug_of(r.provider),
        owner: r.owner,
        name: r.name,
        remote: r.remote,
    }
}

/// The creation itself, once it is clear what it is.
pub open spec fn resolved_run(
    s: Session,
    p: ProviderSession,
    root: Seq<u8>,
    r: CreateView,
    branch: Seq<u8>,
    resume: ResumeView,
) -> (Session, ProviderSession, Outcome<ProgressView>) {
    match resume {
        ResumeView::ResumeExisting(request) => (s, p, Ok(ProgressView::Known(request))),
        ResumeView::Fresh => match write_creating_run(s, root, creating_for(r)) {
            (s1, Err(e)) => (s1, p, Err(e)),
            (s1, Ok(_)) => reported(sequencing_run(s1, p, root, r, branch, false)),
        },
        ResumeView::Continue => reported(sequencing_run(s, p, root, r, branch, true)),
    }
}

pub open spec fn reported(c: (Session, ProviderSession, Outcome<Seq<u8>>)) -> (
    Session,
    ProviderSession,
    Outcome<ProgressView>,
) {
    (
        c.0,
        c.1,
        match c.2 {
            Ok(report) => Ok(ProgressView::Reported(report)),
            Err(e) => Err(e),
        },
    )
}

/// The first half of a creation: the version gate, the local checks, the authentication, the
/// reconciliation with the record, and the creation itself.
pub open spec fn begin_run(
    s: Session,
    p: ProviderSession,
    root: Seq<u8>,
    m: MetadataView,
    r: CreateView,
) -> (Session, ProviderSession, Outcome<ProgressView>) {
    match heal_run(s, root, m) {
        (s1, Err(e)) => (s1, p, Err(e)),
        (s1, Ok(healed)) => match version_run(p, r.provider) {
            (p1, Err(e)) => (s1, p1, Err(e)),
            (p1, Ok(_)) => match remote_name_run(s1, r.remote) {
                (s2, Err(e)) => (s2, p1, Err(e)),
                (s2, Ok(_)) => match publishable_run(s2, root, healed) {
                    (s3, Err(e)) => (s3, p1, Err(e)),
                    (s3, Ok(branch)) => match auth_run(p1, r.provider) {
                        (p2, Err(e)) => (s3, p2, Err(e)),
                        (p2, Ok(_)) => match live_url_run(s3, root, r.remote) {
                            (s4, Err(e)) => (s4, p2, Err(e)),
                            (s4, Ok(live)) => match reconciled(healed, live, r) {
                                Err(e) => (s4, p2, Err(e)),
                                Ok(resume) => resolved_run(s4, p2, root, r, branch, resume),
                            },
                        },
                    },
                },
            },
        },
    }
}

pub open spec fn progress_outcome(r: Result<CreateProgress>) -> Outcome<ProgressView> {
    match r {
        Ok(v) => Ok(v@),
        Err(e) => Err(e@),
    }
}

/// Creates the repository where that is due, once it is clear what the creation is.
pub fn resolve_create<R: GitRunner + ?Sized, P: ProviderRunner + ?Sized>(
    git_runner: &mut R,
    provider_runner: &mut P,
    grove: &Grove,
    create_request: &CreateRequest,
    flight: &Preflight,
    resume: CreateResume,
) -> (r: Result<CreateProgress>)
    ensures
        (final(git_runner).session(), final(provider_runner).session(), progress_outcome(r))
            == resolved_run(
            old(git_runner).session(),
            old(provider_runner).session(),
            grove.root@,
            create_request@,
            flight.default_branch@,
            resume@,
        ),
{
    match resume {
        CreateResume::ResumeExisting(request) => Ok(CreateProgress::Known(request)),
        CreateResume::Fresh => {
            write_creating_receipt(
                git_runner,
                grove,
                &CreatingReceipt {
                    provider: bytes_of(provider_slug(create_request.provider)),
                    owner: copied(create_request.owner.as_slice()),
                    name: copied(create_request.name.as_slice()),
                    remote: copied(create_request.remote.as_slice()),
                },
            )?;
            let report = run_sequencing(
                git_runner,
                provider_runner,
                grove,
                create_request,
                flight,
                false,
            )?;
            Ok(CreateProgress::Reported(report))
        },
        CreateResume::Continue => {
            let report = run_sequencing(
                git_runner,
                provider_runner,
                grove,
                create_request,
                flight,
                true,
            )?;
            Ok(CreateProgress::Reported(report))
        },
    }
}

/// The first half of a creation, up to the provider's report of the repository.
pub fn begin_create<R: GitRunner + ?Sized, P: ProviderRunner + ?Sized>(
    git_runner: &mut R,
    provider_runner: &mut P,
    grove: &Grove,
    metadata: &Metadata,
    create_request: &CreateRequest,
) -> (r: Result<CreateProgress>)
    ensures
        (final(git_runner).session(), final(provider_runner).session(), progress_outcome(r))
            == begin_run(
            old(git_runner).session(),
            old(provider_runner).session(),
            grove.root@,
            metadata@,
            create_request@,
        ),
{
    let healed = heal_incomplete_creating_receipt(git_runner, grove, metadata)?;
    check_provider_version(provider_runner, create_request.provider)?;
    validate_remote_name(git_runner, create_request.remote.as_slice())?;
    let flight = check_publishable_repository(git_runner, grove, &healed)?;
    check_provider_auth(provider_runner, create_request.provider)?;
    let live = live_remote_url(git_runner, grove, create_request.remote.as_slice())?;
    let live_slice: Option<&[u8]> = match &live {
        Some(url) => Some(url.as_slice()),
        None => None,
    };
    let resume = reconcile_create(&healed, live_slice, create_request)?;
    resolve_create(git_runner, provider_runner, grove, create_request, &flight, resume)
}

/// What the caller made of a provider's report: the repository, or why it could not be read.
pub open spec fn parsed_view(parsed: std::result::Result<ReportedRepository, String>) -> std::result::Result<
    ReportedView,
    Seq<char>,
> {
    match parsed {
        Ok(v) => Ok(v@),
        Err(why) => Err(why@),
    }
}

/// What to publish, by what the provider reported.
pub open spec fn accept_run(
    s: Session,
    p: ProviderSession,
    root: Seq<u8>,
    r: CreateView,
    parsed: std::result::Result<ReportedView, Seq<char>>,
) -> (Session, ProviderSession, Outcome<RequestView>) {
    match parsed {
        Err(why) => (s, p, Err(unparsable(r.provider, why))),
        Ok(reported) => match finish_view_run(s, root, r, viewed(reported, r)) {
            (s1, Err(e)) => (s1, p, Err(e)),
            (s1, Ok(view)) => derive_run(s1, p, root, r, view),
        },
    }
}

/// Takes what the provider reported and chooses what to publish.
pub fn accept_report<R: GitRunner + ?Sized, P: ProviderRunner + ?Sized>(
    git_runner: &mut R,
    provider_runner: &mut P,
    grove: &Grove,
    create_request: &CreateRequest,
    parsed: std::result::Result<ReportedRepository, String>,
) -> (r: Result<Request>)
    ensures
        (final(git_runner).session(), final(provider_runner).session(), request_outcome(r))
            == accept_run(
            old(git_runner).session(),
            old(provider_runner).session(),
            grove.root@,
            create_request@,
            parsed_view(parsed),
        ),
{
    let reported = match parsed {
        Err(why) => return Err(
            GroveError::failure(
                text("cannot parse `").concat(create_request.provider.program()).concat(
                    " repo view` output: ",
                ).concat(why.as_str()),
            ),
        ),
        Ok(reported) => reported,
    };
    let view = finish_repo_view(
        git_runner,
        grove,
        create_request,
        repo_view(reported, create_request),
    )?;
    derive_and_publish(git_runner, provider_runner, grove, create_request, view)
}

/// The last part of a creation: the record read again, and the publication.
pub open spec fn finish_run(
    s: Session,
    p: ProviderSession,
    root: Seq<u8>,
    request: RequestView,
    guide: Option<Seq<u8>>,
    nonce: Outcome<Seq<char>>,
) -> Course<ReportView> {
    match read_run(s, root) {
        (s1, Err(e)) => (s1, Some(p), Err(e)),
        (s1, Ok(m)) => publication(s1, Some(p), root, m, request, guide, nonce),
    }
}

/// Publishes what a creation led to. `guide` is what `AGENTS.md` in the grove's root holds, when
/// it can be read.
pub fn finish_create<R: GitRunner + ?Sized, P: ProviderRunner + ?Sized>(
    git_runner: &mut R,
    provider_runner: &mut P,
    grove: &Grove,
    request: &Request,
    guide: Option<&[u8]>,
) -> (r: Result<PublishReport>)
    ensures
        exists|nonce: Outcome<Seq<char>>|
            possible_nonce(nonce) && (
                final(git_runner).session(),
                Some(final(provider_runner).session()),
                report_outcome(r),
            ) == #[trigger] finish_run(
                old(git_runner).session(),
                old(provider_runner).session(),
                grove.root@,
                request@,
                opt_slice(guide),
                nonce,
            ),
{
    let ghost start = git_runner.session();
    let ghost p = provider_runner.session();
    let metadata = match read(git_runner, grove) {
        Ok(metadata) => metadata,
        Err(e) => {
            proof {
                some_nonce_is_possible();
                assert((git_runner.session(), Some(p), Err::<ReportView, ErrorView>(e@))
                    == finish_run(
                    start,
                    p,
                    grove.root@,
                    request@,
                    opt_slice(guide),
                    some_nonce(),
                ));
            }
            return Err(e);
        },
    };
    let ghost middle = git_runner.session();
    let r = run_with_provider(
        git_runner,
        provider_runner,
        true,
        grove,
        &metadata,
        request,
        guide,
    );
    proof {
        let nonce = choose|nonce: Outcome<Seq<char>>|
            possible_nonce(nonce) && (
                git_runner.session(),
                when_enabled(true, provider_runner.session()),
                report_outcome(r),
            ) == #[trigger] publication(
                middle,
                when_enabled(true, p),
                grove.root@,
                metadata@,
                request@,
                opt_slice(guide),
                nonce,
            );
        assert((
            git_runner.session(),
            Some(provider_runner.session()),
            report_outcome(r),
        ) == finish_run(start, p, grove.root@, request@, opt_slice(guide), nonce));
    }
    r
}

/// Whether this may have been made of what the first half of a creation came to, by a function
/// that reads a provider's report.
pub open spec fn may_read<F: Fn(Vec<u8>) -> std::result::Result<ReportedRepository, String>>(
    reader: F,
    progress: Outcome<ProgressView>,
    parsed: std::result::Result<ReportedView, Seq<char>>,
) -> bool {
    match progress {
        Ok(ProgressView::Reported(report)) => exists|
            bytes: Vec<u8>,
            made: std::result::Result<ReportedRepository, String>,
        |
            bytes@ == report && #[trigger] call_ensures(reader, (bytes,), made) && parsed_view(made)
                == parsed,
        _ => true,
    }
}

/// Creating a repository and publishing to it, where `parsed` is what is made of the provider's
/// report of the repository.
pub open spec fn create_run(
    s: Session,
    p: ProviderSession,
    root: Seq<u8>,
    m: MetadataView,
    r: CreateView,
    parsed: std::result::Result<ReportedView, Seq<char>>,
    guide: Option<Seq<u8>>,
    nonce: Outcome<Seq<char>>,
) -> Course<ReportView> {
    match begin_run(s, p, root, m, r) {
        (s1, p1, Err(e)) => (s1, Some(p1), Err(e)),
        (s1, p1, Ok(ProgressView::Known(request))) => finish_run(
            s1,
            p1,
            root,
            request,
            guide,
            nonce,
        ),
        (s1, p1, Ok(ProgressView::Reported(_))) => match accept_run(s1, p1, root, r, parsed) {
            (s2, p2, Err(e)) => (s2, Some(p2), Err(e)),
            (s2, p2, Ok(request)) => finish_run(s2, p2, root, request, guide, nonce),
        },
    }
}

/// Creates a repository at a provider and publishes to it. `reader` reads a provider's report of
/// a repository.
pub fn run_create<
    R: GitRunner + ?Sized,
    P: ProviderRunner + ?Sized,
    F: Fn(Vec<u8>) -> std::result::Result<ReportedRepository, String>,
>(
    git_runner: &mut R,
    provider_runner: &mut P,
    grove: &Grove,
    metadata: &Metadata,
    create_request: &CreateRequest,
    reader: F,
    guide: Option<&[u8]>,
) -> (r: Result<PublishReport>)
    requires
        forall|bytes: Vec<u8>| #[trigger] call_requires(reader, (bytes,)),
    ensures
        exists|parsed: std::result::Result<ReportedView, Seq<char>>, nonce: Outcome<Seq<char>>|
            possible_nonce(nonce) && may_read(
                reader,
                begin_run(
                    old(git_runner).session(),
                    old(provider_runner).session(),
                    grove.root@,
                    metadata@,
                    create_request@,
                ).2,
                parsed,
            ) && (
                final(git_runner).session(),
                Some(final(provider_runner).session()),
                report_outcome(r),
            ) == #[trigger] create_run(
                old(git_runner).session(),
                old(provider_runner).session(),
                grove.root@,
                metadata@,
                create_request@,
                parsed,
                opt_slice(guide),
                nonce,
            ),
{
    let ghost s = git_runner.session();
    let ghost p = provider_runner.session();
    let ghost unread: std::result::Result<ReportedView, Seq<char>> = Err(Seq::empty());
    let ghost progress = begin_run(s, p, grove.root@, metadata@, create_request@).2;
    let begun = begin_create(git_runner, provider_runner, grove, metadata, create_request);
    let ghost mut parsed = unread;
    let request = match begun {
        Err(e) => {
            proof {
                some_nonce_is_possible();
                assert(may_read(reader, progress, unread));
                assert((
                    git_runner.session(),
                    Some(provider_runner.session()),
                    Err::<ReportView, ErrorView>(e@),
                ) == create_run(
                    s,
                    p,
                    grove.root@,
                    metadata@,
                    create_request@,
                    unread,
                    opt_slice(guide),
                    some_nonce(),
                ));
            }
            return Err(e);
        },
        Ok(CreateProgress::Known(request)) => {
            proof {
                assert(may_read(reader, progress, parsed));
            }
            request
        },
        Ok(CreateProgress::Reported(report)) => {
            let ghost bytes = report;
            let made = reader(report);
            proof {
                parsed = parsed_view(made);
                assert(call_ensures(reader, (bytes,), made));
                assert(may_read(reader, progress, parsed));
            }
            match accept_report(git_runner, provider_runner, grove, create_request, made) {
                Err(e) => {
                    proof {
                        some_nonce_is_possible();
                        assert((
                            git_runner.session(),
                            Some(provider_runner.session()),
                            Err::<ReportView, ErrorView>(e@),
                        ) == create_run(
                            s,
                            p,
                            grove.root@,
                            metadata@,
                            create_request@,
                            parsed,
                            opt_slice(guide),
                            some_nonce(),
                        ));
                    }
                    return Err(e);
                },
                Ok(request) => request,
            }
        },
    };
    let ghost s1 = git_runner.session();
    let ghost p1 = provider_runner.session();
    let r = finish_create(git_runner, provider_runner, grove, &request, guide);
    proof {
        let nonce = choose|nonce: Outcome<Seq<char>>|
            possible_nonce(nonce) && (
                git_runner.session(),
                Some(provider_runner.session()),
                report_outcome(r),
            ) == #[trigger] finish_run(s1, p1, grove.root@, request@, opt_slice(guide), nonce);
        assert((git_runner.session(), Some(provider_runner.session()), report_outcome(r))
            == create_run(
            s,
            p,
            grove.root@,
            metadata@,
            create_request@,
            parsed,
            opt_slice(guide),
            nonce,
        ));
    }
    r
}

} // verus!
