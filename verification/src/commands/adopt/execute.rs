//! The course of an adoption: the phases in order, each begun only where it is not done yet.
use vstd::prelude::*;
use crate::bytes::{copied, copied_opt, is_lit, joined, lit, prefixed, views};
use crate::commands::adopt::evidence::{AdoptDecisionsProof, DecisionsView};
use crate::commands::adopt::forward::{
    create_payload_worktree, install_bare_repository, install_bare_run, install_payload,
    install_payload_run, install_private_run, install_private_state, make_staging, payload_of,
    reason, reason_of, register_run, snapshots_run, stage_payload, stage_payload_run, stage_run,
    verify_payload_snapshots, Site, SiteView,
};
use crate::commands::adopt::journal::{
    finish_phase, finish_run, progress_run, set_progress, ImmutablePlan, Journal, JournalView,
    PlanView, Progress, PHASES,
};
use crate::commands::adopt::steps::{
    attempt, attempt_run, create_parents, git_run, no_draws, parents_run, path_exists, run_ok,
    sync_dir, sync_run, there_run, unlock_if_locked, unlock_run,
};
use crate::error::{
    decision_error, failure, failure_error, needs_decision, plain, ErrorView, GroveError, Result,
};
use crate::fsx::files::{
    ask_names, names_step, FileRequest, FileSession, FileSystem,
};
use crate::fsx::write::{possible_draws, possible_nonces, Draws, Nonces};
use crate::git::config::Outcome;
use crate::git::runner::{
    args3, args4, args5, invoke_in, step, GitRunner, Invocation, InvocationView, Session,
};
use crate::grove::discover::{bare_of, config_of, Grove};
use crate::grove::metadata::{
    write_to_config, write_to_config_run, Metadata, MetadataView, PublishState, FORMAT_VERSION,
};
use crate::path::{child, join_path, join_word};
use crate::text::text;

verus! {

// ------------------------------------------------------- a worktree for the default branch

/// The child that makes a worktree for the default branch: of the local branch, or of a new one
/// that follows the remote's.
pub open spec fn default_call(
    bare: Seq<u8>,
    why: Seq<u8>,
    path: Seq<u8>,
    branch: Seq<u8>,
    remote: Option<Seq<u8>>,
) -> InvocationView {
    let start = args5(lit("worktree"), lit("add"), lit("--lock"), lit("--reason"), why);
    invoke_in(
        bare,
        match remote {
            None => start.push(lit("--")).push(path).push(branch),
            Some(r) => start.push(lit("--track")).push(lit("-b")).push(branch).push(
                lit("--"),
            ).push(path).push(r + lit("/") + branch),
        },
    )
}

/// Making the worktree for the default branch.
pub open spec fn make_default_run(
    s: Session,
    bare: Seq<u8>,
    why: Seq<u8>,
    path: Seq<u8>,
    d: DecisionsView,
) -> (Session, Outcome<()>) {
    match step(
        s,
        invoke_in(
            bare,
            args4(
                lit("show-ref"),
                lit("--verify"),
                lit("--quiet"),
                lit("refs/heads/") + d.default_branch,
            ),
        ),
    ) {
        (s1, Err(e)) => (s1, Err(e)),
        (s1, Ok(local)) => if local.status == 0 {
            made(git_run(
                s1,
                default_call(bare, why, path, d.default_branch, None),
                "create default worktree",
            ))
        } else if local.status == 1 {
            match d.selected_remote {
                None => (
                    s1,
                    Err(needs_decision("remote-only default branch has no selected remote"@)),
                ),
                Some(r) => made(git_run(
                    s1,
                    default_call(bare, why, path, d.default_branch, Some(r)),
                    "create default worktree",
                )),
            }
        } else {
            (s1, Err(failure("cannot determine whether the default branch is local"@)))
        },
    }
}

/// A child whose output does not matter.
pub open spec fn made(r: (Session, crate::git::runner::Reply)) -> (Session, Outcome<()>) {
    match r {
        (s1, Err(e)) => (s1, Err(e)),
        (s1, Ok(_)) => (s1, Ok(())),
    }
}

fn make_default<R: GitRunner + ?Sized>(
    runner: &mut R,
    bare: &[u8],
    why: &[u8],
    path: &[u8],
    decisions: &AdoptDecisionsProof,
) -> (r: Result<()>)
    ensures
        (final(runner).session(), plain(r)) == make_default_run(
            old(runner).session(),
            bare@,
            why@,
            path@,
            decisions@,
        ),
{
    let branch = decisions.default_branch.as_slice();
    let local = runner.run(
        Invocation::new().git_dir(bare).word("show-ref").word("--verify").word("--quiet").arg(
            prefixed("refs/heads/", branch).as_slice(),
        ),
    )?;
    let start = Invocation::new().git_dir(bare).word("worktree").word("add").word("--lock").word(
        "--reason",
    ).arg(why);
    let add = if local.status == 0 {
        start.word("--").arg(path).arg(branch)
    } else if local.status == 1 {
        match &decisions.selected_remote {
            None => return Err(
                decision_error("remote-only default branch has no selected remote"),
            ),
            Some(r) => {
                let head = joined(r.as_slice(), "/".as_bytes());
                start.word("--track").word("-b").arg(branch).word("--").arg(path).arg(
                    joined(head.as_slice(), branch).as_slice(),
                )
            },
        }
    } else {
        return Err(failure_error("cannot determine whether the default branch is local"));
    };
    let _ = run_ok(runner, add, "create default worktree")?;
    Ok(())
}

/// Making the worktree for the default branch where there is to be one, unless it is there.
pub open spec fn second_run(
    s: Session,
    f: FileSession,
    x: SiteView,
    d: DecisionsView,
    why: Seq<u8>,
) -> (Session, FileSession, Outcome<()>) {
    match x.default {
        None => (s, f, Ok(())),
        Some(relative) => match parents_run(f, x.root, relative) {
            (f1, Err(e)) => (s, f1, Err(e)),
            (f1, Ok(_)) => {
                let path = child(x.root, relative);
                match there_run(f1, child(path, lit(".git"))) {
                    (f2, Err(e)) => (s, f2, Err(e)),
                    (f2, Ok(true)) => (s, f2, Ok(())),
                    (f2, Ok(false)) => match there_run(f2, path) {
                        (f3, Err(e)) => (s, f3, Err(e)),
                        (f3, Ok(true)) => (
                            s,
                            f3,
                            Err(
                                needs_decision(
                                    "default worktree path is occupied by partial or foreign state"@,
                                ),
                            ),
                        ),
                        (f3, Ok(false)) => {
                            let (s1, r) = make_default_run(s, bare_of(x.root), why, path, d);
                            (s1, f3, r)
                        },
                    },
                }
            },
        },
    }
}

fn make_second<R: GitRunner + ?Sized, F: FileSystem + ?Sized>(
    runner: &mut R,
    files: &mut F,
    site: &Site,
    plan: &ImmutablePlan,
    why: &[u8],
) -> (r: Result<()>)
    ensures
        (final(runner).session(), final(files).files(), plain(r)) == second_run(
            old(runner).session(),
            old(files).files(),
            site@,
            plan@.decisions,
            why@,
        ),
{
    let relative = match &site.default {
        None => return Ok(()),
        Some(relative) => relative.as_slice(),
    };
    create_parents(files, site.root.as_slice(), relative)?;
    let path = join_path(site.root.as_slice(), relative);
    if path_exists(files, join_word(path.as_slice(), ".git").as_slice())? {
        return Ok(());
    }
    if path_exists(files, path.as_slice())? {
        return Err(
            decision_error("default worktree path is occupied by partial or foreign state"),
        );
    }
    make_default(
        runner,
        site.bare().as_slice(),
        why,
        path.as_slice(),
        &plan.decisions,
    )
}

/// Making the worktree for the default branch, and letting later ones guess their remote.
#[verifier::opaque]
pub open spec fn install_default_run(
    s: Session,
    f: FileSession,
    x: SiteView,
    d: DecisionsView,
    why: Seq<u8>,
) -> (Session, FileSession, Outcome<()>) {
    match second_run(s, f, x, d, why) {
        (s1, f1, Err(e)) => (s1, f1, Err(e)),
        (s1, f1, Ok(_)) => {
            let (s2, r) = made(git_run(
                s1,
                invoke_in(
                    bare_of(x.root),
                    args3(lit("config"), lit("worktree.guessRemote"), lit("true")),
                ),
                "enable worktree remote guessing",
            ));
            (s2, f1, r)
        },
    }
}

fn install_default_worktree<R: GitRunner + ?Sized, F: FileSystem + ?Sized>(
    runner: &mut R,
    files: &mut F,
    site: &Site,
    plan: &ImmutablePlan,
    why: &[u8],
) -> (r: Result<()>)
    ensures
        (final(runner).session(), final(files).files(), plain(r)) == install_default_run(
            old(runner).session(),
            old(files).files(),
            site@,
            plan@.decisions,
            why@,
        ),
{
    proof {
        reveal(install_default_run);
    }
    make_second(runner, files, site, plan, why)?;
    let _ = run_ok(
        runner,
        Invocation::new().git_dir(site.bare().as_slice()).word("config").word(
            "worktree.guessRemote",
        ).word("true"),
        "enable worktree remote guessing",
    )?;
    Ok(())
}

// ----------------------------------------------------------------------- completion

/// The record of the grove that a repository becomes.
pub open spec fn record_of(d: DecisionsView) -> MetadataView {
    MetadataView {
        version: Some(FORMAT_VERSION),
        default_branch: Some(d.default_branch),
        remote: d.selected_remote,
        publish_state: if d.selected_remote is Some {
            PublishState::Published
        } else {
            PublishState::Unpublished
        },
        publish_remote: None,
        publish_url: None,
        publish_provider: None,
        publish_owner: None,
        publish_name: None,
    }
}

fn install_metadata<R: GitRunner + ?Sized>(runner: &mut R, plan: &ImmutablePlan, root: &[u8]) -> (r:
    Result<()>)
    ensures
        (final(runner).session(), plain(r)) == write_to_config_run(
            old(runner).session(),
            config_of(root@),
            record_of(plan@.decisions),
        ),
{
    let grove = Grove::at(root);
    let remote = copied_opt(&plan.decisions.selected_remote);
    let publish_state = if remote.is_some() {
        PublishState::Published
    } else {
        PublishState::Unpublished
    };
    write_to_config(
        runner,
        grove.config_path().as_slice(),
        &Metadata {
            version: Some(FORMAT_VERSION),
            default_branch: Some(copied(plan.decisions.default_branch.as_slice())),
            remote,
            publish_state,
            publish_remote: None,
            publish_url: None,
            publish_provider: None,
            publish_owner: None,
            publish_name: None,
        },
    )
}

/// Writing the grove's record, checking the checkout once more, and unlocking the worktrees.
#[verifier::opaque]
pub open spec fn complete_run(s: Session, f: FileSession, x: SiteView, p: PlanView) -> (
    Session,
    FileSession,
    Outcome<()>,
) {
    match write_to_config_run(s, config_of(x.root), record_of(p.decisions)) {
        (s1, Err(e)) => (s1, f, Err(e)),
        (s1, Ok(_)) => match snapshots_run(s1, payload_of(x), p.original) {
            (s2, Err(e)) => (s2, f, Err(e)),
            (s2, Ok(_)) => match unlock_run(s2, f, bare_of(x.root), payload_of(x)) {
                (s3, f3, Err(e)) => (s3, f3, Err(e)),
                (s3, f3, Ok(_)) => match x.default {
                    None => (s3, f3, Ok(())),
                    Some(relative) => unlock_run(
                        s3,
                        f3,
                        bare_of(x.root),
                        child(x.root, relative),
                    ),
                },
            },
        },
    }
}

fn complete<R: GitRunner + ?Sized, F: FileSystem + ?Sized>(
    runner: &mut R,
    files: &mut F,
    site: &Site,
    plan: &ImmutablePlan,
) -> (r: Result<()>)
    ensures
        (final(runner).session(), final(files).files(), plain(r)) == complete_run(
            old(runner).session(),
            old(files).files(),
            site@,
            plan@,
        ),
{
    proof {
        reveal(complete_run);
    }
    let payload = site.payload_path();
    let bare = site.bare();
    install_metadata(runner, plan, site.root.as_slice())?;
    verify_payload_snapshots(runner, payload.as_slice(), &plan.original)?;
    unlock_if_locked(runner, files, bare.as_slice(), payload.as_slice())?;
    match &site.default {
        None => Ok(()),
        Some(relative) => unlock_if_locked(
            runner,
            files,
            bare.as_slice(),
            join_path(site.root.as_slice(), relative.as_slice()).as_slice(),
        ),
    }
}

// ----------------------------------------------------------------------- the phases

/// What one phase draws.
pub struct PhaseDraws {
    pub pointer: Nonces,
    pub file: Draws,
}

pub open spec fn nothing_drawn() -> PhaseDraws {
    PhaseDraws { pointer: Seq::empty(), file: no_draws() }
}

pub open spec fn possible_phase(d: PhaseDraws) -> bool {
    possible_nonces(d.pointer) && possible_draws(d.file)
}

pub open spec fn possible_phases(ds: Seq<PhaseDraws>) -> bool {
    forall|i: int| 0 <= i < ds.len() ==> possible_phase(#[trigger] ds[i])
}

pub open spec fn next_drawn(ds: Seq<PhaseDraws>) -> PhaseDraws {
    if ds.len() > 0 {
        ds[0]
    } else {
        nothing_drawn()
    }
}

pub open spec fn other_drawn(ds: Seq<PhaseDraws>) -> Seq<PhaseDraws> {
    if ds.len() > 0 {
        ds.subrange(1, ds.len() as int)
    } else {
        ds
    }
}

pub open spec fn then_drawn(d: PhaseDraws, rest: Seq<PhaseDraws>) -> Seq<PhaseDraws> {
    Seq::empty().push(d) + rest
}

pub proof fn lemma_then_drawn(d: PhaseDraws, rest: Seq<PhaseDraws>)
    requires
        possible_phase(d),
        possible_phases(rest),
    ensures
        possible_phases(then_drawn(d, rest)),
        next_drawn(then_drawn(d, rest)) == d,
        other_drawn(then_drawn(d, rest)) == rest,
{
    let ds = then_drawn(d, rest);
    assert(other_drawn(ds) =~= rest);
    assert forall|i: int| 0 <= i < ds.len() implies possible_phase(#[trigger] ds[i]) by {
        if i > 0 {
            assert(ds[i] == rest[i - 1]);
        }
    }
}

/// The work of one phase.
#[verifier::opaque]
pub open spec fn phase_run(
    s: Session,
    f: FileSession,
    x: SiteView,
    p: PlanView,
    why: Seq<u8>,
    k: int,
    d: PhaseDraws,
) -> (Session, FileSession, Outcome<()>) {
    if k == 0 {
        let (f1, r) = stage_run(f, x);
        (s, f1, r)
    } else if k == 1 {
        install_bare_run(s, f, x.root, p.original.repository_identity, d.pointer)
    } else if k == 2 {
        let (f1, r) = stage_payload_run(f, p.original.manifest, x);
        (s, f1, r)
    } else if k == 3 {
        register_run(s, f, x, p.decisions.payload_head, why)
    } else if k == 4 {
        let (f1, r) = install_payload_run(f, x);
        (s, f1, r)
    } else if k == 5 {
        install_private_run(s, f, x, p, d.file)
    } else if k == 6 {
        install_default_run(s, f, x, p.decisions, why)
    } else {
        complete_run(s, f, x, p)
    }
}

fn perform_phase<R: GitRunner + ?Sized, F: FileSystem + ?Sized>(
    runner: &mut R,
    files: &mut F,
    site: &Site,
    plan: &ImmutablePlan,
    why: &[u8],
    k: usize,
) -> (r: (Result<()>, Ghost<PhaseDraws>))
    ensures
        possible_phase(r.1@),
        (final(runner).session(), final(files).files(), plain(r.0)) == phase_run(
            old(runner).session(),
            old(files).files(),
            site@,
            plan@,
            why@,
            k as int,
            r.1@,
        ),
{
    let ghost none = nothing_drawn();
    proof {
        reveal(phase_run);
    }
    if k == 0 {
        (make_staging(files, site), Ghost(none))
    } else if k == 1 {
        let (r, drawn) = install_bare_repository(
            runner,
            files,
            site.root.as_slice(),
            &plan.original.repository_identity,
        );
        (r, Ghost(PhaseDraws { pointer: drawn@, file: no_draws() }))
    } else if k == 2 {
        (stage_payload(files, &plan.original.payload_manifest, site), Ghost(none))
    } else if k == 3 {
        (
            create_payload_worktree(runner, files, site, &plan.decisions.payload_head, why),
            Ghost(none),
        )
    } else if k == 4 {
        (install_payload(files, site), Ghost(none))
    } else if k == 5 {
        let (r, drawn) = install_private_state(runner, files, site, plan);
        (r, Ghost(PhaseDraws { pointer: Seq::empty(), file: drawn@ }))
    } else if k == 6 {
        (install_default_worktree(runner, files, site, plan, why), Ghost(none))
    } else {
        (complete(runner, files, site, plan), Ghost(none))
    }
}

// ------------------------------------------------------------------------- cleaning up

/// The names of a journal, and of one that is being written.
pub const JOURNAL_CURRENT: &'static str = "journal";

pub const JOURNAL_NEW: &'static str = "journal.new";

/// Removing the journal's files, from the entry at `i` on. Anything else is left, and reported.
pub open spec fn remove_from(f: FileSession, transaction: Seq<u8>, names: Seq<Seq<u8>>, i: int) -> (
    FileSession,
    Outcome<()>,
)
    decreases names.len() - i,
{
    if i >= names.len() {
        attempt_run(
            f,
            FileRequest::RemoveDirectory(transaction),
            "cannot remove committed transaction: "@,
        )
    } else if names[i] != lit(JOURNAL_CURRENT) && names[i] != lit(JOURNAL_NEW) {
        (f, Err(needs_decision("committed transaction contains an unexpected entry"@)))
    } else {
        match attempt_run(
            f,
            FileRequest::RemoveFile(child(transaction, names[i])),
            "cannot remove committed journal: "@,
        ) {
            (f1, Err(e)) => (f1, Err(e)),
            (f1, Ok(_)) => remove_from(f1, transaction, names, i + 1),
        }
    }
}

/// Removing a transaction that is over.
pub open spec fn cleanup_run(f: FileSession, transaction: Seq<u8>, root: Seq<u8>) -> (
    FileSession,
    Outcome<()>,
) {
    match names_step(f, FileRequest::List(transaction)) {
        (f1, Err(e)) => (f1, Err(failure("cannot inspect committed transaction: "@ + e.text))),
        (f1, Ok(names)) => match remove_from(f1, transaction, names, 0) {
            (f2, Err(e)) => (f2, Err(e)),
            (f2, Ok(_)) => sync_run(f2, root),
        },
    }
}

fn cleanup_transaction<F: FileSystem + ?Sized>(files: &mut F, transaction: &[u8]) -> (r: Result<()>)
    ensures
        (final(files).files(), plain(r)) == match names_step(
            old(files).files(),
            FileRequest::List(transaction@),
        ) {
            (f1, Err(e)) => (
                f1,
                Err::<(), ErrorView>(
                    failure("cannot inspect committed transaction: "@ + e.text),
                ),
            ),
            (f1, Ok(names)) => remove_from(f1, transaction@, names, 0),
        },
{
    let names = match ask_names(files, FileRequest::List(copied(transaction))) {
        Err(e) => return Err(
            GroveError::failure(
                text("cannot inspect committed transaction: ").concat(e.text.as_str()),
            ),
        ),
        Ok(names) => names,
    };
    let ghost all = views(names@);
    let ghost start = files.files();
    let mut i: usize = 0;
    proof {
        assert(all.len() == names@.len());
    }
    while i < names.len()
        invariant
            i <= names.len(),
            all == views(names@),
            all.len() == names@.len(),
            (start, Ok::<Seq<Seq<u8>>, crate::fsx::files::FailureView>(all)) == names_step(
                old(files).files(),
                FileRequest::List(transaction@),
            ),
            remove_from(start, transaction@, all, 0) == remove_from(
                files.files(),
                transaction@,
                all,
                i as int,
            ),
        decreases names.len() - i,
    {
        let name = names[i].as_slice();
        proof {
            assert(all[i as int] == name@);
        }
        if !is_lit(name, JOURNAL_CURRENT) && !is_lit(name, JOURNAL_NEW) {
            return Err(decision_error("committed transaction contains an unexpected entry"));
        }
        attempt(
            files,
            FileRequest::RemoveFile(join_path(transaction, name)),
            "cannot remove committed journal: ",
        )?;
        i = i + 1;
    }
    attempt(
        files,
        FileRequest::RemoveDirectory(copied(transaction)),
        "cannot remove committed transaction: ",
    )
}

/// Removes a transaction that is over.
pub fn cleanup_and_sync<F: FileSystem + ?Sized>(files: &mut F, transaction: &[u8], root: &[u8]) -> (r:
    Result<()>)
    ensures
        (final(files).files(), plain(r)) == cleanup_run(
            old(files).files(),
            transaction@,
            root@,
        ),
{
    cleanup_transaction(files, transaction)?;
    sync_dir(files, root)
}

// --------------------------------------------------------------------------- the course

/// The phases from `k` on that are not done yet, each recorded once it is; then the commitment,
/// and the end of the transaction.
pub open spec fn execute_from(
    s: Session,
    f: FileSession,
    j: JournalView,
    x: SiteView,
    k: int,
    ds: Seq<PhaseDraws>,
) -> (Session, FileSession, JournalView, Outcome<()>)
    decreases PHASES - k,
{
    if k >= PHASES {
        match progress_run(f, x.transaction, j, Progress::Committed) {
            (f1, Err(e), j1) => (s, f1, j1, Err(e)),
            (f1, Ok(_), j1) => {
                let (f2, r) = cleanup_run(f1, x.transaction, x.root);
                (s, f2, j1, r)
            },
        }
    } else if j.done[k] {
        execute_from(s, f, j, x, k + 1, other_drawn(ds))
    } else {
        match phase_run(s, f, x, j.plan, reason_of(j.nonce), k, next_drawn(ds)) {
            (s1, f1, Err(e)) => (s1, f1, j, Err(e)),
            (s1, f1, Ok(_)) => match finish_run(f1, x.transaction, j, k) {
                (f2, Err(e), j1) => (s1, f2, j1, Err(e)),
                (f2, Ok(_), j1) => execute_from(s1, f2, j1, x, k + 1, other_drawn(ds)),
            },
        }
    }
}

fn execute_phases<R: GitRunner + ?Sized, F: FileSystem + ?Sized>(
    runner: &mut R,
    files: &mut F,
    journal: &mut Journal,
    site: &Site,
    why: &[u8],
    k: usize,
) -> (r: (Result<()>, Ghost<Seq<PhaseDraws>>))
    requires
        k <= PHASES,
        why@ == reason_of(old(journal)@.nonce),
    ensures
        possible_phases(r.1@),
        (final(runner).session(), final(files).files(), final(journal)@, plain(r.0))
            == execute_from(
            old(runner).session(),
            old(files).files(),
            old(journal)@,
            site@,
            k as int,
            r.1@,
        ),
    decreases PHASES - k,
{
    let ghost none: Seq<PhaseDraws> = Seq::empty();
    let transaction = site.transaction.as_slice();
    if k >= PHASES {
        if let Err(e) = set_progress(files, journal, Progress::Committed, transaction) {
            return (Err(e), Ghost(none));
        }
        return (cleanup_and_sync(files, transaction, site.root.as_slice()), Ghost(none));
    }
    if !journal.pending(k) {
        let (r, rest) = execute_phases(runner, files, journal, site, why, k + 1);
        let ghost ds = then_drawn(nothing_drawn(), rest@);
        proof {
            lemma_then_drawn(nothing_drawn(), rest@);
        }
        return (r, Ghost(ds));
    }
    let (performed, drawn) = perform_phase(runner, files, site, &journal.plan, why, k);
    let ghost one = then_drawn(drawn@, none);
    proof {
        lemma_then_drawn(drawn@, none);
    }
    if let Err(e) = performed {
        return (Err(e), Ghost(one));
    }
    if let Err(e) = finish_phase(files, journal, k, transaction) {
        return (Err(e), Ghost(one));
    }
    let (r, rest) = execute_phases(runner, files, journal, site, why, k + 1);
    let ghost ds = then_drawn(drawn@, rest@);
    proof {
        lemma_then_drawn(drawn@, rest@);
    }
    (r, Ghost(ds))
}

/// Carries out the phases that are not done yet, and ends the transaction.
pub fn execute<R: GitRunner + ?Sized, F: FileSystem + ?Sized>(
    runner: &mut R,
    files: &mut F,
    journal: &mut Journal,
    site: &Site,
) -> (r: Result<()>)
    ensures
        exists|ds: Seq<PhaseDraws>|
            possible_phases(ds) && (
                final(runner).session(),
                final(files).files(),
                final(journal)@,
                plain(r),
            ) == #[trigger] execute_from(
                old(runner).session(),
                old(files).files(),
                old(journal)@,
                site@,
                0,
                ds,
            ),
{
    let why = reason(journal.nonce.as_slice());
    let (r, _ds) = execute_phases(runner, files, journal, site, why.as_slice(), 0);
    r
}

/// A phase that is done is not repeated: nothing is asked for it, of Git or of the file system.
pub proof fn done_phases_are_not_repeated(
    s: Session,
    f: FileSession,
    j: JournalView,
    x: SiteView,
    k: int,
    ds: Seq<PhaseDraws>,
)
    requires
        0 <= k < PHASES,
        j.done[k],
    ensures
        execute_from(s, f, j, x, k, ds) == execute_from(s, f, j, x, k + 1, other_drawn(ds)),
{
}

/// An adoption that comes to its end has every phase recorded as done, and is committed; its
/// plan is the one it began with.
pub proof fn complete_adoptions_are_committed(
    s: Session,
    f: FileSession,
    j: JournalView,
    x: SiteView,
    k: int,
    ds: Seq<PhaseDraws>,
)
    requires
        0 <= k <= PHASES,
        j.done.len() == PHASES,
        forall|i: int| 0 <= i < k ==> #[trigger] j.done[i],
        execute_from(s, f, j, x, k, ds).3 is Ok,
    ensures
        ({
            let end = execute_from(s, f, j, x, k, ds).2;
            &&& end.progress == Progress::Committed
            &&& end.plan == j.plan
            &&& end.done.len() == PHASES
            &&& forall|i: int| 0 <= i < PHASES ==> #[trigger] end.done[i]
        }),
    decreases PHASES - k,
{
    if k < PHASES {
        if j.done[k] {
            complete_adoptions_are_committed(s, f, j, x, k + 1, other_drawn(ds));
        } else {
            let (s1, f1, r) = phase_run(s, f, x, j.plan, reason_of(j.nonce), k, next_drawn(ds));
            let (f2, r2, j1) = finish_run(f1, x.transaction, j, k);
            complete_adoptions_are_committed(s1, f2, j1, x, k + 1, other_drawn(ds));
        }
    }
}

} // verus!
