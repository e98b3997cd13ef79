//! Clone a repository into a new grove: the transaction.
use vstd::prelude::*;
use crate::bytes::{copied, lemma_views_push, lit, opt_view, views};
use crate::commands::clone::{
    postconditions_run, repair_refspecs, repair_run, resolve_target, target_of_clone,
    validate_clone_postconditions, HomeResolver, Homes,
};
use crate::commands::init::{
    already_there, conflict, fresh_record, open_grove, open_grove_run, post_mutation,
    post_mutation_layout_error, report_failure, reported_run, settle_grove, settle_run, vacate,
    vacate_run, RecoveryState,
};
use crate::error::{
    bytes_outcome, failure, failure_error, list_outcome, plain, usage, usage_error, ErrorView,
    Result,
};
use crate::fsx::directory::{only_entry_run, validate_run, HeldDirectory, HeldView};
use crate::fsx::files::{FileSession, FileSystem};
use crate::fsx::write::{possible_nonces, write_absent_run, Nonces, TempStrategy};
use crate::git::config::{
    config_values, config_values_run, configure_upstreams, is_only, remote_head_branch,
    remote_head_run, required, required_step, set_config, set_config_run, state_conflict_error,
    upstreams_run, Outcome,
};
use crate::git::guard::{beneath, guarded_session, GuardedRunner};
use crate::git::query::{
    branch_name_run, local_branch_exists, local_branch_run, validate_branch_name,
};
use crate::git::runner::{
    args2, args4, args5, invoke, invoke_in, GitRunner, Invocation, InvocationView, Session,
};
use crate::grove::discover::Grove;
use crate::grove::layout::{
    grove_outcome, relative_place, validate_relative_worktree_path, write_pointer_if_absent,
    POINTER_CONTENTS,
};
use crate::grove::metadata::{
    write_to_config, write_to_config_run, Metadata, PublishState, FORMAT_VERSION,
};
use crate::path::{child, join_word};
use crate::text::{escape, escaped, text};

verus! {

broadcast use lemma_views_push;

/// What became of the options for `git clone`: those that are handed on, the name of the remote,
/// and whether they narrow what is fetched.
#[derive(Debug)]
pub struct Verdict {
    pub forwarded: Vec<Vec<u8>>,
    pub remote_name: Vec<u8>,
    pub narrowed: bool,
}

/// What to clone, and how.
#[derive(Debug)]
pub struct ClonePlan {
    pub url: Vec<u8>,
    pub explicit_branch: Option<Vec<u8>>,
    pub verdict: Verdict,
    pub cwd: Vec<u8>,
}

pub struct ClonePlanView {
    pub url: Seq<u8>,
    pub explicit: Option<Seq<u8>>,
    pub forwarded: Seq<Seq<u8>>,
    pub remote: Seq<u8>,
    pub narrowed: bool,
    pub cwd: Seq<u8>,
}

impl View for ClonePlan {
    type V = ClonePlanView;

    open spec fn view(&self) -> ClonePlanView {
        ClonePlanView {
            url: self.url@,
            explicit: opt_view(self.explicit_branch),
            forwarded: views(self.verdict.forwarded@),
            remote: self.verdict.remote_name@,
            narrowed: self.verdict.narrowed,
            cwd: self.cwd@,
        }
    }
}

pub open spec fn clone_args(p: ClonePlanView, bare: Seq<u8>) -> Seq<Seq<u8>> {
    (args2(lit("clone"), lit("--bare")) + p.forwarded).push(lit("--")).push(p.url).push(bare)
}

// ----------------------------------------------------------------- the repository

/// Cloning into the held directory, checking what came of it, and giving it refspecs; with what
/// its remote fetches.
pub open spec fn fetch_clone_run(
    s: Session,
    f: FileSession,
    root: HeldView,
    bare: HeldView,
    p: ClonePlanView,
) -> (Session, FileSession, Outcome<Seq<Seq<u8>>>) {
    match required_step(
        s,
        InvocationView { cwd: Some(p.cwd), ..invoke(clone_args(p, bare.anchored)) },
        "clone --bare"@,
    ) {
        (s1, Err(e)) => (s1, f, Err(e)),
        (s1, Ok(_)) => match only_entry_run(f, root, lit(".bare")) {
            (f1, Err(e)) => (s1, f1, Err(e)),
            (f1, Ok(_)) => match validate_run(f1, bare) {
                (f2, Err(e)) => (s1, f2, Err(e)),
                (f2, Ok(_)) => match postconditions_run(s1, f2, bare.anchored, p.url, p.remote) {
                    (s2, f3, Err(e)) => (s2, f3, Err(e)),
                    (s2, f3, Ok(existing)) => {
                        let (s3, r) = repair_run(
                            s2,
                            bare.anchored,
                            p.remote,
                            p.narrowed,
                            existing,
                        );
                        (s3, f3, r)
                    },
                },
            },
        },
    }
}

fn fetch_clone<R: GitRunner + ?Sized, F: FileSystem + ?Sized>(
    runner: &mut R,
    files: &mut F,
    root: &HeldDirectory,
    bare: &HeldDirectory,
    plan: &ClonePlan,
) -> (r: Result<Vec<Vec<u8>>>)
    ensures
        (final(runner).session(), final(files).files(), list_outcome(r)) == fetch_clone_run(
            old(runner).session(),
            old(files).files(),
            root@,
            bare@,
            plan@,
        ),
{
    let invocation = Invocation::new().cwd(plan.cwd.as_slice()).word("clone").word(
        "--bare",
    ).arg_list(&plan.verdict.forwarded).word("--").arg(plan.url.as_slice()).arg(
        bare.anchored_path.as_slice(),
    );
    proof {
        assert(invocation@ == (InvocationView {
            cwd: Some(plan@.cwd),
            ..invoke(clone_args(plan@, bare@.anchored))
        }));
    }
    required(runner, invocation, "clone --bare")?;
    root.ensure_only_entry(files, ".bare".as_bytes())?;
    bare.validate(files)?;
    let existing = validate_clone_postconditions(
        runner,
        files,
        bare.anchored_path.as_slice(),
        plan.url.as_slice(),
        plan.verdict.remote_name.as_slice(),
    )?;
    repair_refspecs(
        runner,
        bare.anchored_path.as_slice(),
        plan.verdict.remote_name.as_slice(),
        plan.verdict.narrowed,
        existing,
    )
}

/// Letting new worktrees find their branches on the remote.
pub open spec fn guess_run(s: Session, config: Seq<u8>) -> (Session, Outcome<()>) {
    match set_config_run(s, config, lit("worktree.guessRemote"), lit("true"), false) {
        (s1, Err(e)) => (s1, Err(e)),
        (s1, Ok(_)) => match config_values_run(s1, config, lit("worktree.guessRemote")) {
            (s2, Err(e)) => (s2, Err(e)),
            (s2, Ok(values)) => if values == seq![lit("true")] {
                (s2, Ok(()))
            } else {
                (
                    s2,
                    Err(failure("worktree.guessRemote configuration verification failed"@)),
                )
            },
        },
    }
}

/// Configuring the clone, and fetching; with the remote's default branch.
pub open spec fn configure_run(
    s: Session,
    bare: Seq<u8>,
    remote: Seq<u8>,
    refspecs: Seq<Seq<u8>>,
) -> (Session, Outcome<Seq<u8>>) {
    match guess_run(s, child(bare, lit("config"))) {
        (s1, Err(e)) => (s1, Err(e)),
        (s1, Ok(_)) => match required_step(
            s1,
            invoke_in(bare, args4(lit("fetch"), lit("--prune"), lit("--"), remote)),
            "fetch --prune"@,
        ) {
            (s2, Err(e)) => (s2, Err(e)),
            (s2, Ok(_)) => match required_step(
                s2,
                invoke_in(
                    bare,
                    args5(lit("remote"), lit("set-head"), lit("--auto"), lit("--"), remote),
                ),
                "remote set-head --auto"@,
            ) {
                (s3, Err(e)) => (s3, Err(e)),
                (s3, Ok(_)) => match remote_head_run(s3, bare, remote) {
                    (s4, Err(e)) => (s4, Err(e)),
                    (s4, Ok(default)) => match upstreams_run(s4, bare, remote, refspecs) {
                        (s5, Err(e)) => (s5, Err(e)),
                        (s5, Ok(_)) => (s5, Ok(default)),
                    },
                },
            },
        },
    }
}

fn configure<R: GitRunner + ?Sized>(
    runner: &mut R,
    bare: &[u8],
    remote: &[u8],
    refspecs: &Vec<Vec<u8>>,
) -> (r: Result<Vec<u8>>)
    ensures
        (final(runner).session(), bytes_outcome(r)) == configure_run(
            old(runner).session(),
            bare@,
            remote@,
            views(refspecs@),
        ),
{
    let config = join_word(bare, "config");
    set_config(
        runner,
        config.as_slice(),
        "worktree.guessRemote".as_bytes(),
        "true".as_bytes(),
        false,
    )?;
    let values = config_values(runner, config.as_slice(), "worktree.guessRemote".as_bytes())?;
    if !is_only(&values, "true".as_bytes()) {
        return Err(failure_error("worktree.guessRemote configuration verification failed"));
    }
    required(
        runner,
        Invocation::new().git_dir(bare).word("fetch").word("--prune").word("--").arg(remote),
        "fetch --prune",
    )?;
    required(
        runner,
        Invocation::new().git_dir(bare).word("remote").word("set-head").word("--auto").word(
            "--",
        ).arg(remote),
        "remote set-head --auto",
    )?;
    let default = remote_head_branch(runner, bare, remote)?;
    configure_upstreams(runner, bare, remote, refspecs)?;
    Ok(default)
}

/// The branch of the first worktree, which the clone must have, and the worktree's place.
pub open spec fn select_run(s: Session, root: Seq<u8>, selected: Seq<u8>) -> (
    Session,
    Outcome<Seq<u8>>,
) {
    match branch_name_run(s, selected) {
        (s1, Err(e)) => (s1, Err(e)),
        (s1, Ok(_)) => match local_branch_run(s1, root, selected) {
            (s2, Err(e)) => (s2, Err(e)),
            (s2, Ok(exists)) => if !exists {
                (
                    s2,
                    Err(
                        state_conflict_error(
                            "branch "@ + escape(selected) + " was not retained by the clone"@,
                            "choose a branch present in the cloned repository"@,
                        ),
                    ),
                )
            } else {
                match relative_place(selected) {
                    Err(e) => (s2, Err(post_mutation(e))),
                    Ok(relative) => (s2, Ok(relative)),
                }
            },
        },
    }
}

fn select<R: GitRunner + ?Sized>(runner: &mut R, root: &HeldDirectory, selected: &[u8]) -> (r: Result<
    Vec<u8>,
>)
    ensures
        (final(runner).session(), bytes_outcome(r)) == select_run(
            old(runner).session(),
            root@.anchored,
            selected@,
        ),
{
    validate_branch_name(runner, selected)?;
    let grove = Grove { root: copied(root.anchored_path.as_slice()) };
    if !local_branch_exists(runner, &grove, selected)? {
        return Err(
            conflict(
                text("branch ").concat(escaped(selected).as_str()).concat(
                    " was not retained by the clone",
                ),
                text("choose a branch present in the cloned repository"),
            ),
        );
    }
    match validate_relative_worktree_path(selected) {
        Err(e) => Err(post_mutation_layout_error(e)),
        Ok(relative) => Ok(relative),
    }
}

// -------------------------------------------------------------------- the grove

/// Making the clone a grove: the pointer, the record, and the first worktree.
pub open spec fn plant_run(
    s: Session,
    f: FileSession,
    root: HeldView,
    bare: HeldView,
    remote: Seq<u8>,
    selected: Seq<u8>,
    relative: Seq<u8>,
    pointer: Nonces,
) -> (Session, FileSession, Outcome<Seq<u8>>) {
    match write_absent_run(
        f,
        child(root.anchored, lit(".git")),
        lit(POINTER_CONTENTS),
        TempStrategy::Auto,
        pointer,
    ) {
        (f1, Err(e)) => (s, f1, Err(e)),
        (f1, Ok(created)) => if !created {
            (
                s,
                f1,
                Err(
                    already_there(
                        child(root.named, lit(".git")),
                        "the foreign entry was preserved",
                    ),
                ),
            )
        } else {
            match write_to_config_run(
                s,
                child(bare.anchored, lit("config")),
                fresh_record(selected, Some(remote), PublishState::Published),
            ) {
                (s1, Err(e)) => (s1, f1, Err(e)),
                (s1, Ok(_)) => checkout_run(s1, f1, root, bare, selected, relative),
            }
        },
    }
}

/// The first worktree of a clone.
pub open spec fn checkout_run(
    s: Session,
    f: FileSession,
    root: HeldView,
    bare: HeldView,
    selected: Seq<u8>,
    relative: Seq<u8>,
) -> (Session, FileSession, Outcome<Seq<u8>>) {
    match vacate_run(f, root, bare, relative) {
        (f1, Err(e)) => (s, f1, Err(e)),
        (f1, Ok(path)) => match required_step(
            s,
            invoke_in(
                bare.anchored,
                args5(lit("worktree"), lit("add"), lit("--"), path, selected),
            ),
            "worktree add"@,
        ) {
            (s1, Err(e)) => (s1, f1, Err(e)),
            (s1, Ok(_)) => {
                let (f2, r) = settle_run(f1, root, bare, "cloning"@);
                (s1, f2, r)
            },
        },
    }
}

fn checkout<R: GitRunner + ?Sized, F: FileSystem + ?Sized>(
    runner: &mut R,
    files: &mut F,
    root: &HeldDirectory,
    bare: &HeldDirectory,
    selected: &[u8],
    relative: &[u8],
) -> (r: Result<Grove>)
    ensures
        (final(runner).session(), final(files).files(), grove_outcome(r)) == checkout_run(
            old(runner).session(),
            old(files).files(),
            root@,
            bare@,
            selected@,
            relative@,
        ),
{
    let path = vacate(files, root, bare, relative)?;
    required(
        runner,
        Invocation::new().git_dir(bare.anchored_path.as_slice()).word("worktree").word("add").word(
            "--",
        ).arg(path.as_slice()).arg(selected),
        "worktree add",
    )?;
    settle_grove(files, root, bare, "cloning")
}

fn plant<R: GitRunner + ?Sized, F: FileSystem + ?Sized>(
    runner: &mut R,
    files: &mut F,
    root: &HeldDirectory,
    bare: &HeldDirectory,
    remote: &[u8],
    selected: &[u8],
    relative: &[u8],
) -> (r: Result<Grove>)
    ensures
        exists|pointer: Nonces|
            possible_nonces(pointer) && (
                final(runner).session(),
                final(files).files(),
                grove_outcome(r),
            ) == #[trigger] plant_run(
                old(runner).session(),
                old(files).files(),
                root@,
                bare@,
                remote@,
                selected@,
                relative@,
                pointer,
            ),
{
    let ghost s = runner.session();
    let ghost f = files.files();
    let wrote = write_pointer_if_absent(files, root.anchored_path.as_slice());
    let ghost pointer = choose|drawn: Nonces|
        possible_nonces(drawn) && (files.files(), plain(wrote)) == #[trigger] write_absent_run(
            f,
            child(root@.anchored, lit(".git")),
            lit(POINTER_CONTENTS),
            TempStrategy::Auto,
            drawn,
        );
    let r = match wrote {
        Err(e) => Err(e),
        Ok(created) => if !created {
            Err(
                conflict(
                    escaped(join_word(root.named_path.as_slice(), ".git").as_slice()).concat(
                        " already exists",
                    ),
                    text("the foreign entry was preserved"),
                ),
            )
        } else {
            match write_to_config(
                runner,
                join_word(bare.anchored_path.as_slice(), "config").as_slice(),
                &Metadata {
                    version: Some(FORMAT_VERSION),
                    default_branch: Some(copied(selected)),
                    remote: Some(copied(remote)),
                    publish_state: PublishState::Published,
                    publish_remote: None,
                    publish_url: None,
                    publish_provider: None,
                    publish_owner: None,
                    publish_name: None,
                },
            ) {
                Err(e) => Err(e),
                Ok(_) => checkout(runner, files, root, bare, selected, relative),
            }
        },
    };
    proof {
        assert((runner.session(), files.files(), grove_outcome(r)) == plant_run(
            s,
            f,
            root@,
            bare@,
            remote@,
            selected@,
            relative@,
            pointer,
        ));
    }
    r
}

/// The branch that the first worktree is on: the one asked for, or the remote's default.
pub open spec fn selected_branch(explicit: Option<Seq<u8>>, default: Seq<u8>) -> Seq<u8> {
    match explicit {
        Some(b) => b,
        None => default,
    }
}

/// What goes into an opened root: the clone, and then the grove around it.
#[verifier::opaque]
pub open spec fn populate_run(
    s: Session,
    f: FileSession,
    root: HeldView,
    bare: HeldView,
    p: ClonePlanView,
    pointer: Nonces,
) -> (Session, FileSession, Outcome<Seq<u8>>) {
    match fetch_clone_run(s, f, root, bare, p) {
        (s1, f1, Err(e)) => (s1, f1, Err(e)),
        (s1, f1, Ok(refspecs)) => match configure_run(s1, bare.anchored, p.remote, refspecs) {
            (s2, Err(e)) => (s2, f1, Err(e)),
            (s2, Ok(default)) => {
                let selected = selected_branch(p.explicit, default);
                match select_run(s2, root.anchored, selected) {
                    (s3, Err(e)) => (s3, f1, Err(e)),
                    (s3, Ok(relative)) => plant_run(
                        s3,
                        f1,
                        root,
                        bare,
                        p.remote,
                        selected,
                        relative,
                        pointer,
                    ),
                }
            },
        },
    }
}

/// Fills an opened root with a clone. `runner` is the one that is guarded by the two
/// directories.
pub fn populate<R: GitRunner + ?Sized, F: FileSystem + ?Sized>(
    runner: &mut R,
    files: &mut F,
    root: &HeldDirectory,
    bare: &HeldDirectory,
    plan: &ClonePlan,
) -> (r: Result<Grove>)
    ensures
        exists|pointer: Nonces|
            possible_nonces(pointer) && (
                final(runner).session(),
                final(files).files(),
                grove_outcome(r),
            ) == #[trigger] populate_run(
                old(runner).session(),
                old(files).files(),
                root@,
                bare@,
                plan@,
                pointer,
            ),
{
    let ghost s = runner.session();
    let ghost f = files.files();
    let ghost none: Nonces = Seq::empty();
    proof {
        reveal(populate_run);
        assert(possible_nonces(none));
    }
    let refspecs = match fetch_clone(runner, files, root, bare, plan) {
        Err(e) => {
            proof {
                assert((runner.session(), files.files(), Err::<Seq<u8>, ErrorView>(e@))
                    == populate_run(s, f, root@, bare@, plan@, none));
            }
            return Err(e);
        },
        Ok(refspecs) => refspecs,
    };
    let remote = plan.verdict.remote_name.as_slice();
    let default = match configure(runner, bare.anchored_path.as_slice(), remote, &refspecs) {
        Err(e) => {
            proof {
                assert((runner.session(), files.files(), Err::<Seq<u8>, ErrorView>(e@))
                    == populate_run(s, f, root@, bare@, plan@, none));
            }
            return Err(e);
        },
        Ok(default) => default,
    };
    let selected = match &plan.explicit_branch {
        Some(b) => copied(b.as_slice()),
        None => default,
    };
    let relative = match select(runner, root, selected.as_slice()) {
        Err(e) => {
            proof {
                assert((runner.session(), files.files(), Err::<Seq<u8>, ErrorView>(e@))
                    == populate_run(s, f, root@, bare@, plan@, none));
            }
            return Err(e);
        },
        Ok(relative) => relative,
    };
    let ghost s3 = runner.session();
    let ghost f3 = files.files();
    let r = plant(
        runner,
        files,
        root,
        bare,
        remote,
        selected.as_slice(),
        relative.as_slice(),
    );
    proof {
        let pointer = choose|pointer: Nonces|
            possible_nonces(pointer) && (runner.session(), files.files(), grove_outcome(r))
                == #[trigger] plant_run(
                s3,
                f3,
                root@,
                bare@,
                remote@,
                selected@,
                relative@,
                pointer,
            );
        assert((runner.session(), files.files(), grove_outcome(r)) == populate_run(
            s,
            f,
            root@,
            bare@,
            plan@,
            pointer,
        ));
    }
    r
}

/// Opening a root, filling it, and reporting what was kept where that fails. `g` is what the
/// guard of the two directories goes by. Every child runs behind the guard: where the runner and
/// the guard's file system end is where the guarded children have led them.
pub open spec fn transact_run(
    s: Session,
    f: FileSession,
    g: FileSession,
    root: Seq<u8>,
    p: ClonePlanView,
    pointer: Nonces,
) -> (Session, FileSession, FileSession, Outcome<Seq<u8>>) {
    match open_grove_run(f, root) {
        (f1, mutated, recovery, Err(e)) => {
            let (f2, r) = reported_run(f1, e, root, mutated, recovery, "clone"@);
            (s, f2, g, r)
        },
        (f1, mutated, recovery, Ok((held, bare))) => {
            let (s2, f2, filled) = populate_run(
                guarded_session(s, g, held, bare),
                f1,
                held,
                bare,
                p,
                pointer,
            );
            let (s3, g3) = beneath(s2);
            match filled {
                Err(e) => {
                    let (f3, r) = reported_run(f2, e, root, mutated, recovery, "clone"@);
                    (s3, f3, g3, r)
                },
                Ok(grove) => (s3, f2, g3, Ok(grove)),
            }
        },
    }
}

/// Opens a root, fills it with a clone, and reports what was kept where that fails. The runner and
/// the guard's file system are given back.
pub fn run_transaction<R: GitRunner, F: FileSystem + ?Sized, G: FileSystem>(
    runner: R,
    files: &mut F,
    guard: G,
    root: &[u8],
    plan: &ClonePlan,
) -> (r: (Result<Grove>, R, G))
    ensures
        exists|pointer: Nonces|
            possible_nonces(pointer) && (
                r.1.session(),
                final(files).files(),
                r.2.files(),
                grove_outcome(r.0),
            ) == #[trigger] transact_run(
                runner.session(),
                old(files).files(),
                guard.files(),
                root@,
                plan@,
                pointer,
            ),
{
    let ghost s = runner.session();
    let ghost f = files.files();
    let ghost g = guard.files();
    let ghost none: Nonces = Seq::empty();
    let mut mutated: bool = false;
    let mut recovery = RecoveryState { root: None, bare: None };
    let (held, bare) = match open_grove(files, root, &mut mutated, &mut recovery) {
        Err(e) => {
            let r = report_failure(files, e, root, mutated, recovery, "clone");
            proof {
                assert(possible_nonces(none));
                assert((s, files.files(), g, grove_outcome(r)) == transact_run(
                    s,
                    f,
                    g,
                    root@,
                    plan@,
                    none,
                ));
            }
            return (r, runner, guard);
        },
        Ok(p) => p,
    };
    let ghost f1 = files.files();
    let mut guarded = GuardedRunner::new(runner, guard, held.copied(), bare.copied());
    let filled = populate(&mut guarded, files, &held, &bare, plan);
    let ghost gs = guarded_session(s, g, held@, bare@);
    let ghost pointer = choose|pointer: Nonces|
        possible_nonces(pointer) && (guarded.session(), files.files(), grove_outcome(filled))
            == #[trigger] populate_run(gs, f1, held@, bare@, plan@, pointer);
    let r = match filled {
        Err(e) => report_failure(files, e, root, mutated, recovery, "clone"),
        Ok(grove) => Ok(grove),
    };
    let (runner, guard) = guarded.into_parts();
    proof {
        assert((runner.session(), files.files(), guard.files(), grove_outcome(r))
            == transact_run(s, f, g, root@, plan@, pointer));
    }
    (r, runner, guard)
}

/// Checking the branch that was asked for, before anything is created.
pub open spec fn explicit_run(s: Session, branch: Option<Seq<u8>>) -> (Session, Outcome<()>) {
    match branch {
        None => (s, Ok(())),
        Some(b) => match branch_name_run(s, b) {
            (s1, Err(e)) => (s1, Err(e)),
            (s1, Ok(_)) => match relative_place(b) {
                Err(e) => (s1, Err(e)),
                Ok(_) => (s1, Ok(())),
            },
        },
    }
}

fn check_explicit<R: GitRunner + ?Sized>(runner: &mut R, branch: &Option<Vec<u8>>) -> (r: Result<()>)
    ensures
        (final(runner).session(), plain(r)) == explicit_run(
            old(runner).session(),
            opt_view(*branch),
        ),
{
    if let Some(b) = branch {
        validate_branch_name(runner, b.as_slice())?;
        validate_relative_worktree_path(b.as_slice())?;
    }
    Ok(())
}

/// Cloning a repository into a new grove.
pub open spec fn clone_run(
    s: Session,
    f: FileSession,
    g: FileSession,
    dir: Option<Seq<u8>>,
    homes: Homes,
    p: ClonePlanView,
    pointer: Nonces,
) -> (Session, FileSession, FileSession, Outcome<Seq<u8>>) {
    if p.url.len() == 0 {
        (s, f, g, Err(usage("the repository URL is empty"@)))
    } else {
        match target_of_clone(p.url, dir, p.cwd, homes) {
            Err(e) => (s, f, g, Err(e)),
            Ok(root) => match explicit_run(s, p.explicit) {
                (s1, Err(e)) => (s1, f, g, Err(e)),
                (s1, Ok(_)) => transact_run(s1, f, g, root, p, pointer),
            },
        }
    }
}

/// Clones a repository into a new grove. Every Git child after the directories are open goes
/// through a guard, which has its own way to the file system. The runner and the guard's file system
/// are given back.
pub fn run<R: GitRunner, F: FileSystem + ?Sized, G: FileSystem, H: HomeResolver + ?Sized>(
    runner: R,
    files: &mut F,
    guard: G,
    dir: &Option<Vec<u8>>,
    resolver: &H,
    plan: &ClonePlan,
) -> (r: (Result<Grove>, R, G))
    ensures
        exists|pointer: Nonces|
            possible_nonces(pointer) && (
                r.1.session(),
                final(files).files(),
                r.2.files(),
                grove_outcome(r.0),
            ) == #[trigger] clone_run(
                runner.session(),
                old(files).files(),
                guard.files(),
                opt_view(*dir),
                resolver.homes(),
                plan@,
                pointer,
            ),
{
    let ghost s = runner.session();
    let ghost f = files.files();
    let ghost g = guard.files();
    let ghost none: Nonces = Seq::empty();
    proof {
        assert(possible_nonces(none));
    }
    if plan.url.len() == 0 {
        let e = usage_error("the repository URL is empty");
        proof {
            assert((runner.session(), f, g, Err::<Seq<u8>, ErrorView>(e@)) == clone_run(
                s,
                f,
                g,
                opt_view(*dir),
                resolver.homes(),
                plan@,
                none,
            ));
        }
        return (Err(e), runner, guard);
    }
    let root = match resolve_target(plan.url.as_slice(), dir, plan.cwd.as_slice(), resolver) {
        Err(e) => {
            proof {
                assert((runner.session(), f, g, Err::<Seq<u8>, ErrorView>(e@)) == clone_run(
                    s,
                    f,
                    g,
                    opt_view(*dir),
                    resolver.homes(),
                    plan@,
                    none,
                ));
            }
            return (Err(e), runner, guard);
        },
        Ok(root) => root,
    };
    let mut runner = runner;
    if let Err(e) = check_explicit(&mut runner, &plan.explicit_branch) {
        proof {
            assert((runner.session(), f, g, Err::<Seq<u8>, ErrorView>(e@)) == clone_run(
                s,
                f,
                g,
                opt_view(*dir),
                resolver.homes(),
                plan@,
                none,
            ));
        }
        return (Err(e), runner, guard);
    }
    let ghost s1 = runner.session();
    let (r, runner, guard) = run_transaction(runner, files, guard, root.as_slice(), plan);
    proof {
        let pointer = choose|pointer: Nonces|
            possible_nonces(pointer) && (
                runner.session(),
                files.files(),
                guard.files(),
                grove_outcome(r),
            ) == #[trigger] transact_run(s1, f, g, root@, plan@, pointer);
        assert((runner.session(), files.files(), guard.files(), grove_outcome(r)) == clone_run(
            s,
            f,
            g,
            opt_view(*dir),
            resolver.homes(),
            plan@,
            pointer,
        ));
    }
    (r, runner, guard)
}

} // verus!
