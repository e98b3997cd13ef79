//! Add a worktree for a branch or a revision.
use vstd::prelude::*;
use crate::bytes::{bytes_of, copied, lemma_views_push, lit, opt_view, prefixed, views};
use crate::commands::publish_push::{escape_all, escaped_list};
use crate::error::{
    bytes_outcome, detailed, list_outcome, needs_decision, usage, usage_error, ErrorView,
    GroveError, Result,
};
use crate::fsx::files::{FileSession, FileSystem};
use crate::git::config::{one_line_of, required, required_step, trim_one_line, Outcome};
use crate::git::query::{
    any_commit_run, branch_checked_out_at, branch_name_run, candidates_run, checkout_run,
    has_any_commit, local_branch_exists, local_branch_run, remote_candidates, validate_branch_name,
};
use crate::git::runner::{
    args4, args5, args6, args7, invoke_in, GitRunner, Invocation, Session,
};
use crate::grove::discover::{bare_of, Grove};
use crate::grove::layout::{
    parents_run, place_path, place_run, vacant_run, validate_worktree_path,
};
use crate::path::{child, join_path};
use crate::text::{escape, escaped, join, joined_text, text};

verus! {

broadcast use lemma_views_push;

/// What to check out in a new worktree, and where.
#[derive(Debug)]
pub enum AddMode {
    /// A branch, in a directory of its own name unless another is given. `start` is where a
    /// branch starts that has to be created.
    Branch { branch: Vec<u8>, dir: Option<Vec<u8>>, start: Option<Vec<u8>> },
    /// A revision without a branch.
    Detached { revision: Vec<u8>, dir: Option<Vec<u8>> },
}

pub enum ModeView {
    Branch { branch: Seq<u8>, dir: Option<Seq<u8>>, start: Option<Seq<u8>> },
    Detached { revision: Seq<u8>, dir: Option<Seq<u8>> },
}

impl View for AddMode {
    type V = ModeView;

    open spec fn view(&self) -> ModeView {
        match self {
            AddMode::Branch { branch, dir, start } => ModeView::Branch {
                branch: branch@,
                dir: opt_view(*dir),
                start: opt_view(*start),
            },
            AddMode::Detached { revision, dir } => ModeView::Detached {
                revision: revision@,
                dir: opt_view(*dir),
            },
        }
    }
}

/// What the arguments of an `add` come to. Without a branch, a detached worktree has its directory
/// from whichever of the two places is taken.
pub open spec fn asked_mode(
    branch: Option<Seq<u8>>,
    dir: Option<Seq<u8>>,
    start: Option<Seq<u8>>,
    detach: Option<Seq<u8>>,
) -> Outcome<ModeView> {
    match detach {
        None => match branch {
            None => Err(usage("add needs a branch"@)),
            Some(branch) => Ok(ModeView::Branch { branch, dir, start }),
        },
        Some(revision) => if branch is Some && dir is Some {
            Err(usage("a detached worktree takes at most one directory"@))
        } else {
            Ok(
                ModeView::Detached {
                    revision,
                    dir: if branch is Some {
                        branch
                    } else {
                        dir
                    },
                },
            )
        },
    }
}

pub open spec fn mode_outcome(r: Result<AddMode>) -> Outcome<ModeView> {
    match r {
        Ok(mode) => Ok(mode@),
        Err(e) => Err(e@),
    }
}

impl AddMode {
    /// Reads what the arguments of an `add` ask for.
    pub fn asked(
        branch: Option<Vec<u8>>,
        dir: Option<Vec<u8>>,
        start: Option<Vec<u8>>,
        detach: Option<Vec<u8>>,
    ) -> (r: Result<AddMode>)
        ensures
            mode_outcome(r) == asked_mode(
                opt_view(branch),
                opt_view(dir),
                opt_view(start),
                opt_view(detach),
            ),
    {
        match detach {
            None => match branch {
                None => Err(usage_error("add needs a branch")),
                Some(branch) => Ok(AddMode::Branch { branch, dir, start }),
            },
            Some(revision) => match (branch, dir) {
                (Some(_), Some(_)) => Err(
                    usage_error("a detached worktree takes at most one directory"),
                ),
                (Some(branch), None) => Ok(AddMode::Detached { revision, dir: Some(branch) }),
                (None, dir) => Ok(AddMode::Detached { revision, dir }),
            },
        }
    }
}

// ----------------------------------------------------------- adding the worktree

/// Adding a worktree at a place that was asked for: the place is checked, the way to it is made,
/// it is checked to be vacant, and only then is Git run.
pub open spec fn add_run(
    s: Session,
    f: FileSession,
    root: Seq<u8>,
    requested: Seq<u8>,
    args: Seq<Seq<u8>>,
) -> (Session, FileSession, Outcome<Seq<u8>>) {
    match place_run(f, root, requested) {
        (f1, Err(e)) => (s, f1, Err(e)),
        (f1, Ok(place)) => match parents_run(f1, place) {
            (f2, Err(e)) => (s, f2, Err(e)),
            (f2, Ok(_)) => match vacant_run(f2, place_path(place)) {
                (f3, Err(e)) => (s, f3, Err(e)),
                (f3, Ok(_)) => match required_step(
                    s,
                    invoke_in(bare_of(root), args),
                    "worktree add"@,
                ) {
                    (s1, Err(e)) => (s1, f3, Err(e)),
                    (s1, Ok(_)) => (s1, f3, Ok(place_path(place))),
                },
            },
        },
    }
}

/// Adds a worktree at a place that was asked for; returns its path.
pub fn add_worktree<R: GitRunner + ?Sized, F: FileSystem + ?Sized>(
    runner: &mut R,
    files: &mut F,
    grove: &Grove,
    requested: &[u8],
    args: &Vec<Vec<u8>>,
) -> (r: Result<Vec<u8>>)
    ensures
        (final(runner).session(), final(files).files(), bytes_outcome(r)) == add_run(
            old(runner).session(),
            old(files).files(),
            grove.root@,
            requested@,
            views(args@),
        ),
{
    let validated = validate_worktree_path(files, grove.root.as_slice(), requested)?;
    let path = validated.path();
    let invocation = Invocation::new().git_dir(grove.bare_dir().as_slice()).arg_list(args);
    proof {
        assert(Seq::<Seq<u8>>::empty() + views(args@) =~= views(args@));
        assert(invocation@ == invoke_in(bare_of(grove.root@), views(args@)));
    }
    validated.create_parent_directories(files)?;
    validated.validate_vacant(files)?;
    required(runner, invocation, "worktree add")?;
    Ok(path)
}

/// No worktree is added to a place that is refused: Git is not run at all.
pub proof fn refused_places_reach_no_git(
    s: Session,
    f: FileSession,
    root: Seq<u8>,
    requested: Seq<u8>,
    args: Seq<Seq<u8>>,
)
    requires
        place_run(f, root, requested).1 is Err,
    ensures
        add_run(s, f, root, requested, args).0 == s,
        add_run(s, f, root, requested, args).2 is Err,
{
}

// --------------------------------------------------------------- without a branch

pub open spec fn detached_name(short: Seq<u8>) -> Seq<u8> {
    lit("detached-") + short
}

pub open spec fn detached_args(path: Seq<u8>, revision: Seq<u8>) -> Seq<Seq<u8>> {
    args5(lit("worktree"), lit("add"), lit("--detach"), path, revision)
}

/// Adding a worktree for a revision, by default in a directory named after the commit.
pub open spec fn detached_run(
    s: Session,
    f: FileSession,
    root: Seq<u8>,
    revision: Seq<u8>,
    dir: Option<Seq<u8>>,
) -> (Session, FileSession, Outcome<Seq<u8>>) {
    match required_step(
        s,
        invoke_in(
            bare_of(root),
            args5(
                lit("rev-parse"),
                lit("--verify"),
                lit("--short"),
                lit("--end-of-options"),
                revision + lit("^{commit}"),
            ),
        ),
        "rev-parse --verify --short"@,
    ) {
        (s1, Err(e)) => (s1, f, Err(e)),
        (s1, Ok(out)) => match one_line_of(out.stdout, "abbreviated revision"@) {
            Err(e) => (s1, f, Err(e)),
            Ok(short) => {
                let requested = match dir {
                    Some(d) => d,
                    None => detached_name(short),
                };
                add_run(
                    s1,
                    f,
                    root,
                    requested,
                    detached_args(child(root, requested), revision),
                )
            },
        },
    }
}

fn no_args() -> (r: Vec<Vec<u8>>)
    ensures
        views(r@) == Seq::<Seq<u8>>::empty(),
{
    let args: Vec<Vec<u8>> = Vec::new();
    proof {
        assert(views(args@) =~= Seq::empty());
    }
    args
}

/// Adds a worktree for a revision.
pub fn detached<R: GitRunner + ?Sized, F: FileSystem + ?Sized>(
    runner: &mut R,
    files: &mut F,
    grove: &Grove,
    revision: &[u8],
    dir: &Option<Vec<u8>>,
) -> (r: Result<Vec<u8>>)
    ensures
        (final(runner).session(), final(files).files(), bytes_outcome(r)) == detached_run(
            old(runner).session(),
            old(files).files(),
            grove.root@,
            revision@,
            opt_view(*dir),
        ),
{
    let commit = crate::bytes::joined(revision, "^{commit}".as_bytes());
    let resolved = required(
        runner,
        Invocation::new().git_dir(grove.bare_dir().as_slice()).word("rev-parse").word(
            "--verify",
        ).word("--short").word("--end-of-options").arg(commit.as_slice()),
        "rev-parse --verify --short",
    )?;
    let short = trim_one_line(resolved.stdout, "abbreviated revision")?;
    let requested = match dir {
        Some(d) => copied(d.as_slice()),
        None => prefixed("detached-", short.as_slice()),
    };
    let mut args = no_args();
    args.push(bytes_of("worktree"));
    args.push(bytes_of("add"));
    args.push(bytes_of("--detach"));
    args.push(join_path(grove.root.as_slice(), requested.as_slice()));
    args.push(copied(revision));
    add_worktree(runner, files, grove, requested.as_slice(), &args)
}

// --------------------------------------------------------------------- a branch

pub open spec fn exists_already(branch: Seq<u8>, place: &str) -> ErrorView {
    detailed(
        usage("branch "@ + escape(branch) + " already exists "@ + place@),
        "--start only applies when the branch has to be created"@,
    )
}

pub open spec fn local_args(path: Seq<u8>, branch: Seq<u8>) -> Seq<Seq<u8>> {
    args4(lit("worktree"), lit("add"), path, branch)
}

pub open spec fn tracking_args(branch: Seq<u8>, path: Seq<u8>, candidate: Seq<u8>) -> Seq<Seq<u8>> {
    args7(lit("worktree"), lit("add"), lit("--track"), lit("-b"), branch, path, candidate)
}

pub open spec fn starting_args(branch: Seq<u8>, path: Seq<u8>, start: Seq<u8>) -> Seq<Seq<u8>> {
    args6(lit("worktree"), lit("add"), lit("-b"), branch, path, start)
}

pub open spec fn orphan_args(branch: Seq<u8>, path: Seq<u8>) -> Seq<Seq<u8>> {
    args6(lit("worktree"), lit("add"), lit("--orphan"), lit("-b"), branch, path)
}

/// How to add a worktree for a branch that exists locally: it must not be checked out yet.
pub open spec fn local_plan(
    s: Session,
    root: Seq<u8>,
    branch: Seq<u8>,
    path: Seq<u8>,
    start: Option<Seq<u8>>,
) -> (Session, Outcome<Seq<Seq<u8>>>) {
    if start is Some {
        (s, Err(exists_already(branch, "locally")))
    } else {
        match checkout_run(s, root, branch) {
            (s1, Err(e)) => (s1, Err(e)),
            (s1, Ok(Some(existing))) => (
                s1,
                Err(
                    detailed(
                        needs_decision(
                            "branch "@ + escape(branch) + " is already checked out at "@ + escape(
                                existing,
                            ),
                        ),
                        "choose another branch or remove the existing worktree by hand"@,
                    ),
                ),
            ),
            (s1, Ok(None)) => (s1, Ok(local_args(path, branch))),
        }
    }
}

/// How to add a worktree for a branch that does not exist locally: from the one remote that has
/// it; from a start that is given, if none does; and as the first branch of a repository that
/// has no commit.
pub open spec fn absent_plan(
    s: Session,
    root: Seq<u8>,
    branch: Seq<u8>,
    path: Seq<u8>,
    start: Option<Seq<u8>>,
) -> (Session, Outcome<Seq<Seq<u8>>>) {
    match candidates_run(s, root, branch) {
        (s1, Err(e)) => (s1, Err(e)),
        (s1, Ok(candidates)) => if candidates.len() > 0 && start is Some {
            (s1, Err(exists_already(branch, "on a remote")))
        } else if candidates.len() == 1 {
            (s1, Ok(tracking_args(branch, path, candidates[0])))
        } else if candidates.len() > 1 {
            (
                s1,
                Err(
                    detailed(
                        needs_decision(
                            "branch "@ + escape(branch) + " matches several remotes: "@
                                + joined_text(escaped_list(candidates), ", "@),
                        ),
                        "choose a remote branch explicitly before retrying"@,
                    ),
                ),
            )
        } else {
            match start {
                Some(revision) => (s1, Ok(starting_args(branch, path, revision))),
                None => match any_commit_run(s1, root) {
                    (s2, Err(e)) => (s2, Err(e)),
                    (s2, Ok(any)) => if any {
                        (
                            s2,
                            Err(
                                detailed(
                                    usage(
                                        "branch "@ + escape(branch)
                                            + " exists neither locally nor on a remote"@,
                                    ),
                                    "pass --start <revision> to create it"@,
                                ),
                            ),
                        )
                    } else {
                        (s2, Ok(orphan_args(branch, path)))
                    },
                },
            }
        },
    }
}

pub open spec fn branch_plan(
    s: Session,
    root: Seq<u8>,
    branch: Seq<u8>,
    path: Seq<u8>,
    start: Option<Seq<u8>>,
) -> (Session, Outcome<Seq<Seq<u8>>>) {
    match local_branch_run(s, root, branch) {
        (s1, Err(e)) => (s1, Err(e)),
        (s1, Ok(local)) => if local {
            local_plan(s1, root, branch, path, start)
        } else {
            absent_plan(s1, root, branch, path, start)
        },
    }
}

fn plan_local<R: GitRunner + ?Sized>(
    runner: &mut R,
    grove: &Grove,
    branch: &[u8],
    path: Vec<u8>,
    start: &Option<Vec<u8>>,
) -> (r: Result<Vec<Vec<u8>>>)
    ensures
        (final(runner).session(), list_outcome(r)) == local_plan(
            old(runner).session(),
            grove.root@,
            branch@,
            path@,
            opt_view(*start),
        ),
{
    if start.is_some() {
        return Err(
            GroveError::usage(
                text("branch ").concat(escaped(branch).as_str()).concat(
                    " already exists ",
                ).concat("locally"),
            ).with_detail(text("--start only applies when the branch has to be created")),
        );
    }
    match branch_checked_out_at(runner, grove, branch)? {
        Some(existing) => Err(
            GroveError::needs_decision(
                text("branch ").concat(escaped(branch).as_str()).concat(
                    " is already checked out at ",
                ).concat(escaped(existing.as_slice()).as_str()),
            ).with_detail(
                text("choose another branch or remove the existing worktree by hand"),
            ),
        ),
        None => {
            let mut args = no_args();
            args.push(bytes_of("worktree"));
            args.push(bytes_of("add"));
            args.push(path);
            args.push(copied(branch));
            Ok(args)
        },
    }
}

fn plan_absent<R: GitRunner + ?Sized>(
    runner: &mut R,
    grove: &Grove,
    branch: &[u8],
    path: Vec<u8>,
    start: &Option<Vec<u8>>,
) -> (r: Result<Vec<Vec<u8>>>)
    ensures
        (final(runner).session(), list_outcome(r)) == absent_plan(
            old(runner).session(),
            grove.root@,
            branch@,
            path@,
            opt_view(*start),
        ),
{
    let candidates = remote_candidates(runner, grove, branch)?;
    proof {
        assert(views(candidates@).len() == candidates@.len());
    }
    if candidates.len() > 0 && start.is_some() {
        return Err(
            GroveError::usage(
                text("branch ").concat(escaped(branch).as_str()).concat(
                    " already exists ",
                ).concat("on a remote"),
            ).with_detail(text("--start only applies when the branch has to be created")),
        );
    }
    let mut args = no_args();
    args.push(bytes_of("worktree"));
    args.push(bytes_of("add"));
    if candidates.len() == 1 {
        proof {
            assert(views(candidates@)[0] == candidates@[0]@);
        }
        args.push(bytes_of("--track"));
        args.push(bytes_of("-b"));
        args.push(copied(branch));
        args.push(path);
        args.push(copied(candidates[0].as_slice()));
        return Ok(args);
    }
    if candidates.len() > 1 {
        return Err(
            GroveError::needs_decision(
                text("branch ").concat(escaped(branch).as_str()).concat(
                    " matches several remotes: ",
                ).concat(join(&escape_all(&candidates), ", ").as_str()),
            ).with_detail(text("choose a remote branch explicitly before retrying")),
        );
    }
    match start {
        Some(revision) => {
            args.push(bytes_of("-b"));
            args.push(copied(branch));
            args.push(path);
            args.push(copied(revision.as_slice()));
            Ok(args)
        },
        None => {
            if has_any_commit(runner, grove)? {
                return Err(
                    GroveError::usage(
                        text("branch ").concat(escaped(branch).as_str()).concat(
                            " exists neither locally nor on a remote",
                        ),
                    ).with_detail(text("pass --start <revision> to create it")),
                );
            }
            args.push(bytes_of("--orphan"));
            args.push(bytes_of("-b"));
            args.push(copied(branch));
            args.push(path);
            Ok(args)
        },
    }
}

/// Adding a worktree for a branch.
pub open spec fn branch_run(
    s: Session,
    f: FileSession,
    root: Seq<u8>,
    branch: Seq<u8>,
    dir: Option<Seq<u8>>,
    start: Option<Seq<u8>>,
) -> (Session, FileSession, Outcome<Seq<u8>>) {
    match branch_name_run(s, branch) {
        (s1, Err(e)) => (s1, f, Err(e)),
        (s1, Ok(_)) => {
            let requested = match dir {
                Some(d) => d,
                None => branch,
            };
            match branch_plan(s1, root, branch, child(root, requested), start) {
                (s2, Err(e)) => (s2, f, Err(e)),
                (s2, Ok(args)) => add_run(s2, f, root, requested, args),
            }
        },
    }
}

/// Adds a worktree for a branch.
pub fn add_branch<R: GitRunner + ?Sized, F: FileSystem + ?Sized>(
    runner: &mut R,
    files: &mut F,
    grove: &Grove,
    branch: &[u8],
    dir: &Option<Vec<u8>>,
    start: &Option<Vec<u8>>,
) -> (r: Result<Vec<u8>>)
    ensures
        (final(runner).session(), final(files).files(), bytes_outcome(r)) == branch_run(
            old(runner).session(),
            old(files).files(),
            grove.root@,
            branch@,
            opt_view(*dir),
            opt_view(*start),
        ),
{
    validate_branch_name(runner, branch)?;
    let requested = match dir {
        Some(d) => copied(d.as_slice()),
        None => copied(branch),
    };
    let path = join_path(grove.root.as_slice(), requested.as_slice());
    let args = if local_branch_exists(runner, grove, branch)? {
        plan_local(runner, grove, branch, path, start)?
    } else {
        plan_absent(runner, grove, branch, path, start)?
    };
    add_worktree(runner, files, grove, requested.as_slice(), &args)
}

pub open spec fn add_mode_run(s: Session, f: FileSession, root: Seq<u8>, mode: ModeView) -> (
    Session,
    FileSession,
    Outcome<Seq<u8>>,
) {
    match mode {
        ModeView::Detached { revision, dir } => detached_run(s, f, root, revision, dir),
        ModeView::Branch { branch, dir, start } => branch_run(s, f, root, branch, dir, start),
    }
}

/// Adds a worktree; returns its path.
pub fn run<R: GitRunner + ?Sized, F: FileSystem + ?Sized>(
    runner: &mut R,
    files: &mut F,
    grove: &Grove,
    mode: &AddMode,
) -> (r: Result<Vec<u8>>)
    ensures
        (final(runner).session(), final(files).files(), bytes_outcome(r)) == add_mode_run(
            old(runner).session(),
            old(files).files(),
            grove.root@,
            mode@,
        ),
{
    match mode {
        AddMode::Detached { revision, dir } => detached(
            runner,
            files,
            grove,
            revision.as_slice(),
            dir,
        ),
        AddMode::Branch { branch, dir, start } => add_branch(
            runner,
            files,
            grove,
            branch.as_slice(),
            dir,
            start,
        ),
    }
}

/// A start is used only to create a branch: with one given, a worktree is planned only for a
/// branch that exists neither locally nor on a remote, and it starts there.
pub proof fn a_start_only_creates_branches(
    s: Session,
    root: Seq<u8>,
    branch: Seq<u8>,
    path: Seq<u8>,
    start: Seq<u8>,
)
    requires
        branch_plan(s, root, branch, path, Some(start)).1 is Ok,
    ensures
        local_branch_run(s, root, branch).1 == Ok::<bool, ErrorView>(false),
        candidates_run(local_branch_run(s, root, branch).0, root, branch).1->Ok_0.len() == 0,
        branch_plan(s, root, branch, path, Some(start)).1->Ok_0 == starting_args(
            branch,
            path,
            start,
        ),
{
}

} // verus!
