//! What is added, and where, by what was asked for.
use vstd::prelude::*;
use crate::bytes::{lit, trim_line_ends};
use crate::commands::add::{add_mode_run, add_run, asked_mode, branch_plan, ModeView};
use crate::error::{ErrorView, ExitClass};
use crate::fsx::files::FileSession;
use crate::git::config::one_line_of;
use crate::git::query::{
    any_commit_run, branch_name_run, candidates_run, checkout_run, local_branch_run,
};
use crate::git::runner::{
    answer_to, args1, args3, args4, args5, args6, args7, invoke, invoke_in, lemma_grown_on,
    InvocationView, Reply, Session,
};
use crate::grove::layout::{
    parents_run, place_path, place_run, places_are_as_asked, vacant_run,
};
use crate::path::{child, same_path};

verus! {

/// Whether a child was run to its end and exited with a status.
pub open spec fn ended(reply: Reply, status: int) -> bool {
    reply matches Ok(out) && out.status == status
}

proof fn lemma_added(
    s: Session,
    f: FileSession,
    root: Seq<u8>,
    requested: Seq<u8>,
    args: Seq<Seq<u8>>,
)
    requires
        root.len() > 0,
        add_run(s, f, root, requested, args).2 is Ok,
    ensures
        add_run(s, f, root, requested, args).0.calls == s.calls.push(
            invoke_in(child(root, lit(".bare")), args),
        ),
        add_run(s, f, root, requested, args).0.script == s.script,
        ended((s.script)(s.calls.push(invoke_in(child(root, lit(".bare")), args))), 0),
        same_path(add_run(s, f, root, requested, args).2->Ok_0, child(root, requested)),
{
    places_are_as_asked(root, requested);
}

/// What the arguments of an `add` say is what is added: nothing of them is left out or swapped.
/// With a revision to detach at, the one word beside it is the directory.
pub proof fn arguments_are_taken_as_given(
    branch: Option<Seq<u8>>,
    dir: Option<Seq<u8>>,
    start: Option<Seq<u8>>,
    detach: Option<Seq<u8>>,
)
    ensures
        asked_mode(branch, dir, start, detach) matches Ok(ModeView::Branch {
            branch: b,
            dir: d,
            start: t,
        }) ==> detach is None && branch == Some(b) && dir == d && start == t,
        asked_mode(branch, dir, start, detach) matches Ok(ModeView::Detached {
            revision: r,
            dir: d,
        }) ==> detach == Some(r) && (branch is None || dir is None) && (d is None <==> branch is None
            && dir is None) && (d is Some ==> branch == d || dir == d),
        asked_mode(branch, dir, start, detach) matches Err(e) ==> e.class == ExitClass::Usage,
        asked_mode(branch, dir, start, detach) is Err <==> (detach is None && branch is None) || (
        detach is Some && branch is Some && dir is Some),
{
}

/// A worktree for a revision stands in the directory that was asked for, and in one named after the
/// commit only where none was: Git is asked to abbreviate the revision, and then to add just that
/// worktree for just that revision, in the grove's repository.
pub proof fn detached_worktrees_are_as_asked(
    s: Session,
    f: FileSession,
    root: Seq<u8>,
    revision: Seq<u8>,
    dir: Option<Seq<u8>>,
)
    requires
        root.len() > 0,
        add_mode_run(s, f, root, ModeView::Detached { revision, dir }).2 is Ok,
    ensures
        ({
            let (s1, f1, r) = add_mode_run(s, f, root, ModeView::Detached { revision, dir });
            let n = s.calls.len() as int;
            let bare = child(root, lit(".bare"));
            let resolved = answer_to(s1, n);
            let place = s1.calls[n + 1].args[3];
            &&& s1.calls == s.calls.push(
                invoke_in(
                    bare,
                    args5(
                        lit("rev-parse"),
                        lit("--verify"),
                        lit("--short"),
                        lit("--end-of-options"),
                        revision + lit("^{commit}"),
                    ),
                ),
            ).push(
                invoke_in(
                    bare,
                    args5(lit("worktree"), lit("add"), lit("--detach"), place, revision),
                ),
            )
            &&& ended(resolved, 0)
            &&& ended(answer_to(s1, n + 1), 0)
            &&& dir matches Some(d) ==> place == child(root, d)
            &&& dir is None ==> place == child(
                root,
                lit("detached-") + trim_line_ends(resolved->Ok_0.stdout),
            )
            &&& same_path(r->Ok_0, place)
        }),
{
    let n = s.calls.len() as int;
    let asked = abbreviating(root, revision);
    let t = Session { calls: s.calls.push(asked), ..s };
    lemma_detached(s, f, root, revision, dir);
    let resolved = (s.script)(s.calls.push(asked));
    let requested = wanted(resolved, dir);
    let args = args5(lit("worktree"), lit("add"), lit("--detach"), child(root, requested), revision);
    lemma_added(t, f, root, requested, args);
    let s1 = add_run(t, f, root, requested, args).0;
    assert(s1.calls.take(n + 1) =~= s.calls.push(asked));
    assert(s1.calls.take(n + 2) =~= s1.calls);
}

spec fn abbreviating(root: Seq<u8>, revision: Seq<u8>) -> InvocationView {
    invoke_in(
        child(root, lit(".bare")),
        args5(
            lit("rev-parse"),
            lit("--verify"),
            lit("--short"),
            lit("--end-of-options"),
            revision + lit("^{commit}"),
        ),
    )
}

spec fn wanted(resolved: Reply, dir: Option<Seq<u8>>) -> Seq<u8> {
    match dir {
        Some(d) => d,
        None => lit("detached-") + trim_line_ends(resolved->Ok_0.stdout),
    }
}

proof fn lemma_detached(
    s: Session,
    f: FileSession,
    root: Seq<u8>,
    revision: Seq<u8>,
    dir: Option<Seq<u8>>,
)
    requires
        add_mode_run(s, f, root, ModeView::Detached { revision, dir }).2 is Ok,
    ensures
        ended((s.script)(s.calls.push(abbreviating(root, revision))), 0),
        add_mode_run(s, f, root, ModeView::Detached { revision, dir }) == add_run(
            Session { calls: s.calls.push(abbreviating(root, revision)), ..s },
            f,
            root,
            wanted((s.script)(s.calls.push(abbreviating(root, revision))), dir),
            args5(
                lit("worktree"),
                lit("add"),
                lit("--detach"),
                child(
                    root,
                    wanted((s.script)(s.calls.push(abbreviating(root, revision))), dir),
                ),
                revision,
            ),
        ),
{
}

/// A worktree for a branch stands in the directory that was asked for, and in one of the branch's
/// name only where none was. A branch that exists is checked out as it is, and takes no start; one
/// that does not is made from the start that was given, from the one remote that has it, or, in a
/// repository without a commit, from nothing. In every case it is this branch.
pub proof fn branch_worktrees_are_as_asked(
    s: Session,
    f: FileSession,
    root: Seq<u8>,
    branch: Seq<u8>,
    dir: Option<Seq<u8>>,
    start: Option<Seq<u8>>,
)
    requires
        root.len() > 0,
        add_mode_run(s, f, root, ModeView::Branch { branch, dir, start }).2 is Ok,
    ensures
        ({
            let (s1, f1, r) = add_mode_run(s, f, root, ModeView::Branch { branch, dir, start });
            let n = s.calls.len() as int;
            let bare = child(root, lit(".bare"));
            let place = if dir is Some {
                child(root, dir->Some_0)
            } else {
                child(root, branch)
            };
            let last = s1.calls.last();
            let known = Session { calls: s1.calls.take(n + 2), ..s };
            let candidates = candidates_run(known, root, branch).1;
            &&& s1.calls.len() > n + 2
            &&& s1.calls.take(n) == s.calls
            &&& s1.calls[n] == invoke(args3(lit("check-ref-format"), lit("--branch"), branch))
            &&& ended(answer_to(s1, n), 0)
            &&& s1.calls[n + 1] == invoke_in(
                bare,
                args4(
                    lit("show-ref"),
                    lit("--verify"),
                    lit("--quiet"),
                    lit("refs/heads/") + branch,
                ),
            )
            &&& last == invoke_in(bare, last.args)
            &&& ended(answer_to(s1, s1.calls.len() - 1), 0)
            &&& same_path(r->Ok_0, place)
            &&& ended(answer_to(s1, n + 1), 0) || ended(answer_to(s1, n + 1), 1)
            &&& ended(answer_to(s1, n + 1), 0) ==> start is None && last.args == args4(
                lit("worktree"),
                lit("add"),
                place,
                branch,
            )
            &&& ended(answer_to(s1, n + 1), 1) ==> candidates is Ok && match start {
                Some(from) => candidates->Ok_0.len() == 0 && last.args == args6(
                    lit("worktree"),
                    lit("add"),
                    lit("-b"),
                    branch,
                    place,
                    from,
                ),
                None => if candidates->Ok_0.len() > 0 {
                    candidates->Ok_0.len() == 1 && last.args == args7(
                        lit("worktree"),
                        lit("add"),
                        lit("--track"),
                        lit("-b"),
                        branch,
                        place,
                        candidates->Ok_0[0],
                    )
                } else {
                    last.args == args6(
                        lit("worktree"),
                        lit("add"),
                        lit("--orphan"),
                        lit("-b"),
                        branch,
                        place,
                    )
                },
            }
        }),
{
    let n = s.calls.len() as int;
    let requested = if dir is Some {
        dir->Some_0
    } else {
        branch
    };
    let place = child(root, requested);
    let check = invoke(args3(lit("check-ref-format"), lit("--branch"), branch));
    let ask = asking_for(root, branch);
    let t1 = Session { calls: s.calls.push(check), ..s };
    let t2 = Session { calls: s.calls.push(check).push(ask), ..s };
    lemma_branch(s, f, root, branch, dir, start);
    let plan = branch_plan(t1, root, branch, place, start);
    lemma_added(plan.0, f, root, requested, plan.1->Ok_0);
    lemma_planned(t1, root, branch, place, start);
    lemma_planned_args(t1, root, branch, place, start);
    let s1 = add_run(plan.0, f, root, requested, plan.1->Ok_0).0;
    assert(s1.calls == plan.0.calls.push(invoke_in(child(root, lit(".bare")), plan.1->Ok_0)));
    assert(plan.0.calls.take(n + 2) =~= t2.calls);
    assert(s1.calls.take(n + 2) =~= plan.0.calls.take(n + 2));
    assert(s1.calls.take(n) =~= t2.calls.take(n));
    assert(t2.calls.take(n) =~= s.calls);
    assert(s1.calls[n] == s1.calls.take(n + 2)[n]);
    assert(s1.calls[n + 1] == s1.calls.take(n + 2)[n + 1]);
    assert(s1.calls.take(n + 1) =~= t2.calls.take(n + 1));
    assert(t2.calls.take(n + 1) =~= t1.calls);
    assert(s1.calls.take(s1.calls.len() as int) =~= s1.calls);
}

spec fn asking_for(root: Seq<u8>, branch: Seq<u8>) -> InvocationView {
    invoke_in(
        child(root, lit(".bare")),
        args4(lit("show-ref"), lit("--verify"), lit("--quiet"), lit("refs/heads/") + branch),
    )
}

proof fn lemma_branch(
    s: Session,
    f: FileSession,
    root: Seq<u8>,
    branch: Seq<u8>,
    dir: Option<Seq<u8>>,
    start: Option<Seq<u8>>,
)
    requires
        add_mode_run(s, f, root, ModeView::Branch { branch, dir, start }).2 is Ok,
    ensures
        ({
            let check = invoke(args3(lit("check-ref-format"), lit("--branch"), branch));
            let t1 = Session { calls: s.calls.push(check), ..s };
            let requested = if dir is Some {
                dir->Some_0
            } else {
                branch
            };
            let plan = branch_plan(t1, root, branch, child(root, requested), start);
            &&& ended((s.script)(t1.calls), 0)
            &&& plan.1 is Ok
            &&& add_mode_run(s, f, root, ModeView::Branch { branch, dir, start }) == add_run(
                plan.0,
                f,
                root,
                requested,
                plan.1->Ok_0,
            )
        }),
{
}

proof fn lemma_planned_args(
    s: Session,
    root: Seq<u8>,
    branch: Seq<u8>,
    place: Seq<u8>,
    start: Option<Seq<u8>>,
)
    requires
        branch_plan(s, root, branch, place, start).1 is Ok,
    ensures
        ({
            let args = branch_plan(s, root, branch, place, start).1->Ok_0;
            let t = Session { calls: s.calls.push(asking_for(root, branch)), ..s };
            let reply = (s.script)(t.calls);
            let candidates = candidates_run(t, root, branch).1;
            &&& ended(reply, 0) || ended(reply, 1)
            &&& ended(reply, 0) ==> start is None && args == args4(
                lit("worktree"),
                lit("add"),
                place,
                branch,
            )
            &&& ended(reply, 1) ==> candidates is Ok && match start {
                Some(from) => candidates->Ok_0.len() == 0 && args == args6(
                    lit("worktree"),
                    lit("add"),
                    lit("-b"),
                    branch,
                    place,
                    from,
                ),
                None => if candidates->Ok_0.len() > 0 {
                    candidates->Ok_0.len() == 1 && args == args7(
                        lit("worktree"),
                        lit("add"),
                        lit("--track"),
                        lit("-b"),
                        branch,
                        place,
                        candidates->Ok_0[0],
                    )
                } else {
                    args == args6(
                        lit("worktree"),
                        lit("add"),
                        lit("--orphan"),
                        lit("-b"),
                        branch,
                        place,
                    )
                },
            }
        }),
{
}

/// Planning goes on from where it began, by way of the question whether the branch exists.
proof fn lemma_planned(
    s: Session,
    root: Seq<u8>,
    branch: Seq<u8>,
    path: Seq<u8>,
    start: Option<Seq<u8>>,
)
    ensures
        ({
            let s1 = branch_plan(s, root, branch, path, start).0;
            &&& s1.script == s.script
            &&& s1.calls.len() > s.calls.len()
            &&& s1.calls.take(s.calls.len() as int + 1) == s.calls.push(
                invoke_in(
                    child(root, lit(".bare")),
                    args4(
                        lit("show-ref"),
                        lit("--verify"),
                        lit("--quiet"),
                        lit("refs/heads/") + branch,
                    ),
                ),
            )
        }),
{
    let ask = invoke_in(
        child(root, lit(".bare")),
        args4(lit("show-ref"), lit("--verify"), lit("--quiet"), lit("refs/heads/") + branch),
    );
    let t = Session { calls: s.calls.push(ask), ..s };
    let s1 = branch_plan(s, root, branch, path, start).0;
    lemma_candidates_go_on(t, root, branch);
    assert(t.calls.take(s.calls.len() as int + 1) =~= t.calls);
    assert(crate::git::runner::grown(t, s1));
    assert(s1.calls.take(s.calls.len() as int + 1) =~= t.calls);
}

proof fn lemma_candidates_go_on(s: Session, root: Seq<u8>, branch: Seq<u8>)
    ensures
        crate::git::runner::grown(s, candidates_run(s, root, branch).0),
{
    let bare = child(root, lit(".bare"));
    let (s1, reply) = crate::git::runner::step(s, invoke_in(bare, args1(lit("remote"))));
    if reply is Ok && reply->Ok_0.status == 0 {
        lemma_remotes_go_on(
            s1,
            bare,
            crate::git::query::lines_in(reply->Ok_0.stdout),
            lit("refs/heads/") + branch,
            seq![],
            0,
        );
    }
}

proof fn lemma_remotes_go_on(
    s: Session,
    bare: Seq<u8>,
    remotes: Seq<Seq<u8>>,
    source: Seq<u8>,
    found: Seq<Seq<u8>>,
    i: int,
)
    ensures
        crate::git::runner::grown(
            s,
            crate::git::query::remotes_from(s, bare, remotes, source, found, i).0,
        ),
    decreases remotes.len() - i,
{
    if i < remotes.len() {
        let (s1, part) = crate::git::query::remote_part(s, bare, remotes[i], source, found);
        let asked = invoke_in(
            bare,
            args3(
                lit("config"),
                lit("--get-all"),
                crate::git::config::key_of("remote.", remotes[i], ".fetch"),
            ),
        );
        let (t, reply) = crate::git::runner::step(s, asked);
        if reply is Ok {
            lemma_specs_go_on(
                t,
                bare,
                crate::git::query::lines_in(reply->Ok_0.stdout),
                source,
                found,
                0,
            );
        }
        assert(crate::git::runner::grown(s, t));
        if s1 != t {
            lemma_grown_on(s, t, s1);
        }
        if part is Ok {
            lemma_remotes_go_on(s1, bare, remotes, source, part->Ok_0, i + 1);
            lemma_grown_on(
                s,
                s1,
                crate::git::query::remotes_from(s1, bare, remotes, source, part->Ok_0, i + 1).0,
            );
        }
    }
}

proof fn lemma_specs_go_on(
    s: Session,
    bare: Seq<u8>,
    specs: Seq<Seq<u8>>,
    source: Seq<u8>,
    found: Seq<Seq<u8>>,
    i: int,
)
    ensures
        crate::git::runner::grown(
            s,
            crate::git::query::mapped_from(s, bare, specs, source, found, i).0,
        ),
    decreases specs.len() - i,
{
    if i < specs.len() {
        match crate::git::query::mapped(specs[i], source) {
            None => lemma_specs_go_on(s, bare, specs, source, found, i + 1),
            Some(reference) => {
                lemma_specs_go_on(s, bare, specs, source, found, i + 1);
                let (s1, reply) = crate::git::runner::step(
                    s,
                    crate::git::config::show_ref_quietly(bare, reference),
                );
                let more = found.push(crate::git::query::shortened(reference));
                lemma_specs_go_on(s1, bare, specs, source, found, i + 1);
                lemma_specs_go_on(s1, bare, specs, source, more, i + 1);
                assert(crate::git::runner::grown(s, s1));
                lemma_grown_on(
                    s,
                    s1,
                    crate::git::query::mapped_from(s1, bare, specs, source, found, i + 1).0,
                );
                lemma_grown_on(
                    s,
                    s1,
                    crate::git::query::mapped_from(s1, bare, specs, source, more, i + 1).0,
                );
            },
        }
    }
}

/// A branch that is there is given a worktree only where no worktree has it, and takes no start; one
/// that several remotes have is for a person to decide about; and one that is nowhere, in a
/// repository that has commits, has to be given a start.
pub proof fn unclear_branches_are_given_no_worktree(
    s: Session,
    root: Seq<u8>,
    branch: Seq<u8>,
    path: Seq<u8>,
    start: Option<Seq<u8>>,
)
    ensures
        ({
            let plan = branch_plan(s, root, branch, path, start).1;
            let (s1, local) = local_branch_run(s, root, branch);
            let checkout = checkout_run(s1, root, branch).1;
            let (s2, found) = candidates_run(s1, root, branch);
            let commits = any_commit_run(s2, root).1;
            let refused = |class: ExitClass| plan is Err && plan->Err_0.class == class;
            &&& local == Ok::<bool, ErrorView>(true) && start is Some ==> refused(ExitClass::Usage)
            &&& local == Ok::<bool, ErrorView>(true) && start is None && checkout is Ok
                && checkout->Ok_0 is Some ==> refused(ExitClass::NeedsDecision)
            &&& local == Ok::<bool, ErrorView>(false) && found is Ok ==> {
                &&& start is Some && found->Ok_0.len() > 0 ==> refused(ExitClass::Usage)
                &&& start is None && found->Ok_0.len() > 1 ==> refused(ExitClass::NeedsDecision)
                &&& start is None && found->Ok_0.len() == 0 && commits == Ok::<bool, ErrorView>(
                    true,
                ) ==> refused(ExitClass::Usage)
            }
        }),
{
}

/// A branch that nothing speaks against is given its worktree: one that is there, and checked out
/// nowhere, as it is; one that a single remote has, from there; one that is nowhere, from the start
/// that was given, or, in a repository without a commit, from nothing.
pub proof fn clear_branches_are_given_their_worktree(
    s: Session,
    root: Seq<u8>,
    branch: Seq<u8>,
    path: Seq<u8>,
    start: Option<Seq<u8>>,
)
    ensures
        ({
            let plan = branch_plan(s, root, branch, path, start).1;
            let (s1, local) = local_branch_run(s, root, branch);
            let checkout = checkout_run(s1, root, branch).1;
            let (s2, found) = candidates_run(s1, root, branch);
            let commits = any_commit_run(s2, root).1;
            let planned = |args: Seq<Seq<u8>>| plan == Ok::<Seq<Seq<u8>>, ErrorView>(args);
            let new = args4(lit("worktree"), lit("add"), lit("-b"), branch);
            &&& local == Ok::<bool, ErrorView>(true) && start is None && checkout == Ok::<
                Option<Seq<u8>>,
                ErrorView,
            >(None) ==> planned(args4(lit("worktree"), lit("add"), path, branch))
            &&& local == Ok::<bool, ErrorView>(false) && found is Ok ==> {
                &&& start is None && found->Ok_0.len() == 1 ==> planned(
                    args7(
                        lit("worktree"),
                        lit("add"),
                        lit("--track"),
                        lit("-b"),
                        branch,
                        path,
                        found->Ok_0[0],
                    ),
                )
                &&& start is Some && found->Ok_0.len() == 0 ==> planned(
                    new.push(path).push(start->Some_0),
                )
                &&& start is None && found->Ok_0.len() == 0 && commits == Ok::<bool, ErrorView>(
                    false,
                ) ==> planned(
                    args6(
                        lit("worktree"),
                        lit("add"),
                        lit("--orphan"),
                        lit("-b"),
                        branch,
                        path,
                    ),
                )
            }
        }),
{
}

/// A worktree whose place is free is added where Git adds it: for a branch, in the directory that was
/// asked for or that of the branch's name; for a revision, in the one that was asked for or that of
/// the commit's.
pub proof fn free_places_are_taken(
    s: Session,
    f: FileSession,
    root: Seq<u8>,
    mode: ModeView,
    wanted: Seq<u8>,
    t: Session,
    args: Seq<Seq<u8>>,
)
    requires
        mode matches ModeView::Branch { branch, dir, start } ==> {
            &&& wanted == match dir {
                Some(d) => d,
                None => branch,
            }
            &&& branch_name_run(s, branch).1 is Ok
            &&& branch_plan(branch_name_run(s, branch).0, root, branch, child(root, wanted), start)
                == (t, Ok::<Seq<Seq<u8>>, ErrorView>(args))
        },
        mode matches ModeView::Detached { revision, dir } ==> {
            let ask = invoke_in(
                child(root, lit(".bare")),
                args5(
                    lit("rev-parse"),
                    lit("--verify"),
                    lit("--short"),
                    lit("--end-of-options"),
                    revision + lit("^{commit}"),
                ),
            );
            let told = (s.script)(s.calls.push(ask));
            &&& told is Ok
            &&& told->Ok_0.status == 0
            &&& one_line_of(told->Ok_0.stdout, "abbreviated revision"@) is Ok
            &&& wanted == match dir {
                Some(d) => d,
                None => lit("detached-") + trim_line_ends(told->Ok_0.stdout),
            }
            &&& t == (Session { calls: s.calls.push(ask), ..s })
            &&& args == args5(
                lit("worktree"),
                lit("add"),
                lit("--detach"),
                child(root, wanted),
                revision,
            )
        },
        place_run(f, root, wanted).1 is Ok,
        parents_run(place_run(f, root, wanted).0, place_run(f, root, wanted).1->Ok_0).1 is Ok,
        ({
            let (f1, place) = place_run(f, root, wanted);
            let f2 = parents_run(f1, place->Ok_0).0;
            vacant_run(f2, place_path(place->Ok_0)).1 is Ok
        }),
        ({
            let added = (t.script)(t.calls.push(invoke_in(child(root, lit(".bare")), args)));
            added is Ok && added->Ok_0.status == 0
        }),
    ensures
        add_mode_run(s, f, root, mode).2 is Ok,
{
}

} // verus!
