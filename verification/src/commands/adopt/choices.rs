//! What is decided of a repository that is adopted, by what was asked for and what Git says of it,
//! and what is made of the decisions.
use vstd::prelude::*;
use crate::bytes::{lit, non_empty, split, starts_with, trim_line_ends, LF};
use crate::commands::adopt::args::{checked_args, ArgsView};
use crate::commands::adopt::evidence::{DecisionsView, HeadView};
use crate::commands::adopt::execute::{
    complete_run, execute_from, make_default_run, next_drawn, other_drawn, phase_run, PhaseDraws,
};
use crate::commands::adopt::forward::{
    install_private_run, mark_bare_run, payload_of, reason_of, register_run, SiteView,
};
use crate::commands::adopt::journal::{finish_run, JournalView, PlanView, PHASES};
use crate::commands::adopt::offline::{lemma_phase, only_converts};
use crate::commands::adopt::preflight::decide_run;
use crate::commands::adopt::queries::{
    default_run, exists_run, head_run, line_in, quiet, remotes_run, root_run, selected_of,
};
use crate::commands::adopt::steps::there_run;
use crate::commands::create_results::writes_key;
use crate::error::{ErrorView, ExitClass};
use crate::fsx::files::FileSession;
use crate::fsx::write::{write_run, Draws, TempStrategy};
use crate::git::course::{
    later, lemma_later_on, lemma_later_same, lemma_later_step, lemma_ran_between, lemma_ran_step,
    ran,
};
use crate::git::runner::{
    args1, args10, args2, args3, args4, args5, args8, args9, invoke, invoke_in, step,
    InvocationView, Session,
};
use crate::grove::metadata::write_to_config_run;
use crate::path::child;

verus! {

// ------------------------------------------------------------------------ what is decided

/// How Git is asked for the branch that a remote's `HEAD` names.
pub open spec fn asks_remote_head(root: Seq<u8>, remote: Seq<u8>) -> InvocationView {
    quiet(
        root,
        args4(
            lit("symbolic-ref"),
            lit("--quiet"),
            lit("--short"),
            lit("refs/remotes/") + remote + lit("/HEAD"),
        ),
    )
}

/// A default branch that is asked for is the default branch, and nothing is looked up.
pub proof fn a_default_branch_that_is_asked_for_is_taken(
    s: Session,
    root: Seq<u8>,
    asked: Seq<u8>,
    selected: Option<Seq<u8>>,
    remotes: Seq<Seq<u8>>,
    head: HeadView,
)
    ensures
        default_run(s, root, Some(asked), selected, remotes, head) == (
            s,
            Ok::<Seq<u8>, ErrorView>(asked),
        ),
{
}

/// Where none is asked for, the default branch is the one that the `HEAD` of the selected remote
/// names, whatever branch the checkout is on: what Git prints is the remote, a slash, and the
/// branch. A remote whose `HEAD` names something else is for a person to decide about.
pub proof fn the_remote_names_the_default_branch(
    s: Session,
    root: Seq<u8>,
    remote: Seq<u8>,
    remotes: Seq<Seq<u8>>,
    head: HeadView,
    branch: Seq<u8>,
)
    requires
        (s.script)(s.calls.push(asks_remote_head(root, remote))) is Ok,
        (s.script)(s.calls.push(asks_remote_head(root, remote)))->Ok_0.status == 0,
        line_in(
            (s.script)(s.calls.push(asks_remote_head(root, remote)))->Ok_0.stdout,
            "remote HEAD"@,
        ) == Ok::<Seq<u8>, ErrorView>(remote + lit("/") + branch),
    ensures
        default_run(s, root, None, Some(remote), remotes, head).1 == Ok::<Seq<u8>, ErrorView>(
            branch,
        ),
        default_run(s, root, None, Some(remote), remotes, head).0.calls == s.calls.push(
            asks_remote_head(root, remote),
        ),
        remotes == seq![remote] ==> default_run(s, root, None, None, remotes, head).1 == Ok::<
            Seq<u8>,
            ErrorView,
        >(branch),
{
    let target = remote + lit("/") + branch;
    let start = remote + lit("/");
    assert(target.subrange(0, start.len() as int) =~= start);
    assert(target.subrange(start.len() as int, target.len() as int) =~= branch);
    if remotes == seq![remote] {
        assert(remotes.len() == 1);
        assert(remotes[0] == remote);
    }
}

/// A line that Git prints is read without its end.
pub proof fn lines_are_read_without_their_end(line: Seq<u8>, what: Seq<char>)
    requires
        line.len() > 0,
        !line.contains(LF),
        !line.contains(crate::bytes::CR),
        !line.contains(crate::bytes::NUL),
    ensures
        line_in(line.push(LF), what) == Ok::<Seq<u8>, ErrorView>(line),
        line_in(line, what) == Ok::<Seq<u8>, ErrorView>(line),
{
    assert(line.push(LF).drop_last() =~= line);
    assert(line.contains(line.last()));
}

/// Where the remote's `HEAD` names no branch, or no remote can be told, the default branch is the
/// one that the checkout is on, but only where there is no remote at all. Otherwise it is for a
/// person to say.
pub proof fn without_a_remote_the_checkout_decides(
    s: Session,
    root: Seq<u8>,
    selected: Option<Seq<u8>>,
    remotes: Seq<Seq<u8>>,
    head: HeadView,
)
    requires
        selected is None && remotes.len() != 1 || selected is Some && (s.script)(
            s.calls.push(asks_remote_head(root, selected->Some_0)),
        ) is Ok && (s.script)(
            s.calls.push(asks_remote_head(root, selected->Some_0)),
        )->Ok_0.status == 1,
    ensures
        ({
            let r = default_run(s, root, None, selected, remotes, head).1;
            &&& remotes.len() == 0 && head is Attached ==> r == Ok::<Seq<u8>, ErrorView>(
                head->Attached_branch,
            )
            &&& remotes.len() > 0 || head is Detached ==> r is Err && r->Err_0.class
                == ExitClass::NeedsDecision
        }),
{
}

/// The remote that is asked for is taken, if it is one; otherwise the only one there is.
pub proof fn the_remote_is_as_asked_or_the_only_one(
    asked: Option<Seq<u8>>,
    remotes: Seq<Seq<u8>>,
)
    ensures
        ({
            let r = selected_of(asked, remotes);
            &&& asked matches Some(name) ==> if remotes.contains(name) {
                r == Ok::<Option<Seq<u8>>, ErrorView>(Some(name))
            } else {
                r is Err && r->Err_0.class == ExitClass::NeedsDecision
            }
            &&& asked is None && remotes.len() == 1 ==> r == Ok::<Option<Seq<u8>>, ErrorView>(
                Some(remotes[0]),
            )
            &&& asked is None && remotes.len() != 1 ==> r == Ok::<Option<Seq<u8>>, ErrorView>(None)
        }),
{
}

/// What is decided is what was asked for, as far as it was: the default branch, and the remote. The
/// checkout keeps what it has checked out, in a place of the branch's name, or of the commit's; the
/// default branch gets a worktree of its own exactly where the checkout is not on it, in a place of
/// its own name. Several remotes, of which none is asked for, are for a person to choose from.
pub proof fn decisions_are_as_asked(s: Session, root: Seq<u8>, a: ArgsView)
    requires
        decide_run(s, root, a).1 is Ok,
    ensures
        ({
            let d = decide_run(s, root, a).1->Ok_0;
            let (s1, head) = head_run(s, root);
            let (s2, listed) = remotes_run(s1, root);
            let remotes = listed->Ok_0;
            let chosen = default_run(
                s2,
                root,
                a.default_branch,
                d.selected_remote,
                remotes,
                d.payload_head,
            ).1;
            &&& head == Ok::<HeadView, ErrorView>(d.payload_head)
            &&& listed is Ok
            &&& a.default_branch matches Some(b) ==> d.default_branch == b
            &&& chosen == Ok::<Seq<u8>, ErrorView>(d.default_branch)
            &&& a.remote matches Some(r) ==> d.selected_remote == Some(r) && remotes.contains(r)
            &&& a.remote is None && remotes.len() > 0 ==> remotes.len() == 1 && d.selected_remote
                == Some(remotes[0])
            &&& remotes.len() == 0 ==> d.selected_remote is None
            &&& d.payload_head matches HeadView::Attached { branch } ==> d.payload_path == branch
                && (d.default_path is None <==> branch == d.default_branch)
            &&& d.payload_head matches HeadView::Detached { oid } ==> d.payload_path == lit(
                "detached-",
            ) + oid.take(if oid.len() > 12 {
                12
            } else {
                oid.len() as int
            }) && d.default_path is Some
            &&& d.default_path matches Some(path) ==> path == d.default_branch
        }),
{
    let (s1, head) = head_run(s, root);
    let (s2, listed) = remotes_run(s1, root);
    let d = decide_run(s, root, a).1->Ok_0;
    if d.payload_head is Detached {
        let oid = d.payload_head->Detached_oid;
        if oid.len() > 12 {
            assert(oid.subrange(0, 12) =~= oid.take(12));
        } else {
            assert(oid.take(oid.len() as int) =~= oid);
        }
    }
}

/// Where the checkout is, is what Git says: on the branch that `HEAD` names, and otherwise at the
/// commit that it resolves to.
pub proof fn the_checkout_is_where_git_says(s: Session, root: Seq<u8>)
    requires
        head_run(s, root).1 is Ok,
    ensures
        ({
            let named = quiet(
                root,
                args4(lit("symbolic-ref"), lit("--quiet"), lit("--short"), lit("HEAD")),
            );
            let resolved = quiet(root, args3(lit("rev-parse"), lit("--verify"), lit("HEAD")));
            let first = (s.script)(s.calls.push(named));
            let second = (s.script)(s.calls.push(named).push(resolved));
            &&& first is Ok
            &&& first->Ok_0.status == 0 ==> head_run(s, root).1->Ok_0 == HeadView::Attached {
                branch: trim_line_ends(first->Ok_0.stdout),
            }
            &&& first->Ok_0.status != 0 ==> first->Ok_0.status == 1 && second is Ok
                && second->Ok_0.status == 0 && head_run(s, root).1->Ok_0 == HeadView::Detached {
                oid: trim_line_ends(second->Ok_0.stdout),
            }
        }),
{
}

/// The remotes are those that Git lists, line by line.
pub proof fn remotes_are_those_listed(s: Session, root: Seq<u8>, remote: Seq<u8>)
    requires
        remotes_run(s, root).1 is Ok,
    ensures
        ({
            let answer = (s.script)(s.calls.push(quiet(root, args1(lit("remote")))));
            &&& answer is Ok
            &&& answer->Ok_0.status == 0
            &&& remotes_run(s, root).1->Ok_0.to_multiset() == non_empty(
                split(answer->Ok_0.stdout, LF),
            ).to_multiset()
        }),
{
    let answer = (s.script)(s.calls.push(quiet(root, args1(lit("remote")))));
    crate::order::sorting_orders_and_keeps(non_empty(split(answer->Ok_0.stdout, LF)));
}

/// A default branch that exists nowhere is refused: it must be a local branch, or the one that the
/// checkout is on, or one of the selected remote.
pub proof fn absent_default_branches_are_refused(
    s: Session,
    root: Seq<u8>,
    branch: Seq<u8>,
    head: HeadView,
)
    requires
        (s.script)(
            s.calls.push(
                quiet(
                    root,
                    args4(
                        lit("show-ref"),
                        lit("--verify"),
                        lit("--quiet"),
                        lit("refs/heads/") + branch,
                    ),
                ),
            ),
        ) is Ok,
    ensures
        ({
            let asked = quiet(
                root,
                args4(
                    lit("show-ref"),
                    lit("--verify"),
                    lit("--quiet"),
                    lit("refs/heads/") + branch,
                ),
            );
            let status = (s.script)(s.calls.push(asked))->Ok_0.status;
            let r = exists_run(s, root, branch, None, head).1;
            &&& status == 0 ==> r is Ok
            &&& status == 1 && head == HeadView::Attached { branch } ==> r is Ok
            &&& status == 1 && head != HeadView::Attached { branch } ==> r is Err && r->Err_0.class
                == ExitClass::NeedsDecision
        }),
{
}

/// Only a name that does not look like an option is taken, and only a new adoption takes one.
pub proof fn odd_arguments_are_usage_errors(a: ArgsView)
    ensures
        checked_args(a) is Err <==> (a.action != crate::commands::adopt::args::AdoptAction::Fresh
            && (a.remote is Some || a.default_branch is Some)) || (a.remote is Some && starts_with(
            a.remote->Some_0,
            lit("-"),
        )) || (a.default_branch is Some && starts_with(a.default_branch->Some_0, lit("-"))),
        checked_args(a) matches Err(e) ==> e.class == ExitClass::Usage,
{
}

/// The repository is the one that holds the path that was asked for, or else the current directory:
/// Git is asked there for its top.
pub proof fn the_repository_is_where_it_was_asked_for(
    s: Session,
    f: FileSession,
    requested: Option<Seq<u8>>,
    cwd: Seq<u8>,
)
    ensures
        root_run(s, f, requested, cwd).0.calls == s.calls.push(
            quiet(
                if requested is Some {
                    requested->Some_0
                } else {
                    cwd
                },
                args2(lit("rev-parse"), lit("--show-toplevel")),
            ),
        ),
{
}

// ------------------------------------------------------------------- what is made of it

/// The checkout's worktree is registered in its place without touching a file, on the branch, or at
/// the commit, that it has checked out, and locked until the adoption is over.
pub proof fn checkouts_are_registered_as_they_are(
    s: Session,
    f: FileSession,
    x: SiteView,
    head: HeadView,
    why: Seq<u8>,
)
    requires
        register_run(s, f, x, head, why).2 is Ok,
        there_run(f, payload_of(x)).1 == Ok::<bool, ErrorView>(false),
    ensures
        register_run(s, f, x, head, why).0.calls == s.calls.push(
            invoke_in(
                child(x.root, lit(".bare")),
                if head is Attached {
                    args9(
                        lit("worktree"),
                        lit("add"),
                        lit("--no-checkout"),
                        lit("--lock"),
                        lit("--reason"),
                        why,
                        lit("--"),
                        child(x.root, x.payload),
                        head->Attached_branch,
                    )
                } else {
                    args10(
                        lit("worktree"),
                        lit("add"),
                        lit("--detach"),
                        lit("--no-checkout"),
                        lit("--lock"),
                        lit("--reason"),
                        why,
                        lit("--"),
                        child(x.root, x.payload),
                        head->Detached_oid,
                    )
                },
            ),
        ),
{
    reveal(register_run);
}

/// The default branch gets its worktree in the place that was decided on: a local branch is checked
/// out there, and one that only the selected remote has is made to follow it.
pub proof fn default_worktrees_are_of_the_default_branch(
    s: Session,
    bare: Seq<u8>,
    why: Seq<u8>,
    path: Seq<u8>,
    d: DecisionsView,
)
    requires
        make_default_run(s, bare, why, path, d).1 is Ok,
    ensures
        ({
            let asked = invoke_in(
                bare,
                args4(
                    lit("show-ref"),
                    lit("--verify"),
                    lit("--quiet"),
                    lit("refs/heads/") + d.default_branch,
                ),
            );
            let local = (s.script)(s.calls.push(asked));
            let calls = make_default_run(s, bare, why, path, d).0.calls;
            &&& local is Ok
            &&& calls == s.calls.push(asked).push(calls.last())
            &&& local->Ok_0.status == 0 ==> calls.last() == invoke_in(
                bare,
                args8(
                    lit("worktree"),
                    lit("add"),
                    lit("--lock"),
                    lit("--reason"),
                    why,
                    lit("--"),
                    path,
                    d.default_branch,
                ),
            )
            &&& local->Ok_0.status != 0 ==> local->Ok_0.status == 1 && d.selected_remote is Some
                && calls.last() == invoke_in(
                bare,
                args5(lit("worktree"), lit("add"), lit("--lock"), lit("--reason"), why).push(
                    lit("--track"),
                ).push(lit("-b")).push(d.default_branch).push(lit("--")).push(path).push(
                    d.selected_remote->Some_0 + lit("/") + d.default_branch,
                ),
            )
        }),
{
}

/// The bare repository's `HEAD` is made to name the default branch.
pub proof fn the_bare_head_names_the_default_branch(
    s: Session,
    f: FileSession,
    x: SiteView,
    p: PlanView,
    d: Draws,
)
    requires
        install_private_run(s, f, x, p, d).2 is Ok,
    ensures
        exists|f1: FileSession|
            (#[trigger] write_run(
                f1,
                child(child(x.root, lit(".bare")), lit("HEAD")),
                lit("ref: refs/heads/") + p.decisions.default_branch + lit("\n"),
                TempStrategy::Auto,
                d,
            )).1 is Ok,
{
    reveal(install_private_run);
    let bare = child(x.root, lit(".bare"));
    let (s1, separate) = crate::commands::adopt::steps::config_bool_run(
        s,
        child(bare, lit("config")),
        "extensions.worktreeConfig",
    );
    let (s2, f2, moved) = crate::commands::adopt::forward::migrate_from(
        s1,
        f,
        p.original.private_state,
        bare,
        x.admin,
        0,
    );
    assert(write_run(
        f2,
        child(bare, lit("HEAD")),
        lit("ref: refs/heads/") + p.decisions.default_branch + lit("\n"),
        TempStrategy::Auto,
        d,
    ).1 is Ok);
}

/// What becomes the bare repository is marked as one, and Git agrees that it is.
pub proof fn converted_repositories_are_bare(s: Session, bare: Seq<u8>)
    requires
        mark_bare_run(s, bare).1 is Ok,
    ensures
        ran(
            s,
            mark_bare_run(s, bare).0,
            invoke(
                args5(
                    lit("config"),
                    lit("--file"),
                    child(bare, lit("config")),
                    lit("core.bare"),
                    lit("true"),
                ),
            ),
        ),
{
    broadcast use {lemma_later_same, lemma_later_step, lemma_later_on};

    let config = child(bare, lit("config"));
    let (s1, unset) = crate::commands::adopt::steps::unset_layout_run(s, config);
    let call = invoke(args5(lit("config"), lit("--file"), config, lit("core.bare"), lit("true")));
    let s2 = step(s1, call).0;
    assert(later(s, s1));
    lemma_ran_step(s1, call);
    assert(later(s2, mark_bare_run(s, bare).0));
    lemma_ran_between(s, s1, s2, mark_bare_run(s, bare).0, call);
}

/// What is recorded of the grove is what was decided: the default branch, and the remote where there
/// is one. With a remote the grove counts as published, and without one as not.
pub proof fn adopted_groves_are_recorded_as_decided(
    s: Session,
    f: FileSession,
    x: SiteView,
    p: PlanView,
)
    requires
        complete_run(s, f, x, p).2 is Ok,
    ensures
        ({
            let end = complete_run(s, f, x, p).0;
            let d = p.decisions;
            &&& later(s, end)
            &&& ran(s, end, writes_key(x.root, lit("grove.version"), lit("1")))
            &&& ran(s, end, writes_key(x.root, lit("grove.defaultBranch"), d.default_branch))
            &&& d.selected_remote matches Some(r) ==> ran(
                s,
                end,
                writes_key(x.root, lit("grove.remote"), r),
            ) && ran(s, end, writes_key(x.root, lit("grove.publishState"), lit("published")))
            &&& d.selected_remote is None ==> ran(
                s,
                end,
                writes_key(x.root, lit("grove.publishState"), lit("unpublished")),
            )
        }),
{
    broadcast use {lemma_later_same, lemma_later_step, lemma_later_on};

    reveal(complete_run);
    crate::commands::clone_laws::lemma_first_version();
    let d = p.decisions;
    let config = child(child(x.root, lit(".bare")), lit("config"));
    let version = writes_key(x.root, lit("grove.version"), lit("1"));
    let branch = writes_key(x.root, lit("grove.defaultBranch"), d.default_branch);
    let (s1, r1) = step(s, version);
    let (s2, r2) = step(s1, branch);
    let s3 = match d.selected_remote {
        Some(r) => step(s2, writes_key(x.root, lit("grove.remote"), r)).0,
        None => s2,
    };
    let word = if d.selected_remote is Some {
        lit("published")
    } else {
        lit("unpublished")
    };
    let state = writes_key(x.root, lit("grove.publishState"), word);
    let s4 = step(s3, state).0;
    let (t, written) = write_to_config_run(
        s,
        config,
        crate::commands::adopt::execute::record_of(d),
    );
    assert(t == s4);
    let end = complete_run(s, f, x, p).0;
    assert(later(s4, end));
    lemma_ran_step(s, version);
    lemma_ran_step(s1, branch);
    lemma_ran_step(s3, state);
    assert(later(s1, end) && later(s2, end) && later(s, s3));
    lemma_ran_between(s, s, s1, end, version);
    lemma_ran_between(s, s1, s2, end, branch);
    lemma_ran_between(s, s3, s4, end, state);
    if d.selected_remote is Some {
        let remote = writes_key(x.root, lit("grove.remote"), d.selected_remote->Some_0);
        lemma_ran_step(s2, remote);
        lemma_ran_between(s, s2, s3, end, remote);
    }
}

proof fn lemma_executed(
    s: Session,
    f: FileSession,
    j: JournalView,
    x: SiteView,
    k: int,
    ds: Seq<PhaseDraws>,
)
    requires
        0 <= k <= 7,
        j.done.len() == PHASES,
        !j.done[7],
        execute_from(s, f, j, x, k, ds).3 is Ok,
    ensures
        ({
            let end = execute_from(s, f, j, x, k, ds).0;
            let d = j.plan.decisions;
            &&& later(s, end)
            &&& ran(s, end, writes_key(x.root, lit("grove.defaultBranch"), d.default_branch))
            &&& d.selected_remote matches Some(r) ==> ran(
                s,
                end,
                writes_key(x.root, lit("grove.remote"), r),
            )
        }),
    decreases PHASES - k,
{
    broadcast use {lemma_later_same, lemma_later_on};

    reveal(phase_run);
    let why = reason_of(j.nonce);
    let end = execute_from(s, f, j, x, k, ds).0;
    let d = j.plan.decisions;
    let branch = writes_key(x.root, lit("grove.defaultBranch"), d.default_branch);
    if j.done[k] {
        lemma_executed(s, f, j, x, k + 1, other_drawn(ds));
    } else {
        let (s1, f1, r) = phase_run(s, f, x, j.plan, why, k, next_drawn(ds));
        lemma_phase(s, f, x, j.plan, why, k, next_drawn(ds));
        assert(later(s, s1)) by {
            reveal(later);
            reveal(only_converts);
        }
        let (f2, done, j1) = finish_run(f1, x.transaction, j, k);
        if k == 7 {
            adopted_groves_are_recorded_as_decided(s, f, x, j.plan);
            assert(execute_from(s1, f2, j1, x, 8, other_drawn(ds)).0 == s1);
        } else {
            lemma_executed(s1, f2, j1, x, k + 1, other_drawn(ds));
            lemma_ran_between(s, s1, end, end, branch);
            if d.selected_remote is Some {
                lemma_ran_between(
                    s,
                    s1,
                    end,
                    end,
                    writes_key(x.root, lit("grove.remote"), d.selected_remote->Some_0),
                );
            }
        }
    }
}

/// An adoption that is carried to its end has recorded the default branch, and the remote, that were
/// decided on when it was planned.
pub proof fn adoptions_end_as_they_were_planned(
    s: Session,
    f: FileSession,
    j: JournalView,
    x: SiteView,
    ds: Seq<PhaseDraws>,
)
    requires
        j.done.len() == PHASES,
        !j.done[7],
        execute_from(s, f, j, x, 0, ds).3 is Ok,
    ensures
        ran(
            s,
            execute_from(s, f, j, x, 0, ds).0,
            writes_key(x.root, lit("grove.defaultBranch"), j.plan.decisions.default_branch),
        ),
        j.plan.decisions.selected_remote matches Some(r) ==> ran(
            s,
            execute_from(s, f, j, x, 0, ds).0,
            writes_key(x.root, lit("grove.remote"), r),
        ),
{
    lemma_executed(s, f, j, x, 0, ds);
}

} // verus!
