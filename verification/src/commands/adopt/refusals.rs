//! Which repositories are not adopted.
use vstd::prelude::*;
use crate::bytes::{ends_with, lit, split, starts_with, trim_line_ends, NUL};
use crate::commands::adopt::evidence::HeadView;
use crate::commands::adopt::preflight::{settled, taken_from};
use crate::commands::adopt::queries::{
    accepted_repositories_are_at_rest, active_words, at_rest, locks, plain_checkout_run,
    single_worktree, worktree_fields, GitList,
};
use crate::error::ExitClass;
use crate::fsx::directory::HeldView;
use crate::fsx::files::{AnswerView, FileRequest, FileSession};
use crate::git::runner::{answer_to, args3, args4, invoke, InvocationView, Session};
use crate::path::{child, last_name, within};

verus! {

/// A root is adopted only where nothing in it goes by the bare repository's name, or begins like a
/// transaction; where something does, that is for a person to decide about.
pub proof fn adopted_roots_hold_no_grove(names: Seq<Seq<u8>>, i: int)
    requires
        0 <= i,
    ensures
        taken_from(names, i) is Ok <==> forall|k: int|
            i <= k < names.len() ==> #[trigger] names[k] != lit(".bare") && !starts_with(
                names[k],
                lit(".grove-adopt-"),
            ),
        taken_from(names, i) is Err ==> taken_from(names, i)->Err_0.class
            == ExitClass::NeedsDecision,
    decreases names.len() - i,
{
    if i < names.len() {
        adopted_roots_hold_no_grove(names, i + 1);
        if taken_from(names, i) is Ok {
            assert(names[i] != lit(".bare") && !starts_with(names[i], lit(".grove-adopt-")));
        }
    }
}

/// A repository is adopted only where no operation is under way in it, and none of its entries is a
/// lock: there is no trace of a merge, a rebase, a cherry-pick, a revert, a sequence of them, a
/// bisection, or a stash that waits to be applied.
pub proof fn adopted_repositories_have_nothing_under_way(git: GitList, i: int)
    requires
        at_rest(git) is Ok,
        0 <= i < git.len(),
    ensures
        !within(git[i].0, lit("MERGE_HEAD")),
        !within(git[i].0, lit("rebase-merge")),
        !within(git[i].0, lit("rebase-apply")),
        !within(git[i].0, lit("CHERRY_PICK_HEAD")),
        !within(git[i].0, lit("REVERT_HEAD")),
        !within(git[i].0, lit("sequencer")),
        !within(git[i].0, lit("BISECT_LOG")),
        !within(git[i].0, lit("BISECT_START")),
        !within(git[i].0, lit("MERGE_AUTOSTASH")),
        last_name(git[i].0) matches Some(name) ==> !ends_with(name, lit(".lock")),
{
    accepted_repositories_are_at_rest(git);
    let words = active_words();
    assert(words.len() == 9);
    assert(words[0] == "MERGE_HEAD");
    assert(words[1] == "rebase-merge");
    assert(words[2] == "rebase-apply");
    assert(words[3] == "CHERRY_PICK_HEAD");
    assert(words[4] == "REVERT_HEAD");
    assert(words[5] == "sequencer");
    assert(words[6] == "BISECT_LOG");
    assert(words[7] == "BISECT_START");
    assert(words[8] == "MERGE_AUTOSTASH");
    assert(!locks(git[i].0));
}

/// How a repository is asked, in a directory, without taking optional locks.
pub open spec fn asked_quietly(cwd: Seq<u8>, args: Seq<Seq<u8>>) -> InvocationView {
    InvocationView {
        cwd: Some(cwd),
        environment: Seq::empty().push((lit("GIT_OPTIONAL_LOCKS"), lit("0"))),
        ..invoke(args)
    }
}

/// How a repository is asked for a setting.
pub open spec fn asks_setting(root: Seq<u8>, key: Seq<u8>) -> InvocationView {
    asked_quietly(root, args4(lit("config"), lit("--bool"), lit("--get"), key))
}

/// Whether a setting was asked for by the `k`th call, and is not on.
pub open spec fn found_off(after: Session, k: int, root: Seq<u8>, key: Seq<u8>) -> bool {
    &&& after.calls[k] == asks_setting(root, key)
    &&& answer_to(after, k) matches Ok(out)
    &&& out.status == 1 || trim_line_ends(out.stdout) != lit("true")
}

/// A checkout is adopted only where nothing in it is in conflict, where none of Git's settings makes
/// it sparse, and where there are no submodules: Git is asked for each, and the file system for the
/// last.
pub proof fn adopted_checkouts_are_plain(s: Session, f: FileSession, root: Seq<u8>, git: HeldView)
    requires
        plain_checkout_run(s, f, root, git).2 is Ok,
    ensures
        ({
            let (s1, f1, r) = plain_checkout_run(s, f, root, git);
            let n = s.calls.len() as int;
            let modules = FileRequest::Exists(child(git.anchored, lit("modules")));
            &&& s1.calls.len() == n + 4
            &&& s1.calls[n] == asked_quietly(
                root,
                args3(lit("ls-files"), lit("--unmerged"), lit("-z")),
            )
            &&& answer_to(s1, n) matches Ok(out)
            &&& out.stdout.len() == 0
            &&& found_off(s1, n + 1, root, lit("core.sparseCheckout"))
            &&& found_off(s1, n + 2, root, lit("core.sparseCheckoutCone"))
            &&& found_off(s1, n + 3, root, lit("index.sparse"))
            &&& f1.calls == f.calls.push(modules)
            &&& (f.script)(f.calls.push(modules)) != AnswerView::Found(true)
        }),
{
    let (s1, f1, r) = plain_checkout_run(s, f, root, git);
    let n = s.calls.len() as int;
    let a = asked_quietly(root, args3(lit("ls-files"), lit("--unmerged"), lit("-z")));
    let b = asks_setting(root, lit("core.sparseCheckout"));
    let c = asks_setting(root, lit("core.sparseCheckoutCone"));
    let d = asks_setting(root, lit("index.sparse"));
    assert(s1.calls == s.calls.push(a).push(b).push(c).push(d));
    assert(s1.calls.take(n + 1) =~= s.calls.push(a));
    assert(s1.calls.take(n + 2) =~= s.calls.push(a).push(b));
    assert(s1.calls.take(n + 3) =~= s.calls.push(a).push(b).push(c));
    assert(s1.calls.take(n + 4) =~= s1.calls);
}

proof fn lemma_filtered(fields: Seq<Seq<u8>>, i: int)
    requires
        0 <= i < fields.len(),
        starts_with(fields[i], lit("worktree ")),
    ensures
        worktree_fields(fields).contains(fields[i]),
    decreases fields.len(),
{
    let keep = |f: Seq<u8>| starts_with(f, lit("worktree "));
    reveal(Seq::filter);
    let less = fields.drop_last();
    let rest = less.filter(keep);
    if i < fields.len() - 1 {
        lemma_filtered(less, i);
        assert(less[i] == fields[i]);
        assert(rest.contains(fields[i]));
        if keep(fields.last()) {
            let k = choose|k: int| 0 <= k < rest.len() && rest[k] == fields[i];
            assert(rest.push(fields.last())[k] == fields[i]);
        }
    } else {
        assert(rest.push(fields.last())[rest.len() as int] == fields[i]);
    }
}

/// A repository is adopted only where it has one worktree, at its root: every record of Git's list is
/// that one.
pub proof fn adopted_repositories_have_one_worktree(stdout: Seq<u8>, root: Seq<u8>, i: int)
    requires
        single_worktree(stdout, root) is Ok,
        0 <= i < split(stdout, NUL).len(),
        starts_with(split(stdout, NUL)[i], lit("worktree ")),
    ensures
        split(stdout, NUL)[i] == lit("worktree ") + root,
        worktree_fields(split(stdout, NUL)).len() == 1,
{
    lemma_filtered(split(stdout, NUL), i);
}

/// What becomes of a repository is left open only where it has several remotes and none was chosen,
/// or where the checkout's place would begin like an option; and then it is for a person to decide.
pub proof fn few_decisions_are_left_open(
    head: HeadView,
    default_branch: Seq<u8>,
    remotes: Seq<Seq<u8>>,
    selected: Option<Seq<u8>>,
)
    ensures
        ({
            let r = settled(head, default_branch, remotes, selected);
            let place = match head {
                HeadView::Attached { branch } => branch,
                HeadView::Detached { oid } => lit("detached-") + if oid.len() > 12 {
                    oid.subrange(0, 12)
                } else {
                    oid
                },
            };
            &&& r is Ok <==> (remotes.len() == 0 || selected is Some) && !starts_with(
                place,
                lit("-"),
            )
            &&& r is Err ==> r->Err_0.class == ExitClass::NeedsDecision
        }),
{
}

} // verus!
