//! What undoing an adoption asks of Git.
use vstd::prelude::*;
use crate::bytes::lit;
use crate::commands::adopt::evidence::NamedView;
use crate::commands::adopt::execute::{next_drawn, other_drawn, PhaseDraws};
use crate::commands::adopt::forward::{payload_of, site_of, SiteView};
use crate::commands::adopt::journal::{reversed_run, JournalView, PlanView, PHASES};
use crate::commands::adopt::kept::asks_for_changes;
use crate::commands::adopt::recover::{abort_run, normalize_run, undo_down, RecoveredView};
use crate::commands::adopt::reverse::{
    clear_place_run, had_ref, relock_run, remove_call, remove_default_run, remove_second_run,
    restore_down, restore_one_run, restore_private_run, reverse_run, rollback_reason,
    unregister_run,
};
use crate::commands::adopt::steps::{lock_run, there_run, unlock_run};
use crate::fsx::files::FileSession;
use crate::fsx::write::Draws;
use crate::git::runner::{args4, grown, invoke_in, step, InvocationView, Session};
use crate::grove::discover::bare_of;
use crate::path::child;

verus! {

/// What undoing asks of Git: what the configuration says, what was changed in the generated
/// worktree, to lock and to unlock worktrees, to remove the worktrees that the adoption made, and
/// to delete the default branch where the adoption made that too.
pub open spec fn reverts(i: InvocationView, x: SiteView, p: PlanView) -> bool {
    let bare = bare_of(x.root);
    let local = lit("refs/heads/") + p.decisions.default_branch;
    ||| i.args.len() == 6 && i.args[0] == lit("config") && i.args[4] == lit("--get")
    ||| i.args.len() == 6 && i.args[0] == lit("worktree") && i.args[1] == lit("lock")
    ||| i.args.len() == 4 && i.args[0] == lit("worktree") && i.args[1] == lit("unlock")
    ||| i == remove_call(bare, payload_of(x))
    ||| x.default is Some && i == asks_for_changes(child(x.root, x.default->Some_0))
    ||| x.default is Some && i == remove_call(bare, child(x.root, x.default->Some_0))
    ||| x.default is Some && !had_ref(p.original.refs, local) && i == invoke_in(
        bare,
        args4(lit("update-ref"), lit("-d"), lit("--"), local),
    )
}

/// Whether that is all that lies between two states of a session.
#[verifier::opaque]
pub open spec fn only_reverts(a: Session, b: Session, x: SiteView, p: PlanView) -> bool {
    &&& grown(a, b)
    &&& forall|i: int|
        a.calls.len() <= i < b.calls.len() ==> reverts(#[trigger] b.calls[i], x, p)
}

broadcast proof fn lemma_on(a: Session, b: Session, c: Session, x: SiteView, p: PlanView)
    requires
        #[trigger] only_reverts(a, b, x, p),
        #[trigger] only_reverts(b, c, x, p),
    ensures
        only_reverts(a, c, x, p),
{
    reveal(only_reverts);
    assert forall|i: int| 0 <= i < a.calls.len() implies #[trigger] c.calls[i] == a.calls[i] by {
        assert(c.calls[i] == b.calls[i]);
        assert(b.calls[i] == a.calls[i]);
    }
    assert forall|i: int| a.calls.len() <= i < c.calls.len() implies reverts(
        #[trigger] c.calls[i],
        x,
        p,
    ) by {
        if i < b.calls.len() {
            assert(c.calls[i] == b.calls[i]);
        }
    }
}

broadcast proof fn lemma_still(a: Session, x: SiteView, p: PlanView)
    ensures
        #[trigger] only_reverts(a, a, x, p),
{
    reveal(only_reverts);
}

proof fn lemma_one(s: Session, i: InvocationView, x: SiteView, p: PlanView)
    requires
        reverts(i, x, p),
    ensures
        only_reverts(s, step(s, i).0, x, p),
{
    reveal(only_reverts);
}

proof fn lemma_unlock(s: Session, f: FileSession, path: Seq<u8>, x: SiteView, p: PlanView)
    ensures
        only_reverts(s, unlock_run(s, f, bare_of(x.root), path).0, x, p),
{
    reveal(only_reverts);
}

proof fn lemma_relock(s: Session, f: FileSession, x: SiteView, p: PlanView)
    ensures
        only_reverts(s, relock_run(s, f, x).0, x, p),
{
    broadcast use {lemma_on, lemma_still};

    reveal(relock_run);
    let why = rollback_reason();
    let (s1, f1, r1) = lock_run(s, f, bare_of(x.root), payload_of(x), why);
    assert(only_reverts(s, s1, x, p)) by {
        reveal(only_reverts);
    }
    if x.default is Some {
        let path = child(x.root, x.default->Some_0);
        let s2 = lock_run(s1, f1, bare_of(x.root), path, why).0;
        assert(only_reverts(s1, s2, x, p)) by {
            reveal(only_reverts);
        }
    }
}

proof fn lemma_second(s: Session, f: FileSession, x: SiteView, p: PlanView)
    requires
        x.default is Some,
    ensures
        only_reverts(
            s,
            remove_second_run(s, f, bare_of(x.root), child(x.root, x.default->Some_0)).0,
            x,
            p,
        ),
{
    broadcast use {lemma_on, lemma_still};

    let bare = bare_of(x.root);
    let path = child(x.root, x.default->Some_0);
    let f1 = there_run(f, path).0;
    lemma_one(s, asks_for_changes(path), x, p);
    let s1 = step(s, asks_for_changes(path)).0;
    lemma_unlock(s1, f1, path, x, p);
    let s2 = unlock_run(s1, f1, bare, path).0;
    lemma_one(s2, remove_call(bare, path), x, p);
}

proof fn lemma_default(s: Session, f: FileSession, x: SiteView, p: PlanView)
    ensures
        only_reverts(s, remove_default_run(s, f, x, p).0, x, p),
{
    broadcast use {lemma_on, lemma_still};

    reveal(remove_default_run);
    if x.default is Some {
        lemma_second(s, f, x, p);
        let path = child(x.root, x.default->Some_0);
        let (s1, f1, r1) = remove_second_run(s, f, bare_of(x.root), path);
        let local = lit("refs/heads/") + p.decisions.default_branch;
        let i = invoke_in(
            bare_of(x.root),
            args4(lit("update-ref"), lit("-d"), lit("--"), local),
        );
        if !had_ref(p.original.refs, local) {
            lemma_one(s1, i, x, p);
        }
    }
}

proof fn lemma_restore_one(
    s: Session,
    f: FileSession,
    n: NamedView,
    bare: Seq<u8>,
    admin: Seq<u8>,
    x: SiteView,
    p: PlanView,
)
    ensures
        only_reverts(s, restore_one_run(s, f, n, bare, admin).0, x, p),
{
    broadcast use lemma_still;

    let destination = child(bare, n.path);
    assert forall|g: FileSession| only_reverts(
        s,
        (#[trigger] clear_place_run(s, g, n.path, destination)).0,
        x,
        p,
    ) by {
        reveal(only_reverts);
    }
}

proof fn lemma_restore_down(
    s: Session,
    f: FileSession,
    list: Seq<NamedView>,
    bare: Seq<u8>,
    admin: Seq<u8>,
    n: int,
    x: SiteView,
    p: PlanView,
)
    ensures
        only_reverts(s, restore_down(s, f, list, bare, admin, n).0, x, p),
    decreases n,
{
    broadcast use {lemma_on, lemma_still};

    if n > 0 {
        lemma_restore_one(s, f, list[n - 1], bare, admin, x, p);
        let (s1, f1, r1) = restore_one_run(s, f, list[n - 1], bare, admin);
        lemma_restore_down(s1, f1, list, bare, admin, n - 1, x, p);
    }
}

proof fn lemma_unregister(s: Session, f: FileSession, x: SiteView, p: PlanView)
    ensures
        only_reverts(s, unregister_run(s, f, x).0, x, p),
{
    broadcast use {lemma_on, lemma_still};

    reveal(unregister_run);
    lemma_unlock(s, f, payload_of(x), x, p);
    let s1 = unlock_run(s, f, bare_of(x.root), payload_of(x)).0;
    lemma_one(s1, remove_call(bare_of(x.root), payload_of(x)), x, p);
}

proof fn lemma_private(s: Session, f: FileSession, x: SiteView, p: PlanView, d: Draws)
    ensures
        only_reverts(s, restore_private_run(s, f, x, p, d).0, x, p),
{
    reveal(restore_private_run);
    let list = p.original.private_state;
    lemma_restore_down(s, f, list, bare_of(x.root), x.admin, list.len() as int, x, p);
}

proof fn lemma_reverse(s: Session, f: FileSession, x: SiteView, p: PlanView, k: int, d: Draws)
    ensures
        only_reverts(s, reverse_run(s, f, x, p, k, d).0, x, p),
{
    broadcast use lemma_still;

    reveal(reverse_run);
    lemma_relock(s, f, x, p);
    lemma_default(s, f, x, p);
    lemma_private(s, f, x, p, d);
    lemma_unregister(s, f, x, p);
}

proof fn lemma_undo(
    s: Session,
    f: FileSession,
    j: JournalView,
    root: Seq<u8>,
    transaction: Seq<u8>,
    k: int,
    ds: Seq<PhaseDraws>,
    x: SiteView,
)
    requires
        site_of(root, transaction, j.plan.decisions) is Ok ==> site_of(
            root,
            transaction,
            j.plan.decisions,
        )->Ok_0 == x,
    ensures
        only_reverts(s, undo_down(s, f, j, root, transaction, k, ds).0, x, j.plan),
    decreases k,
{
    broadcast use {lemma_on, lemma_still};

    if k > 0 {
        if !j.done[k - 1] {
            lemma_undo(s, f, j, root, transaction, k - 1, other_drawn(ds), x);
        } else if site_of(root, transaction, j.plan.decisions) is Ok {
            lemma_reverse(s, f, x, j.plan, k - 1, next_drawn(ds).file);
            let (s1, f1, r1) = reverse_run(s, f, x, j.plan, k - 1, next_drawn(ds).file);
            if r1 is Ok {
                let (f2, r2, j1) = reversed_run(f1, transaction, j, k - 1);
                if r2 is Ok {
                    lemma_undo(s1, f2, j1, root, transaction, k - 1, other_drawn(ds), x);
                }
            }
        }
    }
}

/// Undoing an adoption removes nothing but what the adoption made: the only worktrees that Git is
/// asked to remove are the two that were generated, and a branch is deleted only if it is the
/// default branch and was not there before.
pub proof fn undoing_removes_only_what_was_made(
    s: Session,
    f: FileSession,
    v: RecoveredView,
    ds: Seq<PhaseDraws>,
    x: SiteView,
)
    requires
        site_of(v.root, v.transaction, v.journal.plan.decisions) is Ok ==> site_of(
            v.root,
            v.transaction,
            v.journal.plan.decisions,
        )->Ok_0 == x,
    ensures
        only_reverts(s, abort_run(s, f, v, ds).0, x, v.journal.plan),
{
    broadcast use lemma_still;

    let j = v.journal;
    lemma_undo(s, f, j, v.root, v.transaction, PHASES as int, ds, x);
    let (f1, j1, r1) = normalize_run(f, j, v.root, v.transaction);
    assert(j1.plan == j.plan);
    assert forall|g: FileSession, j2: JournalView| j2.plan == j.plan implies only_reverts(
        s,
        (#[trigger] undo_down(s, g, j2, v.root, v.transaction, PHASES as int, ds)).0,
        x,
        j.plan,
    ) by {
        lemma_undo(s, g, j2, v.root, v.transaction, PHASES as int, ds, x);
    }
}

} // verus!
