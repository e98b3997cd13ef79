//! What every listing and every sync keeps to, whatever Git answers.
use vstd::prelude::*;
use crate::bytes::lit;
use crate::commands::list::{
    collect_run, list_run, rows_of, snapshot_run, snapshots_from,
};
use crate::commands::sync::{
    blocked, by_path, match_from, merge_call, ordering_keeps_every_worktree,
    reinspect_run, settle_run, still_eligible, sync_run, update_from, update_run, UpdateView,
};
use crate::fsx::files::{bytes_step, facts_step, found_step, FileRequest, FileSession};
use crate::fsx::looking::{lemma_looked_on, lemma_one_look, only_looked};
use crate::git::config::show_ref_quietly;
use crate::git::fetch::{born_branches, fetch_from, fetch_one, plan_run, remotes_of};
use crate::git::query::worktree_list;
use crate::git::runner::{args3, args4, grown, invoke_in, step, InvocationView, Session};
use crate::git::worktrees::{upstream_run, worktrees_run, RecordView, UpstreamView};
use crate::grove::discover::bare_of;
use crate::grove::state::{
    branch_status_run, busy_from, in_worktree, location_run, marker, pointed, status_run,
    tracking_run, LocationView, SnapshotView, WorktreeState, MARKERS,
};
use crate::order::sorted_set;
use crate::path::child;

verus! {

// ------------------------------------------------------------------------ kinds of calls

/// Whether a call asks how things stand.
pub open spec fn asks_state(i: InvocationView) -> bool {
    i.args.len() > 0 && {
        ||| i.args[0] == lit("worktree") && i.args.len() > 1 && i.args[1] == lit("list")
        ||| i.args[0] == lit("for-each-ref")
        ||| i.args[0] == lit("status")
        ||| i.args[0] == lit("show-ref")
        ||| i.args[0] == lit("rev-parse")
        ||| i.args[0] == lit("rev-list")
    }
}

/// Fetching one remote, all of it or nothing.
pub open spec fn fetches(i: InvocationView) -> bool {
    exists|bare: Seq<u8>, remote: Seq<u8>| i == #[trigger] fetch_one(bare, remote)
}

/// Fast-forwarding one worktree to its upstream.
pub open spec fn fast_forwards(i: InvocationView) -> bool {
    exists|admin: Seq<u8>, path: Seq<u8>| i == #[trigger] merge_call(admin, path)
}

/// Whether nothing but asking how things stand lies between two states of a session.
#[verifier::opaque]
pub open spec fn only_asks_state(a: Session, b: Session) -> bool {
    &&& grown(a, b)
    &&& forall|i: int| a.calls.len() <= i < b.calls.len() ==> asks_state(#[trigger] b.calls[i])
}

/// Whether all that lies between two states of a session asks how things stand, fetches, or
/// fast-forwards.
#[verifier::opaque]
pub open spec fn only_syncs(a: Session, b: Session) -> bool {
    &&& grown(a, b)
    &&& forall|i: int|
        a.calls.len() <= i < b.calls.len() ==> asks_state(#[trigger] b.calls[i]) || fetches(
            b.calls[i],
        ) || fast_forwards(b.calls[i])
}

broadcast proof fn lemma_asks_on(a: Session, b: Session, c: Session)
    requires
        #[trigger] only_asks_state(a, b),
        #[trigger] only_asks_state(b, c),
    ensures
        only_asks_state(a, c),
{
    reveal(only_asks_state);
    assert forall|i: int| 0 <= i < a.calls.len() implies #[trigger] c.calls[i] == a.calls[i] by {
        assert(c.calls[i] == b.calls[i]);
        assert(b.calls[i] == a.calls[i]);
    }
    assert forall|i: int| a.calls.len() <= i < c.calls.len() implies asks_state(
        #[trigger] c.calls[i],
    ) by {
        if i < b.calls.len() {
            assert(c.calls[i] == b.calls[i]);
        }
    }
}

broadcast proof fn lemma_syncs_on(a: Session, b: Session, c: Session)
    requires
        #[trigger] only_syncs(a, b),
        #[trigger] only_syncs(b, c),
    ensures
        only_syncs(a, c),
{
    reveal(only_syncs);
    assert forall|i: int| 0 <= i < a.calls.len() implies #[trigger] c.calls[i] == a.calls[i] by {
        assert(c.calls[i] == b.calls[i]);
        assert(b.calls[i] == a.calls[i]);
    }
    assert forall|i: int| a.calls.len() <= i < c.calls.len() implies asks_state(
        #[trigger] c.calls[i],
    ) || fetches(c.calls[i]) || fast_forwards(c.calls[i]) by {
        if i < b.calls.len() {
            assert(c.calls[i] == b.calls[i]);
        }
    }
}

broadcast proof fn lemma_asking_is_syncing(a: Session, b: Session)
    requires
        #[trigger] only_asks_state(a, b),
    ensures
        only_syncs(a, b),
{
    reveal(only_asks_state);
    reveal(only_syncs);
}

broadcast proof fn lemma_nothing_asked(a: Session)
    ensures
        #[trigger] only_asks_state(a, a),
{
    reveal(only_asks_state);
}

proof fn lemma_one_question(s: Session, i: InvocationView)
    requires
        asks_state(i),
    ensures
        only_asks_state(s, step(s, i).0),
{
    reveal(only_asks_state);
}

// ----------------------------------------------------------------- how a worktree stands

proof fn lemma_worktrees(s: Session, root: Seq<u8>)
    ensures
        only_asks_state(s, worktrees_run(s, root).0),
{
    lemma_one_question(s, worktree_list(bare_of(root)));
}

proof fn lemma_upstream(s: Session, root: Seq<u8>, branch: Seq<u8>)
    ensures
        only_asks_state(s, upstream_run(s, root, branch).0),
{
    reveal(only_asks_state);
}

proof fn lemma_tracking(
    s: Session,
    root: Seq<u8>,
    record: RecordView,
    admin: Seq<u8>,
    u: UpstreamView,
)
    ensures
        only_asks_state(s, tracking_run(s, root, record, admin, u).0),
{
    broadcast use lemma_asks_on;

    let i1 = show_ref_quietly(bare_of(root), u.full);
    lemma_one_question(s, i1);
    let s1 = step(s, i1).0;
    let i2 = invoke_in(
        bare_of(root),
        args4(lit("rev-parse"), lit("--verify"), lit("--end-of-options"), u.full),
    );
    lemma_one_question(s1, i2);
    let s2 = step(s1, i2).0;
    let i3 = in_worktree(
        admin,
        record.path,
        args4(
            lit("rev-list"),
            lit("--left-right"),
            lit("--count"),
            lit("HEAD...") + u.full,
        ),
    );
    lemma_one_question(s2, i3);
}

proof fn lemma_busy(f: FileSession, admin: Seq<u8>, i: int)
    ensures
        only_looked(f, busy_from(f, admin, i).0),
    decreases MARKERS - i,
{
    if i < MARKERS {
        let r = FileRequest::Exists(child(admin, marker(i)));
        lemma_one_look(f, r);
        let f1 = found_step(f, r).0;
        lemma_busy(f1, admin, i + 1);
        lemma_looked_on(f, f1, busy_from(f1, admin, i + 1).0);
    }
}

proof fn lemma_location(f: FileSession, root: Seq<u8>, path: Seq<u8>)
    ensures
        only_looked(f, location_run(f, root, path).0),
{
    let r1 = FileRequest::Inspect(path);
    lemma_one_look(f, r1);
    let f1 = facts_step(f, r1).0;
    let r2 = FileRequest::Read(child(path, lit(".git")));
    lemma_one_look(f1, r2);
    let (f2, contents) = bytes_step(f1, r2);
    lemma_looked_on(f, f1, f2);
    if contents is Ok && pointed(contents->Ok_0) is Some {
        let r3 = FileRequest::Read(child(pointed(contents->Ok_0)->Some_0, lit("gitdir")));
        lemma_one_look(f2, r3);
        lemma_looked_on(f, f2, bytes_step(f2, r3).0);
    }
}

proof fn lemma_status(
    s: Session,
    f: FileSession,
    root: Seq<u8>,
    record: RecordView,
    admin: Seq<u8>,
)
    ensures
        only_asks_state(s, status_run(s, f, root, record, admin).0),
        only_looked(f, status_run(s, f, root, record, admin).1),
{
    broadcast use {lemma_asks_on, lemma_nothing_asked};

    lemma_busy(f, admin, 0);
    let i = in_worktree(
        admin,
        record.path,
        args3(lit("status"), lit("--porcelain"), lit("-z")),
    );
    lemma_one_question(s, i);
    let (s1, reply) = step(s, i);
    if record.branch is Some {
        let branch = record.branch->Some_0;
        lemma_upstream(s1, root, branch);
        let (s2, upstream) = upstream_run(s1, root, branch);
        if upstream is Ok && upstream->Ok_0 is Some {
            lemma_tracking(s2, root, record, admin, upstream->Ok_0->Some_0);
        }
    }
    if reply is Ok {
        let dirty = reply->Ok_0.stdout.len() > 0;
        assert(only_asks_state(s1, branch_status_run(s1, root, record, admin, dirty).0));
    }
}

proof fn lemma_snapshot(s: Session, f: FileSession, root: Seq<u8>, record: RecordView)
    ensures
        only_asks_state(s, snapshot_run(s, f, root, record).0),
        only_looked(f, snapshot_run(s, f, root, record).1),
{
    broadcast use lemma_nothing_asked;

    lemma_location(f, root, record.path);
    let (f1, location) = location_run(f, root, record.path);
    if location is Ok {
        match location->Ok_0 {
            LocationView::Valid { admin_dir } => {
                lemma_status(s, f1, root, record, admin_dir);
                lemma_looked_on(f, f1, status_run(s, f1, root, record, admin_dir).1);
            },
            _ => {},
        }
    }
}

proof fn lemma_snapshots(
    s: Session,
    f: FileSession,
    root: Seq<u8>,
    records: Seq<RecordView>,
    done: Seq<SnapshotView>,
    i: int,
)
    ensures
        only_asks_state(s, snapshots_from(s, f, root, records, done, i).0),
        only_looked(f, snapshots_from(s, f, root, records, done, i).1),
    decreases records.len() - i,
{
    broadcast use {lemma_asks_on, lemma_nothing_asked};

    if i < records.len() {
        if records[i].bare {
            lemma_snapshots(s, f, root, records, done, i + 1);
        } else {
            lemma_snapshot(s, f, root, records[i]);
            let (s1, f1, snapshot) = snapshot_run(s, f, root, records[i]);
            if snapshot is Ok {
                let next = done.push(snapshot->Ok_0);
                lemma_snapshots(s1, f1, root, records, next, i + 1);
                lemma_looked_on(f, f1, snapshots_from(s1, f1, root, records, next, i + 1).1);
            }
        }
    }
}

/// Listing a grove changes nothing: the file system is only looked at, and Git is only asked how
/// things stand.
pub proof fn listing_changes_nothing(s: Session, f: FileSession, root: Seq<u8>)
    ensures
        only_asks_state(s, list_run(s, f, root).0),
        only_looked(f, list_run(s, f, root).1),
{
    broadcast use lemma_asks_on;

    lemma_worktrees(s, root);
    let (s1, records) = worktrees_run(s, root);
    if records is Ok {
        lemma_snapshots(s1, f, root, records->Ok_0, Seq::empty(), 0);
    }
    assert(collect_run(s, f, root).0 == list_run(s, f, root).0);
}

// ----------------------------------------------------------------------------- syncing

proof fn lemma_remotes(
    s: Session,
    root: Seq<u8>,
    branches: Seq<Seq<u8>>,
    found: Seq<Seq<u8>>,
    i: int,
)
    ensures
        only_asks_state(s, remotes_of(s, root, branches, found, i).0),
    decreases branches.len() - i,
{
    broadcast use {lemma_asks_on, lemma_nothing_asked};

    if i < branches.len() {
        lemma_upstream(s, root, branches[i]);
        let (s1, upstream) = upstream_run(s, root, branches[i]);
        lemma_remotes(s1, root, branches, found, i + 1);
        if upstream is Ok && upstream->Ok_0 is Some && upstream->Ok_0->Some_0.remote is Some {
            let next = found.push(upstream->Ok_0->Some_0.remote->Some_0);
            lemma_remotes(s1, root, branches, next, i + 1);
        }
    }
}

proof fn lemma_fetch(s: Session, root: Seq<u8>, remotes: Seq<Seq<u8>>, i: int)
    ensures
        only_syncs(s, fetch_from(s, root, remotes, i).0),
    decreases remotes.len() - i,
{
    broadcast use {lemma_syncs_on, lemma_asking_is_syncing, lemma_nothing_asked};

    assert(only_asks_state(s, s));
    if i < remotes.len() {
        let call = fetch_one(bare_of(root), remotes[i]);
        assert(only_syncs(s, step(s, call).0)) by {
            reveal(only_syncs);
            assert(fetches(call));
        }
        lemma_fetch(step(s, call).0, root, remotes, i + 1);
    }
}

proof fn lemma_reinspect(s: Session, f: FileSession, root: Seq<u8>, path: Seq<u8>)
    ensures
        only_asks_state(s, reinspect_run(s, f, root, path).0),
        only_looked(f, reinspect_run(s, f, root, path).1),
        reinspect_run(s, f, root, path).2 matches Ok(snapshot) ==> snapshot.record.path == path,
{
    broadcast use lemma_asks_on;

    lemma_worktrees(s, root);
    let (s1, records) = worktrees_run(s, root);
    if records is Ok {
        let k = match_from(records->Ok_0, path, 0);
        lemma_match(records->Ok_0, path, 0);
        if k < records->Ok_0.len() {
            lemma_snapshot(s1, f, root, records->Ok_0[k]);
        }
    }
}

proof fn lemma_match(records: Seq<RecordView>, path: Seq<u8>, i: int)
    requires
        0 <= i <= records.len(),
    ensures
        i <= match_from(records, path, i),
        match_from(records, path, i) < records.len() ==> records[match_from(
            records,
            path,
            i,
        )].path == path,
    decreases records.len() - i,
{
    if i < records.len() && records[i].path != path {
        lemma_match(records, path, i + 1);
    }
}

proof fn lemma_update(s: Session, f: FileSession, root: Seq<u8>, planned: SnapshotView)
    ensures
        only_syncs(s, update_run(s, f, root, planned).0),
        only_looked(f, update_run(s, f, root, planned).1),
        match update_run(s, f, root, planned).2 {
            Ok(UpdateView::Updated(fresh)) => fresh.record.path == planned.record.path,
            Ok(UpdateView::Changed(fresh)) => fresh.record.path == planned.record.path,
            Ok(UpdateView::Blocked { snapshot, detail }) => snapshot.record.path
                == planned.record.path,
            Err(_) => true,
        },
{
    broadcast use {lemma_syncs_on, lemma_asking_is_syncing};

    let path = planned.record.path;
    lemma_reinspect(s, f, root, path);
    let (s1, f1, looked) = reinspect_run(s, f, root, path);
    if looked is Ok && still_eligible(planned, looked->Ok_0) {
        let fresh = looked->Ok_0;
        let call = merge_call(fresh.admin_dir->Some_0, fresh.record.path);
        let s2 = step(s1, call).0;
        assert(only_syncs(s1, s2)) by {
            reveal(only_syncs);
            assert(fast_forwards(call));
        }
        lemma_reinspect(s2, f1, root, path);
        lemma_looked_on(f, f1, reinspect_run(s2, f1, root, path).1);
    }
}

/// Whether two lists speak of the same paths in the same order.
pub open spec fn same_paths(a: Seq<SnapshotView>, b: Seq<SnapshotView>) -> bool {
    &&& a.len() == b.len()
    &&& forall|i: int| 0 <= i < a.len() ==> (#[trigger] a[i]).record.path == b[i].record.path
}

proof fn lemma_update_from(
    s: Session,
    f: FileSession,
    root: Seq<u8>,
    list: Seq<SnapshotView>,
    done: Seq<SnapshotView>,
    said: Seq<Seq<char>>,
    i: int,
)
    requires
        0 <= i <= list.len(),
        same_paths(done, list.subrange(0, i)),
    ensures
        only_syncs(s, update_from(s, f, root, list, done, said, i).0),
        only_looked(f, update_from(s, f, root, list, done, said, i).1),
        update_from(s, f, root, list, done, said, i).2 matches Ok(v) ==> same_paths(v.0, list),
    decreases list.len() - i,
{
    broadcast use {lemma_syncs_on, lemma_asking_is_syncing, lemma_nothing_asked};

    assert(only_asks_state(s, s));
    if i >= list.len() {
        assert(list.subrange(0, i) =~= list);
    } else if list[i].state != WorktreeState::Behind {
        lemma_one_more(list, done, list[i], i);
        lemma_update_from(s, f, root, list, done.push(list[i]), said, i + 1);
    } else {
        lemma_update(s, f, root, list[i]);
        let (s1, f1, outcome) = update_run(s, f, root, list[i]);
        if outcome is Ok {
            let (next, told) = match outcome->Ok_0 {
                UpdateView::Updated(fresh) => (fresh, said),
                UpdateView::Changed(fresh) => (fresh, said),
                UpdateView::Blocked { snapshot, detail } => (blocked(snapshot), said.push(detail)),
            };
            lemma_one_more(list, done, next, i);
            lemma_update_from(s1, f1, root, list, done.push(next), told, i + 1);
            lemma_looked_on(
                f,
                f1,
                update_from(s1, f1, root, list, done.push(next), told, i + 1).1,
            );
        }
    }
}

proof fn lemma_one_more(
    list: Seq<SnapshotView>,
    done: Seq<SnapshotView>,
    next: SnapshotView,
    i: int,
)
    requires
        0 <= i < list.len(),
        same_paths(done, list.subrange(0, i)),
        next.record.path == list[i].record.path,
    ensures
        same_paths(done.push(next), list.subrange(0, i + 1)),
{
    assert forall|j: int| 0 <= j < i + 1 implies (#[trigger] done.push(next)[j]).record.path
        == list.subrange(0, i + 1)[j].record.path by {
        if j < i {
            assert(done[j].record.path == list.subrange(0, i)[j].record.path);
        }
    }
}

/// A sync never does more than ask how things stand, fetch, and fast-forward; it changes no file
/// by itself.
pub proof fn syncs_only_fetch_and_fast_forward(s: Session, f: FileSession, root: Seq<u8>)
    ensures
        only_syncs(s, sync_run(s, f, root).0),
        only_looked(f, sync_run(s, f, root).1),
{
    broadcast use {lemma_syncs_on, lemma_asking_is_syncing, lemma_asks_on};

    lemma_worktrees(s, root);
    let (s1, listed) = worktrees_run(s, root);
    if listed is Ok {
        let records = listed->Ok_0;
        let branches = sorted_set(born_branches(records, records.len() as int));
        lemma_remotes(s1, root, branches, seq![], 0);
        let (s2, remotes) = plan_run(s1, root, records);
        if remotes is Ok {
            lemma_fetch(s2, root, remotes->Ok_0, 0);
            let (s3, fetched) = fetch_from(s2, root, remotes->Ok_0, 0);
            if fetched is Ok {
                lemma_snapshots(s3, f, root, records, Seq::empty(), 0);
                let (s4, f1, list) = snapshots_from(s3, f, root, records, Seq::empty(), 0);
                if list is Ok {
                    let order = by_path(list->Ok_0);
                    assert(same_paths(Seq::empty(), order.subrange(0, 0)));
                    lemma_update_from(s4, f1, root, order, Seq::empty(), Seq::empty(), 0);
                    lemma_looked_on(f, f1, settle_run(s4, f1, root, list->Ok_0).1);
                }
            }
        }
    }
}

/// Every worktree is reported, in the order of their paths: a merge that is refused does not keep
/// those after it from being looked after.
pub proof fn every_worktree_is_reported(
    s: Session,
    f: FileSession,
    root: Seq<u8>,
    list: Seq<SnapshotView>,
)
    requires
        settle_run(s, f, root, list).2 is Ok,
    ensures
        settle_run(s, f, root, list).2->Ok_0.rows.len() == list.len(),
        forall|i: int|
            0 <= i < list.len() ==> (#[trigger] settle_run(s, f, root, list).2->Ok_0.rows[i]).path
                == by_path(list)[i].record.path,
{
    let order = by_path(list);
    ordering_keeps_every_worktree(list);
    assert(order.len() == list.len()) by {
        broadcast use vstd::seq_lib::group_to_multiset_ensures;

        assert(order.to_multiset().len() == order.len());
        assert(list.to_multiset().len() == list.len());
    }
    assert(same_paths(Seq::empty(), order.subrange(0, 0)));
    lemma_update_from(s, f, root, order, Seq::empty(), Seq::empty(), 0);
    let finals = update_from(s, f, root, order, Seq::empty(), Seq::empty(), 0).2->Ok_0.0;
    assert forall|i: int| 0 <= i < list.len() implies (#[trigger] rows_of(finals)[i]).path
        == order[i].record.path by {
        assert(finals[i].record.path == order[i].record.path);
    }
}

} // verus!
