//! What a listing and a sync come to, by what was found.
use vstd::prelude::*;
use crate::bytes::lit;
use crate::commands::list::{list_run, rows_of, snapshot_run, snapshots_from};
use crate::commands::sync::{
    blocked, by_path, match_from, reinspect_run, sync_run, update_from, update_run, UpdateView,
};
use crate::error::ExitClass;
use crate::fsx::files::FileSession;
use crate::git::fetch::{born_branches, fetch_from, plan_run, remotes_of, unborn};
use crate::git::runner::{
    answer_to, args3, args4, args6, args9, grown, invoke, invoke_in, lemma_grown_on, step,
    InvocationView, Session,
};
use crate::git::worktrees::{upstream_in, upstream_run, worktrees_run, RecordView};
use crate::grove::state::{
    busy_from, classified, satisfied, state_text, status_run, LocationView, SnapshotView, StatusView,
    WorktreeState,
};
use crate::order::sorted_set;
use crate::path::child;

verus! {

// ------------------------------------------------------------------------------- states

/// Every state means just one thing. What is wrong with the place goes before a lock, a lock before
/// an operation in progress, that before changes, and those before how the branch stands: it is
/// behind, ahead, both or neither by the two counts.
pub proof fn states_mean_one_thing(record: RecordView, location: LocationView, s: StatusView)
    ensures
        ({
            let w = classified(record, location, Some(s)).state;
            let placed = location is Valid;
            let free = placed && record.locked is None;
            let still = free && !s.busy;
            let clean = still && !s.dirty;
            let born = clean && record.branch is Some && !unborn(record);
            let follows = born && !s.gone && s.tracking is Some;
            let ahead = s.tracking->Some_0.ahead;
            let behind = s.tracking->Some_0.behind;
            &&& w == WorktreeState::Missing <==> location is Missing
            &&& w == WorktreeState::Invalid <==> location is Invalid
            &&& w == WorktreeState::Locked <==> placed && record.locked is Some
            &&& w == WorktreeState::InProgress <==> free && s.busy
            &&& w == WorktreeState::Dirty <==> still && s.dirty
            &&& w == WorktreeState::Detached <==> clean && record.branch is None
            &&& w == WorktreeState::Unborn <==> clean && record.branch is Some && unborn(record)
            &&& w == WorktreeState::UpstreamGone <==> born && s.gone
            &&& w == WorktreeState::NoUpstream <==> born && !s.gone && s.tracking is None
            &&& w == WorktreeState::Diverged <==> follows && ahead > 0 && behind > 0
            &&& w == WorktreeState::Ahead <==> follows && ahead > 0 && behind == 0
            &&& w == WorktreeState::Behind <==> follows && ahead == 0 && behind > 0
            &&& w == WorktreeState::UpToDate <==> follows && ahead == 0 && behind == 0
            &&& w != WorktreeState::Blocked
        }),
        classified(record, location, Some(s)).record == record,
        location is Valid ==> classified(record, location, Some(s)).tracking == s.tracking
            && classified(record, location, Some(s)).dirty == s.dirty,
        classified(record, location, None).state == if location is Invalid {
            WorktreeState::Invalid
        } else {
            WorktreeState::Missing
        },
        classified(record, location, None).record == record,
{
}

/// A worktree is dirty exactly where Git, asked in the worktree, has something to say of its status.
/// While an operation is in progress, Git is not asked.
pub proof fn worktrees_are_dirty_where_git_says_so(
    s: Session,
    f: FileSession,
    root: Seq<u8>,
    record: RecordView,
    admin: Seq<u8>,
)
    requires
        status_run(s, f, root, record, admin).2 is Ok,
    ensures
        ({
            let (s1, f1, r) = status_run(s, f, root, record, admin);
            let asked = InvocationView {
                git_dir: Some(admin),
                work_tree: Some(record.path),
                ..invoke(args3(lit("status"), lit("--porcelain"), lit("-z")))
            };
            let answer = (s.script)(s.calls.push(asked));
            let busy = busy_from(f, admin, 0).1;
            &&& r->Ok_0.busy == busy
            &&& busy ==> s1 == s
            &&& !busy ==> answer is Ok && answer->Ok_0.status == 0
            &&& !busy ==> r->Ok_0.dirty == (answer->Ok_0.stdout.len() > 0)
            &&& !busy && (record.branch is None || unborn(record)) ==> r->Ok_0.tracking is None
                && !r->Ok_0.gone && s1.calls == s.calls.push(asked)
        }),
{
}

/// The words that a person or a program reads for the states.
pub proof fn states_have_these_words()
    ensures
        state_text(WorktreeState::Missing) == "MISSING"@,
        state_text(WorktreeState::Invalid) == "INVALID"@,
        state_text(WorktreeState::Locked) == "LOCKED"@,
        state_text(WorktreeState::InProgress) == "IN-PROGRESS"@,
        state_text(WorktreeState::Dirty) == "DIRTY"@,
        state_text(WorktreeState::Unborn) == "UNBORN"@,
        state_text(WorktreeState::Detached) == "DETACHED"@,
        state_text(WorktreeState::NoUpstream) == "NO-UPSTREAM"@,
        state_text(WorktreeState::UpstreamGone) == "UPSTREAM-GONE"@,
        state_text(WorktreeState::Behind) == "BEHIND"@,
        state_text(WorktreeState::Ahead) == "AHEAD"@,
        state_text(WorktreeState::Diverged) == "DIVERGED"@,
        state_text(WorktreeState::UpToDate) == "UP-TO-DATE"@,
        state_text(WorktreeState::Blocked) == "BLOCKED"@,
{
}

/// No two states share a word.
pub proof fn words_tell_states_apart(a: WorktreeState, b: WorktreeState)
    requires
        state_text(a) == state_text(b),
    ensures
        a == b,
{
    reveal_strlit("MISSING");
    reveal_strlit("INVALID");
    reveal_strlit("LOCKED");
    reveal_strlit("IN-PROGRESS");
    reveal_strlit("DIRTY");
    reveal_strlit("UNBORN");
    reveal_strlit("DETACHED");
    reveal_strlit("NO-UPSTREAM");
    reveal_strlit("UPSTREAM-GONE");
    reveal_strlit("BEHIND");
    reveal_strlit("AHEAD");
    reveal_strlit("DIVERGED");
    reveal_strlit("UP-TO-DATE");
    reveal_strlit("BLOCKED");
    let x = state_text(a);
    let y = state_text(b);
    assert(x.len() == y.len());
    assert(x[0] == y[0]);
    assert(x[1] == y[1]);
    assert(x[2] == y[2]);
    assert(x[3] == y[3]);
}

/// What is shown of a worktree is its own path and branch, and its own two counts.
pub proof fn rows_speak_of_their_worktree(list: Seq<SnapshotView>, i: int)
    requires
        0 <= i < list.len(),
    ensures
        rows_of(list).len() == list.len(),
        ({
            let row = rows_of(list)[i];
            &&& row.path == list[i].record.path
            &&& row.branch == list[i].record.branch
            &&& row.status == state_text(list[i].state)
            &&& row.ahead == (if list[i].tracking is Some {
                Some(list[i].tracking->Some_0.ahead)
            } else {
                None
            })
            &&& row.behind == (if list[i].tracking is Some {
                Some(list[i].tracking->Some_0.behind)
            } else {
                None
            })
        }),
{
}

// ------------------------------------------------------------------------------ classes

/// The states that leave nothing to decide after a sync.
pub proof fn settled_states_are_these(s: WorktreeState)
    ensures
        satisfied(s) <==> s == WorktreeState::UpToDate || s == WorktreeState::Ahead || s
            == WorktreeState::Unborn || s == WorktreeState::Detached || s
            == WorktreeState::NoUpstream,
{
}

/// Whether a worktree that lacks commits of its upstream is in a state that says that something is
/// left to do.
spec fn sound(w: SnapshotView) -> bool {
    w.tracking is Some && w.tracking->Some_0.behind > 0 ==> w.state != WorktreeState::UpToDate
        && w.state != WorktreeState::Ahead && w.state != WorktreeState::Unborn && w.state
        != WorktreeState::Detached && w.state != WorktreeState::NoUpstream
}

proof fn lemma_snapshot_sound(s: Session, f: FileSession, root: Seq<u8>, record: RecordView)
    ensures
        snapshot_run(s, f, root, record).2 matches Ok(w) ==> sound(w),
{
    let location = crate::grove::state::location_run(f, root, record.path);
    if location.1 is Ok && location.1->Ok_0 is Valid {
        lemma_no_stray_tracking(
            s,
            location.0,
            root,
            record,
            location.1->Ok_0->Valid_admin_dir,
        );
    }
}

/// Only a branch that has a commit and an upstream is followed.
proof fn lemma_no_stray_tracking(
    s: Session,
    f: FileSession,
    root: Seq<u8>,
    record: RecordView,
    admin: Seq<u8>,
)
    ensures
        status_run(s, f, root, record, admin).2 matches Ok(v) ==> v.tracking is Some ==> !v.busy
            && !v.gone && record.branch is Some && !unborn(record),
{
}

proof fn lemma_snapshots_sound(
    s: Session,
    f: FileSession,
    root: Seq<u8>,
    records: Seq<RecordView>,
    done: Seq<SnapshotView>,
    i: int,
)
    requires
        0 <= i,
        forall|j: int| 0 <= j < done.len() ==> sound(#[trigger] done[j]),
    ensures
        snapshots_from(s, f, root, records, done, i).2 matches Ok(list) ==> forall|j: int|
            0 <= j < list.len() ==> sound(#[trigger] list[j]),
    decreases records.len() - i,
{
    if i < records.len() {
        if records[i].bare {
            lemma_snapshots_sound(s, f, root, records, done, i + 1);
        } else {
            lemma_snapshot_sound(s, f, root, records[i]);
            let (s1, f1, w) = snapshot_run(s, f, root, records[i]);
            if w is Ok {
                lemma_snapshots_sound(s1, f1, root, records, done.push(w->Ok_0), i + 1);
            }
        }
    }
}

proof fn lemma_reinspected_sound(s: Session, f: FileSession, root: Seq<u8>, path: Seq<u8>)
    ensures
        reinspect_run(s, f, root, path).2 matches Ok(w) ==> sound(w),
{
    let (s1, listed) = worktrees_run(s, root);
    if listed is Ok {
        lemma_snapshot_sound(s1, f, root, listed->Ok_0[match_from(listed->Ok_0, path, 0)]);
    }
}

proof fn lemma_updated_sound(
    s: Session,
    f: FileSession,
    root: Seq<u8>,
    list: Seq<SnapshotView>,
    done: Seq<SnapshotView>,
    said: Seq<Seq<char>>,
    i: int,
)
    requires
        0 <= i,
        forall|j: int| 0 <= j < list.len() ==> sound(#[trigger] list[j]),
        forall|j: int| 0 <= j < done.len() ==> sound(#[trigger] done[j]),
    ensures
        update_from(s, f, root, list, done, said, i).2 matches Ok(v) ==> forall|j: int|
            0 <= j < v.0.len() ==> sound(#[trigger] v.0[j]),
    decreases list.len() - i,
{
    if i < list.len() {
        assert(sound(list[i]));
        if list[i].state != WorktreeState::Behind {
            lemma_updated_sound(s, f, root, list, done.push(list[i]), said, i + 1);
        } else {
            let path = list[i].record.path;
            lemma_reinspected_sound(s, f, root, path);
            let (s1, f1, fresh) = reinspect_run(s, f, root, path);
            let merge = crate::commands::sync::merge_call(
                fresh->Ok_0.admin_dir->Some_0,
                fresh->Ok_0.record.path,
            );
            lemma_reinspected_sound(step(s1, merge).0, f1, root, path);
            let (t, g, outcome) = update_run(s, f, root, list[i]);
            if outcome is Ok {
                let (next, told) = match outcome->Ok_0 {
                    UpdateView::Updated(w) => (w, said),
                    UpdateView::Changed(w) => (w, said),
                    UpdateView::Blocked { snapshot, detail } => (
                        blocked(snapshot),
                        said.push(detail),
                    ),
                };
                assert(sound(next));
                lemma_updated_sound(t, g, root, list, done.push(next), told, i + 1);
            }
        }
    }
}

/// Whether a word is the one of a state that leaves nothing to decide.
pub open spec fn settled_word(word: Seq<char>) -> bool {
    word == "UP-TO-DATE"@ || word == "AHEAD"@ || word == "UNBORN"@ || word == "DETACHED"@ || word
        == "NO-UPSTREAM"@
}

proof fn lemma_settled_words(s: WorktreeState)
    ensures
        settled_word(state_text(s)) <==> satisfied(s),
{
    if settled_word(state_text(s)) {
        if state_text(s) == "UP-TO-DATE"@ {
            words_tell_states_apart(s, WorktreeState::UpToDate);
        } else if state_text(s) == "AHEAD"@ {
            words_tell_states_apart(s, WorktreeState::Ahead);
        } else if state_text(s) == "UNBORN"@ {
            words_tell_states_apart(s, WorktreeState::Unborn);
        } else if state_text(s) == "DETACHED"@ {
            words_tell_states_apart(s, WorktreeState::Detached);
        } else {
            words_tell_states_apart(s, WorktreeState::NoUpstream);
        }
    }
}

/// A sync ends well exactly where every worktree is reported as up to date, ahead, unborn, detached
/// or without an upstream, and otherwise with something for a person to decide: so it does wherever
/// a worktree is reported that still lacks commits of its upstream.
pub proof fn syncs_end_by_what_they_report(s: Session, f: FileSession, root: Seq<u8>)
    requires
        sync_run(s, f, root).2 is Ok,
    ensures
        ({
            let report = sync_run(s, f, root).2->Ok_0;
            &&& report.class == ExitClass::Success <==> forall|i: int|
                0 <= i < report.rows.len() ==> settled_word((#[trigger] report.rows[i]).status)
            &&& report.class == ExitClass::Success || report.class == ExitClass::NeedsDecision
            &&& forall|i: int|
                0 <= i < report.rows.len() && (#[trigger] report.rows[i]).behind is Some
                    && report.rows[i].behind->Some_0 > 0 ==> report.class
                    == ExitClass::NeedsDecision
        }),
{
    let (s1, listed) = worktrees_run(s, root);
    let records = listed->Ok_0;
    let (s2, remotes) = plan_run(s1, root, records);
    let (s3, fetched) = fetch_from(s2, root, remotes->Ok_0, 0);
    let (s4, f1, found) = snapshots_from(s3, f, root, records, Seq::empty(), 0);
    lemma_snapshots_sound(s3, f, root, records, Seq::empty(), 0);
    let list = found->Ok_0;
    let order = by_path(list);
    crate::commands::sync::ordering_keeps_every_worktree(list);
    assert forall|j: int| 0 <= j < order.len() implies sound(#[trigger] order[j]) by {
        lemma_kept(list, order, j);
    }
    lemma_updated_sound(s4, f1, root, order, Seq::empty(), Seq::empty(), 0);
    let finals = update_from(s4, f1, root, order, Seq::empty(), Seq::empty(), 0).2->Ok_0.0;
    let report = sync_run(s, f, root).2->Ok_0;
    assert(report.rows == rows_of(finals));
    assert forall|i: int| 0 <= i < finals.len() implies settled_word(
        (#[trigger] report.rows[i]).status,
    ) == satisfied(finals[i].state) by {
        lemma_settled_words(finals[i].state);
    }
    if report.class == ExitClass::Success {
        assert forall|i: int| 0 <= i < report.rows.len() implies settled_word(
            (#[trigger] report.rows[i]).status,
        ) by {
            assert(satisfied(finals[i].state));
        }
    } else {
        let i = choose|i: int| 0 <= i < finals.len() && !satisfied(#[trigger] finals[i].state);
        assert(!settled_word(report.rows[i].status));
    }
    assert forall|i: int|
        0 <= i < report.rows.len() && (#[trigger] report.rows[i]).behind is Some
            && report.rows[i].behind->Some_0 > 0 implies report.class
        == ExitClass::NeedsDecision by {
        assert(sound(finals[i]));
        settled_states_are_these(finals[i].state);
        assert(!satisfied(finals[i].state));
    }
}

/// What is in an ordered list was in the list.
proof fn lemma_kept(list: Seq<SnapshotView>, order: Seq<SnapshotView>, j: int)
    requires
        order.to_multiset() == list.to_multiset(),
        0 <= j < order.len(),
    ensures
        exists|i: int| 0 <= i < list.len() && #[trigger] list[i] == order[j],
{
    broadcast use vstd::seq_lib::group_to_multiset_ensures;

    assert(order.contains(order[j]));
    assert(order.to_multiset().count(order[j]) > 0);
    assert(list.contains(order[j]));
}

/// A listing asks for a decision exactly where a worktree is reported as lost, or as not what it
/// should be.
pub proof fn listings_end_by_what_they_report(s: Session, f: FileSession, root: Seq<u8>)
    requires
        list_run(s, f, root).2 is Ok,
    ensures
        ({
            let (class, rows) = list_run(s, f, root).2->Ok_0;
            &&& class == ExitClass::NeedsDecision <==> exists|i: int|
                0 <= i < rows.len() && ((#[trigger] rows[i]).status == "MISSING"@ || rows[i].status
                    == "INVALID"@)
            &&& class == ExitClass::Success || class == ExitClass::NeedsDecision
        }),
{
    let list = crate::commands::list::collect_run(s, f, root).2->Ok_0;
    let (class, rows) = list_run(s, f, root).2->Ok_0;
    assert forall|i: int| 0 <= i < list.len() implies ((#[trigger] rows[i]).status == "MISSING"@
        || rows[i].status == "INVALID"@) == (list[i].state == WorktreeState::Missing
        || list[i].state == WorktreeState::Invalid) by {
        if rows[i].status == "MISSING"@ {
            words_tell_states_apart(list[i].state, WorktreeState::Missing);
        }
        if rows[i].status == "INVALID"@ {
            words_tell_states_apart(list[i].state, WorktreeState::Invalid);
        }
    }
    if class == ExitClass::NeedsDecision {
        let i = choose|i: int|
            0 <= i < list.len() && (#[trigger] list[i].state == WorktreeState::Invalid
                || list[i].state == WorktreeState::Missing);
        assert(rows[i].status == "MISSING"@ || rows[i].status == "INVALID"@);
    }
    if exists|i: int|
        0 <= i < rows.len() && ((#[trigger] rows[i]).status == "MISSING"@ || rows[i].status
            == "INVALID"@) {
        let i = choose|i: int|
            0 <= i < rows.len() && ((#[trigger] rows[i]).status == "MISSING"@ || rows[i].status
                == "INVALID"@);
        assert(list[i].state == WorktreeState::Missing || list[i].state == WorktreeState::Invalid);
    }
}

// ------------------------------------------------------------------------------ updates

/// A candidate that is still behind and not ahead, and is in everything that tells it apart what it
/// was when it was chosen, is fast-forwarded in its own worktree, and only such a one: the merge is
/// the first thing that follows. Whether it went well is told by its exit status.
pub proof fn unchanged_candidates_are_fast_forwarded(
    s: Session,
    f: FileSession,
    root: Seq<u8>,
    planned: SnapshotView,
)
    requires
        update_run(s, f, root, planned).2 is Ok,
    ensures
        ({
            let (s1, f1, looked) = reinspect_run(s, f, root, planned.record.path);
            let fresh = looked->Ok_0;
            let (t, g, outcome) = update_run(s, f, root, planned);
            let n = s1.calls.len() as int;
            let unchanged = {
                &&& fresh.state == WorktreeState::Behind
                &&& planned.tracking is Some
                &&& fresh.tracking is Some
                &&& fresh.tracking->Some_0.ahead == 0
                &&& fresh.tracking->Some_0.behind > 0
                &&& fresh.record.path == planned.record.path
                &&& fresh.record.branch == planned.record.branch
                &&& fresh.admin_dir == planned.admin_dir
                &&& fresh.tracking->Some_0.upstream_ref == planned.tracking->Some_0.upstream_ref
                &&& fresh.tracking->Some_0.upstream_remote
                    == planned.tracking->Some_0.upstream_remote
                &&& fresh.tracking->Some_0.head_oid == planned.tracking->Some_0.head_oid
                &&& fresh.tracking->Some_0.upstream_oid == planned.tracking->Some_0.upstream_oid
            };
            let merge = InvocationView {
                git_dir: Some(fresh.admin_dir->Some_0),
                work_tree: Some(fresh.record.path),
                ..invoke(
                    args6(
                        lit("merge"),
                        lit("--ff-only"),
                        lit("--no-edit"),
                        lit("--no-autostash"),
                        lit("--no-overwrite-ignore"),
                        lit("@{upstream}"),
                    ),
                )
            };
            let answer = (s1.script)(s1.calls.push(merge));
            let again = reinspect_run(
                Session { calls: s1.calls.push(merge), ..s1 },
                f1,
                root,
                planned.record.path,
            );
            &&& looked is Ok
            &&& outcome->Ok_0 is Changed <==> !unchanged
            &&& !unchanged ==> t == s1 && outcome->Ok_0->Changed_0 == fresh
            &&& unchanged ==> answer is Ok && again.2 is Ok && t == again.0
            &&& unchanged && answer->Ok_0.status == 0 ==> outcome->Ok_0 == UpdateView::Updated(
                again.2->Ok_0,
            )
            &&& unchanged && answer->Ok_0.status != 0 ==> outcome->Ok_0 is Blocked
                && outcome->Ok_0->Blocked_snapshot == again.2->Ok_0
        }),
{
}

// ------------------------------------------------------------------------------ fetching

/// Every planned remote is fetched by one child of its own, in order: atomically, with pruning of
/// its branches, and with nothing else. A fetch that fails ends the sync as a failure.
pub proof fn planned_remotes_are_fetched(s: Session, root: Seq<u8>, remotes: Seq<Seq<u8>>, i: int)
    requires
        0 <= i <= remotes.len(),
    ensures
        ({
            let (s1, r) = fetch_from(s, root, remotes, i);
            let n = s.calls.len() as int;
            &&& grown(s, s1)
            &&& s1.calls.len() <= n + remotes.len() - i
            &&& r is Ok ==> s1.calls.len() == n + remotes.len() - i
            &&& forall|k: int|
                n <= k < s1.calls.len() ==> #[trigger] s1.calls[k] == invoke_in(
                    child(root, lit(".bare")),
                    args9(
                        lit("fetch"),
                        lit("--atomic"),
                        lit("--prune"),
                        lit("--no-prune-tags"),
                        lit("--no-recurse-submodules"),
                        lit("--no-auto-maintenance"),
                        lit("--no-write-commit-graph"),
                        lit("--"),
                        remotes[i + (k - n)],
                    ),
                )
        }),
    decreases remotes.len() - i,
{
    if i < remotes.len() {
        let fetch = crate::git::fetch::fetch_one(child(root, lit(".bare")), remotes[i]);
        let (t, reply) = step(s, fetch);
        assert(grown(s, t));
        if reply is Ok && reply->Ok_0.status == 0 {
            planned_remotes_are_fetched(t, root, remotes, i + 1);
            let (s1, r) = fetch_from(t, root, remotes, i + 1);
            lemma_grown_on(s, t, s1);
            let n = s.calls.len() as int;
            assert(s1.calls[n] == t.calls[n]);
        }
    }
}

/// What Git is asked to find out where a branch is fetched from.
pub open spec fn asks_upstream(root: Seq<u8>, branch: Seq<u8>) -> InvocationView {
    invoke_in(
        child(root, lit(".bare")),
        args4(
            lit("for-each-ref"),
            lit("--format=%(upstream)%00%(upstream:short)%00%(upstream:remotename)%00"),
            lit("--"),
            lit("refs/heads/") + branch,
        ),
    )
}

/// Whether Git, asked for a branch by the call with number `k`, said that it is fetched from a
/// remote.
pub open spec fn names_remote(
    s: Session,
    k: int,
    root: Seq<u8>,
    branch: Seq<u8>,
    remote: Seq<u8>,
) -> bool {
    &&& s.calls[k] == asks_upstream(root, branch)
    &&& answer_to(s, k) is Ok
    &&& answer_to(s, k)->Ok_0.status == 0
    &&& upstream_in(answer_to(s, k)->Ok_0.stdout) is Ok
    &&& upstream_in(answer_to(s, k)->Ok_0.stdout)->Ok_0 is Some
    &&& upstream_in(answer_to(s, k)->Ok_0.stdout)->Ok_0->Some_0.remote == Some(remote)
}

proof fn lemma_remotes_named(
    s: Session,
    root: Seq<u8>,
    branches: Seq<Seq<u8>>,
    found: Seq<Seq<u8>>,
    i: int,
)
    requires
        0 <= i <= branches.len(),
        remotes_of(s, root, branches, found, i).1 is Ok,
    ensures
        ({
            let (s1, r) = remotes_of(s, root, branches, found, i);
            let n = s.calls.len() as int;
            &&& grown(s, s1)
            &&& s1.calls.len() == n + branches.len() - i
            &&& forall|k: int|
                n <= k < s1.calls.len() ==> #[trigger] s1.calls[k] == asks_upstream(
                    root,
                    branches[i + (k - n)],
                )
            &&& forall|remote: Seq<u8>| #[trigger]
                r->Ok_0.contains(remote) <==> found.contains(remote) || exists|k: int|
                    n <= k < s1.calls.len() && #[trigger] names_remote(
                        s1,
                        k,
                        root,
                        branches[i + (k - n)],
                        remote,
                    )
        }),
    decreases branches.len() - i,
{
    let (s1, r) = remotes_of(s, root, branches, found, i);
    let n = s.calls.len() as int;
    if i >= branches.len() {
        crate::order::sorted_set_is_ordered_and_complete(found);
        assert forall|remote: Seq<u8>| #[trigger] r->Ok_0.contains(remote) <==> found.contains(
            remote,
        ) || exists|k: int|
            n <= k < s1.calls.len() && #[trigger] names_remote(
                s1,
                k,
                root,
                branches[i + (k - n)],
                remote,
            ) by {}
    } else {
        let (t, answer) = upstream_run(s, root, branches[i]);
        assert(t.calls == s.calls.push(asks_upstream(root, branches[i])));
        let named: Option<Seq<u8>> = match answer->Ok_0 {
            Some(u) => u.remote,
            None => None,
        };
        let more = match named {
            Some(remote) => found.push(remote),
            None => found,
        };
        assert((s1, r) == remotes_of(t, root, branches, more, i + 1));
        lemma_remotes_named(t, root, branches, more, i + 1);
        assert(grown(s, t));
        lemma_grown_on(s, t, s1);
        assert(s1.calls[n] == t.calls[n]);
        assert(s1.calls.take(n + 1) =~= t.calls);
        assert forall|remote: Seq<u8>| #[trigger] r->Ok_0.contains(remote) <==> found.contains(
            remote,
        ) || exists|k: int|
            n <= k < s1.calls.len() && #[trigger] names_remote(
                s1,
                k,
                root,
                branches[i + (k - n)],
                remote,
            ) by {
            assert(names_remote(s1, n, root, branches[i + (n - n)], remote) <==> named == Some(
                remote,
            ));
            assert(more.contains(remote) <==> found.contains(remote) || named == Some(remote)) by {
                if named is Some {
                    assert(more.last() == named->Some_0);
                    if found.contains(remote) {
                        let j = choose|j: int| 0 <= j < found.len() && found[j] == remote;
                        assert(more[j] == remote);
                    }
                }
            }
            if exists|k: int|
                n + 1 <= k < s1.calls.len() && #[trigger] names_remote(
                    s1,
                    k,
                    root,
                    branches[(i + 1) + (k - (n + 1))],
                    remote,
                ) {
                let k = choose|k: int|
                    n + 1 <= k < s1.calls.len() && #[trigger] names_remote(
                        s1,
                        k,
                        root,
                        branches[(i + 1) + (k - (n + 1))],
                        remote,
                    );
                assert(names_remote(s1, k, root, branches[i + (k - n)], remote));
            }
            if exists|k: int|
                n <= k < s1.calls.len() && #[trigger] names_remote(
                    s1,
                    k,
                    root,
                    branches[i + (k - n)],
                    remote,
                ) {
                let k = choose|k: int|
                    n <= k < s1.calls.len() && #[trigger] names_remote(
                        s1,
                        k,
                        root,
                        branches[i + (k - n)],
                        remote,
                    );
                if k > n {
                    assert(names_remote(
                        s1,
                        k,
                        root,
                        branches[(i + 1) + (k - (n + 1))],
                        remote,
                    ));
                }
            }
        }
    }
}

proof fn lemma_born(records: Seq<RecordView>, n: int, branch: Seq<u8>)
    requires
        0 <= n <= records.len(),
    ensures
        born_branches(records, n).contains(branch) <==> exists|i: int|
            0 <= i < n && (#[trigger] records[i]).branch == Some(branch) && !unborn(records[i]),
    decreases n,
{
    if n > 0 {
        lemma_born(records, n - 1, branch);
        let front = born_branches(records, n - 1);
        let all = born_branches(records, n);
        let last = records[n - 1];
        if !unborn(last) && last.branch is Some {
            assert(all.last() == last.branch->Some_0);
            if front.contains(branch) {
                let j = choose|j: int| 0 <= j < front.len() && front[j] == branch;
                assert(all[j] == branch);
            }
            if all.contains(branch) && last.branch != Some(branch) {
                let j = choose|j: int| 0 <= j < all.len() && all[j] == branch;
                assert(front[j] == branch);
            }
        }
    }
}

/// The remotes that a sync fetches are just those that Git names as where a branch is fetched from
/// that has a commit and is checked out: Git is asked once for each such branch, and for no other.
pub proof fn the_remotes_of_checked_out_branches_are_fetched(
    s: Session,
    root: Seq<u8>,
    records: Seq<RecordView>,
)
    requires
        plan_run(s, root, records).1 is Ok,
    ensures
        ({
            let (s1, r) = plan_run(s, root, records);
            let n = s.calls.len() as int;
            &&& forall|k: int|
                n <= k < s1.calls.len() ==> exists|i: int|
                    0 <= i < records.len() && (#[trigger] records[i]).branch is Some && !unborn(
                        records[i],
                    ) && #[trigger] s1.calls[k] == asks_upstream(
                        root,
                        records[i].branch->Some_0,
                    )
            &&& forall|i: int|
                0 <= i < records.len() && (#[trigger] records[i]).branch is Some && !unborn(
                    records[i],
                ) ==> exists|k: int|
                    n <= k < s1.calls.len() && #[trigger] s1.calls[k] == asks_upstream(
                        root,
                        records[i].branch->Some_0,
                    )
            &&& forall|remote: Seq<u8>| #[trigger]
                r->Ok_0.contains(remote) <==> exists|k: int, branch: Seq<u8>|
                    n <= k < s1.calls.len() && #[trigger] names_remote(
                        s1,
                        k,
                        root,
                        branch,
                        remote,
                    )
        }),
{
    let m = records.len() as int;
    let born = born_branches(records, m);
    let branches = sorted_set(born);
    crate::order::sorted_set_is_ordered_and_complete(born);
    lemma_remotes_named(s, root, branches, seq![], 0);
    let (s1, r) = plan_run(s, root, records);
    let n = s.calls.len() as int;
    assert forall|k: int| n <= k < s1.calls.len() implies exists|i: int|
        0 <= i < records.len() && (#[trigger] records[i]).branch is Some && !unborn(records[i])
            && #[trigger] s1.calls[k] == asks_upstream(root, records[i].branch->Some_0) by {
        let branch = branches[0 + (k - n)];
        assert(branches.contains(branch));
        assert(born.contains(branch));
        lemma_born(records, m, branch);
        let i = choose|i: int|
            0 <= i < m && (#[trigger] records[i]).branch == Some(branch) && !unborn(records[i]);
        assert(s1.calls[k] == asks_upstream(root, records[i].branch->Some_0));
    }
    assert forall|i: int|
        0 <= i < records.len() && (#[trigger] records[i]).branch is Some && !unborn(
            records[i],
        ) implies exists|k: int|
        n <= k < s1.calls.len() && #[trigger] s1.calls[k] == asks_upstream(
            root,
            records[i].branch->Some_0,
        ) by {
        let branch = records[i].branch->Some_0;
        lemma_born(records, m, branch);
        assert(born.contains(branch));
        assert(branches.contains(branch));
        let j = choose|j: int| 0 <= j < branches.len() && branches[j] == branch;
        assert(s1.calls[n + j] == asks_upstream(root, branches[0 + ((n + j) - n)]));
    }
    assert forall|remote: Seq<u8>| #[trigger] r->Ok_0.contains(remote) <==> exists|
        k: int,
        branch: Seq<u8>,
    |
        n <= k < s1.calls.len() && #[trigger] names_remote(s1, k, root, branch, remote) by {
        if r->Ok_0.contains(remote) {
            let k = choose|k: int|
                n <= k < s1.calls.len() && #[trigger] names_remote(
                    s1,
                    k,
                    root,
                    branches[0 + (k - n)],
                    remote,
                );
            assert(names_remote(s1, k, root, branches[0 + (k - n)], remote));
        }
        if exists|k: int, branch: Seq<u8>|
            n <= k < s1.calls.len() && #[trigger] names_remote(s1, k, root, branch, remote) {
            let (k, branch) = choose|k: int, branch: Seq<u8>|
                n <= k < s1.calls.len() && #[trigger] names_remote(s1, k, root, branch, remote);
            assert(s1.calls[k] == asks_upstream(root, branches[0 + (k - n)]));
            assert(names_remote(s1, k, root, branches[0 + (k - n)], remote));
        }
    }
}

proof fn lemma_finals(
    s: Session,
    f: FileSession,
    root: Seq<u8>,
    list: Seq<SnapshotView>,
    done: Seq<SnapshotView>,
    said: Seq<Seq<char>>,
    i: int,
)
    requires
        0 <= i,
        update_from(s, f, root, list, done, said, i).2 is Ok,
    ensures
        ({
            let (finals, words) = update_from(s, f, root, list, done, said, i).2->Ok_0;
            &&& done.is_prefix_of(finals)
            &&& said.is_prefix_of(words)
        }),
    decreases list.len() - i,
{
    if i < list.len() {
        if list[i].state != WorktreeState::Behind {
            lemma_finals(s, f, root, list, done.push(list[i]), said, i + 1);
        } else {
            let (s1, f1, r) = update_run(s, f, root, list[i]);
            match r->Ok_0 {
                UpdateView::Updated(fresh) => {
                    lemma_finals(s1, f1, root, list, done.push(fresh), said, i + 1);
                },
                UpdateView::Changed(fresh) => {
                    lemma_finals(s1, f1, root, list, done.push(fresh), said, i + 1);
                },
                UpdateView::Blocked { snapshot, detail } => {
                    let next = done.push(blocked(snapshot));
                    lemma_finals(s1, f1, root, list, next, said.push(detail), i + 1);
                },
            }
        }
    }
}

/// What is reported of a worktree is how it was last seen: as it was found, where it was not to be
/// updated; as it was seen after the merge, or instead of it; and as blocked, with Git's own words,
/// where Git refused the merge.
pub proof fn worktrees_are_reported_as_last_seen(
    s: Session,
    f: FileSession,
    root: Seq<u8>,
    list: Seq<SnapshotView>,
    done: Seq<SnapshotView>,
    said: Seq<Seq<char>>,
    i: int,
)
    requires
        0 <= i < list.len(),
        update_from(s, f, root, list, done, said, i).2 is Ok,
    ensures
        ({
            let (finals, words) = update_from(s, f, root, list, done, said, i).2->Ok_0;
            let k = done.len() as int;
            let outcome = update_run(s, f, root, list[i]).2;
            let behind = list[i].state == WorktreeState::Behind;
            &&& finals.len() > k
            &&& !behind ==> finals[k] == list[i]
            &&& behind ==> outcome is Ok
            &&& behind && outcome->Ok_0 is Updated ==> finals[k] == outcome->Ok_0->Updated_0
            &&& behind && outcome->Ok_0 is Changed ==> finals[k] == outcome->Ok_0->Changed_0
            &&& behind && outcome->Ok_0 is Blocked ==> finals[k] == (SnapshotView {
                state: WorktreeState::Blocked,
                ..outcome->Ok_0->Blocked_snapshot
            }) && words.len() > said.len() && words[said.len() as int]
                == outcome->Ok_0->Blocked_detail
        }),
{
    let (finals, words) = update_from(s, f, root, list, done, said, i).2->Ok_0;
    let k = done.len() as int;
    if list[i].state != WorktreeState::Behind {
        let next = done.push(list[i]);
        lemma_finals(s, f, root, list, next, said, i + 1);
        assert(finals.subrange(0, k + 1)[k] == next[k]);
    } else {
        let (s1, f1, r) = update_run(s, f, root, list[i]);
        match r->Ok_0 {
            UpdateView::Updated(fresh) => {
                let next = done.push(fresh);
                lemma_finals(s1, f1, root, list, next, said, i + 1);
                assert(finals.subrange(0, k + 1)[k] == next[k]);
            },
            UpdateView::Changed(fresh) => {
                let next = done.push(fresh);
                lemma_finals(s1, f1, root, list, next, said, i + 1);
                assert(finals.subrange(0, k + 1)[k] == next[k]);
            },
            UpdateView::Blocked { snapshot, detail } => {
                let next = done.push(blocked(snapshot));
                let more = said.push(detail);
                lemma_finals(s1, f1, root, list, next, more, i + 1);
                assert(finals.subrange(0, k + 1)[k] == next[k]);
                let j = said.len() as int;
                assert(words.subrange(0, j + 1)[j] == more[j]);
            },
        }
    }
}

} // verus!
