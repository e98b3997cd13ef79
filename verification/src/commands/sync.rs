//! Fetch every required remote, then fast-forward each eligible worktree.
use vstd::prelude::*;
use crate::bytes::{copied, lit, opt_view, same};
use crate::commands::list::{
    behind_snapshots_can_be_updated, lemma_snapshot_views_push, row_views, rows, rows_of,
    snapshot_all, snapshot_record, snapshot_run, snapshot_views, snapshots_from, Row, RowView,
};
use crate::error::{failure, failure_error, ExitClass, Result};
use crate::fsx::files::{FileSession, FileSystem};
use crate::git::config::Outcome;
use crate::git::fetch::{fetch_from, plan_run, FetchPlan};
use crate::git::runner::{
    args6, step, GitRunner, Invocation, InvocationView, Session,
};
use crate::git::worktrees::{
    new_record, record_views, worktrees, worktrees_run, RecordView, WorktreeRecord,
};
use crate::grove::discover::Grove;
use crate::grove::state::{
    in_worktree, satisfied, snapshot_outcome, Snapshot, SnapshotView, WorktreeState,
};
use crate::order::{is_less, less, order_is_strict_and_total, order_is_transitive};
use crate::text::{escape, escaped, lemma_texts_push, texts};

verus! {

broadcast use {lemma_texts_push, lemma_snapshot_views_push};

/// What came of one candidate.
#[derive(Debug)]
pub enum UpdateOutcome {
    /// It was merged; this is its state now.
    Updated(Snapshot),
    /// It is no longer what it was when it was chosen, and was left alone.
    Changed(Snapshot),
    /// The merge was refused.
    Blocked { snapshot: Snapshot, detail: String },
}

pub enum UpdateView {
    Updated(SnapshotView),
    Changed(SnapshotView),
    Blocked { snapshot: SnapshotView, detail: Seq<char> },
}

impl View for UpdateOutcome {
    type V = UpdateView;

    open spec fn view(&self) -> UpdateView {
        match self {
            UpdateOutcome::Updated(s) => UpdateView::Updated(s@),
            UpdateOutcome::Changed(s) => UpdateView::Changed(s@),
            UpdateOutcome::Blocked { snapshot, detail } => UpdateView::Blocked {
                snapshot: snapshot@,
                detail: detail@,
            },
        }
    }
}

pub open spec fn update_outcome(r: Result<UpdateOutcome>) -> Outcome<UpdateView> {
    match r {
        Ok(u) => Ok(u@),
        Err(e) => Err(e@),
    }
}

// ---------------------------------------------------------------- looking again

pub open spec fn missing_at(path: Seq<u8>) -> SnapshotView {
    SnapshotView {
        record: new_record(path),
        admin_dir: None,
        state: WorktreeState::Missing,
        dirty: false,
        tracking: None,
    }
}

fn missing_snapshot(path: &[u8]) -> (r: Snapshot)
    ensures
        r@ == missing_at(path@),
{
    Snapshot {
        record: WorktreeRecord::at(path),
        admin_dir: None,
        state: WorktreeState::Missing,
        dirty: false,
        tracking: None,
    }
}

/// The first record from `i` on with a path, or the number of records.
pub open spec fn match_from(records: Seq<RecordView>, path: Seq<u8>, i: int) -> int
    decreases records.len() - i,
{
    if i >= records.len() {
        records.len() as int
    } else if records[i].path == path {
        i
    } else {
        match_from(records, path, i + 1)
    }
}

fn find_match(records: &Vec<WorktreeRecord>, path: &[u8], from: usize) -> (r: usize)
    requires
        from <= records.len(),
    ensures
        r == match_from(record_views(records@), path@, from as int),
        from <= r <= records.len(),
{
    let ghost all = record_views(records@);
    let mut i: usize = from;
    while i < records.len()
        invariant
            from <= i <= records.len(),
            all == record_views(records@),
            all.len() == records@.len(),
            match_from(all, path@, from as int) == match_from(all, path@, i as int),
        decreases records.len() - i,
    {
        proof {
            assert(all[i as int] == records@[i as int]@);
        }
        if same(records[i].path.as_slice(), path) {
            return i;
        }
        i = i + 1;
    }
    i
}

/// Looking again at the worktree with a path, byte for byte; one that is no longer registered
/// is missing.
pub open spec fn reinspect_run(s: Session, f: FileSession, root: Seq<u8>, path: Seq<u8>) -> (
    Session,
    FileSession,
    Outcome<SnapshotView>,
) {
    match worktrees_run(s, root) {
        (s1, Err(e)) => (s1, f, Err(e)),
        (s1, Ok(records)) => {
            let k = match_from(records, path, 0);
            if k >= records.len() {
                (s1, f, Ok(missing_at(path)))
            } else if match_from(records, path, k + 1) < records.len() {
                (
                    s1,
                    f,
                    Err(
                        failure("git returned duplicate worktree records for the same path"@),
                    ),
                )
            } else {
                snapshot_run(s1, f, root, records[k])
            }
        },
    }
}

/// Looks again at the worktree with a path.
pub fn reinspect_path<R: GitRunner + ?Sized, F: FileSystem + ?Sized>(
    runner: &mut R,
    files: &mut F,
    grove: &Grove,
    path: &[u8],
) -> (r: Result<Snapshot>)
    ensures
        (final(runner).session(), final(files).files(), snapshot_outcome(r)) == reinspect_run(
            old(runner).session(),
            old(files).files(),
            grove.root@,
            path@,
        ),
{
    let records = worktrees(runner, grove)?;
    proof {
        assert(record_views(records@).len() == records@.len());
    }
    let k: usize = find_match(&records, path, 0);
    if k >= records.len() {
        return Ok(missing_snapshot(path));
    }
    let next: usize = find_match(&records, path, k + 1);
    if next < records.len() {
        return Err(failure_error("git returned duplicate worktree records for the same path"));
    }
    proof {
        assert(record_views(records@)[k as int] == records@[k as int]@);
    }
    snapshot_record(runner, files, grove, records[k].copied())
}

proof fn lemma_behind_has_admin(s: Session, f: FileSession, root: Seq<u8>, path: Seq<u8>)
    requires
        reinspect_run(s, f, root, path).2 is Ok,
        reinspect_run(s, f, root, path).2->Ok_0.state == WorktreeState::Behind,
    ensures
        reinspect_run(s, f, root, path).2->Ok_0.admin_dir is Some,
{
    let (s1, listed) = worktrees_run(s, root);
    let records = listed->Ok_0;
    let k = match_from(records, path, 0);
    if k < records.len() {
        behind_snapshots_can_be_updated(s1, f, root, records[k]);
    }
}

// -------------------------------------------------------------- one candidate

/// Whether a candidate is, just before the merge, still what it was when it was chosen: behind
/// and not ahead, at the same path, on the same branch, with the same administration, the same
/// upstream, and the same commits at both ends.
pub open spec fn still_eligible(planned: SnapshotView, fresh: SnapshotView) -> bool {
    match (planned.tracking, fresh.tracking) {
        (Some(p), Some(t)) => {
            &&& fresh.state == WorktreeState::Behind
            &&& planned.record.path == fresh.record.path
            &&& planned.record.branch == fresh.record.branch
            &&& planned.admin_dir == fresh.admin_dir
            &&& p.upstream_ref == t.upstream_ref
            &&& p.upstream_remote == t.upstream_remote
            &&& p.head_oid == t.head_oid
            &&& p.upstream_oid == t.upstream_oid
            &&& t.ahead == 0
            &&& t.behind > 0
        },
        _ => false,
    }
}

fn same_opt(a: &Option<Vec<u8>>, b: &Option<Vec<u8>>) -> (r: bool)
    ensures
        r == (opt_view(*a) == opt_view(*b)),
{
    match (a, b) {
        (None, None) => true,
        (Some(x), Some(y)) => same(x.as_slice(), y.as_slice()),
        _ => false,
    }
}

/// Whether a candidate is still what it was when it was chosen.
pub fn eligible(planned: &Snapshot, fresh: &Snapshot) -> (r: bool)
    ensures
        r == still_eligible(planned@, fresh@),
{
    if fresh.state != WorktreeState::Behind {
        return false;
    }
    match (&planned.tracking, &fresh.tracking) {
        (Some(p), Some(t)) => {
            same(planned.record.path.as_slice(), fresh.record.path.as_slice()) && same_opt(
                &planned.record.branch,
                &fresh.record.branch,
            ) && same_opt(&planned.admin_dir, &fresh.admin_dir) && same(
                p.upstream_ref.as_slice(),
                t.upstream_ref.as_slice(),
            ) && same_opt(&p.upstream_remote, &t.upstream_remote) && same_opt(
                &p.head_oid,
                &t.head_oid,
            ) && same(p.upstream_oid.as_slice(), t.upstream_oid.as_slice()) && t.ahead == 0
                && t.behind > 0
        },
        _ => false,
    }
}

/// The only update there is: a fast-forward to the upstream, which touches nothing that is not
/// committed.
pub open spec fn merge_call(admin: Seq<u8>, path: Seq<u8>) -> InvocationView {
    in_worktree(
        admin,
        path,
        args6(
            lit("merge"),
            lit("--ff-only"),
            lit("--no-edit"),
            lit("--no-autostash"),
            lit("--no-overwrite-ignore"),
            lit("@{upstream}"),
        ),
    )
}

/// Updating one candidate: it is looked at again, merged only if it is still what it was, and
/// looked at once more.
pub open spec fn update_run(s: Session, f: FileSession, root: Seq<u8>, planned: SnapshotView) -> (
    Session,
    FileSession,
    Outcome<UpdateView>,
) {
    match reinspect_run(s, f, root, planned.record.path) {
        (s1, f1, Err(e)) => (s1, f1, Err(e)),
        (s1, f1, Ok(fresh)) => if !still_eligible(planned, fresh) {
            (s1, f1, Ok(UpdateView::Changed(fresh)))
        } else {
            match step(s1, merge_call(fresh.admin_dir->Some_0, fresh.record.path)) {
                (s2, Err(e)) => (s2, f1, Err(e)),
                (s2, Ok(out)) => match reinspect_run(s2, f1, root, planned.record.path) {
                    (s3, f2, Err(e)) => (s3, f2, Err(e)),
                    (s3, f2, Ok(again)) => if out.ok() {
                        (s3, f2, Ok(UpdateView::Updated(again)))
                    } else {
                        (
                            s3,
                            f2,
                            Ok(
                                UpdateView::Blocked {
                                    snapshot: again,
                                    detail: escape(out.stderr),
                                },
                            ),
                        )
                    },
                },
            }
        },
    }
}

/// Updates one candidate.
pub fn update_one<R: GitRunner + ?Sized, F: FileSystem + ?Sized>(
    runner: &mut R,
    files: &mut F,
    grove: &Grove,
    planned: &Snapshot,
) -> (r: Result<UpdateOutcome>)
    ensures
        (final(runner).session(), final(files).files(), update_outcome(r)) == update_run(
            old(runner).session(),
            old(files).files(),
            grove.root@,
            planned@,
        ),
{
    let ghost s = runner.session();
    let ghost f = files.files();
    let fresh = reinspect_path(runner, files, grove, planned.record.path.as_slice())?;
    if !eligible(planned, &fresh) {
        return Ok(UpdateOutcome::Changed(fresh));
    }
    proof {
        lemma_behind_has_admin(s, f, grove.root@, planned@.record.path);
    }
    let admin = match &fresh.admin_dir {
        Some(admin) => admin,
        None => {
            proof {
                assert(false);
            }
            &fresh.record.path
        },
    };
    let output = runner.run(
        Invocation::new().git_dir(admin.as_slice()).work_tree(fresh.record.path.as_slice()).word(
            "merge",
        ).word("--ff-only").word("--no-edit").word("--no-autostash").word(
            "--no-overwrite-ignore",
        ).word("@{upstream}"),
    )?;
    let again = reinspect_path(runner, files, grove, planned.record.path.as_slice())?;
    if output.ok() {
        Ok(UpdateOutcome::Updated(again))
    } else {
        Ok(
            UpdateOutcome::Blocked {
                snapshot: again,
                detail: escaped(output.stderr.as_slice()),
            },
        )
    }
}

/// A candidate that changed since it was chosen is not merged: all that Git is asked is how it
/// stands.
pub proof fn changed_candidates_are_left_alone(
    s: Session,
    f: FileSession,
    root: Seq<u8>,
    planned: SnapshotView,
)
    requires
        update_run(s, f, root, planned).2 is Ok,
        update_run(s, f, root, planned).2->Ok_0 is Changed,
    ensures
        update_run(s, f, root, planned).0 == reinspect_run(s, f, root, planned.record.path).0,
        update_run(s, f, root, planned).1 == reinspect_run(s, f, root, planned.record.path).1,
{
}

/// A candidate is merged only into something it is strictly behind and not ahead of.
pub proof fn eligible_candidates_are_strictly_behind(planned: SnapshotView, fresh: SnapshotView)
    requires
        still_eligible(planned, fresh),
    ensures
        fresh.state == WorktreeState::Behind,
        fresh.tracking->Some_0.ahead == 0,
        fresh.tracking->Some_0.behind > 0,
        planned.tracking->Some_0.upstream_oid == fresh.tracking->Some_0.upstream_oid,
        planned.tracking->Some_0.head_oid == fresh.tracking->Some_0.head_oid,
{
}

// ------------------------------------------------------------------------ order

/// Where a worktree goes in an ordered list: before the first whose path is greater.
pub open spec fn place_in(list: Seq<SnapshotView>, path: Seq<u8>, i: int) -> int
    decreases list.len() - i,
{
    if i >= list.len() {
        list.len() as int
    } else if less(path, list[i].record.path) {
        i
    } else {
        place_in(list, path, i + 1)
    }
}

/// The worktrees ordered by their paths, byte by byte; those with one path stay as they were.
pub open spec fn by_path(list: Seq<SnapshotView>) -> Seq<SnapshotView>
    decreases list.len(),
{
    if list.len() == 0 {
        Seq::empty()
    } else {
        let rest = by_path(list.drop_last());
        rest.insert(place_in(rest, list.last().record.path, 0), list.last())
    }
}

pub open spec fn ordered(list: Seq<SnapshotView>) -> bool {
    forall|i: int, j: int|
        0 <= i < j < list.len() ==> !less(
            #[trigger] list[j].record.path,
            #[trigger] list[i].record.path,
        )
}

proof fn lemma_place(list: Seq<SnapshotView>, path: Seq<u8>, i: int)
    requires
        0 <= i <= list.len(),
    ensures
        i <= place_in(list, path, i) <= list.len(),
        place_in(list, path, i) < list.len() ==> less(
            path,
            list[place_in(list, path, i)].record.path,
        ),
        forall|j: int|
            i <= j < place_in(list, path, i) ==> !less(path, #[trigger] list[j].record.path),
    decreases list.len() - i,
{
    if i < list.len() && !less(path, list[i].record.path) {
        lemma_place(list, path, i + 1);
    }
}

/// Ordering changes no worktree and loses none, and leaves the paths in order.
pub proof fn ordering_keeps_every_worktree(list: Seq<SnapshotView>)
    ensures
        ordered(by_path(list)),
        by_path(list).to_multiset() == list.to_multiset(),
        by_path(list).len() == list.len(),
    decreases list.len(),
{
    if list.len() == 0 {
        assert(by_path(list) =~= list);
    } else {
        ordering_keeps_every_worktree(list.drop_last());
        let rest = by_path(list.drop_last());
        let x = list.last();
        let k = place_in(rest, x.record.path, 0);
        lemma_place(rest, x.record.path, 0);
        let result = rest.insert(k, x);
        assert(list =~= list.drop_last().push(x));
        broadcast use vstd::seq_lib::group_to_multiset_ensures;

        assert(rest.insert(k, x).to_multiset() =~= rest.to_multiset().insert(x)) by {
            vstd::seq_lib::to_multiset_insert(rest, k, x);
        }
        assert(list.drop_last().push(x).to_multiset() =~= list.drop_last().to_multiset().insert(
            x,
        ));
        assert forall|i: int, j: int| 0 <= i < j < result.len() implies !less(
            #[trigger] result[j].record.path,
            #[trigger] result[i].record.path,
        ) by {
            let old_i = if i < k { i } else { i - 1 };
            let old_j = if j < k { j } else { j - 1 };
            if j == k {
                assert(result[i] == rest[i]);
            } else if i == k {
                assert(result[j] == rest[j - 1]);
                if less(rest[j - 1].record.path, x.record.path) {
                    order_is_transitive(
                        rest[j - 1].record.path,
                        x.record.path,
                        rest[k].record.path,
                    );
                    if j - 1 > k {
                        assert(!less(rest[j - 1].record.path, rest[k].record.path));
                    } else {
                        order_is_strict_and_total(rest[k].record.path, rest[k].record.path);
                    }
                }
            } else {
                assert(result[i] == rest[old_i]);
                assert(result[j] == rest[old_j]);
            }
        }
    }
}

/// Orders worktrees by their paths.
pub fn sort_by_path(list: &Vec<Snapshot>) -> (r: Vec<Snapshot>)
    ensures
        snapshot_views(r@) == by_path(snapshot_views(list@)),
{
    let ghost all = snapshot_views(list@);
    let mut out: Vec<Snapshot> = Vec::new();
    let mut i: usize = 0;
    proof {
        assert(snapshot_views(out@) =~= by_path(all.subrange(0, 0)));
    }
    while i < list.len()
        invariant
            i <= list.len(),
            all == snapshot_views(list@),
            all.len() == list@.len(),
            snapshot_views(out@) == by_path(all.subrange(0, i as int)),
        decreases list.len() - i,
    {
        let ghost before = snapshot_views(out@);
        let path = list[i].record.path.as_slice();
        let mut k: usize = 0;
        while k < out.len() && !is_less(path, out[k].record.path.as_slice())
            invariant
                k <= out.len(),
                before == snapshot_views(out@),
                before.len() == out@.len(),
                place_in(before, path@, 0) == place_in(before, path@, k as int),
            decreases out.len() - k,
        {
            proof {
                assert(before[k as int] == out@[k as int]@);
            }
            k = k + 1;
        }
        proof {
            if k < out.len() {
                assert(before[k as int] == out@[k as int]@);
            }
            assert(place_in(before, path@, 0) == k);
            let taken = all.subrange(0, i + 1);
            assert(taken.drop_last() =~= all.subrange(0, i as int));
            assert(taken.last() == list@[i as int]@);
        }
        out.insert(k, list[i].copied());
        proof {
            assert(snapshot_views(out@) =~= before.insert(k as int, list@[i as int]@));
        }
        i = i + 1;
    }
    proof {
        assert(all.subrange(0, i as int) =~= all);
    }
    out
}

// ----------------------------------------------------------------------- the run

/// A worktree whose merge was refused.
pub open spec fn blocked(s: SnapshotView) -> SnapshotView {
    SnapshotView { state: WorktreeState::Blocked, ..s }
}

pub type Finals = (Seq<SnapshotView>, Seq<Seq<char>>);

/// Updating the candidates from `i` on, one at a time, after what is `done`; with what was said
/// about refused merges.
pub open spec fn update_from(
    s: Session,
    f: FileSession,
    root: Seq<u8>,
    list: Seq<SnapshotView>,
    done: Seq<SnapshotView>,
    said: Seq<Seq<char>>,
    i: int,
) -> (Session, FileSession, Outcome<Finals>)
    decreases list.len() - i,
{
    if i >= list.len() {
        (s, f, Ok((done, said)))
    } else if list[i].state != WorktreeState::Behind {
        update_from(s, f, root, list, done.push(list[i]), said, i + 1)
    } else {
        match update_run(s, f, root, list[i]) {
            (s1, f1, Err(e)) => (s1, f1, Err(e)),
            (s1, f1, Ok(outcome)) => match outcome {
                UpdateView::Updated(fresh) => update_from(
                    s1,
                    f1,
                    root,
                    list,
                    done.push(fresh),
                    said,
                    i + 1,
                ),
                UpdateView::Changed(fresh) => update_from(
                    s1,
                    f1,
                    root,
                    list,
                    done.push(fresh),
                    said,
                    i + 1,
                ),
                UpdateView::Blocked { snapshot, detail } => update_from(
                    s1,
                    f1,
                    root,
                    list,
                    done.push(blocked(snapshot)),
                    said.push(detail),
                    i + 1,
                ),
            },
        }
    }
}

pub open spec fn finals_outcome(r: Result<(Vec<Snapshot>, Vec<String>)>) -> Outcome<Finals> {
    match r {
        Ok(v) => Ok((snapshot_views(v.0@), texts(v.1@))),
        Err(e) => Err(e@),
    }
}

fn update_all<R: GitRunner + ?Sized, F: FileSystem + ?Sized>(
    runner: &mut R,
    files: &mut F,
    grove: &Grove,
    list: &Vec<Snapshot>,
) -> (r: Result<(Vec<Snapshot>, Vec<String>)>)
    ensures
        (final(runner).session(), final(files).files(), finals_outcome(r)) == update_from(
            old(runner).session(),
            old(files).files(),
            grove.root@,
            snapshot_views(list@),
            Seq::empty(),
            Seq::empty(),
            0,
        ),
{
    let ghost all = snapshot_views(list@);
    let mut done: Vec<Snapshot> = Vec::new();
    let mut said: Vec<String> = Vec::new();
    let mut i: usize = 0;
    proof {
        assert(snapshot_views(done@) =~= Seq::empty());
        assert(texts(said@) =~= Seq::empty());
    }
    while i < list.len()
        invariant
            i <= list.len(),
            all == snapshot_views(list@),
            all.len() == list@.len(),
            update_from(
                old(runner).session(),
                old(files).files(),
                grove.root@,
                all,
                Seq::empty(),
                Seq::empty(),
                0,
            ) == update_from(
                runner.session(),
                files.files(),
                grove.root@,
                all,
                snapshot_views(done@),
                texts(said@),
                i as int,
            ),
        decreases list.len() - i,
    {
        broadcast use {lemma_texts_push, lemma_snapshot_views_push};

        proof {
            assert(all[i as int] == list@[i as int]@);
        }
        if list[i].state != WorktreeState::Behind {
            done.push(list[i].copied());
        } else {
            match update_one(runner, files, grove, &list[i])? {
                UpdateOutcome::Updated(fresh) => {
                    done.push(fresh);
                },
                UpdateOutcome::Changed(fresh) => {
                    done.push(fresh);
                },
                UpdateOutcome::Blocked { snapshot, detail } => {
                    said.push(detail);
                    let mut left = snapshot;
                    left.state = WorktreeState::Blocked;
                    done.push(left);
                },
            }
        }
        i = i + 1;
    }
    Ok((done, said))
}

/// Whether no worktree is left for a person to decide about.
pub open spec fn all_satisfied(list: Seq<SnapshotView>) -> bool {
    forall|i: int| 0 <= i < list.len() ==> satisfied(#[trigger] list[i].state)
}

pub open spec fn sync_class(list: Seq<SnapshotView>) -> ExitClass {
    if all_satisfied(list) {
        ExitClass::Success
    } else {
        ExitClass::NeedsDecision
    }
}

fn class_of(list: &Vec<Snapshot>) -> (r: ExitClass)
    ensures
        r == sync_class(snapshot_views(list@)),
{
    let ghost all = snapshot_views(list@);
    let mut i: usize = 0;
    while i < list.len()
        invariant
            i <= list.len(),
            all == snapshot_views(list@),
            all.len() == list@.len(),
            forall|j: int| 0 <= j < i ==> satisfied(#[trigger] all[j].state),
        decreases list.len() - i,
    {
        proof {
            assert(all[i as int] == list@[i as int]@);
        }
        if !list[i].state.sync_is_satisfied() {
            proof {
                assert(!satisfied(all[i as int].state));
            }
            return ExitClass::NeedsDecision;
        }
        i = i + 1;
    }
    ExitClass::Success
}

/// What a sync comes to.
#[derive(Debug)]
pub struct SyncReport {
    pub class: ExitClass,
    pub rows: Vec<Row>,
    pub diagnostics: Vec<String>,
}

pub struct SyncView {
    pub class: ExitClass,
    pub rows: Seq<RowView>,
    pub diagnostics: Seq<Seq<char>>,
}

impl View for SyncReport {
    type V = SyncView;

    open spec fn view(&self) -> SyncView {
        SyncView {
            class: self.class,
            rows: row_views(self.rows@),
            diagnostics: texts(self.diagnostics@),
        }
    }
}

pub open spec fn sync_outcome(r: Result<SyncReport>) -> Outcome<SyncView> {
    match r {
        Ok(v) => Ok(v@),
        Err(e) => Err(e@),
    }
}

/// Updating every candidate in order, and what it comes to.
pub open spec fn settle_run(
    s: Session,
    f: FileSession,
    root: Seq<u8>,
    list: Seq<SnapshotView>,
) -> (Session, FileSession, Outcome<SyncView>) {
    match update_from(s, f, root, by_path(list), Seq::empty(), Seq::empty(), 0) {
        (s1, f1, Err(e)) => (s1, f1, Err(e)),
        (s1, f1, Ok((finals, said))) => (
            s1,
            f1,
            Ok(
                SyncView {
                    class: sync_class(finals),
                    rows: rows_of(finals),
                    diagnostics: said,
                },
            ),
        ),
    }
}

/// Syncing a grove: everything is fetched first; only then are worktrees looked at and updated.
pub open spec fn sync_run(s: Session, f: FileSession, root: Seq<u8>) -> (
    Session,
    FileSession,
    Outcome<SyncView>,
) {
    match worktrees_run(s, root) {
        (s1, Err(e)) => (s1, f, Err(e)),
        (s1, Ok(records)) => match plan_run(s1, root, records) {
            (s2, Err(e)) => (s2, f, Err(e)),
            (s2, Ok(remotes)) => match fetch_from(s2, root, remotes, 0) {
                (s3, Err(e)) => (s3, f, Err(e)),
                (s3, Ok(_)) => match snapshots_from(s3, f, root, records, Seq::empty(), 0) {
                    (s4, f1, Err(e)) => (s4, f1, Err(e)),
                    (s4, f1, Ok(list)) => settle_run(s4, f1, root, list),
                },
            },
        },
    }
}

fn settle<R: GitRunner + ?Sized, F: FileSystem + ?Sized>(
    runner: &mut R,
    files: &mut F,
    grove: &Grove,
    list: &Vec<Snapshot>,
) -> (r: Result<SyncReport>)
    ensures
        (final(runner).session(), final(files).files(), sync_outcome(r)) == settle_run(
            old(runner).session(),
            old(files).files(),
            grove.root@,
            snapshot_views(list@),
        ),
{
    let sorted = sort_by_path(list);
    let (finals, diagnostics) = update_all(runner, files, grove, &sorted)?;
    let class = class_of(&finals);
    Ok(SyncReport { class, rows: rows(&finals), diagnostics })
}

/// Fetches every required remote, then fast-forwards each eligible worktree in the order of
/// their paths.
pub fn run<R: GitRunner + ?Sized, F: FileSystem + ?Sized>(
    runner: &mut R,
    files: &mut F,
    grove: &Grove,
) -> (r: Result<SyncReport>)
    ensures
        (final(runner).session(), final(files).files(), sync_outcome(r)) == sync_run(
            old(runner).session(),
            old(files).files(),
            grove.root@,
        ),
{
    let records = worktrees(runner, grove)?;
    let plan = FetchPlan::from_records(runner, grove, &records)?;
    plan.execute(runner, grove)?;
    let list = snapshot_all(runner, files, grove, &records)?;
    settle(runner, files, grove, &list)
}

/// If a required fetch fails, no worktree is touched: nothing is asked of the file system, and
/// Git is asked nothing after the fetch.
pub proof fn a_failed_fetch_updates_nothing(s: Session, f: FileSession, root: Seq<u8>)
    requires
        worktrees_run(s, root).1 is Ok,
        ({
            let (s1, records) = worktrees_run(s, root);
            let (s2, remotes) = plan_run(s1, root, records->Ok_0);
            remotes is Ok && fetch_from(s2, root, remotes->Ok_0, 0).1 is Err
        }),
    ensures
        sync_run(s, f, root).1 == f,
        sync_run(s, f, root).2 is Err,
        ({
            let (s1, records) = worktrees_run(s, root);
            let (s2, remotes) = plan_run(s1, root, records->Ok_0);
            sync_run(s, f, root).0 == fetch_from(s2, root, remotes->Ok_0, 0).0
        }),
{
}

/// A worktree that a sync has not settled leaves something for a person to decide; one that
/// remains behind, or is blocked, is not settled.
pub proof fn unresolved_worktrees_need_a_decision(list: Seq<SnapshotView>, i: int)
    requires
        0 <= i < list.len(),
        !satisfied(list[i].state),
    ensures
        sync_class(list) == ExitClass::NeedsDecision,
        !satisfied(WorktreeState::Behind),
        !satisfied(WorktreeState::Blocked),
{
    assert(!satisfied(list[i].state));
}

} // verus!
