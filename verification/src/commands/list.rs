//! Show the state of every worktree.
use vstd::prelude::*;
use crate::bytes::{copied, copied_opt, opt_view};
use crate::error::{ExitClass, Result};
use crate::fsx::files::{FileSession, FileSystem};
use crate::git::config::Outcome;
use crate::git::runner::{GitRunner, Session};
use crate::git::worktrees::{record_views, worktrees, worktrees_run, RecordView, WorktreeRecord};
use crate::grove::discover::Grove;
use crate::grove::state::{
    classified, classify, inspect_worktree, location_run, snapshot_outcome, state_text, status_at,
    status_run, LocationView, Snapshot, SnapshotView, WorktreeLocation, WorktreeState,
};

verus! {

/// The state of one worktree. Git is asked only about one that is in its place and that Git
/// itself does not take for lost.
pub open spec fn snapshot_run(s: Session, f: FileSession, root: Seq<u8>, record: RecordView) -> (
    Session,
    FileSession,
    Outcome<SnapshotView>,
) {
    match location_run(f, root, record.path) {
        (f1, Err(e)) => (s, f1, Err(e)),
        (f1, Ok(location)) => match location {
            LocationView::Valid { admin_dir } => if record.prunable is None {
                match status_run(s, f1, root, record, admin_dir) {
                    (s1, f2, Err(e)) => (s1, f2, Err(e)),
                    (s1, f2, Ok(status)) => (
                        s1,
                        f2,
                        Ok(classified(record, location, Some(status))),
                    ),
                }
            } else {
                (s, f1, Ok(classified(record, location, None)))
            },
            _ => (s, f1, Ok(classified(record, location, None))),
        },
    }
}

/// Finds the state of one worktree.
pub fn snapshot_record<R: GitRunner + ?Sized, F: FileSystem + ?Sized>(
    runner: &mut R,
    files: &mut F,
    grove: &Grove,
    record: WorktreeRecord,
) -> (r: Result<Snapshot>)
    ensures
        (final(runner).session(), final(files).files(), snapshot_outcome(r)) == snapshot_run(
            old(runner).session(),
            old(files).files(),
            grove.root@,
            record@,
        ),
{
    let location = inspect_worktree(files, grove, record.path.as_slice())?;
    let status = match &location {
        WorktreeLocation::Valid { admin_dir } => if record.prunable.is_none() {
            Some(status_at(runner, files, grove, &record, admin_dir.as_slice())?)
        } else {
            None
        },
        _ => None,
    };
    Ok(classify(record, location, status))
}

/// A worktree that is found to be behind has a place in Git's administration, and a branch that
/// can be fast-forwarded.
pub proof fn behind_snapshots_can_be_updated(
    s: Session,
    f: FileSession,
    root: Seq<u8>,
    record: RecordView,
)
    requires
        snapshot_run(s, f, root, record).2 is Ok,
        snapshot_run(s, f, root, record).2->Ok_0.state == WorktreeState::Behind,
    ensures
        snapshot_run(s, f, root, record).2->Ok_0.admin_dir is Some,
        snapshot_run(s, f, root, record).2->Ok_0.tracking is Some,
        snapshot_run(s, f, root, record).2->Ok_0.tracking->Some_0.ahead == 0,
        snapshot_run(s, f, root, record).2->Ok_0.tracking->Some_0.behind > 0,
{
}

pub open spec fn snapshot_views(list: Seq<Snapshot>) -> Seq<SnapshotView> {
    list.map_values(|s: Snapshot| s@)
}

pub broadcast proof fn lemma_snapshot_views_push(list: Seq<Snapshot>, x: Snapshot)
    ensures
        #[trigger] snapshot_views(list.push(x)) == snapshot_views(list).push(x@),
{
    assert(snapshot_views(list.push(x)) =~= snapshot_views(list).push(x@));
}

pub open spec fn snapshots_outcome(r: Result<Vec<Snapshot>>) -> Outcome<Seq<SnapshotView>> {
    match r {
        Ok(v) => Ok(snapshot_views(v@)),
        Err(e) => Err(e@),
    }
}

/// The states of the worktrees from `i` on, not counting bare entries, after those `done`.
pub open spec fn snapshots_from(
    s: Session,
    f: FileSession,
    root: Seq<u8>,
    records: Seq<RecordView>,
    done: Seq<SnapshotView>,
    i: int,
) -> (Session, FileSession, Outcome<Seq<SnapshotView>>)
    decreases records.len() - i,
{
    if i >= records.len() {
        (s, f, Ok(done))
    } else if records[i].bare {
        snapshots_from(s, f, root, records, done, i + 1)
    } else {
        match snapshot_run(s, f, root, records[i]) {
            (s1, f1, Err(e)) => (s1, f1, Err(e)),
            (s1, f1, Ok(snapshot)) => snapshots_from(
                s1,
                f1,
                root,
                records,
                done.push(snapshot),
                i + 1,
            ),
        }
    }
}

/// Finds the state of every worktree among some records.
pub fn snapshot_all<R: GitRunner + ?Sized, F: FileSystem + ?Sized>(
    runner: &mut R,
    files: &mut F,
    grove: &Grove,
    records: &Vec<WorktreeRecord>,
) -> (r: Result<Vec<Snapshot>>)
    ensures
        (final(runner).session(), final(files).files(), snapshots_outcome(r)) == snapshots_from(
            old(runner).session(),
            old(files).files(),
            grove.root@,
            record_views(records@),
            Seq::empty(),
            0,
        ),
{
    broadcast use lemma_snapshot_views_push;

    let ghost all = record_views(records@);
    let mut out: Vec<Snapshot> = Vec::new();
    let mut i: usize = 0;
    proof {
        assert(snapshot_views(out@) =~= Seq::empty());
    }
    while i < records.len()
        invariant
            i <= records.len(),
            all == record_views(records@),
            all.len() == records@.len(),
            snapshots_from(
                old(runner).session(),
                old(files).files(),
                grove.root@,
                all,
                Seq::empty(),
                0,
            ) == snapshots_from(
                runner.session(),
                files.files(),
                grove.root@,
                all,
                snapshot_views(out@),
                i as int,
            ),
        decreases records.len() - i,
    {
        broadcast use lemma_snapshot_views_push;

        proof {
            assert(all[i as int] == records@[i as int]@);
        }
        if !records[i].bare {
            let snapshot = snapshot_record(runner, files, grove, records[i].copied())?;
            out.push(snapshot);
        }
        i = i + 1;
    }
    Ok(out)
}

pub open spec fn collect_run(s: Session, f: FileSession, root: Seq<u8>) -> (
    Session,
    FileSession,
    Outcome<Seq<SnapshotView>>,
) {
    match worktrees_run(s, root) {
        (s1, Err(e)) => (s1, f, Err(e)),
        (s1, Ok(records)) => snapshots_from(s1, f, root, records, Seq::empty(), 0),
    }
}

/// Finds the state of every worktree of a grove.
pub fn collect_snapshots<R: GitRunner + ?Sized, F: FileSystem + ?Sized>(
    runner: &mut R,
    files: &mut F,
    grove: &Grove,
) -> (r: Result<Vec<Snapshot>>)
    ensures
        (final(runner).session(), final(files).files(), snapshots_outcome(r)) == collect_run(
            old(runner).session(),
            old(files).files(),
            grove.root@,
        ),
{
    let records = worktrees(runner, grove)?;
    snapshot_all(runner, files, grove, &records)
}

// ---------------------------------------------------------------- what is shown

/// What is shown of one worktree.
#[derive(Debug)]
pub struct Row {
    pub status: &'static str,
    pub path: Vec<u8>,
    pub branch: Option<Vec<u8>>,
    pub ahead: Option<u64>,
    pub behind: Option<u64>,
}

pub struct RowView {
    pub status: Seq<char>,
    pub path: Seq<u8>,
    pub branch: Option<Seq<u8>>,
    pub ahead: Option<u64>,
    pub behind: Option<u64>,
}

impl View for Row {
    type V = RowView;

    open spec fn view(&self) -> RowView {
        RowView {
            status: self.status@,
            path: self.path@,
            branch: opt_view(self.branch),
            ahead: self.ahead,
            behind: self.behind,
        }
    }
}

pub open spec fn row_of(s: SnapshotView) -> RowView {
    RowView {
        status: state_text(s.state),
        path: s.record.path,
        branch: s.record.branch,
        ahead: match s.tracking {
            Some(t) => Some(t.ahead),
            None => None,
        },
        behind: match s.tracking {
            Some(t) => Some(t.behind),
            None => None,
        },
    }
}

/// What is shown of one worktree.
pub fn row(snapshot: &Snapshot) -> (r: Row)
    ensures
        r@ == row_of(snapshot@),
{
    let (ahead, behind) = match &snapshot.tracking {
        Some(t) => (Some(t.ahead), Some(t.behind)),
        None => (None, None),
    };
    Row {
        status: snapshot.state.word(),
        path: copied(snapshot.record.path.as_slice()),
        branch: copied_opt(&snapshot.record.branch),
        ahead,
        behind,
    }
}

pub open spec fn row_views(list: Seq<Row>) -> Seq<RowView> {
    list.map_values(|r: Row| r@)
}

pub open spec fn rows_of(list: Seq<SnapshotView>) -> Seq<RowView> {
    list.map_values(|s: SnapshotView| row_of(s))
}

/// What is shown of every worktree.
pub fn rows(list: &Vec<Snapshot>) -> (r: Vec<Row>)
    ensures
        row_views(r@) == rows_of(snapshot_views(list@)),
{
    let ghost all = rows_of(snapshot_views(list@));
    let mut out: Vec<Row> = Vec::new();
    let mut i: usize = 0;
    proof {
        assert(row_views(out@) =~= all.subrange(0, 0));
    }
    while i < list.len()
        invariant
            i <= list.len(),
            all == rows_of(snapshot_views(list@)),
            all.len() == list@.len(),
            row_views(out@) == all.subrange(0, i as int),
        decreases list.len() - i,
    {
        let ghost before = row_views(out@);
        out.push(row(&list[i]));
        proof {
            assert(all[i as int] == row_of(list@[i as int]@));
            assert(row_views(out@) =~= before.push(all[i as int]));
            assert(all.subrange(0, i + 1) =~= all.subrange(0, i as int).push(all[i as int]));
        }
        i = i + 1;
    }
    proof {
        assert(all.subrange(0, i as int) =~= all);
    }
    out
}

/// Whether some worktree is lost or is not what it should be.
pub open spec fn needs_attention(list: Seq<SnapshotView>) -> bool {
    exists|i: int|
        0 <= i < list.len() && (#[trigger] list[i].state == WorktreeState::Invalid || list[i].state
            == WorktreeState::Missing)
}

pub open spec fn list_class(list: Seq<SnapshotView>) -> ExitClass {
    if needs_attention(list) {
        ExitClass::NeedsDecision
    } else {
        ExitClass::Success
    }
}

/// How listing ends: a person has to decide about a worktree that is lost or is not what it
/// should be.
pub fn exit_class(list: &Vec<Snapshot>) -> (r: ExitClass)
    ensures
        r == list_class(snapshot_views(list@)),
{
    let ghost all = snapshot_views(list@);
    let mut i: usize = 0;
    while i < list.len()
        invariant
            i <= list.len(),
            all == snapshot_views(list@),
            all.len() == list@.len(),
            forall|j: int|
                0 <= j < i ==> #[trigger] all[j].state != WorktreeState::Invalid && all[j].state
                    != WorktreeState::Missing,
        decreases list.len() - i,
    {
        proof {
            assert(all[i as int] == list@[i as int]@);
        }
        if list[i].state == WorktreeState::Invalid || list[i].state == WorktreeState::Missing {
            proof {
                assert(all[i as int].state == WorktreeState::Invalid || all[i as int].state
                    == WorktreeState::Missing);
            }
            return ExitClass::NeedsDecision;
        }
        i = i + 1;
    }
    ExitClass::Success
}

/// What listing a grove comes to.
#[derive(Debug)]
pub struct ListReport {
    pub class: ExitClass,
    pub rows: Vec<Row>,
}

pub open spec fn list_outcome_of(r: Result<ListReport>) -> Outcome<(ExitClass, Seq<RowView>)> {
    match r {
        Ok(v) => Ok((v.class, row_views(v.rows@))),
        Err(e) => Err(e@),
    }
}

pub open spec fn list_run(s: Session, f: FileSession, root: Seq<u8>) -> (
    Session,
    FileSession,
    Outcome<(ExitClass, Seq<RowView>)>,
) {
    match collect_run(s, f, root) {
        (s1, f1, Err(e)) => (s1, f1, Err(e)),
        (s1, f1, Ok(list)) => (s1, f1, Ok((list_class(list), rows_of(list)))),
    }
}

/// Lists the worktrees of a grove.
pub fn run<R: GitRunner + ?Sized, F: FileSystem + ?Sized>(
    runner: &mut R,
    files: &mut F,
    grove: &Grove,
) -> (r: Result<ListReport>)
    ensures
        (final(runner).session(), final(files).files(), list_outcome_of(r)) == list_run(
            old(runner).session(),
            old(files).files(),
            grove.root@,
        ),
{
    let snapshots = collect_snapshots(runner, files, grove)?;
    let class = exit_class(&snapshots);
    Ok(ListReport { class, rows: rows(&snapshots) })
}

} // verus!
