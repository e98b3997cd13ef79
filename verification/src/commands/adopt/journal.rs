//! How far an adoption is, recorded durably before each step that follows.
use vstd::prelude::*;
use crate::bytes::{copied, lit, opt_view};
use crate::commands::adopt::evidence::{
    git_views, named_views, sha256, sha256_of, AdoptDecisionsProof, DecisionsView, GitEntry,
    HeadProof, HeadView, NamedBlobProof, NamedView, OriginalEvidence, OriginalView,
};
use crate::commands::adopt::preflight::{
    AdoptArgumentsProof, ArgumentsView, RootProof, RootView,
};
use crate::error::{failure, failure_error, plain, ErrorView, GroveError, Result};
use crate::fsx::files::{settle, settled_step, FileRequest, FileSession, FileSystem};
use crate::fsx::held::{checked_path, FileIdentity, ValidatedRelativePath};
use crate::git::config::Outcome;
use crate::path::{child, join_path, join_word, joined_names};

verus! {

/// The number of phases that an adoption goes through.
pub const PHASES: usize = 8;

/// The course of an adoption.
#[derive(Clone, Copy, Debug, PartialEq, Eq, Structural)]
pub enum Progress {
    Forward,
    Committed,
    Aborting,
    Aborted,
}

/// A file that will be created.
#[derive(Debug)]
pub struct CreatedFile {
    pub path: Vec<u8>,
    pub mode: u32,
    pub mount_id: u64,
    pub sha256: Vec<u8>,
}

pub struct CreatedView {
    pub path: Seq<u8>,
    pub mode: u32,
    pub mount_id: u64,
    pub sha256: Seq<u8>,
}

impl View for CreatedFile {
    type V = CreatedView;

    open spec fn view(&self) -> CreatedView {
        CreatedView {
            path: self.path@,
            mode: self.mode,
            mount_id: self.mount_id,
            sha256: self.sha256@,
        }
    }
}

/// A worktree that there will be.
#[derive(Debug)]
pub struct WorktreeProof {
    pub path: Vec<u8>,
    pub head: HeadProof,
}

pub struct WorktreeProofView {
    pub path: Seq<u8>,
    pub head: HeadView,
}

impl View for WorktreeProof {
    type V = WorktreeProofView;

    open spec fn view(&self) -> WorktreeProofView {
        WorktreeProofView { path: self.path@, head: self.head@ }
    }
}

/// What the repository will be like. The state of the files and the index will be what it was.
#[derive(Debug)]
pub struct FinalEvidence {
    pub pointer: CreatedFile,
    pub payload: WorktreeProof,
    pub default: Option<WorktreeProof>,
    /// The files that hold refs, below the bare repository.
    pub refs: Vec<GitEntry>,
}

pub struct FinalView {
    pub pointer: CreatedView,
    pub payload: WorktreeProofView,
    pub default: Option<WorktreeProofView>,
    pub refs: Seq<(Seq<u8>, FileIdentity)>,
}

pub open spec fn opt_worktree(w: Option<WorktreeProof>) -> Option<WorktreeProofView> {
    match w {
        None => None,
        Some(w) => Some(w@),
    }
}

impl View for FinalEvidence {
    type V = FinalView;

    open spec fn view(&self) -> FinalView {
        FinalView {
            pointer: self.pointer@,
            payload: self.payload@,
            default: opt_worktree(self.default),
            refs: git_views(self.refs@),
        }
    }
}

/// What an adoption goes by. It never changes once the adoption has begun.
#[derive(Debug)]
pub struct ImmutablePlan {
    pub arguments: AdoptArgumentsProof,
    pub decisions: AdoptDecisionsProof,
    pub original: OriginalEvidence,
    pub expected_final: FinalEvidence,
}

pub struct PlanView {
    pub arguments: ArgumentsView,
    pub decisions: DecisionsView,
    pub original: OriginalView,
    pub expected: FinalView,
}

impl View for ImmutablePlan {
    type V = PlanView;

    open spec fn view(&self) -> PlanView {
        PlanView {
            arguments: self.arguments@,
            decisions: self.decisions@,
            original: self.original@,
            expected: self.expected_final@,
        }
    }
}

pub open spec fn immutable_outcome(r: Result<ImmutablePlan>) -> Outcome<PlanView> {
    match r {
        Ok(p) => Ok(p@),
        Err(e) => Err(e@),
    }
}

/// The files that hold refs, by path and identity.
pub open spec fn ref_list(refs: Seq<NamedView>) -> Seq<(Seq<u8>, FileIdentity)> {
    refs.map_values(|n: NamedView| (n.path, n.blob.identity))
}

/// What a repository will be like once it is adopted.
pub open spec fn expected_of(
    root: Seq<u8>,
    mount_id: u64,
    decisions: DecisionsView,
    original: OriginalView,
    payload: Seq<u8>,
    default: Option<Seq<u8>>,
    pointer: Seq<u8>,
    pointer_path: Seq<u8>,
) -> FinalView {
    FinalView {
        pointer: CreatedView {
            path: pointer_path,
            mode: 0x1a4,
            mount_id,
            sha256: sha256_of(pointer),
        },
        payload: WorktreeProofView { path: child(root, payload), head: decisions.payload_head },
        default: match default {
            None => None,
            Some(d) => Some(
                WorktreeProofView {
                    path: child(root, d),
                    head: HeadView::Attached { branch: decisions.default_branch },
                },
            ),
        },
        refs: ref_list(original.refs),
    }
}

/// Putting together what an adoption goes by.
pub open spec fn immutable_of(
    root: Seq<u8>,
    mount_id: u64,
    arguments: ArgumentsView,
    decisions: DecisionsView,
    original: OriginalView,
    payload: Seq<u8>,
    default: Option<Seq<u8>>,
    pointer: Seq<u8>,
) -> Outcome<PlanView> {
    match checked_path(child(payload, lit(".git"))) {
        Err(e) => Err(e),
        Ok(names) => Ok(
            PlanView {
                arguments,
                decisions,
                original,
                expected: expected_of(
                    root,
                    mount_id,
                    decisions,
                    original,
                    payload,
                    default,
                    pointer,
                    joined_names(names),
                ),
            },
        ),
    }
}

fn ref_entries(refs: &Vec<NamedBlobProof>) -> (r: Vec<GitEntry>)
    ensures
        git_views(r@) == ref_list(named_views(refs@)),
{
    let ghost all = ref_list(named_views(refs@));
    let mut out: Vec<GitEntry> = Vec::new();
    let mut i: usize = 0;
    proof {
        assert(git_views(out@) =~= all.subrange(0, 0));
    }
    while i < refs.len()
        invariant
            i <= refs.len(),
            all == ref_list(named_views(refs@)),
            all.len() == refs@.len(),
            git_views(out@) == all.subrange(0, i as int),
        decreases refs.len() - i,
    {
        broadcast use crate::commands::adopt::evidence::lemma_git_views_push;

        out.push((copied(refs[i].path.as_slice()), refs[i].blob.identity));
        proof {
            assert(all[i as int] == (refs@[i as int].path@, refs@[i as int].blob.identity));
            assert(all.subrange(0, i + 1) =~= all.subrange(0, i as int).push(all[i as int]));
        }
        i = i + 1;
    }
    proof {
        assert(all.subrange(0, i as int) =~= all);
    }
    out
}

fn copied_head(head: &HeadProof) -> (r: HeadProof)
    ensures
        r@ == head@,
{
    match head {
        HeadProof::Attached { branch } => HeadProof::Attached { branch: copied(branch.as_slice()) },
        HeadProof::Detached { oid } => HeadProof::Detached { oid: copied(oid.as_slice()) },
    }
}

/// Puts together what an adoption goes by.
pub fn immutable_plan(
    root: &[u8],
    mount_id: u64,
    arguments: AdoptArgumentsProof,
    decisions: AdoptDecisionsProof,
    original: OriginalEvidence,
    payload: &[u8],
    default: &Option<Vec<u8>>,
    pointer: &[u8],
) -> (r: Result<ImmutablePlan>)
    ensures
        immutable_outcome(r) == immutable_of(
            root@,
            mount_id,
            arguments@,
            decisions@,
            original@,
            payload@,
            opt_view(*default),
            pointer@,
        ),
{
    let pointer_path = ValidatedRelativePath::new(join_word(payload, ".git").as_slice())?;
    let second = match default {
        None => None,
        Some(d) => Some(
            WorktreeProof {
                path: join_path(root, d.as_slice()),
                head: HeadProof::Attached { branch: copied(decisions.default_branch.as_slice()) },
            },
        ),
    };
    let expected_final = FinalEvidence {
        pointer: CreatedFile {
            path: copied(pointer_path.as_path()),
            mode: 0x1a4,
            mount_id,
            sha256: sha256(pointer),
        },
        payload: WorktreeProof {
            path: join_path(root, payload),
            head: copied_head(&decisions.payload_head),
        },
        default: second,
        refs: ref_entries(&original.refs),
    };
    Ok(ImmutablePlan { arguments, decisions, original, expected_final })
}

// ------------------------------------------------------------------------ the journal

/// The record of an adoption: what it goes by, which phases are done, and its course.
#[derive(Debug)]
pub struct Journal {
    pub generation: u64,
    pub nonce: Vec<u8>,
    pub root: RootProof,
    pub plan: ImmutablePlan,
    pub done: [bool; 8],
    pub progress: Progress,
}

pub struct JournalView {
    pub generation: u64,
    pub nonce: Seq<u8>,
    pub root: RootView,
    pub plan: PlanView,
    pub done: Seq<bool>,
    pub progress: Progress,
}

impl View for Journal {
    type V = JournalView;

    open spec fn view(&self) -> JournalView {
        JournalView {
            generation: self.generation,
            nonce: self.nonce@,
            root: self.root@,
            plan: self.plan@,
            done: self.done@,
            progress: self.progress,
        }
    }
}

pub open spec fn progress_byte(p: Progress) -> u8 {
    match p {
        Progress::Forward => 0,
        Progress::Committed => 1,
        Progress::Aborting => 2,
        Progress::Aborted => 3,
    }
}

/// What changes from one generation to the next: a byte for each phase, and one for the course.
pub open spec fn state_bytes(j: JournalView) -> Seq<u8> {
    Seq::new(j.done.len(), |i: int| if j.done[i] { 1u8 } else { 0u8 }).push(
        progress_byte(j.progress),
    )
}

/// Two records that are stored under the same bytes have the same phases done, and the same
/// course.
pub proof fn stored_states_tell_everything(a: JournalView, b: JournalView)
    requires
        a.done.len() == b.done.len(),
        state_bytes(a) == state_bytes(b),
    ensures
        a.done == b.done,
        a.progress == b.progress,
{
    let n = a.done.len() as int;
    let sa = state_bytes(a);
    let sb = state_bytes(b);
    assert(sa[n] == progress_byte(a.progress));
    assert(sb[n] == progress_byte(b.progress));
    assert forall|i: int| 0 <= i < n implies a.done[i] == b.done[i] by {
        assert(sa[i] == if a.done[i] { 1u8 } else { 0u8 });
        assert(sb[i] == if b.done[i] { 1u8 } else { 0u8 });
    }
    assert(a.done =~= b.done);
}

/// The course that a byte stands for.
pub open spec fn progress_of(b: u8) -> Option<Progress> {
    if b == 0 {
        Some(Progress::Forward)
    } else if b == 1 {
        Some(Progress::Committed)
    } else if b == 2 {
        Some(Progress::Aborting)
    } else if b == 3 {
        Some(Progress::Aborted)
    } else {
        None
    }
}

/// What a stored state says, where it is one.
pub open spec fn state_in(state: Seq<u8>) -> Option<(Seq<bool>, Progress)> {
    if state.len() != PHASES + 1 {
        None
    } else {
        match progress_of(state[PHASES as int]) {
            None => None,
            Some(progress) => Some((Seq::new(PHASES as nat, |i: int| state[i] != 0), progress)),
        }
    }
}

pub open spec fn state_view(r: Option<([bool; 8], Progress)>) -> Option<(Seq<bool>, Progress)> {
    match r {
        Some(pair) => Some((pair.0@, pair.1)),
        None => None,
    }
}

/// Reads a stored state.
pub fn parse_state(state: &[u8]) -> (r: Option<([bool; 8], Progress)>)
    ensures
        state_view(r) == state_in(state@),
{
    if state.len() != PHASES + 1 {
        return None;
    }
    let progress = match state[PHASES] {
        0 => Progress::Forward,
        1 => Progress::Committed,
        2 => Progress::Aborting,
        3 => Progress::Aborted,
        _ => return None,
    };
    let done: [bool; 8] = [
        state[0] != 0,
        state[1] != 0,
        state[2] != 0,
        state[3] != 0,
        state[4] != 0,
        state[5] != 0,
        state[6] != 0,
        state[7] != 0,
    ];
    proof {
        assert(done@ =~= Seq::new(PHASES as nat, |i: int| state@[i] != 0));
    }
    Some((done, progress))
}

/// A state that was stored is read back as it was.
pub proof fn stored_states_read_back(j: JournalView)
    requires
        j.done.len() == PHASES,
    ensures
        state_in(state_bytes(j)) == Some((j.done, j.progress)),
{
    let state = state_bytes(j);
    assert(state.len() == PHASES + 1);
    assert(state[PHASES as int] == progress_byte(j.progress));
    assert(Seq::new(PHASES as nat, |i: int| state[i] != 0) =~= j.done);
}

impl Journal {
    fn state(&self) -> (r: Vec<u8>)
        ensures
            r@ == state_bytes(self@),
    {
        let mut out: Vec<u8> = Vec::new();
        let mut i: usize = 0;
        while i < 8
            invariant
                i <= 8,
                out@ =~= Seq::new(i as nat, |k: int| if self.done@[k] { 1u8 } else { 0u8 }),
            decreases 8 - i,
        {
            out.push(
                if self.done[i] {
                    1
                } else {
                    0
                },
            );
            i = i + 1;
        }
        out.push(
            match self.progress {
                Progress::Forward => 0,
                Progress::Committed => 1,
                Progress::Aborting => 2,
                Progress::Aborted => 3,
            },
        );
        proof {
            assert(out@ =~= state_bytes(self@));
        }
        out
    }

    /// Whether a phase is yet to be done.
    pub fn pending(&self, index: usize) -> (r: bool)
        requires
            index < PHASES,
        ensures
            r == !self@.done[index as int],
    {
        !self.done[index]
    }
}

/// Storing a record.
pub open spec fn store_run(f: FileSession, transaction: Seq<u8>, j: JournalView) -> (
    FileSession,
    Outcome<()>,
) {
    settled_step(f, FileRequest::StoreJournal(transaction, j.generation, state_bytes(j)))
}

/// Stores a record durably, in place of the one before it.
pub fn durable_replace<F: FileSystem + ?Sized>(files: &mut F, transaction: &[u8], journal: &Journal) -> (r:
    Result<()>)
    ensures
        (final(files).files(), plain(r)) == store_run(
            old(files).files(),
            transaction@,
            journal@,
        ),
{
    settle(
        files,
        FileRequest::StoreJournal(copied(transaction), journal.generation, journal.state()),
    )
}

/// Whether a signal ended the work: a hang-up, an interrupt or a termination.
pub open spec fn by_signal(e: ErrorView) -> bool {
    e.exit_code == Some(129u8) || e.exit_code == Some(130u8) || e.exit_code == Some(143u8)
}

/// Storing the record as it stands, where a signal ended the work.
pub open spec fn reconcile_run(f: FileSession, transaction: Seq<u8>, j: JournalView, e: ErrorView) -> (
    FileSession,
    Outcome<()>,
) {
    if by_signal(e) {
        store_run(f, transaction, j)
    } else {
        (f, Ok(()))
    }
}

/// Stores the record as it stands, if a signal ended the work.
pub fn reconcile_after_signal<F: FileSystem + ?Sized>(
    files: &mut F,
    error: &GroveError,
    transaction: &[u8],
    journal: &Journal,
) -> (r: Result<()>)
    ensures
        (final(files).files(), plain(r)) == reconcile_run(
            old(files).files(),
            transaction@,
            journal@,
            error@,
        ),
{
    match error.exit_code {
        Some(code) => if code == 129 || code == 130 || code == 143 {
            durable_replace(files, transaction, journal)
        } else {
            Ok(())
        },
        None => Ok(()),
    }
}

pub open spec fn exhausted() -> ErrorView {
    failure("the adoption journal has no generation left"@)
}

/// Going on to the next generation. The record is stored before anything relies on it: if it
/// cannot be stored, the one before it stands.
pub open spec fn advance_run(
    f: FileSession,
    transaction: Seq<u8>,
    j: JournalView,
    done: Seq<bool>,
    progress: Progress,
) -> (FileSession, Outcome<()>, JournalView) {
    if j.generation == u64::MAX {
        (f, Err(exhausted()), j)
    } else {
        let next = JournalView {
            generation: (j.generation + 1) as u64,
            done,
            progress,
            ..j
        };
        match store_run(f, transaction, next) {
            (f1, Err(e)) => (f1, Err(e), j),
            (f1, Ok(_)) => (f1, Ok(()), next),
        }
    }
}

/// Each generation follows the one before it, and goes by the same plan.
pub proof fn generations_follow_one_another(
    f: FileSession,
    transaction: Seq<u8>,
    j: JournalView,
    done: Seq<bool>,
    progress: Progress,
)
    ensures
        ({
            let (f1, r, next) = advance_run(f, transaction, j, done, progress);
            &&& next.plan == j.plan
            &&& next.nonce == j.nonce
            &&& r is Ok ==> next.generation == j.generation + 1
            &&& r is Err ==> next == j
        }),
{
}

/// Recording that a phase is done.
pub open spec fn finish_run(f: FileSession, transaction: Seq<u8>, j: JournalView, index: int) -> (
    FileSession,
    Outcome<()>,
    JournalView,
) {
    advance_run(f, transaction, j, j.done.update(index, true), j.progress)
}

/// Recording that a phase is undone.
pub open spec fn reversed_run(f: FileSession, transaction: Seq<u8>, j: JournalView, index: int) -> (
    FileSession,
    Outcome<()>,
    JournalView,
) {
    advance_run(f, transaction, j, j.done.update(index, false), j.progress)
}

/// Recording another course.
pub open spec fn progress_run(
    f: FileSession,
    transaction: Seq<u8>,
    j: JournalView,
    progress: Progress,
) -> (FileSession, Outcome<()>, JournalView) {
    advance_run(f, transaction, j, j.done, progress)
}

fn advance<F: FileSystem + ?Sized>(
    files: &mut F,
    journal: &mut Journal,
    transaction: &[u8],
    done: [bool; 8],
    progress: Progress,
) -> (r: Result<()>)
    ensures
        (final(files).files(), plain(r), final(journal)@) == advance_run(
            old(files).files(),
            transaction@,
            old(journal)@,
            done@,
            progress,
        ),
{
    if journal.generation == u64::MAX {
        return Err(failure_error("the adoption journal has no generation left"));
    }
    let before = journal.done;
    let course = journal.progress;
    journal.generation = journal.generation + 1;
    journal.done = done;
    journal.progress = progress;
    match durable_replace(files, transaction, journal) {
        Err(e) => {
            journal.generation = journal.generation - 1;
            journal.done = before;
            journal.progress = course;
            Err(e)
        },
        Ok(_) => Ok(()),
    }
}

/// Records that a phase is done.
pub fn finish_phase<F: FileSystem + ?Sized>(
    files: &mut F,
    journal: &mut Journal,
    index: usize,
    transaction: &[u8],
) -> (r: Result<()>)
    requires
        index < PHASES,
    ensures
        (final(files).files(), plain(r), final(journal)@) == finish_run(
            old(files).files(),
            transaction@,
            old(journal)@,
            index as int,
        ),
{
    let mut done = journal.done;
    done[index] = true;
    let progress = journal.progress;
    advance(files, journal, transaction, done, progress)
}

/// Records that a phase is undone.
pub fn mark_phase_reversed<F: FileSystem + ?Sized>(
    files: &mut F,
    journal: &mut Journal,
    index: usize,
    transaction: &[u8],
) -> (r: Result<()>)
    requires
        index < PHASES,
    ensures
        (final(files).files(), plain(r), final(journal)@) == reversed_run(
            old(files).files(),
            transaction@,
            old(journal)@,
            index as int,
        ),
{
    let mut done = journal.done;
    done[index] = false;
    let progress = journal.progress;
    advance(files, journal, transaction, done, progress)
}

/// Records another course.
pub fn set_progress<F: FileSystem + ?Sized>(
    files: &mut F,
    journal: &mut Journal,
    progress: Progress,
    transaction: &[u8],
) -> (r: Result<()>)
    ensures
        (final(files).files(), plain(r), final(journal)@) == progress_run(
            old(files).files(),
            transaction@,
            old(journal)@,
            progress,
        ),
{
    let done = journal.done;
    advance(files, journal, transaction, done, progress)
}

} // verus!
