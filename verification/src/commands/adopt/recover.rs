//! Finishing an adoption that was interrupted, or undoing it.
use vstd::prelude::*;
use crate::bytes::{copied, has_prefix, lemma_views_push, lit, starts_with, views};
use crate::commands::adopt::execute::{
    cleanup_and_sync, cleanup_run, execute, execute_from, lemma_then_drawn, next_drawn,
    nothing_drawn, other_drawn, possible_phases, then_drawn, PhaseDraws, JOURNAL_CURRENT,
    JOURNAL_NEW,
};
use crate::commands::adopt::forward::{same_held, same_held_identity, site_of, Site, SiteView};
use crate::commands::adopt::journal::{
    by_signal, finish_phase, finish_run, mark_phase_reversed, progress_run,
    reconcile_after_signal, reconcile_run, reversed_run, set_progress, state_bytes, Journal,
    JournalView, Progress, PHASES,
};
use crate::commands::adopt::reverse::{
    after_run, before_run, phase_is_after, phase_is_before, reverse_phase, reverse_run,
};
use crate::error::{
    bytes_outcome, decision_error, failure, needs_decision, plain, usage, ErrorView, ExitClass,
    GroveError, Result,
};
use crate::fsx::below::held_identity_run;
use crate::fsx::files::{
    ask_facts, ask_found, do_request, done_step, facts_step, found_step, FailureView, FileRequest,
    FileSession, FileSystem, IoFailure,
};
use crate::fsx::held::FileKind;
use crate::fsx::lock::{acquire_path_run, GroveLock, LockMode};
use crate::fsx::looking::{looks, only_looked};
use crate::git::config::Outcome;
use crate::git::runner::{GitRunner, Session};
use crate::path::{child, is_same_path, join_path, join_word, same_path};
use crate::text::{decimal_nat, escape, escaped, lossy, lossy_text, number, text};

verus! {

/// An adoption that was found interrupted.
#[derive(Debug)]
pub struct Recovered {
    /// The repository's root.
    pub root: Vec<u8>,
    /// The directory of the transaction.
    pub transaction: Vec<u8>,
    pub journal: Journal,
}

pub struct RecoveredView {
    pub root: Seq<u8>,
    pub transaction: Seq<u8>,
    pub journal: JournalView,
}

impl View for Recovered {
    type V = RecoveredView;

    open spec fn view(&self) -> RecoveredView {
        RecoveredView {
            root: self.root@,
            transaction: self.transaction@,
            journal: self.journal@,
        }
    }
}

// --------------------------------------------------------------- finding the transaction

/// The names of transactions among the first `n` names in a repository's root.
pub open spec fn transactions(names: Seq<Seq<u8>>, n: int) -> Seq<Seq<u8>>
    decreases n,
{
    if n <= 0 {
        Seq::empty()
    } else {
        let before = transactions(names, n - 1);
        if starts_with(names[n - 1], lit(".grove-adopt-")) {
            before.push(names[n - 1])
        } else {
            before
        }
    }
}

/// The one transaction that there is. Of several, none is chosen.
pub open spec fn only_transaction(names: Seq<Seq<u8>>, root: Seq<u8>) -> Outcome<Seq<u8>> {
    let found = transactions(names, names.len() as int);
    if found.len() == 1 {
        Ok(found[0])
    } else if found.len() == 0 {
        Err(usage(escape(root) + " has no interrupted adoption"@))
    } else {
        Err(needs_decision(escape(root) + " has several adoption transactions"@))
    }
}

/// Finds the one transaction among the names in a repository's root.
pub fn find_transaction(names: &Vec<Vec<u8>>, root: &[u8]) -> (r: Result<Vec<u8>>)
    ensures
        bytes_outcome(r) == only_transaction(views(names@), root@),
{
    let ghost all = views(names@);
    let mut found: Vec<Vec<u8>> = Vec::new();
    let mut i: usize = 0;
    proof {
        assert(all.len() == names@.len());
        assert(views(found@) =~= transactions(all, 0));
    }
    while i < names.len()
        invariant
            i <= names.len(),
            all == views(names@),
            all.len() == names@.len(),
            views(found@) == transactions(all, i as int),
        decreases names.len() - i,
    {
        proof {
            assert(all[i as int] == names@[i as int]@);
        }
        if has_prefix(names[i].as_slice(), ".grove-adopt-".as_bytes()) {
            let ghost before = found@;
            let name = copied(names[i].as_slice());
            proof {
                lemma_views_push(before, name);
            }
            found.push(name);
        }
        i = i + 1;
    }
    proof {
        assert(views(found@).len() == found@.len());
    }
    if found.len() == 1 {
        proof {
            assert(views(found@)[0] == found@[0]@);
        }
        Ok(copied(found[0].as_slice()))
    } else if found.len() == 0 {
        Err(GroveError::usage(escaped(root).concat(" has no interrupted adoption")))
    } else {
        Err(
            GroveError::needs_decision(
                escaped(root).concat(" has several adoption transactions"),
            ),
        )
    }
}

/// An interrupted adoption, from the journal that was found. One that is about another repository
/// is for a person to decide about.
pub open spec fn found_adoption(root: Seq<u8>, transaction: Seq<u8>, j: JournalView) -> Outcome<
    RecoveredView,
> {
    if same_path(j.root.canonical, root) {
        Ok(RecoveredView { root, transaction, journal: j })
    } else {
        Err(needs_decision("the adoption journal belongs to another repository"@))
    }
}

pub open spec fn recovered_outcome(r: Result<Recovered>) -> Outcome<RecoveredView> {
    match r {
        Ok(v) => Ok(v@),
        Err(e) => Err(e@),
    }
}

impl Recovered {
    /// The interrupted adoption of a repository, from the journal in its transaction.
    pub fn found(root: &[u8], transaction: &[u8], journal: Journal) -> (r: Result<Recovered>)
        ensures
            recovered_outcome(r) == found_adoption(root@, transaction@, journal@),
    {
        if !is_same_path(journal.root.canonical_path.as_slice(), root) {
            return Err(decision_error("the adoption journal belongs to another repository"));
        }
        Ok(Recovered { root: copied(root), transaction: copied(transaction), journal })
    }
}

pub open spec fn unremoved(path: Seq<u8>, e: FailureView) -> ErrorView {
    failure("cannot remove "@ + lossy_text(path) + ": "@ + e.text)
}

fn unremoved_error(path: &[u8], e: &IoFailure) -> (r: GroveError)
    ensures
        r@ == unremoved(path@, e@),
{
    GroveError::failure(
        text("cannot remove ").concat(lossy(path).as_str()).concat(": ").concat(e.text.as_str()),
    )
}

pub open spec fn discard_run(f: FileSession, transaction: Seq<u8>) -> (FileSession, Outcome<bool>) {
    match done_step(f, FileRequest::RemoveDirectory(transaction)) {
        (f1, Err(e)) => (f1, Err(unremoved(transaction, e))),
        (f1, Ok(_)) => (f1, Ok(true)),
    }
}

/// Undoing an adoption that was interrupted before its first record was in place, as long as the
/// conversion has not begun: the transaction is removed, if it holds nothing but the record that
/// was being written. Whether that was done.
pub open spec fn torn_run(f: FileSession, root: Seq<u8>, names: Seq<Seq<u8>>) -> (
    FileSession,
    Outcome<bool>,
) {
    match only_transaction(names, root) {
        Err(_) => (f, Ok(false)),
        Ok(name) => {
            let transaction = child(root, name);
            let new = child(transaction, lit(JOURNAL_NEW));
            match found_step(
                f,
                FileRequest::Exists(child(transaction, lit(JOURNAL_CURRENT))),
            ) {
                (f1, true) => (f1, Ok(false)),
                (f1, false) => match found_step(
                    f1,
                    FileRequest::Exists(child(root, lit(".bare"))),
                ) {
                    (f2, true) => (f2, Ok(false)),
                    (f2, false) => match found_step(f2, FileRequest::Exists(new)) {
                        (f3, false) => discard_run(f3, transaction),
                        (f3, true) => match done_step(f3, FileRequest::RemoveFile(new)) {
                            (f4, Err(e)) => (f4, Err(unremoved(new, e))),
                            (f4, Ok(_)) => discard_run(f4, transaction),
                        },
                    },
                },
            }
        },
    }
}

/// Undoes an adoption that was interrupted before its first record was in place. `names` is what
/// the repository's root holds.
pub fn abort_torn_bootstrap<F: FileSystem + ?Sized>(
    files: &mut F,
    root: &[u8],
    names: &Vec<Vec<u8>>,
) -> (r: Result<bool>)
    ensures
        (final(files).files(), plain(r)) == torn_run(old(files).files(), root@, views(names@)),
{
    let name = match find_transaction(names, root) {
        Err(_) => return Ok(false),
        Ok(name) => name,
    };
    let transaction = join_path(root, name.as_slice());
    let current = join_word(transaction.as_slice(), JOURNAL_CURRENT);
    if ask_found(files, FileRequest::Exists(current)) {
        return Ok(false);
    }
    if ask_found(files, FileRequest::Exists(join_word(root, ".bare"))) {
        return Ok(false);
    }
    let new = join_word(transaction.as_slice(), JOURNAL_NEW);
    if ask_found(files, FileRequest::Exists(copied(new.as_slice()))) {
        if let Err(e) = do_request(files, FileRequest::RemoveFile(copied(new.as_slice()))) {
            return Err(unremoved_error(new.as_slice(), &e));
        }
    }
    match do_request(files, FileRequest::RemoveDirectory(copied(transaction.as_slice()))) {
        Err(e) => Err(unremoved_error(transaction.as_slice(), &e)),
        Ok(_) => Ok(true),
    }
}

/// Undoing an adoption before its first record takes nothing away but the record that was being
/// written, and the directory of its transaction, which must be empty for that.
pub proof fn torn_adoptions_lose_only_their_transaction(
    f: FileSession,
    root: Seq<u8>,
    names: Seq<Seq<u8>>,
)
    ensures
        ({
            let f1 = torn_run(f, root, names).0;
            &&& f1.script == f.script
            &&& f.calls.is_prefix_of(f1.calls)
            &&& forall|i: int|
                f.calls.len() <= i < f1.calls.len() ==> looks(#[trigger] f1.calls[i]) || (
                only_transaction(names, root) matches Ok(name) && (f1.calls[i]
                    == FileRequest::RemoveDirectory(child(root, name)) || f1.calls[i]
                    == FileRequest::RemoveFile(child(child(root, name), lit(JOURNAL_NEW)))))
        }),
{
}

// --------------------------------------------------------------------- finding the place

/// The first phase from `k` on that is not done, or the number of phases.
pub open spec fn first_pending(done: Seq<bool>, k: int) -> int
    decreases PHASES - k,
{
    if k >= PHASES {
        PHASES as int
    } else if !done[k] {
        k
    } else {
        first_pending(done, k + 1)
    }
}

fn find_pending(journal: &Journal) -> (r: usize)
    ensures
        r == first_pending(journal@.done, 0),
        r <= PHASES,
{
    let mut k: usize = 0;
    while k < PHASES
        invariant
            k <= PHASES,
            first_pending(journal@.done, 0) == first_pending(journal@.done, k as int),
        decreases PHASES - k,
    {
        if journal.pending(k) {
            return k;
        }
        k = k + 1;
    }
    k
}

pub open spec fn between(k: int) -> ErrorView {
    needs_decision(
        "adoption phase "@ + decimal_nat((k + 1) as nat)
            + " is at neither its exact before nor after state"@,
    )
}

/// Settling the phase that was interrupted: if it is through after all, that is recorded; if it
/// has not begun, nothing is. Anything between is for a person to decide about.
pub open spec fn normalize_run(f: FileSession, j: JournalView, root: Seq<u8>, transaction: Seq<u8>) -> (
    FileSession,
    JournalView,
    Outcome<()>,
) {
    let k = first_pending(j.done, 0);
    if k >= PHASES {
        (f, j, Ok(()))
    } else {
        match site_of(root, transaction, j.plan.decisions) {
            Err(e) => (f, j, Err(e)),
            Ok(x) => match after_run(f, x, j.plan, k) {
                (f1, Err(e)) => (f1, j, Err(e)),
                (f1, Ok(true)) => match finish_run(f1, transaction, j, k) {
                    (f2, Err(e), j1) => (f2, j1, Err(e)),
                    (f2, Ok(_), j1) => (f2, j1, Ok(())),
                },
                (f1, Ok(false)) => match before_run(f1, x, j.plan, k) {
                    (f2, Err(e)) => (f2, j, Err(e)),
                    (f2, Ok(true)) => (f2, j, Ok(())),
                    (f2, Ok(false)) => (f2, j, Err(between(k))),
                },
            },
        }
    }
}

fn normalize_pending_phase<F: FileSystem + ?Sized>(
    files: &mut F,
    journal: &mut Journal,
    root: &[u8],
    transaction: &[u8],
) -> (r: Result<()>)
    ensures
        (final(files).files(), final(journal)@, plain(r)) == normalize_run(
            old(files).files(),
            old(journal)@,
            root@,
            transaction@,
        ),
{
    let k: usize = find_pending(journal);
    if k >= PHASES {
        return Ok(());
    }
    let site = Site::new(root, transaction, &journal.plan.decisions)?;
    if phase_is_after(files, &site, &journal.plan, k)? {
        return finish_phase(files, journal, k, transaction);
    }
    if phase_is_before(files, &site, &journal.plan, k)? {
        return Ok(());
    }
    Err(
        GroveError::needs_decision(
            text("adoption phase ").concat(number((k + 1) as u64).as_str()).concat(
                " is at neither its exact before nor after state",
            ),
        ),
    )
}

// -------------------------------------------------------------------------------- undoing

/// Undoing the phases below `k` that are done, the last one first, each recorded once it is
/// undone; then the end of the transaction.
pub open spec fn undo_down(
    s: Session,
    f: FileSession,
    j: JournalView,
    root: Seq<u8>,
    transaction: Seq<u8>,
    k: int,
    ds: Seq<PhaseDraws>,
) -> (Session, FileSession, JournalView, Outcome<()>)
    decreases k,
{
    if k <= 0 {
        match progress_run(f, transaction, j, Progress::Aborted) {
            (f1, Err(e), j1) => (s, f1, j1, Err(e)),
            (f1, Ok(_), j1) => {
                let (f2, r) = cleanup_run(f1, transaction, root);
                (s, f2, j1, r)
            },
        }
    } else if !j.done[k - 1] {
        undo_down(s, f, j, root, transaction, k - 1, other_drawn(ds))
    } else {
        match site_of(root, transaction, j.plan.decisions) {
            Err(e) => (s, f, j, Err(e)),
            Ok(x) => match reverse_run(s, f, x, j.plan, k - 1, next_drawn(ds).file) {
                (s1, f1, Err(e)) => (s1, f1, j, Err(e)),
                (s1, f1, Ok(_)) => match reversed_run(f1, transaction, j, k - 1) {
                    (f2, Err(e), j1) => (s1, f2, j1, Err(e)),
                    (f2, Ok(_), j1) => undo_down(
                        s1,
                        f2,
                        j1,
                        root,
                        transaction,
                        k - 1,
                        other_drawn(ds),
                    ),
                },
            },
        }
    }
}

fn undo<R: GitRunner + ?Sized, F: FileSystem + ?Sized>(
    runner: &mut R,
    files: &mut F,
    journal: &mut Journal,
    root: &[u8],
    transaction: &[u8],
    k: usize,
) -> (r: (Result<()>, Ghost<Seq<PhaseDraws>>))
    requires
        k <= PHASES,
    ensures
        possible_phases(r.1@),
        (final(runner).session(), final(files).files(), final(journal)@, plain(r.0))
            == undo_down(
            old(runner).session(),
            old(files).files(),
            old(journal)@,
            root@,
            transaction@,
            k as int,
            r.1@,
        ),
    decreases k,
{
    let ghost none: Seq<PhaseDraws> = Seq::empty();
    if k == 0 {
        if let Err(e) = set_progress(files, journal, Progress::Aborted, transaction) {
            return (Err(e), Ghost(none));
        }
        return (cleanup_and_sync(files, transaction, root), Ghost(none));
    }
    if journal.pending(k - 1) {
        let (r, rest) = undo(runner, files, journal, root, transaction, k - 1);
        let ghost ds = then_drawn(nothing_drawn(), rest@);
        proof {
            lemma_then_drawn(nothing_drawn(), rest@);
        }
        return (r, Ghost(ds));
    }
    let site = match Site::new(root, transaction, &journal.plan.decisions) {
        Err(e) => return (Err(e), Ghost(none)),
        Ok(site) => site,
    };
    let (reversed, d) = reverse_phase(runner, files, &site, &journal.plan, k - 1);
    let ghost drawn = PhaseDraws { pointer: Seq::empty(), file: d@ };
    let ghost one = then_drawn(drawn, none);
    proof {
        lemma_then_drawn(drawn, none);
    }
    if let Err(e) = reversed {
        return (Err(e), Ghost(one));
    }
    if let Err(e) = mark_phase_reversed(files, journal, k - 1, transaction) {
        return (Err(e), Ghost(one));
    }
    let (r, rest) = undo(runner, files, journal, root, transaction, k - 1);
    let ghost ds = then_drawn(drawn, rest@);
    proof {
        lemma_then_drawn(drawn, rest@);
    }
    (r, Ghost(ds))
}

/// Undoing an adoption, up to where that ends.
pub open spec fn abort_inner_run(s: Session, f: FileSession, v: RecoveredView, ds: Seq<PhaseDraws>) -> (
    Session,
    FileSession,
    JournalView,
    Outcome<()>,
) {
    let j = v.journal;
    match j.progress {
        Progress::Committed => (
            s,
            f,
            j,
            Err(needs_decision("a committed adoption cannot be aborted"@)),
        ),
        Progress::Aborted => {
            let (f1, r) = cleanup_run(f, v.transaction, v.root);
            (s, f1, j, r)
        },
        Progress::Aborting => undo_down(s, f, j, v.root, v.transaction, PHASES as int, ds),
        Progress::Forward => match normalize_run(f, j, v.root, v.transaction) {
            (f1, j1, Err(e)) => (s, f1, j1, Err(e)),
            (f1, j1, Ok(_)) => match progress_run(f1, v.transaction, j1, Progress::Aborting) {
                (f2, Err(e), j2) => (s, f2, j2, Err(e)),
                (f2, Ok(_), j2) => undo_down(
                    s,
                    f2,
                    j2,
                    v.root,
                    v.transaction,
                    PHASES as int,
                    ds,
                ),
            },
        },
    }
}

fn abort_inner<R: GitRunner + ?Sized, F: FileSystem + ?Sized>(
    runner: &mut R,
    files: &mut F,
    journal: &mut Journal,
    root: &[u8],
    transaction: &[u8],
) -> (r: (Result<()>, Ghost<Seq<PhaseDraws>>))
    ensures
        possible_phases(r.1@),
        (final(runner).session(), final(files).files(), final(journal)@, plain(r.0))
            == abort_inner_run(
            old(runner).session(),
            old(files).files(),
            (RecoveredView {
                root: root@,
                transaction: transaction@,
                journal: old(journal)@,
            }),
            r.1@,
        ),
{
    let ghost none: Seq<PhaseDraws> = Seq::empty();
    match journal.progress {
        Progress::Committed => {
            return (Err(decision_error("a committed adoption cannot be aborted")), Ghost(none));
        },
        Progress::Aborted => {
            return (cleanup_and_sync(files, transaction, root), Ghost(none));
        },
        Progress::Forward => {
            if let Err(e) = normalize_pending_phase(files, journal, root, transaction) {
                return (Err(e), Ghost(none));
            }
            if let Err(e) = set_progress(files, journal, Progress::Aborting, transaction) {
                return (Err(e), Ghost(none));
            }
        },
        Progress::Aborting => {},
    }
    undo(runner, files, journal, root, transaction, PHASES)
}

/// Undoing an adoption. Where a signal ended the work and the transaction is there, the record is
/// stored once more.
pub open spec fn abort_run(s: Session, f: FileSession, v: RecoveredView, ds: Seq<PhaseDraws>) -> (
    Session,
    FileSession,
    JournalView,
    Outcome<()>,
) {
    match abort_inner_run(s, f, v, ds) {
        (s1, f1, j1, Ok(_)) => (s1, f1, j1, Ok(())),
        (s1, f1, j1, Err(e)) => match found_step(f1, FileRequest::Exists(v.transaction)) {
            (f2, false) => (s1, f2, j1, Err(e)),
            (f2, true) => match reconcile_run(f2, v.transaction, j1, e) {
                (f3, Err(e3)) => (s1, f3, j1, Err(e3)),
                (f3, Ok(_)) => (s1, f3, j1, Err(e)),
            },
        },
    }
}

/// Undoes an adoption.
pub fn abort<R: GitRunner + ?Sized, F: FileSystem + ?Sized>(
    runner: &mut R,
    files: &mut F,
    recovered: &mut Recovered,
) -> (r: Result<()>)
    ensures
        final(recovered)@.root == old(recovered)@.root,
        final(recovered)@.transaction == old(recovered)@.transaction,
        exists|ds: Seq<PhaseDraws>|
            possible_phases(ds) && (
                final(runner).session(),
                final(files).files(),
                final(recovered)@.journal,
                plain(r),
            ) == #[trigger] abort_run(
                old(runner).session(),
                old(files).files(),
                old(recovered)@,
                ds,
            ),
{
    let ghost s = runner.session();
    let ghost f = files.files();
    let ghost v = recovered@;
    let (undone, ds) = abort_inner(
        runner,
        files,
        &mut recovered.journal,
        recovered.root.as_slice(),
        recovered.transaction.as_slice(),
    );
    let r = match undone {
        Ok(_) => Ok(()),
        Err(e) => if ask_found(
            files,
            FileRequest::Exists(copied(recovered.transaction.as_slice())),
        ) {
            match reconcile_after_signal(
                files,
                &e,
                recovered.transaction.as_slice(),
                &recovered.journal,
            ) {
                Err(unsettled) => Err(unsettled),
                Ok(_) => Err(e),
            }
        } else {
            Err(e)
        },
    };
    proof {
        assert((runner.session(), files.files(), recovered@.journal, plain(r)) == abort_run(
            s,
            f,
            v,
            ds@,
        ));
    }
    r
}

/// A committed adoption is not undone: Git is not asked anything, and nothing is changed.
pub proof fn committed_adoptions_stay(s: Session, f: FileSession, v: RecoveredView, ds: Seq<PhaseDraws>)
    requires
        v.journal.progress == Progress::Committed,
    ensures
        abort_run(s, f, v, ds).0 == s,
        only_looked(f, abort_run(s, f, v, ds).1),
        abort_run(s, f, v, ds).2 == v.journal,
        abort_run(s, f, v, ds).3 is Err,
{
}

/// Undoing an adoption that a signal ends while its transaction is there has the record stored as it
/// then stands, as the last thing that is done.
pub proof fn interrupted_undoings_store_their_record(
    s: Session,
    f: FileSession,
    v: RecoveredView,
    ds: Seq<PhaseDraws>,
    e: ErrorView,
)
    requires
        by_signal(e),
        ({
            let (s1, f1, j1, r) = abort_inner_run(s, f, v, ds);
            &&& r == Err::<(), ErrorView>(e)
            &&& found_step(f1, FileRequest::Exists(v.transaction)).1
        }),
    ensures
        ({
            let (s1, f1, j, r) = abort_run(s, f, v, ds);
            &&& r is Err
            &&& f1.calls.last() == FileRequest::StoreJournal(
                v.transaction,
                j.generation,
                state_bytes(j),
            )
        }),
{
}

proof fn lemma_undone(
    s: Session,
    f: FileSession,
    j: JournalView,
    root: Seq<u8>,
    transaction: Seq<u8>,
    k: int,
    ds: Seq<PhaseDraws>,
)
    requires
        0 <= k <= PHASES,
        j.done.len() == PHASES,
        forall|i: int| k <= i < PHASES ==> !#[trigger] j.done[i],
        undo_down(s, f, j, root, transaction, k, ds).3 is Ok,
    ensures
        ({
            let end = undo_down(s, f, j, root, transaction, k, ds).2;
            &&& end.progress == Progress::Aborted
            &&& end.plan == j.plan
            &&& end.done.len() == PHASES
            &&& forall|i: int| 0 <= i < PHASES ==> !#[trigger] end.done[i]
        }),
    decreases k,
{
    if k > 0 {
        if !j.done[k - 1] {
            lemma_undone(s, f, j, root, transaction, k - 1, other_drawn(ds));
        } else {
            let x = site_of(root, transaction, j.plan.decisions)->Ok_0;
            let (s1, f1, r) = reverse_run(s, f, x, j.plan, k - 1, next_drawn(ds).file);
            let (f2, r2, j1) = reversed_run(f1, transaction, j, k - 1);
            lemma_undone(s1, f2, j1, root, transaction, k - 1, other_drawn(ds));
        }
    }
}

/// An adoption that is undone to its end has no phase left that is done, and goes by the plan it
/// began with.
pub proof fn undone_adoptions_leave_no_phase(
    s: Session,
    f: FileSession,
    v: RecoveredView,
    ds: Seq<PhaseDraws>,
)
    requires
        v.journal.done.len() == PHASES,
        v.journal.progress == Progress::Forward || v.journal.progress == Progress::Aborting,
        abort_run(s, f, v, ds).3 is Ok,
    ensures
        ({
            let end = abort_run(s, f, v, ds).2;
            &&& end.progress == Progress::Aborted
            &&& end.plan == v.journal.plan
            &&& forall|i: int| 0 <= i < PHASES ==> !#[trigger] end.done[i]
        }),
{
    if v.journal.progress == Progress::Aborting {
        lemma_undone(s, f, v.journal, v.root, v.transaction, PHASES as int, ds);
    } else {
        let (f1, j1, r1) = normalize_run(f, v.journal, v.root, v.transaction);
        let (f2, r2, j2) = progress_run(f1, v.transaction, j1, Progress::Aborting);
        assert(j1.done.len() == PHASES);
        lemma_undone(s, f2, j2, v.root, v.transaction, PHASES as int, ds);
    }
}

// ------------------------------------------------------------------------------ finishing

/// Finishing an adoption. Where a signal ended the work, the record is stored once more.
pub open spec fn resume_run(s: Session, f: FileSession, v: RecoveredView, ds: Seq<PhaseDraws>) -> (
    Session,
    FileSession,
    JournalView,
    Outcome<()>,
) {
    let j = v.journal;
    match j.progress {
        Progress::Forward => match site_of(v.root, v.transaction, j.plan.decisions) {
            Err(e) => (s, f, j, Err(e)),
            Ok(x) => match execute_from(s, f, j, x, 0, ds) {
                (s1, f1, j1, Ok(_)) => (s1, f1, j1, Ok(())),
                (s1, f1, j1, Err(e)) => match reconcile_run(f1, v.transaction, j1, e) {
                    (f2, Err(e2)) => (s1, f2, j1, Err(e2)),
                    (f2, Ok(_)) => (s1, f2, j1, Err(e)),
                },
            },
        },
        Progress::Committed => {
            let (f1, r) = cleanup_run(f, v.transaction, v.root);
            (s, f1, j, r)
        },
        _ => (
            s,
            f,
            j,
            Err(
                needs_decision("this adoption is aborting or aborted and cannot be continued"@),
            ),
        ),
    }
}

/// Finishes an adoption.
pub fn resume<R: GitRunner + ?Sized, F: FileSystem + ?Sized>(
    runner: &mut R,
    files: &mut F,
    recovered: &mut Recovered,
) -> (r: Result<()>)
    ensures
        final(recovered)@.root == old(recovered)@.root,
        final(recovered)@.transaction == old(recovered)@.transaction,
        exists|ds: Seq<PhaseDraws>|
            possible_phases(ds) && (
                final(runner).session(),
                final(files).files(),
                final(recovered)@.journal,
                plain(r),
            ) == #[trigger] resume_run(
                old(runner).session(),
                old(files).files(),
                old(recovered)@,
                ds,
            ),
{
    let ghost none: Seq<PhaseDraws> = Seq::empty();
    let ghost s = runner.session();
    let ghost f = files.files();
    let ghost v = recovered@;
    proof {
        assert(possible_phases(none));
    }
    match recovered.journal.progress {
        Progress::Forward => {
            let site = match Site::new(
                recovered.root.as_slice(),
                recovered.transaction.as_slice(),
                &recovered.journal.plan.decisions,
            ) {
                Err(e) => {
                    proof {
                        assert((s, f, v.journal, Err::<(), ErrorView>(e@)) == resume_run(
                            s,
                            f,
                            v,
                            none,
                        ));
                    }
                    return Err(e);
                },
                Ok(site) => site,
            };
            let performed = execute(runner, files, &mut recovered.journal, &site);
            let ghost ds = choose|ds: Seq<PhaseDraws>|
                possible_phases(ds) && (
                    runner.session(),
                    files.files(),
                    recovered.journal@,
                    plain(performed),
                ) == #[trigger] execute_from(s, f, v.journal, site@, 0, ds);
            let r = match performed {
                Ok(_) => Ok(()),
                Err(e) => match reconcile_after_signal(
                    files,
                    &e,
                    recovered.transaction.as_slice(),
                    &recovered.journal,
                ) {
                    Err(unsettled) => Err(unsettled),
                    Ok(_) => Err(e),
                },
            };
            proof {
                assert((runner.session(), files.files(), recovered.journal@, plain(r))
                    == resume_run(s, f, v, ds));
            }
            r
        },
        Progress::Committed => {
            let r = cleanup_and_sync(
                files,
                recovered.transaction.as_slice(),
                recovered.root.as_slice(),
            );
            proof {
                assert((s, files.files(), v.journal, plain(r)) == resume_run(s, f, v, none));
            }
            r
        },
        _ => {
            let e = decision_error("this adoption is aborting or aborted and cannot be continued");
            proof {
                assert((s, f, v.journal, Err::<(), ErrorView>(e@)) == resume_run(
                    s,
                    f,
                    v,
                    none,
                ));
            }
            Err(e)
        },
    }
}

/// Finishing an adoption that a signal ends has the record stored as it then stands, as the last
/// thing that is done.
pub proof fn interrupted_continuations_store_their_record(
    s: Session,
    f: FileSession,
    v: RecoveredView,
    ds: Seq<PhaseDraws>,
    x: SiteView,
    e: ErrorView,
)
    requires
        by_signal(e),
        v.journal.progress == Progress::Forward,
        site_of(v.root, v.transaction, v.journal.plan.decisions) == Ok::<
            SiteView,
            ErrorView,
        >(x),
        execute_from(s, f, v.journal, x, 0, ds).3 == Err::<(), ErrorView>(e),
    ensures
        ({
            let (s1, f1, j, r) = resume_run(s, f, v, ds);
            &&& r is Err
            &&& f1.calls.last() == FileRequest::StoreJournal(
                v.transaction,
                j.generation,
                state_bytes(j),
            )
        }),
{
}

/// An adoption that is being undone is not continued: nothing at all is done.
pub proof fn aborted_adoptions_are_not_continued(
    s: Session,
    f: FileSession,
    v: RecoveredView,
    ds: Seq<PhaseDraws>,
)
    requires
        v.journal.progress == Progress::Aborting || v.journal.progress == Progress::Aborted,
    ensures
        resume_run(s, f, v, ds).0 == s,
        resume_run(s, f, v, ds).1 == f,
        resume_run(s, f, v, ds).2 == v.journal,
        resume_run(s, f, v, ds).3 is Err,
{
}

// ------------------------------------------------------------------------------- recovery

pub open spec fn command_of(abort: bool) -> Seq<char> {
    if abort {
        "git grove adopt --abort"@
    } else {
        "git grove adopt --continue"@
    }
}

/// The repository that an interrupted adoption is about: the bare one, where the conversion came
/// that far.
pub open spec fn repository_run(f: FileSession, root: Seq<u8>) -> (FileSession, Seq<u8>) {
    match facts_step(f, FileRequest::Inspect(child(root, lit(".bare")))) {
        (f1, Ok(facts)) => if facts.kind == FileKind::Directory {
            (f1, child(root, lit(".bare")))
        } else {
            (f1, child(root, lit(".git")))
        },
        (f1, Err(_)) => (f1, child(root, lit(".git"))),
    }
}

/// Locking the repository of an interrupted adoption, which must be the one that the journal is
/// about.
pub open spec fn claim_run(f: FileSession, v: RecoveredView, abort: bool) -> (
    FileSession,
    Outcome<()>,
) {
    let (f1, repository) = repository_run(f, v.root);
    match acquire_path_run(f1, repository, LockMode::Exclusive, command_of(abort)) {
        (f2, Err(e)) => (f2, Err(e)),
        (f2, Ok(lock)) => match held_identity_run(f2, lock.directory.handle) {
            (f3, Err(e)) => (f3, Err(e)),
            (f3, Ok(now)) => if same_held(
                now,
                v.journal.plan.original.repository_identity,
            ) {
                (f3, Ok(()))
            } else {
                (
                    f3,
                    Err(
                        needs_decision(
                            "the recoverable Git directory no longer matches the journal"@,
                        ),
                    ),
                )
            },
        },
    }
}

/// Locks the repository of an interrupted adoption. The lock is held as long as the file system
/// keeps what it was handed open.
pub fn claim<F: FileSystem + ?Sized>(files: &mut F, recovered: &Recovered, abort: bool) -> (r: Result<()>)
    ensures
        (final(files).files(), plain(r)) == claim_run(
            old(files).files(),
            recovered@,
            abort,
        ),
{
    let root = recovered.root.as_slice();
    let bare = join_word(root, ".bare");
    let repository = match ask_facts(
        files,
        FileRequest::Inspect(join_word(root, ".bare")),
    ) {
        Ok(facts) => if facts.kind == FileKind::Directory {
            bare
        } else {
            join_word(root, ".git")
        },
        Err(_) => join_word(root, ".git"),
    };
    let command = if abort {
        "git grove adopt --abort"
    } else {
        "git grove adopt --continue"
    };
    let lock = GroveLock::acquire_path(
        files,
        repository.as_slice(),
        LockMode::Exclusive,
        command,
    )?;
    let now = lock.directory().identity(files)?;
    if !same_held_identity(&now, &recovered.journal.plan.original.repository_identity) {
        return Err(decision_error("the recoverable Git directory no longer matches the journal"));
    }
    Ok(())
}

/// Finishing or undoing an adoption that was found interrupted.
pub open spec fn recover_run(
    s: Session,
    f: FileSession,
    v: RecoveredView,
    abort: bool,
    ds: Seq<PhaseDraws>,
) -> (Session, FileSession, JournalView, Outcome<()>) {
    match claim_run(f, v, abort) {
        (f1, Err(e)) => (s, f1, v.journal, Err(e)),
        (f1, Ok(_)) => if abort {
            abort_run(s, f1, v, ds)
        } else {
            resume_run(s, f1, v, ds)
        },
    }
}

/// Finishes or undoes an adoption that was found interrupted.
pub fn recover<R: GitRunner + ?Sized, F: FileSystem + ?Sized>(
    runner: &mut R,
    files: &mut F,
    recovered: &mut Recovered,
    undoing: bool,
) -> (r: Result<()>)
    ensures
        final(recovered)@.root == old(recovered)@.root,
        final(recovered)@.transaction == old(recovered)@.transaction,
        exists|ds: Seq<PhaseDraws>|
            possible_phases(ds) && (
                final(runner).session(),
                final(files).files(),
                final(recovered)@.journal,
                plain(r),
            ) == #[trigger] recover_run(
                old(runner).session(),
                old(files).files(),
                old(recovered)@,
                undoing,
                ds,
            ),
{
    let ghost none: Seq<PhaseDraws> = Seq::empty();
    let ghost s = runner.session();
    let ghost f = files.files();
    let ghost v = recovered@;
    proof {
        assert(possible_phases(none));
    }
    if let Err(e) = claim(files, recovered, undoing) {
        proof {
            assert((s, files.files(), v.journal, Err::<(), ErrorView>(e@)) == recover_run(
                s,
                f,
                v,
                undoing,
                none,
            ));
        }
        return Err(e);
    }
    let ghost f1 = files.files();
    let r = if undoing {
        abort(runner, files, recovered)
    } else {
        resume(runner, files, recovered)
    };
    proof {
        if undoing {
            let ds = choose|ds: Seq<PhaseDraws>|
                possible_phases(ds) && (
                    runner.session(),
                    files.files(),
                    recovered@.journal,
                    plain(r),
                ) == #[trigger] abort_run(s, f1, v, ds);
            assert((runner.session(), files.files(), recovered@.journal, plain(r))
                == recover_run(s, f, v, undoing, ds));
        } else {
            let ds = choose|ds: Seq<PhaseDraws>|
                possible_phases(ds) && (
                    runner.session(),
                    files.files(),
                    recovered@.journal,
                    plain(r),
                ) == #[trigger] resume_run(s, f1, v, ds);
            assert((runner.session(), files.files(), recovered@.journal, plain(r))
                == recover_run(s, f, v, undoing, ds));
        }
    }
    r
}

proof fn lemma_transactions(names: Seq<Seq<u8>>, n: int)
    requires
        0 <= n <= names.len(),
    ensures
        forall|i: int|
            0 <= i < n && starts_with(#[trigger] names[i], lit(".grove-adopt-")) ==> transactions(
                names,
                n,
            ).contains(names[i]),
        forall|k: int|
            0 <= k < transactions(names, n).len() ==> starts_with(
                #[trigger] transactions(names, n)[k],
                lit(".grove-adopt-"),
            ) && names.contains(transactions(names, n)[k]),
    decreases n,
{
    if n > 0 {
        lemma_transactions(names, n - 1);
        let before = transactions(names, n - 1);
        let now = transactions(names, n);
        let last = names[n - 1];
        if starts_with(last, lit(".grove-adopt-")) {
            assert(now == before.push(last));
            assert(now[before.len() as int] == last);
            assert forall|i: int|
                0 <= i < n && starts_with(
                    #[trigger] names[i],
                    lit(".grove-adopt-"),
                ) implies now.contains(names[i]) by {
                if i < n - 1 {
                    assert(before.contains(names[i]));
                    let k = choose|k: int| 0 <= k < before.len() && before[k] == names[i];
                    assert(now[k] == names[i]);
                }
            }
        }
    }
}

/// The adoption that is recovered is the only one whose transaction is in the repository's root, and
/// it is about that repository.
pub proof fn the_only_adoption_is_recovered(
    names: Seq<Seq<u8>>,
    root: Seq<u8>,
    other: Seq<u8>,
    j: JournalView,
)
    ensures
        only_transaction(names, root) matches Ok(name) ==> {
            &&& names.contains(name)
            &&& starts_with(name, lit(".grove-adopt-"))
            &&& names.contains(other) && starts_with(other, lit(".grove-adopt-")) ==> other == name
            &&& found_adoption(root, child(root, name), j) is Ok <==> same_path(
                j.root.canonical,
                root,
            )
        },
        only_transaction(names, root) is Err && !(exists|i: int|
            0 <= i < names.len() && starts_with(#[trigger] names[i], lit(".grove-adopt-")))
            ==> only_transaction(names, root)->Err_0.class == ExitClass::Usage,
{
    let found = transactions(names, names.len() as int);
    lemma_transactions(names, names.len() as int);
    if only_transaction(names, root) is Ok {
        assert(found[0] == only_transaction(names, root)->Ok_0);
        if names.contains(other) && starts_with(other, lit(".grove-adopt-")) {
            let i = choose|i: int| 0 <= i < names.len() && names[i] == other;
            assert(found.contains(names[i]));
        }
    } else if found.len() > 0 {
        assert(starts_with(found[0], lit(".grove-adopt-")));
        let i = choose|i: int| 0 <= i < names.len() && names[i] == found[0];
        assert(starts_with(names[i], lit(".grove-adopt-")));
    }
}

/// An interrupted adoption that is to be undone is undone at the end, and one that is to be finished
/// is committed; neither turns into the other.
pub proof fn recoveries_end_as_they_were_asked_to(
    s: Session,
    f: FileSession,
    v: RecoveredView,
    abort: bool,
    ds: Seq<PhaseDraws>,
)
    requires
        v.journal.done.len() == PHASES,
        recover_run(s, f, v, abort, ds).3 is Ok,
    ensures
        abort ==> recover_run(s, f, v, abort, ds).2.progress == Progress::Aborted,
        !abort ==> recover_run(s, f, v, abort, ds).2.progress == Progress::Committed,
        recover_run(s, f, v, abort, ds).2.plan == v.journal.plan,
{
    let f1 = claim_run(f, v, abort).0;
    let j = v.journal;
    if abort {
        if j.progress == Progress::Forward || j.progress == Progress::Aborting {
            undone_adoptions_leave_no_phase(s, f1, v, ds);
        }
    } else if j.progress == Progress::Forward {
        let x = site_of(v.root, v.transaction, j.plan.decisions)->Ok_0;
        crate::commands::adopt::execute::complete_adoptions_are_committed(s, f1, j, x, 0, ds);
    }
}

} // verus!
