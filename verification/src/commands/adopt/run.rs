//! A new adoption, from the request to the report.
use vstd::prelude::*;
use vstd::utf8::encode_utf8;
use crate::bytes::{bytes_of, copied, lemma_views_push, views};
use crate::commands::adopt::args::{AdoptArgs, ArgsView};
use crate::commands::adopt::execute::{
    execute, execute_from, next_drawn, other_drawn, phase_run, possible_phases, PhaseDraws,
};
use crate::commands::adopt::forward::{reason_of, site_of, site_outcome, Site, SiteView};
use crate::commands::adopt::journal::{
    by_signal, durable_replace, finish_run, immutable_of, immutable_plan, reconcile_after_signal,
    reconcile_run, state_bytes, store_run, Journal, JournalView, PlanView, Progress, PHASES,
};
use crate::commands::adopt::preflight::{plan, plan_run, AdoptPlan, AdoptView, RootView};
use crate::error::{
    decision_error, detailed, exit_status, failure, needs_decision, plain, ErrorView, GroveError,
    Result,
};
use crate::fsx::directory::{open_run, HeldDirectory, HeldView};
use crate::fsx::files::{
    ask_found, do_request, done_step, found_step, FileRequest, FileSession, FileSystem,
};
use crate::fsx::nonce::random_bytes;
use crate::git::config::Outcome;
use crate::git::runner::{GitRunner, Session};
use crate::grove::layout::{relative_place, validate_relative_worktree_path};
use crate::path::{child, join_path};
use crate::text::{escape, escaped, hex, hex_text, lemma_texts_push, text, texts};

verus! {

broadcast use {lemma_views_push, lemma_texts_push};

/// What drawing the sixteen bytes that an adoption goes by can give: the bytes, or why there are
/// none.
pub type AdoptionNonce = std::result::Result<Seq<u8>, Seq<char>>;

pub open spec fn possible_adoption(n: AdoptionNonce) -> bool {
    match n {
        Ok(b) => b.len() == 16,
        Err(_) => true,
    }
}

/// The name of the directory that an adoption keeps its journal in.
pub open spec fn transaction_name(nonce: Seq<u8>) -> Seq<u8> {
    encode_utf8(".grove-adopt-"@ + hex_text(nonce))
}

/// An adoption whose transaction is open, and which has changed nothing else yet.
#[derive(Debug)]
pub struct Begun {
    pub root: HeldDirectory,
    pub transaction: HeldDirectory,
    pub site: Site,
    pub journal: Journal,
    /// Files at the top of the Git directory that stay with the repository without being known.
    pub retained: Vec<Vec<u8>>,
}

pub struct BegunView {
    pub root: HeldView,
    pub transaction: HeldView,
    pub site: SiteView,
    pub journal: JournalView,
    pub retained: Seq<Seq<u8>>,
}

impl View for Begun {
    type V = BegunView;

    open spec fn view(&self) -> BegunView {
        BegunView {
            root: self.root@,
            transaction: self.transaction@,
            site: self.site@,
            journal: self.journal@,
            retained: views(self.retained@),
        }
    }
}

pub open spec fn begun_outcome(r: Result<Begun>) -> Outcome<BegunView> {
    match r {
        Ok(b) => Ok(b@),
        Err(e) => Err(e@),
    }
}

// ------------------------------------------------------------------------- the places

/// Whether the worktrees may have the places that were decided on.
pub open spec fn places_checked(payload: Seq<u8>, default: Option<Seq<u8>>) -> Outcome<()> {
    match relative_place(payload) {
        Err(e) => Err(e),
        Ok(_) => match default {
            None => Ok(()),
            Some(d) => match relative_place(d) {
                Err(e) => Err(e),
                Ok(_) => Ok(()),
            },
        },
    }
}

fn validate_layout_destinations(site: &Site) -> (r: Result<()>)
    ensures
        plain(r) == places_checked(site@.payload, site@.default),
{
    let _ = validate_relative_worktree_path(site.payload.as_slice())?;
    match &site.default {
        None => Ok(()),
        Some(d) => {
            let _ = validate_relative_worktree_path(d.as_slice())?;
            Ok(())
        },
    }
}

/// Where a planned adoption takes place, once its transaction has a name. The places of the
/// worktrees are checked before anything is drawn.
pub open spec fn placed(p: AdoptView) -> Outcome<SiteView> {
    match site_of(p.root.named, p.root.named, p.decisions) {
        Err(e) => Err(e),
        Ok(x) => match places_checked(x.payload, x.default) {
            Err(e) => Err(e),
            Ok(_) => Ok(x),
        },
    }
}

fn place(plan: &AdoptPlan) -> (r: Result<Site>)
    ensures
        site_outcome(r) == placed(plan@),
{
    let site = Site::new(plan.root.path(), plan.root.path(), &plan.decisions)?;
    validate_layout_destinations(&site)?;
    Ok(site)
}

// --------------------------------------------------------------------- the transaction

/// Opening a transaction: its directory is made in the held root, durably, and held.
pub open spec fn transaction_run(f: FileSession, root: HeldView, name: Seq<u8>) -> (
    FileSession,
    Outcome<HeldView>,
) {
    match done_step(f, FileRequest::MakeDirectoryAt(root.handle, name, 0x1c0)) {
        (f1, Err(e)) => (f1, Err(failure("cannot create adoption transaction: "@ + e.text))),
        (f1, Ok(_)) => match done_step(f1, FileRequest::Sync(root.handle)) {
            (f2, Err(e)) => (
                f2,
                Err(
                    failure(
                        "cannot fsync repository root after transaction creation: "@ + e.text,
                    ),
                ),
            ),
            (f2, Ok(_)) => open_run(f2, child(root.named, name)),
        },
    }
}

fn open_transaction<F: FileSystem + ?Sized>(files: &mut F, root: &HeldDirectory, name: &[u8]) -> (r:
    Result<HeldDirectory>)
    ensures
        (final(files).files(), crate::fsx::directory::held_outcome(r)) == transaction_run(
            old(files).files(),
            root@,
            name@,
        ),
{
    if let Err(e) = do_request(
        files,
        FileRequest::MakeDirectoryAt(root.handle, copied(name), 0x1c0),
    ) {
        return Err(
            GroveError::failure(
                text("cannot create adoption transaction: ").concat(e.text.as_str()),
            ),
        );
    }
    if let Err(e) = do_request(files, FileRequest::Sync(root.handle)) {
        return Err(
            GroveError::failure(
                text("cannot fsync repository root after transaction creation: ").concat(
                    e.text.as_str(),
                ),
            ),
        );
    }
    HeldDirectory::open(files, join_path(root.path(), name).as_slice())
}

/// The first record of an adoption.
pub open spec fn first_record(nonce: Seq<u8>, root: RootView, p: PlanView) -> JournalView {
    JournalView {
        generation: 1,
        nonce,
        root,
        plan: p,
        done: Seq::new(8, |i: int| false),
        progress: Progress::Forward,
    }
}

/// Opening the transaction of a planned adoption, under the bytes that were drawn for it.
pub open spec fn open_adoption_run(f: FileSession, p: AdoptView, x: SiteView, nonce: Seq<u8>) -> (
    FileSession,
    Outcome<BegunView>,
) {
    match transaction_run(f, p.root, transaction_name(nonce)) {
        (f1, Err(e)) => (f1, Err(e)),
        (f1, Ok(transaction)) => match found_step(f1, FileRequest::Exists(x.admin)) {
            (f2, true) => (
                f2,
                Err(
                    needs_decision(
                        "the predicted payload administrative directory already exists"@,
                    ),
                ),
            ),
            (f2, false) => match immutable_of(
                p.root.named,
                p.root.identity.mount_id,
                p.arguments,
                p.decisions,
                p.original,
                x.payload,
                x.default,
                x.pointer,
            ) {
                Err(e) => (f2, Err(e)),
                Ok(immutable) => (
                    f2,
                    Ok(
                        BegunView {
                            root: p.root,
                            transaction,
                            site: SiteView { transaction: transaction.named, ..x },
                            journal: first_record(nonce, p.proven, immutable),
                            retained: p.retained,
                        },
                    ),
                ),
            },
        },
    }
}

fn open_adoption<F: FileSystem + ?Sized>(
    files: &mut F,
    plan: AdoptPlan,
    site: Site,
    nonce: &[u8],
) -> (r: Result<Begun>)
    ensures
        (final(files).files(), begun_outcome(r)) == open_adoption_run(
            old(files).files(),
            plan@,
            site@,
            nonce@,
        ),
{
    let name = bytes_of(text(".grove-adopt-").concat(hex(nonce).as_str()).as_str());
    let transaction = open_transaction(files, &plan.root, name.as_slice())?;
    if ask_found(files, FileRequest::Exists(copied(site.admin.as_slice()))) {
        return Err(
            decision_error("the predicted payload administrative directory already exists"),
        );
    }
    let immutable = immutable_plan(
        plan.root.path(),
        plan.root.original_identity().mount_id,
        plan.arguments,
        plan.decisions,
        plan.original,
        site.payload.as_slice(),
        &site.default,
        site.pointer.as_slice(),
    )?;
    let journal = Journal {
        generation: 1,
        nonce: copied(nonce),
        root: plan.root_proof,
        plan: immutable,
        done: [false, false, false, false, false, false, false, false],
        progress: Progress::Forward,
    };
    proof {
        assert(journal.done@ =~= Seq::new(8, |i: int| false));
    }
    let at = copied(transaction.path());
    Ok(
        Begun {
            root: plan.root,
            transaction,
            site: Site {
                root: site.root,
                transaction: at,
                payload: site.payload,
                default: site.default,
                pointer: site.pointer,
                admin: site.admin,
            },
            journal,
            retained: plan.retained_shared_fallthrough,
        },
    )
}

/// Beginning an adoption: everything is looked at first; then a transaction is opened.
pub open spec fn begin_run(
    s: Session,
    f: FileSession,
    a: ArgsView,
    cwd: Seq<u8>,
    nonce: AdoptionNonce,
) -> (Session, FileSession, Outcome<BegunView>) {
    match plan_run(s, f, a, cwd) {
        (s1, f1, Err(e)) => (s1, f1, Err(e)),
        (s1, f1, Ok(p)) => match placed(p) {
            Err(e) => (s1, f1, Err(e)),
            Ok(x) => match nonce {
                Err(why) => (
                    s1,
                    f1,
                    Err(failure("cannot generate adoption nonce: "@ + why)),
                ),
                Ok(bytes) => {
                    let (f2, r) = open_adoption_run(f1, p, x, bytes);
                    (s1, f2, r)
                },
            },
        },
    }
}

/// Begins an adoption.
#[verifier::rlimit(40)]
pub fn begin<R: GitRunner + ?Sized, F: FileSystem + ?Sized>(
    runner: &mut R,
    files: &mut F,
    args: &AdoptArgs,
    cwd: &[u8],
) -> (r: Result<Begun>)
    ensures
        exists|nonce: AdoptionNonce|
            possible_adoption(nonce) && (
                final(runner).session(),
                final(files).files(),
                begun_outcome(r),
            ) == #[trigger] begin_run(
                old(runner).session(),
                old(files).files(),
                args@,
                cwd@,
                nonce,
            ),
{
    let ghost s = runner.session();
    let ghost f = files.files();
    let ghost none: AdoptionNonce = Err(Seq::empty());
    proof {
        assert(possible_adoption(none));
    }
    let planned = match plan(runner, files, args, cwd) {
        Err(e) => {
            proof {
                assert((runner.session(), files.files(), Err::<BegunView, ErrorView>(e@))
                    == begin_run(s, f, args@, cwd@, none));
            }
            return Err(e);
        },
        Ok(planned) => planned,
    };
    let site = match place(&planned) {
        Err(e) => {
            proof {
                assert((runner.session(), files.files(), Err::<BegunView, ErrorView>(e@))
                    == begin_run(s, f, args@, cwd@, none));
            }
            return Err(e);
        },
        Ok(site) => site,
    };
    let nonce = match random_bytes() {
        Err(why) => {
            let e = GroveError::failure(
                text("cannot generate adoption nonce: ").concat(why.as_str()),
            );
            proof {
                let drawn: AdoptionNonce = Err(why@);
                assert(possible_adoption(drawn));
                assert((runner.session(), files.files(), Err::<BegunView, ErrorView>(e@))
                    == begin_run(s, f, args@, cwd@, drawn));
            }
            return Err(e);
        },
        Ok(nonce) => nonce,
    };
    let r = open_adoption(files, planned, site, vstd::array::array_as_slice(&nonce));
    proof {
        let drawn: AdoptionNonce = Ok(nonce@);
        assert(possible_adoption(drawn));
        assert((runner.session(), files.files(), begun_outcome(r)) == begin_run(
            s,
            f,
            args@,
            cwd@,
            drawn,
        ));
    }
    r
}

// ------------------------------------------------------------------------ carrying it out

/// How to go on with an adoption whose first record could not be stored.
pub open spec fn unstored(transaction: Seq<u8>, root: Seq<u8>) -> Seq<char> {
    "the transaction is at "@ + escape(transaction) + "; run `git grove adopt --continue "@
        + escape(root) + "` or `git grove adopt --abort "@ + escape(root) + "`"@
}

/// How to go on with an adoption that was interrupted.
pub open spec fn interrupted(root: Seq<u8>) -> Seq<char> {
    "adoption can be resumed with `git grove adopt --continue "@ + escape(root)
        + "` or reversed with `git grove adopt --abort "@ + escape(root) + "`"@
}

/// What is said of an adoption that is complete.
pub open spec fn adopted(root: Seq<u8>, default: Seq<u8>, payload: Seq<u8>) -> Seq<char> {
    "adopted: "@ + escape(root) + " (default "@ + escape(default) + ", payload "@ + escape(payload)
        + ")"@
}

/// What is said of the first `n` files that stay without being known.
pub open spec fn retained_lines(retained: Seq<Seq<u8>>, n: int) -> Seq<Seq<char>>
    decreases n,
{
    if n <= 0 {
        Seq::empty()
    } else {
        retained_lines(retained, n - 1).push(
            "git-grove: retained shared Git entry .bare/"@ + escape(retained[n - 1]),
        )
    }
}

/// What an adoption says when it is complete.
#[derive(Debug)]
pub struct AdoptReport {
    pub message: String,
    pub warnings: Vec<String>,
}

pub struct ReportView {
    pub message: Seq<char>,
    pub warnings: Seq<Seq<char>>,
}

impl View for AdoptReport {
    type V = ReportView;

    open spec fn view(&self) -> ReportView {
        ReportView { message: self.message@, warnings: texts(self.warnings@) }
    }
}

pub open spec fn report_outcome(r: Result<AdoptReport>) -> Outcome<ReportView> {
    match r {
        Ok(v) => Ok(v@),
        Err(e) => Err(e@),
    }
}

pub open spec fn report_of(b: BegunView) -> ReportView {
    ReportView {
        message: adopted(
            b.site.root,
            b.journal.plan.decisions.default_branch,
            b.journal.plan.decisions.payload_path,
        ),
        warnings: retained_lines(b.retained, b.retained.len() as int),
    }
}

fn warn(retained: &Vec<Vec<u8>>) -> (r: Vec<String>)
    ensures
        texts(r@) == retained_lines(views(retained@), views(retained@).len() as int),
{
    let ghost all = views(retained@);
    let mut out: Vec<String> = Vec::new();
    let mut i: usize = 0;
    proof {
        assert(texts(out@) =~= Seq::empty());
        assert(all.len() == retained@.len());
    }
    while i < retained.len()
        invariant
            i <= retained.len(),
            all == views(retained@),
            all.len() == retained@.len(),
            texts(out@) == retained_lines(all, i as int),
        decreases retained.len() - i,
    {
        broadcast use lemma_texts_push;

        proof {
            assert(all[i as int] == retained@[i as int]@);
        }
        out.push(
            text("git-grove: retained shared Git entry .bare/").concat(
                escaped(retained[i].as_slice()).as_str(),
            ),
        );
        i = i + 1;
    }
    out
}

/// Carrying out an adoption that has begun: its first record is stored, and then its phases
/// follow. An error that leaves the transaction behind says how to go on; where a signal ended the
/// work, the record is stored once more before.
pub open spec fn proceed_run(s: Session, f: FileSession, b: BegunView, ds: Seq<PhaseDraws>) -> (
    Session,
    FileSession,
    JournalView,
    Outcome<ReportView>,
) {
    match store_run(f, b.site.transaction, b.journal) {
        (f1, Err(e)) => (
            s,
            f1,
            b.journal,
            Err(detailed(e, unstored(b.site.transaction, b.site.root))),
        ),
        (f1, Ok(_)) => match execute_from(s, f1, b.journal, b.site, 0, ds) {
            (s2, f2, j2, Ok(_)) => (s2, f2, j2, Ok(report_of(b))),
            (s2, f2, j2, Err(e)) => match found_step(
                f2,
                FileRequest::Exists(b.site.transaction),
            ) {
                (f3, false) => (s2, f3, j2, Err(e)),
                (f3, true) => match reconcile_run(f3, b.site.transaction, j2, e) {
                    (f4, Err(e4)) => (s2, f4, j2, Err(e4)),
                    (f4, Ok(_)) => (s2, f4, j2, Err(detailed(e, interrupted(b.site.root)))),
                },
            },
        },
    }
}

/// Carries out an adoption that has begun.
pub fn proceed<R: GitRunner + ?Sized, F: FileSystem + ?Sized>(
    runner: &mut R,
    files: &mut F,
    begun: &mut Begun,
) -> (r: Result<AdoptReport>)
    ensures
        exists|ds: Seq<PhaseDraws>|
            possible_phases(ds) && (
                final(runner).session(),
                final(files).files(),
                final(begun)@.journal,
                report_outcome(r),
            ) == #[trigger] proceed_run(
                old(runner).session(),
                old(files).files(),
                old(begun)@,
                ds,
            ),
{
    let ghost none: Seq<PhaseDraws> = Seq::empty();
    let ghost s = runner.session();
    let ghost f = files.files();
    let ghost b = begun@;
    proof {
        assert(possible_phases(none));
    }
    let root = escaped(begun.site.root.as_slice());
    if let Err(e) = durable_replace(files, begun.site.transaction.as_slice(), &begun.journal) {
        let detail = text("the transaction is at ").concat(
            escaped(begun.site.transaction.as_slice()).as_str(),
        ).concat("; run `git grove adopt --continue ").concat(root.as_str()).concat(
            "` or `git grove adopt --abort ",
        ).concat(root.as_str()).concat("`");
        let e1 = e.with_detail(detail);
        proof {
            assert((s, files.files(), b.journal, Err::<ReportView, ErrorView>(e1@))
                == proceed_run(s, f, b, none));
        }
        return Err(e1);
    }
    let ghost f1 = files.files();
    let performed = execute(runner, files, &mut begun.journal, &begun.site);
    let ghost ds = choose|ds: Seq<PhaseDraws>|
        possible_phases(ds) && (
            runner.session(),
            files.files(),
            begun.journal@,
            plain(performed),
        ) == #[trigger] execute_from(s, f1, b.journal, b.site, 0, ds);
    let r = match performed {
        Err(e) => if ask_found(
            files,
            FileRequest::Exists(copied(begun.site.transaction.as_slice())),
        ) {
            match reconcile_after_signal(
                files,
                &e,
                begun.site.transaction.as_slice(),
                &begun.journal,
            ) {
                Err(unsettled) => Err(unsettled),
                Ok(_) => Err(
                    e.with_detail(
                        text("adoption can be resumed with `git grove adopt --continue ").concat(
                            root.as_str(),
                        ).concat("` or reversed with `git grove adopt --abort ").concat(
                            root.as_str(),
                        ).concat("`"),
                    ),
                ),
            }
        } else {
            Err(e)
        },
        Ok(_) => Ok(
            AdoptReport {
                message: text("adopted: ").concat(root.as_str()).concat(" (default ").concat(
                    escaped(begun.journal.plan.decisions.default_branch.as_slice()).as_str(),
                ).concat(", payload ").concat(
                    escaped(begun.journal.plan.decisions.payload_path.as_slice()).as_str(),
                ).concat(")"),
                warnings: warn(&begun.retained),
            },
        ),
    };
    proof {
        lemma_plan_kept(s, f1, b.journal, b.site, 0, ds);
        assert((runner.session(), files.files(), begun@.journal, report_outcome(r))
            == proceed_run(s, f, b, ds));
    }
    r
}

/// The plan of an adoption is the same at its end as at its beginning.
pub proof fn lemma_plan_kept(
    s: Session,
    f: FileSession,
    j: JournalView,
    x: SiteView,
    k: int,
    ds: Seq<PhaseDraws>,
)
    ensures
        execute_from(s, f, j, x, k, ds).2.plan == j.plan,
    decreases PHASES - k,
{
    if k < PHASES {
        if j.done[k] {
            lemma_plan_kept(s, f, j, x, k + 1, other_drawn(ds));
        } else {
            let (s1, f1, r) = phase_run(s, f, x, j.plan, reason_of(j.nonce), k, next_drawn(ds));
            let (f2, r2, j1) = finish_run(f1, x.transaction, j, k);
            lemma_plan_kept(s1, f2, j1, x, k + 1, other_drawn(ds));
        }
    }
}

/// An adoption that a signal ends while its transaction is there has its record stored as it then
/// stands, as the last thing that is done. Where that works, the command ends with the status that
/// the signal asks for.
pub proof fn interrupted_adoptions_store_their_record(
    s: Session,
    f: FileSession,
    b: BegunView,
    ds: Seq<PhaseDraws>,
    e: ErrorView,
)
    requires
        by_signal(e),
        store_run(f, b.site.transaction, b.journal).1 is Ok,
        ({
            let f1 = store_run(f, b.site.transaction, b.journal).0;
            let (s2, f2, j2, r) = execute_from(s, f1, b.journal, b.site, 0, ds);
            &&& r == Err::<(), ErrorView>(e)
            &&& found_step(f2, FileRequest::Exists(b.site.transaction)).1
        }),
    ensures
        ({
            let f1 = store_run(f, b.site.transaction, b.journal).0;
            let f2 = execute_from(s, f1, b.journal, b.site, 0, ds).1;
            let f3 = found_step(f2, FileRequest::Exists(b.site.transaction)).0;
            let (s4, f4, j, r) = proceed_run(s, f, b, ds);
            &&& f4 == store_run(f3, b.site.transaction, j).0
            &&& f4.calls.last() == FileRequest::StoreJournal(
                b.site.transaction,
                j.generation,
                state_bytes(j),
            )
            &&& r matches Err(e4)
            &&& store_run(f3, b.site.transaction, j).1 is Ok ==> exit_status(e4) == exit_status(e)
        }),
{
}

/// An adoption whose first record cannot be stored ends there: Git is not asked anything, and
/// nothing but storing the record has been tried.
pub proof fn nothing_follows_an_unstored_record(
    s: Session,
    f: FileSession,
    b: BegunView,
    ds: Seq<PhaseDraws>,
)
    requires
        store_run(f, b.site.transaction, b.journal).1 is Err,
    ensures
        proceed_run(s, f, b, ds).0 == s,
        proceed_run(s, f, b, ds).1 == store_run(f, b.site.transaction, b.journal).0,
        proceed_run(s, f, b, ds).2 == b.journal,
        proceed_run(s, f, b, ds).3 is Err,
{
}

} // verus!
