//! Everything that must hold of a repository before it is converted, and everything that is kept
//! of it. Nothing is changed here.
use vstd::prelude::*;
use vstd::slice::slice_subrange;
use crate::bytes::{
    copied, copied_opt, has_prefix, is_lit, joined, lit, opt_view, starts_with, views,
};
use crate::commands::adopt::args::{checked_args, AdoptAction, AdoptArgs, ArgsView};
use crate::commands::adopt::evidence::{
    first_manifest_change, git_views, manifest_change, manifests_match, named_views, opt_blob,
    same_manifests, AdoptDecisionsProof, BlobProof, BlobView, ByteSnapshot, DecisionsView, GitEntry,
    HeadProof, HeadView, Inventory, InventoryView, NamedBlobProof, NamedView, OriginalEvidence,
    OriginalView, SnapshotBytes,
};
use crate::commands::adopt::inventory::{
    blob, blob_run, collect, collect_run, named_from, optional_blob, optional_blob_run, paths_of,
    read_again,
};
use crate::commands::adopt::private::{
    changed_error, first_git_change, git_change, private_run, private_state, shared_indexes,
    shared_indexes_run, shared_ref_files, shared_refs_run, unchanged, validate_query_side_effects,
};
use crate::commands::adopt::queries::{
    at_rest, attached_to, branch_run, configured_remotes, default_run, exists_run, flag_snapshot,
    flag_words, head_run, is_attached_to, plain_checkout_run, refuse_active_state,
    refuse_sparse_submodule_and_conflicts, remotes_run, require_default_exists,
    resolve_default_branch, resolve_head, resolve_root, root_run, select_remote, selected_of,
    single_worktree, snapshot_run, stage_snapshot, stage_words, status_snapshot, status_words,
    validate_branch, validate_single_worktree, worktree_snapshot, worktree_words, GitList,
};
use crate::commands::adopt::shown::{entry_text, git_entry_text, show_entry, show_git_entry};
use crate::error::{
    decision_error, detailed, failure, needs_decision, plain, usage, usage_error, ErrorView,
    GroveError, Result,
};
use crate::fsx::directory::{open_run, HeldDirectory, HeldView};
use crate::fsx::below::held_identity_run;
use crate::fsx::files::{
    ask_facts, ask_names, facts_step, names_step, FileRequest, FileSession,
    FileSystem,
};
use crate::fsx::held::{same_identity, FileIdentity, FileKind};
use crate::fsx::lock::{acquire_path_run, GroveLock, LockMode, LockView};
use crate::fsx::mountinfo::{boundary_run, live_run, MountTable};
use crate::git::config::Outcome;
use crate::git::runner::{GitRunner, Session};
use crate::path::{child, join_word};
use crate::text::{escape, escaped, lossy, lossy_text, text};

verus! {

/// A repository's root, and what it was.
#[derive(Debug)]
pub struct RootProof {
    pub canonical_path: Vec<u8>,
    pub identity: FileIdentity,
}

/// What was asked for.
#[derive(Debug)]
pub struct AdoptArgumentsProof {
    pub requested_root: Vec<u8>,
    pub remote: Option<Vec<u8>>,
    pub default_branch: Option<Vec<u8>>,
}

/// An adoption that can begin.
#[derive(Debug)]
pub struct AdoptPlan {
    pub root: HeldDirectory,
    pub repository_lock: GroveLock,
    pub root_proof: RootProof,
    pub arguments: AdoptArgumentsProof,
    pub decisions: AdoptDecisionsProof,
    pub original: OriginalEvidence,
    /// Files at the top of the Git directory that stay with the repository without being known.
    pub retained_shared_fallthrough: Vec<Vec<u8>>,
}

pub struct RootView {
    pub canonical: Seq<u8>,
    pub identity: FileIdentity,
}

impl View for RootProof {
    type V = RootView;

    open spec fn view(&self) -> RootView {
        RootView { canonical: self.canonical_path@, identity: self.identity }
    }
}

pub struct ArgumentsView {
    pub requested: Seq<u8>,
    pub remote: Option<Seq<u8>>,
    pub default_branch: Option<Seq<u8>>,
}

impl View for AdoptArgumentsProof {
    type V = ArgumentsView;

    open spec fn view(&self) -> ArgumentsView {
        ArgumentsView {
            requested: self.requested_root@,
            remote: opt_view(self.remote),
            default_branch: opt_view(self.default_branch),
        }
    }
}

pub struct AdoptView {
    pub root: HeldView,
    pub lock: LockView,
    pub proven: RootView,
    pub arguments: ArgumentsView,
    pub decisions: DecisionsView,
    pub original: OriginalView,
    pub retained: Seq<Seq<u8>>,
}

impl View for AdoptPlan {
    type V = AdoptView;

    open spec fn view(&self) -> AdoptView {
        AdoptView {
            root: self.root@,
            lock: self.repository_lock@,
            proven: self.root_proof@,
            arguments: self.arguments@,
            decisions: self.decisions@,
            original: self.original@,
            retained: views(self.retained_shared_fallthrough@),
        }
    }
}

pub open spec fn plan_outcome(r: Result<AdoptPlan>) -> Outcome<AdoptView> {
    match r {
        Ok(p) => Ok(p@),
        Err(e) => Err(e@),
    }
}

// ----------------------------------------------------------------- holding the root

/// Whether a name at the root says that an adoption took place, or was begun.
pub open spec fn taken_name(name: Seq<u8>) -> bool {
    name == lit(".bare") || starts_with(name, lit(".grove-adopt-"))
}

/// Refusing a root for the first such name from `i` on.
pub open spec fn taken_from(names: Seq<Seq<u8>>, i: int) -> Outcome<()>
    decreases names.len() - i,
{
    if i >= names.len() {
        Ok(())
    } else if taken_name(names[i]) {
        Err(
            needs_decision(
                "reserved adoption path "@ + escape(names[i]) + " already exists"@,
            ),
        )
    } else {
        taken_from(names, i + 1)
    }
}

pub open spec fn reserved_run(f: FileSession, root: HeldView) -> (FileSession, Outcome<()>) {
    match names_step(f, FileRequest::List(root.anchored)) {
        (f1, Err(e)) => (f1, Err(failure("cannot read repository root: "@ + e.text))),
        (f1, Ok(names)) => (f1, taken_from(names, 0)),
    }
}

/// Refuses a root that an adoption has left its traces in.
pub fn refuse_reserved_root_entries<F: FileSystem + ?Sized>(files: &mut F, root: &HeldDirectory) -> (r:
    Result<()>)
    ensures
        (final(files).files(), plain(r)) == reserved_run(old(files).files(), root@),
{
    let names = match ask_names(
        files,
        FileRequest::List(copied(root.anchored_path.as_slice())),
    ) {
        Err(e) => return Err(
            GroveError::failure(text("cannot read repository root: ").concat(e.text.as_str())),
        ),
        Ok(names) => names,
    };
    let ghost all = views(names@);
    let mut i: usize = 0;
    proof {
        assert(all.len() == names@.len());
    }
    while i < names.len()
        invariant
            i <= names.len(),
            all == views(names@),
            all.len() == names@.len(),
            (files.files(), taken_from(all, i as int)) == reserved_run(old(files).files(), root@),
        decreases names.len() - i,
    {
        proof {
            assert(all[i as int] == names@[i as int]@);
        }
        let name = names[i].as_slice();
        if is_lit(name, ".bare") || has_prefix(name, ".grove-adopt-".as_bytes()) {
            return Err(
                GroveError::needs_decision(
                    text("reserved adoption path ").concat(escaped(name).as_str()).concat(
                        " already exists",
                    ),
                ),
            );
        }
        i = i + 1;
    }
    Ok(())
}

/// Taking hold of a root: it is opened, nothing may be reserved in it, its Git directory is a
/// directory and gets locked, and nothing is mounted below it.
pub open spec fn hold_run(f: FileSession, root: Seq<u8>) -> (
    FileSession,
    Outcome<(HeldView, LockView)>,
) {
    let git = child(root, lit(".git"));
    match open_run(f, root) {
        (f1, Err(e)) => (f1, Err(e)),
        (f1, Ok(held)) => match reserved_run(f1, held) {
            (f2, Err(e)) => (f2, Err(e)),
            (f2, Ok(_)) => match facts_step(f2, FileRequest::Inspect(git)) {
                (f3, Err(e)) => (
                    f3,
                    Err(needs_decision("cannot inspect "@ + lossy_text(git) + ": "@ + e.text)),
                ),
                (f3, Ok(facts)) => if facts.kind != FileKind::Directory {
                    (
                        f3,
                        Err(
                            needs_decision(
                                "adopt requires a real .git directory, not a file or symlink"@,
                            ),
                        ),
                    )
                } else {
                    match acquire_path_run(f3, git, LockMode::Exclusive, "git grove adopt"@) {
                        (f4, Err(e)) => (f4, Err(e)),
                        (f4, Ok(lock)) => match live_run(f4) {
                            (f5, Err(e)) => (f5, Err(e)),
                            (f5, Ok(table)) => match boundary_run(f5, table, held) {
                                (f6, Err(e)) => (f6, Err(e)),
                                (f6, Ok(_)) => (f6, Ok((held, lock))),
                            },
                        },
                    }
                },
            },
        },
    }
}

pub open spec fn hold_outcome(r: Result<(HeldDirectory, GroveLock)>) -> Outcome<
    (HeldView, LockView),
> {
    match r {
        Ok(p) => Ok((p.0@, p.1@)),
        Err(e) => Err(e@),
    }
}

fn hold<F: FileSystem + ?Sized>(files: &mut F, root: &[u8]) -> (r: Result<
    (HeldDirectory, GroveLock),
>)
    ensures
        (final(files).files(), hold_outcome(r)) == hold_run(old(files).files(), root@),
{
    let held = HeldDirectory::open(files, root)?;
    refuse_reserved_root_entries(files, &held)?;
    let git = join_word(root, ".git");
    match ask_facts(files, FileRequest::Inspect(copied(git.as_slice()))) {
        Err(e) => return Err(
            GroveError::needs_decision(
                text("cannot inspect ").concat(lossy(git.as_slice()).as_str()).concat(
                    ": ",
                ).concat(e.text.as_str()),
            ),
        ),
        Ok(facts) => if facts.kind != FileKind::Directory {
            return Err(
                decision_error("adopt requires a real .git directory, not a file or symlink"),
            );
        },
    }
    let lock = GroveLock::acquire_path(
        files,
        git.as_slice(),
        LockMode::Exclusive,
        "git grove adopt",
    )?;
    let table = MountTable::read_live(files)?;
    table.ensure_no_boundary_at_or_below(files, &held)?;
    Ok((held, lock))
}

// ---------------------------------------------------------------------- a first look

/// The worktree list and everything there is, of a repository that is fit to be adopted.
pub open spec fn look_run(
    s: Session,
    f: FileSession,
    path: Seq<u8>,
    root: HeldView,
    git: HeldView,
) -> (Session, FileSession, Outcome<(SnapshotBytes, InventoryView)>) {
    match snapshot_run(s, path, worktree_words()) {
        (s1, Err(e)) => (s1, f, Err(e)),
        (s1, Ok(worktrees)) => match single_worktree(worktrees.bytes, path) {
            Err(e) => (s1, f, Err(e)),
            Ok(_) => match collect_run(f, root, git) {
                (f1, Err(e)) => (s1, f1, Err(e)),
                (f1, Ok(inventory)) => match at_rest(inventory.git) {
                    Err(e) => (s1, f1, Err(e)),
                    Ok(_) => match plain_checkout_run(s1, f1, path, git) {
                        (s2, f2, Err(e)) => (s2, f2, Err(e)),
                        (s2, f2, Ok(_)) => (s2, f2, Ok((worktrees, inventory))),
                    },
                },
            },
        },
    }
}

pub open spec fn look_outcome(r: Result<(ByteSnapshot, Inventory)>) -> Outcome<
    (SnapshotBytes, InventoryView),
> {
    match r {
        Ok(p) => Ok((p.0@, p.1@)),
        Err(e) => Err(e@),
    }
}

fn look<R: GitRunner + ?Sized, F: FileSystem + ?Sized>(
    runner: &mut R,
    files: &mut F,
    path: &[u8],
    root: &HeldDirectory,
    git: &HeldDirectory,
) -> (r: Result<(ByteSnapshot, Inventory)>)
    ensures
        (final(runner).session(), final(files).files(), look_outcome(r)) == look_run(
            old(runner).session(),
            old(files).files(),
            path@,
            root@,
            git@,
        ),
{
    let worktrees = worktree_snapshot(runner, path)?;
    validate_single_worktree(worktrees.bytes.as_slice(), path)?;
    let inventory = collect(files, root, git)?;
    refuse_active_state(&inventory.git_entries)?;
    refuse_sparse_submodule_and_conflicts(runner, files, path, git)?;
    Ok((worktrees, inventory))
}

// ---------------------------------------------------------------------- the decisions

/// The state of every file, the index, and its flags.
pub struct StateView {
    pub status: SnapshotBytes,
    pub stages: SnapshotBytes,
    pub verbose: SnapshotBytes,
}

/// The state of every file, the index, and its flags.
#[derive(Debug)]
pub struct StateSnapshots {
    pub status: ByteSnapshot,
    pub stages: ByteSnapshot,
    pub verbose: ByteSnapshot,
}

impl View for StateSnapshots {
    type V = StateView;

    open spec fn view(&self) -> StateView {
        StateView { status: self.status@, stages: self.stages@, verbose: self.verbose@ }
    }
}

pub open spec fn state_run(s: Session, root: Seq<u8>) -> (Session, Outcome<StateView>) {
    match snapshot_run(s, root, status_words()) {
        (s1, Err(e)) => (s1, Err(e)),
        (s1, Ok(status)) => match snapshot_run(s1, root, stage_words()) {
            (s2, Err(e)) => (s2, Err(e)),
            (s2, Ok(stages)) => match snapshot_run(s2, root, flag_words()) {
                (s3, Err(e)) => (s3, Err(e)),
                (s3, Ok(verbose)) => (s3, Ok(StateView { status, stages, verbose })),
            },
        },
    }
}

pub open spec fn state_outcome(r: Result<StateSnapshots>) -> Outcome<StateView> {
    match r {
        Ok(v) => Ok(v@),
        Err(e) => Err(e@),
    }
}

fn state<R: GitRunner + ?Sized>(runner: &mut R, root: &[u8]) -> (r: Result<StateSnapshots>)
    ensures
        (final(runner).session(), state_outcome(r)) == state_run(old(runner).session(), root@),
{
    let status = status_snapshot(runner, root)?;
    let stages = stage_snapshot(runner, root)?;
    let verbose = flag_snapshot(runner, root)?;
    Ok(StateSnapshots { status, stages, verbose })
}

/// The name of the directory that a checkout gets: its branch, or what it is detached at.
pub open spec fn payload_name(head: HeadView) -> Seq<u8> {
    match head {
        HeadView::Attached { branch } => branch,
        HeadView::Detached { oid } => lit("detached-") + if oid.len() > 12 {
            oid.subrange(0, 12)
        } else {
            oid
        },
    }
}

fn payload_path(head: &HeadProof) -> (r: Vec<u8>)
    ensures
        r@ == payload_name(head@),
{
    match head {
        HeadProof::Attached { branch } => copied(branch.as_slice()),
        HeadProof::Detached { oid } => if oid.len() > 12 {
            joined("detached-".as_bytes(), slice_subrange(oid.as_slice(), 0, 12))
        } else {
            joined("detached-".as_bytes(), oid.as_slice())
        },
    }
}

/// The remote that a grove will have: none where there is none, and otherwise the one that was
/// selected, which must be one.
pub open spec fn grove_remote(remotes: Seq<Seq<u8>>, selected: Option<Seq<u8>>) -> Outcome<
    Option<Seq<u8>>,
> {
    if remotes.len() == 0 {
        Ok(None)
    } else {
        match selected {
            Some(r) => Ok(Some(r)),
            None => Err(
                needs_decision(
                    "multiple remotes require --remote to select grove.remote during adoption"@,
                ),
            ),
        }
    }
}

/// What follows from `HEAD`, the default branch and the remotes.
pub open spec fn settled(
    head: HeadView,
    default_branch: Seq<u8>,
    remotes: Seq<Seq<u8>>,
    selected: Option<Seq<u8>>,
) -> Outcome<DecisionsView> {
    match grove_remote(remotes, selected) {
        Err(e) => Err(e),
        Ok(remote) => if starts_with(payload_name(head), lit("-")) {
            Err(needs_decision("the payload worktree name would begin with '-'"@))
        } else {
            Ok(
                DecisionsView {
                    payload_head: head,
                    default_branch,
                    selected_remote: remote,
                    payload_path: payload_name(head),
                    default_path: if attached_to(head, default_branch) {
                        None
                    } else {
                        Some(default_branch)
                    },
                },
            )
        },
    }
}

pub open spec fn decisions_outcome(r: Result<AdoptDecisionsProof>) -> Outcome<DecisionsView> {
    match r {
        Ok(d) => Ok(d@),
        Err(e) => Err(e@),
    }
}

fn settle_decisions(
    head: HeadProof,
    default_branch: Vec<u8>,
    remotes: &Vec<Vec<u8>>,
    selected: Option<Vec<u8>>,
) -> (r: Result<AdoptDecisionsProof>)
    ensures
        decisions_outcome(r) == settled(
            head@,
            default_branch@,
            views(remotes@),
            opt_view(selected),
        ),
{
    proof {
        assert(views(remotes@).len() == remotes@.len());
    }
    let selected_remote = if remotes.len() == 0 {
        None
    } else {
        match selected {
            Some(r) => Some(r),
            None => return Err(
                decision_error(
                    "multiple remotes require --remote to select grove.remote during adoption",
                ),
            ),
        }
    };
    let payload_path = payload_path(&head);
    if has_prefix(payload_path.as_slice(), "-".as_bytes()) {
        return Err(decision_error("the payload worktree name would begin with '-'"));
    }
    let default_path = if is_attached_to(&head, default_branch.as_slice()) {
        None
    } else {
        Some(copied(default_branch.as_slice()))
    };
    Ok(
        AdoptDecisionsProof {
            payload_head: head,
            default_branch,
            selected_remote,
            payload_path,
            default_path,
        },
    )
}

/// Deciding what becomes of the repository: the default branch, the remote, and the places of
/// the worktrees.
pub open spec fn decide_run(s: Session, root: Seq<u8>, a: ArgsView) -> (
    Session,
    Outcome<DecisionsView>,
) {
    match head_run(s, root) {
        (s1, Err(e)) => (s1, Err(e)),
        (s1, Ok(head)) => match remotes_run(s1, root) {
            (s2, Err(e)) => (s2, Err(e)),
            (s2, Ok(remotes)) => match selected_of(a.remote, remotes) {
                Err(e) => (s2, Err(e)),
                Ok(selected) => match default_run(
                    s2,
                    root,
                    a.default_branch,
                    selected,
                    remotes,
                    head,
                ) {
                    (s3, Err(e)) => (s3, Err(e)),
                    (s3, Ok(branch)) => match branch_run(s3, root, branch) {
                        (s4, Err(e)) => (s4, Err(e)),
                        (s4, Ok(_)) => match exists_run(s4, root, branch, selected, head) {
                            (s5, Err(e)) => (s5, Err(e)),
                            (s5, Ok(_)) => (s5, settled(head, branch, remotes, selected)),
                        },
                    },
                },
            },
        },
    }
}

fn decide<R: GitRunner + ?Sized>(runner: &mut R, root: &[u8], args: &AdoptArgs) -> (r: Result<
    AdoptDecisionsProof,
>)
    ensures
        (final(runner).session(), decisions_outcome(r)) == decide_run(
            old(runner).session(),
            root@,
            args@,
        ),
{
    let head = resolve_head(runner, root)?;
    let remotes = configured_remotes(runner, root)?;
    let selected = select_remote(&args.remote, &remotes)?;
    let branch = resolve_default_branch(
        runner,
        root,
        &args.default_branch,
        &selected,
        &remotes,
        &head,
    )?;
    validate_branch(runner, root, branch.as_slice())?;
    require_default_exists(runner, root, branch.as_slice(), &selected, &head)?;
    settle_decisions(head, branch, &remotes, selected)
}

/// A second worktree is made exactly where the checkout is not on the default branch; where the
/// checkout is on another branch, it is not made at the same place. The checkout's place does not
/// begin like an option.
pub proof fn second_worktrees_have_places_of_their_own(
    head: HeadView,
    default_branch: Seq<u8>,
    remotes: Seq<Seq<u8>>,
    selected: Option<Seq<u8>>,
)
    requires
        settled(head, default_branch, remotes, selected) is Ok,
    ensures
        ({
            let d = settled(head, default_branch, remotes, selected)->Ok_0;
            &&& d.default_path is None <==> attached_to(head, default_branch)
            &&& head is Attached && d.default_path is Some ==> d.default_path->Some_0
                != d.payload_path
            &&& !starts_with(d.payload_path, lit("-"))
        }),
{
}

// ------------------------------------------------------------------------ evidence

/// Whether two inventories agree in everything that is recorded.
pub open spec fn stable(a: InventoryView, b: InventoryView) -> bool {
    &&& same_manifests(a.payload, b.payload)
    &&& same_git(a.git, b.git)
}

pub open spec fn same_git(a: GitList, b: GitList) -> bool {
    a.len() == b.len() && forall|i: int|
        0 <= i < a.len() ==> (#[trigger] a[i]).0 == b[i].0 && same_identity(a[i].1, b[i].1)
}

proof fn lemma_git_change(a: GitList, b: GitList, i: int)
    requires
        a.len() == b.len(),
        0 <= i <= a.len(),
    ensures
        i <= git_change(a, b, i) <= a.len(),
        git_change(a, b, i) == a.len() <==> forall|j: int|
            i <= j < a.len() ==> (#[trigger] a[j]).0 == b[j].0 && same_identity(a[j].1, b[j].1),
    decreases a.len() - i,
{
    if i < a.len() {
        if a[i].0 == b[i].0 && same_identity(a[i].1, b[i].1) {
            lemma_git_change(a, b, i + 1);
            if git_change(a, b, i + 1) == a.len() {
                assert forall|j: int| i <= j < a.len() implies (#[trigger] a[j]).0 == b[j].0
                    && same_identity(a[j].1, b[j].1) by {
                    if j > i {
                        assert(i + 1 <= j);
                    }
                }
            }
        }
    }
}

/// Which entry changed, as it was and as it is.
pub open spec fn change_detail(a: InventoryView, b: InventoryView) -> Seq<char> {
    let g = git_change(a.git, b.git, 0);
    let p = manifest_change(a.payload, b.payload, 0);
    if g < a.git.len() && g < b.git.len() {
        "Git entry changed: "@ + git_entry_text(a.git[g].0, a.git[g].1) + " -> "@
            + git_entry_text(b.git[g].0, b.git[g].1)
    } else if p < a.payload.len() && p < b.payload.len() {
        "payload entry changed: "@ + entry_text(a.payload[p]) + " -> "@ + entry_text(b.payload[p])
    } else {
        "an entry was added or removed"@
    }
}

pub open spec fn stable_checked(a: InventoryView, b: InventoryView) -> Outcome<()> {
    if stable(a, b) {
        Ok(())
    } else {
        Err(detailed(changed_error(), change_detail(a, b)))
    }
}

fn require_stable(a: &Inventory, b: &Inventory) -> (r: Result<()>)
    ensures
        plain(r) == stable_checked(a@, b@),
{
    proof {
        assert(a@.git.len() == a.git_entries@.len());
        assert(b@.git.len() == b.git_entries@.len());
        assert(a@.payload.len() == a.payload@.len());
        assert(b@.payload.len() == b.payload@.len());
        if a@.git.len() == b@.git.len() {
            lemma_git_change(a@.git, b@.git, 0);
        }
    }
    let g: usize = first_git_change(&a.git_entries, &b.git_entries);
    if a.git_entries.len() == b.git_entries.len() && g == a.git_entries.len() && manifests_match(
        &a.payload,
        &b.payload,
    ) {
        return Ok(());
    }
    let p: usize = first_manifest_change(&a.payload, &b.payload);
    let detail = if g < a.git_entries.len() && g < b.git_entries.len() {
        proof {
            let (was, now) = (a.git_entries@[g as int], b.git_entries@[g as int]);
            assert(a@.git[g as int] == (was.0@, was.1));
            assert(b@.git[g as int] == (now.0@, now.1));
        }
        let (was, now) = (&a.git_entries[g], &b.git_entries[g]);
        text("Git entry changed: ").concat(
            show_git_entry(was.0.as_slice(), &was.1).as_str(),
        ).concat(" -> ").concat(show_git_entry(now.0.as_slice(), &now.1).as_str())
    } else if p < a.payload.len() && p < b.payload.len() {
        proof {
            assert(a@.payload[p as int] == a.payload@[p as int]@);
            assert(b@.payload[p as int] == b.payload@[p as int]@);
        }
        text("payload entry changed: ").concat(show_entry(&a.payload[p]).as_str()).concat(
            " -> ",
        ).concat(show_entry(&b.payload[p]).as_str())
    } else {
        text("an entry was added or removed")
    };
    Err(decision_error("repository contents changed during adopt preflight").with_detail(detail))
}

/// The files of a Git directory, taken apart.
pub struct PartsView {
    pub private: Seq<NamedView>,
    pub retained: Seq<Seq<u8>>,
    pub refs: Seq<NamedView>,
    pub shared_indexes: Seq<NamedView>,
}

/// The files of a Git directory, taken apart.
#[derive(Debug)]
pub struct GitParts {
    pub private: Vec<NamedBlobProof>,
    pub retained: Vec<Vec<u8>>,
    pub refs: Vec<NamedBlobProof>,
    pub shared_indexes: Vec<NamedBlobProof>,
}

impl View for GitParts {
    type V = PartsView;

    open spec fn view(&self) -> PartsView {
        PartsView {
            private: named_views(self.private@),
            retained: views(self.retained@),
            refs: named_views(self.refs@),
            shared_indexes: named_views(self.shared_indexes@),
        }
    }
}

pub open spec fn parts_outcome(r: Result<GitParts>) -> Outcome<PartsView> {
    match r {
        Ok(p) => Ok(p@),
        Err(e) => Err(e@),
    }
}

/// Taking a Git directory apart.
pub open spec fn classify_run(
    s: Session,
    f: FileSession,
    root: Seq<u8>,
    git: HeldView,
    entries: GitList,
) -> (Session, FileSession, Outcome<PartsView>) {
    match private_run(s, f, root, git, entries) {
        (s1, f1, Err(e)) => (s1, f1, Err(e)),
        (s1, f1, Ok((private, retained))) => match shared_refs_run(f1, git, entries) {
            (f2, Err(e)) => (s1, f2, Err(e)),
            (f2, Ok(refs)) => match shared_indexes_run(s1, f2, root, git) {
                (s3, f3, Err(e)) => (s3, f3, Err(e)),
                (s3, f3, Ok(shared_indexes)) => (
                    s3,
                    f3,
                    Ok(PartsView { private, retained, refs, shared_indexes }),
                ),
            },
        },
    }
}

fn classify<R: GitRunner + ?Sized, F: FileSystem + ?Sized>(
    runner: &mut R,
    files: &mut F,
    root: &[u8],
    git: &HeldDirectory,
    entries: &Vec<GitEntry>,
) -> (r: Result<GitParts>)
    ensures
        (final(runner).session(), final(files).files(), parts_outcome(r)) == classify_run(
            old(runner).session(),
            old(files).files(),
            root@,
            git@,
            git_views(entries@),
        ),
{
    let (private, retained) = private_state(runner, files, root, git, entries)?;
    let refs = shared_ref_files(files, git, entries)?;
    let shared_indexes = shared_indexes(runner, files, root, git)?;
    Ok(GitParts { private, retained, refs, shared_indexes })
}

/// Reading everything a second and a third time: nothing may have changed since the first
/// inventory, but for the time stamps of a shared index, and nothing at all since the second.
pub open spec fn settle_run(
    f: FileSession,
    root: HeldView,
    git: HeldView,
    initial: InventoryView,
    parts: PartsView,
) -> (FileSession, Outcome<(InventoryView, PartsView)>) {
    match collect_run(f, root, git) {
        (f1, Err(e)) => (f1, Err(e)),
        (f1, Ok(inventory)) => if !unchanged(initial, inventory) {
            (f1, Err(changed_error()))
        } else {
            match named_from(f1, git, paths_of(parts.private), Seq::empty(), 0) {
                (f2, Err(e)) => (f2, Err(e)),
                (f2, Ok(private)) => match named_from(
                    f2,
                    git,
                    paths_of(parts.refs),
                    Seq::empty(),
                    0,
                ) {
                    (f3, Err(e)) => (f3, Err(e)),
                    (f3, Ok(refs)) => match named_from(
                        f3,
                        git,
                        paths_of(parts.shared_indexes),
                        Seq::empty(),
                        0,
                    ) {
                        (f4, Err(e)) => (f4, Err(e)),
                        (f4, Ok(shared_indexes)) => match collect_run(f4, root, git) {
                            (f5, Err(e)) => (f5, Err(e)),
                            (f5, Ok(again)) => match stable_checked(inventory, again) {
                                Err(e) => (f5, Err(e)),
                                Ok(_) => (
                                    f5,
                                    Ok(
                                        (
                                            inventory,
                                            PartsView {
                                                private,
                                                retained: parts.retained,
                                                refs,
                                                shared_indexes,
                                            },
                                        ),
                                    ),
                                ),
                            },
                        },
                    },
                },
            }
        },
    }
}

pub open spec fn settle_outcome(r: Result<(Inventory, GitParts)>) -> Outcome<
    (InventoryView, PartsView),
> {
    match r {
        Ok(p) => Ok((p.0@, p.1@)),
        Err(e) => Err(e@),
    }
}

fn settle_evidence<F: FileSystem + ?Sized>(
    files: &mut F,
    root: &HeldDirectory,
    git: &HeldDirectory,
    initial: &Inventory,
    parts: GitParts,
) -> (r: Result<(Inventory, GitParts)>)
    ensures
        (final(files).files(), settle_outcome(r)) == settle_run(
            old(files).files(),
            root@,
            git@,
            initial@,
            parts@,
        ),
{
    let inventory = collect(files, root, git)?;
    validate_query_side_effects(initial, &inventory)?;
    let private = read_again(files, git, &parts.private)?;
    let refs = read_again(files, git, &parts.refs)?;
    let shared_indexes = read_again(files, git, &parts.shared_indexes)?;
    let again = collect(files, root, git)?;
    require_stable(&inventory, &again)?;
    Ok((inventory, GitParts { private, retained: parts.retained, refs, shared_indexes }))
}

/// The files that every Git directory has.
pub struct CoreView {
    pub index: Option<BlobView>,
    pub config: BlobView,
    pub config_worktree: Option<BlobView>,
    pub head: BlobView,
}

/// The files that every Git directory has.
#[derive(Debug)]
pub struct CoreBlobs {
    pub index: Option<BlobProof>,
    pub config: BlobProof,
    pub config_worktree: Option<BlobProof>,
    pub head: BlobProof,
}

impl View for CoreBlobs {
    type V = CoreView;

    open spec fn view(&self) -> CoreView {
        CoreView {
            index: opt_blob(self.index),
            config: self.config@,
            config_worktree: opt_blob(self.config_worktree),
            head: self.head@,
        }
    }
}

pub open spec fn core_run(f: FileSession, git: HeldView) -> (FileSession, Outcome<CoreView>) {
    match optional_blob_run(f, git, lit("index")) {
        (f1, Err(e)) => (f1, Err(e)),
        (f1, Ok(index)) => match blob_run(f1, git, lit("config")) {
            (f2, Err(e)) => (f2, Err(e)),
            (f2, Ok(config)) => match optional_blob_run(f2, git, lit("config.worktree")) {
                (f3, Err(e)) => (f3, Err(e)),
                (f3, Ok(config_worktree)) => match blob_run(f3, git, lit("HEAD")) {
                    (f4, Err(e)) => (f4, Err(e)),
                    (f4, Ok(head)) => (
                        f4,
                        Ok(CoreView { index, config, config_worktree, head }),
                    ),
                },
            },
        },
    }
}

pub open spec fn core_outcome(r: Result<CoreBlobs>) -> Outcome<CoreView> {
    match r {
        Ok(c) => Ok(c@),
        Err(e) => Err(e@),
    }
}

fn core_blobs<F: FileSystem + ?Sized>(files: &mut F, git: &HeldDirectory) -> (r: Result<CoreBlobs>)
    ensures
        (final(files).files(), core_outcome(r)) == core_run(old(files).files(), git@),
{
    let index = optional_blob(files, git, "index".as_bytes())?;
    let config = blob(files, git, "config".as_bytes())?;
    let config_worktree = optional_blob(files, git, "config.worktree".as_bytes())?;
    let head = blob(files, git, "HEAD".as_bytes())?;
    Ok(CoreBlobs { index, config, config_worktree, head })
}

/// The repository as it was, put together.
pub open spec fn evidence_of(
    identity: FileIdentity,
    worktrees: SnapshotBytes,
    state: StateView,
    inventory: InventoryView,
    parts: PartsView,
    core: CoreView,
) -> OriginalView {
    OriginalView {
        repository_identity: identity,
        worktrees,
        status: state.status,
        stages: state.stages,
        verbose: state.verbose,
        manifest: inventory.payload,
        index: core.index,
        shared_indexes: parts.shared_indexes,
        config: core.config,
        config_worktree: core.config_worktree,
        head: core.head,
        refs: parts.refs,
        private_state: parts.private,
    }
}

// -------------------------------------------------------------------------- the plan

/// What is found out once the root is held.
pub open spec fn survey_run(
    s: Session,
    f: FileSession,
    path: Seq<u8>,
    a: ArgsView,
    root: HeldView,
    git: HeldView,
) -> (Session, FileSession, Outcome<(DecisionsView, OriginalView, Seq<Seq<u8>>)>) {
    match look_run(s, f, path, root, git) {
        (s1, f1, Err(e)) => (s1, f1, Err(e)),
        (s1, f1, Ok((worktrees, initial))) => match state_run(s1, path) {
            (s2, Err(e)) => (s2, f1, Err(e)),
            (s2, Ok(state)) => match decide_run(s2, path, a) {
                (s3, Err(e)) => (s3, f1, Err(e)),
                (s3, Ok(decisions)) => match classify_run(s3, f1, path, git, initial.git) {
                    (s4, f4, Err(e)) => (s4, f4, Err(e)),
                    (s4, f4, Ok(parts)) => match settle_run(f4, root, git, initial, parts) {
                        (f5, Err(e)) => (s4, f5, Err(e)),
                        (f5, Ok((inventory, final_parts))) => match core_run(f5, git) {
                            (f6, Err(e)) => (s4, f6, Err(e)),
                            (f6, Ok(core)) => (
                                s4,
                                f6,
                                Ok(
                                    (
                                        decisions,
                                        evidence_of(
                                            git.identity,
                                            worktrees,
                                            state,
                                            inventory,
                                            final_parts,
                                            core,
                                        ),
                                        final_parts.retained,
                                    ),
                                ),
                            ),
                        },
                    },
                },
            },
        },
    }
}

/// What a survey of a repository brings.
#[derive(Debug)]
pub struct Survey {
    pub decisions: AdoptDecisionsProof,
    pub original: OriginalEvidence,
    pub retained: Vec<Vec<u8>>,
}

pub open spec fn survey_outcome(r: Result<Survey>) -> Outcome<
    (DecisionsView, OriginalView, Seq<Seq<u8>>),
> {
    match r {
        Ok(v) => Ok((v.decisions@, v.original@, views(v.retained@))),
        Err(e) => Err(e@),
    }
}

fn survey<R: GitRunner + ?Sized, F: FileSystem + ?Sized>(
    runner: &mut R,
    files: &mut F,
    path: &[u8],
    args: &AdoptArgs,
    root: &HeldDirectory,
    git: &HeldDirectory,
) -> (r: Result<Survey>)
    ensures
        (final(runner).session(), final(files).files(), survey_outcome(r)) == survey_run(
            old(runner).session(),
            old(files).files(),
            path@,
            args@,
            root@,
            git@,
        ),
{
    let (worktrees, initial) = look(runner, files, path, root, git)?;
    let state = state(runner, path)?;
    let decisions = decide(runner, path, args)?;
    let classified = classify(runner, files, path, git, &initial.git_entries)?;
    let (inventory, parts) = settle_evidence(files, root, git, &initial, classified)?;
    let core = core_blobs(files, git)?;
    let original = OriginalEvidence {
        repository_identity: git.original_identity(),
        worktree_list_porcelain_z: worktrees,
        status_porcelain_v2_z: state.status,
        ls_files_stage_z: state.stages,
        ls_files_verbose_z: state.verbose,
        payload_manifest: inventory.payload,
        index: core.index,
        shared_indexes: parts.shared_indexes,
        config: core.config,
        config_worktree: core.config_worktree,
        head: core.head,
        refs: parts.refs,
        private_state: parts.private,
    };
    Ok(Survey { decisions, original, retained: parts.retained })
}

/// Planning an adoption. Nothing is changed: the file system is only asked, and Git takes no
/// optional locks.
pub open spec fn plan_run(s: Session, f: FileSession, a: ArgsView, cwd: Seq<u8>) -> (
    Session,
    FileSession,
    Outcome<AdoptView>,
) {
    match checked_args(a) {
        Err(e) => (s, f, Err(e)),
        Ok(_) => if a.action != AdoptAction::Fresh {
            (s, f, Err(not_fresh()))
        } else {
            match root_run(s, f, a.path, cwd) {
                (s1, f1, Err(e)) => (s1, f1, Err(e)),
                (s1, f1, Ok(path)) => match hold_run(f1, path) {
                    (f2, Err(e)) => (s1, f2, Err(e)),
                    (f2, Ok((root, lock))) => match survey_run(
                        s1,
                        f2,
                        path,
                        a,
                        root,
                        lock.directory,
                    ) {
                        (s3, f3, Err(e)) => (s3, f3, Err(e)),
                        (s3, f3, Ok((decisions, original, retained))) => match held_identity_run(f3, root.handle) {
                            (f4, Err(e)) => (s3, f4, Err(e)),
                            (f4, Ok(identity)) => (
                                s3,
                                f4,
                                Ok(
                                    AdoptView {
                                        root,
                                        lock,
                                        proven: RootView { canonical: path, identity },
                                        arguments: ArgumentsView {
                                            requested: match a.path {
                                                Some(p) => p,
                                                None => path,
                                            },
                                            remote: a.remote,
                                            default_branch: a.default_branch,
                                        },
                                        decisions,
                                        original,
                                        retained,
                                    },
                                ),
                            ),
                        },
                    },
                },
            }
        },
    }
}

pub open spec fn not_fresh() -> ErrorView {
    usage("recovery discovery is unavailable until the forward engine is installed"@)
}

/// Plans an adoption, without changing anything.
pub fn plan<R: GitRunner + ?Sized, F: FileSystem + ?Sized>(
    runner: &mut R,
    files: &mut F,
    args: &AdoptArgs,
    cwd: &[u8],
) -> (r: Result<AdoptPlan>)
    ensures
        (final(runner).session(), final(files).files(), plan_outcome(r)) == plan_run(
            old(runner).session(),
            old(files).files(),
            args@,
            cwd@,
        ),
{
    args.validate()?;
    if args.action != AdoptAction::Fresh {
        return Err(
            usage_error("recovery discovery is unavailable until the forward engine is installed"),
        );
    }
    let path = resolve_root(runner, files, &args.path, cwd)?;
    let (root, repository_lock) = hold(files, path.as_slice())?;
    let found = survey(
        runner,
        files,
        path.as_slice(),
        args,
        &root,
        repository_lock.directory(),
    )?;
    let identity = root.identity(files)?;
    let requested_root = match &args.path {
        Some(p) => copied(p.as_slice()),
        None => copied(path.as_slice()),
    };
    Ok(
        AdoptPlan {
            root,
            repository_lock,
            root_proof: RootProof { canonical_path: path, identity },
            arguments: AdoptArgumentsProof {
                requested_root,
                remote: copied_opt(&args.remote),
                default_branch: copied_opt(&args.default_branch),
            },
            decisions: found.decisions,
            original: found.original,
            retained_shared_fallthrough: found.retained,
        },
    )
}

} // verus!
