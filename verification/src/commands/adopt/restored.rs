//! What undoing an adoption asks of the file system, and that it brings back everything.
use vstd::prelude::*;
use crate::bytes::lit;
use crate::commands::adopt::evidence::{sha256_of, BlobView, ManifestView, NamedView};
use crate::commands::adopt::execute::{
    cleanup_run, next_drawn, other_drawn, phase_run, remove_from, PhaseDraws, JOURNAL_CURRENT,
    JOURNAL_NEW,
};
use crate::commands::adopt::forward::{
    aside_of, installed_run, payload_of, site_of, staging_of, way_run, SiteView,
};
use crate::commands::adopt::journal::{
    advance_run, progress_run, reversed_run, state_bytes, JournalView, PlanView, Progress, PHASES,
};
use crate::commands::adopt::kept::checkouts_are_compared_by_looking;
use crate::commands::adopt::preserved::carries;
use crate::commands::adopt::recover::{
    abort_inner_run, abort_run, first_pending, normalize_run, undo_down, RecoveredView,
};
use crate::commands::adopt::reverse::{
    after_run, all_lead_from, all_match_from, back_from, back_run, before_run, clear_place_run,
    locks_run, relock_run, remove_default_run, remove_second_run, restage_run, restore_down,
    restore_git_run, restore_one_run, restore_payload_run, restore_private_run, reverse_run,
    rollback_reason, unregister_run,
};
use crate::commands::adopt::steps::{
    located_run, lock_run, manifest_run, restore_run, tops, unlock_run,
};
use crate::commands::adopt::undoing::{
    brought_back, brought_back_from, found_intact, moved, undone_phases_move_everything_back,
};
use crate::error::ErrorView;
use crate::fsx::durable::{adds_only, only_written, writes_only_replace};
use crate::fsx::files::{
    answer_to, as_bytes, file_step, names_step, FileRequest, FileSession,
};
use crate::fsx::looking::{looks, only_looked};
use crate::fsx::write::{write_run, Draws, TempStrategy};
use crate::git::runner::Session;
use crate::grove::discover::bare_of;
use crate::path::{child, last_name, parent_of, same_path};

verus! {

/// Whether a path is that of a file which an adoption puts in the bare repository in the place of
/// one that is the worktree's own.
pub open spec fn put_in_place(path: Seq<u8>, x: SiteView) -> bool {
    exists|name: Seq<u8>|
        path == #[trigger] child(bare_of(x.root), name) && (same_path(name, lit("HEAD"))
            || same_path(name, lit("config.worktree")))
}

/// What undoing an adoption asks of the file system: entries go back the way they came, and
/// nothing is removed but the generated pointer at the root, what was put in place of a file that
/// goes back, and the transaction; nothing is replaced but the configuration.
pub open spec fn takes_back(request: FileRequest<Seq<u8>>, x: SiteView) -> bool {
    let config = child(bare_of(x.root), lit("config"));
    match request {
        FileRequest::Rename(from, to) => carries(to, from, x),
        FileRequest::RemoveFile(path) => {
            ||| path == child(x.root, lit(".git"))
            ||| put_in_place(path, x)
            ||| path == child(x.transaction, lit(JOURNAL_CURRENT))
            ||| path == child(x.transaction, lit(JOURNAL_NEW))
        },
        FileRequest::RemoveDirectory(path) => path == staging_of(x) || path == x.transaction,
        FileRequest::Replace(_, _, name) => last_name(config) == Some(name),
        FileRequest::SetMode(path, _) => path == config,
        FileRequest::CreateDirectory(path) => path == payload_of(x),
        FileRequest::CreateDirectories(_) => true,
        FileRequest::SyncDirectory(_) => true,
        FileRequest::StoreJournal(transaction, _, _) => transaction == x.transaction,
        _ => looks(request) || adds_only(request),
    }
}

/// Whether that is all that lies between two states of a session.
#[verifier::opaque]
pub open spec fn only_takes_back(before: FileSession, after: FileSession, x: SiteView) -> bool {
    &&& before.calls.len() <= after.calls.len()
    &&& after.script == before.script
    &&& forall|i: int|
        0 <= i < before.calls.len() ==> #[trigger] after.calls[i] == before.calls[i]
    &&& forall|i: int|
        before.calls.len() <= i < after.calls.len() ==> takes_back(#[trigger] after.calls[i], x)
}

broadcast proof fn lemma_on(a: FileSession, b: FileSession, c: FileSession, x: SiteView)
    requires
        #[trigger] only_takes_back(a, b, x),
        #[trigger] only_takes_back(b, c, x),
    ensures
        only_takes_back(a, c, x),
{
    reveal(only_takes_back);
    assert forall|i: int| 0 <= i < a.calls.len() implies #[trigger] c.calls[i] == a.calls[i] by {
        assert(c.calls[i] == b.calls[i]);
    }
    assert forall|i: int| a.calls.len() <= i < c.calls.len() implies takes_back(
        #[trigger] c.calls[i],
        x,
    ) by {
        if i < b.calls.len() {
            assert(c.calls[i] == b.calls[i]);
        }
    }
}

broadcast proof fn lemma_still(f: FileSession, x: SiteView)
    ensures
        #[trigger] only_takes_back(f, f, x),
{
    reveal(only_takes_back);
}

broadcast proof fn lemma_step(f: FileSession, request: FileRequest<Seq<u8>>, x: SiteView)
    requires
        takes_back(request, x),
    ensures
        #[trigger] only_takes_back(f, file_step(f, request).0, x),
{
    reveal(only_takes_back);
}

proof fn lemma_looked(f: FileSession, g: FileSession, x: SiteView)
    requires
        only_looked(f, g),
    ensures
        only_takes_back(f, g, x),
{
    reveal(only_takes_back);
    assert forall|i: int| f.calls.len() <= i < g.calls.len() implies takes_back(
        #[trigger] g.calls[i],
        x,
    ) by {
        assert(looks(g.calls[i]));
    }
}

proof fn lemma_wrote(f: FileSession, g: FileSession, x: SiteView)
    requires
        only_written(f, g, last_name(child(bare_of(x.root), lit("config")))),
    ensures
        only_takes_back(f, g, x),
{
    reveal(only_takes_back);
}

// ------------------------------------------------------------------- where a phase stands

proof fn lemma_lead(f: FileSession, base: Seq<u8>, names: Seq<Seq<u8>>, i: int, x: SiteView)
    ensures
        only_takes_back(f, all_lead_from(f, base, names, i).0, x),
    decreases names.len() - i,
{
    broadcast use {lemma_on, lemma_still, lemma_step};

    if i < names.len() {
        let f1 = file_step(f, FileRequest::Exists(child(base, names[i]))).0;
        assert(only_takes_back(f, f1, x));
        lemma_lead(f1, base, names, i + 1, x);
    }
}

proof fn lemma_match(f: FileSession, base: Seq<u8>, list: Seq<NamedView>, i: int, x: SiteView)
    ensures
        only_takes_back(f, all_match_from(f, base, list, i).0, x),
    decreases list.len() - i,
{
    broadcast use {lemma_on, lemma_still, lemma_step};

    if i < list.len() {
        let f1 = file_step(f, FileRequest::Read(child(base, list[i].path))).0;
        assert(only_takes_back(f, f1, x));
        lemma_match(f1, base, list, i + 1, x);
    }
}

proof fn lemma_two_looks(
    f: FileSession,
    a: FileRequest<Seq<u8>>,
    b: FileRequest<Seq<u8>>,
    x: SiteView,
)
    requires
        looks(a),
        looks(b),
    ensures
        only_takes_back(f, file_step(f, a).0, x),
        only_takes_back(f, file_step(file_step(f, a).0, b).0, x),
{
    broadcast use {lemma_on, lemma_step};

    let f1 = file_step(f, a).0;
    assert(only_takes_back(f, f1, x));
    assert(only_takes_back(f1, file_step(f1, b).0, x));
}

proof fn lemma_locks(f: FileSession, x: SiteView, wanted: bool)
    ensures
        only_takes_back(f, locks_run(f, x, wanted).0, x),
{
    broadcast use {lemma_on, lemma_still, lemma_step};

    let f1 = file_step(f, FileRequest::Inspect(child(x.admin, lit("locked")))).0;
    assert(only_takes_back(f, f1, x));
    if x.default is Some {
        let path = child(x.root, x.default->Some_0);
        let f2 = file_step(f1, FileRequest::Read(child(path, lit(".git")))).0;
        assert(only_takes_back(f1, f2, x));
        let admin = located_run(f1, path, "cannot inspect default worktree lock: ").1;
        if admin is Ok {
            let r = FileRequest::Inspect(child(admin->Ok_0, lit("locked")));
            assert(only_takes_back(f2, file_step(f2, r).0, x));
        }
    }
}

proof fn lemma_in_place(f: FileSession, x: SiteView)
    ensures
        only_takes_back(f, installed_run(f, x).0, x),
{
    broadcast use {lemma_on, lemma_still, lemma_step};

    let f1 = file_step(f, FileRequest::Inspect(staging_of(x))).0;
    assert(only_takes_back(f, f1, x));
    let f2 = file_step(f1, FileRequest::Inspect(aside_of(x))).0;
    assert(only_takes_back(f1, f2, x));
    let r = FileRequest::Read(child(payload_of(x), lit(".git")));
    assert(only_takes_back(f2, file_step(f2, r).0, x));
}

proof fn lemma_before(f: FileSession, x: SiteView, p: PlanView, k: int)
    ensures
        only_takes_back(f, before_run(f, x, p, k).0, x),
{
    broadcast use {lemma_still, lemma_step};

    let pointer = FileRequest::Read(child(payload_of(x), lit(".git")));
    let staging = FileRequest::Inspect(staging_of(x));
    if k == 0 {
        assert(only_takes_back(f, file_step(f, staging).0, x));
    } else if k == 1 {
        let git = FileRequest::Inspect(child(x.root, lit(".git")));
        lemma_two_looks(f, git, FileRequest::Inspect(bare_of(x.root)), x);
    } else if k == 2 {
        if tops(p.original.manifest) is Ok {
            lemma_lead(f, x.root, tops(p.original.manifest)->Ok_0, 0, x);
        }
    } else if k == 3 {
        let payload = FileRequest::Inspect(payload_of(x));
        lemma_two_looks(f, payload, FileRequest::Inspect(x.admin), x);
    } else if k == 4 {
        lemma_two_looks(f, staging, pointer, x);
    } else if k == 5 {
        lemma_match(f, bare_of(x.root), p.original.private_state, 0, x);
    } else if k == 6 {
        if x.default is Some {
            let r = FileRequest::Inspect(child(x.root, x.default->Some_0));
            assert(only_takes_back(f, file_step(f, r).0, x));
        }
    } else if k == 7 {
        lemma_locks(f, x, true);
    }
}

proof fn lemma_after(f: FileSession, x: SiteView, p: PlanView, k: int)
    ensures
        only_takes_back(f, after_run(f, x, p, k).0, x),
{
    broadcast use {lemma_still, lemma_step};

    if k == 0 {
        assert(only_takes_back(f, file_step(f, FileRequest::Inspect(staging_of(x))).0, x));
    } else if k == 1 {
        let bare = FileRequest::Inspect(bare_of(x.root));
        lemma_two_looks(f, bare, FileRequest::Read(child(x.root, lit(".git"))), x);
    } else if k == 2 {
        if tops(p.original.manifest) is Ok {
            lemma_lead(f, staging_of(x), tops(p.original.manifest)->Ok_0, 0, x);
        }
    } else if k == 3 {
        let r = FileRequest::Read(child(payload_of(x), lit(".git")));
        assert(only_takes_back(f, file_step(f, r).0, x));
    } else if k == 4 {
        lemma_in_place(f, x);
    } else if k == 5 {
        lemma_match(f, x.admin, p.original.private_state, 0, x);
    } else if k == 6 {
        if x.default is Some {
            let path = child(child(x.root, x.default->Some_0), lit(".git"));
            assert(only_takes_back(f, file_step(f, FileRequest::Inspect(path)).0, x));
        }
    } else if k == 7 {
        lemma_locks(f, x, false);
    }
}

// ------------------------------------------------------------------- undoing the phases

proof fn lemma_unlocked(s: Session, f: FileSession, path: Seq<u8>, x: SiteView)
    ensures
        only_takes_back(f, unlock_run(s, f, bare_of(x.root), path).1, x),
{
    broadcast use {lemma_on, lemma_still, lemma_step};

    let f1 = file_step(f, FileRequest::Read(child(path, lit(".git")))).0;
    assert(only_takes_back(f, f1, x));
    let admin = located_run(f, path, "cannot read worktree pointer before unlock: ").1;
    if admin is Ok {
        let r = FileRequest::Inspect(child(admin->Ok_0, lit("locked")));
        assert(only_takes_back(f1, file_step(f1, r).0, x));
    }
}

proof fn lemma_locked(s: Session, f: FileSession, path: Seq<u8>, x: SiteView)
    ensures
        only_takes_back(f, lock_run(s, f, bare_of(x.root), path, rollback_reason()).1, x),
{
    broadcast use {lemma_on, lemma_still, lemma_step};

    let f1 = file_step(f, FileRequest::Read(child(path, lit(".git")))).0;
    assert(only_takes_back(f, f1, x));
    let admin = located_run(f, path, "cannot read worktree pointer before relock: ").1;
    if admin is Ok {
        let r = FileRequest::Inspect(child(admin->Ok_0, lit("locked")));
        assert(only_takes_back(f1, file_step(f1, r).0, x));
    }
}

proof fn lemma_relocked(s: Session, f: FileSession, x: SiteView)
    ensures
        only_takes_back(f, relock_run(s, f, x).1, x),
{
    broadcast use {lemma_on, lemma_still};

    reveal(relock_run);
    lemma_locked(s, f, payload_of(x), x);
    let (s1, f1, r1) = lock_run(s, f, bare_of(x.root), payload_of(x), rollback_reason());
    if x.default is Some {
        lemma_locked(s1, f1, child(x.root, x.default->Some_0), x);
    }
}

proof fn lemma_second_removed(s: Session, f: FileSession, path: Seq<u8>, x: SiteView)
    ensures
        only_takes_back(f, remove_second_run(s, f, bare_of(x.root), path).1, x),
{
    broadcast use {lemma_on, lemma_still, lemma_step};

    let f1 = file_step(f, FileRequest::Inspect(path)).0;
    assert(only_takes_back(f, f1, x));
    assert forall|t: Session| only_takes_back(
        f1,
        (#[trigger] unlock_run(t, f1, bare_of(x.root), path)).1,
        x,
    ) by {
        lemma_unlocked(t, f1, path, x);
    }
}

proof fn lemma_default_removed(s: Session, f: FileSession, x: SiteView, p: PlanView)
    ensures
        only_takes_back(f, remove_default_run(s, f, x, p).1, x),
{
    broadcast use lemma_still;

    reveal(remove_default_run);
    if x.default is Some {
        lemma_second_removed(s, f, child(x.root, x.default->Some_0), x);
    }
}

proof fn lemma_config_restored(f: FileSession, blob: BlobView, d: Draws, x: SiteView)
    ensures
        only_takes_back(f, restore_run(f, child(bare_of(x.root), lit("config")), blob, d).0, x),
{
    broadcast use {lemma_on, lemma_step};

    let path = child(bare_of(x.root), lit("config"));
    let f1 = file_step(f, FileRequest::Read(path)).0;
    assert(only_takes_back(f, f1, x));
    writes_only_replace(f1, path, blob.bytes, TempStrategy::Auto, d);
    let f2 = write_run(f1, path, blob.bytes, TempStrategy::Auto, d).0;
    lemma_wrote(f1, f2, x);
    let r = FileRequest::SetMode(path, blob.mode & 0xfff);
    assert(only_takes_back(f2, file_step(f2, r).0, x));
}

proof fn lemma_one_restored(s: Session, f: FileSession, n: NamedView, x: SiteView)
    ensures
        only_takes_back(f, restore_one_run(s, f, n, bare_of(x.root), x.admin).1, x),
{
    broadcast use {lemma_on, lemma_still, lemma_step};

    let (bare, admin) = (bare_of(x.root), x.admin);
    let source = child(admin, n.path);
    let destination = child(bare, n.path);
    assert(carries(destination, source, x));
    let f1 = file_step(f, FileRequest::Read(destination)).0;
    assert(only_takes_back(f, f1, x));
    let f2 = file_step(f1, FileRequest::Read(source)).0;
    assert(only_takes_back(f1, f2, x));
    let g = file_step(f2, FileRequest::Inspect(destination)).0;
    assert(only_takes_back(f2, g, x));
    let (s3, f3, r3) = clear_place_run(s, f2, n.path, destination);
    assert(only_takes_back(f2, f3, x)) by {
        if same_path(n.path, lit("HEAD")) || same_path(n.path, lit("config.worktree")) {
            assert(put_in_place(destination, x));
            assert(only_takes_back(g, file_step(g, FileRequest::RemoveFile(destination)).0, x));
        }
    }
    let what = "cannot restore private-state parent: "@;
    let f4 = way_run(f3, destination, what).0;
    assert(only_takes_back(f3, f4, x)) by {
        if parent_of(destination) is Some {
            let r = FileRequest::CreateDirectories(parent_of(destination)->Some_0);
            assert(only_takes_back(f3, file_step(f3, r).0, x));
        }
    }
    let f5 = file_step(f4, FileRequest::Rename(source, destination)).0;
    assert(only_takes_back(f4, f5, x));
}

proof fn lemma_restored_down(s: Session, f: FileSession, list: Seq<NamedView>, n: int, x: SiteView)
    ensures
        only_takes_back(f, restore_down(s, f, list, bare_of(x.root), x.admin, n).1, x),
    decreases n,
{
    broadcast use {lemma_on, lemma_still};

    if n > 0 {
        lemma_one_restored(s, f, list[n - 1], x);
        let (s1, f1, r1) = restore_one_run(s, f, list[n - 1], bare_of(x.root), x.admin);
        lemma_restored_down(s1, f1, list, n - 1, x);
    }
}

proof fn lemma_private_restored(s: Session, f: FileSession, x: SiteView, p: PlanView, d: Draws)
    ensures
        only_takes_back(f, restore_private_run(s, f, x, p, d).1, x),
{
    broadcast use {lemma_on, lemma_still, lemma_step};

    reveal(restore_private_run);
    let bare = bare_of(x.root);
    let list = p.original.private_state;
    lemma_restored_down(s, f, list, list.len() as int, x);
    let f1 = restore_down(s, f, list, bare, x.admin, list.len() as int).1;
    lemma_config_restored(f1, p.original.config, d, x);
    let f2 = restore_run(f1, child(bare, lit("config")), p.original.config, d).0;
    assert(only_takes_back(f2, file_step(f2, FileRequest::SyncDirectory(bare)).0, x));
}

proof fn lemma_restaged(f: FileSession, x: SiteView, manifest: Seq<ManifestView>)
    ensures
        only_takes_back(f, restage_run(f, x, manifest).0, x),
{
    reveal(restage_run);
    broadcast use {lemma_on, lemma_still, lemma_step};

    let pointer = child(payload_of(x), lit(".git"));
    let (staging, payload, aside) = (staging_of(x), payload_of(x), aside_of(x));
    checkouts_are_compared_by_looking(f, manifest, payload, false);
    let f1 = manifest_run(f, manifest, payload, false).0;
    lemma_looked(f, f1, x);
    let f2 = file_step(f1, FileRequest::Read(pointer)).0;
    assert(only_takes_back(f1, f2, x));
    let f3 = file_step(f2, FileRequest::Rename(pointer, aside)).0;
    assert(only_takes_back(f2, f3, x));
    let f4 = file_step(f3, FileRequest::Rename(payload, staging)).0;
    assert(only_takes_back(f3, f4, x));
    let f5 = file_step(f4, FileRequest::CreateDirectory(payload)).0;
    assert(only_takes_back(f4, f5, x));
    let f6 = file_step(f5, FileRequest::Rename(aside, pointer)).0;
    assert(only_takes_back(f5, f6, x));
    assert(only_takes_back(f6, file_step(f6, FileRequest::SyncDirectory(x.root)).0, x));
}

proof fn lemma_brought(f: FileSession, names: Seq<Seq<u8>>, i: int, x: SiteView)
    ensures
        only_takes_back(f, back_from(f, names, x.root, staging_of(x), i).0, x),
    decreases names.len() - i,
{
    broadcast use {lemma_on, lemma_still, lemma_step};

    let (root, staging) = (x.root, staging_of(x));
    if i >= names.len() {
        assert(only_takes_back(f, file_step(f, FileRequest::SyncDirectory(root)).0, x));
    } else {
        let (a, b) = (child(staging, names[i]), child(root, names[i]));
        assert(carries(b, a, x));
        let f1 = file_step(f, FileRequest::Inspect(b)).0;
        assert(only_takes_back(f, f1, x));
        let f2 = file_step(f1, FileRequest::Inspect(a)).0;
        assert(only_takes_back(f1, f2, x));
        let f3 = file_step(f2, FileRequest::Rename(a, b)).0;
        assert(only_takes_back(f2, f3, x));
        let g = back_run(f, names[i], root, staging).0;
        assert(only_takes_back(f, g, x));
        lemma_brought(g, names, i + 1, x);
    }
}

proof fn lemma_git_restored(f: FileSession, x: SiteView, config: BlobView, d: Draws)
    ensures
        only_takes_back(f, restore_git_run(f, x, config, d).0, x),
{
    reveal(restore_git_run);
    broadcast use {lemma_on, lemma_still, lemma_step};

    let bare = bare_of(x.root);
    let pointer = child(x.root, lit(".git"));
    lemma_config_restored(f, config, d, x);
    let f1 = restore_run(f, child(bare, lit("config")), config, d).0;
    let f2 = file_step(f1, FileRequest::Read(pointer)).0;
    assert(only_takes_back(f1, f2, x));
    let f3 = file_step(f2, FileRequest::RemoveFile(pointer)).0;
    assert(only_takes_back(f2, f3, x));
    let f4 = file_step(f3, FileRequest::Rename(bare, pointer)).0;
    assert(only_takes_back(f3, f4, x));
    assert(only_takes_back(f4, file_step(f4, FileRequest::SyncDirectory(x.root)).0, x));
}

proof fn lemma_reversed(s: Session, f: FileSession, x: SiteView, p: PlanView, k: int, d: Draws)
    ensures
        only_takes_back(f, reverse_run(s, f, x, p, k, d).1, x),
{
    reveal(reverse_run);
    broadcast use {lemma_on, lemma_still, lemma_step};

    if k == 7 {
        lemma_relocked(s, f, x);
    } else if k == 6 {
        lemma_default_removed(s, f, x, p);
    } else if k == 5 {
        lemma_private_restored(s, f, x, p, d);
    } else if k == 4 {
        lemma_restaged(f, x, p.original.manifest);
    } else if k == 3 {
        reveal(unregister_run);
        lemma_unlocked(s, f, payload_of(x), x);
    } else if k == 2 {
        reveal(restore_payload_run);
        if tops(p.original.manifest) is Ok {
            lemma_brought(f, tops(p.original.manifest)->Ok_0, 0, x);
        }
    } else if k == 1 {
        lemma_git_restored(f, x, p.original.config, d);
    } else if k == 0 {
        let f1 = file_step(f, FileRequest::RemoveDirectory(staging_of(x))).0;
        assert(only_takes_back(f, f1, x));
        let r = FileRequest::SyncDirectory(x.transaction);
        assert(only_takes_back(f1, file_step(f1, r).0, x));
    }
}

// ------------------------------------------------------------------------ the whole course

proof fn lemma_advanced(
    f: FileSession,
    j: JournalView,
    done: Seq<bool>,
    progress: Progress,
    x: SiteView,
)
    ensures
        only_takes_back(f, advance_run(f, x.transaction, j, done, progress).0, x),
{
    broadcast use {lemma_still, lemma_step};

    if j.generation < u64::MAX {
        let next = JournalView {
            generation: (j.generation + 1) as u64,
            done,
            progress,
            ..j
        };
        let r = FileRequest::StoreJournal(x.transaction, next.generation, state_bytes(next));
        assert(only_takes_back(f, file_step(f, r).0, x));
    }
}

proof fn lemma_removing(f: FileSession, names: Seq<Seq<u8>>, i: int, x: SiteView)
    ensures
        only_takes_back(f, remove_from(f, x.transaction, names, i).0, x),
    decreases names.len() - i,
{
    broadcast use {lemma_on, lemma_still, lemma_step};

    if i >= names.len() {
        let r = FileRequest::RemoveDirectory(x.transaction);
        assert(only_takes_back(f, file_step(f, r).0, x));
    } else if names[i] == lit(JOURNAL_CURRENT) || names[i] == lit(JOURNAL_NEW) {
        let r = FileRequest::RemoveFile(child(x.transaction, names[i]));
        let f1 = file_step(f, r).0;
        assert(only_takes_back(f, f1, x));
        lemma_removing(f1, names, i + 1, x);
    }
}

proof fn lemma_cleaned(f: FileSession, x: SiteView)
    ensures
        only_takes_back(f, cleanup_run(f, x.transaction, x.root).0, x),
{
    broadcast use {lemma_on, lemma_step};

    let list = FileRequest::List(x.transaction);
    let f1 = file_step(f, list).0;
    assert(only_takes_back(f, f1, x));
    let names = names_step(f, list).1;
    if names is Ok {
        lemma_removing(f1, names->Ok_0, 0, x);
        let f2 = remove_from(f1, x.transaction, names->Ok_0, 0).0;
        assert(only_takes_back(f2, file_step(f2, FileRequest::SyncDirectory(x.root)).0, x));
    }
}

proof fn lemma_undone(
    s: Session,
    f: FileSession,
    j: JournalView,
    k: int,
    ds: Seq<PhaseDraws>,
    x: SiteView,
)
    requires
        site_of(x.root, x.transaction, j.plan.decisions) is Ok ==> site_of(
            x.root,
            x.transaction,
            j.plan.decisions,
        )->Ok_0 == x,
    ensures
        only_takes_back(f, undo_down(s, f, j, x.root, x.transaction, k, ds).1, x),
    decreases k,
{
    broadcast use {lemma_on, lemma_still};

    if k <= 0 {
        lemma_advanced(f, j, j.done, Progress::Aborted, x);
        let f1 = progress_run(f, x.transaction, j, Progress::Aborted).0;
        lemma_cleaned(f1, x);
    } else if !j.done[k - 1] {
        lemma_undone(s, f, j, k - 1, other_drawn(ds), x);
    } else if site_of(x.root, x.transaction, j.plan.decisions) is Ok {
        let d = next_drawn(ds).file;
        lemma_reversed(s, f, x, j.plan, k - 1, d);
        let (s1, f1, r1) = reverse_run(s, f, x, j.plan, k - 1, d);
        if r1 is Ok {
            lemma_advanced(f1, j, j.done.update(k - 1, false), j.progress, x);
            let (f2, r2, j1) = reversed_run(f1, x.transaction, j, k - 1);
            if r2 is Ok {
                lemma_undone(s1, f2, j1, k - 1, other_drawn(ds), x);
            }
        }
    }
}

proof fn lemma_pending(done: Seq<bool>, k: int)
    ensures
        first_pending(done, k) >= k || first_pending(done, k) == PHASES,
    decreases PHASES - k,
{
    if k < PHASES && done[k] {
        lemma_pending(done, k + 1);
    }
}

proof fn lemma_normalized(f: FileSession, j: JournalView, x: SiteView)
    requires
        site_of(x.root, x.transaction, j.plan.decisions) is Ok ==> site_of(
            x.root,
            x.transaction,
            j.plan.decisions,
        )->Ok_0 == x,
    ensures
        only_takes_back(f, normalize_run(f, j, x.root, x.transaction).0, x),
        normalize_run(f, j, x.root, x.transaction).1.plan == j.plan,
        j.done.len() == PHASES ==> {
            let done = normalize_run(f, j, x.root, x.transaction).1.done;
            &&& done.len() == PHASES
            &&& forall|k: int| 0 <= k < PHASES && j.done[k] ==> #[trigger] done[k]
        },
{
    broadcast use {lemma_on, lemma_still};

    let k = first_pending(j.done, 0);
    lemma_pending(j.done, 0);
    if k < PHASES {
        lemma_after(f, x, j.plan, k);
        let f1 = after_run(f, x, j.plan, k).0;
        lemma_before(f1, x, j.plan, k);
        lemma_advanced(f1, j, j.done.update(k, true), j.progress, x);
    }
}

/// Undoing an adoption takes nothing away, whatever comes of it: entries go back the way they
/// came, and nothing is removed or replaced but what the adoption itself put there, the
/// transaction, and the configuration, which is put back.
pub proof fn undoing_takes_nothing_away(
    s: Session,
    f: FileSession,
    v: RecoveredView,
    ds: Seq<PhaseDraws>,
    x: SiteView,
)
    requires
        site_of(v.root, v.transaction, v.journal.plan.decisions) == Ok::<
            SiteView,
            ErrorView,
        >(x),
    ensures
        only_takes_back(f, abort_run(s, f, v, ds).1, x),
{
    broadcast use {lemma_on, lemma_still};

    let j = v.journal;
    lemma_cleaned(f, x);
    lemma_undone(s, f, j, PHASES as int, ds, x);
    lemma_normalized(f, j, x);
    let (f1, j1, r1) = normalize_run(f, j, x.root, x.transaction);
    lemma_advanced(f1, j1, j1.done, Progress::Aborting, x);
    let (f2, r2, j2) = progress_run(f1, x.transaction, j1, Progress::Aborting);
    lemma_undone(s, f2, j2, PHASES as int, ds, x);
    let (s3, f3, j3, r3) = abort_inner_run(s, f, v, ds);
    assert(only_takes_back(f, f3, x));
    let asked = FileRequest::Exists(x.transaction);
    lemma_step(f3, asked, x);
    let f4 = file_step(f3, asked).0;
    lemma_step(
        f4,
        FileRequest::StoreJournal(x.transaction, j3.generation, state_bytes(j3)),
        x,
    );
}

// --------------------------------------------------------------------- everything goes back

proof fn lemma_moved_longer(
    a: FileSession,
    b: FileSession,
    c: FileSession,
    d: FileSession,
    from: Seq<u8>,
    to: Seq<u8>,
    x: SiteView,
)
    requires
        only_takes_back(a, b, x),
        moved(b, c, from, to),
        only_takes_back(c, d, x),
    ensures
        moved(a, d, from, to),
{
    reveal(only_takes_back);
    reveal(moved);
    let i = choose|i: int|
        b.calls.len() <= i < c.calls.len() && #[trigger] c.calls[i] == FileRequest::Rename(
            from,
            to,
        );
    assert(d.calls[i] == c.calls[i]);
}

proof fn lemma_back_longer(
    a: FileSession,
    b: FileSession,
    c: FileSession,
    d: FileSession,
    x: SiteView,
    p: PlanView,
    from: Seq<u8>,
    to: Seq<u8>,
)
    requires
        only_takes_back(a, b, x),
        brought_back_from(b, c, x, p, from, to),
        only_takes_back(c, d, x),
    ensures
        brought_back_from(a, d, x, p, from, to),
{
    let list = p.original.private_state;
    let (bare, admin) = (bare_of(x.root), x.admin);
    let i = choose|i: int|
        0 <= i < list.len() && from == child(bare, (#[trigger] list[i]).path) && to == child(
            admin,
            list[i].path,
        ) && brought_back(b, c, list[i], bare, admin);
    let n = list[i];
    let (back, there) = (child(bare, n.path), child(admin, n.path));
    if moved(b, c, there, back) {
        lemma_moved_longer(a, b, c, d, there, back, x);
    } else {
        reveal(only_takes_back);
        reveal(found_intact);
        let m = choose|m: int|
            b.calls.len() <= m < c.calls.len() && #[trigger] c.calls[m] == FileRequest::Read(back)
                && as_bytes(answer_to(c, m)) is Ok && sha256_of(as_bytes(answer_to(c, m))->Ok_0)
                == n.blob.sha256;
        assert(d.calls[m] == c.calls[m]);
        assert(d.calls.take(m + 1) =~= c.calls.take(m + 1));
        assert(found_intact(a, d, back, n.blob.sha256));
    }
    assert(brought_back(a, d, n, bare, admin));
}

/// Whether what a phase moved has gone back between two states of a session.
pub open spec fn gone_back(
    before: FileSession,
    after: FileSession,
    x: SiteView,
    p: PlanView,
    from: Seq<u8>,
    to: Seq<u8>,
) -> bool {
    moved(before, after, to, from) || brought_back_from(before, after, x, p, from, to)
}

proof fn lemma_gone_back_longer(
    a: FileSession,
    b: FileSession,
    c: FileSession,
    d: FileSession,
    x: SiteView,
    p: PlanView,
    from: Seq<u8>,
    to: Seq<u8>,
)
    requires
        only_takes_back(a, b, x),
        gone_back(b, c, x, p, from, to),
        only_takes_back(c, d, x),
    ensures
        gone_back(a, d, x, p, from, to),
{
    if moved(b, c, to, from) {
        lemma_moved_longer(a, b, c, d, to, from, x);
    } else {
        lemma_back_longer(a, b, c, d, x, p, from, to);
    }
}

/// What one phase moved, from where it was to where it is.
pub open spec fn phase_moved(
    x: SiteView,
    p: PlanView,
    k: int,
    from: Seq<u8>,
    to: Seq<u8>,
) -> bool {
    exists|s: Session, f: FileSession, why: Seq<u8>, d: PhaseDraws|
        moved(f, (#[trigger] phase_run(s, f, x, p, why, k, d)).1, from, to)
}

proof fn lemma_undone_back(
    s: Session,
    f: FileSession,
    j: JournalView,
    n: int,
    ds: Seq<PhaseDraws>,
    x: SiteView,
    k: int,
    from: Seq<u8>,
    to: Seq<u8>,
)
    requires
        site_of(x.root, x.transaction, j.plan.decisions) == Ok::<
            SiteView,
            ErrorView,
        >(x),
        0 <= k < n <= PHASES,
        j.done.len() == PHASES,
        j.done[k],
        phase_moved(x, j.plan, k, from, to),
        undo_down(s, f, j, x.root, x.transaction, n, ds).3 is Ok,
    ensures
        gone_back(f, undo_down(s, f, j, x.root, x.transaction, n, ds).1, x, j.plan, from, to),
    decreases n,
{
    broadcast use {lemma_on, lemma_still};

    let end = undo_down(s, f, j, x.root, x.transaction, n, ds).1;
    let p = j.plan;
    if !j.done[n - 1] {
        lemma_undone_back(s, f, j, n - 1, other_drawn(ds), x, k, from, to);
    } else {
        let d = next_drawn(ds).file;
        lemma_reversed(s, f, x, p, n - 1, d);
        let (s1, f1, r1) = reverse_run(s, f, x, p, n - 1, d);
        lemma_advanced(f1, j, j.done.update(n - 1, false), j.progress, x);
        let (f2, r2, j1) = reversed_run(f1, x.transaction, j, n - 1);
        lemma_undone(s1, f2, j1, n - 1, other_drawn(ds), x);
        if k == n - 1 {
            let (s0, f0, why, d0) = choose|s0: Session, f0: FileSession, why: Seq<u8>, d0: PhaseDraws|
                moved(f0, (#[trigger] phase_run(s0, f0, x, p, why, k, d0)).1, from, to);
            undone_phases_move_everything_back(s0, f0, x, p, why, k, d0, s, f, d, from, to);
            lemma_gone_back_longer(f, f, f1, end, x, p, from, to);
        } else {
            lemma_undone_back(s1, f2, j1, n - 1, other_drawn(ds), x, k, from, to);
            lemma_gone_back_longer(f, f2, end, end, x, p, from, to);
        }
    }
}

/// An adoption that is undone to its end has moved back everything that the phases recorded as
/// done had moved. A file that is the worktree's own may instead have been found to be back
/// already, with its contents intact.
pub proof fn undone_adoptions_move_everything_back(
    s: Session,
    f: FileSession,
    v: RecoveredView,
    ds: Seq<PhaseDraws>,
    x: SiteView,
    k: int,
    from: Seq<u8>,
    to: Seq<u8>,
)
    requires
        site_of(v.root, v.transaction, v.journal.plan.decisions) == Ok::<
            SiteView,
            ErrorView,
        >(x),
        0 <= k < PHASES,
        v.journal.done.len() == PHASES,
        v.journal.done[k],
        v.journal.progress == Progress::Forward || v.journal.progress == Progress::Aborting,
        phase_moved(x, v.journal.plan, k, from, to),
        abort_run(s, f, v, ds).3 is Ok,
    ensures
        gone_back(f, abort_run(s, f, v, ds).1, x, v.journal.plan, from, to),
{
    broadcast use {lemma_on, lemma_still};

    let j = v.journal;
    let end = abort_run(s, f, v, ds).1;
    if j.progress == Progress::Aborting {
        lemma_undone_back(s, f, j, PHASES as int, ds, x, k, from, to);
    } else {
        lemma_normalized(f, j, x);
        let (f1, j1, r1) = normalize_run(f, j, x.root, x.transaction);
        lemma_advanced(f1, j1, j1.done, Progress::Aborting, x);
        let (f2, r2, j2) = progress_run(f1, x.transaction, j1, Progress::Aborting);
        assert(j1.done[k]);
        lemma_undone_back(s, f2, j2, PHASES as int, ds, x, k, from, to);
        lemma_gone_back_longer(f, f2, end, end, x, j.plan, from, to);
    }
}

} // verus!
