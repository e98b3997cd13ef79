//! What an adoption leaves as it was: nothing of the checkout is removed or replaced, and it is
//! found to be what it was before the adoption is committed.
use vstd::prelude::*;
use crate::bytes::lit;
use crate::commands::adopt::evidence::{ManifestView, NamedView, OriginalView};
use crate::commands::adopt::execute::{
    cleanup_run, complete_run, execute_from, install_default_run, next_drawn, other_drawn,
    phase_run, record_of, remove_from, PhaseDraws, JOURNAL_CURRENT, JOURNAL_NEW,
};
use crate::commands::adopt::forward::{
    aside_from, aside_of, aside_run, both_run, clear_run, fill_run, head_contents,
    install_bare_run, install_payload_run, install_private_run, installed_run, known_run,
    migrate_from, migrate_one_run, move_run, payload_of, pointer_due_run, pointer_run, reason_of,
    register_run, snapshot_again_run, snapshots_run, stage_payload_run, stage_run, staging_of,
    vacate_run, way_run, SiteView,
};
use crate::commands::adopt::journal::{
    advance_run, finish_run, progress_run, state_bytes, JournalView, PlanView, Progress, PHASES,
};
use crate::commands::adopt::offline::{lemma_phase, only_converts};
use crate::commands::adopt::queries::{flag_words, quiet, stage_words, status_words};
use crate::commands::adopt::steps::{
    component_run, config_bool_run, entries_from, entry_run, located_run, manifest_run,
    parents_run, same_object, tops, unlock_run,
};
use crate::error::ErrorView;
use crate::fsx::below::{held_identity_run, inventory_run};
use crate::fsx::directory::{open_run, validate_run, During, HeldView};
use crate::fsx::durable::{
    adds_only, only_added, only_written, vacant_places_are_only_filled, writes_only_replace,
};
use crate::fsx::files::{
    answer_to, as_handle, as_identity, bytes_step, file_step, handle_step, names_step, FileRequest,
    FileSession,
};
use crate::fsx::held::{checked_path, FileIdentity};
use crate::fsx::looking::{
    directories_are_opened_by_looking, held_identities_are_found_by_looking,
    inventories_are_taken_by_looking, lemma_looked_on, lemma_one_look, looks, only_looked,
    validations_are_made_by_looking,
};
use crate::fsx::write::{write_absent_run, write_run, Draws, Nonces, TempStrategy};
use crate::git::runner::{grown, lits, step, Session};
use crate::grove::discover::{bare_of, config_of};
use crate::grove::layout::POINTER_CONTENTS;
use crate::grove::metadata::write_to_config_run;
use crate::path::{child, joined_names, last_name, parent_of};

verus! {

// --------------------------------------------------------------- what is asked for on disk

/// How an adoption moves entries: the Git directory to the bare repository, each entry of the
/// checkout aside, the checkout as a whole to its worktree, the pointer that Git generates aside
/// and back, and the files that are the worktree's own to where Git keeps them.
pub open spec fn carries(from: Seq<u8>, to: Seq<u8>, x: SiteView) -> bool {
    let pointer = child(payload_of(x), lit(".git"));
    ||| from == child(x.root, lit(".git")) && to == bare_of(x.root)
    ||| exists|name: Seq<u8>|
        from == #[trigger] child(x.root, name) && to == child(staging_of(x), name)
    ||| from == staging_of(x) && to == payload_of(x)
    ||| from == pointer && to == aside_of(x)
    ||| from == aside_of(x) && to == pointer
    ||| exists|name: Seq<u8>|
        from == child(bare_of(x.root), name) && to == #[trigger] child(x.admin, name)
}

/// Whether a path is one in the administration of the checkout's worktree, which Git generates.
pub open spec fn generated(path: Seq<u8>, x: SiteView) -> bool {
    exists|name: Seq<u8>| path == #[trigger] child(x.admin, name)
}

/// Whether a request spares what a repository holds. Nothing is removed but what was generated in
/// the administration of the checkout's worktree, the empty directory that Git made for it, and
/// the transaction; nothing is replaced but the bare repository's `HEAD`.
pub open spec fn spares(request: FileRequest<Seq<u8>>, x: SiteView) -> bool {
    match request {
        FileRequest::Rename(from, to) => carries(from, to, x),
        FileRequest::RemoveFile(path) => {
            ||| generated(path, x)
            ||| path == child(x.transaction, lit(JOURNAL_CURRENT))
            ||| path == child(x.transaction, lit(JOURNAL_NEW))
        },
        FileRequest::RemoveDirectory(path) => {
            ||| generated(path, x)
            ||| path == payload_of(x)
            ||| path == x.transaction
        },
        FileRequest::Replace(_, _, name) => last_name(child(bare_of(x.root), lit("HEAD"))) == Some(
            name,
        ),
        FileRequest::CreateDirectory(_) => true,
        FileRequest::CreateDirectories(_) => true,
        FileRequest::SyncDirectory(_) => true,
        FileRequest::StoreJournal(transaction, _, _) => transaction == x.transaction,
        _ => looks(request) || adds_only(request),
    }
}

/// Whether all that lies between two states of a session spares what a repository holds.
#[verifier::opaque]
pub open spec fn only_spares(before: FileSession, after: FileSession, x: SiteView) -> bool {
    &&& before.calls.len() <= after.calls.len()
    &&& after.script == before.script
    &&& forall|i: int|
        0 <= i < before.calls.len() ==> #[trigger] after.calls[i] == before.calls[i]
    &&& forall|i: int|
        before.calls.len() <= i < after.calls.len() ==> spares(#[trigger] after.calls[i], x)
}

broadcast proof fn lemma_on(a: FileSession, b: FileSession, c: FileSession, x: SiteView)
    requires
        #[trigger] only_spares(a, b, x),
        #[trigger] only_spares(b, c, x),
    ensures
        only_spares(a, c, x),
{
    reveal(only_spares);
    assert forall|i: int| 0 <= i < a.calls.len() implies #[trigger] c.calls[i] == a.calls[i] by {
        assert(c.calls[i] == b.calls[i]);
    }
    assert forall|i: int| a.calls.len() <= i < c.calls.len() implies spares(
        #[trigger] c.calls[i],
        x,
    ) by {
        if i < b.calls.len() {
            assert(c.calls[i] == b.calls[i]);
        }
    }
}

broadcast proof fn lemma_still(f: FileSession, x: SiteView)
    ensures
        #[trigger] only_spares(f, f, x),
{
    reveal(only_spares);
}

broadcast proof fn lemma_step(f: FileSession, request: FileRequest<Seq<u8>>, x: SiteView)
    requires
        spares(request, x),
    ensures
        #[trigger] only_spares(f, file_step(f, request).0, x),
{
    reveal(only_spares);
}

proof fn lemma_looked(f: FileSession, g: FileSession, x: SiteView)
    requires
        only_looked(f, g),
    ensures
        only_spares(f, g, x),
{
    reveal(only_spares);
    assert forall|i: int| f.calls.len() <= i < g.calls.len() implies spares(
        #[trigger] g.calls[i],
        x,
    ) by {
        assert(looks(g.calls[i]));
    }
}

proof fn lemma_added(f: FileSession, g: FileSession, x: SiteView)
    requires
        only_added(f, g),
    ensures
        only_spares(f, g, x),
{
    reveal(only_spares);
    assert forall|i: int| f.calls.len() <= i < g.calls.len() implies spares(
        #[trigger] g.calls[i],
        x,
    ) by {
        assert(adds_only(g.calls[i]));
    }
}

proof fn lemma_wrote(f: FileSession, g: FileSession, x: SiteView)
    requires
        only_written(f, g, last_name(child(bare_of(x.root), lit("HEAD")))),
    ensures
        only_spares(f, g, x),
{
    reveal(only_spares);
}

// --------------------------------------------------------------------- checks of the checkout

proof fn lemma_entries(
    f: FileSession,
    base: HeldView,
    manifest: Seq<ManifestView>,
    only: Option<Seq<u8>>,
    exact: bool,
    i: int,
    x: SiteView,
)
    ensures
        only_spares(f, entries_from(f, base, manifest, only, exact, i).0, x),
    decreases manifest.len() - i,
{
    broadcast use {lemma_on, lemma_still, lemma_step};

    if i < manifest.len() {
        let f1 = entry_run(f, base, manifest[i], exact).0;
        assert(only_spares(f, f1, x)) by {
            if checked_path(manifest[i].path) is Ok {
                let names = checked_path(manifest[i].path)->Ok_0;
                let r1 = FileRequest::IdentityAt(base.handle, joined_names(names));
                let r2 = FileRequest::ReadLink(child(base.anchored, manifest[i].path));
                let g = file_step(f, r1).0;
                assert(only_spares(f, g, x));
                assert(only_spares(g, file_step(g, r2).0, x));
            }
        }
        lemma_entries(f, base, manifest, only, exact, i + 1, x);
        lemma_entries(f1, base, manifest, only, exact, i + 1, x);
    }
}

proof fn lemma_component(
    f: FileSession,
    manifest: Seq<ManifestView>,
    base: Seq<u8>,
    component: Seq<u8>,
    exact: bool,
    x: SiteView,
)
    ensures
        only_spares(f, component_run(f, manifest, base, component, exact).0, x),
{
    broadcast use lemma_on;

    directories_are_opened_by_looking(f, base);
    let (f1, held) = open_run(f, base);
    lemma_looked(f, f1, x);
    if held is Ok {
        lemma_entries(f1, held->Ok_0, manifest, Some(component), exact, 0, x);
    }
}

proof fn lemma_manifest(
    f: FileSession,
    manifest: Seq<ManifestView>,
    base: Seq<u8>,
    exact: bool,
    x: SiteView,
)
    ensures
        only_spares(f, manifest_run(f, manifest, base, exact).0, x),
{
    broadcast use lemma_on;

    directories_are_opened_by_looking(f, base);
    let (f1, held) = open_run(f, base);
    lemma_looked(f, f1, x);
    if held is Ok {
        inventories_are_taken_by_looking(f1, held->Ok_0.handle);
        let f2 = inventory_run(f1, held->Ok_0.handle).0;
        lemma_looked(f1, f2, x);
        lemma_entries(f2, held->Ok_0, manifest, None, exact, 0, x);
    }
}

proof fn lemma_known(
    f: FileSession,
    path: Seq<u8>,
    id: FileIdentity,
    otherwise: Seq<char>,
    x: SiteView,
)
    ensures
        only_spares(f, known_run(f, path, id, otherwise).0, x),
{
    broadcast use lemma_on;

    directories_are_opened_by_looking(f, path);
    let (f1, held) = open_run(f, path);
    lemma_looked(f, f1, x);
    if held is Ok {
        held_identities_are_found_by_looking(f1, held->Ok_0.handle);
        lemma_looked(f1, held_identity_run(f1, held->Ok_0.handle).0, x);
    }
}

// ------------------------------------------------------------------------------ the phases

proof fn lemma_staged(f: FileSession, x: SiteView)
    ensures
        only_spares(f, stage_run(f, x).0, x),
{
    broadcast use {lemma_on, lemma_still, lemma_step};

    reveal(stage_run);
    let f1 = file_step(f, FileRequest::Inspect(staging_of(x))).0;
    assert(only_spares(f, f1, x));
    let sync = FileRequest::SyncDirectory(x.transaction);
    assert(only_spares(f1, file_step(f1, sync).0, x));
    let f2 = file_step(f1, FileRequest::CreateDirectory(staging_of(x))).0;
    assert(only_spares(f1, f2, x));
    assert(only_spares(f2, file_step(f2, sync).0, x));
}

proof fn lemma_bare(
    s: Session,
    f: FileSession,
    x: SiteView,
    id: FileIdentity,
    drawn: Nonces,
)
    ensures
        only_spares(f, install_bare_run(s, f, x.root, id, drawn).1, x),
{
    reveal(install_bare_run);
    broadcast use {lemma_on, lemma_still, lemma_step};

    let root = x.root;
    let git = child(root, lit(".git"));
    let bare = bare_of(root);
    let f1 = file_step(f, FileRequest::Inspect(bare)).0;
    assert(only_spares(f, f1, x));
    let f2 = file_step(f1, FileRequest::Inspect(git)).0;
    assert(only_spares(f1, f2, x));
    let original = "the original .git directory no longer matches the journal"@;
    lemma_known(f2, git, id, original, x);
    let f3 = known_run(f2, git, id, original).0;
    let f4 = file_step(f3, FileRequest::Rename(git, bare)).0;
    assert(only_spares(f3, f4, x));
    let f5 = file_step(f4, FileRequest::SyncDirectory(root)).0;
    assert(only_spares(f4, f5, x));
    let g = move_run(f, root, id).0;
    assert(only_spares(f, g, x));
    let converted = "the converted .bare directory no longer matches the original .git inode"@;
    lemma_known(g, bare, id, converted, x);
    let g1 = known_run(g, bare, id, converted).0;
    let g2 = file_step(g1, FileRequest::Read(git)).0;
    assert(only_spares(g1, g2, x));
    vacant_places_are_only_filled(g2, git, lit(POINTER_CONTENTS), TempStrategy::Auto, drawn);
    let g3 = write_absent_run(g2, git, lit(POINTER_CONTENTS), TempStrategy::Auto, drawn).0;
    lemma_added(g2, g3, x);
    assert(only_spares(g1, pointer_run(g1, root, drawn).0, x));
}

proof fn lemma_aside(
    f: FileSession,
    manifest: Seq<ManifestView>,
    names: Seq<Seq<u8>>,
    i: int,
    x: SiteView,
)
    ensures
        only_spares(f, aside_from(f, manifest, names, x.root, staging_of(x), i).0, x),
    decreases names.len() - i,
{
    broadcast use {lemma_on, lemma_still, lemma_step};

    if i < names.len() {
        let (root, staging) = (x.root, staging_of(x));
        let source = child(root, names[i]);
        let destination = child(staging, names[i]);
        assert(carries(source, destination, x));
        let f1 = file_step(f, FileRequest::Inspect(source)).0;
        assert(only_spares(f, f1, x));
        let f2 = file_step(f1, FileRequest::Inspect(destination)).0;
        assert(only_spares(f1, f2, x));
        lemma_component(f2, manifest, root, names[i], true, x);
        lemma_component(f2, manifest, staging, names[i], false, x);
        let f3 = component_run(f2, manifest, root, names[i], true).0;
        let f4 = file_step(f3, FileRequest::Rename(source, destination)).0;
        assert(only_spares(f3, f4, x));
        let f5 = file_step(f4, FileRequest::SyncDirectory(root)).0;
        assert(only_spares(f4, f5, x));
        let f6 = file_step(f5, FileRequest::SyncDirectory(staging)).0;
        assert(only_spares(f5, f6, x));
        let g = aside_run(f, manifest, names[i], root, staging).0;
        assert(only_spares(f, g, x));
        lemma_aside(g, manifest, names, i + 1, x);
    }
}

proof fn lemma_parents(f: FileSession, relative: Seq<u8>, x: SiteView)
    ensures
        only_spares(f, parents_run(f, x.root, relative).0, x),
{
    broadcast use {lemma_still, lemma_step};

    if parent_of(relative) is Some {
        let r = FileRequest::CreateDirectories(child(x.root, parent_of(relative)->Some_0));
        assert(only_spares(f, file_step(f, r).0, x));
    }
}

proof fn lemma_registered(s: Session, f: FileSession, x: SiteView, p: PlanView, why: Seq<u8>)
    ensures
        only_spares(f, register_run(s, f, x, p.decisions.payload_head, why).1, x),
{
    broadcast use {lemma_on, lemma_still, lemma_step};

    reveal(register_run);
    let read = FileRequest::Read(child(payload_of(x), lit(".git")));
    let f1 = file_step(f, FileRequest::Inspect(payload_of(x))).0;
    assert(only_spares(f, f1, x));
    assert(only_spares(f1, file_step(f1, read).0, x));
    lemma_parents(f1, x.payload, x);
    let f2 = parents_run(f1, x.root, x.payload).0;
    assert(only_spares(f2, file_step(f2, read).0, x));
}

proof fn lemma_both(f: FileSession, a: Seq<u8>, b: Seq<u8>, wanted: bool, x: SiteView)
    ensures
        only_spares(f, both_run(f, a, b, wanted).0, x),
{
    broadcast use {lemma_on, lemma_step};

    let f1 = file_step(f, FileRequest::Inspect(a)).0;
    assert(only_spares(f, f1, x));
    assert(only_spares(f1, file_step(f1, FileRequest::Inspect(b)).0, x));
}

proof fn lemma_cleared(f: FileSession, x: SiteView)
    ensures
        only_spares(f, clear_run(f, x).0, x),
{
    broadcast use {lemma_on, lemma_still, lemma_step};

    let pointer = child(payload_of(x), lit(".git"));
    let (staging, payload, aside) = (staging_of(x), payload_of(x), aside_of(x));
    lemma_both(f, staging, pointer, true, x);
    let f1 = both_run(f, staging, pointer, true).0;
    assert(only_spares(f1, file_step(f1, FileRequest::Inspect(aside)).0, x));
    let f2 = pointer_due_run(f, x).0;
    assert(only_spares(f, f2, x));
    assert(only_spares(f2, file_step(f2, FileRequest::Rename(pointer, aside)).0, x));
    let f3 = if pointer_due_run(f, x).1 == Ok::<bool, ErrorView>(true) {
        file_step(f2, FileRequest::Rename(pointer, aside)).0
    } else {
        f2
    };
    assert(only_spares(f, f3, x));
    lemma_both(f3, aside, payload, true, x);
    let f4 = both_run(f3, aside, payload, true).0;
    assert(only_spares(f4, file_step(f4, FileRequest::RemoveDirectory(payload)).0, x));
}

proof fn lemma_filled(f: FileSession, x: SiteView)
    ensures
        only_spares(f, fill_run(f, x).0, x),
{
    broadcast use {lemma_on, lemma_still, lemma_step};

    let pointer = child(payload_of(x), lit(".git"));
    let (staging, payload, aside) = (staging_of(x), payload_of(x), aside_of(x));
    lemma_both(f, staging, payload, false, x);
    let f1 = both_run(f, staging, payload, false).0;
    assert(only_spares(f1, file_step(f1, FileRequest::Rename(staging, payload)).0, x));
    let f2 = if both_run(f, staging, payload, false).1 == Ok::<bool, ErrorView>(true) {
        file_step(f1, FileRequest::Rename(staging, payload)).0
    } else {
        f1
    };
    assert(only_spares(f, f2, x));
    lemma_both(f2, aside, pointer, false, x);
    let f3 = both_run(f2, aside, pointer, false).0;
    assert(only_spares(f3, file_step(f3, FileRequest::Rename(aside, pointer)).0, x));
}

proof fn lemma_installed(f: FileSession, x: SiteView)
    ensures
        only_spares(f, install_payload_run(f, x).0, x),
{
    reveal(install_payload_run);
    broadcast use {lemma_on, lemma_still, lemma_step};

    let pointer = child(payload_of(x), lit(".git"));
    let (staging, payload, aside) = (staging_of(x), payload_of(x), aside_of(x));
    lemma_cleared(f, x);
    let g = clear_run(f, x).0;
    lemma_filled(g, x);
    let h = fill_run(g, x).0;
    let h1 = file_step(h, FileRequest::Inspect(staging)).0;
    assert(only_spares(h, h1, x));
    let h2 = file_step(h1, FileRequest::Inspect(aside)).0;
    assert(only_spares(h1, h2, x));
    assert(only_spares(h2, file_step(h2, FileRequest::Read(pointer)).0, x));
    let h3 = installed_run(h, x).0;
    assert(only_spares(h, h3, x));
    let h4 = file_step(h3, FileRequest::SyncDirectory(x.root)).0;
    assert(only_spares(h3, h4, x));
    assert(only_spares(h4, file_step(h4, FileRequest::SyncDirectory(payload)).0, x));
}

proof fn lemma_migrating(s: Session, f: FileSession, list: Seq<NamedView>, i: int, x: SiteView)
    ensures
        only_spares(f, migrate_from(s, f, list, bare_of(x.root), x.admin, i).1, x),
    decreases list.len() - i,
{
    broadcast use {lemma_on, lemma_still, lemma_step};

    let (bare, admin) = (bare_of(x.root), x.admin);
    if i >= list.len() {
        let f1 = file_step(f, FileRequest::SyncDirectory(bare)).0;
        assert(only_spares(f, f1, x));
        assert(only_spares(f1, file_step(f1, FileRequest::SyncDirectory(admin)).0, x));
    } else {
        let n = list[i];
        let source = child(bare, n.path);
        let destination = child(admin, n.path);
        assert(carries(source, destination, x));
        assert(generated(destination, x));
        let f1 = file_step(f, FileRequest::Read(destination)).0;
        assert(only_spares(f, f1, x));
        let f2 = file_step(f1, FileRequest::Read(source)).0;
        assert(only_spares(f1, f2, x));
        let what = "cannot create private-state parent: "@;
        let f3 = way_run(f2, destination, what).0;
        assert(only_spares(f2, f3, x)) by {
            if parent_of(destination) is Some {
                let r = FileRequest::CreateDirectories(parent_of(destination)->Some_0);
                assert(only_spares(f2, file_step(f2, r).0, x));
            }
        }
        let g = file_step(f3, FileRequest::Inspect(destination)).0;
        assert(only_spares(f3, g, x));
        assert(only_spares(g, file_step(g, FileRequest::RemoveDirectory(destination)).0, x));
        assert(only_spares(g, file_step(g, FileRequest::RemoveFile(destination)).0, x));
        let f4 = vacate_run(f3, destination).0;
        assert(only_spares(f3, f4, x));
        let f5 = file_step(f4, FileRequest::Rename(source, destination)).0;
        assert(only_spares(f4, f5, x));
        let (s6, f6, r6) = migrate_one_run(s, f, n, bare, admin);
        assert(only_spares(f, f6, x));
        lemma_migrating(s6, f6, list, i + 1, x);
    }
}

proof fn lemma_private(s: Session, f: FileSession, x: SiteView, p: PlanView, d: Draws)
    ensures
        only_spares(f, install_private_run(s, f, x, p, d).1, x),
{
    broadcast use {lemma_on, lemma_still};

    reveal(install_private_run);
    let bare = bare_of(x.root);
    let list = p.original.private_state;
    let head = child(bare, lit("HEAD"));
    let contents = head_contents(p.decisions.default_branch);
    let s1 = config_bool_run(s, child(bare, lit("config")), "extensions.worktreeConfig").0;
    lemma_migrating(s1, f, list, 0, x);
    let f2 = migrate_from(s1, f, list, bare, x.admin, 0).1;
    writes_only_replace(f2, head, contents, TempStrategy::Auto, d);
    let f4 = write_run(f2, head, contents, TempStrategy::Auto, d).0;
    lemma_wrote(f2, f4, x);
    lemma_manifest(f4, p.original.manifest, payload_of(x), false, x);
}

proof fn lemma_second(s: Session, f: FileSession, x: SiteView, p: PlanView, why: Seq<u8>)
    ensures
        only_spares(f, install_default_run(s, f, x, p.decisions, why).1, x),
{
    broadcast use {lemma_on, lemma_still, lemma_step};

    reveal(install_default_run);
    if x.default is Some {
        let relative = x.default->Some_0;
        let path = child(x.root, relative);
        lemma_parents(f, relative, x);
        let f1 = parents_run(f, x.root, relative).0;
        let f2 = file_step(f1, FileRequest::Inspect(child(path, lit(".git")))).0;
        assert(only_spares(f1, f2, x));
        assert(only_spares(f2, file_step(f2, FileRequest::Inspect(path)).0, x));
    }
}

proof fn lemma_unlocked(s: Session, f: FileSession, path: Seq<u8>, x: SiteView)
    ensures
        only_spares(f, unlock_run(s, f, bare_of(x.root), path).1, x),
{
    broadcast use {lemma_on, lemma_still, lemma_step};

    let f1 = file_step(f, FileRequest::Read(child(path, lit(".git")))).0;
    assert(only_spares(f, f1, x));
    let admin = located_run(f, path, "cannot read worktree pointer before unlock: ").1;
    if admin is Ok {
        let r = FileRequest::Inspect(child(admin->Ok_0, lit("locked")));
        assert(only_spares(f1, file_step(f1, r).0, x));
    }
}

proof fn lemma_completed(s: Session, f: FileSession, x: SiteView, p: PlanView)
    ensures
        only_spares(f, complete_run(s, f, x, p).1, x),
{
    broadcast use {lemma_on, lemma_still};

    reveal(complete_run);
    let bare = bare_of(x.root);
    let s1 = write_to_config_run(s, config_of(x.root), record_of(p.decisions)).0;
    let s2 = snapshots_run(s1, payload_of(x), p.original).0;
    lemma_unlocked(s2, f, payload_of(x), x);
    let (s3, f3, r3) = unlock_run(s2, f, bare, payload_of(x));
    if x.default is Some {
        lemma_unlocked(s3, f3, child(x.root, x.default->Some_0), x);
    }
}

proof fn lemma_phase_spares(
    s: Session,
    f: FileSession,
    x: SiteView,
    p: PlanView,
    why: Seq<u8>,
    k: int,
    d: PhaseDraws,
)
    ensures
        only_spares(f, phase_run(s, f, x, p, why, k, d).1, x),
{
    reveal(phase_run);
    broadcast use lemma_still;

    if k == 0 {
        lemma_staged(f, x);
    } else if k == 1 {
        lemma_bare(s, f, x, p.original.repository_identity, d.pointer);
    } else if k == 2 {
        reveal(stage_payload_run);
        if tops(p.original.manifest) is Ok {
            lemma_aside(f, p.original.manifest, tops(p.original.manifest)->Ok_0, 0, x);
        }
    } else if k == 3 {
        lemma_registered(s, f, x, p, why);
    } else if k == 4 {
        lemma_installed(f, x);
    } else if k == 5 {
        lemma_private(s, f, x, p, d.file);
    } else if k == 6 {
        lemma_second(s, f, x, p, why);
    } else {
        lemma_completed(s, f, x, p);
    }
}

proof fn lemma_advanced(
    f: FileSession,
    j: JournalView,
    done: Seq<bool>,
    progress: Progress,
    x: SiteView,
)
    ensures
        only_spares(f, advance_run(f, x.transaction, j, done, progress).0, x),
{
    broadcast use {lemma_still, lemma_step};

    if j.generation < u64::MAX {
        let next = JournalView {
            generation: (j.generation + 1) as u64,
            done,
            progress,
            ..j
        };
        let r = FileRequest::StoreJournal(x.transaction, next.generation, state_bytes(next));
        assert(only_spares(f, file_step(f, r).0, x));
    }
}

proof fn lemma_removing(f: FileSession, names: Seq<Seq<u8>>, i: int, x: SiteView)
    ensures
        only_spares(f, remove_from(f, x.transaction, names, i).0, x),
    decreases names.len() - i,
{
    broadcast use {lemma_on, lemma_still, lemma_step};

    if i >= names.len() {
        let r = FileRequest::RemoveDirectory(x.transaction);
        assert(only_spares(f, file_step(f, r).0, x));
    } else if names[i] == lit(JOURNAL_CURRENT) || names[i] == lit(JOURNAL_NEW) {
        let r = FileRequest::RemoveFile(child(x.transaction, names[i]));
        let f1 = file_step(f, r).0;
        assert(only_spares(f, f1, x));
        lemma_removing(f1, names, i + 1, x);
    }
}

proof fn lemma_cleaned(f: FileSession, x: SiteView)
    ensures
        only_spares(f, cleanup_run(f, x.transaction, x.root).0, x),
{
    broadcast use {lemma_on, lemma_step};

    let list = FileRequest::List(x.transaction);
    let f1 = file_step(f, list).0;
    assert(only_spares(f, f1, x));
    let names = names_step(f, list).1;
    if names is Ok {
        lemma_removing(f1, names->Ok_0, 0, x);
        let f2 = remove_from(f1, x.transaction, names->Ok_0, 0).0;
        assert(only_spares(f2, file_step(f2, FileRequest::SyncDirectory(x.root)).0, x));
    }
}

/// From its first phase to its last, and to the end of its transaction, an adoption spares what
/// the repository holds: entries are moved, and nothing is removed or replaced but what was
/// generated on the way, and the `HEAD` of what becomes the bare repository.
pub proof fn adoptions_remove_nothing(
    s: Session,
    f: FileSession,
    j: JournalView,
    x: SiteView,
    k: int,
    ds: Seq<PhaseDraws>,
)
    ensures
        only_spares(f, execute_from(s, f, j, x, k, ds).1, x),
    decreases PHASES - k,
{
    broadcast use {lemma_on, lemma_still};

    let why = reason_of(j.nonce);
    if k >= PHASES {
        lemma_advanced(f, j, j.done, Progress::Committed, x);
        let f1 = progress_run(f, x.transaction, j, Progress::Committed).0;
        lemma_cleaned(f1, x);
    } else if j.done[k] {
        adoptions_remove_nothing(s, f, j, x, k + 1, other_drawn(ds));
    } else {
        lemma_phase_spares(s, f, x, j.plan, why, k, next_drawn(ds));
        let (s1, f1, r1) = phase_run(s, f, x, j.plan, why, k, next_drawn(ds));
        if r1 is Ok {
            lemma_advanced(f1, j, j.done.update(k, true), j.progress, x);
            let (f2, r2, j1) = finish_run(f1, x.transaction, j, k);
            if r2 is Ok {
                adoptions_remove_nothing(s1, f2, j1, x, k + 1, other_drawn(ds));
            }
        }
    }
}

// ------------------------------------------------------------------ what Git says at the end

/// Whether Git was asked something of the checkout between two states of a session, and answered
/// with exactly these bytes.
#[verifier::opaque]
pub open spec fn reported(
    before: Session,
    after: Session,
    checkout: Seq<u8>,
    words: Seq<&str>,
    bytes: Seq<u8>,
) -> bool {
    exists|i: int|
        before.calls.len() <= i < after.calls.len() && #[trigger] after.calls[i] == quiet(
            checkout,
            lits(words),
        ) && {
            &&& crate::git::runner::answer_to(after, i) matches Ok(out)
            &&& out.ok()
            &&& out.stdout == bytes
        }
}

/// Whether Git reported of a checkout what it had reported of it before: its status, what is
/// staged, and the flags in the index.
pub open spec fn reported_as_before(
    before: Session,
    after: Session,
    checkout: Seq<u8>,
    o: OriginalView,
) -> bool {
    &&& reported(before, after, checkout, status_words(), o.status.bytes)
    &&& reported(before, after, checkout, stage_words(), o.stages.bytes)
    &&& reported(before, after, checkout, flag_words(), o.verbose.bytes)
}

proof fn lemma_reported_longer(
    a: Session,
    b: Session,
    c: Session,
    d: Session,
    checkout: Seq<u8>,
    words: Seq<&str>,
    bytes: Seq<u8>,
)
    requires
        grown(a, b),
        reported(b, c, checkout, words, bytes),
        grown(c, d),
    ensures
        reported(a, d, checkout, words, bytes),
{
    reveal(reported);
    let i = choose|i: int|
        b.calls.len() <= i < c.calls.len() && #[trigger] c.calls[i] == quiet(
            checkout,
            lits(words),
        ) && {
            &&& crate::git::runner::answer_to(c, i) matches Ok(out)
            &&& out.ok()
            &&& out.stdout == bytes
        };
    assert(d.calls[i] == c.calls[i]);
    assert(d.calls.take(i + 1) =~= c.calls.take(i + 1));
}

proof fn lemma_again(
    s: Session,
    checkout: Seq<u8>,
    words: Seq<&str>,
    bytes: Seq<u8>,
    description: &str,
)
    requires
        snapshot_again_run(s, checkout, words, bytes, description).1 is Ok,
    ensures
        reported(
            s,
            snapshot_again_run(s, checkout, words, bytes, description).0,
            checkout,
            words,
            bytes,
        ),
        grown(s, snapshot_again_run(s, checkout, words, bytes, description).0),
{
    reveal(reported);
    let (s1, answer) = step(s, quiet(checkout, lits(words)));
    let i = s.calls.len() as int;
    assert(s1.calls[i] == quiet(checkout, lits(words)));
    assert(s1.calls.take(i + 1) =~= s1.calls);
}

proof fn lemma_snapshots(s: Session, checkout: Seq<u8>, o: OriginalView)
    requires
        snapshots_run(s, checkout, o).1 is Ok,
    ensures
        reported_as_before(s, snapshots_run(s, checkout, o).0, checkout, o),
        grown(s, snapshots_run(s, checkout, o).0),
{
    let (status, stages, flags) = (o.status.bytes, o.stages.bytes, o.verbose.bytes);
    lemma_again(s, checkout, status_words(), status, "status");
    let s1 = snapshot_again_run(s, checkout, status_words(), status, "status").0;
    lemma_again(s1, checkout, stage_words(), stages, "index stages");
    let s2 = snapshot_again_run(s1, checkout, stage_words(), stages, "index stages").0;
    lemma_again(s2, checkout, flag_words(), flags, "index flags");
    let s3 = snapshot_again_run(s2, checkout, flag_words(), flags, "index flags").0;
    lemma_reported_longer(s, s, s1, s3, checkout, status_words(), status);
    lemma_reported_longer(s, s1, s2, s3, checkout, stage_words(), stages);
    lemma_reported_longer(s, s2, s3, s3, checkout, flag_words(), flags);
}

proof fn lemma_grown(a: Session, b: Session, x: SiteView, p: PlanView, why: Seq<u8>)
    requires
        only_converts(a, b, x, p, why),
    ensures
        grown(a, b),
{
    reveal(only_converts);
}

proof fn lemma_as_before_longer(
    a: Session,
    b: Session,
    c: Session,
    d: Session,
    checkout: Seq<u8>,
    o: OriginalView,
)
    requires
        grown(a, b),
        reported_as_before(b, c, checkout, o),
        grown(c, d),
    ensures
        reported_as_before(a, d, checkout, o),
{
    lemma_reported_longer(a, b, c, d, checkout, status_words(), o.status.bytes);
    lemma_reported_longer(a, b, c, d, checkout, stage_words(), o.stages.bytes);
    lemma_reported_longer(a, b, c, d, checkout, flag_words(), o.verbose.bytes);
}

proof fn lemma_completion_reported(s: Session, f: FileSession, x: SiteView, p: PlanView)
    requires
        complete_run(s, f, x, p).2 is Ok,
    ensures
        reported_as_before(s, complete_run(s, f, x, p).0, payload_of(x), p.original),
{
    reveal(complete_run);
    let bare = bare_of(x.root);
    let s1 = write_to_config_run(s, config_of(x.root), record_of(p.decisions)).0;
    assert(grown(s, s1));
    lemma_snapshots(s1, payload_of(x), p.original);
    let s2 = snapshots_run(s1, payload_of(x), p.original).0;
    let (s3, f3, r3) = unlock_run(s2, f, bare, payload_of(x));
    assert(grown(s2, s3));
    let end = complete_run(s, f, x, p).0;
    assert(grown(s3, end));
    assert(grown(s2, end)) by {
        assert forall|i: int| 0 <= i < s2.calls.len() implies #[trigger] end.calls[i]
            == s2.calls[i] by {
            assert(end.calls[i] == s3.calls[i]);
        }
    }
    lemma_as_before_longer(s, s1, s2, end, payload_of(x), p.original);
}

/// An adoption that is carried to its end, and was not complete before, has found the checkout in
/// its worktree as Git reported it before: the same status, the same entries staged, and the same
/// flags, byte for byte.
pub proof fn committed_checkouts_report_as_before(
    s: Session,
    f: FileSession,
    j: JournalView,
    x: SiteView,
    k: int,
    ds: Seq<PhaseDraws>,
)
    requires
        0 <= k < PHASES,
        j.done.len() == PHASES,
        !j.done[PHASES - 1],
        execute_from(s, f, j, x, k, ds).3 is Ok,
    ensures
        reported_as_before(
            s,
            execute_from(s, f, j, x, k, ds).0,
            payload_of(x),
            j.plan.original,
        ),
    decreases PHASES - k,
{
    let why = reason_of(j.nonce);
    let end = execute_from(s, f, j, x, k, ds).0;
    if j.done[k] {
        committed_checkouts_report_as_before(s, f, j, x, k + 1, other_drawn(ds));
    } else {
        let d = next_drawn(ds);
        lemma_phase(s, f, x, j.plan, why, k, d);
        let (s1, f1, r1) = phase_run(s, f, x, j.plan, why, k, d);
        lemma_grown(s, s1, x, j.plan, why);
        let (f2, r2, j1) = finish_run(f1, x.transaction, j, k);
        if k + 1 < PHASES {
            committed_checkouts_report_as_before(s1, f2, j1, x, k + 1, other_drawn(ds));
            lemma_as_before_longer(s, s1, end, end, payload_of(x), j.plan.original);
        } else {
            reveal(phase_run);
            lemma_completion_reported(s, f, x, j.plan);
            assert(s1 == end);
        }
    }
}

// ---------------------------------------------------------------- what is on disk at the end

/// Whether a request opened a directory, which is held under a number since.
pub open spec fn opens_at(f: FileSession, i: int, path: Seq<u8>, handle: u64) -> bool {
    f.calls[i] == FileRequest::OpenDirectory(path) && match as_handle(answer_to(f, i)) {
        Ok(h) => h == handle,
        Err(_) => false,
    }
}

/// Whether a directory was opened between two states of a session, and is held under a number.
#[verifier::opaque]
pub open spec fn opened(before: FileSession, after: FileSession, path: Seq<u8>, handle: u64) -> bool {
    exists|i: int|
        before.calls.len() <= i < after.calls.len() && #[trigger] opens_at(after, i, path, handle)
}

/// Whether a request found an entry below a held directory to be the one that is known: the same
/// object, with the same mode, size, times and digest.
pub open spec fn finds_at(
    f: FileSession,
    i: int,
    handle: u64,
    entry: ManifestView,
    exact_times: bool,
) -> bool {
    f.calls[i] == FileRequest::IdentityAt(
        handle,
        joined_names(checked_path(entry.path)->Ok_0),
    ) && match as_identity(answer_to(f, i)) {
        Ok(id) => same_object(id, entry.identity, exact_times),
        Err(_) => false,
    }
}

/// Whether an entry was found between two states of a session.
#[verifier::opaque]
pub open spec fn found(
    before: FileSession,
    after: FileSession,
    handle: u64,
    entry: ManifestView,
    exact_times: bool,
) -> bool {
    exists|i: int|
        before.calls.len() <= i < after.calls.len() && #[trigger] finds_at(
            after,
            i,
            handle,
            entry,
            exact_times,
        )
}

/// Whether every entry that is known was found below one directory.
pub open spec fn all_found(
    before: FileSession,
    after: FileSession,
    path: Seq<u8>,
    manifest: Seq<ManifestView>,
    exact_times: bool,
) -> bool {
    exists|handle: u64| #[trigger]
        opened(before, after, path, handle) && forall|j: int|
            0 <= j < manifest.len() ==> found(
                before,
                after,
                handle,
                #[trigger] manifest[j],
                exact_times,
            )
}

proof fn lemma_found_longer(
    a: FileSession,
    b: FileSession,
    c: FileSession,
    d: FileSession,
    handle: u64,
    entry: ManifestView,
    exact: bool,
    x: SiteView,
)
    requires
        only_spares(a, b, x),
        found(b, c, handle, entry, exact),
        only_spares(c, d, x),
    ensures
        found(a, d, handle, entry, exact),
{
    reveal(only_spares);
    reveal(found);
    let i = choose|i: int|
        b.calls.len() <= i < c.calls.len() && #[trigger] finds_at(c, i, handle, entry, exact);
    assert(d.calls[i] == c.calls[i]);
    assert(d.calls.take(i + 1) =~= c.calls.take(i + 1));
    assert(finds_at(d, i, handle, entry, exact));
}

proof fn lemma_opened_longer(
    a: FileSession,
    b: FileSession,
    c: FileSession,
    d: FileSession,
    path: Seq<u8>,
    handle: u64,
    x: SiteView,
)
    requires
        only_spares(a, b, x),
        opened(b, c, path, handle),
        only_spares(c, d, x),
    ensures
        opened(a, d, path, handle),
{
    reveal(only_spares);
    reveal(opened);
    let i = choose|i: int|
        b.calls.len() <= i < c.calls.len() && #[trigger] opens_at(c, i, path, handle);
    assert(d.calls[i] == c.calls[i]);
    assert(d.calls.take(i + 1) =~= c.calls.take(i + 1));
    assert(opens_at(d, i, path, handle));
}

proof fn lemma_all_found_longer(
    a: FileSession,
    b: FileSession,
    c: FileSession,
    d: FileSession,
    path: Seq<u8>,
    manifest: Seq<ManifestView>,
    exact: bool,
    x: SiteView,
)
    requires
        only_spares(a, b, x),
        all_found(b, c, path, manifest, exact),
        only_spares(c, d, x),
    ensures
        all_found(a, d, path, manifest, exact),
{
    let handle = choose|handle: u64| #[trigger]
        opened(b, c, path, handle) && forall|j: int|
            0 <= j < manifest.len() ==> found(b, c, handle, #[trigger] manifest[j], exact);
    lemma_opened_longer(a, b, c, d, path, handle, x);
    assert forall|j: int| 0 <= j < manifest.len() implies found(
        a,
        d,
        handle,
        #[trigger] manifest[j],
        exact,
    ) by {
        lemma_found_longer(a, b, c, d, handle, manifest[j], exact, x);
    }
}

proof fn lemma_entry_found(f: FileSession, base: HeldView, entry: ManifestView, exact: bool, x: SiteView)
    requires
        entry_run(f, base, entry, exact).1 is Ok,
    ensures
        found(f, entry_run(f, base, entry, exact).0, base.handle, entry, exact),
        only_spares(f, entry_run(f, base, entry, exact).0, x),
{
    reveal(found);
    broadcast use {lemma_on, lemma_still, lemma_step};

    let names = checked_path(entry.path)->Ok_0;
    let r1 = FileRequest::IdentityAt(base.handle, joined_names(names));
    let r2 = FileRequest::ReadLink(child(base.anchored, entry.path));
    let g = file_step(f, r1).0;
    assert(only_spares(f, g, x));
    assert(only_spares(g, file_step(g, r2).0, x));
    let end = entry_run(f, base, entry, exact).0;
    let i = f.calls.len() as int;
    assert(end.calls[i] == r1);
    assert(end.calls.take(i + 1) =~= g.calls);
    assert(finds_at(end, i, base.handle, entry, exact));
}

proof fn lemma_entries_found(
    f: FileSession,
    base: HeldView,
    manifest: Seq<ManifestView>,
    exact: bool,
    i: int,
    x: SiteView,
)
    requires
        0 <= i,
        entries_from(f, base, manifest, None, exact, i).1 is Ok,
    ensures
        forall|j: int|
            i <= j < manifest.len() ==> found(
                f,
                entries_from(f, base, manifest, None, exact, i).0,
                base.handle,
                #[trigger] manifest[j],
                exact,
            ),
    decreases manifest.len() - i,
{
    broadcast use lemma_still;

    if i < manifest.len() {
        lemma_entry_found(f, base, manifest[i], exact, x);
        let f1 = entry_run(f, base, manifest[i], exact).0;
        lemma_entries_found(f1, base, manifest, exact, i + 1, x);
        lemma_entries(f1, base, manifest, None, exact, i + 1, x);
        let end = entries_from(f1, base, manifest, None, exact, i + 1).0;
        assert(entries_from(f, base, manifest, None, exact, i).0 == end);
        assert forall|j: int| i <= j < manifest.len() implies found(
            f,
            end,
            base.handle,
            #[trigger] manifest[j],
            exact,
        ) by {
            if j == i {
                lemma_found_longer(f, f, f1, end, base.handle, manifest[j], exact, x);
            } else {
                lemma_found_longer(f, f1, end, end, base.handle, manifest[j], exact, x);
            }
        }
    }
}

/// A checkout that passes the check of its entries has had every one of them found, below one
/// directory that was opened under its path.
pub proof fn checked_checkouts_are_found_entry_by_entry(
    f: FileSession,
    manifest: Seq<ManifestView>,
    path: Seq<u8>,
    exact_times: bool,
)
    requires
        manifest_run(f, manifest, path, exact_times).1 is Ok,
    ensures
        all_found(f, manifest_run(f, manifest, path, exact_times).0, path, manifest, exact_times),
{
    let x: SiteView = vstd::pervasive::arbitrary();
    let end = manifest_run(f, manifest, path, exact_times).0;
    directories_are_opened_by_looking(f, path);
    let (f1, held) = open_run(f, path);
    lemma_looked(f, f1, x);
    let base = held->Ok_0;
    assert(opened(f, f1, path, base.handle)) by {
        reveal(opened);
        let r = FileRequest::OpenDirectory(path);
        let g = file_step(f, r).0;
        let i = f.calls.len() as int;
        lemma_opening_goes_on(f, path);
        assert(f1.calls[i] == g.calls[i]);
        assert(f1.calls.take(i + 1) =~= g.calls);
        assert(opens_at(f1, i, path, base.handle));
    }
    inventories_are_taken_by_looking(f1, base.handle);
    let f2 = inventory_run(f1, base.handle).0;
    lemma_looked(f1, f2, x);
    lemma_entries_found(f2, base, manifest, exact_times, 0, x);
    lemma_entries(f2, base, manifest, None, exact_times, 0, x);
    broadcast use {lemma_on, lemma_still};

    lemma_opened_longer(f, f, f1, end, path, base.handle, x);
    assert forall|j: int| 0 <= j < manifest.len() implies found(
        f,
        end,
        base.handle,
        #[trigger] manifest[j],
        exact_times,
    ) by {
        lemma_found_longer(f, f2, end, end, base.handle, manifest[j], exact_times, x);
    }
}

proof fn lemma_opening_goes_on(f: FileSession, path: Seq<u8>)
    requires
        open_run(f, path).1 is Ok,
    ensures
        only_looked(file_step(f, FileRequest::OpenDirectory(path)).0, open_run(f, path).0),
        open_run(f, path).1->Ok_0.handle == handle_step(
            f,
            FileRequest::OpenDirectory(path),
        ).1->Ok_0,
        handle_step(f, FileRequest::OpenDirectory(path)).1 is Ok,
{
    let r = FileRequest::OpenDirectory(path);
    let (f1, handle) = handle_step(f, r);
    let h = handle->Ok_0;
    let r2 = FileRequest::AnchoredPath(h);
    let (f2, anchored) = bytes_step(f1, r2);
    lemma_one_look(f1, r2);
    held_identities_are_found_by_looking(f2, h);
    let (f3, identity) = held_identity_run(f2, h);
    lemma_looked_on(f1, f2, f3);
    let held = HeldView {
        handle: h,
        named: path,
        anchored: anchored->Ok_0,
        identity: identity->Ok_0,
        during: During::Holding,
    };
    validations_are_made_by_looking(f3, held);
    let f4 = validate_run(f3, held).0;
    lemma_looked_on(f1, f3, f4);
}

proof fn lemma_private_found(s: Session, f: FileSession, x: SiteView, p: PlanView, d: Draws)
    requires
        install_private_run(s, f, x, p, d).2 is Ok,
    ensures
        all_found(
            f,
            install_private_run(s, f, x, p, d).1,
            payload_of(x),
            p.original.manifest,
            false,
        ),
{
    broadcast use {lemma_on, lemma_still};

    reveal(install_private_run);
    let bare = bare_of(x.root);
    let list = p.original.private_state;
    let manifest = p.original.manifest;
    let head = child(bare, lit("HEAD"));
    let contents = head_contents(p.decisions.default_branch);
    let s1 = config_bool_run(s, child(bare, lit("config")), "extensions.worktreeConfig").0;
    lemma_migrating(s1, f, list, 0, x);
    let f2 = migrate_from(s1, f, list, bare, x.admin, 0).1;
    writes_only_replace(f2, head, contents, TempStrategy::Auto, d);
    let f4 = write_run(f2, head, contents, TempStrategy::Auto, d).0;
    lemma_wrote(f2, f4, x);
    checked_checkouts_are_found_entry_by_entry(f4, manifest, payload_of(x), false);
    let end = manifest_run(f4, manifest, payload_of(x), false).0;
    lemma_all_found_longer(f, f4, end, end, payload_of(x), manifest, false, x);
}

/// An adoption that is carried to its end, from before the files of the worktree were put in
/// place, has found every entry of the checkout in its worktree: the same object, with the same
/// mode, size, time of its last writing, and digest.
pub proof fn committed_checkouts_are_found_entry_by_entry(
    s: Session,
    f: FileSession,
    j: JournalView,
    x: SiteView,
    k: int,
    ds: Seq<PhaseDraws>,
)
    requires
        0 <= k <= 5,
        j.done.len() == PHASES,
        !j.done[5],
        execute_from(s, f, j, x, k, ds).3 is Ok,
    ensures
        all_found(
            f,
            execute_from(s, f, j, x, k, ds).1,
            payload_of(x),
            j.plan.original.manifest,
            false,
        ),
    decreases PHASES - k,
{
    broadcast use {lemma_on, lemma_still};

    let why = reason_of(j.nonce);
    let manifest = j.plan.original.manifest;
    let end = execute_from(s, f, j, x, k, ds).1;
    if j.done[k] {
        committed_checkouts_are_found_entry_by_entry(s, f, j, x, k + 1, other_drawn(ds));
    } else {
        let d = next_drawn(ds);
        let (s1, f1, r1) = phase_run(s, f, x, j.plan, why, k, d);
        let (f2, r2, j1) = finish_run(f1, x.transaction, j, k);
        lemma_phase_spares(s, f, x, j.plan, why, k, d);
        lemma_advanced(f1, j, j.done.update(k, true), j.progress, x);
        adoptions_remove_nothing(s1, f2, j1, x, k + 1, other_drawn(ds));
        if k < 5 {
            committed_checkouts_are_found_entry_by_entry(s1, f2, j1, x, k + 1, other_drawn(ds));
            lemma_all_found_longer(f, f2, end, end, payload_of(x), manifest, false, x);
        } else {
            reveal(phase_run);
            lemma_private_found(s, f, x, j.plan, d.file);
            lemma_all_found_longer(f, f, f1, end, payload_of(x), manifest, false, x);
        }
    }
}

} // verus!
