//! Undoing an adoption moves back what the adoption moved.
use vstd::prelude::*;
use crate::bytes::lit;
use crate::commands::adopt::evidence::{sha256_of, ManifestView, NamedView};
use crate::commands::adopt::execute::{
    complete_run, install_default_run, phase_run, record_of, PhaseDraws,
};
use crate::commands::adopt::forward::{
    aside_from, aside_of, aside_run, both_run, clear_run, fill_run, head_contents,
    install_bare_run, install_payload_run, install_private_run, installed_run, known_run,
    migrate_from, migrate_one_run, move_run, payload_of, pointer_due_run, pointer_run,
    register_run, snapshots_run, stage_payload_run, stage_run, staging_of, vacate_run, way_run,
    SiteView,
};
use crate::commands::adopt::journal::{PlanView, PHASES};
use crate::commands::adopt::reverse::{
    back_from, back_run, clear_place_run, restage_run, restore_down, restore_git_run,
    restore_one_run, restore_payload_run, restore_private_run, reverse_run,
};
use crate::commands::adopt::steps::{
    component_run, config_bool_run, entries_from, entry_run, located_run, manifest_run,
    matches_run, parents_run, restore_run, tops, unlock_run,
};
use crate::fsx::below::{held_identity_run, inventory_run};
use crate::fsx::directory::{open_run, HeldView};
use crate::fsx::durable::{
    only_added, only_written, vacant_places_are_only_filled, writes_only_replace,
};
use crate::fsx::files::{answer_to, as_bytes, file_step, FileRequest, FileSession};
use crate::fsx::held::checked_path;
use crate::fsx::looking::{
    directories_are_opened_by_looking, held_identities_are_found_by_looking,
    inventories_are_taken_by_looking, only_looked,
};
use crate::fsx::write::{write_absent_run, write_run, Draws, Nonces, TempStrategy};
use crate::git::runner::Session;
use crate::grove::discover::{bare_of, config_of};
use crate::grove::layout::POINTER_CONTENTS;
use crate::grove::metadata::write_to_config_run;
use crate::path::{child, joined_names, last_name, parent_of};

verus! {

/// Where an entry is moved from, and where to.
pub type Move = (Seq<u8>, Seq<u8>);

/// Whether the requests between two states of a session move entries only in these ways.
#[verifier::opaque]
pub open spec fn moves_only(before: FileSession, after: FileSession, ways: Set<Move>) -> bool {
    &&& before.calls.len() <= after.calls.len()
    &&& after.script == before.script
    &&& forall|i: int|
        0 <= i < before.calls.len() ==> #[trigger] after.calls[i] == before.calls[i]
    &&& forall|i: int|
        before.calls.len() <= i < after.calls.len() ==> match #[trigger] after.calls[i] {
            FileRequest::Rename(from, to) => ways.contains((from, to)),
            _ => true,
        }
}

/// Whether an entry was moved between two states of a session.
#[verifier::opaque]
pub open spec fn moved(before: FileSession, after: FileSession, from: Seq<u8>, to: Seq<u8>) -> bool {
    exists|i: int|
        before.calls.len() <= i < after.calls.len() && #[trigger] after.calls[i]
            == FileRequest::Rename(from, to)
}

broadcast proof fn lemma_moves_on(a: FileSession, b: FileSession, c: FileSession, ways: Set<Move>)
    requires
        #[trigger] moves_only(a, b, ways),
        #[trigger] moves_only(b, c, ways),
    ensures
        moves_only(a, c, ways),
{
    reveal(moves_only);
    assert forall|i: int| 0 <= i < a.calls.len() implies #[trigger] c.calls[i] == a.calls[i] by {
        assert(c.calls[i] == b.calls[i]);
    }
    assert forall|i: int| a.calls.len() <= i < c.calls.len() implies match #[trigger] c.calls[i] {
        FileRequest::Rename(from, to) => ways.contains((from, to)),
        _ => true,
    } by {
        if i < b.calls.len() {
            assert(c.calls[i] == b.calls[i]);
        }
    }
}

broadcast proof fn lemma_still(f: FileSession, ways: Set<Move>)
    ensures
        #[trigger] moves_only(f, f, ways),
{
    reveal(moves_only);
}

broadcast proof fn lemma_step(f: FileSession, request: FileRequest<Seq<u8>>, ways: Set<Move>)
    requires
        match request {
            FileRequest::Rename(from, to) => ways.contains((from, to)),
            _ => true,
        },
    ensures
        #[trigger] moves_only(f, file_step(f, request).0, ways),
{
    reveal(moves_only);
}

proof fn lemma_looked(f: FileSession, g: FileSession, ways: Set<Move>)
    requires
        only_looked(f, g),
    ensures
        moves_only(f, g, ways),
{
    reveal(moves_only);
    assert forall|i: int| f.calls.len() <= i < g.calls.len() implies match #[trigger] g.calls[i] {
        FileRequest::Rename(from, to) => ways.contains((from, to)),
        _ => true,
    } by {
        assert(crate::fsx::looking::looks(g.calls[i]));
    }
}

proof fn lemma_wrote(f: FileSession, g: FileSession, place: Option<Seq<u8>>, ways: Set<Move>)
    requires
        only_written(f, g, place) || only_added(f, g),
    ensures
        moves_only(f, g, ways),
{
    reveal(moves_only);
}

broadcast proof fn lemma_moved_here(f: FileSession, from: Seq<u8>, to: Seq<u8>)
    ensures
        #[trigger] moved(f, file_step(f, FileRequest::Rename(from, to)).0, from, to),
{
    reveal(moved);
    let g = file_step(f, FileRequest::Rename(from, to)).0;
    assert(g.calls[f.calls.len() as int] == FileRequest::Rename(from, to));
}

proof fn lemma_moved_later(
    f: FileSession,
    g: FileSession,
    h: FileSession,
    ways: Set<Move>,
    from: Seq<u8>,
    to: Seq<u8>,
)
    requires
        moves_only(f, g, ways),
        moved(g, h, from, to),
    ensures
        moved(f, h, from, to),
{
    reveal(moves_only);
    reveal(moved);
}

proof fn lemma_moved_before(
    f: FileSession,
    g: FileSession,
    h: FileSession,
    ways: Set<Move>,
    from: Seq<u8>,
    to: Seq<u8>,
)
    requires
        moved(f, g, from, to),
        moves_only(g, h, ways),
    ensures
        moved(f, h, from, to),
{
    reveal(moves_only);
    reveal(moved);
    let i = choose|i: int|
        f.calls.len() <= i < g.calls.len() && #[trigger] g.calls[i] == FileRequest::Rename(
            from,
            to,
        );
    assert(h.calls[i] == g.calls[i]);
}

proof fn lemma_moved_allowed(
    f: FileSession,
    g: FileSession,
    ways: Set<Move>,
    from: Seq<u8>,
    to: Seq<u8>,
)
    requires
        moves_only(f, g, ways),
        moved(f, g, from, to),
    ensures
        ways.contains((from, to)),
{
    reveal(moves_only);
    reveal(moved);
}

// ------------------------------------------------------------- what never moves anything

proof fn lemma_entries(
    f: FileSession,
    base: HeldView,
    manifest: Seq<ManifestView>,
    only: Option<Seq<u8>>,
    exact: bool,
    i: int,
    ways: Set<Move>,
)
    ensures
        moves_only(f, entries_from(f, base, manifest, only, exact, i).0, ways),
    decreases manifest.len() - i,
{
    broadcast use {lemma_moves_on, lemma_still, lemma_step};

    if i < manifest.len() {
        let f1 = entry_run(f, base, manifest[i], exact).0;
        assert(moves_only(f, f1, ways)) by {
            if checked_path(manifest[i].path) is Ok {
                let names = checked_path(manifest[i].path)->Ok_0;
                let r1 = FileRequest::IdentityAt(base.handle, joined_names(names));
                let r2 = FileRequest::ReadLink(child(base.anchored, manifest[i].path));
                let g = file_step(f, r1).0;
                assert(moves_only(f, g, ways));
                assert(moves_only(g, file_step(g, r2).0, ways));
            }
        }
        lemma_entries(f, base, manifest, only, exact, i + 1, ways);
        lemma_entries(f1, base, manifest, only, exact, i + 1, ways);
    }
}

proof fn lemma_component(
    f: FileSession,
    manifest: Seq<ManifestView>,
    base: Seq<u8>,
    component: Seq<u8>,
    exact: bool,
    ways: Set<Move>,
)
    ensures
        moves_only(f, component_run(f, manifest, base, component, exact).0, ways),
{
    broadcast use lemma_moves_on;

    directories_are_opened_by_looking(f, base);
    let (f1, held) = open_run(f, base);
    lemma_looked(f, f1, ways);
    if held is Ok {
        lemma_entries(f1, held->Ok_0, manifest, Some(component), exact, 0, ways);
    }
}

proof fn lemma_manifest(
    f: FileSession,
    manifest: Seq<ManifestView>,
    base: Seq<u8>,
    exact: bool,
    ways: Set<Move>,
)
    ensures
        moves_only(f, manifest_run(f, manifest, base, exact).0, ways),
{
    broadcast use lemma_moves_on;

    directories_are_opened_by_looking(f, base);
    let (f1, held) = open_run(f, base);
    lemma_looked(f, f1, ways);
    if held is Ok {
        inventories_are_taken_by_looking(f1, held->Ok_0.handle);
        let f2 = inventory_run(f1, held->Ok_0.handle).0;
        lemma_looked(f1, f2, ways);
        lemma_entries(f2, held->Ok_0, manifest, None, exact, 0, ways);
    }
}

proof fn lemma_restore(
    f: FileSession,
    path: Seq<u8>,
    blob: crate::commands::adopt::evidence::BlobView,
    d: Draws,
    ways: Set<Move>,
)
    ensures
        moves_only(f, restore_run(f, path, blob, d).0, ways),
{
    broadcast use {lemma_moves_on, lemma_step};

    let f1 = file_step(f, FileRequest::Read(path)).0;
    assert(moves_only(f, f1, ways));
    writes_only_replace(f1, path, blob.bytes, TempStrategy::Auto, d);
    let f2 = write_run(f1, path, blob.bytes, TempStrategy::Auto, d).0;
    lemma_wrote(f1, f2, last_name(path), ways);
    let r = FileRequest::SetMode(path, blob.mode & 0xfff);
    assert(moves_only(f2, file_step(f2, r).0, ways));
}

proof fn lemma_known(
    f: FileSession,
    path: Seq<u8>,
    id: crate::fsx::held::FileIdentity,
    otherwise: Seq<char>,
    ways: Set<Move>,
)
    ensures
        moves_only(f, known_run(f, path, id, otherwise).0, ways),
{
    broadcast use lemma_moves_on;

    directories_are_opened_by_looking(f, path);
    let (f1, held) = open_run(f, path);
    lemma_looked(f, f1, ways);
    if held is Ok {
        held_identities_are_found_by_looking(f1, held->Ok_0.handle);
        lemma_looked(f1, held_identity_run(f1, held->Ok_0.handle).0, ways);
    }
}

// --------------------------------------------------------- the repository's directory

/// How the second phase moves: the Git directory becomes the bare repository.
pub open spec fn repository_moves(root: Seq<u8>) -> Set<Move> {
    set![(child(root, lit(".git")), bare_of(root))]
}

proof fn lemma_repository(
    s: Session,
    f: FileSession,
    root: Seq<u8>,
    id: crate::fsx::held::FileIdentity,
    drawn: Nonces,
)
    ensures
        moves_only(f, install_bare_run(s, f, root, id, drawn).1, repository_moves(root)),
{
    reveal(install_bare_run);
    broadcast use {lemma_moves_on, lemma_still, lemma_step};

    let ways = repository_moves(root);
    let git = child(root, lit(".git"));
    let bare = bare_of(root);
    let f1 = file_step(f, FileRequest::Inspect(bare)).0;
    assert(moves_only(f, f1, ways));
    let f2 = file_step(f1, FileRequest::Inspect(git)).0;
    assert(moves_only(f1, f2, ways));
    let original = "the original .git directory no longer matches the journal"@;
    lemma_known(f2, git, id, original, ways);
    let f3 = known_run(f2, git, id, original).0;
    let f4 = file_step(f3, FileRequest::Rename(git, bare)).0;
    assert(moves_only(f3, f4, ways));
    let f5 = file_step(f4, FileRequest::SyncDirectory(root)).0;
    assert(moves_only(f4, f5, ways));
    let g = move_run(f, root, id).0;
    assert(moves_only(f, g, ways));
    let converted = "the converted .bare directory no longer matches the original .git inode"@;
    lemma_known(g, bare, id, converted, ways);
    let g1 = known_run(g, bare, id, converted).0;
    let g2 = file_step(g1, FileRequest::Read(git)).0;
    assert(moves_only(g1, g2, ways));
    vacant_places_are_only_filled(g2, git, lit(POINTER_CONTENTS), TempStrategy::Auto, drawn);
    let g3 = write_absent_run(g2, git, lit(POINTER_CONTENTS), TempStrategy::Auto, drawn).0;
    lemma_wrote(g2, g3, None, ways);
    assert(moves_only(g1, pointer_run(g1, root, drawn).0, ways));
}

proof fn lemma_repository_back(
    f: FileSession,
    x: SiteView,
    config: crate::commands::adopt::evidence::BlobView,
    d: Draws,
)
    requires
        restore_git_run(f, x, config, d).1 is Ok,
    ensures
        moved(
            f,
            restore_git_run(f, x, config, d).0,
            bare_of(x.root),
            child(x.root, lit(".git")),
        ),
{
    reveal(restore_git_run);
    broadcast use {lemma_moves_on, lemma_step, lemma_moved_here};

    let ways = Set::<Move>::empty();
    let bare = bare_of(x.root);
    let pointer = child(x.root, lit(".git"));
    lemma_restore(f, child(bare, lit("config")), config, d, ways);
    let f1 = restore_run(f, child(bare, lit("config")), config, d).0;
    let f2 = file_step(f1, FileRequest::Read(pointer)).0;
    assert(moves_only(f1, f2, ways));
    let f3 = file_step(f2, FileRequest::RemoveFile(pointer)).0;
    assert(moves_only(f2, f3, ways));
    let f4 = file_step(f3, FileRequest::Rename(bare, pointer)).0;
    assert(moved(f3, f4, bare, pointer));
    let f5 = file_step(f4, FileRequest::SyncDirectory(x.root)).0;
    assert(moves_only(f4, f5, ways));
    lemma_moved_later(f, f3, f4, ways, bare, pointer);
    lemma_moved_before(f, f4, f5, ways, bare, pointer);
}

// ------------------------------------------------------------- the entries of the checkout

/// How the third phase moves: the entries at the top of the checkout are set aside.
pub open spec fn staging_moves(names: Seq<Seq<u8>>, root: Seq<u8>, staging: Seq<u8>) -> Set<Move> {
    Set::new(
        |m: Move|
            exists|i: int|
                0 <= i < names.len() && m == (
                    child(root, #[trigger] names[i]),
                    child(staging, names[i]),
                ),
    )
}

proof fn lemma_staging(
    f: FileSession,
    manifest: Seq<ManifestView>,
    names: Seq<Seq<u8>>,
    root: Seq<u8>,
    staging: Seq<u8>,
    i: int,
)
    requires
        0 <= i,
    ensures
        moves_only(
            f,
            aside_from(f, manifest, names, root, staging, i).0,
            staging_moves(names, root, staging),
        ),
    decreases names.len() - i,
{
    broadcast use {lemma_moves_on, lemma_still, lemma_step};

    let ways = staging_moves(names, root, staging);
    if i < names.len() {
        let source = child(root, names[i]);
        let destination = child(staging, names[i]);
        assert(ways.contains((source, destination)));
        let f1 = file_step(f, FileRequest::Inspect(source)).0;
        assert(moves_only(f, f1, ways));
        let f2 = file_step(f1, FileRequest::Inspect(destination)).0;
        assert(moves_only(f1, f2, ways));
        lemma_component(f2, manifest, root, names[i], true, ways);
        lemma_component(f2, manifest, staging, names[i], false, ways);
        let f3 = component_run(f2, manifest, root, names[i], true).0;
        let f4 = file_step(f3, FileRequest::Rename(source, destination)).0;
        assert(moves_only(f3, f4, ways));
        let f5 = file_step(f4, FileRequest::SyncDirectory(root)).0;
        assert(moves_only(f4, f5, ways));
        let f6 = file_step(f5, FileRequest::SyncDirectory(staging)).0;
        assert(moves_only(f5, f6, ways));
        let g = aside_run(f, manifest, names[i], root, staging).0;
        assert(moves_only(f, g, ways));
        lemma_staging(g, manifest, names, root, staging, i + 1);
    }
}

proof fn lemma_back_run(f: FileSession, name: Seq<u8>, root: Seq<u8>, staging: Seq<u8>)
    requires
        back_run(f, name, root, staging).1 is Ok,
    ensures
        moved(f, back_run(f, name, root, staging).0, child(staging, name), child(root, name)),
        moves_only(f, back_run(f, name, root, staging).0, Set::full()),
{
    broadcast use {lemma_moves_on, lemma_step, lemma_moved_here};

    let ways = Set::<Move>::full();
    let (a, b) = (child(staging, name), child(root, name));
    let f1 = file_step(f, FileRequest::Inspect(b)).0;
    assert(moves_only(f, f1, ways));
    let f2 = file_step(f1, FileRequest::Inspect(a)).0;
    assert(moves_only(f1, f2, ways));
    let f3 = file_step(f2, FileRequest::Rename(a, b)).0;
    assert(moves_only(f2, f3, ways));
    assert(moved(f2, f3, a, b));
    lemma_moved_later(f, f2, f3, ways, a, b);
}

proof fn lemma_back_from(
    f: FileSession,
    names: Seq<Seq<u8>>,
    root: Seq<u8>,
    staging: Seq<u8>,
    i: int,
)
    requires
        0 <= i,
        back_from(f, names, root, staging, i).1 is Ok,
    ensures
        moves_only(f, back_from(f, names, root, staging, i).0, Set::full()),
        forall|j: int|
            i <= j < names.len() ==> moved(
                f,
                back_from(f, names, root, staging, i).0,
                child(staging, #[trigger] names[j]),
                child(root, names[j]),
            ),
    decreases names.len() - i,
{
    broadcast use {lemma_moves_on, lemma_step};

    let ways = Set::<Move>::full();
    let end = back_from(f, names, root, staging, i).0;
    if i >= names.len() {
        assert(moves_only(f, file_step(f, FileRequest::SyncDirectory(root)).0, ways));
    } else {
        lemma_back_run(f, names[i], root, staging);
        let f1 = back_run(f, names[i], root, staging).0;
        lemma_back_from(f1, names, root, staging, i + 1);
        assert forall|j: int| i <= j < names.len() implies moved(
            f,
            end,
            child(staging, #[trigger] names[j]),
            child(root, names[j]),
        ) by {
            let (a, b) = (child(staging, names[j]), child(root, names[j]));
            if j == i {
                lemma_moved_before(f, f1, end, ways, a, b);
            } else {
                lemma_moved_later(f, f1, end, ways, a, b);
            }
        }
    }
}

// ---------------------------------------------------------- the checkout as a worktree

/// How the fifth phase moves: what was set aside takes the place of the generated worktree, and
/// keeps the generated pointer.
pub open spec fn installing_moves(x: SiteView) -> Set<Move> {
    let pointer = child(payload_of(x), lit(".git"));
    set![
        (pointer, aside_of(x)),
        (staging_of(x), payload_of(x)),
        (aside_of(x), pointer),
    ]
}

proof fn lemma_both(f: FileSession, a: Seq<u8>, b: Seq<u8>, wanted: bool, ways: Set<Move>)
    ensures
        moves_only(f, both_run(f, a, b, wanted).0, ways),
{
    broadcast use {lemma_moves_on, lemma_step};

    let f1 = file_step(f, FileRequest::Inspect(a)).0;
    assert(moves_only(f, f1, ways));
    assert(moves_only(f1, file_step(f1, FileRequest::Inspect(b)).0, ways));
}

proof fn lemma_installing(f: FileSession, x: SiteView)
    ensures
        moves_only(f, install_payload_run(f, x).0, installing_moves(x)),
{
    reveal(install_payload_run);
    broadcast use {lemma_moves_on, lemma_still, lemma_step};

    let ways = installing_moves(x);
    let pointer = child(payload_of(x), lit(".git"));
    let (staging, payload, aside) = (staging_of(x), payload_of(x), aside_of(x));
    // Making room.
    lemma_both(f, staging, pointer, true, ways);
    let f1 = both_run(f, staging, pointer, true).0;
    assert(moves_only(f1, file_step(f1, FileRequest::Inspect(aside)).0, ways));
    let f2 = pointer_due_run(f, x).0;
    assert(moves_only(f, f2, ways));
    assert(moves_only(f2, file_step(f2, FileRequest::Rename(pointer, aside)).0, ways));
    let f3 = if pointer_due_run(f, x).1 == Ok::<bool, crate::error::ErrorView>(true) {
        file_step(f2, FileRequest::Rename(pointer, aside)).0
    } else {
        f2
    };
    assert(moves_only(f, f3, ways));
    lemma_both(f3, aside, payload, true, ways);
    let f4 = both_run(f3, aside, payload, true).0;
    assert(moves_only(f4, file_step(f4, FileRequest::RemoveDirectory(payload)).0, ways));
    let g = clear_run(f, x).0;
    assert(moves_only(f, g, ways));
    // Filling it.
    lemma_both(g, staging, payload, false, ways);
    let g1 = both_run(g, staging, payload, false).0;
    assert(moves_only(g1, file_step(g1, FileRequest::Rename(staging, payload)).0, ways));
    let g2 = if both_run(g, staging, payload, false).1 == Ok::<bool, crate::error::ErrorView>(
        true,
    ) {
        file_step(g1, FileRequest::Rename(staging, payload)).0
    } else {
        g1
    };
    assert(moves_only(g, g2, ways));
    lemma_both(g2, aside, pointer, false, ways);
    let g3 = both_run(g2, aside, pointer, false).0;
    assert(moves_only(g3, file_step(g3, FileRequest::Rename(aside, pointer)).0, ways));
    let h = fill_run(g, x).0;
    assert(moves_only(g, h, ways));
    // Checking the result.
    let h1 = file_step(h, FileRequest::Inspect(staging)).0;
    assert(moves_only(h, h1, ways));
    let h2 = file_step(h1, FileRequest::Inspect(aside)).0;
    assert(moves_only(h1, h2, ways));
    assert(moves_only(h2, file_step(h2, FileRequest::Read(pointer)).0, ways));
    let h3 = installed_run(h, x).0;
    assert(moves_only(h, h3, ways));
    let h4 = file_step(h3, FileRequest::SyncDirectory(x.root)).0;
    assert(moves_only(h3, h4, ways));
    assert(moves_only(h4, file_step(h4, FileRequest::SyncDirectory(payload)).0, ways));
}

proof fn lemma_restage(f: FileSession, x: SiteView, manifest: Seq<ManifestView>)
    requires
        restage_run(f, x, manifest).1 is Ok,
    ensures
        ({
            let end = restage_run(f, x, manifest).0;
            let pointer = child(payload_of(x), lit(".git"));
            &&& moved(f, end, pointer, aside_of(x))
            &&& moved(f, end, payload_of(x), staging_of(x))
            &&& moved(f, end, aside_of(x), pointer)
        }),
{
    reveal(restage_run);
    broadcast use {lemma_moves_on, lemma_step, lemma_moved_here};

    let ways = Set::<Move>::full();
    let pointer = child(payload_of(x), lit(".git"));
    let (staging, payload, aside) = (staging_of(x), payload_of(x), aside_of(x));
    lemma_manifest(f, manifest, payload, false, ways);
    let f1 = manifest_run(f, manifest, payload, false).0;
    let f2 = file_step(f1, FileRequest::Read(pointer)).0;
    assert(moves_only(f1, f2, ways));
    let f3 = file_step(f2, FileRequest::Rename(pointer, aside)).0;
    assert(moves_only(f2, f3, ways));
    let f4 = file_step(f3, FileRequest::Rename(payload, staging)).0;
    assert(moves_only(f3, f4, ways));
    let f5 = file_step(f4, FileRequest::CreateDirectory(payload)).0;
    assert(moves_only(f4, f5, ways));
    let f6 = file_step(f5, FileRequest::Rename(aside, pointer)).0;
    assert(moves_only(f5, f6, ways));
    let f7 = file_step(f6, FileRequest::SyncDirectory(x.root)).0;
    assert(moves_only(f6, f7, ways));
    assert(f7 == restage_run(f, x, manifest).0);
    assert(moved(f2, f3, pointer, aside));
    lemma_moved_later(f, f2, f3, ways, pointer, aside);
    lemma_moved_before(f, f3, f7, ways, pointer, aside);
    assert(moved(f3, f4, payload, staging));
    lemma_moved_later(f, f3, f4, ways, payload, staging);
    lemma_moved_before(f, f4, f7, ways, payload, staging);
    assert(moved(f5, f6, aside, pointer));
    lemma_moved_later(f, f5, f6, ways, aside, pointer);
    lemma_moved_before(f, f6, f7, ways, aside, pointer);
}

/// Whatever was moved to make the Git directory the bare repository is moved back when that is
/// undone.
pub proof fn the_git_directory_is_moved_back(
    s: Session,
    f: FileSession,
    x: SiteView,
    p: PlanView,
    drawn: Nonces,
    f1: FileSession,
    d1: Draws,
    from: Seq<u8>,
    to: Seq<u8>,
)
    requires
        moved(
            f,
            install_bare_run(s, f, x.root, p.original.repository_identity, drawn).1,
            from,
            to,
        ),
        restore_git_run(f1, x, p.original.config, d1).1 is Ok,
    ensures
        moved(f1, restore_git_run(f1, x, p.original.config, d1).0, to, from),
{
    let id = p.original.repository_identity;
    let end = install_bare_run(s, f, x.root, id, drawn).1;
    lemma_repository(s, f, x.root, id, drawn);
    lemma_moved_allowed(f, end, repository_moves(x.root), from, to);
    lemma_repository_back(f1, x, p.original.config, d1);
}

/// Whatever entry of the checkout was set aside is moved back when that is undone.
pub proof fn staged_entries_are_moved_back(
    f: FileSession,
    x: SiteView,
    manifest: Seq<ManifestView>,
    f1: FileSession,
    from: Seq<u8>,
    to: Seq<u8>,
)
    requires
        moved(f, stage_payload_run(f, manifest, x).0, from, to),
        restore_payload_run(f1, x, manifest).1 is Ok,
    ensures
        moved(f1, restore_payload_run(f1, x, manifest).0, to, from),
{
    reveal(restore_payload_run);
    reveal(stage_payload_run);
    let names = tops(manifest)->Ok_0;
    let staging = staging_of(x);
    let ways = staging_moves(names, x.root, staging);
    lemma_staging(f, manifest, names, x.root, staging, 0);
    lemma_moved_allowed(f, stage_payload_run(f, manifest, x).0, ways, from, to);
    lemma_back_from(f1, names, x.root, staging, 0);
    let i = choose|i: int|
        0 <= i < names.len() && (from, to) == (
            child(x.root, #[trigger] names[i]),
            child(staging, names[i]),
        );
    assert(moved(
        f1,
        back_from(f1, names, x.root, staging, 0).0,
        child(staging, names[i]),
        child(x.root, names[i]),
    ));
}

/// Whatever was moved to make the checkout a worktree is moved back when that is undone: what was
/// set aside as a whole, and the pointer that Git generated.
pub proof fn an_installed_checkout_is_moved_back(
    f: FileSession,
    x: SiteView,
    manifest: Seq<ManifestView>,
    f1: FileSession,
    from: Seq<u8>,
    to: Seq<u8>,
)
    requires
        moved(f, install_payload_run(f, x).0, from, to),
        restage_run(f1, x, manifest).1 is Ok,
    ensures
        moved(f1, restage_run(f1, x, manifest).0, to, from),
{
    lemma_installing(f, x);
    lemma_moved_allowed(f, install_payload_run(f, x).0, installing_moves(x), from, to);
    lemma_restage(f1, x, manifest);
}

// --------------------------------------------------------------- the worktree's own files

/// How the sixth phase moves: the files that are the worktree's own go where Git keeps them.
pub open spec fn private_moves(list: Seq<NamedView>, bare: Seq<u8>, admin: Seq<u8>) -> Set<Move> {
    Set::new(
        |m: Move|
            exists|i: int|
                0 <= i < list.len() && m == (
                    child(bare, (#[trigger] list[i]).path),
                    child(admin, list[i].path),
                ),
    )
}

proof fn lemma_migrating(
    s: Session,
    f: FileSession,
    list: Seq<NamedView>,
    bare: Seq<u8>,
    admin: Seq<u8>,
    i: int,
)
    requires
        0 <= i,
    ensures
        moves_only(
            f,
            migrate_from(s, f, list, bare, admin, i).1,
            private_moves(list, bare, admin),
        ),
    decreases list.len() - i,
{
    broadcast use {lemma_moves_on, lemma_still, lemma_step};

    let ways = private_moves(list, bare, admin);
    if i >= list.len() {
        let f1 = file_step(f, FileRequest::SyncDirectory(bare)).0;
        assert(moves_only(f, f1, ways));
        assert(moves_only(f1, file_step(f1, FileRequest::SyncDirectory(admin)).0, ways));
    } else {
        let n = list[i];
        let source = child(bare, n.path);
        let destination = child(admin, n.path);
        assert(ways.contains((source, destination)));
        let f1 = file_step(f, FileRequest::Read(destination)).0;
        assert(moves_only(f, f1, ways));
        let f2 = file_step(f1, FileRequest::Read(source)).0;
        assert(moves_only(f1, f2, ways));
        let what = "cannot create private-state parent: "@;
        let f3 = way_run(f2, destination, what).0;
        assert(moves_only(f2, f3, ways)) by {
            if parent_of(destination) is Some {
                let r = FileRequest::CreateDirectories(parent_of(destination)->Some_0);
                assert(moves_only(f2, file_step(f2, r).0, ways));
            }
        }
        let g = file_step(f3, FileRequest::Inspect(destination)).0;
        assert(moves_only(f3, g, ways));
        assert(moves_only(g, file_step(g, FileRequest::RemoveDirectory(destination)).0, ways));
        assert(moves_only(g, file_step(g, FileRequest::RemoveFile(destination)).0, ways));
        let f4 = vacate_run(f3, destination).0;
        assert(moves_only(f3, f4, ways));
        let f5 = file_step(f4, FileRequest::Rename(source, destination)).0;
        assert(moves_only(f4, f5, ways));
        let (s6, f6, r6) = migrate_one_run(s, f, n, bare, admin);
        assert(moves_only(f, f6, ways));
        lemma_migrating(s6, f6, list, bare, admin, i + 1);
    }
}

/// Whether a file was found between two states of a session to hold contents of a given digest.
#[verifier::opaque]
pub open spec fn found_intact(
    before: FileSession,
    after: FileSession,
    path: Seq<u8>,
    digest: Seq<u8>,
) -> bool {
    exists|i: int|
        before.calls.len() <= i < after.calls.len() && #[trigger] after.calls[i]
            == FileRequest::Read(path) && as_bytes(answer_to(after, i)) is Ok && sha256_of(
            as_bytes(answer_to(after, i))->Ok_0,
        ) == digest
}

/// Whether a file was moved back, or found to be back already.
pub open spec fn brought_back(
    before: FileSession,
    after: FileSession,
    n: NamedView,
    bare: Seq<u8>,
    admin: Seq<u8>,
) -> bool {
    ||| moved(before, after, child(admin, n.path), child(bare, n.path))
    ||| found_intact(before, after, child(bare, n.path), n.blob.sha256)
}

proof fn lemma_brought_later(
    f: FileSession,
    g: FileSession,
    h: FileSession,
    n: NamedView,
    bare: Seq<u8>,
    admin: Seq<u8>,
)
    requires
        moves_only(f, g, Set::full()),
        brought_back(g, h, n, bare, admin),
    ensures
        brought_back(f, h, n, bare, admin),
{
    reveal(moves_only);
    reveal(moved);
    reveal(found_intact);
}

proof fn lemma_brought_before(
    f: FileSession,
    g: FileSession,
    h: FileSession,
    n: NamedView,
    bare: Seq<u8>,
    admin: Seq<u8>,
)
    requires
        brought_back(f, g, n, bare, admin),
        moves_only(g, h, Set::full()),
    ensures
        brought_back(f, h, n, bare, admin),
{
    let (a, b) = (child(admin, n.path), child(bare, n.path));
    if moved(f, g, a, b) {
        lemma_moved_before(f, g, h, Set::full(), a, b);
    } else {
        reveal(moves_only);
        reveal(found_intact);
        let i = choose|i: int|
            f.calls.len() <= i < g.calls.len() && #[trigger] g.calls[i] == FileRequest::Read(b)
                && as_bytes(answer_to(g, i)) is Ok && sha256_of(as_bytes(answer_to(g, i))->Ok_0)
                == n.blob.sha256;
        assert(h.calls[i] == g.calls[i]);
        assert(h.calls.take(i + 1) =~= g.calls.take(i + 1));
    }
}

proof fn lemma_restore_one(
    s: Session,
    f: FileSession,
    n: NamedView,
    bare: Seq<u8>,
    admin: Seq<u8>,
)
    requires
        restore_one_run(s, f, n, bare, admin).2 is Ok,
    ensures
        moves_only(f, restore_one_run(s, f, n, bare, admin).1, Set::full()),
        brought_back(f, restore_one_run(s, f, n, bare, admin).1, n, bare, admin),
{
    broadcast use {lemma_moves_on, lemma_still, lemma_step, lemma_moved_here};

    let ways = Set::<Move>::full();
    let source = child(admin, n.path);
    let destination = child(bare, n.path);
    let end = restore_one_run(s, f, n, bare, admin).1;
    let f1 = file_step(f, FileRequest::Read(destination)).0;
    assert(moves_only(f, f1, ways));
    if matches_run(f, destination, n.blob).1 == Ok::<bool, crate::error::ErrorView>(true) {
        assert(found_intact(f, f1, destination, n.blob.sha256)) by {
            reveal(found_intact);
            assert(f1.calls[f.calls.len() as int] == FileRequest::Read(destination));
            assert(f1.calls.take(f1.calls.len() as int) =~= f1.calls);
        }
    } else {
        let f2 = file_step(f1, FileRequest::Read(source)).0;
        assert(moves_only(f1, f2, ways));
        let g = file_step(f2, FileRequest::Inspect(destination)).0;
        assert(moves_only(f2, g, ways));
        assert(moves_only(g, file_step(g, FileRequest::RemoveFile(destination)).0, ways));
        let (s3, f3, r3) = clear_place_run(s, f2, n.path, destination);
        assert(moves_only(f2, f3, ways));
        let what = "cannot restore private-state parent: "@;
        let f4 = way_run(f3, destination, what).0;
        assert(moves_only(f3, f4, ways)) by {
            if parent_of(destination) is Some {
                let r = FileRequest::CreateDirectories(parent_of(destination)->Some_0);
                assert(moves_only(f3, file_step(f3, r).0, ways));
            }
        }
        let f5 = file_step(f4, FileRequest::Rename(source, destination)).0;
        assert(moves_only(f4, f5, ways));
        assert(moved(f4, f5, source, destination));
        assert(end == f5);
        lemma_moved_later(f, f4, f5, ways, source, destination);
    }
}

proof fn lemma_restore_down(
    s: Session,
    f: FileSession,
    list: Seq<NamedView>,
    bare: Seq<u8>,
    admin: Seq<u8>,
    n: int,
)
    requires
        n <= list.len(),
        restore_down(s, f, list, bare, admin, n).2 is Ok,
    ensures
        moves_only(f, restore_down(s, f, list, bare, admin, n).1, Set::full()),
        forall|j: int|
            0 <= j < n ==> brought_back(
                f,
                restore_down(s, f, list, bare, admin, n).1,
                #[trigger] list[j],
                bare,
                admin,
            ),
    decreases n,
{
    broadcast use {lemma_moves_on, lemma_still};

    if n > 0 {
        let end = restore_down(s, f, list, bare, admin, n).1;
        lemma_restore_one(s, f, list[n - 1], bare, admin);
        let (s1, f1, r1) = restore_one_run(s, f, list[n - 1], bare, admin);
        lemma_restore_down(s1, f1, list, bare, admin, n - 1);
        assert forall|j: int| 0 <= j < n implies brought_back(
            f,
            end,
            #[trigger] list[j],
            bare,
            admin,
        ) by {
            if j == n - 1 {
                lemma_brought_before(f, f1, end, list[j], bare, admin);
            } else {
                lemma_brought_later(f, f1, end, list[j], bare, admin);
            }
        }
    }
}

proof fn lemma_private(s: Session, f: FileSession, x: SiteView, p: PlanView, d: Draws)
    ensures
        moves_only(
            f,
            install_private_run(s, f, x, p, d).1,
            private_moves(p.original.private_state, bare_of(x.root), x.admin),
        ),
{
    broadcast use {lemma_moves_on, lemma_still};

    reveal(install_private_run);
    let bare = bare_of(x.root);
    let list = p.original.private_state;
    let ways = private_moves(list, bare, x.admin);
    let head = child(bare, lit("HEAD"));
    let contents = head_contents(p.decisions.default_branch);
    let s1 = config_bool_run(s, child(bare, lit("config")), "extensions.worktreeConfig").0;
    lemma_migrating(s1, f, list, bare, x.admin, 0);
    let f2 = migrate_from(s1, f, list, bare, x.admin, 0).1;
    writes_only_replace(f2, head, contents, TempStrategy::Auto, d);
    let f4 = write_run(f2, head, contents, TempStrategy::Auto, d).0;
    lemma_wrote(f2, f4, last_name(head), ways);
    lemma_manifest(f4, p.original.manifest, payload_of(x), false, ways);
}

proof fn lemma_private_back(s: Session, f: FileSession, x: SiteView, p: PlanView, d: Draws)
    requires
        restore_private_run(s, f, x, p, d).2 is Ok,
    ensures
        forall|i: int|
            0 <= i < p.original.private_state.len() ==> brought_back(
                f,
                restore_private_run(s, f, x, p, d).1,
                #[trigger] p.original.private_state[i],
                bare_of(x.root),
                x.admin,
            ),
{
    broadcast use {lemma_moves_on, lemma_still, lemma_step};

    reveal(restore_private_run);
    let bare = bare_of(x.root);
    let list = p.original.private_state;
    let ways = Set::<Move>::full();
    let end = restore_private_run(s, f, x, p, d).1;
    lemma_restore_down(s, f, list, bare, x.admin, list.len() as int);
    let f1 = restore_down(s, f, list, bare, x.admin, list.len() as int).1;
    lemma_restore(f1, child(bare, lit("config")), p.original.config, d, ways);
    let f2 = restore_run(f1, child(bare, lit("config")), p.original.config, d).0;
    let f3 = file_step(f2, FileRequest::SyncDirectory(bare)).0;
    assert(moves_only(f2, f3, ways));
    assert(moves_only(f1, end, ways));
    assert forall|i: int| 0 <= i < list.len() implies brought_back(
        f,
        end,
        #[trigger] list[i],
        bare,
        x.admin,
    ) by {
        lemma_brought_before(f, f1, end, list[i], bare, x.admin);
    }
}

/// Only the files that are the worktree's own are moved to where Git keeps them, and each that was
/// moved is moved back, or found to be back with its contents intact, when that is undone.
pub proof fn private_files_are_brought_back(
    s: Session,
    f: FileSession,
    x: SiteView,
    p: PlanView,
    d: Draws,
    s1: Session,
    f1: FileSession,
    d1: Draws,
    from: Seq<u8>,
    to: Seq<u8>,
)
    requires
        moved(f, install_private_run(s, f, x, p, d).1, from, to),
        restore_private_run(s1, f1, x, p, d1).2 is Ok,
    ensures
        brought_back_from(f1, restore_private_run(s1, f1, x, p, d1).1, x, p, from, to),
{
    let (bare, list) = (bare_of(x.root), p.original.private_state);
    let ways = private_moves(list, bare, x.admin);
    lemma_private(s, f, x, p, d);
    lemma_moved_allowed(f, install_private_run(s, f, x, p, d).1, ways, from, to);
    lemma_private_back(s1, f1, x, p, d1);
    let i = choose|i: int|
        0 <= i < list.len() && (from, to) == (
            child(bare, (#[trigger] list[i]).path),
            child(x.admin, list[i].path),
        );
    assert(brought_back(
        f1,
        restore_private_run(s1, f1, x, p, d1).1,
        list[i],
        bare,
        x.admin,
    ));
}

/// Whether a file was moved back from where it had been moved to, or found to be back.
pub open spec fn brought_back_from(
    before: FileSession,
    after: FileSession,
    x: SiteView,
    p: PlanView,
    from: Seq<u8>,
    to: Seq<u8>,
) -> bool {
    exists|i: int|
        0 <= i < p.original.private_state.len() && from == child(
            bare_of(x.root),
            (#[trigger] p.original.private_state[i]).path,
        ) && to == child(x.admin, p.original.private_state[i].path) && brought_back(
            before,
            after,
            p.original.private_state[i],
            bare_of(x.root),
            x.admin,
        )
}

// ------------------------------------------------------------- phases that move nothing

proof fn lemma_nothing_moved(f: FileSession, g: FileSession, from: Seq<u8>, to: Seq<u8>)
    requires
        moves_only(f, g, Set::empty()),
    ensures
        !moved(f, g, from, to),
{
    if moved(f, g, from, to) {
        lemma_moved_allowed(f, g, Set::empty(), from, to);
    }
}

proof fn lemma_staging_made(f: FileSession, x: SiteView)
    ensures
        moves_only(f, stage_run(f, x).0, Set::empty()),
{
    broadcast use {lemma_moves_on, lemma_still, lemma_step};

    reveal(stage_run);
    let ways = Set::<Move>::empty();
    let f1 = file_step(f, FileRequest::Inspect(staging_of(x))).0;
    assert(moves_only(f, f1, ways));
    let sync = FileRequest::SyncDirectory(x.transaction);
    assert(moves_only(f1, file_step(f1, sync).0, ways));
    let f2 = file_step(f1, FileRequest::CreateDirectory(staging_of(x))).0;
    assert(moves_only(f1, f2, ways));
    assert(moves_only(f2, file_step(f2, sync).0, ways));
}

proof fn lemma_parents(f: FileSession, root: Seq<u8>, relative: Seq<u8>, ways: Set<Move>)
    ensures
        moves_only(f, parents_run(f, root, relative).0, ways),
{
    broadcast use {lemma_still, lemma_step};

    if parent_of(relative) is Some {
        let r = FileRequest::CreateDirectories(child(root, parent_of(relative)->Some_0));
        assert(moves_only(f, file_step(f, r).0, ways));
    }
}

proof fn lemma_registered(s: Session, f: FileSession, x: SiteView, p: PlanView, why: Seq<u8>)
    ensures
        moves_only(
            f,
            register_run(s, f, x, p.decisions.payload_head, why).1,
            Set::empty(),
        ),
{
    broadcast use {lemma_moves_on, lemma_still, lemma_step};

    reveal(register_run);
    let ways = Set::<Move>::empty();
    let read = FileRequest::Read(child(payload_of(x), lit(".git")));
    let f1 = file_step(f, FileRequest::Inspect(payload_of(x))).0;
    assert(moves_only(f, f1, ways));
    assert(moves_only(f1, file_step(f1, read).0, ways));
    lemma_parents(f1, x.root, x.payload, ways);
    let f2 = parents_run(f1, x.root, x.payload).0;
    assert(moves_only(f2, file_step(f2, read).0, ways));
}

proof fn lemma_second(s: Session, f: FileSession, x: SiteView, p: PlanView, why: Seq<u8>)
    ensures
        moves_only(f, install_default_run(s, f, x, p.decisions, why).1, Set::empty()),
{
    broadcast use {lemma_moves_on, lemma_still, lemma_step};

    reveal(install_default_run);
    let ways = Set::<Move>::empty();
    if x.default is Some {
        let relative = x.default->Some_0;
        let path = child(x.root, relative);
        lemma_parents(f, x.root, relative, ways);
        let f1 = parents_run(f, x.root, relative).0;
        let f2 = file_step(f1, FileRequest::Inspect(child(path, lit(".git")))).0;
        assert(moves_only(f1, f2, ways));
        assert(moves_only(f2, file_step(f2, FileRequest::Inspect(path)).0, ways));
    }
}

proof fn lemma_unlocked(s: Session, f: FileSession, bare: Seq<u8>, path: Seq<u8>, ways: Set<Move>)
    ensures
        moves_only(f, unlock_run(s, f, bare, path).1, ways),
{
    broadcast use {lemma_moves_on, lemma_still, lemma_step};

    let read = FileRequest::Read(child(path, lit(".git")));
    let f1 = file_step(f, read).0;
    assert(moves_only(f, f1, ways));
    let admin = located_run(f, path, "cannot read worktree pointer before unlock: ").1;
    if admin is Ok {
        let r = FileRequest::Inspect(child(admin->Ok_0, lit("locked")));
        assert(moves_only(f1, file_step(f1, r).0, ways));
    }
}

proof fn lemma_completed(s: Session, f: FileSession, x: SiteView, p: PlanView)
    ensures
        moves_only(f, complete_run(s, f, x, p).1, Set::empty()),
{
    broadcast use {lemma_moves_on, lemma_still};

    reveal(complete_run);
    let ways = Set::<Move>::empty();
    let bare = bare_of(x.root);
    let s1 = write_to_config_run(s, config_of(x.root), record_of(p.decisions)).0;
    let s2 = snapshots_run(s1, payload_of(x), p.original).0;
    lemma_unlocked(s2, f, bare, payload_of(x), ways);
    let (s3, f3, r3) = unlock_run(s2, f, bare, payload_of(x));
    if x.default is Some {
        lemma_unlocked(s3, f3, bare, child(x.root, x.default->Some_0), ways);
    }
}

// ---------------------------------------------------------------------------- the law

/// Undoing a phase moves back whatever the phase moved. A file that is the worktree's own may
/// instead be found to be back already, with its contents intact.
pub proof fn undone_phases_move_everything_back(
    s: Session,
    f: FileSession,
    x: SiteView,
    p: PlanView,
    why: Seq<u8>,
    k: int,
    d: PhaseDraws,
    s1: Session,
    f1: FileSession,
    d1: Draws,
    from: Seq<u8>,
    to: Seq<u8>,
)
    requires
        0 <= k < PHASES,
        moved(f, phase_run(s, f, x, p, why, k, d).1, from, to),
        reverse_run(s1, f1, x, p, k, d1).2 is Ok,
    ensures
        moved(f1, reverse_run(s1, f1, x, p, k, d1).1, to, from) || brought_back_from(
            f1,
            reverse_run(s1, f1, x, p, k, d1).1,
            x,
            p,
            from,
            to,
        ),
{
    reveal(phase_run);
    reveal(reverse_run);
    if k == 0 {
        lemma_staging_made(f, x);
        lemma_nothing_moved(f, stage_run(f, x).0, from, to);
    } else if k == 1 {
        the_git_directory_is_moved_back(s, f, x, p, d.pointer, f1, d1, from, to);
    } else if k == 2 {
        staged_entries_are_moved_back(f, x, p.original.manifest, f1, from, to);
    } else if k == 3 {
        let head = p.decisions.payload_head;
        lemma_registered(s, f, x, p, why);
        lemma_nothing_moved(f, register_run(s, f, x, head, why).1, from, to);
    } else if k == 4 {
        an_installed_checkout_is_moved_back(f, x, p.original.manifest, f1, from, to);
    } else if k == 5 {
        private_files_are_brought_back(s, f, x, p, d.file, s1, f1, d1, from, to);
    } else if k == 6 {
        lemma_second(s, f, x, p, why);
        lemma_nothing_moved(f, install_default_run(s, f, x, p.decisions, why).1, from, to);
    } else {
        lemma_completed(s, f, x, p);
        lemma_nothing_moved(f, complete_run(s, f, x, p).1, from, to);
    }
}

} // verus!
