//! What making a grove or a worktree does on disk by itself, beside what Git does.
use vstd::prelude::*;
use crate::bytes::{after, lit};
use crate::commands::add::{add_mode_run, add_run, ModeView};
use crate::commands::clone::{
    alternates_checked, bare_checked, objects_asked, objects_checked, postconditions_run,
    refspecs_checked, registration_checked, registrations_run, remote_checked, resolve_run,
    url_checked, Homes,
};
use crate::commands::clone_run::{
    checkout_run, clone_run, configure_run, fetch_clone_run, plant_run, select_run,
    selected_branch, ClonePlanView,
};
use crate::commands::init::{
    ancestor_from, create_bare_run, create_from, enter_bare_run, first_worktree_run, guide_run,
    init_run, make_run, normalized, open_grove_run, open_root_run, preflight_run,
    reported_run, repository_run, requested_root, retain_run, safe_run, settle_run, vacate_run,
    PlanView, RecoveryState,
};
use crate::error::ErrorView;
use crate::fsx::below::held_identity_run;
use crate::fsx::directory::{
    empty_run, only_entry_run, take_run, validate_run, During, HeldView,
};
use crate::fsx::durable::{adds_only, vacant_places_are_only_filled};
use crate::fsx::files::{
    bytes_step, file_step, handle_step, FileRequest, FileSession,
};
use crate::fsx::looking::{
    held_identities_are_found_by_looking, looks, only_looked, validations_are_made_by_looking,
};
use crate::fsx::write::{split_of, symlink_absent_run, write_absent_run, Nonces, TempStrategy};
use crate::git::guard::{both_run, guarded_session};
use crate::git::runner::Session;
use crate::grove::guide::leave_run;
use crate::grove::layout::{
    marked_run, parents_run, place_of, place_path, place_run, places_lie_below_the_root,
    recognize_run, vacant_run, way_from, PlaceView, POINTER_CONTENTS,
};
use crate::path::{
    child, last_name, parent_of, parents_lack_the_last_component, part_text, parts, rendered, within,
    Part,
};

verus! {

/// What making a grove asks of the file system: to look, to fill vacant places, and to make
/// directories and links where there is nothing.
pub open spec fn makes(request: FileRequest<Seq<u8>>) -> bool {
    match request {
        FileRequest::MakeDirectoryAt(_, _, _) => true,
        FileRequest::CreateDirectories(_) => true,
        FileRequest::SymlinkAt(_, _, _) => true,
        _ => looks(request) || adds_only(request),
    }
}

/// Whether that is all that lies between two states of a session.
#[verifier::opaque]
pub open spec fn only_makes(before: FileSession, after: FileSession) -> bool {
    &&& before.calls.len() <= after.calls.len()
    &&& after.script == before.script
    &&& forall|i: int|
        0 <= i < before.calls.len() ==> #[trigger] after.calls[i] == before.calls[i]
    &&& forall|i: int|
        before.calls.len() <= i < after.calls.len() ==> makes(#[trigger] after.calls[i])
}

broadcast proof fn lemma_on(a: FileSession, b: FileSession, c: FileSession)
    requires
        #[trigger] only_makes(a, b),
        #[trigger] only_makes(b, c),
    ensures
        only_makes(a, c),
{
    reveal(only_makes);
    assert forall|i: int| 0 <= i < a.calls.len() implies #[trigger] c.calls[i] == a.calls[i] by {
        assert(c.calls[i] == b.calls[i]);
    }
    assert forall|i: int| a.calls.len() <= i < c.calls.len() implies makes(
        #[trigger] c.calls[i],
    ) by {
        if i < b.calls.len() {
            assert(c.calls[i] == b.calls[i]);
        }
    }
}

broadcast proof fn lemma_still(f: FileSession)
    ensures
        #[trigger] only_makes(f, f),
{
    reveal(only_makes);
}

broadcast proof fn lemma_step(f: FileSession, request: FileRequest<Seq<u8>>)
    requires
        makes(request),
    ensures
        #[trigger] only_makes(f, file_step(f, request).0),
{
    reveal(only_makes);
}

proof fn lemma_looked(f: FileSession, g: FileSession)
    requires
        only_looked(f, g),
    ensures
        only_makes(f, g),
{
    reveal(only_makes);
    assert forall|i: int| f.calls.len() <= i < g.calls.len() implies makes(
        #[trigger] g.calls[i],
    ) by {
        assert(looks(g.calls[i]));
    }
}

proof fn lemma_filled(f: FileSession, path: Seq<u8>, contents: Seq<u8>, drawn: Nonces)
    ensures
        only_makes(f, write_absent_run(f, path, contents, TempStrategy::Auto, drawn).0),
{
    reveal(only_makes);
    vacant_places_are_only_filled(f, path, contents, TempStrategy::Auto, drawn);
    let g = write_absent_run(f, path, contents, TempStrategy::Auto, drawn).0;
    assert forall|i: int| f.calls.len() <= i < g.calls.len() implies makes(
        #[trigger] g.calls[i],
    ) by {
        assert(adds_only(g.calls[i]));
    }
}

// ---------------------------------------------------------------------- held directories

proof fn lemma_valid(f: FileSession, h: HeldView)
    ensures
        only_makes(f, validate_run(f, h).0),
{
    validations_are_made_by_looking(f, h);
    lemma_looked(f, validate_run(f, h).0);
}

proof fn lemma_both(f: FileSession, root: HeldView, bare: HeldView)
    ensures
        only_makes(f, both_run(f, root, bare).0),
{
    broadcast use lemma_on;

    lemma_valid(f, root);
    let f1 = validate_run(f, root).0;
    lemma_valid(f1, bare);
}

proof fn lemma_listed(f: FileSession, h: HeldView, expected: Seq<u8>)
    ensures
        only_makes(f, empty_run(f, h).0),
        only_makes(f, only_entry_run(f, h, expected).0),
{
    broadcast use {lemma_on, lemma_step};

    lemma_valid(f, h);
    let f1 = validate_run(f, h).0;
    let f2 = file_step(f1, FileRequest::List(h.anchored)).0;
    assert(only_makes(f1, f2));
    lemma_valid(f2, h);
}

proof fn lemma_taken(f: FileSession, handle: u64, named: Seq<u8>, during: During)
    ensures
        only_makes(f, take_run(f, handle, named, during).0),
{
    broadcast use {lemma_on, lemma_step};

    let r = FileRequest::AnchoredPath(handle);
    let (f1, anchored) = bytes_step(f, r);
    assert(only_makes(f, file_step(f, r).0));
    if anchored is Ok {
        held_identities_are_found_by_looking(f1, handle);
        let (f2, identity) = held_identity_run(f1, handle);
        lemma_looked(f1, f2);
        if identity is Ok {
            let held = HeldView {
                handle,
                named,
                anchored: anchored->Ok_0,
                identity: identity->Ok_0,
                during,
            };
            lemma_valid(f2, held);
        }
    }
}

// ------------------------------------------------------------------------ opening the root

proof fn lemma_ancestor(f: FileSession, root: Seq<u8>, current: Seq<u8>, missing: Seq<Seq<u8>>)
    ensures
        only_makes(f, ancestor_from(f, root, current, missing).0),
    decreases current.len(),
{
    broadcast use {lemma_on, lemma_still, lemma_step};

    let f1 = file_step(f, FileRequest::Inspect(current)).0;
    assert(only_makes(f, f1));
    parents_lack_the_last_component(current);
    if last_name(current) is Some && parent_of(current) is Some {
        let more = missing.push(last_name(current)->Some_0);
        lemma_ancestor(f1, root, parent_of(current)->Some_0, more);
    }
}

proof fn lemma_created(
    f: FileSession,
    root: Seq<u8>,
    missing: Seq<Seq<u8>>,
    k: int,
    directory: u64,
    mutated: bool,
)
    ensures
        only_makes(f, create_from(f, root, missing, k, directory, mutated).0),
    decreases k,
{
    broadcast use {lemma_on, lemma_still, lemma_step};

    if k > 0 {
        let name = missing[k - 1];
        let r1 = FileRequest::MakeDirectoryAt(directory, name, 0x1ed);
        let f1 = file_step(f, r1).0;
        assert(only_makes(f, f1));
        let r2 = FileRequest::OpenDirectoryAt(directory, name);
        let f2 = file_step(f1, r2).0;
        assert(only_makes(f1, f2));
        let made = make_run(f, root, directory, name).1;
        let opened = handle_step(f1, r2).1;
        if made is Ok && opened is Ok {
            lemma_created(f2, root, missing, k - 1, opened->Ok_0, mutated || made->Ok_0);
        }
    }
}

proof fn lemma_root_opened(f: FileSession, root: Seq<u8>, mutated: bool)
    ensures
        only_makes(f, open_root_run(f, root, mutated).0),
{
    broadcast use {lemma_on, lemma_still, lemma_step};

    lemma_ancestor(f, root, root, Seq::empty());
    let (f1, found) = ancestor_from(f, root, root, Seq::empty());
    if found is Ok {
        let (ancestor, missing) = found->Ok_0;
        let k = missing.len() as int;
        let r = FileRequest::OpenDirectory(ancestor);
        let (f2, directory) = handle_step(f1, r);
        assert(only_makes(f1, file_step(f1, r).0));
        if directory is Ok {
            lemma_created(f2, root, missing, k, directory->Ok_0, mutated);
            let (f3, _made, handle) = create_from(f2, root, missing, k, directory->Ok_0, mutated);
            if handle is Ok {
                lemma_taken(f3, handle->Ok_0, root, During::Initializing);
                let (f4, held) = take_run(f3, handle->Ok_0, root, During::Initializing);
                if held is Ok {
                    lemma_listed(f4, held->Ok_0, Seq::empty());
                }
            }
        }
    }
}

proof fn lemma_bare_made(f: FileSession, root: HeldView, mutated: bool)
    ensures
        only_makes(f, create_bare_run(f, root, mutated).0),
{
    broadcast use {lemma_on, lemma_still, lemma_step};

    let bare = child(root.named, lit(".bare"));
    lemma_listed(f, root, Seq::empty());
    let f1 = empty_run(f, root).0;
    let f2 = file_step(f1, FileRequest::MakeDirectoryAt(root.handle, lit(".bare"), 0x1ed)).0;
    assert(only_makes(f1, f2));
    let r = FileRequest::OpenDirectoryAt(root.handle, lit(".bare"));
    let (f3, handle) = handle_step(f2, r);
    assert(only_makes(f2, file_step(f2, r).0));
    assert(only_makes(f2, enter_bare_run(f2, root, bare).0)) by {
        if handle is Ok {
            lemma_valid(f3, root);
            let f4 = validate_run(f3, root).0;
            lemma_taken(f4, handle->Ok_0, bare, During::Initializing);
            let (f5, held) = take_run(f4, handle->Ok_0, bare, During::Initializing);
            if held is Ok {
                lemma_listed(f5, root, lit(".bare"));
                let f6 = only_entry_run(f5, root, lit(".bare")).0;
                lemma_valid(f6, held->Ok_0);
            }
        }
    }
}

proof fn lemma_grove_opened(f: FileSession, root: Seq<u8>)
    ensures
        only_makes(f, open_grove_run(f, root).0),
{
    broadcast use {lemma_on, lemma_still};

    reveal(open_grove_run);
    lemma_root_opened(f, root, false);
    let (f1, mutated, held) = open_root_run(f, root, false);
    if held is Ok {
        held_identities_are_found_by_looking(f1, held->Ok_0.handle);
        let f2 = held_identity_run(f1, held->Ok_0.handle).0;
        lemma_looked(f1, f2);
        lemma_bare_made(f2, held->Ok_0, mutated);
        let (f3, mutated3, bare) = create_bare_run(f2, held->Ok_0, mutated);
        if bare is Ok {
            held_identities_are_found_by_looking(f3, bare->Ok_0.handle);
            lemma_looked(f3, held_identity_run(f3, bare->Ok_0.handle).0);
        }
    }
}

// ----------------------------------------------------------------- a place for a worktree

proof fn lemma_way(f: FileSession, at: Seq<u8>, list: Seq<Part>, i: int, n: int)
    ensures
        only_makes(f, way_from(f, at, list, i, n).0),
    decreases n - i,
{
    broadcast use {lemma_on, lemma_still, lemma_step};

    if i < n {
        let next = child(at, part_text(list[i]));
        let f1 = file_step(f, FileRequest::Inspect(next)).0;
        assert(only_makes(f, f1));
        lemma_way(f1, next, list, i + 1, n);
    }
}

proof fn lemma_parents(f: FileSession, place: PlaceView)
    ensures
        only_makes(f, parents_run(f, place).0),
{
    broadcast use {lemma_on, lemma_still, lemma_step};

    let list = parts(place.relative);
    let n = list.len() - 1;
    if n > 0 {
        lemma_way(f, place.root, list, 0, n);
        let f1 = way_from(f, place.root, list, 0, n).0;
        let r = FileRequest::CreateDirectories(child(place.root, rendered(list, n)));
        assert(only_makes(f1, file_step(f1, r).0));
    }
}

proof fn lemma_vacated(f: FileSession, root: HeldView, bare: HeldView, relative: Seq<u8>)
    ensures
        only_makes(f, vacate_run(f, root, bare, relative).0),
{
    broadcast use {lemma_on, lemma_still, lemma_step};

    let place = place_of(root.named, relative);
    if place is Ok {
        let list = parts(place->Ok_0);
        lemma_way(f, root.named, list, 0, list.len() as int);
        let (f1, found) = place_run(f, root.named, relative);
        assert(only_makes(f, f1));
        if found is Ok {
            lemma_parents(f1, found->Ok_0);
            let f2 = parents_run(f1, found->Ok_0).0;
            lemma_both(f2, root, bare);
            let f3 = both_run(f2, root, bare).0;
            let path = place_path(found->Ok_0);
            let f4 = file_step(f3, FileRequest::Inspect(path)).0;
            assert(only_makes(f3, f4));
            assert(only_makes(f4, file_step(f4, FileRequest::List(path)).0));
            assert(only_makes(f3, vacant_run(f3, path).0));
        }
    }
}

proof fn lemma_settled(f: FileSession, root: HeldView, bare: HeldView, operation: Seq<char>)
    ensures
        only_makes(f, settle_run(f, root, bare, operation).0),
{
    broadcast use {lemma_on, lemma_still, lemma_step};

    lemma_both(f, root, bare);
    let f1 = both_run(f, root, bare).0;
    let at = root.named;
    let g1 = file_step(f1, FileRequest::Inspect(child(at, lit(".bare")))).0;
    assert(only_makes(f1, g1));
    let g2 = file_step(g1, FileRequest::Inspect(child(at, lit(".git")))).0;
    assert(only_makes(g1, g2));
    assert(only_makes(g2, file_step(g2, FileRequest::Read(child(at, lit(".git")))).0));
    assert(only_makes(f1, marked_run(f1, at).0));
    assert(only_makes(f1, recognize_run(f1, at).0));
}

proof fn lemma_reported(
    f: FileSession,
    e: ErrorView,
    root: Seq<u8>,
    mutated: bool,
    recovery: RecoveryState,
    operation: Seq<char>,
)
    ensures
        only_makes(f, reported_run(f, e, root, mutated, recovery, operation).0),
{
    broadcast use {lemma_on, lemma_still, lemma_step};

    let r1 = FileRequest::Inspect(root);
    let r2 = FileRequest::Inspect(child(root, lit(".bare")));
    let f1 = file_step(f, r1).0;
    assert(only_makes(f, f1));
    assert(only_makes(f1, file_step(f1, r2).0));
    assert(only_makes(f, file_step(f, r2).0));
    assert(only_makes(f, safe_run(f, root, recovery).0));
    assert(only_makes(f, retain_run(f, e, root, recovery, operation).0));
}

// ---------------------------------------------------------------------------- initializing

proof fn lemma_repository(
    s: Session,
    f: FileSession,
    root: HeldView,
    bare: HeldView,
    plan: PlanView,
    pointer: Nonces,
)
    ensures
        only_makes(f, repository_run(s, f, root, bare, plan, pointer).1),
{
    broadcast use {lemma_on, lemma_still};

    lemma_both(f, root, bare);
    let f1 = both_run(f, root, bare).0;
    let path = child(root.anchored, lit(".git"));
    lemma_filled(f1, path, lit(POINTER_CONTENTS), pointer);
    let f2 = write_absent_run(f1, path, lit(POINTER_CONTENTS), TempStrategy::Auto, pointer).0;
    lemma_both(f2, root, bare);
}

proof fn lemma_linked(f: FileSession, link: Seq<u8>, target: Seq<u8>)
    ensures
        only_makes(f, symlink_absent_run(f, link, target).0),
{
    broadcast use {lemma_on, lemma_still, lemma_step};

    let f1 = file_step(f, FileRequest::Inspect(link)).0;
    assert(only_makes(f, f1));
    if split_of(link) is Ok {
        let (parent, name) = split_of(link)->Ok_0;
        let r = FileRequest::OpenParent(parent);
        let (f2, directory) = handle_step(f1, r);
        assert(only_makes(f1, file_step(f1, r).0));
        if directory is Ok {
            let f3 = file_step(f2, FileRequest::SymlinkAt(target, directory->Ok_0, name)).0;
            assert(only_makes(f2, f3));
            assert(only_makes(f3, file_step(f3, FileRequest::Sync(directory->Ok_0)).0));
        }
    }
}

proof fn lemma_guided(
    f: FileSession,
    root: HeldView,
    bare: HeldView,
    guide: Seq<u8>,
    link: Seq<u8>,
    drawn: Nonces,
)
    ensures
        only_makes(f, guide_run(f, root, bare, guide, link, drawn).0),
{
    broadcast use {lemma_on, lemma_still};

    lemma_both(f, root, bare);
    let f1 = both_run(f, root, bare).0;
    let path = child(root.anchored, lit("AGENTS.md"));
    lemma_filled(f1, path, guide, drawn);
    let f2 = write_absent_run(f1, path, guide, TempStrategy::Auto, drawn).0;
    lemma_linked(f2, child(root.anchored, link), lit("AGENTS.md"));
    let f3 = symlink_absent_run(f2, child(root.anchored, link), lit("AGENTS.md")).0;
    lemma_both(f3, root, bare);
}

proof fn lemma_first(s: Session, f: FileSession, root: HeldView, bare: HeldView, plan: PlanView)
    ensures
        only_makes(f, first_worktree_run(s, f, root, bare, plan).1),
{
    broadcast use {lemma_on, lemma_still};

    lemma_vacated(f, root, bare, plan.relative);
    let f1 = vacate_run(f, root, bare, plan.relative).0;
    lemma_settled(f1, root, bare, "initialization"@);
}

proof fn lemma_initialized(
    s: Session,
    f: FileSession,
    root: HeldView,
    bare: HeldView,
    plan: PlanView,
    guide: Seq<u8>,
    link: Seq<u8>,
    pointer: Nonces,
    drawn: Nonces,
)
    ensures
        only_makes(
            f,
            crate::commands::init::populate_run(
                s,
                f,
                root,
                bare,
                plan,
                guide,
                link,
                pointer,
                drawn,
            ).1,
        ),
{
    broadcast use {lemma_on, lemma_still};

    reveal(crate::commands::init::populate_run);
    lemma_repository(s, f, root, bare, plan, pointer);
    let (s1, f1, r1) = repository_run(s, f, root, bare, plan, pointer);
    lemma_guided(f1, root, bare, guide, link, drawn);
    let f2 = guide_run(f1, root, bare, guide, link, drawn).0;
    lemma_first(s1, f2, root, bare, plan);
}

/// Initializing a grove removes, renames and replaces nothing, whatever comes of it: beside what
/// Git does, the file system is looked at, vacant places are filled, and directories and a link
/// are made where there is nothing.
pub proof fn initializing_only_adds(
    s: Session,
    f: FileSession,
    g: FileSession,
    dir: Option<Seq<u8>>,
    branch: Option<Seq<u8>>,
    cwd: Seq<u8>,
    guide: Seq<u8>,
    link: Seq<u8>,
    pointer: Nonces,
    drawn: Nonces,
)
    ensures
        only_makes(f, init_run(s, f, g, dir, branch, cwd, guide, link, pointer, drawn).1),
{
    broadcast use {lemma_on, lemma_still};

    if normalized(requested_root(dir, cwd)) is Ok {
        let root = normalized(requested_root(dir, cwd))->Ok_0;
        let (s1, planned) = preflight_run(s, branch);
        let plan = planned->Ok_0;
        let operation = "initialization"@;
        lemma_grove_opened(f, root);
        let (f1, mutated, recovery, opened) = open_grove_run(f, root);
        if opened is Ok {
            let (held, bare) = opened->Ok_0;
            let guarded = guarded_session(s1, g, held, bare);
            lemma_initialized(guarded, f1, held, bare, plan, guide, link, pointer, drawn);
            let (s2, f2, r2) = crate::commands::init::populate_run(
                guarded,
                f1,
                held,
                bare,
                plan,
                guide,
                link,
                pointer,
                drawn,
            );
            if r2 is Err {
                lemma_reported(f2, r2->Err_0, root, mutated, recovery, operation);
            }
        } else {
            lemma_reported(f1, opened->Err_0, root, mutated, recovery, operation);
        }
    }
}

// --------------------------------------------------------------------------------- cloning

proof fn lemma_objects(f: FileSession, bare: Seq<u8>, objects: Seq<u8>)
    ensures
        only_makes(f, objects_checked(f, bare, objects).0),
{
    broadcast use {lemma_on, lemma_still, lemma_step};

    let f1 = file_step(f, FileRequest::Canonicalize(objects)).0;
    assert(only_makes(f, f1));
    let f2 = file_step(f1, FileRequest::Canonicalize(child(bare, lit("objects")))).0;
    assert(only_makes(f1, f2));
    let f3 = file_step(f2, FileRequest::Canonicalize(bare)).0;
    assert(only_makes(f2, f3));
    let r = FileRequest::Inspect(child(bare, lit("objects/info/alternates")));
    assert(only_makes(f3, file_step(f3, r).0));
    assert(only_makes(f3, alternates_checked(f3, bare).0));
    assert(resolve_run(f, objects, "cloned object directory"@).0 == f1);
}

proof fn lemma_registered(f: FileSession, bare: Seq<u8>, field: Seq<u8>)
    ensures
        only_makes(f, registration_checked(f, bare, field).0),
{
    broadcast use {lemma_on, lemma_step};

    let path = after(field, lit("worktree ").len() as int);
    let f1 = file_step(f, FileRequest::Canonicalize(path)).0;
    assert(only_makes(f, f1));
    assert(only_makes(f1, file_step(f1, FileRequest::Canonicalize(bare)).0));
}

proof fn lemma_postconditions(s: Session, f: FileSession, bare: Seq<u8>, url: Seq<u8>, remote: Seq<u8>)
    ensures
        only_makes(f, postconditions_run(s, f, bare, url, remote).1),
{
    broadcast use {lemma_on, lemma_still};

    let s1 = bare_checked(s, bare).0;
    let s2 = remote_checked(s1, bare, remote).0;
    let s3 = url_checked(s2, bare, remote, url).0;
    let s4 = refspecs_checked(s3, bare, remote).0;
    let (s5, objects) = objects_asked(s4, bare);
    if objects is Ok {
        lemma_objects(f, bare, objects->Ok_0);
        let f1 = objects_checked(f, bare, objects->Ok_0).0;
        assert forall|field: Seq<u8>| only_makes(
            f1,
            (#[trigger] registration_checked(f1, bare, field)).0,
        ) by {
            lemma_registered(f1, bare, field);
        }
        assert(only_makes(f1, registrations_run(s5, f1, bare).1));
    }
}

proof fn lemma_fetched(s: Session, f: FileSession, root: HeldView, bare: HeldView, p: ClonePlanView)
    ensures
        only_makes(f, fetch_clone_run(s, f, root, bare, p).1),
{
    broadcast use {lemma_on, lemma_still};

    lemma_listed(f, root, lit(".bare"));
    let f1 = only_entry_run(f, root, lit(".bare")).0;
    lemma_valid(f1, bare);
    let f2 = validate_run(f1, bare).0;
    assert forall|t: Session| only_makes(
        f2,
        (#[trigger] postconditions_run(t, f2, bare.anchored, p.url, p.remote)).1,
    ) by {
        lemma_postconditions(t, f2, bare.anchored, p.url, p.remote);
    }
}

proof fn lemma_planted(
    s: Session,
    f: FileSession,
    root: HeldView,
    bare: HeldView,
    remote: Seq<u8>,
    selected: Seq<u8>,
    relative: Seq<u8>,
    pointer: Nonces,
)
    ensures
        only_makes(f, plant_run(s, f, root, bare, remote, selected, relative, pointer).1),
{
    broadcast use {lemma_on, lemma_still};

    let path = child(root.anchored, lit(".git"));
    lemma_filled(f, path, lit(POINTER_CONTENTS), pointer);
    let f1 = write_absent_run(f, path, lit(POINTER_CONTENTS), TempStrategy::Auto, pointer).0;
    lemma_vacated(f1, root, bare, relative);
    let f2 = vacate_run(f1, root, bare, relative).0;
    lemma_settled(f2, root, bare, "cloning"@);
    assert forall|t: Session| only_makes(
        f1,
        (#[trigger] checkout_run(t, f1, root, bare, selected, relative)).1,
    ) by {}
}

proof fn lemma_cloned(
    s: Session,
    f: FileSession,
    root: HeldView,
    bare: HeldView,
    p: ClonePlanView,
    pointer: Nonces,
)
    ensures
        only_makes(
            f,
            crate::commands::clone_run::populate_run(s, f, root, bare, p, pointer).1,
        ),
{
    broadcast use {lemma_on, lemma_still};

    reveal(crate::commands::clone_run::populate_run);
    lemma_fetched(s, f, root, bare, p);
    let (s1, f1, refspecs) = fetch_clone_run(s, f, root, bare, p);
    if refspecs is Ok {
        let (s2, default) = configure_run(s1, bare.anchored, p.remote, refspecs->Ok_0);
        if default is Ok {
            let selected = selected_branch(p.explicit, default->Ok_0);
            let (s3, relative) = select_run(s2, root.anchored, selected);
            if relative is Ok {
                lemma_planted(
                    s3,
                    f1,
                    root,
                    bare,
                    p.remote,
                    selected,
                    relative->Ok_0,
                    pointer,
                );
            }
        }
    }
}

/// Cloning into a grove removes, renames and replaces nothing, whatever comes of it: beside what
/// Git does, the file system is looked at, vacant places are filled, and directories are made
/// where there is nothing. What a failed clone has made is kept.
pub proof fn cloning_only_adds(
    s: Session,
    f: FileSession,
    g: FileSession,
    dir: Option<Seq<u8>>,
    homes: Homes,
    p: ClonePlanView,
    pointer: Nonces,
)
    ensures
        only_makes(f, clone_run(s, f, g, dir, homes, p, pointer).1),
{
    broadcast use {lemma_on, lemma_still};

    assert forall|t: Session, root: Seq<u8>| only_makes(
        f,
        (#[trigger] crate::commands::clone_run::transact_run(t, f, g, root, p, pointer)).1,
    ) by {
        lemma_transacted(t, f, g, root, p, pointer);
    }
}

proof fn lemma_transacted(
    s: Session,
    f: FileSession,
    g: FileSession,
    root: Seq<u8>,
    p: ClonePlanView,
    pointer: Nonces,
)
    ensures
        only_makes(f, crate::commands::clone_run::transact_run(s, f, g, root, p, pointer).1),
{
    broadcast use {lemma_on, lemma_still};

    let operation = "clone"@;
    lemma_grove_opened(f, root);
    let (f1, mutated, recovery, opened) = open_grove_run(f, root);
    if opened is Ok {
        let (held, bare) = opened->Ok_0;
        let guarded = guarded_session(s, g, held, bare);
        lemma_cloned(guarded, f1, held, bare, p, pointer);
        let (s2, f2, r2) = crate::commands::clone_run::populate_run(
            guarded,
            f1,
            held,
            bare,
            p,
            pointer,
        );
        if r2 is Err {
            lemma_reported(f2, r2->Err_0, root, mutated, recovery, operation);
        }
    } else {
        lemma_reported(f1, opened->Err_0, root, mutated, recovery, operation);
    }
}

/// Leaving a guide in a grove's root removes, renames and replaces nothing, whatever comes of it.
pub proof fn leaving_a_guide_only_adds(
    f: FileSession,
    root: Seq<u8>,
    guide: Seq<u8>,
    link: Seq<u8>,
    drawn: Nonces,
)
    ensures
        only_makes(f, leave_run(f, root, guide, link, drawn).0),
{
    broadcast use lemma_on;

    let path = child(root, lit("AGENTS.md"));
    lemma_filled(f, path, guide, drawn);
    let f1 = write_absent_run(f, path, guide, TempStrategy::Auto, drawn).0;
    lemma_linked(f1, child(root, link), lit("AGENTS.md"));
}

// ------------------------------------------------------------------------ adding worktrees

proof fn lemma_added(s: Session, f: FileSession, root: Seq<u8>, requested: Seq<u8>, args: Seq<Seq<u8>>)
    ensures
        only_makes(f, add_run(s, f, root, requested, args).1),
        root.len() > 0 && add_run(s, f, root, requested, args).2 is Ok ==> strictly_below(
            add_run(s, f, root, requested, args).2->Ok_0,
            root,
        ),
{
    broadcast use {lemma_on, lemma_still, lemma_step};

    let place = place_of(root, requested);
    if place is Ok {
        let list = parts(place->Ok_0);
        lemma_way(f, root, list, 0, list.len() as int);
        let (f1, found) = place_run(f, root, requested);
        assert(only_makes(f, f1));
        if found is Ok {
            lemma_parents(f1, found->Ok_0);
            let f2 = parents_run(f1, found->Ok_0).0;
            let path = place_path(found->Ok_0);
            let f3 = file_step(f2, FileRequest::Inspect(path)).0;
            assert(only_makes(f2, f3));
            assert(only_makes(f3, file_step(f3, FileRequest::List(path)).0));
            assert(only_makes(f2, vacant_run(f2, path).0));
            if root.len() > 0 {
                places_lie_below_the_root(root, requested);
            }
        }
    }
}

/// Whether a path lies below another, and is not that one.
pub open spec fn strictly_below(path: Seq<u8>, base: Seq<u8>) -> bool {
    within(path, base) && parts(path).len() > parts(base).len()
}

/// Adding a worktree removes, renames and replaces nothing, whatever comes of it: beside what Git
/// does, the file system is looked at, and directories are made on the way to the worktree.
pub proof fn adding_only_adds(s: Session, f: FileSession, root: Seq<u8>, mode: ModeView)
    ensures
        only_makes(f, add_mode_run(s, f, root, mode).1),
{
    broadcast use lemma_still;

    assert forall|t: Session, requested: Seq<u8>, args: Seq<Seq<u8>>| only_makes(
        f,
        (#[trigger] add_run(t, f, root, requested, args)).1,
    ) by {
        lemma_added(t, f, root, requested, args);
    }
}

/// Every worktree that is added lies strictly below the grove's root.
pub proof fn added_worktrees_lie_below_the_root(
    s: Session,
    f: FileSession,
    root: Seq<u8>,
    mode: ModeView,
)
    requires
        root.len() > 0,
        add_mode_run(s, f, root, mode).2 is Ok,
    ensures
        strictly_below(add_mode_run(s, f, root, mode).2->Ok_0, root),
{
    assert forall|t: Session, requested: Seq<u8>, args: Seq<Seq<u8>>|
        (#[trigger] add_run(t, f, root, requested, args)).2 is Ok implies strictly_below(
        add_run(t, f, root, requested, args).2->Ok_0,
        root,
    ) by {
        lemma_added(t, f, root, requested, args);
    }
}

} // verus!
