//! What was edited by hand since an adoption was interrupted is not undone over: it is looked at,
//! and left for a person to decide about.
use vstd::prelude::*;
use crate::bytes::lit;
use crate::commands::adopt::evidence::{BlobView, ManifestView, NamedView};
use crate::commands::adopt::forward::{payload_of, SiteView};
use crate::commands::adopt::journal::PlanView;
use crate::commands::adopt::reverse::{
    back_run, remove_default_run, restage_run, restore_git_run, restore_one_run,
};
use crate::commands::adopt::steps::{
    entries_from, entry_run, git_run, holds_run, manifest_run, matches_run, restore_run, there_run,
};
use crate::error::ErrorView;
use crate::fsx::below::inventory_run;
use crate::fsx::directory::{open_run, HeldView};
use crate::fsx::files::{file_step, FileRequest, FileSession};
use crate::fsx::held::checked_path;
use crate::fsx::looking::{
    directories_are_opened_by_looking, inventories_are_taken_by_looking, lemma_looked_on,
    lemma_one_look, only_looked,
};
use crate::fsx::write::Draws;
use crate::git::runner::{args3, invoke, InvocationView, Session};
use crate::grove::discover::bare_of;
use crate::grove::layout::POINTER_CONTENTS;
use crate::path::{child, joined_names};

verus! {

proof fn lemma_entry(f: FileSession, base: HeldView, entry: ManifestView, exact: bool)
    ensures
        only_looked(f, entry_run(f, base, entry, exact).0),
{
    if checked_path(entry.path) is Ok {
        let names = checked_path(entry.path)->Ok_0;
        let r1 = FileRequest::IdentityAt(base.handle, joined_names(names));
        let r2 = FileRequest::ReadLink(child(base.anchored, entry.path));
        lemma_one_look(f, r1);
        let f1 = file_step(f, r1).0;
        lemma_one_look(f1, r2);
        lemma_looked_on(f, f1, file_step(f1, r2).0);
    }
}

proof fn lemma_entries(
    f: FileSession,
    base: HeldView,
    manifest: Seq<ManifestView>,
    only: Option<Seq<u8>>,
    exact: bool,
    i: int,
)
    ensures
        only_looked(f, entries_from(f, base, manifest, only, exact, i).0),
    decreases manifest.len() - i,
{
    if i < manifest.len() {
        lemma_entry(f, base, manifest[i], exact);
        let f1 = entry_run(f, base, manifest[i], exact).0;
        lemma_entries(f, base, manifest, only, exact, i + 1);
        lemma_entries(f1, base, manifest, only, exact, i + 1);
        lemma_looked_on(f, f1, entries_from(f1, base, manifest, only, exact, i + 1).0);
    }
}

/// Holding a checkout against what it was changes nothing on disk.
pub proof fn checkouts_are_compared_by_looking(
    f: FileSession,
    manifest: Seq<ManifestView>,
    base: Seq<u8>,
    exact: bool,
)
    ensures
        only_looked(f, manifest_run(f, manifest, base, exact).0),
{
    directories_are_opened_by_looking(f, base);
    let (f1, held) = open_run(f, base);
    if held is Ok {
        inventories_are_taken_by_looking(f1, held->Ok_0.handle);
        let f2 = inventory_run(f1, held->Ok_0.handle).0;
        lemma_looked_on(f, f1, f2);
        lemma_entries(f2, held->Ok_0, manifest, None, exact, 0);
        lemma_looked_on(f, f2, entries_from(f2, held->Ok_0, manifest, None, exact, 0).0);
    }
}

/// A checkout that is not what it was, or whose pointer is not the generated one, is left where it
/// is.
pub proof fn edited_checkouts_are_kept(f: FileSession, x: SiteView, manifest: Seq<ManifestView>)
    requires
        ({
            let (f1, same) = manifest_run(f, manifest, payload_of(x), false);
            same is Err || !holds_run(f1, child(payload_of(x), lit(".git")), x.pointer).1
        }),
    ensures
        restage_run(f, x, manifest).1 is Err,
        only_looked(f, restage_run(f, x, manifest).0),
{
    reveal(restage_run);
    checkouts_are_compared_by_looking(f, manifest, payload_of(x), false);
    let f1 = manifest_run(f, manifest, payload_of(x), false).0;
    let r = FileRequest::Read(child(payload_of(x), lit(".git")));
    lemma_one_look(f1, r);
    lemma_looked_on(f, f1, file_step(f1, r).0);
}

/// A pointer at the root that is not the generated one is not removed, and the bare repository
/// then stays where it is.
pub proof fn edited_pointers_are_kept(f: FileSession, x: SiteView, config: BlobView, d: Draws)
    requires
        ({
            let (f1, restored) = restore_run(f, child(bare_of(x.root), lit("config")), config, d);
            restored is Ok && !holds_run(f1, child(x.root, lit(".git")), lit(POINTER_CONTENTS)).1
        }),
    ensures
        restore_git_run(f, x, config, d).1 is Err,
        only_looked(
            restore_run(f, child(bare_of(x.root), lit("config")), config, d).0,
            restore_git_run(f, x, config, d).0,
        ),
{
    reveal(restore_git_run);
    let f1 = restore_run(f, child(bare_of(x.root), lit("config")), config, d).0;
    lemma_one_look(f1, FileRequest::Read(child(x.root, lit(".git"))));
}

/// A file that is the worktree's own, and neither in its place nor out of it what it was, is left
/// as it is, and Git is not asked anything.
pub proof fn edited_private_files_are_kept(
    s: Session,
    f: FileSession,
    n: NamedView,
    bare: Seq<u8>,
    admin: Seq<u8>,
)
    requires
        ({
            let (f1, back) = matches_run(f, child(bare, n.path), n.blob);
            &&& back == Ok::<bool, ErrorView>(false)
            &&& matches_run(f1, child(admin, n.path), n.blob).1 == Ok::<bool, ErrorView>(false)
        }),
    ensures
        restore_one_run(s, f, n, bare, admin).2 is Err,
        restore_one_run(s, f, n, bare, admin).0 == s,
        only_looked(f, restore_one_run(s, f, n, bare, admin).1),
{
    let r1 = FileRequest::Read(child(bare, n.path));
    let r2 = FileRequest::Read(child(admin, n.path));
    lemma_one_look(f, r1);
    let f1 = file_step(f, r1).0;
    lemma_one_look(f1, r2);
    lemma_looked_on(f, f1, file_step(f1, r2).0);
}

/// Asking what was changed in a worktree.
pub open spec fn asks_for_changes(path: Seq<u8>) -> InvocationView {
    InvocationView {
        cwd: Some(path),
        ..invoke(args3(lit("status"), lit("--porcelain"), lit("-z")))
    }
}

/// A generated worktree in which anything was changed is not removed: Git is asked what was
/// changed, and nothing more, and no branch is deleted.
pub proof fn edited_default_worktrees_are_kept(
    s: Session,
    f: FileSession,
    x: SiteView,
    p: PlanView,
    path: Seq<u8>,
)
    requires
        x.default is Some,
        path == child(x.root, x.default->Some_0),
        there_run(f, path).1 == Ok::<bool, ErrorView>(true),
        ({
            let status = git_run(s, asks_for_changes(path), "verify generated default worktree").1;
            status is Ok && status->Ok_0.stdout.len() > 0
        }),
    ensures
        remove_default_run(s, f, x, p).2 is Err,
        remove_default_run(s, f, x, p).0.calls == s.calls.push(asks_for_changes(path)),
        only_looked(f, remove_default_run(s, f, x, p).1),
{
    reveal(remove_default_run);
    lemma_one_look(f, FileRequest::Inspect(path));
}

/// An entry of the checkout is not moved back over anything that is in its place by now.
pub proof fn occupied_places_are_kept(
    f: FileSession,
    name: Seq<u8>,
    root: Seq<u8>,
    staging: Seq<u8>,
)
    requires
        there_run(f, child(root, name)).1 == Ok::<bool, ErrorView>(true),
    ensures
        back_run(f, name, root, staging).1 is Err,
        only_looked(f, back_run(f, name, root, staging).0),
{
    lemma_one_look(f, FileRequest::Inspect(child(root, name)));
}

} // verus!
