//! Requests that leave the file system as it is.
use vstd::prelude::*;
use crate::fsx::below::{
    below_run, digest_run, entries_from, held_identity_run, identity_run, inventory_run, mount_run,
    parent_from, DEEPEST,
};
use crate::fsx::directory::{open_run, validate_run, During, HeldView};
use crate::fsx::files::{
    bytes_step, facts_step, file_step, handle_step, identity_step, mount_step, names_step, stat_step,
    EntryView, FileRequest, FileSession,
};
use crate::fsx::held::{checked_below, kind_of, FileKind};
use crate::fsx::mountinfo::live_run;
use crate::order::sorted;
use crate::path::joined_names;

verus! {

/// Whether a request changes nothing on disk. A lock is held on an open directory and leaves no
/// trace.
pub open spec fn looks(request: FileRequest<Seq<u8>>) -> bool {
    match request {
        FileRequest::Inspect(_) => true,
        FileRequest::Exists(_) => true,
        FileRequest::Read(_) => true,
        FileRequest::ReadLink(_) => true,
        FileRequest::Canonicalize(_) => true,
        FileRequest::List(_) => true,
        FileRequest::OpenDirectory(_) => true,
        FileRequest::AnchoredPath(_) => true,
        FileRequest::KernelPath(_) => true,
        FileRequest::IdentityAt(_, _) => true,
        FileRequest::Lock(_, _) => true,
        FileRequest::MountTable => true,
        FileRequest::IsFile(_) => true,
        FileRequest::IsDirectory(_) => true,
        FileRequest::OpenParent(_) => true,
        FileRequest::OpenDirectoryAt(_, _) => true,
        FileRequest::OpenFileAt(_, _) => true,
        FileRequest::ReadAll(_) => true,
        FileRequest::ReadLinkAt(_, _) => true,
        FileRequest::Stat(_) => true,
        FileRequest::StatAt(_, _) => true,
        FileRequest::MountIdAt(_, _) => true,
        FileRequest::ListHeld(_) => true,
        FileRequest::Close(_) => true,
        _ => false,
    }
}

/// Whether every request between two states of one session changes nothing on disk.
pub open spec fn only_looked(before: FileSession, after: FileSession) -> bool {
    &&& after.script == before.script
    &&& before.calls.len() <= after.calls.len()
    &&& forall|i: int|
        0 <= i < after.calls.len() ==> if i < before.calls.len() {
            #[trigger] after.calls[i] == before.calls[i]
        } else {
            looks(after.calls[i])
        }
}

/// Looking twice is looking.
pub proof fn lemma_looked_on(a: FileSession, b: FileSession, c: FileSession)
    requires
        only_looked(a, b),
        only_looked(b, c),
    ensures
        only_looked(a, c),
{
    assert forall|i: int| 0 <= i < c.calls.len() implies if i < a.calls.len() {
        #[trigger] c.calls[i] == a.calls[i]
    } else {
        looks(c.calls[i])
    } by {
        if i < b.calls.len() {
            assert(c.calls[i] == b.calls[i]);
            if i < a.calls.len() {
                assert(b.calls[i] == a.calls[i]);
            } else {
                assert(looks(b.calls[i]));
            }
        }
    }
}

pub proof fn lemma_one_look(f: FileSession, request: FileRequest<Seq<u8>>)
    requires
        looks(request),
    ensures
        only_looked(f, file_step(f, request).0),
{
}

proof fn lemma_mount(f: FileSession, handle: u64, name: Seq<u8>)
    ensures
        only_looked(f, mount_run(f, handle, name).0),
{
    let r1 = FileRequest::MountIdAt(handle, name);
    lemma_one_look(f, r1);
    let (f1, reported) = mount_step(f, r1);
    if reported is None {
        let r2 = FileRequest::KernelPath(handle);
        lemma_one_look(f1, r2);
        let (f2, directory) = bytes_step(f1, r2);
        lemma_looked_on(f, f1, f2);
        if directory is Ok {
            lemma_one_look(f2, FileRequest::MountTable);
            lemma_looked_on(f, f2, live_run(f2).0);
        }
    }
}

/// Finding what identifies a held directory changes nothing on disk.
pub proof fn held_identities_are_found_by_looking(f: FileSession, handle: u64)
    ensures
        only_looked(f, held_identity_run(f, handle).0),
{
    let r1 = FileRequest::Stat(handle);
    lemma_one_look(f, r1);
    let (f1, stat) = stat_step(f, r1);
    if stat is Ok {
        lemma_mount(f1, handle, Seq::empty());
        lemma_looked_on(f, f1, mount_run(f1, handle, Seq::empty()).0);
    }
}

proof fn lemma_parent(f: FileSession, handle: u64, names: Seq<Seq<u8>>, i: int)
    ensures
        only_looked(f, parent_from(f, handle, names, i).0),
    decreases names.len() - i,
{
    if i + 1 < names.len() {
        let r1 = FileRequest::OpenDirectoryAt(handle, names[i]);
        lemma_one_look(f, r1);
        let (f1, next) = handle_step(f, r1);
        if next is Ok {
            lemma_parent(f1, next->Ok_0, names, i + 1);
            lemma_looked_on(f, f1, parent_from(f1, next->Ok_0, names, i + 1).0);
        }
    }
}

/// Finding what identifies an entry below a held directory changes nothing on disk.
pub proof fn identities_are_found_by_looking(f: FileSession, handle: u64, names: Seq<Seq<u8>>)
    ensures
        only_looked(f, identity_run(f, handle, names).0),
{
    lemma_parent(f, handle, names, 0);
    let (f1, parent) = parent_from(f, handle, names, 0);
    if parent is Ok {
        let directory = parent->Ok_0;
        let name = names.last();
        let r2 = FileRequest::StatAt(directory, name);
        lemma_one_look(f1, r2);
        let (f2, stat) = stat_step(f1, r2);
        lemma_looked_on(f, f1, f2);
        if stat is Ok {
            lemma_mount(f2, directory, name);
            let (f3, mount) = mount_run(f2, directory, name);
            lemma_looked_on(f, f2, f3);
            if mount is Ok && kind_of(stat->Ok_0.mode) == FileKind::Regular {
                let r4 = FileRequest::OpenFileAt(directory, name);
                lemma_one_look(f3, r4);
                let (f4, file) = handle_step(f3, r4);
                lemma_looked_on(f, f3, f4);
                if file is Ok {
                    let r5 = FileRequest::ReadAll(file->Ok_0);
                    lemma_one_look(f4, r5);
                    lemma_looked_on(f, f4, bytes_step(f4, r5).0);
                }
                assert(only_looked(f, digest_run(f3, directory, name).0));
            }
        }
    }
}

proof fn lemma_below(f: FileSession, root: u64, handle: u64, prefix: Seq<Seq<u8>>, depth: nat)
    ensures
        only_looked(f, below_run(f, root, handle, prefix, depth).0),
    decreases depth, 1int, 0int,
{
    let r1 = FileRequest::ListHeld(handle);
    lemma_one_look(f, r1);
    let (f1, names) = names_step(f, r1);
    if names is Ok {
        let list = sorted(names->Ok_0);
        lemma_entries(f1, root, handle, prefix, list, 0, seq![], depth);
        lemma_looked_on(f, f1, entries_from(f1, root, handle, prefix, list, 0, seq![], depth).0);
    }
}

proof fn lemma_entries(
    f: FileSession,
    root: u64,
    handle: u64,
    prefix: Seq<Seq<u8>>,
    names: Seq<Seq<u8>>,
    i: int,
    found: Seq<EntryView>,
    depth: nat,
)
    ensures
        only_looked(f, entries_from(f, root, handle, prefix, names, i, found, depth).0),
    decreases depth, 0int, names.len() - i,
{
    if i < names.len() && checked_below(prefix, names[i]) is Ok {
        let path = checked_below(prefix, names[i])->Ok_0;
        let r1 = FileRequest::IdentityAt(root, joined_names(path));
        lemma_one_look(f, r1);
        let (f1, identity) = identity_step(f, r1);
        if identity is Ok {
            let more = found.push(EntryView { path, identity: identity->Ok_0 });
            if kind_of(identity->Ok_0.mode) == FileKind::Directory {
                let r2 = FileRequest::OpenDirectoryAt(handle, names[i]);
                lemma_one_look(f1, r2);
                let (f2, opened) = handle_step(f1, r2);
                lemma_looked_on(f, f1, f2);
                if opened is Ok && depth > 0 {
                    let inner = opened->Ok_0;
                    lemma_below(f2, root, inner, path, (depth - 1) as nat);
                    let (f3, nested) = below_run(f2, root, inner, path, (depth - 1) as nat);
                    lemma_looked_on(f, f2, f3);
                    if nested is Ok {
                        lemma_one_look(f3, FileRequest::Close(inner));
                        let f4 = file_step(f3, FileRequest::Close(inner)).0;
                        lemma_looked_on(f, f3, f4);
                        let all = more + nested->Ok_0;
                        lemma_entries(f4, root, handle, prefix, names, i + 1, all, depth);
                        lemma_looked_on(
                            f,
                            f4,
                            entries_from(f4, root, handle, prefix, names, i + 1, all, depth).0,
                        );
                    }
                }
            } else {
                lemma_entries(f1, root, handle, prefix, names, i + 1, more, depth);
                lemma_looked_on(
                    f,
                    f1,
                    entries_from(f1, root, handle, prefix, names, i + 1, more, depth).0,
                );
            }
        }
    }
}

/// Taking an inventory changes nothing on disk.
pub proof fn inventories_are_taken_by_looking(f: FileSession, handle: u64)
    ensures
        only_looked(f, inventory_run(f, handle).0),
{
    lemma_below(f, handle, handle, seq![], DEEPEST as nat);
}

/// Checking that a name still leads to a held directory changes nothing on disk.
pub proof fn validations_are_made_by_looking(f: FileSession, h: HeldView)
    ensures
        only_looked(f, validate_run(f, h).0),
{
    held_identities_are_found_by_looking(f, h.handle);
    let f1 = held_identity_run(f, h.handle).0;
    lemma_one_look(f1, FileRequest::Inspect(h.named));
    lemma_looked_on(f, f1, facts_step(f1, FileRequest::Inspect(h.named)).0);
}

/// Opening a directory and holding it changes nothing on disk.
pub proof fn directories_are_opened_by_looking(f: FileSession, path: Seq<u8>)
    ensures
        only_looked(f, open_run(f, path).0),
{
    lemma_one_look(f, FileRequest::OpenDirectory(path));
    let (f1, handle) = handle_step(f, FileRequest::OpenDirectory(path));
    if handle is Ok {
        let h = handle->Ok_0;
        lemma_one_look(f1, FileRequest::AnchoredPath(h));
        let (f2, anchored) = bytes_step(f1, FileRequest::AnchoredPath(h));
        lemma_looked_on(f, f1, f2);
        if anchored is Ok {
            held_identities_are_found_by_looking(f2, h);
            let (f3, identity) = held_identity_run(f2, h);
            lemma_looked_on(f, f2, f3);
            if identity is Ok {
                let held = HeldView {
                    handle: h,
                    named: path,
                    anchored: anchored->Ok_0,
                    identity: identity->Ok_0,
                    during: During::Holding,
                };
                validations_are_made_by_looking(f3, held);
                lemma_looked_on(f, f3, validate_run(f3, held).0);
            }
        }
    }
}

} // verus!
