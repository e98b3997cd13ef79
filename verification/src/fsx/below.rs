//! What reaches below a held directory, taken apart into single steps: a path is followed one
//! name at a time, and no link on the way.
use vstd::prelude::*;
use crate::bytes::{copied, views};
use crate::commands::adopt::evidence::{sha256, sha256_of};
use crate::error::{failure, needs_decision, plain, usage, ErrorView, GroveError, Result};
use crate::fsx::files::{
    ask_bytes, ask_handle, ask_mount, ask_names, ask_stat, bytes_step, do_request, done_step,
    entries_outcome, entry_views, file_step, handle_step, identity_step, mount_step, names_step,
    stat_step, EntryView, FileRequest, FileSession, FileSystem, IoFailure, StatFacts,
};
use crate::fsx::held::{
    checked_below, file_kind, kind_of, valid_name, FileIdentity, FileKind, InventoryEntry,
    ValidatedRelativePath,
};
use crate::fsx::mountinfo::{
    is_longest, live_run, the_longest_mount_is_unique, MountTable, MountView,
};
use crate::git::config::Outcome;
use crate::order::{sort_all, sorted};
use crate::path::{child, join_path, joined_names, within};
use crate::text::{escape, escaped, text};

verus! {

/// An error of the system, behind what was being done.
fn system_failure(action: &str, e: IoFailure) -> (r: GroveError)
    ensures
        r@ == failure(action@ + e@.text),
{
    GroveError::failure(text(action).concat(e.text.as_str()))
}

fn system_conflict(action: &str, e: IoFailure) -> (r: GroveError)
    ensures
        r@ == needs_decision(action@ + e@.text),
{
    GroveError::needs_decision(text(action).concat(e.text.as_str()))
}

// ------------------------------------------------------------------------ mounts

/// The mount that a path lies on, if the table has one.
pub open spec fn enclosing_mount(table: Seq<MountView>, path: Seq<u8>) -> Option<u64> {
    if exists|k: int| is_longest(table, path, k) {
        Some(table[choose|k: int| is_longest(table, path, k)].id)
    } else {
        None
    }
}

/// Finding the mount of an entry in a held directory, or of the directory itself when the name
/// is empty: as the system reports it, or else by the table of mounts.
pub open spec fn mount_run(s: FileSession, handle: u64, name: Seq<u8>) -> (
    FileSession,
    Outcome<u64>,
) {
    match mount_step(s, FileRequest::MountIdAt(handle, name)) {
        (s1, Some(id)) => (s1, Ok(id)),
        (s1, None) => match bytes_step(s1, FileRequest::KernelPath(handle)) {
            (s2, Err(e)) => (
                s2,
                Err(
                    usage("cannot resolve a held path for mount classification: "@ + e.text),
                ),
            ),
            (s2, Ok(directory)) => {
                let path = if name.len() == 0 {
                    directory
                } else {
                    child(directory, name)
                };
                match live_run(s2) {
                    (s3, Err(e)) => (s3, Err(e)),
                    (s3, Ok(table)) => match enclosing_mount(table, path) {
                        Some(id) => (s3, Ok(id)),
                        None => (
                            s3,
                            Err(usage("cannot classify the mount containing "@ + escape(path))),
                        ),
                    },
                }
            },
        },
    }
}

fn mount_id_at<F: FileSystem + ?Sized>(files: &mut F, handle: u64, name: &[u8]) -> (r: Result<u64>)
    ensures
        (final(files).files(), plain(r)) == mount_run(old(files).files(), handle, name@),
{
    if let Some(id) = ask_mount(files, FileRequest::MountIdAt(handle, copied(name))) {
        return Ok(id);
    }
    let directory = match ask_bytes(files, FileRequest::KernelPath(handle)) {
        Err(e) => return Err(
            GroveError::usage(
                text("cannot resolve a held path for mount classification: ").concat(
                    e.text.as_str(),
                ),
            ),
        ),
        Ok(directory) => directory,
    };
    let path = if name.len() == 0 {
        directory
    } else {
        join_path(directory.as_slice(), name)
    };
    let table = MountTable::read_live(files)?;
    match table.longest_enclosing(path.as_slice()) {
        Some(entry) => {
            proof {
                let k = choose|k: int| #[trigger]
                    is_longest(table@, path@, k) && table@[k] == entry@;
                let j = choose|k: int| is_longest(table@, path@, k);
                the_longest_mount_is_unique(table@, path@, j, k);
            }
            Ok(entry.id)
        },
        None => {
            proof {
                assert forall|k: int| !is_longest(table@, path@, k) by {
                    if is_longest(table@, path@, k) {
                        assert(within(path@, table@[k].mountpoint));
                    }
                }
            }
            Err(
                GroveError::usage(
                    text("cannot classify the mount containing ").concat(
                        escaped(path.as_slice()).as_str(),
                    ),
                ),
            )
        },
    }
}

// -------------------------------------------------------------------- identities

/// What identifies an entry, from its status, its mount and its digest.
pub open spec fn identity_of(stat: StatFacts, mount_id: u64, digest: Option<[u8; 32]>) -> FileIdentity {
    FileIdentity {
        dev: stat.dev,
        ino: stat.ino,
        mode: stat.mode,
        nlink: stat.nlink,
        size: if stat.size < 0 {
            0
        } else {
            stat.size as u64
        },
        mtime: stat.mtime,
        ctime: stat.ctime,
        mount_id,
        sha256: digest,
    }
}

fn identity_from_stat(stat: StatFacts, mount_id: u64, digest: Option<[u8; 32]>) -> (r: FileIdentity)
    ensures
        r == identity_of(stat, mount_id, digest),
{
    FileIdentity {
        dev: stat.dev,
        ino: stat.ino,
        mode: stat.mode,
        nlink: stat.nlink,
        size: if stat.size < 0 {
            0
        } else {
            stat.size as u64
        },
        mtime: stat.mtime,
        ctime: stat.ctime,
        mount_id,
        sha256: digest,
    }
}

/// Finding what identifies a held directory.
pub open spec fn held_identity_run(s: FileSession, handle: u64) -> (
    FileSession,
    Outcome<FileIdentity>,
) {
    match stat_step(s, FileRequest::Stat(handle)) {
        (s1, Err(e)) => (s1, Err(failure("cannot inspect held directory: "@ + e.text))),
        (s1, Ok(stat)) => match mount_run(s1, handle, Seq::empty()) {
            (s2, Err(e)) => (s2, Err(e)),
            (s2, Ok(mount_id)) => (s2, Ok(identity_of(stat, mount_id, None))),
        },
    }
}

/// What identifies a held directory.
pub fn held_identity<F: FileSystem + ?Sized>(files: &mut F, handle: u64) -> (r: Result<FileIdentity>)
    ensures
        (final(files).files(), plain(r)) == held_identity_run(old(files).files(), handle),
{
    let stat = match ask_stat(files, FileRequest::Stat(handle)) {
        Err(e) => return Err(system_failure("cannot inspect held directory: ", e)),
        Ok(stat) => stat,
    };
    let nothing: Vec<u8> = Vec::new();
    let mount_id = mount_id_at(files, handle, nothing.as_slice())?;
    Ok(identity_from_stat(stat, mount_id, None))
}

/// Opening the directory that holds the entry a path names: through all its names but the last,
/// from the `i`th on.
pub open spec fn parent_from(s: FileSession, handle: u64, names: Seq<Seq<u8>>, i: int) -> (
    FileSession,
    Outcome<u64>,
)
    decreases names.len() - i,
{
    if i + 1 >= names.len() {
        (s, Ok(handle))
    } else {
        match handle_step(s, FileRequest::OpenDirectoryAt(handle, names[i])) {
            (s1, Err(e)) => (
                s1,
                Err(
                    needs_decision(
                        "transaction path has a replaced or symlinked ancestor: "@ + e.text,
                    ),
                ),
            ),
            (s1, Ok(next)) => parent_from(s1, next, names, i + 1),
        }
    }
}

fn open_parent<F: FileSystem + ?Sized>(files: &mut F, handle: u64, path: &ValidatedRelativePath) -> (r:
    Result<u64>)
    ensures
        (final(files).files(), plain(r)) == parent_from(old(files).files(), handle, path@, 0),
{
    let names = path.names();
    let mut current: u64 = handle;
    let mut i: usize = 0;
    proof {
        assert(views(names@).len() == names@.len());
    }
    while i < names.len() - 1
        invariant
            names@.len() > 0,
            i < names@.len(),
            views(names@) == path@,
            path@.len() == names@.len(),
            parent_from(old(files).files(), handle, path@, 0) == parent_from(
                files.files(),
                current,
                path@,
                i as int,
            ),
        decreases names.len() - i,
    {
        proof {
            assert(path@[i as int] == names@[i as int]@);
        }
        match ask_handle(
            files,
            FileRequest::OpenDirectoryAt(current, copied(names[i].as_slice())),
        ) {
            Err(e) => {
                return Err(
                    system_conflict("transaction path has a replaced or symlinked ancestor: ", e),
                );
            },
            Ok(next) => {
                current = next;
            },
        }
        i = i + 1;
    }
    Ok(current)
}

/// The last name of a path.
fn last_of(path: &ValidatedRelativePath) -> (r: Vec<u8>)
    ensures
        path@.len() > 0,
        r@ == path@.last(),
{
    let names = path.names();
    proof {
        assert(views(names@).len() == names@.len());
        assert(views(names@)[names@.len() - 1] == names@[names@.len() - 1]@);
    }
    copied(names[names.len() - 1].as_slice())
}

/// The thirty-two bytes of a digest.
pub open spec fn digest_array(digest: Seq<u8>) -> [u8; 32] {
    choose|a: [u8; 32]| #[trigger] a@ == digest
}

fn as_array(digest: &Vec<u8>) -> (r: [u8; 32])
    requires
        digest@.len() == 32,
    ensures
        r == digest_array(digest@),
{
    let mut r: [u8; 32] = [0u8; 32];
    let mut i: usize = 0;
    while i < 32
        invariant
            i <= 32,
            digest@.len() == 32,
            forall|j: int| 0 <= j < i ==> r@[j] == digest@[j],
        decreases 32 - i,
    {
        r[i] = digest[i];
        i = i + 1;
    }
    proof {
        assert(r@ =~= digest@);
        let a = digest_array(digest@);
        assert(a@ == digest@);
        assert(r =~= a);
    }
    r
}

/// Reading a file to find its digest.
pub open spec fn digest_run(s: FileSession, directory: u64, name: Seq<u8>) -> (
    FileSession,
    Outcome<[u8; 32]>,
) {
    match handle_step(s, FileRequest::OpenFileAt(directory, name)) {
        (s1, Err(e)) => (s1, Err(failure("cannot open file for hashing: "@ + e.text))),
        (s1, Ok(file)) => match bytes_step(s1, FileRequest::ReadAll(file)) {
            (s2, Err(e)) => (s2, Err(failure("cannot hash file: "@ + e.text))),
            (s2, Ok(contents)) => (s2, Ok(digest_array(sha256_of(contents)))),
        },
    }
}

fn digest_of<F: FileSystem + ?Sized>(files: &mut F, directory: u64, name: &[u8]) -> (r: Result<
    [u8; 32],
>)
    ensures
        (final(files).files(), plain(r)) == digest_run(old(files).files(), directory, name@),
{
    let file = match ask_handle(files, FileRequest::OpenFileAt(directory, copied(name))) {
        Err(e) => return Err(system_failure("cannot open file for hashing: ", e)),
        Ok(file) => file,
    };
    match ask_bytes(files, FileRequest::ReadAll(file)) {
        Err(e) => Err(system_failure("cannot hash file: ", e)),
        Ok(contents) => Ok(as_array(&sha256(contents.as_slice()))),
    }
}

/// Finding what identifies an entry below a held directory. A regular file is read, for its
/// digest.
pub open spec fn identity_run(s: FileSession, handle: u64, names: Seq<Seq<u8>>) -> (
    FileSession,
    Outcome<FileIdentity>,
) {
    match parent_from(s, handle, names, 0) {
        (s1, Err(e)) => (s1, Err(e)),
        (s1, Ok(directory)) => match stat_step(s1, FileRequest::StatAt(directory, names.last())) {
            (s2, Err(e)) => (s2, Err(failure("cannot inspect transaction path: "@ + e.text))),
            (s2, Ok(stat)) => match mount_run(s2, directory, names.last()) {
                (s3, Err(e)) => (s3, Err(e)),
                (s3, Ok(mount_id)) => if kind_of(stat.mode) == FileKind::Regular {
                    match digest_run(s3, directory, names.last()) {
                        (s4, Err(e)) => (s4, Err(e)),
                        (s4, Ok(digest)) => (s4, Ok(identity_of(stat, mount_id, Some(digest)))),
                    }
                } else {
                    (s3, Ok(identity_of(stat, mount_id, None)))
                },
            },
        },
    }
}

/// Renaming an entry below one held directory to a vacant place below another.
pub open spec fn rename_run(
    s: FileSession,
    from: u64,
    source: Seq<Seq<u8>>,
    to: u64,
    target: Seq<Seq<u8>>,
) -> (FileSession, Outcome<()>) {
    match parent_from(s, from, source, 0) {
        (s1, Err(e)) => (s1, Err(e)),
        (s1, Ok(out_of)) => match parent_from(s1, to, target, 0) {
            (s2, Err(e)) => (s2, Err(e)),
            (s2, Ok(into)) => match done_step(
                s2,
                FileRequest::MoveAt(out_of, source.last(), into, target.last()),
            ) {
                (s3, Err(e)) => (s3, Err(failure("cannot rename transaction entry: "@ + e.text))),
                (s3, Ok(_)) => (s3, Ok(())),
            },
        },
    }
}

/// Writing a new file below a held directory.
pub open spec fn write_new_run(
    s: FileSession,
    handle: u64,
    names: Seq<Seq<u8>>,
    bytes: Seq<u8>,
    mode: u32,
) -> (FileSession, Outcome<()>) {
    match parent_from(s, handle, names, 0) {
        (s1, Err(e)) => (s1, Err(e)),
        (s1, Ok(directory)) => match handle_step(
            s1,
            FileRequest::CreateNewAt(directory, names.last(), mode),
        ) {
            (s2, Err(e)) => (s2, Err(failure("cannot create transaction file: "@ + e.text))),
            (s2, Ok(file)) => match done_step(s2, FileRequest::Write(file, bytes)) {
                (s3, Err(e)) => (s3, Err(failure("cannot write transaction file: "@ + e.text))),
                (s3, Ok(_)) => (s3, Ok(())),
            },
        },
    }
}

/// Removing an entry below a held directory: as a directory if it is one.
pub open spec fn remove_run(s: FileSession, handle: u64, names: Seq<Seq<u8>>) -> (
    FileSession,
    Outcome<()>,
) {
    match identity_run(s, handle, names) {
        (s1, Err(e)) => (s1, Err(e)),
        (s1, Ok(identity)) => match parent_from(s1, handle, names, 0) {
            (s2, Err(e)) => (s2, Err(e)),
            (s2, Ok(directory)) => match done_step(
                s2,
                FileRequest::UnlinkAt(
                    directory,
                    names.last(),
                    kind_of(identity.mode) == FileKind::Directory,
                ),
            ) {
                (s3, Err(e)) => (s3, Err(failure("cannot remove transaction entry: "@ + e.text))),
                (s3, Ok(_)) => (s3, Ok(())),
            },
        },
    }
}

/// Making a file below a held directory durable.
pub open spec fn fsync_file_run(s: FileSession, handle: u64, names: Seq<Seq<u8>>) -> (
    FileSession,
    Outcome<()>,
) {
    match parent_from(s, handle, names, 0) {
        (s1, Err(e)) => (s1, Err(e)),
        (s1, Ok(directory)) => match handle_step(
            s1,
            FileRequest::OpenFileAt(directory, names.last()),
        ) {
            (s2, Err(e)) => (s2, Err(failure("cannot open transaction file: "@ + e.text))),
            (s2, Ok(file)) => match done_step(s2, FileRequest::Sync(file)) {
                (s3, Err(e)) => (s3, Err(failure("cannot fsync transaction file: "@ + e.text))),
                (s3, Ok(_)) => (s3, Ok(())),
            },
        },
    }
}

/// Carries out, step by step, the requests that name an entry by a path below a held directory.
#[derive(Clone, Copy, Debug)]
pub struct RealFileSystem;

impl RealFileSystem {
    /// What identifies an entry below a held directory.
    pub fn identity_at<F: FileSystem + ?Sized>(
        &self,
        files: &mut F,
        handle: u64,
        path: &ValidatedRelativePath,
    ) -> (r: Result<FileIdentity>)
        ensures
            (final(files).files(), plain(r)) == identity_run(old(files).files(), handle, path@),
    {
        let directory = open_parent(files, handle, path)?;
        let name = last_of(path);
        let stat = match ask_stat(files, FileRequest::StatAt(directory, copied(name.as_slice()))) {
            Err(e) => return Err(system_failure("cannot inspect transaction path: ", e)),
            Ok(stat) => stat,
        };
        let mount_id = mount_id_at(files, directory, name.as_slice())?;
        let digest = if matches!(file_kind(stat.mode), FileKind::Regular) {
            Some(digest_of(files, directory, name.as_slice())?)
        } else {
            None
        };
        Ok(identity_from_stat(stat, mount_id, digest))
    }

    /// Renames an entry below one held directory to a vacant place below another.
    pub fn rename_at<F: FileSystem + ?Sized>(
        &self,
        files: &mut F,
        from: u64,
        source: &ValidatedRelativePath,
        to: u64,
        target: &ValidatedRelativePath,
    ) -> (r: Result<()>)
        ensures
            (final(files).files(), plain(r)) == rename_run(
                old(files).files(),
                from,
                source@,
                to,
                target@,
            ),
    {
        let out_of = open_parent(files, from, source)?;
        let into = open_parent(files, to, target)?;
        match do_request(files, FileRequest::MoveAt(out_of, last_of(source), into, last_of(target))) {
            Err(e) => Err(system_failure("cannot rename transaction entry: ", e)),
            Ok(_) => Ok(()),
        }
    }

    /// Writes a new file below a held directory.
    pub fn write_new_at<F: FileSystem + ?Sized>(
        &self,
        files: &mut F,
        handle: u64,
        path: &ValidatedRelativePath,
        bytes: &[u8],
        mode: u32,
    ) -> (r: Result<()>)
        ensures
            (final(files).files(), plain(r)) == write_new_run(
                old(files).files(),
                handle,
                path@,
                bytes@,
                mode,
            ),
    {
        let directory = open_parent(files, handle, path)?;
        let file = match ask_handle(
            files,
            FileRequest::CreateNewAt(directory, last_of(path), mode),
        ) {
            Err(e) => return Err(system_failure("cannot create transaction file: ", e)),
            Ok(file) => file,
        };
        match do_request(files, FileRequest::Write(file, copied(bytes))) {
            Err(e) => Err(system_failure("cannot write transaction file: ", e)),
            Ok(_) => Ok(()),
        }
    }

    /// Removes an entry below a held directory.
    pub fn remove_at<F: FileSystem + ?Sized>(
        &self,
        files: &mut F,
        handle: u64,
        path: &ValidatedRelativePath,
    ) -> (r: Result<()>)
        ensures
            (final(files).files(), plain(r)) == remove_run(old(files).files(), handle, path@),
    {
        let identity = self.identity_at(files, handle, path)?;
        let is_directory = matches!(file_kind(identity.mode), FileKind::Directory);
        let directory = open_parent(files, handle, path)?;
        match do_request(files, FileRequest::UnlinkAt(directory, last_of(path), is_directory)) {
            Err(e) => Err(system_failure("cannot remove transaction entry: ", e)),
            Ok(_) => Ok(()),
        }
    }

    /// Makes a file below a held directory durable.
    pub fn fsync_file_at<F: FileSystem + ?Sized>(
        &self,
        files: &mut F,
        handle: u64,
        path: &ValidatedRelativePath,
    ) -> (r: Result<()>)
        ensures
            (final(files).files(), plain(r)) == fsync_file_run(old(files).files(), handle, path@),
    {
        let directory = open_parent(files, handle, path)?;
        let file = match ask_handle(files, FileRequest::OpenFileAt(directory, last_of(path))) {
            Err(e) => return Err(system_failure("cannot open transaction file: ", e)),
            Ok(file) => file,
        };
        match do_request(files, FileRequest::Sync(file)) {
            Err(e) => Err(system_failure("cannot fsync transaction file: ", e)),
            Ok(_) => Ok(()),
        }
    }
}

// ------------------------------------------------------------------- inventories

/// How deep directories may be nested.
pub const DEEPEST: u64 = 0xffff_ffff;

pub open spec fn too_deep() -> ErrorView {
    failure("the directories are nested too deeply"@)
}

/// The entries below one directory, which goes by `handle` and lies at `prefix` below the root.
/// `depth` is how deep they may still be nested.
pub open spec fn below_run(
    s: FileSession,
    root: u64,
    handle: u64,
    prefix: Seq<Seq<u8>>,
    depth: nat,
) -> (FileSession, Outcome<Seq<EntryView>>)
    decreases depth, 1int, 0int,
{
    match names_step(s, FileRequest::ListHeld(handle)) {
        (s1, Err(e)) => (s1, Err(failure("cannot inventory directory: "@ + e.text))),
        (s1, Ok(names)) => entries_from(s1, root, handle, prefix, sorted(names), 0, seq![], depth),
    }
}

/// The entries that the names from the `i`th on stand for, after those found before: each name
/// in its turn, and behind a directory what is below it.
pub open spec fn entries_from(
    s: FileSession,
    root: u64,
    handle: u64,
    prefix: Seq<Seq<u8>>,
    names: Seq<Seq<u8>>,
    i: int,
    found: Seq<EntryView>,
    depth: nat,
) -> (FileSession, Outcome<Seq<EntryView>>)
    decreases depth, 0int, names.len() - i,
{
    if i >= names.len() {
        (s, Ok(found))
    } else {
        match checked_below(prefix, names[i]) {
            Err(e) => (s, Err(e)),
            Ok(path) => match identity_step(s, FileRequest::IdentityAt(root, joined_names(path))) {
                (s1, Err(e)) => (s1, Err(e)),
                (s1, Ok(identity)) => {
                    let more = found.push(EntryView { path, identity });
                    if kind_of(identity.mode) == FileKind::Directory {
                        match handle_step(s1, FileRequest::OpenDirectoryAt(handle, names[i])) {
                            (s2, Err(e)) => (
                                s2,
                                Err(
                                    needs_decision(
                                        "directory changed during recursive inventory: "@ + e.text,
                                    ),
                                ),
                            ),
                            (s2, Ok(inner)) => if depth == 0 {
                                (s2, Err(too_deep()))
                            } else {
                                match below_run(s2, root, inner, path, (depth - 1) as nat) {
                                    (s3, Err(e)) => (s3, Err(e)),
                                    (s3, Ok(nested)) => entries_from(
                                        file_step(s3, FileRequest::Close(inner)).0,
                                        root,
                                        handle,
                                        prefix,
                                        names,
                                        i + 1,
                                        more + nested,
                                        depth,
                                    ),
                                }
                            },
                        }
                    } else {
                        entries_from(s1, root, handle, prefix, names, i + 1, more, depth)
                    }
                },
            },
        }
    }
}

/// Every entry below a held directory: names in order, and what is in a directory behind it.
pub open spec fn inventory_run(s: FileSession, handle: u64) -> (
    FileSession,
    Outcome<Seq<EntryView>>,
) {
    below_run(s, handle, handle, seq![], DEEPEST as nat)
}

fn inventory_directory<F: FileSystem + ?Sized>(
    files: &mut F,
    root: u64,
    handle: u64,
    prefix: &Vec<Vec<u8>>,
    depth: u64,
) -> (r: Result<Vec<InventoryEntry>>)
    requires
        forall|i: int| 0 <= i < prefix@.len() ==> valid_name((#[trigger] prefix@[i])@),
    ensures
        (final(files).files(), entries_outcome(r)) == below_run(
            old(files).files(),
            root,
            handle,
            views(prefix@),
            depth as nat,
        ),
    decreases depth,
{
    let listed = match ask_names(files, FileRequest::ListHeld(handle)) {
        Err(e) => return Err(system_failure("cannot inventory directory: ", e)),
        Ok(listed) => listed,
    };
    let names = sort_all(&listed);
    let ghost all = sorted(views(listed@));
    let mut found: Vec<InventoryEntry> = Vec::new();
    let mut i: usize = 0;
    proof {
        assert(views(names@).len() == names@.len());
        assert(entry_views(found@) =~= seq![]);
    }
    while i < names.len()
        invariant
            i <= names@.len(),
            all == views(names@),
            all.len() == names@.len(),
            forall|j: int| 0 <= j < prefix@.len() ==> valid_name((#[trigger] prefix@[j])@),
            below_run(old(files).files(), root, handle, views(prefix@), depth as nat)
                == entries_from(
                files.files(),
                root,
                handle,
                views(prefix@),
                all,
                i as int,
                entry_views(found@),
                depth as nat,
            ),
        decreases names.len() - i,
    {
        proof {
            assert(all[i as int] == names@[i as int]@);
        }
        let path = ValidatedRelativePath::below(prefix, names[i].as_slice())?;
        let identity = files.identity_at(root, &path)?;
        let ghost before = entry_views(found@);
        let ghost more = before.push(EntryView { path: path@, identity });
        let is_directory = matches!(file_kind(identity.mode), FileKind::Directory);
        let inside = path.copied();
        found.push(InventoryEntry { path, identity });
        proof {
            assert(entry_views(found@) =~= more);
        }
        if is_directory {
            let inner = match ask_handle(
                files,
                FileRequest::OpenDirectoryAt(handle, copied(names[i].as_slice())),
            ) {
                Err(e) => {
                    return Err(
                        system_conflict("directory changed during recursive inventory: ", e),
                    );
                },
                Ok(inner) => inner,
            };
            if depth == 0 {
                return Err(GroveError::failure(text("the directories are nested too deeply")));
            }
            let within_it = inside.names();
            proof {
                assert forall|j: int| 0 <= j < within_it@.len() implies valid_name(
                    (#[trigger] within_it@[j])@,
                ) by {
                    assert(inside@[j] == within_it@[j]@);
                }
            }
            let mut nested = inventory_directory(files, root, inner, within_it, depth - 1)?;
            let ghost deeper = entry_views(nested@);
            let _ = files.perform(FileRequest::Close(inner));
            found.append(&mut nested);
            proof {
                assert(entry_views(found@) =~= more + deeper);
            }
        }
        i = i + 1;
    }
    Ok(found)
}

/// Every entry below a held directory.
pub fn inventory<F: FileSystem + ?Sized>(files: &mut F, handle: u64) -> (r: Result<
    Vec<InventoryEntry>,
>)
    ensures
        (final(files).files(), entries_outcome(r)) == inventory_run(old(files).files(), handle),
{
    let prefix: Vec<Vec<u8>> = Vec::new();
    proof {
        assert(views(prefix@) =~= seq![]);
    }
    inventory_directory(files, handle, handle, &prefix, DEEPEST)
}

} // verus!
