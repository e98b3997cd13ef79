//! Reading what a repository consists of.
use vstd::prelude::*;
use crate::bytes::{copied, has_prefix, is_lit, lit, opt_view, starts_with};
use crate::commands::adopt::evidence::{
    git_views, lemma_git_views_push, lemma_manifest_views_push, manifest_views, named_views,
    opt_blob, sha256, sha256_of, BlobProof, BlobView, ContentView, GitEntry, Inventory,
    InventoryView, ManifestContent, ManifestEntry, ManifestView, NamedBlobProof, NamedView,
};
use crate::error::{failure, needs_decision, ErrorView, GroveError, Result};
use crate::fsx::directory::{HeldDirectory, HeldView};
use crate::fsx::below::inventory_run;
use crate::fsx::files::{
    ask_bytes, ask_facts, bytes_step, entry_views, facts_step, identity_step,
    EntryView, FailureKind, FileRequest, FileSession, FileSystem,
};
use crate::fsx::held::{
    checked_path, file_kind, kind_of, FileIdentity, FileKind, InventoryEntry,
    ValidatedRelativePath,
};
use crate::git::config::Outcome;
use crate::path::{child, components, join_path, joined_names, part_text, part_views, parts};
use crate::text::{lossy, lossy_text, text};

verus! {

broadcast use {lemma_manifest_views_push, lemma_git_views_push};

/// The first component of a path, as it is written.
pub open spec fn first_part(path: Seq<u8>) -> Option<Seq<u8>> {
    if parts(path).len() == 0 {
        None
    } else {
        Some(part_text(parts(path)[0]))
    }
}

/// The first component of a path, as it is written.
pub fn first_component(path: &[u8]) -> (r: Option<Vec<u8>>)
    ensures
        opt_view(r) == first_part(path@),
{
    let list = components(path);
    proof {
        assert(part_views(list@).len() == list@.len());
    }
    if list.len() == 0 {
        return None;
    }
    proof {
        assert(parts(path@)[0] == list@[0]@);
    }
    Some(list[0].text())
}

/// Whether a name at a repository's root is no part of its worktree.
pub open spec fn reserved(name: Seq<u8>) -> bool {
    name == lit(".git") || name == lit(".bare") || starts_with(name, lit(".grove-adopt-"))
}

fn is_reserved(name: &[u8]) -> (r: bool)
    ensures
        r == reserved(name@),
{
    is_lit(name, ".git") || is_lit(name, ".bare") || has_prefix(name, ".grove-adopt-".as_bytes())
}

pub open spec fn unreadable(path: Seq<u8>, why: Seq<char>) -> ErrorView {
    failure("cannot read "@ + lossy_text(path) + ": "@ + why)
}

fn unreadable_error(path: &[u8], why: &str) -> (r: GroveError)
    ensures
        r@ == unreadable(path@, why@),
{
    GroveError::failure(
        text("cannot read ").concat(lossy(path).as_str()).concat(": ").concat(why),
    )
}

// ------------------------------------------------------------------ the worktree

/// What one entry of the worktree holds.
pub open spec fn content_run(f: FileSession, path: Seq<u8>, mode: u32) -> (
    FileSession,
    Outcome<ContentView>,
) {
    match kind_of(mode) {
        FileKind::Regular => match bytes_step(f, FileRequest::Read(path)) {
            (f1, Err(e)) => (f1, Err(unreadable(path, e.text))),
            (f1, Ok(bytes)) => (
                f1,
                Ok(ContentView::Blob { bytes, sha256: sha256_of(bytes) }),
            ),
        },
        FileKind::Symlink => match bytes_step(f, FileRequest::ReadLink(path)) {
            (f1, Err(e)) => (f1, Err(unreadable(path, e.text))),
            (f1, Ok(target)) => (
                f1,
                Ok(ContentView::Symlink { target, sha256: sha256_of(target) }),
            ),
        },
        _ => (f, Ok(ContentView::Nothing)),
    }
}

pub open spec fn content_outcome(r: Result<ManifestContent>) -> Outcome<ContentView> {
    match r {
        Ok(c) => Ok(c@),
        Err(e) => Err(e@),
    }
}

fn read_content<F: FileSystem + ?Sized>(files: &mut F, path: &[u8], mode: u32) -> (r: Result<
    ManifestContent,
>)
    ensures
        (final(files).files(), content_outcome(r)) == content_run(
            old(files).files(),
            path@,
            mode,
        ),
{
    match file_kind(mode) {
        FileKind::Regular => match ask_bytes(files, FileRequest::Read(copied(path))) {
            Err(e) => Err(unreadable_error(path, e.text.as_str())),
            Ok(bytes) => {
                let digest = sha256(bytes.as_slice());
                Ok(ManifestContent::Blob { bytes, sha256: digest })
            },
        },
        FileKind::Symlink => match ask_bytes(files, FileRequest::ReadLink(copied(path))) {
            Err(e) => Err(unreadable_error(path, e.text.as_str())),
            Ok(target) => {
                let digest = sha256(target.as_slice());
                Ok(ManifestContent::Symlink { target, sha256: digest })
            },
        },
        _ => Ok(ManifestContent::Nothing),
    }
}

/// Whether an entry is no part of the worktree.
pub open spec fn skipped(entry: EntryView) -> bool {
    match first_part(joined_names(entry.path)) {
        None => true,
        Some(name) => reserved(name),
    }
}

/// Why an entry cannot be adopted.
pub open spec fn unsafe_entry(entry: EntryView, mount: u64) -> Option<ErrorView> {
    let path = lossy_text(joined_names(entry.path));
    if entry.identity.mount_id != mount {
        Some(needs_decision(path + " crosses a mount boundary"@))
    } else if kind_of(entry.identity.mode) == FileKind::Regular && entry.identity.nlink > 1 {
        Some(needs_decision(path + " is hard-linked and cannot be adopted safely"@))
    } else {
        None
    }
}

/// Reading the entries of the worktree from `i` on, after those that are `done`.
pub open spec fn payload_from(
    f: FileSession,
    root: HeldView,
    entries: Seq<EntryView>,
    done: Seq<ManifestView>,
    i: int,
) -> (FileSession, Outcome<Seq<ManifestView>>)
    decreases entries.len() - i,
{
    if i >= entries.len() {
        (f, Ok(done))
    } else if skipped(entries[i]) {
        payload_from(f, root, entries, done, i + 1)
    } else {
        match unsafe_entry(entries[i], root.identity.mount_id) {
            Some(e) => (f, Err(e)),
            None => {
                let path = joined_names(entries[i].path);
                match content_run(f, child(root.anchored, path), entries[i].identity.mode) {
                    (f1, Err(e)) => (f1, Err(e)),
                    (f1, Ok(content)) => payload_from(
                        f1,
                        root,
                        entries,
                        done.push(
                            ManifestView { path, identity: entries[i].identity, content },
                        ),
                        i + 1,
                    ),
                }
            },
        }
    }
}

pub open spec fn manifest_outcome(r: Result<Vec<ManifestEntry>>) -> Outcome<Seq<ManifestView>> {
    match r {
        Ok(v) => Ok(manifest_views(v@)),
        Err(e) => Err(e@),
    }
}

fn read_payload<F: FileSystem + ?Sized>(
    files: &mut F,
    root: &HeldDirectory,
    entries: &Vec<InventoryEntry>,
) -> (r: Result<Vec<ManifestEntry>>)
    ensures
        (final(files).files(), manifest_outcome(r)) == payload_from(
            old(files).files(),
            root@,
            entry_views(entries@),
            Seq::empty(),
            0,
        ),
{
    let ghost all = entry_views(entries@);
    let mut out: Vec<ManifestEntry> = Vec::new();
    let mut i: usize = 0;
    proof {
        assert(manifest_views(out@) =~= Seq::empty());
        assert(all.len() == entries@.len());
    }
    while i < entries.len()
        invariant
            i <= entries.len(),
            all == entry_views(entries@),
            all.len() == entries@.len(),
            payload_from(old(files).files(), root@, all, Seq::empty(), 0) == payload_from(
                files.files(),
                root@,
                all,
                manifest_views(out@),
                i as int,
            ),
        decreases entries.len() - i,
    {
        broadcast use lemma_manifest_views_push;

        let entry = &entries[i];
        proof {
            assert(all[i as int] == entry@);
        }
        let path = copied(entry.path.as_path());
        let skip = match first_component(path.as_slice()) {
            None => true,
            Some(name) => is_reserved(name.as_slice()),
        };
        if !skip {
            if entry.identity.mount_id != root.identity.mount_id {
                return Err(
                    GroveError::needs_decision(
                        lossy(path.as_slice()).concat(" crosses a mount boundary"),
                    ),
                );
            }
            if file_kind(entry.identity.mode) == FileKind::Regular && entry.identity.nlink > 1 {
                return Err(
                    GroveError::needs_decision(
                        lossy(path.as_slice()).concat(
                            " is hard-linked and cannot be adopted safely",
                        ),
                    ),
                );
            }
            let absolute = join_path(root.anchored_path.as_slice(), path.as_slice());
            let content = read_content(files, absolute.as_slice(), entry.identity.mode)?;
            out.push(ManifestEntry { path, identity: entry.identity, content });
        }
        i = i + 1;
    }
    Ok(out)
}

/// The entries below the Git directory, by path.
pub open spec fn git_list(entries: Seq<EntryView>) -> Seq<(Seq<u8>, FileIdentity)> {
    entries.map_values(|e: EntryView| (joined_names(e.path), e.identity))
}

fn git_entries(entries: &Vec<InventoryEntry>) -> (r: Vec<GitEntry>)
    ensures
        git_views(r@) == git_list(entry_views(entries@)),
{
    let ghost all = git_list(entry_views(entries@));
    let mut out: Vec<GitEntry> = Vec::new();
    let mut i: usize = 0;
    proof {
        assert(git_views(out@) =~= all.subrange(0, 0));
    }
    while i < entries.len()
        invariant
            i <= entries.len(),
            all == git_list(entry_views(entries@)),
            all.len() == entries@.len(),
            git_views(out@) == all.subrange(0, i as int),
        decreases entries.len() - i,
    {
        broadcast use lemma_git_views_push;

        let path = copied(entries[i].path.as_path());
        out.push((path, entries[i].identity));
        proof {
            assert(all[i as int] == (path@, entries@[i as int].identity));
            assert(all.subrange(0, i + 1) =~= all.subrange(0, i as int).push(all[i as int]));
        }
        i = i + 1;
    }
    proof {
        assert(all.subrange(0, i as int) =~= all);
    }
    out
}

/// Reading everything below a repository's root and its Git directory.
pub open spec fn collect_run(f: FileSession, root: HeldView, git: HeldView) -> (
    FileSession,
    Outcome<InventoryView>,
) {
    match inventory_run(f, root.handle) {
        (f1, Err(e)) => (f1, Err(e)),
        (f1, Ok(entries)) => match payload_from(f1, root, entries, Seq::empty(), 0) {
            (f2, Err(e)) => (f2, Err(e)),
            (f2, Ok(payload)) => match inventory_run(f2, git.handle) {
                (f3, Err(e)) => (f3, Err(e)),
                (f3, Ok(below)) => (f3, Ok(InventoryView { payload, git: git_list(below) })),
            },
        },
    }
}

pub open spec fn inventory_outcome(r: Result<Inventory>) -> Outcome<InventoryView> {
    match r {
        Ok(i) => Ok(i@),
        Err(e) => Err(e@),
    }
}

/// Reads everything below a repository's root and its Git directory.
pub fn collect<F: FileSystem + ?Sized>(files: &mut F, root: &HeldDirectory, git: &HeldDirectory) -> (r:
    Result<Inventory>)
    ensures
        (final(files).files(), inventory_outcome(r)) == collect_run(
            old(files).files(),
            root@,
            git@,
        ),
{
    let entries = root.inventory(files)?;
    let payload = read_payload(files, root, &entries)?;
    let below = git.inventory(files)?;
    Ok(Inventory { payload, git_entries: git_entries(&below) })
}

/// Nothing that is accepted into a worktree's inventory crosses a mount boundary, and no file
/// among it has a second name.
pub proof fn adopted_entries_are_safe(
    f: FileSession,
    root: HeldView,
    entries: Seq<EntryView>,
    done: Seq<ManifestView>,
    i: int,
)
    requires
        0 <= i <= entries.len(),
        payload_from(f, root, entries, done, i).1 is Ok,
    ensures
        forall|j: int|
            i <= j < entries.len() && !skipped(#[trigger] entries[j]) ==> entries[j].identity.mount_id
                == root.identity.mount_id && !(kind_of(entries[j].identity.mode)
                == FileKind::Regular && entries[j].identity.nlink > 1),
    decreases entries.len() - i,
{
    if i < entries.len() {
        if skipped(entries[i]) {
            adopted_entries_are_safe(f, root, entries, done, i + 1);
        } else {
            let path = joined_names(entries[i].path);
            let (f1, content) = content_run(
                f,
                child(root.anchored, path),
                entries[i].identity.mode,
            );
            adopted_entries_are_safe(
                f1,
                root,
                entries,
                done.push(
                    ManifestView {
                        path,
                        identity: entries[i].identity,
                        content: content->Ok_0,
                    },
                ),
                i + 1,
            );
        }
    }
}

// ------------------------------------------------------------- files of the Git directory

pub open spec fn irregular(path: Seq<u8>) -> ErrorView {
    needs_decision(lossy_text(path) + " is not a regular file"@)
}

fn irregular_error(path: &[u8]) -> (r: GroveError)
    ensures
        r@ == irregular(path@),
{
    GroveError::needs_decision(lossy(path).concat(" is not a regular file"))
}

/// Reading a file below the Git directory, by the names of its path.
pub open spec fn blob_run(f: FileSession, git: HeldView, relative: Seq<u8>) -> (
    FileSession,
    Outcome<BlobView>,
) {
    match checked_path(relative) {
        Err(e) => (f, Err(e)),
        Ok(names) => {
            let path = joined_names(names);
            match identity_step(f, FileRequest::IdentityAt(git.handle, path)) {
                (f1, Err(e)) => (f1, Err(e)),
                (f1, Ok(identity)) => if kind_of(identity.mode) != FileKind::Regular {
                    (f1, Err(irregular(path)))
                } else {
                    match bytes_step(f1, FileRequest::Read(child(git.anchored, path))) {
                        (f2, Err(e)) => (f2, Err(unreadable(path, e.text))),
                        (f2, Ok(bytes)) => (
                            f2,
                            Ok(
                                BlobView {
                                    bytes,
                                    sha256: sha256_of(bytes),
                                    mode: identity.mode,
                                    identity,
                                },
                            ),
                        ),
                    }
                },
            }
        },
    }
}

pub open spec fn blob_outcome(r: Result<BlobProof>) -> Outcome<BlobView> {
    match r {
        Ok(b) => Ok(b@),
        Err(e) => Err(e@),
    }
}

/// Reads a file below the Git directory.
pub fn blob<F: FileSystem + ?Sized>(files: &mut F, git: &HeldDirectory, relative: &[u8]) -> (r:
    Result<BlobProof>)
    ensures
        (final(files).files(), blob_outcome(r)) == blob_run(
            old(files).files(),
            git@,
            relative@,
        ),
{
    let path = ValidatedRelativePath::new(relative)?;
    let identity = files.identity_at(git.handle, &path)?;
    if file_kind(identity.mode) != FileKind::Regular {
        return Err(irregular_error(path.as_path()));
    }
    let absolute = join_path(git.anchored_path.as_slice(), path.as_path());
    match ask_bytes(files, FileRequest::Read(absolute)) {
        Err(e) => Err(unreadable_error(path.as_path(), e.text.as_str())),
        Ok(bytes) => {
            let digest = sha256(bytes.as_slice());
            Ok(BlobProof { bytes, sha256: digest, mode: identity.mode, identity })
        },
    }
}

/// Reading a file below the Git directory that need not be there.
pub open spec fn optional_blob_run(f: FileSession, git: HeldView, relative: Seq<u8>) -> (
    FileSession,
    Outcome<Option<BlobView>>,
) {
    match facts_step(f, FileRequest::Inspect(child(git.anchored, relative))) {
        (f1, Ok(facts)) => if facts.kind == FileKind::Regular {
            match blob_run(f1, git, relative) {
                (f2, Err(e)) => (f2, Err(e)),
                (f2, Ok(b)) => (f2, Ok(Some(b))),
            }
        } else {
            (f1, Err(irregular(relative)))
        },
        (f1, Err(e)) => if e.kind == FailureKind::NotFound {
            (f1, Ok(None))
        } else {
            (
                f1,
                Err(failure("cannot inspect "@ + lossy_text(relative) + ": "@ + e.text)),
            )
        },
    }
}

pub open spec fn optional_outcome(r: Result<Option<BlobProof>>) -> Outcome<Option<BlobView>> {
    match r {
        Ok(b) => Ok(opt_blob(b)),
        Err(e) => Err(e@),
    }
}

/// Reads a file below the Git directory that need not be there.
pub fn optional_blob<F: FileSystem + ?Sized>(files: &mut F, git: &HeldDirectory, relative: &[u8]) -> (r:
    Result<Option<BlobProof>>)
    ensures
        (final(files).files(), optional_outcome(r)) == optional_blob_run(
            old(files).files(),
            git@,
            relative@,
        ),
{
    let absolute = join_path(git.anchored_path.as_slice(), relative);
    match ask_facts(files, FileRequest::Inspect(absolute)) {
        Ok(facts) => if facts.kind == FileKind::Regular {
            Ok(Some(blob(files, git, relative)?))
        } else {
            Err(irregular_error(relative))
        },
        Err(e) => if e.kind == FailureKind::NotFound {
            Ok(None)
        } else {
            Err(
                GroveError::failure(
                    text("cannot inspect ").concat(lossy(relative).as_str()).concat(": ").concat(
                        e.text.as_str(),
                    ),
                ),
            )
        },
    }
}

/// Reading a file below the Git directory, to be known by its path.
pub open spec fn named_blob_run(f: FileSession, git: HeldView, relative: Seq<u8>) -> (
    FileSession,
    Outcome<NamedView>,
) {
    match blob_run(f, git, relative) {
        (f1, Err(e)) => (f1, Err(e)),
        (f1, Ok(blob)) => (
            f1,
            Ok(NamedView { path: joined_names(checked_path(relative)->Ok_0), blob }),
        ),
    }
}

pub open spec fn named_outcome(r: Result<NamedBlobProof>) -> Outcome<NamedView> {
    match r {
        Ok(b) => Ok(b@),
        Err(e) => Err(e@),
    }
}

/// Reads a file below the Git directory, to be known by its path.
pub fn named_blob<F: FileSystem + ?Sized>(files: &mut F, git: &HeldDirectory, relative: &[u8]) -> (r:
    Result<NamedBlobProof>)
    ensures
        (final(files).files(), named_outcome(r)) == named_blob_run(
            old(files).files(),
            git@,
            relative@,
        ),
{
    let path = ValidatedRelativePath::new(relative)?;
    let blob = blob(files, git, relative)?;
    Ok(NamedBlobProof { path: copied(path.as_path()), blob })
}

/// Reading again the files that a list names, from the one at `i` on.
pub open spec fn named_from(
    f: FileSession,
    git: HeldView,
    paths: Seq<Seq<u8>>,
    done: Seq<NamedView>,
    i: int,
) -> (FileSession, Outcome<Seq<NamedView>>)
    decreases paths.len() - i,
{
    if i >= paths.len() {
        (f, Ok(done))
    } else {
        match named_blob_run(f, git, paths[i]) {
            (f1, Err(e)) => (f1, Err(e)),
            (f1, Ok(n)) => named_from(f1, git, paths, done.push(n), i + 1),
        }
    }
}

pub open spec fn named_list_outcome(r: Result<Vec<NamedBlobProof>>) -> Outcome<Seq<NamedView>> {
    match r {
        Ok(v) => Ok(named_views(v@)),
        Err(e) => Err(e@),
    }
}

/// The paths of a list of files.
pub open spec fn paths_of(list: Seq<NamedView>) -> Seq<Seq<u8>> {
    list.map_values(|n: NamedView| n.path)
}

/// Reads again the files of a list.
pub fn read_again<F: FileSystem + ?Sized>(
    files: &mut F,
    git: &HeldDirectory,
    list: &Vec<NamedBlobProof>,
) -> (r: Result<Vec<NamedBlobProof>>)
    ensures
        (final(files).files(), named_list_outcome(r)) == named_from(
            old(files).files(),
            git@,
            paths_of(named_views(list@)),
            Seq::empty(),
            0,
        ),
{
    let ghost all = paths_of(named_views(list@));
    let mut out: Vec<NamedBlobProof> = Vec::new();
    let mut i: usize = 0;
    proof {
        assert(named_views(out@) =~= Seq::empty());
        assert(all.len() == list@.len());
    }
    while i < list.len()
        invariant
            i <= list.len(),
            all == paths_of(named_views(list@)),
            all.len() == list@.len(),
            named_from(old(files).files(), git@, all, Seq::empty(), 0) == named_from(
                files.files(),
                git@,
                all,
                named_views(out@),
                i as int,
            ),
        decreases list.len() - i,
    {
        broadcast use crate::commands::adopt::evidence::lemma_named_views_push;

        proof {
            assert(all[i as int] == list@[i as int]@.path);
        }
        let n = named_blob(files, git, list[i].path.as_slice())?;
        out.push(n);
        i = i + 1;
    }
    Ok(out)
}

} // verus!
