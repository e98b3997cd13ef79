//! What is known of a repository before it is converted, to the byte.
use vstd::prelude::*;
use sha2::Digest;
use crate::bytes::{copied, copied_list, opt_view, same, views};
use crate::fsx::held::{identities_match, same_identity, FileIdentity};

verus! {

/// The SHA-256 digest of a byte string.
pub uninterp spec fn sha256_of(bytes: Seq<u8>) -> Seq<u8>;

/// The SHA-256 digest of a byte string.
///
/// Trusted: `sha2::Sha256::digest`. The digest is a function of the bytes alone and is left as a
/// name; it has thirty-two bytes.
#[verifier::external_body]
pub(crate) fn sha256(bytes: &[u8]) -> (r: Vec<u8>)
    ensures
        r@ == sha256_of(bytes@),
        r@.len() == 32,
{
    sha2::Sha256::digest(bytes).to_vec()
}

/// A file's contents, its digest, and what identifies it.
#[derive(Debug)]
pub struct BlobProof {
    pub bytes: Vec<u8>,
    pub sha256: Vec<u8>,
    pub mode: u32,
    pub identity: FileIdentity,
}

pub struct BlobView {
    pub bytes: Seq<u8>,
    pub sha256: Seq<u8>,
    pub mode: u32,
    pub identity: FileIdentity,
}

impl View for BlobProof {
    type V = BlobView;

    open spec fn view(&self) -> BlobView {
        BlobView {
            bytes: self.bytes@,
            sha256: self.sha256@,
            mode: self.mode,
            identity: self.identity,
        }
    }
}

impl BlobProof {
    pub fn copied(&self) -> (r: BlobProof)
        ensures
            r@ == self@,
    {
        BlobProof {
            bytes: copied(self.bytes.as_slice()),
            sha256: copied(self.sha256.as_slice()),
            mode: self.mode,
            identity: self.identity,
        }
    }
}

pub open spec fn opt_blob(b: Option<BlobProof>) -> Option<BlobView> {
    match b {
        None => None,
        Some(b) => Some(b@),
    }
}

/// A file below the Git directory.
#[derive(Debug)]
pub struct NamedBlobProof {
    pub path: Vec<u8>,
    pub blob: BlobProof,
}

pub struct NamedView {
    pub path: Seq<u8>,
    pub blob: BlobView,
}

impl View for NamedBlobProof {
    type V = NamedView;

    open spec fn view(&self) -> NamedView {
        NamedView { path: self.path@, blob: self.blob@ }
    }
}

impl NamedBlobProof {
    pub fn copied(&self) -> (r: NamedBlobProof)
        ensures
            r@ == self@,
    {
        NamedBlobProof { path: copied(self.path.as_slice()), blob: self.blob.copied() }
    }
}

pub open spec fn named_views(list: Seq<NamedBlobProof>) -> Seq<NamedView> {
    list.map_values(|n: NamedBlobProof| n@)
}

pub broadcast proof fn lemma_named_views_push(list: Seq<NamedBlobProof>, n: NamedBlobProof)
    ensures
        #[trigger] named_views(list.push(n)) == named_views(list).push(n@),
{
    assert(named_views(list.push(n)) =~= named_views(list).push(n@));
}

/// What an entry of the worktree holds.
#[derive(Debug)]
pub enum ManifestContent {
    /// It is neither a file nor a link.
    Nothing,
    Blob { bytes: Vec<u8>, sha256: Vec<u8> },
    Symlink { target: Vec<u8>, sha256: Vec<u8> },
}

pub enum ContentView {
    Nothing,
    Blob { bytes: Seq<u8>, sha256: Seq<u8> },
    Symlink { target: Seq<u8>, sha256: Seq<u8> },
}

impl View for ManifestContent {
    type V = ContentView;

    open spec fn view(&self) -> ContentView {
        match self {
            ManifestContent::Nothing => ContentView::Nothing,
            ManifestContent::Blob { bytes, sha256 } => ContentView::Blob {
                bytes: bytes@,
                sha256: sha256@,
            },
            ManifestContent::Symlink { target, sha256 } => ContentView::Symlink {
                target: target@,
                sha256: sha256@,
            },
        }
    }
}

impl ManifestContent {
    pub fn same_as(&self, other: &ManifestContent) -> (r: bool)
        ensures
            r == (self@ == other@),
    {
        match (self, other) {
            (ManifestContent::Nothing, ManifestContent::Nothing) => true,
            (
                ManifestContent::Blob { bytes: a, sha256: b },
                ManifestContent::Blob { bytes: c, sha256: d },
            ) => same(a.as_slice(), c.as_slice()) && same(b.as_slice(), d.as_slice()),
            (
                ManifestContent::Symlink { target: a, sha256: b },
                ManifestContent::Symlink { target: c, sha256: d },
            ) => same(a.as_slice(), c.as_slice()) && same(b.as_slice(), d.as_slice()),
            _ => false,
        }
    }
}

/// One entry of the worktree.
#[derive(Debug)]
pub struct ManifestEntry {
    pub path: Vec<u8>,
    pub identity: FileIdentity,
    pub content: ManifestContent,
}

pub struct ManifestView {
    pub path: Seq<u8>,
    pub identity: FileIdentity,
    pub content: ContentView,
}

impl View for ManifestEntry {
    type V = ManifestView;

    open spec fn view(&self) -> ManifestView {
        ManifestView {
            path: self.path@,
            identity: self.identity,
            content: self.content@,
        }
    }
}

pub open spec fn manifest_views(list: Seq<ManifestEntry>) -> Seq<ManifestView> {
    list.map_values(|m: ManifestEntry| m@)
}

pub broadcast proof fn lemma_manifest_views_push(list: Seq<ManifestEntry>, m: ManifestEntry)
    ensures
        #[trigger] manifest_views(list.push(m)) == manifest_views(list).push(m@),
{
    assert(manifest_views(list.push(m)) =~= manifest_views(list).push(m@));
}

/// Whether two entries agree in everything that is recorded of them.
pub open spec fn same_entry(a: ManifestView, b: ManifestView) -> bool {
    a.path == b.path && same_identity(a.identity, b.identity) && a.content == b.content
}

impl ManifestEntry {
    pub fn same_as(&self, other: &ManifestEntry) -> (r: bool)
        ensures
            r == same_entry(self@, other@),
    {
        same(self.path.as_slice(), other.path.as_slice()) && identities_match(
            &self.identity,
            &other.identity,
        ) && self.content.same_as(&other.content)
    }
}

/// The first place at which two lists of entries differ, as far as both reach.
pub open spec fn manifest_change(a: Seq<ManifestView>, b: Seq<ManifestView>, i: int) -> int
    decreases a.len() - i,
{
    if i >= a.len() || i >= b.len() {
        i
    } else if same_entry(a[i], b[i]) {
        manifest_change(a, b, i + 1)
    } else {
        i
    }
}

pub open spec fn same_manifests(a: Seq<ManifestView>, b: Seq<ManifestView>) -> bool {
    a.len() == b.len() && forall|i: int|
        0 <= i < a.len() ==> same_entry(#[trigger] a[i], b[i])
}

/// An entry below the Git directory: its path and what identifies it.
pub type GitEntry = (Vec<u8>, FileIdentity);

pub open spec fn git_views(list: Seq<GitEntry>) -> Seq<(Seq<u8>, FileIdentity)> {
    list.map_values(|e: GitEntry| (e.0@, e.1))
}

pub broadcast proof fn lemma_git_views_push(list: Seq<GitEntry>, e: GitEntry)
    ensures
        #[trigger] git_views(list.push(e)) == git_views(list).push((e.0@, e.1)),
{
    assert(git_views(list.push(e)) =~= git_views(list).push((e.0@, e.1)));
}

/// Everything below a repository's root, and below its Git directory.
#[derive(Debug)]
pub struct Inventory {
    pub payload: Vec<ManifestEntry>,
    pub git_entries: Vec<GitEntry>,
}

pub struct InventoryView {
    pub payload: Seq<ManifestView>,
    pub git: Seq<(Seq<u8>, FileIdentity)>,
}

impl View for Inventory {
    type V = InventoryView;

    open spec fn view(&self) -> InventoryView {
        InventoryView {
            payload: manifest_views(self.payload@),
            git: git_views(self.git_entries@),
        }
    }
}

/// What a Git child printed, and what it was asked.
#[derive(Debug)]
pub struct ByteSnapshot {
    pub args: Vec<Vec<u8>>,
    pub bytes: Vec<u8>,
}

pub struct SnapshotBytes {
    pub args: Seq<Seq<u8>>,
    pub bytes: Seq<u8>,
}

impl View for ByteSnapshot {
    type V = SnapshotBytes;

    open spec fn view(&self) -> SnapshotBytes {
        SnapshotBytes { args: views(self.args@), bytes: self.bytes@ }
    }
}

impl ByteSnapshot {
    pub fn copied(&self) -> (r: ByteSnapshot)
        ensures
            r@ == self@,
    {
        ByteSnapshot { args: copied_list(&self.args), bytes: copied(self.bytes.as_slice()) }
    }
}

/// Where `HEAD` was.
#[derive(Debug)]
pub enum HeadProof {
    Attached { branch: Vec<u8> },
    Detached { oid: Vec<u8> },
}

pub enum HeadView {
    Attached { branch: Seq<u8> },
    Detached { oid: Seq<u8> },
}

impl View for HeadProof {
    type V = HeadView;

    open spec fn view(&self) -> HeadView {
        match self {
            HeadProof::Attached { branch } => HeadView::Attached { branch: branch@ },
            HeadProof::Detached { oid } => HeadView::Detached { oid: oid@ },
        }
    }
}

/// What was decided before anything was changed.
#[derive(Debug)]
pub struct AdoptDecisionsProof {
    pub payload_head: HeadProof,
    pub default_branch: Vec<u8>,
    pub selected_remote: Option<Vec<u8>>,
    /// Where the current checkout goes, below the root.
    pub payload_path: Vec<u8>,
    /// Where a worktree for the default branch goes, when the checkout is on another.
    pub default_path: Option<Vec<u8>>,
}

pub struct DecisionsView {
    pub payload_head: HeadView,
    pub default_branch: Seq<u8>,
    pub selected_remote: Option<Seq<u8>>,
    pub payload_path: Seq<u8>,
    pub default_path: Option<Seq<u8>>,
}

impl View for AdoptDecisionsProof {
    type V = DecisionsView;

    open spec fn view(&self) -> DecisionsView {
        DecisionsView {
            payload_head: self.payload_head@,
            default_branch: self.default_branch@,
            selected_remote: opt_view(self.selected_remote),
            payload_path: self.payload_path@,
            default_path: opt_view(self.default_path),
        }
    }
}

/// The repository as it was.
#[derive(Debug)]
pub struct OriginalEvidence {
    pub repository_identity: FileIdentity,
    pub worktree_list_porcelain_z: ByteSnapshot,
    pub status_porcelain_v2_z: ByteSnapshot,
    pub ls_files_stage_z: ByteSnapshot,
    pub ls_files_verbose_z: ByteSnapshot,
    pub payload_manifest: Vec<ManifestEntry>,
    pub index: Option<BlobProof>,
    pub shared_indexes: Vec<NamedBlobProof>,
    pub config: BlobProof,
    pub config_worktree: Option<BlobProof>,
    pub head: BlobProof,
    pub refs: Vec<NamedBlobProof>,
    pub private_state: Vec<NamedBlobProof>,
}

pub struct OriginalView {
    pub repository_identity: FileIdentity,
    pub worktrees: SnapshotBytes,
    pub status: SnapshotBytes,
    pub stages: SnapshotBytes,
    pub verbose: SnapshotBytes,
    pub manifest: Seq<ManifestView>,
    pub index: Option<BlobView>,
    pub shared_indexes: Seq<NamedView>,
    pub config: BlobView,
    pub config_worktree: Option<BlobView>,
    pub head: BlobView,
    pub refs: Seq<NamedView>,
    pub private_state: Seq<NamedView>,
}

impl View for OriginalEvidence {
    type V = OriginalView;

    open spec fn view(&self) -> OriginalView {
        OriginalView {
            repository_identity: self.repository_identity,
            worktrees: self.worktree_list_porcelain_z@,
            status: self.status_porcelain_v2_z@,
            stages: self.ls_files_stage_z@,
            verbose: self.ls_files_verbose_z@,
            manifest: manifest_views(self.payload_manifest@),
            index: opt_blob(self.index),
            shared_indexes: named_views(self.shared_indexes@),
            config: self.config@,
            config_worktree: opt_blob(self.config_worktree),
            head: self.head@,
            refs: named_views(self.refs@),
            private_state: named_views(self.private_state@),
        }
    }
}

/// Whether two lists of worktree entries agree entry by entry.
pub fn manifests_match(a: &Vec<ManifestEntry>, b: &Vec<ManifestEntry>) -> (r: bool)
    ensures
        r == same_manifests(manifest_views(a@), manifest_views(b@)),
{
    let ghost va = manifest_views(a@);
    let ghost vb = manifest_views(b@);
    proof {
        assert(va.len() == a@.len());
        assert(vb.len() == b@.len());
    }
    if a.len() != b.len() {
        return false;
    }
    let mut i: usize = 0;
    while i < a.len()
        invariant
            i <= a.len(),
            a@.len() == b@.len(),
            va == manifest_views(a@),
            vb == manifest_views(b@),
            va.len() == a@.len(),
            vb.len() == b@.len(),
            forall|j: int| 0 <= j < i ==> same_entry(#[trigger] va[j], vb[j]),
        decreases a.len() - i,
    {
        proof {
            assert(va[i as int] == a@[i as int]@);
            assert(vb[i as int] == b@[i as int]@);
        }
        if !a[i].same_as(&b[i]) {
            proof {
                assert(!same_entry(va[i as int], vb[i as int]));
            }
            return false;
        }
        i = i + 1;
    }
    true
}

/// The first place at which two lists of worktree entries differ.
pub fn first_manifest_change(a: &Vec<ManifestEntry>, b: &Vec<ManifestEntry>) -> (r: usize)
    ensures
        r == manifest_change(manifest_views(a@), manifest_views(b@), 0),
        r <= a.len(),
        r <= b.len(),
{
    let ghost va = manifest_views(a@);
    let ghost vb = manifest_views(b@);
    let mut i: usize = 0;
    proof {
        assert(va.len() == a@.len());
        assert(vb.len() == b@.len());
    }
    while i < a.len() && i < b.len()
        invariant
            i <= a.len(),
            i <= b.len(),
            va == manifest_views(a@),
            vb == manifest_views(b@),
            va.len() == a@.len(),
            vb.len() == b@.len(),
            manifest_change(va, vb, 0) == manifest_change(va, vb, i as int),
        decreases a.len() - i,
    {
        proof {
            assert(va[i as int] == a@[i as int]@);
            assert(vb[i as int] == b@[i as int]@);
        }
        if !a[i].same_as(&b[i]) {
            return i;
        }
        i = i + 1;
    }
    i
}

} // verus!
