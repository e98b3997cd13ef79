//! The file system, as the requests that are made of it and the answers it gives.
//!
//! A directory or a file that is held open goes by a number, which the file system hands out.
use vstd::prelude::*;
use crate::bytes::{copied, views};
use crate::error::{ErrorView, GroveError, Result};
use crate::fsx::held::{FileIdentity, FileKind, InventoryEntry, Timespec, ValidatedRelativePath};
use crate::fsx::lock::LockMode;
use crate::git::config::Outcome;
use crate::path::joined_names;
use crate::text::text;

verus! {

/// The kinds of failure that are told apart.
#[derive(Clone, Copy, Debug, PartialEq, Eq, Structural)]
pub enum FailureKind {
    NotFound,
    AlreadyExists,
    Unsupported,
    InvalidInput,
    Other,
}

/// A request that failed, and what the system says of it.
#[derive(Debug)]
pub struct IoFailure {
    pub kind: FailureKind,
    pub text: String,
}

pub struct FailureView {
    pub kind: FailureKind,
    pub text: Seq<char>,
}

impl View for IoFailure {
    type V = FailureView;

    open spec fn view(&self) -> FailureView {
        FailureView { kind: self.kind, text: self.text@ }
    }
}

pub type IoResult<T> = std::result::Result<T, IoFailure>;

pub type IoOutcome<T> = std::result::Result<T, FailureView>;

/// A directory entry as it was found, its last link not followed.
#[derive(Clone, Copy, Debug, PartialEq, Eq, Structural)]
pub struct FileFacts {
    pub kind: FileKind,
    pub device: u64,
    pub inode: u64,
}

/// The status of an entry, as the system reports it.
#[derive(Clone, Copy, Debug, PartialEq, Eq, Structural)]
pub struct StatFacts {
    pub dev: u64,
    pub ino: u64,
    pub mode: u32,
    pub nlink: u64,
    pub size: i64,
    pub mtime: Timespec,
    pub ctime: Timespec,
}

/// One request. `P` is how paths, names and contents are written.
#[derive(Debug)]
pub enum FileRequest<P> {
    /// What entry a path names, a link at its end not followed.
    Inspect(P),
    /// Whether a path leads to anything, links followed.
    Exists(P),
    /// Whether a path leads to a file, links followed.
    IsFile(P),
    /// Whether a path leads to a directory, links followed.
    IsDirectory(P),
    Read(P),
    ReadLink(P),
    Canonicalize(P),
    /// The names in a directory.
    List(P),
    CreateDirectory(P),
    /// A directory with these permissions.
    MakeDirectory(P, u32),
    /// A directory and its missing parents.
    CreateDirectories(P),
    RemoveFile(P),
    RemoveDirectory(P),
    Rename(P, P),
    SetMode(P, u32),
    /// Opens a directory and makes its entries durable.
    SyncDirectory(P),
    /// Opens a directory that is no link.
    OpenDirectory(P),
    /// Opens a directory, links followed.
    OpenParent(P),
    OpenDirectoryAt(u64, P),
    MakeDirectoryAt(u64, P, u32),
    /// Opens a file that is no link.
    OpenFileAt(u64, P),
    /// The contents of what is held.
    ReadAll(u64),
    ReadLinkAt(u64, P),
    /// A link to the first path, in a held directory, under a name.
    SymlinkAt(P, u64, P),
    /// The path under which the process reaches what it holds.
    AnchoredPath(u64),
    /// The path that the system itself has for what is held.
    KernelPath(u64),
    IdentityAt(u64, P),
    /// From one place to another that must be vacant.
    RenameAt(u64, P, u64, P),
    WriteNewAt(u64, P, P, u32),
    RemoveAt(u64, P),
    SyncFileAt(u64, P),
    /// Makes what is held durable.
    Sync(u64),
    /// A new file without a name, in a held directory.
    CreateUnnamed(u64),
    /// A new file under a name that must be vacant, in a held directory.
    CreateNamed(u64, P),
    Write(u64, P),
    /// Gives a held file a name in a held directory.
    Link(u64, u64, P),
    /// Renames within a held directory, in place of any entry there.
    Replace(u64, P, P),
    /// Renames within a held directory, where no entry may be in the way.
    Install(u64, P, P),
    /// Locks a held directory, without waiting.
    Lock(u64, LockMode),
    /// The kernel's table of mounts.
    MountTable,
    /// The status of what is held.
    Stat(u64),
    /// The status of an entry in a held directory, a link not followed.
    StatAt(u64, P),
    /// The mount that an entry in a held directory lies on; an empty name stands for the
    /// directory itself.
    MountIdAt(u64, P),
    /// Renames an entry of one held directory into another, where no entry may be in the way.
    MoveAt(u64, P, u64, P),
    /// A new file that is no link, in a held directory.
    CreateNewAt(u64, P, u32),
    /// Takes an entry out of a held directory; the last part tells whether it is a directory.
    UnlinkAt(u64, P, bool),
    /// The names in a held directory.
    ListHeld(u64),
    /// Lets go of what is held.
    Close(u64),
    /// Records how far a transaction is, durably: its directory, the generation, and a byte for
    /// each phase and for the course taken.
    StoreJournal(P, u64, P),
}

impl View for FileRequest<Vec<u8>> {
    type V = FileRequest<Seq<u8>>;

    open spec fn view(&self) -> FileRequest<Seq<u8>> {
        match self {
            FileRequest::Inspect(p) => FileRequest::Inspect(p@),
            FileRequest::Exists(p) => FileRequest::Exists(p@),
            FileRequest::IsFile(p) => FileRequest::IsFile(p@),
            FileRequest::IsDirectory(p) => FileRequest::IsDirectory(p@),
            FileRequest::Read(p) => FileRequest::Read(p@),
            FileRequest::ReadLink(p) => FileRequest::ReadLink(p@),
            FileRequest::Canonicalize(p) => FileRequest::Canonicalize(p@),
            FileRequest::List(p) => FileRequest::List(p@),
            FileRequest::CreateDirectory(p) => FileRequest::CreateDirectory(p@),
            FileRequest::MakeDirectory(p, m) => FileRequest::MakeDirectory(p@, *m),
            FileRequest::CreateDirectories(p) => FileRequest::CreateDirectories(p@),
            FileRequest::RemoveFile(p) => FileRequest::RemoveFile(p@),
            FileRequest::RemoveDirectory(p) => FileRequest::RemoveDirectory(p@),
            FileRequest::Rename(p, q) => FileRequest::Rename(p@, q@),
            FileRequest::SetMode(p, m) => FileRequest::SetMode(p@, *m),
            FileRequest::SyncDirectory(p) => FileRequest::SyncDirectory(p@),
            FileRequest::OpenDirectory(p) => FileRequest::OpenDirectory(p@),
            FileRequest::OpenParent(p) => FileRequest::OpenParent(p@),
            FileRequest::OpenDirectoryAt(h, p) => FileRequest::OpenDirectoryAt(*h, p@),
            FileRequest::MakeDirectoryAt(h, p, m) => FileRequest::MakeDirectoryAt(*h, p@, *m),
            FileRequest::OpenFileAt(h, p) => FileRequest::OpenFileAt(*h, p@),
            FileRequest::ReadAll(h) => FileRequest::ReadAll(*h),
            FileRequest::ReadLinkAt(h, p) => FileRequest::ReadLinkAt(*h, p@),
            FileRequest::SymlinkAt(t, h, p) => FileRequest::SymlinkAt(t@, *h, p@),
            FileRequest::AnchoredPath(h) => FileRequest::AnchoredPath(*h),
            FileRequest::KernelPath(h) => FileRequest::KernelPath(*h),
            FileRequest::IdentityAt(h, p) => FileRequest::IdentityAt(*h, p@),
            FileRequest::RenameAt(h, p, g, q) => FileRequest::RenameAt(*h, p@, *g, q@),
            FileRequest::WriteNewAt(h, p, b, m) => FileRequest::WriteNewAt(*h, p@, b@, *m),
            FileRequest::RemoveAt(h, p) => FileRequest::RemoveAt(*h, p@),
            FileRequest::SyncFileAt(h, p) => FileRequest::SyncFileAt(*h, p@),
            FileRequest::Sync(h) => FileRequest::Sync(*h),
            FileRequest::CreateUnnamed(h) => FileRequest::CreateUnnamed(*h),
            FileRequest::CreateNamed(h, p) => FileRequest::CreateNamed(*h, p@),
            FileRequest::Write(h, b) => FileRequest::Write(*h, b@),
            FileRequest::Link(f, h, p) => FileRequest::Link(*f, *h, p@),
            FileRequest::Replace(h, p, q) => FileRequest::Replace(*h, p@, q@),
            FileRequest::Install(h, p, q) => FileRequest::Install(*h, p@, q@),
            FileRequest::Lock(h, m) => FileRequest::Lock(*h, *m),
            FileRequest::MountTable => FileRequest::MountTable,
            FileRequest::Stat(h) => FileRequest::Stat(*h),
            FileRequest::StatAt(h, p) => FileRequest::StatAt(*h, p@),
            FileRequest::MountIdAt(h, p) => FileRequest::MountIdAt(*h, p@),
            FileRequest::MoveAt(h, p, g, q) => FileRequest::MoveAt(*h, p@, *g, q@),
            FileRequest::CreateNewAt(h, p, m) => FileRequest::CreateNewAt(*h, p@, *m),
            FileRequest::UnlinkAt(h, p, d) => FileRequest::UnlinkAt(*h, p@, *d),
            FileRequest::ListHeld(h) => FileRequest::ListHeld(*h),
            FileRequest::Close(h) => FileRequest::Close(*h),
            FileRequest::StoreJournal(p, g, b) => FileRequest::StoreJournal(p@, *g, b@),
        }
    }
}

/// One answer.
#[derive(Debug)]
pub enum FileAnswer {
    Done,
    Facts(FileFacts),
    Found(bool),
    Bytes(Vec<u8>),
    Names(Vec<Vec<u8>>),
    Handle(u64),
    Identity(FileIdentity),
    Stat(StatFacts),
    /// A mount's number, where the system reports one.
    Mount(Option<u64>),
    /// What the system says.
    Failed(IoFailure),
    /// An error that is ready to be shown.
    Refused(GroveError),
}

/// An entry below a held directory.
pub struct EntryView {
    /// The names its path consists of.
    pub path: Seq<Seq<u8>>,
    pub identity: FileIdentity,
}

impl View for InventoryEntry {
    type V = EntryView;

    open spec fn view(&self) -> EntryView {
        EntryView { path: self.path@, identity: self.identity }
    }
}

pub open spec fn entry_views(list: Seq<InventoryEntry>) -> Seq<EntryView> {
    list.map_values(|e: InventoryEntry| e@)
}

pub enum AnswerView {
    Done,
    Facts(FileFacts),
    Found(bool),
    Bytes(Seq<u8>),
    Names(Seq<Seq<u8>>),
    Handle(u64),
    Identity(FileIdentity),
    Stat(StatFacts),
    Mount(Option<u64>),
    Failed(FailureView),
    Refused(ErrorView),
}

impl View for FileAnswer {
    type V = AnswerView;

    open spec fn view(&self) -> AnswerView {
        match self {
            FileAnswer::Done => AnswerView::Done,
            FileAnswer::Facts(f) => AnswerView::Facts(*f),
            FileAnswer::Found(b) => AnswerView::Found(*b),
            FileAnswer::Bytes(b) => AnswerView::Bytes(b@),
            FileAnswer::Names(n) => AnswerView::Names(views(n@)),
            FileAnswer::Handle(h) => AnswerView::Handle(*h),
            FileAnswer::Identity(i) => AnswerView::Identity(*i),
            FileAnswer::Stat(f) => AnswerView::Stat(*f),
            FileAnswer::Mount(m) => AnswerView::Mount(*m),
            FileAnswer::Failed(e) => AnswerView::Failed(e@),
            FileAnswer::Refused(e) => AnswerView::Refused(e@),
        }
    }
}

/// The requests made so far, and what a request is answered after those before it: the script
/// takes the requests up to and with the one to be answered.
pub struct FileSession {
    pub calls: Seq<FileRequest<Seq<u8>>>,
    pub script: spec_fn(Seq<FileRequest<Seq<u8>>>) -> AnswerView,
}

/// One more request, and its answer.
pub open spec fn file_step(s: FileSession, request: FileRequest<Seq<u8>>) -> (
    FileSession,
    AnswerView,
) {
    (
        FileSession { calls: s.calls.push(request), script: s.script },
        (s.script)(s.calls.push(request)),
    )
}

/// What the request with number `i` was answered.
pub open spec fn answer_to(s: FileSession, i: int) -> AnswerView {
    (s.script)(s.calls.take(i + 1))
}

/// Takes requests, one at a time.
pub trait FileSystem {
    /// The requests made through this file system, and the answers it will give.
    spec fn files(&self) -> FileSession;

    /// Carries out one request.
    fn perform(&mut self, request: FileRequest<Vec<u8>>) -> (r: FileAnswer)
        ensures
            (final(self).files(), r@) == file_step(old(self).files(), request@),
    ;

    /// The identity of the entry at a path below a held directory.
    fn identity_at(&mut self, handle: u64, path: &ValidatedRelativePath) -> (r: Result<FileIdentity>)
        ensures
            (final(self).files(), crate::error::plain(r)) == identity_step(
                old(self).files(),
                FileRequest::IdentityAt(handle, joined_names(path@)),
            ),
    {
        identity_answer(self.perform(FileRequest::IdentityAt(handle, copied(path.as_path()))))
    }

    /// Renames an entry below a held directory to a vacant place below another.
    fn rename_at(
        &mut self,
        from: u64,
        from_path: &ValidatedRelativePath,
        to: u64,
        to_path: &ValidatedRelativePath,
    ) -> (r: Result<()>)
        ensures
            (final(self).files(), crate::error::plain(r)) == settled_step(
                old(self).files(),
                FileRequest::RenameAt(from, joined_names(from_path@), to, joined_names(to_path@)),
            ),
    {
        settled_answer(
            self.perform(
                FileRequest::RenameAt(
                    from,
                    copied(from_path.as_path()),
                    to,
                    copied(to_path.as_path()),
                ),
            ),
        )
    }

    /// Writes a new file below a held directory.
    fn write_new_at(&mut self, handle: u64, path: &ValidatedRelativePath, bytes: &[u8], mode: u32) -> (r:
        Result<()>)
        ensures
            (final(self).files(), crate::error::plain(r)) == settled_step(
                old(self).files(),
                FileRequest::WriteNewAt(handle, joined_names(path@), bytes@, mode),
            ),
    {
        settled_answer(
            self.perform(
                FileRequest::WriteNewAt(handle, copied(path.as_path()), copied(bytes), mode),
            ),
        )
    }

    /// Removes an entry below a held directory.
    fn remove_at(&mut self, handle: u64, path: &ValidatedRelativePath) -> (r: Result<()>)
        ensures
            (final(self).files(), crate::error::plain(r)) == settled_step(
                old(self).files(),
                FileRequest::RemoveAt(handle, joined_names(path@)),
            ),
    {
        settled_answer(self.perform(FileRequest::RemoveAt(handle, copied(path.as_path()))))
    }

    /// Makes a file below a held directory durable.
    fn fsync_file_at(&mut self, handle: u64, path: &ValidatedRelativePath) -> (r: Result<()>)
        ensures
            (final(self).files(), crate::error::plain(r)) == settled_step(
                old(self).files(),
                FileRequest::SyncFileAt(handle, joined_names(path@)),
            ),
    {
        settled_answer(self.perform(FileRequest::SyncFileAt(handle, copied(path.as_path()))))
    }

    /// Makes a held directory durable.
    fn fsync_dir(&mut self, handle: u64) -> (r: Result<()>)
        ensures
            (final(self).files(), crate::error::plain(r)) == fsync_run(old(self).files(), handle),
    {
        match self.perform(FileRequest::Sync(handle)) {
            FileAnswer::Done => Ok(()),
            FileAnswer::Failed(e) => Err(
                GroveError::failure(text("cannot fsync directory: ").concat(e.text.as_str())),
            ),
            _ => Err(
                GroveError::failure(text("cannot fsync directory: ").concat("unexpected answer")),
            ),
        }
    }
}

/// Making a held directory durable.
pub open spec fn fsync_run(s: FileSession, handle: u64) -> (FileSession, Outcome<()>) {
    match done_step(s, FileRequest::Sync(handle)) {
        (s1, Err(e)) => (s1, Err(crate::error::failure("cannot fsync directory: "@ + e.text))),
        (s1, Ok(_)) => (s1, Ok(())),
    }
}

// --------------------------------------------------------------- reading answers

pub open spec fn unexpected() -> FailureView {
    FailureView { kind: FailureKind::Other, text: "unexpected answer"@ }
}

pub open spec fn unexpected_error() -> ErrorView {
    crate::error::failure("unexpected answer"@)
}

fn unexpected_failure() -> (r: IoFailure)
    ensures
        r@ == unexpected(),
{
    IoFailure { kind: FailureKind::Other, text: text("unexpected answer") }
}

pub open spec fn as_done(a: AnswerView) -> IoOutcome<()> {
    match a {
        AnswerView::Done => Ok(()),
        AnswerView::Failed(e) => Err(e),
        _ => Err(unexpected()),
    }
}

pub open spec fn as_facts(a: AnswerView) -> IoOutcome<FileFacts> {
    match a {
        AnswerView::Facts(f) => Ok(f),
        AnswerView::Failed(e) => Err(e),
        _ => Err(unexpected()),
    }
}

pub open spec fn as_bytes(a: AnswerView) -> IoOutcome<Seq<u8>> {
    match a {
        AnswerView::Bytes(b) => Ok(b),
        AnswerView::Failed(e) => Err(e),
        _ => Err(unexpected()),
    }
}

pub open spec fn as_names(a: AnswerView) -> IoOutcome<Seq<Seq<u8>>> {
    match a {
        AnswerView::Names(n) => Ok(n),
        AnswerView::Failed(e) => Err(e),
        _ => Err(unexpected()),
    }
}

pub open spec fn as_handle(a: AnswerView) -> IoOutcome<u64> {
    match a {
        AnswerView::Handle(h) => Ok(h),
        AnswerView::Failed(e) => Err(e),
        _ => Err(unexpected()),
    }
}

pub open spec fn as_stat(a: AnswerView) -> IoOutcome<StatFacts> {
    match a {
        AnswerView::Stat(f) => Ok(f),
        AnswerView::Failed(e) => Err(e),
        _ => Err(unexpected()),
    }
}

pub open spec fn as_mount(a: AnswerView) -> Option<u64> {
    match a {
        AnswerView::Mount(m) => m,
        _ => None,
    }
}

pub open spec fn as_found(a: AnswerView) -> bool {
    match a {
        AnswerView::Found(b) => b,
        _ => false,
    }
}

pub open spec fn as_identity(a: AnswerView) -> Outcome<FileIdentity> {
    match a {
        AnswerView::Identity(i) => Ok(i),
        AnswerView::Refused(e) => Err(e),
        _ => Err(unexpected_error()),
    }
}

pub open spec fn as_settled(a: AnswerView) -> Outcome<()> {
    match a {
        AnswerView::Done => Ok(()),
        AnswerView::Refused(e) => Err(e),
        _ => Err(unexpected_error()),
    }
}

pub open spec fn done_step(s: FileSession, c: FileRequest<Seq<u8>>) -> (FileSession, IoOutcome<()>) {
    let (s1, a) = file_step(s, c);
    (s1, as_done(a))
}

pub open spec fn facts_step(s: FileSession, c: FileRequest<Seq<u8>>) -> (
    FileSession,
    IoOutcome<FileFacts>,
) {
    let (s1, a) = file_step(s, c);
    (s1, as_facts(a))
}

pub open spec fn bytes_step(s: FileSession, c: FileRequest<Seq<u8>>) -> (
    FileSession,
    IoOutcome<Seq<u8>>,
) {
    let (s1, a) = file_step(s, c);
    (s1, as_bytes(a))
}

pub open spec fn names_step(s: FileSession, c: FileRequest<Seq<u8>>) -> (
    FileSession,
    IoOutcome<Seq<Seq<u8>>>,
) {
    let (s1, a) = file_step(s, c);
    (s1, as_names(a))
}

pub open spec fn handle_step(s: FileSession, c: FileRequest<Seq<u8>>) -> (
    FileSession,
    IoOutcome<u64>,
) {
    let (s1, a) = file_step(s, c);
    (s1, as_handle(a))
}

pub open spec fn stat_step(s: FileSession, c: FileRequest<Seq<u8>>) -> (
    FileSession,
    IoOutcome<StatFacts>,
) {
    let (s1, a) = file_step(s, c);
    (s1, as_stat(a))
}

pub open spec fn mount_step(s: FileSession, c: FileRequest<Seq<u8>>) -> (
    FileSession,
    Option<u64>,
) {
    let (s1, a) = file_step(s, c);
    (s1, as_mount(a))
}

pub open spec fn found_step(s: FileSession, c: FileRequest<Seq<u8>>) -> (FileSession, bool) {
    let (s1, a) = file_step(s, c);
    (s1, as_found(a))
}

pub open spec fn identity_step(s: FileSession, c: FileRequest<Seq<u8>>) -> (
    FileSession,
    Outcome<FileIdentity>,
) {
    let (s1, a) = file_step(s, c);
    (s1, as_identity(a))
}

pub open spec fn settled_step(s: FileSession, c: FileRequest<Seq<u8>>) -> (
    FileSession,
    Outcome<()>,
) {
    let (s1, a) = file_step(s, c);
    (s1, as_settled(a))
}

/// The model of an answer whose value is its own model.
pub open spec fn io_plain<T>(r: IoResult<T>) -> IoOutcome<T> {
    match r {
        Ok(v) => Ok(v),
        Err(e) => Err(e@),
    }
}

pub open spec fn io_bytes(r: IoResult<Vec<u8>>) -> IoOutcome<Seq<u8>> {
    match r {
        Ok(v) => Ok(v@),
        Err(e) => Err(e@),
    }
}

pub open spec fn io_names(r: IoResult<Vec<Vec<u8>>>) -> IoOutcome<Seq<Seq<u8>>> {
    match r {
        Ok(v) => Ok(views(v@)),
        Err(e) => Err(e@),
    }
}

pub open spec fn entries_outcome(r: Result<Vec<InventoryEntry>>) -> Outcome<Seq<EntryView>> {
    match r {
        Ok(v) => Ok(entry_views(v@)),
        Err(e) => Err(e@),
    }
}

/// Carries out a request that has no result.
pub fn do_request<F: FileSystem + ?Sized>(files: &mut F, request: FileRequest<Vec<u8>>) -> (r:
    IoResult<()>)
    ensures
        (final(files).files(), io_plain(r)) == done_step(old(files).files(), request@),
{
    match files.perform(request) {
        FileAnswer::Done => Ok(()),
        FileAnswer::Failed(e) => Err(e),
        _ => Err(unexpected_failure()),
    }
}

/// Carries out a request for what an entry is.
pub fn ask_facts<F: FileSystem + ?Sized>(files: &mut F, request: FileRequest<Vec<u8>>) -> (r:
    IoResult<FileFacts>)
    ensures
        (final(files).files(), io_plain(r)) == facts_step(old(files).files(), request@),
{
    match files.perform(request) {
        FileAnswer::Facts(f) => Ok(f),
        FileAnswer::Failed(e) => Err(e),
        _ => Err(unexpected_failure()),
    }
}

/// Carries out a request for bytes.
pub fn ask_bytes<F: FileSystem + ?Sized>(files: &mut F, request: FileRequest<Vec<u8>>) -> (r:
    IoResult<Vec<u8>>)
    ensures
        (final(files).files(), io_bytes(r)) == bytes_step(old(files).files(), request@),
{
    match files.perform(request) {
        FileAnswer::Bytes(b) => Ok(b),
        FileAnswer::Failed(e) => Err(e),
        _ => Err(unexpected_failure()),
    }
}

/// Carries out a request for names.
pub fn ask_names<F: FileSystem + ?Sized>(files: &mut F, request: FileRequest<Vec<u8>>) -> (r:
    IoResult<Vec<Vec<u8>>>)
    ensures
        (final(files).files(), io_names(r)) == names_step(old(files).files(), request@),
{
    match files.perform(request) {
        FileAnswer::Names(n) => Ok(n),
        FileAnswer::Failed(e) => Err(e),
        _ => Err(unexpected_failure()),
    }
}

/// Carries out a request that opens something.
pub fn ask_handle<F: FileSystem + ?Sized>(files: &mut F, request: FileRequest<Vec<u8>>) -> (r:
    IoResult<u64>)
    ensures
        (final(files).files(), io_plain(r)) == handle_step(old(files).files(), request@),
{
    match files.perform(request) {
        FileAnswer::Handle(h) => Ok(h),
        FileAnswer::Failed(e) => Err(e),
        _ => Err(unexpected_failure()),
    }
}

/// Carries out a request for a status.
pub fn ask_stat<F: FileSystem + ?Sized>(files: &mut F, request: FileRequest<Vec<u8>>) -> (r:
    IoResult<StatFacts>)
    ensures
        (final(files).files(), io_plain(r)) == stat_step(old(files).files(), request@),
{
    match files.perform(request) {
        FileAnswer::Stat(f) => Ok(f),
        FileAnswer::Failed(e) => Err(e),
        _ => Err(unexpected_failure()),
    }
}

/// Carries out a request for a mount's number.
pub fn ask_mount<F: FileSystem + ?Sized>(files: &mut F, request: FileRequest<Vec<u8>>) -> (r: Option<
    u64,
>)
    ensures
        (final(files).files(), r) == mount_step(old(files).files(), request@),
{
    match files.perform(request) {
        FileAnswer::Mount(m) => m,
        _ => None,
    }
}

/// Carries out a request whether something is there.
pub fn ask_found<F: FileSystem + ?Sized>(files: &mut F, request: FileRequest<Vec<u8>>) -> (r: bool)
    ensures
        (final(files).files(), r) == found_step(old(files).files(), request@),
{
    match files.perform(request) {
        FileAnswer::Found(b) => b,
        _ => false,
    }
}

fn identity_answer(answer: FileAnswer) -> (r: Result<FileIdentity>)
    ensures
        crate::error::plain(r) == as_identity(answer@),
{
    match answer {
        FileAnswer::Identity(i) => Ok(i),
        FileAnswer::Refused(e) => Err(e),
        _ => Err(crate::error::failure_error("unexpected answer")),
    }
}

fn settled_answer(answer: FileAnswer) -> (r: Result<()>)
    ensures
        crate::error::plain(r) == as_settled(answer@),
{
    match answer {
        FileAnswer::Done => Ok(()),
        FileAnswer::Refused(e) => Err(e),
        _ => Err(crate::error::failure_error("unexpected answer")),
    }
}

/// Carries out a request that has no result, and whose failure is ready to be shown.
pub fn settle<F: FileSystem + ?Sized>(files: &mut F, request: FileRequest<Vec<u8>>) -> (r: Result<()>)
    ensures
        (final(files).files(), crate::error::plain(r)) == settled_step(
            old(files).files(),
            request@,
        ),
{
    settled_answer(files.perform(request))
}

// ------------------------------------------------------------------ a recording

/// A file system that touches nothing: it records every request and answers from a queue, and
/// with `Done` once the queue is used up.
pub struct RecordingFiles {
    calls: Vec<FileRequest<Vec<u8>>>,
    queue: Vec<FileAnswer>,
    served: Ghost<Seq<AnswerView>>,
}

pub open spec fn request_views(list: Seq<FileRequest<Vec<u8>>>) -> Seq<FileRequest<Seq<u8>>> {
    list.map_values(|c: FileRequest<Vec<u8>>| c@)
}

pub open spec fn answer_views(list: Seq<FileAnswer>) -> Seq<AnswerView> {
    list.map_values(|a: FileAnswer| a@)
}

/// The script of a queue that has served some answers and holds some more.
pub open spec fn answers_script(served: Seq<AnswerView>, queue: Seq<AnswerView>) -> spec_fn(
    Seq<FileRequest<Seq<u8>>>,
) -> AnswerView {
    |calls: Seq<FileRequest<Seq<u8>>>|
        {
            let i = calls.len() - 1;
            if 0 <= i < served.len() {
                served[i]
            } else if 0 <= i - served.len() < queue.len() {
                queue[i - served.len()]
            } else {
                AnswerView::Done
            }
        }
}

impl RecordingFiles {
    #[verifier::type_invariant]
    spec fn in_step(self) -> bool {
        self.served@.len() == self.calls@.len()
    }

    /// The answers already given.
    pub closed spec fn answered(&self) -> Seq<AnswerView> {
        self.served@
    }

    /// The answers still queued.
    pub closed spec fn queued(&self) -> Seq<AnswerView> {
        answer_views(self.queue@)
    }

    /// A file system that will give these answers, in order.
    pub fn answering(queue: Vec<FileAnswer>) -> (r: RecordingFiles)
        ensures
            r.files().calls == Seq::<FileRequest<Seq<u8>>>::empty(),
            r.files().script == answers_script(r.answered(), r.queued()),
            r.answered() == Seq::<AnswerView>::empty(),
            r.queued() == answer_views(queue@),
    {
        let r = RecordingFiles { calls: Vec::new(), queue, served: Ghost(Seq::empty()) };
        proof {
            assert(request_views(r.calls@) =~= Seq::<FileRequest<Seq<u8>>>::empty());
        }
        r
    }

    /// Every request made so far, in order.
    pub fn calls(&self) -> (r: &Vec<FileRequest<Vec<u8>>>)
        ensures
            request_views(r@) == self.files().calls,
    {
        &self.calls
    }
}

impl FileSystem for RecordingFiles {
    closed spec fn files(&self) -> FileSession {
        FileSession {
            calls: request_views(self.calls@),
            script: answers_script(self.served@, answer_views(self.queue@)),
        }
    }

    fn perform(&mut self, request: FileRequest<Vec<u8>>) -> (r: FileAnswer) {
        proof {
            use_type_invariant(&*self);
        }
        let ghost served = self.served@;
        let ghost queue0 = answer_views(self.queue@);
        let ghost calls0 = request_views(self.calls@);
        let mut whole = RecordingFiles::answering(Vec::new());
        std::mem::swap(self, &mut whole);
        let RecordingFiles { mut calls, mut queue, served: _ } = whole;
        let answer = if queue.len() == 0 {
            FileAnswer::Done
        } else {
            queue.remove(0)
        };
        let ghost given = answer@;
        calls.push(request);
        *self = RecordingFiles { calls, queue, served: Ghost(served.push(given)) };
        proof {
            assert(request_views(self.calls@) =~= calls0.push(request@));
            assert(answer_views(self.queue@) =~= if queue0.len() == 0 {
                queue0
            } else {
                queue0.subrange(1, queue0.len() as int)
            });
            assert(answers_script(self.served@, answer_views(self.queue@)) =~= answers_script(
                served,
                queue0,
            ));
        }
        answer
    }
}

} // verus!
