//! Groves in a file system kept in memory.
use git_grove::cli::normalize_from;
use git_grove::commands::add::{run as add, AddMode};
use git_grove::commands::adopt::args::AdoptArgs;
use git_grove::commands::adopt::recover::{abort_torn_bootstrap, recover, Recovered};
use git_grove::commands::adopt::run::{begin, proceed};
use git_grove::commands::hook_guard::{
    decide, examine, run as guard, words as words_in, Payload, ToolUse,
};
use git_grove::commands::clone::SystemHomes;
use git_grove::commands::clone_run::{run as clone_repository, ClonePlan, Verdict};
use git_grove::commands::init::{create_bare, open_or_create_root, run as initialize};
use git_grove::commands::list::run as list;
use git_grove::commands::setup::{
    finish, open_target_directory, prepare, read_existing, resolve_worktree, write_merged, Agent,
    AgentNames, Provisioning,
};
use git_grove::commands::setup_run::{provision, run as set_up, write_hook_config};
use git_grove::commands::sync::{reinspect_path, run as sync, update_one, UpdateOutcome};
use git_grove::error::{ExitClass, GroveError};
use git_grove::fsx::directory::HeldDirectory;
use git_grove::fsx::files::{
    FailureKind, FileAnswer, FileFacts, FileRequest, FileSession, FileSystem, IoFailure, StatFacts,
};
use git_grove::fsx::below::RealFileSystem;
use git_grove::fsx::held::{FileKind, Timespec, ValidatedRelativePath};
use git_grove::fsx::lock::{GroveLock, LockMode};
use git_grove::fsx::mountinfo::MountTable;
use git_grove::fsx::write::{
    fsync_dir, symlink_relative, symlink_relative_if_absent, write_atomic,
    write_atomic_if_absent, write_atomic_if_absent_with_strategy, write_atomic_with_strategy,
    TempStrategy,
};
use git_grove::git::provider::create_scratch_dir;
use git_grove::git::runner::{GitOutput, GitRunner, Invocation, RecordingFake, Session};
use git_grove::grove::discover::{discover, Grove};
use git_grove::grove::guide::leave_guide;
use git_grove::grove::layout::{
    recognize_grove, validate_worktree_path, write_pointer_if_absent, POINTER_CONTENTS,
};
use git_grove::grove::metadata::{Metadata, PublishState};
use git_grove::grove::state::{Snapshot, WorktreeState};
use git_grove::hooks::{respond, Format, HookGroup, Protocol, Verdict as HookVerdict};
use serde_json::Value;
use std::cell::RefCell;
use std::collections::BTreeMap;
use std::rc::Rc;
use toml_edit::{value, ArrayOfTables, DocumentMut, Item, Table};

// ------------------------------------------------------------- the file system

enum Node {
    Directory(BTreeMap<Vec<u8>, usize>),
    File(Vec<u8>),
    Link(Vec<u8>),
}

type Interference = (&'static str, fn(&mut Memory));

/// Files, directories and links, each with a number for its inode. Relative paths start at `cwd`.
struct Memory {
    nodes: Vec<Node>,
    open: Vec<usize>,
    locks: Vec<(usize, LockMode)>,
    mounts: Vec<u8>,
    /// Whether the mount of an entry is reported, or has to be looked up in the table.
    reports_mounts: bool,
    modes: BTreeMap<usize, u32>,
    cwd: Vec<u8>,
    requests: Vec<String>,
    /// What another process does just before the first request of a kind.
    interference: Option<Interference>,
}

type Io<T> = Result<T, IoFailure>;

fn io_failure(kind: FailureKind, text: &str) -> IoFailure {
    IoFailure {
        kind,
        text: text.to_string(),
    }
}

fn absent_entry<T>() -> Io<T> {
    Err(io_failure(FailureKind::NotFound, "No such file or directory"))
}

fn occupied<T>() -> Io<T> {
    Err(io_failure(FailureKind::AlreadyExists, "File exists"))
}

fn other<T>(text: &str) -> Io<T> {
    Err(io_failure(FailureKind::Other, text))
}

fn answered(result: Io<FileAnswer>) -> FileAnswer {
    match result {
        Ok(answer) => answer,
        Err(failure) => FileAnswer::Failed(failure),
    }
}

fn settled(result: Result<(), GroveError>) -> FileAnswer {
    match result {
        Ok(()) => FileAnswer::Done,
        Err(error) => FileAnswer::Refused(error),
    }
}

fn relative(path: &[u8]) -> ValidatedRelativePath {
    ValidatedRelativePath::new(path).unwrap()
}

impl Memory {
    fn new() -> Memory {
        Memory {
            nodes: vec![Node::Directory(BTreeMap::new())],
            open: Vec::new(),
            locks: Vec::new(),
            mounts: b"1 0 8:1 / / rw - ext4 /dev/root rw\n2 1 0:5 / /proc rw - proc proc rw\n"
                .to_vec(),
            reports_mounts: true,
            modes: BTreeMap::new(),
            cwd: b"/".to_vec(),
            requests: Vec::new(),
            interference: None,
        }
    }

    fn absolute(&self, path: &[u8]) -> Vec<Vec<u8>> {
        let whole = if path.first() == Some(&b'/') {
            path.to_vec()
        } else {
            [self.cwd.as_slice(), b"/", path].concat()
        };
        whole
            .split(|byte| *byte == b'/')
            .filter(|name| !name.is_empty() && *name != b".")
            .map(|name| name.to_vec())
            .collect()
    }

    fn walk(&self, start: Vec<usize>, names: &[Vec<u8>], follow: bool, depth: usize) -> Io<Vec<usize>> {
        if depth > 16 {
            return other("Too many levels of symbolic links");
        }
        let mut trail = start;
        for (i, name) in names.iter().enumerate() {
            if name == b".." {
                if trail.len() > 1 {
                    trail.pop();
                }
                continue;
            }
            let here = *trail.last().unwrap();
            let Node::Directory(entries) = &self.nodes[here] else {
                return other("Not a directory");
            };
            let Some(next) = entries.get(name) else {
                return absent_entry();
            };
            match &self.nodes[*next] {
                Node::Link(target) if follow || i + 1 < names.len() => {
                    let from = if target.first() == Some(&b'/') {
                        vec![0]
                    } else {
                        trail.clone()
                    };
                    let parts: Vec<Vec<u8>> = target
                        .split(|byte| *byte == b'/')
                        .filter(|name| !name.is_empty() && *name != b".")
                        .map(|name| name.to_vec())
                        .collect();
                    trail = self.walk(from, &parts, true, depth + 1)?;
                }
                _ => trail.push(*next),
            }
        }
        Ok(trail)
    }

    /// The inode at a path. A path that starts as an anchored one leads through what is held.
    fn find(&self, path: &[u8], follow: bool) -> Io<usize> {
        let names = self.absolute(path);
        if names.len() >= 2 && names[0] == b"held" {
            let handle: usize = String::from_utf8(names[1].clone()).unwrap().parse().unwrap();
            return Ok(*self
                .walk(vec![self.open[handle]], &names[2..], follow, 0)?
                .last()
                .unwrap());
        }
        Ok(*self.walk(vec![0], &names, follow, 0)?.last().unwrap())
    }

    fn entries(&self, node: usize) -> Io<&BTreeMap<Vec<u8>, usize>> {
        match &self.nodes[node] {
            Node::Directory(entries) => Ok(entries),
            _ => other("Not a directory"),
        }
    }

    fn entries_mut(&mut self, node: usize) -> Io<&mut BTreeMap<Vec<u8>, usize>> {
        match &mut self.nodes[node] {
            Node::Directory(entries) => Ok(entries),
            _ => other("Not a directory"),
        }
    }

    /// The directory that holds the last name of a path, and that name.
    fn place(&self, path: &[u8]) -> Io<(usize, Vec<u8>)> {
        let names = self.absolute(path);
        let Some((name, parent)) = names.split_last() else {
            return other("Is a directory");
        };
        let parent = [b"/".as_slice(), &parent.join(&b'/')].concat();
        Ok((self.find(&parent, true)?, name.clone()))
    }

    fn enter(&mut self, directory: usize, name: &[u8], node: usize) -> Io<()> {
        let entries = self.entries_mut(directory)?;
        if entries.contains_key(name) {
            return occupied();
        }
        entries.insert(name.to_vec(), node);
        Ok(())
    }

    fn create(&mut self, directory: usize, name: &[u8], node: Node) -> Io<usize> {
        if self.entries(directory)?.contains_key(name) {
            return occupied();
        }
        self.nodes.push(node);
        let number = self.nodes.len() - 1;
        self.enter(directory, name, number)?;
        Ok(number)
    }

    fn held(&mut self, node: usize) -> FileAnswer {
        self.open.push(node);
        FileAnswer::Handle(self.open.len() as u64 - 1)
    }

    fn facts(&self, node: usize) -> FileFacts {
        FileFacts {
            kind: match &self.nodes[node] {
                Node::Directory(_) => FileKind::Directory,
                Node::File(_) => FileKind::Regular,
                Node::Link(_) => FileKind::Symlink,
            },
            device: 1,
            inode: node as u64,
        }
    }

    fn stat(&self, node: usize) -> StatFacts {
        let (format, usual, size) = match &self.nodes[node] {
            Node::Directory(_) => (0o40000, 0o755, 0),
            Node::File(contents) => (0o100000, 0o644, contents.len()),
            Node::Link(target) => (0o120000, 0o777, target.len()),
        };
        let time = Timespec {
            seconds: 1,
            nanoseconds: 0,
        };
        StatFacts {
            dev: 1,
            ino: node as u64,
            mode: format | self.modes.get(&node).copied().unwrap_or(usual),
            nlink: 1,
            size: size as i64,
            mtime: time,
            ctime: time,
        }
    }

    /// Where an inode is, looked for from the root down.
    fn path_of(&self, node: usize) -> Option<Vec<u8>> {
        let mut pending = vec![(0, Vec::new())];
        while let Some((here, path)) = pending.pop() {
            if here == node {
                return Some(if path.is_empty() { b"/".to_vec() } else { path });
            }
            if let Node::Directory(entries) = &self.nodes[here] {
                for (name, child) in entries {
                    pending.push((*child, [path.as_slice(), b"/", name].concat()));
                }
            }
        }
        None
    }

    fn carry_out(&mut self, request: FileRequest<Vec<u8>>) -> Io<FileAnswer> {
        Ok(match request {
            FileRequest::Inspect(path) => FileAnswer::Facts(self.facts(self.find(&path, false)?)),
            FileRequest::Exists(path) => FileAnswer::Found(self.find(&path, true).is_ok()),
            FileRequest::IsFile(path) => FileAnswer::Found(
                matches!(self.find(&path, true), Ok(node) if self.facts(node).kind == FileKind::Regular),
            ),
            FileRequest::IsDirectory(path) => FileAnswer::Found(
                matches!(self.find(&path, true), Ok(node) if self.facts(node).kind == FileKind::Directory),
            ),
            FileRequest::Read(path) => {
                let node = self.find(&path, true)?;
                return self.contents(node);
            }
            FileRequest::ReadLink(path) => match &self.nodes[self.find(&path, false)?] {
                Node::Link(target) => FileAnswer::Bytes(target.clone()),
                _ => return Err(io_failure(FailureKind::InvalidInput, "Invalid argument")),
            },
            FileRequest::Canonicalize(path) => {
                FileAnswer::Bytes(self.path_of(self.find(&path, true)?).unwrap())
            }
            FileRequest::List(path) => FileAnswer::Names(
                self.entries(self.find(&path, true)?)?.keys().cloned().collect(),
            ),
            FileRequest::CreateDirectory(path) => {
                let (directory, name) = self.place(&path)?;
                self.create(directory, &name, Node::Directory(BTreeMap::new()))?;
                FileAnswer::Done
            }
            FileRequest::MakeDirectory(path, mode) => {
                let (directory, name) = self.place(&path)?;
                let node = self.create(directory, &name, Node::Directory(BTreeMap::new()))?;
                self.modes.insert(node, mode);
                FileAnswer::Done
            }
            FileRequest::SetMode(path, mode) => {
                let node = self.find(&path, true)?;
                self.modes.insert(node, mode);
                FileAnswer::Done
            }
            FileRequest::CreateDirectories(path) => {
                self.directories(&path);
                FileAnswer::Done
            }
            FileRequest::RemoveFile(path) => {
                let (directory, name) = self.place(&path)?;
                if self.entries(self.find(&path, false)?).is_ok() {
                    return other("Is a directory");
                }
                self.entries_mut(directory)?.remove(&name);
                FileAnswer::Done
            }
            FileRequest::RemoveDirectory(path) => {
                let (directory, name) = self.place(&path)?;
                if !self.entries(self.find(&path, false)?)?.is_empty() {
                    return other("Directory not empty");
                }
                self.entries_mut(directory)?.remove(&name);
                FileAnswer::Done
            }
            FileRequest::StoreJournal(transaction, _, state) => {
                let (directory, _) = self.place(&[transaction.as_slice(), b"/journal"].concat())?;
                self.entries_mut(directory)?.remove(b"journal".as_slice());
                self.create(directory, b"journal", Node::File(state))?;
                FileAnswer::Done
            }
            FileRequest::Rename(from, to) => {
                let (source, name) = self.place(&from)?;
                let (target, new) = self.place(&to)?;
                let Some(node) = self.entries_mut(source)?.remove(&name) else {
                    return absent_entry();
                };
                self.entries_mut(target)?.insert(new, node);
                FileAnswer::Done
            }
            FileRequest::OpenDirectory(path) => {
                let node = self.find(&path, false)?;
                self.entries(node)?;
                self.held(node)
            }
            FileRequest::OpenParent(path) => {
                let node = self.find(&path, true)?;
                self.entries(node)?;
                self.held(node)
            }
            FileRequest::OpenDirectoryAt(handle, name) => {
                let node = self.below(handle, &name)?;
                self.entries(node)?;
                self.held(node)
            }
            FileRequest::MakeDirectoryAt(handle, name, mode) => {
                let directory = self.open[handle as usize];
                let node = self.create(directory, &name, Node::Directory(BTreeMap::new()))?;
                self.modes.insert(node, mode);
                FileAnswer::Done
            }
            FileRequest::OpenFileAt(handle, name) => {
                let node = self.below(handle, &name)?;
                if matches!(self.nodes[node], Node::Link(_)) {
                    return other("Too many levels of symbolic links");
                }
                self.held(node)
            }
            FileRequest::ReadAll(handle) => return self.contents(self.open[handle as usize]),
            FileRequest::ReadLinkAt(handle, name) => match &self.nodes[self.below(handle, &name)?] {
                Node::Link(target) => FileAnswer::Bytes(target.clone()),
                _ => return Err(io_failure(FailureKind::InvalidInput, "Invalid argument")),
            },
            FileRequest::SymlinkAt(target, handle, name) => {
                let directory = self.open[handle as usize];
                self.create(directory, &name, Node::Link(target))?;
                FileAnswer::Done
            }
            FileRequest::AnchoredPath(handle) => {
                FileAnswer::Bytes(format!("/held/{handle}").into_bytes())
            }
            FileRequest::KernelPath(handle) => {
                FileAnswer::Bytes(self.path_of(self.open[handle as usize]).unwrap())
            }
            FileRequest::Stat(handle) => FileAnswer::Stat(self.stat(self.open[handle as usize])),
            FileRequest::StatAt(handle, name) => {
                FileAnswer::Stat(self.stat(self.below(handle, &name)?))
            }
            FileRequest::MountIdAt(_, _) => FileAnswer::Mount(self.reports_mounts.then_some(1)),
            FileRequest::ListHeld(handle) => FileAnswer::Names(
                self.entries(self.open[handle as usize])?.keys().rev().cloned().collect(),
            ),
            FileRequest::MoveAt(from, name, to, new) => {
                let (source, target) = (self.open[from as usize], self.open[to as usize]);
                if self.entries(target)?.contains_key(&new) {
                    return occupied();
                }
                let Some(node) = self.entries_mut(source)?.remove(&name) else {
                    return absent_entry();
                };
                self.entries_mut(target)?.insert(new, node);
                FileAnswer::Done
            }
            FileRequest::CreateNewAt(handle, name, mode) => {
                let directory = self.open[handle as usize];
                let node = self.create(directory, &name, Node::File(Vec::new()))?;
                self.modes.insert(node, mode);
                self.held(node)
            }
            FileRequest::UnlinkAt(handle, name, directory) => {
                let node = self.below(handle, &name)?;
                match &self.nodes[node] {
                    Node::Directory(entries) if directory && !entries.is_empty() => {
                        return other("Directory not empty")
                    }
                    Node::Directory(_) if !directory => return other("Is a directory"),
                    Node::File(_) | Node::Link(_) if directory => return other("Not a directory"),
                    _ => {}
                }
                let holder = self.open[handle as usize];
                self.entries_mut(holder)?.remove(&name);
                FileAnswer::Done
            }
            FileRequest::IdentityAt(handle, path) => {
                match RealFileSystem.identity_at(self, handle, &relative(&path)) {
                    Ok(identity) => FileAnswer::Identity(identity),
                    Err(error) => FileAnswer::Refused(error),
                }
            }
            FileRequest::RenameAt(from, source, to, target) => settled(RealFileSystem.rename_at(
                self,
                from,
                &relative(&source),
                to,
                &relative(&target),
            )),
            FileRequest::WriteNewAt(handle, path, bytes, mode) => settled(
                RealFileSystem.write_new_at(self, handle, &relative(&path), &bytes, mode),
            ),
            FileRequest::RemoveAt(handle, path) => {
                settled(RealFileSystem.remove_at(self, handle, &relative(&path)))
            }
            FileRequest::SyncFileAt(handle, path) => {
                settled(RealFileSystem.fsync_file_at(self, handle, &relative(&path)))
            }
            FileRequest::CreateUnnamed(_) => {
                self.nodes.push(Node::File(Vec::new()));
                let node = self.nodes.len() - 1;
                self.held(node)
            }
            FileRequest::CreateNamed(handle, name) => {
                let directory = self.open[handle as usize];
                let node = self.create(directory, &name, Node::File(Vec::new()))?;
                self.held(node)
            }
            FileRequest::Write(handle, contents) => {
                let node = self.open[handle as usize];
                self.nodes[node] = Node::File(contents);
                FileAnswer::Done
            }
            FileRequest::Link(file, handle, name) => {
                let (node, directory) = (self.open[file as usize], self.open[handle as usize]);
                self.enter(directory, &name, node)?;
                FileAnswer::Done
            }
            FileRequest::Replace(handle, from, to) => {
                let directory = self.open[handle as usize];
                if let Some(old) = self.entries(directory)?.get(&to) {
                    if matches!(self.nodes[*old], Node::Directory(_)) {
                        return other("Is a directory");
                    }
                }
                let entries = self.entries_mut(directory)?;
                let Some(node) = entries.remove(&from) else {
                    return absent_entry();
                };
                entries.insert(to, node);
                FileAnswer::Done
            }
            FileRequest::Install(handle, from, to) => {
                let directory = self.open[handle as usize];
                let entries = self.entries_mut(directory)?;
                if entries.contains_key(&to) {
                    return occupied();
                }
                let Some(node) = entries.remove(&from) else {
                    return absent_entry();
                };
                entries.insert(to, node);
                FileAnswer::Done
            }
            FileRequest::Lock(handle, mode) => {
                let node = self.open[handle as usize];
                let contended = self.locks.iter().any(|(held, by)| {
                    *held == node && (*by == LockMode::Exclusive || mode == LockMode::Exclusive)
                });
                if contended {
                    return other("Resource temporarily unavailable");
                }
                self.locks.push((node, mode));
                FileAnswer::Done
            }
            FileRequest::MountTable => FileAnswer::Bytes(self.mounts.clone()),
            _ => FileAnswer::Done,
        })
    }

    fn contents(&self, node: usize) -> Io<FileAnswer> {
        match &self.nodes[node] {
            Node::File(contents) => Ok(FileAnswer::Bytes(contents.clone())),
            _ => other("Is a directory"),
        }
    }

    fn below(&self, handle: u64, path: &[u8]) -> Io<usize> {
        let names: Vec<Vec<u8>> = path.split(|byte| *byte == b'/').map(|n| n.to_vec()).collect();
        Ok(*self
            .walk(vec![self.open[handle as usize]], &names, false, 0)?
            .last()
            .unwrap())
    }

    // What a test arranges and looks at.

    fn directories(&mut self, path: &[u8]) {
        let mut here = Vec::new();
        for name in self.absolute(path) {
            here = [here.as_slice(), b"/", &name].concat();
            if self.find(&here, true).is_err() {
                let (directory, name) = self.place(&here).unwrap();
                self.create(directory, &name, Node::Directory(BTreeMap::new())).unwrap();
            }
        }
    }

    fn write(&mut self, path: &[u8], contents: &[u8]) {
        let (directory, name) = self.place(path).unwrap();
        self.entries_mut(directory).unwrap().remove(&name);
        self.create(directory, &name, Node::File(contents.to_vec())).unwrap();
    }

    fn link(&mut self, target: &[u8], path: &[u8]) {
        let (directory, name) = self.place(path).unwrap();
        self.create(directory, &name, Node::Link(target.to_vec())).unwrap();
    }

    fn remove(&mut self, path: &[u8]) {
        let (directory, name) = self.place(path).unwrap();
        self.entries_mut(directory).unwrap().remove(&name).unwrap();
    }

    fn read(&self, path: &[u8]) -> Option<Vec<u8>> {
        match &self.nodes[self.find(path, true).ok()?] {
            Node::File(contents) => Some(contents.clone()),
            _ => None,
        }
    }

    fn read_link(&self, path: &[u8]) -> Option<Vec<u8>> {
        match &self.nodes[self.find(path, false).ok()?] {
            Node::Link(target) => Some(target.clone()),
            _ => None,
        }
    }

    fn is_directory(&self, path: &[u8]) -> bool {
        matches!(self.find(path, false), Ok(node) if self.entries(node).is_ok())
    }

    fn names(&self, path: &[u8]) -> Vec<Vec<u8>> {
        let node = self.find(path, true).unwrap();
        self.entries(node).unwrap().keys().cloned().collect()
    }

    fn asked_for(&self, kind: &str) -> usize {
        self.requests.iter().filter(|request| request.starts_with(kind)).count()
    }
}

impl FileSystem for Memory {
    fn files(&self) -> FileSession {
        unreachable!("a model is never asked for at run time")
    }

    fn perform(&mut self, request: FileRequest<Vec<u8>>) -> FileAnswer {
        let shown = format!("{request:?}");
        if let Some((kind, action)) = self.interference {
            if shown.starts_with(kind) {
                self.interference = None;
                action(self);
            }
        }
        self.requests.push(shown);
        answered(self.carry_out(request))
    }
}

// -------------------------------------------------------------------- updating

fn output(status: i32, stdout: &[u8], stderr: &[u8]) -> GitOutput {
    GitOutput {
        status,
        stdout: stdout.to_vec(),
        stderr: stderr.to_vec(),
    }
}

struct Fixture {
    files: Memory,
    grove: Grove,
    path: Vec<u8>,
    admin: Vec<u8>,
}

fn fixture() -> Fixture {
    let mut files = Memory::new();
    let (path, admin) = add_linked_worktree(&mut files, b"/g", b"main");
    Fixture {
        files,
        grove: Grove::at(b"/g"),
        path,
        admin,
    }
}

/// A worktree of the grove at a root, with its pointers both ways.
fn add_linked_worktree(files: &mut Memory, root: &[u8], name: &[u8]) -> (Vec<u8>, Vec<u8>) {
    let admin = [root, b"/.bare/worktrees/", name].concat();
    let path = [root, b"/", name].concat();
    files.directories(&admin);
    files.directories(&path);
    let pointer = [path.as_slice(), b"/.git"].concat();
    files.write(&pointer, &[b"gitdir: ".as_slice(), &admin, b"\n"].concat());
    let back = [admin.as_slice(), b"/gitdir"].concat();
    files.write(&back, &[pointer.as_slice(), b"\n"].concat());
    (path, admin)
}

fn shown(path: &[u8]) -> String {
    String::from_utf8(path.to_vec()).unwrap()
}

fn worktree_list_record(fixture: &Fixture, branch: &str, head: &str) -> Vec<u8> {
    format!(
        "worktree {}\0bare\0\0worktree {}\0HEAD {head}\0branch refs/heads/{branch}\0\0",
        shown(&fixture.grove.bare_dir()),
        shown(&fixture.path)
    )
    .into_bytes()
}

fn planned_snapshot(fixture: &mut Fixture) -> Snapshot {
    let mut fake = RecordingFake::new();
    fake.push_response(output(
        0,
        &worktree_list_record(fixture, "main", "abc"),
        b"",
    ));
    fake.push_response(output(0, b"", b""));
    fake.push_response(output(
        0,
        b"refs/remotes/origin/main\0origin/main\0origin\0\n",
        b"",
    ));
    fake.push_response(output(0, b"", b""));
    fake.push_response(output(0, b"def\n", b""));
    fake.push_response(output(0, b"0\t3\n", b""));
    let snapshot = reinspect_path(&mut fake, &mut fixture.files, &fixture.grove, &fixture.path).unwrap();
    assert_eq!(snapshot.state, WorktreeState::Behind);
    snapshot
}

#[allow(clippy::too_many_arguments)]
fn enqueue_reinspection(
    fake: &mut RecordingFake,
    fixture: &Fixture,
    branch: &str,
    head: &str,
    upstream_full: &str,
    upstream_short: &str,
    upstream_remote: &str,
    upstream_oid: &str,
    ahead: u32,
    behind: u32,
) {
    fake.push_response(output(0, &worktree_list_record(fixture, branch, head), b""));
    fake.push_response(output(0, b"", b""));
    fake.push_response(output(
        0,
        format!("{upstream_full}\0{upstream_short}\0{upstream_remote}\0\n").as_bytes(),
        b"",
    ));
    fake.push_response(output(0, b"", b""));
    fake.push_response(output(0, format!("{upstream_oid}\n").as_bytes(), b""));
    fake.push_response(output(0, format!("{ahead}\t{behind}\n").as_bytes(), b""));
}

#[test]
fn a_changed_registered_path_yields_changed_with_no_merge() {
    let mut fixture = fixture();
    let planned = planned_snapshot(&mut fixture);

    let mut fake = RecordingFake::new();
    fake.push_response(output(
        0,
        format!("worktree {}\0bare\0\0", shown(&fixture.grove.bare_dir())).as_bytes(),
        b"",
    ));

    let outcome = update_one(&mut fake, &mut fixture.files, &fixture.grove, &planned).unwrap();

    assert!(
        matches!(outcome, UpdateOutcome::Changed(ref snapshot) if snapshot.state == WorktreeState::Missing)
    );
    assert!(fake
        .calls()
        .iter()
        .all(|call| !call.argv_for_test().iter().any(|arg| arg == "merge")));
}

#[test]
fn a_changed_branch_yields_changed_with_no_merge() {
    let mut fixture = fixture();
    let planned = planned_snapshot(&mut fixture);

    let mut fake = RecordingFake::new();
    enqueue_reinspection(
        &mut fake,
        &fixture,
        "topic",
        "abc",
        "refs/remotes/origin/main",
        "origin/main",
        "origin",
        "def",
        0,
        3,
    );

    let outcome = update_one(&mut fake, &mut fixture.files, &fixture.grove, &planned).unwrap();

    assert!(matches!(outcome, UpdateOutcome::Changed(_)));
    assert!(fake
        .calls()
        .iter()
        .all(|call| !call.argv_for_test().iter().any(|arg| arg == "merge")));
}

#[test]
fn a_changed_head_oid_yields_changed_with_no_merge() {
    let mut fixture = fixture();
    let planned = planned_snapshot(&mut fixture);

    let mut fake = RecordingFake::new();
    enqueue_reinspection(
        &mut fake,
        &fixture,
        "main",
        "changed",
        "refs/remotes/origin/main",
        "origin/main",
        "origin",
        "def",
        0,
        3,
    );

    let outcome = update_one(&mut fake, &mut fixture.files, &fixture.grove, &planned).unwrap();

    assert!(matches!(outcome, UpdateOutcome::Changed(_)));
    assert!(fake
        .calls()
        .iter()
        .all(|call| !call.argv_for_test().iter().any(|arg| arg == "merge")));
}

#[test]
fn a_changed_upstream_full_ref_yields_changed_with_no_merge() {
    let mut fixture = fixture();
    let planned = planned_snapshot(&mut fixture);

    let mut fake = RecordingFake::new();
    enqueue_reinspection(
        &mut fake,
        &fixture,
        "main",
        "abc",
        "refs/remotes/origin/renamed",
        "origin/renamed",
        "origin",
        "def",
        0,
        3,
    );

    let outcome = update_one(&mut fake, &mut fixture.files, &fixture.grove, &planned).unwrap();

    assert!(matches!(outcome, UpdateOutcome::Changed(_)));
    assert!(fake
        .calls()
        .iter()
        .all(|call| !call.argv_for_test().iter().any(|arg| arg == "merge")));
}

#[test]
fn a_changed_upstream_remote_yields_changed_with_no_merge() {
    let mut fixture = fixture();
    let planned = planned_snapshot(&mut fixture);

    let mut fake = RecordingFake::new();
    enqueue_reinspection(
        &mut fake,
        &fixture,
        "main",
        "abc",
        "refs/remotes/origin/main",
        "origin/main",
        "up/stream",
        "def",
        0,
        3,
    );

    let outcome = update_one(&mut fake, &mut fixture.files, &fixture.grove, &planned).unwrap();

    assert!(matches!(outcome, UpdateOutcome::Changed(_)));
    assert!(fake
        .calls()
        .iter()
        .all(|call| !call.argv_for_test().iter().any(|arg| arg == "merge")));
}

#[test]
fn a_changed_upstream_oid_yields_changed_with_no_merge() {
    let mut fixture = fixture();
    let planned = planned_snapshot(&mut fixture);

    let mut fake = RecordingFake::new();
    enqueue_reinspection(
        &mut fake,
        &fixture,
        "main",
        "abc",
        "refs/remotes/origin/main",
        "origin/main",
        "origin",
        "newoid",
        0,
        3,
    );

    let outcome = update_one(&mut fake, &mut fixture.files, &fixture.grove, &planned).unwrap();

    assert!(matches!(outcome, UpdateOutcome::Changed(_)));
    assert!(fake
        .calls()
        .iter()
        .all(|call| !call.argv_for_test().iter().any(|arg| arg == "merge")));
}

#[test]
fn a_worktree_already_brought_up_to_date_yields_changed_with_no_merge() {
    let mut fixture = fixture();
    let planned = planned_snapshot(&mut fixture);

    let mut fake = RecordingFake::new();
    enqueue_reinspection(
        &mut fake,
        &fixture,
        "main",
        "abc",
        "refs/remotes/origin/main",
        "origin/main",
        "origin",
        "def",
        0,
        0,
    );

    let outcome = update_one(&mut fake, &mut fixture.files, &fixture.grove, &planned).unwrap();

    assert!(matches!(outcome, UpdateOutcome::Changed(_)));
    assert!(fake
        .calls()
        .iter()
        .all(|call| !call.argv_for_test().iter().any(|arg| arg == "merge")));
}

#[test]
fn a_now_ahead_worktree_yields_changed_with_no_merge() {
    let mut fixture = fixture();
    let planned = planned_snapshot(&mut fixture);

    let mut fake = RecordingFake::new();
    enqueue_reinspection(
        &mut fake,
        &fixture,
        "main",
        "abc",
        "refs/remotes/origin/main",
        "origin/main",
        "origin",
        "def",
        2,
        3,
    );

    let outcome = update_one(&mut fake, &mut fixture.files, &fixture.grove, &planned).unwrap();

    assert!(matches!(outcome, UpdateOutcome::Changed(_)));
    assert!(fake
        .calls()
        .iter()
        .all(|call| !call.argv_for_test().iter().any(|arg| arg == "merge")));
}

#[test]
fn a_now_dirty_worktree_yields_changed_with_no_merge() {
    let mut fixture = fixture();
    let planned = planned_snapshot(&mut fixture);

    let mut fake = RecordingFake::new();
    fake.push_response(output(
        0,
        &worktree_list_record(&fixture, "main", "abc"),
        b"",
    ));
    fake.push_response(output(0, b"?? dirty\0", b""));
    fake.push_response(output(
        0,
        b"refs/remotes/origin/main\0origin/main\0origin\0\n",
        b"",
    ));
    fake.push_response(output(0, b"", b""));
    fake.push_response(output(0, b"def\n", b""));
    fake.push_response(output(0, b"0\t3\n", b""));

    let outcome = update_one(&mut fake, &mut fixture.files, &fixture.grove, &planned).unwrap();

    assert!(matches!(outcome, UpdateOutcome::Changed(_)));
    assert!(fake
        .calls()
        .iter()
        .all(|call| !call.argv_for_test().iter().any(|arg| arg == "merge")));
}

#[test]
fn a_now_locked_worktree_yields_changed_with_no_merge() {
    let mut fixture = fixture();
    let planned = planned_snapshot(&mut fixture);

    let mut fake = RecordingFake::new();
    let mut raw =
        format!("worktree {}\0bare\0\0", shown(&fixture.grove.bare_dir())).into_bytes();
    raw.extend_from_slice(
        format!(
            "worktree {}\0HEAD abc\0branch refs/heads/main\0locked reason\0\0",
            shown(&fixture.path)
        )
        .as_bytes(),
    );
    fake.push_response(output(0, &raw, b""));
    fake.push_response(output(0, b"", b""));
    fake.push_response(output(
        0,
        b"refs/remotes/origin/main\0origin/main\0origin\0\n",
        b"",
    ));
    fake.push_response(output(0, b"", b""));
    fake.push_response(output(0, b"def\n", b""));
    fake.push_response(output(0, b"0\t3\n", b""));

    let outcome = update_one(&mut fake, &mut fixture.files, &fixture.grove, &planned).unwrap();

    assert!(
        matches!(outcome, UpdateOutcome::Changed(ref snapshot) if snapshot.state == WorktreeState::Locked)
    );
    assert!(fake
        .calls()
        .iter()
        .all(|call| !call.argv_for_test().iter().any(|arg| arg == "merge")));
}

#[test]
fn a_now_in_progress_worktree_yields_changed_with_no_merge() {
    let mut fixture = fixture();
    let planned = planned_snapshot(&mut fixture);
    let lock = [fixture.admin.as_slice(), b"/index.lock"].concat();
    fixture.files.write(&lock, b"");

    let mut fake = RecordingFake::new();
    fake.push_response(output(
        0,
        &worktree_list_record(&fixture, "main", "abc"),
        b"",
    ));

    let outcome = update_one(&mut fake, &mut fixture.files, &fixture.grove, &planned).unwrap();

    assert!(
        matches!(outcome, UpdateOutcome::Changed(ref snapshot) if snapshot.state == WorktreeState::InProgress)
    );
    assert!(fake
        .calls()
        .iter()
        .all(|call| !call.argv_for_test().iter().any(|arg| arg == "merge")));
}

#[test]
fn unchanged_candidate_merges_with_the_exact_pinned_arguments() {
    let mut fixture = fixture();
    let planned = planned_snapshot(&mut fixture);

    let mut fake = RecordingFake::new();
    enqueue_reinspection(
        &mut fake,
        &fixture,
        "main",
        "abc",
        "refs/remotes/origin/main",
        "origin/main",
        "origin",
        "def",
        0,
        3,
    );
    fake.push_response(output(0, b"", b""));
    enqueue_reinspection(
        &mut fake,
        &fixture,
        "main",
        "def",
        "refs/remotes/origin/main",
        "origin/main",
        "origin",
        "def",
        0,
        0,
    );

    let outcome = update_one(&mut fake, &mut fixture.files, &fixture.grove, &planned).unwrap();

    assert!(
        matches!(outcome, UpdateOutcome::Updated(ref snapshot) if snapshot.state == WorktreeState::UpToDate)
    );
    let calls = fake.calls();
    let merge_call = calls
        .iter()
        .find(|call| call.argv_for_test().contains(&"merge".to_string()))
        .unwrap();
    assert_eq!(
        merge_call.argv_for_test()[2..],
        [
            "merge",
            "--ff-only",
            "--no-edit",
            "--no-autostash",
            "--no-overwrite-ignore",
            "@{upstream}",
        ]
    );
}

#[test]
fn a_refused_merge_becomes_blocked_with_escaped_stderr() {
    let mut fixture = fixture();
    let planned = planned_snapshot(&mut fixture);

    let mut fake = RecordingFake::new();
    enqueue_reinspection(
        &mut fake,
        &fixture,
        "main",
        "abc",
        "refs/remotes/origin/main",
        "origin/main",
        "origin",
        "def",
        0,
        3,
    );
    fake.push_response(output(1, b"", b"local changes would be overwritten\xff"));
    enqueue_reinspection(
        &mut fake,
        &fixture,
        "main",
        "abc",
        "refs/remotes/origin/main",
        "origin/main",
        "origin",
        "def",
        0,
        3,
    );

    let outcome = update_one(&mut fake, &mut fixture.files, &fixture.grove, &planned).unwrap();

    match outcome {
        UpdateOutcome::Blocked { snapshot, detail } => {
            assert_eq!(snapshot.state, WorktreeState::Behind);
            assert_eq!(
                detail,
                r"local\x20changes\x20would\x20be\x20overwritten\xFF"
            );
        }
        other => panic!("expected Blocked, got {other:?}"),
    }
}

#[test]
fn a_missing_worktree_at_reinspection_is_reported_as_missing() {
    let mut fixture = fixture();
    let path = b"/g/gone".to_vec();

    let mut fake = RecordingFake::new();
    fake.push_response(output(
        0,
        format!("worktree {}\0bare\0\0", shown(&fixture.grove.bare_dir())).as_bytes(),
        b"",
    ));

    let snapshot = reinspect_path(&mut fake, &mut fixture.files, &fixture.grove, &path).unwrap();

    assert_eq!(snapshot.state, WorktreeState::Missing);
    assert_eq!(snapshot.record.path, path);
}


struct MultiFixture {
    files: Memory,
    grove: Grove,
}

impl MultiFixture {
    fn new() -> Self {
        let mut files = Memory::new();
        files.directories(b"/g/.bare/worktrees");
        MultiFixture {
            files,
            grove: Grove::at(b"/g"),
        }
    }

    fn add_worktree(&mut self, name: &[u8]) -> (Vec<u8>, Vec<u8>) {
        add_linked_worktree(&mut self.files, b"/g", name)
    }
}

fn push_worktree_list(
    fake: &mut RecordingFake,
    grove: &Grove,
    entries: &[(&[u8], &[u8], &[u8])],
) {
    let mut raw = b"worktree ".to_vec();
    raw.extend_from_slice(&grove.bare_dir());
    raw.extend_from_slice(b"\0bare\0\0");
    for (path, branch, head) in entries {
        raw.extend_from_slice(b"worktree ");
        raw.extend_from_slice(path);
        raw.extend_from_slice(b"\0HEAD ");
        raw.extend_from_slice(head);
        raw.extend_from_slice(b"\0branch refs/heads/");
        raw.extend_from_slice(branch);
        raw.extend_from_slice(b"\0\0");
    }
    fake.push_response(output(0, &raw, b""));
}

#[allow(clippy::too_many_arguments)]
fn push_status_ok_behind(
    fake: &mut RecordingFake,
    upstream_full: &str,
    upstream_short: &str,
    upstream_remote: &str,
    oid: &str,
    ahead: u32,
    behind: u32,
) {
    fake.push_response(output(0, b"", b""));
    fake.push_response(output(
        0,
        format!("{upstream_full}\0{upstream_short}\0{upstream_remote}\0\n").as_bytes(),
        b"",
    ));
    fake.push_response(output(0, b"", b""));
    fake.push_response(output(0, format!("{oid}\n").as_bytes(), b""));
    fake.push_response(output(0, format!("{ahead}\t{behind}\n").as_bytes(), b""));
}

#[test]
fn run_merges_two_behind_candidates_sequentially_in_raw_path_order() {
    let mut fixture = MultiFixture::new();
    let (zzz_path, _zzz_admin) = fixture.add_worktree(b"zzz");
    let (aaa_path, _aaa_admin) = fixture.add_worktree(b"aaa");

    let mut fake = RecordingFake::new();
    push_worktree_list(
        &mut fake,
        &fixture.grove,
        &[(&zzz_path, b"zzz", b"abc"), (&aaa_path, b"aaa", b"abc")],
    );
    fake.push_response(output(
        0,
        b"refs/remotes/origin/aaa\0origin/aaa\0origin\0\n",
        b"",
    ));
    fake.push_response(output(
        0,
        b"refs/remotes/origin/zzz\0origin/zzz\0origin\0\n",
        b"",
    ));
    fake.push_response(output(0, b"", b""));
    push_status_ok_behind(
        &mut fake,
        "refs/remotes/origin/zzz",
        "origin/zzz",
        "origin",
        "zzz-oid",
        0,
        3,
    );
    push_status_ok_behind(
        &mut fake,
        "refs/remotes/origin/aaa",
        "origin/aaa",
        "origin",
        "aaa-oid",
        0,
        3,
    );
    push_worktree_list(
        &mut fake,
        &fixture.grove,
        &[(&zzz_path, b"zzz", b"abc"), (&aaa_path, b"aaa", b"abc")],
    );
    push_status_ok_behind(
        &mut fake,
        "refs/remotes/origin/aaa",
        "origin/aaa",
        "origin",
        "aaa-oid",
        0,
        3,
    );
    fake.push_response(output(0, b"", b""));
    push_worktree_list(
        &mut fake,
        &fixture.grove,
        &[(&zzz_path, b"zzz", b"abc"), (&aaa_path, b"aaa", b"abc")],
    );
    push_status_ok_behind(
        &mut fake,
        "refs/remotes/origin/aaa",
        "origin/aaa",
        "origin",
        "aaa-oid",
        0,
        0,
    );
    push_worktree_list(
        &mut fake,
        &fixture.grove,
        &[(&zzz_path, b"zzz", b"abc"), (&aaa_path, b"aaa", b"abc")],
    );
    push_status_ok_behind(
        &mut fake,
        "refs/remotes/origin/zzz",
        "origin/zzz",
        "origin",
        "zzz-oid",
        0,
        3,
    );
    fake.push_response(output(0, b"", b""));
    push_worktree_list(
        &mut fake,
        &fixture.grove,
        &[(&zzz_path, b"zzz", b"abc"), (&aaa_path, b"aaa", b"abc")],
    );
    push_status_ok_behind(
        &mut fake,
        "refs/remotes/origin/zzz",
        "origin/zzz",
        "origin",
        "zzz-oid",
        0,
        0,
    );

    let report = sync(&mut fake, &mut fixture.files, &fixture.grove).unwrap();

    assert_eq!(report.class, ExitClass::Success);
    assert_eq!(
        report.rows.iter().map(|row| row.status).collect::<Vec<_>>(),
        ["UP-TO-DATE", "UP-TO-DATE"]
    );
    let merge_indices: Vec<usize> = fake
        .calls()
        .iter()
        .enumerate()
        .filter(|(_, call)| call.argv_for_test().contains(&"merge".to_string()))
        .map(|(index, _)| index)
        .collect();
    assert_eq!(merge_indices.len(), 2, "expected exactly two merge calls");
    let first_merge_path = fake.calls()[merge_indices[0]]
        .argv_for_test()
        .iter()
        .find(|arg| arg.contains("aaa"))
        .is_some();
    assert!(
        first_merge_path,
        "the first merge call must target the raw-path-first candidate (aaa), got {:?}",
        fake.calls()[merge_indices[0]].argv_for_test()
    );
    assert!(merge_indices[0] < merge_indices[1]);
}

#[test]
fn run_reports_a_residual_behind_row_and_exit_two_when_a_candidate_only_partially_changes() {
    let mut fixture = MultiFixture::new();
    let (path, _admin) = fixture.add_worktree(b"main");

    let mut fake = RecordingFake::new();
    push_worktree_list(&mut fake, &fixture.grove, &[(&path, b"main", b"abc")]);
    fake.push_response(output(
        0,
        b"refs/remotes/origin/main\0origin/main\0origin\0\n",
        b"",
    ));
    fake.push_response(output(0, b"", b""));
    push_status_ok_behind(
        &mut fake,
        "refs/remotes/origin/main",
        "origin/main",
        "origin",
        "def",
        0,
        3,
    );
    push_worktree_list(&mut fake, &fixture.grove, &[(&path, b"main", b"abc")]);
    push_status_ok_behind(
        &mut fake,
        "refs/remotes/origin/main",
        "origin/main",
        "up/stream",
        "def",
        0,
        3,
    );

    let report = sync(&mut fake, &mut fixture.files, &fixture.grove).unwrap();

    assert_eq!(report.class, ExitClass::NeedsDecision);
    assert_eq!(report.rows.len(), 1);
    assert_eq!(report.rows[0].status, "BEHIND");
    assert!(fake
        .calls()
        .iter()
        .all(|call| !call.argv_for_test().contains(&"merge".to_string())));
}

#[test]
fn run_preserves_non_utf8_path_bytes_through_sorting_and_a_blocked_diagnostic() {
    let mut fixture = MultiFixture::new();
    let odd_name = b"odd-\xff".to_vec();
    let (path, _admin) = fixture.add_worktree(&odd_name);

    let mut fake = RecordingFake::new();
    push_worktree_list(&mut fake, &fixture.grove, &[(&path, b"main", b"abc")]);
    fake.push_response(output(
        0,
        b"refs/remotes/origin/main\0origin/main\0origin\0\n",
        b"",
    ));
    fake.push_response(output(0, b"", b""));
    push_status_ok_behind(
        &mut fake,
        "refs/remotes/origin/main",
        "origin/main",
        "origin",
        "def",
        0,
        3,
    );
    push_worktree_list(&mut fake, &fixture.grove, &[(&path, b"main", b"abc")]);
    push_status_ok_behind(
        &mut fake,
        "refs/remotes/origin/main",
        "origin/main",
        "origin",
        "def",
        0,
        3,
    );
    fake.push_response(output(1, b"", b"local changes would be overwritten\xff"));
    push_worktree_list(&mut fake, &fixture.grove, &[(&path, b"main", b"abc")]);
    push_status_ok_behind(
        &mut fake,
        "refs/remotes/origin/main",
        "origin/main",
        "origin",
        "def",
        0,
        3,
    );

    let report = sync(&mut fake, &mut fixture.files, &fixture.grove).unwrap();

    assert_eq!(report.class, ExitClass::NeedsDecision);
    assert_eq!(report.rows[0].status, "BLOCKED");
    assert_eq!(report.rows[0].path, path);
    assert_eq!(
        report.diagnostics,
        vec![r"local\x20changes\x20would\x20be\x20overwritten\xFF".to_string()]
    );
    let carries_path = fake.calls().iter().any(|call| {
        call.argv_os().iter().any(|arg| {
            arg.windows(odd_name.len())
                .any(|window| window == odd_name)
        })
    });
    assert!(
        carries_path,
        "expected at least one argv to carry the raw path bytes"
    );
}

// ----------------------------------------------------------------- writing files

fn leftovers(files: &Memory, directory: &[u8], kept: &[u8]) -> Vec<Vec<u8>> {
    files
        .names(directory)
        .into_iter()
        .filter(|name| name != kept)
        .collect()
}

fn workspace() -> Memory {
    let mut files = Memory::new();
    files.directories(b"/dir");
    files
}

/// The name under which the first agent's notes are linked.
fn link_name() -> String {
    let name = format!("{:?}", Agent::Claude);
    format!("{}.md", name.to_uppercase())
}

#[test]
fn writes_a_file_atomically_and_leaves_no_temporaries() {
    let mut files = workspace();

    write_atomic(&mut files, b"/dir/pointer", b"gitdir: ./.bare\n").unwrap();

    assert_eq!(files.read(b"/dir/pointer").unwrap(), b"gitdir: ./.bare\n");
    assert!(leftovers(&files, b"/dir", b"pointer").is_empty());
}

#[test]
fn overwrites_an_existing_file() {
    let mut files = workspace();

    write_atomic(&mut files, b"/dir/f", b"one").unwrap();
    write_atomic(&mut files, b"/dir/f", b"two").unwrap();

    assert_eq!(files.read(b"/dir/f").unwrap(), b"two");
}

#[test]
fn creates_a_file_only_when_the_destination_remains_absent() {
    let mut files = workspace();

    assert!(write_atomic_if_absent(&mut files, b"/dir/AGENTS.md", b"ours").unwrap());
    assert!(!write_atomic_if_absent(&mut files, b"/dir/AGENTS.md", b"replacement").unwrap());

    assert_eq!(files.read(b"/dir/AGENTS.md").unwrap(), b"ours");
}

#[test]
fn no_replace_creation_preserves_an_entry_created_after_its_probe() {
    let mut files = workspace();
    files.interference = Some(("Install", |files| files.write(b"/dir/AGENTS.md", b"foreign")));

    let error = write_atomic_if_absent_with_strategy(
        &mut files,
        b"/dir/AGENTS.md",
        b"ours",
        TempStrategy::NamedOnly,
    )
    .unwrap_err();

    assert_eq!(files.read(b"/dir/AGENTS.md").unwrap(), b"foreign");
    assert!(error
        .message
        .contains("rename into place without replacement"));
}

#[test]
fn no_replace_creation_preserves_a_broken_link_created_after_its_probe() {
    let mut files = workspace();
    files.interference = Some(("Install", |files| files.link(b"foreign", b"/dir/AGENTS.md")));

    write_atomic_if_absent_with_strategy(
        &mut files,
        b"/dir/AGENTS.md",
        b"ours",
        TempStrategy::NamedOnly,
    )
    .unwrap_err();

    assert_eq!(files.read_link(b"/dir/AGENTS.md").unwrap(), b"foreign");
}

#[test]
fn writes_with_the_named_fallback_when_unnamed_temps_are_unavailable() {
    let mut files = workspace();

    write_atomic_with_strategy(
        &mut files,
        b"/dir/pointer",
        b"gitdir: ./.bare\n",
        TempStrategy::NamedOnly,
    )
    .unwrap();

    assert_eq!(files.read(b"/dir/pointer").unwrap(), b"gitdir: ./.bare\n");
    assert!(leftovers(&files, b"/dir", b"pointer").is_empty());
    assert_eq!(files.asked_for("CreateUnnamed"), 0);
}

#[test]
fn writes_to_a_bare_relative_destination() {
    let mut files = workspace();
    files.cwd = b"/dir".to_vec();

    write_atomic(&mut files, b"pointer", b"gitdir: ./.bare\n").unwrap();

    assert_eq!(files.read(b"/dir/pointer").unwrap(), b"gitdir: ./.bare\n");
}

#[test]
fn failed_replacement_preserves_destination_and_retains_identifiable_temporary() {
    let mut files = workspace();
    files.directories(b"/dir/destination");

    let error = write_atomic(&mut files, b"/dir/destination", b"replacement").unwrap_err();

    assert!(files.is_directory(b"/dir/destination"));
    let left = leftovers(&files, b"/dir", b"destination");
    assert_eq!(left.len(), 1, "unexpected entries: {left:?}");
    assert!(left[0].starts_with(b".git-grove-tmp-"));
    assert!(error.message.contains(&shown(&left[0])));
}

#[test]
fn temporary_names_are_drawn_anew_for_every_file() {
    let mut names = Vec::new();
    for _ in 0..2 {
        let mut files = workspace();
        files.directories(b"/dir/destination");
        write_atomic(&mut files, b"/dir/destination", b"x").unwrap_err();
        names.push(leftovers(&files, b"/dir", b"destination").remove(0));
    }
    assert_ne!(names[0], names[1]);
}

#[test]
fn contents_are_made_durable_before_they_get_their_name() {
    let mut files = workspace();
    write_atomic(&mut files, b"/dir/f", b"one").unwrap();
    let position = |kind: &str| {
        files
            .requests
            .iter()
            .position(|request| request.starts_with(kind))
            .unwrap()
    };
    assert!(position("Write") < position("Sync("));
    assert!(position("Sync(") < position("Replace"));
    assert!(files.requests.last().unwrap().starts_with("Sync("));
}

#[test]
fn creates_a_relative_symlink() {
    let mut files = workspace();
    files.write(b"/dir/AGENTS.md", b"x");
    let link = format!("/dir/{}", link_name()).into_bytes();

    symlink_relative(&mut files, &link, "AGENTS.md").unwrap();

    assert_eq!(files.read_link(&link).unwrap(), b"AGENTS.md");
}

#[test]
fn creates_a_bare_relative_symlink() {
    let mut files = workspace();
    files.write(b"/dir/AGENTS.md", b"x");
    files.cwd = b"/dir".to_vec();

    symlink_relative(&mut files, link_name().as_bytes(), "AGENTS.md").unwrap();

    let link = format!("/dir/{}", link_name()).into_bytes();
    assert_eq!(files.read_link(&link).unwrap(), b"AGENTS.md");
}

#[test]
fn refuses_to_replace_an_existing_broken_symlink() {
    let mut files = workspace();
    let link = format!("/dir/{}", link_name()).into_bytes();
    files.link(b"missing", &link);

    assert!(symlink_relative(&mut files, &link, "AGENTS.md").is_err());

    assert_eq!(files.read_link(&link).unwrap(), b"missing");
}

#[test]
fn a_link_is_only_made_where_nothing_is() {
    let mut files = workspace();
    assert!(symlink_relative_if_absent(&mut files, b"/dir/link", "target").unwrap());
    assert!(!symlink_relative_if_absent(&mut files, b"/dir/link", "elsewhere").unwrap());
    assert_eq!(files.read_link(b"/dir/link").unwrap(), b"target");
}

// ------------------------------------------------------- held directories, locks

#[test]
fn held_directory_keeps_its_identity_across_a_rename() {
    let mut files = workspace();
    files.directories(b"/dir/original");
    let held = HeldDirectory::open(&mut files, b"/dir/original").unwrap();
    let before = held.identity(&mut files).unwrap();
    files.perform(FileRequest::Rename(
        b"/dir/original".to_vec(),
        b"/dir/renamed".to_vec(),
    ));
    let after = held.identity(&mut files).unwrap();
    assert_eq!(
        (before.dev, before.ino, before.mode),
        (after.dev, after.ino, after.mode)
    );
    assert_eq!(after.ino as usize, files.find(b"/dir/renamed", false).ok().unwrap());
}

#[test]
fn a_held_directory_whose_name_leads_elsewhere_is_a_decision() {
    let mut files = workspace();
    files.directories(b"/dir/original");
    let held = HeldDirectory::open(&mut files, b"/dir/original").unwrap();
    held.validate(&mut files).unwrap();
    files.remove(b"/dir/original");
    files.directories(b"/dir/original");
    let error = held.validate(&mut files).unwrap_err();
    assert_eq!(error.class, ExitClass::NeedsDecision);
    assert!(error.message.contains("changed while its directory was held"));
}

#[test]
fn shared_shared_succeeds_and_exclusive_contention_refuses() {
    let mut files = workspace();
    let first = GroveLock::acquire_path(&mut files, b"/dir", LockMode::Shared, "first").unwrap();
    let second = GroveLock::acquire_path(&mut files, b"/dir", LockMode::Shared, "second").unwrap();
    assert_eq!(first.mode(), LockMode::Shared);
    drop(second);
    assert!(
        GroveLock::acquire_path(&mut files, b"/dir", LockMode::Exclusive, "exclusive").is_err()
    );
}

#[test]
fn exclusive_exclusive_refuses() {
    let mut files = workspace();
    let _first =
        GroveLock::acquire_path(&mut files, b"/dir", LockMode::Exclusive, "first").unwrap();
    let error = GroveLock::acquire_path(&mut files, b"/dir", LockMode::Exclusive, "second")
        .err()
        .unwrap();
    assert_eq!(error.class, ExitClass::NeedsDecision);
    assert!(error.detail.unwrap().contains("cannot start second"));
}

#[test]
fn live_mountinfo_parser_smoke() {
    let mut files = Memory::new();
    let table = MountTable::read_live(&mut files).unwrap();
    assert!(table.longest_enclosing(b"/proc/self").is_some());
}

#[test]
fn a_directory_that_holds_a_mount_is_refused() {
    let mut files = workspace();
    files.mounts.extend_from_slice(b"3 1 8:2 / /dir/inside rw - ext4 /dev/x rw\n");
    let table = MountTable::read_live(&mut files).unwrap();
    let held = HeldDirectory::open(&mut files, b"/dir").unwrap();
    let error = table
        .ensure_no_boundary_at_or_below(&mut files, &held)
        .unwrap_err();
    assert_eq!(error.class, ExitClass::NeedsDecision);
    files.directories(b"/plain");
    let plain = HeldDirectory::open(&mut files, b"/plain").unwrap();
    table
        .ensure_no_boundary_at_or_below(&mut files, &plain)
        .unwrap();
}

// ------------------------------------------------------------------ initializing

fn root_of_a_grove(files: &mut Memory) -> (HeldDirectory, bool) {
    files.directories(b"/parent/grove");
    let mut mutated = false;
    let root = open_or_create_root(files, b"/parent/grove", &mut mutated).unwrap();
    (root, mutated)
}

#[test]
fn exclusive_bare_creation_preserves_a_concurrent_directory_or_symlink() {
    for kind in ["directory", "symlink"] {
        let mut files = Memory::new();
        let (root, mut mutated) = root_of_a_grove(&mut files);
        files.interference = Some(match kind {
            "directory" => ("MakeDirectoryAt", |files: &mut Memory| {
                files.directories(b"/parent/grove/.bare")
            }),
            "symlink" => ("MakeDirectoryAt", |files: &mut Memory| {
                files.link(b"foreign", b"/parent/grove/.bare")
            }),
            _ => unreachable!(),
        });

        let error = create_bare(&mut files, &root, &mut mutated).unwrap_err();

        assert_eq!(error.class, ExitClass::NeedsDecision, "kind {kind}");
        assert!(files.find(b"/parent/grove/.bare", false).is_ok());
    }
}

#[test]
fn bare_creation_stops_before_git_when_another_root_entry_appears() {
    let mut files = Memory::new();
    let (root, mut mutated) = root_of_a_grove(&mut files);
    files.interference = Some(("MakeDirectoryAt", |files| {
        files.write(b"/parent/grove/foreign", b"preserve me")
    }));

    let error = create_bare(&mut files, &root, &mut mutated).unwrap_err();

    assert_eq!(error.class, ExitClass::NeedsDecision);
    assert_eq!(files.read(b"/parent/grove/foreign").unwrap(), b"preserve me");
    assert!(files.is_directory(b"/parent/grove/.bare"));
}

#[test]
fn a_missing_root_is_made_with_its_parents() {
    let mut files = Memory::new();
    let mut mutated = false;
    let root = open_or_create_root(&mut files, b"/a/b/c", &mut mutated).unwrap();
    assert!(mutated);
    assert!(files.is_directory(b"/a/b/c"));
    assert_eq!(root.path(), b"/a/b/c");
}

// ----------------------------------------------------------------- the first word

fn argv(args: &[&str]) -> Vec<Vec<u8>> {
    std::iter::once("git-grove")
        .chain(args.iter().copied())
        .map(|arg| arg.as_bytes().to_vec())
        .collect()
}

fn norm(args: &[&str]) -> Vec<Vec<u8>> {
    normalize_from(&mut workspace(), argv(args), b"/dir").unwrap()
}

#[test]
fn keeps_lifecycle_commands_tooling_commands_and_aliases() {
    for command in [
        "clone",
        "plant",
        "init",
        "seed",
        "add",
        "sprout",
        "list",
        "survey",
        "completion",
        "help",
    ] {
        assert_eq!(norm(&[command]), argv(&[command]));
    }
}

#[test]
fn expands_recognisable_locators_into_clone() {
    for locator in [
        "https://host/x.git",
        "ssh+git://host/x.git",
        "git@host:o/r.git",
        "host:o/r.git",
        "/srv/git/r.git",
        "./r",
        "../r",
        "~/src/r",
    ] {
        assert_eq!(
            norm(&[locator]),
            argv(&["clone", locator]),
            "locator {locator}"
        );
    }
}

#[test]
fn expands_an_existing_repository_path_into_clone() {
    let mut files = workspace();
    files.directories(b"/dir/repository/.git");
    let input = argv(&["/dir/repository"]);
    let mut expected = input.clone();
    expected.insert(1, b"clone".to_vec());

    assert_eq!(normalize_from(&mut files, input, b"/dir").unwrap(), expected);
    assert_eq!(
        normalize_from(&mut files, argv(&["repository"]), b"/dir").unwrap(),
        argv(&["clone", "repository"])
    );
}

#[test]
fn expands_no_arguments_into_list_only_inside_a_grove() {
    let mut files = workspace();
    files.directories(b"/dir/.bare");
    files.write(b"/dir/.git", POINTER_CONTENTS.as_bytes());

    assert_eq!(
        normalize_from(&mut files, argv(&[]), b"/dir").unwrap(),
        argv(&["list"])
    );

    files.directories(b"/outside");
    let err = normalize_from(&mut files, argv(&[]), b"/outside").unwrap_err();
    assert_eq!(err.class, ExitClass::Usage);
    assert!(err.message.contains("not inside a grove"));
}

#[test]
fn refuses_an_ambiguous_bare_word_with_an_explicit_clone_hint() {
    let err = normalize_from(&mut workspace(), argv(&["clnoe"]), b"/dir").unwrap_err();
    assert_eq!(err.class, ExitClass::Usage);
    assert!(err.message.contains("clnoe"));
    assert!(err.detail.unwrap().contains("git grove clone <url>"));
}

#[test]
fn leaves_flags_to_clap() {
    assert_eq!(norm(&["--version"]), argv(&["--version"]));
    assert_eq!(norm(&["-h"]), argv(&["-h"]));
}

#[test]
fn the_innermost_grove_is_found() {
    let mut files = workspace();
    for root in ["/dir", "/dir/inner"] {
        files.directories(format!("{root}/.bare").as_bytes());
        assert!(write_pointer_if_absent(&mut files, root.as_bytes()).unwrap());
    }
    files.directories(b"/dir/inner/topic/src");
    let grove = discover(&mut files, b"/dir/inner/topic/src").unwrap();
    assert_eq!(grove.root, b"/dir/inner");
    assert_eq!(discover(&mut files, b"/dir/other").unwrap().root, b"/dir");
    assert_eq!(
        discover(&mut files, b"/elsewhere").unwrap_err().class,
        ExitClass::Usage
    );
}

// ---------------------------------------------------------------- adding worktrees

fn output_of(status: i32, stdout: &[u8]) -> GitOutput {
    output(status, stdout, b"")
}

fn grove_in_memory() -> (Memory, Grove) {
    let mut files = Memory::new();
    files.directories(b"/g/.bare");
    (files, Grove::at(b"/g"))
}

fn words(list: &[&str]) -> Vec<Vec<u8>> {
    list.iter().map(|word| word.as_bytes().to_vec()).collect()
}

fn branch_mode(branch: &str, dir: Option<&str>, start: Option<&str>) -> AddMode {
    AddMode::Branch {
        branch: branch.as_bytes().to_vec(),
        dir: dir.map(|dir| dir.as_bytes().to_vec()),
        start: start.map(|start| start.as_bytes().to_vec()),
    }
}

#[test]
fn generates_exact_existing_branch_worktree_argv() {
    let (mut files, grove) = grove_in_memory();
    let mut fake = RecordingFake::new();
    for _ in 0..4 {
        fake.push_response(output_of(0, b""));
    }

    add(
        &mut fake,
        &mut files,
        &grove,
        &branch_mode("release/1", Some("nested/worktree"), None),
    )
    .unwrap();

    assert_eq!(
        fake.calls().last().unwrap().argv_os(),
        words(&[
            "--git-dir=/g/.bare",
            "worktree",
            "add",
            "/g/nested/worktree",
            "release/1",
        ])
    );
    assert!(files.is_directory(b"/g/nested"));
}

#[test]
fn generates_exact_remote_tracking_worktree_argv() {
    let (mut files, grove) = grove_in_memory();
    let mut fake = RecordingFake::new();
    fake.push_response(output_of(0, b""));
    fake.push_response(output_of(1, b""));
    fake.push_response(output_of(0, b"origin\n"));
    fake.push_response(output_of(0, b"+refs/heads/*:refs/remotes/origin/*\n"));
    fake.push_response(output_of(0, b""));
    fake.push_response(output_of(0, b""));

    add(&mut fake, &mut files, &grove, &branch_mode("topic", None, None)).unwrap();

    assert_eq!(
        fake.calls().last().unwrap().argv_os(),
        words(&[
            "--git-dir=/g/.bare",
            "worktree",
            "add",
            "--track",
            "-b",
            "topic",
            "/g/topic",
            "origin/topic",
        ])
    );
}

#[test]
fn generates_exact_detached_worktree_argv() {
    let (mut files, grove) = grove_in_memory();
    let mut fake = RecordingFake::new();
    fake.push_response(output_of(0, b"deadbee\n"));
    fake.push_response(output_of(0, b""));

    add(
        &mut fake,
        &mut files,
        &grove,
        &AddMode::Detached {
            revision: b"main~2".to_vec(),
            dir: None,
        },
    )
    .unwrap();

    assert_eq!(
        fake.calls().last().unwrap().argv_os(),
        words(&[
            "--git-dir=/g/.bare",
            "worktree",
            "add",
            "--detach",
            "/g/detached-deadbee",
            "main~2",
        ])
    );
}

#[test]
fn generates_exact_new_branch_and_orphan_argv() {
    for (has_commit, tail) in [
        (true, ["-b", "topic", "/g/topic", "main~1"]),
        (false, ["--orphan", "-b", "topic", "/g/topic"]),
    ] {
        let (mut files, grove) = grove_in_memory();
        let mut fake = RecordingFake::new();
        fake.push_response(output_of(0, b""));
        fake.push_response(output_of(1, b""));
        fake.push_response(output_of(0, b""));
        fake.push_response(output_of(
            0,
            if has_commit {
                b"refs/heads/main\n"
            } else {
                b""
            },
        ));
        fake.push_response(output_of(0, b""));

        let start = if has_commit { Some("main~1") } else { None };
        add(&mut fake, &mut files, &grove, &branch_mode("topic", None, start)).unwrap();

        let mut expected = words(&["--git-dir=/g/.bare", "worktree", "add"]);
        expected.extend(words(&tail));
        assert_eq!(fake.calls().last().unwrap().argv_os(), expected);
    }
}

#[test]
fn git_failure_diagnostics_escape_raw_stderr_reversibly() {
    let (mut files, grove) = grove_in_memory();
    let mut fake = RecordingFake::new();
    fake.push_response(output_of(0, b""));
    fake.push_response(output_of(0, b""));
    fake.push_response(output_of(0, b""));
    fake.push_response(output(7, b"", b"bad-\xff"));

    let error = add(&mut fake, &mut files, &grove, &branch_mode("main", None, None)).unwrap_err();

    assert_eq!(error.detail.as_deref(), Some(r"bad-\xFF"));
}

#[test]
fn a_worktree_outside_the_grove_is_refused_before_anything_is_made() {
    let (mut files, grove) = grove_in_memory();
    for place in ["../elsewhere", "/elsewhere", ".bare/x", ".git", "."] {
        let mut fake = RecordingFake::new();
        let error = add(
            &mut fake,
            &mut files,
            &grove,
            &branch_mode("topic", Some(place), None),
        )
        .unwrap_err();
        assert_eq!(error.class, ExitClass::Usage, "place {place}");
        assert!(!fake
            .calls()
            .iter()
            .any(|call| call.argv_for_test().contains(&"worktree".to_string())
                && call.argv_for_test().contains(&"add".to_string())));
        assert_eq!(files.asked_for("CreateDirectories"), 0);
    }
}

// ------------------------------------------------------------------------ listing

#[test]
fn a_listing_shows_every_worktree_and_whether_a_decision_is_due() {
    let mut fixture = fixture();
    let mut fake = RecordingFake::new();
    enqueue_reinspection(
        &mut fake,
        &fixture,
        "main",
        "abc",
        "refs/remotes/origin/main",
        "origin/main",
        "origin",
        "def",
        0,
        3,
    );
    let report = list(&mut fake, &mut fixture.files, &fixture.grove).unwrap();
    assert_eq!(report.rows.len(), 1);
    assert_eq!(report.rows[0].status, "BEHIND");
    assert_eq!(report.rows[0].path, b"/g/main");
    assert_eq!(report.rows[0].branch, Some(b"main".to_vec()));
    assert_eq!((report.rows[0].ahead, report.rows[0].behind), (Some(0), Some(3)));
}

// -------------------------------------------------------------------- agents' hooks

/// The agents' names, spelled as their variants are.
fn names() -> AgentNames {
    AgentNames {
        claude: format!("{:?}", Agent::Claude).to_lowercase(),
        claude_title: format!("{:?}", Agent::Claude),
    }
}

fn settings_directory() -> String {
    format!(".{}", names().claude)
}

fn below_dir(relative: &str) -> Vec<u8> {
    format!("/dir/{relative}").into_bytes()
}

#[test]
fn opens_and_creates_a_missing_target_directory() {
    let mut files = workspace();
    let target = Agent::Claude.target(&names());
    open_target_directory(&mut files, b"/dir", &target).unwrap();
    assert!(files.is_directory(&below_dir(&settings_directory())));
}

#[test]
fn refuses_a_symlinked_parent_directory() {
    let mut files = workspace();
    files.directories(b"/dir/elsewhere");
    files.link(b"/dir/elsewhere", &below_dir(&settings_directory()));
    let target = Agent::Claude.target(&names());
    assert!(open_target_directory(&mut files, b"/dir", &target).is_err());
}

#[test]
fn refuses_a_non_directory_occupying_the_parent_name() {
    let mut files = workspace();
    files.write(b"/dir/.codex", b"not a directory");
    let target = Agent::Codex.target(&names());
    assert!(open_target_directory(&mut files, b"/dir", &target).is_err());
}

#[test]
fn refuses_a_symlinked_leaf() {
    let mut files = workspace();
    files.directories(&below_dir(&settings_directory()));
    files.write(b"/dir/elsewhere.json", b"{}");
    files.link(
        b"/dir/elsewhere.json",
        &below_dir(&format!("{}/settings.local.json", settings_directory())),
    );
    let target = Agent::Claude.target(&names());
    assert!(open_target_directory(&mut files, b"/dir", &target).is_err());
}

#[test]
fn refuses_a_non_regular_existing_leaf() {
    let mut files = workspace();
    files.directories(&below_dir(&format!(
        "{}/settings.local.json",
        settings_directory()
    )));
    let target = Agent::Claude.target(&names());
    assert!(open_target_directory(&mut files, b"/dir", &target).is_err());
}

#[test]
fn reads_absent_target_as_empty_and_existing_target_verbatim() {
    let mut files = workspace();
    let target = Agent::Claude.target(&names());
    let directory = open_target_directory(&mut files, b"/dir", &target).unwrap();
    assert_eq!(
        read_existing(&mut files, directory, &target).unwrap(),
        Vec::<u8>::new()
    );

    files.write(
        &below_dir(&format!("{}/settings.local.json", settings_directory())),
        b"{\"x\":1}",
    );
    assert_eq!(
        read_existing(&mut files, directory, &target).unwrap(),
        b"{\"x\":1}".to_vec()
    );
}

#[test]
fn a_merged_configuration_is_written_and_a_failed_merge_writes_nothing() {
    let mut files = workspace();
    let target = Agent::Codex.target(&names());
    let directory = open_target_directory(&mut files, b"/dir", &target).unwrap();
    write_merged(&mut files, b"/dir", &target, directory, Ok(b"merged".to_vec())).unwrap();
    assert_eq!(files.read(b"/dir/.codex/config.toml").unwrap(), b"merged");
    let error = write_merged(
        &mut files,
        b"/dir",
        &target,
        directory,
        Err("is not valid TOML".to_string()),
    )
    .unwrap_err();
    assert_eq!(error.class, ExitClass::NeedsDecision);
    assert!(error.message.contains("is not valid TOML; refusing to merge"));
    assert_eq!(files.read(b"/dir/.codex/config.toml").unwrap(), b"merged");
}

#[test]
fn a_configured_agent_is_excluded_from_version_control() {
    let (mut files, grove) = grove_in_memory();
    files.directories(b"/g/.bare/info");
    files.directories(b"/g/topic");
    let target = Agent::Codex.target(&names());
    let mut fake = RecordingFake::new();
    fake.push_response(output_of(1, b"")); // ls-files
    let prepared = prepare(&mut fake, &mut files, b"/g/topic", &target).unwrap();
    assert_eq!(prepared.existing, b"");
    for _ in 0..2 {
        finish(
            &mut files,
            &grove.root,
            b"/g/topic",
            &target,
            prepared.directory,
            Ok(b"[hooks]\n".to_vec()),
        )
        .unwrap();
    }
    assert_eq!(files.read(b"/g/topic/.codex/config.toml").unwrap(), b"[hooks]\n");
    assert_eq!(
        files.read(b"/g/.bare/info/exclude").unwrap(),
        b"/.codex/config.toml\n"
    );
}

const EXECUTABLE: &str = "/abs/git-grove";
const MARKER: &str = "guards the grove";

fn merge_json(existing: &[u8], command: &str) -> Result<Vec<u8>, String> {
    let mut root: Value = if existing.is_empty() {
        Value::Object(serde_json::Map::new())
    } else {
        serde_json::from_slice(existing).map_err(|error| format!("is not valid JSON ({error})"))?
    };
    let mut hook = serde_json::Map::new();
    hook.insert("command".to_string(), Value::String(command.to_string()));
    let mut entry = serde_json::Map::new();
    entry.insert("description".to_string(), Value::String(MARKER.to_string()));
    entry.insert("hooks".to_string(), Value::Array(vec![Value::Object(hook)]));
    let hooks = root.as_object_mut().ok_or("is not a JSON object")?;
    let hooks = hooks.entry("hooks").or_insert_with(|| Value::Object(serde_json::Map::new()));
    let hooks = hooks.as_object_mut().ok_or("has hooks that are not an object")?;
    let groups = hooks.entry("PreToolUse").or_insert_with(|| Value::Array(Vec::new()));
    let groups = groups.as_array_mut().ok_or("has PreToolUse hooks that are not a list")?;
    groups.retain(|group| group["description"] != MARKER);
    groups.push(Value::Object(entry));
    serde_json::to_vec_pretty(&root).map_err(|error| format!("{error}"))
}

fn merge_toml(existing: &[u8], command: &str) -> Result<Vec<u8>, String> {
    let text = String::from_utf8(existing.to_vec()).map_err(|error| format!("{error}"))?;
    let mut document: DocumentMut =
        text.parse().map_err(|error| format!("is not valid TOML ({error})"))?;
    document["features"]["hooks"] = value(true);
    let hooks = document.entry("hooks").or_insert(Item::Table(Table::new()));
    let hooks = hooks.as_table_mut().ok_or("has hooks that are not a table")?;
    hooks.set_implicit(true);
    let groups = hooks.entry("PreToolUse").or_insert(Item::ArrayOfTables(ArrayOfTables::new()));
    let groups = groups.as_array_of_tables_mut().ok_or("has no list of tables")?;
    groups.retain(|group| group.get("description").and_then(Item::as_str) != Some(MARKER));
    let mut hook = Table::new();
    hook["command"] = value(command);
    let mut list = ArrayOfTables::new();
    list.push(hook);
    let mut entry = Table::new();
    entry["description"] = value(MARKER);
    entry["hooks"] = Item::ArrayOfTables(list);
    groups.push(entry);
    Ok(document.to_string().into_bytes())
}

/// A configuration with a hook group in it, in place of the one that it had.
fn merge(existing: Vec<u8>, format: Format, group: HookGroup) -> Result<Vec<u8>, String> {
    match format {
        Format::Json => merge_json(&existing, &group.command),
        Format::Toml => merge_toml(&existing, &group.command),
    }
}

fn configure(files: &mut Memory, agent: Agent) -> Result<(), GroveError> {
    write_hook_config(files, b"/dir", &names(), agent, EXECUTABLE, &merge)
}

fn settings_file() -> Vec<u8> {
    below_dir(&format!("{}/settings.local.json", settings_directory()))
}

#[test]
fn write_hook_config_creates_the_directory_and_file_from_nothing() {
    let mut files = workspace();
    configure(&mut files, Agent::Claude).unwrap();
    let value: Value = serde_json::from_slice(&files.read(&settings_file()).unwrap()).unwrap();
    assert_eq!(value["hooks"]["PreToolUse"][0]["description"], MARKER);
    assert_eq!(
        value["hooks"]["PreToolUse"][0]["hooks"][0]["command"],
        format!("/abs/git-grove hook-guard --protocol {}-compatible PreToolUse", names().claude)
    );
}

#[test]
fn write_hook_config_writes_codex_toml_into_the_worktree() {
    let mut files = workspace();
    configure(&mut files, Agent::Codex).unwrap();
    assert!(
        files.read(b"/dir/.codex/hooks.json").is_none(),
        "the separate hooks.json file is gone"
    );
    let text = String::from_utf8(files.read(b"/dir/.codex/config.toml").unwrap()).unwrap();
    let document: DocumentMut = text.parse().unwrap();
    assert_eq!(document["features"]["hooks"].as_bool(), Some(true));
    let entry = &document["hooks"]["PreToolUse"][0];
    assert_eq!(entry["description"].as_str(), Some(MARKER));
    assert_eq!(
        entry["hooks"][0]["command"].as_str(),
        Some("/abs/git-grove hook-guard --protocol codex PreToolUse")
    );
}

#[test]
fn write_hook_config_is_idempotent_and_claude_then_copilot_converge() {
    let mut files = workspace();
    configure(&mut files, Agent::Claude).unwrap();
    let after_first = files.read(&settings_file()).unwrap();
    configure(&mut files, Agent::Copilot).unwrap();
    let after_copilot = files.read(&settings_file()).unwrap();
    assert_eq!(after_first, after_copilot);
    configure(&mut files, Agent::Claude).unwrap();
    assert_eq!(files.read(&settings_file()).unwrap(), after_copilot);
}

#[test]
fn write_hook_config_is_idempotent_for_codex_too() {
    let mut files = workspace();
    configure(&mut files, Agent::Codex).unwrap();
    let once = files.read(b"/dir/.codex/config.toml").unwrap();
    configure(&mut files, Agent::Codex).unwrap();
    assert_eq!(files.read(b"/dir/.codex/config.toml").unwrap(), once);
}

#[test]
fn write_hook_config_preserves_unrelated_settings() {
    let mut files = workspace();
    files.directories(&below_dir(&settings_directory()));
    files.write(
        &settings_file(),
        br#"{"someOtherSetting": true, "hooks": {"SessionStart": [{"unrelated": true}]}}"#,
    );
    configure(&mut files, Agent::Claude).unwrap();
    let value: Value = serde_json::from_slice(&files.read(&settings_file()).unwrap()).unwrap();
    assert_eq!(value["someOtherSetting"], true);
    assert_eq!(value["hooks"]["SessionStart"][0]["unrelated"], true);
}

#[test]
fn write_hook_config_preserves_unrelated_codex_settings_and_comments() {
    let mut files = workspace();
    files.directories(b"/dir/.codex");
    files.write(b"/dir/.codex/config.toml", b"# keep me\nmodel = \"gpt-5\"\n");
    configure(&mut files, Agent::Codex).unwrap();
    let text = String::from_utf8(files.read(b"/dir/.codex/config.toml").unwrap()).unwrap();
    assert!(text.contains("# keep me"), "got {text}");
    assert!(text.contains("model = \"gpt-5\""), "got {text}");
    assert!(text.contains("[[hooks.PreToolUse]]"), "got {text}");
}

#[test]
fn write_hook_config_leaves_a_malformed_existing_file_untouched() {
    let mut files = workspace();
    files.directories(&below_dir(&settings_directory()));
    files.write(&settings_file(), b"not json");
    let error = configure(&mut files, Agent::Claude).unwrap_err();
    assert_eq!(error.class, ExitClass::NeedsDecision);
    assert_eq!(files.read(&settings_file()).unwrap(), b"not json");
}

#[test]
fn write_hook_config_leaves_a_malformed_existing_codex_config_untouched() {
    let mut files = workspace();
    files.directories(b"/dir/.codex");
    files.write(b"/dir/.codex/config.toml", b"this is not = = toml\n");
    assert!(configure(&mut files, Agent::Codex).is_err());
    assert_eq!(
        files.read(b"/dir/.codex/config.toml").unwrap(),
        b"this is not = = toml\n"
    );
}

#[test]
fn write_hook_config_leaves_a_symlinked_leaf_untouched() {
    let mut files = workspace();
    files.directories(b"/dir/.codex");
    files.write(b"/dir/elsewhere.toml", b"");
    files.link(b"/dir/elsewhere.toml", b"/dir/.codex/config.toml");
    assert!(configure(&mut files, Agent::Codex).is_err());
    assert_eq!(
        files.read_link(b"/dir/.codex/config.toml").unwrap(),
        b"/dir/elsewhere.toml"
    );
}

#[test]
fn provisioning_writes_every_recorded_agent_and_the_shared_exclude() {
    let (mut files, grove) = grove_in_memory();
    files.directories(b"/g/.bare/info");
    files.directories(b"/g/topic");
    let mut fake = RecordingFake::new();
    fake.push_response(output_of(0, format!("{}\0codex\0", names().claude).as_bytes()));
    fake.push_response(output_of(1, b"")); // ls-files for the first agent: untracked
    fake.push_response(output_of(1, b"")); // ls-files for codex: untracked
    let provisioned = provision(
        &mut fake,
        &mut files,
        &grove,
        b"/g/topic",
        &names(),
        EXECUTABLE,
        &merge,
    );
    assert!(provisioned.warnings.is_empty(), "got {provisioned:?}");
    assert_eq!(provisioned.configured.len(), 2, "got {provisioned:?}");
    let first = format!("configured the {} hook", names().claude);
    assert!(provisioned.configured[0].contains(&first));
    assert!(provisioned.configured[1].contains(".codex/config.toml"));
    let settings = format!("{}/settings.local.json", settings_directory());
    assert!(files.read(format!("/g/topic/{settings}").as_bytes()).is_some());
    assert!(files.read(b"/g/topic/.codex/config.toml").is_some());

    let exclude = String::from_utf8(files.read(b"/g/.bare/info/exclude").unwrap()).unwrap();
    assert!(exclude.contains(&format!("/{settings}")));
    assert!(exclude.contains("/.codex/config.toml"));
}

#[test]
fn setting_an_agent_up_configures_excludes_and_records_it() {
    let (mut files, grove) = grove_in_memory();
    files.directories(b"/g/.bare/info");
    files.directories(b"/g/topic");
    let mut fake = RecordingFake::new();
    fake.push_response(output_of(1, b"")); // ls-files: untracked
    fake.push_response(output_of(1, b"")); // nothing is recorded yet
    let next = set_up(
        &mut fake,
        &mut files,
        &grove,
        b"/g/topic",
        &names(),
        Agent::Codex,
        EXECUTABLE,
        &merge,
    )
    .unwrap();
    assert!(next.contains("Recorded codex in grove.hookAgent"));
    assert!(files.read(b"/g/topic/.codex/config.toml").is_some());
    assert_eq!(files.read(b"/g/.bare/info/exclude").unwrap(), b"/.codex/config.toml\n");
    let calls = fake.calls();
    let last = calls[calls.len() - 1].argv_for_test();
    assert!(last.ends_with(&["grove.hookAgent".to_string(), "codex".to_string()]));

    let mut refusing = RecordingFake::new();
    refusing.push_response(output_of(0, b".codex/config.toml\n"));
    let error = set_up(
        &mut refusing,
        &mut files,
        &grove,
        b"/g/topic",
        &names(),
        Agent::Codex,
        EXECUTABLE,
        &merge,
    )
    .unwrap_err();
    assert_eq!(error.class, ExitClass::NeedsDecision);
    assert_eq!(refusing.calls().len(), 1);
}

fn worktree_list(grove: &Grove, checkouts: &[(&str, &str)]) -> Vec<u8> {
    let mut raw = format!("worktree {}\0bare\0\0", shown(&grove.bare_dir()));
    for (relative, branch) in checkouts {
        raw.push_str(&format!(
            "worktree {}/{relative}\0HEAD 0123456789012345678901234567890123456789\0branch refs/heads/{branch}\0\0",
            shown(&grove.root)
        ));
    }
    raw.into_bytes()
}

fn metadata_with_default(branch: Option<&str>) -> Metadata {
    Metadata {
        version: Some(1),
        default_branch: branch.map(|branch| branch.as_bytes().to_vec()),
        remote: None,
        publish_state: PublishState::Unpublished,
        publish_remote: None,
        publish_url: None,
        publish_provider: None,
        publish_owner: None,
        publish_name: None,
    }
}

#[test]
fn a_cwd_inside_a_worktree_selects_that_worktree() {
    let (mut files, grove) = grove_in_memory();
    files.directories(b"/g/main");
    files.directories(b"/g/topic/nested");

    let mut fake = RecordingFake::new();
    fake.push_response(output_of(
        0,
        &worktree_list(&grove, &[("main", "main"), ("topic", "topic")]),
    ));
    fake.push_response(output_of(0, b"/g/topic\n"));

    let resolved = resolve_worktree(
        &mut fake,
        &mut files,
        &grove,
        &metadata_with_default(Some("main")),
        None,
        b"/g/topic/nested",
    )
    .unwrap();
    assert_eq!(resolved, b"/g/topic");
}

#[test]
fn a_cwd_in_no_working_tree_falls_back_to_the_recorded_default_branch() {
    for cwd in ["/g", "/g/intermediate"] {
        let (mut files, grove) = grove_in_memory();
        files.directories(b"/g/trunk");
        files.directories(b"/g/intermediate");

        let mut fake = RecordingFake::new();
        fake.push_response(output_of(0, &worktree_list(&grove, &[("trunk", "trunk")])));
        fake.push_response(output_of(128, b""));

        let resolved = resolve_worktree(
            &mut fake,
            &mut files,
            &grove,
            &metadata_with_default(Some("trunk")),
            None,
            cwd.as_bytes(),
        )
        .unwrap();
        assert_eq!(resolved, b"/g/trunk", "from {cwd}");
    }
}

#[test]
fn a_working_tree_that_is_not_a_worktree_of_this_grove_is_a_usage_error() {
    let (mut files, grove) = grove_in_memory();
    files.directories(b"/g/main");
    files.directories(b"/g/vendor/other-repo");

    let mut fake = RecordingFake::new();
    fake.push_response(output_of(0, &worktree_list(&grove, &[("main", "main")])));
    fake.push_response(output_of(0, b"/g/vendor/other-repo\n"));

    let error = resolve_worktree(
        &mut fake,
        &mut files,
        &grove,
        &metadata_with_default(Some("main")),
        None,
        b"/g/vendor/other-repo",
    )
    .unwrap_err();
    assert_eq!(error.class, ExitClass::Usage);
    assert!(error.message.contains("not a worktree of this grove"));
}

#[test]
fn an_explicit_worktree_wins_over_the_cwd_and_never_runs_rev_parse() {
    let (mut files, grove) = grove_in_memory();
    files.directories(b"/g/feature/auth");
    files.directories(b"/g/main");

    let mut fake = RecordingFake::new();
    fake.push_response(output_of(
        0,
        &worktree_list(
            &grove,
            &[("main", "main"), ("feature/auth", "feature/auth")],
        ),
    ));

    let resolved = resolve_worktree(
        &mut fake,
        &mut files,
        &grove,
        &metadata_with_default(Some("main")),
        Some(b"feature/auth"),
        b"/g/main",
    )
    .unwrap();
    assert_eq!(resolved, b"/g/feature/auth");
    assert_eq!(fake.calls().len(), 1, "no rev-parse is needed");
}

#[test]
fn an_explicit_worktree_that_is_not_a_worktree_is_a_usage_error() {
    let (mut files, grove) = grove_in_memory();
    files.directories(b"/g/main");
    files.directories(b"/g/not-a-worktree");

    let mut fake = RecordingFake::new();
    fake.push_response(output_of(0, &worktree_list(&grove, &[("main", "main")])));
    let error = resolve_worktree(
        &mut fake,
        &mut files,
        &grove,
        &metadata_with_default(Some("main")),
        Some(b"not-a-worktree"),
        b"/g",
    )
    .unwrap_err();
    assert_eq!(error.class, ExitClass::Usage);
    assert!(error.message.contains("not a worktree of this grove"));
}

#[test]
fn a_missing_default_worktree_names_the_fix_instead_of_failing_obscurely() {
    let (mut files, grove) = grove_in_memory();
    files.directories(b"/g/topic");

    let mut fake = RecordingFake::new();
    fake.push_response(output_of(0, &worktree_list(&grove, &[("topic", "topic")])));
    fake.push_response(output_of(128, b""));
    let error = resolve_worktree(
        &mut fake,
        &mut files,
        &grove,
        &metadata_with_default(Some("main")),
        None,
        b"/g",
    )
    .unwrap_err();
    assert_eq!(error.class, ExitClass::NeedsDecision);
    assert!(error.message.contains("not checked out in any worktree"));
    assert!(error
        .detail
        .as_deref()
        .unwrap()
        .contains("git grove add main"));
}

#[test]
fn a_grove_with_no_recorded_default_branch_says_so() {
    let (mut files, grove) = grove_in_memory();

    let mut fake = RecordingFake::new();
    fake.push_response(output_of(0, &worktree_list(&grove, &[])));
    fake.push_response(output_of(128, b""));
    let error = resolve_worktree(
        &mut fake,
        &mut files,
        &grove,
        &metadata_with_default(None),
        None,
        b"/g",
    )
    .unwrap_err();
    assert_eq!(error.class, ExitClass::NeedsDecision);
    assert!(error.message.contains("records no default branch"));
}

fn provision_topic(fake: &mut RecordingFake) -> (Provisioning, Memory) {
    let (mut files, grove) = grove_in_memory();
    files.directories(b"/g/topic");
    let provisioned =
        provision(fake, &mut files, &grove, b"/g/topic", &names(), EXECUTABLE, &merge);
    (provisioned, files)
}

#[test]
fn an_unknown_recorded_agent_is_reported_and_skipped() {
    let mut fake = RecordingFake::new();
    fake.push_response(output_of(0, b"gemini\0"));
    let (provisioned, files) = provision_topic(&mut fake);
    assert_eq!(provisioned.warnings.len(), 1);
    assert!(provisioned.warnings[0].contains("gemini"));
    assert!(provisioned.configured.is_empty());
    assert!(files.find(settings_path("/g/topic").as_bytes(), true).is_err());
    assert_eq!(files.names(b"/g/topic"), Vec::<Vec<u8>>::new());
}

#[test]
fn provisioning_an_empty_policy_writes_nothing_and_warns_about_nothing() {
    let mut fake = RecordingFake::new();
    fake.push_response(output_of(1, b""));
    let (provisioned, files) = provision_topic(&mut fake);
    assert!(provisioned.configured.is_empty());
    assert!(provisioned.warnings.is_empty());
    assert!(files.find(settings_path("/g/topic").as_bytes(), true).is_err());
    assert!(files.find(b"/g/topic/.codex", true).is_err());
    assert_eq!(files.names(b"/g/topic"), Vec::<Vec<u8>>::new());
}

/// The directory of the first agent's settings below a worktree.
fn settings_path(worktree: &str) -> String {
    format!("{worktree}/{}", settings_directory())
}

#[test]
fn a_failed_provision_warns_and_still_provisions_the_other_agents() {
    let (mut files, grove) = grove_in_memory();
    files.directories(b"/g/.bare/info");
    files.directories(b"/g/topic");
    let blocked = format!("/g/topic/{}", settings_directory()).into_bytes();
    files.write(&blocked, b"not a directory");

    let mut fake = RecordingFake::new();
    fake.push_response(output_of(0, format!("{}\0codex\0", names().claude).as_bytes()));
    fake.push_response(output_of(1, b""));
    fake.push_response(output_of(1, b""));
    let provisioned = provision(
        &mut fake,
        &mut files,
        &grove,
        b"/g/topic",
        &names(),
        EXECUTABLE,
        &merge,
    );
    assert_eq!(provisioned.warnings.len(), 1);
    let name = names().claude;
    assert!(provisioned.warnings[0].contains(&format!("could not configure the {name} hook")));
    assert!(provisioned.warnings[0].contains(&format!("git grove setup --agent {name}")));
    assert_eq!(provisioned.configured.len(), 1, "codex still succeeded");
    assert!(files.read(b"/g/topic/.codex/config.toml").is_some());
}

// ---------------------------------------------------------------------- the guard

/// What a tool is given as its command, from the JSON that an agent hands to a hook.
fn read_payload(raw: &[u8]) -> Payload {
    let body: Value = serde_json::from_slice(raw).map_err(|error| error.to_string())?;
    let command = body["tool_input"]["command"].as_str().unwrap_or_default();
    Ok(ToolUse {
        cwd: None,
        words: words_in(command.as_bytes()),
    })
}

#[test]
fn a_non_grove_process_cwd_denies_with_an_actionable_reason_on_both_protocols() {
    for protocol in [Protocol::ClaudeCompatible, Protocol::Codex] {
        let output = guard(
            &mut workspace(),
            protocol,
            read_payload(br#"{"tool_name":"Bash","tool_input":{"command":"ls"}}"#),
            Ok(b"/dir".to_vec()),
        );
        let body: Value = serde_json::from_slice(output.as_bytes()).unwrap();
        let reason = match protocol {
            Protocol::ClaudeCompatible => {
                assert_eq!(body["permissionDecision"], "deny");
                body["permissionDecisionReason"].as_str().unwrap()
            }
            Protocol::Codex => {
                assert_eq!(body["hookSpecificOutput"]["permissionDecision"], "deny");
                body["hookSpecificOutput"]["permissionDecisionReason"].as_str().unwrap()
            }
        };
        assert!(reason.contains("not inside a grove"));
        assert!(reason.contains("remove the git-grove hook group"));
    }
}

#[test]
fn an_unreadable_current_directory_denies_rather_than_erroring() {
    let output = guard(
        &mut workspace(),
        Protocol::ClaudeCompatible,
        read_payload(br#"{"tool_name":"Bash","tool_input":{"command":"ls"}}"#),
        Err(io_failure(FailureKind::Other, "stale cwd")),
    );
    let body: Value = serde_json::from_slice(output.as_bytes()).unwrap();
    assert_eq!(body["permissionDecision"], "deny");
    let reason = body["permissionDecisionReason"].as_str().unwrap();
    assert!(reason.contains("cannot determine the current directory"));
    assert!(reason.contains("stale cwd"));
}

#[test]
fn a_malformed_payload_denies_rather_than_erroring() {
    let mut files = workspace();
    let output = guard(
        &mut files,
        Protocol::Codex,
        read_payload(b"not json"),
        Ok(b"/".to_vec()),
    );
    let body: Value = serde_json::from_slice(output.as_bytes()).unwrap();
    assert_eq!(body["hookSpecificOutput"]["permissionDecision"], "deny");
    assert!(files.requests.is_empty());
}

#[test]
fn output_is_exactly_one_json_object_followed_by_a_newline() {
    let text = guard(
        &mut workspace(),
        Protocol::Codex,
        read_payload(b"not json"),
        Ok(b"/".to_vec()),
    );
    assert_eq!(text.as_bytes().last(), Some(&b'\n'));
    assert_eq!(text.matches('\n').count(), 1);
    serde_json::from_str::<Value>(text.trim_end()).unwrap();
}

#[test]
fn a_reason_reads_back_from_the_answer() {
    let reason = "a \"quote\" \\ and\nlines\r\t\u{8}\u{c}\u{1}\u{1f}\u{7f} \u{e9}\u{2028}";
    for protocol in [Protocol::ClaudeCompatible, Protocol::Codex] {
        let text = respond(protocol, &HookVerdict::Deny(reason.to_string()));
        assert_eq!(text.matches('\n').count(), 1);
        let body: Value = serde_json::from_str(&text).unwrap();
        let verdict = match protocol {
            Protocol::ClaudeCompatible => &body,
            Protocol::Codex => {
                assert_eq!(body["hookSpecificOutput"]["hookEventName"], "PreToolUse");
                &body["hookSpecificOutput"]
            }
        };
        assert_eq!(verdict["permissionDecisionReason"].as_str(), Some(reason));
    }
    assert_eq!(
        respond(Protocol::ClaudeCompatible, &HookVerdict::Deny("\u{1f}\"".to_string())),
        "{\"permissionDecision\":\"deny\",\"permissionDecisionReason\":\"\\u001f\\\"\"}\n"
    );
    assert_eq!(
        respond(Protocol::ClaudeCompatible, &HookVerdict::Allow),
        "{\"permissionDecision\":\"allow\"}\n"
    );
}

#[test]
fn inside_a_grove_a_tool_is_let_through_unless_it_touches_the_administration() {
    let mut files = workspace();
    files.directories(b"/dir/.bare");
    files.write(b"/dir/.git", POINTER_CONTENTS.as_bytes());
    files.directories(b"/dir/main");
    let mut verdict = |command: &str, cwd: Option<&str>| {
        let tool = ToolUse {
            cwd: cwd.map(|cwd| cwd.as_bytes().to_vec()),
            words: words_in(command.as_bytes()),
        };
        decide(&mut files, Ok(tool), Ok(b"/dir/main".to_vec()))
    };
    assert!(matches!(verdict("ls src", None), HookVerdict::Allow));
    assert!(matches!(verdict("cat .git", None), HookVerdict::Allow));
    assert!(matches!(verdict("rm ../.git", None), HookVerdict::Deny(_)));
    assert!(matches!(verdict("rm .git", Some("/dir")), HookVerdict::Deny(_)));
}

#[test]
fn commands_are_taken_apart_into_words() {
    assert_eq!(
        words_in(b"rm -rf '../.bare/refs' && echo \"x\">.git;(cat\ty)|z=1 "),
        [
            "rm", "-rf", "../.bare/refs", "echo", "x", ".git", "cat", "y", "z", "1"
        ]
        .map(|word| word.as_bytes().to_vec())
    );
    assert_eq!(words_in(b" ;; \n"), Vec::<Vec<u8>>::new());
}

#[test]
fn a_tool_that_reaches_the_administration_is_refused() {
    let mut files = workspace();
    files.directories(b"/dir/.bare/refs");
    files.write(b"/dir/.git", POINTER_CONTENTS.as_bytes());
    files.directories(b"/dir/main/src");
    files.link(b"/dir/.bare", b"/dir/main/way");
    let mut verdict = |named: Option<&str>, word: &str| {
        examine(
            &mut files,
            &vec![b"ls".to_vec(), word.as_bytes().to_vec()],
            &named.map(|directory| directory.as_bytes().to_vec()),
            b"/dir/.bare",
            b"/dir/.git",
            b"/dir/main",
        )
    };
    for (named, word) in [
        (None, "../.bare"),
        (None, "/dir/.bare/new/deep"),
        (None, "src/../../.git"),
        (None, "way/refs"),
        (None, "../../../../dir/.git"),
        (Some("src"), "../../.bare/config"),
        (Some("/dir"), ".git"),
    ] {
        assert_eq!(
            verdict(named, word).unwrap(),
            format!("grove invariant: refusing -- {word} reaches the grove's own administration")
        );
    }
    for (named, word) in [
        (None, ".git"),
        (None, "../.bared"),
        (None, "/dir"),
        (Some("/elsewhere"), ".git"),
    ] {
        assert_eq!(verdict(named, word), None, "{word}");
    }
}

// ------------------------------------------------------- below a held directory

#[test]
fn a_directory_is_made_durable_by_its_path() {
    let mut files = workspace();
    fsync_dir(&mut files, b"/dir").unwrap();
    let kinds: Vec<&str> =
        files.requests.iter().filter_map(|request| request.split('(').next()).collect();
    assert_eq!(kinds, ["OpenParent", "Sync"]);
    let error = fsync_dir(&mut files, b"/dir/missing").unwrap_err();
    assert!(error.message.starts_with("cannot open directory /dir/missing: "));
}

#[test]
fn an_accepted_path_is_accepted_again_as_it_is_written() {
    for (path, written) in [("a//b/./c/", "a/b/c"), ("file", "file"), ("x/.hidden", "x/.hidden")] {
        let first = ValidatedRelativePath::new(path.as_bytes()).unwrap();
        assert_eq!(first.as_path(), written.as_bytes());
        let again = ValidatedRelativePath::new(first.as_path()).unwrap();
        assert_eq!(again.as_path(), written.as_bytes());
    }
}

#[test]
fn validated_paths_reject_dot_parent_slash_nul_and_empty_components() {
    for path in ["", ".", "..", "a/../b", "/a"] {
        assert!(
            ValidatedRelativePath::new(path.as_bytes()).is_err(),
            "accepted {path:?}"
        );
    }
    assert!(ValidatedRelativePath::component(b"a/b").is_err());
    assert!(ValidatedRelativePath::component(b"a\0b").is_err());
}

#[test]
fn identity_records_metadata_and_regular_file_hash() {
    let mut files = Memory::new();
    files.directories(b"/root");
    files.write(b"/root/file", b"contents");
    let held = HeldDirectory::open(&mut files, b"/root").unwrap();
    let path = ValidatedRelativePath::component(b"file").unwrap();
    let identity = RealFileSystem.identity_at(&mut files, held.handle, &path).unwrap();
    assert_eq!(identity.size, 8);
    assert_eq!(identity.nlink, 1);
    assert!(identity.mtime.seconds > 0);
    assert!(identity.ctime.seconds > 0);
    assert_eq!(
        identity.sha256.unwrap()[..4],
        [0xd1, 0xb2, 0xa5, 0x9f],
        "the digest of the contents"
    );
}

#[test]
fn recursive_inventory_records_nested_types_metadata_and_hashes() {
    let mut files = Memory::new();
    files.directories(b"/root/nested");
    files.write(b"/root/nested/file", b"contents");
    files.link(b"file", b"/root/nested/link");
    let held = HeldDirectory::open(&mut files, b"/root").unwrap();
    let inventory = held.inventory(&mut files).unwrap();
    assert_eq!(
        inventory
            .iter()
            .map(|entry| entry.path.as_path().to_vec())
            .collect::<Vec<_>>(),
        [
            b"nested".to_vec(),
            b"nested/file".to_vec(),
            b"nested/link".to_vec()
        ]
    );
    let file = &inventory[1].identity;
    assert_eq!(file.size, 8);
    assert_eq!(file.nlink, 1);
    assert!(file.sha256.is_some());
    assert!(inventory[2].identity.sha256.is_none());
}

#[test]
fn an_inventory_is_in_byte_order_whatever_order_the_names_come_in() {
    let mut files = Memory::new();
    files.directories(b"/root/b");
    files.write(b"/root/b/z", b"");
    files.write(b"/root/b/a", b"");
    files.write(b"/root/c", b"");
    files.write(b"/root/a", b"");
    let held = HeldDirectory::open(&mut files, b"/root").unwrap();
    let paths: Vec<Vec<u8>> = held
        .inventory(&mut files)
        .unwrap()
        .iter()
        .map(|entry| entry.path.as_path().to_vec())
        .collect();
    assert_eq!(
        paths,
        [
            b"a".to_vec(),
            b"b".to_vec(),
            b"b/a".to_vec(),
            b"b/z".to_vec(),
            b"c".to_vec()
        ]
    );
    assert_eq!(files.asked_for("Close"), 1);
}

#[test]
fn a_mount_that_is_not_reported_is_looked_up_in_the_table() {
    let mut files = Memory::new();
    files.mounts = b"7 0 8:1 / / rw - ext4 /dev/root rw\n9 7 8:2 / /root/sub rw - ext4 /dev/b rw\n"
        .to_vec();
    files.reports_mounts = false;
    files.directories(b"/root/sub/inner");
    let held = HeldDirectory::open(&mut files, b"/root").unwrap();
    assert_eq!(held.original_identity().mount_id, 7);
    for (name, mount) in [(b"sub".as_slice(), 9), (b"sub/inner", 9)] {
        let path = ValidatedRelativePath::new(name).unwrap();
        let identity = RealFileSystem.identity_at(&mut files, held.handle, &path).unwrap();
        assert_eq!(identity.mount_id, mount);
    }

    files.mounts = b"9 7 8:2 / /elsewhere rw - ext4 /dev/b rw\n".to_vec();
    let error = held.identity(&mut files).unwrap_err();
    assert_eq!(error.class, ExitClass::Usage);
    assert_eq!(error.message, "cannot classify the mount containing /root");
}

#[test]
fn no_link_is_followed_on_the_way_to_an_entry() {
    let mut files = Memory::new();
    files.directories(b"/root/real");
    files.directories(b"/elsewhere");
    files.write(b"/elsewhere/file", b"foreign");
    files.link(b"/elsewhere", b"/root/linked");
    let held = HeldDirectory::open(&mut files, b"/root").unwrap();
    let path = ValidatedRelativePath::new(b"linked/file").unwrap();
    for error in [
        RealFileSystem.identity_at(&mut files, held.handle, &path).unwrap_err(),
        RealFileSystem.remove_at(&mut files, held.handle, &path).unwrap_err(),
        RealFileSystem
            .write_new_at(&mut files, held.handle, &path, b"mine", 0o600)
            .unwrap_err(),
        RealFileSystem.fsync_file_at(&mut files, held.handle, &path).unwrap_err(),
    ] {
        assert_eq!(error.class, ExitClass::NeedsDecision);
        assert!(error
            .message
            .starts_with("transaction path has a replaced or symlinked ancestor: "));
    }
    assert_eq!(files.read(b"/elsewhere/file"), Some(b"foreign".to_vec()));
}

#[test]
fn entries_are_written_moved_and_removed_below_a_held_directory() {
    let mut files = Memory::new();
    files.directories(b"/root/from/empty");
    files.directories(b"/root/to");
    let held = HeldDirectory::open(&mut files, b"/root").unwrap().handle;
    let (source, target) = (relative(b"from/file"), relative(b"to/moved"));

    RealFileSystem.write_new_at(&mut files, held, &source, b"text", 0o640).unwrap();
    assert_eq!(files.read(b"/root/from/file"), Some(b"text".to_vec()));
    let identity = RealFileSystem.identity_at(&mut files, held, &source).unwrap();
    assert_eq!(identity.mode, 0o100640);
    let error = RealFileSystem
        .write_new_at(&mut files, held, &source, b"other", 0o640)
        .unwrap_err();
    assert_eq!(error.message, "cannot create transaction file: File exists");

    RealFileSystem.rename_at(&mut files, held, &source, held, &target).unwrap();
    assert_eq!(files.read(b"/root/to/moved"), Some(b"text".to_vec()));
    RealFileSystem.write_new_at(&mut files, held, &source, b"new", 0o640).unwrap();
    let error = RealFileSystem
        .rename_at(&mut files, held, &source, held, &target)
        .unwrap_err();
    assert_eq!(error.message, "cannot rename transaction entry: File exists");
    assert_eq!(files.read(b"/root/to/moved"), Some(b"text".to_vec()));

    RealFileSystem.fsync_file_at(&mut files, held, &target).unwrap();
    RealFileSystem.remove_at(&mut files, held, &target).unwrap();
    assert_eq!(files.read(b"/root/to/moved"), None);
    RealFileSystem.remove_at(&mut files, held, &relative(b"from/empty")).unwrap();
    assert!(!files.is_directory(b"/root/from/empty"));
    let error = RealFileSystem.remove_at(&mut files, held, &target).unwrap_err();
    assert_eq!(
        error.message,
        "cannot inspect transaction path: No such file or directory"
    );
}

// ---------------------------------------------------------- where children run

#[test]
fn scratch_directory_is_created_verified_outside_the_grove_and_removed_after() {
    let mut files = Memory::new();
    files.directories(b"/parent/grove");
    let scratch = create_scratch_dir(&mut files, b"/parent/grove").unwrap();
    assert!(files.is_directory(&scratch));
    assert!(!scratch.starts_with(b"/parent/grove"));
    assert!(scratch.starts_with(b"/parent/.git-grove-provider-"));
    let node = files.find(&scratch, false).unwrap();
    assert_eq!(files.stat(node).mode & 0o777, 0o700);
    files.remove(&scratch);
    assert!(!files.is_directory(&scratch));
}

#[test]
fn a_grove_without_a_parent_has_no_scratch_directory() {
    let mut files = Memory::new();
    let error = create_scratch_dir(&mut files, b"/").unwrap_err();
    assert_eq!(
        error.message,
        "the grove root has no parent directory for a provider scratch directory"
    );
}

// ------------------------------------------------------------- places and marks

#[test]
fn a_way_through_a_link_or_a_file_is_left_for_a_decision() {
    let (mut files, grove) = grove_in_memory();
    files.directories(b"/elsewhere");
    files.link(b"/elsewhere", &[grove.root.as_slice(), b"/linked"].concat());
    files.write(&[grove.root.as_slice(), b"/file"].concat(), b"kept");
    for place in ["linked/topic", "linked", "file/topic", "file"] {
        let mut fake = RecordingFake::new();
        let error = add(
            &mut fake,
            &mut files,
            &grove,
            &branch_mode("topic", Some(place), None),
        )
        .unwrap_err();
        assert_eq!(error.class, ExitClass::NeedsDecision, "place {place}");
        assert!(error.message.ends_with(" is in the way of the worktree"), "place {place}");
    }
    assert_eq!(
        files.read(&[grove.root.as_slice(), b"/file"].concat()),
        Some(b"kept".to_vec())
    );
    assert!(files.names(b"/elsewhere").is_empty());
}

#[test]
fn an_occupied_place_is_preserved() {
    let (mut files, grove) = grove_in_memory();
    let kept = [grove.root.as_slice(), b"/topic/kept"].concat();
    files.directories(&[grove.root.as_slice(), b"/topic"].concat());
    files.write(&kept, b"kept");
    let mut fake = RecordingFake::new();
    let place = validate_worktree_path(&mut files, &grove.root, b"topic").unwrap();
    let error = place.validate_vacant(&mut files).unwrap_err();
    assert_eq!(error.class, ExitClass::NeedsDecision);
    assert_eq!(error.detail.as_deref(), Some("the existing entry was preserved"));
    assert!(add(&mut fake, &mut files, &grove, &branch_mode("topic", None, None)).is_err());
    assert_eq!(files.read(&kept), Some(b"kept".to_vec()));

    files.remove(&kept);
    place.validate_vacant(&mut files).unwrap();
    let nested = validate_worktree_path(&mut files, &grove.root, b"feature/login").unwrap();
    nested.validate_vacant(&mut files).unwrap();
    nested.create_parent_directories(&mut files).unwrap();
    assert!(files.is_directory(&[grove.root.as_slice(), b"/feature"].concat()));
    assert!(!files.is_directory(&nested.path()));
}

#[test]
fn only_both_marks_make_a_grove() {
    let mut files = Memory::new();
    files.directories(b"/dir/inner");
    assert!(recognize_grove(&mut files, b"/dir").is_err());
    files.directories(b"/dir/.bare");
    assert!(recognize_grove(&mut files, b"/dir").is_err());
    files.write(b"/dir/.git", b"gitdir: elsewhere\n");
    let error = recognize_grove(&mut files, b"/dir").unwrap_err();
    assert_eq!(error.message, "/dir is not a grove");
    files.write(b"/dir/.git", POINTER_CONTENTS.as_bytes());
    assert_eq!(recognize_grove(&mut files, b"/dir").unwrap().root, b"/dir");
    assert_eq!(discover(&mut files, b"/dir/inner").unwrap().root, b"/dir");
    files.remove(b"/dir/.bare");
    files.directories(b"/elsewhere");
    files.link(b"/elsewhere", b"/dir/.bare");
    assert!(recognize_grove(&mut files, b"/dir").is_err());
}

// ------------------------------------------------------------------- adoption

/// A file system that several parties share.
#[derive(Clone)]
struct Shared(Rc<RefCell<Memory>>);

impl FileSystem for Shared {
    fn files(&self) -> FileSession {
        unreachable!("a model is never asked for at run time")
    }

    fn perform(&mut self, request: FileRequest<Vec<u8>>) -> FileAnswer {
        self.0.borrow_mut().perform(request)
    }
}

/// A Git that does to the shared file system what the real one would, as far as an adoption
/// needs it. Configuration files hold one `key=value` on each line.
struct SimulatedGit {
    files: Shared,
    branches: Vec<String>,
    head: String,
    /// The words of the command that fails, from the first time it is run.
    failing: Option<&'static str>,
    log: Vec<String>,
}

impl SimulatedGit {
    fn config(&mut self, file: &str, words: &[&str]) -> GitOutput {
        let mut disk = self.files.0.borrow_mut();
        let text = String::from_utf8(disk.read(file.as_bytes()).unwrap_or_default()).unwrap();
        let of = |key: &str| format!("{key}=");
        match words {
            ["--unset-all", key] => {
                let kept: Vec<&str> = text.lines().filter(|l| !l.starts_with(&of(key))).collect();
                let found = kept.len() < text.lines().count();
                if found {
                    let kept: String = kept.iter().map(|line| format!("{line}\n")).collect();
                    disk.write(file.as_bytes(), kept.as_bytes());
                }
                output(if found { 0 } else { 5 }, b"", b"")
            }
            ["--bool", "--get", key] => match text.lines().find(|l| l.starts_with(&of(key))) {
                Some(line) => output(0, format!("{}\n", &line[of(key).len()..]).as_bytes(), b""),
                None => output(1, b"", b""),
            },
            [key, value] => {
                disk.write(file.as_bytes(), format!("{text}{key}={value}\n").as_bytes());
                output(0, b"", b"")
            }
            other => panic!("config {other:?}"),
        }
    }

    fn add_worktree(&mut self, bare: &str, path: &str, reason: &str) -> GitOutput {
        let name = path.rsplit('/').next().unwrap();
        let admin = format!("{bare}/worktrees/{name}");
        let mut disk = self.files.0.borrow_mut();
        disk.directories(admin.as_bytes());
        disk.directories(path.as_bytes());
        disk.write(format!("{path}/.git").as_bytes(), format!("gitdir: {admin}\n").as_bytes());
        disk.write(format!("{admin}/HEAD").as_bytes(), b"generated\n");
        disk.write(format!("{admin}/gitdir").as_bytes(), format!("{path}/.git\n").as_bytes());
        disk.write(format!("{admin}/locked").as_bytes(), reason.as_bytes());
        output(0, b"", b"")
    }

    fn remove_tree(disk: &mut Memory, path: &[u8]) {
        disk.remove(path);
    }

    fn answer(&mut self, directory: Option<&str>, words: &[&str]) -> GitOutput {
        let bare = directory.unwrap_or_default();
        match words {
            ["rev-parse", "--show-toplevel"] => output(0, b"/repo\n", b""),
            ["rev-parse", "--is-bare-repository"] => output(0, b"true\n", b""),
            ["rev-parse", "--shared-index-path"] => output(0, b"", b""),
            ["rev-parse", "--verify", "--quiet", "--end-of-options", revision] => {
                output(if *revision == "ORIG_HEAD^{object}" { 0 } else { 1 }, b"", b"")
            }
            ["worktree", "list", ..] => {
                output(0, b"worktree /repo\0HEAD aaaa\0branch refs/heads/topic\0\0", b"")
            }
            ["ls-files", "--unmerged", "-z"] => output(0, b"", b""),
            ["status", "--porcelain", "-z"] => output(0, b"", b""),
            ["status", ..] => output(0, b"# branch.head topic\0? untracked\0", b""),
            ["ls-files", "--stage", "-z"] => output(0, b"100644 bbbb 0\tREADME\0", b""),
            ["ls-files", "-v", "-z"] => output(0, b"H README\0", b""),
            ["symbolic-ref", "--quiet", "--short", "HEAD"] => {
                output(0, format!("{}\n", self.head).as_bytes(), b"")
            }
            ["remote"] => output(0, b"", b""),
            ["check-ref-format", "--branch", _] => output(0, b"", b""),
            ["show-ref", "--verify", "--quiet", reference] => {
                let known = self.branches.iter().any(|b| *reference == format!("refs/heads/{b}"));
                output(if known { 0 } else { 1 }, b"", b"")
            }
            ["config", "--bool", "--get", _] => output(1, b"", b""),
            ["config", "--file", file, rest @ ..] => self.config(file, rest),
            ["config", key, value] => self.config(&format!("{bare}/config"), &[key, value]),
            ["worktree", "add", "--no-checkout", "--lock", "--reason", reason, "--", path, _]
            | ["worktree", "add", "--lock", "--reason", reason, "--", path, _] => {
                self.add_worktree(bare, path, reason)
            }
            ["worktree", "unlock", "--", path] => {
                let name = path.rsplit('/').next().unwrap();
                let locked = format!("{bare}/worktrees/{name}/locked");
                self.files.0.borrow_mut().remove(locked.as_bytes());
                output(0, b"", b"")
            }
            ["worktree", "lock", "--reason", reason, "--", path] => {
                let name = path.rsplit('/').next().unwrap();
                let locked = format!("{bare}/worktrees/{name}/locked");
                self.files.0.borrow_mut().write(locked.as_bytes(), reason.as_bytes());
                output(0, b"", b"")
            }
            ["worktree", "remove", "--force", "--", path] => {
                let name = path.rsplit('/').next().unwrap();
                let admin = format!("{bare}/worktrees/{name}");
                let mut disk = self.files.0.borrow_mut();
                Self::remove_tree(&mut disk, path.as_bytes());
                Self::remove_tree(&mut disk, admin.as_bytes());
                if disk.names(format!("{bare}/worktrees").as_bytes()).is_empty() {
                    Self::remove_tree(&mut disk, format!("{bare}/worktrees").as_bytes());
                }
                output(0, b"", b"")
            }
            other => panic!("git {other:?}"),
        }
    }
}

impl GitRunner for SimulatedGit {
    fn session(&self) -> Session {
        unreachable!("a model is never asked for at run time")
    }

    fn run(&mut self, invocation: Invocation) -> Result<GitOutput, GroveError> {
        let argv = invocation.argv_for_test();
        let line = argv.join(" ");
        self.log.push(line.clone());
        if self.failing.is_some_and(|words| line.contains(words)) {
            return Err(GroveError::failure(format!("interrupted before {line}")));
        }
        let words: Vec<&str> = argv.iter().map(String::as_str).collect();
        let (directory, words) = match words.split_first() {
            Some((first, rest)) if first.starts_with("--git-dir=") => {
                (first.strip_prefix("--git-dir="), rest)
            }
            _ => (None, &words[..]),
        };
        Ok(self.answer(directory, words))
    }
}

fn ordinary_repository() -> Shared {
    let mut files = Memory::new();
    files.directories(b"/repo/.git/refs/heads");
    files.directories(b"/repo/.git/objects/aa");
    files.directories(b"/repo/.git/logs");
    files.directories(b"/repo/src/deep");
    for (path, contents) in [
        ("/repo/.git/HEAD", "ref: refs/heads/topic\n"),
        ("/repo/.git/ORIG_HEAD", "aaaa\n"),
        ("/repo/.git/config", "core.bare=false\nuser.name=somebody\n"),
        ("/repo/.git/description", "unnamed\n"),
        ("/repo/.git/custom", "kept\n"),
        ("/repo/.git/index", "staged\n"),
        ("/repo/.git/logs/HEAD", "log\n"),
        ("/repo/.git/objects/aa/bb", "object\n"),
        ("/repo/.git/refs/heads/topic", "aaaa\n"),
        ("/repo/.git/refs/heads/main", "cccc\n"),
        ("/repo/README", "text\n"),
        ("/repo/src/deep/main.rs", "fn main() {}\n"),
        ("/repo/untracked", "untracked\n"),
    ] {
        files.write(path.as_bytes(), contents.as_bytes());
    }
    files.link(b"README", b"/repo/link");
    Shared(Rc::new(RefCell::new(files)))
}

fn simulated_git(files: &Shared, failing: Option<&'static str>) -> SimulatedGit {
    SimulatedGit {
        files: files.clone(),
        branches: vec!["topic".to_string(), "main".to_string()],
        head: "topic".to_string(),
        failing,
        log: Vec::new(),
    }
}

/// Every entry below a path: the contents of files, the targets of links.
fn everything_below(files: &Shared, path: &str) -> BTreeMap<String, String> {
    let disk = files.0.borrow();
    let mut list = BTreeMap::new();
    let mut pending = vec![path.to_string()];
    while let Some(here) = pending.pop() {
        for name in disk.names(here.as_bytes()) {
            let entry = format!("{here}/{}", String::from_utf8(name).unwrap());
            if disk.is_directory(entry.as_bytes()) {
                list.insert(entry.clone(), "directory".to_string());
                pending.push(entry);
            } else if let Some(target) = disk.read_link(entry.as_bytes()) {
                list.insert(entry, format!("-> {}", String::from_utf8(target).unwrap()));
            } else {
                let contents = disk.read(entry.as_bytes()).unwrap();
                list.insert(entry, String::from_utf8(contents).unwrap());
            }
        }
    }
    list
}

fn topic_with_default_main() -> AdoptArgs {
    let mut args = AdoptArgs::fresh(None);
    args.default_branch = Some(b"main".to_vec());
    args
}

#[test]
fn an_adoption_keeps_the_checkout_and_adds_the_default_branch() {
    let mut files = ordinary_repository();
    let before = everything_below(&files, "/repo");
    let mut git = simulated_git(&files, None);
    let mut begun = begin(&mut git, &mut files, &topic_with_default_main(), b"/repo").unwrap();
    let report = proceed(&mut git, &mut files, &mut begun).unwrap();
    assert_eq!(report.message, "adopted: /repo (default main, payload topic)");
    assert_eq!(
        report.warnings,
        ["git-grove: retained shared Git entry .bare/custom"]
    );

    let after = everything_below(&files, "/repo");
    for (path, contents) in &before {
        if let Some(inside) = path.strip_prefix("/repo/.git/") {
            let moved = match inside {
                "HEAD" | "ORIG_HEAD" | "index" | "logs/HEAD" => {
                    format!("/repo/.bare/worktrees/topic/{inside}")
                }
                _ => format!("/repo/.bare/{inside}"),
            };
            if inside != "config" {
                assert_eq!(after.get(&moved), Some(contents), "{moved}");
            }
        } else if path != "/repo/.git" {
            let moved = path.replacen("/repo/", "/repo/topic/", 1);
            assert_eq!(after.get(&moved), Some(contents), "{moved}");
        }
    }
    assert_eq!(after["/repo/.git"], POINTER_CONTENTS);
    assert_eq!(after["/repo/.bare/HEAD"], "ref: refs/heads/main\n");
    assert_eq!(after["/repo/topic/.git"], "gitdir: /repo/.bare/worktrees/topic\n");
    assert_eq!(after["/repo/main/.git"], "gitdir: /repo/.bare/worktrees/main\n");
    assert_eq!(
        after["/repo/.bare/config"],
        "user.name=somebody\ncore.bare=true\nworktree.guessRemote=true\ngrove.version=1\n\
         grove.defaultBranch=main\ngrove.publishState=unpublished\n"
    );
    assert!(!after.contains_key("/repo/.bare/worktrees/topic/locked"));
    assert!(!after.contains_key("/repo/.bare/worktrees/main/locked"));
    let mut root: Vec<&str> = after
        .keys()
        .filter_map(|path| path.strip_prefix("/repo/"))
        .filter(|path| !path.contains('/'))
        .collect();
    root.sort();
    assert_eq!(root, [".bare", ".git", "main", "topic"]);
    assert_eq!(discover(&mut files, b"/repo/topic/src").unwrap().root, b"/repo");
}

#[test]
fn an_interrupted_adoption_is_undone_to_the_byte_or_finished() {
    for failing in [
        "core.bare true",
        "rev-parse --is-bare-repository",
        "worktree add --no-checkout",
        "--bool --get extensions.worktreeConfig",
        "worktree add --lock",
        "worktree.guessRemote",
        "grove.defaultBranch",
        "worktree unlock -- /repo/topic",
    ] {
        for undo in [true, false] {
            let mut files = ordinary_repository();
            let before = everything_below(&files, "/repo");
            let mut git = simulated_git(&files, Some(failing));
            let mut begun =
                begin(&mut git, &mut files, &topic_with_default_main(), b"/repo").unwrap();
            let error = proceed(&mut git, &mut files, &mut begun).unwrap_err();
            assert!(error.message.starts_with("interrupted before "), "{failing}");
            assert_eq!(
                error.detail.unwrap(),
                "adoption can be resumed with `git grove adopt --continue /repo` or reversed \
                 with `git grove adopt --abort /repo`"
            );

            git.failing = None;
            let mut recovered = Recovered {
                root: b"/repo".to_vec(),
                transaction: begun.transaction.path().to_vec(),
                journal: begun.journal,
            };
            files.0.borrow_mut().locks.clear();
            let outcome = recover(&mut git, &mut files, &mut recovered, undo);
            assert!(outcome.is_ok(), "{failing} (undo {undo}): {outcome:?}");
            let after = everything_below(&files, "/repo");
            if undo {
                assert_eq!(after, before, "{failing}");
            } else {
                assert_eq!(after["/repo/.git"], POINTER_CONTENTS, "{failing}");
                assert_eq!(after["/repo/topic/README"], "text\n", "{failing}");
                assert!(after.contains_key("/repo/main/.git"), "{failing}");
                assert!(
                    !after.keys().any(|path| path.contains("grove-adopt")),
                    "{failing}"
                );
            }
        }
    }
}

#[test]
fn an_adoption_between_two_states_is_finished_but_not_undone() {
    for undo in [true, false] {
        let mut files = ordinary_repository();
        let mut git = simulated_git(&files, Some("worktree unlock -- /repo/main"));
        let mut begun = begin(&mut git, &mut files, &topic_with_default_main(), b"/repo").unwrap();
        proceed(&mut git, &mut files, &mut begun).unwrap_err();
        git.failing = None;
        files.0.borrow_mut().locks.clear();
        let halfway = everything_below(&files, "/repo");
        let mut recovered = Recovered {
            root: b"/repo".to_vec(),
            transaction: begun.transaction.path().to_vec(),
            journal: begun.journal,
        };
        let outcome = recover(&mut git, &mut files, &mut recovered, undo);
        if undo {
            let error = outcome.unwrap_err();
            assert_eq!(error.class, ExitClass::NeedsDecision);
            assert_eq!(
                error.message,
                "adoption phase 8 is at neither its exact before nor after state"
            );
            assert_eq!(everything_below(&files, "/repo"), halfway);
        } else {
            outcome.unwrap();
            let after = everything_below(&files, "/repo");
            assert!(!after.contains_key("/repo/.bare/worktrees/main/locked"));
        }
    }
}

#[test]
fn a_modified_checkout_is_not_undone_over() {
    let mut files = ordinary_repository();
    let mut git = simulated_git(&files, Some("worktree.guessRemote"));
    let mut begun = begin(&mut git, &mut files, &topic_with_default_main(), b"/repo").unwrap();
    proceed(&mut git, &mut files, &mut begun).unwrap_err();
    git.failing = None;
    files.0.borrow_mut().locks.clear();
    files.0.borrow_mut().write(b"/repo/topic/README", b"edited\n");
    let mut recovered = Recovered {
        root: b"/repo".to_vec(),
        transaction: begun.transaction.path().to_vec(),
        journal: begun.journal,
    };
    let error = recover(&mut git, &mut files, &mut recovered, true).unwrap_err();
    assert_eq!(error.class, ExitClass::NeedsDecision);
    assert_eq!(error.message, "payload entry README changed during adoption");
    assert_eq!(
        files.0.borrow().read(b"/repo/topic/README"),
        Some(b"edited\n".to_vec())
    );
}

#[test]
fn an_adoption_refuses_before_it_changes_anything() {
    type Spoil = fn(&mut Memory);
    let cases: [(&str, Spoil); 6] = [
        ("reserved adoption path .bare already exists", |files| {
            files.directories(b"/repo/.bare")
        }),
        ("adopt requires a real .git directory, not a file or symlink", |files| {
            files.remove(b"/repo/.git");
            files.write(b"/repo/.git", b"gitdir: elsewhere\n");
        }),
        ("Git operation marker MERGE_HEAD is active", |files| {
            files.write(b"/repo/.git/MERGE_HEAD", b"aaaa\n")
        }),
        ("Git lock index.lock exists", |files| {
            files.write(b"/repo/.git/index.lock", b"")
        }),
        ("initialized submodules are not supported by adopt", |files| {
            files.directories(b"/repo/.git/modules")
        }),
        ("another git-grove command holds the repository lock at /repo/.git", |files| {
            let node = files.find(b"/repo/.git", false).unwrap();
            files.locks.push((node, LockMode::Shared));
        }),
    ];
    for (message, spoil) in cases {
        let mut files = ordinary_repository();
        spoil(&mut files.0.borrow_mut());
        let before = everything_below(&files, "/repo");
        let mut git = simulated_git(&files, None);
        let error = begin(&mut git, &mut files, &topic_with_default_main(), b"/repo").unwrap_err();
        assert!(error.message.contains(message), "{message}: {}", error.message);
        assert_eq!(everything_below(&files, "/repo"), before, "{message}");
    }
}

// ------------------------------------------------------------- cloning and initializing

/// A Git that clones from one origin with one branch, `main`, and lays out new repositories.
/// Configuration files hold one `key=value` on each line.
struct Cloning {
    files: Shared,
    url: &'static str,
    refs: BTreeMap<String, String>,
    remotes: Vec<String>,
    remote_head: String,
    foreign_worktree: bool,
    /// What another process does right after the first command that holds these words.
    after: Option<(&'static str, fn(&mut Cloning))>,
    /// The children that ran.
    ran: Vec<String>,
}

impl Cloning {
    fn new(files: &Shared) -> Cloning {
        Cloning {
            files: files.clone(),
            url: "/parent/origin.git",
            refs: BTreeMap::new(),
            remotes: Vec::new(),
            remote_head: String::new(),
            foreign_worktree: false,
            after: None,
            ran: Vec::new(),
        }
    }

    fn write(&mut self, path: &str, contents: &str) {
        self.files.0.borrow_mut().write(path.as_bytes(), contents.as_bytes());
    }

    fn directories(&mut self, path: &str) {
        self.files.0.borrow_mut().directories(path.as_bytes());
    }

    fn rename(&mut self, from: &str, to: &str) {
        let request = FileRequest::Rename(from.as_bytes().to_vec(), to.as_bytes().to_vec());
        assert!(matches!(self.files.perform(request), FileAnswer::Done));
    }

    fn text(&self, path: &str) -> String {
        let bytes = self.files.0.borrow().read(path.as_bytes()).unwrap_or_default();
        String::from_utf8(bytes).unwrap()
    }

    fn set(&mut self, file: &str, key: &str, value: &str) {
        let kept: String = self
            .text(file)
            .lines()
            .filter(|line| !line.starts_with(&format!("{key}=")))
            .map(|line| format!("{line}\n"))
            .collect();
        self.write(file, &format!("{kept}{key}={value}\n"));
    }

    fn found(&self, reference: &str) -> GitOutput {
        match self.refs.get(reference) {
            Some(oid) => output(0, format!("{oid}\n").as_bytes(), b""),
            None => output(1, b"", b""),
        }
    }

    fn answer(&mut self, bare: &str, words: &[&str]) -> GitOutput {
        let done = output(0, b"", b"");
        match words {
            ["check-ref-format", "--branch", branch] => {
                output(if branch.contains("..") { 1 } else { 0 }, b"", b"")
            }
            ["var", "GIT_DEFAULT_BRANCH"] => output(0, b"trunk\n", b""),
            ["init", "--quiet", "--bare", rest @ ..] => {
                let (branch, path) = match rest {
                    ["--initial-branch", branch, path] => (*branch, *path),
                    [path] => ("trunk", *path),
                    other => panic!("init {other:?}"),
                };
                self.write(&format!("{path}/HEAD"), branch);
                done
            }
            ["symbolic-ref", "--short", "HEAD"] => {
                output(0, format!("{}\n", self.text(&format!("{bare}/HEAD"))).as_bytes(), b"")
            }
            ["clone", "--bare", .., "--", url, path] => {
                self.write(&format!("{path}/HEAD"), "main");
                self.directories(&format!("{path}/objects/info"));
                self.write(&format!("{path}/config"), &format!("remote.origin.url={url}\n"));
                self.remotes.push("origin".to_string());
                self.refs.insert("refs/heads/main".to_string(), "aaaa".to_string());
                done
            }
            ["rev-parse", "--is-bare-repository"] => output(0, b"true\n", b""),
            ["rev-parse", "--git-path", "objects"] => {
                output(0, format!("{bare}/objects\n").as_bytes(), b"")
            }
            ["rev-parse", "--verify", "HEAD^{commit}"] => output(0, b"aaaa\n", b""),
            ["rev-parse", "--verify", "--end-of-options", commit] => {
                self.found(commit.strip_suffix("^{commit}").unwrap())
            }
            ["remote"] => output(0, format!("{}\n", self.remotes.join("\n")).as_bytes(), b""),
            ["remote", "set-head", "--auto", "--", remote] => {
                self.remote_head = format!("refs/remotes/{remote}/main");
                done
            }
            ["symbolic-ref", "--quiet", "refs/remotes/origin/HEAD"] => {
                output(0, format!("{}\n", self.remote_head).as_bytes(), b"")
            }
            ["fetch", "--prune", "--", remote] => {
                let fetched = format!("refs/remotes/{remote}/main");
                self.refs.insert(fetched, "aaaa".to_string());
                done
            }
            ["show-ref", "--verify", "--hash", "--", reference]
            | ["show-ref", "--verify", "--quiet", reference] => self.found(reference),
            ["for-each-ref", "--format=%(refname)", "--", "refs/heads"] => {
                let heads: String = self
                    .refs
                    .keys()
                    .filter(|name| name.starts_with("refs/heads/"))
                    .map(|name| format!("{name}\n"))
                    .collect();
                output(0, heads.as_bytes(), b"")
            }
            ["worktree", "list", "--porcelain", "-z"] => {
                let mut list = format!("worktree {bare}\0bare\0\0");
                if self.foreign_worktree {
                    list.push_str("worktree /elsewhere\0HEAD aaaa\0detached\0\0");
                }
                output(0, list.as_bytes(), b"")
            }
            ["worktree", "add", "--orphan", "-b", branch, path]
            | ["worktree", "add", "--", path, branch] => {
                self.directories(path);
                self.write(
                    &format!("{path}/.git"),
                    &format!("gitdir: /parent/grove/.bare/worktrees/{branch}\n"),
                );
                done
            }
            ["config", "--null", "--file", file, "--get-all", key] => {
                let values: String = self
                    .text(file)
                    .lines()
                    .filter_map(|line| line.strip_prefix(&format!("{key}=")))
                    .map(|value| format!("{value}\0"))
                    .collect();
                output(if values.is_empty() { 1 } else { 0 }, values.as_bytes(), b"")
            }
            ["config", "--file", file, "--add", key, value] => {
                let text = self.text(file);
                self.write(file, &format!("{text}{key}={value}\n"));
                done
            }
            ["config", "--file", file, key, value] => {
                self.set(file, key, value);
                done
            }
            other => panic!("git {other:?}"),
        }
    }
}

impl GitRunner for Cloning {
    fn session(&self) -> Session {
        unreachable!("a model is never asked for at run time")
    }

    fn run(&mut self, invocation: Invocation) -> Result<GitOutput, GroveError> {
        let argv = invocation.argv_for_test();
        let words: Vec<&str> = argv.iter().map(String::as_str).collect();
        let (bare, words) = match words.split_first() {
            Some((first, rest)) if first.starts_with("--git-dir=") => {
                (&first["--git-dir=".len()..], rest)
            }
            _ => ("", &words[..]),
        };
        self.ran.push(words.join(" "));
        let output = self.answer(bare, words);
        if let Some((trigger, action)) = self.after {
            if words.join(" ").contains(trigger) {
                self.after = None;
                action(self);
            }
        }
        Ok(output)
    }
}

fn clone_with(
    after: Option<(&'static str, fn(&mut Cloning))>,
) -> (Result<Grove, GroveError>, Shared) {
    let (result, files, _) = cloned_with(after);
    (result, files)
}

fn cloned_with(
    after: Option<(&'static str, fn(&mut Cloning))>,
) -> (Result<Grove, GroveError>, Shared, Vec<String>) {
    let mut memory = Memory::new();
    memory.directories(b"/parent");
    let mut files = Shared(Rc::new(RefCell::new(memory)));
    let mut git = Cloning::new(&files);
    git.after = after;
    let plan = ClonePlan {
        url: git.url.as_bytes().to_vec(),
        explicit_branch: None,
        verdict: Verdict {
            forwarded: Vec::new(),
            remote_name: b"origin".to_vec(),
            narrowed: false,
        },
        cwd: b"/parent".to_vec(),
    };
    let homes = SystemHomes {
        current: None,
        passwd: Ok(Vec::new()),
    };
    let guard = files.clone();
    let (result, git, _) = clone_repository(
        git,
        &mut files,
        guard,
        &Some(b"/parent/grove".to_vec()),
        &homes,
        &plan,
    );
    (result, files, git.ran)
}

fn assert_layout_was_not_written(files: &Shared) {
    let guide = format!("{:?}.md", Agent::Claude).to_uppercase();
    let names = files.0.borrow().names(b"/parent/grove");
    for absent in [".git", "AGENTS.md", guide.as_str(), "main"] {
        assert!(!names.contains(&absent.as_bytes().to_vec()), "{absent}");
    }
}

#[test]
fn a_clone_becomes_a_grove_with_its_first_worktree() {
    let (result, mut files) = clone_with(None);
    assert_eq!(result.unwrap().root, b"/parent/grove");
    assert_eq!(
        discover(&mut files, b"/parent/grove/main").unwrap().root,
        b"/parent/grove"
    );
    let config = files.0.borrow().read(b"/parent/grove/.bare/config").unwrap();
    assert_eq!(
        String::from_utf8(config).unwrap(),
        "remote.origin.url=/parent/origin.git\n\
         remote.origin.fetch=+refs/heads/*:refs/remotes/origin/*\n\
         worktree.guessRemote=true\n\
         branch.main.remote=origin\n\
         branch.main.merge=refs/heads/main\n\
         grove.version=1\n\
         grove.defaultBranch=main\n\
         grove.remote=origin\n\
         grove.publishState=published\n"
    );
    let mut names = files.0.borrow().names(b"/parent/grove");
    names.sort();
    assert_eq!(names, [b".bare".to_vec(), b".git".to_vec(), b"main".to_vec()]);
}

#[test]
fn replacing_the_named_root_cannot_redirect_clone_writes() {
    let (result, files) = clone_with(Some(("clone --bare", |git| {
        git.rename("/parent/grove", "/parent/moved-grove");
        git.directories("/parent/grove");
        git.write("/parent/grove/foreign", "mine");
    })));
    let error = result.unwrap_err();

    assert_eq!(error.class, ExitClass::NeedsDecision);
    let disk = files.0.borrow();
    assert_eq!(disk.read(b"/parent/grove/foreign"), Some(b"mine".to_vec()));
    assert!(disk.read(b"/parent/moved-grove/.bare/HEAD").is_some());
    assert!(error.to_text().contains("not a safe cleanup target"));
}

#[test]
fn replacing_the_named_bare_cannot_redirect_clone_writes() {
    let (result, files) = clone_with(Some(("clone --bare", |git| {
        git.rename("/parent/grove/.bare", "/parent/grove/moved-bare");
        git.directories("/parent/grove/.bare");
        git.write("/parent/grove/.bare/foreign", "mine");
    })));
    let error = result.unwrap_err();

    assert_eq!(error.class, ExitClass::NeedsDecision);
    let disk = files.0.borrow();
    assert_eq!(disk.read(b"/parent/grove/.bare/foreign"), Some(b"mine".to_vec()));
    assert!(disk.read(b"/parent/grove/moved-bare/HEAD").is_some());
    assert!(error.to_text().contains("not a safe cleanup target"));
}

#[test]
fn concurrent_foreign_root_entry_is_preserved_and_stops_layout_writes() {
    let (result, files) = clone_with(Some(("clone --bare", |git| {
        git.write("/parent/grove/foreign", "mine");
    })));

    assert_eq!(result.unwrap_err().class, ExitClass::NeedsDecision);
    let disk = files.0.borrow();
    assert_eq!(disk.read(b"/parent/grove/foreign"), Some(b"mine".to_vec()));
    assert!(disk.read(b"/parent/grove/.git").is_none());
}

#[test]
fn rejects_an_object_directory_symlinked_outside_held_bare() {
    let (result, files) = clone_with(Some(("clone --bare", |git| {
        git.rename("/parent/grove/.bare/objects", "/parent/external-objects");
        git.files
            .0
            .borrow_mut()
            .link(b"/parent/external-objects", b"/parent/grove/.bare/objects");
    })));
    let error = result.unwrap_err();

    assert_eq!(error.class, ExitClass::NeedsDecision);
    assert!(error.message.contains("object directory outside .bare"));
    assert!(files.0.borrow().is_directory(b"/parent/external-objects"));
}

#[test]
fn dangling_remote_head_target_stops_before_layout_writes() {
    let (result, files) = clone_with(Some(("remote set-head", |git| {
        git.refs.remove("refs/remotes/origin/main");
    })));
    let error = result.unwrap_err();

    assert_eq!(error.class, ExitClass::Failure);
    assert!(error.message.contains("remote HEAD target"));
    assert_layout_was_not_written(&files);
}

#[test]
fn malformed_clone_postconditions_stop_before_layout_writes() {
    type Fault = (&'static str, &'static str, fn(&mut Cloning));
    let faults: [Fault; 6] = [
        ("wrong remote", "clone --bare", |git| {
            git.remotes = vec!["elsewhere".to_string()]
        }),
        ("multiple remotes", "clone --bare", |git| {
            git.remotes.push("extra".to_string())
        }),
        ("wrong url", "clone --bare", |git| {
            git.set("/parent/grove/.bare/config", "remote.origin.url", "/wrong")
        }),
        ("invalid refspec", "clone --bare", |git| {
            git.set(
                "/parent/grove/.bare/config",
                "remote.origin.fetch",
                "+refs/heads/*:refs/heads/*",
            )
        }),
        ("wrong remote head", "remote set-head", |git| {
            git.remote_head = "refs/heads/main".to_string()
        }),
        ("extra worktree", "clone --bare", |git| git.foreign_worktree = true),
    ];
    for (fault, trigger, action) in faults {
        let (result, files) = clone_with(Some((trigger, action)));
        let error = result.unwrap_err();
        assert!(
            matches!(error.class, ExitClass::Failure | ExitClass::NeedsDecision),
            "fault {fault}: {}",
            error.to_text()
        );
        assert_layout_was_not_written(&files);
    }
}

#[test]
fn preserves_a_valid_preexisting_fetch_refspec() {
    let (result, files) = clone_with(Some(("clone --bare", |git| {
        git.set(
            "/parent/grove/.bare/config",
            "remote.origin.fetch",
            "+refs/heads/main:refs/remotes/origin/main",
        );
    })));
    result.unwrap();

    let config = files.0.borrow().read(b"/parent/grove/.bare/config").unwrap();
    let values: Vec<String> = String::from_utf8(config)
        .unwrap()
        .lines()
        .filter_map(|line| line.strip_prefix("remote.origin.fetch="))
        .map(str::to_string)
        .collect();
    assert_eq!(values, ["+refs/heads/main:refs/remotes/origin/main"]);
}

#[test]
fn a_new_repository_starts_as_a_grove() {
    for (branch, expected) in [(None, "trunk"), (Some("feature/start"), "feature/start")] {
        let mut memory = Memory::new();
        memory.directories(b"/parent");
        let mut files = Shared(Rc::new(RefCell::new(memory)));
        let (git, guard) = (Cloning::new(&files), files.clone());
        let (grove, git, _) = initialize(
            git,
            &mut files,
            guard,
            Some(b"grove".to_vec()),
            branch.map(|name| name.as_bytes().to_vec()),
            b"/parent",
            b"the guide\n",
            b"LINK.md",
        );
        assert_eq!(grove.unwrap().root, b"/parent/grove");
        let commands: Vec<&str> =
            git.ran.iter().filter_map(|line| line.split(' ').next()).collect();
        let asked: &[&str] = if branch.is_some() { &[] } else { &["var"] };
        assert_eq!(commands[..asked.len()], *asked);
        assert_eq!(
            commands[asked.len()..],
            ["check-ref-format", "init", "symbolic-ref", "config", "config", "config", "worktree"]
        );
        let after = everything_below(&files, "/parent/grove");
        assert_eq!(after["/parent/grove/.git"], POINTER_CONTENTS);
        assert_eq!(after["/parent/grove/AGENTS.md"], "the guide\n");
        assert_eq!(after["/parent/grove/LINK.md"], "-> AGENTS.md");
        assert!(after.contains_key(&format!("/parent/grove/{expected}/.git")));
        assert_eq!(
            after["/parent/grove/.bare/config"],
            format!(
                "grove.version=1\ngrove.defaultBranch={expected}\ngrove.publishState=unpublished\n"
            )
        );
    }
}

#[test]
fn nothing_runs_once_a_guarded_directory_was_exchanged() {
    let (result, _, ran) = cloned_with(Some(("clone --bare", |git| {
        git.rename("/parent/grove", "/parent/elsewhere");
        git.directories("/parent/grove/.bare");
    })));
    assert_eq!(result.unwrap_err().class, ExitClass::NeedsDecision);
    assert_eq!(ran.len(), 1, "{ran:?}");
    assert!(ran[0].starts_with("clone --bare"));
}

/// The requests that could take something away.
fn taken_away(files: &Shared) -> Vec<String> {
    files
        .0
        .borrow()
        .requests
        .iter()
        .filter(|request| {
            ["Remove", "Rename", "Replace", "Move", "Unlink", "SetMode"]
                .iter()
                .any(|kind| request.starts_with(kind))
        })
        .cloned()
        .collect()
}

#[test]
fn making_a_grove_takes_nothing_away() {
    let (result, files) = clone_with(None);
    assert!(result.is_ok());
    assert_eq!(taken_away(&files), Vec::<String>::new());

    let mut memory = Memory::new();
    memory.directories(b"/parent");
    let mut files = Shared(Rc::new(RefCell::new(memory)));
    let (git, guard) = (Cloning::new(&files), files.clone());
    initialize(
        git,
        &mut files,
        guard,
        Some(b"grove".to_vec()),
        None,
        b"/parent",
        b"the guide\n",
        b"LINK.md",
    )
    .0
    .unwrap();
    assert_eq!(taken_away(&files), Vec::<String>::new());
}

/// A file system in which the file that ends a path is edited when it is read for the third time.
struct Edited {
    files: Shared,
    name: &'static [u8],
    reads: usize,
}

impl FileSystem for Edited {
    fn files(&self) -> FileSession {
        unreachable!("a model is never asked for at run time")
    }

    fn perform(&mut self, request: FileRequest<Vec<u8>>) -> FileAnswer {
        if matches!(&request, FileRequest::Read(path) if path.ends_with(self.name)) {
            self.reads += 1;
            if self.reads == 3 {
                self.files.0.borrow_mut().write(b"/repo/README", b"edited\n");
            }
        }
        self.files.perform(request)
    }
}

#[test]
fn an_entry_that_changes_during_the_preflight_is_shown_as_it_was_and_is() {
    let files = ordinary_repository();
    let mut git = simulated_git(&files, None);
    let mut edited = Edited {
        files,
        name: b"README",
        reads: 0,
    };
    let error = begin(&mut git, &mut edited, &topic_with_default_main(), b"/repo").unwrap_err();
    assert_eq!(error.class, ExitClass::NeedsDecision);
    assert_eq!(error.message, "repository contents changed during adopt preflight");
    let detail = error.detail.unwrap();
    assert!(
        detail.starts_with("payload entry changed: ManifestEntry { path: \"README\", identity: FileIdentity { dev: "),
        "{detail}"
    );
    let (was, is) = detail.split_once(" -> ManifestEntry { ").unwrap();
    assert!(was.contains("content: Blob { bytes: \"text\\n\", sha256: ["), "{was}");
    assert!(is.contains("content: Blob { bytes: \"edited\\n\", sha256: ["), "{is}");
}

#[test]
fn an_adoption_without_a_record_is_undone_with_its_transaction() {
    let names = vec![b"README".to_vec(), b".grove-adopt-aa".to_vec()];
    let mut files = Memory::new();
    files.directories(b"/repo/.grove-adopt-aa");
    files.write(b"/repo/.grove-adopt-aa/journal.new", b"half");
    files.write(b"/repo/README", b"text");
    assert!(abort_torn_bootstrap(&mut files, b"/repo", &names).unwrap());
    assert_eq!(files.names(b"/repo"), [b"README".to_vec()]);

    files.directories(b"/repo/.grove-adopt-aa");
    files.write(b"/repo/.grove-adopt-aa/journal", b"record");
    assert!(!abort_torn_bootstrap(&mut files, b"/repo", &names).unwrap());
    assert!(!abort_torn_bootstrap(&mut files, b"/repo", &vec![b"README".to_vec()]).unwrap());
    assert!(files.read(b"/repo/.grove-adopt-aa/journal").is_some());

    let mut files = Memory::new();
    files.directories(b"/repo/.grove-adopt-aa");
    files.directories(b"/repo/.bare");
    assert!(!abort_torn_bootstrap(&mut files, b"/repo", &names).unwrap());

    let mut files = Memory::new();
    files.directories(b"/repo/.grove-adopt-aa");
    files.write(b"/repo/.grove-adopt-aa/mine", b"kept");
    let error = abort_torn_bootstrap(&mut files, b"/repo", &names).unwrap_err();
    assert!(error.message.starts_with("cannot remove /repo/.grove-adopt-aa: "));
    assert!(files.read(b"/repo/.grove-adopt-aa/mine").is_some());
}

#[test]
fn a_journal_belongs_to_one_repository() {
    let mut files = ordinary_repository();
    let mut git = simulated_git(&files, None);
    let begun = begin(&mut git, &mut files, &topic_with_default_main(), b"/repo").unwrap();
    let transaction = begun.transaction.path().to_vec();
    let recovered = Recovered::found(b"/repo/", &transaction, begun.journal).unwrap();
    assert_eq!(recovered.transaction, transaction);
    let error = Recovered::found(b"/other", &transaction, recovered.journal).unwrap_err();
    assert_eq!(error.class, ExitClass::NeedsDecision);
    assert_eq!(error.message, "the adoption journal belongs to another repository");
}

/// A Git whose failures bear the exit status of a signal.
struct Signalled(SimulatedGit, Option<u8>);

impl GitRunner for Signalled {
    fn session(&self) -> Session {
        unreachable!("a model is never asked for at run time")
    }

    fn run(&mut self, invocation: Invocation) -> Result<GitOutput, GroveError> {
        self.0.run(invocation).map_err(|mut error| {
            error.exit_code = self.1;
            error
        })
    }
}

fn stored_last(files: &Shared) -> bool {
    files.0.borrow().requests.last().is_some_and(|last| last.starts_with("StoreJournal"))
}

#[test]
fn a_signal_has_the_record_stored_once_more() {
    for (code, status, reconciled) in [
        (Some(129), 129, true),
        (Some(130), 130, true),
        (Some(143), 143, true),
        (Some(131), 131, false),
        (None, 1, false),
    ] {
        let mut files = ordinary_repository();
        let before = everything_below(&files, "/repo");
        let mut git = Signalled(simulated_git(&files, Some("worktree.guessRemote")), code);
        let mut begun = begin(&mut git, &mut files, &topic_with_default_main(), b"/repo").unwrap();
        let error = proceed(&mut git, &mut files, &mut begun).unwrap_err();
        assert_eq!(error.status(), status);
        assert!(error.detail.unwrap().starts_with("adoption can be resumed with"));
        assert_eq!(stored_last(&files), reconciled, "{code:?}");

        let mut recovered = Recovered {
            root: b"/repo".to_vec(),
            transaction: begun.transaction.path().to_vec(),
            journal: begun.journal,
        };
        files.0.borrow_mut().locks.clear();
        let error = recover(&mut git, &mut files, &mut recovered, false).unwrap_err();
        assert_eq!((error.status(), error.detail), (status, None));
        assert_eq!(stored_last(&files), reconciled, "{code:?}");

        git.0.failing = Some("worktree remove");
        files.0.borrow_mut().locks.clear();
        let error = recover(&mut git, &mut files, &mut recovered, true).unwrap_err();
        assert_eq!(error.status(), status);
        assert_eq!(stored_last(&files), reconciled, "{code:?}");

        git.0.failing = None;
        files.0.borrow_mut().locks.clear();
        recover(&mut git, &mut files, &mut recovered, true).unwrap();
        assert_eq!(everything_below(&files, "/repo"), before);
    }
}

#[test]
fn an_adoption_removes_only_what_was_generated() {
    let mut files = ordinary_repository();
    let mut git = simulated_git(&files, None);
    let mut begun = begin(&mut git, &mut files, &topic_with_default_main(), b"/repo").unwrap();
    assert_eq!(taken_away(&files), Vec::<String>::new());
    let transaction = String::from_utf8(begun.site.transaction.clone()).unwrap();
    proceed(&mut git, &mut files, &mut begun).unwrap();
    let admin = b"/repo/.bare/worktrees/topic/".to_vec();
    for request in taken_away(&files) {
        if request.starts_with("RemoveFile") {
            let generated = [
                format!("RemoveFile({:?}", admin).trim_end_matches(']').to_string(),
                format!("RemoveFile({:?}", transaction.as_bytes())
                    .trim_end_matches(']')
                    .to_string(),
            ];
            assert!(generated.iter().any(|start| request.starts_with(start)), "{request}");
        } else {
            assert!(
                request.starts_with("RemoveDirectory")
                    || request.starts_with("Rename")
                    || request.starts_with("Replace"),
                "{request}"
            );
        }
    }
}

#[test]
fn a_guide_is_left_where_there_is_none() {
    let mut files = workspace();
    assert!(leave_guide(&mut files, b"/dir", b"read me\n", b"LINK.md").unwrap());
    assert_eq!(files.read(b"/dir/AGENTS.md").unwrap(), b"read me\n");
    assert_eq!(files.read_link(b"/dir/LINK.md").unwrap(), b"AGENTS.md");
    assert!(!leave_guide(&mut files, b"/dir", b"other\n", b"ELSE.md").unwrap());
    assert_eq!(files.read(b"/dir/AGENTS.md").unwrap(), b"read me\n");
    assert!(files.read_link(b"/dir/ELSE.md").is_none());

    let mut files = workspace();
    files.write(b"/dir/LINK.md", b"mine");
    assert!(leave_guide(&mut files, b"/dir", b"read me\n", b"LINK.md").unwrap());
    assert_eq!(files.read(b"/dir/LINK.md").unwrap(), b"mine");
}

#[test]
fn an_occupied_directory_is_not_initialized_over() {
    let mut memory = Memory::new();
    memory.directories(b"/parent/grove");
    memory.write(b"/parent/grove/mine", b"kept");
    let mut files = Shared(Rc::new(RefCell::new(memory)));
    let before = everything_below(&files, "/parent");
    let (git, guard) = (Cloning::new(&files), files.clone());
    let (result, git, _) = initialize(
        git,
        &mut files,
        guard,
        Some(b"grove".to_vec()),
        None,
        b"/parent",
        b"",
        b"LINK.md",
    );
    assert_eq!(result.unwrap_err().class, ExitClass::NeedsDecision);
    assert_eq!(everything_below(&files, "/parent"), before);
    assert_eq!(git.ran.len(), 2, "{:?}", git.ran);
}
