//! The lock that keeps two commands from changing one repository at a time.
use vstd::prelude::*;
use crate::error::{detailed, needs_decision, ErrorView, ExitClass, GroveError, Result};
use crate::fsx::directory::{open_run, HeldDirectory, HeldView};
use crate::fsx::files::{do_request, done_step, FailureView, FileRequest, FileSession, FileSystem};
use crate::git::config::Outcome;
use crate::text::{lossy, lossy_text, text};

verus! {

/// How a lock is held.
#[derive(Clone, Copy, Debug, PartialEq, Eq, Structural)]
pub enum LockMode {
    /// Together with other shared holders.
    Shared,
    /// Alone.
    Exclusive,
}

/// A lock that is held.
#[derive(Debug)]
pub struct GroveLock {
    pub directory: HeldDirectory,
    pub mode: LockMode,
    pub command: String,
}

pub struct LockView {
    pub directory: HeldView,
    pub mode: LockMode,
    pub command: Seq<char>,
}

impl View for GroveLock {
    type V = LockView;

    open spec fn view(&self) -> LockView {
        LockView { directory: self.directory@, mode: self.mode, command: self.command@ }
    }
}

pub open spec fn lock_outcome(r: Result<GroveLock>) -> Outcome<LockView> {
    match r {
        Ok(l) => Ok(l@),
        Err(e) => Err(e@),
    }
}

pub open spec fn contended(path: Seq<u8>, command: Seq<char>, e: FailureView) -> ErrorView {
    detailed(
        needs_decision(
            "another git-grove command holds the repository lock at "@ + lossy_text(path),
        ),
        "cannot start "@ + command + ": "@ + e.text,
    )
}

pub open spec fn acquire_run(s: FileSession, h: HeldView, mode: LockMode, command: Seq<char>) -> (
    FileSession,
    Outcome<LockView>,
) {
    match done_step(s, FileRequest::Lock(h.handle, mode)) {
        (s1, Err(e)) => (s1, Err(contended(h.named, command, e))),
        (s1, Ok(_)) => (s1, Ok(LockView { directory: h, mode, command })),
    }
}

pub open spec fn acquire_path_run(
    s: FileSession,
    path: Seq<u8>,
    mode: LockMode,
    command: Seq<char>,
) -> (FileSession, Outcome<LockView>) {
    match open_run(s, path) {
        (s1, Err(e)) => (s1, Err(e)),
        (s1, Ok(h)) => acquire_run(s1, h, mode, command),
    }
}

impl GroveLock {
    /// Locks the directory at a path, without waiting for another holder.
    pub fn acquire_path<F: FileSystem + ?Sized>(
        files: &mut F,
        path: &[u8],
        mode: LockMode,
        command: &str,
    ) -> (r: Result<GroveLock>)
        ensures
            (final(files).files(), lock_outcome(r)) == acquire_path_run(
                old(files).files(),
                path@,
                mode,
                command@,
            ),
    {
        let directory = HeldDirectory::open(files, path)?;
        GroveLock::acquire(files, directory, mode, command)
    }

    /// Locks a directory that is held, without waiting for another holder.
    pub fn acquire<F: FileSystem + ?Sized>(
        files: &mut F,
        directory: HeldDirectory,
        mode: LockMode,
        command: &str,
    ) -> (r: Result<GroveLock>)
        ensures
            (final(files).files(), lock_outcome(r)) == acquire_run(
                old(files).files(),
                directory@,
                mode,
                command@,
            ),
    {
        match do_request(files, FileRequest::Lock(directory.handle, mode)) {
            Err(e) => Err(
                GroveError::needs_decision(
                    text("another git-grove command holds the repository lock at ").concat(
                        lossy(directory.path()).as_str(),
                    ),
                ).with_detail(
                    text("cannot start ").concat(command).concat(": ").concat(e.text.as_str()),
                ),
            ),
            Ok(_) => Ok(GroveLock { directory, mode, command: text(command) }),
        }
    }

    pub fn directory(&self) -> (r: &HeldDirectory)
        ensures
            r@ == self@.directory,
    {
        &self.directory
    }

    pub fn mode(&self) -> (r: LockMode)
        ensures
            r == self@.mode,
    {
        self.mode
    }

    pub fn command(&self) -> (r: &str)
        ensures
            r@ == self@.command,
    {
        self.command.as_str()
    }

    pub fn path(&self) -> (r: &[u8])
        ensures
            r@ == self@.directory.named,
    {
        self.directory.path()
    }
}

/// A lock is taken in the way that was asked for, on the directory that was asked for, and is held
/// only where the file system grants it; a lock that another command holds is for a person to decide
/// about.
pub proof fn locks_are_taken_as_asked(s: FileSession, h: HeldView, mode: LockMode, command: Seq<char>)
    ensures
        ({
            let request = FileRequest::Lock(h.handle, mode);
            let granted = (s.script)(s.calls.push(request)) is Done;
            let (s1, r) = acquire_run(s, h, mode, command);
            &&& s1.calls == s.calls.push(request)
            &&& r is Ok <==> granted
            &&& r is Ok ==> r->Ok_0.mode == mode && r->Ok_0.directory == h
            &&& r is Err ==> r->Err_0.class == ExitClass::NeedsDecision
        }),
{
}

} // verus!
