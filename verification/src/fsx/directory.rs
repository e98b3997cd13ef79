//! Directories that stay the same directory while they are held.
use vstd::prelude::*;
use crate::bytes::{copied, same};
use crate::error::{detailed, failure, needs_decision, plain, ErrorView, GroveError, Result};
use crate::fsx::below::{held_identity, held_identity_run, inventory, inventory_run};
use crate::fsx::files::{
    ask_bytes, ask_facts, ask_handle, ask_names, bytes_step, entries_outcome, facts_step,
    handle_step, names_step, FailureView, FileFacts, FileRequest, FileSession, FileSystem,
};
use crate::fsx::held::{FileIdentity, InventoryEntry};
use crate::git::config::Outcome;
use crate::text::{escape, escaped, text};

verus! {

/// What a directory is held for; it shows in what is said when the directory was replaced.
#[derive(Clone, Copy, Debug, PartialEq, Eq, Structural)]
pub enum During {
    Holding,
    Initializing,
}

/// A directory that is held open, the path it was opened under, and the path under which the
/// process reaches it whatever becomes of its name.
#[derive(Debug)]
pub struct HeldDirectory {
    pub handle: u64,
    pub named_path: Vec<u8>,
    pub anchored_path: Vec<u8>,
    pub identity: FileIdentity,
    pub during: During,
}

pub struct HeldView {
    pub handle: u64,
    pub named: Seq<u8>,
    pub anchored: Seq<u8>,
    pub identity: FileIdentity,
    pub during: During,
}

impl View for HeldDirectory {
    type V = HeldView;

    open spec fn view(&self) -> HeldView {
        HeldView {
            handle: self.handle,
            named: self.named_path@,
            anchored: self.anchored_path@,
            identity: self.identity,
            during: self.during,
        }
    }
}

pub open spec fn held_outcome(r: Result<HeldDirectory>) -> Outcome<HeldView> {
    match r {
        Ok(h) => Ok(h@),
        Err(e) => Err(e@),
    }
}

/// The name no longer leads anywhere.
pub open spec fn lost(h: HeldView, e: FailureView) -> ErrorView {
    match h.during {
        During::Holding => needs_decision(
            escape(h.named) + " changed while its directory was held: "@ + e.text,
        ),
        During::Initializing => detailed(
            needs_decision(escape(h.named) + " changed during initialization"@),
            "the held directory is retained; inspect it before retrying: "@ + e.text,
        ),
    }
}

/// The name leads to something else, or something else has come about.
pub open spec fn changed(h: HeldView, detail: Seq<char>) -> ErrorView {
    detailed(
        needs_decision(
            escape(h.named) + match h.during {
                During::Holding => " changed while its directory was held"@,
                During::Initializing => " changed during initialization"@,
            },
        ),
        detail,
    )
}

/// Whether the name still leads to the directory that is held.
pub open spec fn still_named(held: FileIdentity, named: FileFacts) -> bool {
    held.dev == named.device && held.ino == named.inode
}

/// Checking that the name still leads to the directory that is held.
pub open spec fn validate_run(s: FileSession, h: HeldView) -> (FileSession, Outcome<()>) {
    match held_identity_run(s, h.handle) {
        (s1, Err(e)) => (s1, Err(e)),
        (s1, Ok(held)) => match facts_step(s1, FileRequest::Inspect(h.named)) {
            (s2, Err(e)) => (s2, Err(lost(h, e))),
            (s2, Ok(named)) => if still_named(held, named) {
                (s2, Ok(()))
            } else {
                (s2, Err(changed(h, "the replacement was preserved"@)))
            },
        },
    }
}

pub open spec fn unreadable(h: HeldView, e: FailureView) -> ErrorView {
    failure("cannot read "@ + escape(h.named) + ": "@ + e.text)
}

/// Checking that a held directory is empty, and still the one that is named.
pub open spec fn empty_run(s: FileSession, h: HeldView) -> (FileSession, Outcome<()>) {
    match validate_run(s, h) {
        (s1, Err(e)) => (s1, Err(e)),
        (s1, Ok(_)) => match names_step(s1, FileRequest::List(h.anchored)) {
            (s2, Err(e)) => (s2, Err(unreadable(h, e))),
            (s2, Ok(names)) => if names.len() > 0 {
                (
                    s2,
                    Err(
                        detailed(
                            needs_decision(escape(h.named) + " is not empty"@),
                            "use `git grove adopt` to convert an existing repository"@,
                        ),
                    ),
                )
            } else {
                validate_run(s2, h)
            },
        },
    }
}

/// Checking that a held directory holds one entry only, and is still the one that is named.
pub open spec fn only_entry_run(s: FileSession, h: HeldView, expected: Seq<u8>) -> (
    FileSession,
    Outcome<()>,
) {
    match validate_run(s, h) {
        (s1, Err(e)) => (s1, Err(e)),
        (s1, Ok(_)) => match names_step(s1, FileRequest::List(h.anchored)) {
            (s2, Err(e)) => (s2, Err(unreadable(h, e))),
            (s2, Ok(names)) => if names.len() == 1 && names[0] == expected {
                validate_run(s2, h)
            } else {
                (s2, Err(changed(h, "the concurrently created entries were preserved"@)))
            },
        },
    }
}

/// Taking hold of a directory that is open already.
pub open spec fn take_run(s: FileSession, handle: u64, named: Seq<u8>, during: During) -> (
    FileSession,
    Outcome<HeldView>,
) {
    match bytes_step(s, FileRequest::AnchoredPath(handle)) {
        (s1, Err(e)) => (s1, Err(failure("cannot inspect held directory: "@ + e.text))),
        (s1, Ok(anchored)) => match held_identity_run(s1, handle) {
            (s2, Err(e)) => (s2, Err(e)),
            (s2, Ok(identity)) => {
                let held = HeldView { handle, named, anchored, identity, during };
                match validate_run(s2, held) {
                    (s3, Err(e)) => (s3, Err(e)),
                    (s3, Ok(_)) => (s3, Ok(held)),
                }
            },
        },
    }
}

/// Opening a directory that is no link, and holding it.
pub open spec fn open_run(s: FileSession, path: Seq<u8>) -> (FileSession, Outcome<HeldView>) {
    match handle_step(s, FileRequest::OpenDirectory(path)) {
        (s1, Err(e)) => (
            s1,
            Err(
                needs_decision(
                    "cannot open "@ + escape(path) + " without following symlinks: "@ + e.text,
                ),
            ),
        ),
        (s1, Ok(handle)) => take_run(s1, handle, path, During::Holding),
    }
}

pub open spec fn kernel_path_run(s: FileSession, h: HeldView) -> (FileSession, Outcome<Seq<u8>>) {
    match bytes_step(s, FileRequest::KernelPath(h.handle)) {
        (s1, Err(e)) => (
            s1,
            Err(failure("cannot resolve held directory "@ + escape(h.named) + ": "@ + e.text)),
        ),
        (s1, Ok(path)) => (s1, Ok(path)),
    }
}

impl HeldDirectory {
    /// Opens a directory that is no link, and holds it.
    pub fn open<F: FileSystem + ?Sized>(files: &mut F, path: &[u8]) -> (r: Result<HeldDirectory>)
        ensures
            (final(files).files(), held_outcome(r)) == open_run(old(files).files(), path@),
    {
        match ask_handle(files, FileRequest::OpenDirectory(copied(path))) {
            Err(e) => Err(
                GroveError::needs_decision(
                    text("cannot open ").concat(escaped(path).as_str()).concat(
                        " without following symlinks: ",
                    ).concat(e.text.as_str()),
                ),
            ),
            Ok(handle) => HeldDirectory::take(files, handle, path, During::Holding),
        }
    }

    /// Takes hold of a directory that is open already.
    pub fn take<F: FileSystem + ?Sized>(
        files: &mut F,
        handle: u64,
        named_path: &[u8],
        during: During,
    ) -> (r: Result<HeldDirectory>)
        ensures
            (final(files).files(), held_outcome(r)) == take_run(
                old(files).files(),
                handle,
                named_path@,
                during,
            ),
    {
        let anchored_path = match ask_bytes(files, FileRequest::AnchoredPath(handle)) {
            Err(e) => return Err(
                GroveError::failure(
                    text("cannot inspect held directory: ").concat(e.text.as_str()),
                ),
            ),
            Ok(path) => path,
        };
        let identity = held_identity(files, handle)?;
        let held = HeldDirectory {
            handle,
            named_path: copied(named_path),
            anchored_path,
            identity,
            during,
        };
        held.validate(files)?;
        Ok(held)
    }

    /// A copy of what is known of the directory, under the same handle.
    pub fn copied(&self) -> (r: HeldDirectory)
        ensures
            r@ == self@,
    {
        HeldDirectory {
            handle: self.handle,
            named_path: copied(self.named_path.as_slice()),
            anchored_path: copied(self.anchored_path.as_slice()),
            identity: self.identity,
            during: self.during,
        }
    }

    /// The path the directory was opened under.
    pub fn path(&self) -> (r: &[u8])
        ensures
            r@ == self@.named,
    {
        self.named_path.as_slice()
    }

    /// The path that the system itself has for the directory.
    pub fn kernel_path<F: FileSystem + ?Sized>(&self, files: &mut F) -> (r: Result<Vec<u8>>)
        ensures
            (final(files).files(), crate::error::bytes_outcome(r)) == kernel_path_run(
                old(files).files(),
                self@,
            ),
    {
        match ask_bytes(files, FileRequest::KernelPath(self.handle)) {
            Err(e) => Err(
                GroveError::failure(
                    text("cannot resolve held directory ").concat(
                        escaped(self.named_path.as_slice()).as_str(),
                    ).concat(": ").concat(e.text.as_str()),
                ),
            ),
            Ok(path) => Ok(path),
        }
    }

    /// What identifies the directory now.
    pub fn identity<F: FileSystem + ?Sized>(&self, files: &mut F) -> (r: Result<FileIdentity>)
        ensures
            (final(files).files(), plain(r)) == held_identity_run(old(files).files(), self@.handle),
    {
        held_identity(files, self.handle)
    }

    /// What identified the directory when it was taken hold of.
    pub fn original_identity(&self) -> (r: FileIdentity)
        ensures
            r == self@.identity,
    {
        self.identity
    }

    /// Every entry below the directory.
    pub fn inventory<F: FileSystem + ?Sized>(&self, files: &mut F) -> (r: Result<
        Vec<InventoryEntry>,
    >)
        ensures
            (final(files).files(), entries_outcome(r)) == inventory_run(old(files).files(), self@.handle),
    {
        inventory(files, self.handle)
    }

    fn changed(&self, detail: &str) -> (r: GroveError)
        ensures
            r@ == changed(self@, detail@),
    {
        let named = escaped(self.named_path.as_slice());
        let message = match self.during {
            During::Holding => named.concat(" changed while its directory was held"),
            During::Initializing => named.concat(" changed during initialization"),
        };
        GroveError::needs_decision(message).with_detail(text(detail))
    }

    /// Checks that the path still leads to the directory that is held.
    pub fn validate<F: FileSystem + ?Sized>(&self, files: &mut F) -> (r: Result<()>)
        ensures
            (final(files).files(), plain(r)) == validate_run(old(files).files(), self@),
    {
        let held = held_identity(files, self.handle)?;
        match ask_facts(files, FileRequest::Inspect(copied(self.named_path.as_slice()))) {
            Err(e) => {
                let named = escaped(self.named_path.as_slice());
                match self.during {
                    During::Holding => Err(
                        GroveError::needs_decision(
                            named.concat(" changed while its directory was held: ").concat(
                                e.text.as_str(),
                            ),
                        ),
                    ),
                    During::Initializing => Err(
                        GroveError::needs_decision(
                            named.concat(" changed during initialization"),
                        ).with_detail(
                            text(
                                "the held directory is retained; inspect it before retrying: ",
                            ).concat(e.text.as_str()),
                        ),
                    ),
                }
            },
            Ok(named) => {
                if held.dev == named.device && held.ino == named.inode {
                    Ok(())
                } else {
                    Err(self.changed("the replacement was preserved"))
                }
            },
        }
    }

    /// The names in the directory.
    fn names<F: FileSystem + ?Sized>(&self, files: &mut F) -> (r: Result<Vec<Vec<u8>>>)
        ensures
            (final(files).files(), crate::error::list_outcome(r)) == match names_step(
                old(files).files(),
                FileRequest::List(self@.anchored),
            ) {
                (s1, Err(e)) => (s1, Err(unreadable(self@, e))),
                (s1, Ok(names)) => (s1, Ok(names)),
            },
    {
        match ask_names(files, FileRequest::List(copied(self.anchored_path.as_slice()))) {
            Err(e) => Err(
                GroveError::failure(
                    text("cannot read ").concat(
                        escaped(self.named_path.as_slice()).as_str(),
                    ).concat(": ").concat(e.text.as_str()),
                ),
            ),
            Ok(names) => Ok(names),
        }
    }

    /// Checks that the directory is empty, and still the one that is named.
    pub fn ensure_empty<F: FileSystem + ?Sized>(&self, files: &mut F) -> (r: Result<()>)
        ensures
            (final(files).files(), plain(r)) == empty_run(old(files).files(), self@),
    {
        self.validate(files)?;
        let names = self.names(files)?;
        if names.len() > 0 {
            return Err(
                GroveError::needs_decision(
                    escaped(self.named_path.as_slice()).concat(" is not empty"),
                ).with_detail(text("use `git grove adopt` to convert an existing repository")),
            );
        }
        self.validate(files)
    }

    /// Checks that the directory holds one entry only, and is still the one that is named.
    pub fn ensure_only_entry<F: FileSystem + ?Sized>(&self, files: &mut F, expected: &[u8]) -> (r:
        Result<()>)
        ensures
            (final(files).files(), plain(r)) == only_entry_run(
                old(files).files(),
                self@,
                expected@,
            ),
    {
        self.validate(files)?;
        let names = self.names(files)?;
        if names.len() != 1 || !same(names[0].as_slice(), expected) {
            return Err(self.changed("the concurrently created entries were preserved"));
        }
        self.validate(files)
    }
}

/// A directory that passes the check goes by the identity it is held under: device and inode of
/// the name agree with those of what is held.
pub proof fn a_validated_name_leads_to_the_held_directory(s: FileSession, h: HeldView)
    requires
        validate_run(s, h).1 is Ok,
    ensures
        ({
            let (s1, held) = held_identity_run(s, h.handle);
            let (s2, named) = facts_step(s1, FileRequest::Inspect(h.named));
            held is Ok && named is Ok && held->Ok_0.dev == named->Ok_0.device && held->Ok_0.ino
                == named->Ok_0.inode && validate_run(s, h).0 == s2
        }),
{
}

} // verus!
