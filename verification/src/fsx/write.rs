//! Putting a file in place at once, or not at all.
//!
//! The contents go into a temporary file, which is made durable and then takes the place of
//! whatever the path named, or, where nothing may be replaced, takes a vacant place. A named
//! temporary file that cannot be put in place is kept, and the error says where.
use vstd::prelude::*;
use vstd::utf8::encode_utf8;
use crate::bytes::{bytes_of, copied, lit, opt_view, same};
use crate::error::{error_text, failure, plain, ErrorView, GroveError, Result};
use crate::fsx::files::{
    ask_bytes, ask_facts, ask_handle, bytes_step, do_request, done_step, facts_step, handle_step,
    FailureKind, FailureView, FileRequest, FileSession, FileSystem, IoFailure,
};
use crate::fsx::nonce::{hex_nonce, possible_nonce, some_nonce};
use crate::git::config::Outcome;
use crate::path::{child, file_name, join_path, last_name, parent_of, parent_path};
use crate::text::{lossy, lossy_text, text};

verus! {

/// How often a temporary name is drawn anew when it is taken.
pub const TEMP_NAME_ATTEMPTS: u64 = 16;

/// Whether a temporary file may go without a name.
#[derive(Clone, Copy, Debug, PartialEq, Eq, Structural)]
pub enum TempStrategy {
    /// It goes without a name where the file system can do that.
    Auto,
    NamedOnly,
}

pub type Nonces = Seq<Outcome<Seq<char>>>;

/// Whether every one of these can be drawn.
pub open spec fn possible_nonces(drawn: Nonces) -> bool {
    forall|i: int| 0 <= i < drawn.len() ==> possible_nonce(#[trigger] drawn[i])
}

/// What one write draws: for the name a temporary file is created under, and for the name that
/// one without a name is given. No write needs both.
pub struct Draws {
    pub created: Nonces,
    pub linked: Nonces,
}

/// Whether all of it can be drawn.
pub open spec fn possible_draws(d: Draws) -> bool {
    possible_nonces(d.created) && possible_nonces(d.linked)
}

pub open spec fn next_nonce(drawn: Nonces) -> Outcome<Seq<char>> {
    if drawn.len() > 0 {
        drawn[0]
    } else {
        some_nonce()
    }
}

pub open spec fn other_nonces(drawn: Nonces) -> Nonces {
    if drawn.len() > 0 {
        drawn.subrange(1, drawn.len() as int)
    } else {
        drawn
    }
}

pub open spec fn io_error(path: Seq<u8>, action: &str, e: FailureView) -> ErrorView {
    failure("cannot "@ + action@ + " "@ + lossy_text(path) + ": "@ + e.text)
}

/// Says which action on which path failed, and how.
pub fn io(path: &[u8], action: &str, error: &IoFailure) -> (r: GroveError)
    ensures
        r@ == io_error(path@, action, error@),
{
    GroveError::failure(
        text("cannot ").concat(action).concat(" ").concat(lossy(path).as_str()).concat(
            ": ",
        ).concat(error.text.as_str()),
    )
}

/// The directory that a path lies in and its name there.
pub open spec fn split_of(path: Seq<u8>) -> Outcome<(Seq<u8>, Seq<u8>)> {
    match last_name(path) {
        None => Err(failure(lossy_text(path) + " has no file name"@)),
        Some(name) => match parent_of(path) {
            None => Ok((lit("."), name)),
            Some(parent) => if parent.len() == 0 {
                Ok((lit("."), name))
            } else {
                Ok((parent, name))
            },
        },
    }
}

pub open spec fn split_outcome(r: Result<(Vec<u8>, Vec<u8>)>) -> Outcome<(Seq<u8>, Seq<u8>)> {
    match r {
        Ok(v) => Ok((v.0@, v.1@)),
        Err(e) => Err(e@),
    }
}

/// Takes a path apart into its directory and its name there.
pub fn split_path(path: &[u8]) -> (r: Result<(Vec<u8>, Vec<u8>)>)
    ensures
        split_outcome(r) == split_of(path@),
{
    let name = match file_name(path) {
        None => return Err(GroveError::failure(lossy(path).concat(" has no file name"))),
        Some(name) => name,
    };
    match parent_path(path) {
        None => Ok((bytes_of("."), name)),
        Some(parent) => if parent.len() == 0 {
            Ok((bytes_of("."), name))
        } else {
            Ok((parent, name))
        },
    }
}

pub open spec fn temporary_of(nonce: Seq<char>) -> Seq<u8> {
    encode_utf8(".git-grove-tmp-"@ + nonce)
}

/// A fresh name for a temporary file.
fn temporary_name() -> (r: Result<Vec<u8>>)
    ensures
        exists|nonce: Outcome<Seq<char>>| #[trigger]
            possible_nonce(nonce) && match (nonce, r) {
                (Ok(t), Ok(name)) => name@ == temporary_of(t),
                (Err(e), Err(e1)) => e == e1@,
                _ => false,
            },
{
    match hex_nonce() {
        Ok(digits) => {
            proof {
                assert(possible_nonce(Ok::<Seq<char>, ErrorView>(digits@)));
            }
            Ok(bytes_of(text(".git-grove-tmp-").concat(digits.as_str()).as_str()))
        },
        Err(e) => {
            proof {
                assert(possible_nonce(Err::<Seq<char>, ErrorView>(e@)));
            }
            Err(e)
        },
    }
}

pub open spec fn no_unique(parent: Seq<u8>) -> ErrorView {
    failure("cannot create a unique temporary file in "@ + lossy_text(parent))
}

fn no_unique_name(parent: &[u8]) -> (r: GroveError)
    ensures
        r@ == no_unique(parent@),
{
    GroveError::failure(
        text("cannot create a unique temporary file in ").concat(lossy(parent).as_str()),
    )
}

/// A temporary file: how it is held and, if it has one, its name.
pub struct Temporary {
    pub file: u64,
    pub name: Option<Vec<u8>>,
}

pub struct TemporaryView {
    pub file: u64,
    pub name: Option<Seq<u8>>,
}

impl View for Temporary {
    type V = TemporaryView;

    open spec fn view(&self) -> TemporaryView {
        TemporaryView { file: self.file, name: opt_view(self.name) }
    }
}

pub open spec fn temporary_outcome(r: Result<Temporary>) -> Outcome<TemporaryView> {
    match r {
        Ok(t) => Ok(t@),
        Err(e) => Err(e@),
    }
}

pub open spec fn name_outcome(r: Result<Vec<u8>>) -> Outcome<Seq<u8>> {
    match r {
        Ok(n) => Ok(n@),
        Err(e) => Err(e@),
    }
}

/// Creating a named temporary file, with some draws left.
pub open spec fn create_named_run(
    s: FileSession,
    directory: u64,
    parent: Seq<u8>,
    left: nat,
    drawn: Nonces,
) -> (FileSession, Outcome<TemporaryView>)
    decreases left,
{
    if left == 0 {
        (s, Err(no_unique(parent)))
    } else {
        match next_nonce(drawn) {
            Err(e) => (s, Err(e)),
            Ok(t) => match handle_step(s, FileRequest::CreateNamed(directory, temporary_of(t))) {
                (s1, Ok(file)) => (
                    s1,
                    Ok(TemporaryView { file, name: Some(temporary_of(t)) }),
                ),
                (s1, Err(e)) => if e.kind == FailureKind::AlreadyExists {
                    create_named_run(
                        s1,
                        directory,
                        parent,
                        (left - 1) as nat,
                        other_nonces(drawn),
                    )
                } else {
                    (s1, Err(io_error(parent, "create temporary file", e)))
                },
            },
        }
    }
}

proof fn lemma_nonce_in_front(nonce: Outcome<Seq<char>>, rest: Nonces)
    requires
        possible_nonce(nonce),
        possible_nonces(rest),
    ensures
        possible_nonces(seq![nonce] + rest),
        next_nonce(seq![nonce] + rest) == nonce,
        other_nonces(seq![nonce] + rest) == rest,
{
    let all = seq![nonce] + rest;
    assert(all.subrange(1, all.len() as int) =~= rest);
    assert forall|i: int| 0 <= i < all.len() implies possible_nonce(#[trigger] all[i]) by {
        if i > 0 {
            assert(all[i] == rest[i - 1]);
        }
    }
}

fn create_named_temporary<F: FileSystem + ?Sized>(
    files: &mut F,
    directory: u64,
    parent: &[u8],
    left: u64,
) -> (r: Result<Temporary>)
    ensures
        exists|drawn: Nonces|
            possible_nonces(drawn) && (final(files).files(), temporary_outcome(r))
                == #[trigger] create_named_run(
                old(files).files(),
                directory,
                parent@,
                left as nat,
                drawn,
            ),
    decreases left,
{
    let ghost start = files.files();
    let ghost none: Nonces = seq![];
    if left == 0 {
        let e = no_unique_name(parent);
        proof {
            assert(possible_nonces(none));
            assert((start, Err::<TemporaryView, ErrorView>(e@)) == create_named_run(
                start,
                directory,
                parent@,
                0,
                none,
            ));
        }
        return Err(e);
    }
    let drawn_name = temporary_name();
    let ghost nonce = choose|nonce: Outcome<Seq<char>>| #[trigger]
        possible_nonce(nonce) && match (nonce, drawn_name) {
            (Ok(t), Ok(name)) => name@ == temporary_of(t),
            (Err(e), Err(e1)) => e == e1@,
            _ => false,
        };
    let ghost alone = seq![nonce] + none;
    proof {
        lemma_nonce_in_front(nonce, none);
    }
    let name = match drawn_name {
        Err(e) => {
            proof {
                assert((start, Err::<TemporaryView, ErrorView>(e@)) == create_named_run(
                    start,
                    directory,
                    parent@,
                    left as nat,
                    alone,
                ));
            }
            return Err(e);
        },
        Ok(name) => name,
    };
    match ask_handle(files, FileRequest::CreateNamed(directory, copied(name.as_slice()))) {
        Ok(file) => {
            let t = Temporary { file, name: Some(name) };
            proof {
                assert((files.files(), Ok::<TemporaryView, ErrorView>(t@)) == create_named_run(
                    start,
                    directory,
                    parent@,
                    left as nat,
                    alone,
                ));
            }
            Ok(t)
        },
        Err(e) => {
            if e.kind == FailureKind::AlreadyExists {
                let ghost middle = files.files();
                let r = create_named_temporary(files, directory, parent, left - 1);
                proof {
                    let rest = choose|drawn: Nonces|
                        possible_nonces(drawn) && (files.files(), temporary_outcome(r))
                            == #[trigger] create_named_run(
                            middle,
                            directory,
                            parent@,
                            (left - 1) as nat,
                            drawn,
                        );
                    lemma_nonce_in_front(nonce, rest);
                    assert((files.files(), temporary_outcome(r)) == create_named_run(
                        start,
                        directory,
                        parent@,
                        left as nat,
                        seq![nonce] + rest,
                    ));
                }
                r
            } else {
                let failed = io(parent, "create temporary file", &e);
                proof {
                    assert((files.files(), Err::<TemporaryView, ErrorView>(failed@))
                        == create_named_run(start, directory, parent@, left as nat, alone));
                }
                Err(failed)
            }
        },
    }
}

/// Giving an unnamed temporary file a name, with some draws left.
pub open spec fn link_run(
    s: FileSession,
    file: u64,
    directory: u64,
    parent: Seq<u8>,
    left: nat,
    drawn: Nonces,
) -> (FileSession, Outcome<Seq<u8>>)
    decreases left,
{
    if left == 0 {
        (s, Err(no_unique(parent)))
    } else {
        match next_nonce(drawn) {
            Err(e) => (s, Err(e)),
            Ok(t) => match done_step(s, FileRequest::Link(file, directory, temporary_of(t))) {
                (s1, Ok(_)) => (s1, Ok(temporary_of(t))),
                (s1, Err(e)) => if e.kind == FailureKind::AlreadyExists {
                    link_run(s1, file, directory, parent, (left - 1) as nat, other_nonces(drawn))
                } else {
                    (s1, Err(io_error(parent, "link temporary file", e)))
                },
            },
        }
    }
}

fn link_temporary_file<F: FileSystem + ?Sized>(
    files: &mut F,
    file: u64,
    directory: u64,
    parent: &[u8],
    left: u64,
) -> (r: Result<Vec<u8>>)
    ensures
        exists|drawn: Nonces|
            possible_nonces(drawn) && (final(files).files(), name_outcome(r))
                == #[trigger] link_run(
                old(files).files(),
                file,
                directory,
                parent@,
                left as nat,
                drawn,
            ),
    decreases left,
{
    let ghost start = files.files();
    let ghost none: Nonces = seq![];
    if left == 0 {
        let e = no_unique_name(parent);
        proof {
            assert(possible_nonces(none));
            assert((start, Err::<Seq<u8>, ErrorView>(e@)) == link_run(
                start,
                file,
                directory,
                parent@,
                0,
                none,
            ));
        }
        return Err(e);
    }
    let drawn_name = temporary_name();
    let ghost nonce = choose|nonce: Outcome<Seq<char>>| #[trigger]
        possible_nonce(nonce) && match (nonce, drawn_name) {
            (Ok(t), Ok(name)) => name@ == temporary_of(t),
            (Err(e), Err(e1)) => e == e1@,
            _ => false,
        };
    let ghost alone = seq![nonce] + none;
    proof {
        lemma_nonce_in_front(nonce, none);
    }
    let name = match drawn_name {
        Err(e) => {
            proof {
                assert((start, Err::<Seq<u8>, ErrorView>(e@)) == link_run(
                    start,
                    file,
                    directory,
                    parent@,
                    left as nat,
                    alone,
                ));
            }
            return Err(e);
        },
        Ok(name) => name,
    };
    match do_request(files, FileRequest::Link(file, directory, copied(name.as_slice()))) {
        Ok(_) => {
            proof {
                assert((files.files(), Ok::<Seq<u8>, ErrorView>(name@)) == link_run(
                    start,
                    file,
                    directory,
                    parent@,
                    left as nat,
                    alone,
                ));
            }
            Ok(name)
        },
        Err(e) => {
            if e.kind == FailureKind::AlreadyExists {
                let ghost middle = files.files();
                let r = link_temporary_file(files, file, directory, parent, left - 1);
                proof {
                    let rest = choose|drawn: Nonces|
                        possible_nonces(drawn) && (files.files(), name_outcome(r))
                            == #[trigger] link_run(
                            middle,
                            file,
                            directory,
                            parent@,
                            (left - 1) as nat,
                            drawn,
                        );
                    lemma_nonce_in_front(nonce, rest);
                    assert((files.files(), name_outcome(r)) == link_run(
                        start,
                        file,
                        directory,
                        parent@,
                        left as nat,
                        seq![nonce] + rest,
                    ));
                }
                r
            } else {
                let failed = io(parent, "link temporary file", &e);
                proof {
                    assert((files.files(), Err::<Seq<u8>, ErrorView>(failed@)) == link_run(
                        start,
                        file,
                        directory,
                        parent@,
                        left as nat,
                        alone,
                    ));
                }
                Err(failed)
            }
        },
    }
}

/// Creating a temporary file: without a name where that is wanted and can be had.
pub open spec fn create_temporary_run(
    s: FileSession,
    directory: u64,
    parent: Seq<u8>,
    strategy: TempStrategy,
    drawn: Nonces,
) -> (FileSession, Outcome<TemporaryView>) {
    match strategy {
        TempStrategy::NamedOnly => create_named_run(
            s,
            directory,
            parent,
            TEMP_NAME_ATTEMPTS as nat,
            drawn,
        ),
        TempStrategy::Auto => match handle_step(s, FileRequest::CreateUnnamed(directory)) {
            (s1, Ok(file)) => (s1, Ok(TemporaryView { file, name: None })),
            (s1, Err(e)) => if e.kind == FailureKind::Unsupported || e.kind
                == FailureKind::InvalidInput {
                create_named_run(s1, directory, parent, TEMP_NAME_ATTEMPTS as nat, drawn)
            } else {
                (s1, Err(io_error(parent, "create temporary file", e)))
            },
        },
    }
}

fn create_temporary<F: FileSystem + ?Sized>(
    files: &mut F,
    directory: u64,
    parent: &[u8],
    strategy: TempStrategy,
) -> (r: Result<Temporary>)
    ensures
        exists|drawn: Nonces|
            possible_nonces(drawn) && (final(files).files(), temporary_outcome(r))
                == #[trigger] create_temporary_run(
                old(files).files(),
                directory,
                parent@,
                strategy,
                drawn,
            ),
{
    let ghost start = files.files();
    let ghost none: Nonces = seq![];
    if strategy == TempStrategy::Auto {
        match ask_handle(files, FileRequest::CreateUnnamed(directory)) {
            Ok(file) => {
                let t = Temporary { file, name: None };
                proof {
                    assert(possible_nonces(none));
                    assert((files.files(), Ok::<TemporaryView, ErrorView>(t@))
                        == create_temporary_run(start, directory, parent@, strategy, none));
                }
                return Ok(t);
            },
            Err(e) => {
                if e.kind != FailureKind::Unsupported && e.kind != FailureKind::InvalidInput {
                    let failed = io(parent, "create temporary file", &e);
                    proof {
                        assert(possible_nonces(none));
                        assert((files.files(), Err::<TemporaryView, ErrorView>(failed@))
                            == create_temporary_run(start, directory, parent@, strategy, none));
                    }
                    return Err(failed);
                }
            },
        }
    }
    let ghost middle = files.files();
    let r = create_named_temporary(files, directory, parent, TEMP_NAME_ATTEMPTS);
    proof {
        let drawn = choose|drawn: Nonces|
            possible_nonces(drawn) && (files.files(), temporary_outcome(r))
                == #[trigger] create_named_run(
                middle,
                directory,
                parent@,
                TEMP_NAME_ATTEMPTS as nat,
                drawn,
            );
        assert((files.files(), temporary_outcome(r)) == create_temporary_run(
            start,
            directory,
            parent@,
            strategy,
            drawn,
        ));
    }
    r
}

/// Giving up on a temporary file: one with a name is kept, durably, and the error names it.
pub open spec fn retain_run(
    s: FileSession,
    original: ErrorView,
    name: Option<Seq<u8>>,
    directory: u64,
    parent: Seq<u8>,
) -> (FileSession, ErrorView) {
    match name {
        None => (s, original),
        Some(n) => match done_step(s, FileRequest::Sync(directory)) {
            (s1, Ok(_)) => (
                s1,
                failure(
                    error_text(original) + "; retained temporary file "@ + lossy_text(
                        child(parent, n),
                    ),
                ),
            ),
            (s1, Err(e)) => (
                s1,
                failure(
                    error_text(original) + "; retained temporary file "@ + lossy_text(
                        child(parent, n),
                    ) + "; additionally "@ + error_text(io_error(parent, "fsync directory", e)),
                ),
            ),
        },
    }
}

fn retain_temporary<F: FileSystem + ?Sized>(
    files: &mut F,
    original: GroveError,
    name: &Option<Vec<u8>>,
    directory: u64,
    parent: &[u8],
) -> (r: GroveError)
    ensures
        (final(files).files(), r@) == retain_run(
            old(files).files(),
            original@,
            opt_view(*name),
            directory,
            parent@,
        ),
{
    let name = match name {
        None => return original,
        Some(name) => name,
    };
    let retained = lossy(join_path(parent, name.as_slice()).as_slice());
    match do_request(files, FileRequest::Sync(directory)) {
        Ok(_) => GroveError::failure(
            original.to_text().concat("; retained temporary file ").concat(retained.as_str()),
        ),
        Err(e) => GroveError::failure(
            original.to_text().concat("; retained temporary file ").concat(
                retained.as_str(),
            ).concat("; additionally ").concat(
                io(parent, "fsync directory", &e).to_text().as_str(),
            ),
        ),
    }
}

/// Filling a temporary file and making it durable.
pub open spec fn fill_run(
    s: FileSession,
    path: Seq<u8>,
    contents: Seq<u8>,
    temporary: TemporaryView,
    directory: u64,
    parent: Seq<u8>,
) -> (FileSession, Outcome<()>) {
    match done_step(s, FileRequest::Write(temporary.file, contents)) {
        (s1, Err(e)) => {
            let (s2, kept) = retain_run(
                s1,
                io_error(path, "write temporary file", e),
                temporary.name,
                directory,
                parent,
            );
            (s2, Err(kept))
        },
        (s1, Ok(_)) => match done_step(s1, FileRequest::Sync(temporary.file)) {
            (s2, Err(e)) => {
                let (s3, kept) = retain_run(
                    s2,
                    io_error(path, "fsync temporary file", e),
                    temporary.name,
                    directory,
                    parent,
                );
                (s3, Err(kept))
            },
            (s2, Ok(_)) => (s2, Ok(())),
        },
    }
}

fn fill<F: FileSystem + ?Sized>(
    files: &mut F,
    path: &[u8],
    contents: &[u8],
    temporary: &Temporary,
    directory: u64,
    parent: &[u8],
) -> (r: Result<()>)
    ensures
        (final(files).files(), plain(r)) == fill_run(
            old(files).files(),
            path@,
            contents@,
            temporary@,
            directory,
            parent@,
        ),
{
    match do_request(files, FileRequest::Write(temporary.file, copied(contents))) {
        Err(e) => {
            return Err(
                retain_temporary(
                    files,
                    io(path, "write temporary file", &e),
                    &temporary.name,
                    directory,
                    parent,
                ),
            );
        },
        Ok(_) => {},
    }
    match do_request(files, FileRequest::Sync(temporary.file)) {
        Err(e) => {
            return Err(
                retain_temporary(
                    files,
                    io(path, "fsync temporary file", &e),
                    &temporary.name,
                    directory,
                    parent,
                ),
            );
        },
        Ok(_) => {},
    }
    Ok(())
}

pub open spec fn synced_run(s: FileSession, directory: u64, parent: Seq<u8>) -> (
    FileSession,
    Outcome<()>,
) {
    match done_step(s, FileRequest::Sync(directory)) {
        (s1, Ok(_)) => (s1, Ok(())),
        (s1, Err(e)) => (s1, Err(io_error(parent, "fsync directory", e))),
    }
}

/// Makes the entries of a held directory durable.
pub fn fsync_directory<F: FileSystem + ?Sized>(files: &mut F, directory: u64, parent: &[u8]) -> (r:
    Result<()>)
    ensures
        (final(files).files(), plain(r)) == synced_run(old(files).files(), directory, parent@),
{
    match do_request(files, FileRequest::Sync(directory)) {
        Ok(_) => Ok(()),
        Err(e) => Err(io(parent, "fsync directory", &e)),
    }
}

/// Making the entries of a directory durable, by its path.
pub open spec fn fsync_dir_run(s: FileSession, path: Seq<u8>) -> (FileSession, Outcome<()>) {
    match handle_step(s, FileRequest::OpenParent(path)) {
        (s1, Err(e)) => (s1, Err(io_error(path, "open directory", e))),
        (s1, Ok(directory)) => synced_run(s1, directory, path),
    }
}

/// Makes the entries of a directory durable.
pub fn fsync_dir<F: FileSystem + ?Sized>(files: &mut F, path: &[u8]) -> (r: Result<()>)
    ensures
        (final(files).files(), plain(r)) == fsync_dir_run(old(files).files(), path@),
{
    match ask_handle(files, FileRequest::OpenParent(copied(path))) {
        Err(e) => Err(io(path, "open directory", &e)),
        Ok(directory) => fsync_directory(files, directory, path),
    }
}

// -------------------------------------------------------------- replacing a file

/// Putting a filled temporary file in the place of whatever the name stands for.
pub open spec fn replace_run(
    s: FileSession,
    path: Seq<u8>,
    temporary: TemporaryView,
    directory: u64,
    parent: Seq<u8>,
    destination: Seq<u8>,
    drawn: Nonces,
) -> (FileSession, Outcome<()>) {
    let (s1, named) = match temporary.name {
        Some(name) => (s, Ok::<Seq<u8>, ErrorView>(name)),
        None => link_run(
            s,
            temporary.file,
            directory,
            parent,
            TEMP_NAME_ATTEMPTS as nat,
            drawn,
        ),
    };
    match named {
        Err(e) => (s1, Err(e)),
        Ok(name) => match done_step(s1, FileRequest::Replace(directory, name, destination)) {
            (s2, Err(e)) => {
                let (s3, kept) = retain_run(
                    s2,
                    io_error(path, "rename into place", e),
                    Some(name),
                    directory,
                    parent,
                );
                (s3, Err(kept))
            },
            (s2, Ok(_)) => synced_run(s2, directory, parent),
        },
    }
}

/// Writing a file in a directory that is held.
pub open spec fn write_in_run(
    s: FileSession,
    path: Seq<u8>,
    contents: Seq<u8>,
    directory: u64,
    parent: Seq<u8>,
    destination: Seq<u8>,
    strategy: TempStrategy,
    d: Draws,
) -> (FileSession, Outcome<()>) {
    match create_temporary_run(s, directory, parent, strategy, d.created) {
        (s1, Err(e)) => (s1, Err(e)),
        (s1, Ok(temporary)) => match fill_run(s1, path, contents, temporary, directory, parent) {
            (s2, Err(e)) => (s2, Err(e)),
            (s2, Ok(_)) => replace_run(
                s2,
                path,
                temporary,
                directory,
                parent,
                destination,
                d.linked,
            ),
        },
    }
}

/// Writes a file in a directory that is held, at once or not at all.
pub fn write_atomic_in<F: FileSystem + ?Sized>(
    files: &mut F,
    directory: u64,
    parent: &[u8],
    path: &[u8],
    destination: &[u8],
    contents: &[u8],
    strategy: TempStrategy,
) -> (r: Result<()>)
    ensures
        exists|d: Draws|
            possible_draws(d) && (final(files).files(), plain(r))
                == #[trigger] write_in_run(
                old(files).files(),
                path@,
                contents@,
                directory,
                parent@,
                destination@,
                strategy,
                d,
            ),
{
    let ghost start = files.files();
    let ghost none: Nonces = seq![];
    let created = create_temporary(files, directory, parent, strategy);
    let ghost drawn = choose|drawn: Nonces|
        possible_nonces(drawn) && (files.files(), temporary_outcome(created))
            == #[trigger] create_temporary_run(start, directory, parent@, strategy, drawn);
    proof {
        assert(possible_nonces(none));
    }
    let temporary = match created {
        Err(e) => {
            proof {
                assert((files.files(), Err::<(), ErrorView>(e@)) == write_in_run(
                    start,
                    path@,
                    contents@,
                    directory,
                    parent@,
                    destination@,
                    strategy,
                    Draws { created: drawn, linked: none },
                ));
            }
            return Err(e);
        },
        Ok(temporary) => temporary,
    };
    match fill(files, path, contents, &temporary, directory, parent) {
        Err(e) => {
            proof {
                assert((files.files(), Err::<(), ErrorView>(e@)) == write_in_run(
                    start,
                    path@,
                    contents@,
                    directory,
                    parent@,
                    destination@,
                    strategy,
                    Draws { created: drawn, linked: none },
                ));
            }
            return Err(e);
        },
        Ok(_) => {},
    }
    let ghost middle = files.files();
    let r = replace(files, path, &temporary, directory, parent, destination);
    proof {
        let linked = choose|linked: Nonces|
            possible_nonces(linked) && (files.files(), plain(r)) == #[trigger] replace_run(
                middle,
                path@,
                temporary@,
                directory,
                parent@,
                destination@,
                linked,
            );
        assert((files.files(), plain(r)) == write_in_run(
            start,
            path@,
            contents@,
            directory,
            parent@,
            destination@,
            strategy,
            Draws { created: drawn, linked },
        ));
    }
    r
}

fn replace<F: FileSystem + ?Sized>(
    files: &mut F,
    path: &[u8],
    temporary: &Temporary,
    directory: u64,
    parent: &[u8],
    destination: &[u8],
) -> (r: Result<()>)
    ensures
        exists|linked: Nonces|
            possible_nonces(linked) && (final(files).files(), plain(r)) == #[trigger] replace_run(
                old(files).files(),
                path@,
                temporary@,
                directory,
                parent@,
                destination@,
                linked,
            ),
{
    let ghost start = files.files();
    let ghost mut linked: Nonces = seq![];
    proof {
        assert(possible_nonces(linked));
    }
    let name = match &temporary.name {
        Some(name) => copied(name.as_slice()),
        None => {
            let r = link_temporary_file(
                files,
                temporary.file,
                directory,
                parent,
                TEMP_NAME_ATTEMPTS,
            );
            proof {
                linked = choose|drawn: Nonces|
                    possible_nonces(drawn) && (files.files(), name_outcome(r))
                        == #[trigger] link_run(
                        start,
                        temporary.file,
                        directory,
                        parent@,
                        TEMP_NAME_ATTEMPTS as nat,
                        drawn,
                    );
            }
            match r {
                Err(e) => {
                    proof {
                        assert((files.files(), Err::<(), ErrorView>(e@)) == replace_run(
                            start,
                            path@,
                            temporary@,
                            directory,
                            parent@,
                            destination@,
                            linked,
                        ));
                    }
                    return Err(e);
                },
                Ok(name) => name,
            }
        },
    };
    let r = match do_request(
        files,
        FileRequest::Replace(directory, copied(name.as_slice()), copied(destination)),
    ) {
        Err(e) => Err(
            retain_temporary(
                files,
                io(path, "rename into place", &e),
                &Some(name),
                directory,
                parent,
            ),
        ),
        Ok(_) => fsync_directory(files, directory, parent),
    };
    proof {
        assert((files.files(), plain(r)) == replace_run(
            start,
            path@,
            temporary@,
            directory,
            parent@,
            destination@,
            linked,
        ));
    }
    r
}

pub open spec fn write_run(
    s: FileSession,
    path: Seq<u8>,
    contents: Seq<u8>,
    strategy: TempStrategy,
    d: Draws,
) -> (FileSession, Outcome<()>) {
    match split_of(path) {
        Err(e) => (s, Err(e)),
        Ok((parent, destination)) => match handle_step(s, FileRequest::OpenParent(parent)) {
            (s1, Err(e)) => (s1, Err(io_error(parent, "open directory", e))),
            (s1, Ok(directory)) => write_in_run(
                s1,
                path,
                contents,
                directory,
                parent,
                destination,
                strategy,
                d,
            ),
        },
    }
}

/// Writes a file at once or not at all, in place of any file of that name.
pub fn write_atomic_with_strategy<F: FileSystem + ?Sized>(
    files: &mut F,
    path: &[u8],
    contents: &[u8],
    strategy: TempStrategy,
) -> (r: Result<()>)
    ensures
        exists|d: Draws|
            possible_draws(d) && (final(files).files(), plain(r))
                == #[trigger] write_run(
                old(files).files(),
                path@,
                contents@,
                strategy,
                d,
            ),
{
    let ghost start = files.files();
    let ghost none: Nonces = seq![];
    proof {
        assert(possible_nonces(none));
    }
    let (parent, destination) = match split_path(path) {
        Err(e) => {
            proof {
                assert((start, Err::<(), ErrorView>(e@)) == write_run(
                    start,
                    path@,
                    contents@,
                    strategy,
                    Draws { created: none, linked: none },
                ));
            }
            return Err(e);
        },
        Ok(v) => v,
    };
    let directory = match ask_handle(files, FileRequest::OpenParent(copied(parent.as_slice()))) {
        Err(e) => {
            let failed = io(parent.as_slice(), "open directory", &e);
            proof {
                assert((files.files(), Err::<(), ErrorView>(failed@)) == write_run(
                    start,
                    path@,
                    contents@,
                    strategy,
                    Draws { created: none, linked: none },
                ));
            }
            return Err(failed);
        },
        Ok(h) => h,
    };
    let ghost middle = files.files();
    let r = write_atomic_in(
        files,
        directory,
        parent.as_slice(),
        path,
        destination.as_slice(),
        contents,
        strategy,
    );
    proof {
        let d = choose|d: Draws|
            possible_draws(d) && (files.files(), plain(r))
                == #[trigger] write_in_run(
                middle,
                path@,
                contents@,
                directory,
                parent@,
                destination@,
                strategy,
                d,
            );
        assert((files.files(), plain(r)) == write_run(
            start,
            path@,
            contents@,
            strategy,
            d,
        ));
    }
    r
}

/// Whether an outcome is one that writing a file can have.
pub open spec fn written(
    before: FileSession,
    path: Seq<u8>,
    contents: Seq<u8>,
    after: FileSession,
    r: Outcome<()>,
) -> bool {
    exists|d: Draws|
        possible_draws(d) && (after, r) == #[trigger] write_run(
            before,
            path,
            contents,
            TempStrategy::Auto,
            d,
        )
}

/// Writes a file at once or not at all, in place of any file of that name.
pub fn write_atomic<F: FileSystem + ?Sized>(files: &mut F, path: &[u8], contents: &[u8]) -> (r:
    Result<()>)
    ensures
        written(old(files).files(), path@, contents@, final(files).files(), plain(r)),
{
    write_atomic_with_strategy(files, path, contents, TempStrategy::Auto)
}

// --------------------------------------------------------- filling a vacant place

/// Putting a filled temporary file in a place that must be vacant.
pub open spec fn install_run(
    s: FileSession,
    path: Seq<u8>,
    temporary: TemporaryView,
    directory: u64,
    parent: Seq<u8>,
    destination: Seq<u8>,
) -> (FileSession, Outcome<bool>) {
    match temporary.name {
        None => match done_step(s, FileRequest::Link(temporary.file, directory, destination)) {
            (s1, Err(e)) => (
                s1,
                Err(io_error(path, "create without replacing an existing path", e)),
            ),
            (s1, Ok(_)) => installed_run(s1, directory, parent),
        },
        Some(name) => match done_step(s, FileRequest::Install(directory, name, destination)) {
            (s1, Err(e)) => {
                let (s2, kept) = retain_run(
                    s1,
                    io_error(path, "rename into place without replacement", e),
                    Some(name),
                    directory,
                    parent,
                );
                (s2, Err(kept))
            },
            (s1, Ok(_)) => installed_run(s1, directory, parent),
        },
    }
}

pub open spec fn installed_run(s: FileSession, directory: u64, parent: Seq<u8>) -> (
    FileSession,
    Outcome<bool>,
) {
    match synced_run(s, directory, parent) {
        (s1, Ok(_)) => (s1, Ok(true)),
        (s1, Err(e)) => (s1, Err(e)),
    }
}

fn install<F: FileSystem + ?Sized>(
    files: &mut F,
    path: &[u8],
    temporary: &Temporary,
    directory: u64,
    parent: &[u8],
    destination: &[u8],
) -> (r: Result<bool>)
    ensures
        (final(files).files(), plain(r)) == install_run(
            old(files).files(),
            path@,
            temporary@,
            directory,
            parent@,
            destination@,
        ),
{
    match &temporary.name {
        None => {
            match do_request(
                files,
                FileRequest::Link(temporary.file, directory, copied(destination)),
            ) {
                Err(e) => {
                    return Err(io(path, "create without replacing an existing path", &e));
                },
                Ok(_) => {},
            }
        },
        Some(name) => {
            match do_request(
                files,
                FileRequest::Install(directory, copied(name.as_slice()), copied(destination)),
            ) {
                Err(e) => {
                    return Err(
                        retain_temporary(
                            files,
                            io(path, "rename into place without replacement", &e),
                            &temporary.name,
                            directory,
                            parent,
                        ),
                    );
                },
                Ok(_) => {},
            }
        },
    }
    fsync_directory(files, directory, parent)?;
    Ok(true)
}

/// Filling a vacant place; nothing is done where an entry is found first.
pub open spec fn write_absent_run(
    s: FileSession,
    path: Seq<u8>,
    contents: Seq<u8>,
    strategy: TempStrategy,
    drawn: Nonces,
) -> (FileSession, Outcome<bool>) {
    match facts_step(s, FileRequest::Inspect(path)) {
        (s1, Ok(_)) => (s1, Ok(false)),
        (s1, Err(e)) => if e.kind != FailureKind::NotFound {
            (s1, Err(io_error(path, "inspect existing path", e)))
        } else {
            match split_of(path) {
                Err(e) => (s1, Err(e)),
                Ok((parent, destination)) => match handle_step(
                    s1,
                    FileRequest::OpenParent(parent),
                ) {
                    (s2, Err(e)) => (s2, Err(io_error(parent, "open directory", e))),
                    (s2, Ok(directory)) => match create_temporary_run(
                        s2,
                        directory,
                        parent,
                        strategy,
                        drawn,
                    ) {
                        (s3, Err(e)) => (s3, Err(e)),
                        (s3, Ok(temporary)) => match fill_run(
                            s3,
                            path,
                            contents,
                            temporary,
                            directory,
                            parent,
                        ) {
                            (s4, Err(e)) => (s4, Err(e)),
                            (s4, Ok(_)) => install_run(
                                s4,
                                path,
                                temporary,
                                directory,
                                parent,
                                destination,
                            ),
                        },
                    },
                },
            }
        },
    }
}

/// Writes a file where there is none, at once or not at all. An entry that is there already is
/// left alone, and so is one that appears meanwhile: then the call fails.
pub fn write_atomic_if_absent_with_strategy<F: FileSystem + ?Sized>(
    files: &mut F,
    path: &[u8],
    contents: &[u8],
    strategy: TempStrategy,
) -> (r: Result<bool>)
    ensures
        exists|drawn: Nonces|
            possible_nonces(drawn) && (final(files).files(), plain(r))
                == #[trigger] write_absent_run(
                old(files).files(),
                path@,
                contents@,
                strategy,
                drawn,
            ),
{
    let ghost start = files.files();
    let ghost none: Nonces = seq![];
    let ghost p = path@;
    let ghost c = contents@;
    proof {
        assert(possible_nonces(none));
    }
    match ask_facts(files, FileRequest::Inspect(copied(path))) {
        Ok(_) => {
            proof {
                assert((files.files(), Ok::<bool, ErrorView>(false)) == write_absent_run(
                    start,
                    p,
                    c,
                    strategy,
                    none,
                ));
            }
            return Ok(false);
        },
        Err(e) => {
            if e.kind != FailureKind::NotFound {
                let failed = io(path, "inspect existing path", &e);
                proof {
                    assert((files.files(), Err::<bool, ErrorView>(failed@)) == write_absent_run(
                        start,
                        p,
                        c,
                        strategy,
                        none,
                    ));
                }
                return Err(failed);
            }
        },
    }
    let (parent, destination) = match split_path(path) {
        Err(e) => {
            proof {
                assert((files.files(), Err::<bool, ErrorView>(e@)) == write_absent_run(
                    start,
                    p,
                    c,
                    strategy,
                    none,
                ));
            }
            return Err(e);
        },
        Ok(v) => v,
    };
    let directory = match ask_handle(files, FileRequest::OpenParent(copied(parent.as_slice()))) {
        Err(e) => {
            let failed = io(parent.as_slice(), "open directory", &e);
            proof {
                assert((files.files(), Err::<bool, ErrorView>(failed@)) == write_absent_run(
                    start,
                    p,
                    c,
                    strategy,
                    none,
                ));
            }
            return Err(failed);
        },
        Ok(h) => h,
    };
    let ghost middle = files.files();
    let created = create_temporary(files, directory, parent.as_slice(), strategy);
    let ghost drawn = choose|drawn: Nonces|
        possible_nonces(drawn) && (files.files(), temporary_outcome(created))
            == #[trigger] create_temporary_run(middle, directory, parent@, strategy, drawn);
    let temporary = match created {
        Err(e) => {
            proof {
                assert((files.files(), Err::<bool, ErrorView>(e@)) == write_absent_run(
                    start,
                    p,
                    c,
                    strategy,
                    drawn,
                ));
            }
            return Err(e);
        },
        Ok(temporary) => temporary,
    };
    let r = match fill(files, path, contents, &temporary, directory, parent.as_slice()) {
        Err(e) => Err(e),
        Ok(_) => install(
            files,
            path,
            &temporary,
            directory,
            parent.as_slice(),
            destination.as_slice(),
        ),
    };
    proof {
        assert((files.files(), plain(r)) == write_absent_run(start, p, c, strategy, drawn));
    }
    r
}

/// Whether an outcome is one that filling a vacant place can have.
pub open spec fn written_if_absent(
    before: FileSession,
    path: Seq<u8>,
    contents: Seq<u8>,
    after: FileSession,
    r: Outcome<bool>,
) -> bool {
    exists|drawn: Nonces|
        possible_nonces(drawn) && (after, r) == #[trigger] write_absent_run(
            before,
            path,
            contents,
            TempStrategy::Auto,
            drawn,
        )
}

/// Writes a file where there is none, at once or not at all; says whether it did.
pub fn write_atomic_if_absent<F: FileSystem + ?Sized>(
    files: &mut F,
    path: &[u8],
    contents: &[u8],
) -> (r: Result<bool>)
    ensures
        written_if_absent(old(files).files(), path@, contents@, final(files).files(), plain(r)),
{
    write_atomic_if_absent_with_strategy(files, path, contents, TempStrategy::Auto)
}

// ----------------------------------------------------------------------- links

/// Making a symbolic link; one that is there already and leads to the same target will do.
pub open spec fn symlink_run(s: FileSession, link: Seq<u8>, target: Seq<u8>) -> (
    FileSession,
    Outcome<()>,
) {
    match split_of(link) {
        Err(e) => (s, Err(e)),
        Ok((parent, name)) => match handle_step(s, FileRequest::OpenParent(parent)) {
            (s1, Err(e)) => (s1, Err(io_error(parent, "open directory", e))),
            (s1, Ok(directory)) => match bytes_step(s1, FileRequest::ReadLinkAt(directory, name)) {
                (s2, Ok(existing)) => if existing == target {
                    (s2, Ok(()))
                } else {
                    (
                        s2,
                        Err(
                            failure(
                                "cannot create symlink at "@ + lossy_text(link)
                                    + ": path already exists"@,
                            ),
                        ),
                    )
                },
                (s2, Err(e)) => if e.kind != FailureKind::NotFound {
                    (s2, Err(io_error(link, "inspect existing path", e)))
                } else {
                    match done_step(s2, FileRequest::SymlinkAt(target, directory, name)) {
                        (s3, Err(e)) => (s3, Err(io_error(link, "create symlink at", e))),
                        (s3, Ok(_)) => synced_run(s3, directory, parent),
                    }
                },
            },
        },
    }
}

/// Makes a symbolic link; one that is there already and leads to the same target will do.
pub fn symlink_relative<F: FileSystem + ?Sized>(files: &mut F, link: &[u8], target: &str) -> (r:
    Result<()>)
    ensures
        (final(files).files(), plain(r)) == symlink_run(
            old(files).files(),
            link@,
            lit(target),
        ),
{
    let (parent, name) = split_path(link)?;
    let directory = match ask_handle(files, FileRequest::OpenParent(copied(parent.as_slice()))) {
        Err(e) => return Err(io(parent.as_slice(), "open directory", &e)),
        Ok(h) => h,
    };
    match ask_bytes(files, FileRequest::ReadLinkAt(directory, copied(name.as_slice()))) {
        Ok(existing) => {
            if same(existing.as_slice(), target.as_bytes()) {
                return Ok(());
            }
            return Err(
                GroveError::failure(
                    text("cannot create symlink at ").concat(lossy(link).as_str()).concat(
                        ": path already exists",
                    ),
                ),
            );
        },
        Err(e) => {
            if e.kind != FailureKind::NotFound {
                return Err(io(link, "inspect existing path", &e));
            }
        },
    }
    match do_request(
        files,
        FileRequest::SymlinkAt(bytes_of(target), directory, copied(name.as_slice())),
    ) {
        Err(e) => return Err(io(link, "create symlink at", &e)),
        Ok(_) => {},
    }
    fsync_directory(files, directory, parent.as_slice())
}

/// Making a symbolic link where nothing is; whether it was made.
pub open spec fn symlink_absent_run(s: FileSession, link: Seq<u8>, target: Seq<u8>) -> (
    FileSession,
    Outcome<bool>,
) {
    match facts_step(s, FileRequest::Inspect(link)) {
        (s1, Ok(_)) => (s1, Ok(false)),
        (s1, Err(e)) => if e.kind != FailureKind::NotFound {
            (s1, Err(io_error(link, "inspect existing path", e)))
        } else {
            match split_of(link) {
                Err(e) => (s1, Err(e)),
                Ok((parent, name)) => match handle_step(s1, FileRequest::OpenParent(parent)) {
                    (s2, Err(e)) => (s2, Err(io_error(parent, "open directory", e))),
                    (s2, Ok(directory)) => match done_step(
                        s2,
                        FileRequest::SymlinkAt(target, directory, name),
                    ) {
                        (s3, Err(e)) => (s3, Err(io_error(link, "create symlink at", e))),
                        (s3, Ok(_)) => installed_run(s3, directory, parent),
                    },
                },
            }
        },
    }
}

/// Makes a symbolic link where nothing is; says whether it did.
pub fn symlink_relative_if_absent<F: FileSystem + ?Sized>(
    files: &mut F,
    link: &[u8],
    target: &str,
) -> (r: Result<bool>)
    ensures
        (final(files).files(), plain(r)) == symlink_absent_run(
            old(files).files(),
            link@,
            lit(target),
        ),
{
    match ask_facts(files, FileRequest::Inspect(copied(link))) {
        Ok(_) => return Ok(false),
        Err(e) => {
            if e.kind != FailureKind::NotFound {
                return Err(io(link, "inspect existing path", &e));
            }
        },
    }
    let (parent, name) = split_path(link)?;
    let directory = match ask_handle(files, FileRequest::OpenParent(copied(parent.as_slice()))) {
        Err(e) => return Err(io(parent.as_slice(), "open directory", &e)),
        Ok(h) => h,
    };
    match do_request(
        files,
        FileRequest::SymlinkAt(bytes_of(target), directory, copied(name.as_slice())),
    ) {
        Err(e) => return Err(io(link, "create symlink at", &e)),
        Ok(_) => {},
    }
    fsync_directory(files, directory, parent.as_slice())?;
    Ok(true)
}

} // verus!
