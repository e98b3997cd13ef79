//! The single steps that converting a repository, and converting it back, consist of.
use vstd::prelude::*;
use crate::bytes::{
    copied, is_lit, joined, lemma_views_push, lit, prefixed, same, strip_prefix, strip_suffix,
    views, without_prefix, without_suffix,
};
use crate::commands::adopt::evidence::{
    manifest_views, sha256, sha256_of, BlobProof, BlobView, ContentView, ManifestContent,
    ManifestEntry, ManifestView,
};
use crate::commands::adopt::inventory::{first_component, first_part};
use crate::commands::adopt::queries::{git_error, git_failure};
use crate::error::{
    bytes_outcome, decision_error, failure, failure_error, list_outcome, needs_decision, plain,
    usage, usage_error, ErrorView, GroveError, Result,
};
use crate::fsx::directory::{open_run, HeldDirectory, HeldView};
use crate::fsx::below::inventory_run;
use crate::fsx::files::{
    ask_bytes, ask_facts, bytes_step, do_request, done_step, entry_views,
    facts_step, identity_step, EntryView, FailureKind, FileRequest, FileSession, FileSystem,
};
use crate::fsx::held::{
    checked_path, digests_match, same_digest, FileIdentity, FileKind, InventoryEntry,
    ValidatedRelativePath,
};
use crate::fsx::write::{
    possible_draws, possible_nonces, write_absent_run, write_atomic, write_atomic_if_absent,
    write_run, Draws, Nonces, TempStrategy,
};
use crate::git::config::Outcome;
use crate::git::runner::{
    args5, args6, invoke, invoke_in, reply_of, step, GitOutput, GitRunner, Invocation,
    InvocationView, Reply, Session,
};
use crate::order::{sort_unique, sorted_set};
use crate::path::{
    child, file_name, is_same_path, join_path, join_word, joined_names, last_name, parent_of,
    parent_path, same_path,
};
use crate::text::{escape, escaped, lossy, lossy_text, text};

verus! {

broadcast use lemma_views_push;

// ------------------------------------------------------------------------- looking

pub open spec fn uninspected(path: Seq<u8>, why: Seq<char>) -> ErrorView {
    failure("cannot inspect "@ + lossy_text(path) + ": "@ + why)
}

fn uninspected_error(path: &[u8], why: &str) -> (r: GroveError)
    ensures
        r@ == uninspected(path@, why@),
{
    GroveError::failure(
        text("cannot inspect ").concat(lossy(path).as_str()).concat(": ").concat(why),
    )
}

/// Whether a path names anything.
pub open spec fn there_run(f: FileSession, path: Seq<u8>) -> (FileSession, Outcome<bool>) {
    match facts_step(f, FileRequest::Inspect(path)) {
        (f1, Ok(_)) => (f1, Ok(true)),
        (f1, Err(e)) => if e.kind == FailureKind::NotFound {
            (f1, Ok(false))
        } else {
            (f1, Err(uninspected(path, e.text)))
        },
    }
}

/// Whether a path names anything.
pub fn path_exists<F: FileSystem + ?Sized>(files: &mut F, path: &[u8]) -> (r: Result<bool>)
    ensures
        (final(files).files(), plain(r)) == there_run(old(files).files(), path@),
{
    match ask_facts(files, FileRequest::Inspect(copied(path))) {
        Ok(_) => Ok(true),
        Err(e) => if e.kind == FailureKind::NotFound {
            Ok(false)
        } else {
            Err(uninspected_error(path, e.text.as_str()))
        },
    }
}

/// Whether a path names a directory, and not a link to one.
pub open spec fn directory_run(f: FileSession, path: Seq<u8>) -> (FileSession, Outcome<bool>) {
    match facts_step(f, FileRequest::Inspect(path)) {
        (f1, Ok(facts)) => (f1, Ok(facts.kind == FileKind::Directory)),
        (f1, Err(e)) => if e.kind == FailureKind::NotFound {
            (f1, Ok(false))
        } else {
            (f1, Err(uninspected(path, e.text)))
        },
    }
}

/// Whether a path names a directory, and not a link to one.
pub fn real_directory<F: FileSystem + ?Sized>(files: &mut F, path: &[u8]) -> (r: Result<bool>)
    ensures
        (final(files).files(), plain(r)) == directory_run(old(files).files(), path@),
{
    match ask_facts(files, FileRequest::Inspect(copied(path))) {
        Ok(facts) => Ok(facts.kind == FileKind::Directory),
        Err(e) => if e.kind == FailureKind::NotFound {
            Ok(false)
        } else {
            Err(uninspected_error(path, e.text.as_str()))
        },
    }
}

/// Whether a file holds what it is known to have held.
pub open spec fn matches_run(f: FileSession, path: Seq<u8>, blob: BlobView) -> (
    FileSession,
    Outcome<bool>,
) {
    match bytes_step(f, FileRequest::Read(path)) {
        (f1, Ok(bytes)) => (f1, Ok(sha256_of(bytes) == blob.sha256)),
        (f1, Err(e)) => if e.kind == FailureKind::NotFound {
            (f1, Ok(false))
        } else {
            (f1, Err(failure("cannot verify "@ + lossy_text(path) + ": "@ + e.text)))
        },
    }
}

/// Whether a file holds what it is known to have held.
pub fn blob_matches<F: FileSystem + ?Sized>(files: &mut F, path: &[u8], proof_: &BlobProof) -> (r: Result<
    bool,
>)
    ensures
        (final(files).files(), plain(r)) == matches_run(old(files).files(), path@, proof_@),
{
    match ask_bytes(files, FileRequest::Read(copied(path))) {
        Ok(bytes) => Ok(same(sha256(bytes.as_slice()).as_slice(), proof_.sha256.as_slice())),
        Err(e) => if e.kind == FailureKind::NotFound {
            Ok(false)
        } else {
            Err(
                GroveError::failure(
                    text("cannot verify ").concat(lossy(path).as_str()).concat(": ").concat(
                        e.text.as_str(),
                    ),
                ),
            )
        },
    }
}

/// Whether a file can be read and holds exactly these bytes.
pub open spec fn holds_run(f: FileSession, path: Seq<u8>, expected: Seq<u8>) -> (FileSession, bool) {
    match bytes_step(f, FileRequest::Read(path)) {
        (f1, Ok(bytes)) => (f1, bytes == expected),
        (f1, Err(_)) => (f1, false),
    }
}

pub(crate) fn holds<F: FileSystem + ?Sized>(files: &mut F, path: &[u8], expected: &[u8]) -> (r: bool)
    ensures
        (final(files).files(), r) == holds_run(old(files).files(), path@, expected@),
{
    match ask_bytes(files, FileRequest::Read(copied(path))) {
        Ok(bytes) => same(bytes.as_slice(), expected),
        Err(_) => false,
    }
}

// ------------------------------------------------------------------------ changing

/// A request that has to work; where it does not, `what` says what did not.
pub open spec fn attempt_run(f: FileSession, request: FileRequest<Seq<u8>>, what: Seq<char>) -> (
    FileSession,
    Outcome<()>,
) {
    match done_step(f, request) {
        (f1, Err(e)) => (f1, Err(failure(what + e.text))),
        (f1, Ok(_)) => (f1, Ok(())),
    }
}

pub(crate) fn attempt<F: FileSystem + ?Sized>(
    files: &mut F,
    request: FileRequest<Vec<u8>>,
    what: &str,
) -> (r: Result<()>)
    ensures
        (final(files).files(), plain(r)) == attempt_run(old(files).files(), request@, what@),
{
    match do_request(files, request) {
        Err(e) => Err(GroveError::failure(text(what).concat(e.text.as_str()))),
        Ok(_) => Ok(()),
    }
}

/// A request whose failure is for a person to decide about.
pub open spec fn venture_run(f: FileSession, request: FileRequest<Seq<u8>>, what: Seq<char>) -> (
    FileSession,
    Outcome<()>,
) {
    match done_step(f, request) {
        (f1, Err(e)) => (f1, Err(needs_decision(what + e.text))),
        (f1, Ok(_)) => (f1, Ok(())),
    }
}

pub(crate) fn venture<F: FileSystem + ?Sized>(
    files: &mut F,
    request: FileRequest<Vec<u8>>,
    what: &str,
) -> (r: Result<()>)
    ensures
        (final(files).files(), plain(r)) == venture_run(old(files).files(), request@, what@),
{
    match do_request(files, request) {
        Err(e) => Err(GroveError::needs_decision(text(what).concat(e.text.as_str()))),
        Ok(_) => Ok(()),
    }
}

/// Making a directory's entries durable.
pub open spec fn sync_run(f: FileSession, path: Seq<u8>) -> (FileSession, Outcome<()>) {
    match done_step(f, FileRequest::SyncDirectory(path)) {
        (f1, Err(e)) => (f1, Err(failure("cannot fsync "@ + lossy_text(path) + ": "@ + e.text))),
        (f1, Ok(_)) => (f1, Ok(())),
    }
}

/// Makes a directory's entries durable.
pub fn sync_dir<F: FileSystem + ?Sized>(files: &mut F, path: &[u8]) -> (r: Result<()>)
    ensures
        (final(files).files(), plain(r)) == sync_run(old(files).files(), path@),
{
    match do_request(files, FileRequest::SyncDirectory(copied(path))) {
        Err(e) => Err(
            GroveError::failure(
                text("cannot fsync ").concat(lossy(path).as_str()).concat(": ").concat(
                    e.text.as_str(),
                ),
            ),
        ),
        Ok(_) => Ok(()),
    }
}

/// Draws that a write did not make.
pub open spec fn no_draws() -> Draws {
    Draws { created: Seq::empty(), linked: Seq::empty() }
}

/// A write, and what it drew.
pub(crate) fn write_file<F: FileSystem + ?Sized>(files: &mut F, path: &[u8], contents: &[u8]) -> (r: (
    Result<()>,
    Ghost<Draws>,
))
    ensures
        possible_draws(r.1@),
        (final(files).files(), plain(r.0)) == write_run(
            old(files).files(),
            path@,
            contents@,
            TempStrategy::Auto,
            r.1@,
        ),
{
    let ghost before = files.files();
    let r = write_atomic(files, path, contents);
    let ghost d = choose|d: Draws|
        possible_draws(d) && (files.files(), plain(r)) == #[trigger] write_run(
            before,
            path@,
            contents@,
            TempStrategy::Auto,
            d,
        );
    (r, Ghost(d))
}

/// A write to a vacant place, and what it drew.
pub(crate) fn write_vacant<F: FileSystem + ?Sized>(files: &mut F, path: &[u8], contents: &[u8]) -> (r: (
    Result<bool>,
    Ghost<Nonces>,
))
    ensures
        possible_nonces(r.1@),
        (final(files).files(), plain(r.0)) == write_absent_run(
            old(files).files(),
            path@,
            contents@,
            TempStrategy::Auto,
            r.1@,
        ),
{
    let ghost before = files.files();
    let r = write_atomic_if_absent(files, path, contents);
    let ghost d = choose|d: Nonces|
        possible_nonces(d) && (files.files(), plain(r)) == #[trigger] write_absent_run(
            before,
            path@,
            contents@,
            TempStrategy::Auto,
            d,
        );
    (r, Ghost(d))
}

/// Putting a file back as it was, contents and mode, where it is not.
pub open spec fn restore_run(f: FileSession, path: Seq<u8>, blob: BlobView, d: Draws) -> (
    FileSession,
    Outcome<()>,
) {
    match matches_run(f, path, blob) {
        (f1, Err(e)) => (f1, Err(e)),
        (f1, Ok(true)) => (f1, Ok(())),
        (f1, Ok(false)) => match write_run(f1, path, blob.bytes, TempStrategy::Auto, d) {
            (f2, Err(e)) => (f2, Err(e)),
            (f2, Ok(_)) => attempt_run(
                f2,
                FileRequest::SetMode(path, blob.mode & 0xfff),
                "cannot restore file mode: "@,
            ),
        },
    }
}

/// Puts a file back as it was, contents and mode, where it is not.
pub(crate) fn restore_blob<F: FileSystem + ?Sized>(files: &mut F, path: &[u8], proof_: &BlobProof) -> (r: (
    Result<()>,
    Ghost<Draws>,
))
    ensures
        possible_draws(r.1@),
        (final(files).files(), plain(r.0)) == restore_run(
            old(files).files(),
            path@,
            proof_@,
            r.1@,
        ),
{
    match blob_matches(files, path, proof_) {
        Err(e) => return (Err(e), Ghost(no_draws())),
        Ok(matches) => if matches {
            return (Ok(()), Ghost(no_draws()));
        },
    }
    let (written, d) = write_file(files, path, proof_.bytes.as_slice());
    match written {
        Err(e) => (Err(e), d),
        Ok(_) => {
            let mode: u32 = proof_.mode & 0xfff;
            (
                attempt(
                    files,
                    FileRequest::SetMode(copied(path), mode),
                    "cannot restore file mode: ",
                ),
                d,
            )
        },
    }
}

/// The directories on the way to a path below the root.
pub open spec fn parents_run(f: FileSession, root: Seq<u8>, relative: Seq<u8>) -> (
    FileSession,
    Outcome<()>,
) {
    match parent_of(relative) {
        None => (f, Ok(())),
        Some(parent) => if parent.len() == 0 {
            (f, Ok(()))
        } else {
            attempt_run(
                f,
                FileRequest::CreateDirectories(child(root, parent)),
                "cannot create worktree parent directories: "@,
            )
        },
    }
}

/// Makes the directories on the way to a path below the root.
pub fn create_parents<F: FileSystem + ?Sized>(files: &mut F, root: &[u8], relative: &[u8]) -> (r:
    Result<()>)
    ensures
        (final(files).files(), plain(r)) == parents_run(old(files).files(), root@, relative@),
{
    match parent_path(relative) {
        None => Ok(()),
        Some(parent) => if parent.len() == 0 {
            Ok(())
        } else {
            attempt(
                files,
                FileRequest::CreateDirectories(join_path(root, parent.as_slice())),
                "cannot create worktree parent directories: ",
            )
        },
    }
}

// --------------------------------------------------------------------- Git children

/// A child that has to succeed.
pub open spec fn git_run(s: Session, i: InvocationView, action: &str) -> (Session, Reply) {
    match step(s, i) {
        (s1, Err(e)) => (s1, Err(e)),
        (s1, Ok(out)) => if out.ok() {
            (s1, Ok(out))
        } else {
            (s1, Err(git_failure(action@, out)))
        },
    }
}

pub(crate) fn run_ok<R: GitRunner + ?Sized>(runner: &mut R, invocation: Invocation, action: &str) -> (r:
    Result<GitOutput>)
    ensures
        (final(runner).session(), reply_of(r)) == git_run(
            old(runner).session(),
            invocation@,
            action,
        ),
{
    let output = runner.run(invocation)?;
    if output.ok() {
        Ok(output)
    } else {
        Err(git_error(action, &output))
    }
}

/// A child that edits a configuration file.
pub open spec fn unset_run(s: Session, config: Seq<u8>, key: &str) -> (Session, Outcome<()>) {
    match step(
        s,
        invoke(args5(lit("config"), lit("--file"), config, lit("--unset-all"), lit(key))),
    ) {
        (s1, Err(e)) => (s1, Err(e)),
        (s1, Ok(out)) => if out.status != 0 && out.status != 5 {
            (s1, Err(git_failure("unset "@ + key@, out)))
        } else {
            (s1, Ok(()))
        },
    }
}

fn unset<R: GitRunner + ?Sized>(runner: &mut R, config: &[u8], key: &str) -> (r: Result<()>)
    ensures
        (final(runner).session(), plain(r)) == unset_run(old(runner).session(), config@, key),
{
    let output = runner.run(
        Invocation::new().word("config").word("--file").arg(config).word("--unset-all").word(key),
    )?;
    if output.status != 0 && output.status != 5 {
        return Err(git_error(text("unset ").concat(key).as_str(), &output));
    }
    Ok(())
}

/// Taking out of a configuration file what says where the worktree is.
pub open spec fn unset_layout_run(s: Session, config: Seq<u8>) -> (Session, Outcome<()>) {
    match unset_run(s, config, "core.bare") {
        (s1, Err(e)) => (s1, Err(e)),
        (s1, Ok(_)) => unset_run(s1, config, "core.worktree"),
    }
}

/// Takes out of a configuration file what says where the worktree is.
pub fn unset_layout<R: GitRunner + ?Sized>(runner: &mut R, config: &[u8]) -> (r: Result<()>)
    ensures
        (final(runner).session(), plain(r)) == unset_layout_run(
            old(runner).session(),
            config@,
        ),
{
    unset(runner, config, "core.bare")?;
    unset(runner, config, "core.worktree")
}

/// Whether a setting in a configuration file is on.
pub open spec fn config_bool_run(s: Session, config: Seq<u8>, key: &str) -> (
    Session,
    Outcome<bool>,
) {
    match step(
        s,
        invoke(
            args6(lit("config"), lit("--file"), config, lit("--bool"), lit("--get"), lit(key)),
        ),
    ) {
        (s1, Err(e)) => (s1, Err(e)),
        (s1, Ok(out)) => if out.status == 0 && out.stdout == lit("true\n") {
            (s1, Ok(true))
        } else if (out.status == 0 && out.stdout == lit("false\n")) || out.status == 1 {
            (s1, Ok(false))
        } else {
            (s1, Err(git_failure("read "@ + key@, out)))
        },
    }
}

/// Whether a setting in a configuration file is on.
pub fn config_bool<R: GitRunner + ?Sized>(runner: &mut R, config: &[u8], key: &str) -> (r: Result<
    bool,
>)
    ensures
        (final(runner).session(), plain(r)) == config_bool_run(
            old(runner).session(),
            config@,
            key,
        ),
{
    let output = runner.run(
        Invocation::new().word("config").word("--file").arg(config).word("--bool").word(
            "--get",
        ).word(key),
    )?;
    if output.status == 0 && is_lit(output.stdout.as_slice(), "true\n") {
        Ok(true)
    } else if (output.status == 0 && is_lit(output.stdout.as_slice(), "false\n"))
        || output.status == 1 {
        Ok(false)
    } else {
        Err(git_error(text("read ").concat(key).as_str(), &output))
    }
}

// ------------------------------------------------------------------------- pointers

/// What the `.git` file of the checkout's worktree will hold.
pub open spec fn pointer_of(root: Seq<u8>, payload: Seq<u8>) -> Outcome<Seq<u8>> {
    match last_name(payload) {
        None => Err(usage("payload path has no final component"@)),
        Some(id) => Ok(
            lit("gitdir: ") + child(child(root, lit(".bare/worktrees")), id) + lit("\n"),
        ),
    }
}

/// What the `.git` file of the checkout's worktree will hold.
pub fn payload_pointer(root: &[u8], payload: &[u8]) -> (r: Result<Vec<u8>>)
    ensures
        bytes_outcome(r) == pointer_of(root@, payload@),
{
    match file_name(payload) {
        None => Err(usage_error("payload path has no final component")),
        Some(id) => {
            let admin = join_path(join_word(root, ".bare/worktrees").as_slice(), id.as_slice());
            Ok(joined(prefixed("gitdir: ", admin.as_slice()).as_slice(), "\n".as_bytes()))
        },
    }
}

/// The administrative directory that a `.git` file points to.
pub open spec fn admin_of(pointer: Seq<u8>) -> Outcome<Seq<u8>> {
    match without_prefix(pointer, lit("gitdir: ")) {
        None => Err(needs_decision("Git generated a malformed payload pointer"@)),
        Some(rest) => match without_suffix(rest, lit("\n")) {
            None => Err(needs_decision("Git generated a malformed payload pointer"@)),
            Some(path) => Ok(path),
        },
    }
}

/// The administrative directory that a `.git` file points to.
pub fn pointer_admin(pointer: &[u8]) -> (r: Result<Vec<u8>>)
    ensures
        bytes_outcome(r) == admin_of(pointer@),
{
    if let Some(rest) = strip_prefix(pointer, "gitdir: ".as_bytes()) {
        if let Some(path) = strip_suffix(rest, "\n".as_bytes()) {
            return Ok(copied(path));
        }
    }
    Err(decision_error("Git generated a malformed payload pointer"))
}

/// A pointer leads back to the administrative directory that it was made for.
pub proof fn pointers_lead_to_their_administration(root: Seq<u8>, payload: Seq<u8>)
    requires
        last_name(payload) is Some,
    ensures
        pointer_of(root, payload) is Ok,
        admin_of(pointer_of(root, payload)->Ok_0) == Ok::<Seq<u8>, ErrorView>(
            child(child(root, lit(".bare/worktrees")), last_name(payload)->Some_0),
        ),
{
    let path = child(child(root, lit(".bare/worktrees")), last_name(payload)->Some_0);
    let head = lit("gitdir: ");
    let end = lit("\n");
    let pointer = head + path + end;
    assert(pointer.subrange(0, head.len() as int) =~= head);
    let rest = crate::bytes::after(pointer, head.len() as int);
    assert(rest =~= path + end);
    assert(rest.subrange(rest.len() - end.len(), rest.len() as int) =~= end);
    assert(rest.subrange(0, rest.len() - end.len()) =~= path);
}

/// A recorded path, checked again.
pub open spec fn raw_of(raw: Seq<u8>) -> Outcome<Seq<u8>> {
    match checked_path(raw) {
        Err(e) => Err(e),
        Ok(names) => Ok(joined_names(names)),
    }
}

/// Checks a recorded path again.
pub fn raw_path(raw: &[u8]) -> (r: Result<Vec<u8>>)
    ensures
        bytes_outcome(r) == raw_of(raw@),
{
    let path = ValidatedRelativePath::new(raw)?;
    Ok(copied(path.as_path()))
}

// ---------------------------------------------------------------------------- locks

/// Where a worktree's administration is, as its `.git` file has it.
pub open spec fn located_run(f: FileSession, path: Seq<u8>, what: &str) -> (
    FileSession,
    Outcome<Seq<u8>>,
) {
    match bytes_step(f, FileRequest::Read(child(path, lit(".git")))) {
        (f1, Err(e)) => (f1, Err(needs_decision(what@ + e.text))),
        (f1, Ok(pointer)) => (f1, admin_of(pointer)),
    }
}

pub(crate) fn located<F: FileSystem + ?Sized>(files: &mut F, path: &[u8], what: &str) -> (r: Result<
    Vec<u8>,
>)
    ensures
        (final(files).files(), bytes_outcome(r)) == located_run(
            old(files).files(),
            path@,
            what,
        ),
{
    match ask_bytes(files, FileRequest::Read(join_word(path, ".git"))) {
        Err(e) => Err(GroveError::needs_decision(text(what).concat(e.text.as_str()))),
        Ok(pointer) => pointer_admin(pointer.as_slice()),
    }
}

/// Unlocking a worktree that is locked.
pub open spec fn unlock_run(s: Session, f: FileSession, bare: Seq<u8>, path: Seq<u8>) -> (
    Session,
    FileSession,
    Outcome<()>,
) {
    match located_run(f, path, "cannot read worktree pointer before unlock: ") {
        (f1, Err(e)) => (s, f1, Err(e)),
        (f1, Ok(admin)) => match there_run(f1, child(admin, lit("locked"))) {
            (f2, Err(e)) => (s, f2, Err(e)),
            (f2, Ok(false)) => (s, f2, Ok(())),
            (f2, Ok(true)) => match git_run(
                s,
                invoke_in(
                    bare,
                    crate::git::runner::args4(lit("worktree"), lit("unlock"), lit("--"), path),
                ),
                "unlock adopted worktree",
            ) {
                (s1, Err(e)) => (s1, f2, Err(e)),
                (s1, Ok(_)) => (s1, f2, Ok(())),
            },
        },
    }
}

/// Unlocks a worktree that is locked.
pub fn unlock_if_locked<R: GitRunner + ?Sized, F: FileSystem + ?Sized>(
    runner: &mut R,
    files: &mut F,
    bare: &[u8],
    path: &[u8],
) -> (r: Result<()>)
    ensures
        (final(runner).session(), final(files).files(), plain(r)) == unlock_run(
            old(runner).session(),
            old(files).files(),
            bare@,
            path@,
        ),
{
    let admin = located(files, path, "cannot read worktree pointer before unlock: ")?;
    if path_exists(files, join_word(admin.as_slice(), "locked").as_slice())? {
        let _ = run_ok(
            runner,
            Invocation::new().git_dir(bare).word("worktree").word("unlock").word("--").arg(path),
            "unlock adopted worktree",
        )?;
    }
    Ok(())
}

/// Locking a worktree that is not locked.
pub open spec fn lock_run(
    s: Session,
    f: FileSession,
    bare: Seq<u8>,
    path: Seq<u8>,
    reason: Seq<u8>,
) -> (Session, FileSession, Outcome<()>) {
    match located_run(f, path, "cannot read worktree pointer before relock: ") {
        (f1, Err(e)) => (s, f1, Err(e)),
        (f1, Ok(admin)) => match there_run(f1, child(admin, lit("locked"))) {
            (f2, Err(e)) => (s, f2, Err(e)),
            (f2, Ok(true)) => (s, f2, Ok(())),
            (f2, Ok(false)) => match git_run(
                s,
                invoke_in(
                    bare,
                    args6(
                        lit("worktree"),
                        lit("lock"),
                        lit("--reason"),
                        reason,
                        lit("--"),
                        path,
                    ),
                ),
                "relock adopted worktree for rollback",
            ) {
                (s1, Err(e)) => (s1, f2, Err(e)),
                (s1, Ok(_)) => (s1, f2, Ok(())),
            },
        },
    }
}

/// Locks a worktree that is not locked.
pub fn lock_if_unlocked<R: GitRunner + ?Sized, F: FileSystem + ?Sized>(
    runner: &mut R,
    files: &mut F,
    bare: &[u8],
    path: &[u8],
    reason: &[u8],
) -> (r: Result<()>)
    ensures
        (final(runner).session(), final(files).files(), plain(r)) == lock_run(
            old(runner).session(),
            old(files).files(),
            bare@,
            path@,
            reason@,
        ),
{
    let admin = located(files, path, "cannot read worktree pointer before relock: ")?;
    if !path_exists(files, join_word(admin.as_slice(), "locked").as_slice())? {
        let _ = run_ok(
            runner,
            Invocation::new().git_dir(bare).word("worktree").word("lock").word("--reason").arg(
                reason,
            ).word("--").arg(path),
            "relock adopted worktree for rollback",
        )?;
    }
    Ok(())
}

// -------------------------------------------------------------------- the manifest

/// The first names of the first `n` entries.
pub open spec fn top_names(manifest: Seq<ManifestView>, n: int) -> Outcome<Seq<Seq<u8>>>
    decreases n,
{
    if n <= 0 {
        Ok(Seq::empty())
    } else {
        match top_names(manifest, n - 1) {
            Err(e) => Err(e),
            Ok(names) => match first_part(manifest[n - 1].path) {
                None => Err(failure("empty payload path"@)),
                Some(name) => Ok(names.push(name)),
            },
        }
    }
}

/// The entries at the root, each once, in order.
pub open spec fn tops(manifest: Seq<ManifestView>) -> Outcome<Seq<Seq<u8>>> {
    match top_names(manifest, manifest.len() as int) {
        Err(e) => Err(e),
        Ok(names) => Ok(sorted_set(names)),
    }
}

proof fn lemma_top_error(manifest: Seq<ManifestView>, n: int, m: int)
    requires
        n <= m,
        top_names(manifest, n) is Err,
    ensures
        top_names(manifest, m) == top_names(manifest, n),
    decreases m - n,
{
    if n < m {
        lemma_top_error(manifest, n, m - 1);
    }
}

/// The entries at the root, each once, in order.
pub fn payload_top_level(manifest: &Vec<ManifestEntry>) -> (r: Result<Vec<Vec<u8>>>)
    ensures
        list_outcome(r) == tops(manifest_views(manifest@)),
{
    let ghost all = manifest_views(manifest@);
    let mut names: Vec<Vec<u8>> = Vec::new();
    let mut i: usize = 0;
    proof {
        assert(views(names@) =~= Seq::empty());
        assert(all.len() == manifest@.len());
    }
    while i < manifest.len()
        invariant
            i <= manifest.len(),
            all == manifest_views(manifest@),
            all.len() == manifest@.len(),
            top_names(all, i as int) == Ok::<Seq<Seq<u8>>, ErrorView>(views(names@)),
        decreases manifest.len() - i,
    {
        broadcast use lemma_views_push;

        proof {
            assert(all[i as int] == manifest@[i as int]@);
        }
        match first_component(manifest[i].path.as_slice()) {
            None => {
                proof {
                    lemma_top_error(all, i + 1, all.len() as int);
                }
                return Err(failure_error("empty payload path"));
            },
            Some(name) => {
                names.push(name);
            },
        }
        i = i + 1;
    }
    Ok(sort_unique(&names))
}

/// Whether an entry is the one that is known. Moving it to another directory changes the time of
/// its last change, so that is compared only before it is moved.
pub open spec fn same_object(actual: FileIdentity, expected: FileIdentity, exact_times: bool) -> bool {
    &&& actual.dev == expected.dev
    &&& actual.ino == expected.ino
    &&& actual.mode == expected.mode
    &&& actual.nlink == expected.nlink
    &&& actual.size == expected.size
    &&& actual.mtime == expected.mtime
    &&& actual.mount_id == expected.mount_id
    &&& same_digest(actual.sha256, expected.sha256)
    &&& exact_times ==> actual.ctime == expected.ctime
}

/// Checking one entry below a directory against what is known of it.
pub open spec fn entry_run(f: FileSession, base: HeldView, entry: ManifestView, exact_times: bool) -> (
    FileSession,
    Outcome<()>,
) {
    match checked_path(entry.path) {
        Err(e) => (f, Err(e)),
        Ok(names) => match identity_step(
            f,
            FileRequest::IdentityAt(base.handle, joined_names(names)),
        ) {
            (f1, Err(e)) => (f1, Err(e)),
            (f1, Ok(actual)) => if !same_object(actual, entry.identity, exact_times) {
                (
                    f1,
                    Err(
                        needs_decision(
                            "payload entry "@ + escape(entry.path) + " changed during adoption"@,
                        ),
                    ),
                )
            } else {
                match entry.content {
                    ContentView::Symlink { target, sha256 } => match bytes_step(
                        f1,
                        FileRequest::ReadLink(child(base.anchored, entry.path)),
                    ) {
                        (f2, Err(e)) => (
                            f2,
                            Err(needs_decision("cannot verify payload symlink: "@ + e.text)),
                        ),
                        (f2, Ok(bytes)) => if sha256_of(bytes) == sha256 && bytes == target {
                            (f2, Ok(()))
                        } else {
                            (
                                f2,
                                Err(
                                    needs_decision(
                                        "payload symlink "@ + escape(entry.path)
                                            + " changed during adoption"@,
                                    ),
                                ),
                            )
                        },
                    },
                    _ => (f1, Ok(())),
                }
            },
        },
    }
}

/// Checks one entry below a directory against what is known of it.
pub fn verify_manifest_entry<F: FileSystem + ?Sized>(
    files: &mut F,
    base: &HeldDirectory,
    entry: &ManifestEntry,
    exact_times: bool,
) -> (r: Result<()>)
    ensures
        (final(files).files(), plain(r)) == entry_run(
            old(files).files(),
            base@,
            entry@,
            exact_times,
        ),
{
    let relative = ValidatedRelativePath::new(entry.path.as_slice())?;
    let actual = files.identity_at(base.handle, &relative)?;
    let expected = entry.identity;
    let stable = actual.dev == expected.dev && actual.ino == expected.ino && actual.mode
        == expected.mode && actual.nlink == expected.nlink && actual.size == expected.size
        && actual.mtime == expected.mtime && actual.mount_id == expected.mount_id && digests_match(
        &actual.sha256,
        &expected.sha256,
    ) && (!exact_times || actual.ctime == expected.ctime);
    if !stable {
        return Err(
            GroveError::needs_decision(
                text("payload entry ").concat(escaped(entry.path.as_slice()).as_str()).concat(
                    " changed during adoption",
                ),
            ),
        );
    }
    if let ManifestContent::Symlink { target, sha256: expected_hash } = &entry.content {
        let link = join_path(base.anchored_path.as_slice(), entry.path.as_slice());
        match ask_bytes(files, FileRequest::ReadLink(link)) {
            Err(e) => return Err(
                GroveError::needs_decision(
                    text("cannot verify payload symlink: ").concat(e.text.as_str()),
                ),
            ),
            Ok(bytes) => {
                if !same(sha256(bytes.as_slice()).as_slice(), expected_hash.as_slice()) || !same(
                    bytes.as_slice(),
                    target.as_slice(),
                ) {
                    return Err(
                        GroveError::needs_decision(
                            text("payload symlink ").concat(
                                escaped(entry.path.as_slice()).as_str(),
                            ).concat(" changed during adoption"),
                        ),
                    );
                }
            },
        }
    }
    Ok(())
}

/// Checking the entries from `i` on: all of them, or those at or below one name.
pub open spec fn entries_from(
    f: FileSession,
    base: HeldView,
    manifest: Seq<ManifestView>,
    only: Option<Seq<u8>>,
    exact_times: bool,
    i: int,
) -> (FileSession, Outcome<()>)
    decreases manifest.len() - i,
{
    if i >= manifest.len() {
        (f, Ok(()))
    } else if only is Some && first_part(manifest[i].path) != only {
        entries_from(f, base, manifest, only, exact_times, i + 1)
    } else {
        match entry_run(f, base, manifest[i], exact_times) {
            (f1, Err(e)) => (f1, Err(e)),
            (f1, Ok(_)) => entries_from(f1, base, manifest, only, exact_times, i + 1),
        }
    }
}

/// How many entries there are besides the pointer file, among the first `n`.
pub open spec fn payload_count(entries: Seq<EntryView>, n: int) -> nat
    decreases n,
{
    if n <= 0 {
        0
    } else if same_path(joined_names(entries[n - 1].path), lit(".git")) {
        payload_count(entries, n - 1)
    } else {
        payload_count(entries, n - 1) + 1
    }
}

fn count_payload(entries: &Vec<InventoryEntry>) -> (r: usize)
    ensures
        r == payload_count(entry_views(entries@), entry_views(entries@).len() as int),
{
    let ghost all = entry_views(entries@);
    let mut n: usize = 0;
    let mut i: usize = 0;
    proof {
        assert(all.len() == entries@.len());
    }
    while i < entries.len()
        invariant
            i <= entries.len(),
            n <= i,
            all == entry_views(entries@),
            all.len() == entries@.len(),
            n == payload_count(all, i as int),
        decreases entries.len() - i,
    {
        proof {
            assert(all[i as int] == entries@[i as int]@);
        }
        if !is_same_path(entries[i].path.as_path(), ".git".as_bytes()) {
            n = n + 1;
        }
        i = i + 1;
    }
    n
}

/// Checking that a directory holds the whole payload, and nothing besides but a pointer file.
pub open spec fn manifest_run(
    f: FileSession,
    manifest: Seq<ManifestView>,
    base: Seq<u8>,
    exact_times: bool,
) -> (FileSession, Outcome<()>) {
    match open_run(f, base) {
        (f1, Err(e)) => (f1, Err(e)),
        (f1, Ok(held)) => match inventory_run(f1, held.handle) {
            (f2, Err(e)) => (f2, Err(e)),
            (f2, Ok(entries)) => if payload_count(entries, entries.len() as int)
                != manifest.len() {
                (f2, Err(needs_decision("payload entry set changed during adoption"@)))
            } else {
                entries_from(f2, held, manifest, None, exact_times, 0)
            },
        },
    }
}

/// Checks that a directory holds the whole payload, and nothing besides but a pointer file.
pub fn verify_manifest<F: FileSystem + ?Sized>(
    files: &mut F,
    manifest: &Vec<ManifestEntry>,
    base: &[u8],
    exact_times: bool,
) -> (r: Result<()>)
    ensures
        (final(files).files(), plain(r)) == manifest_run(
            old(files).files(),
            manifest_views(manifest@),
            base@,
            exact_times,
        ),
{
    let held = HeldDirectory::open(files, base)?;
    let entries = held.inventory(files)?;
    proof {
        assert(manifest_views(manifest@).len() == manifest@.len());
    }
    if count_payload(&entries) != manifest.len() {
        return Err(decision_error("payload entry set changed during adoption"));
    }
    let ghost all = manifest_views(manifest@);
    let ghost start = files.files();
    let mut i: usize = 0;
    while i < manifest.len()
        invariant
            i <= manifest.len(),
            all == manifest_views(manifest@),
            all.len() == manifest@.len(),
            entries_from(start, held@, all, None, exact_times, 0) == entries_from(
                files.files(),
                held@,
                all,
                None,
                exact_times,
                i as int,
            ),
            manifest_run(old(files).files(), all, base@, exact_times) == entries_from(
                start,
                held@,
                all,
                None,
                exact_times,
                0,
            ),
        decreases manifest.len() - i,
    {
        proof {
            assert(all[i as int] == manifest@[i as int]@);
        }
        verify_manifest_entry(files, &held, &manifest[i], exact_times)?;
        i = i + 1;
    }
    Ok(())
}

/// Checking what is at or below one name in a directory.
pub open spec fn component_run(
    f: FileSession,
    manifest: Seq<ManifestView>,
    base: Seq<u8>,
    component: Seq<u8>,
    exact_times: bool,
) -> (FileSession, Outcome<()>) {
    match open_run(f, base) {
        (f1, Err(e)) => (f1, Err(e)),
        (f1, Ok(held)) => entries_from(f1, held, manifest, Some(component), exact_times, 0),
    }
}

/// Checks what is at or below one name in a directory.
pub fn verify_manifest_component<F: FileSystem + ?Sized>(
    files: &mut F,
    manifest: &Vec<ManifestEntry>,
    base: &[u8],
    component: &[u8],
    exact_times: bool,
) -> (r: Result<()>)
    ensures
        (final(files).files(), plain(r)) == component_run(
            old(files).files(),
            manifest_views(manifest@),
            base@,
            component@,
            exact_times,
        ),
{
    let held = HeldDirectory::open(files, base)?;
    let ghost all = manifest_views(manifest@);
    let ghost start = files.files();
    let mut i: usize = 0;
    proof {
        assert(all.len() == manifest@.len());
    }
    while i < manifest.len()
        invariant
            i <= manifest.len(),
            all == manifest_views(manifest@),
            all.len() == manifest@.len(),
            entries_from(start, held@, all, Some(component@), exact_times, 0) == entries_from(
                files.files(),
                held@,
                all,
                Some(component@),
                exact_times,
                i as int,
            ),
            component_run(old(files).files(), all, base@, component@, exact_times)
                == entries_from(start, held@, all, Some(component@), exact_times, 0),
        decreases manifest.len() - i,
    {
        proof {
            assert(all[i as int] == manifest@[i as int]@);
        }
        let concerned = match first_component(manifest[i].path.as_slice()) {
            None => false,
            Some(name) => same(name.as_slice(), component),
        };
        if concerned {
            verify_manifest_entry(files, &held, &manifest[i], exact_times)?;
        }
        i = i + 1;
    }
    Ok(())
}

} // verus!
