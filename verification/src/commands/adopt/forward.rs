//! Converting a repository: eight phases, each recorded once it is done.
use vstd::prelude::*;
use crate::bytes::{bytes_of, copied, is_lit, joined, lit, opt_view, prefixed, same, views};
use crate::commands::adopt::evidence::{
    manifest_views, named_views, HeadProof, HeadView, NamedBlobProof, NamedView, OriginalEvidence,
    OriginalView, ManifestEntry, ManifestView, DecisionsView, AdoptDecisionsProof,
};
use crate::commands::adopt::journal::{ImmutablePlan, PlanView};
use crate::commands::adopt::queries::{
    flag_words, quiet, quietly, stage_words, status_words,
};
use crate::commands::adopt::steps::{
    admin_of, attempt, attempt_run, blob_matches, component_run, config_bool, config_bool_run,
    create_parents, directory_run, git_run, holds, holds_run, manifest_run, matches_run, no_draws,
    parents_run, path_exists, payload_pointer, payload_top_level, pointer_admin, pointer_of, raw_of,
    raw_path, real_directory, run_ok, sync_dir, sync_run, there_run, tops, unset_layout,
    unset_layout_run, venture, venture_run, verify_manifest, verify_manifest_component, write_file,
    write_vacant,
};
use crate::error::{decision_error, failure, needs_decision, plain, ErrorView, GroveError, Result};
use crate::fsx::directory::{open_run, HeldDirectory};
use crate::fsx::below::held_identity_run;
use crate::fsx::files::{
    ask_bytes, ask_facts, bytes_step, facts_step, FailureKind, FileRequest, FileSession, FileSystem,
};
use crate::fsx::held::{FileIdentity, FileKind};
use crate::fsx::write::{
    possible_draws, possible_nonces, write_absent_run, write_run, Draws, Nonces, TempStrategy,
};
use crate::git::config::Outcome;
use crate::git::runner::{
    args10, args2, args5, args9, invoke, invoke_in, lits, step, GitRunner, Invocation,
    InvocationView, Session,
};
use crate::grove::discover::bare_of;
use crate::grove::layout::POINTER_CONTENTS;
use crate::path::{child, is_same_path, join_path, join_word, parent_of, parent_path, same_path};
use crate::text::{escape, escaped, hex, hex_text, text};

verus! {

// ------------------------------------------------------------------------- the site

/// Where an adoption takes place.
#[derive(Debug)]
pub struct Site {
    pub root: Vec<u8>,
    /// The directory of the transaction.
    pub transaction: Vec<u8>,
    /// Where the checkout goes, below the root.
    pub payload: Vec<u8>,
    /// Where a worktree for the default branch goes, below the root.
    pub default: Option<Vec<u8>>,
    /// What the `.git` file of the checkout's worktree will hold.
    pub pointer: Vec<u8>,
    /// The administrative directory of that worktree.
    pub admin: Vec<u8>,
}

pub struct SiteView {
    pub root: Seq<u8>,
    pub transaction: Seq<u8>,
    pub payload: Seq<u8>,
    pub default: Option<Seq<u8>>,
    pub pointer: Seq<u8>,
    pub admin: Seq<u8>,
}

impl View for Site {
    type V = SiteView;

    open spec fn view(&self) -> SiteView {
        SiteView {
            root: self.root@,
            transaction: self.transaction@,
            payload: self.payload@,
            default: opt_view(self.default),
            pointer: self.pointer@,
            admin: self.admin@,
        }
    }
}

pub open spec fn opt_raw(raw: Option<Seq<u8>>) -> Outcome<Option<Seq<u8>>> {
    match raw {
        None => Ok(None),
        Some(r) => match raw_of(r) {
            Err(e) => Err(e),
            Ok(p) => Ok(Some(p)),
        },
    }
}

/// Where an adoption takes place, from what was decided.
pub open spec fn site_of(root: Seq<u8>, transaction: Seq<u8>, d: DecisionsView) -> Outcome<SiteView> {
    match raw_of(d.payload_path) {
        Err(e) => Err(e),
        Ok(payload) => match opt_raw(d.default_path) {
            Err(e) => Err(e),
            Ok(default) => match pointer_of(root, payload) {
                Err(e) => Err(e),
                Ok(pointer) => match admin_of(pointer) {
                    Err(e) => Err(e),
                    Ok(admin) => Ok(
                        SiteView { root, transaction, payload, default, pointer, admin },
                    ),
                },
            },
        },
    }
}

pub open spec fn site_outcome(r: Result<Site>) -> Outcome<SiteView> {
    match r {
        Ok(s) => Ok(s@),
        Err(e) => Err(e@),
    }
}

impl Site {
    /// Where an adoption takes place, from what was decided.
    pub fn new(root: &[u8], transaction: &[u8], decisions: &AdoptDecisionsProof) -> (r: Result<Site>)
        ensures
            site_outcome(r) == site_of(root@, transaction@, decisions@),
    {
        let payload = raw_path(decisions.payload_path.as_slice())?;
        let default = match &decisions.default_path {
            None => None,
            Some(raw) => Some(raw_path(raw.as_slice())?),
        };
        let pointer = payload_pointer(root, payload.as_slice())?;
        let admin = pointer_admin(pointer.as_slice())?;
        Ok(
            Site {
                root: copied(root),
                transaction: copied(transaction),
                payload,
                default,
                pointer,
                admin,
            },
        )
    }

    /// Where the checkout is kept while the repository is between its two layouts.
    pub fn staging(&self) -> (r: Vec<u8>)
        ensures
            r@ == staging_of(self@),
    {
        join_word(self.transaction.as_slice(), "payload")
    }

    /// Where the checkout goes.
    pub fn payload_path(&self) -> (r: Vec<u8>)
        ensures
            r@ == payload_of(self@),
    {
        join_path(self.root.as_slice(), self.payload.as_slice())
    }

    /// The bare repository.
    pub fn bare(&self) -> (r: Vec<u8>)
        ensures
            r@ == bare_of(self@.root),
    {
        join_word(self.root.as_slice(), ".bare")
    }
}

pub open spec fn staging_of(x: SiteView) -> Seq<u8> {
    child(x.transaction, lit("payload"))
}

pub open spec fn payload_of(x: SiteView) -> Seq<u8> {
    child(x.root, x.payload)
}

pub open spec fn aside_of(x: SiteView) -> Seq<u8> {
    child(x.transaction, lit("payload.git"))
}

// ----------------------------------------------------------- a place for the checkout

#[verifier::opaque]
pub open spec fn stage_run(f: FileSession, x: SiteView) -> (FileSession, Outcome<()>) {
    match facts_step(f, FileRequest::Inspect(staging_of(x))) {
        (f1, Ok(facts)) => if facts.kind == FileKind::Directory {
            sync_run(f1, x.transaction)
        } else {
            (f1, Err(needs_decision("payload staging path is no longer a real directory"@)))
        },
        (f1, Err(e)) => if e.kind == FailureKind::NotFound {
            match attempt_run(
                f1,
                FileRequest::CreateDirectory(staging_of(x)),
                "cannot create payload staging directory: "@,
            ) {
                (f2, Err(e)) => (f2, Err(e)),
                (f2, Ok(_)) => sync_run(f2, x.transaction),
            }
        } else {
            (f1, Err(failure("cannot inspect payload staging directory: "@ + e.text)))
        },
    }
}

pub(crate) fn make_staging<F: FileSystem + ?Sized>(files: &mut F, site: &Site) -> (r: Result<()>)
    ensures
        (final(files).files(), plain(r)) == stage_run(old(files).files(), site@),
{
    proof {
        reveal(stage_run);
    }
    let staging = site.staging();
    match ask_facts(files, FileRequest::Inspect(copied(staging.as_slice()))) {
        Ok(facts) => if facts.kind != FileKind::Directory {
            return Err(decision_error("payload staging path is no longer a real directory"));
        },
        Err(e) => if e.kind == FailureKind::NotFound {
            attempt(
                files,
                FileRequest::CreateDirectory(staging),
                "cannot create payload staging directory: ",
            )?;
        } else {
            return Err(
                GroveError::failure(
                    text("cannot inspect payload staging directory: ").concat(e.text.as_str()),
                ),
            );
        },
    }
    sync_dir(files, site.transaction.as_slice())
}

// --------------------------------------------------------------- the bare repository

/// Whether two identities are of one directory, whatever became of its contents.
pub open spec fn same_held(a: FileIdentity, b: FileIdentity) -> bool {
    a.dev == b.dev && a.ino == b.ino && a.mount_id == b.mount_id
}

/// Whether two identities are of one directory, whatever became of its contents.
pub fn same_held_identity(a: &FileIdentity, b: &FileIdentity) -> (r: bool)
    ensures
        r == same_held(*a, *b),
{
    a.dev == b.dev && a.ino == b.ino && a.mount_id == b.mount_id
}

/// Whether the directory at a path is the one that is known.
pub open spec fn known_run(f: FileSession, path: Seq<u8>, id: FileIdentity, otherwise: Seq<char>) -> (
    FileSession,
    Outcome<()>,
) {
    match open_run(f, path) {
        (f1, Err(e)) => (f1, Err(e)),
        (f1, Ok(held)) => match held_identity_run(f1, held.handle) {
            (f2, Err(e)) => (f2, Err(e)),
            (f2, Ok(now)) => if same_held(now, id) {
                (f2, Ok(()))
            } else {
                (f2, Err(needs_decision(otherwise)))
            },
        },
    }
}

fn require_known<F: FileSystem + ?Sized>(
    files: &mut F,
    path: &[u8],
    id: &FileIdentity,
    otherwise: &str,
) -> (r: Result<()>)
    ensures
        (final(files).files(), plain(r)) == known_run(
            old(files).files(),
            path@,
            *id,
            otherwise@,
        ),
{
    let held = HeldDirectory::open(files, path)?;
    let now = held.identity(files)?;
    if !same_held_identity(&now, id) {
        return Err(decision_error(otherwise));
    }
    Ok(())
}

/// Renaming the Git directory, unless that was done before.
pub open spec fn move_run(f: FileSession, root: Seq<u8>, id: FileIdentity) -> (
    FileSession,
    Outcome<()>,
) {
    let git = child(root, lit(".git"));
    let bare = bare_of(root);
    match directory_run(f, bare) {
        (f1, Err(e)) => (f1, Err(e)),
        (f1, Ok(converted)) => match directory_run(f1, git) {
            (f2, Err(e)) => (f2, Err(e)),
            (f2, Ok(original)) => if !converted && original {
                match known_run(
                    f2,
                    git,
                    id,
                    "the original .git directory no longer matches the journal"@,
                ) {
                    (f3, Err(e)) => (f3, Err(e)),
                    (f3, Ok(_)) => match attempt_run(
                        f3,
                        FileRequest::Rename(git, bare),
                        "cannot rename .git to .bare: "@,
                    ) {
                        (f4, Err(e)) => (f4, Err(e)),
                        (f4, Ok(_)) => sync_run(f4, root),
                    },
                }
            } else if !converted || original {
                (
                    f2,
                    Err(
                        needs_decision(
                            "repository is at neither the exact pre-conversion nor converted layout"@,
                        ),
                    ),
                )
            } else {
                (f2, Ok(()))
            },
        },
    }
}

fn move_git<F: FileSystem + ?Sized>(files: &mut F, root: &[u8], id: &FileIdentity) -> (r: Result<()>)
    ensures
        (final(files).files(), plain(r)) == move_run(old(files).files(), root@, *id),
{
    let git = join_word(root, ".git");
    let bare = join_word(root, ".bare");
    let converted = real_directory(files, bare.as_slice())?;
    let original = real_directory(files, git.as_slice())?;
    if !converted && original {
        require_known(
            files,
            git.as_slice(),
            id,
            "the original .git directory no longer matches the journal",
        )?;
        attempt(files, FileRequest::Rename(git, bare), "cannot rename .git to .bare: ")?;
        return sync_dir(files, root);
    }
    if !converted || original {
        return Err(
            decision_error(
                "repository is at neither the exact pre-conversion nor converted layout",
            ),
        );
    }
    Ok(())
}

/// Putting the root's pointer file in place, unless that was done before.
pub open spec fn pointer_run(f: FileSession, root: Seq<u8>, drawn: Nonces) -> (
    FileSession,
    Outcome<()>,
) {
    let git = child(root, lit(".git"));
    match bytes_step(f, FileRequest::Read(git)) {
        (f1, Ok(bytes)) => if bytes == lit(POINTER_CONTENTS) {
            (f1, Ok(()))
        } else {
            (f1, Err(needs_decision("the root .git pointer was replaced"@)))
        },
        (f1, Err(e)) => if e.kind == FailureKind::NotFound {
            match write_absent_run(
                f1,
                git,
                lit(POINTER_CONTENTS),
                TempStrategy::Auto,
                drawn,
            ) {
                (f2, Err(e)) => (f2, Err(e)),
                (f2, Ok(_)) => (f2, Ok(())),
            }
        } else {
            (f1, Err(failure("cannot inspect the root .git pointer: "@ + e.text)))
        },
    }
}

fn place_pointer<F: FileSystem + ?Sized>(files: &mut F, root: &[u8]) -> (r: (
    Result<()>,
    Ghost<Nonces>,
))
    ensures
        possible_nonces(r.1@),
        (final(files).files(), plain(r.0)) == pointer_run(old(files).files(), root@, r.1@),
{
    let git = join_word(root, ".git");
    let ghost none: Nonces = Seq::empty();
    match ask_bytes(files, FileRequest::Read(copied(git.as_slice()))) {
        Ok(bytes) => if is_lit(bytes.as_slice(), POINTER_CONTENTS) {
            (Ok(()), Ghost(none))
        } else {
            (Err(decision_error("the root .git pointer was replaced")), Ghost(none))
        },
        Err(e) => if e.kind == FailureKind::NotFound {
            let (r, drawn) = write_vacant(files, git.as_slice(), POINTER_CONTENTS.as_bytes());
            match r {
                Err(e) => (Err(e), drawn),
                Ok(_) => (Ok(()), drawn),
            }
        } else {
            (
                Err(
                    GroveError::failure(
                        text("cannot inspect the root .git pointer: ").concat(e.text.as_str()),
                    ),
                ),
                Ghost(none),
            )
        },
    }
}

/// Marking the repository bare, and asking Git whether it is.
pub open spec fn mark_bare_run(s: Session, bare: Seq<u8>) -> (Session, Outcome<()>) {
    let config = child(bare, lit("config"));
    match unset_layout_run(s, config) {
        (s1, Err(e)) => (s1, Err(e)),
        (s1, Ok(_)) => match git_run(
            s1,
            invoke(args5(lit("config"), lit("--file"), config, lit("core.bare"), lit("true"))),
            "mark converted repository bare",
        ) {
            (s2, Err(e)) => (s2, Err(e)),
            (s2, Ok(_)) => match git_run(
                s2,
                invoke_in(bare, args2(lit("rev-parse"), lit("--is-bare-repository"))),
                "verify bare conversion",
            ) {
                (s3, Err(e)) => (s3, Err(e)),
                (s3, Ok(out)) => if out.stdout == lit("true\n") && out.stderr.len() == 0 {
                    (s3, Ok(()))
                } else {
                    (
                        s3,
                        Err(
                            needs_decision(
                                "Git did not verify the converted repository as warning-free and bare"@,
                            ),
                        ),
                    )
                },
            },
        },
    }
}

fn mark_bare<R: GitRunner + ?Sized>(runner: &mut R, bare: &[u8]) -> (r: Result<()>)
    ensures
        (final(runner).session(), plain(r)) == mark_bare_run(old(runner).session(), bare@),
{
    let config = join_word(bare, "config");
    unset_layout(runner, config.as_slice())?;
    let _ = run_ok(
        runner,
        Invocation::new().word("config").word("--file").arg(config.as_slice()).word(
            "core.bare",
        ).word("true"),
        "mark converted repository bare",
    )?;
    let check = run_ok(
        runner,
        Invocation::new().git_dir(bare).word("rev-parse").word("--is-bare-repository"),
        "verify bare conversion",
    )?;
    if !is_lit(check.stdout.as_slice(), "true\n") || check.stderr.len() > 0 {
        return Err(
            decision_error("Git did not verify the converted repository as warning-free and bare"),
        );
    }
    Ok(())
}

/// Turning the Git directory into the bare repository.
#[verifier::opaque]
pub open spec fn install_bare_run(
    s: Session,
    f: FileSession,
    root: Seq<u8>,
    id: FileIdentity,
    drawn: Nonces,
) -> (Session, FileSession, Outcome<()>) {
    match move_run(f, root, id) {
        (f1, Err(e)) => (s, f1, Err(e)),
        (f1, Ok(_)) => match known_run(
            f1,
            bare_of(root),
            id,
            "the converted .bare directory no longer matches the original .git inode"@,
        ) {
            (f2, Err(e)) => (s, f2, Err(e)),
            (f2, Ok(_)) => match pointer_run(f2, root, drawn) {
                (f3, Err(e)) => (s, f3, Err(e)),
                (f3, Ok(_)) => {
                    let (s1, r) = mark_bare_run(s, bare_of(root));
                    (s1, f3, r)
                },
            },
        },
    }
}

/// Turns the Git directory into the bare repository.
pub(crate) fn install_bare_repository<R: GitRunner + ?Sized, F: FileSystem + ?Sized>(
    runner: &mut R,
    files: &mut F,
    root: &[u8],
    id: &FileIdentity,
) -> (r: (Result<()>, Ghost<Nonces>))
    ensures
        possible_nonces(r.1@),
        (final(runner).session(), final(files).files(), plain(r.0)) == install_bare_run(
            old(runner).session(),
            old(files).files(),
            root@,
            *id,
            r.1@,
        ),
{
    proof {
        reveal(install_bare_run);
    }
    let ghost none: Nonces = Seq::empty();
    let bare = join_word(root, ".bare");
    if let Err(e) = move_git(files, root, id) {
        return (Err(e), Ghost(none));
    }
    if let Err(e) = require_known(
        files,
        bare.as_slice(),
        id,
        "the converted .bare directory no longer matches the original .git inode",
    ) {
        return (Err(e), Ghost(none));
    }
    let (placed, drawn) = place_pointer(files, root);
    if let Err(e) = placed {
        return (Err(e), drawn);
    }
    (mark_bare(runner, bare.as_slice()), drawn)
}

// ------------------------------------------------------------- setting the checkout aside

/// Moving the entries at the root to the staging directory, from the one at `i` on. One that is
/// there already is checked, and left.
pub open spec fn aside_from(
    f: FileSession,
    manifest: Seq<ManifestView>,
    names: Seq<Seq<u8>>,
    root: Seq<u8>,
    staging: Seq<u8>,
    i: int,
) -> (FileSession, Outcome<()>)
    decreases names.len() - i,
{
    if i >= names.len() {
        (f, Ok(()))
    } else {
        match aside_run(f, manifest, names[i], root, staging) {
            (f1, Err(e)) => (f1, Err(e)),
            (f1, Ok(_)) => aside_from(f1, manifest, names, root, staging, i + 1),
        }
    }
}

/// Moving one entry at the root to the staging directory.
pub open spec fn aside_run(
    f: FileSession,
    manifest: Seq<ManifestView>,
    name: Seq<u8>,
    root: Seq<u8>,
    staging: Seq<u8>,
) -> (FileSession, Outcome<()>) {
    let source = child(root, name);
    let destination = child(staging, name);
    match there_run(f, source) {
        (f1, Err(e)) => (f1, Err(e)),
        (f1, Ok(before)) => match there_run(f1, destination) {
            (f2, Err(e)) => (f2, Err(e)),
            (f2, Ok(after)) => if before && !after {
                match component_run(f2, manifest, root, name, true) {
                    (f3, Err(e)) => (f3, Err(e)),
                    (f3, Ok(_)) => match attempt_run(
                        f3,
                        FileRequest::Rename(source, destination),
                        "cannot stage payload entry "@ + escape(name) + ": "@,
                    ) {
                        (f4, Err(e)) => (f4, Err(e)),
                        (f4, Ok(_)) => match sync_run(f4, root) {
                            (f5, Err(e)) => (f5, Err(e)),
                            (f5, Ok(_)) => sync_run(f5, staging),
                        },
                    },
                }
            } else if !before && after {
                component_run(f2, manifest, staging, name, false)
            } else {
                (
                    f2,
                    Err(
                        needs_decision(
                            "payload entry "@ + escape(name)
                                + " is at neither its exact before nor after location"@,
                        ),
                    ),
                )
            },
        },
    }
}

fn set_aside<F: FileSystem + ?Sized>(
    files: &mut F,
    manifest: &Vec<ManifestEntry>,
    name: &[u8],
    root: &[u8],
    staging: &[u8],
) -> (r: Result<()>)
    ensures
        (final(files).files(), plain(r)) == aside_run(
            old(files).files(),
            manifest_views(manifest@),
            name@,
            root@,
            staging@,
        ),
{
    let source = join_path(root, name);
    let destination = join_path(staging, name);
    let before = path_exists(files, source.as_slice())?;
    let after = path_exists(files, destination.as_slice())?;
    if before && !after {
        verify_manifest_component(files, manifest, root, name, true)?;
        attempt(
            files,
            FileRequest::Rename(source, destination),
            text("cannot stage payload entry ").concat(escaped(name).as_str()).concat(
                ": ",
            ).as_str(),
        )?;
        sync_dir(files, root)?;
        sync_dir(files, staging)
    } else if !before && after {
        verify_manifest_component(files, manifest, staging, name, false)
    } else {
        Err(
            GroveError::needs_decision(
                text("payload entry ").concat(escaped(name).as_str()).concat(
                    " is at neither its exact before nor after location",
                ),
            ),
        )
    }
}

/// Setting the whole checkout aside.
#[verifier::opaque]
pub open spec fn stage_payload_run(f: FileSession, manifest: Seq<ManifestView>, x: SiteView) -> (
    FileSession,
    Outcome<()>,
) {
    match tops(manifest) {
        Err(e) => (f, Err(e)),
        Ok(names) => aside_from(f, manifest, names, x.root, staging_of(x), 0),
    }
}

pub(crate) fn stage_payload<F: FileSystem + ?Sized>(files: &mut F, manifest: &Vec<ManifestEntry>, site: &Site) -> (r:
    Result<()>)
    ensures
        (final(files).files(), plain(r)) == stage_payload_run(
            old(files).files(),
            manifest_views(manifest@),
            site@,
        ),
{
    proof {
        reveal(stage_payload_run);
    }
    let names = payload_top_level(manifest)?;
    let staging = site.staging();
    let ghost all = views(names@);
    let mut i: usize = 0;
    proof {
        assert(all.len() == names@.len());
    }
    while i < names.len()
        invariant
            i <= names.len(),
            all == views(names@),
            all.len() == names@.len(),
            staging@ == staging_of(site@),
            stage_payload_run(old(files).files(), manifest_views(manifest@), site@) == aside_from(
                files.files(),
                manifest_views(manifest@),
                all,
                site@.root,
                staging@,
                i as int,
            ),
        decreases names.len() - i,
    {
        proof {
            assert(all[i as int] == names@[i as int]@);
        }
        set_aside(
            files,
            manifest,
            names[i].as_slice(),
            site.root.as_slice(),
            staging.as_slice(),
        )?;
        i = i + 1;
    }
    Ok(())
}

// ---------------------------------------------------------- a worktree for the checkout

/// Why the worktrees are locked until the adoption is complete.
pub open spec fn reason_of(nonce: Seq<u8>) -> Seq<u8> {
    vstd::utf8::encode_utf8("git-grove adopt transaction "@ + hex_text(nonce))
}

pub(crate) fn reason(nonce: &[u8]) -> (r: Vec<u8>)
    ensures
        r@ == reason_of(nonce@),
{
    let t = text("git-grove adopt transaction ").concat(hex(nonce).as_str());
    bytes_of(t.as_str())
}

/// The child that registers the checkout's worktree without touching a file.
pub open spec fn register_call(bare: Seq<u8>, head: HeadView, path: Seq<u8>, why: Seq<u8>) -> InvocationView {
    invoke_in(
        bare,
        match head {
            HeadView::Attached { branch } => args9(
                lit("worktree"),
                lit("add"),
                lit("--no-checkout"),
                lit("--lock"),
                lit("--reason"),
                why,
                lit("--"),
                path,
                branch,
            ),
            HeadView::Detached { oid } => args10(
                lit("worktree"),
                lit("add"),
                lit("--detach"),
                lit("--no-checkout"),
                lit("--lock"),
                lit("--reason"),
                why,
                lit("--"),
                path,
                oid,
            ),
        },
    )
}

pub open spec fn unverified_pointer(why: Seq<char>) -> ErrorView {
    needs_decision("cannot verify generated payload pointer: "@ + why)
}

/// Checking that Git put the administration where it was predicted.
pub open spec fn predicted_run(f: FileSession, x: SiteView) -> (FileSession, Outcome<()>) {
    match bytes_step(f, FileRequest::Read(child(payload_of(x), lit(".git")))) {
        (f1, Err(e)) => (f1, Err(unverified_pointer(e.text))),
        (f1, Ok(generated)) => if generated == x.pointer {
            (f1, Ok(()))
        } else {
            (
                f1,
                Err(
                    needs_decision("Git generated an unexpected payload administrative path"@),
                ),
            )
        },
    }
}

fn check_predicted<F: FileSystem + ?Sized>(files: &mut F, site: &Site) -> (r: Result<()>)
    ensures
        (final(files).files(), plain(r)) == predicted_run(old(files).files(), site@),
{
    let path = join_word(site.payload_path().as_slice(), ".git");
    match ask_bytes(files, FileRequest::Read(path)) {
        Err(e) => Err(
            GroveError::needs_decision(
                text("cannot verify generated payload pointer: ").concat(e.text.as_str()),
            ),
        ),
        Ok(generated) => if same(generated.as_slice(), site.pointer.as_slice()) {
            Ok(())
        } else {
            Err(decision_error("Git generated an unexpected payload administrative path"))
        },
    }
}

/// Registering the checkout's worktree, unless that was done before.
#[verifier::opaque]
pub open spec fn register_run(
    s: Session,
    f: FileSession,
    x: SiteView,
    head: HeadView,
    why: Seq<u8>,
) -> (Session, FileSession, Outcome<()>) {
    match there_run(f, payload_of(x)) {
        (f1, Err(e)) => (s, f1, Err(e)),
        (f1, Ok(true)) => {
            let (f2, r) = predicted_run(f1, x);
            (s, f2, r)
        },
        (f1, Ok(false)) => match parents_run(f1, x.root, x.payload) {
            (f2, Err(e)) => (s, f2, Err(e)),
            (f2, Ok(_)) => match git_run(
                s,
                register_call(bare_of(x.root), head, payload_of(x), why),
                "create payload worktree",
            ) {
                (s1, Err(e)) => (s1, f2, Err(e)),
                (s1, Ok(_)) => {
                    let (f3, r) = predicted_run(f2, x);
                    (s1, f3, r)
                },
            },
        },
    }
}

pub(crate) fn create_payload_worktree<R: GitRunner + ?Sized, F: FileSystem + ?Sized>(
    runner: &mut R,
    files: &mut F,
    site: &Site,
    head: &HeadProof,
    why: &[u8],
) -> (r: Result<()>)
    ensures
        (final(runner).session(), final(files).files(), plain(r)) == register_run(
            old(runner).session(),
            old(files).files(),
            site@,
            head@,
            why@,
        ),
{
    proof {
        reveal(register_run);
    }
    let path = site.payload_path();
    if !path_exists(files, path.as_slice())? {
        create_parents(files, site.root.as_slice(), site.payload.as_slice())?;
        let start = Invocation::new().git_dir(site.bare().as_slice()).word("worktree").word("add");
        let invocation = match head {
            HeadProof::Attached { branch } => start.word("--no-checkout").word("--lock").word(
                "--reason",
            ).arg(why).word("--").arg(path.as_slice()).arg(branch.as_slice()),
            HeadProof::Detached { oid } => start.word("--detach").word("--no-checkout").word(
                "--lock",
            ).word("--reason").arg(why).word("--").arg(path.as_slice()).arg(oid.as_slice()),
        };
        let _ = run_ok(runner, invocation, "create payload worktree")?;
    }
    check_predicted(files, site)
}

// ------------------------------------------------------------ the checkout in its place

/// Whether one path names something, and another does or does not. The second is looked at only
/// where the first does.
pub open spec fn both_run(f: FileSession, a: Seq<u8>, b: Seq<u8>, wanted: bool) -> (
    FileSession,
    Outcome<bool>,
) {
    match there_run(f, a) {
        (f1, Err(e)) => (f1, Err(e)),
        (f1, Ok(false)) => (f1, Ok(false)),
        (f1, Ok(true)) => match there_run(f1, b) {
            (f2, Err(e)) => (f2, Err(e)),
            (f2, Ok(found)) => (f2, Ok(found == wanted)),
        },
    }
}

fn both<F: FileSystem + ?Sized>(files: &mut F, a: &[u8], b: &[u8], wanted: bool) -> (r: Result<bool>)
    ensures
        (final(files).files(), plain(r)) == both_run(old(files).files(), a@, b@, wanted),
{
    if !path_exists(files, a)? {
        return Ok(false);
    }
    let found = path_exists(files, b)?;
    Ok(found == wanted)
}

/// A request that is made only where it is due.
pub open spec fn if_due(
    due: (FileSession, Outcome<bool>),
    request: FileRequest<Seq<u8>>,
    what: Seq<char>,
) -> (FileSession, Outcome<()>) {
    match due {
        (f1, Err(e)) => (f1, Err(e)),
        (f1, Ok(false)) => (f1, Ok(())),
        (f1, Ok(true)) => attempt_run(f1, request, what),
    }
}

/// Whether the pointer that Git generated is still to be set aside.
pub open spec fn pointer_due_run(f: FileSession, x: SiteView) -> (FileSession, Outcome<bool>) {
    match both_run(f, staging_of(x), child(payload_of(x), lit(".git")), true) {
        (f1, Err(e)) => (f1, Err(e)),
        (f1, Ok(false)) => (f1, Ok(false)),
        (f1, Ok(true)) => match there_run(f1, aside_of(x)) {
            (f2, Err(e)) => (f2, Err(e)),
            (f2, Ok(found)) => (f2, Ok(!found)),
        },
    }
}

/// Setting the generated pointer aside and removing the directory that Git made for it.
pub open spec fn clear_run(f: FileSession, x: SiteView) -> (FileSession, Outcome<()>) {
    let pointer = child(payload_of(x), lit(".git"));
    match if_due(
        pointer_due_run(f, x),
        FileRequest::Rename(pointer, aside_of(x)),
        "cannot preserve generated payload pointer: "@,
    ) {
        (f1, Err(e)) => (f1, Err(e)),
        (f1, Ok(_)) => match both_run(f1, aside_of(x), payload_of(x), true) {
            (f2, Err(e)) => (f2, Err(e)),
            (f2, Ok(false)) => (f2, Ok(())),
            (f2, Ok(true)) => venture_run(
                f2,
                FileRequest::RemoveDirectory(payload_of(x)),
                "generated payload directory was not empty: "@,
            ),
        },
    }
}

fn clear_generated<F: FileSystem + ?Sized>(files: &mut F, site: &Site) -> (r: Result<()>)
    ensures
        (final(files).files(), plain(r)) == clear_run(old(files).files(), site@),
{
    let staging = site.staging();
    let payload = site.payload_path();
    let pointer = join_word(payload.as_slice(), ".git");
    let aside = join_word(site.transaction.as_slice(), "payload.git");
    if both(files, staging.as_slice(), pointer.as_slice(), true)? && !path_exists(
        files,
        aside.as_slice(),
    )? {
        attempt(
            files,
            FileRequest::Rename(pointer, copied(aside.as_slice())),
            "cannot preserve generated payload pointer: ",
        )?;
    }
    if both(files, aside.as_slice(), payload.as_slice(), true)? {
        venture(
            files,
            FileRequest::RemoveDirectory(payload),
            "generated payload directory was not empty: ",
        )?;
    }
    Ok(())
}

/// Moving the checkout, and then the pointer, into the vacant place.
pub open spec fn fill_run(f: FileSession, x: SiteView) -> (FileSession, Outcome<()>) {
    let pointer = child(payload_of(x), lit(".git"));
    match if_due(
        both_run(f, staging_of(x), payload_of(x), false),
        FileRequest::Rename(staging_of(x), payload_of(x)),
        "cannot install staged payload: "@,
    ) {
        (f1, Err(e)) => (f1, Err(e)),
        (f1, Ok(_)) => if_due(
            both_run(f1, aside_of(x), pointer, false),
            FileRequest::Rename(aside_of(x), pointer),
            "cannot install payload pointer: "@,
        ),
    }
}

fn fill_place<F: FileSystem + ?Sized>(files: &mut F, site: &Site) -> (r: Result<()>)
    ensures
        (final(files).files(), plain(r)) == fill_run(old(files).files(), site@),
{
    let staging = site.staging();
    let payload = site.payload_path();
    let pointer = join_word(payload.as_slice(), ".git");
    let aside = join_word(site.transaction.as_slice(), "payload.git");
    if both(files, staging.as_slice(), payload.as_slice(), false)? {
        attempt(
            files,
            FileRequest::Rename(staging, payload),
            "cannot install staged payload: ",
        )?;
    }
    if both(files, aside.as_slice(), pointer.as_slice(), false)? {
        attempt(files, FileRequest::Rename(aside, pointer), "cannot install payload pointer: ")?;
    }
    Ok(())
}

/// Whether the checkout is in its place: nothing is left aside, and the pointer is the one
/// predicted.
pub open spec fn installed_run(f: FileSession, x: SiteView) -> (FileSession, Outcome<bool>) {
    match there_run(f, staging_of(x)) {
        (f1, Err(e)) => (f1, Err(e)),
        (f1, Ok(true)) => (f1, Ok(false)),
        (f1, Ok(false)) => match there_run(f1, aside_of(x)) {
            (f2, Err(e)) => (f2, Err(e)),
            (f2, Ok(true)) => (f2, Ok(false)),
            (f2, Ok(false)) => {
                let (f3, right) = holds_run(f2, child(payload_of(x), lit(".git")), x.pointer);
                (f3, Ok(right))
            },
        },
    }
}

pub(crate) fn is_installed<F: FileSystem + ?Sized>(files: &mut F, site: &Site) -> (r: Result<bool>)
    ensures
        (final(files).files(), plain(r)) == installed_run(old(files).files(), site@),
{
    if path_exists(files, site.staging().as_slice())? {
        return Ok(false);
    }
    let aside = join_word(site.transaction.as_slice(), "payload.git");
    if path_exists(files, aside.as_slice())? {
        return Ok(false);
    }
    let pointer = join_word(site.payload_path().as_slice(), ".git");
    Ok(holds(files, pointer.as_slice(), site.pointer.as_slice()))
}

/// Putting the checkout in its place.
#[verifier::opaque]
pub open spec fn install_payload_run(f: FileSession, x: SiteView) -> (FileSession, Outcome<()>) {
    match clear_run(f, x) {
        (f1, Err(e)) => (f1, Err(e)),
        (f1, Ok(_)) => match fill_run(f1, x) {
            (f2, Err(e)) => (f2, Err(e)),
            (f2, Ok(_)) => match installed_run(f2, x) {
                (f3, Err(e)) => (f3, Err(e)),
                (f3, Ok(false)) => (
                    f3,
                    Err(
                        needs_decision(
                            "payload replacement is at neither its exact before nor after state"@,
                        ),
                    ),
                ),
                (f3, Ok(true)) => match sync_run(f3, x.root) {
                    (f4, Err(e)) => (f4, Err(e)),
                    (f4, Ok(_)) => sync_run(f4, payload_of(x)),
                },
            },
        },
    }
}

pub(crate) fn install_payload<F: FileSystem + ?Sized>(files: &mut F, site: &Site) -> (r: Result<()>)
    ensures
        (final(files).files(), plain(r)) == install_payload_run(old(files).files(), site@),
{
    proof {
        reveal(install_payload_run);
    }
    clear_generated(files, site)?;
    fill_place(files, site)?;
    if !is_installed(files, site)? {
        return Err(
            decision_error("payload replacement is at neither its exact before nor after state"),
        );
    }
    sync_dir(files, site.root.as_slice())?;
    sync_dir(files, site.payload_path().as_slice())
}

// ------------------------------------------------------------------- private state

pub open spec fn unremoved(why: Seq<char>) -> ErrorView {
    failure("cannot remove generated private state: "@ + why)
}

/// Removing what Git generated in the place of a private file.
pub open spec fn vacate_run(f: FileSession, path: Seq<u8>) -> (FileSession, Outcome<()>) {
    match facts_step(f, FileRequest::Inspect(path)) {
        (f1, Ok(facts)) => attempt_run(
            f1,
            if facts.kind == FileKind::Directory {
                FileRequest::RemoveDirectory(path)
            } else {
                FileRequest::RemoveFile(path)
            },
            "cannot remove generated private state: "@,
        ),
        (f1, Err(e)) => if e.kind == FailureKind::NotFound {
            (f1, Ok(()))
        } else {
            (f1, Err(unremoved(e.text)))
        },
    }
}

fn vacate<F: FileSystem + ?Sized>(files: &mut F, path: &[u8]) -> (r: Result<()>)
    ensures
        (final(files).files(), plain(r)) == vacate_run(old(files).files(), path@),
{
    match ask_facts(files, FileRequest::Inspect(copied(path))) {
        Ok(facts) => {
            let request = if facts.kind == FileKind::Directory {
                FileRequest::RemoveDirectory(copied(path))
            } else {
                FileRequest::RemoveFile(copied(path))
            };
            attempt(files, request, "cannot remove generated private state: ")
        },
        Err(e) => if e.kind == FailureKind::NotFound {
            Ok(())
        } else {
            Err(
                GroveError::failure(
                    text("cannot remove generated private state: ").concat(e.text.as_str()),
                ),
            )
        },
    }
}

/// The directories on the way to a file.
pub open spec fn way_run(f: FileSession, path: Seq<u8>, what: Seq<char>) -> (FileSession, Outcome<()>) {
    match parent_of(path) {
        None => (f, Ok(())),
        Some(parent) => attempt_run(f, FileRequest::CreateDirectories(parent), what),
    }
}

pub(crate) fn make_way<F: FileSystem + ?Sized>(files: &mut F, path: &[u8], what: &str) -> (r: Result<()>)
    ensures
        (final(files).files(), plain(r)) == way_run(old(files).files(), path@, what@),
{
    match parent_path(path) {
        None => Ok(()),
        Some(parent) => attempt(files, FileRequest::CreateDirectories(parent), what),
    }
}

/// Moving one private file to the checkout's administration, unless it is there already.
pub open spec fn migrate_one_run(
    s: Session,
    f: FileSession,
    n: NamedView,
    bare: Seq<u8>,
    admin: Seq<u8>,
) -> (Session, FileSession, Outcome<()>) {
    let source = child(bare, n.path);
    let destination = child(admin, n.path);
    match matches_run(f, destination, n.blob) {
        (f1, Err(e)) => (s, f1, Err(e)),
        (f1, Ok(true)) => (s, f1, Ok(())),
        (f1, Ok(false)) => match matches_run(f1, source, n.blob) {
            (f2, Err(e)) => (s, f2, Err(e)),
            (f2, Ok(false)) => (
                s,
                f2,
                Err(
                    needs_decision(
                        "private state "@ + escape(n.path)
                            + " is at neither its exact source nor destination"@,
                    ),
                ),
            ),
            (f2, Ok(true)) => match way_run(
                f2,
                destination,
                "cannot create private-state parent: "@,
            ) {
                (f3, Err(e)) => (s, f3, Err(e)),
                (f3, Ok(_)) => match vacate_run(f3, destination) {
                    (f4, Err(e)) => (s, f4, Err(e)),
                    (f4, Ok(_)) => match attempt_run(
                        f4,
                        FileRequest::Rename(source, destination),
                        "cannot migrate "@ + escape(n.path) + ": "@,
                    ) {
                        (f5, Err(e)) => (s, f5, Err(e)),
                        (f5, Ok(_)) => if same_path(n.path, lit("config.worktree")) {
                            let (s1, r) = unset_layout_run(s, destination);
                            (s1, f5, r)
                        } else {
                            (s, f5, Ok(()))
                        },
                    },
                },
            },
        },
    }
}

fn migrate_one<R: GitRunner + ?Sized, F: FileSystem + ?Sized>(
    runner: &mut R,
    files: &mut F,
    n: &NamedBlobProof,
    bare: &[u8],
    admin: &[u8],
) -> (r: Result<()>)
    ensures
        (final(runner).session(), final(files).files(), plain(r)) == migrate_one_run(
            old(runner).session(),
            old(files).files(),
            n@,
            bare@,
            admin@,
        ),
{
    let path = n.path.as_slice();
    let source = join_path(bare, path);
    let destination = join_path(admin, path);
    if blob_matches(files, destination.as_slice(), &n.blob)? {
        return Ok(());
    }
    if !blob_matches(files, source.as_slice(), &n.blob)? {
        return Err(
            GroveError::needs_decision(
                text("private state ").concat(escaped(path).as_str()).concat(
                    " is at neither its exact source nor destination",
                ),
            ),
        );
    }
    make_way(files, destination.as_slice(), "cannot create private-state parent: ")?;
    vacate(files, destination.as_slice())?;
    attempt(
        files,
        FileRequest::Rename(source, copied(destination.as_slice())),
        text("cannot migrate ").concat(escaped(path).as_str()).concat(": ").as_str(),
    )?;
    if is_same_path(path, "config.worktree".as_bytes()) {
        unset_layout(runner, destination.as_slice())?;
    }
    Ok(())
}

/// Moving the private files from the one at `i` on.
pub open spec fn migrate_from(
    s: Session,
    f: FileSession,
    list: Seq<NamedView>,
    bare: Seq<u8>,
    admin: Seq<u8>,
    i: int,
) -> (Session, FileSession, Outcome<()>)
    decreases list.len() - i,
{
    if i >= list.len() {
        match sync_run(f, bare) {
            (f1, Err(e)) => (s, f1, Err(e)),
            (f1, Ok(_)) => {
                let (f2, r) = sync_run(f1, admin);
                (s, f2, r)
            },
        }
    } else {
        match migrate_one_run(s, f, list[i], bare, admin) {
            (s1, f1, Err(e)) => (s1, f1, Err(e)),
            (s1, f1, Ok(_)) => migrate_from(s1, f1, list, bare, admin, i + 1),
        }
    }
}

fn migrate_private_state<R: GitRunner + ?Sized, F: FileSystem + ?Sized>(
    runner: &mut R,
    files: &mut F,
    list: &Vec<NamedBlobProof>,
    bare: &[u8],
    admin: &[u8],
) -> (r: Result<()>)
    ensures
        (final(runner).session(), final(files).files(), plain(r)) == migrate_from(
            old(runner).session(),
            old(files).files(),
            named_views(list@),
            bare@,
            admin@,
            0,
        ),
{
    let ghost all = named_views(list@);
    let mut i: usize = 0;
    proof {
        assert(all.len() == list@.len());
    }
    while i < list.len()
        invariant
            i <= list.len(),
            all == named_views(list@),
            all.len() == list@.len(),
            migrate_from(
                old(runner).session(),
                old(files).files(),
                all,
                bare@,
                admin@,
                0,
            ) == migrate_from(
                runner.session(),
                files.files(),
                all,
                bare@,
                admin@,
                i as int,
            ),
        decreases list.len() - i,
    {
        proof {
            assert(all[i as int] == list@[i as int]@);
        }
        migrate_one(runner, files, &list[i], bare, admin)?;
        i = i + 1;
    }
    sync_dir(files, bare)?;
    sync_dir(files, admin)
}

/// The state that Git reports of the checkout must be what it reported before.
pub open spec fn snapshot_again_run(
    s: Session,
    payload: Seq<u8>,
    words: Seq<&str>,
    expected: Seq<u8>,
    description: &str,
) -> (Session, Outcome<()>) {
    match step(s, quiet(payload, lits(words))) {
        (s1, Err(e)) => (s1, Err(e)),
        (s1, Ok(out)) => if out.ok() && out.stdout == expected {
            (s1, Ok(()))
        } else {
            (
                s1,
                Err(
                    needs_decision(
                        "adopted payload "@ + description@
                            + " differs from the exact preflight snapshot"@,
                    ),
                ),
            )
        },
    }
}

fn snapshot_again<R: GitRunner + ?Sized>(
    runner: &mut R,
    payload: &[u8],
    words: &[&str],
    expected: &[u8],
    description: &str,
) -> (r: Result<()>)
    ensures
        (final(runner).session(), plain(r)) == snapshot_again_run(
            old(runner).session(),
            payload@,
            words@,
            expected@,
            description,
        ),
{
    proof {
        assert(Seq::<Seq<u8>>::empty() + lits(words@) =~= lits(words@));
    }
    let output = runner.run(quietly(payload).args(words))?;
    if !output.ok() || !same(output.stdout.as_slice(), expected) {
        return Err(
            GroveError::needs_decision(
                text("adopted payload ").concat(description).concat(
                    " differs from the exact preflight snapshot",
                ),
            ),
        );
    }
    Ok(())
}

/// Everything that Git reports of the checkout must be what it reported before.
pub open spec fn snapshots_run(s: Session, payload: Seq<u8>, o: OriginalView) -> (
    Session,
    Outcome<()>,
) {
    match snapshot_again_run(s, payload, status_words(), o.status.bytes, "status") {
        (s1, Err(e)) => (s1, Err(e)),
        (s1, Ok(_)) => match snapshot_again_run(
            s1,
            payload,
            stage_words(),
            o.stages.bytes,
            "index stages",
        ) {
            (s2, Err(e)) => (s2, Err(e)),
            (s2, Ok(_)) => snapshot_again_run(
                s2,
                payload,
                flag_words(),
                o.verbose.bytes,
                "index flags",
            ),
        },
    }
}

pub(crate) fn verify_payload_snapshots<R: GitRunner + ?Sized>(
    runner: &mut R,
    payload: &[u8],
    original: &OriginalEvidence,
) -> (r: Result<()>)
    ensures
        (final(runner).session(), plain(r)) == snapshots_run(
            old(runner).session(),
            payload@,
            original@,
        ),
{
    let status = [
        "status",
        "--porcelain=v2",
        "-z",
        "--branch",
        "--untracked-files=all",
        "--ignored=matching",
    ];
    let stages = ["ls-files", "--stage", "-z"];
    let flags = ["ls-files", "-v", "-z"];
    proof {
        assert(status@ =~= status_words());
        assert(stages@ =~= stage_words());
        assert(flags@ =~= flag_words());
    }
    snapshot_again(
        runner,
        payload,
        vstd::array::array_as_slice(&status),
        original.status_porcelain_v2_z.bytes.as_slice(),
        "status",
    )?;
    snapshot_again(
        runner,
        payload,
        vstd::array::array_as_slice(&stages),
        original.ls_files_stage_z.bytes.as_slice(),
        "index stages",
    )?;
    snapshot_again(
        runner,
        payload,
        vstd::array::array_as_slice(&flags),
        original.ls_files_verbose_z.bytes.as_slice(),
        "index flags",
    )
}

/// What the bare repository's `HEAD` holds.
pub open spec fn head_contents(branch: Seq<u8>) -> Seq<u8> {
    lit("ref: refs/heads/") + branch + lit("\n")
}

/// Marking the bare repository's own worktree configuration, where worktrees have one each.
pub open spec fn mark_main_run(s: Session, bare: Seq<u8>, separate: bool) -> (Session, Outcome<()>) {
    if !separate {
        (s, Ok(()))
    } else {
        match unset_layout_run(s, child(bare, lit("config"))) {
            (s1, Err(e)) => (s1, Err(e)),
            (s1, Ok(_)) => match git_run(
                s1,
                invoke(
                    args5(
                        lit("config"),
                        lit("--file"),
                        child(bare, lit("config.worktree")),
                        lit("core.bare"),
                        lit("true"),
                    ),
                ),
                "mark the bare main worktree configuration",
            ) {
                (s2, Err(e)) => (s2, Err(e)),
                (s2, Ok(_)) => (s2, Ok(())),
            },
        }
    }
}

fn mark_main<R: GitRunner + ?Sized>(runner: &mut R, bare: &[u8], separate: bool) -> (r: Result<()>)
    ensures
        (final(runner).session(), plain(r)) == mark_main_run(
            old(runner).session(),
            bare@,
            separate,
        ),
{
    if !separate {
        return Ok(());
    }
    unset_layout(runner, join_word(bare, "config").as_slice())?;
    let _ = run_ok(
        runner,
        Invocation::new().word("config").word("--file").arg(
            join_word(bare, "config.worktree").as_slice(),
        ).word("core.bare").word("true"),
        "mark the bare main worktree configuration",
    )?;
    Ok(())
}

/// Giving the checkout's worktree its private files, and the bare repository a `HEAD` of its own.
#[verifier::opaque]
pub open spec fn install_private_run(
    s: Session,
    f: FileSession,
    x: SiteView,
    p: PlanView,
    d: Draws,
) -> (Session, FileSession, Outcome<()>) {
    let bare = bare_of(x.root);
    match config_bool_run(s, child(bare, lit("config")), "extensions.worktreeConfig") {
        (s1, Err(e)) => (s1, f, Err(e)),
        (s1, Ok(separate)) => match migrate_from(
            s1,
            f,
            p.original.private_state,
            bare,
            x.admin,
            0,
        ) {
            (s2, f2, Err(e)) => (s2, f2, Err(e)),
            (s2, f2, Ok(_)) => match mark_main_run(s2, bare, separate) {
                (s3, Err(e)) => (s3, f2, Err(e)),
                (s3, Ok(_)) => match write_run(
                    f2,
                    child(bare, lit("HEAD")),
                    head_contents(p.decisions.default_branch),
                    TempStrategy::Auto,
                    d,
                ) {
                    (f4, Err(e)) => (s3, f4, Err(e)),
                    (f4, Ok(_)) => match manifest_run(
                        f4,
                        p.original.manifest,
                        payload_of(x),
                        false,
                    ) {
                        (f5, Err(e)) => (s3, f5, Err(e)),
                        (f5, Ok(_)) => {
                            let (s6, r) = snapshots_run(s3, payload_of(x), p.original);
                            (s6, f5, r)
                        },
                    },
                },
            },
        },
    }
}

pub(crate) fn install_private_state<R: GitRunner + ?Sized, F: FileSystem + ?Sized>(
    runner: &mut R,
    files: &mut F,
    site: &Site,
    plan: &ImmutablePlan,
) -> (r: (Result<()>, Ghost<Draws>))
    ensures
        possible_draws(r.1@),
        (final(runner).session(), final(files).files(), plain(r.0)) == install_private_run(
            old(runner).session(),
            old(files).files(),
            site@,
            plan@,
            r.1@,
        ),
{
    proof {
        reveal(install_private_run);
    }
    let bare = site.bare();
    let payload = site.payload_path();
    let separate = match config_bool(
        runner,
        join_word(bare.as_slice(), "config").as_slice(),
        "extensions.worktreeConfig",
    ) {
        Err(e) => return (Err(e), Ghost(no_draws())),
        Ok(separate) => separate,
    };
    if let Err(e) = migrate_private_state(
        runner,
        files,
        &plan.original.private_state,
        bare.as_slice(),
        site.admin.as_slice(),
    ) {
        return (Err(e), Ghost(no_draws()));
    }
    if let Err(e) = mark_main(runner, bare.as_slice(), separate) {
        return (Err(e), Ghost(no_draws()));
    }
    let contents = joined(
        prefixed("ref: refs/heads/", plan.decisions.default_branch.as_slice()).as_slice(),
        "\n".as_bytes(),
    );
    let (written, d) = write_file(
        files,
        join_word(bare.as_slice(), "HEAD").as_slice(),
        contents.as_slice(),
    );
    if let Err(e) = written {
        return (Err(e), d);
    }
    if let Err(e) = verify_manifest(
        files,
        &plan.original.payload_manifest,
        payload.as_slice(),
        false,
    ) {
        return (Err(e), d);
    }
    (verify_payload_snapshots(runner, payload.as_slice(), &plan.original), d)
}

} // verus!
