//! Converting a repository back: where a phase stands, and how it is undone.
use vstd::prelude::*;
use crate::bytes::{copied, lit, prefixed, same, views};
use crate::commands::adopt::evidence::{
    manifest_views, named_views, BlobProof, BlobView, ManifestEntry, ManifestView, NamedBlobProof,
    NamedView,
};
use crate::commands::adopt::forward::{
    aside_of, installed_run, is_installed, make_way, payload_of, staging_of, way_run, Site,
    SiteView,
};
use crate::commands::adopt::journal::{ImmutablePlan, PlanView};
use crate::commands::adopt::steps::{
    attempt, attempt_run, blob_matches, config_bool, config_bool_run, directory_run, git_run,
    holds, holds_run, located, located_run, lock_if_unlocked, lock_run, manifest_run, matches_run,
    no_draws, path_exists, payload_top_level, real_directory, restore_blob, restore_run, run_ok,
    sync_dir, sync_run, there_run, tops, unlock_if_locked, unlock_run, venture, venture_run,
    verify_manifest,
};
use crate::error::{
    decision_error, failure, failure_error, needs_decision, plain, ErrorView, GroveError, Result,
};
use crate::fsx::files::{
    ask_found, found_step, FileRequest, FileSession, FileSystem,
};
use crate::fsx::write::{possible_draws, Draws};
use crate::git::config::Outcome;
use crate::git::runner::{
    args3, args4, args5, invoke, invoke_in, GitRunner, Invocation, InvocationView, Session,
};
use crate::grove::discover::bare_of;
use crate::grove::layout::POINTER_CONTENTS;
use crate::path::{child, is_same_path, join_path, join_word, same_path};
use crate::text::{escape, escaped, text};

verus! {

// ------------------------------------------------------------------- where a phase stands

/// Whether all of the names from `i` on lead to something in a directory.
pub open spec fn all_lead_from(f: FileSession, base: Seq<u8>, names: Seq<Seq<u8>>, i: int) -> (
    FileSession,
    bool,
)
    decreases names.len() - i,
{
    if i >= names.len() {
        (f, true)
    } else {
        match found_step(f, FileRequest::Exists(child(base, names[i]))) {
            (f1, false) => (f1, false),
            (f1, true) => all_lead_from(f1, base, names, i + 1),
        }
    }
}

fn all_lead<F: FileSystem + ?Sized>(files: &mut F, base: &[u8], names: &Vec<Vec<u8>>) -> (r: bool)
    ensures
        (final(files).files(), r) == all_lead_from(old(files).files(), base@, views(names@), 0),
{
    let ghost all = views(names@);
    let mut i: usize = 0;
    proof {
        assert(all.len() == names@.len());
    }
    while i < names.len()
        invariant
            i <= names.len(),
            all == views(names@),
            all.len() == names@.len(),
            all_lead_from(old(files).files(), base@, all, 0) == all_lead_from(
                files.files(),
                base@,
                all,
                i as int,
            ),
        decreases names.len() - i,
    {
        proof {
            assert(all[i as int] == names@[i as int]@);
        }
        if !ask_found(files, FileRequest::Exists(join_path(base, names[i].as_slice()))) {
            return false;
        }
        i = i + 1;
    }
    true
}

/// Whether all of the files from `i` on hold, below a directory, what they held.
pub open spec fn all_match_from(f: FileSession, base: Seq<u8>, list: Seq<NamedView>, i: int) -> (
    FileSession,
    Outcome<bool>,
)
    decreases list.len() - i,
{
    if i >= list.len() {
        (f, Ok(true))
    } else {
        match matches_run(f, child(base, list[i].path), list[i].blob) {
            (f1, Err(e)) => (f1, Err(e)),
            (f1, Ok(false)) => (f1, Ok(false)),
            (f1, Ok(true)) => all_match_from(f1, base, list, i + 1),
        }
    }
}

fn all_match<F: FileSystem + ?Sized>(files: &mut F, base: &[u8], list: &Vec<NamedBlobProof>) -> (r:
    Result<bool>)
    ensures
        (final(files).files(), plain(r)) == all_match_from(
            old(files).files(),
            base@,
            named_views(list@),
            0,
        ),
{
    let ghost all = named_views(list@);
    let mut i: usize = 0;
    proof {
        assert(all.len() == list@.len());
    }
    while i < list.len()
        invariant
            i <= list.len(),
            all == named_views(list@),
            all.len() == list@.len(),
            all_match_from(old(files).files(), base@, all, 0) == all_match_from(
                files.files(),
                base@,
                all,
                i as int,
            ),
        decreases list.len() - i,
    {
        proof {
            assert(all[i as int] == list@[i as int]@);
        }
        let path = join_path(base, list[i].path.as_slice());
        if !blob_matches(files, path.as_slice(), &list[i].blob)? {
            return Ok(false);
        }
        i = i + 1;
    }
    Ok(true)
}

/// Whether the entries at the root are all in a directory.
pub open spec fn tops_in_run(f: FileSession, manifest: Seq<ManifestView>, base: Seq<u8>) -> (
    FileSession,
    Outcome<bool>,
) {
    match tops(manifest) {
        Err(e) => (f, Err(e)),
        Ok(names) => {
            let (f1, r) = all_lead_from(f, base, names, 0);
            (f1, Ok(r))
        },
    }
}

fn tops_in<F: FileSystem + ?Sized>(files: &mut F, manifest: &Vec<ManifestEntry>, base: &[u8]) -> (r:
    Result<bool>)
    ensures
        (final(files).files(), plain(r)) == tops_in_run(
            old(files).files(),
            manifest_views(manifest@),
            base@,
        ),
{
    let names = payload_top_level(manifest)?;
    Ok(all_lead(files, base, &names))
}

/// Whether both worktrees are locked, or both are not, as `wanted` has it.
pub open spec fn locks_run(f: FileSession, x: SiteView, wanted: bool) -> (FileSession, Outcome<bool>) {
    match there_run(f, child(x.admin, lit("locked"))) {
        (f1, Err(e)) => (f1, Err(e)),
        (f1, Ok(found)) => if found != wanted {
            (f1, Ok(false))
        } else {
            match x.default {
                None => (f1, Ok(true)),
                Some(relative) => match located_run(
                    f1,
                    child(x.root, relative),
                    "cannot inspect default worktree lock: ",
                ) {
                    (f2, Err(e)) => (f2, Err(e)),
                    (f2, Ok(admin)) => match there_run(f2, child(admin, lit("locked"))) {
                        (f3, Err(e)) => (f3, Err(e)),
                        (f3, Ok(second)) => (f3, Ok(second == wanted)),
                    },
                },
            }
        },
    }
}

fn locks_are<F: FileSystem + ?Sized>(files: &mut F, site: &Site, wanted: bool) -> (r: Result<bool>)
    ensures
        (final(files).files(), plain(r)) == locks_run(old(files).files(), site@, wanted),
{
    let found = path_exists(files, join_word(site.admin.as_slice(), "locked").as_slice())?;
    if found != wanted {
        return Ok(false);
    }
    match &site.default {
        None => Ok(true),
        Some(relative) => {
            let path = join_path(site.root.as_slice(), relative.as_slice());
            let admin = located(
                files,
                path.as_slice(),
                "cannot inspect default worktree lock: ",
            )?;
            let second = path_exists(files, join_word(admin.as_slice(), "locked").as_slice())?;
            Ok(second == wanted)
        },
    }
}

/// Whether one path names a directory and another names nothing. The second is looked at only
/// where the first does.
pub open spec fn only_directory_run(f: FileSession, a: Seq<u8>, b: Seq<u8>) -> (
    FileSession,
    Outcome<bool>,
) {
    match directory_run(f, a) {
        (f1, Err(e)) => (f1, Err(e)),
        (f1, Ok(false)) => (f1, Ok(false)),
        (f1, Ok(true)) => match there_run(f1, b) {
            (f2, Err(e)) => (f2, Err(e)),
            (f2, Ok(found)) => (f2, Ok(!found)),
        },
    }
}

/// Whether neither of two paths names anything. The second is looked at only where the first
/// does not.
pub open spec fn neither_run(f: FileSession, a: Seq<u8>, b: Seq<u8>) -> (
    FileSession,
    Outcome<bool>,
) {
    match there_run(f, a) {
        (f1, Err(e)) => (f1, Err(e)),
        (f1, Ok(true)) => (f1, Ok(false)),
        (f1, Ok(false)) => match there_run(f1, b) {
            (f2, Err(e)) => (f2, Err(e)),
            (f2, Ok(found)) => (f2, Ok(!found)),
        },
    }
}

pub open spec fn not_there_run(f: FileSession, path: Seq<u8>) -> (FileSession, Outcome<bool>) {
    match there_run(f, path) {
        (f1, Err(e)) => (f1, Err(e)),
        (f1, Ok(found)) => (f1, Ok(!found)),
    }
}

pub open spec fn unknown_phase() -> ErrorView {
    failure("unknown adoption phase"@)
}

/// Whether a phase has not begun: everything is exactly as it was before it.
pub open spec fn before_run(f: FileSession, x: SiteView, p: PlanView, k: int) -> (
    FileSession,
    Outcome<bool>,
) {
    if k == 0 {
        not_there_run(f, staging_of(x))
    } else if k == 1 {
        only_directory_run(f, child(x.root, lit(".git")), bare_of(x.root))
    } else if k == 2 {
        tops_in_run(f, p.original.manifest, x.root)
    } else if k == 3 {
        neither_run(f, payload_of(x), x.admin)
    } else if k == 4 {
        match there_run(f, staging_of(x)) {
            (f1, Err(e)) => (f1, Err(e)),
            (f1, Ok(false)) => (f1, Ok(false)),
            (f1, Ok(true)) => {
                let (f2, right) = holds_run(f1, child(payload_of(x), lit(".git")), x.pointer);
                (f2, Ok(right))
            },
        }
    } else if k == 5 {
        all_match_from(f, bare_of(x.root), p.original.private_state, 0)
    } else if k == 6 {
        match x.default {
            None => (f, Ok(true)),
            Some(relative) => not_there_run(f, child(x.root, relative)),
        }
    } else if k == 7 {
        locks_run(f, x, true)
    } else {
        (f, Err(unknown_phase()))
    }
}

/// Whether a phase is through: everything is exactly as it leaves it.
pub open spec fn after_run(f: FileSession, x: SiteView, p: PlanView, k: int) -> (
    FileSession,
    Outcome<bool>,
) {
    if k == 0 {
        directory_run(f, staging_of(x))
    } else if k == 1 {
        match directory_run(f, bare_of(x.root)) {
            (f1, Err(e)) => (f1, Err(e)),
            (f1, Ok(false)) => (f1, Ok(false)),
            (f1, Ok(true)) => {
                let (f2, right) = holds_run(
                    f1,
                    child(x.root, lit(".git")),
                    lit(POINTER_CONTENTS),
                );
                (f2, Ok(right))
            },
        }
    } else if k == 2 {
        tops_in_run(f, p.original.manifest, staging_of(x))
    } else if k == 3 {
        let (f1, right) = holds_run(f, child(payload_of(x), lit(".git")), x.pointer);
        (f1, Ok(right))
    } else if k == 4 {
        installed_run(f, x)
    } else if k == 5 {
        all_match_from(f, x.admin, p.original.private_state, 0)
    } else if k == 6 {
        match x.default {
            None => (f, Ok(true)),
            Some(relative) => there_run(f, child(child(x.root, relative), lit(".git"))),
        }
    } else if k == 7 {
        locks_run(f, x, false)
    } else {
        (f, Err(unknown_phase()))
    }
}

/// Whether a phase has not begun.
pub fn phase_is_before<F: FileSystem + ?Sized>(
    files: &mut F,
    site: &Site,
    plan: &ImmutablePlan,
    k: usize,
) -> (r: Result<bool>)
    ensures
        (final(files).files(), plain(r)) == before_run(
            old(files).files(),
            site@,
            plan@,
            k as int,
        ),
{
    if k == 0 {
        let found = path_exists(files, site.staging().as_slice())?;
        Ok(!found)
    } else if k == 1 {
        if !real_directory(files, join_word(site.root.as_slice(), ".git").as_slice())? {
            return Ok(false);
        }
        let found = path_exists(files, site.bare().as_slice())?;
        Ok(!found)
    } else if k == 2 {
        tops_in(files, &plan.original.payload_manifest, site.root.as_slice())
    } else if k == 3 {
        if path_exists(files, site.payload_path().as_slice())? {
            return Ok(false);
        }
        let found = path_exists(files, site.admin.as_slice())?;
        Ok(!found)
    } else if k == 4 {
        if !path_exists(files, site.staging().as_slice())? {
            return Ok(false);
        }
        let pointer = join_word(site.payload_path().as_slice(), ".git");
        Ok(holds(files, pointer.as_slice(), site.pointer.as_slice()))
    } else if k == 5 {
        all_match(files, site.bare().as_slice(), &plan.original.private_state)
    } else if k == 6 {
        match &site.default {
            None => Ok(true),
            Some(relative) => {
                let path = join_path(site.root.as_slice(), relative.as_slice());
                let found = path_exists(files, path.as_slice())?;
                Ok(!found)
            },
        }
    } else if k == 7 {
        locks_are(files, site, true)
    } else {
        Err(failure_error("unknown adoption phase"))
    }
}

/// Whether a phase is through.
pub fn phase_is_after<F: FileSystem + ?Sized>(
    files: &mut F,
    site: &Site,
    plan: &ImmutablePlan,
    k: usize,
) -> (r: Result<bool>)
    ensures
        (final(files).files(), plain(r)) == after_run(
            old(files).files(),
            site@,
            plan@,
            k as int,
        ),
{
    if k == 0 {
        real_directory(files, site.staging().as_slice())
    } else if k == 1 {
        if !real_directory(files, site.bare().as_slice())? {
            return Ok(false);
        }
        let pointer = join_word(site.root.as_slice(), ".git");
        Ok(holds(files, pointer.as_slice(), POINTER_CONTENTS.as_bytes()))
    } else if k == 2 {
        tops_in(files, &plan.original.payload_manifest, site.staging().as_slice())
    } else if k == 3 {
        let pointer = join_word(site.payload_path().as_slice(), ".git");
        Ok(holds(files, pointer.as_slice(), site.pointer.as_slice()))
    } else if k == 4 {
        is_installed(files, site)
    } else if k == 5 {
        all_match(files, site.admin.as_slice(), &plan.original.private_state)
    } else if k == 6 {
        match &site.default {
            None => Ok(true),
            Some(relative) => {
                let path = join_path(site.root.as_slice(), relative.as_slice());
                path_exists(files, join_word(path.as_slice(), ".git").as_slice())
            },
        }
    } else if k == 7 {
        locks_are(files, site, false)
    } else {
        Err(failure_error("unknown adoption phase"))
    }
}

// ------------------------------------------------------------------ undoing the last ones

pub open spec fn rollback_reason() -> Seq<u8> {
    lit("git-grove adopt transaction rollback")
}

/// Locking the worktrees again.
#[verifier::opaque]
pub open spec fn relock_run(s: Session, f: FileSession, x: SiteView) -> (
    Session,
    FileSession,
    Outcome<()>,
) {
    match lock_run(s, f, bare_of(x.root), payload_of(x), rollback_reason()) {
        (s1, f1, Err(e)) => (s1, f1, Err(e)),
        (s1, f1, Ok(_)) => match x.default {
            None => (s1, f1, Ok(())),
            Some(relative) => lock_run(
                s1,
                f1,
                bare_of(x.root),
                child(x.root, relative),
                rollback_reason(),
            ),
        },
    }
}

fn relock_generated_worktrees<R: GitRunner + ?Sized, F: FileSystem + ?Sized>(
    runner: &mut R,
    files: &mut F,
    site: &Site,
) -> (r: Result<()>)
    ensures
        (final(runner).session(), final(files).files(), plain(r)) == relock_run(
            old(runner).session(),
            old(files).files(),
            site@,
        ),
{
    proof {
        reveal(relock_run);
    }
    let why = "git-grove adopt transaction rollback".as_bytes();
    let bare = site.bare();
    lock_if_unlocked(runner, files, bare.as_slice(), site.payload_path().as_slice(), why)?;
    match &site.default {
        None => Ok(()),
        Some(relative) => lock_if_unlocked(
            runner,
            files,
            bare.as_slice(),
            join_path(site.root.as_slice(), relative.as_slice()).as_slice(),
            why,
        ),
    }
}

pub open spec fn remove_call(bare: Seq<u8>, path: Seq<u8>) -> InvocationView {
    invoke_in(bare, args5(lit("worktree"), lit("remove"), lit("--force"), lit("--"), path))
}

fn removal(bare: &[u8], path: &[u8]) -> (r: Invocation)
    ensures
        r@ == remove_call(bare@, path@),
{
    Invocation::new().git_dir(bare).word("worktree").word("remove").word("--force").word("--").arg(
        path,
    )
}

/// Removing the generated worktree, if it is there and nothing in it was touched.
pub open spec fn remove_second_run(s: Session, f: FileSession, bare: Seq<u8>, path: Seq<u8>) -> (
    Session,
    FileSession,
    Outcome<()>,
) {
    match there_run(f, path) {
        (f1, Err(e)) => (s, f1, Err(e)),
        (f1, Ok(false)) => (s, f1, Ok(())),
        (f1, Ok(true)) => match git_run(
            s,
            (InvocationView {
                cwd: Some(path),
                ..invoke(args3(lit("status"), lit("--porcelain"), lit("-z")))
            }),
            "verify generated default worktree",
        ) {
            (s1, Err(e)) => (s1, f1, Err(e)),
            (s1, Ok(status)) => if status.stdout.len() > 0 {
                (
                    s1,
                    f1,
                    Err(
                        needs_decision(
                            "generated default worktree was modified; refusing rollback"@,
                        ),
                    ),
                )
            } else {
                match unlock_run(s1, f1, bare, path) {
                    (s2, f2, Err(e)) => (s2, f2, Err(e)),
                    (s2, f2, Ok(_)) => match git_run(
                        s2,
                        remove_call(bare, path),
                        "remove generated default worktree",
                    ) {
                        (s3, Err(e)) => (s3, f2, Err(e)),
                        (s3, Ok(_)) => (s3, f2, Ok(())),
                    },
                }
            },
        },
    }
}

fn remove_second<R: GitRunner + ?Sized, F: FileSystem + ?Sized>(
    runner: &mut R,
    files: &mut F,
    bare: &[u8],
    path: &[u8],
) -> (r: Result<()>)
    ensures
        (final(runner).session(), final(files).files(), plain(r)) == remove_second_run(
            old(runner).session(),
            old(files).files(),
            bare@,
            path@,
        ),
{
    if !path_exists(files, path)? {
        return Ok(());
    }
    let status = run_ok(
        runner,
        Invocation::new().cwd(path).word("status").word("--porcelain").word("-z"),
        "verify generated default worktree",
    )?;
    if status.stdout.len() > 0 {
        return Err(decision_error("generated default worktree was modified; refusing rollback"));
    }
    unlock_if_locked(runner, files, bare, path)?;
    let _ = run_ok(runner, removal(bare, path), "remove generated default worktree")?;
    Ok(())
}

/// Whether a ref had a file of its own before the adoption.
pub open spec fn had_ref(refs: Seq<NamedView>, reference: Seq<u8>) -> bool {
    exists|i: int| 0 <= i < refs.len() && (#[trigger] refs[i]).path == reference
}

fn has_ref(refs: &Vec<NamedBlobProof>, reference: &[u8]) -> (r: bool)
    ensures
        r == had_ref(named_views(refs@), reference@),
{
    let ghost all = named_views(refs@);
    let mut i: usize = 0;
    while i < refs.len()
        invariant
            i <= refs.len(),
            all == named_views(refs@),
            all.len() == refs@.len(),
            forall|j: int| 0 <= j < i ==> (#[trigger] all[j]).path != reference@,
        decreases refs.len() - i,
    {
        proof {
            assert(all[i as int] == refs@[i as int]@);
        }
        if same(refs[i].path.as_slice(), reference) {
            proof {
                assert(all[i as int].path == reference@);
            }
            return true;
        }
        i = i + 1;
    }
    false
}

/// Removing the worktree for the default branch, and the branch where the adoption made it.
#[verifier::opaque]
pub open spec fn remove_default_run(s: Session, f: FileSession, x: SiteView, p: PlanView) -> (
    Session,
    FileSession,
    Outcome<()>,
) {
    match x.default {
        None => (s, f, Ok(())),
        Some(relative) => match remove_second_run(
            s,
            f,
            bare_of(x.root),
            child(x.root, relative),
        ) {
            (s1, f1, Err(e)) => (s1, f1, Err(e)),
            (s1, f1, Ok(_)) => {
                let local = lit("refs/heads/") + p.decisions.default_branch;
                if had_ref(p.original.refs, local) {
                    (s1, f1, Ok(()))
                } else {
                    match git_run(
                        s1,
                        invoke_in(
                            bare_of(x.root),
                            args4(lit("update-ref"), lit("-d"), lit("--"), local),
                        ),
                        "remove generated local default branch",
                    ) {
                        (s2, Err(e)) => (s2, f1, Err(e)),
                        (s2, Ok(_)) => (s2, f1, Ok(())),
                    }
                }
            },
        },
    }
}

fn remove_default_worktree<R: GitRunner + ?Sized, F: FileSystem + ?Sized>(
    runner: &mut R,
    files: &mut F,
    site: &Site,
    plan: &ImmutablePlan,
) -> (r: Result<()>)
    ensures
        (final(runner).session(), final(files).files(), plain(r)) == remove_default_run(
            old(runner).session(),
            old(files).files(),
            site@,
            plan@,
        ),
{
    proof {
        reveal(remove_default_run);
    }
    let relative = match &site.default {
        None => return Ok(()),
        Some(relative) => relative.as_slice(),
    };
    let bare = site.bare();
    let path = join_path(site.root.as_slice(), relative);
    remove_second(runner, files, bare.as_slice(), path.as_slice())?;
    let local = prefixed("refs/heads/", plan.decisions.default_branch.as_slice());
    if !has_ref(&plan.original.refs, local.as_slice()) {
        let _ = run_ok(
            runner,
            Invocation::new().git_dir(bare.as_slice()).word("update-ref").word("-d").word(
                "--",
            ).arg(local.as_slice()),
            "remove generated local default branch",
        )?;
    }
    Ok(())
}

// ------------------------------------------------------------------- private state, back

/// Whether what occupies a private file's place may be removed: it is one of the two that the
/// adoption itself put there.
pub open spec fn removable_run(s: Session, path: Seq<u8>, destination: Seq<u8>) -> (
    Session,
    Outcome<bool>,
) {
    if same_path(path, lit("HEAD")) {
        (s, Ok(true))
    } else if same_path(path, lit("config.worktree")) {
        config_bool_run(s, destination, "core.bare")
    } else {
        (s, Ok(false))
    }
}

fn removable<R: GitRunner + ?Sized>(runner: &mut R, path: &[u8], destination: &[u8]) -> (r: Result<
    bool,
>)
    ensures
        (final(runner).session(), plain(r)) == removable_run(
            old(runner).session(),
            path@,
            destination@,
        ),
{
    if is_same_path(path, "HEAD".as_bytes()) {
        Ok(true)
    } else if is_same_path(path, "config.worktree".as_bytes()) {
        config_bool(runner, destination, "core.bare")
    } else {
        Ok(false)
    }
}

/// Clearing the place that a private file goes back to.
pub open spec fn clear_place_run(
    s: Session,
    f: FileSession,
    path: Seq<u8>,
    destination: Seq<u8>,
) -> (Session, FileSession, Outcome<()>) {
    match there_run(f, destination) {
        (f1, Err(e)) => (s, f1, Err(e)),
        (f1, Ok(false)) => (s, f1, Ok(())),
        (f1, Ok(true)) => match removable_run(s, path, destination) {
            (s1, Err(e)) => (s1, f1, Err(e)),
            (s1, Ok(false)) => (
                s1,
                f1,
                Err(
                    needs_decision(
                        "private-state destination "@ + escape(path)
                            + " is unexpectedly occupied"@,
                    ),
                ),
            ),
            (s1, Ok(true)) => {
                let (f2, r) = attempt_run(
                    f1,
                    FileRequest::RemoveFile(destination),
                    "cannot remove generated private state: "@,
                );
                (s1, f2, r)
            },
        },
    }
}

fn clear_place<R: GitRunner + ?Sized, F: FileSystem + ?Sized>(
    runner: &mut R,
    files: &mut F,
    path: &[u8],
    destination: &[u8],
) -> (r: Result<()>)
    ensures
        (final(runner).session(), final(files).files(), plain(r)) == clear_place_run(
            old(runner).session(),
            old(files).files(),
            path@,
            destination@,
        ),
{
    if !path_exists(files, destination)? {
        return Ok(());
    }
    if !removable(runner, path, destination)? {
        return Err(
            GroveError::needs_decision(
                text("private-state destination ").concat(escaped(path).as_str()).concat(
                    " is unexpectedly occupied",
                ),
            ),
        );
    }
    attempt(
        files,
        FileRequest::RemoveFile(copied(destination)),
        "cannot remove generated private state: ",
    )
}

/// Moving one private file back, unless it is back already.
pub open spec fn restore_one_run(
    s: Session,
    f: FileSession,
    n: NamedView,
    bare: Seq<u8>,
    admin: Seq<u8>,
) -> (Session, FileSession, Outcome<()>) {
    let source = child(admin, n.path);
    let destination = child(bare, n.path);
    match matches_run(f, destination, n.blob) {
        (f1, Err(e)) => (s, f1, Err(e)),
        (f1, Ok(true)) => (s, f1, Ok(())),
        (f1, Ok(false)) => match matches_run(f1, source, n.blob) {
            (f2, Err(e)) => (s, f2, Err(e)),
            (f2, Ok(false)) => (
                s,
                f2,
                Err(
                    needs_decision(
                        "private state "@ + escape(n.path)
                            + " was modified; refusing rollback"@,
                    ),
                ),
            ),
            (f2, Ok(true)) => match clear_place_run(s, f2, n.path, destination) {
                (s3, f3, Err(e)) => (s3, f3, Err(e)),
                (s3, f3, Ok(_)) => match way_run(
                    f3,
                    destination,
                    "cannot restore private-state parent: "@,
                ) {
                    (f4, Err(e)) => (s3, f4, Err(e)),
                    (f4, Ok(_)) => {
                        let (f5, r) = attempt_run(
                            f4,
                            FileRequest::Rename(source, destination),
                            "cannot restore private state: "@,
                        );
                        (s3, f5, r)
                    },
                },
            },
        },
    }
}

fn restore_one<R: GitRunner + ?Sized, F: FileSystem + ?Sized>(
    runner: &mut R,
    files: &mut F,
    n: &NamedBlobProof,
    bare: &[u8],
    admin: &[u8],
) -> (r: Result<()>)
    ensures
        (final(runner).session(), final(files).files(), plain(r)) == restore_one_run(
            old(runner).session(),
            old(files).files(),
            n@,
            bare@,
            admin@,
        ),
{
    let path = n.path.as_slice();
    let source = join_path(admin, path);
    let destination = join_path(bare, path);
    if blob_matches(files, destination.as_slice(), &n.blob)? {
        return Ok(());
    }
    if !blob_matches(files, source.as_slice(), &n.blob)? {
        return Err(
            GroveError::needs_decision(
                text("private state ").concat(escaped(path).as_str()).concat(
                    " was modified; refusing rollback",
                ),
            ),
        );
    }
    clear_place(runner, files, path, destination.as_slice())?;
    make_way(files, destination.as_slice(), "cannot restore private-state parent: ")?;
    attempt(
        files,
        FileRequest::Rename(source, destination),
        "cannot restore private state: ",
    )
}

/// Moving the first `n` private files back, the last one first.
pub open spec fn restore_down(
    s: Session,
    f: FileSession,
    list: Seq<NamedView>,
    bare: Seq<u8>,
    admin: Seq<u8>,
    n: int,
) -> (Session, FileSession, Outcome<()>)
    decreases n,
{
    if n <= 0 {
        (s, f, Ok(()))
    } else {
        match restore_one_run(s, f, list[n - 1], bare, admin) {
            (s1, f1, Err(e)) => (s1, f1, Err(e)),
            (s1, f1, Ok(_)) => restore_down(s1, f1, list, bare, admin, n - 1),
        }
    }
}

fn restore_list<R: GitRunner + ?Sized, F: FileSystem + ?Sized>(
    runner: &mut R,
    files: &mut F,
    list: &Vec<NamedBlobProof>,
    bare: &[u8],
    admin: &[u8],
) -> (r: Result<()>)
    ensures
        (final(runner).session(), final(files).files(), plain(r)) == restore_down(
            old(runner).session(),
            old(files).files(),
            named_views(list@),
            bare@,
            admin@,
            named_views(list@).len() as int,
        ),
{
    let ghost all = named_views(list@);
    let mut n: usize = list.len();
    proof {
        assert(all.len() == list@.len());
    }
    while n > 0
        invariant
            n <= list.len(),
            all == named_views(list@),
            all.len() == list@.len(),
            restore_down(
                old(runner).session(),
                old(files).files(),
                all,
                bare@,
                admin@,
                all.len() as int,
            ) == restore_down(
                runner.session(),
                files.files(),
                all,
                bare@,
                admin@,
                n as int,
            ),
        decreases n,
    {
        proof {
            assert(all[n - 1] == list@[n - 1]@);
        }
        restore_one(runner, files, &list[n - 1], bare, admin)?;
        n = n - 1;
    }
    Ok(())
}

/// Moving the private files back, and the configuration to what it was.
#[verifier::opaque]
pub open spec fn restore_private_run(
    s: Session,
    f: FileSession,
    x: SiteView,
    p: PlanView,
    d: Draws,
) -> (Session, FileSession, Outcome<()>) {
    let bare = bare_of(x.root);
    match restore_down(
        s,
        f,
        p.original.private_state,
        bare,
        x.admin,
        p.original.private_state.len() as int,
    ) {
        (s1, f1, Err(e)) => (s1, f1, Err(e)),
        (s1, f1, Ok(_)) => match restore_run(
            f1,
            child(bare, lit("config")),
            p.original.config,
            d,
        ) {
            (f2, Err(e)) => (s1, f2, Err(e)),
            (f2, Ok(_)) => {
                let (f3, r) = sync_run(f2, bare);
                (s1, f3, r)
            },
        },
    }
}

fn restore_private_state<R: GitRunner + ?Sized, F: FileSystem + ?Sized>(
    runner: &mut R,
    files: &mut F,
    site: &Site,
    plan: &ImmutablePlan,
) -> (r: (Result<()>, Ghost<Draws>))
    ensures
        possible_draws(r.1@),
        (final(runner).session(), final(files).files(), plain(r.0)) == restore_private_run(
            old(runner).session(),
            old(files).files(),
            site@,
            plan@,
            r.1@,
        ),
{
    proof {
        reveal(restore_private_run);
    }
    let bare = site.bare();
    if let Err(e) = restore_list(
        runner,
        files,
        &plan.original.private_state,
        bare.as_slice(),
        site.admin.as_slice(),
    ) {
        return (Err(e), Ghost(no_draws()));
    }
    let (restored, d) = restore_blob(
        files,
        join_word(bare.as_slice(), "config").as_slice(),
        &plan.original.config,
    );
    if let Err(e) = restored {
        return (Err(e), d);
    }
    (sync_dir(files, bare.as_slice()), d)
}

// --------------------------------------------------------------------- the checkout, back

/// Setting the checkout aside again, where nothing in it was touched.
#[verifier::opaque]
pub open spec fn restage_run(f: FileSession, x: SiteView, manifest: Seq<ManifestView>) -> (
    FileSession,
    Outcome<()>,
) {
    let pointer = child(payload_of(x), lit(".git"));
    match manifest_run(f, manifest, payload_of(x), false) {
        (f1, Err(e)) => (f1, Err(e)),
        (f1, Ok(_)) => match holds_run(f1, pointer, x.pointer) {
            (f2, false) => (
                f2,
                Err(
                    needs_decision("generated payload pointer was modified; refusing rollback"@),
                ),
            ),
            (f2, true) => match attempt_run(
                f2,
                FileRequest::Rename(pointer, aside_of(x)),
                "cannot stage payload pointer: "@,
            ) {
                (f3, Err(e)) => (f3, Err(e)),
                (f3, Ok(_)) => match attempt_run(
                    f3,
                    FileRequest::Rename(payload_of(x), staging_of(x)),
                    "cannot restage payload: "@,
                ) {
                    (f4, Err(e)) => (f4, Err(e)),
                    (f4, Ok(_)) => match attempt_run(
                        f4,
                        FileRequest::CreateDirectory(payload_of(x)),
                        "cannot recreate generated payload directory: "@,
                    ) {
                        (f5, Err(e)) => (f5, Err(e)),
                        (f5, Ok(_)) => match attempt_run(
                            f5,
                            FileRequest::Rename(aside_of(x), pointer),
                            "cannot restore generated payload pointer: "@,
                        ) {
                            (f6, Err(e)) => (f6, Err(e)),
                            (f6, Ok(_)) => sync_run(f6, x.root),
                        },
                    },
                },
            },
        },
    }
}

fn stage_installed_payload<F: FileSystem + ?Sized>(
    files: &mut F,
    site: &Site,
    manifest: &Vec<ManifestEntry>,
) -> (r: Result<()>)
    ensures
        (final(files).files(), plain(r)) == restage_run(
            old(files).files(),
            site@,
            manifest_views(manifest@),
        ),
{
    proof {
        reveal(restage_run);
    }
    let payload = site.payload_path();
    let pointer = join_word(payload.as_slice(), ".git");
    let aside = join_word(site.transaction.as_slice(), "payload.git");
    verify_manifest(files, manifest, payload.as_slice(), false)?;
    if !holds(files, pointer.as_slice(), site.pointer.as_slice()) {
        return Err(decision_error("generated payload pointer was modified; refusing rollback"));
    }
    attempt(
        files,
        FileRequest::Rename(copied(pointer.as_slice()), copied(aside.as_slice())),
        "cannot stage payload pointer: ",
    )?;
    attempt(
        files,
        FileRequest::Rename(copied(payload.as_slice()), site.staging()),
        "cannot restage payload: ",
    )?;
    attempt(
        files,
        FileRequest::CreateDirectory(payload),
        "cannot recreate generated payload directory: ",
    )?;
    attempt(
        files,
        FileRequest::Rename(aside, pointer),
        "cannot restore generated payload pointer: ",
    )?;
    sync_dir(files, site.root.as_slice())
}

/// Removing the registration of the checkout's worktree.
#[verifier::opaque]
pub open spec fn unregister_run(s: Session, f: FileSession, x: SiteView) -> (
    Session,
    FileSession,
    Outcome<()>,
) {
    match unlock_run(s, f, bare_of(x.root), payload_of(x)) {
        (s1, f1, Err(e)) => (s1, f1, Err(e)),
        (s1, f1, Ok(_)) => match git_run(
            s1,
            remove_call(bare_of(x.root), payload_of(x)),
            "remove generated payload registration",
        ) {
            (s2, Err(e)) => (s2, f1, Err(e)),
            (s2, Ok(_)) => (s2, f1, Ok(())),
        },
    }
}

fn remove_payload_registration<R: GitRunner + ?Sized, F: FileSystem + ?Sized>(
    runner: &mut R,
    files: &mut F,
    site: &Site,
) -> (r: Result<()>)
    ensures
        (final(runner).session(), final(files).files(), plain(r)) == unregister_run(
            old(runner).session(),
            old(files).files(),
            site@,
        ),
{
    proof {
        reveal(unregister_run);
    }
    let bare = site.bare();
    let payload = site.payload_path();
    unlock_if_locked(runner, files, bare.as_slice(), payload.as_slice())?;
    let _ = run_ok(
        runner,
        removal(bare.as_slice(), payload.as_slice()),
        "remove generated payload registration",
    )?;
    Ok(())
}

/// Moving the entries back to the root, from the one at `i` on.
pub open spec fn back_from(
    f: FileSession,
    names: Seq<Seq<u8>>,
    root: Seq<u8>,
    staging: Seq<u8>,
    i: int,
) -> (FileSession, Outcome<()>)
    decreases names.len() - i,
{
    if i >= names.len() {
        sync_run(f, root)
    } else {
        match back_run(f, names[i], root, staging) {
            (f1, Err(e)) => (f1, Err(e)),
            (f1, Ok(_)) => back_from(f1, names, root, staging, i + 1),
        }
    }
}

pub open spec fn unsafe_return(name: Seq<u8>) -> ErrorView {
    needs_decision("cannot safely restore payload entry "@ + escape(name))
}

/// Moving one entry back to the root: it must be where it was put, and its place must be free.
pub open spec fn back_run(f: FileSession, name: Seq<u8>, root: Seq<u8>, staging: Seq<u8>) -> (
    FileSession,
    Outcome<()>,
) {
    match there_run(f, child(root, name)) {
        (f1, Err(e)) => (f1, Err(e)),
        (f1, Ok(true)) => (f1, Err(unsafe_return(name))),
        (f1, Ok(false)) => match there_run(f1, child(staging, name)) {
            (f2, Err(e)) => (f2, Err(e)),
            (f2, Ok(false)) => (f2, Err(unsafe_return(name))),
            (f2, Ok(true)) => attempt_run(
                f2,
                FileRequest::Rename(child(staging, name), child(root, name)),
                "cannot restore payload entry: "@,
            ),
        },
    }
}

fn bring_back<F: FileSystem + ?Sized>(files: &mut F, name: &[u8], root: &[u8], staging: &[u8]) -> (r:
    Result<()>)
    ensures
        (final(files).files(), plain(r)) == back_run(
            old(files).files(),
            name@,
            root@,
            staging@,
        ),
{
    let source = join_path(staging, name);
    let destination = join_path(root, name);
    if path_exists(files, destination.as_slice())? || !path_exists(files, source.as_slice())? {
        return Err(
            GroveError::needs_decision(
                text("cannot safely restore payload entry ").concat(escaped(name).as_str()),
            ),
        );
    }
    attempt(files, FileRequest::Rename(source, destination), "cannot restore payload entry: ")
}

#[verifier::opaque]
pub open spec fn restore_payload_run(f: FileSession, x: SiteView, manifest: Seq<ManifestView>) -> (
    FileSession,
    Outcome<()>,
) {
    match tops(manifest) {
        Err(e) => (f, Err(e)),
        Ok(names) => back_from(f, names, x.root, staging_of(x), 0),
    }
}

fn restore_payload_entries<F: FileSystem + ?Sized>(
    files: &mut F,
    site: &Site,
    manifest: &Vec<ManifestEntry>,
) -> (r: Result<()>)
    ensures
        (final(files).files(), plain(r)) == restore_payload_run(
            old(files).files(),
            site@,
            manifest_views(manifest@),
        ),
{
    proof {
        reveal(restore_payload_run);
    }
    let names = payload_top_level(manifest)?;
    let staging = site.staging();
    let ghost all = views(names@);
    let mut i: usize = 0;
    proof {
        assert(all.len() == names@.len());
    }
    while i < names.len()
        invariant
            i <= names.len(),
            all == views(names@),
            all.len() == names@.len(),
            staging@ == staging_of(site@),
            restore_payload_run(old(files).files(), site@, manifest_views(manifest@))
                == back_from(files.files(), all, site@.root, staging@, i as int),
        decreases names.len() - i,
    {
        proof {
            assert(all[i as int] == names@[i as int]@);
        }
        bring_back(files, names[i].as_slice(), site.root.as_slice(), staging.as_slice())?;
        i = i + 1;
    }
    sync_dir(files, site.root.as_slice())
}

// ----------------------------------------------------------------- the Git directory, back

/// Turning the bare repository back into the Git directory.
#[verifier::opaque]
pub open spec fn restore_git_run(f: FileSession, x: SiteView, config: BlobView, d: Draws) -> (
    FileSession,
    Outcome<()>,
) {
    let bare = bare_of(x.root);
    let pointer = child(x.root, lit(".git"));
    match restore_run(f, child(bare, lit("config")), config, d) {
        (f1, Err(e)) => (f1, Err(e)),
        (f1, Ok(_)) => match holds_run(f1, pointer, lit(POINTER_CONTENTS)) {
            (f2, false) => (
                f2,
                Err(needs_decision("root .git pointer was modified; refusing rollback"@)),
            ),
            (f2, true) => match attempt_run(
                f2,
                FileRequest::RemoveFile(pointer),
                "cannot remove root .git pointer: "@,
            ) {
                (f3, Err(e)) => (f3, Err(e)),
                (f3, Ok(_)) => match attempt_run(
                    f3,
                    FileRequest::Rename(bare, pointer),
                    "cannot restore .git directory: "@,
                ) {
                    (f4, Err(e)) => (f4, Err(e)),
                    (f4, Ok(_)) => sync_run(f4, x.root),
                },
            },
        },
    }
}

fn restore_git_directory<F: FileSystem + ?Sized>(files: &mut F, site: &Site, config: &BlobProof) -> (r: (
    Result<()>,
    Ghost<Draws>,
))
    ensures
        possible_draws(r.1@),
        (final(files).files(), plain(r.0)) == restore_git_run(
            old(files).files(),
            site@,
            config@,
            r.1@,
        ),
{
    proof {
        reveal(restore_git_run);
    }
    let bare = site.bare();
    let pointer = join_word(site.root.as_slice(), ".git");
    let (restored, d) = restore_blob(
        files,
        join_word(bare.as_slice(), "config").as_slice(),
        config,
    );
    if let Err(e) = restored {
        return (Err(e), d);
    }
    if !holds(files, pointer.as_slice(), POINTER_CONTENTS.as_bytes()) {
        return (Err(decision_error("root .git pointer was modified; refusing rollback")), d);
    }
    if let Err(e) = attempt(
        files,
        FileRequest::RemoveFile(copied(pointer.as_slice())),
        "cannot remove root .git pointer: ",
    ) {
        return (Err(e), d);
    }
    if let Err(e) = attempt(
        files,
        FileRequest::Rename(bare, pointer),
        "cannot restore .git directory: ",
    ) {
        return (Err(e), d);
    }
    (sync_dir(files, site.root.as_slice()), d)
}

// ----------------------------------------------------------------------------- dispatch

/// Undoing one phase.
#[verifier::opaque]
pub open spec fn reverse_run(
    s: Session,
    f: FileSession,
    x: SiteView,
    p: PlanView,
    k: int,
    d: Draws,
) -> (Session, FileSession, Outcome<()>) {
    if k == 7 {
        relock_run(s, f, x)
    } else if k == 6 {
        remove_default_run(s, f, x, p)
    } else if k == 5 {
        restore_private_run(s, f, x, p, d)
    } else if k == 4 {
        let (f1, r) = restage_run(f, x, p.original.manifest);
        (s, f1, r)
    } else if k == 3 {
        unregister_run(s, f, x)
    } else if k == 2 {
        let (f1, r) = restore_payload_run(f, x, p.original.manifest);
        (s, f1, r)
    } else if k == 1 {
        let (f1, r) = restore_git_run(f, x, p.original.config, d);
        (s, f1, r)
    } else if k == 0 {
        match venture_run(
            f,
            FileRequest::RemoveDirectory(staging_of(x)),
            "cannot remove payload staging directory: "@,
        ) {
            (f1, Err(e)) => (s, f1, Err(e)),
            (f1, Ok(_)) => {
                let (f2, r) = sync_run(f1, x.transaction);
                (s, f2, r)
            },
        }
    } else {
        (s, f, Err(unknown_phase()))
    }
}

/// Undoes one phase.
pub(crate) fn reverse_phase<R: GitRunner + ?Sized, F: FileSystem + ?Sized>(
    runner: &mut R,
    files: &mut F,
    site: &Site,
    plan: &ImmutablePlan,
    k: usize,
) -> (r: (Result<()>, Ghost<Draws>))
    ensures
        possible_draws(r.1@),
        (final(runner).session(), final(files).files(), plain(r.0)) == reverse_run(
            old(runner).session(),
            old(files).files(),
            site@,
            plan@,
            k as int,
            r.1@,
        ),
{
    proof {
        reveal(reverse_run);
    }
    if k == 7 {
        (relock_generated_worktrees(runner, files, site), Ghost(no_draws()))
    } else if k == 6 {
        (remove_default_worktree(runner, files, site, plan), Ghost(no_draws()))
    } else if k == 5 {
        restore_private_state(runner, files, site, plan)
    } else if k == 4 {
        (
            stage_installed_payload(files, site, &plan.original.payload_manifest),
            Ghost(no_draws()),
        )
    } else if k == 3 {
        (remove_payload_registration(runner, files, site), Ghost(no_draws()))
    } else if k == 2 {
        (
            restore_payload_entries(files, site, &plan.original.payload_manifest),
            Ghost(no_draws()),
        )
    } else if k == 1 {
        restore_git_directory(files, site, &plan.original.config)
    } else if k == 0 {
        if let Err(e) = venture(
            files,
            FileRequest::RemoveDirectory(site.staging()),
            "cannot remove payload staging directory: ",
        ) {
            return (Err(e), Ghost(no_draws()));
        }
        (sync_dir(files, site.transaction.as_slice()), Ghost(no_draws()))
    } else {
        (Err(failure_error("unknown adoption phase")), Ghost(no_draws()))
    }
}

} // verus!
