//! Which files of a Git directory belong to its one worktree, and which to the repository.
use vstd::prelude::*;
use crate::bytes::{
    copied, has_prefix, is_lit, joined, lemma_views_push, lit, same, starts_with, views,
};
use crate::commands::adopt::evidence::{
    git_views, lemma_named_views_push, named_views, same_manifests, manifests_match, GitEntry,
    Inventory, InventoryView, NamedBlobProof, NamedView,
};
use crate::commands::adopt::inventory::{
    named_blob, named_blob_run, named_from, named_list_outcome, paths_of,
};
use crate::commands::adopt::queries::{
    git_error, git_failure, line_or_nothing, one_line_allow_empty, quiet, quietly, GitList,
};
use crate::error::{decision_error, list_outcome, needs_decision, plain, ErrorView, Result};
use crate::fsx::directory::{HeldDirectory, HeldView};
use crate::fsx::files::{FileSession, FileSystem};
use crate::fsx::held::{
    file_kind, identities_match, kind_of, same_identity, same_stable, same_stable_file,
    FileIdentity, FileKind,
};
use crate::git::config::Outcome;
use crate::git::runner::{args2, args5, step, GitRunner, Session};
use crate::order::{
    is_less, lemma_place_among, lemma_placed_in_order, never_decreasing, place_among, sort_all,
    sorted,
};
use crate::path::{
    components, file_name, is_same_path, is_within, last_name, part_views, parts, same_path, within,
};

verus! {

broadcast use {lemma_views_push, lemma_named_views_push};

// -------------------------------------------------------------- the shared index

/// The shared index that the index refers to, by name.
pub open spec fn shared_names_in(line: Seq<u8>) -> Outcome<Seq<Seq<u8>>> {
    if line.len() == 0 {
        Ok(Seq::empty())
    } else {
        match last_name(line) {
            None => Err(needs_decision("Git returned an invalid shared index path"@)),
            Some(name) => if starts_with(name, lit("sharedindex.")) {
                Ok(Seq::empty().push(name))
            } else {
                Err(needs_decision("Git returned an unexpected shared index name"@))
            },
        }
    }
}

pub open spec fn shared_names_run(s: Session, root: Seq<u8>) -> (Session, Outcome<Seq<Seq<u8>>>) {
    match step(s, quiet(root, args2(lit("rev-parse"), lit("--shared-index-path")))) {
        (s1, Err(e)) => (s1, Err(e)),
        (s1, Ok(out)) => if !out.ok() {
            (s1, Err(git_failure("read shared index path"@, out)))
        } else {
            match line_or_nothing(out.stdout, "shared index path"@) {
                Err(e) => (s1, Err(e)),
                Ok(line) => (s1, shared_names_in(line)),
            }
        },
    }
}

/// Asks for the shared index that the index refers to.
pub fn shared_index_names<R: GitRunner + ?Sized>(runner: &mut R, root: &[u8]) -> (r: Result<
    Vec<Vec<u8>>,
>)
    ensures
        (final(runner).session(), list_outcome(r)) == shared_names_run(
            old(runner).session(),
            root@,
        ),
{
    let output = runner.run(quietly(root).word("rev-parse").word("--shared-index-path"))?;
    if !output.ok() {
        return Err(git_error("read shared index path", &output));
    }
    let line = one_line_allow_empty(output.stdout, "shared index path")?;
    let mut names: Vec<Vec<u8>> = Vec::new();
    proof {
        assert(views(names@) =~= Seq::empty());
    }
    if line.len() == 0 {
        return Ok(names);
    }
    match file_name(line.as_slice()) {
        None => Err(decision_error("Git returned an invalid shared index path")),
        Some(name) => {
            if !has_prefix(name.as_slice(), "sharedindex.".as_bytes()) {
                return Err(decision_error("Git returned an unexpected shared index name"));
            }
            names.push(name);
            Ok(names)
        },
    }
}

/// Reading the shared index.
pub open spec fn shared_indexes_run(s: Session, f: FileSession, root: Seq<u8>, git: HeldView) -> (
    Session,
    FileSession,
    Outcome<Seq<NamedView>>,
) {
    match shared_names_run(s, root) {
        (s1, Err(e)) => (s1, f, Err(e)),
        (s1, Ok(names)) => {
            let (f1, list) = named_from(f, git, names, Seq::empty(), 0);
            (s1, f1, list)
        },
    }
}

/// Reads the shared index.
pub fn shared_indexes<R: GitRunner + ?Sized, F: FileSystem + ?Sized>(
    runner: &mut R,
    files: &mut F,
    root: &[u8],
    git: &HeldDirectory,
) -> (r: Result<Vec<NamedBlobProof>>)
    ensures
        (final(runner).session(), final(files).files(), named_list_outcome(r))
            == shared_indexes_run(old(runner).session(), old(files).files(), root@, git@),
{
    let names = shared_index_names(runner, root)?;
    let ghost all = views(names@);
    let ghost start = files.files();
    let mut out: Vec<NamedBlobProof> = Vec::new();
    let mut i: usize = 0;
    proof {
        assert(named_views(out@) =~= Seq::empty());
        assert(all.len() == names@.len());
    }
    while i < names.len()
        invariant
            i <= names.len(),
            all == views(names@),
            all.len() == names@.len(),
            start == old(files).files(),
            (runner.session(), list_outcome(Ok(names))) == shared_names_run(
                old(runner).session(),
                root@,
            ),
            named_from(start, git@, all, Seq::empty(), 0) == named_from(
                files.files(),
                git@,
                all,
                named_views(out@),
                i as int,
            ),
        decreases names.len() - i,
    {
        broadcast use lemma_named_views_push;

        proof {
            assert(all[i as int] == names@[i as int]@);
        }
        let n = named_blob(files, git, names[i].as_slice())?;
        out.push(n);
        i = i + 1;
    }
    Ok(out)
}

// ----------------------------------------------------------------- private files

/// The files that every worktree has for itself.
pub open spec fn always_private(path: Seq<u8>) -> bool {
    ||| path == lit("index")
    ||| path == lit("HEAD")
    ||| path == lit("logs/HEAD")
    ||| path == lit("ORIG_HEAD")
    ||| path == lit("COMMIT_EDITMSG")
    ||| path == lit("FETCH_HEAD")
    ||| path == lit("AUTO_MERGE")
    ||| path == lit("config.worktree")
}

fn is_always_private(path: &[u8]) -> (r: bool)
    ensures
        r == always_private(path@),
{
    is_lit(path, "index") || is_lit(path, "HEAD") || is_lit(path, "logs/HEAD") || is_lit(
        path,
        "ORIG_HEAD",
    ) || is_lit(path, "COMMIT_EDITMSG") || is_lit(path, "FETCH_HEAD") || is_lit(path, "AUTO_MERGE")
        || is_lit(path, "config.worktree")
}

/// The refs that every worktree has for itself.
pub open spec fn private_ref(path: Seq<u8>) -> bool {
    ||| within(path, lit("refs/worktree"))
    ||| within(path, lit("refs/bisect"))
    ||| within(path, lit("refs/rewritten"))
}

fn is_private_ref(path: &[u8]) -> (r: bool)
    ensures
        r == private_ref(path@),
{
    is_within(path, "refs/worktree".as_bytes()) || is_within(path, "refs/bisect".as_bytes())
        || is_within(path, "refs/rewritten".as_bytes())
}

/// Whether a file at the top of a Git directory is the repository's.
pub open spec fn known_shared(name: Seq<u8>) -> bool {
    ||| name == lit("config")
    ||| name == lit("description")
    ||| name == lit("packed-refs")
    ||| name == lit("shallow")
    ||| name == lit("gc.log")
    ||| name == lit("index.lock")
}

/// Whether a file at the top of a Git directory is the repository's.
pub fn is_known_shared_top_level(name: &[u8]) -> (r: bool)
    ensures
        r == known_shared(name@),
{
    is_lit(name, "config") || is_lit(name, "description") || is_lit(name, "packed-refs") || is_lit(
        name,
        "shallow",
    ) || is_lit(name, "gc.log") || is_lit(name, "index.lock")
}

pub open spec fn pseudoref_byte(b: u8) -> bool {
    0x41 <= b <= 0x5a || 0x30 <= b <= 0x39 || b == 0x5f
}

/// Whether a name has the form of a pseudoref: upper-case letters, digits and underscores.
pub open spec fn pseudoref_name(path: Seq<u8>) -> bool {
    parts(path).len() == 1 && forall|i: int|
        0 <= i < path.len() ==> pseudoref_byte(#[trigger] path[i])
}

fn is_pseudoref_name(path: &[u8]) -> (r: bool)
    ensures
        r == pseudoref_name(path@),
{
    let list = components(path);
    proof {
        assert(part_views(list@).len() == list@.len());
    }
    if list.len() != 1 {
        return false;
    }
    let mut i: usize = 0;
    while i < path.len()
        invariant
            i <= path.len(),
            parts(path@).len() == 1,
            forall|j: int| 0 <= j < i ==> pseudoref_byte(#[trigger] path@[j]),
        decreases path.len() - i,
    {
        let b: u8 = path[i];
        if !((0x41 <= b && b <= 0x5a) || (0x30 <= b && b <= 0x39) || b == 0x5f) {
            proof {
                assert(!pseudoref_byte(path@[i as int]));
            }
            return false;
        }
        i = i + 1;
    }
    true
}

/// Whether a file is a pseudoref that names an object. Git is asked only of a name that has the
/// form of one.
pub open spec fn pseudoref_run(s: Session, root: Seq<u8>, path: Seq<u8>) -> (Session, Outcome<bool>) {
    if !pseudoref_name(path) {
        (s, Ok(false))
    } else {
        match step(
            s,
            quiet(
                root,
                args5(
                    lit("rev-parse"),
                    lit("--verify"),
                    lit("--quiet"),
                    lit("--end-of-options"),
                    path + lit("^{object}"),
                ),
            ),
        ) {
            (s1, Err(e)) => (s1, Err(e)),
            (s1, Ok(out)) => (s1, Ok(out.ok())),
        }
    }
}

/// Whether a file is a pseudoref that names an object.
pub fn is_object_pseudoref<R: GitRunner + ?Sized>(runner: &mut R, root: &[u8], path: &[u8]) -> (r:
    Result<bool>)
    ensures
        (final(runner).session(), plain(r)) == pseudoref_run(
            old(runner).session(),
            root@,
            path@,
        ),
{
    if !is_pseudoref_name(path) {
        return Ok(false);
    }
    let output = runner.run(
        quietly(root).word("rev-parse").word("--verify").word("--quiet").word(
            "--end-of-options",
        ).arg(joined(path, "^{object}".as_bytes()).as_slice()),
    )?;
    Ok(output.ok())
}

/// Whether a file goes with the worktree.
pub open spec fn migrates_run(s: Session, root: Seq<u8>, path: Seq<u8>, shared: Seq<Seq<u8>>) -> (
    Session,
    Outcome<bool>,
) {
    if always_private(path) || private_ref(path) || shared.contains(path) {
        (s, Ok(true))
    } else {
        pseudoref_run(s, root, path)
    }
}

fn is_listed(list: &Vec<Vec<u8>>, x: &[u8]) -> (r: bool)
    ensures
        r == views(list@).contains(x@),
{
    let ghost all = views(list@);
    let mut i: usize = 0;
    while i < list.len()
        invariant
            i <= list.len(),
            all == views(list@),
            all.len() == list@.len(),
            forall|j: int| 0 <= j < i ==> all[j] != x@,
        decreases list.len() - i,
    {
        proof {
            assert(all[i as int] == list@[i as int]@);
        }
        if same(list[i].as_slice(), x) {
            proof {
                assert(all.contains(x@));
            }
            return true;
        }
        i = i + 1;
    }
    false
}

fn migrates<R: GitRunner + ?Sized>(
    runner: &mut R,
    root: &[u8],
    path: &[u8],
    shared: &Vec<Vec<u8>>,
) -> (r: Result<bool>)
    ensures
        (final(runner).session(), plain(r)) == migrates_run(
            old(runner).session(),
            root@,
            path@,
            views(shared@),
        ),
{
    if is_always_private(path) || is_private_ref(path) || is_listed(shared, path) {
        return Ok(true);
    }
    is_object_pseudoref(runner, root, path)
}

// ----------------------------------------------------------------- sorting by path

/// Files in the order of their paths.
pub open spec fn by_path(list: Seq<NamedView>) -> Seq<NamedView>
    decreases list.len(),
{
    if list.len() == 0 {
        Seq::empty()
    } else {
        let rest = by_path(list.drop_last());
        rest.insert(place_among(paths_of(rest), list.last().path, 0), list.last())
    }
}

/// Ordering files by their paths neither adds nor loses one.
pub proof fn ordering_keeps_every_file(list: Seq<NamedView>)
    ensures
        never_decreasing(paths_of(by_path(list))),
        by_path(list).to_multiset() == list.to_multiset(),
    decreases list.len(),
{
    broadcast use vstd::seq_lib::group_to_multiset_ensures;

    if list.len() == 0 {
        assert(by_path(list) =~= list);
    } else {
        ordering_keeps_every_file(list.drop_last());
        let rest = by_path(list.drop_last());
        let x = list.last();
        let k = place_among(paths_of(rest), x.path, 0);
        lemma_place_among(paths_of(rest), x.path, 0);
        lemma_placed_in_order(paths_of(rest), x.path);
        assert(paths_of(rest.insert(k, x)) =~= paths_of(rest).insert(k, x.path));
        vstd::seq_lib::to_multiset_insert(rest, k, x);
        assert(list =~= list.drop_last().push(x));
        assert(by_path(list).to_multiset() =~= list.to_multiset());
    }
}

fn sort_by_path(list: &Vec<NamedBlobProof>) -> (r: Vec<NamedBlobProof>)
    ensures
        named_views(r@) == by_path(named_views(list@)),
{
    let ghost all = named_views(list@);
    let mut out: Vec<NamedBlobProof> = Vec::new();
    let mut i: usize = 0;
    proof {
        assert(named_views(out@) =~= by_path(all.subrange(0, 0)));
    }
    while i < list.len()
        invariant
            i <= list.len(),
            all == named_views(list@),
            all.len() == list@.len(),
            named_views(out@) == by_path(all.subrange(0, i as int)),
        decreases list.len() - i,
    {
        let ghost before = named_views(out@);
        let ghost keys = paths_of(before);
        let key = list[i].path.as_slice();
        let mut k: usize = 0;
        while k < out.len() && !is_less(key, out[k].path.as_slice())
            invariant
                k <= out.len(),
                before == named_views(out@),
                keys == paths_of(before),
                keys.len() == out@.len(),
                place_among(keys, key@, 0) == place_among(keys, key@, k as int),
            decreases out.len() - k,
        {
            proof {
                assert(keys[k as int] == out@[k as int]@.path);
            }
            k = k + 1;
        }
        proof {
            if k < out.len() {
                assert(keys[k as int] == out@[k as int]@.path);
            }
            let taken = all.subrange(0, i + 1);
            assert(taken.drop_last() =~= all.subrange(0, i as int));
            assert(taken.last() == list@[i as int]@);
        }
        out.insert(k, list[i].copied());
        proof {
            assert(named_views(out@) =~= before.insert(k as int, list@[i as int]@));
        }
        i = i + 1;
    }
    proof {
        assert(all.subrange(0, i as int) =~= all);
    }
    out
}

// ----------------------------------------------------------------- taking it apart

/// What goes with the worktree, and what else is kept without being known.
pub type Parting = (Seq<NamedView>, Seq<Seq<u8>>);

/// Taking the entries of a Git directory apart, from the one at `i` on.
pub open spec fn private_from(
    s: Session,
    f: FileSession,
    root: Seq<u8>,
    git: HeldView,
    entries: GitList,
    shared: Seq<Seq<u8>>,
    private: Seq<NamedView>,
    fallthrough: Seq<Seq<u8>>,
    i: int,
) -> (Session, FileSession, Outcome<Parting>)
    decreases entries.len() - i,
{
    if i >= entries.len() {
        (s, f, Ok((private, fallthrough)))
    } else if kind_of(entries[i].1.mode) != FileKind::Regular {
        private_from(s, f, root, git, entries, shared, private, fallthrough, i + 1)
    } else {
        let path = entries[i].0;
        match migrates_run(s, root, path, shared) {
            (s1, Err(e)) => (s1, f, Err(e)),
            (s1, Ok(true)) => match named_blob_run(f, git, path) {
                (f1, Err(e)) => (s1, f1, Err(e)),
                (f1, Ok(n)) => private_from(
                    s1,
                    f1,
                    root,
                    git,
                    entries,
                    shared,
                    private.push(n),
                    fallthrough,
                    i + 1,
                ),
            },
            (s1, Ok(false)) => if parts(path).len() == 1 && !known_shared(path) {
                private_from(
                    s1,
                    f,
                    root,
                    git,
                    entries,
                    shared,
                    private,
                    fallthrough.push(path),
                    i + 1,
                )
            } else {
                private_from(s1, f, root, git, entries, shared, private, fallthrough, i + 1)
            },
        }
    }
}

/// What goes with the worktree, and what else is kept without being known, each in order.
pub open spec fn private_run(
    s: Session,
    f: FileSession,
    root: Seq<u8>,
    git: HeldView,
    entries: GitList,
) -> (Session, FileSession, Outcome<Parting>) {
    match shared_names_run(s, root) {
        (s1, Err(e)) => (s1, f, Err(e)),
        (s1, Ok(shared)) => match private_from(
            s1,
            f,
            root,
            git,
            entries,
            shared,
            Seq::empty(),
            Seq::empty(),
            0,
        ) {
            (s2, f2, Err(e)) => (s2, f2, Err(e)),
            (s2, f2, Ok((private, fallthrough))) => (
                s2,
                f2,
                Ok((by_path(private), sorted(fallthrough))),
            ),
        },
    }
}

pub open spec fn parting_outcome(r: Result<(Vec<NamedBlobProof>, Vec<Vec<u8>>)>) -> Outcome<
    Parting,
> {
    match r {
        Ok(p) => Ok((named_views(p.0@), views(p.1@))),
        Err(e) => Err(e@),
    }
}

fn part<R: GitRunner + ?Sized, F: FileSystem + ?Sized>(
    runner: &mut R,
    files: &mut F,
    root: &[u8],
    git: &HeldDirectory,
    entries: &Vec<GitEntry>,
    shared: &Vec<Vec<u8>>,
) -> (r: Result<(Vec<NamedBlobProof>, Vec<Vec<u8>>)>)
    ensures
        (final(runner).session(), final(files).files(), parting_outcome(r)) == private_from(
            old(runner).session(),
            old(files).files(),
            root@,
            git@,
            git_views(entries@),
            views(shared@),
            Seq::empty(),
            Seq::empty(),
            0,
        ),
{
    let ghost all = git_views(entries@);
    let mut private: Vec<NamedBlobProof> = Vec::new();
    let mut fallthrough: Vec<Vec<u8>> = Vec::new();
    let mut i: usize = 0;
    proof {
        assert(named_views(private@) =~= Seq::empty());
        assert(views(fallthrough@) =~= Seq::empty());
        assert(all.len() == entries@.len());
    }
    while i < entries.len()
        invariant
            i <= entries.len(),
            all == git_views(entries@),
            all.len() == entries@.len(),
            private_from(
                old(runner).session(),
                old(files).files(),
                root@,
                git@,
                all,
                views(shared@),
                Seq::empty(),
                Seq::empty(),
                0,
            ) == private_from(
                runner.session(),
                files.files(),
                root@,
                git@,
                all,
                views(shared@),
                named_views(private@),
                views(fallthrough@),
                i as int,
            ),
        decreases entries.len() - i,
    {
        broadcast use {lemma_views_push, lemma_named_views_push};

        let path = entries[i].0.as_slice();
        proof {
            assert(all[i as int] == (path@, entries@[i as int].1));
        }
        if file_kind(entries[i].1.mode) == FileKind::Regular {
            if migrates(runner, root, path, shared)? {
                let n = named_blob(files, git, path)?;
                private.push(n);
            } else {
                let list = components(path);
                proof {
                    assert(part_views(list@).len() == list@.len());
                }
                if list.len() == 1 && !is_known_shared_top_level(path) {
                    fallthrough.push(copied(path));
                }
            }
        }
        i = i + 1;
    }
    Ok((private, fallthrough))
}

/// Takes a Git directory apart: what goes with the worktree, and what else is kept without
/// being known.
pub fn private_state<R: GitRunner + ?Sized, F: FileSystem + ?Sized>(
    runner: &mut R,
    files: &mut F,
    root: &[u8],
    git: &HeldDirectory,
    entries: &Vec<GitEntry>,
) -> (r: Result<(Vec<NamedBlobProof>, Vec<Vec<u8>>)>)
    ensures
        (final(runner).session(), final(files).files(), parting_outcome(r)) == private_run(
            old(runner).session(),
            old(files).files(),
            root@,
            git@,
            git_views(entries@),
        ),
{
    let shared = shared_index_names(runner, root)?;
    let (private, fallthrough) = part(runner, files, root, git, entries, &shared)?;
    Ok((sort_by_path(&private), sort_all(&fallthrough)))
}

// --------------------------------------------------------------------- shared refs

/// Whether a file holds refs of the repository.
pub open spec fn shared_ref(entry: (Seq<u8>, FileIdentity)) -> bool {
    &&& kind_of(entry.1.mode) == FileKind::Regular
    &&& within(entry.0, lit("refs")) || same_path(entry.0, lit("packed-refs"))
    &&& !private_ref(entry.0)
}

/// The files that hold refs, among the first `n` entries.
pub open spec fn shared_ref_paths(entries: GitList, n: int) -> Seq<Seq<u8>>
    decreases n,
{
    if n <= 0 {
        Seq::empty()
    } else if shared_ref(entries[n - 1]) {
        shared_ref_paths(entries, n - 1).push(entries[n - 1].0)
    } else {
        shared_ref_paths(entries, n - 1)
    }
}

fn ref_paths(entries: &Vec<GitEntry>) -> (r: Vec<Vec<u8>>)
    ensures
        views(r@) == shared_ref_paths(git_views(entries@), git_views(entries@).len() as int),
{
    let ghost all = git_views(entries@);
    let mut out: Vec<Vec<u8>> = Vec::new();
    let mut i: usize = 0;
    proof {
        assert(views(out@) =~= Seq::empty());
        assert(all.len() == entries@.len());
    }
    while i < entries.len()
        invariant
            i <= entries.len(),
            all == git_views(entries@),
            all.len() == entries@.len(),
            views(out@) == shared_ref_paths(all, i as int),
        decreases entries.len() - i,
    {
        broadcast use lemma_views_push;

        let path = entries[i].0.as_slice();
        proof {
            assert(all[i as int] == (path@, entries@[i as int].1));
        }
        if file_kind(entries[i].1.mode) == FileKind::Regular && (is_within(
            path,
            "refs".as_bytes(),
        ) || is_same_path(path, "packed-refs".as_bytes())) && !is_private_ref(path) {
            out.push(copied(path));
        }
        i = i + 1;
    }
    out
}

/// Reading the files that hold refs of the repository.
pub open spec fn shared_refs_run(f: FileSession, git: HeldView, entries: GitList) -> (
    FileSession,
    Outcome<Seq<NamedView>>,
) {
    named_from(f, git, shared_ref_paths(entries, entries.len() as int), Seq::empty(), 0)
}

/// Reads the files that hold refs of the repository.
pub fn shared_ref_files<F: FileSystem + ?Sized>(
    files: &mut F,
    git: &HeldDirectory,
    entries: &Vec<GitEntry>,
) -> (r: Result<Vec<NamedBlobProof>>)
    ensures
        (final(files).files(), named_list_outcome(r)) == shared_refs_run(
            old(files).files(),
            git@,
            git_views(entries@),
        ),
{
    let paths = ref_paths(entries);
    let ghost all = views(paths@);
    let mut out: Vec<NamedBlobProof> = Vec::new();
    let mut i: usize = 0;
    proof {
        assert(named_views(out@) =~= Seq::empty());
        assert(all.len() == paths@.len());
    }
    while i < paths.len()
        invariant
            i <= paths.len(),
            all == views(paths@),
            all.len() == paths@.len(),
            all == shared_ref_paths(git_views(entries@), git_views(entries@).len() as int),
            named_from(old(files).files(), git@, all, Seq::empty(), 0) == named_from(
                files.files(),
                git@,
                all,
                named_views(out@),
                i as int,
            ),
        decreases paths.len() - i,
    {
        broadcast use lemma_named_views_push;

        proof {
            assert(all[i as int] == paths@[i as int]@);
        }
        let n = named_blob(files, git, paths[i].as_slice())?;
        out.push(n);
        i = i + 1;
    }
    Ok(out)
}

proof fn lemma_shared_ref_paths(entries: GitList, n: int)
    requires
        0 <= n <= entries.len(),
    ensures
        forall|i: int|
            0 <= i < shared_ref_paths(entries, n).len() ==> !private_ref(
                #[trigger] shared_ref_paths(entries, n)[i],
            ),
    decreases n,
{
    if n > 0 {
        lemma_shared_ref_paths(entries, n - 1);
        let rest = shared_ref_paths(entries, n - 1);
        let all = shared_ref_paths(entries, n);
        assert forall|i: int| 0 <= i < all.len() implies !private_ref(#[trigger] all[i]) by {
            if i < rest.len() {
                assert(all[i] == rest[i]);
            }
        }
    }
}

/// No ref is taken both for the worktree's and for the repository's.
pub proof fn shared_refs_are_not_private(entries: GitList)
    ensures
        forall|i: int|
            0 <= i < shared_ref_paths(entries, entries.len() as int).len() ==> !private_ref(
                #[trigger] shared_ref_paths(entries, entries.len() as int)[i],
            ),
{
    lemma_shared_ref_paths(entries, entries.len() as int);
}

// ------------------------------------------------------ what looking may have changed

/// Whether an entry is as it was. A shared index may have been touched, as Git does when it
/// reads one, but not changed.
pub open spec fn unchanged_entry(
    before: (Seq<u8>, FileIdentity),
    now: (Seq<u8>, FileIdentity),
) -> bool {
    &&& before.0 == now.0
    &&& same_identity(before.1, now.1) || (touchable(before.0) && same_stable(before.1, now.1))
}

pub open spec fn touchable(path: Seq<u8>) -> bool {
    match last_name(path) {
        None => false,
        Some(name) => starts_with(name, lit("sharedindex.")),
    }
}

pub open spec fn unchanged(before: InventoryView, now: InventoryView) -> bool {
    &&& same_manifests(before.payload, now.payload)
    &&& before.git.len() == now.git.len()
    &&& forall|i: int|
        0 <= i < before.git.len() ==> unchanged_entry(#[trigger] before.git[i], now.git[i])
}

pub open spec fn changed_error() -> ErrorView {
    needs_decision("repository contents changed during adopt preflight"@)
}

fn git_unchanged(before: &Vec<GitEntry>, now: &Vec<GitEntry>) -> (r: bool)
    ensures
        r == (git_views(before@).len() == git_views(now@).len() && forall|i: int|
            0 <= i < git_views(before@).len() ==> unchanged_entry(
                #[trigger] git_views(before@)[i],
                git_views(now@)[i],
            )),
{
    let ghost a = git_views(before@);
    let ghost b = git_views(now@);
    proof {
        assert(a.len() == before@.len());
        assert(b.len() == now@.len());
    }
    if before.len() != now.len() {
        return false;
    }
    let mut i: usize = 0;
    while i < before.len()
        invariant
            i <= before.len(),
            before@.len() == now@.len(),
            a == git_views(before@),
            b == git_views(now@),
            a.len() == before@.len(),
            b.len() == now@.len(),
            forall|j: int| 0 <= j < i ==> unchanged_entry(#[trigger] a[j], b[j]),
        decreases before.len() - i,
    {
        proof {
            assert(a[i as int] == (before@[i as int].0@, before@[i as int].1));
            assert(b[i as int] == (now@[i as int].0@, now@[i as int].1));
        }
        let may = match file_name(before[i].0.as_slice()) {
            None => false,
            Some(name) => has_prefix(name.as_slice(), "sharedindex.".as_bytes()),
        };
        let fine = same(before[i].0.as_slice(), now[i].0.as_slice()) && (identities_match(
            &before[i].1,
            &now[i].1,
        ) || (may && same_stable_file(&before[i].1, &now[i].1)));
        if !fine {
            proof {
                assert(!unchanged_entry(a[i as int], b[i as int]));
            }
            return false;
        }
        i = i + 1;
    }
    true
}

/// Checks that looking at a repository changed nothing in it.
pub fn validate_query_side_effects(before: &Inventory, after: &Inventory) -> (r: Result<()>)
    ensures
        plain(r) == if unchanged(before@, after@) {
            Ok::<(), ErrorView>(())
        } else {
            Err(changed_error())
        },
{
    if manifests_match(&before.payload, &after.payload) && git_unchanged(
        &before.git_entries,
        &after.git_entries,
    ) {
        Ok(())
    } else {
        Err(decision_error("repository contents changed during adopt preflight"))
    }
}

/// The first place at which two lists of Git entries differ, as far as both reach.
pub open spec fn git_change(a: GitList, b: GitList, i: int) -> int
    decreases a.len() - i,
{
    if i >= a.len() || i >= b.len() {
        i
    } else if a[i].0 == b[i].0 && same_identity(a[i].1, b[i].1) {
        git_change(a, b, i + 1)
    } else {
        i
    }
}

/// The first place at which two lists of Git entries differ.
pub fn first_git_change(a: &Vec<GitEntry>, b: &Vec<GitEntry>) -> (r: usize)
    ensures
        r == git_change(git_views(a@), git_views(b@), 0),
        r <= a.len(),
        r <= b.len(),
{
    let ghost va = git_views(a@);
    let ghost vb = git_views(b@);
    let mut i: usize = 0;
    proof {
        assert(va.len() == a@.len());
        assert(vb.len() == b@.len());
    }
    while i < a.len() && i < b.len()
        invariant
            i <= a.len(),
            i <= b.len(),
            va == git_views(a@),
            vb == git_views(b@),
            va.len() == a@.len(),
            vb.len() == b@.len(),
            git_change(va, vb, 0) == git_change(va, vb, i as int),
        decreases a.len() - i,
    {
        proof {
            assert(va[i as int] == (a@[i as int].0@, a@[i as int].1));
            assert(vb[i as int] == (b@[i as int].0@, b@[i as int].1));
        }
        if !same(a[i].0.as_slice(), b[i].0.as_slice()) || !identities_match(&a[i].1, &b[i].1) {
            return i;
        }
        i = i + 1;
    }
    i
}

} // verus!
