//! Which files of a repository are its worktree's own.
use vstd::prelude::*;
use crate::bytes::lit;
use crate::commands::adopt::evidence::{sha256_of, NamedView};
use crate::commands::adopt::forward::{migrate_from, migrate_one_run, vacate_run, way_run};
use crate::commands::adopt::private::{
    by_path, migrates_run, ordering_keeps_every_file, private_from, private_run, pseudoref_name,
    shared_names_run,
};
use crate::commands::adopt::queries::GitList;
use crate::commands::adopt::refusals::asked_quietly;
use crate::commands::adopt::steps::matches_run;
use crate::error::ErrorView;
use crate::fsx::directory::HeldView;
use crate::fsx::files::{FileRequest, FileSession};
use crate::fsx::held::{checked_path, kind_of, FileKind};
use crate::git::runner::{args5, Session};
use crate::path::{child, joined_names, parts, within};

verus! {

/// Whether a file is one that every worktree has for itself: its index, its `HEAD` and that one's
/// log, what its last commands left, its configuration, and its own refs.
pub open spec fn worktrees_own(path: Seq<u8>) -> bool {
    ||| path == lit("index") || path == lit("HEAD") || path == lit("logs/HEAD")
    ||| path == lit("ORIG_HEAD") || path == lit("FETCH_HEAD") || path == lit("AUTO_MERGE")
    ||| path == lit("COMMIT_EDITMSG") || path == lit("config.worktree")
    ||| within(path, lit("refs/worktree")) || within(path, lit("refs/bisect"))
    ||| within(path, lit("refs/rewritten"))
}

/// A file that every worktree has for itself goes with the checkout, and Git is not asked about it.
pub proof fn own_files_go_with_the_checkout(
    s: Session,
    root: Seq<u8>,
    path: Seq<u8>,
    shared: Seq<Seq<u8>>,
)
    requires
        worktrees_own(path) || shared.contains(path),
    ensures
        migrates_run(s, root, path, shared) == (s, Ok::<bool, ErrorView>(true)),
{
}

/// Whether a name is written as Git writes the names of commits that it keeps at the top of its
/// directory: in capitals, digits and underscores.
pub open spec fn written_like_a_ref(path: Seq<u8>) -> bool {
    parts(path).len() == 1 && forall|i: int|
        0 <= i < path.len() ==> (0x41 <= #[trigger] path[i] <= 0x5a || 0x30 <= path[i] <= 0x39
            || path[i] == 0x5f)
}

/// Any other file stays with the repository, unless it is written like a ref and Git, asked for what
/// it names, names an object.
pub proof fn other_files_stay_with_the_repository(
    s: Session,
    root: Seq<u8>,
    path: Seq<u8>,
    shared: Seq<Seq<u8>>,
)
    requires
        !worktrees_own(path),
        !shared.contains(path),
    ensures
        ({
            let ask = asked_quietly(
                root,
                args5(
                    lit("rev-parse"),
                    lit("--verify"),
                    lit("--quiet"),
                    lit("--end-of-options"),
                    path + lit("^{object}"),
                ),
            );
            let told = (s.script)(s.calls.push(ask));
            let r = migrates_run(s, root, path, shared);
            &&& !written_like_a_ref(path) ==> r == (s, Ok::<bool, ErrorView>(false))
            &&& written_like_a_ref(path) ==> r.0.calls == s.calls.push(ask)
            &&& written_like_a_ref(path) && told is Ok ==> r.1 == Ok::<bool, ErrorView>(
                told->Ok_0.status == 0,
            )
        }),
{
    assert(written_like_a_ref(path) == pseudoref_name(path)) by {
        if written_like_a_ref(path) {
            assert forall|i: int| 0 <= i < path.len() implies crate::commands::adopt::private::pseudoref_byte(
                #[trigger] path[i],
            ) by {}
        }
        if pseudoref_name(path) {
            assert forall|i: int| 0 <= i < path.len() implies (0x41 <= #[trigger] path[i] <= 0x5a
                || 0x30 <= path[i] <= 0x39 || path[i] == 0x5f) by {
                assert(crate::commands::adopt::private::pseudoref_byte(path[i]));
            }
        }
    }
}

/// Whether a list has a file under a path.
pub open spec fn has_file(list: Seq<NamedView>, path: Seq<u8>) -> bool {
    exists|k: int|
        0 <= k < list.len() && (#[trigger] list[k]).path == joined_names(checked_path(path)->Ok_0)
}

proof fn lemma_has_more(list: Seq<NamedView>, n: NamedView, path: Seq<u8>)
    requires
        has_file(list, path),
    ensures
        has_file(list.push(n), path),
{
    let k = choose|k: int|
        0 <= k < list.len() && (#[trigger] list[k]).path == joined_names(checked_path(path)->Ok_0);
    assert(list.push(n)[k].path == joined_names(checked_path(path)->Ok_0));
}

proof fn lemma_gathered(
    s: Session,
    f: FileSession,
    root: Seq<u8>,
    git: HeldView,
    entries: GitList,
    shared: Seq<Seq<u8>>,
    private: Seq<NamedView>,
    fallthrough: Seq<Seq<u8>>,
    i: int,
    k: int,
)
    requires
        0 <= i,
        0 <= k < entries.len(),
        k < i ==> has_file(private, entries[k].0),
        kind_of(entries[k].1.mode) == FileKind::Regular,
        worktrees_own(entries[k].0) || shared.contains(entries[k].0),
        private_from(s, f, root, git, entries, shared, private, fallthrough, i).2 is Ok,
    ensures
        has_file(
            private_from(s, f, root, git, entries, shared, private, fallthrough, i).2->Ok_0.0,
            entries[k].0,
        ),
    decreases entries.len() - i,
{
    if i < entries.len() {
        if kind_of(entries[i].1.mode) != FileKind::Regular {
            lemma_gathered(s, f, root, git, entries, shared, private, fallthrough, i + 1, k);
        } else {
            let path = entries[i].0;
            let (s1, goes) = migrates_run(s, root, path, shared);
            if i == k {
                own_files_go_with_the_checkout(s, root, path, shared);
            }
            if goes->Ok_0 {
                let (f1, n) = crate::commands::adopt::inventory::named_blob_run(f, git, path);
                let more = private.push(n->Ok_0);
                if k < i {
                    lemma_has_more(private, n->Ok_0, entries[k].0);
                } else if k == i {
                    assert(more[private.len() as int] == n->Ok_0);
                }
                lemma_gathered(s1, f1, root, git, entries, shared, more, fallthrough, i + 1, k);
            } else if parts(path).len() == 1 && !crate::commands::adopt::private::known_shared(path) {
                let other = fallthrough.push(path);
                lemma_gathered(s1, f, root, git, entries, shared, private, other, i + 1, k);
            } else {
                lemma_gathered(s1, f, root, git, entries, shared, private, fallthrough, i + 1, k);
            }
        }
    }
}

/// Whatever of a repository's files is the worktree's own is among those that go with the checkout.
pub proof fn no_own_file_is_left_behind(
    s: Session,
    f: FileSession,
    root: Seq<u8>,
    git: HeldView,
    entries: GitList,
    k: int,
)
    requires
        0 <= k < entries.len(),
        kind_of(entries[k].1.mode) == FileKind::Regular,
        worktrees_own(entries[k].0),
        private_run(s, f, root, git, entries).2 is Ok,
    ensures
        has_file(private_run(s, f, root, git, entries).2->Ok_0.0, entries[k].0),
{
    broadcast use vstd::seq_lib::group_to_multiset_ensures;

    let (s1, shared) = shared_names_run(s, root);
    let none = Seq::<NamedView>::empty();
    let other = Seq::<Seq<u8>>::empty();
    lemma_gathered(s1, f, root, git, entries, shared->Ok_0, none, other, 0, k);
    let list = private_from(s1, f, root, git, entries, shared->Ok_0, none, other, 0).2->Ok_0.0;
    ordering_keeps_every_file(list);
    let wanted = joined_names(checked_path(entries[k].0)->Ok_0);
    let j = choose|j: int| 0 <= j < list.len() && (#[trigger] list[j]).path == wanted;
    assert(list.contains(list[j]));
    assert(list.to_multiset().count(list[j]) > 0);
    assert(by_path(list).to_multiset().count(list[j]) > 0);
    assert(by_path(list).contains(list[j]));
    let m = choose|m: int| 0 <= m < by_path(list).len() && by_path(list)[m] == list[j];
    assert(by_path(list)[m].path == wanted);
}

/// Whether a file of the repository went to where Git keeps what is the worktree's own: it was moved
/// there, under the same name, or was found there already, with its contents intact.
pub open spec fn went_along(
    before: FileSession,
    after: FileSession,
    n: NamedView,
    bare: Seq<u8>,
    admin: Seq<u8>,
) -> bool {
    let there = (before.script)(before.calls.push(FileRequest::Read(child(admin, n.path))));
    ||| there is Bytes && sha256_of(there->Bytes_0) == n.blob.sha256
    ||| after.calls.len() > 0 && after.calls.last() == FileRequest::Rename(
        child(bare, n.path),
        child(admin, n.path),
    ) && (after.script)(after.calls) is Done
}

proof fn lemma_went(s: Session, f: FileSession, n: NamedView, bare: Seq<u8>, admin: Seq<u8>)
    requires
        migrate_one_run(s, f, n, bare, admin).2 is Ok,
    ensures
        went_along(f, migrate_one_run(s, f, n, bare, admin).1, n, bare, admin),
{
    let source = child(bare, n.path);
    let destination = child(admin, n.path);
    let (f1, there) = matches_run(f, destination, n.blob);
    if there != Ok::<bool, ErrorView>(true) {
        let (f2, here) = matches_run(f1, source, n.blob);
        let (f3, way) = way_run(f2, destination, "cannot create private-state parent: "@);
        let (f4, vacated) = vacate_run(f3, destination);
        let request = FileRequest::Rename(source, destination);
        let end = FileSession { calls: f4.calls.push(request), ..f4 };
        assert(migrate_one_run(s, f, n, bare, admin).1 == end);
    }
}

/// Every file that is the worktree's own goes to where Git keeps what is that worktree's, under its
/// own name.
pub proof fn own_files_go_to_their_worktree(
    s: Session,
    f: FileSession,
    list: Seq<NamedView>,
    bare: Seq<u8>,
    admin: Seq<u8>,
    i: int,
    k: int,
)
    requires
        0 <= i <= k < list.len(),
        migrate_from(s, f, list, bare, admin, i).2 is Ok,
    ensures
        exists|before: FileSession, after: FileSession| #[trigger]
            went_along(before, after, list[k], bare, admin),
    decreases list.len() - i,
{
    let (s1, f1, r) = migrate_one_run(s, f, list[i], bare, admin);
    if i == k {
        lemma_went(s, f, list[i], bare, admin);
    } else {
        own_files_go_to_their_worktree(s1, f1, list, bare, admin, i + 1, k);
    }
}

} // verus!
