//! What is taken to be true of a worktree, by what was seen of it.
use vstd::prelude::*;
use vstd::utf8::encode_utf8;
use crate::bytes::{
    after, lemma_find_is, lemma_split_joined, lit, split, trim_line_ends, without_prefix, LF, TAB,
};
use crate::commands::list::{list_run, row_of, rows_of, snapshot_run, snapshots_from};
use crate::error::ErrorView;
use crate::fsx::files::{answer_to, AnswerView, FailureKind, FileRequest, FileSession};
use crate::fsx::held::FileKind;
use crate::fsx::mountinfo::{all_digits, is_digit, lemma_decimal_digits, numbers_read_back};
use crate::git::runner::{answer_to as told_to, args4, invoke, invoke_in, InvocationView, Session};
use crate::git::worktrees::{RecordView, UpstreamView};
use crate::grove::state::{
    busy_from, counts_in, location_run, marker, pointed, tracking_run, LocationView, SnapshotView,
    WorktreeState, MARKERS,
};
use crate::path::{child, same_path, within};
use crate::text::decimal_nat;

verus! {

/// A worktree is in its place only where there is a directory whose pointer names a directory of
/// the grove's own administration, which names the pointer in turn. It is missing only where nothing
/// is there.
pub proof fn worktrees_in_place_are_pointed_back_to(f: FileSession, root: Seq<u8>, path: Seq<u8>)
    ensures
        ({
            let (f1, r) = location_run(f, root, path);
            let n = f.calls.len() as int;
            let base = child(child(root, lit(".bare")), lit("worktrees"));
            &&& f1.calls.len() > n
            &&& f1.calls[n] == FileRequest::Inspect(path)
            &&& r == Ok::<LocationView, ErrorView>(LocationView::Missing) <==> (answer_to(
                f1,
                n,
            ) matches AnswerView::Failed(e) && e.kind == FailureKind::NotFound)
            &&& r matches Ok(LocationView::Valid { admin_dir }) ==> {
                &&& f1.calls.len() == n + 3
                &&& f1.calls[n + 1] == FileRequest::Read(child(path, lit(".git")))
                &&& f1.calls[n + 2] == FileRequest::Read(child(admin_dir, lit("gitdir")))
                &&& answer_to(f1, n) matches AnswerView::Facts(facts)
                &&& facts.kind == FileKind::Directory
                &&& answer_to(f1, n + 1) == AnswerView::Bytes(
                    lit("gitdir: ") + admin_dir + lit("\n"),
                )
                &&& answer_to(f1, n + 2) == AnswerView::Bytes(child(path, lit(".git")) + lit("\n"))
                &&& within(admin_dir, base)
                &&& !same_path(admin_dir, base)
            }
        }),
{
    let (f1, r) = location_run(f, root, path);
    let n = f.calls.len() as int;
    let look = FileRequest::Inspect(path);
    assert(f1.calls.take(n + 1) =~= f.calls.push(look));
    if r is Ok && r->Ok_0 is Valid {
        let admin = r->Ok_0->admin_dir;
        let first = FileRequest::Read(child(path, lit(".git")));
        let second = FileRequest::Read(child(admin, lit("gitdir")));
        assert(f1.calls == f.calls.push(look).push(first).push(second));
        assert(f1.calls.take(n + 2) =~= f.calls.push(look).push(first));
        assert(f1.calls.take(n + 3) =~= f1.calls);
        let contents = answer_to(f1, n + 1)->Bytes_0;
        lemma_pointed(contents);
    }
}

proof fn lemma_pointed(contents: Seq<u8>)
    ensures
        pointed(contents) matches Some(admin) ==> contents == lit("gitdir: ") + admin + lit("\n"),
{
    let head = lit("gitdir: ");
    let end = lit("\n");
    if pointed(contents) is Some {
        let rest = without_prefix(contents, head)->Some_0;
        let admin = pointed(contents)->Some_0;
        assert(contents.subrange(0, head.len() as int) =~= head);
        assert(contents =~= head + rest);
        assert(rest.subrange(rest.len() - end.len(), rest.len() as int) =~= end);
        assert(rest =~= admin + end);
        assert(contents =~= head + admin + end);
    }
}

/// Whether a file was looked for between two states of a session, and not found.
pub open spec fn looked_for_in_vain(before: FileSession, after: FileSession, path: Seq<u8>) -> bool {
    exists|k: int|
        before.calls.len() <= k < after.calls.len() && #[trigger] after.calls[k]
            == FileRequest::Exists(path) && answer_to(after, k) != AnswerView::Found(true)
}

proof fn lemma_busy(f: FileSession, admin: Seq<u8>, i: int)
    requires
        0 <= i <= MARKERS,
    ensures
        ({
            let (f1, busy) = busy_from(f, admin, i);
            &&& f1.script == f.script
            &&& f.calls.is_prefix_of(f1.calls)
            &&& busy ==> f1.calls.len() > f.calls.len() && (f1.script)(f1.calls)
                == AnswerView::Found(true) && exists|j: int|
                i <= j < MARKERS && f1.calls.last() == FileRequest::Exists(
                    child(admin, #[trigger] marker(j)),
                )
            &&& !busy ==> forall|j: int|
                i <= j < MARKERS ==> looked_for_in_vain(
                    f,
                    f1,
                    child(admin, #[trigger] marker(j)),
                )
        }),
    decreases MARKERS - i,
{
    if i < MARKERS {
        let request = FileRequest::Exists(child(admin, marker(i)));
        let g = FileSession { calls: f.calls.push(request), ..f };
        let k = f.calls.len() as int;
        assert(g.calls.take(k + 1) =~= g.calls);
        let (f1, busy) = busy_from(f, admin, i);
        if (f.script)(g.calls) == AnswerView::Found(true) {
            assert(f1 == g);
        } else {
            lemma_busy(g, admin, i + 1);
            assert(f1 == busy_from(g, admin, i + 1).0);
            assert(f1.calls.subrange(0, g.calls.len() as int)[k] == g.calls[k]);
            assert(f1.calls[k] == request);
            assert(f1.calls.take(k + 1) =~= g.calls);
            if !busy {
                assert(looked_for_in_vain(f, f1, child(admin, marker(i))));
                assert forall|j: int| i <= j < MARKERS implies looked_for_in_vain(
                    f,
                    f1,
                    child(admin, #[trigger] marker(j)),
                ) by {
                    if j > i {
                        assert(looked_for_in_vain(g, f1, child(admin, marker(j))));
                        let m = choose|m: int|
                            g.calls.len() <= m < f1.calls.len() && #[trigger] f1.calls[m]
                                == FileRequest::Exists(child(admin, marker(j))) && answer_to(f1, m)
                                != AnswerView::Found(true);
                        assert(f1.calls[m] == FileRequest::Exists(child(admin, marker(j))));
                    }
                }
            }
        }
    }
}

/// A worktree is taken to be at rest only where none of what Git leaves behind during an operation
/// was found: no lock, and no trace of a merge, a rebase, a cherry-pick, a revert or a bisection.
pub proof fn operations_in_progress_are_seen(f: FileSession, admin: Seq<u8>)
    requires
        !busy_from(f, admin, 0).1,
    ensures
        ({
            let f1 = busy_from(f, admin, 0).0;
            &&& looked_for_in_vain(f, f1, child(admin, lit("index.lock")))
            &&& looked_for_in_vain(f, f1, child(admin, lit("HEAD.lock")))
            &&& looked_for_in_vain(f, f1, child(admin, lit("MERGE_HEAD")))
            &&& looked_for_in_vain(f, f1, child(admin, lit("rebase-merge")))
            &&& looked_for_in_vain(f, f1, child(admin, lit("rebase-apply")))
            &&& looked_for_in_vain(f, f1, child(admin, lit("CHERRY_PICK_HEAD")))
            &&& looked_for_in_vain(f, f1, child(admin, lit("REVERT_HEAD")))
            &&& looked_for_in_vain(f, f1, child(admin, lit("BISECT_LOG")))
        }),
{
    lemma_busy(f, admin, 0);
    assert(looked_for_in_vain(f, busy_from(f, admin, 0).0, child(admin, marker(0))));
    assert(looked_for_in_vain(f, busy_from(f, admin, 0).0, child(admin, marker(1))));
    assert(looked_for_in_vain(f, busy_from(f, admin, 0).0, child(admin, marker(2))));
    assert(looked_for_in_vain(f, busy_from(f, admin, 0).0, child(admin, marker(3))));
    assert(looked_for_in_vain(f, busy_from(f, admin, 0).0, child(admin, marker(4))));
    assert(looked_for_in_vain(f, busy_from(f, admin, 0).0, child(admin, marker(5))));
    assert(looked_for_in_vain(f, busy_from(f, admin, 0).0, child(admin, marker(6))));
    assert(looked_for_in_vain(f, busy_from(f, admin, 0).0, child(admin, marker(7))));
}

/// A worktree is taken to be in the middle of an operation only where something of the kind was
/// found.
pub proof fn only_traces_make_an_operation(f: FileSession, admin: Seq<u8>)
    requires
        busy_from(f, admin, 0).1,
    ensures
        ({
            let f1 = busy_from(f, admin, 0).0;
            &&& f1.calls.len() > f.calls.len()
            &&& (f1.script)(f1.calls) == AnswerView::Found(true)
            &&& f1.calls.last() matches FileRequest::Exists(path)
            &&& path == child(admin, lit("index.lock")) || path == child(admin, lit("HEAD.lock"))
                || path == child(admin, lit("MERGE_HEAD")) || path == child(
                admin,
                lit("rebase-merge"),
            ) || path == child(admin, lit("rebase-apply")) || path == child(
                admin,
                lit("CHERRY_PICK_HEAD"),
            ) || path == child(admin, lit("REVERT_HEAD")) || path == child(admin, lit("BISECT_LOG"))
        }),
{
    lemma_busy(f, admin, 0);
}

proof fn lemma_alone(digits: Seq<u8>)
    requires
        all_digits(digits),
    ensures
        split(digits, TAB) == seq![digits],
{
    assert forall|j: int| 0 <= j < digits.len() implies digits[j] != TAB by {
        assert(is_digit(digits[j]));
    }
    lemma_find_is(digits, TAB, 0, digits.len() as int);
    assert(split(digits, TAB) =~= seq![digits]);
}

/// Of the two numbers that Git counts, the first is how far a branch is ahead of its upstream, and
/// the second how far it is behind.
pub proof fn counts_are_ahead_and_then_behind(ahead: u64, behind: u64)
    ensures
        counts_in(
            encode_utf8(decimal_nat(ahead as nat)).push(TAB) + encode_utf8(
                decimal_nat(behind as nat),
            ).push(LF),
        ) == Ok::<(u64, u64), ErrorView>((ahead, behind)),
{
    let a = encode_utf8(decimal_nat(ahead as nat));
    let b = encode_utf8(decimal_nat(behind as nat));
    lemma_decimal_digits(ahead as nat);
    lemma_decimal_digits(behind as nat);
    let all = a.push(TAB) + b.push(LF);
    let row = a.push(TAB) + b;
    assert(all =~= row.push(LF));
    assert(all.drop_last() =~= row);
    assert(is_digit(b[b.len() - 1]));
    assert(row.last() == b[b.len() - 1]);
    assert(trim_line_ends(row) == row);
    assert(trim_line_ends(all) == row);
    assert forall|j: int| 0 <= j < row.len() implies row[j] != LF && row[j] != crate::bytes::CR by {
        if j < a.len() {
            assert(row[j] == a[j] && is_digit(a[j]));
        } else if j > a.len() {
            assert(row[j] == b[j - a.len() - 1] && is_digit(b[j - a.len() - 1]));
        }
    }
    lemma_split_joined(a, b, TAB);
    lemma_alone(a);
    lemma_alone(b);
    let fields = split(row, TAB);
    assert(fields =~= seq![a] + seq![b]);
    assert(fields[0] == a && fields[1] == b);
    numbers_read_back(ahead);
    numbers_read_back(behind);
}

/// How a branch stands to its upstream is what Git says of these two: that the upstream is there,
/// what it is at, and how far the worktree's own commit and the upstream are apart.
pub proof fn upstreams_are_held_against_the_checkout(
    s: Session,
    root: Seq<u8>,
    record: RecordView,
    admin: Seq<u8>,
    u: UpstreamView,
)
    requires
        tracking_run(s, root, record, admin, u).1 is Ok,
    ensures
        ({
            let (s1, r) = tracking_run(s, root, record, admin, u);
            let n = s.calls.len() as int;
            let bare = child(root, lit(".bare"));
            let is_there = invoke_in(
                bare,
                args4(lit("show-ref"), lit("--verify"), lit("--quiet"), u.full),
            );
            let is_at = invoke_in(
                bare,
                args4(lit("rev-parse"), lit("--verify"), lit("--end-of-options"), u.full),
            );
            let apart = InvocationView {
                git_dir: Some(admin),
                work_tree: Some(record.path),
                ..invoke(
                    args4(
                        lit("rev-list"),
                        lit("--left-right"),
                        lit("--count"),
                        lit("HEAD...") + u.full,
                    ),
                )
            };
            &&& r->Ok_0 is None ==> s1.calls == s.calls.push(is_there) && told_to(s1, n) is Ok
                && told_to(s1, n)->Ok_0.status == 1
            &&& r->Ok_0 matches Some(t) ==> {
                &&& s1.calls == s.calls.push(is_there).push(is_at).push(apart)
                &&& told_to(s1, n) is Ok && told_to(s1, n)->Ok_0.status == 0
                &&& told_to(s1, n + 1) is Ok && told_to(s1, n + 2) is Ok
                &&& t.upstream_ref == u.full
                &&& t.upstream_remote == u.remote
                &&& t.head_oid == record.head
                &&& t.upstream_oid == trim_line_ends(told_to(s1, n + 1)->Ok_0.stdout)
                &&& counts_in(told_to(s1, n + 2)->Ok_0.stdout) == Ok::<(u64, u64), ErrorView>(
                    (t.ahead, t.behind),
                )
            }
        }),
{
    let (s1, r) = tracking_run(s, root, record, admin, u);
    let n = s.calls.len() as int;
    assert(s1.calls.take(n + 1) =~= s.calls.push(s1.calls[n]));
    if r->Ok_0 is Some {
        assert(s1.calls.take(n + 2) =~= s.calls.push(s1.calls[n]).push(s1.calls[n + 1]));
        assert(s1.calls.take(n + 3) =~= s1.calls);
    }
}

/// The worktrees among the first `n` records, without the bare repository.
pub open spec fn worktrees_among(records: Seq<RecordView>, n: int) -> Seq<RecordView>
    decreases n,
{
    if n <= 0 {
        Seq::empty()
    } else if records[n - 1].bare {
        worktrees_among(records, n - 1)
    } else {
        worktrees_among(records, n - 1).push(records[n - 1])
    }
}

proof fn lemma_snapshot(s: Session, f: FileSession, root: Seq<u8>, record: RecordView)
    ensures
        snapshot_run(s, f, root, record).2 is Ok ==> snapshot_run(s, f, root, record).2->Ok_0.record
            == record,
{
}

proof fn lemma_rows(
    s: Session,
    f: FileSession,
    root: Seq<u8>,
    records: Seq<RecordView>,
    done: Seq<SnapshotView>,
    i: int,
)
    requires
        0 <= i <= records.len(),
        done.map_values(|x: SnapshotView| x.record) == worktrees_among(records, i),
        snapshots_from(s, f, root, records, done, i).2 is Ok,
    ensures
        snapshots_from(s, f, root, records, done, i).2->Ok_0.map_values(
            |x: SnapshotView| x.record,
        ) == worktrees_among(records, records.len() as int),
    decreases records.len() - i,
{
    if i < records.len() {
        if records[i].bare {
            lemma_rows(s, f, root, records, done, i + 1);
        } else {
            let (s1, f1, r) = snapshot_run(s, f, root, records[i]);
            lemma_snapshot(s, f, root, records[i]);
            let next = done.push(r->Ok_0);
            assert(next.map_values(|x: SnapshotView| x.record) =~= done.map_values(
                |x: SnapshotView| x.record,
            ).push(records[i]));
            lemma_rows(s1, f1, root, records, next, i + 1);
        }
    }
}

/// A listing has one row for each worktree that Git lists, in Git's order, with its path and its
/// branch, and none for the bare repository.
pub proof fn listings_have_a_row_for_each_worktree(
    s: Session,
    f: FileSession,
    root: Seq<u8>,
    records: Seq<RecordView>,
)
    requires
        list_run(s, f, root).2 is Ok,
        crate::git::worktrees::worktrees_run(s, root).1 == Ok::<Seq<RecordView>, ErrorView>(records),
    ensures
        ({
            let rows = list_run(s, f, root).2->Ok_0.1;
            let list = worktrees_among(records, records.len() as int);
            &&& rows.len() == list.len()
            &&& forall|i: int|
                0 <= i < rows.len() ==> (#[trigger] rows[i]).path == list[i].path && rows[i].branch
                    == list[i].branch
        }),
{
    let s1 = crate::git::worktrees::worktrees_run(s, root).0;
    let none = Seq::<SnapshotView>::empty();
    assert(none.map_values(|x: SnapshotView| x.record) =~= worktrees_among(records, 0));
    lemma_rows(s1, f, root, records, none, 0);
    let all = snapshots_from(s1, f, root, records, none, 0).2->Ok_0;
    let list = worktrees_among(records, records.len() as int);
    let rows = list_run(s, f, root).2->Ok_0.1;
    assert(rows == rows_of(all));
    assert forall|i: int| 0 <= i < rows.len() implies (#[trigger] rows[i]).path == list[i].path
        && rows[i].branch == list[i].branch by {
        assert(rows[i] == row_of(all[i]));
        assert(all.map_values(|x: SnapshotView| x.record)[i] == list[i]);
    }
}

/// A worktree that Git takes for lost is reported as missing, whatever is in its place, unless that
/// is no worktree of the grove; and Git is asked nothing about it.
pub proof fn lost_worktrees_are_missing(s: Session, f: FileSession, root: Seq<u8>, record: RecordView)
    requires
        record.prunable is Some,
        snapshot_run(s, f, root, record).2 is Ok,
    ensures
        snapshot_run(s, f, root, record).0 == s,
        ({
            let seen = snapshot_run(s, f, root, record).2->Ok_0.state;
            let place = location_run(f, root, record.path).1->Ok_0;
            seen == if place is Invalid {
                WorktreeState::Invalid
            } else {
                WorktreeState::Missing
            }
        }),
{
}

} // verus!
