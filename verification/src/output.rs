//! How a listing is written: for a program, and for a reader.
use vstd::prelude::*;
use crate::bytes::{lemma_find_bounds, lemma_split_joined, lit, split, NUL};
use crate::commands::list::{row_views, Row, RowView};
use crate::text::{decimal_nat, escape, escaped, number, text};

verus! {

/// The protocol that a listing for a program begins with.
pub const PROTOCOL: &'static str = "git-grove-list-v1";

// ------------------------------------------------------------------- for a program

pub open spec fn digits_or_nothing(n: Option<u64>) -> Seq<u8> {
    match n {
        Some(n) => vstd::utf8::encode_utf8(decimal_nat(n as nat)),
        None => Seq::empty(),
    }
}

/// The fields of one row: the status, the path, the branch, and how far it is ahead and behind.
/// What there is nothing to say of is empty.
pub open spec fn fields_of(row: RowView) -> Seq<Seq<u8>> {
    seq![
        vstd::utf8::encode_utf8(row.status),
        row.path,
        match row.branch {
            Some(b) => b,
            None => Seq::empty(),
        },
        digits_or_nothing(row.ahead),
        digits_or_nothing(row.behind),
    ]
}

/// The protocol, and the fields of the first `n` rows.
pub open spec fn all_fields(rows: Seq<RowView>, n: int) -> Seq<Seq<u8>>
    decreases n,
{
    if n <= 0 {
        seq![lit(PROTOCOL)]
    } else {
        all_fields(rows, n - 1) + fields_of(rows[n - 1])
    }
}

/// The first `n` fields, each with a NUL at its end.
pub open spec fn terminated(fields: Seq<Seq<u8>>, n: int) -> Seq<u8>
    decreases n,
{
    if n <= 0 {
        Seq::empty()
    } else {
        terminated(fields, n - 1) + fields[n - 1].push(NUL)
    }
}

/// A listing for a program: the protocol and then every row, each field with a NUL at its end.
pub open spec fn porcelain_of(rows: Seq<RowView>) -> Seq<u8> {
    let fields = all_fields(rows, rows.len() as int);
    terminated(fields, fields.len() as int)
}

proof fn lemma_terminated_on(a: Seq<Seq<u8>>, b: Seq<Seq<u8>>, n: int)
    requires
        0 <= n <= b.len(),
    ensures
        terminated(a + b, a.len() + n) == terminated(a, a.len() as int) + terminated(b, n),
    decreases n,
{
    if n > 0 {
        lemma_terminated_on(a, b, n - 1);
        assert((a + b)[a.len() + n - 1] == b[n - 1]);
        assert(terminated(a + b, a.len() + n) =~= terminated(a, a.len() as int) + terminated(b, n));
    } else {
        lemma_terminated_prefix(a, b, a.len() as int);
        assert(terminated(b, n) =~= Seq::empty());
        assert(terminated(a + b, a.len() + n) =~= terminated(a, a.len() as int) + terminated(b, n));
    }
}

proof fn lemma_terminated_prefix(a: Seq<Seq<u8>>, b: Seq<Seq<u8>>, n: int)
    requires
        n <= a.len(),
    ensures
        terminated(a + b, n) == terminated(a, n),
    decreases n,
{
    if n > 0 {
        lemma_terminated_prefix(a, b, n - 1);
        assert((a + b)[n - 1] == a[n - 1]);
    }
}

fn push_field(out: &mut Vec<u8>, field: &[u8])
    ensures
        final(out)@ == old(out)@ + field@.push(NUL),
{
    let ghost before = out@;
    out.extend_from_slice(field);
    out.push(NUL);
    proof {
        assert(out@ =~= before + field@.push(NUL));
    }
}

fn push_number(out: &mut Vec<u8>, n: Option<u64>)
    ensures
        final(out)@ == old(out)@ + digits_or_nothing(n).push(NUL),
{
    match n {
        Some(n) => push_field(out, number(n).as_str().as_bytes()),
        None => {
            let ghost before = out@;
            out.push(NUL);
            proof {
                assert(out@ =~= before + Seq::<u8>::empty().push(NUL));
            }
        },
    }
}

fn push_row(out: &mut Vec<u8>, row: &Row)
    ensures
        final(out)@ == old(out)@ + terminated(fields_of(row@), 5),
{
    let ghost before = out@;
    let ghost fields = fields_of(row@);
    push_field(out, row.status.as_bytes());
    push_field(out, row.path.as_slice());
    match &row.branch {
        Some(branch) => push_field(out, branch.as_slice()),
        None => {
            let ghost middle = out@;
            out.push(NUL);
            proof {
                assert(out@ =~= middle + Seq::<u8>::empty().push(NUL));
            }
        },
    }
    push_number(out, row.ahead);
    push_number(out, row.behind);
    proof {
        reveal_with_fuel(terminated, 6);
        assert(out@ =~= before + terminated(fields, 5));
    }
}

/// Writes a listing for a program.
pub fn porcelain(rows: &Vec<Row>) -> (r: Vec<u8>)
    ensures
        r@ == porcelain_of(row_views(rows@)),
{
    let ghost all = row_views(rows@);
    let mut out: Vec<u8> = Vec::new();
    push_field(&mut out, PROTOCOL.as_bytes());
    let mut i: usize = 0;
    proof {
        reveal_with_fuel(terminated, 2);
        assert(out@ =~= terminated(all_fields(all, 0), 1));
    }
    while i < rows.len()
        invariant
            i <= rows.len(),
            all == row_views(rows@),
            all.len() == rows@.len(),
            out@ == terminated(all_fields(all, i as int), all_fields(all, i as int).len() as int),
        decreases rows.len() - i,
    {
        let ghost before = all_fields(all, i as int);
        push_row(&mut out, &rows[i]);
        proof {
            assert(all[i as int] == rows@[i as int]@);
            lemma_terminated_on(before, fields_of(all[i as int]), 5);
            assert(all_fields(all, i + 1) == before + fields_of(all[i as int]));
        }
        i = i + 1;
    }
    out
}

proof fn lemma_fields_split(fields: Seq<Seq<u8>>, n: int)
    requires
        0 <= n <= fields.len(),
        forall|i: int| 0 <= i < n ==> !(#[trigger] fields[i]).contains(NUL),
    ensures
        split(terminated(fields, n), NUL) == fields.take(n).push(Seq::empty()),
    decreases n,
{
    if n <= 0 {
        assert(terminated(fields, n) =~= Seq::empty());
        assert(split(Seq::<u8>::empty(), NUL) =~= seq![Seq::<u8>::empty()]);
        assert(fields.take(n).push(Seq::empty()) =~= seq![Seq::<u8>::empty()]);
    } else {
        lemma_fields_split(fields, n - 1);
        lemma_last_field(fields, n);
    }
}

proof fn lemma_last_field(fields: Seq<Seq<u8>>, n: int)
    requires
        0 < n <= fields.len(),
        !fields[n - 1].contains(NUL),
        split(terminated(fields, n - 1), NUL) == fields.take(n - 1).push(Seq::empty()),
    ensures
        split(terminated(fields, n), NUL) == fields.take(n).push(Seq::empty()),
{
    let front = terminated(fields, n - 1);
    let last = fields[n - 1];
    let tail = last.push(NUL) + Seq::<u8>::empty();
    let nothing = split(Seq::<u8>::empty(), NUL);
    assert(nothing =~= seq![Seq::<u8>::empty()]);
    lemma_find_bounds(last, NUL, 0);
    assert(split(last, NUL) =~= seq![last]);
    lemma_split_joined(last, Seq::empty(), NUL);
    assert(split(tail, NUL) =~= seq![last].push(Seq::empty()));
    if n == 1 {
        assert(front =~= Seq::empty());
        assert(terminated(fields, n) =~= tail);
        assert(fields.take(n) =~= seq![last]);
    } else {
        let cut = front.drop_last();
        assert(front.last() == NUL);
        assert(front =~= cut.push(NUL) + Seq::<u8>::empty());
        lemma_split_joined(cut, Seq::empty(), NUL);
        assert(split(cut, NUL) =~= split(front, NUL).drop_last());
        assert(split(cut, NUL) =~= fields.take(n - 1));
        assert(terminated(fields, n) =~= cut.push(NUL) + tail);
        lemma_split_joined(cut, tail, NUL);
    }
    assert(split(terminated(fields, n), NUL) =~= fields.take(n).push(Seq::empty()));
}

/// A listing for a program is taken apart into its fields at every NUL, as long as no field holds
/// one; after the last field there is nothing.
pub proof fn listings_are_taken_apart(rows: Seq<RowView>)
    requires
        forall|i: int|
            0 <= i < all_fields(rows, rows.len() as int).len() ==> !(#[trigger] all_fields(
                rows,
                rows.len() as int,
            )[i]).contains(NUL),
    ensures
        split(porcelain_of(rows), NUL) == all_fields(rows, rows.len() as int).push(Seq::empty()),
{
    let fields = all_fields(rows, rows.len() as int);
    lemma_fields_split(fields, fields.len() as int);
    assert(fields.take(fields.len() as int) =~= fields);
}

// -------------------------------------------------------------------- for a reader

pub open spec fn counts_text(ahead: Option<u64>, behind: Option<u64>) -> Seq<char> {
    match (ahead, behind) {
        (Some(a), Some(b)) => " +"@ + decimal_nat(a as nat) + " -"@ + decimal_nat(b as nat),
        _ => Seq::empty(),
    }
}

/// One line: the status, the path, the branch, and how far it is ahead and behind.
pub open spec fn line_of(row: RowView) -> Seq<char> {
    row.status + " "@ + escape(row.path) + match row.branch {
        Some(b) => " "@ + escape(b),
        None => Seq::empty(),
    } + counts_text(row.ahead, row.behind)
}

/// Writes one row for a reader.
pub fn row_line(row: &Row) -> (r: String)
    ensures
        r@ == line_of(row@),
{
    let mut out = text(row.status).concat(" ").concat(escaped(row.path.as_slice()).as_str());
    match &row.branch {
        Some(branch) => {
            let named = text(" ").concat(escaped(branch.as_slice()).as_str());
            out = out.concat(named.as_str());
        },
        None => {
            out = out.concat("");
            proof {
                reveal_strlit("");
            }
        },
    }
    match (row.ahead, row.behind) {
        (Some(ahead), Some(behind)) => {
            let counts = text(" +").concat(number(ahead).as_str()).concat(" -").concat(
                number(behind).as_str(),
            );
            out.concat(counts.as_str())
        },
        _ => {
            proof {
                reveal_strlit("");
                assert(out@ + Seq::<char>::empty() =~= out@);
            }
            out
        },
    }
}

/// Each row of a listing for a program is written behind the rows before it: its status, its path,
/// its branch, and how far it is ahead and behind, with a NUL behind each, and nothing for what there
/// is not. Before the first stands the name of the listing's form.
pub proof fn rows_are_written_one_behind_the_other(rows: Seq<RowView>, row: RowView)
    ensures
        rows.len() == 0 ==> porcelain_of(rows) == lit("git-grove-list-v1").push(NUL),
        ({
            let branch = match row.branch {
                Some(b) => b,
                None => Seq::empty(),
            };
            let ahead = match row.ahead {
                Some(n) => vstd::utf8::encode_utf8(decimal_nat(n as nat)),
                None => Seq::empty(),
            };
            let behind = match row.behind {
                Some(n) => vstd::utf8::encode_utf8(decimal_nat(n as nat)),
                None => Seq::empty(),
            };
            porcelain_of(rows.push(row)) == porcelain_of(rows) + vstd::utf8::encode_utf8(
                row.status,
            ).push(NUL) + row.path.push(NUL) + branch.push(NUL) + ahead.push(NUL) + behind.push(NUL)
        }),
{
    lemma_no_rows();
    assert(rows.len() == 0 ==> rows =~= Seq::<RowView>::empty());
    let all = rows.push(row);
    let n = rows.len() as int;
    lemma_same_fields(rows, all, n);
    let before = all_fields(rows, n);
    let more = fields_of(row);
    let fields = all_fields(all, n + 1);
    assert(fields == before + more);
    let k = before.len() as int;
    assert(more.len() == 5);
    assert(fields.len() == k + 5);
    lemma_same_ends(before, fields, k);
    assert(fields[k] == more[0]);
    assert(fields[k + 1] == more[1]);
    assert(fields[k + 2] == more[2]);
    assert(fields[k + 3] == more[3]);
    assert(fields[k + 4] == more[4]);
    let t1 = terminated(fields, k + 1);
    assert(t1 == porcelain_of(rows) + more[0].push(NUL));
    let t2 = terminated(fields, k + 2);
    assert(t2 == t1 + more[1].push(NUL));
    let t3 = terminated(fields, k + 3);
    assert(t3 == t2 + more[2].push(NUL));
    let t4 = terminated(fields, k + 4);
    assert(t4 == t3 + more[3].push(NUL));
    assert(terminated(fields, k + 5) == t4 + more[4].push(NUL));
}

proof fn lemma_no_rows()
    ensures
        porcelain_of(Seq::<RowView>::empty()) == lit("git-grove-list-v1").push(NUL),
{
    let none = Seq::<RowView>::empty();
    let first = all_fields(none, 0);
    assert(first.len() == 1 && first[0] == lit(PROTOCOL));
    assert(terminated(first, 0) =~= Seq::empty());
    assert(terminated(first, 1) == terminated(first, 0) + first[0].push(NUL));
    assert(terminated(first, 1) =~= first[0].push(NUL));
}

proof fn lemma_same_fields(a: Seq<RowView>, b: Seq<RowView>, n: int)
    requires
        n <= a.len(),
        n <= b.len(),
        forall|i: int| 0 <= i < n ==> #[trigger] a[i] == b[i],
    ensures
        all_fields(a, n) == all_fields(b, n),
    decreases n,
{
    if n > 0 {
        lemma_same_fields(a, b, n - 1);
        assert(a[n - 1] == b[n - 1]);
    }
}

proof fn lemma_same_ends(a: Seq<Seq<u8>>, b: Seq<Seq<u8>>, n: int)
    requires
        n <= a.len(),
        n <= b.len(),
        forall|i: int| 0 <= i < n ==> #[trigger] a[i] == b[i],
    ensures
        terminated(a, n) == terminated(b, n),
    decreases n,
{
    if n > 0 {
        lemma_same_ends(a, b, n - 1);
        assert(a[n - 1] == b[n - 1]);
    }
}

} // verus!
