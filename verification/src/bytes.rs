//! Byte strings: the raw material of paths, ref names and Git output.
//!
//! Nothing here assumes UTF-8. A byte string is modelled as a `Seq<u8>`.
use vstd::prelude::*;
use vstd::slice::slice_subrange;

verus! {

pub const NUL: u8 = 0x00;
pub const TAB: u8 = 0x09;
pub const LF: u8 = 0x0a;
pub const CR: u8 = 0x0d;
pub const SPACE: u8 = 0x20;
pub const STAR: u8 = 0x2a;
pub const PLUS: u8 = 0x2b;
pub const DASH: u8 = 0x2d;
pub const DOT: u8 = 0x2e;
pub const SLASH: u8 = 0x2f;
pub const COLON: u8 = 0x3a;
pub const AT: u8 = 0x40;
pub const BACKSLASH: u8 = 0x5c;
pub const CARET: u8 = 0x5e;
pub const TILDE: u8 = 0x7e;

/// The bytes of a literal, as `str::as_bytes` gives them.
pub open spec fn lit(s: &str) -> Seq<u8> {
    vstd::utf8::encode_utf8(s@)
}

pub open spec fn starts_with(s: Seq<u8>, prefix: Seq<u8>) -> bool {
    prefix.len() <= s.len() && s.subrange(0, prefix.len() as int) == prefix
}

pub open spec fn ends_with(s: Seq<u8>, suffix: Seq<u8>) -> bool {
    suffix.len() <= s.len() && s.subrange(s.len() - suffix.len(), s.len() as int) == suffix
}

/// What follows the first `n` bytes.
pub open spec fn after(s: Seq<u8>, n: int) -> Seq<u8> {
    s.subrange(n, s.len() as int)
}

/// What follows `prefix` in `s`, when `s` starts with it.
pub open spec fn without_prefix(s: Seq<u8>, prefix: Seq<u8>) -> Option<Seq<u8>> {
    if starts_with(s, prefix) {
        Some(after(s, prefix.len() as int))
    } else {
        None
    }
}

/// What precedes `suffix` in `s`, when `s` ends with it.
pub open spec fn without_suffix(s: Seq<u8>, suffix: Seq<u8>) -> Option<Seq<u8>> {
    if ends_with(s, suffix) {
        Some(s.subrange(0, s.len() - suffix.len()))
    } else {
        None
    }
}

/// The first position of `b` at or after `from`, or the length of `s`.
pub open spec fn find_from(s: Seq<u8>, b: u8, from: int) -> int
    decreases s.len() - from,
{
    if from >= s.len() {
        s.len() as int
    } else if s[from] == b {
        from
    } else {
        find_from(s, b, from + 1)
    }
}

/// The first position of `b`, or the length of `s` when `b` does not occur.
pub open spec fn find(s: Seq<u8>, b: u8) -> int {
    find_from(s, b, 0)
}

/// The fields of `s` between the separators: always one more than there are separators.
pub open spec fn split(s: Seq<u8>, sep: u8) -> Seq<Seq<u8>>
    decreases s.len(),
{
    let k = find(s, sep);
    if 0 <= k < s.len() {
        seq![s.subrange(0, k)] + split(after(s, k + 1), sep)
    } else {
        seq![s]
    }
}

/// The non-empty members of `fields`, in order.
pub open spec fn non_empty(fields: Seq<Seq<u8>>) -> Seq<Seq<u8>> {
    fields.filter(|f: Seq<u8>| f.len() > 0)
}

/// The models of a list of byte strings.
pub open spec fn views(list: Seq<Vec<u8>>) -> Seq<Seq<u8>> {
    list.map_values(|v: Vec<u8>| v@)
}

pub broadcast proof fn lemma_views_push(list: Seq<Vec<u8>>, v: Vec<u8>)
    ensures
        #[trigger] views(list.push(v)) == views(list).push(v@),
{
    assert(views(list.push(v)) =~= views(list).push(v@));
}

pub open spec fn opt_view(o: Option<Vec<u8>>) -> Option<Seq<u8>> {
    match o {
        Some(v) => Some(v@),
        None => None,
    }
}

pub open spec fn opt_slice(o: Option<&[u8]>) -> Option<Seq<u8>> {
    match o {
        Some(v) => Some(v@),
        None => None,
    }
}

pub open spec fn is_line_end(b: u8) -> bool {
    b == LF || b == CR
}

/// `s` without its trailing line-end bytes.
pub open spec fn trim_line_ends(s: Seq<u8>) -> Seq<u8>
    decreases s.len(),
{
    if s.len() > 0 && is_line_end(s.last()) {
        trim_line_ends(s.drop_last())
    } else {
        s
    }
}

/// Whether `needle` occurs in `s` as one run of bytes.
pub open spec fn has_run(s: Seq<u8>, needle: Seq<u8>) -> bool {
    exists|i: int|
        0 <= i && i + needle.len() <= s.len() && #[trigger] s.subrange(i, i + needle.len())
            == needle
}

pub proof fn lemma_find_bounds(s: Seq<u8>, b: u8, from: int)
    requires
        0 <= from <= s.len(),
    ensures
        from <= find_from(s, b, from) <= s.len(),
        find_from(s, b, from) < s.len() ==> s[find_from(s, b, from)] == b,
        forall|j: int| from <= j < find_from(s, b, from) ==> s[j] != b,
    decreases s.len() - from,
{
    if from < s.len() && s[from] != b {
        lemma_find_bounds(s, b, from + 1);
    }
}

/// A position that carries the byte, with none before it, is the first one.
pub proof fn lemma_find_is(s: Seq<u8>, b: u8, from: int, k: int)
    requires
        0 <= from <= k <= s.len(),
        k < s.len() ==> s[k] == b,
        forall|j: int| from <= j < k ==> s[j] != b,
    ensures
        find_from(s, b, from) == k,
    decreases k - from,
{
    if from < k {
        lemma_find_is(s, b, from + 1, k);
    }
}

/// Splitting loses nothing: every byte that is not a separator is in some field.
pub proof fn lemma_split_fields(s: Seq<u8>, sep: u8)
    ensures
        split(s, sep).len() >= 1,
        forall|i: int| 0 <= i < split(s, sep).len() ==> !(#[trigger] split(s, sep)[i]).contains(sep),
    decreases s.len(),
{
    let k = find(s, sep);
    lemma_find_bounds(s, sep, 0);
    if k < s.len() {
        lemma_split_fields(after(s, k + 1), sep);
        let rest = split(after(s, k + 1), sep);
        assert forall|i: int| 0 <= i < split(s, sep).len() implies !(#[trigger] split(
            s,
            sep,
        )[i]).contains(sep) by {
            if i > 0 {
                assert(split(s, sep)[i] == rest[i - 1]);
            }
        }
    }
}

/// A separator between two strings separates their fields.
pub proof fn lemma_split_joined(a: Seq<u8>, b: Seq<u8>, sep: u8)
    ensures
        split(a.push(sep) + b, sep) == split(a, sep) + split(b, sep),
    decreases a.len(),
{
    let whole = a.push(sep) + b;
    let k = find(a, sep);
    lemma_find_bounds(a, sep, 0);
    assert forall|j: int| 0 <= j < k implies whole[j] != sep by {
        assert(whole[j] == a[j]);
    }
    lemma_find_is(whole, sep, 0, k);
    if k < a.len() {
        lemma_split_joined(after(a, k + 1), b, sep);
        assert(after(whole, k + 1) =~= after(a, k + 1).push(sep) + b);
        assert(whole.subrange(0, k) =~= a.subrange(0, k));
        assert(split(whole, sep) =~= split(a, sep) + split(b, sep));
    } else {
        assert(after(whole, k + 1) =~= b);
        assert(whole.subrange(0, k) =~= a);
        assert(split(whole, sep) =~= split(a, sep) + split(b, sep));
    }
}

/// Whether two lists hold the same byte strings, in the same order.
pub fn same_list(a: &Vec<Vec<u8>>, b: &Vec<Vec<u8>>) -> (r: bool)
    ensures
        r == (views(a@) == views(b@)),
{
    proof {
        assert(views(a@).len() == a@.len());
        assert(views(b@).len() == b@.len());
    }
    if a.len() != b.len() {
        return false;
    }
    let mut i: usize = 0;
    while i < a.len()
        invariant
            i <= a.len(),
            a@.len() == b@.len(),
            forall|j: int| 0 <= j < i ==> views(a@)[j] == views(b@)[j],
        decreases a.len() - i,
    {
        proof {
            assert(views(a@)[i as int] == a@[i as int]@);
            assert(views(b@)[i as int] == b@[i as int]@);
        }
        if !same(a[i].as_slice(), b[i].as_slice()) {
            return false;
        }
        i = i + 1;
    }
    proof {
        assert(views(a@) =~= views(b@));
    }
    true
}

/// The bytes of a literal.
pub fn bytes_of(s: &str) -> (r: Vec<u8>)
    ensures
        r@ == lit(s),
{
    vstd::slice::slice_to_vec(s.as_bytes())
}

pub fn copied(s: &[u8]) -> (r: Vec<u8>)
    ensures
        r@ == s@,
{
    vstd::slice::slice_to_vec(s)
}

/// A copy of a list of byte strings.
pub fn copied_list(list: &Vec<Vec<u8>>) -> (r: Vec<Vec<u8>>)
    ensures
        views(r@) == views(list@),
        r.len() == list.len(),
{
    let mut out: Vec<Vec<u8>> = Vec::new();
    let mut i: usize = 0;
    while i < list.len()
        invariant
            i <= list.len(),
            views(out@) =~= views(list@).subrange(0, i as int),
        decreases list.len() - i,
    {
        out.push(copied(list[i].as_slice()));
        proof {
            broadcast use lemma_views_push;

            assert(views(list@).subrange(0, i + 1) =~= views(list@).subrange(0, i as int).push(
                list@[i as int]@,
            ));
        }
        i = i + 1;
    }
    proof {
        assert(views(list@).subrange(0, i as int) =~= views(list@));
        assert(views(out@).len() == out@.len());
    }
    out
}

pub fn copied_opt(o: &Option<Vec<u8>>) -> (r: Option<Vec<u8>>)
    ensures
        opt_view(r) == opt_view(*o),
{
    match o {
        Some(v) => Some(copied(v.as_slice())),
        None => None,
    }
}

pub fn same(a: &[u8], b: &[u8]) -> (r: bool)
    ensures
        r == (a@ == b@),
{
    if a.len() != b.len() {
        return false;
    }
    let mut i: usize = 0;
    while i < a.len()
        invariant
            a.len() == b.len(),
            i <= a.len(),
            forall|j: int| 0 <= j < i ==> a@[j] == b@[j],
        decreases a.len() - i,
    {
        if a[i] != b[i] {
            return false;
        }
        i = i + 1;
    }
    proof {
        assert(a@ =~= b@);
    }
    true
}

/// Whether `a` holds the bytes of the literal `s`.
pub fn is_lit(a: &[u8], s: &str) -> (r: bool)
    ensures
        r == (a@ == lit(s)),
{
    same(a, s.as_bytes())
}

pub fn has_prefix(s: &[u8], prefix: &[u8]) -> (r: bool)
    ensures
        r == starts_with(s@, prefix@),
{
    if prefix.len() > s.len() {
        return false;
    }
    same(slice_subrange(s, 0, prefix.len()), prefix)
}

pub fn has_suffix(s: &[u8], suffix: &[u8]) -> (r: bool)
    ensures
        r == ends_with(s@, suffix@),
{
    if suffix.len() > s.len() {
        return false;
    }
    same(slice_subrange(s, s.len() - suffix.len(), s.len()), suffix)
}

pub fn strip_prefix<'a>(s: &'a [u8], prefix: &[u8]) -> (r: Option<&'a [u8]>)
    ensures
        opt_slice(r) == without_prefix(s@, prefix@),
{
    if has_prefix(s, prefix) {
        Some(slice_subrange(s, prefix.len(), s.len()))
    } else {
        None
    }
}

pub fn strip_suffix<'a>(s: &'a [u8], suffix: &[u8]) -> (r: Option<&'a [u8]>)
    ensures
        opt_slice(r) == without_suffix(s@, suffix@),
{
    if has_suffix(s, suffix) {
        Some(slice_subrange(s, 0, s.len() - suffix.len()))
    } else {
        None
    }
}

/// The first position of `b` in `s` at or after `from`, or the length of `s`.
pub fn position_from(s: &[u8], b: u8, from: usize) -> (r: usize)
    requires
        from <= s.len(),
    ensures
        r == find_from(s@, b, from as int),
        from <= r <= s.len(),
        r < s.len() ==> s@[r as int] == b,
{
    let mut i: usize = from;
    while i < s.len() && s[i] != b
        invariant
            from <= i <= s.len(),
            find_from(s@, b, from as int) == find_from(s@, b, i as int),
        decreases s.len() - i,
    {
        i = i + 1;
    }
    i
}

/// The first position of `b` in `s`, or the length of `s` when it does not occur.
pub fn position(s: &[u8], b: u8) -> (r: usize)
    ensures
        r == find(s@, b),
        r <= s.len(),
        r < s.len() ==> s@[r as int] == b,
{
    position_from(s, b, 0)
}

pub fn has_byte(s: &[u8], b: u8) -> (r: bool)
    ensures
        r == s@.contains(b),
{
    let k = position(s, b);
    proof {
        lemma_find_bounds(s@, b, 0);
        if s@.contains(b) {
            let j = choose|j: int| 0 <= j < s@.len() && s@[j] == b;
            assert(s@[j] == b);
        }
    }
    k < s.len()
}

pub fn split_on(s: &[u8], sep: u8) -> (r: Vec<Vec<u8>>)
    ensures
        views(r@) == split(s@, sep),
        r.len() >= 1,
{
    let mut out: Vec<Vec<u8>> = Vec::new();
    let mut start: usize = 0;
    proof {
        assert(after(s@, 0) =~= s@);
        assert(views(out@) + split(s@, sep) =~= split(s@, sep));
    }
    loop
        invariant
            start <= s.len(),
            views(out@) + split(after(s@, start as int), sep) == split(s@, sep),
        decreases s.len() - start,
    {
        let ghost rest = after(s@, start as int);
        let ghost before = views(out@);
        let end = position_from(s, sep, start);
        proof {
            lemma_find_bounds(s@, sep, start as int);
            lemma_find_is(rest, sep, 0, end - start);
        }
        out.push(copied(slice_subrange(s, start, end)));
        proof {
            assert(views(out@) =~= before.push(s@.subrange(start as int, end as int)));
            assert(rest.subrange(0, end - start) =~= s@.subrange(start as int, end as int));
        }
        if end == s.len() {
            proof {
                assert(rest =~= s@.subrange(start as int, end as int));
                assert(views(out@) =~= before + split(rest, sep));
            }
            return out;
        }
        proof {
            assert(after(rest, end - start + 1) =~= after(s@, end + 1));
            assert(views(out@) + split(after(s@, end + 1), sep) =~= before + split(rest, sep));
        }
        start = end + 1;
    }
}

/// `filter` on a sequence that grows by one element.
pub proof fn lemma_non_empty_push(fields: Seq<Seq<u8>>, last: Seq<u8>)
    ensures
        non_empty(fields.push(last)) == if last.len() > 0 {
            non_empty(fields).push(last)
        } else {
            non_empty(fields)
        },
{
    reveal(Seq::filter);
    assert(fields.push(last).drop_last() =~= fields);
}

/// The non-empty fields of `s` between the separators, in order.
pub fn split_non_empty(s: &[u8], sep: u8) -> (r: Vec<Vec<u8>>)
    ensures
        views(r@) == non_empty(split(s@, sep)),
{
    let fields = split_on(s, sep);
    let mut out: Vec<Vec<u8>> = Vec::new();
    let mut i: usize = 0;
    proof {
        reveal(Seq::filter);
        assert(views(fields@).subrange(0, 0) =~= Seq::<Seq<u8>>::empty());
        assert(views(out@) =~= Seq::<Seq<u8>>::empty());
    }
    while i < fields.len()
        invariant
            i <= fields.len(),
            views(out@) == non_empty(views(fields@).subrange(0, i as int)),
        decreases fields.len() - i,
    {
        let ghost before = views(out@);
        proof {
            lemma_non_empty_push(views(fields@).subrange(0, i as int), fields@[i as int]@);
            assert(views(fields@).subrange(0, i + 1) =~= views(fields@).subrange(0, i as int).push(
                fields@[i as int]@,
            ));
        }
        if fields[i].len() > 0 {
            out.push(copied(fields[i].as_slice()));
            proof {
                assert(views(out@) =~= before.push(fields@[i as int]@));
            }
        }
        i = i + 1;
    }
    proof {
        assert(views(fields@).subrange(0, i as int) =~= views(fields@));
    }
    out
}

/// Drops the trailing line-end bytes.
pub fn without_line_ends(s: Vec<u8>) -> (r: Vec<u8>)
    ensures
        r@ == trim_line_ends(s@),
{
    let mut v = s;
    while v.len() > 0 && (v[v.len() - 1] == LF || v[v.len() - 1] == CR)
        invariant
            trim_line_ends(v@) == trim_line_ends(s@),
        decreases v.len(),
    {
        proof {
            assert(v@.last() == v@[v@.len() - 1]);
        }
        let ghost before = v@;
        let _ = v.pop();
        proof {
            assert(v@ =~= before.drop_last());
        }
    }
    v
}

/// Whether `needle` occurs in `s`.
pub fn contains_run(s: &[u8], needle: &[u8]) -> (r: bool)
    ensures
        r == has_run(s@, needle@),
{
    if needle.len() > s.len() {
        return false;
    }
    let last: usize = s.len() - needle.len();
    let mut i: usize = 0;
    while i <= last
        invariant
            last == s.len() - needle.len(),
            needle.len() <= s.len(),
            i <= last + 1,
            s.len() <= usize::MAX,
            forall|j: int| 0 <= j < i ==> #[trigger] s@.subrange(j, j + needle@.len()) != needle@,
        decreases last + 1 - i,
    {
        if same(slice_subrange(s, i, i + needle.len()), needle) {
            return true;
        }
        if i == last {
            return false;
        }
        i = i + 1;
    }
    false
}

/// Two byte strings one after the other.
pub fn joined(a: &[u8], b: &[u8]) -> (r: Vec<u8>)
    ensures
        r@ == a@ + b@,
{
    let mut v = copied(a);
    v.extend_from_slice(b);
    v
}

/// `prefix`, a literal, followed by `rest`.
pub fn prefixed(prefix: &str, rest: &[u8]) -> (r: Vec<u8>)
    ensures
        r@ == lit(prefix) + rest@,
{
    joined(prefix.as_bytes(), rest)
}

} // verus!
