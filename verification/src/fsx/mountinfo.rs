//! The kernel's mount table.
use vstd::prelude::*;
use crate::bytes::{
    after, is_lit, lit, split, split_on, views, BACKSLASH, LF, SPACE, TAB,
};
use crate::error::{needs_decision, plain, usage, usage_error, ErrorView, GroveError, Result};
use crate::fsx::directory::{kernel_path_run, HeldDirectory, HeldView};
use crate::fsx::files::{ask_bytes, bytes_step, FileRequest, FileSession, FileSystem};
use crate::git::config::Outcome;
use crate::path::{absolute, components, is_absolute, is_within, part_views, parts, within};
use crate::text::{decimal_nat, digit, lossy, lossy_text, number, text};

verus! {

#[derive(Debug)]
pub struct MountEntry {
    pub id: u64,
    pub parent_id: u64,
    pub mountpoint: Vec<u8>,
}

pub struct MountView {
    pub id: u64,
    pub parent_id: u64,
    pub mountpoint: Seq<u8>,
}

impl View for MountEntry {
    type V = MountView;

    open spec fn view(&self) -> MountView {
        MountView { id: self.id, parent_id: self.parent_id, mountpoint: self.mountpoint@ }
    }
}

/// The mounts of a process, in the order the kernel lists them. There is at least one.
#[derive(Debug)]
pub struct MountTable {
    pub entries: Vec<MountEntry>,
}

pub open spec fn mount_views(list: Seq<MountEntry>) -> Seq<MountView> {
    list.map_values(|e: MountEntry| e@)
}

pub open spec fn mount_ref_views(list: Seq<&MountEntry>) -> Seq<MountView> {
    list.map_values(|e: &MountEntry| e@)
}

impl View for MountTable {
    type V = Seq<MountView>;

    closed spec fn view(&self) -> Seq<MountView> {
        mount_views(self.entries@)
    }
}

// -------------------------------------------------------------------- numbers

pub open spec fn is_digit(b: u8) -> bool {
    0x30 <= b <= 0x39
}

/// The value of a run of decimal digits.
pub open spec fn digits_value(s: Seq<u8>) -> nat
    decreases s.len(),
{
    if s.len() == 0 {
        0
    } else {
        digits_value(s.drop_last()) * 10 + (s.last() - 0x30) as nat
    }
}

/// What is left of a number behind an optional plus sign.
pub open spec fn unsigned_part(s: Seq<u8>) -> Seq<u8> {
    if s.len() > 0 && s[0] == 0x2b {
        after(s, 1)
    } else {
        s
    }
}

pub open spec fn all_digits(s: Seq<u8>) -> bool {
    forall|i: int| 0 <= i < s.len() ==> is_digit(#[trigger] s[i])
}

/// An unsigned number: an optional plus sign and at least one decimal digit.
pub open spec fn parsed_u64(s: Seq<u8>) -> Option<u64> {
    let digits = unsigned_part(s);
    if digits.len() > 0 && all_digits(digits) && digits_value(digits) <= u64::MAX {
        Some(digits_value(digits) as u64)
    } else {
        None
    }
}

/// The decimal digits of a number are bytes of digits, and their value is the number.
pub proof fn lemma_decimal_digits(n: nat)
    ensures
        decimal_nat(n).len() > 0,
        vstd::utf8::is_ascii_chars(decimal_nat(n)),
        all_digits(vstd::utf8::encode_utf8(decimal_nat(n))),
        digits_value(vstd::utf8::encode_utf8(decimal_nat(n))) == n,
        vstd::utf8::encode_utf8(decimal_nat(n)).len() == decimal_nat(n).len(),
    decreases n,
{
    reveal_strlit("0");
    reveal_strlit("1");
    reveal_strlit("2");
    reveal_strlit("3");
    reveal_strlit("4");
    reveal_strlit("5");
    reveal_strlit("6");
    reveal_strlit("7");
    reveal_strlit("8");
    reveal_strlit("9");
    let d = n % 10;
    let last = digit(d as int);
    assert(last.len() == 1 && last[0] as u8 == 0x30 + d && '\0' <= last[0] <= '\u{7f}');
    let text = decimal_nat(n);
    if n < 10 {
        vstd::utf8::is_ascii_chars_encode_utf8(text);
        let bytes = vstd::utf8::encode_utf8(text);
        assert(bytes[0] == text[0] as u8);
        assert(digits_value(bytes.drop_last()) == 0);
    } else {
        lemma_decimal_digits(n / 10);
        let head = decimal_nat(n / 10);
        assert forall|i: int| 0 <= i < text.len() implies '\0' <= #[trigger] text[i]
            <= '\u{7f}' by {
            if i < head.len() {
                assert(text[i] == head[i]);
            } else {
                assert(text[i] == last[0]);
            }
        }
        vstd::utf8::is_ascii_chars_encode_utf8(text);
        vstd::utf8::is_ascii_chars_encode_utf8(head);
        let bytes = vstd::utf8::encode_utf8(text);
        let front = vstd::utf8::encode_utf8(head);
        assert forall|i: int| 0 <= i < front.len() implies bytes[i] == front[i] by {
            assert(bytes[i] == text[i] as u8);
            assert(front[i] == head[i] as u8);
        }
        assert(bytes.drop_last() =~= front);
        assert(bytes.last() == text[text.len() - 1] as u8);
        assert forall|i: int| 0 <= i < bytes.len() implies is_digit(#[trigger] bytes[i]) by {
            if i < front.len() {
                assert(is_digit(front[i]));
            } else {
                assert(bytes[i] == last[0] as u8);
            }
        }
    }
}

/// A number reads back from its decimal digits.
pub proof fn numbers_read_back(n: u64)
    ensures
        parsed_u64(vstd::utf8::encode_utf8(decimal_nat(n as nat))) == Some(n),
{
    lemma_decimal_digits(n as nat);
    let bytes = vstd::utf8::encode_utf8(decimal_nat(n as nat));
    assert(is_digit(bytes[0]));
}

proof fn lemma_digits_grow(s: Seq<u8>, n: int, m: int)
    requires
        0 <= n <= m <= s.len(),
        forall|i: int| 0 <= i < s.len() ==> is_digit(#[trigger] s[i]),
    ensures
        digits_value(s.subrange(0, n)) <= digits_value(s.subrange(0, m)),
    decreases m - n,
{
    if n < m {
        lemma_digits_grow(s, n, m - 1);
        let longer = s.subrange(0, m);
        assert(longer.drop_last() =~= s.subrange(0, m - 1));
        assert(longer.last() == s[m - 1]);
        assert(digits_value(longer) >= digits_value(s.subrange(0, m - 1)));
    }
}

/// Reads an unsigned decimal number.
pub fn parse_u64(bytes: &[u8]) -> (r: Option<u64>)
    ensures
        r == parsed_u64(bytes@),
{
    let start: usize = if bytes.len() > 0 && bytes[0] == 0x2b {
        1
    } else {
        0
    };
    let ghost digits = unsigned_part(bytes@);
    if start == bytes.len() {
        return None;
    }
    let mut value: u64 = 0;
    let mut i: usize = start;
    proof {
        assert(digits.subrange(0, 0) =~= Seq::<u8>::empty());
        assert(digits =~= after(bytes@, start as int));
    }
    while i < bytes.len()
        invariant
            start <= i <= bytes.len(),
            start < bytes.len(),
            digits == after(bytes@, start as int),
            digits == unsigned_part(bytes@),
            value == digits_value(digits.subrange(0, i - start)),
            forall|j: int| 0 <= j < i - start ==> is_digit(#[trigger] digits[j]),
        decreases bytes.len() - i,
    {
        let b = bytes[i];
        proof {
            assert(digits[i - start] == b);
        }
        if b < 0x30 || b > 0x39 {
            proof {
                assert(!is_digit(digits[i - start]));
            }
            return None;
        }
        let d: u64 = (b - 0x30) as u64;
        proof {
            let next = digits.subrange(0, i - start + 1);
            assert(next.drop_last() =~= digits.subrange(0, i - start));
            assert(next.last() == b);
            assert(digits_value(next) == value * 10 + d);
        }
        if value > (u64::MAX - d) / 10 {
            proof {
                assert(value * 10 + d > u64::MAX);
                if all_digits(digits) {
                    lemma_digits_grow(digits, i - start + 1, digits.len() as int);
                    assert(digits.subrange(0, digits.len() as int) =~= digits);
                }
            }
            return None;
        }
        value = value * 10 + d;
        i = i + 1;
    }
    proof {
        assert(digits.subrange(0, digits.len() as int) =~= digits);
    }
    Some(value)
}

// ------------------------------------------------------------------- escapes

/// The byte that an escape of three octal digits stands for.
pub open spec fn escape_value(e: Seq<u8>) -> Option<u8> {
    if e == lit("040") {
        Some(SPACE)
    } else if e == lit("011") {
        Some(TAB)
    } else if e == lit("012") {
        Some(LF)
    } else if e == lit("134") {
        Some(BACKSLASH)
    } else {
        None
    }
}

/// A field with the kernel's escapes undone.
pub open spec fn decoded(s: Seq<u8>) -> std::result::Result<Seq<u8>, ErrorView>
    decreases s.len(),
{
    if s.len() == 0 {
        Ok(seq![])
    } else if s[0] != BACKSLASH {
        match decoded(after(s, 1)) {
            Ok(rest) => Ok(seq![s[0]] + rest),
            Err(e) => Err(e),
        }
    } else if s.len() < 4 {
        Err(usage("truncated mountinfo escape"@))
    } else {
        match escape_value(s.subrange(1, 4)) {
            None => Err(usage("invalid mountinfo escape"@)),
            Some(b) => match decoded(after(s, 4)) {
                Ok(rest) => Ok(seq![b] + rest),
                Err(e) => Err(e),
            },
        }
    }
}

/// `head`, then whatever decoding the rest gives.
pub open spec fn then_decoded(head: Seq<u8>, rest: std::result::Result<Seq<u8>, ErrorView>) -> std::result::Result<
    Seq<u8>,
    ErrorView,
> {
    match rest {
        Ok(tail) => Ok(head + tail),
        Err(e) => Err(e),
    }
}

/// Undoes the kernel's escapes in a field.
pub fn decode(bytes: &[u8]) -> (r: Result<Vec<u8>>)
    ensures
        crate::error::bytes_outcome(r) == decoded(bytes@),
{
    let mut output: Vec<u8> = Vec::new();
    let mut index: usize = 0;
    proof {
        assert(after(bytes@, 0) =~= bytes@);
        assert(then_decoded(output@, decoded(bytes@)) =~= decoded(bytes@)) by {
            if decoded(bytes@) is Ok {
                assert(output@ + decoded(bytes@)->Ok_0 =~= decoded(bytes@)->Ok_0);
            }
        }
    }
    while index < bytes.len()
        invariant
            index <= bytes.len(),
            then_decoded(output@, decoded(after(bytes@, index as int))) == decoded(bytes@),
        decreases bytes.len() - index,
    {
        let ghost rest = after(bytes@, index as int);
        let ghost before = output@;
        proof {
            assert(rest[0] == bytes@[index as int]);
        }
        if bytes[index] != BACKSLASH {
            output.push(bytes[index]);
            proof {
                assert(after(rest, 1) =~= after(bytes@, index + 1));
                if decoded(after(rest, 1)) is Ok {
                    let tail = decoded(after(rest, 1))->Ok_0;
                    assert(before + (seq![rest[0]] + tail) =~= before.push(rest[0]) + tail);
                }
            }
            index = index + 1;
            continue;
        }
        if bytes.len() - index < 4 {
            return Err(usage_error("truncated mountinfo escape"));
        }
        let escape = vstd::slice::slice_subrange(bytes, index + 1, index + 4);
        proof {
            assert(rest.subrange(1, 4) =~= escape@);
        }
        let byte: u8 = if is_lit(escape, "040") {
            SPACE
        } else if is_lit(escape, "011") {
            TAB
        } else if is_lit(escape, "012") {
            LF
        } else if is_lit(escape, "134") {
            BACKSLASH
        } else {
            return Err(usage_error("invalid mountinfo escape"));
        };
        output.push(byte);
        proof {
            assert(after(rest, 4) =~= after(bytes@, index + 4));
            if decoded(after(rest, 4)) is Ok {
                let tail = decoded(after(rest, 4))->Ok_0;
                assert(before + (seq![byte] + tail) =~= before.push(byte) + tail);
            }
        }
        index = index + 4;
    }
    proof {
        assert(after(bytes@, index as int) =~= Seq::<u8>::empty());
        assert(output@ + Seq::<u8>::empty() =~= output@);
    }
    Ok(output)
}

/// How the kernel writes one byte of a path.
pub open spec fn kernel_written(b: u8) -> Seq<u8> {
    if b == SPACE {
        seq![BACKSLASH] + lit("040")
    } else if b == TAB {
        seq![BACKSLASH] + lit("011")
    } else if b == LF {
        seq![BACKSLASH] + lit("012")
    } else if b == BACKSLASH {
        seq![BACKSLASH] + lit("134")
    } else {
        seq![b]
    }
}

/// How the kernel writes a path: each space, tab, newline and backslash as an escape.
pub open spec fn kernel_escaped(p: Seq<u8>) -> Seq<u8>
    decreases p.len(),
{
    if p.len() == 0 {
        seq![]
    } else {
        kernel_written(p[0]) + kernel_escaped(after(p, 1))
    }
}

/// Whether every backslash begins one of the kernel's four escapes.
pub open spec fn only_escapes(s: Seq<u8>) -> bool {
    forall|i: int|
        0 <= i < s.len() && #[trigger] s[i] == BACKSLASH ==> i + 4 <= s.len() && escape_value(
            s.subrange(i + 1, i + 4),
        ) is Some
}

proof fn lemma_escapes()
    ensures
        lit("040") == seq![0x30u8, 0x34u8, 0x30u8],
        lit("011") == seq![0x30u8, 0x31u8, 0x31u8],
        lit("012") == seq![0x30u8, 0x31u8, 0x32u8],
        lit("134") == seq![0x31u8, 0x33u8, 0x34u8],
{
    reveal_strlit("040");
    reveal_strlit("011");
    reveal_strlit("012");
    reveal_strlit("134");
    vstd::utf8::is_ascii_chars_encode_utf8("040"@);
    vstd::utf8::is_ascii_chars_encode_utf8("011"@);
    vstd::utf8::is_ascii_chars_encode_utf8("012"@);
    vstd::utf8::is_ascii_chars_encode_utf8("134"@);
}

/// Decoding undoes the kernel's escaping.
pub proof fn escaping_is_undone(p: Seq<u8>)
    ensures
        decoded(kernel_escaped(p)) == Ok::<Seq<u8>, ErrorView>(p),
    decreases p.len(),
{
    lemma_escapes();
    if p.len() > 0 {
        let rest = after(p, 1);
        escaping_is_undone(rest);
        let written = kernel_written(p[0]);
        let whole = kernel_escaped(p);
        assert(whole[0] == written[0]);
        assert(after(whole, written.len() as int) =~= kernel_escaped(rest));
        if written.len() == 4 {
            assert(whole.subrange(1, 4) =~= after(written, 1));
            assert(after(written, 1).len() == 3);
            assert(escape_value(after(written, 1)) == Some(p[0])) by {
                let e = after(written, 1);
                assert(e[0] == written[1] && e[1] == written[2] && e[2] == written[3]);
                if p[0] == SPACE {
                    assert(e =~= lit("040"));
                } else if p[0] == TAB {
                    assert(e =~= lit("011"));
                } else if p[0] == LF {
                    assert(e =~= lit("012"));
                } else {
                    assert(e =~= lit("134"));
                }
            }
        }
        assert(seq![p[0]] + rest =~= p);
    } else {
        assert(p =~= seq![]);
    }
}

proof fn lemma_escapes_after(s: Seq<u8>, n: int)
    requires
        0 <= n <= s.len(),
        forall|i: int| 0 < i < n ==> #[trigger] s[i] != BACKSLASH,
        n > 0 && s[0] == BACKSLASH ==> n == 4 && escape_value(s.subrange(1, 4)) is Some,
    ensures
        only_escapes(s) == only_escapes(after(s, n)),
{
    let rest = after(s, n);
    if only_escapes(s) {
        assert forall|i: int| 0 <= i < rest.len() && #[trigger] rest[i] == BACKSLASH implies i + 4
            <= rest.len() && escape_value(rest.subrange(i + 1, i + 4)) is Some by {
            assert(s[i + n] == BACKSLASH);
            assert(s.subrange(i + n + 1, i + n + 4) =~= rest.subrange(i + 1, i + 4));
        }
    }
    if only_escapes(rest) {
        assert forall|i: int| 0 <= i < s.len() && #[trigger] s[i] == BACKSLASH implies i + 4
            <= s.len() && escape_value(s.subrange(i + 1, i + 4)) is Some by {
            if i >= n {
                assert(rest[i - n] == BACKSLASH);
                assert(rest.subrange(i - n + 1, i - n + 4) =~= s.subrange(i + 1, i + 4));
            }
        }
    }
}

/// A field is decoded exactly if every backslash in it begins one of the four escapes; any other
/// is a usage error.
pub proof fn only_the_kernels_escapes_are_accepted(s: Seq<u8>)
    ensures
        decoded(s) is Ok <==> only_escapes(s),
        decoded(s) matches Err(e) ==> e.class == crate::error::ExitClass::Usage,
    decreases s.len(),
{
    if s.len() > 0 {
        if s[0] != BACKSLASH {
            only_the_kernels_escapes_are_accepted(after(s, 1));
            lemma_escapes_after(s, 1);
        } else if s.len() >= 4 && escape_value(s.subrange(1, 4)) is Some {
            lemma_escapes();
            let e = s.subrange(1, 4);
            assert(e[0] == s[1] && e[1] == s[2] && e[2] == s[3]);
            only_the_kernels_escapes_are_accepted(after(s, 4));
            lemma_escapes_after(s, 4);
        } else {
            assert(s[0] == BACKSLASH);
        }
    }
}

// --------------------------------------------------------------------- lines

pub open spec fn malformed_error(line: nat) -> ErrorView {
    usage("malformed /proc/self/mountinfo line "@ + decimal_nat(line))
}

fn malformed(line: usize) -> (r: GroveError)
    ensures
        r@ == malformed_error(line as nat),
{
    GroveError::usage(
        text("malformed /proc/self/mountinfo line ").concat(number(line as u64).as_str()),
    )
}

/// The first field at or after `from` that is a lone dash, or the number of fields.
pub open spec fn dash_from(fields: Seq<Seq<u8>>, from: int) -> int
    decreases fields.len() - from,
{
    if from >= fields.len() {
        fields.len() as int
    } else if fields[from] == lit("-") {
        from
    } else {
        dash_from(fields, from + 1)
    }
}

/// What one line of the table says.
pub open spec fn line_entry(line: Seq<u8>, number: nat) -> std::result::Result<
    MountView,
    ErrorView,
> {
    let fields = split(line, SPACE);
    let dash = dash_from(fields, 0);
    if dash >= fields.len() || dash < 6 || fields.len() < dash + 4 {
        Err(malformed_error(number))
    } else {
        match (parsed_u64(fields[0]), parsed_u64(fields[1])) {
            (Some(id), Some(parent_id)) => match decoded(fields[4]) {
                Err(e) => Err(e),
                Ok(mountpoint) => if absolute(mountpoint) {
                    Ok(MountView { id, parent_id, mountpoint })
                } else {
                    Err(malformed_error(number))
                },
            },
            _ => Err(malformed_error(number)),
        }
    }
}

/// What the first `n` lines say; empty lines say nothing.
pub open spec fn lines_entries(lines: Seq<Seq<u8>>, n: int) -> std::result::Result<
    Seq<MountView>,
    ErrorView,
>
    decreases n,
{
    if n <= 0 {
        Ok(seq![])
    } else {
        match lines_entries(lines, n - 1) {
            Err(e) => Err(e),
            Ok(entries) => if lines[n - 1].len() == 0 {
                Ok(entries)
            } else {
                match line_entry(lines[n - 1], n as nat) {
                    Err(e) => Err(e),
                    Ok(entry) => Ok(entries.push(entry)),
                }
            },
        }
    }
}

/// What the whole table says.
pub open spec fn table_entries(bytes: Seq<u8>) -> std::result::Result<Seq<MountView>, ErrorView> {
    let lines = split(bytes, LF);
    match lines_entries(lines, lines.len() as int) {
        Err(e) => Err(e),
        Ok(entries) => if entries.len() == 0 {
            Err(usage("/proc/self/mountinfo is empty"@))
        } else {
            Ok(entries)
        },
    }
}

pub open spec fn table_outcome(r: Result<MountTable>) -> std::result::Result<
    Seq<MountView>,
    ErrorView,
> {
    match r {
        Ok(t) => Ok(t@),
        Err(e) => Err(e@),
    }
}

proof fn lemma_lines_error(lines: Seq<Seq<u8>>, n: int, m: int)
    requires
        n <= m,
        lines_entries(lines, n) is Err,
    ensures
        lines_entries(lines, m) == lines_entries(lines, n),
    decreases m - n,
{
    if n < m {
        lemma_lines_error(lines, n, m - 1);
    }
}

fn parse_line(line: &[u8], number: usize) -> (r: Result<MountEntry>)
    ensures
        match r {
            Ok(e) => line_entry(line@, number as nat) == Ok::<MountView, ErrorView>(e@),
            Err(e) => line_entry(line@, number as nat) == Err::<MountView, ErrorView>(e@),
        },
{
    let fields = split_on(line, SPACE);
    proof {
        assert(views(fields@).len() == fields@.len());
    }
    let mut dash: usize = 0;
    while dash < fields.len() && !is_lit(fields[dash].as_slice(), "-")
        invariant
            dash <= fields.len(),
            views(fields@).len() == fields@.len(),
            dash_from(views(fields@), 0) == dash_from(views(fields@), dash as int),
        decreases fields.len() - dash,
    {
        proof {
            assert(views(fields@)[dash as int] == fields@[dash as int]@);
        }
        dash = dash + 1;
    }
    proof {
        if dash < fields.len() {
            assert(views(fields@)[dash as int] == fields@[dash as int]@);
        }
    }
    if dash == fields.len() || dash < 6 || fields.len() - dash < 4 {
        return Err(malformed(number));
    }
    proof {
        assert(views(fields@)[0] == fields@[0]@);
        assert(views(fields@)[1] == fields@[1]@);
        assert(views(fields@)[4] == fields@[4]@);
    }
    let id = match parse_u64(fields[0].as_slice()) {
        Some(id) => id,
        None => return Err(malformed(number)),
    };
    let parent_id = match parse_u64(fields[1].as_slice()) {
        Some(id) => id,
        None => return Err(malformed(number)),
    };
    let mountpoint = decode(fields[4].as_slice())?;
    if !is_absolute(mountpoint.as_slice()) {
        return Err(malformed(number));
    }
    Ok(MountEntry { id, parent_id, mountpoint })
}

// -------------------------------------------------------------------- queries

/// Whether entry `k` is the mount that `path` lies on: it encloses the path, none that encloses
/// it is deeper, and of those as deep it is the last, which covers the others.
pub open spec fn is_longest(table: Seq<MountView>, path: Seq<u8>, k: int) -> bool {
    &&& 0 <= k < table.len()
    &&& within(path, table[k].mountpoint)
    &&& forall|j: int|
        0 <= j < table.len() && within(path, #[trigger] table[j].mountpoint) ==> {
            &&& parts(table[j].mountpoint).len() <= parts(table[k].mountpoint).len()
            &&& j > k ==> parts(table[j].mountpoint).len() < parts(table[k].mountpoint).len()
        }
}

/// At most one entry is the mount that a path lies on.
pub proof fn the_longest_mount_is_unique(table: Seq<MountView>, path: Seq<u8>, a: int, b: int)
    requires
        is_longest(table, path, a),
        is_longest(table, path, b),
    ensures
        a == b,
{
}

/// Of two mounts that enclose one path, the shallower encloses the deeper: the answer to
/// "which mount" never depends on which of two unrelated trees is asked first.
pub proof fn enclosing_mounts_are_nested(path: Seq<u8>, a: Seq<u8>, b: Seq<u8>)
    requires
        within(path, a),
        within(path, b),
        parts(a).len() <= parts(b).len(),
    ensures
        within(b, a),
{
    let n = parts(a).len() as int;
    let m = parts(b).len() as int;
    assert(parts(b).subrange(0, n) =~= parts(path).subrange(0, m).subrange(0, n));
    assert(parts(path).subrange(0, m).subrange(0, n) =~= parts(path).subrange(0, n));
}

impl MountTable {
    /// Reads a table in the kernel's format.
    pub fn parse(bytes: &[u8]) -> (r: Result<MountTable>)
        ensures
            table_outcome(r) == table_entries(bytes@),
    {
        let lines = split_on(bytes, LF);
        let ghost all = views(lines@);
        let mut entries: Vec<MountEntry> = Vec::new();
        let mut i: usize = 0;
        proof {
            assert(all.len() == lines@.len());
            assert(mount_views(entries@) =~= seq![]);
        }
        while i < lines.len()
            invariant
                i <= lines.len(),
                all == views(lines@),
                all == split(bytes@, LF),
                all.len() == lines@.len(),
                lines_entries(all, i as int) == Ok::<Seq<MountView>, ErrorView>(
                    mount_views(entries@),
                ),
            decreases lines.len() - i,
        {
            proof {
                assert(all[i as int] == lines@[i as int]@);
            }
            if lines[i].len() > 0 {
                let ghost before = mount_views(entries@);
                match parse_line(lines[i].as_slice(), i + 1) {
                    Err(e) => {
                        proof {
                            lemma_lines_error(all, i + 1, all.len() as int);
                        }
                        return Err(e);
                    },
                    Ok(entry) => {
                        entries.push(entry);
                        proof {
                            assert(mount_views(entries@) =~= before.push(entry@));
                        }
                    },
                }
            }
            i = i + 1;
        }
        proof {
            assert(mount_views(entries@).len() == entries@.len());
        }
        if entries.len() == 0 {
            return Err(usage_error("/proc/self/mountinfo is empty"));
        }
        Ok(MountTable { entries })
    }

    /// The mount that `path` lies on.
    pub fn longest_enclosing(&self, path: &[u8]) -> (r: Option<&MountEntry>)
        ensures
            match r {
                None => forall|j: int|
                    0 <= j < self@.len() ==> !within(path@, #[trigger] self@[j].mountpoint),
                Some(e) => exists|k: int| #[trigger] is_longest(self@, path@, k) && self@[k] == e@,
            },
    {
        let ghost table = self@;
        let mut best: Option<usize> = None;
        let mut depth: usize = 0;
        let mut i: usize = 0;
        while i < self.entries.len()
            invariant
                i <= self.entries.len(),
                table == mount_views(self.entries@),
                match best {
                    None => forall|j: int|
                        0 <= j < i ==> !within(path@, #[trigger] table[j].mountpoint),
                    Some(k) => {
                        &&& k < i
                        &&& depth == parts(table[k as int].mountpoint).len()
                        &&& within(path@, table[k as int].mountpoint)
                        &&& forall|j: int|
                            0 <= j < i && within(path@, #[trigger] table[j].mountpoint) ==> {
                                &&& parts(table[j].mountpoint).len() <= depth
                                &&& j > k ==> parts(table[j].mountpoint).len() < depth
                            }
                    },
                },
            decreases self.entries.len() - i,
        {
            let mountpoint = self.entries[i].mountpoint.as_slice();
            proof {
                assert(table[i as int].mountpoint == mountpoint@);
            }
            if is_within(path, mountpoint) {
                let list = components(mountpoint);
                proof {
                    assert(part_views(list@).len() == list@.len());
                }
                if best.is_none() || list.len() >= depth {
                    best = Some(i);
                    depth = list.len();
                }
            }
            i = i + 1;
        }
        match best {
            None => None,
            Some(k) => {
                proof {
                    assert(is_longest(table, path@, k as int));
                    assert(table[k as int] == self.entries@[k as int]@);
                }
                Some(&self.entries[k])
            },
        }
    }

    /// The mounts at or below `root`, in table order.
    pub fn at_or_below<'a>(&'a self, root: &[u8]) -> (r: Vec<&'a MountEntry>)
        ensures
            mount_ref_views(r@) == self@.filter(|e: MountView| within(e.mountpoint, root@)),
    {
        let ghost table = self@;
        let ghost below = |e: MountView| within(e.mountpoint, root@);
        let mut out: Vec<&'a MountEntry> = Vec::new();
        let mut i: usize = 0;
        proof {
            reveal(Seq::filter);
            assert(table.subrange(0, 0) =~= Seq::<MountView>::empty());
            assert(mount_ref_views(out@) =~= Seq::<MountView>::empty());
        }
        while i < self.entries.len()
            invariant
                i <= self.entries.len(),
                table == mount_views(self.entries@),
                below == (|e: MountView| within(e.mountpoint, root@)),
                mount_ref_views(out@) == table.subrange(0, i as int).filter(below),
            decreases self.entries.len() - i,
        {
            let ghost before = mount_ref_views(out@);
            proof {
                reveal(Seq::filter);
                assert(table.subrange(0, i + 1).drop_last() =~= table.subrange(0, i as int));
                assert(table.subrange(0, i + 1).last() == self.entries@[i as int]@);
            }
            if is_within(self.entries[i].mountpoint.as_slice(), root) {
                out.push(&self.entries[i]);
                proof {
                    assert(mount_ref_views(out@) =~= before.push(self.entries@[i as int]@));
                }
            }
            i = i + 1;
        }
        proof {
            assert(table.subrange(0, i as int) =~= table);
        }
        out
    }

    /// Refuses a path that has a mount at or below it.
    pub fn ensure_no_boundary(&self, kernel_path: &[u8]) -> (r: Result<()>)
        ensures
            plain(r) == boundary_from(self@, kernel_path@, 0),
    {
        let mut i: usize = 0;
        while i < self.entries.len()
            invariant
                i <= self.entries.len(),
                boundary_from(self@, kernel_path@, 0) == boundary_from(
                    self@,
                    kernel_path@,
                    i as int,
                ),
            decreases self.entries.len() - i,
        {
            proof {
                assert(self@[i as int] == self.entries@[i as int]@);
            }
            if is_within(self.entries[i].mountpoint.as_slice(), kernel_path) {
                return Err(
                    GroveError::needs_decision(
                        text("mount boundary at ").concat(
                            lossy(self.entries[i].mountpoint.as_slice()).as_str(),
                        ).concat(" prevents safe adoption"),
                    ),
                );
            }
            i = i + 1;
        }
        Ok(())
    }

    /// Refuses a held directory that has a mount at or below it, where the kernel sees it.
    pub fn ensure_no_boundary_at_or_below<F: FileSystem + ?Sized>(
        &self,
        files: &mut F,
        root: &HeldDirectory,
    ) -> (r: Result<()>)
        ensures
            (final(files).files(), plain(r)) == boundary_run(old(files).files(), self@, root@),
    {
        let kernel_path = root.kernel_path(files)?;
        self.ensure_no_boundary(kernel_path.as_slice())
    }

    /// The kernel's table of mounts.
    pub fn read_live<F: FileSystem + ?Sized>(files: &mut F) -> (r: Result<MountTable>)
        ensures
            (final(files).files(), table_outcome(r)) == live_run(old(files).files()),
    {
        match ask_bytes(files, FileRequest::MountTable) {
            Err(e) => Err(
                GroveError::usage(
                    text("cannot read /proc/self/mountinfo: ").concat(e.text.as_str()),
                ),
            ),
            Ok(bytes) => MountTable::parse(bytes.as_slice()),
        }
    }
}

/// Reading the kernel's table of mounts.
pub open spec fn live_run(s: FileSession) -> (FileSession, Outcome<Seq<MountView>>) {
    match bytes_step(s, FileRequest::MountTable) {
        (s1, Err(e)) => (s1, Err(usage("cannot read /proc/self/mountinfo: "@ + e.text))),
        (s1, Ok(bytes)) => (s1, table_entries(bytes)),
    }
}

/// Refusing a held directory that has a mount at or below it.
pub open spec fn boundary_run(s: FileSession, table: Seq<MountView>, root: HeldView) -> (
    FileSession,
    Outcome<()>,
) {
    match kernel_path_run(s, root) {
        (s1, Err(e)) => (s1, Err(e)),
        (s1, Ok(path)) => (s1, boundary_from(table, path, 0)),
    }
}

/// Refusing a directory for the first mount from `i` on that is at or below it.
pub open spec fn boundary_from(table: Seq<MountView>, path: Seq<u8>, i: int) -> Outcome<()>
    decreases table.len() - i,
{
    if i >= table.len() {
        Ok(())
    } else if within(table[i].mountpoint, path) {
        Err(
            needs_decision(
                "mount boundary at "@ + lossy_text(table[i].mountpoint)
                    + " prevents safe adoption"@,
            ),
        )
    } else {
        boundary_from(table, path, i + 1)
    }
}

/// A directory is accepted exactly when no mount is at or below it.
pub proof fn accepted_directories_hold_no_mount(table: Seq<MountView>, path: Seq<u8>, i: int)
    requires
        0 <= i <= table.len(),
    ensures
        boundary_from(table, path, i) is Ok <==> forall|j: int|
            i <= j < table.len() ==> !within(#[trigger] table[j].mountpoint, path),
    decreases table.len() - i,
{
    if i < table.len() {
        accepted_directories_hold_no_mount(table, path, i + 1);
        if !within(table[i].mountpoint, path) {
            assert forall|j: int| i <= j < table.len() && boundary_from(
                table,
                path,
                i + 1,
            ) is Ok implies !within(#[trigger] table[j].mountpoint, path) by {
                if j > i {
                    assert(i + 1 <= j);
                }
            }
        }
    }
}

} // verus!
