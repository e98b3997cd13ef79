//! Text shown to a user: message building, and rendering bytes and numbers.
use vstd::prelude::*;
use vstd::utf8::*;
use bstr::ByteSlice;

verus! {

// ---------------------------------------------------------------- escaping

pub open spec fn upper_hex(d: int) -> char {
    if d == 0 { '0' } else if d == 1 { '1' } else if d == 2 { '2' } else if d == 3 { '3' }
    else if d == 4 { '4' } else if d == 5 { '5' } else if d == 6 { '6' } else if d == 7 { '7' }
    else if d == 8 { '8' } else if d == 9 { '9' } else if d == 10 { 'A' } else if d == 11 { 'B' }
    else if d == 12 { 'C' } else if d == 13 { 'D' } else if d == 14 { 'E' } else { 'F' }
}

/// How one byte that is ASCII, or no part of valid UTF-8, is shown.
pub open spec fn escape_byte(b: u8) -> Seq<char> {
    if b == 0x00 {
        seq!['\\', '0']
    } else if b == 0x0a {
        seq!['\\', 'n']
    } else if b == 0x0d {
        seq!['\\', 'r']
    } else if b == 0x09 {
        seq!['\\', 't']
    } else if b == 0x5c {
        seq!['\\', '\\']
    } else if 0x21 <= b <= 0x7e {
        seq![b as char]
    } else {
        seq!['\\', 'x', upper_hex(b as int / 16), upper_hex(b as int % 16)]
    }
}

/// How a byte string is shown: printable ASCII and valid UTF-8 as they are, the rest escaped.
pub open spec fn escape(s: Seq<u8>) -> Seq<char>
    decreases s.len(),
{
    if s.len() == 0 {
        seq![]
    } else if s[0] >= 0x80 && valid_first_scalar(s) && 0 < length_of_first_scalar(s) <= s.len() {
        seq![decode_first_scalar(s) as char] + escape(
            s.subrange(length_of_first_scalar(s), s.len() as int),
        )
    } else {
        escape_byte(s[0]) + escape(s.subrange(1, s.len() as int))
    }
}

/// Renders raw bytes for a person to read.
///
/// Trusted: `bstr::ByteSlice::escape_bytes`, collected into a `String`. It passes through
/// `0x21..=0x7E` other than the backslash, writes NUL, LF, CR, TAB and the backslash as a
/// backslash and one letter, copies every valid non-ASCII UTF-8 scalar, and writes any other
/// byte as `\xNN` with upper-case digits.
#[verifier::external_body]
pub(crate) fn escaped(bytes: &[u8]) -> (r: String)
    ensures
        r@ == escape(bytes@),
{
    bytes.escape_bytes().to_string()
}

// ------------------------------------------------------------ lossy decoding

/// The text that `String::from_utf8_lossy` makes of bytes that are not valid UTF-8.
pub uninterp spec fn replaced_text(bytes: Seq<u8>) -> Seq<char>;

/// The text that bytes are shown as: what they say as UTF-8, or what stands in for that.
#[verifier::opaque]
pub open spec fn lossy_text(bytes: Seq<u8>) -> Seq<char> {
    if valid_utf8(bytes) {
        decode_utf8(bytes)
    } else {
        replaced_text(bytes)
    }
}

/// Text is shown as it is.
pub proof fn text_is_shown_as_it_is(s: Seq<char>)
    ensures
        lossy_text(encode_utf8(s)) == s,
{
    reveal(lossy_text);
    encode_utf8_valid_utf8(s);
    encode_utf8_decode_utf8(s);
}

/// The bytes of two pieces of text, one after the other.
pub proof fn lemma_joined_bytes(a: Seq<char>, b: Seq<char>)
    ensures
        encode_utf8(a + b) == encode_utf8(a) + encode_utf8(b),
    decreases a.len(),
{
    if a.len() == 0 {
        assert(a + b =~= b);
        assert(encode_utf8(a) + encode_utf8(b) =~= encode_utf8(b));
    } else {
        lemma_joined_bytes(a.drop_first(), b);
        assert((a + b).drop_first() =~= a.drop_first() + b);
        assert((a + b)[0] == a[0]);
        let first = encode_scalar(a[0] as u32);
        assert(first + (encode_utf8(a.drop_first()) + encode_utf8(b)) =~= (first + encode_utf8(
            a.drop_first(),
        )) + encode_utf8(b));
    }
}

/// Decodes bytes as UTF-8 with replacement characters where they are not.
///
/// Trusted: `String::from_utf8_lossy`. Valid UTF-8 is decoded as it is. What is made of other
/// bytes is a function of them alone and is left as a name.
#[verifier::external_body]
pub(crate) fn lossy(bytes: &[u8]) -> (r: String)
    ensures
        r@ == lossy_text(bytes@),
        !valid_utf8(bytes@) ==> r@ == replaced_text(bytes@),
{
    String::from_utf8_lossy(bytes).into_owned()
}

/// The characters with Unicode's `White_Space` property.
pub open spec fn is_white_space(c: char) -> bool {
    let u = c as u32;
    ||| 0x09 <= u <= 0x0d
    ||| u == 0x20
    ||| u == 0x85
    ||| u == 0xa0
    ||| u == 0x1680
    ||| 0x2000 <= u <= 0x200a
    ||| u == 0x2028
    ||| u == 0x2029
    ||| u == 0x202f
    ||| u == 0x205f
    ||| u == 0x3000
}

pub open spec fn trim_start(s: Seq<char>) -> Seq<char>
    decreases s.len(),
{
    if s.len() > 0 && is_white_space(s[0]) {
        trim_start(s.subrange(1, s.len() as int))
    } else {
        s
    }
}

pub open spec fn trim_end(s: Seq<char>) -> Seq<char>
    decreases s.len(),
{
    if s.len() > 0 && is_white_space(s.last()) {
        trim_end(s.drop_last())
    } else {
        s
    }
}

fn is_blank(c: char) -> (r: bool)
    ensures
        r == is_white_space(c),
{
    let u = c as u32;
    (0x09 <= u && u <= 0x0d) || u == 0x20 || u == 0x85 || u == 0xa0 || u == 0x1680 || (0x2000 <= u
        && u <= 0x200a) || u == 0x2028 || u == 0x2029 || u == 0x202f || u == 0x205f || u == 0x3000
}

/// Drops white space at both ends.
pub fn trimmed(s: &str) -> (r: String)
    ensures
        r@ == trim_end(trim_start(s@)),
{
    let n: usize = s.unicode_len();
    let mut start: usize = 0;
    proof {
        assert(s@.subrange(0, n as int) =~= s@);
    }
    while start < n && is_blank(s.get_char(start))
        invariant
            start <= n,
            n == s@.len(),
            trim_start(s@) == trim_start(s@.subrange(start as int, n as int)),
        decreases n - start,
    {
        proof {
            let rest = s@.subrange(start as int, n as int);
            assert(rest.subrange(1, rest.len() as int) =~= s@.subrange(start + 1, n as int));
        }
        start = start + 1;
    }
    let mut end: usize = n;
    while end > start && is_blank(s.get_char(end - 1))
        invariant
            start <= end <= n,
            n == s@.len(),
            trim_end(s@.subrange(start as int, n as int)) == trim_end(
                s@.subrange(start as int, end as int),
            ),
        decreases end,
    {
        proof {
            assert(s@.subrange(start as int, end as int).drop_last() =~= s@.subrange(
                start as int,
                end - 1,
            ));
        }
        end = end - 1;
    }
    proof {
        let rest = s@.subrange(start as int, n as int);
        assert(rest.len() > 0 ==> rest[0] == s@[start as int]);
        let kept = s@.subrange(start as int, end as int);
        assert(kept.len() > 0 ==> kept.last() == s@[end - 1]);
    }
    text(s.substring_char(start, end))
}

// ------------------------------------------------------------------- numbers

pub open spec fn digit(d: int) -> Seq<char> {
    if d == 0 { "0"@ } else if d == 1 { "1"@ } else if d == 2 { "2"@ } else if d == 3 { "3"@ }
    else if d == 4 { "4"@ } else if d == 5 { "5"@ } else if d == 6 { "6"@ } else if d == 7 { "7"@ }
    else if d == 8 { "8"@ } else if d == 9 { "9"@ } else if d == 10 { "a"@ } else if d == 11 { "b"@ }
    else if d == 12 { "c"@ } else if d == 13 { "d"@ } else if d == 14 { "e"@ } else { "f"@ }
}

/// A natural number in decimal, without leading zeros.
pub open spec fn decimal_nat(n: nat) -> Seq<char>
    decreases n,
{
    if n < 10 {
        digit(n as int)
    } else {
        decimal_nat(n / 10) + digit((n % 10) as int)
    }
}

/// An integer in decimal.
pub open spec fn decimal(n: int) -> Seq<char> {
    if n < 0 {
        "-"@ + decimal_nat((-n) as nat)
    } else {
        decimal_nat(n as nat)
    }
}

/// Bytes in lower-case hexadecimal, two digits each.
pub open spec fn hex_text(bytes: Seq<u8>) -> Seq<char>
    decreases bytes.len(),
{
    if bytes.len() == 0 {
        ""@
    } else {
        hex_text(bytes.drop_last()) + digit(bytes.last() as int / 16) + digit(
            bytes.last() as int % 16,
        )
    }
}

fn digit_str(d: u64) -> (r: &'static str)
    requires
        d < 16,
    ensures
        r@ == digit(d as int),
{
    if d == 0 { "0" } else if d == 1 { "1" } else if d == 2 { "2" } else if d == 3 { "3" }
    else if d == 4 { "4" } else if d == 5 { "5" } else if d == 6 { "6" } else if d == 7 { "7" }
    else if d == 8 { "8" } else if d == 9 { "9" } else if d == 10 { "a" } else if d == 11 { "b" }
    else if d == 12 { "c" } else if d == 13 { "d" } else if d == 14 { "e" } else { "f" }
}

/// A natural number in decimal.
pub fn number(n: u64) -> (r: String)
    ensures
        r@ == decimal_nat(n as nat),
    decreases n,
{
    if n < 10 {
        text(digit_str(n))
    } else {
        number(n / 10).concat(digit_str(n % 10))
    }
}

/// An exit status in decimal.
pub fn status_number(n: i32) -> (r: String)
    ensures
        r@ == decimal(n as int),
{
    if n < 0 {
        let magnitude: i64 = -(n as i64);
        text("-").concat(number(magnitude as u64).as_str())
    } else {
        number(n as u64)
    }
}

/// A number of seconds in decimal.
pub fn seconds_number(n: i64) -> (r: String)
    ensures
        r@ == decimal(n as int),
{
    if n < 0 {
        let short: i64 = -(n + 1);
        let magnitude: u64 = short as u64 + 1;
        text("-").concat(number(magnitude).as_str())
    } else {
        number(n as u64)
    }
}

/// Lower-case hexadecimal.
pub fn hex(bytes: &[u8]) -> (r: String)
    ensures
        r@ == hex_text(bytes@),
{
    let mut out = text("");
    let mut i: usize = 0;
    proof {
        assert(bytes@.subrange(0, 0) =~= Seq::<u8>::empty());
    }
    while i < bytes.len()
        invariant
            i <= bytes.len(),
            out@ == hex_text(bytes@.subrange(0, i as int)),
        decreases bytes.len() - i,
    {
        let b: u64 = bytes[i] as u64;
        proof {
            let next = bytes@.subrange(0, i + 1);
            assert(next.drop_last() =~= bytes@.subrange(0, i as int));
            assert(next.last() == bytes@[i as int]);
        }
        out = out.concat(digit_str(b / 16)).concat(digit_str(b % 16));
        i = i + 1;
    }
    proof {
        assert(bytes@.subrange(0, i as int) =~= bytes@);
    }
    out
}

// ---------------------------------------------------------------- composition

/// A piece of fixed text.
pub fn text(s: &str) -> (r: String)
    ensures
        r@ == s@,
{
    s.to_owned()
}

/// A text is empty exactly when its encoding is.
pub proof fn lemma_empty_text(t: Seq<char>)
    ensures
        (t.len() == 0) == (vstd::utf8::encode_utf8(t).len() == 0),
{
    vstd::utf8::encode_utf8_decode_utf8(t);
    let none: Seq<char> = seq![];
    if t.len() == 0 {
        assert(t =~= none);
    }
    if vstd::utf8::encode_utf8(t).len() == 0 {
        vstd::utf8::encode_utf8_decode_utf8(none);
        assert(vstd::utf8::encode_utf8(t) =~= vstd::utf8::encode_utf8(none));
    }
}

/// Whether two texts are the same.
pub fn same_text(a: &str, b: &str) -> (r: bool)
    ensures
        r == (a@ == b@),
{
    proof {
        vstd::utf8::encode_utf8_decode_utf8(a@);
        vstd::utf8::encode_utf8_decode_utf8(b@);
    }
    crate::bytes::same(a.as_bytes(), b.as_bytes())
}

/// The models of a list of strings.
pub open spec fn texts(list: Seq<String>) -> Seq<Seq<char>> {
    list.map_values(|s: String| s@)
}

pub broadcast proof fn lemma_texts_push(list: Seq<String>, s: String)
    ensures
        #[trigger] texts(list.push(s)) == texts(list).push(s@),
{
    assert(texts(list.push(s)) =~= texts(list).push(s@));
}

pub open spec fn opt_text(o: Option<String>) -> Option<Seq<char>> {
    match o {
        Some(s) => Some(s@),
        None => None,
    }
}

/// Pieces of text with a separator between them.
pub open spec fn joined_text(list: Seq<Seq<char>>, sep: Seq<char>) -> Seq<char>
    decreases list.len(),
{
    if list.len() == 0 {
        ""@
    } else if list.len() == 1 {
        list[0]
    } else {
        joined_text(list.drop_last(), sep) + sep + list.last()
    }
}

/// Pieces of text with a separator between them.
pub fn join(list: &Vec<String>, sep: &str) -> (r: String)
    ensures
        r@ == joined_text(texts(list@), sep@),
{
    if list.len() == 0 {
        return text("");
    }
    let mut out = list[0].clone();
    let mut i: usize = 1;
    while i < list.len()
        invariant
            1 <= i <= list.len(),
            out@ == joined_text(texts(list@).subrange(0, i as int), sep@),
        decreases list.len() - i,
    {
        proof {
            let next = texts(list@).subrange(0, i + 1);
            assert(next.drop_last() =~= texts(list@).subrange(0, i as int));
            assert(next.last() == list@[i as int]@);
        }
        out = out.concat(sep).concat(list[i].as_str());
        i = i + 1;
    }
    proof {
        assert(texts(list@).subrange(0, i as int) =~= texts(list@));
    }
    out
}

} // verus!
