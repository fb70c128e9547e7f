//! Bytes and text. Everything the library reads is a sequence of bytes; a
//! `str` is the same bytes with the promise that they are UTF-8. This module
//! is the only place where bytes are turned into `str` values.

use vstd::prelude::*;
use vstd::slice::slice_subrange;
use vstd::string::*;
use vstd::utf8::*;

verus! {

/// `core::str::from_utf8`, with its error dropped. Not verified: the contract
/// restates the documentation of the standard library, which returns the
/// string slice over the same bytes exactly when they are valid UTF-8.
#[verifier::external_body]
pub(crate) fn utf8_str(bytes: &[u8]) -> (text: Option<&str>)
    ensures
        text is Some <==> valid_utf8(bytes@),
        text matches Some(s) ==> s.spec_bytes() == bytes@,
{
    core::str::from_utf8(bytes).ok()
}

/// Two character sequences with the same UTF-8 encoding are the same.
pub proof fn lemma_encoding_is_injective(a: Seq<char>, b: Seq<char>)
    requires
        encode_utf8(a) == encode_utf8(b),
    ensures
        a == b,
{
    encode_utf8_decode_utf8(a);
    encode_utf8_decode_utf8(b);
}

/// The text that valid UTF-8 bytes stand for, as an owned string; `None`
/// when the bytes are not valid UTF-8.
pub fn string_from_utf8(bytes: &[u8]) -> (text: Option<String>)
    ensures
        text is Some <==> valid_utf8(bytes@),
        text matches Some(s) ==> s@ == decode_utf8(bytes@) && encode_utf8(s@) == bytes@,
{
    match utf8_str(bytes) {
        Some(s) => {
            proof {
                encode_utf8_decode_utf8(s@);
            }
            Some(s.to_owned())
        },
        None => None,
    }
}

/// Whether two byte strings are equal.
pub fn bytes_eq(a: &[u8], b: &[u8]) -> (same: bool)
    ensures
        same == (a@ == b@),
{
    if a.len() != b.len() {
        return false;
    }
    let mut i: usize = 0;
    while i < a.len()
        invariant
            i <= a.len(),
            a.len() == b.len(),
            forall|j: int| 0 <= j < i ==> a@[j] == b@[j],
        decreases a.len() - i,
    {
        if a[i] != b[i] {
            return false;
        }
        i += 1;
    }
    assert(a@ =~= b@);
    true
}

/// Whether two strings hold the same characters.
pub fn str_eq(a: &str, b: &str) -> (same: bool)
    ensures
        same == (a@ == b@),
{
    let same = bytes_eq(a.as_bytes(), b.as_bytes());
    proof {
        if same {
            lemma_encoding_is_injective(a@, b@);
        }
    }
    same
}

/// The lower-case form of an ASCII letter; any other byte is left alone.
pub open spec fn ascii_lower(b: u8) -> u8 {
    if 0x41 <= b <= 0x5a {
        (b + 0x20) as u8
    } else {
        b
    }
}

/// A byte string with every ASCII letter in lower case.
pub open spec fn ascii_lower_seq(s: Seq<u8>) -> Seq<u8> {
    s.map_values(|b: u8| ascii_lower(b))
}

/// Executable `ascii_lower`.
pub fn to_ascii_lower(b: u8) -> (lower: u8)
    ensures
        lower == ascii_lower(b),
{
    if 0x41 <= b && b <= 0x5a {
        b + 0x20
    } else {
        b
    }
}

/// Whether two byte strings are equal when the case of ASCII letters is
/// ignored.
pub fn eq_ignore_ascii_case(a: &[u8], b: &[u8]) -> (same: bool)
    ensures
        same == (ascii_lower_seq(a@) == ascii_lower_seq(b@)),
{
    if a.len() != b.len() {
        assert(ascii_lower_seq(a@).len() != ascii_lower_seq(b@).len());
        return false;
    }
    let mut i: usize = 0;
    while i < a.len()
        invariant
            i <= a.len(),
            a.len() == b.len(),
            forall|j: int| 0 <= j < i ==> ascii_lower(a@[j]) == ascii_lower(b@[j]),
        decreases a.len() - i,
    {
        if to_ascii_lower(a[i]) != to_ascii_lower(b[i]) {
            assert(ascii_lower_seq(a@)[i as int] != ascii_lower_seq(b@)[i as int]);
            return false;
        }
        i += 1;
    }
    assert(ascii_lower_seq(a@) =~= ascii_lower_seq(b@));
    true
}

/// In valid UTF-8 a character starts at the first byte, after the last
/// byte, at every ASCII byte and after every ASCII byte.
pub proof fn lemma_ascii_boundary(s: Seq<u8>, x: int)
    requires
        valid_utf8(s),
        0 <= x <= s.len(),
        x == 0 || x == s.len() || s[x] < 0x80 || s[x - 1] < 0x80,
    ensures
        is_char_boundary(s, x),
{
    is_char_boundary_start_end_of_seq(s);
    if 0 < x < s.len() {
        is_char_boundary_iff_not_is_continuation_byte(s, x);
        if s[x] >= 0x80 {
            is_char_boundary_iff_not_is_continuation_byte(s, x - 1);
            valid_utf8_split(s, x - 1);
            let tail = s.subrange(x - 1, s.len() as int);
            assert(tail[0] == s[x - 1]);
            let rest = pop_first_scalar(tail);
            assert(rest =~= s.subrange(x, s.len() as int));
            assert(valid_utf8(rest));
            assert(rest[0] == s[x]);
            assert(valid_first_scalar(rest));
        }
    }
}

/// A piece of valid UTF-8 that is cut out at ASCII bytes, or at the ends of
/// the text, is valid UTF-8.
pub proof fn lemma_piece_is_utf8(s: Seq<u8>, a: int, b: int)
    requires
        valid_utf8(s),
        0 <= a <= b <= s.len(),
        a == 0 || a == s.len() || s[a] < 0x80 || s[a - 1] < 0x80,
        b == 0 || b == s.len() || s[b] < 0x80 || s[b - 1] < 0x80,
    ensures
        valid_utf8(s.subrange(a, b)),
{
    lemma_ascii_boundary(s, b);
    valid_utf8_split(s, b);
    let front = s.subrange(0, b);
    if 0 < a < b {
        assert(front[a] == s[a] && front[a - 1] == s[a - 1]);
    }
    lemma_ascii_boundary(front, a);
    valid_utf8_split(front, a);
    assert(front.subrange(a, front.len() as int) =~= s.subrange(a, b));
}

/// The string slice over bytes that are known to be valid UTF-8.
pub fn text_of(bytes: &[u8]) -> (text: &str)
    requires
        valid_utf8(bytes@),
    ensures
        text.spec_bytes() == bytes@,
        text@ == decode_utf8(bytes@),
{
    match utf8_str(bytes) {
        Some(s) => {
            proof {
                encode_utf8_decode_utf8(s@);
            }
            s
        },
        None => "",
    }
}

/// Whether a byte is ASCII white space: a space, a tab, a line feed, a
/// vertical tab, a form feed or a carriage return.
pub open spec fn is_space(b: u8) -> bool {
    b == 0x20 || (0x09 <= b <= 0x0d)
}

/// How many bytes of `s` are left when the white space at its end is cut
/// off.
pub open spec fn trimmed_len(s: Seq<u8>) -> int
    decreases s.len(),
{
    if s.len() > 0 && is_space(s.last()) {
        trimmed_len(s.drop_last())
    } else {
        s.len() as int
    }
}

/// `s` without the white space at its end.
pub open spec fn trim_end(s: Seq<u8>) -> Seq<u8> {
    s.take(trimmed_len(s))
}

/// Cutting the white space off the end of valid UTF-8 leaves valid UTF-8.
pub proof fn lemma_trim_end_is_utf8(s: Seq<u8>)
    requires
        valid_utf8(s),
    ensures
        0 <= trimmed_len(s) <= s.len(),
        valid_utf8(trim_end(s)),
{
    lemma_trimmed_len(s);
    lemma_piece_is_utf8(s, 0, trimmed_len(s));
}

/// Where the trimmed text ends: at the end of `s`, or before a byte of white
/// space.
pub proof fn lemma_trimmed_len(s: Seq<u8>)
    ensures
        0 <= trimmed_len(s) <= s.len(),
        trimmed_len(s) < s.len() ==> is_space(s[trimmed_len(s)]),
    decreases s.len(),
{
    if s.len() > 0 && is_space(s.last()) {
        lemma_trimmed_len(s.drop_last());
    }
}

/// The text of `bytes` without the white space at its end.
pub fn trim_end_of(bytes: &[u8]) -> (text: &str)
    requires
        valid_utf8(bytes@),
    ensures
        text.spec_bytes() == trim_end(bytes@),
        text@ == decode_utf8(trim_end(bytes@)),
{
    let mut end: usize = bytes.len();
    assert(bytes@.take(end as int) =~= bytes@);
    while end > 0 && (bytes[end - 1] == 0x20 || (0x09 <= bytes[end - 1] && bytes[end - 1] <= 0x0d))
        invariant
            end <= bytes.len(),
            trimmed_len(bytes@) == trimmed_len(bytes@.take(end as int)),
        decreases end,
    {
        proof {
            assert(bytes@.take(end as int).drop_last() =~= bytes@.take(end - 1));
        }
        end -= 1;
    }
    proof {
        if end > 0 {
            assert(bytes@.take(end as int).last() == bytes@[end - 1]);
        }
        lemma_trim_end_is_utf8(bytes@);
    }
    text_of(slice_subrange(bytes, 0, end))
}

/// The classes of bytes at which a scan stops.
#[derive(Debug, Copy, Clone, PartialEq, Eq, Structural)]
pub enum Stop {
    /// The given byte.
    Byte(u8),
    /// Any byte but the given one.
    Not(u8),
    /// Any byte that cannot stand in a header name: the colon that ends the
    /// name, a space, a control character.
    NameEnd,
    /// Any byte but a space or a tab.
    ValueStart,
    /// A carriage return or a line feed.
    LineEnd,
}

impl Stop {
    /// Whether a scan of this class stops at byte `b`.
    pub open spec fn at(self, b: u8) -> bool {
        match self {
            Stop::Byte(stop) => b == stop,
            Stop::Not(pass) => b != pass,
            Stop::NameEnd => b <= 0x20 || b == 0x7f || b == 0x3a,
            Stop::ValueStart => b != 0x20 && b != 0x09,
            Stop::LineEnd => b == 0x0d || b == 0x0a,
        }
    }

    /// Executable `at`.
    pub fn stops_at(self, b: u8) -> (stops: bool)
        ensures
            stops == self.at(b),
    {
        match self {
            Stop::Byte(stop) => b == stop,
            Stop::Not(pass) => b != pass,
            Stop::NameEnd => b <= 0x20 || b == 0x7f || b == 0x3a,
            Stop::ValueStart => b != 0x20 && b != 0x09,
            Stop::LineEnd => b == 0x0d || b == 0x0a,
        }
    }
}

/// The first place at or after `i` where `buf` holds a byte of the class
/// `stop`; the length of `buf` if there is none.
pub open spec fn scan(buf: Seq<u8>, i: int, stop: Stop) -> int
    decreases buf.len() - i,
{
    if 0 <= i < buf.len() && !stop.at(buf[i]) {
        scan(buf, i + 1, stop)
    } else {
        i
    }
}

/// `scan` passes only bytes at which it does not stop, and ends at the first
/// byte at which it does, or at the end of the buffer.
pub proof fn lemma_scan(buf: Seq<u8>, i: int, stop: Stop)
    requires
        0 <= i <= buf.len(),
    ensures
        i <= scan(buf, i, stop) <= buf.len(),
        forall|k: int| i <= k < scan(buf, i, stop) ==> !stop.at(#[trigger] buf[k]),
        scan(buf, i, stop) < buf.len() ==> stop.at(buf[scan(buf, i, stop)]),
    decreases buf.len() - i,
{
    if i < buf.len() && !stop.at(buf[i]) {
        lemma_scan(buf, i + 1, stop);
    }
}

/// The place that `scan` finds is the only one of its kind.
pub proof fn lemma_scan_is(buf: Seq<u8>, i: int, j: int, stop: Stop)
    requires
        0 <= i <= j <= buf.len(),
        forall|k: int| i <= k < j ==> !stop.at(#[trigger] buf[k]),
        j < buf.len() ==> stop.at(buf[j]),
    ensures
        scan(buf, i, stop) == j,
    decreases j - i,
{
    if i < j {
        assert(!stop.at(buf[i]));
        lemma_scan_is(buf, i + 1, j, stop);
    }
}

/// A scan of the first `m` bytes ends where the scan of all bytes ends, or
/// at `m` if that comes first.
pub proof fn lemma_scan_prefix(buf: Seq<u8>, m: int, i: int, stop: Stop)
    requires
        0 <= i <= m <= buf.len(),
    ensures
        scan(buf.take(m), i, stop) == if scan(buf, i, stop) < m {
            scan(buf, i, stop)
        } else {
            m
        },
{
    lemma_scan(buf, i, stop);
    let j = if scan(buf, i, stop) < m {
        scan(buf, i, stop)
    } else {
        m
    };
    assert forall|k: int| i <= k < j implies !stop.at(#[trigger] buf.take(m)[k]) by {
        assert(buf.take(m)[k] == buf[k]);
    }
    lemma_scan_is(buf.take(m), i, j, stop);
}

/// A scan of what is left after the first `p` bytes ends where the scan of
/// all bytes from place `p` ends.
pub proof fn lemma_scan_skip(buf: Seq<u8>, p: int, stop: Stop)
    requires
        0 <= p <= buf.len(),
    ensures
        scan(buf.skip(p), 0, stop) == scan(buf, p, stop) - p,
{
    lemma_scan(buf, p, stop);
    let j = scan(buf, p, stop) - p;
    assert forall|k: int| 0 <= k < j implies !stop.at(#[trigger] buf.skip(p)[k]) by {
        assert(buf.skip(p)[k] == buf[p + k]);
    }
    lemma_scan_is(buf.skip(p), 0, j, stop);
}

/// The first place at or after `from` where `buf` holds a byte of the class
/// `stop`.
pub fn find(buf: &[u8], from: usize, stop: Stop) -> (at: usize)
    requires
        from <= buf.len(),
    ensures
        at == scan(buf@, from as int, stop),
        from <= at <= buf.len(),
        forall|k: int| from <= k < at ==> !stop.at(#[trigger] buf@[k]),
        at < buf.len() ==> stop.at(buf@[at as int]),
{
    proof {
        lemma_scan(buf@, from as int, stop);
    }
    let mut at = from;
    while at < buf.len() && !stop.stops_at(buf[at])
        invariant
            from <= at <= buf.len(),
            scan(buf@, from as int, stop) == scan(buf@, at as int, stop),
        decreases buf.len() - at,
    {
        at += 1;
    }
    at
}

/// The lower-case form of a text, as the standard library gives it.
pub uninterp spec fn lowercased(s: Seq<char>) -> Seq<char>;

/// `str::to_lowercase`. Not verified: the contract only gives the result a
/// name, since the lower-case form of a text is a matter of the Unicode
/// tables.
#[verifier::external_body]
pub(crate) fn to_lowercase(s: &str) -> (lower: String)
    ensures
        lower@ == lowercased(s@),
{
    s.to_lowercase()
}

/// The character of a decimal digit.
pub open spec fn digit_char(d: nat) -> char {
    if d == 0 {
        '0'
    } else if d == 1 {
        '1'
    } else if d == 2 {
        '2'
    } else if d == 3 {
        '3'
    } else if d == 4 {
        '4'
    } else if d == 5 {
        '5'
    } else if d == 6 {
        '6'
    } else if d == 7 {
        '7'
    } else if d == 8 {
        '8'
    } else {
        '9'
    }
}

/// A number in decimal digits.
pub open spec fn decimal(n: nat) -> Seq<char>
    decreases n,
{
    if n < 10 {
        seq![digit_char(n)]
    } else {
        decimal(n / 10).push(digit_char(n % 10))
    }
}

/// The text of one decimal digit.
pub fn digit_str(d: usize) -> (text: &'static str)
    requires
        d < 10,
    ensures
        text@ == seq![digit_char(d as nat)],
{
    proof {
        reveal_strlit("0");
        reveal_strlit("1");
        reveal_strlit("2");
        reveal_strlit("3");
        reveal_strlit("4");
        reveal_strlit("5");
        reveal_strlit("6");
        reveal_strlit("7");
        reveal_strlit("8");
        reveal_strlit("9");
    }
    let text = if d == 0 {
        "0"
    } else if d == 1 {
        "1"
    } else if d == 2 {
        "2"
    } else if d == 3 {
        "3"
    } else if d == 4 {
        "4"
    } else if d == 5 {
        "5"
    } else if d == 6 {
        "6"
    } else if d == 7 {
        "7"
    } else if d == 8 {
        "8"
    } else {
        "9"
    };
    assert(text@ =~= seq![digit_char(d as nat)]);
    text
}

/// A number in decimal digits, as a string.
pub fn decimal_string(n: usize) -> (text: String)
    ensures
        text@ == decimal(n as nat),
    decreases n,
{
    if n < 10 {
        digit_str(n).to_owned()
    } else {
        let mut text = decimal_string(n / 10);
        text.append(digit_str(n % 10));
        assert(text@ =~= decimal((n / 10) as nat).push(digit_char((n % 10) as nat)));
        text
    }
}

/// Whether `needle` stands somewhere in `hay`.
pub open spec fn occurs(hay: Seq<u8>, needle: Seq<u8>) -> bool {
    exists|i: int|
        0 <= i && i + needle.len() <= hay.len() && #[trigger] hay.subrange(i, i + needle.len())
            == needle
}

/// Whether `needle` stands somewhere in `hay`.
pub fn contains_bytes(hay: &[u8], needle: &[u8]) -> (found: bool)
    ensures
        found == occurs(hay@, needle@),
{
    if needle.len() > hay.len() {
        return false;
    }
    let last = hay.len() - needle.len();
    let mut i: usize = 0;
    assert(hay@.len() <= usize::MAX);
    loop
        invariant
            i <= last,
            needle@.len() <= hay@.len() <= usize::MAX,
            last == hay@.len() - needle@.len(),
            forall|j: int| 0 <= j < i ==> #[trigger] hay@.subrange(j, j + needle@.len()) != needle@,
        decreases last - i,
    {
        if bytes_eq(slice_subrange(hay, i, i + needle.len()), needle) {
            return true;
        }
        if i == last {
            return false;
        }
        i += 1;
    }
}

/// A copy of the bytes from `from` to `to`.
pub fn copy_bytes(bytes: &[u8], from: usize, to: usize) -> (copy: Vec<u8>)
    requires
        from <= to <= bytes.len(),
    ensures
        copy@ == bytes@.subrange(from as int, to as int),
{
    let mut copy: Vec<u8> = Vec::new();
    let mut i = from;
    while i < to
        invariant
            from <= i <= to <= bytes.len(),
            copy@ == bytes@.subrange(from as int, i as int),
        decreases to - i,
    {
        copy.push(bytes[i]);
        i += 1;
        assert(copy@ =~= bytes@.subrange(from as int, i as int));
    }
    copy
}

/// Appends bytes to a vector.
pub fn append_bytes(bytes: &mut Vec<u8>, more: &[u8])
    ensures
        final(bytes)@ == old(bytes)@ + more@,
{
    let ghost before = bytes@;
    bytes.extend_from_slice(more);
    assert(bytes@ =~= before + more@);
}

} // verus!
