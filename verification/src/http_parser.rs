//! The request parser. A request is parsed from the start of the buffer each
//! time; the outcome is a whole request, a call for more bytes, or an error.

use crate::error::Error;
use crate::request::{Request, RequestView, Span};
use crate::text::{append_bytes, ascii_lower_seq, eq_ignore_ascii_case, find, scan, Stop};
use vstd::prelude::*;
use vstd::slice::slice_subrange;

verus! {

/// The most bytes that the headers of a request may take, the blank line
/// after them included.
pub const MAX_HEADER_SIZE: usize = 8192;

/// How a call of `parse` ends when it does not fail.
#[derive(Debug)]
pub enum Status {
    /// The buffer holds a whole request.
    Complete(Request),
    /// The buffer holds the start of a request. Read more bytes, append them
    /// to the buffer that is handed back, and parse again.
    Partial(Vec<u8>),
}

/// Why a request is refused.
#[derive(Debug, Copy, Clone, PartialEq, Eq, Structural)]
pub enum Fault {
    /// The request does not start with a method that is known.
    UnknownMethod,
    /// No space follows the method.
    Malformed,
    /// The path is empty.
    Path,
    /// The version is not `HTTP/1.1`.
    Version,
    /// A line does not end in a line break.
    LineBreak,
    /// A header name holds a byte that it may not hold.
    HeaderName,
    /// The headers take more than `MAX_HEADER_SIZE` bytes.
    HeaderSize,
}

/// What one step of the parser finds.
pub enum Scan<T> {
    /// The step found what it looked for.
    Found(T),
    /// The buffer ends before the step can decide.
    NeedMore,
    /// The bytes cannot be the start of a request.
    Refused(Fault),
}

/// How many bytes the method has whose first three bytes are `a`, `b`, `c`;
/// 0 if no method starts so.
pub open spec fn token_len(a: u8, b: u8, c: u8) -> int {
    if (a == 'G' as u8 && b == 'E' as u8 && c == 'T' as u8) || (a == 'P' as u8 && b == 'U' as u8 && c == 'T' as u8) {
        3
    } else if (a == 'H' as u8 && b == 'E' as u8 && c == 'A' as u8) || (a == 'P' as u8 && b == 'O' as u8 && c == 'S' as u8) {
        4
    } else if (a == 'P' as u8 && b == 'A' as u8 && c == 'T' as u8) || (a == 'T' as u8 && b == 'R' as u8 && c == 'A' as u8) {
        5
    } else if a == 'D' as u8 && b == 'E' as u8 && c == 'L' as u8 {
        6
    } else if (a == 'C' as u8 && b == 'O' as u8 && c == 'N' as u8) || (a == 'O' as u8 && b == 'P' as u8 && c == 'T' as u8) {
        7
    } else {
        0
    }
}

/// Whether `s` is one of the nine methods: GET, HEAD, POST, PUT, DELETE,
/// PATCH, CONNECT, OPTIONS, TRACE.
pub open spec fn is_method_token(s: Seq<u8>) -> bool {
    ||| s == seq!['G' as u8, 'E' as u8, 'T' as u8]
    ||| s == seq!['P' as u8, 'U' as u8, 'T' as u8]
    ||| s == seq!['H' as u8, 'E' as u8, 'A' as u8, 'D' as u8]
    ||| s == seq!['P' as u8, 'O' as u8, 'S' as u8, 'T' as u8]
    ||| s == seq!['P' as u8, 'A' as u8, 'T' as u8, 'C' as u8, 'H' as u8]
    ||| s == seq!['T' as u8, 'R' as u8, 'A' as u8, 'C' as u8, 'E' as u8]
    ||| s == seq!['D' as u8, 'E' as u8, 'L' as u8, 'E' as u8, 'T' as u8, 'E' as u8]
    ||| s == seq!['C' as u8, 'O' as u8, 'N' as u8, 'N' as u8, 'E' as u8, 'C' as u8, 'T' as u8]
    ||| s == seq!['O' as u8, 'P' as u8, 'T' as u8, 'I' as u8, 'O' as u8, 'N' as u8, 'S' as u8]
}

/// The bytes of `HTTP/1.1`.
pub open spec fn version_token() -> Seq<u8> {
    seq!['H' as u8, 'T' as u8, 'T' as u8, 'P' as u8, '/' as u8, '1' as u8, '.' as u8, '1' as u8]
}

/// Where the method ends that `buf` starts with. The first three bytes tell
/// how long the method is; until that many bytes are there, more are needed.
pub open spec fn method_end(buf: Seq<u8>) -> Scan<int> {
    if buf.len() < 3 {
        Scan::NeedMore
    } else {
        let n = token_len(buf[0], buf[1], buf[2]);
        if n == 0 {
            Scan::Refused(Fault::UnknownMethod)
        } else if buf.len() < n {
            Scan::NeedMore
        } else if is_method_token(buf.take(n)) {
            Scan::Found(n)
        } else {
            Scan::Refused(Fault::UnknownMethod)
        }
    }
}

/// What stands at a place where a line should end.
pub enum Break {
    /// A line feed, or a carriage return and a line feed; the next line starts
    /// at the given place.
    At(int),
    /// The buffer ends at the place, or with a carriage return at it.
    Unknown,
    /// Something else.
    Missing,
}

/// What stands at place `i` of `buf`, where a line should end.
pub open spec fn line_break(buf: Seq<u8>, i: int) -> Break {
    if i < 0 || i >= buf.len() {
        Break::Unknown
    } else if buf[i] == 0x0a {
        Break::At(i + 1)
    } else if buf[i] != 0x0d {
        Break::Missing
    } else if i + 1 >= buf.len() {
        Break::Unknown
    } else if buf[i + 1] == 0x0a {
        Break::At(i + 2)
    } else {
        Break::Missing
    }
}

/// Where the path ends that starts at place `p`: at the next space. A path
/// is not empty.
pub open spec fn path_end(buf: Seq<u8>, p: int) -> Scan<int> {
    let q = scan(buf, p, Stop::Byte(0x20));
    if q >= buf.len() {
        Scan::NeedMore
    } else if q == p {
        Scan::Refused(Fault::Path)
    } else {
        Scan::Found(q)
    }
}

/// Where the version ends that starts at place `v`: eight bytes on, which
/// have to be `HTTP/1.1`.
pub open spec fn version_end(buf: Seq<u8>, v: int) -> Scan<int> {
    if buf.len() < v + 8 {
        Scan::NeedMore
    } else if buf.subrange(v, v + 8) != version_token() {
        Scan::Refused(Fault::Version)
    } else {
        Scan::Found(v + 8)
    }
}

/// The places that the first line of a request gives: the method is
/// `[0, method_end)`, the path with its query `[method_end + 1, path_end)`,
/// and the headers start at `next`.
pub struct RequestLine {
    pub method_end: int,
    pub path_end: int,
    pub next: int,
}

/// The first line of a request: a method, a space, a path that is not empty,
/// a space, `HTTP/1.1`, a line break.
pub open spec fn request_line(buf: Seq<u8>) -> Scan<RequestLine> {
    match method_end(buf) {
        Scan::NeedMore => Scan::NeedMore,
        Scan::Refused(f) => Scan::Refused(f),
        Scan::Found(n) => if buf.len() <= n {
            Scan::NeedMore
        } else if buf[n] != 0x20 {
            Scan::Refused(Fault::Malformed)
        } else {
            match path_end(buf, n + 1) {
                Scan::NeedMore => Scan::NeedMore,
                Scan::Refused(f) => Scan::Refused(f),
                Scan::Found(q) => match version_end(buf, q + 1) {
                    Scan::NeedMore => Scan::NeedMore,
                    Scan::Refused(f) => Scan::Refused(f),
                    Scan::Found(e) => match line_break(buf, e) {
                        Break::At(next) => Scan::Found(
                            RequestLine { method_end: n, path_end: q, next },
                        ),
                        Break::Unknown => Scan::NeedMore,
                        Break::Missing => Scan::Refused(Fault::LineBreak),
                    },
                },
            }
        },
    }
}

/// The span from `start` to `end`.
pub open spec fn span(start: int, end: int) -> Span {
    Span(start as usize, end as usize)
}

/// Where the header name ends that starts at place `i`: at the colon after
/// it. No byte before the colon may be a space, a control character or a
/// line break.
pub open spec fn header_name_end(buf: Seq<u8>, i: int) -> Scan<int> {
    let colon = scan(buf, i, Stop::NameEnd);
    if colon >= buf.len() {
        Scan::NeedMore
    } else if buf[colon] != 0x3a {
        Scan::Refused(Fault::HeaderName)
    } else {
        Scan::Found(colon)
    }
}

/// Where the header value stands that follows the colon before place `i`:
/// after the spaces and tabs, up to the end of the line.
pub open spec fn header_value(buf: Seq<u8>, i: int) -> Scan<(int, int)> {
    let start = scan(buf, i, Stop::ValueStart);
    let end = scan(buf, start, Stop::LineEnd);
    if end >= buf.len() {
        Scan::NeedMore
    } else {
        Scan::Found((start, end))
    }
}

/// One header line: where its name and its value stand, and where the next
/// line starts.
pub struct HeaderLine {
    pub name: Span,
    pub value: Span,
    pub next: int,
}

/// The header line that starts at place `i`: a name, a colon, spaces and
/// tabs, a value, a line break.
pub open spec fn header_line(buf: Seq<u8>, i: int) -> Scan<HeaderLine> {
    match header_name_end(buf, i) {
        Scan::NeedMore => Scan::NeedMore,
        Scan::Refused(f) => Scan::Refused(f),
        Scan::Found(colon) => match header_value(buf, colon + 1) {
            Scan::NeedMore => Scan::NeedMore,
            Scan::Refused(f) => Scan::Refused(f),
            Scan::Found(value) => match line_break(buf, value.1) {
                Break::At(next) => Scan::Found(
                    HeaderLine { name: span(i, colon), value: span(value.0, value.1), next },
                ),
                Break::Unknown => Scan::NeedMore,
                Break::Missing => Scan::Refused(Fault::LineBreak),
            },
        },
    }
}

/// The headers of a request, and the place after the blank line that ends
/// them.
pub struct HeaderBlock {
    pub headers: Seq<(Span, Span)>,
    pub end: int,
}

/// The header lines from place `i` on, up to the blank line that ends them.
pub open spec fn header_block(buf: Seq<u8>, i: int) -> Scan<HeaderBlock>
    decreases buf.len() - i,
{
    match line_break(buf, i) {
        Break::At(end) => Scan::Found(HeaderBlock { headers: Seq::empty(), end }),
        Break::Unknown => Scan::NeedMore,
        Break::Missing => match header_line(buf, i) {
            Scan::NeedMore => Scan::NeedMore,
            Scan::Refused(f) => Scan::Refused(f),
            Scan::Found(line) => {
                if i < line.next {
                    match header_block(buf, line.next) {
                        Scan::Found(rest) => Scan::Found(
                            HeaderBlock {
                                headers: seq![(line.name, line.value)] + rest.headers,
                                end: rest.end,
                            },
                        ),
                        Scan::NeedMore => Scan::NeedMore,
                        Scan::Refused(f) => Scan::Refused(f),
                    }
                } else {
                    Scan::NeedMore
                }
            },
        },
    }
}

/// The bytes of `content-length`.
pub open spec fn content_length_name() -> Seq<u8> {
    seq![
        'c' as u8,
        'o' as u8,
        'n' as u8,
        't' as u8,
        'e' as u8,
        'n' as u8,
        't' as u8,
        '-' as u8,
        'l' as u8,
        'e' as u8,
        'n' as u8,
        'g' as u8,
        't' as u8,
        'h' as u8,
    ]
}

/// The number that a string of decimal digits stands for.
pub open spec fn digits_value(s: Seq<u8>) -> nat
    decreases s.len(),
{
    if s.len() == 0 {
        0
    } else {
        (digits_value(s.drop_last()) * 10 + (s.last() - 0x30)) as nat
    }
}

/// Whether every byte of `s` is a decimal digit.
pub open spec fn all_digits(s: Seq<u8>) -> bool {
    forall|i: int| 0 <= i < s.len() ==> 0x30 <= #[trigger] s[i] <= 0x39
}

/// The length that the value of a `Content-Length` header gives: the number
/// that its digits stand for, with or without a plus sign before them. A
/// value that is not of this form, or that stands for more than a `usize`
/// holds, gives 0.
pub open spec fn length_value(s: Seq<u8>) -> nat {
    let digits = if s.len() > 0 && s[0] == 0x2b {
        s.drop_first()
    } else {
        s
    };
    if digits.len() > 0 && all_digits(digits) && digits_value(digits) <= usize::MAX {
        digits_value(digits)
    } else {
        0
    }
}

/// The bytes of `buf` in the range of `span`.
pub open spec fn span_range(buf: Seq<u8>, span: Span) -> Seq<u8> {
    buf.subrange(span.0 as int, span.1 as int)
}

/// Whether the header's name is `Content-Length`, in capitals or not.
pub open spec fn names_content_length(buf: Seq<u8>, header: (Span, Span)) -> bool {
    ascii_lower_seq(span_range(buf, header.0)) == content_length_name()
}

/// The length of the body that the headers announce: what the last
/// `Content-Length` header gives, and 0 if there is none.
pub open spec fn content_length(buf: Seq<u8>, headers: Seq<(Span, Span)>) -> nat
    decreases headers.len(),
{
    if headers.len() == 0 {
        0
    } else if names_content_length(buf, headers.last()) {
        length_value(span_range(buf, headers.last().1))
    } else {
        content_length(buf, headers.drop_last())
    }
}

/// The outcome of parsing.
pub enum Outcome {
    /// The buffer holds a whole request, with its parts at these places.
    Complete { method: Span, path: Span, headers: Seq<(Span, Span)>, body: Span },
    /// The buffer holds the start of a request.
    Partial,
    /// The buffer cannot be the start of a request.
    Refused(Fault),
}

/// The bytes of `buf` in which the headers have to end: those up to
/// `MAX_HEADER_SIZE` bytes after place `start`.
pub open spec fn header_window(buf: Seq<u8>, start: int) -> Seq<u8> {
    if buf.len() <= start + MAX_HEADER_SIZE {
        buf
    } else {
        buf.take(start + MAX_HEADER_SIZE)
    }
}

/// What parsing `buf` gives. The request line is read first, then the headers
/// within their window, then the body that the headers announce.
pub open spec fn parse_outcome(buf: Seq<u8>) -> Outcome {
    match request_line(buf) {
        Scan::NeedMore => Outcome::Partial,
        Scan::Refused(f) => Outcome::Refused(f),
        Scan::Found(line) => match header_block(header_window(buf, line.next), line.next) {
            Scan::Refused(f) => Outcome::Refused(f),
            Scan::NeedMore => if buf.len() > line.next + MAX_HEADER_SIZE {
                Outcome::Refused(Fault::HeaderSize)
            } else {
                Outcome::Partial
            },
            Scan::Found(block) => {
                let length = content_length(buf, block.headers);
                if length == 0 {
                    Outcome::Complete {
                        method: span(0, line.method_end),
                        path: span(line.method_end + 1, line.path_end),
                        headers: block.headers,
                        body: Span(0, 0),
                    }
                } else if block.end + length > buf.len() {
                    Outcome::Partial
                } else {
                    Outcome::Complete {
                        method: span(0, line.method_end),
                        path: span(line.method_end + 1, line.path_end),
                        headers: block.headers,
                        body: span(block.end, block.end + length),
                    }
                }
            },
        },
    }
}

impl Fault {
    /// Whether `e` is the error that reports this fault.
    pub open spec fn raised_by(self, e: Error) -> bool {
        match self {
            Fault::UnknownMethod => e matches Error::UnknownHTTPMethod(name) && name@ == "?"@,
            Fault::Malformed => e is ParseError,
            Fault::Path => e is ParsePath,
            Fault::Version => e is ParseVersion,
            Fault::LineBreak => e is ExpectedCRLF,
            Fault::HeaderName => e is ParseHeaderName,
            Fault::HeaderSize => e is ParseHeaderValue,
        }
    }

    /// The error that reports this fault.
    pub fn error(self) -> (e: Error)
        ensures
            self.raised_by(e),
    {
        match self {
            Fault::UnknownMethod => Error::UnknownHTTPMethod("?".to_owned()),
            Fault::Malformed => Error::ParseError,
            Fault::Path => Error::ParsePath,
            Fault::Version => Error::ParseVersion,
            Fault::LineBreak => Error::ExpectedCRLF,
            Fault::HeaderName => Error::ParseHeaderName,
            Fault::HeaderSize => Error::ParseHeaderValue,
        }
    }
}

/// What stands at a place where a line should end, as `line_break_at` finds
/// it.
pub enum BreakAt {
    /// A line break; the next line starts at the given place.
    At(usize),
    /// The buffer ends at the place, or with a carriage return at it.
    Unknown,
    /// Something else.
    Missing,
}

impl View for BreakAt {
    type V = Break;

    open spec fn view(&self) -> Break {
        match self {
            BreakAt::At(next) => Break::At(*next as int),
            BreakAt::Unknown => Break::Unknown,
            BreakAt::Missing => Break::Missing,
        }
    }
}

/// What stands at place `i` of `buf`, where a line should end.
pub fn line_break_at(buf: &[u8], i: usize) -> (found: BreakAt)
    requires
        i <= buf.len(),
    ensures
        found@ == line_break(buf@, i as int),
        found matches BreakAt::At(next) ==> i < next <= buf.len(),
{
    if i >= buf.len() {
        BreakAt::Unknown
    } else if buf[i] == 0x0a {
        BreakAt::At(i + 1)
    } else if buf[i] != 0x0d {
        BreakAt::Missing
    } else if i + 1 >= buf.len() {
        BreakAt::Unknown
    } else if buf[i + 1] == 0x0a {
        BreakAt::At(i + 2)
    } else {
        BreakAt::Missing
    }
}

/// What the elements of a method are, one by one.
pub proof fn lemma_method_token(s: Seq<u8>)
    ensures
        s.len() == 3 ==> (is_method_token(s) <==> token_len(s[0], s[1], s[2]) == 3),
        s.len() == 4 ==> (is_method_token(s) <==> (s[0] == 'H' as u8 && s[1] == 'E' as u8 && s[2]
            == 'A' as u8 && s[3] == 'D' as u8) || (s[0] == 'P' as u8 && s[1] == 'O' as u8 && s[2]
            == 'S' as u8 && s[3] == 'T' as u8)),
        s.len() == 5 ==> (is_method_token(s) <==> (s[0] == 'P' as u8 && s[1] == 'A' as u8 && s[2]
            == 'T' as u8 && s[3] == 'C' as u8 && s[4] == 'H' as u8) || (s[0] == 'T' as u8 && s[1]
            == 'R' as u8 && s[2] == 'A' as u8 && s[3] == 'C' as u8 && s[4] == 'E' as u8)),
        s.len() == 6 ==> (is_method_token(s) <==> s[0] == 'D' as u8 && s[1] == 'E' as u8 && s[2]
            == 'L' as u8 && s[3] == 'E' as u8 && s[4] == 'T' as u8 && s[5] == 'E' as u8),
        s.len() == 7 ==> (is_method_token(s) <==> (s[0] == 'C' as u8 && s[1] == 'O' as u8 && s[2]
            == 'N' as u8 && s[3] == 'N' as u8 && s[4] == 'E' as u8 && s[5] == 'C' as u8 && s[6]
            == 'T' as u8) || (s[0] == 'O' as u8 && s[1] == 'P' as u8 && s[2] == 'T' as u8 && s[3]
            == 'I' as u8 && s[4] == 'O' as u8 && s[5] == 'N' as u8 && s[6] == 'S' as u8)),
        is_method_token(s) ==> 3 <= s.len() <= 7 && token_len(s[0], s[1], s[2]) == s.len(),
{
    let get = seq!['G' as u8, 'E' as u8, 'T' as u8];
    let put = seq!['P' as u8, 'U' as u8, 'T' as u8];
    let head = seq!['H' as u8, 'E' as u8, 'A' as u8, 'D' as u8];
    let post = seq!['P' as u8, 'O' as u8, 'S' as u8, 'T' as u8];
    let patch = seq!['P' as u8, 'A' as u8, 'T' as u8, 'C' as u8, 'H' as u8];
    let trace = seq!['T' as u8, 'R' as u8, 'A' as u8, 'C' as u8, 'E' as u8];
    let delete = seq!['D' as u8, 'E' as u8, 'L' as u8, 'E' as u8, 'T' as u8, 'E' as u8];
    let connect = seq![
        'C' as u8,
        'O' as u8,
        'N' as u8,
        'N' as u8,
        'E' as u8,
        'C' as u8,
        'T' as u8,
    ];
    let options = seq![
        'O' as u8,
        'P' as u8,
        'T' as u8,
        'I' as u8,
        'O' as u8,
        'N' as u8,
        'S' as u8,
    ];
    assert(get.len() == 3 && put.len() == 3 && head.len() == 4 && post.len() == 4);
    assert(patch.len() == 5 && trace.len() == 5 && delete.len() == 6);
    assert(connect.len() == 7 && options.len() == 7);
    if s.len() == 3 {
        assert(s == get <==> s =~= get);
        assert(s == put <==> s =~= put);
    }
    if s.len() == 4 {
        assert(s == head <==> s =~= head);
        assert(s == post <==> s =~= post);
    }
    if s.len() == 5 {
        assert(s == patch <==> s =~= patch);
        assert(s == trace <==> s =~= trace);
    }
    if s.len() == 6 {
        assert(s == delete <==> s =~= delete);
    }
    if s.len() == 7 {
        assert(s == connect <==> s =~= connect);
        assert(s == options <==> s =~= options);
    }
}

/// The method that the buffer starts with.
pub fn parse_method(buffer: &[u8]) -> (found: Scan<Span>)
    ensures
        method_end(buffer@) == match found {
            Scan::Found(method) => Scan::Found(method.1 as int),
            Scan::NeedMore => Scan::NeedMore,
            Scan::Refused(f) => Scan::Refused(f),
        },
        found matches Scan::Found(method) ==> method.0 == 0 && 3 <= method.1 <= buffer.len(),
{
    if buffer.len() < 3 {
        return Scan::NeedMore;
    }
    let a = buffer[0];
    let b = buffer[1];
    let c = buffer[2];
    let size: usize = if (a == 'G' as u8 && b == 'E' as u8 && c == 'T' as u8) || (a == 'P' as u8
        && b == 'U' as u8 && c == 'T' as u8) {
        3
    } else if (a == 'H' as u8 && b == 'E' as u8 && c == 'A' as u8) || (a == 'P' as u8 && b
        == 'O' as u8 && c == 'S' as u8) {
        4
    } else if (a == 'P' as u8 && b == 'A' as u8 && c == 'T' as u8) || (a == 'T' as u8 && b
        == 'R' as u8 && c == 'A' as u8) {
        5
    } else if a == 'D' as u8 && b == 'E' as u8 && c == 'L' as u8 {
        6
    } else if (a == 'C' as u8 && b == 'O' as u8 && c == 'N' as u8) || (a == 'O' as u8 && b
        == 'P' as u8 && c == 'T' as u8) {
        7
    } else {
        0
    };
    if size == 0 {
        return Scan::Refused(Fault::UnknownMethod);
    }
    if buffer.len() < size {
        return Scan::NeedMore;
    }
    let known = if size == 3 {
        true
    } else if size == 4 {
        (a == 'H' as u8 && buffer[3] == 'D' as u8) || (a == 'P' as u8 && buffer[3] == 'T' as u8)
    } else if size == 5 {
        (a == 'P' as u8 && buffer[3] == 'C' as u8 && buffer[4] == 'H' as u8) || (a == 'T' as u8
            && buffer[3] == 'C' as u8 && buffer[4] == 'E' as u8)
    } else if size == 6 {
        buffer[3] == 'E' as u8 && buffer[4] == 'T' as u8 && buffer[5] == 'E' as u8
    } else {
        (a == 'C' as u8 && buffer[3] == 'N' as u8 && buffer[4] == 'E' as u8 && buffer[5]
            == 'C' as u8 && buffer[6] == 'T' as u8) || (a == 'O' as u8 && buffer[3] == 'I' as u8
            && buffer[4] == 'O' as u8 && buffer[5] == 'N' as u8 && buffer[6] == 'S' as u8)
    };
    proof {
        lemma_method_token(buffer@.take(size as int));
    }
    if known {
        Scan::Found(Span(0, size))
    } else {
        Scan::Refused(Fault::UnknownMethod)
    }
}

/// The path that starts at place `start`, with its query.
pub fn parse_path(buffer: &[u8], start: usize) -> (found: Scan<Span>)
    requires
        start <= buffer.len(),
    ensures
        path_end(buffer@, start as int) == match found {
            Scan::Found(path) => Scan::Found(path.1 as int),
            Scan::NeedMore => Scan::NeedMore,
            Scan::Refused(f) => Scan::Refused(f),
        },
        found matches Scan::Found(path) ==> path.0 == start && start < path.1 < buffer.len(),
{
    let end = find(buffer, start, Stop::Byte(0x20));
    if end >= buffer.len() {
        Scan::NeedMore
    } else if end == start {
        Scan::Refused(Fault::Path)
    } else {
        Scan::Found(Span(start, end))
    }
}

/// The place after the version that starts at place `start`.
pub fn parse_version(buffer: &[u8], start: usize) -> (found: Scan<usize>)
    requires
        start <= buffer.len(),
    ensures
        version_end(buffer@, start as int) == match found {
            Scan::Found(e) => Scan::Found(e as int),
            Scan::NeedMore => Scan::NeedMore,
            Scan::Refused(f) => Scan::Refused(f),
        },
        found matches Scan::Found(e) ==> e == start + 8 && e <= buffer.len(),
{
    if buffer.len() - start < 8 {
        return Scan::NeedMore;
    }
    let same = buffer[start] == 'H' as u8 && buffer[start + 1] == 'T' as u8 && buffer[start + 2]
        == 'T' as u8 && buffer[start + 3] == 'P' as u8 && buffer[start + 4] == '/' as u8
        && buffer[start + 5] == '1' as u8 && buffer[start + 6] == '.' as u8 && buffer[start + 7]
        == '1' as u8;
    proof {
        let bytes = buffer@.subrange(start as int, start + 8);
        assert(version_token().len() == 8);
        assert(bytes == version_token() <==> bytes =~= version_token());
    }
    if same {
        Scan::Found(start + 8)
    } else {
        Scan::Refused(Fault::Version)
    }
}

/// The first line of a request, as `parse_request_line` finds it.
pub struct Head {
    /// The method.
    pub method: Span,
    /// The path, with its query.
    pub path: Span,
    /// The place where the headers start.
    pub next: usize,
}

/// The first line of the request in the buffer.
pub fn parse_request_line(buffer: &[u8]) -> (found: Scan<Head>)
    ensures
        request_line(buffer@) == match found {
            Scan::Found(head) => Scan::Found(
                RequestLine {
                    method_end: head.method.1 as int,
                    path_end: head.path.1 as int,
                    next: head.next as int,
                },
            ),
            Scan::NeedMore => Scan::NeedMore,
            Scan::Refused(f) => Scan::Refused(f),
        },
        found matches Scan::Found(head) ==> head.method.0 == 0 && head.path.0 == head.method.1 + 1
            && head.path.1 < head.next <= buffer.len(),
{
    let method = match parse_method(buffer) {
        Scan::Found(method) => method,
        Scan::NeedMore => { return Scan::NeedMore; },
        Scan::Refused(f) => { return Scan::Refused(f); },
    };
    if buffer.len() <= method.1 {
        return Scan::NeedMore;
    }
    if buffer[method.1] != 0x20 {
        return Scan::Refused(Fault::Malformed);
    }
    let path = match parse_path(buffer, method.1 + 1) {
        Scan::Found(path) => path,
        Scan::NeedMore => { return Scan::NeedMore; },
        Scan::Refused(f) => { return Scan::Refused(f); },
    };
    let end = match parse_version(buffer, path.1 + 1) {
        Scan::Found(end) => end,
        Scan::NeedMore => { return Scan::NeedMore; },
        Scan::Refused(f) => { return Scan::Refused(f); },
    };
    match line_break_at(buffer, end) {
        BreakAt::At(next) => Scan::Found(Head { method, path, next }),
        BreakAt::Unknown => Scan::NeedMore,
        BreakAt::Missing => Scan::Refused(Fault::LineBreak),
    }
}

/// The header name that starts at place `start`.
pub fn parse_header_name(buffer: &[u8], start: usize) -> (found: Scan<Span>)
    requires
        start <= buffer.len(),
    ensures
        header_name_end(buffer@, start as int) == match found {
            Scan::Found(name) => Scan::Found(name.1 as int),
            Scan::NeedMore => Scan::NeedMore,
            Scan::Refused(f) => Scan::Refused(f),
        },
        found matches Scan::Found(name) ==> name.0 == start && start <= name.1 < buffer.len(),
{
    let colon = find(buffer, start, Stop::NameEnd);
    if colon >= buffer.len() {
        Scan::NeedMore
    } else if buffer[colon] != 0x3a {
        Scan::Refused(Fault::HeaderName)
    } else {
        Scan::Found(Span(start, colon))
    }
}

/// The header value that follows the colon before place `start`.
pub fn parse_header_value(buffer: &[u8], start: usize) -> (found: Scan<Span>)
    requires
        start <= buffer.len(),
    ensures
        header_value(buffer@, start as int) == match found {
            Scan::Found(value) => Scan::Found((value.0 as int, value.1 as int)),
            Scan::NeedMore => Scan::NeedMore,
            Scan::Refused(f) => Scan::Refused(f),
        },
        found matches Scan::Found(value) ==> start <= value.0 <= value.1 < buffer.len(),
{
    let first = find(buffer, start, Stop::ValueStart);
    let end = find(buffer, first, Stop::LineEnd);
    if end >= buffer.len() {
        Scan::NeedMore
    } else {
        Scan::Found(Span(first, end))
    }
}

/// The headers `before`, followed by what `rest` found.
pub open spec fn after(before: Seq<(Span, Span)>, rest: Scan<HeaderBlock>) -> Scan<HeaderBlock> {
    match rest {
        Scan::Found(block) => Scan::Found(
            HeaderBlock { headers: before + block.headers, end: block.end },
        ),
        Scan::NeedMore => Scan::NeedMore,
        Scan::Refused(f) => Scan::Refused(f),
    }
}

/// Whether the parts of a header stand in this order within the first `end`
/// bytes: its name, then its value.
pub open spec fn header_within(header: (Span, Span), end: int) -> bool {
    header.0.0 <= header.0.1 <= header.1.0 <= header.1.1 <= end
}

/// The headers that start at place `start`, and the place after the blank
/// line that ends them.
pub fn parse_headers(buffer: &[u8], start: usize) -> (found: Scan<(Vec<(Span, Span)>, usize)>)
    requires
        start <= buffer.len(),
    ensures
        header_block(buffer@, start as int) == match found {
            Scan::Found(block) => Scan::Found(
                HeaderBlock { headers: block.0@, end: block.1 as int },
            ),
            Scan::NeedMore => Scan::NeedMore,
            Scan::Refused(f) => Scan::Refused(f),
        },
        found matches Scan::Found(block) ==> start < block.1 <= buffer.len() && forall|i: int|
            0 <= i < block.0@.len() ==> header_within(#[trigger] block.0@[i], block.1 as int),
{
    let mut headers: Vec<(Span, Span)> = Vec::new();
    let mut pos = start;
    loop
        invariant
            start <= pos <= buffer.len(),
            header_block(buffer@, start as int) == after(
                headers@,
                header_block(buffer@, pos as int),
            ),
            forall|i: int| 0 <= i < headers@.len() ==> header_within(#[trigger] headers@[i], pos as int),
        decreases buffer.len() - pos,
    {
        match line_break_at(buffer, pos) {
            BreakAt::At(end) => {
                assert(headers@ + Seq::<(Span, Span)>::empty() =~= headers@);
                return Scan::Found((headers, end));
            },
            BreakAt::Unknown => {
                return Scan::NeedMore;
            },
            BreakAt::Missing => {},
        }
        let name = match parse_header_name(buffer, pos) {
            Scan::Found(name) => name,
            Scan::NeedMore => { return Scan::NeedMore; },
            Scan::Refused(f) => { return Scan::Refused(f); },
        };
        let value = match parse_header_value(buffer, name.1 + 1) {
            Scan::Found(value) => value,
            Scan::NeedMore => { return Scan::NeedMore; },
            Scan::Refused(f) => { return Scan::Refused(f); },
        };
        let next = match line_break_at(buffer, value.1) {
            BreakAt::At(next) => next,
            BreakAt::Unknown => { return Scan::NeedMore; },
            BreakAt::Missing => { return Scan::Refused(Fault::LineBreak); },
        };
        proof {
            let rest = header_block(buffer@, next as int);
            assert(header_block(buffer@, pos as int) == after(seq![(name, value)], rest));
            assert(headers@.push((name, value)) =~= headers@ + seq![(name, value)]);
            match rest {
                Scan::Found(block) => {
                    assert(headers@ + (seq![(name, value)] + block.headers) =~= headers@.push(
                        (name, value),
                    ) + block.headers);
                },
                _ => {},
            }
        }
        headers.push((name, value));
        pos = next;
    }
}

/// A longer string of digits stands for no smaller a number.
pub proof fn lemma_digits_grow(s: Seq<u8>, k: int)
    requires
        all_digits(s),
        0 <= k <= s.len(),
    ensures
        digits_value(s.take(k)) <= digits_value(s),
    decreases s.len(),
{
    if k == s.len() {
        assert(s.take(k) =~= s);
    } else {
        let front = s.drop_last();
        assert(all_digits(front)) by {
            assert forall|i: int| 0 <= i < front.len() implies 0x30 <= #[trigger] front[i]
                <= 0x39 by {
                assert(front[i] == s[i]);
            }
        }
        lemma_digits_grow(front, k);
        assert(front.take(k) =~= s.take(k));
        assert(0x30 <= s[s.len() - 1] <= 0x39);
    }
}

/// The length that the value of a `Content-Length` header gives.
pub fn parse_length(value: &[u8]) -> (length: usize)
    ensures
        length == length_value(value@),
{
    let start: usize = if value.len() > 0 && value[0] == 0x2b {
        1
    } else {
        0
    };
    let ghost digits = value@.subrange(start as int, value@.len() as int);
    proof {
        if start == 1 {
            assert(digits =~= value@.drop_first());
        } else {
            assert(digits =~= value@);
        }
    }
    if start >= value.len() {
        return 0;
    }
    let mut length: usize = 0;
    let mut i = start;
    while i < value.len()
        invariant
            start <= i <= value.len(),
            start < value.len(),
            digits == value@.subrange(start as int, value@.len() as int),
            digits == if value@.len() > 0 && value@[0] == 0x2b {
                value@.drop_first()
            } else {
                value@
            },
            all_digits(digits.take(i - start)),
            length == digits_value(digits.take(i - start)),
        decreases value.len() - i,
    {
        let b = value[i];
        if b < 0x30 || b > 0x39 {
            assert(!all_digits(digits)) by {
                assert(digits[i - start] == b);
            }
            return 0;
        }
        let ghost longer = digits.take(i - start + 1);
        proof {
            assert(longer.drop_last() =~= digits.take(i - start));
            assert(longer.last() == b);
            assert(all_digits(longer)) by {
                assert forall|j: int| 0 <= j < longer.len() implies 0x30 <= #[trigger] longer[j]
                    <= 0x39 by {
                    if j < i - start {
                        assert(digits.take(i - start)[j] == longer[j]);
                    }
                }
            }
            if all_digits(digits) {
                lemma_digits_grow(digits, i - start + 1);
            }
        }
        let tens = match length.checked_mul(10) {
            Some(tens) => tens,
            None => { return 0; },
        };
        length = match tens.checked_add((b - 0x30) as usize) {
            Some(sum) => sum,
            None => { return 0; },
        };
        i += 1;
    }
    assert(digits.take(i - start) =~= digits);
    length
}

/// The length of the body that the headers announce.
pub fn announced_length(buffer: &[u8], headers: &Vec<(Span, Span)>) -> (length: usize)
    requires
        forall|i: int|
            0 <= i < headers@.len() ==> header_within(#[trigger] headers@[i], buffer@.len() as int),
    ensures
        length == content_length(buffer@, headers@),
{
    let name: [u8; 14] = [
        'c' as u8,
        'o' as u8,
        'n' as u8,
        't' as u8,
        'e' as u8,
        'n' as u8,
        't' as u8,
        '-' as u8,
        'l' as u8,
        'e' as u8,
        'n' as u8,
        'g' as u8,
        't' as u8,
        'h' as u8,
    ];
    assert(name@ =~= content_length_name());
    assert(ascii_lower_seq(name@) =~= content_length_name());
    let mut length: usize = 0;
    let mut i: usize = 0;
    while i < headers.len()
        invariant
            i <= headers@.len(),
            length == content_length(buffer@, headers@.take(i as int)),
            ascii_lower_seq(name@) == content_length_name(),
            forall|i: int|
                0 <= i < headers@.len() ==> header_within(
                    #[trigger] headers@[i],
                    buffer@.len() as int,
                ),
        decreases headers@.len() - i,
    {
        let header = headers[i];
        assert(header_within(headers@[i as int], buffer@.len() as int));
        proof {
            let longer = headers@.take(i + 1);
            assert(longer.last() == header);
            assert(longer.drop_last() =~= headers@.take(i as int));
        }
        if eq_ignore_ascii_case(slice_subrange(buffer, header.0.0, header.0.1), name.as_slice()) {
            length = parse_length(slice_subrange(buffer, header.1.0, header.1.1));
        }
        i += 1;
    }
    assert(headers@.take(i as int) =~= headers@);
    length
}

/// Whether `result` is what parsing `buf` is to give: the request that
/// `parse_outcome` describes, over the same bytes and without arguments or
/// form fields; the same bytes back, to be added to; or the error that
/// reports the fault.
pub open spec fn parsed(buf: Seq<u8>, result: Result<Status, Error>) -> bool {
    match parse_outcome(buf) {
        Outcome::Complete { method, path, headers, body } => result matches Ok(
            Status::Complete(request),
        ) && request@ == (RequestView {
            buffer: buf,
            method,
            path,
            headers,
            body,
            args: Map::empty(),
            form: Map::empty(),
            cookies: Seq::empty(),
        }),
        Outcome::Partial => result matches Ok(Status::Partial(rest)) && rest@ == buf,
        Outcome::Refused(f) => result matches Err(e) && f.raised_by(e),
    }
}

/// Whether two results of parsing say the same: requests with the same bytes
/// and the same parts at the same places, the same bytes handed back, or
/// errors for the same fault.
pub open spec fn same_result(first: Result<Status, Error>, second: Result<Status, Error>) -> bool {
    match (first, second) {
        (Ok(Status::Complete(a)), Ok(Status::Complete(b))) => a@ == b@,
        (Ok(Status::Partial(a)), Ok(Status::Partial(b))) => a@ == b@,
        (Err(a), Err(b)) => exists|fault: Fault| fault.raised_by(a) && fault.raised_by(b),
        _ => false,
    }
}

/// Determinism. What `parse` gives depends on the bytes alone: two results
/// of parsing the same bytes say the same.
pub proof fn lemma_parse_is_deterministic(
    buf: Seq<u8>,
    first: Result<Status, Error>,
    second: Result<Status, Error>,
)
    requires
        parsed(buf, first),
        parsed(buf, second),
    ensures
        same_result(first, second),
{
    match parse_outcome(buf) {
        Outcome::Refused(fault) => {
            assert(fault.raised_by(first->Err_0) && fault.raised_by(second->Err_0));
        },
        _ => {},
    }
}

/// Parses the request that `buffer` holds, from its first byte. The buffer
/// goes into the request, or comes back when more bytes are needed.
pub fn parse(buffer: Vec<u8>) -> (result: Result<Status, Error>)
    ensures
        parsed(buffer@, result),
{
    let head = match parse_request_line(buffer.as_slice()) {
        Scan::Found(head) => head,
        Scan::NeedMore => { return Ok(Status::Partial(buffer)); },
        Scan::Refused(f) => { return Err(f.error()); },
    };
    let whole = buffer.len() - head.next <= MAX_HEADER_SIZE;
    let limit = if whole {
        buffer.len()
    } else {
        head.next + MAX_HEADER_SIZE
    };
    let window = slice_subrange(buffer.as_slice(), 0, limit);
    assert(window@ =~= header_window(buffer@, head.next as int));
    let (headers, end) = match parse_headers(window, head.next) {
        Scan::Found(block) => block,
        Scan::NeedMore => {
            if whole {
                return Ok(Status::Partial(buffer));
            } else {
                return Err(Fault::HeaderSize.error());
            }
        },
        Scan::Refused(f) => { return Err(f.error()); },
    };
    assert forall|i: int| 0 <= i < headers@.len() implies header_within(
        #[trigger] headers@[i],
        buffer@.len() as int,
    ) by {
        assert(header_within(headers@[i], end as int));
    }
    let length = announced_length(buffer.as_slice(), &headers);
    if length == 0 {
        Ok(Status::Complete(Request::new(head.method, head.path, headers, Span::new(), buffer)))
    } else if length > buffer.len() - end {
        Ok(Status::Partial(buffer))
    } else {
        let body = Span(end, end + length);
        Ok(Status::Complete(Request::new(head.method, head.path, headers, body, buffer)))
    }
}

/// Whether `result` is what receiving `chunk` after `buffer` is to give.
/// An empty chunk means that the client has closed the connection. Else the
/// chunk is appended and the whole is parsed; a request that is found is
/// made ready for the application.
pub open spec fn received(buffer: Seq<u8>, chunk: Seq<u8>, result: Result<Status, Error>) -> bool {
    if chunk.len() == 0 {
        result matches Err(e) && e is ConnectionClosed
    } else {
        match parse_outcome(buffer + chunk) {
            Outcome::Complete { method, path, headers, body } => {
                let found = RequestView {
                    buffer: buffer + chunk,
                    method,
                    path,
                    headers,
                    body,
                    args: Map::empty(),
                    form: Map::empty(),
                    cookies: Seq::empty(),
                };
                match found.finished() {
                    Ok(v) => result matches Ok(Status::Complete(request)) && request@ == v,
                    Err(m) => result matches Err(Error::Other(t)) && t@ == m,
                }
            },
            Outcome::Partial => result matches Ok(Status::Partial(rest)) && rest@ == buffer + chunk,
            Outcome::Refused(f) => result matches Err(e) && f.raised_by(e),
        }
    }
}

/// Takes the bytes that were read from a connection: the step of the loop
/// that reads a request. `buffer` holds what was read before, `chunk` what
/// was read now. While the answer is `Partial`, read again and hand in the
/// buffer that came back.
pub fn receive(buffer: Vec<u8>, chunk: &[u8]) -> (result: Result<Status, Error>)
    ensures
        received(buffer@, chunk@, result),
{
    if chunk.len() == 0 {
        return Err(Error::ConnectionClosed);
    }
    let mut buffer = buffer;
    append_bytes(&mut buffer, chunk);
    match parse(buffer) {
        Ok(Status::Complete(request)) => match request.finish() {
            Ok(request) => Ok(Status::Complete(request)),
            Err(e) => Err(e),
        },
        Ok(Status::Partial(rest)) => Ok(Status::Partial(rest)),
        Err(e) => Err(e),
    }
}

} // verus!
