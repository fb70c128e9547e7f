use crate::string_map::{pairs_map, StringMap};
use crate::text::{
    append_bytes, ascii_lower_seq, bytes_eq, eq_ignore_ascii_case, find, lemma_piece_is_utf8, lemma_scan, lemma_scan_skip,
    scan, text_of, trim_end, trim_end_of, utf8_str, Stop,
};
use crate::error::Error;
use crate::string_map::{key_index, lemma_key_index};
use crate::text::str_eq;
use crate::util::{decode_form_bytes, form_value_text, percent_decode, percent_decoded_text};
use cookie2::Cookie;
use vstd::slice::slice_subrange;
use vstd::prelude::*;
use vstd::string::*;
use vstd::utf8::*;

verus! {

/// A half-open `(start, end)` range of bytes in a raw request. A span means
/// something only together with the buffer it was made for.
#[derive(Debug, Copy, Clone, PartialEq, Eq, Structural)]
pub struct Span(pub usize, pub usize);

/// The byte that stands in for text that cannot be shown: `?`.
pub open spec fn placeholder() -> Seq<u8> {
    seq![0x3fu8]
}

/// The bytes of the text that `span` stands for in `buf`: nothing for an
/// empty span, the bytes in the range when the range lies in `buf` and holds
/// valid UTF-8, and the placeholder otherwise.
pub open spec fn span_bytes(span: Span, buf: Seq<u8>) -> Seq<u8> {
    if span.0 == span.1 {
        Seq::empty()
    } else if span.0 < span.1 <= buf.len() && valid_utf8(
        buf.subrange(span.0 as int, span.1 as int),
    ) {
        buf.subrange(span.0 as int, span.1 as int)
    } else {
        placeholder()
    }
}

/// The text that `span` stands for in `buf`.
pub open spec fn span_text(span: Span, buf: Seq<u8>) -> Seq<char> {
    decode_utf8(span_bytes(span, buf))
}

/// The empty string literal encodes to no bytes.
pub proof fn lemma_empty_literal()
    ensures
        ""@ == Seq::<char>::empty(),
        "".spec_bytes() == Seq::<u8>::empty(),
{
    reveal_strlit("");
    assert(""@ =~= Seq::<char>::empty());
    assert(encode_utf8(""@) =~= Seq::<u8>::empty());
}

/// The literal `"?"` encodes to the placeholder byte.
pub proof fn lemma_placeholder_literal()
    ensures
        "?"@ == seq!['?'],
        "?".spec_bytes() == placeholder(),
        valid_utf8(placeholder()),
{
    reveal_strlit("?");
    assert("?"@ =~= seq!['?']);
    is_ascii_chars_encode_utf8("?"@);
    assert("?".spec_bytes() =~= placeholder());
    encode_utf8_valid_utf8("?"@);
}

impl Span {
    /// The empty span.
    pub fn new() -> (span: Span)
        ensures
            span == Span(0, 0),
    {
        Span(0, 0)
    }

    /// A span is empty when it starts where it ends.
    pub fn is_empty(&self) -> (empty: bool)
        ensures
            empty == (self.0 == self.1),
    {
        self.0 == self.1
    }

    /// The text of this span in `buf`, which should be the buffer that the
    /// span was made for. Never fails: a range that does not fit the buffer,
    /// or that does not hold UTF-8, reads as `"?"`.
    pub fn from_buf<'buf>(&self, buf: &'buf [u8]) -> (text: &'buf str)
        ensures
            text.spec_bytes() == span_bytes(*self, buf@),
            text@ == span_text(*self, buf@),
    {
        proof {
            lemma_empty_literal();
            lemma_placeholder_literal();
        }
        let text = if self.is_empty() {
            ""
        } else if self.0 < self.1 && self.1 <= buf.len() {
            match utf8_str(&buf[self.0..self.1]) {
                Some(s) => s,
                None => "?",
            }
        } else {
            "?"
        };
        proof {
            encode_utf8_decode_utf8(text@);
        }
        text
    }
}

/// What a request holds, as plain values.
pub struct RequestView {
    /// The raw bytes of the request.
    pub buffer: Seq<u8>,
    /// Where the method stands in the buffer.
    pub method: Span,
    /// Where the path stands in the buffer, with its query.
    pub path: Span,
    /// Where each header's name and value stand, in the order of arrival.
    pub headers: Seq<(Span, Span)>,
    /// Where the body stands in the buffer.
    pub body: Span,
    /// The arguments taken from the path by the route that matched.
    pub args: Map<Seq<char>, Seq<char>>,
    /// The fields of a posted form.
    pub form: Map<Seq<char>, Seq<char>>,
    /// The cookies that the client sent, in their order.
    pub cookies: Seq<(Seq<char>, Seq<char>)>,
}

/// The value of the first field of a query string that has the given name:
/// what stands after `name=` in the first piece between `&` signs that
/// starts so.
pub open spec fn query_value(query: Seq<u8>, name: Seq<u8>) -> Option<Seq<u8>>
    decreases query.len(),
{
    let end = scan(query, 0, Stop::Byte(0x26));
    let piece = if 0 <= end < query.len() {
        query.take(end)
    } else {
        query
    };
    if piece.len() > name.len() && piece.take(name.len() as int) == name && piece[name.len() as int]
        == 0x3d {
        Some(piece.skip(name.len() as int + 1))
    } else if 0 <= end < query.len() {
        query_value(query.skip(end + 1), name)
    } else {
        None
    }
}

/// The name and the value of one field of a posted form: the name is what
/// stands before the first `=`, as it is; the value is what follows,
/// decoded. A field without `=` has an empty value.
pub open spec fn form_pair(piece: Seq<u8>) -> (Seq<char>, Seq<char>) {
    let eq = scan(piece, 0, Stop::Byte(0x3d));
    if 0 <= eq < piece.len() {
        (decode_utf8(piece.take(eq)), form_value_text(piece.skip(eq + 1)))
    } else {
        (decode_utf8(piece), Seq::empty())
    }
}

/// The fields of a posted form, in their order: one for each piece between
/// `&` signs.
pub open spec fn form_pairs(body: Seq<u8>) -> Seq<(Seq<char>, Seq<char>)>
    decreases body.len(),
{
    let end = scan(body, 0, Stop::Byte(0x26));
    if 0 <= end < body.len() {
        seq![form_pair(body.take(end))] + form_pairs(body.skip(end + 1))
    } else {
        seq![form_pair(body)]
    }
}

impl RequestView {
    /// The bytes of the path as it was requested, with its query.
    pub open spec fn full_path_bytes(self) -> Seq<u8> {
        span_bytes(self.path, self.buffer)
    }

    /// Where the query starts in the full path: at the first `?`.
    pub open spec fn query_mark(self) -> int {
        scan(self.full_path_bytes(), 0, Stop::Byte(0x3f))
    }

    /// The bytes of the path without its query: the full path up to the
    /// first `?`.
    pub open spec fn path_bytes(self) -> Seq<u8> {
        if 0 <= self.query_mark() < self.full_path_bytes().len() {
            self.full_path_bytes().take(self.query_mark())
        } else {
            self.full_path_bytes()
        }
    }

    /// The bytes of the query: what follows the first `?` of the full path.
    pub open spec fn query_bytes(self) -> Option<Seq<u8>> {
        if 0 <= self.query_mark() < self.full_path_bytes().len() {
            Some(self.full_path_bytes().skip(self.query_mark() + 1))
        } else {
            None
        }
    }

    /// The value of the query field with the given name, as it stands in the
    /// path.
    pub open spec fn query_field(self, name: Seq<u8>) -> Option<Seq<u8>> {
        match self.query_bytes() {
            Some(query) => query_value(query, name),
            None => None,
        }
    }

    /// Whether a header has the given name. The case of ASCII letters does
    /// not matter.
    pub open spec fn header_named(self, header: (Span, Span), name: Seq<u8>) -> bool {
        ascii_lower_seq(span_bytes(header.0, self.buffer)) == ascii_lower_seq(name)
    }

    /// The value of a header as text, without the white space at its end.
    pub open spec fn header_value(self, header: (Span, Span)) -> Seq<char> {
        decode_utf8(trim_end(span_bytes(header.1, self.buffer)))
    }

    /// Those of the given headers that have the given name, in their order.
    pub open spec fn headers_named(self, headers: Seq<(Span, Span)>, name: Seq<u8>) -> Seq<
        (Span, Span),
    >
        decreases headers.len(),
    {
        if headers.len() == 0 {
            Seq::empty()
        } else if self.header_named(headers.last(), name) {
            self.headers_named(headers.drop_last(), name).push(headers.last())
        } else {
            self.headers_named(headers.drop_last(), name)
        }
    }

    /// The values of the given headers, joined by a comma and a space.
    pub open spec fn joined_values(self, headers: Seq<(Span, Span)>) -> Seq<char>
        decreases headers.len(),
    {
        if headers.len() == 0 {
            Seq::empty()
        } else if headers.len() == 1 {
            self.header_value(headers[0])
        } else {
            self.joined_values(headers.drop_last()) + seq![',', ' '] + self.header_value(
                headers.last(),
            )
        }
    }

    /// What asking for a header by name gives: nothing if no header has the
    /// name, else the values of all headers that have it, joined.
    pub open spec fn header_text(self, name: Seq<u8>) -> Option<Seq<char>> {
        let named = self.headers_named(self.headers, name);
        if named.len() == 0 {
            None
        } else {
            Some(self.joined_values(named))
        }
    }

    /// The fields of the posted form that the body holds.
    pub open spec fn form_fields(self) -> Map<Seq<char>, Seq<char>> {
        pairs_map(form_pairs(span_bytes(self.body, self.buffer)))
    }

    /// The value of the first cookie with the given name.
    pub open spec fn cookie(self, name: Seq<char>) -> Option<Seq<char>> {
        match key_index(self.cookies, name) {
            Some(i) => Some(self.cookies[i].1),
            None => None,
        }
    }

    /// This request with its form read, if it has a `Content-Length` header.
    pub open spec fn with_form(self) -> RequestView {
        if self.header_text("Content-Length".spec_bytes()) is Some {
            RequestView { form: self.form_fields(), ..self }
        } else {
            self
        }
    }

    /// This request as it is handed to the application: with its form read,
    /// if it has a `Content-Length` header, and with the cookies of its
    /// `Cookie` header. Where a cookie cannot be read there is no request,
    /// but the message of the error.
    pub open spec fn finished(self) -> Result<RequestView, Seq<char>> {
        match self.with_form().header_text("Cookie".spec_bytes()) {
            None => Ok(self.with_form()),
            Some(text) => match cookies_of(cookie_pieces(encode_utf8(text), 0)) {
                Ok(list) => Ok(
                    RequestView { cookies: self.cookies + list, ..self.with_form() },
                ),
                Err(m) => Err(m),
            },
        }
    }
}

/// The text of a span is always valid UTF-8.
pub proof fn lemma_span_bytes_is_utf8(span: Span, buf: Seq<u8>)
    ensures
        valid_utf8(span_bytes(span, buf)),
{
    lemma_placeholder_literal();
    assert(valid_utf8(Seq::<u8>::empty()));
}

/// Where no header has the name, none is found.
pub proof fn lemma_headers_named_none(v: RequestView, headers: Seq<(Span, Span)>, name: Seq<u8>)
    requires
        forall|k: int| 0 <= k < headers.len() ==> !v.header_named(#[trigger] headers[k], name),
    ensures
        v.headers_named(headers, name) == Seq::<(Span, Span)>::empty(),
    decreases headers.len(),
{
    if headers.len() > 0 {
        let front = headers.drop_last();
        assert forall|k: int| 0 <= k < front.len() implies !v.header_named(
            #[trigger] front[k],
            name,
        ) by {
            assert(front[k] == headers[k]);
        }
        lemma_headers_named_none(v, front, name);
        assert(!v.header_named(headers[headers.len() - 1], name));
    }
}

/// Where one header has the name, that one is found.
pub proof fn lemma_headers_named_one(
    v: RequestView,
    headers: Seq<(Span, Span)>,
    name: Seq<u8>,
    i: int,
)
    requires
        0 <= i < headers.len(),
        forall|k: int|
            0 <= k < headers.len() ==> (v.header_named(#[trigger] headers[k], name) <==> k == i),
    ensures
        v.headers_named(headers, name) == seq![headers[i]],
    decreases headers.len(),
{
    let front = headers.drop_last();
    assert(v.header_named(headers[headers.len() - 1], name) <==> headers.len() - 1 == i);
    if i == headers.len() - 1 {
        assert forall|k: int| 0 <= k < front.len() implies !v.header_named(
            #[trigger] front[k],
            name,
        ) by {
            assert(front[k] == headers[k]);
        }
        lemma_headers_named_none(v, front, name);
        assert(Seq::<(Span, Span)>::empty().push(headers[i]) =~= seq![headers[i]]);
    } else {
        assert forall|k: int| 0 <= k < front.len() implies (v.header_named(
            #[trigger] front[k],
            name,
        ) <==> k == i) by {
            assert(front[k] == headers[k]);
        }
        lemma_headers_named_one(v, front, name, i);
        assert(front[i] == headers[i]);
    }
}

/// Where two headers have the name, the two are found, in their order.
pub proof fn lemma_headers_named_two(
    v: RequestView,
    headers: Seq<(Span, Span)>,
    name: Seq<u8>,
    i: int,
    j: int,
)
    requires
        0 <= i < j < headers.len(),
        forall|k: int|
            0 <= k < headers.len() ==> (v.header_named(#[trigger] headers[k], name) <==> (k == i
                || k == j)),
    ensures
        v.headers_named(headers, name) == seq![headers[i], headers[j]],
    decreases headers.len(),
{
    let front = headers.drop_last();
    assert(v.header_named(headers[headers.len() - 1], name) <==> headers.len() - 1 == j);
    if j == headers.len() - 1 {
        assert forall|k: int| 0 <= k < front.len() implies (v.header_named(
            #[trigger] front[k],
            name,
        ) <==> k == i) by {
            assert(front[k] == headers[k]);
        }
        lemma_headers_named_one(v, front, name, i);
        assert(front[i] == headers[i]);
        assert(seq![headers[i]].push(headers[j]) =~= seq![headers[i], headers[j]]);
    } else {
        assert forall|k: int| 0 <= k < front.len() implies (v.header_named(
            #[trigger] front[k],
            name,
        ) <==> (k == i || k == j)) by {
            assert(front[k] == headers[k]);
        }
        lemma_headers_named_two(v, front, name, i, j);
        assert(front[i] == headers[i] && front[j] == headers[j]);
    }
}

/// Headers by name. The name is matched without regard to the case of ASCII
/// letters. A name that no header has gives nothing; a name that one header
/// has gives the value of that header, without the white space at its end; a
/// name that two headers have gives their two values, joined by a comma and
/// a space.
pub proof fn lemma_header_by_name(v: RequestView, name: Seq<u8>, i: int, j: int)
    ensures
        (forall|k: int| 0 <= k < v.headers.len() ==> !v.header_named(#[trigger] v.headers[k], name))
            ==> v.header_text(name) is None,
        0 <= i < v.headers.len() && (forall|k: int|
            0 <= k < v.headers.len() ==> (v.header_named(#[trigger] v.headers[k], name) <==> k
                == i)) ==> v.header_text(name) == Some(v.header_value(v.headers[i])),
        0 <= i < j < v.headers.len() && (forall|k: int|
            0 <= k < v.headers.len() ==> (v.header_named(#[trigger] v.headers[k], name) <==> (k
                == i || k == j))) ==> v.header_text(name) == Some(
            v.header_value(v.headers[i]) + seq![',', ' '] + v.header_value(v.headers[j]),
        ),
        forall|header: (Span, Span), other: Seq<u8>|
            ascii_lower_seq(other) == ascii_lower_seq(name) ==> (v.header_named(header, other)
                <==> v.header_named(header, name)),
{
    if forall|k: int| 0 <= k < v.headers.len() ==> !v.header_named(#[trigger] v.headers[k], name) {
        lemma_headers_named_none(v, v.headers, name);
    }
    if 0 <= i < v.headers.len() && (forall|k: int|
        0 <= k < v.headers.len() ==> (v.header_named(#[trigger] v.headers[k], name) <==> k == i)) {
        lemma_headers_named_one(v, v.headers, name, i);
    }
    if 0 <= i < j < v.headers.len() && (forall|k: int|
        0 <= k < v.headers.len() ==> (v.header_named(#[trigger] v.headers[k], name) <==> (k == i
            || k == j))) {
        lemma_headers_named_two(v, v.headers, name, i, j);
        let two = seq![v.headers[i], v.headers[j]];
        assert(two.drop_last() =~= seq![v.headers[i]]);
        assert(two.last() == v.headers[j]);
        assert(v.joined_values(two.drop_last()) == v.header_value(v.headers[i]));
    }
}

/// What `Cookie::parse` finds in a text: the name and the value of the
/// cookie, or the message of its error.
pub uninterp spec fn parsed_cookie(text: Seq<char>) -> Result<(Seq<char>, Seq<char>), Seq<char>>;

/// `Cookie::parse`, with the name and the value of the cookie taken out, or
/// the message of the error. Not verified: what is found is a function of
/// the text, and the contract only gives it a name.
#[verifier::external_body]
fn parse_cookie(text: &str) -> (pair: Result<(String, String), String>)
    ensures
        match parsed_cookie(text@) {
            Ok(p) => pair matches Ok(q) && q.0@ == p.0 && q.1@ == p.1,
            Err(m) => pair matches Err(t) && t@ == m,
        },
{
    match Cookie::parse(text) {
        Ok(cookie) => Ok((cookie.name().to_owned(), cookie.value().to_owned())),
        Err(e) => Err(e.to_string()),
    }
}

/// The first place at or after `i` where a semicolon stands with a space
/// after it; the length of `s` where there is none.
pub open spec fn next_cut(s: Seq<u8>, i: int) -> int
    decreases s.len() - i,
{
    if i < 0 || i >= s.len() {
        s.len() as int
    } else if i + 1 < s.len() && s[i] == 0x3b && s[i + 1] == 0x20 {
        i
    } else {
        next_cut(s, i + 1)
    }
}

/// The pieces of a `Cookie` header from place `from` on: the header is cut
/// after each semicolon that a space follows, and after that space.
pub open spec fn cookie_pieces(s: Seq<u8>, from: int) -> Seq<Seq<u8>>
    decreases s.len() - from,
{
    if from < 0 || from >= s.len() {
        Seq::empty()
    } else if from <= next_cut(s, from) && next_cut(s, from) + 2 <= s.len() {
        seq![s.subrange(from, next_cut(s, from) + 2)] + cookie_pieces(s, next_cut(s, from) + 2)
    } else {
        seq![s.subrange(from, s.len() as int)]
    }
}

/// The value of a cookie: its text with the escapes decoded, or as it is
/// where they cannot be decoded.
pub open spec fn cookie_value(raw: Seq<char>) -> Seq<char> {
    match percent_decoded_text(encode_utf8(raw)) {
        Some(text) => text,
        None => raw,
    }
}

/// The cookies that the pieces of a header hold, or the message of the first
/// error.
pub open spec fn cookies_of(pieces: Seq<Seq<u8>>) -> Result<
    Seq<(Seq<char>, Seq<char>)>,
    Seq<char>,
>
    decreases pieces.len(),
{
    if pieces.len() == 0 {
        Ok(Seq::empty())
    } else {
        match cookies_of(pieces.drop_last()) {
            Err(m) => Err(m),
            Ok(before) => match parsed_cookie(decode_utf8(pieces.last())) {
                Ok(pair) => Ok(before.push((pair.0, cookie_value(pair.1)))),
                Err(m) => Err(m),
            },
        }
    }
}

/// The cookies that the value of a `Cookie` header holds.
pub fn parse_cookies(header: &str) -> (cookies: Result<Vec<(String, String)>, Error>)
    ensures
        match cookies_of(cookie_pieces(header.spec_bytes(), 0)) {
            Ok(list) => cookies matches Ok(found) && pair_texts(found@) == list,
            Err(m) => cookies matches Err(Error::Other(t)) && t@ == m,
        },
{
    let bytes = header.as_bytes();
    let mut found: Vec<(String, String)> = Vec::new();
    let ghost mut done: Seq<Seq<u8>> = Seq::empty();
    let mut pos: usize = 0;
    proof {
        encode_utf8_valid_utf8(header@);
        assert(done + cookie_pieces(bytes@, 0) =~= cookie_pieces(bytes@, 0));
        assert(pair_texts(found@) =~= Seq::empty());
    }
    while pos < bytes.len()
        invariant
            pos <= bytes@.len(),
            bytes@ == header.spec_bytes(),
            valid_utf8(bytes@),
            pos == 0 || pos == bytes@.len() || bytes@[pos - 1] == 0x20,
            cookie_pieces(bytes@, 0) == done + cookie_pieces(bytes@, pos as int),
            cookies_of(done) == Ok::<Seq<(Seq<char>, Seq<char>)>, Seq<char>>(pair_texts(found@)),
        decreases bytes@.len() - pos,
    {
        let mut cut: usize = pos;
        while cut < bytes.len() && !(cut + 1 < bytes.len() && bytes[cut] == 0x3b && bytes[cut + 1]
            == 0x20)
            invariant
                pos <= cut <= bytes@.len(),
                next_cut(bytes@, pos as int) == next_cut(bytes@, cut as int),
            decreases bytes@.len() - cut,
        {
            cut += 1;
        }
        let end = if cut < bytes.len() {
            cut + 2
        } else {
            bytes.len()
        };
        proof {
            lemma_piece_is_utf8(bytes@, pos as int, end as int);
        }
        let piece = slice_subrange(bytes, pos, end);
        let text = text_of(piece);
        let ghost before = pair_texts(found@);
        let ghost earlier = done;
        proof {
            let rest = cookie_pieces(bytes@, end as int);
            assert(cookie_pieces(bytes@, pos as int) =~= seq![piece@] + rest);
            assert(earlier + (seq![piece@] + rest) =~= earlier.push(piece@) + rest);
            assert(earlier.push(piece@).drop_last() =~= earlier);
            assert(earlier.push(piece@).last() == piece@);
            done = earlier.push(piece@);
            assert(cookie_pieces(bytes@, 0) == done + rest);
            assert(cookies_of(done) == match parsed_cookie(text@) {
                Ok(pair) => Ok::<Seq<(Seq<char>, Seq<char>)>, Seq<char>>(
                    before.push((pair.0, cookie_value(pair.1))),
                ),
                Err(m) => Err(m),
            });
        }
        match parse_cookie(text) {
            Err(message) => {
                proof {
                    lemma_cookies_fail(done, cookie_pieces(bytes@, end as int));
                }
                return Err(Error::Other(message));
            },
            Ok((name, raw)) => {
                let ghost raw_text = raw@;
                let value = match percent_decode(raw.as_str()) {
                    Some(value) => value,
                    None => raw,
                };
                assert(value@ == cookie_value(raw_text));
                found.push((name, value));
                assert(pair_texts(found@) =~= before.push((name@, value@)));
            },
        }
        pos = end;
    }
    proof {
        assert(done + Seq::<Seq<u8>>::empty() =~= done);
    }
    Ok(found)
}

/// Pairs of strings as pairs of texts.
pub open spec fn pair_texts(pairs: Seq<(String, String)>) -> Seq<(Seq<char>, Seq<char>)> {
    pairs.map_values(|p: (String, String)| (p.0@, p.1@))
}

/// Where the first pieces give an error, all pieces give that error.
pub proof fn lemma_cookies_fail(first: Seq<Seq<u8>>, more: Seq<Seq<u8>>)
    requires
        cookies_of(first) is Err,
    ensures
        cookies_of(first + more) == cookies_of(first),
    decreases more.len(),
{
    if more.len() == 0 {
        assert(first + more =~= first);
    } else {
        lemma_cookies_fail(first, more.drop_last());
        assert((first + more).drop_last() =~= first + more.drop_last());
    }
}

/// One request: the raw bytes as they arrived, the places of the method, the
/// path, the headers and the body in them, and the arguments and form fields
/// that were decoded from them.
#[derive(Debug)]
pub struct Request {
    buffer: Vec<u8>,
    path: Span,
    method: Span,
    headers: Vec<(Span, Span)>,
    body: Span,
    args: StringMap,
    form: StringMap,
    cookies: Vec<(String, String)>,
}

impl View for Request {
    type V = RequestView;

    closed spec fn view(&self) -> RequestView {
        RequestView {
            buffer: self.buffer@,
            method: self.method,
            path: self.path,
            headers: self.headers@,
            body: self.body,
            args: self.args@,
            form: self.form@,
            cookies: pair_texts(self.cookies@),
        }
    }
}

impl Request {
    /// A request over `buffer` whose parts stand at the given places. It has
    /// no arguments and no form fields yet.
    pub fn new(
        method: Span,
        path: Span,
        headers: Vec<(Span, Span)>,
        body: Span,
        buffer: Vec<u8>,
    ) -> (request: Request)
        ensures
            request@ == (RequestView {
                buffer: buffer@,
                method,
                path,
                headers: headers@,
                body,
                args: Map::empty(),
                form: Map::empty(),
                cookies: Seq::empty(),
            }),
    {
        let request = Request {
            buffer,
            path,
            method,
            headers,
            body,
            args: StringMap::new(),
            form: StringMap::new(),
            cookies: Vec::new(),
        };
        assert(request@.cookies =~= Seq::empty());
        request
    }

    /// An empty request.
    pub fn default() -> (request: Request)
        ensures
            request@ == Request::default_view(),
    {
        Request::new(Span::new(), Span::new(), Vec::new(), Span::new(), Vec::new())
    }

    /// The path as it was requested, with its query.
    pub fn full_path(&self) -> (text: &str)
        ensures
            text.spec_bytes() == self@.full_path_bytes(),
    {
        self.path.from_buf(self.buffer.as_slice())
    }

    /// The path without its query.
    pub fn path(&self) -> (text: &str)
        ensures
            text.spec_bytes() == self@.path_bytes(),
    {
        let full = self.full_path();
        let bytes = full.as_bytes();
        let mark = find(bytes, 0, Stop::Byte(0x3f));
        if mark < bytes.len() {
            proof {
                lemma_span_bytes_is_utf8(self.path, self.buffer@);
                lemma_piece_is_utf8(bytes@, 0, mark as int);
            }
            text_of(slice_subrange(bytes, 0, mark))
        } else {
            full
        }
    }

    /// A request for the given path, with nothing else in it.
    pub fn from_path(path: &str) -> (request: Request)
        ensures
            request@ == (RequestView {
                buffer: path.spec_bytes(),
                path: Span(0, path.spec_bytes().len() as usize),
                ..Request::default_view()
            }),
            request@.full_path_bytes() == path.spec_bytes(),
    {
        let request = Request::default().with_path(path);
        let size = path.as_bytes().len();
        proof {
            assert(size == path.spec_bytes().len());
            assert(Seq::<u8>::empty() + path.spec_bytes() =~= path.spec_bytes());
            encode_utf8_valid_utf8(path@);
            assert(path.spec_bytes().subrange(0, path.spec_bytes().len() as int)
                =~= path.spec_bytes());
        }
        request
    }

    /// What an empty request holds.
    pub open spec fn default_view() -> RequestView {
        RequestView {
            buffer: Seq::empty(),
            method: Span(0, 0),
            path: Span(0, 0),
            headers: Seq::empty(),
            body: Span(0, 0),
            args: Map::empty(),
            form: Map::empty(),
            cookies: Seq::empty(),
        }
    }

    /// Gives the request another path: the text is appended to the buffer,
    /// and the path is where it stands there.
    pub fn set_path(&mut self, path: &str)
        ensures
            final(self)@ == (RequestView {
                buffer: old(self)@.buffer + path.spec_bytes(),
                path: Span(old(self)@.buffer.len() as usize, final(self)@.buffer.len() as usize),
                ..old(self)@
            }),
    {
        let start = self.buffer.len();
        append_bytes(&mut self.buffer, path.as_bytes());
        self.path = Span(start, self.buffer.len());
    }

    /// This request with another path.
    pub fn with_path(self, path: &str) -> (request: Request)
        ensures
            request@ == (RequestView {
                buffer: self@.buffer + path.spec_bytes(),
                path: Span(self@.buffer.len() as usize, request@.buffer.len() as usize),
                ..self@
            }),
    {
        let mut request = self;
        request.set_path(path);
        request
    }

    /// The body as text.
    pub fn body(&self) -> (text: &str)
        ensures
            text.spec_bytes() == span_bytes(self@.body, self@.buffer),
    {
        self.body.from_buf(self.buffer.as_slice())
    }

    /// Gives the request another body: the text is appended to the buffer,
    /// and the body is where it stands there.
    pub fn set_body(&mut self, body: &str)
        ensures
            final(self)@ == (RequestView {
                buffer: old(self)@.buffer + body.spec_bytes(),
                body: Span(old(self)@.buffer.len() as usize, final(self)@.buffer.len() as usize),
                ..old(self)@
            }),
    {
        let start = self.buffer.len();
        append_bytes(&mut self.buffer, body.as_bytes());
        self.body = Span(start, self.buffer.len());
    }

    /// This request with another body.
    pub fn with_body(self, body: &str) -> (request: Request)
        ensures
            request@ == (RequestView {
                buffer: self@.buffer + body.spec_bytes(),
                body: Span(self@.buffer.len() as usize, request@.buffer.len() as usize),
                ..self@
            }),
    {
        let mut request = self;
        request.set_body(body);
        request
    }

    /// The method as text.
    pub fn method(&self) -> (text: &str)
        ensures
            text.spec_bytes() == span_bytes(self@.method, self@.buffer),
            text@ == span_text(self@.method, self@.buffer),
    {
        self.method.from_buf(self.buffer.as_slice())
    }

    /// Gives the request another method: the text is appended to the buffer,
    /// and the method is where it stands there.
    pub fn set_method(&mut self, method: &str)
        ensures
            final(self)@ == (RequestView {
                buffer: old(self)@.buffer + method.spec_bytes(),
                method: Span(
                    old(self)@.buffer.len() as usize,
                    final(self)@.buffer.len() as usize,
                ),
                ..old(self)@
            }),
    {
        let start = self.buffer.len();
        append_bytes(&mut self.buffer, method.as_bytes());
        self.method = Span(start, self.buffer.len());
    }

    /// This request with another method.
    pub fn with_method(self, method: &str) -> (request: Request)
        ensures
            request@ == (RequestView {
                buffer: self@.buffer + method.spec_bytes(),
                method: Span(self@.buffer.len() as usize, request@.buffer.len() as usize),
                ..self@
            }),
    {
        let mut request = self;
        request.set_method(method);
        request
    }

    /// The argument that the route took from the path under the given name.
    pub fn arg(&self, name: &str) -> (value: Option<&str>)
        ensures
            match value {
                Some(v) => self@.args.contains_key(name@) && self@.args[name@] == v@,
                None => !self@.args.contains_key(name@),
            },
    {
        self.args.get(name)
    }

    /// Sets an argument, or replaces it.
    pub fn set_arg(&mut self, name: String, value: String)
        ensures
            final(self)@ == (RequestView {
                args: old(self)@.args.insert(name@, value@),
                ..old(self)@
            }),
    {
        self.args.insert(name, value);
    }

    /// Where the headers stand in the buffer, in the order of arrival.
    pub fn headers(&self) -> (headers: &Vec<(Span, Span)>)
        ensures
            headers@ == self@.headers,
    {
        &self.headers
    }

    /// The value of a header. The case of the name does not matter. Where
    /// several headers have the name their values are joined by `", "`.
    pub fn header(&self, name: &str) -> (value: Option<String>)
        ensures
            match self@.header_text(name.spec_bytes()) {
                Some(text) => value matches Some(s) && s@ == text,
                None => value is None,
            },
    {
        let wanted = name.as_bytes();
        let mut found: Option<String> = None;
        let mut i: usize = 0;
        while i < self.headers.len()
            invariant
                i <= self.headers@.len(),
                wanted@ == name.spec_bytes(),
                self@.headers == self.headers@,
                self@.buffer == self.buffer@,
                match found {
                    Some(s) => self@.headers_named(self.headers@.take(i as int), wanted@).len() > 0
                        && s@ == self@.joined_values(
                        self@.headers_named(self.headers@.take(i as int), wanted@),
                    ),
                    None => self@.headers_named(self.headers@.take(i as int), wanted@).len() == 0,
                },
            decreases self.headers@.len() - i,
        {
            let header = self.headers[i];
            let ghost before = self@.headers_named(self.headers@.take(i as int), wanted@);
            proof {
                let longer = self.headers@.take(i + 1);
                assert(longer.drop_last() =~= self.headers@.take(i as int));
                assert(longer.last() == header);
                lemma_span_bytes_is_utf8(header.1, self.buffer@);
            }
            let this_name = header.0.from_buf(self.buffer.as_slice());
            if eq_ignore_ascii_case(this_name.as_bytes(), wanted) {
                let text = trim_end_of(header.1.from_buf(self.buffer.as_slice()).as_bytes());
                proof {
                    reveal_strlit(", ");
                    assert(", "@ =~= seq![',', ' ']);
                    assert(before.push(header).drop_last() =~= before);
                }
                found = match found {
                    None => Some(text.to_owned()),
                    Some(mut joined) => {
                        joined.append(", ");
                        joined.append(text);
                        Some(joined)
                    },
                };
            }
            i += 1;
        }
        assert(self.headers@.take(i as int) =~= self.headers@);
        found
    }

    /// Whether the posted form has a field with the given name.
    pub fn has_form(&mut self, name: &str) -> (found: bool)
        ensures
            final(self)@ == old(self)@,
            found == old(self)@.form.contains_key(name@),
    {
        self.form.contains_key(name)
    }

    /// The value of a field of the posted form.
    pub fn form(&self, name: &str) -> (value: Option<&str>)
        ensures
            match value {
                Some(v) => self@.form.contains_key(name@) && self@.form[name@] == v@,
                None => !self@.form.contains_key(name@),
            },
    {
        self.form.get(name)
    }

    /// Sets a field of the posted form, or replaces it.
    pub fn set_form(&mut self, name: &str, value: &str)
        ensures
            final(self)@ == (RequestView {
                form: old(self)@.form.insert(name@, value@),
                ..old(self)@
            }),
    {
        self.form.insert(name.to_owned(), value.to_owned());
    }

    /// Reads the body as a posted form and keeps its fields, in place of
    /// the fields that were there.
    pub fn parse_form(&mut self)
        ensures
            final(self)@ == (RequestView { form: old(self)@.form_fields(), ..old(self)@ }),
    {
        let mut map = StringMap::new();
        let bytes = self.body.from_buf(self.buffer.as_slice()).as_bytes();
        let ghost mut done: Seq<(Seq<char>, Seq<char>)> = Seq::empty();
        let mut pos: usize = 0;
        proof {
            lemma_span_bytes_is_utf8(self.body, self.buffer@);
            assert(bytes@.skip(0) =~= bytes@);
            assert(done + form_pairs(bytes@) =~= form_pairs(bytes@));
        }
        loop
            invariant_except_break
                form_pairs(bytes@) == done + form_pairs(bytes@.skip(pos as int)),
            invariant
                pos <= bytes@.len(),
                valid_utf8(bytes@),
                pos == 0 || bytes@[pos - 1] == 0x26,
                map@ == pairs_map(done),
            ensures
                form_pairs(bytes@) == done,
            decreases bytes@.len() - pos,
        {
            let ghost rest = bytes@.skip(pos as int);
            let end = find(bytes, pos, Stop::Byte(0x26));
            let piece = slice_subrange(bytes, pos, end);
            let split = find(piece, 0, Stop::Byte(0x3d));
            proof {
                lemma_scan_skip(bytes@, pos as int, Stop::Byte(0x26));
                lemma_scan(bytes@, pos as int, Stop::Byte(0x26));
                lemma_scan(piece@, 0, Stop::Byte(0x3d));
                if end < bytes@.len() {
                    assert(piece@ =~= rest.take(end - pos));
                } else {
                    assert(piece@ =~= rest);
                }
                lemma_piece_is_utf8(bytes@, pos as int, pos + split);
                assert(piece@.take(split as int) =~= bytes@.subrange(pos as int, pos + split));
                if split == piece@.len() {
                    assert(piece@.take(split as int) =~= piece@);
                }
            }
            let key = text_of(slice_subrange(piece, 0, split)).to_owned();
            let value = if split < piece.len() {
                let after = slice_subrange(piece, split + 1, piece.len());
                assert(after@ =~= piece@.skip(split + 1));
                decode_form_bytes(after)
            } else {
                String::new()
            };
            proof {
                let pair = (key@, value@);
                assert(pair == form_pair(piece@));
                assert(done.push(pair).drop_last() =~= done);
                if end < bytes@.len() {
                    assert(rest.skip(end - pos + 1) =~= bytes@.skip(end + 1));
                    assert(done + (seq![pair] + form_pairs(bytes@.skip(end + 1))) =~= done.push(
                        pair,
                    ) + form_pairs(bytes@.skip(end + 1)));
                } else {
                    assert(done + seq![pair] =~= done.push(pair));
                }
                done = done.push(pair);
            }
            map.insert(key, value);
            if end >= bytes.len() {
                break;
            }
            pos = end + 1;
        }
        self.form = map;
    }

    /// Whether the query has a field with the given name.
    pub fn has_query(&self, name: &str) -> (found: bool)
        ensures
            found == self@.query_field(name.spec_bytes()) is Some,
    {
        self.query(name).is_some()
    }

    /// The value of a field of the query, as it stands in the path.
    pub fn query(&self, name: &str) -> (value: Option<&str>)
        ensures
            match self@.query_field(name.spec_bytes()) {
                Some(bytes) => value matches Some(v) && v.spec_bytes() == bytes,
                None => value is None,
            },
    {
        let bytes = self.full_path().as_bytes();
        let wanted = name.as_bytes();
        let mark = find(bytes, 0, Stop::Byte(0x3f));
        if mark >= bytes.len() {
            return None;
        }
        let mut pos: usize = mark + 1;
        proof {
            lemma_span_bytes_is_utf8(self.path, self.buffer@);
        }
        loop
            invariant
                pos <= bytes@.len(),
                valid_utf8(bytes@),
                wanted@ == name.spec_bytes(),
                bytes@ == self@.full_path_bytes(),
                self@.query_field(wanted@) == query_value(bytes@.skip(pos as int), wanted@),
            decreases bytes@.len() - pos,
        {
            let ghost rest = bytes@.skip(pos as int);
            let end = find(bytes, pos, Stop::Byte(0x26));
            let piece = slice_subrange(bytes, pos, end);
            proof {
                lemma_scan_skip(bytes@, pos as int, Stop::Byte(0x26));
                lemma_scan(bytes@, pos as int, Stop::Byte(0x26));
                if end < bytes@.len() {
                    assert(piece@ =~= rest.take(end - pos));
                } else {
                    assert(piece@ =~= rest);
                }
            }
            if piece.len() > wanted.len() && piece[wanted.len()] == 0x3d {
                let start = slice_subrange(piece, 0, wanted.len());
                assert(start@ =~= piece@.take(wanted@.len() as int));
                if bytes_eq(start, wanted) {
                    proof {
                        lemma_piece_is_utf8(bytes@, pos + wanted@.len() + 1, end as int);
                        assert(piece@.skip(wanted@.len() as int + 1) =~= bytes@.subrange(
                            pos + wanted@.len() + 1,
                            end as int,
                        ));
                    }
                    return Some(text_of(slice_subrange(bytes, pos + wanted.len() + 1, end)));
                }
            }
            if end >= bytes.len() {
                return None;
            }
            proof {
                assert(rest.skip(end - pos + 1) =~= bytes@.skip(end + 1));
            }
            pos = end + 1;
        }
    }
    /// The value of a cookie that the client sent. Of several cookies with
    /// one name the first counts.
    pub fn cookie(&self, name: &str) -> (value: Option<&str>)
        ensures
            match self@.cookie(name@) {
                Some(text) => value matches Some(v) && v@ == text,
                None => value is None,
            },
    {
        let mut i: usize = 0;
        while i < self.cookies.len()
            invariant
                i <= self.cookies@.len(),
                forall|j: int| 0 <= j < i ==> self@.cookies[j].0 != name@,
            decreases self.cookies@.len() - i,
        {
            if str_eq(self.cookies[i].0.as_str(), name) {
                proof {
                    lemma_key_index(self@.cookies, name@);
                    assert(self@.cookies[i as int].0 == name@);
                }
                return Some(self.cookies[i].1.as_str());
            }
            i += 1;
        }
        proof {
            lemma_key_index(self@.cookies, name@);
        }
        None
    }

    /// Makes a parsed request ready for the application: reads its form, if
    /// it has a `Content-Length` header, and the cookies of its `Cookie`
    /// header.
    pub fn finish(self) -> (result: Result<Request, Error>)
        ensures
            match self@.finished() {
                Ok(v) => result matches Ok(request) && request@ == v,
                Err(m) => result matches Err(Error::Other(t)) && t@ == m,
            },
    {
        let mut request = self;
        if request.header("Content-Length").is_some() {
            request.parse_form();
        }
        match request.header("Cookie") {
            None => Ok(request),
            Some(text) => match parse_cookies(text.as_str()) {
                Ok(list) => {
                    let mut list = list;
                    let ghost before = request.cookies@;
                    let ghost added = list@;
                    request.cookies.append(&mut list);
                    assert(pair_texts(request.cookies@) =~= pair_texts(before) + pair_texts(
                        added,
                    ));
                    Ok(request)
                },
                Err(e) => Err(e),
            },
        }
    }
}

} // verus!