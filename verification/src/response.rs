//! The response to a request: a status code, headers, cookies and a body.

use crate::compression::Compression;
use crate::error::Error;
use crate::markdown::{markdown_html, markdown_rendered};
use crate::string_map::{pairs_get, pairs_map, pairs_put, StringMap};
use crate::text::{ascii_lower_seq, decimal, decimal_string, lowercased, str_eq, to_lowercase};
use crate::util::{content_type, content_type_of, extension};
use vstd::prelude::*;
use vstd::std_specs::cmp::PartialEqSpecImpl;
use vstd::std_specs::convert::FromSpecImpl;
use vstd::string::*;
use vstd::utf8::*;

verus! {

/// The body of a response.
#[derive(Debug)]
enum Body {
    Empty,
    Text(String),
}

/// What a response holds, as plain values.
pub struct ResponseView {
    /// The status code.
    pub code: usize,
    /// The headers, with their names in lower case, in the order in which
    /// the names were first set.
    pub headers: Seq<(Seq<char>, Seq<char>)>,
    /// The body, if the response has one.
    pub body: Option<Seq<char>>,
    /// The cookies to set, with their names in lower case, in the order in
    /// which the names were first set. A cookie with an empty value is one
    /// to remove.
    pub cookies: Seq<(Seq<char>, Seq<char>)>,
}

impl ResponseView {
    /// A response with status 200 that announces an empty HTML body.
    pub open spec fn initial() -> ResponseView {
        ResponseView {
            code: 200,
            headers: pairs_put(
                pairs_put(Seq::empty(), lowercased("Content-Type"@), "text/html; charset=utf8"@),
                lowercased("Content-Length"@),
                "0"@,
            ),
            body: None,
            cookies: Seq::empty(),
        }
    }

    /// The text of the body; empty where there is no body.
    pub open spec fn body_text(self) -> Seq<char> {
        match self.body {
            Some(text) => text,
            None => Seq::empty(),
        }
    }

    /// This response with a header set. Names of headers are kept in lower
    /// case.
    pub open spec fn with_header(self, name: Seq<char>, value: Seq<char>) -> ResponseView {
        ResponseView { headers: pairs_put(self.headers, lowercased(name), value), ..self }
    }

    /// This response with a cookie set.
    pub open spec fn with_cookie(self, name: Seq<char>, value: Seq<char>) -> ResponseView {
        ResponseView { cookies: pairs_put(self.cookies, lowercased(name), value), ..self }
    }

    /// This response with the given body, and with its length in bytes
    /// announced.
    pub open spec fn with_body(self, body: Seq<char>) -> ResponseView {
        (ResponseView { body: Some(body), ..self }).with_header(
            "Content-Length"@,
            decimal(encode_utf8(body).len()),
        )
    }

    /// This response with the given body, as plain text.
    pub open spec fn with_text(self, text: Seq<char>) -> ResponseView {
        self.with_body(text).with_header("Content-Type"@, "text/plain; charset=utf8"@)
    }

    /// This response with the given status. The statuses 404 and 500 bring
    /// a body that names them.
    pub open spec fn with_code(self, code: usize) -> ResponseView {
        let coded = ResponseView { code, ..self };
        if code == 404 {
            coded.with_body("404 Not Found"@)
        } else if code == 500 {
            coded.with_body("500 Internal Server Error"@)
        } else {
            coded
        }
    }

    /// This response as the report of an error, of which `debug` is the
    /// description.
    pub open spec fn with_error(self, debug: Seq<char>) -> ResponseView {
        self.with_code(500).with_body("<h1>500 Internal Error</h1><pre>"@ + debug)
    }

    /// The value of a header.
    pub open spec fn header(self, name: Seq<char>) -> Option<Seq<char>> {
        pairs_get(self.headers, lowercased(name))
    }

    /// The content type that the headers give; empty where they give none.
    pub open spec fn content_type(self) -> Seq<char> {
        match self.header("Content-Type"@) {
            Some(value) => value,
            None => Seq::empty(),
        }
    }

    /// The length of the body in bytes.
    pub open spec fn len(self) -> nat {
        encode_utf8(self.body_text()).len()
    }

    /// This response as it is sent with a body of `length` bytes in the
    /// given encoding: the length is announced, and the encoding if there is
    /// one.
    pub open spec fn sent(self, encoding: Option<Seq<char>>, length: nat) -> ResponseView {
        let sized = self.with_header("content-length"@, decimal(length));
        match encoding {
            Some(name) => sized.with_header("content-encoding"@, name),
            None => sized,
        }
    }
}

/// One header as a line of the head: its name, a colon and a space, its
/// value.
pub open spec fn header_line(pair: (Seq<char>, Seq<char>)) -> Seq<char> {
    pair.0 + ": "@ + pair.1
}

/// The headers as lines, with a line break between one and the next.
pub open spec fn header_lines(pairs: Seq<(Seq<char>, Seq<char>)>) -> Seq<char>
    decreases pairs.len(),
{
    if pairs.len() == 0 {
        Seq::empty()
    } else if pairs.len() == 1 {
        header_line(pairs[0])
    } else {
        header_lines(pairs.drop_last()) + "\r\n"@ + header_line(pairs.last())
    }
}

/// One cookie as a line of the head. A cookie without a value is sent as
/// long expired, which has the client remove it.
pub open spec fn cookie_line(pair: (Seq<char>, Seq<char>)) -> Seq<char> {
    "Set-Cookie: "@ + pair.0 + "="@ + (if pair.1.len() == 0 {
        "; Expires=Thu, 01 Jan 1970 00:00:00 GMT"@
    } else {
        pair.1
    }) + "\r\n"@
}

/// The cookies as lines.
pub open spec fn cookie_lines(pairs: Seq<(Seq<char>, Seq<char>)>) -> Seq<char>
    decreases pairs.len(),
{
    if pairs.len() == 0 {
        Seq::empty()
    } else {
        cookie_lines(pairs.drop_last()) + cookie_line(pairs.last())
    }
}

/// Whether a text ends in a carriage return and a line feed.
pub open spec fn ends_with_break(text: Seq<char>) -> bool {
    text.len() >= 2 && text[text.len() - 2] == '\r' && text[text.len() - 1] == '\n'
}

/// The first lines of the head: the status, the server with its version,
/// the date, and that the connection is closed after the response.
pub open spec fn status_lines(code: usize, version: Seq<char>, date: Seq<char>) -> Seq<char> {
    "HTTP/1.1 "@ + decimal(code as nat) + " OK\r\nServer: ~ vial "@ + version + " ~\r\nDate: "@
        + date + "\r\nConnection: close\r\n"@
}

/// The head of a response as it is sent: the first lines, the headers, the
/// cookies, and an empty line.
pub open spec fn head_text(v: ResponseView, version: Seq<char>, date: Seq<char>) -> Seq<char> {
    let start = status_lines(v.code, version, date) + header_lines(v.headers);
    let closed = if ends_with_break(start) {
        start
    } else {
        start + "\r\n"@
    };
    closed + cookie_lines(v.cookies) + "\r\n"@
}

/// What is sent for a response: the head as text, and the bytes of the
/// body.
pub struct Wire {
    /// The status line, the headers and the cookies, up to the empty line
    /// that ends them.
    pub head: String,
    /// The body, in the encoding that the head announces.
    pub body: Vec<u8>,
}

/// Whether a text ends in a carriage return and a line feed.
pub fn has_break_at_end(text: &str) -> (yes: bool)
    ensures
        yes == ends_with_break(text@),
{
    let n = text.unicode_len();
    n >= 2 && text.get_char(n - 2) == '\r' && text.get_char(n - 1) == '\n'
}

/// The response to a request. It starts out as an empty HTML page with the
/// status 200; the builders change one thing each.
#[derive(Debug)]
pub struct Response {
    code: usize,
    headers: StringMap,
    body: Body,
    cookies: StringMap,
}

impl View for Response {
    type V = ResponseView;

    closed spec fn view(&self) -> ResponseView {
        ResponseView {
            code: self.code,
            headers: self.headers.pairs(),
            body: match self.body {
                Body::Empty => None,
                Body::Text(text) => Some(text@),
            },
            cookies: self.cookies.pairs(),
        }
    }
}

impl Default for Response {
    fn default() -> (response: Response)
        ensures
            response@ == ResponseView::initial(),
    {
        let mut headers = StringMap::new();
        headers.insert(to_lowercase("Content-Type"), "text/html; charset=utf8".to_owned());
        headers.insert(to_lowercase("Content-Length"), "0".to_owned());
        Response { code: 200, headers, body: Body::Empty, cookies: StringMap::new() }
    }
}

impl Response {
    /// A new response: status 200, ready for HTML, empty.
    pub fn new() -> (response: Response)
        ensures
            response@ == ResponseView::initial(),
    {
        Response::default()
    }

    /// The status code.
    pub fn code(&self) -> (code: usize)
        ensures
            code == self@.code,
    {
        self.code
    }

    /// The content type that the headers give.
    pub fn content_type(&self) -> (value: &str)
        ensures
            value@ == self@.content_type(),
    {
        proof {
            reveal_strlit("");
            assert(""@ =~= Seq::<char>::empty());
        }
        match self.header("Content-Type") {
            Some(value) => value,
            None => "",
        }
    }

    /// The body as text; empty where there is no body.
    pub fn body(&self) -> (text: &str)
        ensures
            text@ == self@.body_text(),
    {
        proof {
            reveal_strlit("");
            assert(""@ =~= Seq::<char>::empty());
        }
        match &self.body {
            Body::Text(text) => text.as_str(),
            Body::Empty => "",
        }
    }

    /// All headers.
    pub fn headers(&self) -> (headers: &StringMap)
        ensures
            headers.pairs() == self@.headers,
    {
        &self.headers
    }

    /// The value of a header. The case of the name does not matter.
    pub fn header(&self, name: &str) -> (value: Option<&str>)
        ensures
            match self@.header(name@) {
                Some(text) => value matches Some(v) && v@ == text,
                None => value is None,
            },
    {
        let key = to_lowercase(name);
        self.headers.get(key.as_str())
    }

    /// Sets a header.
    pub fn set_header(&mut self, name: &str, value: &str)
        ensures
            final(self)@ == old(self)@.with_header(name@, value@),
    {
        self.headers.insert(to_lowercase(name), value.to_owned());
    }

    /// The value of a cookie that this response sets.
    pub fn cookie(&self, name: &str) -> (value: Option<&str>)
        ensures
            match pairs_get(self@.cookies, lowercased(name@)) {
                Some(text) => value matches Some(v) && v@ == text,
                None => value is None,
            },
    {
        let key = to_lowercase(name);
        self.cookies.get(key.as_str())
    }

    /// Sets a cookie.
    pub fn set_cookie(&mut self, name: &str, value: &str)
        ensures
            final(self)@ == old(self)@.with_cookie(name@, value@),
    {
        self.cookies.insert(to_lowercase(name), value.to_owned());
    }

    /// Has the client remove a cookie: the cookie is set to nothing.
    pub fn remove_cookie(&mut self, name: &str)
        ensures
            final(self)@ == old(self)@.with_cookie(name@, Seq::empty()),
    {
        self.cookies.insert(to_lowercase(name), String::new());
    }

    /// A response made from a string, which becomes its body, or from a
    /// number, which becomes its status.
    pub fn from<T>(from: T) -> (response: Response) where Response: From<T>
        ensures
            call_ensures(<Response as From<T>>::from, (from,), response),
    {
        <Response as From<T>>::from(from)
    }

    /// A response that reports an error, of which `debug` is the
    /// description.
    pub fn from_error(debug: &str) -> (response: Response)
        ensures
            response@ == ResponseView::initial().with_error(debug@),
    {
        Response::default().with_error(debug)
    }

    /// A new response with one header set.
    pub fn from_header(name: &str, value: &str) -> (response: Response)
        ensures
            response@ == ResponseView::initial().with_header(name@, value@),
    {
        Response::default().with_header(name, value)
    }

    /// A new response with one cookie set.
    pub fn from_cookie(name: &str, value: &str) -> (response: Response)
        ensures
            response@ == ResponseView::initial().with_cookie(name@, value@),
    {
        Response::default().with_cookie(name, value)
    }

    /// A new response with the given body.
    pub fn from_body(body: &str) -> (response: Response)
        ensures
            response@ == ResponseView::initial().with_body(body@),
    {
        Response::default().with_body(body)
    }

    /// A new response with the given body, as plain text.
    pub fn from_text(text: &str) -> (response: Response)
        ensures
            response@ == ResponseView::initial().with_text(text@),
    {
        Response::default().with_text(text)
    }

    /// A new response with the given status.
    pub fn from_code(code: usize) -> (response: Response)
        ensures
            response@ == ResponseView::initial().with_code(code),
    {
        Response::default().with_code(code)
    }

    /// This response with the given status.
    pub fn with_code(self, code: usize) -> (response: Response)
        ensures
            response@ == self@.with_code(code),
    {
        let mut response = self;
        response.code = code;
        if code == 404 {
            response.with_body("404 Not Found")
        } else if code == 500 {
            response.with_body("500 Internal Server Error")
        } else {
            response
        }
    }

    /// This response with the given body. The length of the body is
    /// announced in the `Content-Length` header.
    pub fn with_body(self, body: &str) -> (response: Response)
        ensures
            response@ == self@.with_body(body@),
    {
        let mut response = self;
        response.body = Body::Text(body.to_owned());
        let length = decimal_string(body.as_bytes().len());
        response.set_header("Content-Length", length.as_str());
        response
    }

    /// This response with the given body, as plain text.
    pub fn with_text(self, text: &str) -> (response: Response)
        ensures
            response@ == self@.with_text(text@),
    {
        self.with_body(text).with_header("Content-Type", "text/plain; charset=utf8")
    }

    /// This response as the report of an error, of which `debug` is the
    /// description: the status is 500 and the body shows the description.
    pub fn with_error(self, debug: &str) -> (response: Response)
        ensures
            response@ == self@.with_error(debug@),
    {
        let mut body = "<h1>500 Internal Error</h1><pre>".to_owned();
        body.append(debug);
        self.with_code(500).with_body(body.as_str())
    }

    /// This response with a header set.
    pub fn with_header(self, key: &str, value: &str) -> (response: Response)
        ensures
            response@ == self@.with_header(key@, value@),
    {
        let mut response = self;
        response.set_header(key, value);
        response
    }

    /// This response with a cookie set.
    pub fn with_cookie(self, key: &str, value: &str) -> (response: Response)
        ensures
            response@ == self@.with_cookie(key@, value@),
    {
        let mut response = self;
        response.set_cookie(key, value);
        response
    }

    /// This response with the instruction to remove a cookie.
    pub fn without_cookie(self, key: &str) -> (response: Response)
        ensures
            response@ == self@.with_cookie(key@, Seq::empty()),
    {
        let mut response = self;
        response.remove_cookie(key);
        response
    }

    /// The length of the body in bytes.
    pub fn len(&self) -> (length: usize)
        ensures
            length == self@.len(),
    {
        match &self.body {
            Body::Text(text) => text.as_str().as_bytes().len(),
            Body::Empty => {
                assert(encode_utf8(Seq::<char>::empty()) =~= Seq::<u8>::empty());
                0
            },
        }
    }

    /// Whether the body is empty.
    pub fn is_empty(&self) -> (empty: bool)
        ensures
            empty == (self@.len() == 0),
    {
        self.len() == 0
    }

    /// A redirect to the given address, with the status 302.
    pub fn redirect_to(url: &str) -> (response: Response)
        ensures
            response@ == ResponseView::initial().with_code(302).with_header("location"@, url@),
    {
        Response::from_code(302).with_header("location", url)
    }

    /// The head for this response with the given bytes as its body, which
    /// are in the given encoding. `version` is the version of the server
    /// and `date` the date of the response.
    pub fn assemble(self, version: &str, date: &str, encoding: Option<&str>, body: Vec<u8>) -> (wire:
        Wire)
        ensures
            wire.body@ == body@,
            wire.head@ == head_text(
                self@.sent(
                    match encoding {
                        Some(name) => Some(name@),
                        None => None,
                    },
                    body@.len(),
                ),
                version@,
                date@,
            ),
    {
        let mut response = self;
        let length = decimal_string(body.len());
        response.set_header("content-length", length.as_str());
        match encoding {
            Some(name) => {
                response.set_header("content-encoding", name);
            },
            None => {},
        }
        let mut head = "HTTP/1.1 ".to_owned();
        head.append(decimal_string(response.code).as_str());
        head.append(" OK\r\nServer: ~ vial ");
        head.append(version);
        head.append(" ~\r\nDate: ");
        head.append(date);
        head.append("\r\nConnection: close\r\n");
        let ghost first = head@;
        let count = response.headers.len();
        let mut i: usize = 0;
        assert(response@.headers.take(0) =~= Seq::empty());
        while i < count
            invariant
                i <= count,
                count == response@.headers.len(),
                response@.headers == response.headers.pairs(),
                head@ == first + header_lines(response@.headers.take(i as int)),
            decreases count - i,
        {
            let (name, value) = response.headers.entry(i);
            proof {
                let longer = response@.headers.take(i + 1);
                assert(longer.drop_last() =~= response@.headers.take(i as int));
                assert(longer.last() == (name@, value@));
            }
            let ghost before = head@;
            if i > 0 {
                head.append("\r\n");
            }
            head.append(name);
            head.append(": ");
            head.append(value);
            proof {
                let lines = header_lines(response@.headers.take(i as int));
                if i > 0 {
                    assert(head@ =~= first + (lines + "\r\n"@ + header_line((name@, value@))));
                } else {
                    assert(lines =~= Seq::<char>::empty());
                    assert(head@ =~= first + header_line((name@, value@)));
                }
            }
            i += 1;
        }
        assert(response@.headers.take(i as int) =~= response@.headers);
        if !has_break_at_end(head.as_str()) {
            head.append("\r\n");
        }
        let ghost closed = head@;
        let cookies = response.cookies.len();
        let mut k: usize = 0;
        assert(response@.cookies.take(0) =~= Seq::empty());
        while k < cookies
            invariant
                k <= cookies,
                cookies == response@.cookies.len(),
                response@.cookies == response.cookies.pairs(),
                head@ == closed + cookie_lines(response@.cookies.take(k as int)),
            decreases cookies - k,
        {
            let (name, value) = response.cookies.entry(k);
            proof {
                let longer = response@.cookies.take(k + 1);
                assert(longer.drop_last() =~= response@.cookies.take(k as int));
                assert(longer.last() == (name@, value@));
            }
            let ghost before = head@;
            head.append("Set-Cookie: ");
            head.append(name);
            head.append("=");
            if value.unicode_len() == 0 {
                head.append("; Expires=Thu, 01 Jan 1970 00:00:00 GMT");
            } else {
                head.append(value);
            }
            head.append("\r\n");
            proof {
                assert(head@ =~= before + cookie_line((name@, value@)));
                assert(head@ =~= closed + (cookie_lines(response@.cookies.take(k as int))
                    + cookie_line((name@, value@))));
            }
            k += 1;
        }
        assert(response@.cookies.take(k as int) =~= response@.cookies);
        head.append("\r\n");
        Wire { head, body }
    }

    /// What is sent for this response: its head and its body, in the given
    /// encoding if there is one. Where the encoder fails there is an error.
    pub fn render(self, version: &str, date: &str, compression: &Option<Compression>) -> (result:
        Result<Wire, Error>)
        ensures
            ({
                let kind = match *compression {
                    Some(kind) => kind,
                    None => Compression::Identity,
                };
                match kind.packed(encode_utf8(self@.body_text())) {
                    Some(Some(bytes)) => result matches Ok(wire) && wire.body@ == bytes
                        && wire.head@ == head_text(
                        self@.sent(kind.token(), bytes.len()),
                        version@,
                        date@,
                    ),
                    Some(None) => result matches Err(e) && e is Other,
                    None => match result {
                        Ok(wire) => wire.head@ == head_text(
                            self@.sent(kind.token(), wire.body@.len()),
                            version@,
                            date@,
                        ),
                        Err(e) => e is Other,
                    },
                }
            }),
    {
        let kind = match compression {
            Some(kind) => *kind,
            None => Compression::Identity,
        };
        match kind.compress(self.body().as_bytes()) {
            Some(body) => Ok(self.assemble(version, date, kind.name(), body)),
            None => Err(Error::Other("Failed to compress the body".to_owned())),
        }
    }

    /// This response with its body, which is read as Markdown, turned into
    /// HTML.
    pub fn as_markdown(self) -> (response: Response)
        ensures
            response@ == (ResponseView {
                body: Some(markdown_rendered(self@.body_text())),
                ..self@
            }),
    {
        let page = markdown_html(self.body());
        let mut response = self;
        response.body = Body::Text(page);
        response
    }

    /// This response with the headers of a file that is sent as its body:
    /// the tag of the file, its content type, which goes by the extension
    /// of its path, and its size in bytes.
    pub fn with_file_headers(self, path: &str, etag: &str, size: usize) -> (response: Response)
        ensures
            response@ == self@.with_header("ETag"@, etag@).with_header(
                "Content-Type"@,
                content_type_of(ascii_lower_seq(extension(path.spec_bytes()))),
            ).with_header("Content-Length"@, decimal(size as nat)),
    {
        let length = decimal_string(size);
        self.with_header("ETag", etag).with_header("Content-Type", content_type(path)).with_header(
            "Content-Length",
            length.as_str(),
        )
    }

    /// The body as a string.
    pub fn to_string(&self) -> (text: String)
        ensures
            text@ == self@.body_text(),
    {
        self.body().to_owned()
    }
}

impl PartialEq for Response {
    /// Two responses are equal when they have the same status, the same
    /// headers and the same body text.
    fn eq(&self, other: &Self) -> (same: bool) {
        self.code == other.code && self.headers.same_as(&other.headers) && str_eq(
            self.body(),
            other.body(),
        )
    }
}

impl PartialEqSpecImpl for Response {
    open spec fn obeys_eq_spec() -> bool {
        true
    }

    open spec fn eq_spec(&self, other: &Self) -> bool {
        self@.code == other@.code && pairs_map(self@.headers) == pairs_map(other@.headers)
            && self@.body_text() == other@.body_text()
    }
}

impl From<&str> for Response {
    /// A response with the given body.
    fn from(s: &str) -> (response: Response)
        ensures
            response@ == ResponseView::initial().with_body(s@),
    {
        Response::from_body(s)
    }
}

impl FromSpecImpl<&str> for Response {
    open spec fn obeys_from_spec() -> bool {
        false
    }

    open spec fn from_spec(s: &str) -> Response {
        arbitrary()
    }
}

impl From<&String> for Response {
    /// A response with the given body.
    fn from(s: &String) -> (response: Response)
        ensures
            response@ == ResponseView::initial().with_body(s@),
    {
        Response::from_body(s.as_str())
    }
}

impl FromSpecImpl<&String> for Response {
    open spec fn obeys_from_spec() -> bool {
        false
    }

    open spec fn from_spec(s: &String) -> Response {
        arbitrary()
    }
}

impl From<String> for Response {
    /// A response with the given body.
    fn from(body: String) -> (response: Response)
        ensures
            response@ == ResponseView::initial().with_body(body@),
    {
        Response::from_body(body.as_str())
    }
}

impl FromSpecImpl<String> for Response {
    open spec fn obeys_from_spec() -> bool {
        false
    }

    open spec fn from_spec(body: String) -> Response {
        arbitrary()
    }
}

impl From<usize> for Response {
    /// A response with the given status.
    fn from(code: usize) -> (response: Response)
        ensures
            response@ == ResponseView::initial().with_code(code),
    {
        Response::from_code(code)
    }
}

impl FromSpecImpl<usize> for Response {
    open spec fn obeys_from_spec() -> bool {
        false
    }

    open spec fn from_spec(code: usize) -> Response {
        arbitrary()
    }
}

} // verus!