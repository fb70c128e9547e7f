#![allow(non_snake_case)]

use vial::http_parser::{parse, Status};
use vial::{Error, Request};

fn parse_fixture(text: &str) -> Request {
    match parse(text.as_bytes().to_vec()).unwrap() {
        Status::Complete(request) => request,
        _ => panic!("Expected Status::Complete"),
    }
}

fn parse_error(bytes: &[u8]) -> Error {
    match parse(bytes.to_vec()) {
        Err(e) => e,
        Ok(_) => panic!("Expected an error"),
    }
}

fn is_partial(bytes: &[u8]) -> bool {
    match parse(bytes.to_vec()) {
        Ok(Status::Partial(rest)) => rest == bytes,
        _ => false,
    }
}

const SIMPLE_GET: &str = "GET / HTTP/1.1\r\nHost: www.codecademy.com\r\n\r\n";

const ANOTHER_GET: &str = "GET /docs/index.html?v=22 HTTP/1.1\r\nHost: www.nowhere123.com\r\nAccept: image/gif, image/jpeg, */*\r\nAccept-Language: en-us\r\nAccept-Encoding: gzip, deflate\r\nUser-Agent: Mozilla/4.0 (compatible; MSIE 6.0; Windows NT 5.1)\r\n\r\n";

const STACKED_GET: &str = "GET /index.html HTTP/1.1\r\nHost: www.nowhere123.com\r\nAccept: image/gif\r\nAccept: image/jpeg\r\nACCEPT: */*\r\n\r\n";

const SIMPLE_POST: &str = "POST /cgi-bin/process.cgi HTTP/1.1\r\nUser-Agent: Mozilla/4.0 (compatible; MSIE5.01; Windows NT)\r\nHost: www.tutorialspoint.com\r\nContent-Type: application/x-www-form-urlencoded\r\nContent-Length: 63\r\nConnection: Keep-Alive\r\n\r\nlicenseID=1234&content=hi+there&paramsXML=%3Cabc%3E%3C%2Fabc%3E";

const ONEMORE: &str = "gWbWykBHgObDHriErqIKRBqebBekBpHsqUJqQcDtDctkaeeFBwNelgvzigaEkUPKAfcnYGhgbzDOvGumdewDzCqOantKfsvaZuggZaTjqtUzOXHVYwsSjknsMTPyWzvzGrNdRExaSIjiehYvuSAMdOMpwakKlKxCPwYAyAlpqXpoiargAZnAVIRfUJVpBnotmQRsDtAZoFfSXyRvqGQluzWWVTOCItNSCqBPUfFQGoxoSewvuSStgDtCYfCnFCFNczEwGkLiPidmrpbQDPuIvopUbxvojuUrBfgjoTwslrnDIJGAWIMoMkOQzYdzxVaCDfSQlmHwkpdkxByhuWXmuLgAzgJvIuhAMMlXaHIMcGmymGCxsgUjUkzKwrzafCsfkSivOXIzNSmTGhdgBufQTqdlRbuDBZijZCOXmpwhKFzlaSleXzgMaEpDiEjxzPUwIOwhomPDVSzaTqEZCpivNWyfunffMNUaLdkxLudYEpSgwTOGUipJjvXbocrKbfFG";

#[test]
fn parses_simple_GET() {
    let request = parse_fixture(SIMPLE_GET);
    assert_eq!("/", request.path());
    assert_eq!("GET", request.method());
    assert_eq!("www.codecademy.com", request.header("Host").unwrap());
}

#[test]
fn parses_another_GET() {
    let request = parse_fixture(ANOTHER_GET);
    assert_eq!("/docs/index.html", request.path());
    assert_eq!("GET", request.method());
    assert_eq!("www.nowhere123.com", request.header("Host").unwrap());
    assert_eq!("en-us", request.header("Accept-Language").unwrap());
    assert_eq!(
        "Mozilla/4.0 (compatible; MSIE 6.0; Windows NT 5.1)",
        request.header("User-Agent").unwrap()
    );
    assert_eq!(
        "image/gif, image/jpeg, */*",
        request.header("Accept").unwrap()
    );
}

#[test]
fn parses_big_GET() {
    let text = format!(
        "GET /big HTTP/1.1\r\nX-SOME-HEADER: {}\r\nX-SOMEOTHER-HEADER: {}\r\nX-ONEMORE-HEADER: {}\r\n\r\n",
        ONEMORE, ONEMORE, ONEMORE
    );
    let request = parse_fixture(&text);
    assert_eq!("/big", request.path());
    assert_eq!("GET", request.method());
    assert!(request.header("X-SOME-HEADER").is_some());
    assert!(request.header("X-SOMEOTHER-HEADER").is_some());
    assert_eq!(request.header("X-ONEMORE-HEADER").unwrap(), ONEMORE);
}

#[test]
fn parses_stacked_headers_GET() {
    let request = parse_fixture(STACKED_GET);
    assert_eq!("/index.html", request.path());
    assert_eq!("GET", request.method());
    assert_eq!("www.nowhere123.com", request.header("Host").unwrap());
    assert_eq!(
        "image/gif, image/jpeg, */*",
        request.header("Accept").unwrap()
    );
}

#[test]
fn parses_post_with_form() {
    let mut request = parse_fixture(SIMPLE_POST);
    request.parse_form();
    assert_eq!("/cgi-bin/process.cgi", request.path());
    assert_eq!("POST", request.method());
    assert_eq!(Some("hi there"), request.form("content"));
    assert_eq!(Some("1234"), request.form("licenseID"));
    assert_eq!(Some("<abc></abc>"), request.form("paramsXML"));
    assert_eq!(None, request.form("something"));
    assert!(request.has_form("content"));
    assert_eq!(
        "licenseID=1234&content=hi+there&paramsXML=%3Cabc%3E%3C%2Fabc%3E",
        request.body()
    );
}

#[test]
fn test_request_partial() {
    match parse(b"GET / HTTP/1.1\r\n\r".to_vec()) {
        Ok(Status::Partial(_)) => {}
        _ => panic!(),
    }
}

#[test]
fn test_request_partial_version() {
    match parse(b"GET / HTTP/1.".to_vec()) {
        Ok(Status::Partial(_)) => {}
        _ => panic!(),
    }
}

#[test]
fn urltest_001() {
    let req = parse_fixture("GET /bar;par?b HTTP/1.1\r\nHost: foo\r\n\r\n");
    assert_eq!(req.method(), "GET");
    assert_eq!(req.full_path(), "/bar;par?b");
    assert_eq!(req.path(), "/bar;par");
    assert_eq!(req.header("Host").unwrap(), "foo");
}

#[test]
fn request_without_headers() {
    let req = parse_fixture("GET /\\?wayne\\=5 HTTP/1.1\n\n");
    assert_eq!(req.method(), "GET");
    assert_eq!(req.full_path(), "/\\?wayne\\=5");
    assert_eq!(req.headers().len(), 0);
    assert_eq!(req.body(), "");
}

#[test]
fn every_method_is_known() {
    for method in [
        "GET", "HEAD", "POST", "PUT", "DELETE", "PATCH", "CONNECT", "OPTIONS", "TRACE",
    ] {
        let text = format!("{} /x HTTP/1.1\r\n\r\n", method);
        let req = parse_fixture(&text);
        assert_eq!(req.method(), method);
        assert_eq!(req.path(), "/x");
    }
}

#[test]
fn spans_are_offsets_into_the_buffer() {
    let req = parse_fixture("POST /a?b HTTP/1.1\r\nK: v\r\nContent-Length: 3\r\n\r\nxyz");
    let headers = req.headers();
    assert_eq!(headers.len(), 2);
    assert_eq!(headers[0].0, vial::Span(20, 21));
    assert_eq!(headers[0].1, vial::Span(23, 24));
    assert_eq!(headers[1].0, vial::Span(26, 40));
    assert_eq!(headers[1].1, vial::Span(42, 43));
    assert_eq!(req.body(), "xyz");
    assert_eq!(req.full_path(), "/a?b");
}

#[test]
fn body_follows_content_length() {
    let req = parse_fixture("POST / HTTP/1.1\r\ncontent-LENGTH: 5\r\n\r\nhello and more");
    assert_eq!(req.body(), "hello");
    assert!(is_partial(b"POST / HTTP/1.1\r\nContent-Length: 5\r\n\r\nhell"));
    let req = parse_fixture("POST / HTTP/1.1\r\nContent-Length: +2\r\n\r\nhello");
    assert_eq!(req.body(), "he");
}

#[test]
fn malformed_content_length_counts_as_zero() {
    for value in ["abc", "", "12 ", "-1", "1.5", "99999999999999999999999999999"] {
        let text = format!("POST / HTTP/1.1\r\nContent-Length: {}\r\n\r\nhello", value);
        let req = parse_fixture(&text);
        assert_eq!(req.body(), "");
    }
}

#[test]
fn last_content_length_wins() {
    let req =
        parse_fixture("POST / HTTP/1.1\r\nContent-Length: 1\r\nContent-Length: 3\r\n\r\nhello");
    assert_eq!(req.body(), "hel");
}

#[test]
fn unknown_method_is_refused() {
    assert_eq!(
        parse_error(b"BREW /pot HTTP/1.1\r\n\r\n"),
        Error::UnknownHTTPMethod("?".to_string())
    );
    assert_eq!(
        parse_error(b"HEAP / HTTP/1.1\r\n\r\n"),
        Error::UnknownHTTPMethod("?".to_string())
    );
    assert_eq!(
        parse_error(b"get / HTTP/1.1\r\n\r\n"),
        Error::UnknownHTTPMethod("?".to_string())
    );
}

#[test]
fn missing_space_after_method_is_refused() {
    assert_eq!(parse_error(b"GET\n/ HTTP/1.1\r\nHost: foo.bar\r\n\r\n"), Error::ParseError);
    assert_eq!(parse_error(b"GETX / HTTP/1.1\r\n\r\n"), Error::ParseError);
}

#[test]
fn empty_path_is_refused() {
    assert_eq!(parse_error(b"GET  HTTP/1.1\r\n\r\n"), Error::ParsePath);
}

#[test]
fn wrong_version_is_refused() {
    assert_eq!(parse_error(b"GET / HTTP/1.0\r\n\r\n"), Error::ParseVersion);
    assert_eq!(parse_error(b"GET / HTTP/1!xx"), Error::ParseVersion);
}

#[test]
fn missing_line_break_is_refused() {
    assert_eq!(parse_error(b"GET / HTTP/1.1 \r\n\r\n"), Error::ExpectedCRLF);
    assert_eq!(parse_error(b"GET / HTTP/1.1\rX"), Error::ExpectedCRLF);
    assert_eq!(parse_error(b"GET / HTTP/1.1\r\nA: b\rX"), Error::ExpectedCRLF);
}

#[test]
fn rejects_malformed_headers() {
    assert_eq!(
        parse_error(b"GET / HTTP/1.1\r\nBad Header: x\r\n\r\n"),
        Error::ParseHeaderName
    );
    assert_eq!(
        parse_error(b"GET / HTTP/1.1\r\nNoColon\r\n\r\n"),
        Error::ParseHeaderName
    );
    assert_eq!(
        parse_error(b"POST / HTTP/1.1\r\nTab\tName: x\r\n\r\n"),
        Error::ParseHeaderName
    );
}

#[test]
fn rejects_large_headers() {
    let mut text = String::from("GET / HTTP/1.1\r\n");
    while text.len() < 9000 {
        text.push_str("X-Filler: aaaaaaaaaaaaaaaaaaaaaaaaaaaaaaaaaaaaaaaaaaaaaaaaaaaaaaaa\r\n");
    }
    assert_eq!(parse_error(text.as_bytes()), Error::ParseHeaderValue);
    text.push_str("\r\n");
    assert_eq!(parse_error(text.as_bytes()), Error::ParseHeaderValue);
}

#[test]
fn header_ceiling_is_exact() {
    let start = "GET / HTTP/1.1\r\n";
    let mut block = String::from("A: ");
    while block.len() < 8192 - 4 {
        block.push('a');
    }
    block.push_str("\r\n\r\n");
    assert_eq!(block.len(), 8192);
    let text = format!("{}{}", start, block);
    let req = parse_fixture(&text);
    assert_eq!(req.headers().len(), 1);
    let longer = format!("{}a{}", start, block);
    assert_eq!(parse_error(longer.as_bytes()), Error::ParseHeaderValue);
    assert!(is_partial(&longer.as_bytes()[..longer.len() - 1]));
    assert!(is_partial(&text.as_bytes()[..text.len() - 1]));
}

#[test]
fn rejects_expected_but_no_body() {
    assert!(is_partial(b"POST / HTTP/1.1\r\nContent-Length: 10\r\n\r\n"));
}

#[test]
fn parsing_twice_gives_the_same() {
    let first = parse_fixture(ANOTHER_GET);
    let second = parse_fixture(ANOTHER_GET);
    assert_eq!(first.method(), second.method());
    assert_eq!(first.path(), second.path());
    assert_eq!(first.full_path(), second.full_path());
    assert_eq!(first.body(), second.body());
    assert_eq!(first.headers(), second.headers());
    assert_eq!(parse_error(b"GET / HTTP/2.0\r\n\r\n"), parse_error(b"GET / HTTP/2.0\r\n\r\n"));
}

#[test]
fn every_prefix_of_a_request_is_partial() {
    for text in [SIMPLE_GET, ANOTHER_GET, STACKED_GET, SIMPLE_POST, "GET / HTTP/1.1\n\n"] {
        let whole = parse_fixture(text);
        for cut in 0..text.len() {
            let first = &text.as_bytes()[..cut];
            let mut buffer = match parse(first.to_vec()) {
                Ok(Status::Partial(rest)) => rest,
                _ => panic!("expected Partial at {}", cut),
            };
            assert_eq!(buffer, first);
            buffer.extend_from_slice(&text.as_bytes()[cut..]);
            let joined = match parse(buffer) {
                Ok(Status::Complete(request)) => request,
                _ => panic!("expected Complete"),
            };
            assert_eq!(joined.method(), whole.method());
            assert_eq!(joined.full_path(), whole.full_path());
            assert_eq!(joined.headers(), whole.headers());
            assert_eq!(joined.body(), whole.body());
        }
    }
}

#[test]
fn a_refusal_stays_a_refusal() {
    let refused: [&[u8]; 4] = [
        b"BREW",
        b"GET / HTTP/9.9",
        b"GET / HTTP/1.1\r\nBad Name",
        b"GET  ",
    ];
    for bytes in refused {
        let first = parse_error(bytes);
        let mut longer = bytes.to_vec();
        longer.extend_from_slice(b" and more\r\n\r\n");
        assert_eq!(parse_error(&longer), first);
    }
}
