use vial::http_parser::{parse, Status};
use vial::{Request, Span};

fn request(text: &str) -> Request {
    match parse(text.as_bytes().to_vec()) {
        Ok(Status::Complete(request)) => request,
        _ => panic!("expected a whole request"),
    }
}

#[test]
fn basic_req_methods() {
    let req = request("GET /docs/index.html?v=22 HTTP/1.1\r\nHost: www.nowhere123.com\r\nAccept: image/gif, image/jpeg, */*\r\nAccept-Language: en-us\r\nAccept-Encoding: gzip, deflate\r\nUser-Agent: Mozilla/4.0 (compatible; MSIE 6.0; Windows NT 5.1)\r\n\r\n");
    assert_eq!("GET", req.method());
    assert_eq!("/docs/index.html", req.path());
    assert_eq!("/docs/index.html?v=22", req.full_path());
    assert!(req.has_query("v"));
    assert!(!req.has_query("xxx"));
    assert_eq!(Some("22"), req.query("v"));
    assert_eq!("", req.body());
    assert_eq!("gzip, deflate", req.header("accept-encoding").unwrap());
    assert_eq!(
        "Mozilla/4.0 (compatible; MSIE 6.0; Windows NT 5.1)",
        req.header("User-Agent").unwrap()
    );
}

#[test]
fn span_from_buf() {
    let buf = b"hello \xff world";
    assert!(Span::new().is_empty());
    assert!(Span(3, 3).is_empty());
    assert!(!Span(0, 1).is_empty());
    assert_eq!(Span::new().from_buf(buf), "");
    assert_eq!(Span(4, 4).from_buf(buf), "");
    assert_eq!(Span(0, 5).from_buf(buf), "hello");
    assert_eq!(Span(8, 13).from_buf(buf), "world");
    assert_eq!(Span(0, 13).from_buf(buf), "?");
    assert_eq!(Span(6, 7).from_buf(buf), "?");
    assert_eq!(Span(8, 14).from_buf(buf), "?");
    assert_eq!(Span(5, 2).from_buf(buf), "?");
    assert_eq!(Span(20, 30).from_buf(buf), "?");
}

#[test]
fn headers_by_name() {
    let req = request("GET / HTTP/1.1\r\nAccept: a\r\nX-One:   padded \t \r\naccept: b\r\nEmpty:\r\nACCEPT: c\r\n\r\n");
    assert_eq!(req.header("accept").unwrap(), "a, b, c");
    assert_eq!(req.header("Accept").unwrap(), "a, b, c");
    assert_eq!(req.header("x-one").unwrap(), "padded");
    assert_eq!(req.header("empty").unwrap(), "");
    assert_eq!(req.header("missing"), None);
    assert_eq!(req.headers().len(), 5);
}

#[test]
fn query_fields() {
    let req = Request::from_path("/find?q=rust&lang=&q=again&flag&a=b=c");
    assert_eq!(req.path(), "/find");
    assert_eq!(req.full_path(), "/find?q=rust&lang=&q=again&flag&a=b=c");
    assert_eq!(req.query("q"), Some("rust"));
    assert_eq!(req.query("lang"), Some(""));
    assert_eq!(req.query("flag"), None);
    assert_eq!(req.query("a"), Some("b=c"));
    assert_eq!(req.query("la"), None);
    assert!(req.has_query("q"));
    assert!(!req.has_query("find"));
    let req = Request::from_path("/plain");
    assert_eq!(req.query("q"), None);
    let req = Request::from_path("/two?a=1?b=2");
    assert_eq!(req.path(), "/two");
    assert_eq!(req.query("a"), Some("1?b=2"));
}

#[test]
fn builders_append_to_the_buffer() {
    let mut req = Request::default();
    assert_eq!(req.path(), "");
    assert_eq!(req.method(), "");
    assert_eq!(req.body(), "");
    req.set_method("POST");
    req.set_path("/one");
    req.set_body("a=1&b=two+words&c&a=3");
    req.set_path("/two?x=y");
    assert_eq!(req.method(), "POST");
    assert_eq!(req.path(), "/two");
    assert_eq!(req.body(), "a=1&b=two+words&c&a=3");
    req.parse_form();
    assert_eq!(req.form("a"), Some("3"));
    assert_eq!(req.form("b"), Some("two words"));
    assert_eq!(req.form("c"), Some(""));
    assert_eq!(req.form("d"), None);
    req.set_form("d", "4");
    assert_eq!(req.form("d"), Some("4"));
    req.set_arg("name".to_string(), "value".to_string());
    req.set_arg("name".to_string(), "other".to_string());
    assert_eq!(req.arg("name"), Some("other"));
    assert_eq!(req.arg("nam"), None);

    let req = Request::from_path("/p").with_method("PUT").with_body("body");
    assert_eq!(req.method(), "PUT");
    assert_eq!(req.body(), "body");
    assert_eq!(req.path(), "/p");
}

#[test]
fn empty_body_is_a_form_with_one_empty_field() {
    let mut req = Request::from_path("/");
    req.parse_form();
    assert_eq!(req.form(""), Some(""));
    assert_eq!(req.form("a"), None);
}

#[test]
fn request_new_takes_any_spans() {
    let req = Request::new(
        Span(0, 3),
        Span(4, 9),
        vec![(Span(0, 3), Span(100, 200))],
        Span(9, 4),
        b"GET /path".to_vec(),
    );
    assert_eq!(req.method(), "GET");
    assert_eq!(req.path(), "/path");
    assert_eq!(req.body(), "?");
    assert_eq!(req.header("get").unwrap(), "?");
}
