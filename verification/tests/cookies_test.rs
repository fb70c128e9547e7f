use vial::http_parser::{parse, receive, Status};
use vial::request::parse_cookies;
use vial::{Error, Request};

fn finished(text: &str) -> Request {
    match parse(text.as_bytes().to_vec()) {
        Ok(Status::Complete(request)) => request.finish().unwrap(),
        _ => panic!("expected a whole request"),
    }
}

#[test]
fn assign_only_once() {
    let request = finished("GET / HTTP/1.1\r\nCookie: foo=%1; bar=bar; foo=again\r\n\r\n");
    assert_eq!("%1", request.cookie("foo").unwrap());
    assert_eq!("bar", request.cookie("bar").unwrap());
}

#[test]
fn basic() {
    let request = finished("GET / HTTP/1.1\r\nCookie: foo=bar\r\n\r\n");
    assert_eq!("bar", request.cookie("foo").unwrap());
}

#[test]
fn escaping() {
    let request =
        finished("GET / HTTP/1.1\r\nCookie: foo=bar%3D123456789%26name%3DMagic%2BMouse\r\n\r\n");
    assert_eq!(
        "bar=123456789&name=Magic+Mouse",
        request.cookie("foo").unwrap()
    );
}

#[test]
fn unencoded_2() {
    let request = finished("GET / HTTP/1.1\r\nCookie: email=%2520%2522%252c%253b%252f\r\n\r\n");
    assert_eq!("%20%22%2c%3b%2f", request.cookie("email").unwrap());
}

#[test]
fn cookie_headers_are_cut_after_semicolon_and_space() {
    assert_eq!(
        parse_cookies("a=1; b=2;c=3; d = 4 "),
        Ok(vec![
            ("a".to_string(), "1".to_string()),
            ("b".to_string(), "2".to_string()),
            ("d".to_string(), "4".to_string()),
        ])
    );
    assert_eq!(parse_cookies(""), Ok(vec![]));
    assert_eq!(
        parse_cookies("a=1; novalue"),
        Err(Error::Other("the cookie is missing a name/value pair".to_string()))
    );
    assert_eq!(
        parse_cookies("=x; a=1"),
        Err(Error::Other("the cookie's name is empty".to_string()))
    );
}

#[test]
fn requests_without_cookies_have_none() {
    let request = finished("GET / HTTP/1.1\r\nHost: a\r\n\r\n");
    assert_eq!(request.cookie("foo"), None);
    assert_eq!(request.form(""), None);
}

#[test]
fn finish_reads_the_form_of_a_request_with_a_length() {
    let request =
        finished("POST / HTTP/1.1\r\nContent-Length: 17\r\nCookie: s=1\r\n\r\nname=Bobert&age=5");
    assert_eq!(Some("Bobert"), request.form("name"));
    assert_eq!(Some("5"), request.form("age"));
    assert_eq!(Some("1"), request.cookie("s"));
}

#[test]
fn receive_takes_a_request_chunk_by_chunk() {
    let text = b"POST /p HTTP/1.1\r\nContent-Length: 3\r\nCookie: a=b\r\n\r\nx=y";
    let mut buffer = Vec::new();
    let mut found = None;
    for chunk in text.chunks(7) {
        match receive(buffer, chunk) {
            Ok(Status::Partial(rest)) => buffer = rest,
            Ok(Status::Complete(request)) => {
                found = Some(request);
                buffer = Vec::new();
            }
            Err(e) => panic!("{:?}", e),
        }
    }
    let request = found.unwrap();
    assert_eq!(request.path(), "/p");
    assert_eq!(request.form("x"), Some("y"));
    assert_eq!(request.cookie("a"), Some("b"));

    match receive(b"GET / HT".to_vec(), b"") {
        Err(e) => assert_eq!(e, Error::ConnectionClosed),
        Ok(_) => panic!("expected an error"),
    }
    match receive(Vec::new(), b"GET / HTTP/1.1\r\nCookie: broken\r\n\r\n") {
        Err(e) => assert_eq!(
            e,
            Error::Other("the cookie is missing a name/value pair".to_string())
        ),
        Ok(_) => panic!("expected an error"),
    }
    match receive(Vec::new(), b"NOPE") {
        Err(e) => assert_eq!(e, Error::UnknownHTTPMethod("?".to_string())),
        Ok(_) => panic!("expected an error"),
    }
}
