use vial::{Error, Responder, Response};

#[test]
fn from_response() {
    let res = Response::from_text("hi there").to_response();
    assert_eq!("hi there", res.body());
    assert_eq!(200, res.code());
    assert_eq!("text/plain; charset=utf8", res.content_type());
}

#[test]
fn from_string() {
    let res = "<h1>Welcome</h1>".to_string().to_response();
    assert_eq!("<h1>Welcome</h1>", res.body());
    assert_eq!(200, res.code());
    assert_eq!("text/html; charset=utf8", res.content_type());
}

#[test]
fn from_str() {
    let res = "<h1>Welcome</h1>".to_response();
    assert_eq!("<h1>Welcome</h1>", res.body());
    assert_eq!(200, res.code());
    assert_eq!("text/html; charset=utf8", res.content_type());
}

#[test]
fn from_usize() {
    let res = 422.to_response();
    assert_eq!("", res.body());
    assert_eq!(422, res.code());
    assert_eq!("text/html; charset=utf8", res.content_type());
}

#[test]
fn from_result() {
    let ok: Result<&str, vial::Error> = Ok("<b>heya</b>");
    let res = ok.to_response();
    assert_eq!("<b>heya</b>", res.body());
    assert_eq!(200, res.code());
    assert_eq!("text/html; charset=utf8", res.content_type());

    let err: Result<&str, vial::Error> = Err(Error::ParseError);
    let res = err.to_response();
    assert_eq!("<h1>500 Internal Error</h1><pre>ParseError", res.body());
    assert_eq!(500, res.code());
    assert_eq!("text/html; charset=utf8", res.content_type());
}

#[test]
fn from_option() {
    let some = Some("<h1>Welcome</h1>");
    let res = some.to_response();
    assert_eq!("<h1>Welcome</h1>", res.body());
    assert_eq!(200, res.code());
    assert_eq!("text/html; charset=utf8", res.content_type());

    let none: Option<&str> = None;
    let res = none.to_response();
    assert_eq!("404 Not Found", res.body());
    assert_eq!(404, res.code());
}

#[test]
fn from_unit_and_error() {
    let res = ().to_response();
    assert_eq!(res, Response::new());

    let res = Error::Other("a \"b\"".to_string()).to_response();
    assert_eq!(500, res.code());
    assert_eq!("<h1>500 Internal Error</h1><pre>Other(\"a \\\"b\\\"\")", res.body());
    assert_eq!(
        format!("{:?}", Error::AssetNotFound("x.png".to_string())),
        Error::AssetNotFound("x.png".to_string()).debug_string()
    );
    assert_eq!(format!("{:?}", Error::ExpectedCRLF), Error::ExpectedCRLF.debug_string());
}

#[test]
fn error_messages() {
    assert_eq!(Error::ConnectionClosed.to_string(), "Connection Closed By Client");
    assert_eq!(Error::ParseVersion.to_string(), "Error Parsing HTTP Version");
    assert_eq!(Error::ExpectedCRLF.to_string(), "Expected CRLF in HTTP Request");
    assert_eq!(Error::ParseHeaderName.to_string(), "Error Parsing HTTP Header name");
    assert_eq!(Error::ParseHeaderValue.to_string(), "Error Parsing HTTP Header value");
    assert_eq!(Error::ParseError.to_string(), "Error Parsing HTTP Request");
    assert_eq!(Error::AssetNotFound("a".to_string()).to_string(), "Can't Find Asset");
    assert_eq!(Error::Other("why".to_string()).to_string(), "why");
    assert_eq!(Error::UnknownHTTPMethod("BREW".to_string()).to_string(), "BREW");
    assert_ne!(Error::Other("a".to_string()), Error::Other("b".to_string()));
    assert_ne!(Error::Other("a".to_string()), Error::AssetNotFound("a".to_string()));
    let io = std::io::Error::new(std::io::ErrorKind::Other, "x");
    let io2 = std::io::Error::new(std::io::ErrorKind::Other, "x");
    assert_ne!(Error::IO(io), Error::IO(io2));
}

#[test]
fn io_errors_become_errors() {
    let io = std::io::Error::new(std::io::ErrorKind::NotFound, "gone");
    let e = Error::from(io);
    assert!(matches!(e, Error::IO(_)));
    assert_eq!(e.to_string(), "io::Error While Parsing HTTP Request");
    assert_eq!(e.debug_string(), "IO(..)");
    assert_eq!(Error::SessionDecode.to_string(), "Error Decoding Session Value");
    assert_eq!(Error::ParsePath.to_string(), "Error Parsing HTTP Path");
}
