use vial::Response;

#[test]
fn set_header() {
    let mut res = Response::new();
    res.set_header("Content-Type", "application/json");
    assert_eq!("application/json", res.header("Content-Type").unwrap());
    assert_eq!(None, res.header("Content-No-Type"));
    res.set_header("Content-Type", "text/plain; charset=utf8");
    assert_eq!(
        "text/plain; charset=utf8",
        res.header("Content-Type").unwrap()
    );
}

#[test]
fn from_header() {
    let v = "12345";
    let res1 = Response::from_header("X-Time", v);
    let res2 = Response::new().with_header("X-Time", v);

    assert_eq!(Some(v), res1.header("X-Time"));
    assert_eq!(res1.header("X-Time"), res2.header("X-Time"));
}

#[test]
fn from_body() {
    let res1 = Response::from_body("<h1>VialWeb</h1>");
    assert_eq!(200, res1.code());
    assert_eq!("text/html; charset=utf8", res1.content_type());

    let res2 = Response::new().with_body("<h1>VialWeb</h1>");
    assert_eq!(200, res2.code());
    assert_eq!(res1, res2);
}

#[test]
fn from_error() {
    let res1 = Response::from_error("NotFound");
    assert_eq!(500, res1.code());
    assert_eq!("text/html; charset=utf8", res1.content_type());
    assert_eq!("<h1>500 Internal Error</h1><pre>NotFound", res1.body());

    let res2 = Response::new().with_error("NotFound");
    assert_eq!(500, res2.code());
    assert_eq!(res1, res2);
}

#[test]
fn from_text() {
    let res1 = Response::from_text("VialWeb");
    assert_eq!(200, res1.code());
    assert_eq!("text/plain; charset=utf8", res1.content_type());

    let res2 = Response::new().with_text("VialWeb");
    assert_eq!(200, res2.code());
    assert_eq!("text/plain; charset=utf8", res2.content_type());
    assert_eq!(res1, res2);
}

#[test]
fn from_code() {
    let res = Response::from_code(404);
    assert_eq!(404, res.code());

    let res = Response::from_code(402);
    assert_eq!(402, res.code());

    let res = Response::from_code(200);
    assert_eq!(200, res.code());
    assert_eq!("0", res.header("Content-Length").unwrap());

    let res1 = Response::from_code(501);
    let res2 = Response::new().with_code(501);
    assert_eq!(res1, res2);
}

#[test]
fn body_len() {
    let res = Response::from(200);
    assert_eq!(200, res.code());
    assert!(res.is_empty());

    let res = Response::from(404);
    assert_eq!(404, res.code());
    assert!(!res.is_empty());
    assert_eq!(13, res.len());
    assert_eq!("13", res.header("content-length").unwrap());

    let res = Response::from_body("héllo wörld, this is more than nine bytes");
    assert_eq!(43, res.len());
    assert_eq!("43", res.header("Content-Length").unwrap());
}

#[test]
fn redirect_to() {
    let res = Response::redirect_to("/login");
    assert_eq!(302, res.code());
    assert_eq!("/login", res.header("Location").unwrap());
    assert_eq!("", res.body());

    let res = Response::redirect_to("https://google.com/");
    assert_eq!("https://google.com/", res.header("Location").unwrap());
    assert_eq!(302, res.code());
}

#[test]
fn write_response() {}

#[test]
fn from() {
    let res = Response::from("<h1>VialWeb</h1>".to_string());
    assert_eq!(200, res.code());
    assert_eq!("text/html; charset=utf8", res.content_type());
    assert_eq!("<h1>VialWeb</h1>", res.body());

    let res = Response::from("<h1>VialWeb</h1>");
    assert_eq!(200, res.code());
    assert_eq!("text/html; charset=utf8", res.content_type());
    assert_eq!("<h1>VialWeb</h1>", res.body());

    let res = Response::from(404);
    assert_eq!(404, res.code());
    assert_eq!("text/html; charset=utf8", res.content_type());
    assert_eq!("404 Not Found", res.body());

    let res = Response::from(500);
    assert_eq!(500, res.code());
    assert_eq!("text/html; charset=utf8", res.content_type());
    assert_eq!("500 Internal Server Error", res.body());

    let res = Response::from(200);
    assert_eq!(200, res.code());
    assert_eq!("text/html; charset=utf8", res.content_type());
    assert_eq!("", res.body());

    let res = Response::from(&"borrowed".to_string());
    assert_eq!("borrowed", res.body());
}

#[test]
fn test_cookies() {
    let mut res = Response::new();
    res.set_cookie("Count", "2");
    assert_eq!("2", res.cookie("Count").unwrap());
    assert_eq!("2", res.cookie("count").unwrap());

    let mut res = Response::new();
    res.remove_cookie("Count");
    assert_eq!("", res.cookie("Count").unwrap());
    assert_eq!(None, res.cookie("Other"));

    let res = Response::from_cookie("A", "1").with_cookie("b", "2").without_cookie("a");
    assert_eq!(Some(""), res.cookie("a"));
    assert_eq!(Some("2"), res.cookie("B"));
}

#[test]
fn responses_compare_by_what_they_hold() {
    let a = Response::new().with_header("X-A", "1").with_header("X-B", "2");
    let b = Response::new().with_header("x-b", "2").with_header("x-a", "1");
    assert_eq!(a, b);
    assert_ne!(a, Response::new().with_header("X-A", "1"));
    assert_ne!(a, Response::new().with_header("X-A", "1").with_header("X-B", "3"));
    assert_ne!(Response::from_code(201), Response::from_code(202));
    assert_ne!(Response::from_body("a"), Response::from_body("b"));
    assert_eq!(a.headers().len(), 4);
    assert_eq!(a.headers().entry(2), ("x-a", "1"));
    assert_eq!(Response::from_body("text").to_string(), "text");
}

#[test]
fn file_headers() {
    let res = Response::new().with_file_headers("img/puff.GIF", "abc123", 771638);
    assert_eq!(res.header("etag"), Some("abc123"));
    assert_eq!(res.content_type(), "image/gif");
    assert_eq!(res.header("Content-Length"), Some("771638"));
    assert_eq!(res.code(), 200);
}
