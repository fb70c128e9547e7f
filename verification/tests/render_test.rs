use std::io::Read;
use vial::{Compression, Response};

const DATE: &str = "Wed, 28 Oct 2026 08:00:00 GMT";

#[test]
fn renders_head_and_body() {
    let wire = Response::from_body("hello").render("0.1.9", DATE, &None).unwrap();
    assert_eq!(
        wire.head,
        "HTTP/1.1 200 OK\r\nServer: ~ vial 0.1.9 ~\r\nDate: Wed, 28 Oct 2026 08:00:00 GMT\r\nConnection: close\r\ncontent-type: text/html; charset=utf8\r\ncontent-length: 5\r\n\r\n"
    );
    assert_eq!(wire.body, b"hello");
}

#[test]
fn renders_cookies_and_extra_headers() {
    let res = Response::from_code(404)
        .with_header("X-One", "1")
        .with_cookie("Count", "2")
        .without_cookie("Old");
    let wire = res.render("9", DATE, &Some(Compression::Identity)).unwrap();
    assert_eq!(
        wire.head,
        "HTTP/1.1 404 OK\r\nServer: ~ vial 9 ~\r\nDate: Wed, 28 Oct 2026 08:00:00 GMT\r\nConnection: close\r\ncontent-type: text/html; charset=utf8\r\ncontent-length: 13\r\nx-one: 1\r\nSet-Cookie: count=2\r\nSet-Cookie: old=; Expires=Thu, 01 Jan 1970 00:00:00 GMT\r\n\r\n"
    );
    assert_eq!(wire.body, b"404 Not Found");
}

#[test]
fn a_header_that_ends_in_a_break_gets_no_second_break() {
    let wire = Response::new().with_header("x", "y\r\n").render("1", "d", &None).unwrap();
    assert!(wire.head.ends_with("x: y\r\n\r\n"));
    assert!(!wire.head.ends_with("x: y\r\n\r\n\r\n"));
}

#[test]
fn assemble_announces_length_and_encoding() {
    let wire = Response::new().assemble("1", "d", Some("gzip"), vec![1, 2, 3]);
    assert!(wire.head.contains("\r\ncontent-length: 3\r\n"));
    assert!(wire.head.contains("\r\ncontent-encoding: gzip\r\n"));
    assert_eq!(wire.body, vec![1, 2, 3]);
}

fn body_text() -> String {
    "a body that repeats itself, a body that repeats itself, a body that repeats itself".to_string()
}

#[test]
fn deflate_body_can_be_read_back() {
    let text = body_text();
    let wire = Response::from_body(&text).render("1", "d", &Some(Compression::Deflate)).unwrap();
    assert!(wire.head.contains("content-encoding: deflate\r\n"));
    assert!(wire.head.contains(&format!("content-length: {}\r\n", wire.body.len())));
    assert_ne!(wire.body, text.as_bytes());
    let mut back = String::new();
    libflate::deflate::Decoder::new(&wire.body[..]).read_to_string(&mut back).unwrap();
    assert_eq!(back, text);
    assert_eq!(Compression::Deflate.compress(text.as_bytes()), Some(wire.body));
}

#[test]
fn gzip_body_can_be_read_back() {
    let text = body_text();
    let wire = Response::from_body(&text).render("1", "d", &Some(Compression::Gzip)).unwrap();
    assert!(wire.head.contains("content-encoding: gzip\r\n"));
    assert!(wire.head.contains(&format!("content-length: {}\r\n", wire.body.len())));
    let mut back = String::new();
    libflate::gzip::Decoder::new(&wire.body[..]).unwrap().read_to_string(&mut back).unwrap();
    assert_eq!(back, text);
}

#[test]
fn brotli_body_can_be_read_back() {
    let text = body_text();
    let wire = Response::from_body(&text).render("1", "d", &Some(Compression::Brotli)).unwrap();
    assert!(wire.head.contains("content-encoding: br\r\n"));
    assert_ne!(wire.body, text.as_bytes());
    let mut back = String::new();
    brotli2::read::BrotliDecoder::new(&wire.body[..]).read_to_string(&mut back).unwrap();
    assert_eq!(back, text);
}

#[test]
fn zstd_body_can_be_read_back() {
    let text = body_text();
    let wire = Response::from_body(&text).render("1", "d", &Some(Compression::Zstd)).unwrap();
    assert!(wire.head.contains("content-encoding: zstd\r\n"));
    assert_ne!(wire.body, text.as_bytes());
    assert_eq!(zstd::stream::decode_all(&wire.body[..]).unwrap(), text.as_bytes());
}

#[test]
fn encodings_have_names() {
    assert_eq!(Compression::Gzip.name(), Some("gzip"));
    assert_eq!(Compression::Deflate.name(), Some("deflate"));
    assert_eq!(Compression::Brotli.name(), Some("br"));
    assert_eq!(Compression::Zstd.name(), Some("zstd"));
    assert_eq!(Compression::Identity.name(), None);
    assert_eq!(Compression::Identity.compress(b"abc"), Some(b"abc".to_vec()));
}
