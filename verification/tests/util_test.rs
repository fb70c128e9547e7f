use vial::util;

#[test]
fn content_type() {
    assert_eq!(util::content_type("file.png"), "image/png");
    assert_eq!(util::content_type("./path/to/file.png"), "image/png");
    assert_eq!(
        util::content_type("other/../path/to/some-file123.png"),
        "image/png"
    );
    assert_eq!(util::content_type("funny-meme.gif"), "image/gif");
    assert_eq!(util::content_type("/photo12401240.JPG"), "image/jpeg");
    assert_eq!(util::content_type("goo-times.jPeG"), "image/jpeg");
    assert_eq!(util::content_type("report.pdf"), "application/pdf");
    assert_eq!(
        util::content_type("/css/style.min.css"),
        "text/css; charset=utf8"
    );
    assert_eq!(
        util::content_type("some-v1.24.css"),
        "text/css; charset=utf8"
    );
    assert_eq!(util::content_type("index.htm"), "text/html; charset=utf8");
    assert_eq!(
        util::content_type("/users/profile.html"),
        "text/html; charset=utf8"
    );
    assert_eq!(util::content_type("robots.txt"), "text/plain; charset=utf8");
    assert_eq!(
        util::content_type("/short/story.text"),
        "text/plain; charset=utf8"
    );
    assert_eq!(util::content_type("Readme.md"), "text/plain; charset=utf8");
    assert_eq!(
        util::content_type("MANUAL.markdown"),
        "text/plain; charset=utf8"
    );
    assert_eq!(util::content_type("?"), "text/plain; charset=utf8");
}

#[test]
fn content_type_of_other_kinds() {
    assert_eq!(util::content_type("archive.tar.gz"), "gzip");
    assert_eq!(util::content_type("a.7z"), "application/x-7z-compressed");
    assert_eq!(util::content_type("font.WOFF2"), "font/woff2");
    assert_eq!(util::content_type("json"), "application/json");
    assert_eq!(util::content_type("trailing."), "text/plain; charset=utf8");
    assert_eq!(util::content_type(""), "text/plain; charset=utf8");
    assert_eq!(util::content_type("x.svg"), "image/svg+xml");
}

#[test]
fn decode_form_value() {
    assert_eq!(
        util::decode_form_value("Well%2C+that%27s+just+great%21"),
        "Well, that's just great!"
    );
}

#[test]
fn decode_form_value_edges() {
    assert_eq!(util::decode_form_value("a\r\nb"), "a\nb");
    assert_eq!(util::decode_form_value("100%"), "");
    assert_eq!(util::decode_form_value("%zz"), "");
    assert_eq!(util::decode_form_value(""), "");
    assert_eq!(util::decode_form_value("1%2B1"), "1+1");
}

#[test]
fn percent_decode() {
    assert_eq!(util::percent_decode("a%20b"), Some("a b".to_string()));
    assert_eq!(util::percent_decode("%41%42%43"), Some("ABC".to_string()));
    assert_eq!(util::percent_decode("%e2%9c%93"), Some("✓".to_string()));
    assert_eq!(util::percent_decode("%E2%9C%93"), Some("✓".to_string()));
    assert_eq!(util::percent_decode("plain"), Some("plain".to_string()));
    assert_eq!(util::percent_decode(""), Some("".to_string()));
    assert_eq!(util::percent_decode("%"), None);
    assert_eq!(util::percent_decode("%4"), None);
    assert_eq!(util::percent_decode("abc%4"), None);
    assert_eq!(util::percent_decode("%4g"), None);
    assert_eq!(util::percent_decode("%ff"), None);
    assert_eq!(util::percent_decode("%+5"), Some("\u{5}".to_string()));
    assert_eq!(util::percent_decode("%2525"), Some("%25".to_string()));
}

#[test]
fn percent_decode_round_trip() {
    let plain = "naïve / path?with=all&sorts of~things%";
    let mut encoded = String::new();
    for b in plain.bytes() {
        if b.is_ascii_alphanumeric() || b == b'-' || b == b'.' || b == b'_' || b == b'~' {
            encoded.push(b as char);
        } else {
            encoded.push_str(&format!("%{:02X}", b));
        }
    }
    assert_eq!(util::percent_decode(&encoded), Some(plain.to_string()));
    let decoded = "already decoded, no escapes here";
    assert_eq!(util::percent_decode(decoded), Some(decoded.to_string()));
}

#[test]
fn percent_decode_stops_after_512_escapes() {
    let mut input = String::new();
    let mut expected = String::new();
    for _ in 0..512 {
        input.push_str("%41");
        expected.push('A');
    }
    input.push_str("%42x");
    expected.push_str("%42x");
    assert_eq!(util::percent_decode(&input), Some(expected));
}
