use vial::markdown::{choose_link, link_text};
use vial::Response;

fn html(source: &str) -> String {
    Response::from_body(source).as_markdown().to_string()
}

#[test]
fn renders_markdown() {
    assert_eq!(html("# Title\n\nsome *text*"), "<h1>Title</h1>\n<p>some <em>text</em></p>\n");
    assert_eq!(html("~~gone~~"), "<p><del>gone</del></p>\n");
    assert_eq!(html(""), "");
}

#[test]
fn links_addresses_in_text() {
    assert_eq!(
        link_text("see https://example.com/a now"),
        Some("see <a href=\"https://example.com/a\">https://example.com/a</a> now".to_string())
    );
    assert_eq!(
        link_text("http://example.com"),
        Some("<a href=\"http://example.com\">http://example.com</a>".to_string())
    );
    assert_eq!(link_text("no address here"), None);
    assert_eq!(link_text("www.example.com"), None);
    assert_eq!(link_text("https://"), None);
    assert_eq!(choose_link("abc", "abc".to_string()), None);
    assert_eq!(choose_link("abc", "xyz".to_string()), None);
    assert_eq!(choose_link("abc", "abcd".to_string()), Some("abcd".to_string()));
}

#[test]
fn markdown_bodies_become_html() {
    let res = Response::from_body("visit https://example.com/ *today*").as_markdown();
    assert_eq!(
        res.body(),
        "<p>visit <a href=\"https://example.com/\">https://example.com/</a> <em>today</em></p>\n"
    );
    assert_eq!(res.code(), 200);
    assert_eq!(res.content_type(), "text/html; charset=utf8");
    let res = Response::new().as_markdown();
    assert_eq!(res.body(), "");
}
