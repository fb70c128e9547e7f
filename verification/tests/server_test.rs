use vial::server::{banner_line, plan, Plan};

#[test]
fn assets_come_before_routes() {
    assert_eq!(plan(None, None), Plan::Route);
    assert_eq!(plan(None, Some("abc")), Plan::Route);
    assert_eq!(plan(Some("abc"), None), Plan::Asset);
    assert_eq!(plan(Some("abc"), Some("abd")), Plan::Asset);
    assert_eq!(plan(Some("abc"), Some("abc")), Plan::NotModified);
}

#[test]
fn banners() {
    assert_eq!(
        banner_line(None, "0.0.0.0:7667"),
        Some("~ vial running at http://0.0.0.0:7667".to_string())
    );
    assert_eq!(banner_line(Some(""), "0.0.0.0:7667"), None);
    assert_eq!(
        banner_line(Some("--> started at {} ({})"), "localhost:1"),
        Some("--> started at http://localhost:1 (http://localhost:1)".to_string())
    );
    assert_eq!(banner_line(Some("{ } {"), "a"), Some("{ } {".to_string()));
    assert_eq!(banner_line(Some("no place"), "a"), Some("no place".to_string()));
}
