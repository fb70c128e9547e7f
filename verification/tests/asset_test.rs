use vial::asset;

#[test]
fn normalize_path_test() {
    let root = "./tests/assets/";

    assert_eq!(
        Some("./tests/assets/dinner.jpg".to_string()),
        asset::normalize_path(root, "./dinner.jpg")
    );
    assert_eq!(
        Some("./tests/assets/dinner.jpg".to_string()),
        asset::normalize_path(root, "../dinner.jpg")
    );
    assert_eq!(
        Some("./tests/assets/./dinner.jpg".to_string()),
        asset::normalize_path(root, "../../dinner.jpg")
    );
    assert_eq!(
        Some("./tests/assets/rfcs/rfc1436.txt".to_string()),
        asset::normalize_path(root, "rfcs/rfc1436.txt")
    );
    assert_eq!(
        Some("./tests/assets/rfcs/rfc1436.txt".to_string()),
        asset::normalize_path(root, "../rfcs/rfc1436.txt")
    );
    assert_eq!(
        Some("./tests/assets/./rfcs/rfc1436.txt".to_string()),
        asset::normalize_path(root, "./../rfcs/rfc1436.txt")
    );
    assert_eq!(
        Some("./tests/assets/rfcs/rfc1288.txt".to_string()),
        asset::normalize_path(root, "./rfcs/rfc1288.txt")
    );
}

#[test]
fn normalize_path_edges() {
    assert_eq!(
        asset::normalize_path("assets", "assetsassets/a..b....c"),
        Some("assets/a.b..c".to_string())
    );
    assert_eq!(asset::normalize_path("", "x"), Some("/x".to_string()));
    assert_eq!(asset::normalize_path("///", ""), Some("/".to_string()));
    assert_eq!(asset::normalize_path("a/", "a/a/b/..."), Some("a/b/..".to_string()));
    assert_eq!(asset::normalize_path("é/", "é/ü..ö"), Some("é/ü.ö".to_string()));
}
