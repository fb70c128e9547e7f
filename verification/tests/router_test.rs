use vial::{Request, Response, Router};

fn show(r: Request) -> Response {
    format!("Show: {}", r.arg("page").unwrap_or("?")).into()
}
fn show_raw(r: Request) -> Response {
    format!("Raw: {}", r.arg("page").unwrap_or("?")).into()
}
fn show_parts(r: Request) -> Response {
    format!("Parts: {}", r.arg("parts").unwrap_or("?")).into()
}
fn show_mix(r: Request) -> Response {
    format!(
        "Mix: {} {}",
        r.arg("of").unwrap_or("?"),
        r.arg("things").unwrap_or("?")
    )
    .into()
}
fn about(_: Request) -> Response {
    "About".into()
}
fn info(_: Request) -> Response {
    "Info".into()
}

type Action = fn(Request) -> Response;

fn example() -> Router<Action> {
    let mut router: Router<Action> = Router::new();
    router.insert("GET", "/about", about);
    router.insert("GET", "/:page", show);
    router.insert("GET", "/info", info);
    router.insert("GET", "/:page.md", show_raw);
    router.insert("GET", "/mix/:of/*things", show_mix);
    router.insert("GET", "/*parts", show_parts);
    router
}

#[test]
fn routing() {
    let router = example();

    let mut req = Request::from_path("/");
    assert_eq!(router.action_for(&mut req), None);

    let mut req = Request::from_path("/cats");
    assert_eq!(
        router.action_for(&mut req).unwrap()(req).to_string(),
        "Show: cats".to_string()
    );

    let mut req = Request::from_path("/dogs");
    assert_eq!(
        router.action_for(&mut req).unwrap()(req).to_string(),
        "Show: dogs".to_string()
    );

    let mut req = Request::from_path("/rabbits?haxcode=1");
    assert_eq!(
        router.action_for(&mut req).unwrap()(req).to_string(),
        "Show: rabbits".to_string()
    );

    let mut req = Request::from_path("/lemurs/?other-haxcode=1&bobby=brown");
    assert_eq!(
        router.action_for(&mut req).unwrap()(req).to_string(),
        "Show: lemurs".to_string()
    );

    let mut req = Request::from_path("/about");
    assert_eq!(
        router.action_for(&mut req).unwrap()(req).to_string(),
        "About".to_string()
    );

    let mut req = Request::from_path("/info");
    assert_eq!(
        router.action_for(&mut req).unwrap()(req).to_string(),
        "Show: info".to_string()
    );

    let mut req = Request::from_path("/cats.md");
    assert_eq!(
        router.action_for(&mut req).unwrap()(req).to_string(),
        "Raw: cats".to_string()
    );

    let mut req = Request::from_path("/cats and dogs.md");
    assert_eq!(
        router.action_for(&mut req).unwrap()(req).to_string(),
        "Raw: cats and dogs".to_string()
    );

    let mut req = Request::from_path("/slashes/dont/match");
    assert_eq!(
        router.action_for(&mut req).unwrap()(req).to_string(),
        "Parts: slashes/dont/match".to_string()
    );

    let mut req = Request::from_path("/mix/o/magic/i/see");
    assert_eq!(
        router.action_for(&mut req).unwrap()(req).to_string(),
        "Mix: o magic/i/see".to_string()
    );

    let mut req = Request::from_path("/mix/of/Cargo.toml");
    assert_eq!(
        router.action_for(&mut req).unwrap()(req).to_string(),
        "Mix: of Cargo.toml".to_string()
    );
}

#[test]
fn routing_records_arguments() {
    let router = example();

    let mut req = Request::from_path("/cats");
    assert!(router.action_for(&mut req).is_some());
    assert_eq!(req.arg("page"), Some("cats"));

    let mut req = Request::from_path("/cats.md");
    assert!(router.action_for(&mut req).is_some());
    assert_eq!(req.arg("page"), Some("cats"));

    let mut req = Request::from_path("/mix/o/magic/i/see");
    assert!(router.action_for(&mut req).is_some());
    assert_eq!(req.arg("of"), Some("o"));
    assert_eq!(req.arg("things"), Some("magic/i/see"));

    let mut req = Request::from_path("/slashes/dont/match");
    assert!(router.action_for(&mut req).is_some());
    assert_eq!(req.arg("parts"), Some("slashes/dont/match"));
    assert_eq!(req.arg("page"), None);

    let mut req = Request::from_path("/about");
    let action = *router.action_for(&mut req).unwrap();
    assert_eq!(action as usize, about as Action as usize);
    assert_eq!(req.arg("page"), None);
}

#[test]
fn arguments_are_percent_decoded() {
    let router = example();
    let mut req = Request::from_path("/caf%C3%A9%20au%20lait");
    assert!(router.action_for(&mut req).is_some());
    assert_eq!(req.arg("page"), Some("café au lait"));

    let mut req = Request::from_path("/mix/a%2Fb/c%20d/e");
    assert!(router.action_for(&mut req).is_some());
    assert_eq!(req.arg("of"), Some("a/b"));
    assert_eq!(req.arg("things"), Some("c d/e"));

    // a value that cannot be decoded is not recorded; the route still matches
    let mut req = Request::from_path("/100%");
    assert!(router.action_for(&mut req).is_some());
    assert_eq!(req.arg("page"), None);
}

#[test]
fn wildcard_takes_the_rest_from_its_own_segment() {
    let router = example();
    let mut req = Request::from_path("/mix/mix/mix/mix");
    assert!(router.action_for(&mut req).is_some());
    assert_eq!(req.arg("of"), Some("mix"));
    assert_eq!(req.arg("things"), Some("mix/mix"));
}

#[test]
fn routes_are_kept_by_method() {
    let mut router: Router<&'static str> = Router::new();
    assert!(router.insert("POST", "/form", "post"));
    assert!(router.insert("GET", "/form", "get"));
    assert!(router.insert(vial::Method::PUT, "/form", "put"));

    let mut req = Request::from_path("/form").with_method("GET");
    assert_eq!(router.action_for(&mut req), Some(&"get"));
    let mut req = Request::from_path("/form").with_method("POST");
    assert_eq!(router.action_for(&mut req), Some(&"post"));
    let mut req = Request::from_path("/form").with_method("PUT");
    assert_eq!(router.action_for(&mut req), Some(&"put"));
    let mut req = Request::from_path("/form").with_method("DELETE");
    assert_eq!(router.action_for(&mut req), None);
    // a request without a method counts as GET
    let mut req = Request::from_path("/form");
    assert_eq!(router.action_for(&mut req), Some(&"get"));
}

#[test]
fn first_route_wins() {
    let mut router: Router<u32> = Router::new();
    router.insert("GET", "/a/:x", 1);
    router.insert("GET", "/a/b", 2);
    router.insert("GET", "/", 3);
    let mut req = Request::from_path("/a/b");
    assert_eq!(router.action_for(&mut req), Some(&1));
    assert_eq!(req.arg("x"), Some("b"));
    let mut req = Request::from_path("/");
    assert_eq!(router.action_for(&mut req), Some(&3));
    let mut req = Request::from_path("/a");
    assert_eq!(router.action_for(&mut req), None);
    let mut req = Request::from_path("/a/b/c");
    assert_eq!(router.action_for(&mut req), None);
}

#[test]
fn segments_after_a_wildcard_are_refused() {
    let mut router: Router<u32> = Router::new();
    assert!(!router.insert("GET", "/files/*rest/edit", 1));
    assert!(!router.insert("GET", "/*name.txt", 2));
    let mut req = Request::from_path("/files/a/edit");
    assert_eq!(router.action_for(&mut req), None);
    assert!(router.insert("GET", "/files/*rest", 3));
    assert_eq!(router.action_for(&mut req), Some(&3));
    assert_eq!(req.arg("rest"), Some("a/edit"));
}

#[test]
fn patterns_are_split_at_slashes_and_dots() {
    let segments = vial::router::pattern_to_vec("/blog/:page.md");
    assert_eq!(segments, vec![b"blog".to_vec(), b":page".to_vec(), b".md".to_vec()]);
    let segments = vial::router::pattern_to_vec("//a.b.c//");
    assert_eq!(segments, vec![b"a".to_vec(), b".b.c".to_vec()]);
    let segments = vial::router::pattern_to_vec("/");
    assert_eq!(segments, vec![b"".to_vec()]);
    let spans = vial::router::split_path(b"/mix/of/Cargo.toml");
    assert_eq!(spans, vec![(1, 4), (5, 7), (8, 13), (13, 18)]);
}
