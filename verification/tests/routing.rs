use pebbles_widgets::routing::{
    compile, match_path, prefix_matches, route_view, NavStack, RouteMatch, RouteParams,
};

#[test]
fn matches_and_captures_a_param() {
    let p = compile("/user/:id");
    let got = match_path(&p, "/user/42").expect("should match");
    assert_eq!(got.get("id"), Some("42"));
}

#[test]
fn multiple_params_capture_by_name() {
    let p = compile("/org/:org/repo/:repo");
    let got = match_path(&p, "/org/pebbles/repo/docs").expect("should match");
    assert_eq!(got.get("org"), Some("pebbles"));
    assert_eq!(got.get("repo"), Some("docs"));
}

#[test]
fn literal_segment_must_equal() {
    let p = compile("/user/:id/edit");
    assert!(match_path(&p, "/user/7/view").is_none());
    assert!(match_path(&p, "/user/7/edit").is_some());
}

#[test]
fn segment_count_must_match() {
    let p = compile("/user/:id");
    assert!(match_path(&p, "/user").is_none());
    assert!(match_path(&p, "/user/7/extra").is_none());
}

#[test]
fn slashes_are_normalized() {
    let p = compile("user/:id");
    assert!(match_path(&p, "/user/9/").is_some());
    assert_eq!(
        match_path(&p, "/user/9/").and_then(|r| r.get("id").map(str::to_owned)),
        Some("9".into())
    );
}

#[test]
fn root_matches_empty_path() {
    let p = compile("/");
    assert!(match_path(&p, "/").is_some());
    assert!(match_path(&p, "").is_some());
    assert!(match_path(&p, "/x").is_none());
}

#[test]
fn get_or_falls_back() {
    let params = RouteParams::default();
    assert_eq!(params.get_or("id", "none"), "none");
    assert!(params.is_empty());
}

#[test]
fn typed_params_parse() {
    let p = compile("/user/:id");
    let got = match_path(&p, "/user/42").unwrap();
    assert_eq!(got.get_as::<u64>("id"), Some(42));
    assert_eq!(got.get_as::<u64>("missing"), None);
    let bad = match_path(&p, "/user/abc").unwrap();
    assert_eq!(bad.get_as::<u64>("id"), None);
}

#[test]
fn wildcard_captures_the_rest() {
    let p = compile("/files/*rest");
    let got = match_path(&p, "/files/a/b/c.txt").unwrap();
    assert_eq!(got.get("rest"), Some("a/b/c.txt"));
    // Matches with an empty rest, and requires the fixed prefix.
    assert_eq!(match_path(&p, "/files").unwrap().get("rest"), Some(""));
    assert!(match_path(&p, "/other/x").is_none());
}

#[test]
fn nested_prefix_matches_children() {
    let prefix = compile("/settings");
    assert!(prefix_matches(&prefix, "/settings/profile"));
    assert!(prefix_matches(&prefix, "/settings"));
    assert!(!prefix_matches(&prefix, "/dashboard"));
}



#[test]
fn params_iterate_sorted_and_later_capture_wins() {
    let p = compile("/:b/:a/:b");
    let got = match_path(&p, "/x/y/z").unwrap();
    let pairs = got.iter();
    assert_eq!(pairs, vec![("a", "y"), ("b", "z")]);
    assert!(!got.is_empty());
}

#[test]
fn typed_params_signed_and_plus() {
    let p = compile("/n/:v");
    assert_eq!(match_path(&p, "/n/-12").unwrap().get_as::<i64>("v"), Some(-12));
    assert_eq!(match_path(&p, "/n/+7").unwrap().get_as::<u32>("v"), Some(7));
    assert_eq!(match_path(&p, "/n/4294967296").unwrap().get_as::<u32>("v"), None);
    assert_eq!(match_path(&p, "/n/-2147483648").unwrap().get_as::<i32>("v"), Some(i32::MIN));
    assert_eq!(match_path(&p, "/n/-").unwrap().get_as::<i32>("v"), None);
}

#[test]
fn first_registered_route_wins() {
    let view = route_view("/user/new".to_string())
        .route("/user/new".to_string())
        .param_route("/user/:id");
    assert!(matches!(view.render_match(), RouteMatch::Page(0)));
    let view = route_view("/user/5".to_string())
        .route("/user/new".to_string())
        .param_route("/user/:id")
        .nest("/user");
    match view.render_match() {
        RouteMatch::Params(1, p) => assert_eq!(p.get("id"), Some("5")),
        other => panic!("unexpected {:?}", other),
    }
    let view = route_view("/user/5/edit".to_string()).param_route("/user/:id").nest("/user");
    assert!(matches!(view.render_match(), RouteMatch::Layout(1)));
    let view = route_view("/other".to_string()).route("/".to_string());
    assert!(matches!(view.render_match(), RouteMatch::Fallback));
}

#[test]
fn nav_stack_push_pop_replace() {
    let mut nav = NavStack::new("home".to_string());
    assert_eq!(nav.current(), "home");
    assert!(!nav.can_pop());
    nav.push("settings".to_string());
    assert_eq!(nav.depth(), 2);
    assert_eq!(nav.current(), "settings");
    nav.replace("profile".to_string());
    assert_eq!(nav.depth(), 2);
    assert_eq!(nav.current(), "profile");
    assert!(nav.pop());
    assert_eq!(nav.current(), "home");
    assert!(!nav.pop());
    let empty = NavStack::default();
    assert_eq!(empty.current(), "");
    let mut e2 = NavStack::default();
    e2.replace("x".to_string());
    assert_eq!(e2.depth(), 1);
}

#[test]
fn a_match_lines_up_every_segment() {
    let p = compile("/a/:x/b/:x");
    let got = match_path(&p, "/a/1/b/2").expect("lengths agree, literals match");
    assert_eq!(got.get("x"), Some("2"), "a repeated name keeps its last capture");
    assert_eq!(got.get("a"), None, "literals capture nothing");
    assert_eq!(got.iter().len(), 1);
    assert!(match_path(&p, "/a/1/c/2").is_none(), "a literal differs");
    assert!(match_path(&p, "/a/1/b").is_none(), "too few segments");
    assert!(match_path(&p, "/a/1/b/2/3").is_none(), "too many segments");
}
