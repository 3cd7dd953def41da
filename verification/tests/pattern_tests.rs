use httpd_core::pattern::RoutePattern;

#[test]
fn param_is_captured() {
    let p = RoutePattern::new("/users/:id");
    let m = p.matches("/users/42").unwrap();
    assert_eq!(m.len(), 1);
    assert_eq!(m.get("id"), Some(&"42".to_string()));
}

#[test]
fn too_few_segments_do_not_match() {
    let p = RoutePattern::new("/users/:id");
    assert!(p.matches("/users").is_none());
    assert!(p.matches("/").is_none());
}

#[test]
fn too_many_segments_do_not_match() {
    let p = RoutePattern::new("/users/:id");
    assert!(p.matches("/users/42/posts").is_none());
}

#[test]
fn wildcard_consumes_the_rest() {
    let p = RoutePattern::new("/static/*");
    let m = p.matches("/static/a/b/c.png").unwrap();
    assert_eq!(m.len(), 0);
    assert_eq!(p.matches("/static/x").unwrap().len(), 0);
}

#[test]
fn wildcard_needs_a_segment() {
    let p = RoutePattern::new("/static/*");
    assert!(p.matches("/static").is_none());
    assert!(p.matches("/other/a").is_none());
}

#[test]
fn lone_wildcard() {
    let p = RoutePattern::new("/*");
    assert!(p.matches("/").is_none());
    assert!(p.matches("/a").is_some());
    assert!(p.matches("/a/b").is_some());
}

#[test]
fn what_follows_a_wildcard_does_not_count() {
    let p = RoutePattern::new("/a/*/b");
    assert!(p.matches("/a/x").is_some());
    assert!(p.matches("/a/x/c").is_some());
    assert!(p.matches("/a").is_none());
}

#[test]
fn exact_segments_are_case_sensitive() {
    let p = RoutePattern::new("/Hello");
    assert!(p.matches("/Hello").is_some());
    assert!(p.matches("/hello").is_none());
}

#[test]
fn slashes_are_insignificant() {
    let p = RoutePattern::new("users//:id/");
    let m = p.matches("//users/7//").unwrap();
    assert_eq!(m.get("id"), Some(&"7".to_string()));
}

#[test]
fn root_pattern_matches_root_only() {
    let p = RoutePattern::new("/");
    assert_eq!(p.matches("/").unwrap().len(), 0);
    assert_eq!(p.matches("").unwrap().len(), 0);
    assert!(p.matches("/a").is_none());
}

#[test]
fn params_are_taken_verbatim() {
    let p = RoutePattern::new("/files/:name/:ext");
    let m = p.matches("/files/a%20b/*").unwrap();
    assert_eq!(m.get("name"), Some(&"a%20b".to_string()));
    assert_eq!(m.get("ext"), Some(&"*".to_string()));
    assert_eq!(m.len(), 2);
}

#[test]
fn repeated_param_name_keeps_the_last_capture() {
    let p = RoutePattern::new("/:x/:x");
    let m = p.matches("/1/2").unwrap();
    assert_eq!(m.len(), 1);
    assert_eq!(m.get("x"), Some(&"2".to_string()));
}

#[test]
fn colon_alone_is_a_param_with_an_empty_name() {
    let p = RoutePattern::new("/:");
    let m = p.matches("/v").unwrap();
    assert_eq!(m.get(""), Some(&"v".to_string()));
}

#[test]
fn star_inside_a_segment_is_literal() {
    let p = RoutePattern::new("/a*");
    assert!(p.matches("/a*").is_some());
    assert!(p.matches("/ab").is_none());
}

#[test]
fn segment_counts_must_agree_without_wildcard() {
    let p = RoutePattern::new("/a/:b/c");
    for path in ["/", "/a", "/a/x", "/a/x/c/d", "/a/x/c/d/e"] {
        assert!(p.matches(path).is_none());
    }
    assert!(p.matches("/a/x/c").is_some());
}

#[test]
fn pattern_clone_matches_alike() {
    let p = RoutePattern::new("/users/:id");
    let q = p.clone();
    assert_eq!(q.matches("/users/9").unwrap().get("id"), Some(&"9".to_string()));
    assert!(q.matches("/users").is_none());
}
