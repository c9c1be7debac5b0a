//! Concrete checks of the matcher's stated behaviour: literal matches carry
//! no parameters, dynamic and wildcard segments capture, unmatched trees
//! report `NotFound`, nesting is equivalent to concatenation, precedence
//! follows declaration order, and malformed patterns are rejected.

use route_tree::matcher::MatchResult;
use route_tree::matcher::RouteNode;
use route_tree::matcher::match_path;
use route_tree::pattern::InvalidPatternError;
use route_tree::pattern::PathPattern;

fn pat(s: &str) -> PathPattern {
    match PathPattern::parse(s) {
        Ok(p) => p,
        Err(e) => panic!("pattern {:?} rejected: {:?}", s, e),
    }
}

fn leaf(p: &str, view_id: u64) -> RouteNode {
    RouteNode::leaf(pat(p), view_id)
}

fn expect_match(routes: &Vec<RouteNode>, path: &str) -> (Vec<u64>, Vec<(String, String)>) {
    match match_path(routes, path) {
        MatchResult::Matched { views, params } => (views, params),
        MatchResult::NotFound => panic!("no match for {:?}", path),
    }
}

fn expect_not_found(routes: &Vec<RouteNode>, path: &str) {
    match match_path(routes, path) {
        MatchResult::Matched { views, .. } => {
            panic!("{:?} unexpectedly matched views {:?}", path, views)
        }
        MatchResult::NotFound => {}
    }
}

#[test]
fn literal_paths_capture_nothing() {
    let routes = vec![
        leaf("/", 1),
        leaf("/about", 2),
        RouteNode::new(pat("/docs"), 3, vec![leaf("guide", 4), leaf("reference", 5)]),
    ];
    let (views, params) = expect_match(&routes, "/");
    assert_eq!(views, vec![1]);
    assert!(params.is_empty());
    let (views, params) = expect_match(&routes, "/about");
    assert_eq!(views, vec![2]);
    assert!(params.is_empty());
    let (views, params) = expect_match(&routes, "/docs/guide");
    assert_eq!(views, vec![3, 4]);
    assert!(params.is_empty());
    let (views, params) = expect_match(&routes, "/docs/reference");
    assert_eq!(views, vec![3, 5]);
    assert!(params.is_empty());
}

#[test]
fn param_segment_captures_value() {
    let routes = vec![leaf("/users/:id", 9)];
    let (views, params) = expect_match(&routes, "/users/42");
    assert_eq!(views, vec![9]);
    assert_eq!(params, vec![("id".to_string(), "42".to_string())]);
}

#[test]
fn wildcard_captures_remaining_suffix() {
    let routes = vec![leaf("/*any", 7)];
    let (views, params) = expect_match(&routes, "/anything/goes/here");
    assert_eq!(views, vec![7]);
    assert_eq!(
        params,
        vec![("any".to_string(), "anything/goes/here".to_string())]
    );
}

#[test]
fn wildcard_capture_may_be_empty() {
    let routes = vec![leaf("/files/*rest", 6)];
    let (_, params) = expect_match(&routes, "/files");
    assert_eq!(params, vec![("rest".to_string(), "".to_string())]);
    let (_, params) = expect_match(&routes, "/files/a/b");
    assert_eq!(params, vec![("rest".to_string(), "a/b".to_string())]);
}

#[test]
fn unmatched_tree_reports_not_found() {
    let routes = vec![leaf("/users", 1), leaf("/users/:id", 2)];
    expect_not_found(&routes, "/nothing/here");
    expect_not_found(&routes, "/users/1/posts");
    expect_not_found(&routes, "");
}

#[test]
fn nesting_matches_like_flat_concatenation() {
    let nested = vec![RouteNode::new(pat("/users"), 1, vec![leaf(":id", 2)])];
    let flat = vec![leaf("/users/:id", 3)];
    let samples = [
        "/users/42",
        "/users/42/",
        "/users",
        "/users/",
        "/",
        "",
        "/other",
        "/users/a/b",
        "//users//x",
    ];
    for path in samples.iter() {
        match (match_path(&nested, path), match_path(&flat, path)) {
            (
                MatchResult::Matched { views, params },
                MatchResult::Matched { views: flat_views, params: flat_params },
            ) => {
                assert_eq!(views, vec![1, 2]);
                assert_eq!(flat_views, vec![3]);
                assert_eq!(params, flat_params);
            }
            (MatchResult::NotFound, MatchResult::NotFound) => {}
            (a, b) => panic!("{:?}: nested gave {:?}, flat gave {:?}", path, a, b),
        }
    }
}

#[test]
fn first_declared_route_wins() {
    let routes = vec![leaf("/users/:id", 1), leaf("/users/admin", 2)];
    let (views, params) = expect_match(&routes, "/users/admin");
    assert_eq!(views, vec![1]);
    assert_eq!(params, vec![("id".to_string(), "admin".to_string())]);
}

#[test]
fn descended_branch_is_committed() {
    // "/users" accepts the prefix and the matcher descends; no child accepts
    // the empty remainder, and the later wildcard sibling is not retried.
    let routes = vec![
        RouteNode::new(pat("/users"), 1, vec![leaf(":id", 2)]),
        leaf("/*any", 3),
    ];
    expect_not_found(&routes, "/users");
    // A path the parent's pattern rejects outright still reaches the wildcard.
    let (views, _) = expect_match(&routes, "/posts");
    assert_eq!(views, vec![3]);
}

#[test]
fn slashes_are_tolerated() {
    let routes = vec![leaf("/users/:id", 1)];
    let (_, params) = expect_match(&routes, "/users/42/");
    assert_eq!(params, vec![("id".to_string(), "42".to_string())]);
    let (_, params) = expect_match(&routes, "//users///7");
    assert_eq!(params, vec![("id".to_string(), "7".to_string())]);
}

#[test]
fn root_pattern_matches_only_root() {
    let routes = vec![leaf("/", 1)];
    let (views, params) = expect_match(&routes, "/");
    assert_eq!(views, vec![1]);
    assert!(params.is_empty());
    expect_not_found(&routes, "/x");
}

#[test]
fn wildcard_must_be_last() {
    match PathPattern::parse("/*rest/more") {
        Err(e) => assert_eq!(e, InvalidPatternError::WildcardNotLast),
        Ok(_) => panic!("non-terminal wildcard accepted"),
    }
    match PathPattern::parse("/a/*rest/b/c") {
        Err(e) => assert_eq!(e, InvalidPatternError::WildcardNotLast),
        Ok(_) => panic!("non-terminal wildcard accepted"),
    }
    assert!(PathPattern::parse("/a/*rest").is_ok());
    assert!(PathPattern::parse("/a/*rest/").is_ok());
}

#[test]
fn segment_names_must_be_nonempty() {
    match PathPattern::parse("/users/:") {
        Err(e) => assert_eq!(e, InvalidPatternError::EmptyName),
        Ok(_) => panic!("empty parameter name accepted"),
    }
    match PathPattern::parse("/*") {
        Err(e) => assert_eq!(e, InvalidPatternError::EmptyName),
        Ok(_) => panic!("empty wildcard name accepted"),
    }
    match PathPattern::parse("/:/tail") {
        Err(e) => assert_eq!(e, InvalidPatternError::EmptyName),
        Ok(_) => panic!("empty parameter name accepted"),
    }
}

#[test]
fn param_lookup_reads_first_capture() {
    let routes = vec![leaf("/users/:id", 1)];
    let r = match_path(&routes, "/users/42");
    assert_eq!(r.param("id").map(|s| s.as_str()), Some("42"));
    assert!(r.param("other").is_none());

    let shadowed = vec![leaf("/:name/:name", 2)];
    let r = match_path(&shadowed, "/first/second");
    assert_eq!(r.param("name").map(|s| s.as_str()), Some("first"));

    let empty: Vec<RouteNode> = vec![];
    let nf = match_path(&empty, "/x");
    assert!(nf.param("name").is_none());
}

#[test]
fn multiple_params_capture_in_order() {
    let routes = vec![RouteNode::new(
        pat("/:a"),
        1,
        vec![RouteNode::new(pat(":b"), 2, vec![leaf("*rest", 3)])],
    )];
    let (views, params) = expect_match(&routes, "/x/y/z/w");
    assert_eq!(views, vec![1, 2, 3]);
    assert_eq!(
        params,
        vec![
            ("a".to_string(), "x".to_string()),
            ("b".to_string(), "y".to_string()),
            ("rest".to_string(), "z/w".to_string()),
        ]
    );
}
