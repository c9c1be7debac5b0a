//! Route trees for a small site: a home route, a users listing, a user
//! profile under a dynamic `:id`, and a `/*any` fallback, declared flat or
//! nested under a parent route.

use route_tree::matcher::MatchResult;
use route_tree::matcher::RouteNode;
use route_tree::matcher::match_path;
use route_tree::pattern::PathPattern;

const HOME: u64 = 0;
const USERS: u64 = 1;
const USER_PROFILE: u64 = 2;
const NOT_FOUND_VIEW: u64 = 3;
const NO_USER: u64 = 4;

fn pat(s: &str) -> PathPattern {
    match PathPattern::parse(s) {
        Ok(p) => p,
        Err(e) => panic!("pattern {:?} rejected: {:?}", s, e),
    }
}

fn leaf(p: &str, view_id: u64) -> RouteNode {
    RouteNode::leaf(pat(p), view_id)
}

fn label(view_id: u64) -> &'static str {
    match view_id {
        HOME => "home",
        USERS => "Users",
        USER_PROFILE => "UserProfile",
        NOT_FOUND_VIEW => "Not Found",
        NO_USER => "NoUser",
        _ => "unknown",
    }
}

/// What the rendering layer would show: the leaf view's label, or the
/// fallback text when nothing matched.
fn render(r: &MatchResult) -> String {
    match r {
        MatchResult::Matched { views, params: _ } => {
            label(*views.last().unwrap()).to_string()
        }
        MatchResult::NotFound => "Not found.".to_string(),
    }
}

#[test]
fn test_s1() {
    let routes = vec![
        leaf("/", HOME),
        leaf("/users", USERS),
        leaf("/users/:id", USER_PROFILE),
        leaf("/*any", NOT_FOUND_VIEW),
    ];
    assert_eq!(render(&match_path(&routes, "/")), "home");
    assert_eq!(render(&match_path(&routes, "/users")), "Users");
    assert_eq!(render(&match_path(&routes, "/users/3")), "UserProfile");
    assert_eq!(render(&match_path(&routes, "/blahblah")), "Not Found");
}

#[test]
fn test_s2() {
    let routes = vec![
        leaf("/", HOME),
        RouteNode::new(pat("/users"), USERS, vec![leaf(":id", USER_PROFILE)]),
        leaf("/*any", NOT_FOUND_VIEW),
    ];
    assert_eq!(render(&match_path(&routes, "/")), "home");
    match match_path(&routes, "/users/3") {
        MatchResult::Matched { views, params } => {
            assert_eq!(views, vec![USERS, USER_PROFILE]);
            assert_eq!(params, vec![("id".to_string(), "3".to_string())]);
        }
        MatchResult::NotFound => panic!("expected a match"),
    }
    assert_eq!(render(&match_path(&routes, "/blahblah")), "Not Found");
}

#[test]
fn test_s3() {
    let routes = vec![leaf("/users", USERS), leaf("/users/:id", USER_PROFILE)];
    assert_eq!(render(&match_path(&routes, "/users")), "Users");
    assert_eq!(render(&match_path(&routes, "/users/7")), "UserProfile");
    assert_eq!(render(&match_path(&routes, "/elsewhere")), "Not found.");
}

#[test]
fn test_s4() {
    let routes = vec![RouteNode::new(
        pat("/users"),
        USERS,
        vec![leaf(":id", USER_PROFILE)],
    )];
    match match_path(&routes, "/users/7") {
        MatchResult::Matched { views, params } => {
            assert_eq!(views, vec![USERS, USER_PROFILE]);
            assert_eq!(params, vec![("id".to_string(), "7".to_string())]);
        }
        MatchResult::NotFound => panic!("expected a match"),
    }
    assert_eq!(render(&match_path(&routes, "/elsewhere")), "Not found.");
}

#[test]
fn test_s5() {
    let routes = vec![RouteNode::new(
        pat("/users"),
        USERS,
        vec![leaf(":id", USER_PROFILE), leaf("", NO_USER)],
    )];
    match match_path(&routes, "/users") {
        MatchResult::Matched { views, params } => {
            assert_eq!(views, vec![USERS, NO_USER]);
            assert!(params.is_empty());
        }
        MatchResult::NotFound => panic!("expected a match"),
    }
    assert_eq!(render(&match_path(&routes, "/users/7")), "UserProfile");
}

#[test]
fn test_s_next() {
    let routes: Vec<RouteNode> = vec![];
    match match_path(&routes, "/") {
        MatchResult::Matched { .. } => panic!("nothing should match in an empty tree"),
        MatchResult::NotFound => {}
    }
}
