use hotaru::url::error::UrlError;
use hotaru::url::node::cursor::{FrameNode, WalkCursor};
use hotaru::url::node::partial::PartialState;
use hotaru::url::node::stepname::StepName;
use hotaru::url::pattern::PathPattern;
use hotaru::url::params::StrMap;
use hotaru::url::root::{UrlRegistration, UrlRoot};

fn segs(path: &[&str]) -> Vec<String> {
    path.iter().map(|s| s.to_string()).collect()
}

fn node_id(reg: Result<UrlRegistration, UrlError>) -> usize {
    match reg {
        Ok(UrlRegistration::Node(n)) => n,
        _ => panic!("expected a node registration"),
    }
}

#[test]
fn walk_matches_direct_literal_child() {
    let mut root: UrlRoot<u32, u32> = UrlRoot::new();
    let files = root.get_child_or_create(0, PathPattern::literal_path("files"));
    let a = root.get_child_or_create(files, PathPattern::literal_path("a"));
    let matched = root.walk_node(files, &segs(&["a"]), PartialState::NotStart);
    assert_eq!(matched, Some(a));
}

#[test]
fn walk_matches_nested_literal_child() {
    let mut root: UrlRoot<u32, u32> = UrlRoot::new();
    let files = root.get_child_or_create(0, PathPattern::literal_path("files"));
    let a = root.get_child_or_create(files, PathPattern::literal_path("a"));
    let b = root.get_child_or_create(a, PathPattern::literal_path("b"));
    assert_eq!(root.walk_node(files, &segs(&["a", "b"]), PartialState::NotStart), Some(b));
}

#[test]
fn walk_any_path_matches_one_remaining_segment() {
    let mut root: UrlRoot<u32, u32> = UrlRoot::new();
    let files = root.get_child_or_create(0, PathPattern::literal_path("files"));
    let rest = root.get_child_or_create(files, PathPattern::AnyPath);
    assert_eq!(root.walk_node(files, &segs(&["a"]), PartialState::NotStart), Some(rest));
}

#[test]
fn walk_any_path_should_catch_multiple_remaining_segments() {
    let mut root: UrlRoot<u32, u32> = UrlRoot::new();
    let files = root.get_child_or_create(0, PathPattern::literal_path("files"));
    let rest = root.get_child_or_create(files, PathPattern::AnyPath);
    assert_eq!(
        root.walk_node(files, &segs(&["a", "b", "c"]), PartialState::NotStart),
        Some(rest)
    );
}

#[test]
fn node_walk_of_text_skips_empty_pieces() {
    let mut root: UrlRoot<u32, u32> = UrlRoot::new();
    let files = root.get_child_or_create(0, PathPattern::literal_path("files"));
    let a = root.get_child_or_create(files, PathPattern::literal_path("a"));
    let b = root.get_child_or_create(a, PathPattern::literal_path("b"));
    assert_eq!(root.walk_node_str(files, "/a//b/"), Some(b));
    assert_eq!(root.walk_node_str(files, ""), Some(files));
    assert_eq!(root.walk_node_str_with_limit(files, "a/b", 1), None);
    assert_eq!(root.walk_node_str_with_limit(files, "a/b", 2), Some(b));
}

#[test]
fn literal_url_registers_direct_child() {
    let mut root: UrlRoot<u32, u32> = UrlRoot::new();
    let node = node_id(root.literal_url("/users", Some(1), StrMap::new()));
    assert_eq!(root.node(node).path(), &PathPattern::literal_path("users"));
    assert!(root.node(node).has_handler());
    assert_eq!(root.walk_str("/users"), Some(node));
}

#[test]
fn literal_url_creates_empty_parents_for_deep_child() {
    let mut root: UrlRoot<u32, u32> = UrlRoot::new();
    root.literal_url("/api/users", Some(1), StrMap::new()).unwrap();
    let api = root.walk_str("/api").unwrap();
    let users = root.walk_str("/api/users").unwrap();
    assert!(!root.node(api).has_handler());
    assert!(root.node(users).has_handler());
}

#[test]
fn later_registration_rebinds_existing_parent_and_preserves_children() {
    let mut root: UrlRoot<u32, u32> = UrlRoot::new();
    root.literal_url("/api/users/profile", Some(1), StrMap::new()).unwrap();
    root.literal_url("/api/users", Some(2), StrMap::new()).unwrap();
    let users = root.walk_str("/api/users").unwrap();
    assert_eq!(root.node(users).handler(), Some(&2));
    assert_eq!(root.node(users).path(), &PathPattern::literal_path("users"));
    assert!(root.walk_str("/api/users/profile").is_some());
    let api = root.walk_str("/api").unwrap();
    assert!(!root.node(api).has_handler());
}

#[test]
fn registration_adds_only_the_nodes_along_its_path() {
    let mut root: UrlRoot<u32, u32> = UrlRoot::new();
    root.literal_url("/api/users/profile", Some(1), StrMap::new()).unwrap();
    // The root table, "", "api", "users", "profile".
    assert_eq!(root.len(), 5);
    assert_eq!(root.walk_str("/x"), None);
    assert_eq!(root.walk_str("x"), None);
    root.literal_url("/api/users", Some(2), StrMap::new()).unwrap();
    assert_eq!(root.len(), 5);
}

#[test]
fn root_endpoint_is_empty_string_only() {
    let mut root: UrlRoot<u32, u32> = UrlRoot::new();
    let result = root.literal_url("", Some(1), StrMap::new()).unwrap();
    assert_eq!(result, UrlRegistration::Root);
    let walked = root.walk_str("").expect("walk_str('') must find the root endpoint");
    assert!(root.node(walked).has_handler());
    assert!(root.has_handler());

    let slash = root.literal_url("/", Some(2), StrMap::new()).unwrap();
    assert!(matches!(slash, UrlRegistration::Node(_)));
    let slash_node = root.walk_str("/").unwrap();
    assert_ne!(Some(slash_node), root.endpoint());
    assert_eq!(root.walk_str(""), root.endpoint());
}

#[test]
fn literal_empty_segment_route_wins_over_wildcard() {
    let mut root: UrlRoot<u32, u32> = UrlRoot::new();
    root.literal_url("/", Some(1), StrMap::new()).unwrap();
    root.sub_url("/<slug>", Some(2), StrMap::new()).unwrap();
    let endpoint = root.walk_str("/").expect("slash path should resolve to the literal empty-segment route");
    assert_eq!(root.node(endpoint).path(), &PathPattern::literal_path(""));
    assert!(root.node(endpoint).names().index("slug").is_none());
}

#[test]
fn walk_str_with_limit_rejects_deep_paths() {
    let mut root: UrlRoot<u32, u32> = UrlRoot::new();
    root.literal_url("/api/users/profile", Some(1), StrMap::new()).unwrap();
    assert!(root.walk_str_with_limit("/api/users/profile", 3).is_none());
    assert!(root.walk_str_with_limit("/api/users/profile", 4).is_some());
    assert_eq!(root.walk_str_with_limit("", 0), root.endpoint());
}

#[test]
fn sub_url_registers_pattern_path() {
    let mut root: UrlRoot<u32, u32> = UrlRoot::new();
    let node = node_id(root.sub_url("/users/<str:id>", Some(1), StrMap::new()));
    assert!(root.node(node).has_handler());
    // Segments: [Literal("")=0, Literal("users")=1, Regex=2]: "id" is at index 2.
    assert_eq!(root.node(node).names().index("id"), Some(2));
    assert!(root.walk_str("/users/alice").is_some());
    assert_eq!(root.walk_str("/users/alice"), Some(node));
}

#[test]
fn sub_url_refuses_a_pattern_that_does_not_parse() {
    let mut root: UrlRoot<u32, u32> = UrlRoot::new();
    match root.sub_url("/<int", Some(1), StrMap::new()) {
        Err(UrlError::ParseError(m)) => {
            assert!(m.starts_with("Expected '>' at index "));
            assert_eq!(m, hotaru::url::parser::parse("/<int").unwrap_err().message());
        }
        _ => panic!("expected a parse error"),
    }
    assert_eq!(root.len(), 1);
}

#[test]
fn catch_all_is_the_fallback_when_a_deeper_branch_fails() {
    let mut root: UrlRoot<u32, u32> = UrlRoot::new();
    let a = node_id(root.literal_url("/a", Some(1), StrMap::new()));
    let c = node_id(root.literal_url("/a/b/c", Some(2), StrMap::new()));
    let rest = node_id(root.sub_url("/<**path>", Some(3), StrMap::new()));
    assert_eq!(root.walk_str("/a"), Some(a));
    assert_eq!(root.walk_str("/a/b/c"), Some(c));
    assert_eq!(root.walk_str("/a/b/d"), Some(rest));
}

#[test]
fn walk_cursor_yields_priority_ordered_matches() {
    let mut root: UrlRoot<u32, u32> = UrlRoot::new();
    root.literal_url("/literal", Some(1), StrMap::new()).unwrap();
    root.sub_url("/<slug>", Some(2), StrMap::new()).unwrap();
    root.sub_url("/<**path>", Some(3), StrMap::new()).unwrap();

    let path = "/literal";
    let segments: Vec<String> = path.split('/').map(|s| s.to_string()).collect();
    let mut cursor = root.walk_cursor(path);
    let mut hits: Vec<PathPattern> = Vec::new();
    while let Some(n) = cursor.find_next(&root, &segments) {
        hits.push(root.node(n).path().duplicate());
    }

    assert_eq!(hits.len(), 3);
    assert_eq!(hits[0], PathPattern::literal_path("literal"));
}

#[test]
fn walk_cursor_yields_every_match_in_priority_order() {
    let mut root: UrlRoot<u32, u32> = UrlRoot::new();
    let lit = node_id(root.literal_url("/literal", Some(1), StrMap::new()));
    let wild = node_id(root.sub_url("/<slug>", Some(2), StrMap::new()));
    let rest = node_id(root.sub_url("/<**path>", Some(3), StrMap::new()));

    let path = "/literal";
    let segments = segs(&["", "literal"]);
    let mut cursor = root.walk_cursor(path);
    let mut hits = Vec::new();
    while let Some(n) = cursor.find_next(&root, &segments) {
        hits.push(n);
    }
    assert_eq!(hits, vec![lit, wild, rest]);
    assert_eq!(root.walk_str(path), Some(hits[0]));

    let mut empty = root.walk_cursor("");
    assert!(empty.find_next(&root, &segments).is_none());
    let from = WalkCursor::from_node(0);
    assert_eq!(from.frames()[0].node, FrameNode::Node(0));
}

#[test]
fn register_relative_needs_a_segment() {
    let mut root: UrlRoot<u32, u32> = UrlRoot::new();
    match root.register_relative(0, &[], Some(1), StrMap::new(), StepName::new()) {
        Err(UrlError::InvalidPath(m)) => assert_eq!(m, "register_relative requires at least one segment"),
        _ => panic!("expected an invalid-path error"),
    }
}

#[test]
fn rebinding_keeps_names_when_none_are_given() {
    let mut root: UrlRoot<u32, u32> = UrlRoot::new();
    let n = node_id(root.sub_url("/<slug>", Some(1), StrMap::new()));
    root.rebind(n, Some(5), StrMap::new(), StepName::new());
    assert_eq!(root.node(n).handler(), Some(&5));
    assert_eq!(root.node(n).names().get("slug"), Some(1));
}

#[test]
fn removing_a_child_unlinks_it() {
    let mut root: UrlRoot<u32, u32> = UrlRoot::new();
    let n = node_id(root.literal_url("x", Some(1), StrMap::new()));
    assert_eq!(root.find_child(0, &PathPattern::literal_path("x")), Some(n));
    assert_eq!(root.remove_child(0, &PathPattern::literal_path("x")), Some(n));
    assert_eq!(root.walk_str("x"), None);
    root.insert_child(0, n);
    assert_eq!(root.walk_str("x"), Some(n));
}

#[test]
fn url_error_messages() {
    assert_eq!(UrlError::InvalidPath("p".to_string()).message(), "invalid path: p");
    assert_eq!(UrlError::ParseError("e".to_string()).message(), "parse error: e");
    assert_eq!(
        UrlError::DepthLimitExceeded { max: 3, actual: 4 }.message(),
        "depth limit exceeded: max=3, actual=4"
    );
    assert_eq!(
        UrlError::ChildNotFound(PathPattern::literal_path("a")).message(),
        "child not found: Literal: a"
    );
    assert_eq!(
        UrlError::ChildAlreadyExists(PathPattern::AnyPath).message(),
        "child already exists: **"
    );
    assert_eq!(UrlError::NotImplemented("x").message(), "not implemented: x");
    assert_eq!(UrlError::ProtocolNotFound.message(), "protocol not found in registry");
}

#[test]
fn sub_url_lone_slash_and_relative_patterns_align_with_walks() {
    let mut root: UrlRoot<u32, u32> = UrlRoot::new();
    let slash = node_id(root.sub_url("/", Some(1), StrMap::new()));
    assert_eq!(root.walk_str("/"), Some(slash));
    let rel = node_id(root.sub_url("docs/<page>", Some(2), StrMap::new()));
    assert_eq!(root.node(rel).names().index("page"), Some(1));
    assert_eq!(root.walk_str("docs/intro"), Some(rel));
    assert_eq!(root.sub_url("", Some(3), StrMap::new()).unwrap(), UrlRegistration::Root);
}

fn params_of(pairs: &[(&str, u32)]) -> StrMap<u32> {
    let mut m = StrMap::new();
    for (k, v) in pairs {
        m.insert(k.to_string(), *v);
    }
    m
}

#[test]
fn registration_stores_route_params_and_rebinding_merges_them() {
    let mut root: UrlRoot<u32, u32> = UrlRoot::new();
    let n = node_id(root.literal_url("/api", Some(1), params_of(&[("limit", 10), ("timeout", 5)])));
    assert_eq!(root.node(n).get_params("limit"), Some(&10));
    assert_eq!(root.node(n).get_params("timeout"), Some(&5));
    // Registering the same route again merges: new keys are added and a
    // key given again takes the new value; the others stay.
    let again = node_id(root.literal_url("/api", Some(2), params_of(&[("limit", 20), ("retries", 3)])));
    assert_eq!(again, n);
    assert_eq!(root.node(n).get_params("limit"), Some(&20));
    assert_eq!(root.node(n).get_params("timeout"), Some(&5));
    assert_eq!(root.node(n).get_params("retries"), Some(&3));
    assert_eq!(root.node(n).handler(), Some(&2));
    // Nodes created on the way carry no parameters.
    let mut deep: UrlRoot<u32, u32> = UrlRoot::new();
    let leaf = node_id(deep.literal_url("/a/b", Some(1), params_of(&[("k", 1)])));
    let a = deep.walk_str("/a").unwrap();
    assert_eq!(deep.node(a).get_params("k"), None);
    assert_eq!(deep.node(leaf).get_params("k"), Some(&1));
    deep.set_params(a, "k", 7);
    assert_eq!(deep.node(a).get_params("k"), Some(&7));
    assert_eq!(deep.node(leaf).get_params("k"), Some(&1));
}

#[test]
fn root_endpoint_params_merge_too() {
    let mut root: UrlRoot<u32, u32> = UrlRoot::new();
    root.literal_url("", Some(1), params_of(&[("a", 1)])).unwrap();
    root.literal_url("", Some(2), params_of(&[("b", 2)])).unwrap();
    let e = root.endpoint().unwrap();
    assert_eq!(root.node(e).get_params("a"), Some(&1));
    assert_eq!(root.node(e).get_params("b"), Some(&2));
}
