use hotaru::url::node::children::{str_lt, Children};
use hotaru::url::node::partial::PartialState;
use hotaru::url::pattern::PathPattern;

fn with(children: &mut Children, pattern: PathPattern, id: usize) -> usize {
    children.insert(&pattern, id);
    id
}

#[test]
fn children_new_is_empty() {
    let children = Children::new();
    assert!(children.is_empty());
    assert_eq!(children.len(), 0);
}

#[test]
fn children_insert_literal_and_find() {
    let mut children = Children::new();
    let node = with(&mut children, PathPattern::Literal("home".into()), 1);
    let found = children.find(&PathPattern::Literal("home".into())).unwrap();
    assert_eq!(found, node);
}

#[test]
fn children_insert_literal_replaces_existing() {
    let mut children = Children::new();
    with(&mut children, PathPattern::Literal("home".into()), 1);
    let second = with(&mut children, PathPattern::Literal("home".into()), 2);
    assert_eq!(children.len(), 1);
    let found = children.find(&PathPattern::Literal("home".into())).unwrap();
    assert_eq!(found, second);
}

#[test]
fn children_insert_regex_and_find() {
    let mut children = Children::new();
    let node = with(&mut children, PathPattern::regex_path("^user[0-9]+$"), 1);
    let found = children.find(&PathPattern::regex_path("^user[0-9]+$")).unwrap();
    assert_eq!(found, node);
}

#[test]
fn children_insert_any_and_find() {
    let mut children = Children::new();
    let node = with(&mut children, PathPattern::Any, 1);
    assert_eq!(children.find(&PathPattern::Any).unwrap(), node);
}

#[test]
fn children_insert_any_path_and_find() {
    let mut children = Children::new();
    let node = with(&mut children, PathPattern::AnyPath, 1);
    assert_eq!(children.find(&PathPattern::AnyPath).unwrap(), node);
}

#[test]
fn children_match_prefers_literal_over_others() {
    let mut children = Children::new();
    with(&mut children, PathPattern::regex_path("^user[0-9]+$"), 2);
    with(&mut children, PathPattern::Any, 3);
    with(&mut children, PathPattern::AnyPath, 4);
    let literal = with(&mut children, PathPattern::Literal("user42".into()), 1);
    assert_eq!(children.match_segment("user42").unwrap(), literal);
}

#[test]
fn children_match_uses_regex_when_no_literal() {
    let mut children = Children::new();
    let regex = with(&mut children, PathPattern::regex_path("^user[0-9]+$"), 1);
    assert_eq!(children.match_segment("user42").unwrap(), regex);
}

#[test]
fn children_match_uses_any_when_no_literal_or_regex() {
    let mut children = Children::new();
    let any = with(&mut children, PathPattern::Any, 1);
    assert_eq!(children.match_segment("whatever").unwrap(), any);
}

#[test]
fn children_match_uses_any_path_last() {
    let mut children = Children::new();
    let any_path = with(&mut children, PathPattern::AnyPath, 1);
    assert_eq!(children.match_segment("rest/of/path").unwrap(), any_path);
}

#[test]
fn children_remove_literal() {
    let mut children = Children::new();
    let node = with(&mut children, PathPattern::Literal("home".into()), 1);
    let removed = children.remove(&PathPattern::Literal("home".into())).unwrap();
    assert_eq!(removed, node);
    assert!(children.find(&PathPattern::Literal("home".into())).is_none());
}

#[test]
fn children_remove_regex() {
    let mut children = Children::new();
    let node = with(&mut children, PathPattern::regex_path("^user[0-9]+$"), 1);
    let removed = children.remove(&PathPattern::regex_path("^user[0-9]+$")).unwrap();
    assert_eq!(removed, node);
    assert!(children.find(&PathPattern::regex_path("^user[0-9]+$")).is_none());
}

#[test]
fn children_remove_missing_returns_none() {
    let mut children = Children::new();
    assert!(children.remove(&PathPattern::Literal("missing".into())).is_none());
}

#[test]
fn children_all_nodes_returns_every_bucket() {
    let mut children = Children::new();
    with(&mut children, PathPattern::Literal("a".into()), 1);
    with(&mut children, PathPattern::Literal("b".into()), 2);
    with(&mut children, PathPattern::regex_path("^user[0-9]+$"), 3);
    with(&mut children, PathPattern::Any, 4);
    with(&mut children, PathPattern::AnyPath, 5);
    assert_eq!(children.all_nodes().len(), 5);
}

#[test]
fn children_display_string_lists_patterns() {
    let mut children = Children::new();
    with(&mut children, PathPattern::Literal("home".into()), 1);
    with(&mut children, PathPattern::regex_path("^user[0-9]+$"), 2);
    let display = children.display_string();
    assert!(display.contains("Literal: home"));
    assert!(display.contains("Regex: ^user[0-9]+$"));
}

#[test]
fn children_match_literal_returns_exact_child() {
    let mut children = Children::new();
    let literal = with(&mut children, PathPattern::Literal("home".into()), 1);
    assert_eq!(children.match_literal("home").unwrap(), literal);
}

#[test]
fn children_match_regex_returns_first_matching_child() {
    let mut children = Children::new();
    let regex = with(&mut children, PathPattern::regex_path("^user[0-9]+$"), 1);
    assert_eq!(children.match_regex("user42").unwrap(), regex);
}

#[test]
fn children_match_any_returns_wildcard_child() {
    let mut children = Children::new();
    let any = with(&mut children, PathPattern::Any, 1);
    assert_eq!(children.match_any().unwrap(), any);
}

#[test]
fn children_match_any_path_returns_catch_all_child() {
    let mut children = Children::new();
    let any_path = with(&mut children, PathPattern::AnyPath, 1);
    assert_eq!(children.match_any_path().unwrap(), any_path);
}

#[test]
fn children_match_one_segment_ignores_any_path() {
    let mut children = Children::new();
    with(&mut children, PathPattern::AnyPath, 1);
    assert!(children.match_one_segment("home").is_none());
}

#[test]
fn children_match_regex_with_idx_skips_previous_matches() {
    let mut children = Children::new();
    with(&mut children, PathPattern::regex_path("^user.*$"), 1);
    let second = with(&mut children, PathPattern::regex_path("^user42$"), 2);
    let (found, idx) = children.match_regex_with_idx("user42", 1).unwrap();
    assert_eq!(idx, 1);
    assert_eq!(found, second);
}

#[test]
fn children_match_step_returns_resume_state_after_literal() {
    let mut children = Children::new();
    let literal = with(&mut children, PathPattern::Literal("home".into()), 1);
    let (found, state) = children.match_step("home", PartialState::NotStart);
    assert_eq!(found.unwrap(), literal);
    assert_eq!(state, PartialState::Lit);
}

#[test]
fn children_match_step_resumes_after_regex() {
    let mut children = Children::new();
    let first = with(&mut children, PathPattern::regex_path("^user.*$"), 1);
    let second = with(&mut children, PathPattern::regex_path("^user42$"), 2);

    let (found, state) = children.match_step("user42", PartialState::NotStart);
    assert_eq!(found.unwrap(), first);
    assert_eq!(state, PartialState::Reg(0));

    let (found, state) = children.match_step("user42", state);
    assert_eq!(found.unwrap(), second);
    assert_eq!(state, PartialState::Reg(1));
}

#[test]
fn match_step_walks_every_candidate_in_priority_order() {
    let mut children = Children::new();
    with(&mut children, PathPattern::AnyPath, 4);
    with(&mut children, PathPattern::Any, 3);
    with(&mut children, PathPattern::regex_path("[a-z]+"), 2);
    with(&mut children, PathPattern::Literal("abc".into()), 1);
    let mut state = PartialState::NotStart;
    let mut seen = Vec::new();
    loop {
        let (found, next) = children.match_step("abc", state);
        state = next;
        match found {
            Some(id) => seen.push(id),
            None => break,
        }
    }
    assert_eq!(seen, vec![1, 2, 3, 4]);
    assert_eq!(state, PartialState::End);
    assert!(state.is_end());
    assert_eq!(children.match_step("abc", PartialState::End), (None, PartialState::End));
}

#[test]
fn reinserted_regex_moves_to_the_end_of_the_regex_order() {
    let mut children = Children::new();
    with(&mut children, PathPattern::regex_path("a.*"), 1);
    with(&mut children, PathPattern::regex_path("ab.*"), 2);
    with(&mut children, PathPattern::regex_path("a.*"), 3);
    assert_eq!(children.match_regex("abc"), Some(2));
    assert_eq!(children.all_nodes(), vec![2, 3]);
}

#[test]
fn all_nodes_lists_literals_in_key_order() {
    let mut children = Children::new();
    with(&mut children, PathPattern::Literal("b".into()), 2);
    with(&mut children, PathPattern::Literal("a".into()), 1);
    with(&mut children, PathPattern::Literal("ab".into()), 3);
    with(&mut children, PathPattern::Any, 9);
    assert_eq!(children.all_nodes(), vec![1, 3, 2, 9]);
    assert_eq!(
        children.display_string(),
        "Literal: a\nLiteral: ab\nLiteral: b\n*\n"
    );
}

#[test]
fn string_order_is_code_point_order() {
    assert!(str_lt("a", "b"));
    assert!(str_lt("a", "ab"));
    assert!(!str_lt("ab", "a"));
    assert!(!str_lt("x", "x"));
    assert!(str_lt("", "a"));
    assert!(str_lt("Z", "a"));
}
