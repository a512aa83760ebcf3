use hotaru::url::node::stepname::StepName;
use hotaru::url::node::partial::PartialState;
use hotaru::url::split::{path_segments, split_path};

#[test]
fn step_names_insert_get_remove() {
    let mut names = StepName::new();
    assert!(names.is_empty());
    assert_eq!(names.insert("id", 1), None);
    assert_eq!(names.index("id"), Some(1));
    assert_eq!(names.get("id"), Some(1));
    assert_eq!(names.insert("id", 2), Some(1));
    assert_eq!(names.len(), 1);
    names.insert("slug", 2);
    assert!(names.contains("slug"));
    assert_eq!(names.iter().len(), 2);
    assert_eq!(names.remove("id"), Some(2));
    assert!(names.index("id").is_none());
    assert_eq!(names.remove("id"), None);
}

#[test]
fn step_names_from_parser_list_later_index_wins() {
    let names = StepName::from_names(vec![
        None,
        Some("id".to_string()),
        None,
        Some("id".to_string()),
        Some("tail".to_string()),
    ]);
    assert_eq!(names.get("id"), Some(3));
    assert_eq!(names.get("tail"), Some(4));
    assert_eq!(names.len(), 2);
    let d = StepName::default();
    assert!(d.is_empty());
}

#[test]
fn partial_state_end_and_default() {
    assert!(PartialState::End.is_end());
    assert!(!PartialState::Reg(3).is_end());
    assert_eq!(PartialState::default(), PartialState::NotStart);
}

#[test]
fn splitting_keeps_empty_pieces() {
    assert_eq!(split_path(""), vec![String::new()]);
    assert_eq!(split_path("/"), vec![String::new(), String::new()]);
    assert_eq!(split_path("/a/b"), vec!["".to_string(), "a".to_string(), "b".to_string()]);
    assert_eq!(split_path("a//b").join("/"), "a//b");
    assert_eq!(path_segments("/a//b/"), vec!["a".to_string(), "b".to_string()]);
}
