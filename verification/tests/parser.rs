use hotaru::url::lexer::tokenize;
use hotaru::url::params::ParamMap;
use hotaru::url::parser::{parse, substitute, tokens_to_patterns, PatternError};
use hotaru::url::pattern::PathPattern;

#[test]
fn ok_literal_and_named_any_segments() {
    let tokens = tokenize("/users/<id>/details");
    let (pats, names) = tokens_to_patterns(&tokens).unwrap();
    assert_eq!(
        pats,
        vec![
            PathPattern::literal_path("users"),
            PathPattern::Any,
            PathPattern::literal_path("details"),
        ]
    );
    assert_eq!(names, vec![None, Some("id".to_string()), None]);
}

#[test]
fn parser_root_url() {
    let tokens = tokenize("/");
    let (pats, names) = tokens_to_patterns(&tokens).unwrap();
    // A lone slash only separates segments: there are none.
    assert!(pats.is_empty());
    assert!(names.is_empty());
}

#[test]
fn ok_anypath_catch_all() {
    let tokens = tokenize("/files/<**path:rest>");
    let (pats, names) = tokens_to_patterns(&tokens).unwrap();
    assert_eq!(pats, vec![PathPattern::literal_path("files"), PathPattern::AnyPath]);
    assert_eq!(names, vec![None, Some("rest".to_string())]);
}

#[test]
fn ok_name_only_any() {
    let tokens = tokenize("/<slug>");
    let (pats, names) = tokens_to_patterns(&tokens).unwrap();
    assert_eq!(pats, vec![PathPattern::Any]);
    assert_eq!(names, vec![Some("slug".to_string())]);
}

#[test]
fn ok_str_any_without_name() {
    let tokens = tokenize("/<str>");
    let (pats, names) = tokens_to_patterns(&tokens).unwrap();
    assert_eq!(pats, vec![PathPattern::regex_path("[^/]+")]);
    assert_eq!(names, vec![None]);
}

#[test]
fn any_str_with_trailing_slash() {
    let tokens = tokenize("/<str>/");
    let (pats, names) = tokens_to_patterns(&tokens).unwrap();
    assert_eq!(pats, vec![PathPattern::regex_path("[^/]+"), PathPattern::literal_path("")]);
    assert_eq!(names, vec![None, None]);
}

#[test]
fn error_unterminated_angle() {
    let tokens = tokenize("/<int");
    let err = tokens_to_patterns(&tokens).unwrap_err();
    assert!(matches!(err, PatternError::ExpectedAngleClose { .. }));
}

#[test]
fn error_colon_without_name() {
    let tokens = tokenize("/<int:>");
    let err = tokens_to_patterns(&tokens).unwrap_err();
    assert!(matches!(err, PatternError::ExpectedIdentAfterColon { .. }));
}

#[test]
fn anypath_mixed_with_literal_is_rejected() {
    let tokens = tokenize("/files-<**path>");
    let err = tokens_to_patterns(&tokens).unwrap_err();
    assert_eq!(err, PatternError::AnyPathMixedWithOtherContent { at: 1 });
}

#[test]
fn literal_text_before_typed_group_becomes_escaped_regex() {
    let (pats, names) = parse("/v1.0-<int:n>").unwrap();
    assert_eq!(pats, vec![PathPattern::regex_path("v1\\.0--?\\d+")]);
    assert_eq!(names, vec![Some("n".to_string())]);
}

#[test]
fn pipe_block_needs_matching_closing_pipes() {
    let err = parse("/<||abc|:x>").unwrap_err();
    assert_eq!(err, PatternError::MissingClosingPipes { expected: 2, found: 0, at: 5 });
}

#[test]
fn token_outside_angle_is_rejected() {
    let tokens = vec![hotaru::url::lexer::RawToken::AngleClose];
    let err = tokens_to_patterns(&tokens).unwrap_err();
    assert_eq!(
        err,
        PatternError::UnexpectedTokenOutsideAngle {
            at: 0,
            token: hotaru::url::lexer::RawToken::AngleClose
        }
    );
}

#[test]
fn test_url_substitution() {
    let (patterns, names) = parse("/users/<id>/posts/<post_id>").unwrap();
    let mut params = ParamMap::new();
    params.insert("id".to_string(), "123".to_string());
    params.insert("post_id".to_string(), "456".to_string());
    assert_eq!(substitute(&patterns, &names, &params).unwrap(), "/users/123/posts/456");
}

#[test]
fn test_url_substitution_missing_param() {
    let (patterns, names) = parse("/users/<id>").unwrap();
    let params = ParamMap::new();
    assert!(substitute(&patterns, &names, &params).is_err());
}

#[test]
fn test_url_substitution_typed_params() {
    let (patterns, names) = parse("/page-<uint:page>").unwrap();
    let mut params = ParamMap::new();
    params.insert("page".to_string(), "page-42".to_string());
    assert_eq!(substitute(&patterns, &names, &params).unwrap(), "/page-42");
}

#[test]
fn substitution_error_messages() {
    let (patterns, names) = parse("/users/<int>").unwrap();
    let params = ParamMap::new();
    assert_eq!(
        substitute(&patterns, &names, &params).unwrap_err(),
        "Missing parameter name at index 1"
    );
    let (patterns, names) = parse("/users/<id>").unwrap();
    assert_eq!(substitute(&patterns, &names, &params).unwrap_err(), "Missing parameter: id");
    assert_eq!(
        substitute(&patterns, &names[..1], &params).unwrap_err(),
        "Pattern and name list length mismatch"
    );
}

#[test]
fn substitution_catch_all_trims_leading_slashes_and_stops() {
    let (patterns, names) = parse("/files/<**path:rest>").unwrap();
    let mut params = ParamMap::new();
    params.insert("rest".to_string(), "//a/b".to_string());
    assert_eq!(substitute(&patterns, &names, &params).unwrap(), "/files/a/b");
    let empty: Vec<PathPattern> = Vec::new();
    assert_eq!(substitute(&empty, &[], &params).unwrap(), "/");
}

#[test]
fn parsed_routes_have_one_name_per_pattern_and_a_trailing_empty_literal_last() {
    for input in ["/users/<id>/details/", "/<str>/", "/files/<**path:rest>", "/a//b", "/v1.0-<int:n>"] {
        let (pats, names) = parse(input).unwrap();
        assert_eq!(pats.len(), names.len());
        for (k, p) in pats.iter().enumerate() {
            if let PathPattern::Literal(s) = p {
                assert!(names[k].is_none());
                if s.is_empty() {
                    assert_eq!(k, pats.len() - 1);
                }
            }
        }
    }
}
