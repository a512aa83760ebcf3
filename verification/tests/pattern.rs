use hotaru::url::pattern::{PathPattern, RegexSegment};
use hotaru::url::lexer::TypeKind;

#[test]
fn literal_is_reflexive() {
    let p = PathPattern::literal_path("users");
    assert_eq!(p, p.clone());
}

#[test]
fn regex_is_reflexive() {
    let p = PathPattern::regex_path(r"\d+");
    assert_eq!(p, p.clone());
}

#[test]
fn any_is_reflexive() {
    assert_eq!(PathPattern::Any, PathPattern::Any);
}

#[test]
fn any_path_is_reflexive() {
    assert_eq!(PathPattern::AnyPath, PathPattern::AnyPath);
}

#[test]
fn literal_same_string_is_equal() {
    assert_eq!(PathPattern::literal_path("users"), PathPattern::literal_path("users"));
}

#[test]
fn literal_different_string_is_not_equal() {
    assert_ne!(PathPattern::literal_path("users"), PathPattern::literal_path("posts"));
}

#[test]
fn literal_case_sensitive() {
    assert_ne!(PathPattern::literal_path("Users"), PathPattern::literal_path("users"));
}

#[test]
fn literal_empty_string_is_equal_to_itself() {
    assert_eq!(PathPattern::literal_path(""), PathPattern::literal_path(""));
}

#[test]
fn literal_empty_string_is_not_any_wildcard() {
    assert_ne!(PathPattern::literal_path(""), PathPattern::Any);
    assert_ne!(PathPattern::literal_path(""), PathPattern::AnyPath);
}

#[test]
fn regex_same_source_is_equal() {
    assert_eq!(PathPattern::regex_path(r"\d+"), PathPattern::regex_path(r"\d+"));
}

#[test]
fn regex_different_source_is_not_equal() {
    assert_ne!(PathPattern::regex_path(r"\d+"), PathPattern::regex_path(r"\w+"));
}

#[test]
fn regex_equivalent_but_different_source_is_not_equal() {
    assert_ne!(PathPattern::regex_path(r"\d+"), PathPattern::regex_path(r"[0-9]+"));
}

#[test]
fn any_does_not_equal_any_path() {
    assert_ne!(PathPattern::Any, PathPattern::AnyPath);
}

#[test]
fn literal_and_regex_are_not_equal_even_if_strings_match() {
    assert_ne!(PathPattern::literal_path(r"\d+"), PathPattern::regex_path(r"\d+"));
}

#[test]
fn literal_and_wildcards_are_not_equal() {
    let lit = PathPattern::literal_path("anything");
    assert_ne!(lit, PathPattern::Any);
    assert_ne!(lit, PathPattern::AnyPath);
}

#[test]
fn regex_and_wildcards_are_not_equal() {
    let re = PathPattern::regex_path(r".*");
    assert_ne!(re, PathPattern::Any);
    assert_ne!(re, PathPattern::AnyPath);
}

#[test]
fn equality_is_symmetric() {
    let lit_a = PathPattern::literal_path("x");
    let lit_b = PathPattern::literal_path("x");
    assert_eq!(lit_a == lit_b, lit_b == lit_a);

    let re_a = PathPattern::regex_path("y");
    let re_b = PathPattern::regex_path("y");
    assert_eq!(re_a == re_b, re_b == re_a);

    assert_eq!(PathPattern::Any == PathPattern::AnyPath, PathPattern::AnyPath == PathPattern::Any);
}

#[test]
fn path_slice_equality_matches_pattern_equality() {
    let lhs = vec![
        PathPattern::literal_path(""),
        PathPattern::literal_path("users"),
        PathPattern::regex_path(r"\d+"),
    ];
    let rhs = vec![
        PathPattern::literal_path(""),
        PathPattern::literal_path("users"),
        PathPattern::regex_path(r"\d+"),
    ];
    assert_eq!(lhs.as_slice(), rhs.as_slice());

    let mut rhs_diff = rhs.clone();
    rhs_diff[1] = PathPattern::literal_path("posts");
    assert_ne!(lhs.as_slice(), rhs_diff.as_slice());

    let mut rhs_re = rhs.clone();
    rhs_re[2] = PathPattern::regex_path(r"\w+");
    assert_ne!(lhs.as_slice(), rhs_re.as_slice());

    let shorter: Vec<PathPattern> = rhs.iter().take(2).cloned().collect();
    assert_ne!(lhs.as_slice(), shorter.as_slice());
}

#[test]
fn literal_matches_exact_segment() {
    assert!(PathPattern::literal_path("users").matches("users"));
    assert!(!PathPattern::literal_path("users").matches("user"));
    assert!(!PathPattern::literal_path("users").matches("users/extra"));
}

#[test]
fn regex_matches_full_segment_only() {
    let p = PathPattern::regex_path(r"[0-9]+");
    assert!(p.matches("123"));
    assert!(!p.matches("123abc"));
    assert!(!p.matches("abc123"));
    assert!(!p.matches(""));
}

#[test]
fn regex_anchoring_handles_inner_anchors() {
    let p = PathPattern::regex_path(r"^user[0-9]+$");
    assert!(p.matches("user42"));
    assert!(!p.matches("user42x"));
}

#[test]
fn invalid_regex_constructs_but_never_matches() {
    let p = PathPattern::regex_path("[unclosed");
    assert!(!p.matches("anything"));
    assert!(!p.matches(""));
}

#[test]
fn any_matches_any_segment() {
    assert!(PathPattern::Any.matches("anything"));
    assert!(PathPattern::Any.matches(""));
}

#[test]
fn any_path_matches_any_segment() {
    assert!(PathPattern::AnyPath.matches("anything"));
}

#[test]
fn regex_segments_report_compilation() {
    assert!(RegexSegment::new("[a-z]+").is_compiled());
    assert!(!RegexSegment::new("[unclosed").is_compiled());
    assert_eq!(RegexSegment::new("a|b").src(), "a|b");
    assert!(RegexSegment::new("a|b").is_match("b"));
    assert!(!RegexSegment::new("a|b").is_match("ab"));
}

#[test]
fn pattern_priorities_and_texts() {
    assert_eq!(PathPattern::literal_path("a").priority(), 0);
    assert_eq!(PathPattern::regex_path("a").priority(), 1);
    assert_eq!(PathPattern::any().priority(), 2);
    assert_eq!(PathPattern::any_path().priority(), 3);
    assert!(PathPattern::any_path().is_any_path());
    assert!(!PathPattern::any().is_any_path());
    assert_eq!(PathPattern::literal_path("home").display(), "Literal: home");
    assert_eq!(PathPattern::regex_path("x+").display(), "Regex: x+");
    assert_eq!(PathPattern::Any.display(), "*");
    assert_eq!(PathPattern::AnyPath.display(), "**");
}

#[test]
fn typed_route_regexes_compile_and_match_under_every_flavour() {
    // All non-Path kinds must compile.
    for kind in [TypeKind::Int, TypeKind::UInt, TypeKind::Decimal, TypeKind::Str, TypeKind::Uuid] {
        let src = kind.to_regex().expect("non-Path kinds expand to a regex");
        assert!(
            RegexSegment::new(src).is_compiled(),
            "typed-route regex for {:?} must compile (src = {:?})",
            kind,
            src,
        );
    }
    // Path is intentionally not a regex.
    assert_eq!(TypeKind::Path.to_regex(), None);

    let seg = |k: TypeKind| RegexSegment::new(k.to_regex().unwrap());

    // Int: optional leading '-', digits, whole segment only.
    let int = seg(TypeKind::Int);
    assert!(int.is_match("123"));
    assert!(int.is_match("-42"));
    assert!(!int.is_match("12a"));
    assert!(!int.is_match(""));

    // UInt: no sign.
    let uint = seg(TypeKind::UInt);
    assert!(uint.is_match("7"));
    assert!(!uint.is_match("-7"));

    // Decimal: optional sign and fractional part; no bare or leading dot.
    let dec = seg(TypeKind::Decimal);
    assert!(dec.is_match("3"));
    assert!(dec.is_match("-3.14"));
    assert!(!dec.is_match("3."));
    assert!(!dec.is_match(".5"));

    // Uuid: 8-4-4-4-12 hex, in either case.
    let uuid = seg(TypeKind::Uuid);
    assert!(uuid.is_match("550e8400-e29b-41d4-a716-446655440000"));
    assert!(uuid.is_match("550E8400-E29B-41D4-A716-446655440000"));
    assert!(!uuid.is_match("550e8400e29b41d4a716446655440000"));
    assert!(!uuid.is_match("zzze8400-e29b-41d4-a716-446655440000"));

    // Str: any single non-slash segment.
    let s = seg(TypeKind::Str);
    assert!(s.is_match("hello"));
    assert!(!s.is_match("a/b"));
}

#[test]
fn typed_number_routes_take_unicode_digits() {
    // `\d` is Unicode-aware in the regex crate, so fullwidth digits are
    // digits too (see `kind_regex`).
    let uint = RegexSegment::new(TypeKind::UInt.to_regex().unwrap());
    assert!(uint.is_match("１２３"));
}
