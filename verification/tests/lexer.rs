use hotaru::url::lexer::{tokenize, RawToken, TypeKind};

fn lit(s: &str) -> RawToken {
    RawToken::Literal(s.to_string())
}

fn ident(s: &str) -> RawToken {
    RawToken::Ident(s.to_string())
}

#[test]
fn example_double_pipes_regex() {
    let input = "<||\\d+||:name>";
    let tokens = tokenize(input);
    let expected = vec![
        RawToken::AngleStart,
        RawToken::Pipe,
        RawToken::Pipe,
        lit("\\d+"),
        RawToken::Pipe,
        RawToken::Pipe,
        RawToken::Colon,
        ident("name"),
        RawToken::AngleClose,
    ];
    assert_eq!(tokens, expected);
}

#[test]
fn lexer_root_url() {
    let tokens = tokenize("/");
    assert_eq!(tokens, vec![RawToken::Slash]);
}

#[test]
fn any_ident() {
    let tokens = tokenize("<id>");
    assert_eq!(tokens, vec![RawToken::AngleStart, ident("id"), RawToken::AngleClose]);
}

#[test]
fn type_without_name() {
    let tokens = tokenize("<int>");
    assert_eq!(
        tokens,
        vec![RawToken::AngleStart, RawToken::Type(TypeKind::Int), RawToken::AngleClose]
    );
}

#[test]
fn special_type_and_name_int() {
    let tokens = tokenize("<int:id>");
    assert_eq!(
        tokens,
        vec![
            RawToken::AngleStart,
            RawToken::Type(TypeKind::Int),
            RawToken::Colon,
            ident("id"),
            RawToken::AngleClose,
        ]
    );
}

#[test]
fn special_type_and_name_uint() {
    let tokens = tokenize("<uint:id>");
    assert_eq!(
        tokens,
        vec![
            RawToken::AngleStart,
            RawToken::Type(TypeKind::UInt),
            RawToken::Colon,
            ident("id"),
            RawToken::AngleClose,
        ]
    );
}

#[test]
fn special_type_decimal() {
    let tokens = tokenize("<decimal:price>");
    assert_eq!(
        tokens,
        vec![
            RawToken::AngleStart,
            RawToken::Type(TypeKind::Decimal),
            RawToken::Colon,
            ident("price"),
            RawToken::AngleClose,
        ]
    );
}

#[test]
fn special_type_str() {
    let tokens = tokenize("<str:slug>");
    assert_eq!(
        tokens,
        vec![
            RawToken::AngleStart,
            RawToken::Type(TypeKind::Str),
            RawToken::Colon,
            ident("slug"),
            RawToken::AngleClose,
        ]
    );
}

#[test]
fn uuid_type_with_name() {
    let tokens = tokenize("<uuid:order_id>");
    assert_eq!(
        tokens,
        vec![
            RawToken::AngleStart,
            RawToken::Type(TypeKind::Uuid),
            RawToken::Colon,
            ident("order_id"),
            RawToken::AngleClose,
        ]
    );
}

#[test]
fn any_path() {
    let tokens = tokenize("<**path>");
    assert_eq!(
        tokens,
        vec![RawToken::AngleStart, RawToken::Type(TypeKind::Path), RawToken::AngleClose]
    );
}

#[test]
fn outside_literals_and_angle_with_slash_separators() {
    let tokens = tokenize("/users/<id>");
    assert_eq!(
        tokens,
        vec![
            RawToken::Slash,
            lit("users"),
            RawToken::Slash,
            RawToken::AngleStart,
            ident("id"),
            RawToken::AngleClose,
        ]
    );
}

#[test]
fn trailing_slash() {
    let tokens = tokenize("/users/<id>/");
    assert_eq!(
        tokens,
        vec![
            RawToken::Slash,
            lit("users"),
            RawToken::Slash,
            RawToken::AngleStart,
            ident("id"),
            RawToken::AngleClose,
            RawToken::Slash,
        ]
    );
}

#[test]
fn root_only_slash_and_double_slash() {
    assert_eq!(tokenize("/"), vec![RawToken::Slash]);
    assert_eq!(tokenize("//"), vec![RawToken::Slash, RawToken::Slash]);
}

#[test]
fn escape_angles_with_backslash() {
    let tokens = tokenize("foo\\<bar\\>baz");
    assert_eq!(tokens, vec![lit("foo<bar>baz")]);
}

#[test]
fn triple_pipe_regex_with_internal_pipe() {
    let tokens = tokenize("<|||a|b|||:name>");
    assert_eq!(
        tokens,
        vec![
            RawToken::AngleStart,
            RawToken::Pipe,
            RawToken::Pipe,
            RawToken::Pipe,
            lit("a|b"),
            RawToken::Pipe,
            RawToken::Pipe,
            RawToken::Pipe,
            RawToken::Colon,
            ident("name"),
            RawToken::AngleClose,
        ]
    );
}

#[test]
fn freeform_regex_without_block_allows_single_pipes() {
    let tokens = tokenize("<a|b:c>");
    assert_eq!(
        tokens,
        vec![
            RawToken::AngleStart,
            ident("a"),
            RawToken::Pipe,
            ident("b"),
            RawToken::Colon,
            ident("c"),
            RawToken::AngleClose,
        ]
    );
}

#[test]
fn typekind_to_regex_contract() {
    assert_eq!(TypeKind::Int.to_regex(), Some(r"-?\d+"));
    assert_eq!(TypeKind::UInt.to_regex(), Some(r"\d+"));
    assert_eq!(TypeKind::Decimal.to_regex(), Some(r"-?\d+(?:\.\d+)?"));
    assert_eq!(TypeKind::Str.to_regex(), Some(r"[^/]+"));
    assert_eq!(
        TypeKind::Uuid.to_regex(),
        Some(r"(?i)[0-9a-f]{8}-[0-9a-f]{4}-[0-9a-f]{4}-[0-9a-f]{4}-[0-9a-f]{12}")
    );
    assert_eq!(TypeKind::Path.to_regex(), None);
}

#[test]
fn plain_text_lexes_to_literals_and_slashes_that_spell_it() {
    for input in ["/api//v1/", "plain", "", "//", "a-b.c/d e"] {
        let tokens = tokenize(input);
        let mut text = String::new();
        for (k, t) in tokens.iter().enumerate() {
            match t {
                RawToken::Literal(s) => {
                    assert!(!s.is_empty());
                    if k + 1 < tokens.len() {
                        assert!(!matches!(tokens[k + 1], RawToken::Literal(_)));
                    }
                    text.push_str(s);
                }
                RawToken::Slash => text.push('/'),
                other => panic!("unexpected token {:?}", other),
            }
        }
        assert_eq!(text, input);
    }
}
