//! Route-pattern parser: turns the token stream of the lexer into one
//! [`PathPattern`] per path segment plus the optional parameter name of each.

use vstd::prelude::*;

use crate::text::{chars_of, push_char, push_str};
use crate::url::lexer::{
    copy_token, kind_regex, tokenize, lex, tokens_view, RawToken, TokenV, TypeKind,
};
use crate::url::params::ParamMap;
use crate::url::pattern::{PathPattern, PatternV};
use crate::text::{decimal, push_decimal};

verus! {

/// Structural errors in a token stream.
#[derive(Debug, Clone, PartialEq, Eq)]
pub enum PatternError {
    /// An angle group did not end with `>` where one was expected.
    ExpectedAngleClose { at: usize },
    /// A pipe-delimited block opened with `expected` pipes closed with fewer.
    MissingClosingPipes { expected: usize, found: usize, at: usize },
    /// A `:` was not followed by an identifier.
    ExpectedIdentAfterColon { at: usize },
    /// An unexpected token right after `<`.
    UnexpectedToken { at: usize, token: RawToken },
    /// A token that only belongs inside an angle group appeared outside one.
    UnexpectedTokenOutsideAngle { at: usize, token: RawToken },
    /// `<**path>` shared its segment with other content.
    AnyPathMixedWithOtherContent { at: usize },
}

/// Mathematical form of a [`PatternError`].
pub enum PatternErrorV {
    ExpectedAngleClose { at: int },
    MissingClosingPipes { expected: int, found: int, at: int },
    ExpectedIdentAfterColon { at: int },
    UnexpectedToken { at: int, token: TokenV },
    UnexpectedTokenOutsideAngle { at: int, token: TokenV },
    AnyPathMixedWithOtherContent { at: int },
}

impl View for PatternError {
    type V = PatternErrorV;

    open spec fn view(&self) -> PatternErrorV {
        match self {
            PatternError::ExpectedAngleClose { at } => PatternErrorV::ExpectedAngleClose {
                at: *at as int,
            },
            PatternError::MissingClosingPipes { expected, found, at } =>
                PatternErrorV::MissingClosingPipes {
                expected: *expected as int,
                found: *found as int,
                at: *at as int,
            },
            PatternError::ExpectedIdentAfterColon { at } =>
                PatternErrorV::ExpectedIdentAfterColon { at: *at as int },
            PatternError::UnexpectedToken { at, token } => PatternErrorV::UnexpectedToken {
                at: *at as int,
                token: token@,
            },
            PatternError::UnexpectedTokenOutsideAngle { at, token } =>
                PatternErrorV::UnexpectedTokenOutsideAngle { at: *at as int, token: token@ },
            PatternError::AnyPathMixedWithOtherContent { at } =>
                PatternErrorV::AnyPathMixedWithOtherContent { at: *at as int },
        }
    }
}

/// The view of an optional name.
pub open spec fn name_view(n: Option<String>) -> Option<Seq<char>> {
    match n {
        Some(s) => Some(s@),
        None => None,
    }
}

/// The views of a sequence of patterns.
pub open spec fn patterns_view(ps: Seq<PathPattern>) -> Seq<PatternV> {
    ps.map_values(|p: PathPattern| p@)
}

/// The views of a sequence of optional names.
pub open spec fn names_view(ns: Seq<Option<String>>) -> Seq<Option<Seq<char>>> {
    ns.map_values(|n: Option<String>| name_view(n))
}

/// The token at index `i`, if any.
pub open spec fn tok_at(ts: Seq<TokenV>, i: int) -> Option<TokenV> {
    if 0 <= i < ts.len() {
        Some(ts[i])
    } else {
        None
    }
}

/// Characters that the minimal regex escaping prefixes with a backslash.
pub open spec fn regex_meta(c: char) -> bool {
    c == '.' || c == '+' || c == '*' || c == '?' || c == '^' || c == '$' || c == '(' || c == ')'
        || c == '[' || c == ']' || c == '{' || c == '}' || c == '|' || c == '\\'
}

/// Each regex metacharacter of `s` preceded by a backslash.
pub open spec fn escaped(s: Seq<char>) -> Seq<char>
    decreases s.len(),
{
    if s.len() == 0 {
        Seq::empty()
    } else {
        let c = s.last();
        escaped(s.drop_last()) + if regex_meta(c) {
            seq!['\\', c]
        } else {
            seq![c]
        }
    }
}

/// Minimal regex escaping for literal text embedded into a regex segment.
pub fn escape_regex(s: &str) -> (out: String)
    ensures
        out@ == escaped(s@),
{
    let cs = chars_of(s);
    let mut out = String::new();
    let mut k: usize = 0;
    while k < cs.len()
        invariant
            cs@ == s@,
            k <= cs@.len(),
            out@ == escaped(cs@.subrange(0, k as int)),
        decreases cs.len() - k,
    {
        let ch = cs[k];
        let ghost before = out@;
        if ch == '.' || ch == '+' || ch == '*' || ch == '?' || ch == '^' || ch == '$' || ch == '('
            || ch == ')' || ch == '[' || ch == ']' || ch == '{' || ch == '}' || ch == '|' || ch
            == '\\' {
            push_char(&mut out, '\\');
            push_char(&mut out, ch);
        } else {
            push_char(&mut out, ch);
        }
        proof {
            let pre = cs@.subrange(0, k as int);
            let next = cs@.subrange(0, k + 1);
            assert(next.drop_last() =~= pre);
            assert(next.last() == ch);
            if regex_meta(ch) {
                assert(out@ =~= before + seq!['\\', ch]);
            } else {
                assert(out@ =~= before + seq![ch]);
            }
        }
        k = k + 1;
    }
    assert(cs@.subrange(0, cs@.len() as int) =~= cs@);
    out
}

/// The shape of one angle group.
pub enum AngleKindV {
    Any,
    AnyPath,
    Regex(Seq<char>),
}

/// The shape of one angle group, as parsed.
pub enum AngleKind {
    Any,
    AnyPath,
    Regex(String),
}

impl View for AngleKind {
    type V = AngleKindV;

    open spec fn view(&self) -> AngleKindV {
        match self {
            AngleKind::Any => AngleKindV::Any,
            AngleKind::AnyPath => AngleKindV::AnyPath,
            AngleKind::Regex(s) => AngleKindV::Regex(s@),
        }
    }
}

/// The end of an angle group at index `j`: an optional `:name`, then `>`.
/// Returns the name and the index after `>`.
pub open spec fn angle_tail(ts: Seq<TokenV>, j: int) -> Result<
    (Option<Seq<char>>, int),
    PatternErrorV,
> {
    if tok_at(ts, j) == Some(TokenV::Colon) {
        match tok_at(ts, j + 1) {
            Some(TokenV::Ident(s)) => if tok_at(ts, j + 2) == Some(TokenV::AngleClose) {
                Ok((Some(s), j + 3))
            } else {
                Err(PatternErrorV::ExpectedAngleClose { at: j + 2 })
            },
            _ => Err(PatternErrorV::ExpectedIdentAfterColon { at: j + 1 }),
        }
    } else if tok_at(ts, j) == Some(TokenV::AngleClose) {
        Ok((None, j + 1))
    } else {
        Err(PatternErrorV::ExpectedAngleClose { at: j })
    }
}

/// The number of consecutive `Pipe` tokens from index `i`.
pub open spec fn pipe_tokens(ts: Seq<TokenV>, i: int) -> nat
    decreases ts.len() - i,
{
    if 0 <= i < ts.len() && ts[i] == TokenV::Pipe {
        1 + pipe_tokens(ts, i + 1)
    } else {
        0
    }
}

/// Attaches a kind to the result of [`angle_tail`].
pub open spec fn with_kind(
    kind: AngleKindV,
    tail: Result<(Option<Seq<char>>, int), PatternErrorV>,
) -> Result<(AngleKindV, Option<Seq<char>>, int), PatternErrorV> {
    match tail {
        Ok((name, j)) => Ok((kind, name, j)),
        Err(e) => Err(e),
    }
}

/// One angle group starting at index `i` (just after `<`):
/// - `<**path[:name]>` is the catch-all;
/// - `<type[:name]>` is the type's regex;
/// - `<|..|content|..|[:name]>` is the block content as a regex, and needs as
///   many closing pipes as opening ones;
/// - `<literal[:name]>` is the literal as a regex;
/// - `<name>` is a named single-segment wildcard;
/// - anything else is an unexpected token.
pub open spec fn angle_spec(ts: Seq<TokenV>, i: int) -> Result<
    (AngleKindV, Option<Seq<char>>, int),
    PatternErrorV,
> {
    match tok_at(ts, i) {
        Some(TokenV::Type(TypeKind::Path)) => with_kind(AngleKindV::AnyPath, angle_tail(ts, i + 1)),
        Some(TokenV::Type(k)) => with_kind(
            AngleKindV::Regex(
                match kind_regex(k) {
                    Some(r) => r,
                    None => Seq::empty(),
                },
            ),
            angle_tail(ts, i + 1),
        ),
        Some(TokenV::Pipe) => {
            let n = pipe_tokens(ts, i);
            let j = i + n;
            let content = match tok_at(ts, j) {
                Some(TokenV::Literal(s)) => s,
                _ => Seq::empty(),
            };
            let j2 = match tok_at(ts, j) {
                Some(TokenV::Literal(_)) => j + 1,
                _ => j,
            };
            let m = if pipe_tokens(ts, j2) < n {
                pipe_tokens(ts, j2)
            } else {
                n
            };
            if m != n {
                Err(PatternErrorV::MissingClosingPipes { expected: n as int, found: m as int, at: j2 + m })
            } else {
                with_kind(AngleKindV::Regex(content), angle_tail(ts, j2 + n))
            }
        },
        Some(TokenV::Literal(s)) => with_kind(AngleKindV::Regex(s), angle_tail(ts, i + 1)),
        Some(TokenV::Ident(s)) => if tok_at(ts, i + 1) == Some(TokenV::AngleClose) {
            Ok((AngleKindV::Any, Some(s), i + 2))
        } else {
            Err(PatternErrorV::ExpectedAngleClose { at: i + 1 })
        },
        Some(t) => Err(PatternErrorV::UnexpectedToken { at: i, token: t }),
        None => Err(PatternErrorV::UnexpectedToken { at: i, token: TokenV::Literal(Seq::empty()) }),
    }
}

/// Whether the token at index `i` exists and is `t` (a token without payload).
fn token_is(tokens: &Vec<RawToken>, i: usize, t: &RawToken) -> (r: bool)
    requires
        !(t@ is Literal) && !(t@ is Ident) && !(t@ is Type),
    ensures
        r == (tok_at(tokens_view(tokens@), i as int) == Some(t@)),
{
    if i >= tokens.len() {
        return false;
    }
    match (&tokens[i], t) {
        (RawToken::Pipe, RawToken::Pipe) => true,
        (RawToken::Colon, RawToken::Colon) => true,
        (RawToken::Slash, RawToken::Slash) => true,
        (RawToken::AngleStart, RawToken::AngleStart) => true,
        (RawToken::AngleClose, RawToken::AngleClose) => true,
        _ => false,
    }
}

/// The view of the result of [`parse_angle_tail`].
pub open spec fn tail_view(r: Result<(Option<String>, usize), PatternError>) -> Result<
    (Option<Seq<char>>, int),
    PatternErrorV,
> {
    match r {
        Ok((n, j)) => Ok((name_view(n), j as int)),
        Err(e) => Err(e@),
    }
}

/// Parses the optional `:name` and the closing `>` at index `j`.
fn parse_angle_tail(tokens: &Vec<RawToken>, j: usize) -> (r: Result<
    (Option<String>, usize),
    PatternError,
>)
    requires
        j <= tokens@.len(),
    ensures
        tail_view(r) == angle_tail(tokens_view(tokens@), j as int),
        r matches Ok((_, k)) ==> j < k <= tokens@.len(),
{
    let ghost ts = tokens_view(tokens@);
    let len = tokens.len();
    assert(ts.len() == len);
    if token_is(tokens, j, &RawToken::Colon) {
        let j1 = j + 1;
        if j1 < tokens.len() {
            if let RawToken::Ident(s) = &tokens[j1] {
                let name = s.clone();
                let j2 = j1 + 1;
                if token_is(tokens, j2, &RawToken::AngleClose) {
                    return Ok((Some(name), j2 + 1));
                } else {
                    return Err(PatternError::ExpectedAngleClose { at: j2 });
                }
            }
        }
        return Err(PatternError::ExpectedIdentAfterColon { at: j1 });
    }
    if token_is(tokens, j, &RawToken::AngleClose) {
        Ok((None, j + 1))
    } else {
        Err(PatternError::ExpectedAngleClose { at: j })
    }
}

/// The view of the result of [`parse_angle`].
pub open spec fn angle_view(r: Result<(AngleKind, Option<String>, usize), PatternError>) -> Result<
    (AngleKindV, Option<Seq<char>>, int),
    PatternErrorV,
> {
    match r {
        Ok((k, n, j)) => Ok((k@, name_view(n), j as int)),
        Err(e) => Err(e@),
    }
}

/// Counts consecutive `Pipe` tokens from index `i`, stopping at `cap`.
fn count_pipe_tokens(tokens: &Vec<RawToken>, i: usize, cap: usize) -> (n: usize)
    requires
        i <= tokens@.len(),
    ensures
        n == if pipe_tokens(tokens_view(tokens@), i as int) < cap {
            pipe_tokens(tokens_view(tokens@), i as int)
        } else {
            cap as nat
        },
{
    let ghost ts = tokens_view(tokens@);
    let len = tokens.len();
    let mut n: usize = 0;
    while n < cap && token_is(tokens, i + n, &RawToken::Pipe)
        invariant
            len == tokens@.len(),
            ts.len() == len,
            n <= cap,
            i + n <= tokens@.len(),
            ts == tokens_view(tokens@),
            n + pipe_tokens(ts, i + n) == pipe_tokens(ts, i as int),
        decreases cap - n,
    {
        n = n + 1;
    }
    n
}

pub proof fn lemma_pipe_tokens_bound(ts: Seq<TokenV>, i: int)
    requires
        0 <= i <= ts.len(),
    ensures
        i + pipe_tokens(ts, i) <= ts.len(),
        i < ts.len() && ts[i] == TokenV::Pipe ==> pipe_tokens(ts, i) >= 1,
    decreases ts.len() - i,
{
    if i < ts.len() && ts[i] == TokenV::Pipe {
        lemma_pipe_tokens_bound(ts, i + 1);
    }
}

/// Parses one angle group starting at `tokens[i]` (just after `<`), returning
/// its kind, its optional name and the index after `>`.
fn parse_angle(tokens: &Vec<RawToken>, i: usize) -> (r: Result<
    (AngleKind, Option<String>, usize),
    PatternError,
>)
    requires
        i <= tokens@.len(),
    ensures
        angle_view(r) == angle_spec(tokens_view(tokens@), i as int),
        r matches Ok((_, _, k)) ==> i < k <= tokens@.len(),
{
    let ghost ts = tokens_view(tokens@);
    if i >= tokens.len() {
        return Err(PatternError::UnexpectedToken { at: i, token: RawToken::Literal(String::new()) });
    }
    assert(ts[i as int] == tokens@[i as int]@);
    match &tokens[i] {
        RawToken::Type(TypeKind::Path) => {
            match parse_angle_tail(tokens, i + 1) {
                Ok((name, j)) => Ok((AngleKind::AnyPath, name, j)),
                Err(e) => Err(e),
            }
        },
        RawToken::Type(kind) => {
            let mut regex = String::new();
            if let Some(rx) = kind.to_regex() {
                push_str(&mut regex, rx);
            }
            match parse_angle_tail(tokens, i + 1) {
                Ok((name, j)) => Ok((AngleKind::Regex(regex), name, j)),
                Err(e) => Err(e),
            }
        },
        RawToken::Pipe => {
            let n = count_pipe_tokens(tokens, i, tokens.len());
            proof {
                lemma_pipe_tokens_bound(ts, i as int);
            }
            let mut j = i + n;
            let mut regex = String::new();
            if j < tokens.len() {
                if let RawToken::Literal(s) = &tokens[j] {
                    assert(ts[j as int] == tokens@[j as int]@);
                    push_str(&mut regex, s.as_str());
                    j = j + 1;
                }
            }
            let m = count_pipe_tokens(tokens, j, n);
            proof {
                lemma_pipe_tokens_bound(ts, j as int);
            }
            if m != n {
                return Err(PatternError::MissingClosingPipes { expected: n, found: m, at: j + m });
            }
            match parse_angle_tail(tokens, j + n) {
                Ok((name, k)) => Ok((AngleKind::Regex(regex), name, k)),
                Err(e) => Err(e),
            }
        },
        RawToken::Literal(s) => {
            let regex = s.clone();
            match parse_angle_tail(tokens, i + 1) {
                Ok((name, j)) => Ok((AngleKind::Regex(regex), name, j)),
                Err(e) => Err(e),
            }
        },
        RawToken::Ident(s) => {
            let name = s.clone();
            if token_is(tokens, i + 1, &RawToken::AngleClose) {
                Ok((AngleKind::Any, Some(name), i + 2))
            } else {
                Err(PatternError::ExpectedAngleClose { at: i + 1 })
            }
        },
        t => Err(PatternError::UnexpectedToken { at: i, token: copy_token(t) }),
    }
}


/// `parse_angle` on a successful group ends strictly after its start.
pub proof fn lemma_angle_spec_advances(ts: Seq<TokenV>, i: int)
    requires
        0 <= i <= ts.len(),
    ensures
        angle_spec(ts, i) matches Ok((_, _, j)) ==> i < j <= ts.len(),
{
    lemma_pipe_tokens_bound(ts, i);
    let n = pipe_tokens(ts, i);
    let j = i + n;
    let j2 = match tok_at(ts, j) {
        Some(TokenV::Literal(_)) => j + 1,
        _ => j,
    };
    if 0 <= j2 <= ts.len() {
        lemma_pipe_tokens_bound(ts, j2);
    }
}

/// Scanning state of one segment.
pub struct SegState {
    /// Index of the next token.
    pub i: int,
    /// Index of the segment's first token.
    pub start: int,
    /// Literal text gathered while the segment has no dynamic part.
    pub lit: Seq<char>,
    /// Regex text gathered once the segment has a dynamic part.
    pub rx: Seq<char>,
    /// Whether the segment has a dynamic (wildcard or regex) part.
    pub dynamic: bool,
    /// Whether the dynamic part so far is a single wildcard.
    pub only_any: bool,
    /// The segment's parameter name (the first one given wins).
    pub name: Option<Seq<char>>,
    /// Whether the segment is the catch-all.
    pub anypath: bool,
    /// Whether the segment ended at a `Slash` token.
    pub by_slash: bool,
}

/// The state at the start of a segment beginning at index `i`.
pub open spec fn seg_init(i: int) -> SegState {
    SegState {
        i,
        start: i,
        lit: Seq::empty(),
        rx: Seq::empty(),
        dynamic: false,
        only_any: false,
        name: None,
        anypath: false,
        by_slash: false,
    }
}

/// Adds plain text to a segment: to the literal text while the segment is
/// static, else to the regex (text from literal tokens is escaped there).
pub open spec fn seg_add_text(s: SegState, text: Seq<char>, rx_text: Seq<char>) -> SegState {
    SegState {
        i: s.i + 1,
        lit: if s.dynamic {
            s.lit
        } else {
            s.lit + text
        },
        rx: if s.dynamic {
            s.rx + rx_text
        } else {
            s.rx
        },
        ..s
    }
}

/// When a dynamic part arrives in a static segment with text, the text moves
/// (escaped) into the regex: the new literal and regex.
pub open spec fn seg_migrate(s: SegState) -> (Seq<char>, Seq<char>) {
    if !s.dynamic && s.lit.len() > 0 {
        (Seq::empty(), s.rx + escaped(s.lit))
    } else {
        (s.lit, s.rx)
    }
}

/// Scans the tokens of one segment up to a `Slash` or the end.
pub open spec fn seg_run(ts: Seq<TokenV>, s: SegState) -> Result<SegState, PatternErrorV>
    decreases ts.len() - s.i,
{
    if s.i < 0 || s.i >= ts.len() {
        Ok(s)
    } else if s.anypath {
        if ts[s.i] != TokenV::Slash {
            Err(PatternErrorV::AnyPathMixedWithOtherContent { at: s.i })
        } else {
            Ok(s)
        }
    } else {
        match ts[s.i] {
            TokenV::Slash => Ok(SegState { by_slash: true, ..s }),
            TokenV::Literal(t) => seg_run(ts, seg_add_text(s, t, escaped(t))),
            TokenV::Pipe => seg_run(ts, seg_add_text(s, seq!['|'], seq!['|'])),
            TokenV::Colon => seg_run(ts, seg_add_text(s, seq![':'], seq![':'])),
            TokenV::AngleStart => {
                proof {
                    lemma_angle_spec_advances(ts, s.i + 1);
                }
                match angle_spec(ts, s.i + 1) {
                    Err(e) => Err(e),
                    Ok((kind, nm, j)) => {
                        let name = if nm is Some && s.name is None {
                            nm
                        } else {
                            s.name
                        };
                        let (lit, rx0) = seg_migrate(s);
                        match kind {
                            AngleKindV::Any => seg_run(
                                ts,
                                SegState {
                                    i: j,
                                    lit,
                                    rx: if s.dynamic {
                                        rx0 + "[^/]+"@
                                    } else {
                                        rx0
                                    },
                                    dynamic: true,
                                    only_any: !s.dynamic,
                                    name,
                                    ..s
                                },
                            ),
                            AngleKindV::AnyPath => if s.dynamic || s.lit.len() > 0 {
                                Err(PatternErrorV::AnyPathMixedWithOtherContent { at: s.start })
                            } else {
                                seg_run(
                                    ts,
                                    SegState {
                                        i: j,
                                        anypath: true,
                                        dynamic: true,
                                        only_any: false,
                                        name,
                                        ..s
                                    },
                                )
                            },
                            AngleKindV::Regex(r) => seg_run(
                                ts,
                                SegState {
                                    i: j,
                                    lit,
                                    rx: rx0 + r,
                                    dynamic: true,
                                    only_any: false,
                                    name,
                                    ..s
                                },
                            ),
                        }
                    },
                }
            },
            t => Err(PatternErrorV::UnexpectedTokenOutsideAngle { at: s.i, token: t }),
        }
    }
}

/// The patterns and names after a finished segment: a catch-all, a wildcard
/// (a lone `<name>`/`<str>`-style group with no regex text), a regex (any
/// other dynamic segment, static text escaped in front), or a literal; an
/// empty segment adds nothing. A slash that is the very last token adds an
/// empty literal for the trailing slash.
pub open spec fn finish_seg(
    ts: Seq<TokenV>,
    pats: Seq<PatternV>,
    names: Seq<Option<Seq<char>>>,
    s: SegState,
) -> (Seq<PatternV>, Seq<Option<Seq<char>>>) {
    let rx = if s.lit.len() > 0 {
        escaped(s.lit) + s.rx
    } else {
        s.rx
    };
    let (p1, n1) = if s.anypath {
        (pats.push(PatternV::AnyPath), names.push(s.name))
    } else if s.dynamic {
        (
            pats.push(
                if s.only_any && rx.len() == 0 {
                    PatternV::Any
                } else {
                    PatternV::Regex(rx)
                },
            ),
            names.push(s.name),
        )
    } else if s.lit.len() > 0 {
        (pats.push(PatternV::Literal(s.lit)), names.push(None))
    } else {
        (pats, names)
    };
    if s.by_slash && s.i == ts.len() - 1 {
        (p1.push(PatternV::Literal(Seq::empty())), n1.push(None))
    } else {
        (p1, n1)
    }
}

/// The first index at or after `i` that does not hold a `Slash`.
pub open spec fn skip_slashes(ts: Seq<TokenV>, i: int) -> int
    decreases ts.len() - i,
{
    if 0 <= i < ts.len() && ts[i] == TokenV::Slash {
        skip_slashes(ts, i + 1)
    } else {
        i
    }
}

pub proof fn lemma_skip_slashes(ts: Seq<TokenV>, i: int)
    requires
        0 <= i <= ts.len(),
    ensures
        i <= skip_slashes(ts, i) <= ts.len(),
        skip_slashes(ts, i) < ts.len() ==> ts[skip_slashes(ts, i)] != TokenV::Slash,
    decreases ts.len() - i,
{
    if i < ts.len() && ts[i] == TokenV::Slash {
        lemma_skip_slashes(ts, i + 1);
    }
}

/// A segment scan never moves backwards, stays in the input, and consumes
/// its first token when that token is not a slash.
pub proof fn lemma_seg_run_advances(ts: Seq<TokenV>, s: SegState)
    requires
        0 <= s.i <= ts.len(),
        !s.by_slash,
    ensures
        seg_run(ts, s) matches Ok(r) ==> s.i <= r.i <= ts.len() && r.start == s.start,
        seg_run(ts, s) matches Ok(r) ==> (s.i < ts.len() && !s.anypath && ts[s.i] != TokenV::Slash
            ==> r.i > s.i),
        seg_run(ts, s) matches Ok(r) ==> (r.i < ts.len() ==> r.anypath || r.by_slash),
        seg_run(ts, s) matches Ok(r) ==> (r.by_slash ==> r.i < ts.len() && ts[r.i] == TokenV::Slash),
        seg_run(ts, s) matches Ok(r) ==> (r.anypath && r.i < ts.len() ==> ts[r.i] == TokenV::Slash),
        seg_run(ts, s) matches Ok(r) ==> (r.by_slash ==> !r.anypath),
    decreases ts.len() - s.i,
{
    if s.i < ts.len() && !s.anypath {
        lemma_angle_spec_advances(ts, s.i + 1);
        match ts[s.i] {
            TokenV::Slash => {},
            TokenV::Literal(t) => lemma_seg_run_advances(ts, seg_add_text(s, t, escaped(t))),
            TokenV::Pipe => lemma_seg_run_advances(ts, seg_add_text(s, seq!['|'], seq!['|'])),
            TokenV::Colon => lemma_seg_run_advances(ts, seg_add_text(s, seq![':'], seq![':'])),
            TokenV::AngleStart => {
                match angle_spec(ts, s.i + 1) {
                    Err(e) => {},
                    Ok((kind, nm, j)) => {
                        let name = if nm is Some && s.name is None {
                            nm
                        } else {
                            s.name
                        };
                        let (lit, rx0) = seg_migrate(s);
                        match kind {
                            AngleKindV::Any => lemma_seg_run_advances(
                                ts,
                                SegState {
                                    i: j,
                                    lit,
                                    rx: if s.dynamic {
                                        rx0 + "[^/]+"@
                                    } else {
                                        rx0
                                    },
                                    dynamic: true,
                                    only_any: !s.dynamic,
                                    name,
                                    ..s
                                },
                            ),
                            AngleKindV::AnyPath => if !(s.dynamic || s.lit.len() > 0) {
                                lemma_seg_run_advances(
                                    ts,
                                    SegState {
                                        i: j,
                                        anypath: true,
                                        dynamic: true,
                                        only_any: false,
                                        name,
                                        ..s
                                    },
                                )
                            },
                            AngleKindV::Regex(r) => lemma_seg_run_advances(
                                ts,
                                SegState {
                                    i: j,
                                    lit,
                                    rx: rx0 + r,
                                    dynamic: true,
                                    only_any: false,
                                    name,
                                    ..s
                                },
                            ),
                        }
                    },
                }
            },
            _ => {},
        }
    }
}

/// The index after a finished segment: past its closing slash, if any.
pub open spec fn after_segment(ts: Seq<TokenV>, s: SegState) -> int {
    if 0 <= s.i < ts.len() && ts[s.i] == TokenV::Slash {
        s.i + 1
    } else {
        s.i
    }
}

/// Parses the segments from index `i` on, appending to `pats` and `names`.
pub open spec fn segments_run(
    ts: Seq<TokenV>,
    i: int,
    pats: Seq<PatternV>,
    names: Seq<Option<Seq<char>>>,
) -> Result<(Seq<PatternV>, Seq<Option<Seq<char>>>), PatternErrorV>
    decreases ts.len() - i,
{
    if i < 0 || i >= ts.len() {
        Ok((pats, names))
    } else {
        let i1 = skip_slashes(ts, i);
        if i1 >= ts.len() {
            Ok((pats, names))
        } else {
            proof {
                lemma_skip_slashes(ts, i);
                lemma_seg_run_advances(ts, seg_init(i1));
            }
            match seg_run(ts, seg_init(i1)) {
                Err(e) => Err(e),
                Ok(s) => {
                    let (p2, n2) = finish_seg(ts, pats, names, s);
                    segments_run(ts, after_segment(ts, s), p2, n2)
                },
            }
        }
    }
}

/// The meaning of [`tokens_to_patterns`] on a token stream.
pub open spec fn patterns_of(ts: Seq<TokenV>) -> Result<
    (Seq<PatternV>, Seq<Option<Seq<char>>>),
    PatternErrorV,
> {
    segments_run(ts, 0, Seq::empty(), Seq::empty())
}

/// The shape of a parse: one name slot per pattern, no name on a literal,
/// and an empty literal (a trailing slash) only in last place.
pub open spec fn shape_ok(ps: Seq<PatternV>, ns: Seq<Option<Seq<char>>>) -> bool {
    &&& ps.len() == ns.len()
    &&& forall|k: int| 0 <= k < ps.len() && #[trigger] ps[k] is Literal ==> ns[k] is None
    &&& forall|k: int| 0 <= k < ps.len() && #[trigger] ps[k] == PatternV::Literal(Seq::empty()) ==> k == ps.len() - 1
}

/// A parse prefix in shape with no empty literal at all.
spec fn shape_open(ps: Seq<PatternV>, ns: Seq<Option<Seq<char>>>) -> bool {
    &&& shape_ok(ps, ns)
    &&& forall|k: int| 0 <= k < ps.len() ==> #[trigger] ps[k] != PatternV::Literal(Seq::empty())
}

proof fn lemma_shape_push(ps: Seq<PatternV>, ns: Seq<Option<Seq<char>>>, p: PatternV, n: Option<Seq<char>>)
    requires
        shape_open(ps, ns),
        p is Literal ==> n is None,
    ensures
        p != PatternV::Literal(Seq::empty()) ==> shape_open(ps.push(p), ns.push(n)),
        shape_ok(ps.push(p), ns.push(n)),
{
    let ps2 = ps.push(p);
    let ns2 = ns.push(n);
    assert forall|k: int| 0 <= k < ps2.len() && #[trigger] ps2[k] is Literal implies ns2[k] is None by {
        if k < ps.len() {
            assert(ps2[k] == ps[k] && ns2[k] == ns[k]);
        }
    }
    assert forall|k: int| 0 <= k < ps2.len() && #[trigger] ps2[k] == PatternV::Literal(Seq::empty()) implies k
        == ps2.len() - 1 by {
        if k < ps.len() {
            assert(ps2[k] == ps[k]);
        }
    }
    if p != PatternV::Literal(Seq::empty()) {
        assert forall|k: int| 0 <= k < ps2.len() implies #[trigger] ps2[k] != PatternV::Literal(Seq::empty()) by {
            if k < ps.len() {
                assert(ps2[k] == ps[k]);
            }
        }
    }
}

proof fn lemma_segments_shape(
    ts: Seq<TokenV>,
    i: int,
    pats: Seq<PatternV>,
    names: Seq<Option<Seq<char>>>,
)
    requires
        shape_open(pats, names),
    ensures
        segments_run(ts, i, pats, names) matches Ok((p, n)) ==> shape_ok(p, n),
    decreases ts.len() - i,
{
    if 0 <= i < ts.len() {
        lemma_skip_slashes(ts, i);
        let i1 = skip_slashes(ts, i);
        if i1 < ts.len() {
            lemma_seg_run_advances(ts, seg_init(i1));
            match seg_run(ts, seg_init(i1)) {
                Err(e) => {},
                Ok(sg) => {
                    let rx = if sg.lit.len() > 0 {
                        escaped(sg.lit) + sg.rx
                    } else {
                        sg.rx
                    };
                    let (p1, n1) = if sg.anypath {
                        (pats.push(PatternV::AnyPath), names.push(sg.name))
                    } else if sg.dynamic {
                        (
                            pats.push(
                                if sg.only_any && rx.len() == 0 {
                                    PatternV::Any
                                } else {
                                    PatternV::Regex(rx)
                                },
                            ),
                            names.push(sg.name),
                        )
                    } else if sg.lit.len() > 0 {
                        (pats.push(PatternV::Literal(sg.lit)), names.push(None))
                    } else {
                        (pats, names)
                    };
                    if sg.anypath {
                        lemma_shape_push(pats, names, PatternV::AnyPath, sg.name);
                    } else if sg.dynamic {
                        lemma_shape_push(
                            pats,
                            names,
                            if sg.only_any && rx.len() == 0 {
                                PatternV::Any
                            } else {
                                PatternV::Regex(rx)
                            },
                            sg.name,
                        );
                    } else if sg.lit.len() > 0 {
                        assert(PatternV::Literal(sg.lit) != PatternV::Literal(Seq::empty()));
                        lemma_shape_push(pats, names, PatternV::Literal(sg.lit), None);
                    }
                    assert(shape_open(p1, n1));
                    let (p2, n2) = finish_seg(ts, pats, names, sg);
                    if sg.by_slash && sg.i == ts.len() - 1 {
                        lemma_shape_push(p1, n1, PatternV::Literal(Seq::empty()), None);
                        assert(after_segment(ts, sg) == ts.len());
                        assert(segments_run(ts, after_segment(ts, sg), p2, n2) == Ok::<
                            (Seq<PatternV>, Seq<Option<Seq<char>>>),
                            PatternErrorV,
                        >((p2, n2)));
                    } else {
                        assert(p2 == p1 && n2 == n1);
                        lemma_segments_shape(ts, after_segment(ts, sg), p2, n2);
                    }
                },
            }
        }
    }
}

/// A successful parse has one name slot per pattern, no name on a
/// literal, and an empty literal (a trailing slash) only in last place.
pub proof fn lemma_patterns_shape(ts: Seq<TokenV>)
    ensures
        patterns_of(ts) matches Ok((p, n)) ==> shape_ok(p, n),
{
    lemma_segments_shape(ts, 0, Seq::empty(), Seq::empty());
}

/// Escaping leaves text without metacharacters as it is.
pub proof fn lemma_escaped_plain(t: Seq<char>)
    requires
        forall|i: int| 0 <= i < t.len() ==> !regex_meta(#[trigger] t[i]),
    ensures
        escaped(t) == t,
    decreases t.len(),
{
    if t.len() > 0 {
        lemma_escaped_plain(t.drop_last());
        assert(t.drop_last() + seq![t.last()] =~= t);
    }
}

/// Every metacharacter of escaped text other than the backslash stands
/// right after a backslash: no metacharacter of the text stays unescaped.
pub proof fn lemma_escaped_guards_meta(t: Seq<char>)
    ensures
        forall|p: int|
            0 <= p < escaped(t).len() && regex_meta(#[trigger] escaped(t)[p]) && escaped(t)[p] != '\\' ==> p > 0
                && escaped(t)[p - 1] == '\\',
        escaped(t).len() >= t.len(),
    decreases t.len(),
{
    if t.len() > 0 {
        let d = t.drop_last();
        lemma_escaped_guards_meta(d);
        let e0 = escaped(d);
        let c = t.last();
        let tail = if regex_meta(c) {
            seq!['\\', c]
        } else {
            seq![c]
        };
        let e = escaped(t);
        assert(e == e0 + tail);
        assert forall|p: int|
            0 <= p < e.len() && regex_meta(#[trigger] e[p]) && e[p] != '\\' implies p > 0 && e[p - 1] == '\\' by {
            if p < e0.len() {
                assert(e[p] == e0[p]);
                if p > 0 {
                    assert(e[p - 1] == e0[p - 1]);
                }
            } else if regex_meta(c) {
                if p == e0.len() {
                    assert(e[p] == '\\');
                } else {
                    assert(e[p - 1] == tail[0]);
                }
            } else {
                assert(e[p] == c);
            }
        }
    }
}

/// Literal text after a typed group in one segment is escaped into the
/// segment's regex: `<type>text` parses to the single regex segment made of
/// the type's regex followed by the escaped text, with no name.
pub proof fn lemma_text_after_group_is_escaped(k: TypeKind, t: Seq<char>)
    requires
        k != TypeKind::Path,
        t.len() > 0,
    ensures
        patterns_of(seq![TokenV::AngleStart, TokenV::Type(k), TokenV::AngleClose, TokenV::Literal(t)]) == Ok::<
            (Seq<PatternV>, Seq<Option<Seq<char>>>),
            PatternErrorV,
        >((seq![PatternV::Regex(kind_regex(k)->0 + escaped(t))], seq![None])),
{
    let ts = seq![TokenV::AngleStart, TokenV::Type(k), TokenV::AngleClose, TokenV::Literal(t)];
    let r = kind_regex(k)->0;
    assert(kind_regex(k) is Some);
    assert(skip_slashes(ts, 0) == 0);
    assert(angle_tail(ts, 2) == Ok::<(Option<Seq<char>>, int), PatternErrorV>((None, 3)));
    assert(angle_spec(ts, 1) == Ok::<(AngleKindV, Option<Seq<char>>, int), PatternErrorV>(
        (AngleKindV::Regex(r), None, 3),
    ));
    let s0 = seg_init(0);
    let s1 = SegState { i: 3, lit: Seq::empty(), rx: Seq::empty() + r, dynamic: true, only_any: false, name: None, ..s0 };
    let s2 = seg_add_text(s1, t, escaped(t));
    assert(seg_run(ts, s2) == Ok::<SegState, PatternErrorV>(s2));
    assert(seg_run(ts, s1) == seg_run(ts, s2));
    assert(seg_run(ts, s0) == seg_run(ts, s1));
    assert(Seq::<char>::empty() + r =~= r);
    assert(s2.rx == r + escaped(t));
    assert(after_segment(ts, s2) == 4);
    let (p2, n2) = finish_seg(ts, Seq::<PatternV>::empty(), Seq::<Option<Seq<char>>>::empty(), s2);
    assert(p2 =~= seq![PatternV::Regex(r + escaped(t))]);
    assert(n2 =~= seq![None::<Seq<char>>]);
    assert(segments_run(ts, 4, p2, n2) == Ok::<(Seq<PatternV>, Seq<Option<Seq<char>>>), PatternErrorV>((p2, n2)));
    assert(segments_run(ts, 0, Seq::empty(), Seq::empty()) == segments_run(ts, 4, p2, n2));
}

/// Literal text before a typed group in one segment is escaped into the
/// segment's regex: `text<type>` parses to the single regex segment made of
/// the escaped text followed by the type's regex, with no name.
pub proof fn lemma_text_before_group_is_escaped(k: TypeKind, t: Seq<char>)
    requires
        k != TypeKind::Path,
        t.len() > 0,
    ensures
        patterns_of(seq![TokenV::Literal(t), TokenV::AngleStart, TokenV::Type(k), TokenV::AngleClose]) == Ok::<
            (Seq<PatternV>, Seq<Option<Seq<char>>>),
            PatternErrorV,
        >((seq![PatternV::Regex(escaped(t) + kind_regex(k)->0)], seq![None])),
{
    let ts = seq![TokenV::Literal(t), TokenV::AngleStart, TokenV::Type(k), TokenV::AngleClose];
    let r = kind_regex(k)->0;
    assert(kind_regex(k) is Some);
    assert(skip_slashes(ts, 0) == 0);
    assert(angle_tail(ts, 3) == Ok::<(Option<Seq<char>>, int), PatternErrorV>((None, 4)));
    assert(angle_spec(ts, 2) == Ok::<(AngleKindV, Option<Seq<char>>, int), PatternErrorV>(
        (AngleKindV::Regex(r), None, 4),
    ));
    let s0 = seg_init(0);
    let s1 = seg_add_text(s0, t, escaped(t));
    assert(s1.lit == Seq::<char>::empty() + t);
    assert(Seq::<char>::empty() + t =~= t);
    assert(seg_migrate(s1) == (Seq::<char>::empty(), Seq::<char>::empty() + escaped(t)));
    assert(Seq::<char>::empty() + escaped(t) =~= escaped(t));
    let s2 = SegState { i: 4, lit: Seq::empty(), rx: escaped(t) + r, dynamic: true, only_any: false, name: None, ..s1 };
    assert(seg_run(ts, s2) == Ok::<SegState, PatternErrorV>(s2));
    assert(seg_run(ts, s1) == seg_run(ts, s2));
    assert(seg_run(ts, s0) == seg_run(ts, s1));
    assert(after_segment(ts, s2) == 4);
    let (p2, n2) = finish_seg(ts, Seq::<PatternV>::empty(), Seq::<Option<Seq<char>>>::empty(), s2);
    assert(p2 =~= seq![PatternV::Regex(escaped(t) + r)]);
    assert(n2 =~= seq![None::<Seq<char>>]);
    assert(segments_run(ts, 4, p2, n2) == Ok::<(Seq<PatternV>, Seq<Option<Seq<char>>>), PatternErrorV>((p2, n2)));
    assert(segments_run(ts, 0, Seq::empty(), Seq::empty()) == segments_run(ts, 4, p2, n2));
}

/// The view of a parse result.
pub open spec fn parse_view(r: Result<(Vec<PathPattern>, Vec<Option<String>>), PatternError>) -> Result<
    (Seq<PatternV>, Seq<Option<Seq<char>>>),
    PatternErrorV,
> {
    match r {
        Ok((p, n)) => Ok((patterns_view(p@), names_view(n@))),
        Err(e) => Err(e@),
    }
}

/// The segment state described by the exec variables of [`tokens_to_patterns`].
pub open spec fn seg_state_of(
    i: usize,
    start: usize,
    lit: Seq<char>,
    rx: Seq<char>,
    dynamic: bool,
    only_any: bool,
    name: Option<String>,
    anypath: bool,
    by_slash: bool,
) -> SegState {
    SegState {
        i: i as int,
        start: start as int,
        lit,
        rx,
        dynamic,
        only_any,
        name: name_view(name),
        anypath,
        by_slash,
    }
}

proof fn lemma_patterns_push(ps: Seq<PathPattern>, p: PathPattern)
    ensures
        patterns_view(ps.push(p)) == patterns_view(ps).push(p@),
{
    assert(patterns_view(ps.push(p)) =~= patterns_view(ps).push(p@));
}

proof fn lemma_names_push(ns: Seq<Option<String>>, n: Option<String>)
    ensures
        names_view(ns.push(n)) == names_view(ns).push(name_view(n)),
{
    assert(names_view(ns.push(n)) =~= names_view(ns).push(name_view(n)));
}

/// Converts a token stream into one pattern per path segment and the
/// optional parameter name of each segment.
///
/// Segments are delimited by `Slash`; empty segments are skipped, except
/// that a slash which is the last token adds an empty literal (trailing
/// slash). A segment is a literal (text only), a wildcard (a lone `<name>`),
/// a regex (types, regex groups, or text mixed with dynamic parts, the text
/// escaped), or the catch-all `<**path>`, which must be alone in its segment.
/// The first name given in a segment is its name.
///
/// The result is exactly [`patterns_of`] of the tokens' views.
pub fn tokens_to_patterns(tokens: &Vec<RawToken>) -> (r: Result<
    (Vec<PathPattern>, Vec<Option<String>>),
    PatternError,
>)
    ensures
        parse_view(r) == patterns_of(tokens_view(tokens@)),
{
    let ghost ts = tokens_view(tokens@);
    let len = tokens.len();
    let mut patterns: Vec<PathPattern> = Vec::new();
    let mut names: Vec<Option<String>> = Vec::new();
    let mut i: usize = 0;
    proof {
        assert(patterns_view(patterns@) =~= Seq::<PatternV>::empty());
        assert(names_view(names@) =~= Seq::<Option<Seq<char>>>::empty());
    }

    while i < len
        invariant
            len == tokens@.len(),
            ts == tokens_view(tokens@),
            i <= len,
            segments_run(ts, i as int, patterns_view(patterns@), names_view(names@))
                == patterns_of(ts),
        ensures
            patterns_of(ts) == Ok::<(Seq<PatternV>, Seq<Option<Seq<char>>>), PatternErrorV>(
                (patterns_view(patterns@), names_view(names@)),
            ),
        decreases len - i,
    {
        let ghost i_outer = i;
        let ghost pats0 = patterns_view(patterns@);
        let ghost names0 = names_view(names@);
        // Skip leading slashes and empty segments.
        while i < len && token_is(tokens, i, &RawToken::Slash)
            invariant
                len == tokens@.len(),
                ts == tokens_view(tokens@),
                i_outer <= i <= len,
                skip_slashes(ts, i as int) == skip_slashes(ts, i_outer as int),
            decreases len - i,
        {
            i = i + 1;
        }
        proof {
            lemma_skip_slashes(ts, i as int);
        }
        if i >= len {
            break;
        }
        let seg_start = i;
        let mut seg_literal = String::new();
        let mut seg_regex = String::new();
        let mut seg_has_dynamic = false;
        let mut seg_only_any = false;
        let mut seg_name: Option<String> = None;
        let mut seg_anypath = false;
        let mut seq_ended_by_slash = false;
        proof {
            lemma_seg_run_advances(ts, seg_init(seg_start as int));
        }

        while i < len
            invariant_except_break
                len == tokens@.len(),
                ts == tokens_view(tokens@),
                seg_start <= i <= len,
                !seq_ended_by_slash,
                seg_run(ts, seg_state_of(i, seg_start, seg_literal@, seg_regex@, seg_has_dynamic,
                    seg_only_any, seg_name, seg_anypath, seq_ended_by_slash)) == seg_run(ts,
                    seg_init(seg_start as int)),
                skip_slashes(ts, i_outer as int) == seg_start,
                seg_start < len,
                segments_run(ts, i_outer as int, pats0, names0) == patterns_of(ts),
                i_outer < len,
            ensures
                seg_run(ts, seg_init(seg_start as int)) == Ok::<SegState, PatternErrorV>(seg_state_of(i, seg_start,
                    seg_literal@, seg_regex@, seg_has_dynamic, seg_only_any, seg_name, seg_anypath,
                    seq_ended_by_slash)),
            decreases len - i,
        {
            let ghost cur = seg_state_of(i, seg_start, seg_literal@, seg_regex@, seg_has_dynamic,
                seg_only_any, seg_name, seg_anypath, seq_ended_by_slash);
            assert(ts[i as int] == tokens@[i as int]@);
            // Once the catch-all is set, only a slash may follow in this segment.
            if seg_anypath {
                if !token_is(tokens, i, &RawToken::Slash) {
                    return Err(PatternError::AnyPathMixedWithOtherContent { at: i });
                }
                break;
            }
            match &tokens[i] {
                RawToken::Slash => {
                    seq_ended_by_slash = true;
                    break;
                },
                RawToken::Literal(s) => {
                    if seg_has_dynamic {
                        let e = escape_regex(s.as_str());
                        push_str(&mut seg_regex, e.as_str());
                    } else {
                        push_str(&mut seg_literal, s.as_str());
                    }
                    i = i + 1;
                    proof {
                        let x = seg_add_text(cur, s@, escaped(s@));
                        assert(seg_literal@ =~= x.lit);
                        assert(seg_regex@ =~= x.rx);
                    }
                },
                RawToken::Pipe => {
                    if seg_has_dynamic {
                        push_char(&mut seg_regex, '|');
                    } else {
                        push_char(&mut seg_literal, '|');
                    }
                    i = i + 1;
                    proof {
                        let x = seg_add_text(cur, seq!['|'], seq!['|']);
                        assert(seg_literal@ =~= x.lit);
                        assert(seg_regex@ =~= x.rx);
                    }
                },
                RawToken::Colon => {
                    if seg_has_dynamic {
                        push_char(&mut seg_regex, ':');
                    } else {
                        push_char(&mut seg_literal, ':');
                    }
                    i = i + 1;
                    proof {
                        let x = seg_add_text(cur, seq![':'], seq![':']);
                        assert(seg_literal@ =~= x.lit);
                        assert(seg_regex@ =~= x.rx);
                    }
                },
                RawToken::AngleStart => {
                    let parsed = parse_angle(tokens, i + 1);
                    let (kind, name_opt, new_i) = match parsed {
                        Ok(v) => v,
                        Err(e) => {
                            return Err(e);
                        },
                    };
                    i = new_i;
                    let ghost kind_v = kind@;
                    let ghost nm_v = name_view(name_opt);
                    if name_opt.is_some() && seg_name.is_none() {
                        seg_name = name_opt;
                    }
                    let ghost name_v = if nm_v is Some && cur.name is None {
                        nm_v
                    } else {
                        cur.name
                    };
                    assert(name_view(seg_name) == name_v);
                    let ghost mig = seg_migrate(cur);
                    match kind {
                        AngleKind::Any => {
                            if !seg_has_dynamic && !seg_literal.as_str().is_empty() {
                                let e = escape_regex(seg_literal.as_str());
                                push_str(&mut seg_regex, e.as_str());
                                seg_literal = String::new();
                            }
                            if seg_has_dynamic {
                                push_str(&mut seg_regex, "[^/]+");
                                seg_only_any = false;
                            } else {
                                seg_only_any = true;
                            }
                            seg_has_dynamic = true;
                            proof {
                                assert(seg_literal@ =~= mig.0);
                                if cur.dynamic {
                                    assert(seg_regex@ =~= mig.1 + "[^/]+"@);
                                } else {
                                    assert(seg_regex@ =~= mig.1);
                                }
                            }
                        },
                        AngleKind::AnyPath => {
                            if seg_has_dynamic || !seg_literal.as_str().is_empty() {
                                return Err(PatternError::AnyPathMixedWithOtherContent { at: seg_start });
                            }
                            seg_anypath = true;
                            seg_has_dynamic = true;
                            seg_only_any = false;
                        },
                        AngleKind::Regex(rx) => {
                            if !seg_has_dynamic && !seg_literal.as_str().is_empty() {
                                let e = escape_regex(seg_literal.as_str());
                                push_str(&mut seg_regex, e.as_str());
                                seg_literal = String::new();
                            }
                            push_str(&mut seg_regex, rx.as_str());
                            seg_has_dynamic = true;
                            seg_only_any = false;
                            proof {
                                assert(seg_literal@ =~= mig.0);
                                assert(seg_regex@ =~= mig.1 + kind_v->Regex_0);
                            }
                        },
                    }
                },
                t => {
                    return Err(PatternError::UnexpectedTokenOutsideAngle { at: i, token: copy_token(t) });
                },
            }
            proof {
                let next = seg_state_of(i, seg_start, seg_literal@, seg_regex@, seg_has_dynamic,
                    seg_only_any, seg_name, seg_anypath, seq_ended_by_slash);
                assert(seg_run(ts, cur) == seg_run(ts, next));
            }
        }

        let ghost done = seg_state_of(i, seg_start, seg_literal@, seg_regex@, seg_has_dynamic,
            seg_only_any, seg_name, seg_anypath, seq_ended_by_slash);
        proof {
            lemma_seg_run_advances(ts, seg_init(seg_start as int));
        }
        let ghost fin = finish_seg(ts, pats0, names0, done);
        let ghost rx_final = if done.lit.len() > 0 {
            escaped(done.lit) + done.rx
        } else {
            done.rx
        };
        let ghost mid: (Seq<PatternV>, Seq<Option<Seq<char>>>) = if done.anypath {
            (pats0.push(PatternV::AnyPath), names0.push(done.name))
        } else if done.dynamic {
            (
                pats0.push(
                    if done.only_any && rx_final.len() == 0 {
                        PatternV::Any
                    } else {
                        PatternV::Regex(rx_final)
                    },
                ),
                names0.push(done.name),
            )
        } else if done.lit.len() > 0 {
            (pats0.push(PatternV::Literal(done.lit)), names0.push(None))
        } else {
            (pats0, names0)
        };
        // Finalize this segment.
        let name_copy = match &seg_name {
            Some(n) => Some(n.clone()),
            None => None,
        };
        if seg_anypath {
            proof {
                lemma_patterns_push(patterns@, PathPattern::AnyPath);
                lemma_names_push(names@, name_copy);
            }
            patterns.push(PathPattern::AnyPath);
            names.push(name_copy);
        } else if seg_has_dynamic {
            if !seg_literal.as_str().is_empty() {
                let mut combined = escape_regex(seg_literal.as_str());
                push_str(&mut combined, seg_regex.as_str());
                seg_regex = combined;
            }
            assert(seg_regex@ =~= rx_final);
            let p = if seg_only_any && seg_regex.as_str().is_empty() {
                PathPattern::Any
            } else {
                PathPattern::regex_path(seg_regex.as_str())
            };
            proof {
                lemma_patterns_push(patterns@, p);
                lemma_names_push(names@, name_copy);
            }
            patterns.push(p);
            names.push(name_copy);
        } else if !seg_literal.as_str().is_empty() {
            let p = PathPattern::literal_path(seg_literal.as_str());
            proof {
                lemma_patterns_push(patterns@, p);
                lemma_names_push(names@, None);
            }
            patterns.push(p);
            names.push(None);
        }
        assert(patterns_view(patterns@) =~= mid.0);
        assert(names_view(names@) =~= mid.1);
        // A slash that is the last token marks a trailing slash.
        if seq_ended_by_slash {
            if i == len - 1 {
                let p = PathPattern::Literal(String::new());
                proof {
                    lemma_patterns_push(patterns@, p);
                    lemma_names_push(names@, None);
                }
                patterns.push(p);
                names.push(None);
                assert(patterns_view(patterns@) =~= mid.0.push(PatternV::Literal(Seq::empty())));
            }
        }
        assert(patterns_view(patterns@) =~= fin.0);
        assert(names_view(names@) =~= fin.1);
        // Consume the slash that ended the segment.
        if i < len && token_is(tokens, i, &RawToken::Slash) {
            i = i + 1;
        }
        assert(i as int == after_segment(ts, done));
    }
    Ok((patterns, names))
}


/// Compiles a route pattern string into per-segment patterns and the
/// optional parameter name of each segment: [`tokenize`] followed by
/// [`tokens_to_patterns`].
pub fn parse(input: &str) -> (r: Result<(Vec<PathPattern>, Vec<Option<String>>), PatternError>)
    ensures
        parse_view(r) == patterns_of(lex(input@)),
{
    let tokens = tokenize(input);
    tokens_to_patterns(&tokens)
}

/// `s` without its leading `/` characters.
pub open spec fn trim_leading_slashes(s: Seq<char>) -> Seq<char>
    decreases s.len(),
{
    if s.len() > 0 && s[0] == '/' {
        trim_leading_slashes(s.drop_first())
    } else {
        s
    }
}

/// The segments joined with `/` between them.
pub open spec fn join_slash(segs: Seq<Seq<char>>) -> Seq<char>
    decreases segs.len(),
{
    if segs.len() == 0 {
        Seq::empty()
    } else if segs.len() == 1 {
        segs[0]
    } else {
        join_slash(segs.drop_last()) + seq!['/'] + segs.last()
    }
}

/// The message for a dynamic segment without a parameter name.
pub open spec fn missing_name_message(idx: nat) -> Seq<char> {
    "Missing parameter name at index "@ + decimal(idx)
}

/// The message for a parameter that has no value.
pub open spec fn missing_param_message(name: Seq<char>) -> Seq<char> {
    "Missing parameter: "@ + name
}

/// The message for patterns and names of different lengths.
pub open spec fn mismatch_message() -> Seq<char> {
    "Pattern and name list length mismatch"@
}

/// The path segments for patterns `k..`: literals as they are, dynamic
/// segments replaced by the value of their named parameter; a catch-all
/// takes its value without leading slashes and ends the path.
pub open spec fn fill_segments(
    pats: Seq<PatternV>,
    names: Seq<Option<Seq<char>>>,
    params: Map<Seq<char>, String>,
    k: int,
) -> Result<Seq<Seq<char>>, Seq<char>>
    decreases pats.len() - k,
{
    if k < 0 || k >= pats.len() {
        Ok(Seq::empty())
    } else {
        match pats[k] {
            PatternV::Literal(l) => match fill_segments(pats, names, params, k + 1) {
                Ok(rest) => Ok(seq![l] + rest),
                Err(e) => Err(e),
            },
            _ => match names[k] {
                None => Err(missing_name_message(k as nat)),
                Some(n) => if !params.contains_key(n) {
                    Err(missing_param_message(n))
                } else if pats[k] is AnyPath {
                    Ok(seq![trim_leading_slashes(params[n]@)])
                } else {
                    match fill_segments(pats, names, params, k + 1) {
                        Ok(rest) => Ok(seq![params[n]@] + rest),
                        Err(e) => Err(e),
                    }
                },
            },
        }
    }
}

/// The path produced by substituting parameters into parsed patterns.
pub open spec fn substitute_spec(
    pats: Seq<PatternV>,
    names: Seq<Option<Seq<char>>>,
    params: Map<Seq<char>, String>,
) -> Result<Seq<char>, Seq<char>> {
    if pats.len() != names.len() {
        Err(mismatch_message())
    } else {
        match fill_segments(pats, names, params, 0) {
            Err(e) => Err(e),
            Ok(segs) => {
                let path = join_slash(segs);
                if path.len() == 0 {
                    Ok(seq!['/'])
                } else {
                    Ok(seq!['/'] + path)
                }
            },
        }
    }
}

/// No catch-all among the patterns from index `k` on.
pub open spec fn no_catch_all_from(pats: Seq<PatternV>, k: int) -> bool {
    forall|i: int| k <= i < pats.len() ==> !(#[trigger] pats[i] is AnyPath)
}

/// Without a catch-all, a successful fill gives one piece per pattern, and
/// the piece of a literal pattern is the literal itself, empty or not.
pub proof fn lemma_fill_one_piece_per_pattern(
    pats: Seq<PatternV>,
    names: Seq<Option<Seq<char>>>,
    params: Map<Seq<char>, String>,
    k: int,
)
    requires
        0 <= k <= pats.len(),
        no_catch_all_from(pats, k),
    ensures
        fill_segments(pats, names, params, k) matches Ok(segs) ==> segs.len() == pats.len() - k && forall|i: int|
            0 <= i < segs.len() && #[trigger] pats[k + i] is Literal ==> segs[i] == pats[k + i]->Literal_0,
    decreases pats.len() - k,
{
    if k < pats.len() {
        lemma_fill_one_piece_per_pattern(pats, names, params, k + 1);
        match fill_segments(pats, names, params, k) {
            Ok(segs) => {
                let rest = fill_segments(pats, names, params, k + 1)->Ok_0;
                assert(fill_segments(pats, names, params, k + 1) is Ok);
                assert forall|i: int| 0 <= i < segs.len() && #[trigger] pats[k + i] is Literal implies segs[i]
                    == pats[k + i]->Literal_0 by {
                    if i > 0 {
                        assert(segs[i] == rest[i - 1]);
                        assert(pats[(k + 1) + (i - 1)] == pats[k + i]);
                    }
                }
            },
            Err(_) => {},
        }
    }
}

/// Appending one more pattern, `pl`, with its name slot `nl`, to patterns
/// without a catch-all adds one piece to a successful fill: the same pieces
/// followed by the new pattern's piece.
proof fn lemma_fill_push(
    pats: Seq<PatternV>,
    names: Seq<Option<Seq<char>>>,
    params: Map<Seq<char>, String>,
    l: Seq<char>,
    k: int,
)
    requires
        0 <= k <= pats.len(),
        names.len() == pats.len(),
        no_catch_all_from(pats, k),
        fill_segments(pats, names, params, k) is Ok,
    ensures
        fill_segments(pats.push(PatternV::Literal(l)), names.push(None), params, k) == Ok::<
            Seq<Seq<char>>,
            Seq<char>,
        >(fill_segments(pats, names, params, k)->Ok_0.push(l)),
    decreases pats.len() - k,
{
    let p2 = pats.push(PatternV::Literal(l));
    let n2 = names.push(None);
    if k == pats.len() {
        assert(p2[k] == PatternV::Literal(l));
        assert(fill_segments(p2, n2, params, k + 1) == Ok::<Seq<Seq<char>>, Seq<char>>(Seq::empty()));
        assert(seq![l] + Seq::<Seq<char>>::empty() =~= Seq::<Seq<char>>::empty().push(l));
    } else {
        assert(p2[k] == pats[k]);
        assert(n2[k] == names[k]);
        assert(!(pats[k] is AnyPath));
        lemma_fill_push(pats, names, params, l, k + 1);
        let rest = fill_segments(pats, names, params, k + 1)->Ok_0;
        match pats[k] {
            PatternV::Literal(x) => {
                assert(seq![x] + rest.push(l) =~= (seq![x] + rest).push(l));
            },
            _ => {
                let n = names[k]->Some_0;
                assert(seq![params[n]@] + rest.push(l) =~= (seq![params[n]@] + rest).push(l));
            },
        }
    }
}

/// Substitution keeps every literal segment: for patterns without a
/// catch-all that substitute to `path`, adding a literal segment `l` (empty
/// included, as a trailing slash parses) substitutes to `path`, a `/`, and
/// `l`.
pub proof fn lemma_substitute_appends_literal(
    pats: Seq<PatternV>,
    names: Seq<Option<Seq<char>>>,
    params: Map<Seq<char>, String>,
    l: Seq<char>,
)
    requires
        pats.len() > 0,
        no_catch_all_from(pats, 0),
        substitute_spec(pats, names, params) is Ok,
    ensures
        substitute_spec(pats.push(PatternV::Literal(l)), names.push(None), params) == Ok::<Seq<char>, Seq<char>>(
            substitute_spec(pats, names, params)->Ok_0 + seq!['/'] + l,
        ),
{
    lemma_fill_push(pats, names, params, l, 0);
    lemma_fill_one_piece_per_pattern(pats, names, params, 0);
    let segs = fill_segments(pats, names, params, 0)->Ok_0;
    let segs2 = segs.push(l);
    assert(segs2.drop_last() =~= segs);
    assert(join_slash(segs2) == join_slash(segs) + seq!['/'] + l);
    let path = join_slash(segs);
    if path.len() == 0 {
        assert(seq!['/'] + path =~= seq!['/']);
    }
    assert(seq!['/'] + join_slash(segs2) =~= seq!['/'] + path + seq!['/'] + l);
}

/// The string without its leading slashes.
pub(crate) fn trim_start_slashes(s: &str) -> (r: String)
    ensures
        r@ == trim_leading_slashes(s@),
{
    let cs = chars_of(s);
    let mut k: usize = 0;
    assert(cs@.subrange(0, cs@.len() as int) =~= s@);
    while k < cs.len() && cs[k] == '/'
        invariant
            cs@ == s@,
            k <= cs@.len(),
            trim_leading_slashes(cs@.subrange(k as int, cs@.len() as int)) == trim_leading_slashes(s@),
        decreases cs.len() - k,
    {
        assert(cs@.subrange(k as int, cs@.len() as int).drop_first() =~= cs@.subrange(k + 1, cs@.len() as int));
        k = k + 1;
    }
    proof {
        assert(cs@.subrange(0, cs@.len() as int) =~= s@);
    }
    crate::url::lexer::string_of(cs.as_slice(), k, cs.len())
}

/// The views of a sequence of strings.
pub open spec fn strings_view(ss: Seq<String>) -> Seq<Seq<char>> {
    ss.map_values(|s: String| s@)
}

/// Substitutes parameters into parsed patterns to build a URL path.
///
/// Literal segments are kept; `Any` and regex segments take the value of
/// their named parameter; a catch-all takes its value without leading
/// slashes and ends the path. Segments are joined with `/` and prefixed with
/// `/` (an empty result is `/`). Errors: the two lists differ in length, a
/// dynamic segment has no name, or a named parameter has no value; the first
/// failing segment decides the message.
pub fn substitute(patterns: &[PathPattern], names: &[Option<String>], params: &ParamMap) -> (r: Result<String, String>)
    requires
        params.wf(),
    ensures
        match r {
            Ok(p) => substitute_spec(patterns_view(patterns@), names_view(names@), params.view_map()) == Ok::<Seq<char>, Seq<char>>(p@),
            Err(e) => substitute_spec(patterns_view(patterns@), names_view(names@), params.view_map()) == Err::<Seq<char>, Seq<char>>(e@),
        },
{
    let ghost pv = patterns_view(patterns@);
    let ghost nv = names_view(names@);
    let ghost pm = params.view_map();
    if patterns.len() != names.len() {
        let msg = "Pattern and name list length mismatch".to_owned();
        return Err(msg);
    }
    let mut segments: Vec<String> = Vec::new();
    let mut idx: usize = 0;
    let mut done = false;
    while idx < patterns.len() && !done
        invariant
            pv == patterns_view(patterns@),
            nv == names_view(names@),
            pm == params.view_map(),
            params.wf(),
            patterns@.len() == names@.len(),
            idx <= patterns@.len(),
            done ==> fill_segments(pv, nv, pm, 0) == Ok::<Seq<Seq<char>>, Seq<char>>(strings_view(segments@)),
            !done ==> (match fill_segments(pv, nv, pm, idx as int) {
                Ok(rest) => fill_segments(pv, nv, pm, 0) == Ok::<Seq<Seq<char>>, Seq<char>>(strings_view(segments@) + rest),
                Err(e) => fill_segments(pv, nv, pm, 0) == Err::<Seq<Seq<char>>, Seq<char>>(e),
            }),
        decreases patterns.len() - idx, if done { 0int } else { 1int },
    {
        let ghost before = segments@;
        assert(pv[idx as int] == patterns@[idx as int]@);
        assert(nv[idx as int] == name_view(names@[idx as int]));
        match &patterns[idx] {
            PathPattern::Literal(lit) => {
                segments.push(lit.clone());
                proof {
                    assert(strings_view(segments@) =~= strings_view(before).push(lit@));
                    match fill_segments(pv, nv, pm, idx + 1) {
                        Ok(rest) => {
                            assert(strings_view(before) + (seq![lit@] + rest) =~= strings_view(segments@) + rest);
                        },
                        Err(e) => {},
                    }
                }
                idx = idx + 1;
            },
            p => {
                let name = match &names[idx] {
                    Some(n) => n,
                    None => {
                        let mut msg = "Missing parameter name at index ".to_owned();
                        push_decimal(&mut msg, idx as u64);
                        return Err(msg);
                    },
                };
                let value = match params.get(name.as_str()) {
                    Some(v) => v,
                    None => {
                        let mut msg = "Missing parameter: ".to_owned();
                        crate::text::push_str(&mut msg, name.as_str());
                        return Err(msg);
                    },
                };
                if p.is_any_path() {
                    segments.push(trim_start_slashes(value.as_str()));
                    proof {
                        assert(strings_view(segments@) =~= strings_view(before) + seq![trim_leading_slashes(value@)]);
                    }
                    done = true;
                } else {
                    segments.push(value.clone());
                    proof {
                        assert(strings_view(segments@) =~= strings_view(before).push(value@));
                        match fill_segments(pv, nv, pm, idx + 1) {
                            Ok(rest) => {
                                assert(strings_view(before) + (seq![value@] + rest) =~= strings_view(segments@) + rest);
                            },
                            Err(e) => {},
                        }
                    }
                    idx = idx + 1;
                }
            },
        }
    }
    proof {
        if !done {
            assert(strings_view(segments@) + Seq::<Seq<char>>::empty() =~= strings_view(segments@));
        }
    }
    let path = join_segments(&segments);
    let mut out = String::new();
    crate::text::push_char(&mut out, '/');
    if !path.as_str().is_empty() {
        crate::text::push_str(&mut out, path.as_str());
    }
    assert(seq!['/'] + path@ =~= out@ || path@.len() == 0);
    Ok(out)
}

/// Joins strings with `/` between them.
fn join_segments(segs: &Vec<String>) -> (r: String)
    ensures
        r@ == join_slash(strings_view(segs@)),
{
    let mut r = String::new();
    let mut k: usize = 0;
    while k < segs.len()
        invariant
            k <= segs@.len(),
            r@ == join_slash(strings_view(segs@).subrange(0, k as int)),
        decreases segs.len() - k,
    {
        let ghost pre = strings_view(segs@).subrange(0, k as int);
        let ghost next = strings_view(segs@).subrange(0, k + 1);
        if k > 0 {
            crate::text::push_char(&mut r, '/');
        }
        crate::text::push_str(&mut r, segs[k].as_str());
        proof {
            assert(next.drop_last() =~= pre);
            if k == 0 {
                assert(r@ =~= next[0]);
            } else {
                assert(r@ =~= join_slash(pre) + seq!['/'] + next.last());
            }
        }
        k = k + 1;
    }
    assert(strings_view(segs@).subrange(0, segs@.len() as int) =~= strings_view(segs@));
    r
}


/// A character as it appears inside a debug-formatted string: quotes,
/// backslashes and the common control characters escaped with a backslash.
pub open spec fn debug_char(c: char) -> Seq<char> {
    if c == '"' {
        seq!['\\', '"']
    } else if c == '\\' {
        seq!['\\', '\\']
    } else if c == '\n' {
        seq!['\\', 'n']
    } else if c == '\r' {
        seq!['\\', 'r']
    } else if c == '\t' {
        seq!['\\', 't']
    } else if c == '\0' {
        seq!['\\', '0']
    } else {
        seq![c]
    }
}

/// The characters of a string, each as in a debug-formatted string.
pub open spec fn debug_chars(s: Seq<char>) -> Seq<char>
    decreases s.len(),
{
    if s.len() == 0 {
        Seq::empty()
    } else {
        debug_chars(s.drop_last()) + debug_char(s.last())
    }
}

/// A string in debug form: quoted, with escapes.
pub open spec fn debug_string(s: Seq<char>) -> Seq<char> {
    seq!['"'] + debug_chars(s) + seq!['"']
}

/// The name of a type kind.
pub open spec fn kind_name(k: TypeKind) -> Seq<char> {
    match k {
        TypeKind::Int => "Int"@,
        TypeKind::UInt => "UInt"@,
        TypeKind::Decimal => "Decimal"@,
        TypeKind::Str => "Str"@,
        TypeKind::Uuid => "Uuid"@,
        TypeKind::Path => "Path"@,
    }
}

/// A token in debug form, such as `Literal("users")` or `Pipe`.
pub open spec fn token_text(t: TokenV) -> Seq<char> {
    match t {
        TokenV::Literal(s) => "Literal("@ + debug_string(s) + ")"@,
        TokenV::Ident(s) => "Ident("@ + debug_string(s) + ")"@,
        TokenV::Type(k) => "Type("@ + kind_name(k) + ")"@,
        TokenV::Pipe => "Pipe"@,
        TokenV::Colon => "Colon"@,
        TokenV::Slash => "Slash"@,
        TokenV::AngleStart => "AngleStart"@,
        TokenV::AngleClose => "AngleClose"@,
    }
}

/// The message of each pattern error.
pub open spec fn pattern_error_message(e: PatternErrorV) -> Seq<char> {
    match e {
        PatternErrorV::ExpectedAngleClose { at } => "Expected '>' at index "@ + decimal(at as nat),
        PatternErrorV::MissingClosingPipes { expected, found, at } => "Expected "@ + decimal(
            expected as nat,
        ) + " closing pipes at index "@ + decimal(at as nat) + ", found "@ + decimal(found as nat),
        PatternErrorV::ExpectedIdentAfterColon { at } => "Expected identifier after ':' at index "@
            + decimal(at as nat),
        PatternErrorV::UnexpectedToken { at, token } => "Unexpected token "@ + token_text(token)
            + " at index "@ + decimal(at as nat),
        PatternErrorV::UnexpectedTokenOutsideAngle { at, token } => "Unexpected token "@ + token_text(
            token,
        ) + " outside angle group at index "@ + decimal(at as nat),
        PatternErrorV::AnyPathMixedWithOtherContent { at } =>
            "<**path> must be the only content within its segment at index "@ + decimal(at as nat),
    }
}

/// Appends `s` in debug form.
fn push_debug_string(out: &mut String, s: &str)
    ensures
        final(out)@ == old(out)@ + debug_string(s@),
{
    let cs = chars_of(s);
    push_char(out, '"');
    let ghost start = out@;
    let mut k: usize = 0;
    while k < cs.len()
        invariant
            cs@ == s@,
            k <= cs@.len(),
            out@ == start + debug_chars(cs@.take(k as int)),
        decreases cs.len() - k,
    {
        let c = cs[k];
        assert(cs@.take(k + 1).drop_last() =~= cs@.take(k as int));
        if c == '"' {
            push_str(out, "\\\"");
        } else if c == '\\' {
            push_str(out, "\\\\");
        } else if c == '\n' {
            push_str(out, "\\n");
        } else if c == '\r' {
            push_str(out, "\\r");
        } else if c == '\t' {
            push_str(out, "\\t");
        } else if c == '\0' {
            push_str(out, "\\0");
        } else {
            push_char(out, c);
        }
        proof {
            reveal_strlit("\\\"");
            reveal_strlit("\\\\");
            reveal_strlit("\\n");
            reveal_strlit("\\r");
            reveal_strlit("\\t");
            reveal_strlit("\\0");
        }
        assert(out@ =~= start + debug_chars(cs@.take(k + 1)));
        k = k + 1;
    }
    assert(cs@.take(k as int) =~= s@);
    push_char(out, '"');
    assert(out@ =~= old(out)@ + debug_string(s@));
}

/// Appends a token in debug form.
fn push_token_text(out: &mut String, t: &RawToken)
    ensures
        final(out)@ == old(out)@ + token_text(t@),
{
    match t {
        RawToken::Literal(s) => {
            push_str(out, "Literal(");
            push_debug_string(out, s.as_str());
            push_str(out, ")");
        },
        RawToken::Ident(s) => {
            push_str(out, "Ident(");
            push_debug_string(out, s.as_str());
            push_str(out, ")");
        },
        RawToken::Type(k) => {
            push_str(out, "Type(");
            match k {
                TypeKind::Int => push_str(out, "Int"),
                TypeKind::UInt => push_str(out, "UInt"),
                TypeKind::Decimal => push_str(out, "Decimal"),
                TypeKind::Str => push_str(out, "Str"),
                TypeKind::Uuid => push_str(out, "Uuid"),
                TypeKind::Path => push_str(out, "Path"),
            }
            push_str(out, ")");
        },
        RawToken::Pipe => push_str(out, "Pipe"),
        RawToken::Colon => push_str(out, "Colon"),
        RawToken::Slash => push_str(out, "Slash"),
        RawToken::AngleStart => push_str(out, "AngleStart"),
        RawToken::AngleClose => push_str(out, "AngleClose"),
    }
}

impl PatternError {
    /// The human-readable message of the error.
    pub fn message(&self) -> (r: String)
        ensures
            r@ == pattern_error_message(self@),
    {
        let mut s = String::new();
        match self {
            PatternError::ExpectedAngleClose { at } => {
                push_str(&mut s, "Expected '>' at index ");
                push_decimal(&mut s, *at as u64);
            },
            PatternError::MissingClosingPipes { expected, found, at } => {
                push_str(&mut s, "Expected ");
                push_decimal(&mut s, *expected as u64);
                push_str(&mut s, " closing pipes at index ");
                push_decimal(&mut s, *at as u64);
                push_str(&mut s, ", found ");
                push_decimal(&mut s, *found as u64);
            },
            PatternError::ExpectedIdentAfterColon { at } => {
                push_str(&mut s, "Expected identifier after ':' at index ");
                push_decimal(&mut s, *at as u64);
            },
            PatternError::UnexpectedToken { at, token } => {
                push_str(&mut s, "Unexpected token ");
                push_token_text(&mut s, token);
                push_str(&mut s, " at index ");
                push_decimal(&mut s, *at as u64);
            },
            PatternError::UnexpectedTokenOutsideAngle { at, token } => {
                push_str(&mut s, "Unexpected token ");
                push_token_text(&mut s, token);
                push_str(&mut s, " outside angle group at index ");
                push_decimal(&mut s, *at as u64);
            },
            PatternError::AnyPathMixedWithOtherContent { at } => {
                push_str(&mut s, "<**path> must be the only content within its segment at index ");
                push_decimal(&mut s, *at as u64);
            },
        }
        s
    }
}

} // verus!
