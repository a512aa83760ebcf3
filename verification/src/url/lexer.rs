//! Route-pattern lexer: turns a pattern string such as `/users/<int:id>` into
//! a flat sequence of [`RawToken`]s.
//!
//! The meaning of [`tokenize`] is given by a small-step machine over the
//! input characters: [`lex_step`] performs one step of the scan and
//! [`lex_run`] runs it to the end of the input, flushing the pending literal.

use vstd::prelude::*;

use crate::text::{chars_of, push_char};

verus! {

/// Strongly-typed parameter kinds recognised at the start of an angle group.
#[derive(Debug, Clone, Copy, PartialEq, Eq)]
pub enum TypeKind {
    /// Signed integer, e.g. `-123`.
    Int,
    /// Unsigned integer, e.g. `123`.
    UInt,
    /// Decimal number, e.g. `-12.34`.
    Decimal,
    /// One non-slash path segment.
    Str,
    /// Canonical 8-4-4-4-12 UUID, case-insensitive.
    Uuid,
    /// Multi-segment catch-all; it has no regex form.
    Path,
}

/// A token of a route pattern.
#[derive(Debug, Clone, PartialEq, Eq)]
pub enum RawToken {
    /// Plain literal text (outside `<...>`, or free-form content inside).
    Literal(String),
    /// A name, such as `id` in `<id>` or in `<int:id>`.
    Ident(String),
    /// A recognised type at the beginning of an angle group.
    Type(TypeKind),
    /// One `|`; consecutive pipes appear as repeated tokens.
    Pipe,
    /// The `:` between a pattern and its name.
    Colon,
    /// The `/` path separator (outside angle groups).
    Slash,
    /// `<`
    AngleStart,
    /// `>`
    AngleClose,
}

/// Mathematical form of a [`RawToken`], with strings as character sequences.
pub enum TokenV {
    Literal(Seq<char>),
    Ident(Seq<char>),
    Type(TypeKind),
    Pipe,
    Colon,
    Slash,
    AngleStart,
    AngleClose,
}

impl View for RawToken {
    type V = TokenV;

    open spec fn view(&self) -> TokenV {
        match self {
            RawToken::Literal(s) => TokenV::Literal(s@),
            RawToken::Ident(s) => TokenV::Ident(s@),
            RawToken::Type(k) => TokenV::Type(*k),
            RawToken::Pipe => TokenV::Pipe,
            RawToken::Colon => TokenV::Colon,
            RawToken::Slash => TokenV::Slash,
            RawToken::AngleStart => TokenV::AngleStart,
            RawToken::AngleClose => TokenV::AngleClose,
        }
    }
}

/// The views of a token sequence.
pub open spec fn tokens_view(ts: Seq<RawToken>) -> Seq<TokenV> {
    ts.map_values(|t: RawToken| t@)
}

/// Returns a copy of a token with the same view.
pub fn copy_token(t: &RawToken) -> (r: RawToken)
    ensures
        r@ == t@,
{
    match t {
        RawToken::Literal(s) => RawToken::Literal(s.clone()),
        RawToken::Ident(s) => RawToken::Ident(s.clone()),
        RawToken::Type(k) => RawToken::Type(*k),
        RawToken::Pipe => RawToken::Pipe,
        RawToken::Colon => RawToken::Colon,
        RawToken::Slash => RawToken::Slash,
        RawToken::AngleStart => RawToken::AngleStart,
        RawToken::AngleClose => RawToken::AngleClose,
    }
}

/// The type named by an identifier: `int`, `uint`, `decimal`, `str`, `uuid`.
pub open spec fn kind_of_ident(s: Seq<char>) -> Option<TypeKind> {
    if s == seq!['i', 'n', 't'] {
        Some(TypeKind::Int)
    } else if s == seq!['u', 'i', 'n', 't'] {
        Some(TypeKind::UInt)
    } else if s == seq!['d', 'e', 'c', 'i', 'm', 'a', 'l'] {
        Some(TypeKind::Decimal)
    } else if s == seq!['s', 't', 'r'] {
        Some(TypeKind::Str)
    } else if s == seq!['u', 'u', 'i', 'd'] {
        Some(TypeKind::Uuid)
    } else {
        None
    }
}

/// The regex source that a type kind expands to (`Path` has none).
///
/// The numeric kinds use `\d`, which the `regex` crate reads as any Unicode
/// decimal digit: `<int:n>` also accepts digits of other scripts, such as
/// fullwidth ones. These exact sources are what the type kinds are held to;
/// a route that must take ASCII digits only says so with a regex group of
/// its own.
pub open spec fn kind_regex(k: TypeKind) -> Option<Seq<char>> {
    match k {
        TypeKind::Int => Some("-?\\d+"@),
        TypeKind::UInt => Some("\\d+"@),
        TypeKind::Decimal => Some("-?\\d+(?:\\.\\d+)?"@),
        TypeKind::Str => Some("[^/]+"@),
        TypeKind::Uuid => Some(
            "(?i)[0-9a-f]{8}-[0-9a-f]{4}-[0-9a-f]{4}-[0-9a-f]{4}-[0-9a-f]{12}"@,
        ),
        TypeKind::Path => None,
    }
}

/// Whether two character slices are equal.
fn chars_equal(a: &[char], b: &[char]) -> (r: bool)
    ensures
        r == (a@ == b@),
{
    if a.len() != b.len() {
        return false;
    }
    let mut k: usize = 0;
    while k < a.len()
        invariant
            a@.len() == b@.len(),
            k <= a@.len(),
            forall|j: int| 0 <= j < k ==> a@[j] == b@[j],
        decreases a.len() - k,
    {
        if a[k] != b[k] {
            return false;
        }
        k = k + 1;
    }
    assert(a@ =~= b@);
    true
}

/// The type kind named by a character slice.
fn kind_of_chars(s: &[char]) -> (r: Option<TypeKind>)
    ensures
        r == kind_of_ident(s@),
{
    let int_name: [char; 3] = ['i', 'n', 't'];
    let uint_name: [char; 4] = ['u', 'i', 'n', 't'];
    let decimal_name: [char; 7] = ['d', 'e', 'c', 'i', 'm', 'a', 'l'];
    let str_name: [char; 3] = ['s', 't', 'r'];
    let uuid_name: [char; 4] = ['u', 'u', 'i', 'd'];
    assert(int_name@ =~= seq!['i', 'n', 't']);
    assert(uint_name@ =~= seq!['u', 'i', 'n', 't']);
    assert(decimal_name@ =~= seq!['d', 'e', 'c', 'i', 'm', 'a', 'l']);
    assert(str_name@ =~= seq!['s', 't', 'r']);
    assert(uuid_name@ =~= seq!['u', 'u', 'i', 'd']);
    if chars_equal(s, &int_name) {
        Some(TypeKind::Int)
    } else if chars_equal(s, &uint_name) {
        Some(TypeKind::UInt)
    } else if chars_equal(s, &decimal_name) {
        Some(TypeKind::Decimal)
    } else if chars_equal(s, &str_name) {
        Some(TypeKind::Str)
    } else if chars_equal(s, &uuid_name) {
        Some(TypeKind::Uuid)
    } else {
        None
    }
}

impl TypeKind {
    /// Recognises a type from the identifier before the colon:
    /// `int`, `uint`, `decimal`, `str` or `uuid`; anything else is `None`.
    pub fn from_ident(ident: &str) -> (r: Option<TypeKind>)
        ensures
            r == kind_of_ident(ident@),
    {
        let cs = chars_of(ident);
        kind_of_chars(cs.as_slice())
    }

    /// The regex snippet of this kind, for composing a route regex; `Path`
    /// is matched greedily elsewhere and has none.
    pub fn to_regex(&self) -> (r: Option<&'static str>)
        ensures
            r matches Some(s) ==> kind_regex(*self) == Some(s@),
            r is None <==> kind_regex(*self) is None,
    {
        match self {
            TypeKind::Int => Some("-?\\d+"),
            TypeKind::UInt => Some("\\d+"),
            TypeKind::Decimal => Some("-?\\d+(?:\\.\\d+)?"),
            TypeKind::Str => Some("[^/]+"),
            TypeKind::Uuid => Some(
                "(?i)[0-9a-f]{8}-[0-9a-f]{4}-[0-9a-f]{4}-[0-9a-f]{4}-[0-9a-f]{12}",
            ),
            TypeKind::Path => None,
        }
    }
}

/// `out` with the pending literal appended, if it is not empty.
pub open spec fn flush(out: Seq<TokenV>, lit: Seq<char>) -> Seq<TokenV> {
    if lit.len() > 0 {
        out.push(TokenV::Literal(lit))
    } else {
        out
    }
}

impl RawToken {
    /// Moves a non-empty pending literal into the output as a `Literal`
    /// token and leaves the buffer empty.
    pub fn push_literal(buf: &mut String, out: &mut Vec<RawToken>)
        ensures
            tokens_view(final(out)@) == flush(tokens_view(old(out)@), old(buf)@),
            final(buf)@ == Seq::<char>::empty(),
    {
        let ghost before = out@;
        if !buf.as_str().is_empty() {
            let mut taken = String::new();
            core::mem::swap(&mut taken, buf);
            out.push(RawToken::Literal(taken));
            assert(tokens_view(out@) =~= tokens_view(before).push(TokenV::Literal(old(buf)@)));
        } else {
            assert(old(buf)@.len() == 0);
        }
        proof {
            if buf@.len() > 0 {
                assert(false);
            }
        }
        assert(buf@ =~= Seq::<char>::empty());
    }
}

/// Identifier start: an ASCII letter or `_`.
pub open spec fn ident_start(c: char) -> bool {
    ('a' <= c && c <= 'z') || ('A' <= c && c <= 'Z') || c == '_'
}

/// Identifier continuation: an ASCII letter, an ASCII digit or `_`.
pub open spec fn ident_continue(c: char) -> bool {
    ident_start(c) || ('0' <= c && c <= '9')
}

/// Whether `c` can start an identifier.
pub fn is_ident_start(c: char) -> (r: bool)
    ensures
        r == ident_start(c),
{
    ('a' <= c && c <= 'z') || ('A' <= c && c <= 'Z') || c == '_'
}

/// Whether `c` can continue an identifier.
pub fn is_ident_continue(c: char) -> (r: bool)
    ensures
        r == ident_continue(c),
{
    is_ident_start(c) || ('0' <= c && c <= '9')
}

/// The number of consecutive `|` characters starting at index `i`.
pub open spec fn pipe_run(cs: Seq<char>, i: int) -> nat
    decreases cs.len() - i,
{
    if 0 <= i < cs.len() && cs[i] == '|' {
        1 + pipe_run(cs, i + 1)
    } else {
        0
    }
}

/// The end of the identifier characters that continue from index `j`.
pub open spec fn ident_end(cs: Seq<char>, j: int) -> int
    decreases cs.len() - j,
{
    if 0 <= j < cs.len() && ident_continue(cs[j]) {
        ident_end(cs, j + 1)
    } else {
        j
    }
}

/// Counts the consecutive `|` characters starting at index `i`.
pub fn count_pipes(chars: &[char], i: usize) -> (n: usize)
    ensures
        n == pipe_run(chars@, i as int),
{
    let mut n: usize = 0;
    let mut k: usize = i;
    while k < chars.len() && chars[k] == '|'
        invariant
            k == i + n,
            n + pipe_run(chars@, k as int) == pipe_run(chars@, i as int),
        decreases chars.len() - k,
    {
        n = n + 1;
        k = k + 1;
    }
    n
}

/// `n` pipe tokens.
pub open spec fn pipes(n: nat) -> Seq<TokenV> {
    Seq::new(n, |_j: int| TokenV::Pipe)
}

/// `n` pipe characters.
pub open spec fn pipe_chars(n: nat) -> Seq<char> {
    Seq::new(n, |_j: int| '|')
}

/// Whether the input continues with `**path` at index `i`.
pub open spec fn at_any_path(cs: Seq<char>, i: int) -> bool {
    0 <= i && i + 6 <= cs.len() && cs.subrange(i, i + 6) == seq!['*', '*', 'p', 'a', 't', 'h']
}

/// The token for an identifier found inside an angle group: before a colon a
/// known type name becomes `Type`, otherwise it is an `Ident`.
pub open spec fn ident_token(s: Seq<char>, after_colon: bool) -> TokenV {
    if !after_colon && kind_of_ident(s) is Some {
        TokenV::Type(kind_of_ident(s)->0)
    } else {
        TokenV::Ident(s)
    }
}

/// State of the scan: position, emitted tokens, pending literal and mode flags.
pub struct LexState {
    pub pos: int,
    pub out: Seq<TokenV>,
    pub lit: Seq<char>,
    pub in_angle: bool,
    pub after_start: bool,
    pub saw_colon: bool,
    pub block: Option<nat>,
    pub freeform: bool,
}

/// The state at the start of a scan.
pub open spec fn lex_init() -> LexState {
    LexState {
        pos: 0,
        out: Seq::empty(),
        lit: Seq::empty(),
        in_angle: false,
        after_start: false,
        saw_colon: false,
        block: None,
        freeform: false,
    }
}

/// One step of the scan at position `s.pos` (which lies inside the input).
///
/// - `\<` and `\>` put `<` / `>` into the pending literal; any other `\` is
///   kept as a literal backslash.
/// - Inside a pipe-delimited block opened with `n` pipes, a run of at least
///   `n` pipes closes it (emitting `n` pipe tokens after the block content);
///   shorter runs and all other characters are content.
/// - In free-form mode, characters are content until `:` or `>`.
/// - Outside angle groups, `<` opens a group, `/` is a separator and anything
///   else is literal text.
/// - Right after `<`: pipes open a block, `**path` is the catch-all type, an
///   identifier is a type or a name, anything else starts free-form mode
///   (without consuming the character).
/// - Later inside a group: `:`, `>` and `|` are tokens, identifiers become
///   types (before a colon) or names, other characters are literal text.
pub open spec fn lex_step(cs: Seq<char>, s: LexState) -> LexState {
    let i = s.pos;
    let c = cs[i];
    if i + 1 < cs.len() && c == '\\' {
        if cs[i + 1] == '<' {
            LexState { pos: i + 2, lit: s.lit.push('<'), ..s }
        } else if cs[i + 1] == '>' {
            LexState { pos: i + 2, lit: s.lit.push('>'), ..s }
        } else {
            LexState { pos: i + 1, lit: s.lit.push('\\'), ..s }
        }
    } else if s.block is Some {
        let n = s.block->0;
        if c == '|' {
            let m = pipe_run(cs, i);
            if m >= n {
                LexState {
                    pos: i + n,
                    out: flush(s.out, s.lit) + pipes(n),
                    lit: Seq::empty(),
                    block: None,
                    ..s
                }
            } else {
                LexState { pos: i + m, lit: s.lit + pipe_chars(m), ..s }
            }
        } else {
            LexState { pos: i + 1, lit: s.lit.push(c), ..s }
        }
    } else if s.freeform {
        if c == ':' {
            LexState {
                pos: i + 1,
                out: flush(s.out, s.lit).push(TokenV::Colon),
                lit: Seq::empty(),
                saw_colon: true,
                freeform: false,
                ..s
            }
        } else if c == '>' {
            LexState {
                pos: i + 1,
                out: flush(s.out, s.lit).push(TokenV::AngleClose),
                lit: Seq::empty(),
                in_angle: false,
                after_start: false,
                saw_colon: false,
                ..s
            }
        } else {
            LexState { pos: i + 1, lit: s.lit.push(c), ..s }
        }
    } else if !s.in_angle {
        if c == '<' {
            LexState {
                pos: i + 1,
                out: flush(s.out, s.lit).push(TokenV::AngleStart),
                lit: Seq::empty(),
                in_angle: true,
                after_start: true,
                saw_colon: false,
                ..s
            }
        } else if c == '/' {
            LexState {
                pos: i + 1,
                out: flush(s.out, s.lit).push(TokenV::Slash),
                lit: Seq::empty(),
                ..s
            }
        } else {
            LexState { pos: i + 1, lit: s.lit.push(c), ..s }
        }
    } else if s.after_start {
        if c == '|' {
            let n = pipe_run(cs, i);
            LexState { pos: i + n, out: s.out + pipes(n), block: Some(n), after_start: false, ..s }
        } else if c == '*' && at_any_path(cs, i) {
            LexState {
                pos: i + 6,
                out: flush(s.out, s.lit).push(TokenV::Type(TypeKind::Path)),
                lit: Seq::empty(),
                after_start: false,
                ..s
            }
        } else if ident_start(c) {
            let j = ident_end(cs, i + 1);
            LexState {
                pos: j,
                out: s.out.push(ident_token(cs.subrange(i, j), false)),
                after_start: false,
                ..s
            }
        } else {
            LexState { freeform: true, ..s }
        }
    } else {
        if c == ':' {
            LexState {
                pos: i + 1,
                out: flush(s.out, s.lit).push(TokenV::Colon),
                lit: Seq::empty(),
                saw_colon: true,
                ..s
            }
        } else if c == '>' {
            LexState {
                pos: i + 1,
                out: flush(s.out, s.lit).push(TokenV::AngleClose),
                lit: Seq::empty(),
                in_angle: false,
                after_start: false,
                saw_colon: false,
                ..s
            }
        } else if c == '|' {
            LexState {
                pos: i + 1,
                out: flush(s.out, s.lit).push(TokenV::Pipe),
                lit: Seq::empty(),
                ..s
            }
        } else if ident_start(c) {
            let j = ident_end(cs, i + 1);
            LexState { pos: j, out: s.out.push(ident_token(cs.subrange(i, j), s.saw_colon)), ..s }
        } else {
            LexState { pos: i + 1, lit: s.lit.push(c), ..s }
        }
    }
}

/// `pipe_run` is at least one on a pipe and never runs past the input.
pub proof fn lemma_pipe_run_bounds(cs: Seq<char>, i: int)
    requires
        0 <= i <= cs.len(),
    ensures
        pipe_run(cs, i) <= cs.len() - i,
        i < cs.len() && cs[i] == '|' ==> pipe_run(cs, i) >= 1,
        forall|j: int| i <= j < i + pipe_run(cs, i) ==> cs[j] == '|',
    decreases cs.len() - i,
{
    if i < cs.len() && cs[i] == '|' {
        lemma_pipe_run_bounds(cs, i + 1);
    }
}

/// `ident_end` stays within the input and only passes identifier characters.
pub proof fn lemma_ident_end_bounds(cs: Seq<char>, j: int)
    requires
        0 <= j <= cs.len(),
    ensures
        j <= ident_end(cs, j) <= cs.len(),
        forall|k: int| j <= k < ident_end(cs, j) ==> ident_continue(#[trigger] cs[k]),
    decreases cs.len() - j,
{
    if j < cs.len() && ident_continue(cs[j]) {
        lemma_ident_end_bounds(cs, j + 1);
    }
}

/// Every step either consumes input or switches into free-form mode.
pub proof fn lemma_lex_step_progress(cs: Seq<char>, s: LexState)
    requires
        0 <= s.pos < cs.len(),
        s.block matches Some(n) ==> n >= 1,
    ensures
        ({
            let t = lex_step(cs, s);
            &&& s.pos <= t.pos <= cs.len()
            &&& (t.pos > s.pos || (t.pos == s.pos && !s.freeform && t.freeform))
            &&& t.block matches Some(n) ==> n >= 1
        }),
{
    lemma_pipe_run_bounds(cs, s.pos);
    lemma_ident_end_bounds(cs, s.pos + 1);
}

/// Well-formedness of a scan state: pipe blocks are opened by at least one pipe.
pub open spec fn lex_state_ok(s: LexState) -> bool {
    s.block matches Some(n) ==> n >= 1
}

/// The tokens produced by scanning from state `s` to the end of the input.
pub open spec fn lex_run(cs: Seq<char>, s: LexState) -> Seq<TokenV>
    decreases cs.len() - s.pos, if s.freeform { 0int } else { 1int },
{
    if s.pos < 0 || s.pos >= cs.len() || !lex_state_ok(s) {
        flush(s.out, s.lit)
    } else {
        proof {
            lemma_lex_step_progress(cs, s);
        }
        lex_run(cs, lex_step(cs, s))
    }
}

/// The tokens of a whole pattern.
pub open spec fn lex(cs: Seq<char>) -> Seq<TokenV> {
    lex_run(cs, lex_init())
}


/// The view of an optional block delimiter count.
pub open spec fn block_view(b: Option<usize>) -> Option<nat> {
    match b {
        Some(n) => Some(n as nat),
        None => None,
    }
}

/// Running the scan from a state is the same as running it from the state
/// after one step.
proof fn lemma_lex_run_unfold(cs: Seq<char>, s: LexState)
    requires
        0 <= s.pos < cs.len(),
        lex_state_ok(s),
    ensures
        lex_run(cs, lex_step(cs, s)) == lex_run(cs, s),
{
}

/// Appends `n` pipe tokens.
fn push_pipes(out: &mut Vec<RawToken>, n: usize)
    ensures
        tokens_view(final(out)@) == tokens_view(old(out)@) + pipes(n as nat),
{
    let ghost start = tokens_view(out@);
    let mut k: usize = 0;
    while k < n
        invariant
            k <= n,
            tokens_view(out@) == start + pipes(k as nat),
        decreases n - k,
    {
        let ghost before = out@;
        out.push(RawToken::Pipe);
        assert(tokens_view(out@) =~= tokens_view(before).push(TokenV::Pipe));
        k = k + 1;
        assert(start + pipes(k as nat) =~= (start + pipes((k - 1) as nat)).push(TokenV::Pipe));
    }
}

/// Appends `m` pipe characters to the pending literal.
fn push_pipe_chars(lit: &mut String, m: usize)
    ensures
        final(lit)@ == old(lit)@ + pipe_chars(m as nat),
{
    let ghost start = lit@;
    let mut k: usize = 0;
    while k < m
        invariant
            k <= m,
            lit@ == start + pipe_chars(k as nat),
        decreases m - k,
    {
        push_char(lit, '|');
        k = k + 1;
        assert(start + pipe_chars(k as nat) =~= (start + pipe_chars((k - 1) as nat)).push('|'));
    }
}

/// The index just past the identifier that starts at `i`.
fn scan_ident(chars: &Vec<char>, i: usize) -> (j: usize)
    requires
        i < chars@.len(),
    ensures
        j == ident_end(chars@, i + 1),
{
    let len = chars.len();
    let mut j: usize = i + 1;
    while j < len && is_ident_continue(chars[j])
        invariant
            i < j <= chars@.len(),
            len == chars@.len(),
            ident_end(chars@, j as int) == ident_end(chars@, i + 1),
        decreases chars.len() - j,
    {
        j = j + 1;
    }
    j
}

/// The string made of `chars[start..end]`.
pub(crate) fn string_of(chars: &[char], start: usize, end: usize) -> (r: String)
    requires
        start <= end <= chars@.len(),
    ensures
        r@ == chars@.subrange(start as int, end as int),
{
    let mut r = String::new();
    let mut k: usize = start;
    while k < end
        invariant
            start <= k <= end,
            end <= chars@.len(),
            r@ == chars@.subrange(start as int, k as int),
        decreases end - k,
    {
        push_char(&mut r, chars[k]);
        k = k + 1;
        assert(r@ =~= chars@.subrange(start as int, k as int));
    }
    r
}

/// Whether `**path` starts at index `i`.
fn starts_any_path(chars: &Vec<char>, i: usize) -> (r: bool)
    ensures
        r == at_any_path(chars@, i as int),
{
    if i > chars.len() || chars.len() - i < 6 {
        return false;
    }
    let r = chars[i] == '*' && chars[i + 1] == '*' && chars[i + 2] == 'p' && chars[i + 3] == 'a'
        && chars[i + 4] == 't' && chars[i + 5] == 'h';
    proof {
        let sub = chars@.subrange(i as int, i + 6);
        if r {
            assert(sub =~= seq!['*', '*', 'p', 'a', 't', 'h']);
        } else {
            if sub == seq!['*', '*', 'p', 'a', 't', 'h'] {
                assert(sub[0] == '*' && sub[1] == '*' && sub[2] == 'p' && sub[3] == 'a');
                assert(sub[4] == 't' && sub[5] == 'h');
            }
        }
    }
    r
}

/// The token for the identifier `chars[start..end]`.
fn ident_token_of(chars: &Vec<char>, start: usize, end: usize, after_colon: bool) -> (t: RawToken)
    requires
        start <= end <= chars@.len(),
    ensures
        t@ == ident_token(chars@.subrange(start as int, end as int), after_colon),
{
    let name = string_of(chars.as_slice(), start, end);
    if !after_colon {
        let kind = kind_of_chars(&chars.as_slice()[start..end]);
        if let Some(k) = kind {
            return RawToken::Type(k);
        }
    }
    RawToken::Ident(name)
}


/// The scan state described by the exec variables of [`tokenize`].
pub open spec fn state_of(
    i: usize,
    out: Seq<RawToken>,
    lit: Seq<char>,
    in_angle: bool,
    after_start: bool,
    saw_colon: bool,
    block: Option<usize>,
    freeform: bool,
) -> LexState {
    LexState {
        pos: i as int,
        out: tokens_view(out),
        lit,
        in_angle,
        after_start,
        saw_colon,
        block: block_view(block),
        freeform,
    }
}

/// Tokenizes a route pattern.
///
/// - `\<` and `\>` stand for literal `<` and `>` (the backslash is dropped).
/// - Outside `<...>`, `/` becomes `Slash` and other text accumulates into
///   `Literal` tokens.
/// - Inside `<...>`: a leading run of `n` pipes opens a regex block closed by
///   `n` pipes (single pipes inside are content); `**path` is `Type(Path)`;
///   a known type name before `:` is `Type`, other identifiers are `Ident`;
///   other leading content is free-form text up to `:` or `>`.
///
/// The result is exactly [`lex`] of the input's characters.
pub fn tokenize(input: &str) -> (out: Vec<RawToken>)
    ensures
        tokens_view(out@) == lex(input@),
{
    let chars = chars_of(input);
    let len = chars.len();
    let mut i: usize = 0;
    let mut out: Vec<RawToken> = Vec::new();
    let mut lit_buf = String::new();
    let mut in_angle = false;
    let mut after_angle_start = false;
    let mut saw_colon_in_angle = false;
    let mut regex_block_delim: Option<usize> = None;
    let mut freeform_regex_until_colon = false;

    proof {
        assert(tokens_view(out@) =~= Seq::<TokenV>::empty());
        assert(state_of(i, out@, lit_buf@, in_angle, after_angle_start, saw_colon_in_angle,
            regex_block_delim, freeform_regex_until_colon) == lex_init());
    }

    while i < len
        invariant
            chars@ == input@,
            len == chars@.len(),
            i <= len,
            regex_block_delim matches Some(n) ==> n >= 1,
            lex_run(
                chars@,
                state_of(i, out@, lit_buf@, in_angle, after_angle_start, saw_colon_in_angle,
                    regex_block_delim, freeform_regex_until_colon),
            ) == lex(input@),
        decreases len - i, if freeform_regex_until_colon { 0int } else { 1int },
    {
        let ghost s0 = state_of(i, out@, lit_buf@, in_angle, after_angle_start,
            saw_colon_in_angle, regex_block_delim, freeform_regex_until_colon);
        let ghost step = lex_step(chars@, s0);
        proof {
            lemma_lex_run_unfold(chars@, s0);
            lemma_pipe_run_bounds(chars@, i as int);
        }
        let ghost out0 = tokens_view(out@);
        let ghost lit0 = lit_buf@;
        let c = chars[i];

        // Escapes for angles: "\<" -> "<", "\>" -> ">".
        if i + 1 < len && c == '\\' {
            if chars[i + 1] == '<' {
                push_char(&mut lit_buf, '<');
                i = i + 2;
            } else if chars[i + 1] == '>' {
                push_char(&mut lit_buf, '>');
                i = i + 2;
            } else {
                push_char(&mut lit_buf, '\\');
                i = i + 1;
            }
            assert(state_of(i, out@, lit_buf@, in_angle, after_angle_start, saw_colon_in_angle,
                regex_block_delim, freeform_regex_until_colon) == step);
            continue;
        }

        // Inside a regex block: consume until the closing run of n pipes.
        if let Some(n) = regex_block_delim {
            if c == '|' {
                let m = count_pipes(chars.as_slice(), i);
                if m >= n {
                    RawToken::push_literal(&mut lit_buf, &mut out);
                    push_pipes(&mut out, n);
                    i = i + n;
                    regex_block_delim = None;
                } else {
                    push_pipe_chars(&mut lit_buf, m);
                    i = i + m;
                }
            } else {
                push_char(&mut lit_buf, c);
                i = i + 1;
            }
            assert(state_of(i, out@, lit_buf@, in_angle, after_angle_start, saw_colon_in_angle,
                regex_block_delim, freeform_regex_until_colon) == step);
            continue;
        }

        // Free-form regex content: collect until ":" or ">".
        if freeform_regex_until_colon {
            if c == ':' {
                RawToken::push_literal(&mut lit_buf, &mut out);
                let ghost mid = out@;
                out.push(RawToken::Colon);
                assert(tokens_view(out@) =~= tokens_view(mid).push(TokenV::Colon));
                saw_colon_in_angle = true;
                freeform_regex_until_colon = false;
            } else if c == '>' {
                RawToken::push_literal(&mut lit_buf, &mut out);
                let ghost mid = out@;
                out.push(RawToken::AngleClose);
                assert(tokens_view(out@) =~= tokens_view(mid).push(TokenV::AngleClose));
                in_angle = false;
                after_angle_start = false;
                saw_colon_in_angle = false;
            } else {
                push_char(&mut lit_buf, c);
            }
            i = i + 1;
            assert(state_of(i, out@, lit_buf@, in_angle, after_angle_start, saw_colon_in_angle,
                regex_block_delim, freeform_regex_until_colon) == step);
            continue;
        }

        if !in_angle {
            if c == '<' {
                RawToken::push_literal(&mut lit_buf, &mut out);
                let ghost mid = out@;
                out.push(RawToken::AngleStart);
                assert(tokens_view(out@) =~= tokens_view(mid).push(TokenV::AngleStart));
                in_angle = true;
                after_angle_start = true;
                saw_colon_in_angle = false;
            } else if c == '/' {
                RawToken::push_literal(&mut lit_buf, &mut out);
                let ghost mid = out@;
                out.push(RawToken::Slash);
                assert(tokens_view(out@) =~= tokens_view(mid).push(TokenV::Slash));
            } else {
                push_char(&mut lit_buf, c);
            }
            i = i + 1;
            assert(state_of(i, out@, lit_buf@, in_angle, after_angle_start, saw_colon_in_angle,
                regex_block_delim, freeform_regex_until_colon) == step);
            continue;
        }

        // First thing after '<'.
        if after_angle_start {
            if c == '|' {
                let n = count_pipes(chars.as_slice(), i);
                push_pipes(&mut out, n);
                i = i + n;
                regex_block_delim = Some(n);
                after_angle_start = false;
                assert(state_of(i, out@, lit_buf@, in_angle, after_angle_start,
                    saw_colon_in_angle, regex_block_delim, freeform_regex_until_colon) == step);
                continue;
            }
            if c == '*' && starts_any_path(&chars, i) {
                RawToken::push_literal(&mut lit_buf, &mut out);
                let ghost mid = out@;
                out.push(RawToken::Type(TypeKind::Path));
                assert(tokens_view(out@) =~= tokens_view(mid).push(TokenV::Type(TypeKind::Path)));
                i = i + 6;
                after_angle_start = false;
                assert(state_of(i, out@, lit_buf@, in_angle, after_angle_start,
                    saw_colon_in_angle, regex_block_delim, freeform_regex_until_colon) == step);
                continue;
            }
            if is_ident_start(c) {
                let j = scan_ident(&chars, i);
                proof {
                    lemma_ident_end_bounds(chars@, i + 1);
                }
                let tok = ident_token_of(&chars, i, j, false);
                let ghost mid = out@;
                out.push(tok);
                assert(tokens_view(out@) =~= tokens_view(mid).push(tok@));
                i = j;
                after_angle_start = false;
                assert(state_of(i, out@, lit_buf@, in_angle, after_angle_start,
                    saw_colon_in_angle, regex_block_delim, freeform_regex_until_colon) == step);
                continue;
            }
            // Free-form regex until ":" or ">"; the character is not consumed here.
            freeform_regex_until_colon = true;
            assert(state_of(i, out@, lit_buf@, in_angle, after_angle_start, saw_colon_in_angle,
                regex_block_delim, freeform_regex_until_colon) == step);
            continue;
        }

        // Later inside <...>.
        if c == ':' {
            RawToken::push_literal(&mut lit_buf, &mut out);
            let ghost mid = out@;
            out.push(RawToken::Colon);
            assert(tokens_view(out@) =~= tokens_view(mid).push(TokenV::Colon));
            saw_colon_in_angle = true;
            i = i + 1;
        } else if c == '>' {
            RawToken::push_literal(&mut lit_buf, &mut out);
            let ghost mid = out@;
            out.push(RawToken::AngleClose);
            assert(tokens_view(out@) =~= tokens_view(mid).push(TokenV::AngleClose));
            in_angle = false;
            after_angle_start = false;
            saw_colon_in_angle = false;
            i = i + 1;
        } else if c == '|' {
            RawToken::push_literal(&mut lit_buf, &mut out);
            let ghost mid = out@;
            out.push(RawToken::Pipe);
            assert(tokens_view(out@) =~= tokens_view(mid).push(TokenV::Pipe));
            i = i + 1;
        } else if is_ident_start(c) {
            let j = scan_ident(&chars, i);
            proof {
                lemma_ident_end_bounds(chars@, i + 1);
            }
            let tok = ident_token_of(&chars, i, j, saw_colon_in_angle);
            let ghost mid = out@;
            out.push(tok);
            assert(tokens_view(out@) =~= tokens_view(mid).push(tok@));
            i = j;
        } else {
            push_char(&mut lit_buf, c);
            i = i + 1;
        }
        assert(state_of(i, out@, lit_buf@, in_angle, after_angle_start, saw_colon_in_angle,
            regex_block_delim, freeform_regex_until_colon) == step);
    }

    let ghost last = state_of(i, out@, lit_buf@, in_angle, after_angle_start,
        saw_colon_in_angle, regex_block_delim, freeform_regex_until_colon);
    RawToken::push_literal(&mut lit_buf, &mut out);
    assert(lex_run(chars@, last) == flush(last.out, last.lit));
    out
}


/// No token of the sequence is an empty literal.
pub open spec fn no_empty_literal(ts: Seq<TokenV>) -> bool {
    forall|k: int| 0 <= k < ts.len() ==> !(#[trigger] ts[k] matches TokenV::Literal(l) && l.len() == 0)
}

proof fn lemma_no_empty_literal_push(ts: Seq<TokenV>, t: TokenV)
    requires
        no_empty_literal(ts),
        !(t matches TokenV::Literal(l) && l.len() == 0),
    ensures
        no_empty_literal(ts.push(t)),
{
    assert forall|k: int| 0 <= k < ts.push(t).len() implies !(#[trigger] ts.push(t)[k] matches TokenV::Literal(
        l,
    ) && l.len() == 0) by {
        if k < ts.len() {
            assert(ts.push(t)[k] == ts[k]);
        }
    }
}

proof fn lemma_no_empty_literal_step(cs: Seq<char>, s: LexState)
    requires
        0 <= s.pos < cs.len(),
        lex_state_ok(s),
        no_empty_literal(s.out),
    ensures
        no_empty_literal(lex_step(cs, s).out),
{
    let f = flush(s.out, s.lit);
    if s.lit.len() > 0 {
        lemma_no_empty_literal_push(s.out, TokenV::Literal(s.lit));
    }
    assert(no_empty_literal(f));
    lemma_no_empty_literal_push(f, TokenV::Colon);
    lemma_no_empty_literal_push(f, TokenV::AngleClose);
    lemma_no_empty_literal_push(f, TokenV::AngleStart);
    lemma_no_empty_literal_push(f, TokenV::Slash);
    lemma_no_empty_literal_push(f, TokenV::Pipe);
    lemma_no_empty_literal_push(f, TokenV::Type(TypeKind::Path));
    let i = s.pos;
    let j = ident_end(cs, i + 1);
    if 0 <= i <= j <= cs.len() {
        lemma_no_empty_literal_push(s.out, ident_token(cs.subrange(i, j), false));
        lemma_no_empty_literal_push(s.out, ident_token(cs.subrange(i, j), s.saw_colon));
    }
    lemma_ident_end_bounds(cs, i + 1);
    let n = pipe_run(cs, i);
    assert forall|k: int| 0 <= k < (s.out + pipes(n)).len() implies !(#[trigger] (s.out + pipes(
        n,
    ))[k] matches TokenV::Literal(l) && l.len() == 0) by {
        if k >= s.out.len() {
            assert((s.out + pipes(n))[k] == TokenV::Pipe);
        } else {
            assert((s.out + pipes(n))[k] == s.out[k]);
        }
    }
    if let Some(b) = s.block {
        assert forall|k: int| 0 <= k < (f + pipes(b)).len() implies !(#[trigger] (f + pipes(
            b,
        ))[k] matches TokenV::Literal(l) && l.len() == 0) by {
            if k >= f.len() {
                assert((f + pipes(b))[k] == TokenV::Pipe);
            } else {
                assert((f + pipes(b))[k] == f[k]);
            }
        }
    }
}

proof fn lemma_no_empty_literal_run(cs: Seq<char>, s: LexState)
    requires
        no_empty_literal(s.out),
    ensures
        no_empty_literal(lex_run(cs, s)),
    decreases cs.len() - s.pos, if s.freeform { 0int } else { 1int },
{
    if s.pos < 0 || s.pos >= cs.len() || !lex_state_ok(s) {
        if s.lit.len() > 0 {
            lemma_no_empty_literal_push(s.out, TokenV::Literal(s.lit));
        }
    } else {
        lemma_lex_step_progress(cs, s);
        lemma_no_empty_literal_step(cs, s);
        lemma_no_empty_literal_run(cs, lex_step(cs, s));
    }
}

/// The lexer never emits an empty `Literal` token: literal text is only
/// flushed into the output when it is non-empty.
pub proof fn lemma_tokenize_no_empty_literal(cs: Seq<char>)
    ensures
        no_empty_literal(lex(cs)),
{
    lemma_no_empty_literal_run(cs, lex_init());
}

/// The text that a sequence of literal and slash tokens spells.
pub open spec fn render(ts: Seq<TokenV>) -> Seq<char>
    decreases ts.len(),
{
    if ts.len() == 0 {
        Seq::empty()
    } else {
        render(ts.drop_last()) + match ts.last() {
            TokenV::Literal(l) => l,
            TokenV::Slash => seq!['/'],
            _ => Seq::empty(),
        }
    }
}

/// Text without `<`, `>` or a backslash: nothing in it opens a group or escapes.
pub open spec fn plain_text(cs: Seq<char>) -> bool {
    forall|i: int| 0 <= i < cs.len() ==> #[trigger] cs[i] != '<' && cs[i] != '>' && cs[i] != '\\'
}

/// Every token is a literal or a slash, and no two literals are adjacent.
pub open spec fn plain_tokens(ts: Seq<TokenV>) -> bool {
    &&& forall|k: int| 0 <= k < ts.len() ==> (#[trigger] ts[k] is Literal || ts[k] is Slash)
    &&& forall|k: int| 0 <= k < ts.len() - 1 ==> !(#[trigger] ts[k] is Literal && ts[k + 1] is Literal)
}

/// The scan state invariant for plain text: outside any group, the output
/// is plain and ends in a slash (or is empty), and the output and pending
/// literal spell the text read so far.
spec fn plain_state(cs: Seq<char>, s: LexState) -> bool {
    &&& !s.in_angle
    &&& s.block is None
    &&& !s.freeform
    &&& 0 <= s.pos <= cs.len()
    &&& plain_tokens(s.out)
    &&& s.out.len() > 0 ==> s.out.last() == TokenV::Slash
    &&& render(s.out) + s.lit == cs.take(s.pos)
}

proof fn lemma_plain_push(ts: Seq<TokenV>, t: TokenV)
    requires
        plain_tokens(ts),
        t is Literal || t is Slash,
        t is Literal ==> ts.len() == 0 || ts.last() == TokenV::Slash,
    ensures
        plain_tokens(ts.push(t)),
        render(ts.push(t)) == render(ts) + match t {
            TokenV::Literal(l) => l,
            TokenV::Slash => seq!['/'],
            _ => Seq::empty(),
        },
{
    let u = ts.push(t);
    assert(u.drop_last() =~= ts);
    assert forall|k: int| 0 <= k < u.len() implies (#[trigger] u[k] is Literal || u[k] is Slash) by {
        if k < ts.len() {
            assert(u[k] == ts[k]);
        }
    }
    assert forall|k: int| 0 <= k < u.len() - 1 implies !(#[trigger] u[k] is Literal && u[k + 1] is Literal) by {
        if k + 1 < ts.len() {
            assert(u[k] == ts[k] && u[k + 1] == ts[k + 1]);
        } else {
            assert(u[k] == ts.last());
        }
    }
}

proof fn lemma_plain_run(cs: Seq<char>, s: LexState)
    requires
        plain_text(cs),
        plain_state(cs, s),
    ensures
        plain_tokens(lex_run(cs, s)),
        render(lex_run(cs, s)) == cs,
    decreases cs.len() - s.pos,
{
    if s.pos >= cs.len() {
        assert(cs.take(s.pos) =~= cs);
        if s.lit.len() > 0 {
            lemma_plain_push(s.out, TokenV::Literal(s.lit));
        }
    } else {
        let i = s.pos;
        let c = cs[i];
        assert(c != '<' && c != '>' && c != '\\');
        let t = lex_step(cs, s);
        assert(cs.take(i + 1) =~= cs.take(i).push(c));
        if c == '/' {
            let f = flush(s.out, s.lit);
            if s.lit.len() > 0 {
                lemma_plain_push(s.out, TokenV::Literal(s.lit));
            } else {
                assert(render(s.out) + s.lit =~= render(s.out));
            }
            assert(render(f) == cs.take(i));
            lemma_plain_push(f, TokenV::Slash);
            assert(t.out == f.push(TokenV::Slash));
            assert(render(t.out) + t.lit =~= cs.take(i + 1));
        } else {
            assert(t.lit == s.lit.push(c));
            assert(render(t.out) + t.lit =~= cs.take(i + 1));
        }
        lemma_plain_run(cs, t);
    }
}

/// Plain text (no `<`, `>` or backslash) lexes to literals and slashes only,
/// never two literals in a row and never an empty literal, that spell the
/// text back.
pub proof fn lemma_tokenize_plain(cs: Seq<char>)
    requires
        plain_text(cs),
    ensures
        plain_tokens(lex(cs)),
        no_empty_literal(lex(cs)),
        render(lex(cs)) == cs,
{
    let s = lex_init();
    assert(cs.take(0) =~= Seq::<char>::empty());
    assert(render(s.out) + s.lit =~= cs.take(0));
    lemma_plain_run(cs, s);
    lemma_tokenize_no_empty_literal(cs);
}

/// A free-form group's regex text: characters that are not `:`, `>` or a
/// backslash.
pub open spec fn freeform_text(r: Seq<char>) -> bool {
    forall|j: int| 0 <= j < r.len() ==> #[trigger] r[j] != ':' && r[j] != '>' && r[j] != '\\'
}

/// An identifier: an identifier start followed by identifier characters.
pub open spec fn identifier(n: Seq<char>) -> bool {
    &&& n.len() > 0
    &&& ident_start(n[0])
    &&& forall|j: int| 0 <= j < n.len() ==> ident_continue(#[trigger] n[j])
}

proof fn lemma_freeform_consumes(cs: Seq<char>, s: LexState, m: int)
    requires
        s.freeform,
        s.block is None,
        0 <= s.pos,
        s.pos + m <= cs.len(),
        0 <= m,
        forall|j: int| s.pos <= j < s.pos + m ==> #[trigger] cs[j] != ':' && cs[j] != '>' && cs[j] != '\\',
    ensures
        lex_run(cs, s) == lex_run(cs, LexState { pos: s.pos + m, lit: s.lit + cs.subrange(s.pos, s.pos + m), ..s }),
    decreases m,
{
    if m == 0 {
        assert(s.lit + cs.subrange(s.pos, s.pos) =~= s.lit);
        assert(LexState { pos: s.pos + 0, lit: s.lit + cs.subrange(s.pos, s.pos), ..s } == s);
    } else {
        let c = cs[s.pos];
        assert(c != ':' && c != '>' && c != '\\');
        lemma_lex_run_unfold(cs, s);
        let t = lex_step(cs, s);
        assert(t == LexState { pos: s.pos + 1, lit: s.lit.push(c), ..s });
        lemma_freeform_consumes(cs, t, m - 1);
        assert(t.lit + cs.subrange(t.pos, t.pos + (m - 1)) =~= s.lit + cs.subrange(s.pos, s.pos + m));
    }
}

proof fn lemma_ident_end_at(cs: Seq<char>, j: int, e: int)
    requires
        0 <= j <= e < cs.len(),
        forall|k: int| j <= k < e ==> ident_continue(#[trigger] cs[k]),
        !ident_continue(cs[e]),
    ensures
        ident_end(cs, j) == e,
    decreases e - j,
{
    if j < e {
        lemma_ident_end_at(cs, j + 1, e);
    }
}

/// In a free-form group `<R:name>` the first `:` ends the regex text: when
/// `R` does not start like a pipe block, a `**path` or an identifier and has
/// no `:`, `>` or backslash, and `name` is an identifier that names no
/// type, the group lexes to the group start, the regex text `R` as one
/// literal, the colon, the name and the group end.
pub proof fn lemma_freeform_group_name(r: Seq<char>, name: Seq<char>)
    requires
        r.len() > 0,
        freeform_text(r),
        r[0] != '|',
        r[0] != '*',
        !ident_start(r[0]),
        identifier(name),
        kind_of_ident(name) is None,
    ensures
        lex(seq!['<'] + r + seq![':'] + name + seq!['>']) == seq![
            TokenV::AngleStart,
            TokenV::Literal(r),
            TokenV::Colon,
            TokenV::Ident(name),
            TokenV::AngleClose,
        ],
{
    let cs = seq!['<'] + r + seq![':'] + name + seq!['>'];
    let rl = r.len() as int;
    let nl = name.len() as int;
    assert(cs.len() == rl + nl + 3);
    assert(cs[0] == '<');
    assert forall|j: int| 0 <= j < rl implies cs[1 + j] == r[j] by {}
    assert(cs[1 + rl] == ':');
    assert forall|j: int| 0 <= j < nl implies cs[2 + rl + j] == name[j] by {}
    assert(cs[2 + rl + nl] == '>');
    let s0 = lex_init();
    lemma_lex_run_unfold(cs, s0);
    let s1 = lex_step(cs, s0);
    assert(s1 == LexState {
        pos: 1,
        out: flush(s0.out, s0.lit).push(TokenV::AngleStart),
        lit: Seq::empty(),
        in_angle: true,
        after_start: true,
        saw_colon: false,
        ..s0
    });
    assert(flush(s0.out, s0.lit) == s0.out);
    assert(cs[1] == r[0]);
    lemma_lex_run_unfold(cs, s1);
    let s2 = lex_step(cs, s1);
    assert(s2 == LexState { freeform: true, ..s1 });
    assert forall|j: int| s2.pos <= j < s2.pos + rl implies #[trigger] cs[j] != ':' && cs[j] != '>' && cs[j] != '\\' by {
        assert(cs[j] == r[j - 1]);
    }
    lemma_freeform_consumes(cs, s2, rl);
    let s3 = LexState { pos: 1 + rl, lit: s2.lit + cs.subrange(1, 1 + rl), ..s2 };
    assert(cs.subrange(1, 1 + rl) =~= r);
    assert(s2.lit + r =~= r);
    lemma_lex_run_unfold(cs, s3);
    let s4 = lex_step(cs, s3);
    assert(flush(s3.out, s3.lit) == s3.out.push(TokenV::Literal(r)));
    assert(s4 == LexState {
        pos: 2 + rl,
        out: s3.out.push(TokenV::Literal(r)).push(TokenV::Colon),
        lit: Seq::empty(),
        saw_colon: true,
        freeform: false,
        ..s3
    });
    assert(cs[2 + rl] == name[0]);
    lemma_ident_end_at(cs, 3 + rl, 2 + rl + nl);
    assert(cs.subrange(2 + rl, 2 + rl + nl) =~= name);
    lemma_lex_run_unfold(cs, s4);
    let s5 = lex_step(cs, s4);
    assert(ident_token(name, false) == TokenV::Ident(name));
    assert(s5 == LexState { pos: 2 + rl + nl, out: s4.out.push(TokenV::Ident(name)), after_start: false, ..s4 });
    lemma_lex_run_unfold(cs, s5);
    let s6 = lex_step(cs, s5);
    assert(flush(s5.out, s5.lit) == s5.out);
    assert(s6.out == s5.out.push(TokenV::AngleClose));
    assert(s6.pos == cs.len());
    assert(lex_run(cs, s6) == flush(s6.out, s6.lit));
    assert(s6.lit.len() == 0);
    assert(s6.out =~= seq![
        TokenV::AngleStart,
        TokenV::Literal(r),
        TokenV::Colon,
        TokenV::Ident(name),
        TokenV::AngleClose,
    ]);
}

} // verus!
