//! Single-segment path matchers: literal, regex, wildcard and catch-all.

use vstd::prelude::*;

use crate::text::{chars_of, push_str};

pub mod path_pattern_creator;

verus! {

/// Whether the regex crate accepts `pattern`: the outcome of
/// `regex::Regex::new(pattern).is_ok()`.
pub uninterp spec fn regex_compiles(pattern: Seq<char>) -> bool;

/// Whether the regex compiled from `pattern` finds a match in `text`: the
/// outcome of `regex::Regex::is_match` on `regex::Regex::new(pattern)`.
pub uninterp spec fn regex_is_match(pattern: Seq<char>, text: Seq<char>) -> bool;

/// Compiles `pattern` with `regex::Regex::new` and reports whether that
/// succeeded. The contract only names the outcome (`regex_compiles`).
#[verifier::external_body]
fn regex_accepts(pattern: &str) -> (ok: bool)
    ensures
        ok == regex_compiles(pattern@),
{
    regex::Regex::new(pattern).is_ok()
}

/// Compiles `pattern` with `regex::Regex::new` and, when that succeeds, runs
/// `regex::Regex::is_match` on `text`. The contract says that the result is
/// present exactly when the pattern compiles and names the match outcome.
#[verifier::external_body]
fn regex_search(pattern: &str, text: &str) -> (r: Option<bool>)
    ensures
        r is Some <==> regex_compiles(pattern@),
        r matches Some(b) ==> b == regex_is_match(pattern@, text@),
{
    match regex::Regex::new(pattern) {
        Ok(re) => Some(re.is_match(text)),
        Err(_) => None,
    }
}

/// The regex source wrapped so that it must consume a whole segment:
/// `^(?:` + source + `)$`.
pub open spec fn anchored(src: Seq<char>) -> Seq<char> {
    "^(?:"@ + src + ")$"@
}

/// Whether a regex segment with source `src` accepts `text`: the anchored
/// pattern compiles and matches; a pattern that does not compile matches
/// nothing.
pub open spec fn regex_segment_matches(src: Seq<char>, text: Seq<char>) -> bool {
    regex_compiles(anchored(src)) && regex_is_match(anchored(src), text)
}

/// Builds the anchored form of a regex source.
fn anchor(src: &str) -> (a: String)
    ensures
        a@ == anchored(src@),
{
    let mut a = String::new();
    push_str(&mut a, "^(?:");
    push_str(&mut a, src);
    push_str(&mut a, ")$");
    assert(a@ =~= anchored(src@));
    a
}

/// Whether two string slices hold the same characters.
pub(crate) fn str_equal(a: &str, b: &str) -> (r: bool)
    ensures
        r == (a@ == b@),
{
    let x = chars_of(a);
    let y = chars_of(b);
    if x.len() != y.len() {
        return false;
    }
    let mut k: usize = 0;
    while k < x.len()
        invariant
            x@ == a@,
            y@ == b@,
            x@.len() == y@.len(),
            k <= x@.len(),
            forall|j: int| 0 <= j < k ==> x@[j] == y@[j],
        decreases x.len() - k,
    {
        if x[k] != y[k] {
            return false;
        }
        k = k + 1;
    }
    assert(a@ =~= b@);
    true
}

/// A regex segment, kept as the source it was built from. The anchored form
/// is compiled when the segment is tested; a pattern that does not compile
/// never matches.
#[derive(Clone, Debug)]
pub struct RegexSegment {
    src: String,
}

impl RegexSegment {
    /// The source string, as characters.
    pub closed spec fn source(self) -> Seq<char> {
        self.src@
    }

    /// Builds a segment from a regex source; the source is anchored with
    /// `^(?:...)$` so that it must match a whole segment.
    pub fn new(src: &str) -> (r: RegexSegment)
        ensures
            r.source() == src@,
    {
        RegexSegment { src: src.to_owned() }
    }

    /// The original (unanchored) source string.
    pub fn src(&self) -> (r: &str)
        ensures
            r@ == self.source(),
    {
        self.src.as_str()
    }

    /// Whether the segment matches `text` end to end.
    pub fn is_match(&self, text: &str) -> (r: bool)
        ensures
            r == regex_segment_matches(self.source(), text@),
    {
        let a = anchor(self.src.as_str());
        match regex_search(a.as_str(), text) {
            Some(b) => b,
            None => false,
        }
    }

    /// Whether the anchored pattern compiled.
    pub fn is_compiled(&self) -> (r: bool)
        ensures
            r == regex_compiles(anchored(self.source())),
    {
        let a = anchor(self.src.as_str());
        regex_accepts(a.as_str())
    }

    /// A copy of this segment.
    pub fn duplicate(&self) -> (r: RegexSegment)
        ensures
            r.source() == self.source(),
    {
        RegexSegment { src: self.src.clone() }
    }
}

/// A single URL path-segment matcher.
#[derive(Clone, Debug)]
pub enum PathPattern {
    /// A literal path segment, such as `users`.
    Literal(String),
    /// A regex path segment, anchored to one segment.
    Regex(RegexSegment),
    /// A wildcard matching exactly one path segment.
    Any,
    /// A catch-all wildcard matching the rest of the path.
    AnyPath,
}

/// Mathematical form of a [`PathPattern`]: a regex is identified by its source.
pub enum PatternV {
    Literal(Seq<char>),
    Regex(Seq<char>),
    Any,
    AnyPath,
}

impl View for PathPattern {
    type V = PatternV;

    open spec fn view(&self) -> PatternV {
        match self {
            PathPattern::Literal(s) => PatternV::Literal(s@),
            PathPattern::Regex(seg) => PatternV::Regex(seg.source()),
            PathPattern::Any => PatternV::Any,
            PathPattern::AnyPath => PatternV::AnyPath,
        }
    }
}

/// Whether a pattern accepts a segment: a literal by equality, a regex by an
/// anchored match, the wildcards always.
pub open spec fn pattern_matches(p: PatternV, segment: Seq<char>) -> bool {
    match p {
        PatternV::Literal(l) => l == segment,
        PatternV::Regex(src) => regex_segment_matches(src, segment),
        PatternV::Any => true,
        PatternV::AnyPath => true,
    }
}

/// The text form of a pattern.
pub open spec fn pattern_text(p: PatternV) -> Seq<char> {
    match p {
        PatternV::Literal(l) => "Literal: "@ + l,
        PatternV::Regex(src) => "Regex: "@ + src,
        PatternV::Any => "*"@,
        PatternV::AnyPath => "**"@,
    }
}

/// The matching priority of a pattern kind (lower is tried first).
pub open spec fn pattern_priority(p: PatternV) -> u8 {
    match p {
        PatternV::Literal(_) => 0,
        PatternV::Regex(_) => 1,
        PatternV::Any => 2,
        PatternV::AnyPath => 3,
    }
}

impl PathPattern {
    /// Creates a literal path pattern.
    pub fn literal_path(path: &str) -> (r: PathPattern)
        ensures
            r@ == PatternV::Literal(path@),
    {
        PathPattern::Literal(path.to_owned())
    }

    /// Creates a regex path pattern.
    pub fn regex_path(path: &str) -> (r: PathPattern)
        ensures
            r@ == PatternV::Regex(path@),
    {
        PathPattern::Regex(RegexSegment::new(path))
    }

    /// Creates a single-segment wildcard pattern.
    pub fn any() -> (r: PathPattern)
        ensures
            r@ == PatternV::Any,
    {
        PathPattern::Any
    }

    /// Creates a catch-all wildcard pattern.
    pub fn any_path() -> (r: PathPattern)
        ensures
            r@ == PatternV::AnyPath,
    {
        PathPattern::AnyPath
    }

    /// Whether this pattern is the catch-all wildcard.
    pub fn is_any_path(&self) -> (r: bool)
        ensures
            r == (self@ is AnyPath),
    {
        match self {
            PathPattern::AnyPath => true,
            _ => false,
        }
    }

    /// Whether this pattern matches the given segment.
    pub fn matches(&self, segment: &str) -> (r: bool)
        ensures
            r == pattern_matches(self@, segment@),
    {
        match self {
            PathPattern::Literal(literal) => str_equal(literal.as_str(), segment),
            PathPattern::Regex(seg) => seg.is_match(segment),
            PathPattern::Any => true,
            PathPattern::AnyPath => true,
        }
    }

    /// The matching priority (lower = tried first): literal 0, regex 1,
    /// wildcard 2, catch-all 3.
    pub fn priority(&self) -> (r: u8)
        ensures
            r == pattern_priority(self@),
    {
        match self {
            PathPattern::Literal(_) => 0,
            PathPattern::Regex(_) => 1,
            PathPattern::Any => 2,
            PathPattern::AnyPath => 3,
        }
    }

    /// Pattern identity: equal kinds with equal literal text or equal regex
    /// source.
    pub fn same_as(&self, other: &PathPattern) -> (r: bool)
        ensures
            r == (self@ == other@),
    {
        match (self, other) {
            (PathPattern::Literal(l), PathPattern::Literal(r)) => str_equal(l.as_str(), r.as_str()),
            (PathPattern::Regex(l), PathPattern::Regex(r)) => str_equal(l.src(), r.src()),
            (PathPattern::Any, PathPattern::Any) => true,
            (PathPattern::AnyPath, PathPattern::AnyPath) => true,
            _ => false,
        }
    }

    /// The pattern as text: `Literal: <text>`, `Regex: <source>`, `*` or `**`.
    pub fn display(&self) -> (r: String)
        ensures
            r@ == pattern_text(self@),
    {
        let mut s = String::new();
        match self {
            PathPattern::Literal(l) => {
                push_str(&mut s, "Literal: ");
                push_str(&mut s, l.as_str());
            },
            PathPattern::Regex(seg) => {
                push_str(&mut s, "Regex: ");
                push_str(&mut s, seg.src());
            },
            PathPattern::Any => {
                push_str(&mut s, "*");
            },
            PathPattern::AnyPath => {
                push_str(&mut s, "**");
            },
        }
        s
    }

    /// A copy of this pattern.
    pub fn duplicate(&self) -> (r: PathPattern)
        ensures
            r@ == self@,
    {
        match self {
            PathPattern::Literal(l) => PathPattern::Literal(l.clone()),
            PathPattern::Regex(seg) => PathPattern::Regex(seg.duplicate()),
            PathPattern::Any => PathPattern::Any,
            PathPattern::AnyPath => PathPattern::AnyPath,
        }
    }
}

impl PartialEq for PathPattern {
    fn eq(&self, other: &Self) -> (r: bool) {
        self.same_as(other)
    }
}

impl vstd::std_specs::cmp::PartialEqSpecImpl for PathPattern {
    open spec fn obeys_eq_spec() -> bool {
        true
    }

    open spec fn eq_spec(&self, other: &Self) -> bool {
        self@ == other@
    }
}

} // verus!
