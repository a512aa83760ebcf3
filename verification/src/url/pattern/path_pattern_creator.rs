//! Convenience constructors for common path patterns.

use vstd::prelude::*;

use super::{PathPattern, PatternV};

verus! {

/// Creates a literal path pattern.
pub fn literal_path(path: &str) -> (r: PathPattern)
    ensures
        r@ == PatternV::Literal(path@),
{
    PathPattern::literal_path(path)
}

/// Creates the empty literal segment used to register a trailing slash.
pub fn trailing_slash() -> (r: PathPattern)
    ensures
        r@ == PatternV::Literal(Seq::<char>::empty()),
{
    PathPattern::Literal(String::new())
}

/// Creates a regex path pattern.
pub fn regex_path(path: &str) -> (r: PathPattern)
    ensures
        r@ == PatternV::Regex(path@),
{
    PathPattern::regex_path(path)
}

/// Creates a single-segment wildcard pattern.
pub fn any() -> (r: PathPattern)
    ensures
        r@ == PatternV::Any,
{
    PathPattern::Any
}

/// Creates a catch-all wildcard pattern.
pub fn any_path() -> (r: PathPattern)
    ensures
        r@ == PatternV::AnyPath,
{
    PathPattern::AnyPath
}

} // verus!
