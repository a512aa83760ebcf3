//! Resumable search state over the children of one node for one segment.

use vstd::prelude::*;

verus! {

/// How far the search for a matching child of one segment has gone.
#[derive(Debug, Clone, Copy, PartialEq, Eq, Structural)]
pub enum PartialState {
    /// Search has not started for this segment yet.
    NotStart,
    /// A literal candidate was already tried.
    Lit,
    /// Regex candidates were searched up to the given index.
    Reg(usize),
    /// The single-segment wildcard candidate was already tried.
    Any,
    /// The catch-all wildcard candidate was already tried.
    AnyPath,
    /// No more candidates remain for this segment.
    End,
}

impl PartialState {
    /// Whether the search is exhausted.
    pub fn is_end(self) -> (r: bool)
        ensures
            r == (self is End),
    {
        match self {
            PartialState::End => true,
            _ => false,
        }
    }
}

impl Default for PartialState {
    fn default() -> (r: PartialState)
        ensures
            r is NotStart,
    {
        PartialState::NotStart
    }
}

} // verus!
