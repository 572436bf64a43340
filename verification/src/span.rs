//! Byte ranges into the source text.
use vstd::prelude::*;

verus! {

/// A half-open byte range `start..end` of the source text.
#[derive(Clone, Copy, Debug, PartialEq, Eq, Structural)]
pub struct Span {
    pub start: u32,
    pub end: u32,
}

impl Span {
    /// The empty span at byte offset `pos`.
    pub open spec fn at_spec(pos: u32) -> Span {
        Span { start: pos, end: pos }
    }

    /// The empty span at byte offset `pos`.
    pub fn at(pos: u32) -> (s: Span)
        ensures
            s == Span::at_spec(pos),
    {
        Span { start: pos, end: pos }
    }

    /// The empty span at the start of the source.
    pub fn empty() -> (s: Span)
        ensures
            s.start == 0,
            s.end == 0,
    {
        Span { start: 0, end: 0 }
    }
}

} // verus!
