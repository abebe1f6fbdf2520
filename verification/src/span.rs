use vstd::prelude::*;

verus! {

/// A region of source text, by line and column.
#[derive(Clone, Copy, Debug, PartialEq, Eq, Structural)]
pub struct Span {
    pub line_start: u32,
    pub line_stop: u32,
    pub col_start: u32,
    pub col_stop: u32,
}

impl Span {
    /// The span that stands in where a node carries none: all zeros.
    pub open spec fn empty() -> Span {
        Span { line_start: 0, line_stop: 0, col_start: 0, col_stop: 0 }
    }
}

impl Default for Span {
    /// The empty span.
    fn default() -> (r: Span)
        ensures
            r == Span::empty(),
    {
        Span { line_start: 0, line_stop: 0, col_start: 0, col_stop: 0 }
    }
}

} // verus!
