//! A half-open interval of the global position space.

use vstd::prelude::*;

use crate::pos::Pos;

verus! {

/// A half-open interval `[start, end)` of [`Pos`] values denoting the extent
/// of a lexical unit.
///
/// The intended invariant is `start <= end`. The case `start == end` is the
/// canonical dummy ("unknown") span; it is produced by [`Span::dummy`], never
/// by [`Span::new`], which demands a non-empty interval.
#[derive(Clone, Copy, Debug, Hash, PartialEq, Eq, Structural)]
pub struct Span {
    /// The start position, inclusive.
    pub start: Pos,
    /// The end position, exclusive.
    pub end: Pos,
}

/// The span `[lo, hi)`, as a spec-level constructor.
pub open spec fn span_at(lo: int, hi: int) -> Span {
    Span { start: Pos { index: lo as usize }, end: Pos { index: hi as usize } }
}

impl Span {
    /// A span is well formed when it does not end before it starts.
    pub open spec fn wf(self) -> bool {
        self.start.index <= self.end.index
    }

    /// Creates a new span `[start, end)`. A span of the general constructor
    /// must be non-empty; use [`Span::dummy`] for a placeholder.
    pub fn new(start: Pos, end: Pos) -> (s: Span)
        requires
            start.index < end.index,
        ensures
            s == (Span { start, end }),
            s.wf(),
    {
        Span { start, end }
    }

    /// Creates the dummy span `[0, 0)`.
    pub fn dummy() -> (s: Span)
        ensures
            s == span_at(0, 0),
            s.wf(),
            s.is_dummy_spec(),
    {
        Span { start: Pos { index: 0 }, end: Pos { index: 0 } }
    }

    /// A span is a dummy when it is empty.
    pub open spec fn is_dummy_spec(self) -> bool {
        self.start.index >= self.end.index
    }

    /// Checks if the span is a dummy.
    #[verifier::when_used_as_spec(is_dummy_spec)]
    pub fn is_dummy(self) -> (b: bool)
        ensures
            b == self.is_dummy_spec(),
    {
        self.start.index >= self.end.index
    }

    /// Returns the start position of the span.
    pub fn start(self) -> (p: Pos)
        ensures
            p == self.start,
    {
        self.start
    }

    /// Returns the end position of the span.
    pub fn end(self) -> (p: Pos)
        ensures
            p == self.end,
    {
        self.end
    }
}

} // verus!
