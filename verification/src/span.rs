use vstd::prelude::*;

verus! {

/// A half-open interval `[start, end)` of byte offsets into a source text.
#[derive(Debug, Clone, Copy, PartialEq, Eq, Structural)]
pub struct Span(pub usize, pub usize);

impl Span {
    /// Whether every offset of `other` lies within `self`.
    pub open spec fn covers(self, other: Span) -> bool {
        self.0 <= other.0 && other.1 <= self.1
    }

    /// The span from `start` up to, not including, `end`.
    pub fn new(start: usize, end: usize) -> (span: Self)
        ensures
            span == Span(start, end),
    {
        Self(start, end)
    }

    /// The smallest span that contains both `self` and `other`.
    pub fn merge(&self, other: &Self) -> (merged: Self)
        ensures
            merged.0 == if self.0 <= other.0 { self.0 } else { other.0 },
            merged.1 == if self.1 >= other.1 { self.1 } else { other.1 },
            merged.covers(*self),
            merged.covers(*other),
            forall|s: Span| s.covers(*self) && s.covers(*other) ==> #[trigger] s.covers(merged),
    {
        let start: usize = if self.start() <= other.start() { self.start() } else { other.start() };
        let end: usize = if self.end() >= other.end() { self.end() } else { other.end() };
        Self(start, end)
    }

    /// The offset at which the span starts.
    pub fn start(&self) -> (start: usize)
        ensures
            start == self.0,
    {
        self.0
    }

    /// The offset just past the span.
    pub fn end(&self) -> (end: usize)
        ensures
            end == self.1,
    {
        self.1
    }
}

} // verus!
