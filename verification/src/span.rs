use vstd::prelude::*;

verus! {

/// A range of character offsets into a source text.
#[derive(Clone, Copy, Debug, PartialEq, Eq, Structural)]
pub struct SourceSpan {
    pub start: usize,
    pub end: usize,
}

/// The span that starts where `a` starts and ends where `b` ends.
pub open spec fn spec_join(a: SourceSpan, b: SourceSpan) -> SourceSpan {
    SourceSpan { start: a.start, end: b.end }
}

impl SourceSpan {
    pub fn new(start: usize, end: usize) -> (r: SourceSpan)
        ensures
            r == (SourceSpan { start, end }),
    {
        SourceSpan { start, end }
    }

    /// Joins two spans: the result covers from the start of `self` to the end of `other`.
    pub fn join(self, other: SourceSpan) -> (r: SourceSpan)
        ensures
            r == spec_join(self, other),
    {
        SourceSpan { start: self.start, end: other.end }
    }
}

} // verus!
