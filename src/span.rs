//! Byte ranges into the query text.
use vstd::prelude::*;

verus! {

/// A half-open range of byte offsets into the query text.
#[derive(Clone, Copy, Debug, PartialEq, Eq, Structural)]
pub struct Span {
    pub start: usize,
    pub end: usize,
}

impl Span {
    /// A span is valid for a text of `len` bytes when it is ordered and in bounds.
    pub open spec fn valid(self, len: nat) -> bool {
        self.start <= self.end && self.end <= len
    }

    /// `self` lies inside `outer`.
    pub open spec fn within(self, outer: Span) -> bool {
        outer.start <= self.start && self.end <= outer.end
    }

    /// The smallest span covering both `self` and `other`.
    pub fn cover(self, other: Span) -> (r: Span)
        ensures
            self.within(r),
            other.within(r),
            r.start == if self.start <= other.start { self.start } else { other.start },
            r.end == if self.end >= other.end { self.end } else { other.end },
    {
        let start = if self.start <= other.start { self.start } else { other.start };
        let end = if self.end >= other.end { self.end } else { other.end };
        Span { start, end }
    }
}

} // verus!
