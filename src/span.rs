use vstd::prelude::*;

verus! {

/// A half-open byte range `start..end` into one source text.
#[derive(Debug, Clone, Copy, PartialEq, Eq, Structural)]
pub struct Span {
    pub start: usize,
    pub end: usize,
}

impl Span {
    /// The span lies inside a text of `len` bytes.
    pub open spec fn within(self, len: int) -> bool {
        self.start <= self.end <= len
    }

    /// The span built from two integer offsets.
    pub open spec fn of(start: int, end: int) -> Span {
        Span { start: start as usize, end: end as usize }
    }
}

} // verus!
