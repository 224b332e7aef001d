//! Source locations as byte-offset ranges.

use vstd::prelude::*;

verus! {

/// Half-open byte-offset range `[start, end)` into the source text.
#[derive(Debug, Clone, Copy, PartialEq, Eq, Structural)]
pub struct Span {
    pub start: usize,
    pub end: usize,
}

impl Span {
    /// An ordered range denotes a real region of the source.
    pub open spec fn wf(self) -> bool {
        self.start <= self.end
    }

    pub fn new(start: usize, end: usize) -> (s: Span)
        ensures
            s == (Span { start, end }),
    {
        Span { start, end }
    }

    /// The empty span, used where no real source region applies.
    pub fn empty() -> (s: Span)
        ensures
            s == (Span { start: 0, end: 0 }),
    {
        Span { start: 0, end: 0 }
    }
}

/// A value paired with the source region it came from.
pub type Spanned<T> = (T, Span);

} // verus!
