//! Source locations: half-open ranges of byte offsets.

use vstd::prelude::*;

verus! {

/// A half-open range `[beg, end)` of byte offsets into a source buffer.
#[derive(Debug, PartialEq, Copy, Eq, Clone, Structural)]
pub struct Span {
    pub beg: u32,
    pub end: u32,
}

impl Span {
    /// A span is well formed when it does not end before it begins.
    pub open spec fn wf(self) -> bool {
        self.beg <= self.end
    }
}

/// Anything that occupies a place in the source.
pub trait Spanner {
    /// The place the value occupies.
    spec fn place(&self) -> Span;

    fn span(&self) -> (r: Span)
        ensures
            r == self.place(),
    ;
}

impl Spanner for Span {
    open spec fn place(&self) -> Span {
        *self
    }

    fn span(&self) -> (r: Span) {
        *self
    }
}

/// A sequence of located values reaches from the beginning of its first
/// element to the end of its last; an empty one sits at offset zero.
impl<T: Spanner> Spanner for Vec<T> {
    open spec fn place(&self) -> Span {
        if self@.len() == 0 {
            Span { beg: 0, end: 0 }
        } else {
            Span { beg: self@[0].place().beg, end: self@[self@.len() - 1].place().end }
        }
    }

    fn span(&self) -> (r: Span) {
        if self.len() == 0 {
            return Span { beg: 0, end: 0 };
        }
        let first: Span = self[0].span();
        let last: Span = self[self.len() - 1].span();
        Span { beg: first.beg, end: last.end }
    }
}

} // verus!
