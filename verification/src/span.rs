//! Spans: places in the source code.

use vstd::prelude::*;

verus! {

/// A range of bytes within the source code, from `start` up to, but not
/// including, `end`.
#[derive(Clone, Copy, Debug, PartialEq, Eq, Hash, Structural)]
pub struct Span {
    pub start: usize,
    pub end: usize,
}

impl Span {
    /// The two ends of the span.
    pub open spec fn key_of(self) -> (usize, usize) {
        (self.start, self.end)
    }

    /// The span is not empty and lies within a source of the given length.
    pub open spec fn within(self, len: nat) -> bool {
        self.start < self.end <= len
    }

    /// Returns the offset of the first byte of the span.
    pub fn start(&self) -> (start: usize)
        ensures
            start == self.start,
    {
        self.start
    }

    /// Returns the offset that follows the last byte of the span.
    pub fn end(&self) -> (end: usize)
        ensures
            end == self.end,
    {
        self.end
    }

    /// Returns the two ends of the span.
    pub(crate) fn key(&self) -> (key: (usize, usize))
        ensures
            key == self.key_of(),
    {
        (self.start, self.end)
    }
}

} // verus!
