//! A Markdown-serving library whose core is a token-stream rewrite pipeline:
//! a window scanner detects plugin-defined patterns in a parsed token
//! sequence, and a range splicer replaces each matched range with the
//! plugin's replacement tokens, one pass per configured plugin.

use vstd::prelude::*;

pub mod formats;
pub mod matter;
pub mod pipeline;
pub mod plugin;
pub mod state;
pub mod text;
pub mod token;

verus! {

/// A half-open interval `[start, end)` of token positions marking the tokens
/// that one plugin match will replace.
#[derive(Debug, Clone, Copy, PartialEq, Eq, Structural)]
pub struct MatchRange {
    pub start: usize,
    pub end: usize,
}

impl MatchRange {
    /// True of every range the scanner accepts: non-empty and within a
    /// sequence of length `len`.
    pub open spec fn wf(self, len: int) -> bool {
        self.start < self.end <= len
    }

    /// The number of positions the range covers.
    pub open spec fn spec_len(self) -> int {
        self.end - self.start
    }

    /// True when `pos` lies inside the half-open interval.
    pub open spec fn spec_contains(self, pos: int) -> bool {
        self.start <= pos < self.end
    }

    pub fn new(start: usize, end: usize) -> (r: MatchRange)
        ensures
            r.start == start,
            r.end == end,
    {
        MatchRange { start, end }
    }

    pub fn len(&self) -> (n: usize)
        requires
            self.start <= self.end,
        ensures
            n == self.spec_len(),
    {
        self.end - self.start
    }

    pub fn contains(&self, pos: usize) -> (b: bool)
        ensures
            b == self.spec_contains(pos as int),
    {
        self.start <= pos && pos < self.end
    }
}

} // verus!
