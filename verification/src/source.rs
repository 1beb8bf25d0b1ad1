//! Byte ranges into QuizFold source text.
use vstd::prelude::*;

verus! {

/// A half-open byte range `start..end` into the parsed source.
#[derive(Debug, Clone, Copy, Default, PartialEq, Eq, Structural)]
pub struct SourceRange {
    pub start: usize,
    pub end: usize,
}

impl SourceRange {
    pub open spec fn spec_new(start: usize, end: usize) -> SourceRange {
        SourceRange { start, end }
    }

    /// Builds the range `start..end`.
    pub fn new(start: usize, end: usize) -> (r: SourceRange)
        ensures
            r == SourceRange::spec_new(start, end),
    {
        SourceRange { start, end }
    }
}

} // verus!
