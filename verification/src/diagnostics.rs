//! Diagnostics: a parse error together with the source range it concerns.
use crate::errors::ParseError;
use crate::source::SourceRange;
use vstd::prelude::*;

verus! {

/// How strongly a diagnostic rejects the content.
#[derive(Debug, Clone, Copy, PartialEq, Eq, Structural)]
pub enum Severity {
    Fatal,
    Error,
    Warning,
}

/// A parse error located in the source.
#[derive(Debug, Clone, Copy, PartialEq, Eq, Structural)]
pub struct Diagnostic {
    pub error: ParseError,
    pub source_range: SourceRange,
}

impl Diagnostic {
    /// Pairs an error with its source range.
    pub fn new(error: ParseError, source_range: SourceRange) -> (r: Diagnostic)
        ensures
            r == (Diagnostic { error, source_range }),
    {
        Diagnostic { error, source_range }
    }

    /// The severity of the underlying error.
    pub fn severity(&self) -> (r: Severity)
        ensures
            r == Severity::Error,
    {
        self.error.severity()
    }

    /// The stable code of the underlying error.
    pub fn code(&self) -> (r: &'static str)
        ensures
            r@ == self.error.spec_code(),
    {
        self.error.code()
    }

    /// The message of the underlying error.
    pub fn message(&self) -> (r: &'static str)
        ensures
            r@ == self.error.spec_message(),
    {
        self.error.message()
    }
}

} // verus!
