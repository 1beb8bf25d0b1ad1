//! Model-conversion error taxonomy and its structured diagnostics.
use crate::diagnostics::Severity;
use crate::source::SourceRange;
use vstd::prelude::*;
use vstd::string::StringExecFns;

verus! {

/// Every way a conversion between the syntax tree and the model can fail.
#[derive(Debug, Clone, Copy, PartialEq, Eq, Structural)]
pub enum ModelError {
    FoldBlankNotAllowed,
    InvalidFoldShape,
    MissingBlank,
    BlankOutOfOrder,
    MissingBlankReference,
    UnusedBlanks,
    TooManyBlanks,
}

impl ModelError {
    /// The stable public code of an error.
    pub open spec fn spec_code(self) -> Seq<char> {
        match self {
            ModelError::FoldBlankNotAllowed => "QFM001"@,
            ModelError::InvalidFoldShape => "QFM002"@,
            ModelError::MissingBlank => "QFM003"@,
            ModelError::BlankOutOfOrder => "QFM004"@,
            ModelError::MissingBlankReference => "QFM005"@,
            ModelError::UnusedBlanks => "QFM006"@,
            ModelError::TooManyBlanks => "QFM007"@,
        }
    }

    /// The general message of an error.
    pub open spec fn spec_message(self) -> Seq<char> {
        match self {
            ModelError::FoldBlankNotAllowed => "Fold blank is not allowed in this location."@,
            ModelError::InvalidFoldShape => "Fold quiz content must contain exactly one paragraph block."@,
            ModelError::MissingBlank => "Fold content must contain at least one blank."@,
            ModelError::BlankOutOfOrder => "Blank references must appear in zero-based index order."@,
            ModelError::MissingBlankReference => "Blank reference does not exist."@,
            ModelError::UnusedBlanks => "Every blank answer must be referenced exactly once."@,
            ModelError::TooManyBlanks => "Document contains too many blanks to index with u32."@,
        }
    }

    /// Returns the stable public code, such as `QFM001`.
    pub fn code(self) -> (r: &'static str)
        ensures
            r@ == self.spec_code(),
    {
        match self {
            ModelError::FoldBlankNotAllowed => "QFM001",
            ModelError::InvalidFoldShape => "QFM002",
            ModelError::MissingBlank => "QFM003",
            ModelError::BlankOutOfOrder => "QFM004",
            ModelError::MissingBlankReference => "QFM005",
            ModelError::UnusedBlanks => "QFM006",
            ModelError::TooManyBlanks => "QFM007",
        }
    }

    /// Returns the general message.
    pub fn message(self) -> (r: &'static str)
        ensures
            r@ == self.spec_message(),
    {
        match self {
            ModelError::FoldBlankNotAllowed => "Fold blank is not allowed in this location.",
            ModelError::InvalidFoldShape => "Fold quiz content must contain exactly one paragraph block.",
            ModelError::MissingBlank => "Fold content must contain at least one blank.",
            ModelError::BlankOutOfOrder => "Blank references must appear in zero-based index order.",
            ModelError::MissingBlankReference => "Blank reference does not exist.",
            ModelError::UnusedBlanks => "Every blank answer must be referenced exactly once.",
            ModelError::TooManyBlanks => "Document contains too many blanks to index with u32.",
        }
    }

    /// Every model error is reported at error severity.
    pub fn severity(self) -> (r: Severity)
        ensures
            r == Severity::Error,
    {
        Severity::Error
    }
}

/// Distinct model errors carry distinct codes, so a code identifies its error.
pub proof fn lemma_model_error_codes_distinct(a: ModelError, b: ModelError)
    requires
        a != b,
    ensures
        a.spec_code() != b.spec_code(),
{
    reveal_strlit("QFM001");
    reveal_strlit("QFM002");
    reveal_strlit("QFM003");
    reveal_strlit("QFM004");
    reveal_strlit("QFM005");
    reveal_strlit("QFM006");
    reveal_strlit("QFM007");
    assert(a.spec_code()[5] != b.spec_code()[5]);
}

/// A model error with its code, a message that may name the place or the
/// blank concerned, and the source range when the tree had one.
#[derive(Debug, Clone, PartialEq, Eq)]
pub struct ModelDiagnostic {
    pub error: ModelError,
    pub severity: Severity,
    pub code: String,
    pub message: String,
    pub source_range: Option<SourceRange>,
}

pub struct ModelDiagnosticV {
    pub error: ModelError,
    pub severity: Severity,
    pub code: Seq<char>,
    pub message: Seq<char>,
    pub source_range: Option<SourceRange>,
}

impl View for ModelDiagnostic {
    type V = ModelDiagnosticV;

    open spec fn view(&self) -> ModelDiagnosticV {
        ModelDiagnosticV {
            error: self.error,
            severity: self.severity,
            code: self.code@,
            message: self.message@,
            source_range: self.source_range,
        }
    }
}

/// The diagnostic that `ModelDiagnostic::new` builds.
pub open spec fn model_diag(error: ModelError, message: Seq<char>, source_range: Option<SourceRange>) -> ModelDiagnosticV {
    ModelDiagnosticV {
        error,
        severity: Severity::Error,
        code: error.spec_code(),
        message,
        source_range,
    }
}

impl ModelDiagnostic {
    /// A diagnostic for `error`; severity and code follow from the error.
    pub fn new(error: ModelError, message: String, source_range: Option<SourceRange>) -> (r: ModelDiagnostic)
        ensures
            r@ == model_diag(error, message@, source_range),
    {
        ModelDiagnostic {
            error,
            severity: error.severity(),
            code: String::from_str(error.code()),
            message,
            source_range,
        }
    }

    /// The message text.
    pub fn to_string(&self) -> (r: String)
        ensures
            r@ == self.message@,
    {
        self.message.clone()
    }
}

} // verus!
