//! Parser error taxonomy and its stable public error codes.
use crate::diagnostics::Severity;
use vstd::prelude::*;

verus! {

/// Every structural problem the parser reports.
#[derive(Debug, Clone, Copy, PartialEq, Eq, Structural)]
pub enum ParseError {
    MissingAnswerSeparator,
    FoldQuizWithoutBlank,
    UnclosedFoldBlank,
    UnclosedMathInline,
    UnclosedBlock,
    EmptyImageAlt,
    InvalidImageReference,
    UnclosedMemo,
    UnexpectedMemoEnd,
    NestedMemo,
    QaSectionIsMemoOnly,
    FoldBlankOutsideAnswer,
    EmptyAnswer,
}

impl ParseError {
    /// The stable public code of an error.
    pub open spec fn spec_code(self) -> Seq<char> {
        match self {
            ParseError::MissingAnswerSeparator => "QF001"@,
            ParseError::FoldQuizWithoutBlank => "QF002"@,
            ParseError::UnclosedFoldBlank => "QF003"@,
            ParseError::UnclosedMathInline => "QF004"@,
            ParseError::UnclosedBlock => "QF005"@,
            ParseError::EmptyImageAlt => "QF006"@,
            ParseError::InvalidImageReference => "QF007"@,
            ParseError::UnclosedMemo => "QF008"@,
            ParseError::UnexpectedMemoEnd => "QF009"@,
            ParseError::NestedMemo => "QF010"@,
            ParseError::QaSectionIsMemoOnly => "QF011"@,
            ParseError::FoldBlankOutsideAnswer => "QF012"@,
            ParseError::EmptyAnswer => "QF013"@,
        }
    }

    /// The human-readable message of an error.
    pub open spec fn spec_message(self) -> Seq<char> {
        match self {
            ParseError::MissingAnswerSeparator => "Q/A block requires an answer separator (`---`)."@,
            ParseError::FoldQuizWithoutBlank => "Fold quiz requires at least one `${...}` answer."@,
            ParseError::UnclosedFoldBlank => "Fold answer is not closed with `}`."@,
            ParseError::UnclosedMathInline => "Inline math is not closed with `$`."@,
            ParseError::UnclosedBlock => "Block is not closed."@,
            ParseError::EmptyImageAlt => "Image alt text must not be empty."@,
            ParseError::InvalidImageReference => "Image reference must use `qf-attachment:`, `qf-stored:`, `http://`, or `https://`."@,
            ParseError::UnclosedMemo => "Memo block is not closed with `@end`."@,
            ParseError::UnexpectedMemoEnd => "`@end` does not have a matching `@memo`."@,
            ParseError::NestedMemo => "Memo blocks cannot be nested."@,
            ParseError::QaSectionIsMemoOnly => "Q/A question or answer must contain content other than a memo block."@,
            ParseError::FoldBlankOutsideAnswer => "Fold blank is only allowed in a fold quiz or a Q/A answer."@,
            ParseError::EmptyAnswer => "Q/A answer must not be empty."@,
        }
    }

    /// Returns the stable public code, such as `QF001`.
    pub fn code(self) -> (r: &'static str)
        ensures
            r@ == self.spec_code(),
    {
        match self {
            ParseError::MissingAnswerSeparator => "QF001",
            ParseError::FoldQuizWithoutBlank => "QF002",
            ParseError::UnclosedFoldBlank => "QF003",
            ParseError::UnclosedMathInline => "QF004",
            ParseError::UnclosedBlock => "QF005",
            ParseError::EmptyImageAlt => "QF006",
            ParseError::InvalidImageReference => "QF007",
            ParseError::UnclosedMemo => "QF008",
            ParseError::UnexpectedMemoEnd => "QF009",
            ParseError::NestedMemo => "QF010",
            ParseError::QaSectionIsMemoOnly => "QF011",
            ParseError::FoldBlankOutsideAnswer => "QF012",
            ParseError::EmptyAnswer => "QF013",
        }
    }

    /// Returns the human-readable message.
    pub fn message(self) -> (r: &'static str)
        ensures
            r@ == self.spec_message(),
    {
        match self {
            ParseError::MissingAnswerSeparator => "Q/A block requires an answer separator (`---`).",
            ParseError::FoldQuizWithoutBlank => "Fold quiz requires at least one `${...}` answer.",
            ParseError::UnclosedFoldBlank => "Fold answer is not closed with `}`.",
            ParseError::UnclosedMathInline => "Inline math is not closed with `$`.",
            ParseError::UnclosedBlock => "Block is not closed.",
            ParseError::EmptyImageAlt => "Image alt text must not be empty.",
            ParseError::InvalidImageReference => "Image reference must use `qf-attachment:`, `qf-stored:`, `http://`, or `https://`.",
            ParseError::UnclosedMemo => "Memo block is not closed with `@end`.",
            ParseError::UnexpectedMemoEnd => "`@end` does not have a matching `@memo`.",
            ParseError::NestedMemo => "Memo blocks cannot be nested.",
            ParseError::QaSectionIsMemoOnly => "Q/A question or answer must contain content other than a memo block.",
            ParseError::FoldBlankOutsideAnswer => "Fold blank is only allowed in a fold quiz or a Q/A answer.",
            ParseError::EmptyAnswer => "Q/A answer must not be empty.",
        }
    }

    /// Every parse error, in declaration order.
    pub open spec fn spec_all() -> Seq<ParseError> {
        seq![
            ParseError::MissingAnswerSeparator,
            ParseError::FoldQuizWithoutBlank,
            ParseError::UnclosedFoldBlank,
            ParseError::UnclosedMathInline,
            ParseError::UnclosedBlock,
            ParseError::EmptyImageAlt,
            ParseError::InvalidImageReference,
            ParseError::UnclosedMemo,
            ParseError::UnexpectedMemoEnd,
            ParseError::NestedMemo,
            ParseError::QaSectionIsMemoOnly,
            ParseError::FoldBlankOutsideAnswer,
            ParseError::EmptyAnswer,
        ]
    }

    /// Every error code, in declaration order.
    pub fn all_codes() -> (r: Vec<&'static str>)
        ensures
            r@.len() == Self::spec_all().len(),
            forall|i: int| 0 <= i < r@.len() ==> (#[trigger] r@[i])@ == Self::spec_all()[i].spec_code(),
    {
        let r = vec![
            ParseError::MissingAnswerSeparator.code(),
            ParseError::FoldQuizWithoutBlank.code(),
            ParseError::UnclosedFoldBlank.code(),
            ParseError::UnclosedMathInline.code(),
            ParseError::UnclosedBlock.code(),
            ParseError::EmptyImageAlt.code(),
            ParseError::InvalidImageReference.code(),
            ParseError::UnclosedMemo.code(),
            ParseError::UnexpectedMemoEnd.code(),
            ParseError::NestedMemo.code(),
            ParseError::QaSectionIsMemoOnly.code(),
            ParseError::FoldBlankOutsideAnswer.code(),
            ParseError::EmptyAnswer.code(),
        ];
        r
    }

    /// Every parse error is reported at error severity.
    pub fn severity(self) -> (r: Severity)
        ensures
            r == Severity::Error,
    {
        Severity::Error
    }
}

/// Distinct parse errors carry distinct codes, so a code identifies its error.
pub proof fn lemma_parse_error_codes_distinct(a: ParseError, b: ParseError)
    requires
        a != b,
    ensures
        a.spec_code() != b.spec_code(),
{
    reveal_strlit("QF001");
    reveal_strlit("QF002");
    reveal_strlit("QF003");
    reveal_strlit("QF004");
    reveal_strlit("QF005");
    reveal_strlit("QF006");
    reveal_strlit("QF007");
    reveal_strlit("QF008");
    reveal_strlit("QF009");
    reveal_strlit("QF010");
    reveal_strlit("QF011");
    reveal_strlit("QF012");
    reveal_strlit("QF013");
    assert(a.spec_code()[4] != b.spec_code()[4] || a.spec_code()[3] != b.spec_code()[3]);
}

} // verus!
