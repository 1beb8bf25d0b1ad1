//! Canonical formatting of a QuizFold document.
use crate::ast::QuizFoldDocument;
use crate::printer::{Printer, spec_print};
use vstd::prelude::*;

verus! {

/// Formats a document as canonical QuizFold text: the text the printer
/// writes for it.
pub fn format_quizfold(document: &QuizFoldDocument) -> (r: String)
    ensures
        r@ == spec_print(document@),
{
    Printer::new().print(document)
}

} // verus!
