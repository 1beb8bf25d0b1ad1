//! QuizFold Markdown: lexer, parser, printer, and the source-free document model.
pub mod ast;
pub mod diagnostics;
pub mod errors;
pub mod formatter;
pub mod lex_laws;
pub mod lexer;
pub mod model;
pub mod parse;
pub mod printer;
pub mod source;
pub mod text;
pub mod tooling;
pub mod typings;

use crate::ast::{AttachmentKey, ExternalImageUrl, QuizFoldDocument, QuizFoldDocumentV, StoredImageId};
use crate::diagnostics::Diagnostic;
use crate::parse::{Parser, parse_ctx, spec_parse};
use crate::parse::boundaries::{lemma_document_quiz_items, quiz_line_before_blocks, starts_quiz_here};
use crate::parse::ranges::{diagnostics_within, lemma_parse_diagnostics_within};
use crate::parse::refs::{lemma_references_match_tree, tree_references};

pub use crate::formatter::format_quizfold;
pub use crate::printer::print_quizfold;
use vstd::prelude::*;
use vstd::string::StringSliceAdditionalSpecFns;

verus! {

/// Size of the parsed input.
#[derive(Debug, Clone, Copy, Default, PartialEq, Eq, Structural)]
pub struct ParseStats {
    pub byte_len: usize,
}

/// Every image reference of a document, in source order.
#[derive(Debug, Clone, Default, PartialEq, Eq)]
pub struct References {
    pub request_attachments: Vec<AttachmentKey>,
    pub stored_images: Vec<StoredImageId>,
    pub external_images: Vec<ExternalImageUrl>,
}

/// View of `References`: the text of each reference.
pub struct ReferencesV {
    pub request_attachments: Seq<Seq<char>>,
    pub stored_images: Seq<Seq<char>>,
    pub external_images: Seq<Seq<char>>,
}

impl View for References {
    type V = ReferencesV;

    open spec fn view(&self) -> ReferencesV {
        ReferencesV {
            request_attachments: self.request_attachments@.map_values(|k: AttachmentKey| k@),
            stored_images: self.stored_images@.map_values(|k: StoredImageId| k@),
            external_images: self.external_images@.map_values(|k: ExternalImageUrl| k@),
        }
    }
}

impl References {
    /// A copy of the references.
    pub fn duplicate(&self) -> (r: References)
        ensures
            r@ == self@,
    {
        let mut request_attachments: Vec<AttachmentKey> = Vec::new();
        let mut i: usize = 0;
        while i < self.request_attachments.len()
            invariant
                i <= self.request_attachments@.len(),
                request_attachments@.len() == i,
                forall|j: int| 0 <= j < i ==> (#[trigger] request_attachments@[j])@ == self.request_attachments@[j]@,
            decreases self.request_attachments@.len() - i,
        {
            request_attachments.push(self.request_attachments[i].duplicate());
            i = i + 1;
        }
        let mut stored_images: Vec<StoredImageId> = Vec::new();
        let mut i: usize = 0;
        while i < self.stored_images.len()
            invariant
                i <= self.stored_images@.len(),
                stored_images@.len() == i,
                forall|j: int| 0 <= j < i ==> (#[trigger] stored_images@[j])@ == self.stored_images@[j]@,
            decreases self.stored_images@.len() - i,
        {
            stored_images.push(self.stored_images[i].duplicate());
            i = i + 1;
        }
        let mut external_images: Vec<ExternalImageUrl> = Vec::new();
        let mut i: usize = 0;
        while i < self.external_images.len()
            invariant
                i <= self.external_images@.len(),
                external_images@.len() == i,
                forall|j: int| 0 <= j < i ==> (#[trigger] external_images@[j])@ == self.external_images@[j]@,
            decreases self.external_images@.len() - i,
        {
            external_images.push(self.external_images[i].duplicate());
            i = i + 1;
        }
        let r = References { request_attachments, stored_images, external_images };
        assert(r@.request_attachments =~= self@.request_attachments);
        assert(r@.stored_images =~= self@.stored_images);
        assert(r@.external_images =~= self@.external_images);
        r
    }

    /// No references.
    pub fn empty() -> (r: References)
        ensures
            r@.request_attachments == Seq::<Seq<char>>::empty(),
            r@.stored_images == Seq::<Seq<char>>::empty(),
            r@.external_images == Seq::<Seq<char>>::empty(),
    {
        let r = References {
            request_attachments: Vec::new(),
            stored_images: Vec::new(),
            external_images: Vec::new(),
        };
        assert(r@.request_attachments =~= Seq::<Seq<char>>::empty());
        assert(r@.stored_images =~= Seq::<Seq<char>>::empty());
        assert(r@.external_images =~= Seq::<Seq<char>>::empty());
        r
    }
}

/// Everything a parse yields: the document, its diagnostics in the order
/// they were found, the image references, and the input size.
#[derive(Debug, Clone, Default)]
pub struct ParseResult {
    pub document: QuizFoldDocument,
    pub diagnostics: Vec<Diagnostic>,
    pub references: References,
    pub stats: ParseStats,
}

pub struct ParseResultV {
    pub document: QuizFoldDocumentV,
    pub diagnostics: Seq<Diagnostic>,
    pub references: ReferencesV,
    pub stats: ParseStats,
}

impl View for ParseResult {
    type V = ParseResultV;

    open spec fn view(&self) -> ParseResultV {
        ParseResultV {
            document: self.document@,
            diagnostics: self.diagnostics@,
            references: self.references@,
            stats: self.stats,
        }
    }
}

/// Parses a QuizFold document. Parsing never fails: problems are reported as
/// diagnostics next to the best-effort document, each at a range of the
/// source; the references reported are the image references of the
/// document, in source order.
pub fn parse_quizfold(input: &str) -> (r: ParseResult)
    ensures
        r@ == spec_parse(input.spec_bytes()),
        diagnostics_within(r.diagnostics@, input.spec_bytes().len() as int),
        r.references@ == tree_references(r.document@.items),
        forall|q: int|
            quiz_line_before_blocks(parse_ctx(input.spec_bytes()), q) ==> exists|i: int|
                0 <= i < r.document@.items.len() && starts_quiz_here(
                    parse_ctx(input.spec_bytes()),
                    #[trigger] r.document@.items[i],
                    q,
                ),
{
    let parser = Parser::new(input);
    proof {
        assert(parser.input.len() == parser.input@.len());
        lemma_parse_diagnostics_within(parser.ctx());
        lemma_document_quiz_items(parser.ctx());
        lemma_references_match_tree(input.spec_bytes());
    }
    parser.parse()
}

/// The diagnostics that parsing the document reports.
pub fn validate_quizfold(input: &str) -> (r: Vec<Diagnostic>)
    ensures
        r@ == spec_parse(input.spec_bytes()).diagnostics,
        diagnostics_within(r@, input.spec_bytes().len() as int),
{
    parse_quizfold(input).diagnostics
}

} // verus!
