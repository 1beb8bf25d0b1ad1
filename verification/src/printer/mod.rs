//! Printer: from the syntax tree back to canonical QuizFold text.
//!
//! The specification describes printing as a function from the text written
//! so far to the text after one more node, over the views of the tree.
pub mod block;
pub mod inline;
pub mod writer;

use self::writer::{
    Writer, blank_line_v, ends_with_blank_line, ends_with_newline, finish_v, newline_v,
    strip_trailing_newlines,
};
use crate::ast::{
    BlockV, DocumentItemKindV, DocumentItemV, FoldBlankInlineKindV, FoldBlankInlineV, FoldQuizV,
    ImageReferenceV, InlineKindV, InlineV, QaQuizV, QuizFoldDocument, QuizFoldDocumentV,
    QuizItemKindV,
};
use crate::ast::BlockKindV;
use vstd::prelude::*;

verus! {

pub open spec fn attachment_prefix_text() -> Seq<char> {
    "qf-attachment:"@
}

pub open spec fn stored_prefix_text() -> Seq<char> {
    "qf-stored:"@
}

/// Text of an image destination.
pub open spec fn reference_text(r: ImageReferenceV) -> Seq<char> {
    match r {
        ImageReferenceV::RequestAttachment(k) => attachment_prefix_text() + k,
        ImageReferenceV::StoredImage(k) => stored_prefix_text() + k,
        ImageReferenceV::ExternalUrl(u) => u,
    }
}

pub open spec fn blank_inline_text(i: FoldBlankInlineV) -> Seq<char> {
    match i.kind {
        FoldBlankInlineKindV::Raw(x) => x,
        FoldBlankInlineKindV::MathInline(m) => "$"@ + m + "$"@,
    }
}

/// Text of the answer of a fold blank.
pub open spec fn fold_blank_text(v: Seq<FoldBlankInlineV>) -> Seq<char>
    decreases v.len(),
{
    if v.len() == 0 {
        seq![]
    } else {
        fold_blank_text(v.drop_last()) + blank_inline_text(v.last())
    }
}

/// `s` followed by one inline.
pub open spec fn print_inline_v(s: Seq<char>, i: InlineKindV) -> Seq<char> {
    match i {
        InlineKindV::Raw(v) => s + v,
        InlineKindV::MathInline(v) => s + "$"@ + v + "$"@,
        InlineKindV::FoldBlank(b) => s + "${"@ + fold_blank_text(b.answer.inlines) + "}"@,
        InlineKindV::Image(img) => s + "!["@ + img.alt + "]("@ + reference_text(
            img.reference,
        ) + ")"@,
        InlineKindV::SoftBreak => newline_v(s),
    }
}

/// `s` followed by the first `n` inlines of `v`.
pub open spec fn print_inlines_v(s: Seq<char>, v: Seq<InlineV>, n: int) -> Seq<char>
    decreases n,
{
    if n <= 0 || n > v.len() {
        s
    } else {
        print_inline_v(print_inlines_v(s, v, n - 1), v[n - 1].kind)
    }
}

pub open spec fn language_text(language: Option<Seq<char>>) -> Seq<char> {
    match language {
        Some(l) => l,
        None => seq![],
    }
}

/// A fenced or delimited block: opening line, body, closing line.
pub open spec fn fenced_v(s: Seq<char>, opening: Seq<char>, body: Seq<char>, closing: Seq<char>) -> Seq<char> {
    newline_v(newline_v(newline_v(s + opening) + body) + closing)
}

/// `s` followed by one block.
pub open spec fn print_block_v(s: Seq<char>, b: BlockV) -> Seq<char>
    decreases b, 0int,
{
    match b.kind {
        BlockKindV::Paragraph(p) => newline_v(print_inlines_v(s, p.inlines, p.inlines.len() as int)),
        BlockKindV::Memo(m) => newline_v(
            print_blocks_v(
                newline_v(s + "@memo"@),
                m.blocks,
                m.blocks.len() as int,
                true,
            ) + "@end"@,
        ),
        BlockKindV::MathBlock(src) => fenced_v(s, "$$"@, src, "$$"@),
        BlockKindV::CodeBlock(c) => fenced_v(
            s,
            "```"@ + language_text(c.language),
            c.source,
            "```"@,
        ),
        BlockKindV::MermaidBlock(src) => fenced_v(
            s,
            "```mermaid"@,
            src,
            "```"@,
        ),
    }
}

/// `s` followed by the first `n` blocks of `v`, with a blank line between
/// blocks when `separated`.
pub open spec fn print_blocks_v(s: Seq<char>, v: Seq<BlockV>, n: int, separated: bool) -> Seq<char>
    decreases v, n,
{
    if n <= 0 || n > v.len() {
        s
    } else {
        let t = print_blocks_v(s, v, n - 1, separated);
        let t2 = if separated && n > 1 {
            blank_line_v(t)
        } else {
            t
        };
        print_block_v(t2, v[n - 1])
    }
}

/// The question opens with a paragraph, which shares the marker's line.
pub open spec fn leading_paragraph(blocks: Seq<BlockV>) -> bool {
    blocks.len() > 0 && blocks[0].kind is Paragraph
}

pub open spec fn print_qa_v(s: Seq<char>, q: QaQuizV) -> Seq<char> {
    let s1 = s + "? "@;
    let blocks = q.question.blocks;
    let s2 = if leading_paragraph(blocks) {
        print_inlines_v(
            s1,
            blocks[0].kind->Paragraph_0.inlines,
            blocks[0].kind->Paragraph_0.inlines.len() as int,
        )
    } else {
        s1
    };
    let rest = if leading_paragraph(blocks) {
        blocks.subrange(1, blocks.len() as int)
    } else {
        blocks
    };
    let s3 = newline_v(s2);
    let s4 = if leading_paragraph(rest) {
        blank_line_v(s3)
    } else {
        s3
    };
    let s5 = print_blocks_v(s4, rest, rest.len() as int, true);
    let s6 = newline_v(s5 + "---"@);
    print_blocks_v(s6, q.answer.blocks, q.answer.blocks.len() as int, false)
}

pub open spec fn print_fold_v(s: Seq<char>, f: FoldQuizV) -> Seq<char> {
    let s1 = s + "! "@;
    let blocks = f.content.blocks;
    let s2 = if leading_paragraph(blocks) {
        print_inlines_v(
            s1,
            blocks[0].kind->Paragraph_0.inlines,
            blocks[0].kind->Paragraph_0.inlines.len() as int,
        )
    } else {
        s1
    };
    newline_v(s2)
}

pub open spec fn print_item_v(s: Seq<char>, i: DocumentItemV) -> Seq<char> {
    match i.kind {
        DocumentItemKindV::Quiz(q) => match q.kind {
            QuizItemKindV::Qa(qa) => print_qa_v(s, qa),
            QuizItemKindV::Fold(f) => print_fold_v(s, f),
        },
        DocumentItemKindV::Block(b) => print_block_v(s, b),
    }
}

/// `s` followed by the first `n` items of `v`, separated by blank lines.
pub open spec fn print_items_v(s: Seq<char>, v: Seq<DocumentItemV>, n: int) -> Seq<char>
    decreases n,
{
    if n <= 0 || n > v.len() {
        s
    } else {
        let t = print_items_v(s, v, n - 1);
        let t2 = if n > 1 {
            blank_line_v(t)
        } else {
            t
        };
        print_item_v(t2, v[n - 1])
    }
}

/// The canonical text of a document.
pub open spec fn spec_print(d: QuizFoldDocumentV) -> Seq<char> {
    finish_v(print_items_v(seq![], d.items, d.items.len() as int))
}

proof fn lemma_strip_ends(s: Seq<char>)
    ensures
        !ends_with_newline(strip_trailing_newlines(s)),
    decreases s.len(),
{
    if s.len() > 0 && s[s.len() - 1] == '\n' {
        lemma_strip_ends(s.drop_last());
    }
}

/// Printed text is empty or ends with exactly one line break: trailing
/// blank lines never reach the output.
pub proof fn lemma_printed_text_ends_with_one_newline(d: QuizFoldDocumentV)
    ensures
        spec_print(d).len() == 0 || (ends_with_newline(spec_print(d)) && !ends_with_blank_line(
            spec_print(d),
        )),
{
    let t = strip_trailing_newlines(print_items_v(seq![], d.items, d.items.len() as int));
    lemma_strip_ends(t);
    lemma_strip_ends(print_items_v(seq![], d.items, d.items.len() as int));
    if t.len() > 0 {
        assert(t.push('\n')[t.len() as int - 1] == t[t.len() - 1]);
    }
}

/// Prints syntax trees into a writer.
pub struct Printer {
    pub writer: Writer,
}

impl View for Printer {
    type V = Seq<char>;

    open spec fn view(&self) -> Seq<char> {
        self.writer@
    }
}

impl Printer {
    pub open spec fn wf(&self) -> bool {
        self.writer.wf()
    }

    pub fn new() -> (r: Printer)
        ensures
            r.wf(),
            r@ == Seq::<char>::empty(),
    {
        Printer { writer: Writer::new() }
    }

    /// Prints the items separated by blank lines, then finishes the text.
    pub fn print(self, document: &QuizFoldDocument) -> (r: String)
        requires
            self.wf(),
            self@ == Seq::<char>::empty(),
        ensures
            r@ == spec_print(document@),
    {
        let mut printer = self;
        let mut index: usize = 0;
        while index < document.items.len()
            invariant
                printer.wf(),
                index <= document.items@.len(),
                printer@ == print_items_v(seq![], document@.items, index as int),
            decreases document.items@.len() - index,
        {
            if index > 0 {
                printer.writer.blank_line();
            }
            printer.print_document_item(&document.items[index]);
            index = index + 1;
        }
        printer.writer.finish()
    }
}

/// The canonical QuizFold text of a document.
pub fn print_quizfold(document: &QuizFoldDocument) -> (r: String)
    ensures
        r@ == spec_print(document@),
{
    Printer::new().print(document)
}

} // verus!
