//! Printing reads no source range, so a tree restored from its model prints
//! as the tree itself.
use crate::ast::{
    BlockKindV, BlockV, DocumentItemKindV, DocumentItemV, FoldBlankInlineV, InlineV,
    QuizFoldDocumentV, QuizItemKindV,
};
use crate::model::convert::{document_to_ast, document_to_model};
use crate::model::laws::{
    blanks_fit, lemma_tree_round_trip, strip_blank_inlines, strip_block, strip_blocks,
    strip_document, strip_inline, strip_inlines, strip_item,
};
use crate::printer::{
    fold_blank_text, leading_paragraph, print_block_v, print_blocks_v, print_inline_v,
    print_inlines_v, print_item_v, print_items_v, spec_print,
};
use vstd::prelude::*;

verus! {

proof fn lemma_blank_text(v: Seq<FoldBlankInlineV>)
    ensures
        fold_blank_text(strip_blank_inlines(v)) == fold_blank_text(v),
    decreases v.len(),
{
    if v.len() > 0 {
        assert(strip_blank_inlines(v).drop_last() =~= strip_blank_inlines(v.drop_last()));
        lemma_blank_text(v.drop_last());
    }
}

proof fn lemma_inline(s: Seq<char>, i: InlineV)
    ensures
        print_inline_v(s, strip_inline(i).kind) == print_inline_v(s, i.kind),
{
    if let crate::ast::InlineKindV::FoldBlank(b) = i.kind {
        lemma_blank_text(b.answer.inlines);
    }
}

proof fn lemma_inlines(s: Seq<char>, v: Seq<InlineV>, w: Seq<InlineV>, n: int)
    requires
        0 <= n <= v.len(),
        w.len() == v.len(),
        forall|i: int| 0 <= i < v.len() ==> w[i] == strip_inline(#[trigger] v[i]),
    ensures
        print_inlines_v(s, w, n) == print_inlines_v(s, v, n),
    decreases n,
{
    if n > 0 {
        lemma_inlines(s, v, w, n - 1);
        lemma_inline(print_inlines_v(s, v, n - 1), v[n - 1]);
    }
}

proof fn lemma_block(s: Seq<char>, b: BlockV)
    ensures
        print_block_v(s, strip_block(b)) == print_block_v(s, b),
    decreases b, 0int,
{
    match b.kind {
        BlockKindV::Paragraph(p) => {
            lemma_inlines(s, p.inlines, strip_inlines(p.inlines), p.inlines.len() as int);
        },
        BlockKindV::Memo(m) => {
            let w = strip_block(b).kind->Memo_0.blocks;
            let t = crate::printer::writer::newline_v(s + "@memo"@);
            lemma_blocks(t, m.blocks, w, m.blocks.len() as int, true);
        },
        _ => {},
    }
}

proof fn lemma_blocks(s: Seq<char>, v: Seq<BlockV>, w: Seq<BlockV>, n: int, separated: bool)
    requires
        0 <= n <= v.len(),
        w.len() == v.len(),
        forall|i: int| 0 <= i < v.len() ==> w[i] == strip_block(#[trigger] v[i]),
    ensures
        print_blocks_v(s, w, n, separated) == print_blocks_v(s, v, n, separated),
    decreases v, n,
{
    if n > 0 {
        lemma_blocks(s, v, w, n - 1, separated);
        let t = print_blocks_v(s, v, n - 1, separated);
        let t2 = if separated && n > 1 {
            crate::printer::writer::blank_line_v(t)
        } else {
            t
        };
        assert(w[n - 1] == strip_block(v[n - 1]));
        lemma_block(t2, v[n - 1]);
    }
}

proof fn lemma_item(s: Seq<char>, i: DocumentItemV)
    ensures
        print_item_v(s, strip_item(i)) == print_item_v(s, i),
{
    match i.kind {
        DocumentItemKindV::Quiz(q) => match q.kind {
            QuizItemKindV::Qa(qa) => {
                let qb = qa.question.blocks;
                let sq = strip_blocks(qb);
                let s1 = s + "? "@;
                if leading_paragraph(qb) {
                    let p = qb[0].kind->Paragraph_0;
                    lemma_inlines(s1, p.inlines, strip_inlines(p.inlines), p.inlines.len() as int);
                }
                let rest = if leading_paragraph(qb) {
                    qb.subrange(1, qb.len() as int)
                } else {
                    qb
                };
                let srest = if leading_paragraph(sq) {
                    sq.subrange(1, sq.len() as int)
                } else {
                    sq
                };
                assert forall|j: int| 0 <= j < rest.len() implies srest[j] == strip_block(#[trigger] rest[j]) by {
                    if leading_paragraph(qb) {
                        assert(srest[j] == sq[j + 1]);
                    }
                }
                let s2 = if leading_paragraph(qb) {
                    print_inlines_v(s1, qb[0].kind->Paragraph_0.inlines, qb[0].kind->Paragraph_0.inlines.len() as int)
                } else {
                    s1
                };
                let s3 = crate::printer::writer::newline_v(s2);
                let s4 = if leading_paragraph(rest) {
                    crate::printer::writer::blank_line_v(s3)
                } else {
                    s3
                };
                lemma_blocks(s4, rest, srest, rest.len() as int, true);
                let s5 = print_blocks_v(s4, rest, rest.len() as int, true);
                let s6 = crate::printer::writer::newline_v(s5 + "---"@);
                let ab = qa.answer.blocks;
                lemma_blocks(s6, ab, strip_blocks(ab), ab.len() as int, false);
            },
            QuizItemKindV::Fold(f) => {
                let blocks = f.content.blocks;
                if leading_paragraph(blocks) {
                    let p = blocks[0].kind->Paragraph_0;
                    lemma_inlines(s + "! "@, p.inlines, strip_inlines(p.inlines), p.inlines.len() as int);
                }
            },
        },
        DocumentItemKindV::Block(b) => lemma_block(s, b),
    }
}

proof fn lemma_items(s: Seq<char>, v: Seq<DocumentItemV>, n: int)
    requires
        0 <= n <= v.len(),
    ensures
        print_items_v(s, v.map_values(|i: DocumentItemV| strip_item(i)), n) == print_items_v(s, v, n),
    decreases n,
{
    if n > 0 {
        lemma_items(s, v, n - 1);
        let t = print_items_v(s, v, n - 1);
        let t2 = if n > 1 {
            crate::printer::writer::blank_line_v(t)
        } else {
            t
        };
        lemma_item(t2, v[n - 1]);
    }
}

/// Printing reads no source range: a tree prints as the same tree with every
/// source range emptied.
pub proof fn lemma_print_ignores_ranges(d: QuizFoldDocumentV)
    ensures
        spec_print(strip_document(d)) == spec_print(d),
{
    lemma_items(Seq::<char>::empty(), d.items, d.items.len() as int);
}

/// A tree that converts to the model, and back, prints as it did: the model
/// keeps all that the text shows. An item with more than `u32::MAX` blanks is
/// left out, as in the tree round trip.
pub proof fn lemma_restored_tree_prints_the_same(d: QuizFoldDocumentV)
    requires
        document_to_model(d) is Ok,
        blanks_fit(document_to_model(d)->Ok_0),
    ensures
        document_to_ast(document_to_model(d)->Ok_0) is Ok,
        spec_print(document_to_ast(document_to_model(d)->Ok_0)->Ok_0) == spec_print(d),
{
    lemma_tree_round_trip(d);
    lemma_print_ignores_ranges(d);
}

} // verus!
