//! What the model promises of the trees that a clean parse builds.
use crate::ast::{
    BlockKindV, BlockV, DocumentItemKindV, DocumentItemV, InlineV, QuizFoldDocumentV, QuizItemKindV,
};
use crate::model::convert::{
    block_to_model, blocks_to_model, document_to_ast, document_to_model, inlines_to_model,
    item_to_model, items_to_model, memo_location,
};
use crate::model::error::ModelDiagnosticV;
use crate::model::laws::{blanks_fit, lemma_tree_round_trip, strip_document};
use crate::model::printing::lemma_print_ignores_ranges;
use crate::model::types::{BlankM, ItemM};
use crate::parse::clean::{
    all_answer_ok, all_block_free, all_ready, answer_block_ok, block_free, flat_free, item_ready,
    lemma_clean_parse_ready, memo_free,
};
use crate::parse::inline::has_fold_blank;
use crate::parse::spec_parse;
use crate::printer::spec_print;
use vstd::prelude::*;

verus! {

/// Fold blanks among the first `n` inlines.
pub open spec fn count_inline_blanks(v: Seq<InlineV>, n: int) -> nat
    decreases n,
{
    if n <= 0 || n > v.len() {
        0
    } else {
        count_inline_blanks(v, n - 1) + if v[n - 1].kind is FoldBlank {
            1nat
        } else {
            0nat
        }
    }
}

/// Fold blanks in the paragraphs among the first `n` blocks; a memo block's
/// are not counted.
pub open spec fn count_block_blanks(v: Seq<BlockV>, n: int) -> nat
    decreases n,
{
    if n <= 0 || n > v.len() {
        0
    } else {
        count_block_blanks(v, n - 1) + block_blank_count(v[n - 1])
    }
}

/// Fold blanks of a paragraph; other blocks count none.
pub open spec fn block_blank_count(b: BlockV) -> nat {
    match b.kind {
        BlockKindV::Paragraph(p) => count_inline_blanks(p.inlines, p.inlines.len() as int),
        _ => 0nat,
    }
}

/// Fold blanks that an item's model numbers: those of a Q/A answer or of a
/// fold quiz.
pub open spec fn item_blank_count(i: DocumentItemV) -> nat {
    match i.kind {
        DocumentItemKindV::Quiz(q) => match q.kind {
            QuizItemKindV::Qa(qa) => count_block_blanks(qa.answer.blocks, qa.answer.blocks.len() as int),
            QuizItemKindV::Fold(f) => count_block_blanks(f.content.blocks, f.content.blocks.len() as int),
        },
        DocumentItemKindV::Block(_) => 0,
    }
}

/// Every item of the tree numbers at most `limit` fold blanks.
pub open spec fn blanks_within(d: QuizFoldDocumentV, limit: int) -> bool {
    forall|i: int| 0 <= i < d.items.len() ==> item_blank_count(#[trigger] d.items[i]) <= limit
}

pub open spec fn model_blank_count(m: ItemM) -> nat {
    match m {
        ItemM::QaFold { blanks, .. } => blanks.len(),
        ItemM::Fold { blanks, .. } => blanks.len(),
        _ => 0,
    }
}

proof fn lemma_inlines_free(v: Seq<InlineV>, n: int, l: Seq<char>, bs: Seq<BlankM>)
    requires
        0 <= n <= v.len(),
        !has_fold_blank(v),
    ensures
        inlines_to_model(v, n, Some(l), bs) is Ok,
        inlines_to_model(v, n, Some(l), bs)->Ok_0.1 == bs,
    decreases n,
{
    if n > 0 {
        lemma_inlines_free(v, n - 1, l, bs);
        assert(!(v[n - 1].kind is FoldBlank));
    }
}

proof fn lemma_inlines_counted(v: Seq<InlineV>, n: int, bs: Seq<BlankM>)
    requires
        0 <= n <= v.len(),
        bs.len() + count_inline_blanks(v, n) <= u32::MAX + 1,
    ensures
        inlines_to_model(v, n, None, bs) is Ok,
        inlines_to_model(v, n, None, bs)->Ok_0.1.len() == bs.len() + count_inline_blanks(v, n),
    decreases n,
{
    if n > 0 {
        lemma_inlines_counted(v, n - 1, bs);
    }
}

proof fn lemma_count_positive(v: Seq<InlineV>, n: int, j: int)
    requires
        0 <= j < n <= v.len(),
        v[j].kind is FoldBlank,
    ensures
        count_inline_blanks(v, n) > 0,
    decreases n,
{
    if j < n - 1 {
        lemma_count_positive(v, n - 1, j);
    }
}

proof fn lemma_blocks_flat(v: Seq<BlockV>, n: int, l: Seq<char>, bs: Seq<BlankM>)
    requires
        0 <= n <= v.len(),
        forall|i: int| 0 <= i < v.len() ==> flat_free(#[trigger] v[i]),
    ensures
        blocks_to_model(v, n, Some(l), bs) is Ok,
        blocks_to_model(v, n, Some(l), bs)->Ok_0.1 == bs,
    decreases n,
{
    if n > 0 {
        lemma_blocks_flat(v, n - 1, l, bs);
        lemma_block_flat(v[n - 1], l, bs);
    }
}

proof fn lemma_block_flat(b: BlockV, l: Seq<char>, bs: Seq<BlankM>)
    requires
        flat_free(b),
    ensures
        block_to_model(b, Some(l), bs) is Ok,
        block_to_model(b, Some(l), bs)->Ok_0.1 == bs,
{
    if let BlockKindV::Paragraph(p) = b.kind {
        lemma_inlines_free(p.inlines, p.inlines.len() as int, l, bs);
    }
}

proof fn lemma_memo_free(m: crate::ast::MemoBlockV)
    requires
        memo_free(m),
    ensures
        blocks_to_model(m.blocks, m.blocks.len() as int, Some(memo_location()), seq![]) is Ok,
{
    lemma_blocks_flat(m.blocks, m.blocks.len() as int, memo_location(), seq![]);
}

proof fn lemma_block_free(b: BlockV, l: Seq<char>, bs: Seq<BlankM>)
    requires
        block_free(b),
    ensures
        block_to_model(b, Some(l), bs) is Ok,
        block_to_model(b, Some(l), bs)->Ok_0.1 == bs,
{
    match b.kind {
        BlockKindV::Paragraph(p) => lemma_inlines_free(p.inlines, p.inlines.len() as int, l, bs),
        BlockKindV::Memo(m) => lemma_memo_free(m),
        _ => {},
    }
}

proof fn lemma_blocks_free(v: Seq<BlockV>, n: int, l: Seq<char>, bs: Seq<BlankM>)
    requires
        0 <= n <= v.len(),
        all_block_free(v),
    ensures
        blocks_to_model(v, n, Some(l), bs) is Ok,
        blocks_to_model(v, n, Some(l), bs)->Ok_0.1 == bs,
    decreases n,
{
    if n > 0 {
        lemma_blocks_free(v, n - 1, l, bs);
        lemma_block_free(v[n - 1], l, bs);
    }
}

proof fn lemma_answer_blocks(v: Seq<BlockV>, n: int, bs: Seq<BlankM>)
    requires
        0 <= n <= v.len(),
        all_answer_ok(v),
        bs.len() + count_block_blanks(v, n) <= u32::MAX + 1,
    ensures
        blocks_to_model(v, n, None, bs) is Ok,
        blocks_to_model(v, n, None, bs)->Ok_0.1.len() == bs.len() + count_block_blanks(v, n),
    decreases n,
{
    if n > 0 {
        lemma_answer_blocks(v, n - 1, bs);
        let bs1 = blocks_to_model(v, n - 1, None, bs)->Ok_0.1;
        lemma_answer_block(v[n - 1], bs1);
    }
}

proof fn lemma_answer_block(b: BlockV, bs: Seq<BlankM>)
    requires
        answer_block_ok(b),
        bs.len() + block_blank_count(b) <= u32::MAX + 1,
    ensures
        block_to_model(b, None, bs) is Ok,
        block_to_model(b, None, bs)->Ok_0.1.len() == bs.len() + block_blank_count(b),
{
    match b.kind {
        BlockKindV::Paragraph(p) => lemma_inlines_counted(p.inlines, p.inlines.len() as int, bs),
        BlockKindV::Memo(m) => lemma_memo_free(m),
        _ => {},
    }
}

proof fn lemma_item(i: DocumentItemV)
    requires
        item_ready(i),
        item_blank_count(i) <= u32::MAX + 1,
    ensures
        item_to_model(i) is Ok,
        model_blank_count(item_to_model(i)->Ok_0) == item_blank_count(i),
{
    let empty = Seq::<BlankM>::empty();
    match i.kind {
        DocumentItemKindV::Quiz(q) => match q.kind {
            QuizItemKindV::Qa(qa) => {
                let qb = qa.question.blocks;
                let ab = qa.answer.blocks;
                lemma_blocks_free(qb, qb.len() as int, "a Q/A question"@, empty);
                lemma_answer_blocks(ab, ab.len() as int, empty);
            },
            QuizItemKindV::Fold(f) => {
                let blocks = f.content.blocks;
                let p = blocks[0].kind->Paragraph_0;
                assert(count_block_blanks(blocks, 0) == 0);
                assert(count_block_blanks(blocks, 1) == count_inline_blanks(p.inlines, p.inlines.len() as int));
                lemma_inlines_counted(p.inlines, p.inlines.len() as int, empty);
                let j = choose|j: int| 0 <= j < p.inlines.len() && (#[trigger] p.inlines[j]).kind is FoldBlank;
                lemma_count_positive(p.inlines, p.inlines.len() as int, j);
            },
        },
        DocumentItemKindV::Block(b) => lemma_block_free(b, "a note"@, empty),
    }
}

proof fn lemma_items(v: Seq<DocumentItemV>, n: int)
    requires
        0 <= n <= v.len(),
        all_ready(v),
        forall|i: int| 0 <= i < v.len() ==> item_blank_count(#[trigger] v[i]) <= u32::MAX + 1,
    ensures
        items_to_model(v, n) is Ok,
        items_to_model(v, n)->Ok_0.len() == n,
        forall|i: int|
            0 <= i < n ==> model_blank_count(#[trigger] items_to_model(v, n)->Ok_0[i]) == item_blank_count(
                v[i],
            ),
    decreases n,
{
    if n > 0 {
        lemma_items(v, n - 1);
        lemma_item(v[n - 1]);
        let xs = items_to_model(v, n - 1)->Ok_0;
        let x = item_to_model(v[n - 1])->Ok_0;
        assert forall|i: int| 0 <= i < n implies model_blank_count(#[trigger] xs.push(x)[i])
            == item_blank_count(v[i]) by {
            if i < n - 1 {
                assert(xs.push(x)[i] == xs[i]);
            }
        }
    }
}

/// A source that parses without a diagnostic converts to the model, unless
/// one of its quizzes holds more fold blanks than `u32` indices can number.
pub proof fn lemma_clean_parse_converts(input: Seq<u8>)
    requires
        spec_parse(input).diagnostics.len() == 0,
        blanks_within(spec_parse(input).document, u32::MAX + 1),
    ensures
        document_to_model(spec_parse(input).document) is Ok,
{
    let items = spec_parse(input).document.items;
    lemma_clean_parse_ready(input);
    lemma_items(items, items.len() as int);
}

/// A source that parses without a diagnostic converts to the model and back
/// to the same tree with every source range emptied, which prints as the
/// parsed tree, unless one of its quizzes holds more than `u32::MAX` fold
/// blanks.
pub proof fn lemma_clean_parse_round_trip(input: Seq<u8>)
    requires
        spec_parse(input).diagnostics.len() == 0,
        blanks_within(spec_parse(input).document, u32::MAX as int),
    ensures
        document_to_model(spec_parse(input).document) is Ok,
        document_to_ast(document_to_model(spec_parse(input).document)->Ok_0) == Ok::<
            QuizFoldDocumentV,
            ModelDiagnosticV,
        >(strip_document(spec_parse(input).document)),
        spec_print(strip_document(spec_parse(input).document)) == spec_print(spec_parse(input).document),
{
    let d = spec_parse(input).document;
    let items = d.items;
    lemma_clean_parse_ready(input);
    lemma_items(items, items.len() as int);
    let m = document_to_model(d)->Ok_0;
    assert(blanks_fit(m)) by {
        assert forall|i: int| 0 <= i < m.len() implies match #[trigger] m[i] {
            ItemM::QaFold { blanks, .. } => blanks.len() <= u32::MAX,
            ItemM::Fold { blanks, .. } => blanks.len() <= u32::MAX,
            _ => true,
        } by {
            assert(model_blank_count(m[i]) == item_blank_count(items[i]));
        }
    }
    lemma_tree_round_trip(d);
    lemma_print_ignores_ranges(d);
}

} // verus!
