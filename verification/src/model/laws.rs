//! What the two conversions promise of each other.
use crate::ast::{
    BlockKindV, BlockV, DocumentItemKindV, DocumentItemV, FoldBlankContentV, FoldBlankInlineV,
    FoldBlankV, FoldQuizV, InlineKindV, InlineV, MemoBlockV, ParagraphV, QaQuizV, QuizContentV,
    QuizFoldDocumentV, QuizItemKindV, QuizItemV,
};
use crate::model::convert::{
    blank_from_ast, blank_to_ast, block_to_ast_from, block_to_model, blocks_to_ast_from,
    blocks_to_model, document_to_ast, document_to_model, empty_range, inline_to_model,
    inlines_to_model, item_to_ast, item_to_model, items_to_ast, items_to_model,
    memo_blocks_to_ast, memo_location, restore_inline, restore_inlines_from,
};
use crate::model::error::ModelDiagnosticV;
use crate::model::types::{BlankM, BlockM, InlineM, ItemM};
use vstd::prelude::*;

verus! {

proof fn lemma_blank_round_trip(b: BlankM)
    ensures
        blank_from_ast(blank_to_ast(b)) == b,
{
    assert(blank_from_ast(blank_to_ast(b)) =~= b);
}

proof fn lemma_inlines_to_model_prefix(
    v: Seq<InlineV>,
    w: Seq<InlineV>,
    n: int,
    policy: Option<Seq<char>>,
    bs: Seq<BlankM>,
)
    requires
        0 <= n <= v.len(),
        n <= w.len(),
        forall|i: int| 0 <= i < n ==> v[i] == w[i],
    ensures
        inlines_to_model(v, n, policy, bs) == inlines_to_model(w, n, policy, bs),
    decreases n,
{
    if n > 0 {
        lemma_inlines_to_model_prefix(v, w, n - 1, policy, bs);
    }
}

proof fn lemma_blocks_to_model_prefix(
    v: Seq<BlockV>,
    w: Seq<BlockV>,
    n: int,
    policy: Option<Seq<char>>,
    bs: Seq<BlankM>,
)
    requires
        0 <= n <= v.len(),
        n <= w.len(),
        forall|i: int| 0 <= i < n ==> v[i] == w[i],
    ensures
        blocks_to_model(v, n, policy, bs) == blocks_to_model(w, n, policy, bs),
    decreases n,
{
    if n > 0 {
        lemma_blocks_to_model_prefix(v, w, n - 1, policy, bs);
    }
}

proof fn lemma_items_to_model_prefix(v: Seq<crate::ast::DocumentItemV>, w: Seq<crate::ast::DocumentItemV>, n: int)
    requires
        0 <= n <= v.len(),
        n <= w.len(),
        forall|i: int| 0 <= i < n ==> v[i] == w[i],
    ensures
        items_to_model(v, n) == items_to_model(w, n),
    decreases n,
{
    if n > 0 {
        lemma_items_to_model_prefix(v, w, n - 1);
    }
}

/// Inlines restored without blanks hold no fold blank: they convert back
/// under any policy and leave the blanks as they were.
proof fn lemma_restore_inlines_plain(
    v: Seq<InlineM>,
    n: int,
    location: Seq<char>,
    next: u32,
    policy: Option<Seq<char>>,
    bs: Seq<BlankM>,
)
    requires
        0 <= n <= v.len(),
        restore_inlines_from(v, n, None, location, next) is Ok,
    ensures
        ({
            let (xs, k) = restore_inlines_from(v, n, None, location, next)->Ok_0;
            &&& xs.len() == n
            &&& k == next
            &&& inlines_to_model(xs, n, policy, bs) == Ok::<
                (Seq<InlineM>, Seq<BlankM>),
                ModelDiagnosticV,
            >((v.subrange(0, n), bs))
        }),
    decreases n,
{
    if n == 0 {
        assert(v.subrange(0, 0) =~= Seq::<InlineM>::empty());
    } else {
        lemma_restore_inlines_plain(v, n - 1, location, next, policy, bs);
        let (xs1, k1) = restore_inlines_from(v, n - 1, None, location, next)->Ok_0;
        let (x, k) = restore_inline(v[n - 1], None, location, k1)->Ok_0;
        let xs = xs1.push(x);
        lemma_inlines_to_model_prefix(xs, xs1, n - 1, policy, bs);
        assert(xs[n - 1] == x);
        assert(v.subrange(0, n - 1).push(v[n - 1]) =~= v.subrange(0, n));
    }
}

/// Inlines restored with blanks convert back to the same inlines, and the
/// blanks they took come back in order.
proof fn lemma_restore_inlines_back(
    v: Seq<InlineM>,
    n: int,
    bl: Seq<BlankM>,
    location: Seq<char>,
    next: u32,
)
    requires
        0 <= n <= v.len(),
        next <= bl.len(),
        restore_inlines_from(v, n, Some(bl), location, next) is Ok,
    ensures
        ({
            let (xs, k) = restore_inlines_from(v, n, Some(bl), location, next)->Ok_0;
            &&& xs.len() == n
            &&& next <= k <= bl.len()
            &&& inlines_to_model(xs, n, None, bl.subrange(0, next as int)) == Ok::<
                (Seq<InlineM>, Seq<BlankM>),
                ModelDiagnosticV,
            >((v.subrange(0, n), bl.subrange(0, k as int)))
        }),
    decreases n,
{
    if n == 0 {
        assert(v.subrange(0, 0) =~= Seq::<InlineM>::empty());
    } else {
        lemma_restore_inlines_back(v, n - 1, bl, location, next);
        let (xs1, k1) = restore_inlines_from(v, n - 1, Some(bl), location, next)->Ok_0;
        let (x, k) = restore_inline(v[n - 1], Some(bl), location, k1)->Ok_0;
        let xs = xs1.push(x);
        lemma_inlines_to_model_prefix(xs, xs1, n - 1, None, bl.subrange(0, next as int));
        assert(xs[n - 1] == x);
        assert(v.subrange(0, n - 1).push(v[n - 1]) =~= v.subrange(0, n));
        if v[n - 1] is Blank {
            lemma_blank_round_trip(bl[k1 as int]);
            assert(bl.subrange(0, k1 as int).push(bl[k1 as int]) =~= bl.subrange(0, k as int));
        }
    }
}

/// A block restored without blanks converts back under any policy and
/// leaves the blanks as they were.
proof fn lemma_block_plain(
    b: BlockM,
    location: Seq<char>,
    next: u32,
    policy: Option<Seq<char>>,
    bs: Seq<BlankM>,
)
    requires
        block_to_ast_from(b, None, location, next) is Ok,
    ensures
        ({
            let (x, k) = block_to_ast_from(b, None, location, next)->Ok_0;
            &&& k == next
            &&& block_to_model(x, policy, bs) == Ok::<(BlockM, Seq<BlankM>), ModelDiagnosticV>((b, bs))
        }),
    decreases b, 0int,
{
    match b {
        BlockM::Paragraph(v) => {
            lemma_restore_inlines_plain(v, v.len() as int, location, next, policy, bs);
            assert(v.subrange(0, v.len() as int) =~= v);
        },
        BlockM::Memo(v) => {
            lemma_memo_back(v, v.len() as int, Some(memo_location()), seq![]);
            assert(v.subrange(0, v.len() as int) =~= v);
        },
        _ => {},
    }
}

/// A block restored with blanks converts back to the same block, and the
/// blanks it took come back in order.
proof fn lemma_block_back(b: BlockM, bl: Seq<BlankM>, location: Seq<char>, next: u32)
    requires
        next <= bl.len(),
        block_to_ast_from(b, Some(bl), location, next) is Ok,
    ensures
        ({
            let (x, k) = block_to_ast_from(b, Some(bl), location, next)->Ok_0;
            &&& next <= k <= bl.len()
            &&& block_to_model(x, None, bl.subrange(0, next as int)) == Ok::<
                (BlockM, Seq<BlankM>),
                ModelDiagnosticV,
            >((b, bl.subrange(0, k as int)))
        }),
    decreases b, 0int,
{
    match b {
        BlockM::Paragraph(v) => {
            lemma_restore_inlines_back(v, v.len() as int, bl, location, next);
            assert(v.subrange(0, v.len() as int) =~= v);
        },
        BlockM::Memo(v) => {
            lemma_memo_back(v, v.len() as int, Some(memo_location()), seq![]);
            assert(v.subrange(0, v.len() as int) =~= v);
        },
        _ => {},
    }
}

/// The blocks of a memo convert back under any policy, leaving the blanks.
proof fn lemma_memo_back(v: Seq<BlockM>, n: int, policy: Option<Seq<char>>, bs: Seq<BlankM>)
    requires
        0 <= n <= v.len(),
        memo_blocks_to_ast(v, n) is Ok,
    ensures
        ({
            let xs = memo_blocks_to_ast(v, n)->Ok_0;
            &&& xs.len() == n
            &&& blocks_to_model(xs, n, policy, bs) == Ok::<
                (Seq<BlockM>, Seq<BlankM>),
                ModelDiagnosticV,
            >((v.subrange(0, n), bs))
        }),
    decreases v, n,
{
    if n == 0 {
        assert(v.subrange(0, 0) =~= Seq::<BlockM>::empty());
    } else {
        lemma_memo_back(v, n - 1, policy, bs);
        lemma_block_plain(v[n - 1], memo_location(), 0, policy, bs);
        let xs1 = memo_blocks_to_ast(v, n - 1)->Ok_0;
        let (x, _) = block_to_ast_from(v[n - 1], None, memo_location(), 0)->Ok_0;
        let xs = xs1.push(x);
        lemma_blocks_to_model_prefix(xs, xs1, n - 1, policy, bs);
        assert(xs[n - 1] == x);
        assert(v.subrange(0, n - 1).push(v[n - 1]) =~= v.subrange(0, n));
    }
}

proof fn lemma_blocks_plain(
    v: Seq<BlockM>,
    n: int,
    location: Seq<char>,
    next: u32,
    policy: Option<Seq<char>>,
    bs: Seq<BlankM>,
)
    requires
        0 <= n <= v.len(),
        blocks_to_ast_from(v, n, None, location, next) is Ok,
    ensures
        ({
            let (xs, k) = blocks_to_ast_from(v, n, None, location, next)->Ok_0;
            &&& xs.len() == n
            &&& k == next
            &&& blocks_to_model(xs, n, policy, bs) == Ok::<
                (Seq<BlockM>, Seq<BlankM>),
                ModelDiagnosticV,
            >((v.subrange(0, n), bs))
        }),
    decreases n,
{
    if n == 0 {
        assert(v.subrange(0, 0) =~= Seq::<BlockM>::empty());
    } else {
        lemma_blocks_plain(v, n - 1, location, next, policy, bs);
        let (xs1, k1) = blocks_to_ast_from(v, n - 1, None, location, next)->Ok_0;
        lemma_block_plain(v[n - 1], location, k1, policy, bs);
        let (x, k) = block_to_ast_from(v[n - 1], None, location, k1)->Ok_0;
        let xs = xs1.push(x);
        lemma_blocks_to_model_prefix(xs, xs1, n - 1, policy, bs);
        assert(xs[n - 1] == x);
        assert(v.subrange(0, n - 1).push(v[n - 1]) =~= v.subrange(0, n));
    }
}

proof fn lemma_blocks_back(v: Seq<BlockM>, n: int, bl: Seq<BlankM>, location: Seq<char>, next: u32)
    requires
        0 <= n <= v.len(),
        next <= bl.len(),
        blocks_to_ast_from(v, n, Some(bl), location, next) is Ok,
    ensures
        ({
            let (xs, k) = blocks_to_ast_from(v, n, Some(bl), location, next)->Ok_0;
            &&& xs.len() == n
            &&& next <= k <= bl.len()
            &&& blocks_to_model(xs, n, None, bl.subrange(0, next as int)) == Ok::<
                (Seq<BlockM>, Seq<BlankM>),
                ModelDiagnosticV,
            >((v.subrange(0, n), bl.subrange(0, k as int)))
        }),
    decreases n,
{
    if n == 0 {
        assert(v.subrange(0, 0) =~= Seq::<BlockM>::empty());
    } else {
        lemma_blocks_back(v, n - 1, bl, location, next);
        let (xs1, k1) = blocks_to_ast_from(v, n - 1, Some(bl), location, next)->Ok_0;
        lemma_block_back(v[n - 1], bl, location, k1);
        let (x, k) = block_to_ast_from(v[n - 1], Some(bl), location, k1)->Ok_0;
        let xs = xs1.push(x);
        lemma_blocks_to_model_prefix(xs, xs1, n - 1, None, bl.subrange(0, next as int));
        assert(xs[n - 1] == x);
        assert(v.subrange(0, n - 1).push(v[n - 1]) =~= v.subrange(0, n));
    }
}

proof fn lemma_item_back(i: ItemM)
    requires
        item_to_ast(i) is Ok,
    ensures
        item_to_model(item_to_ast(i)->Ok_0) == Ok::<ItemM, ModelDiagnosticV>(i),
{
    match i {
        ItemM::Qa { question, answer } => {
            lemma_blocks_plain(question, question.len() as int, "a Q/A question"@, 0, Some("a Q/A question"@), seq![]);
            lemma_blocks_plain(answer, answer.len() as int, "a Q/A answer"@, 0, None, seq![]);
            assert(question.subrange(0, question.len() as int) =~= question);
            assert(answer.subrange(0, answer.len() as int) =~= answer);
        },
        ItemM::QaFold { question, content, blanks } => {
            lemma_blocks_plain(question, question.len() as int, "a Q/A question"@, 0, Some("a Q/A question"@), seq![]);
            lemma_blocks_back(content, content.len() as int, blanks, "a Q/A fold answer"@, 0);
            assert(question.subrange(0, question.len() as int) =~= question);
            assert(content.subrange(0, content.len() as int) =~= content);
            assert(blanks.subrange(0, 0) =~= Seq::<BlankM>::empty());
            assert(blanks.subrange(0, blanks.len() as int) =~= blanks);
        },
        ItemM::Fold { content, blanks } => {
            lemma_restore_inlines_back(content, content.len() as int, blanks, "a fold quiz"@, 0);
            assert(content.subrange(0, content.len() as int) =~= content);
            assert(blanks.subrange(0, 0) =~= Seq::<BlankM>::empty());
            assert(blanks.subrange(0, blanks.len() as int) =~= blanks);
        },
        ItemM::Note { block } => {
            lemma_block_plain(block, "a note"@, 0, Some("a note"@), seq![]);
        },
    }
}

proof fn lemma_items_back(v: Seq<ItemM>, n: int)
    requires
        0 <= n <= v.len(),
        items_to_ast(v, n) is Ok,
    ensures
        items_to_ast(v, n)->Ok_0.len() == n,
        items_to_model(items_to_ast(v, n)->Ok_0, n) == Ok::<Seq<ItemM>, ModelDiagnosticV>(v.subrange(0, n)),
    decreases n,
{
    if n == 0 {
        assert(v.subrange(0, 0) =~= Seq::<ItemM>::empty());
    } else {
        lemma_items_back(v, n - 1);
        lemma_item_back(v[n - 1]);
        let xs1 = items_to_ast(v, n - 1)->Ok_0;
        let x = item_to_ast(v[n - 1])->Ok_0;
        let xs = xs1.push(x);
        lemma_items_to_model_prefix(xs, xs1, n - 1);
        assert(xs[n - 1] == x);
        assert(v.subrange(0, n - 1).push(v[n - 1]) =~= v.subrange(0, n));
    }
}

/// A model document that converts to a syntax tree converts back to the
/// same model: nothing of the model is lost on the way to the tree.
pub proof fn lemma_model_round_trip(m: Seq<ItemM>)
    requires
        document_to_ast(m) is Ok,
    ensures
        document_to_model(document_to_ast(m)->Ok_0) == Ok::<Seq<ItemM>, ModelDiagnosticV>(m),
{
    lemma_items_back(m, m.len() as int);
    assert(m.subrange(0, m.len() as int) =~= m);
}

// ---------------------------------------------------------------------
// From the tree to the model and back.
pub open spec fn strip_blank_inlines(v: Seq<FoldBlankInlineV>) -> Seq<FoldBlankInlineV> {
    v.map_values(|x: FoldBlankInlineV| FoldBlankInlineV { kind: x.kind, source_range: empty_range() })
}

/// The inline with every source range emptied.
pub open spec fn strip_inline(i: InlineV) -> InlineV {
    InlineV {
        kind: match i.kind {
            InlineKindV::FoldBlank(b) => InlineKindV::FoldBlank(
                FoldBlankV {
                    answer: FoldBlankContentV {
                        inlines: strip_blank_inlines(b.answer.inlines),
                        source_range: empty_range(),
                    },
                    source_range: empty_range(),
                },
            ),
            k => k,
        },
        source_range: empty_range(),
    }
}

pub open spec fn strip_inlines(v: Seq<InlineV>) -> Seq<InlineV> {
    v.map_values(|i: InlineV| strip_inline(i))
}

/// The block with every source range emptied.
pub open spec fn strip_block(b: BlockV) -> BlockV
    decreases b,
{
    BlockV {
        kind: match b.kind {
            BlockKindV::Paragraph(p) => BlockKindV::Paragraph(
                ParagraphV { inlines: strip_inlines(p.inlines), source_range: empty_range() },
            ),
            BlockKindV::Memo(m) => BlockKindV::Memo(
                MemoBlockV {
                    blocks: Seq::new(
                        m.blocks.len(),
                        |i: int|
                            if 0 <= i < m.blocks.len() {
                                strip_block(m.blocks[i])
                            } else {
                                b
                            },
                    ),
                    source_range: empty_range(),
                },
            ),
            k => k,
        },
        source_range: empty_range(),
    }
}

pub open spec fn strip_blocks(v: Seq<BlockV>) -> Seq<BlockV> {
    v.map_values(|b: BlockV| strip_block(b))
}

pub open spec fn strip_content(c: QuizContentV) -> QuizContentV {
    QuizContentV { blocks: strip_blocks(c.blocks), source_range: empty_range() }
}

/// The item with every source range emptied.
pub open spec fn strip_item(i: DocumentItemV) -> DocumentItemV {
    DocumentItemV {
        kind: match i.kind {
            DocumentItemKindV::Quiz(q) => DocumentItemKindV::Quiz(
                QuizItemV {
                    kind: match q.kind {
                        QuizItemKindV::Qa(qa) => QuizItemKindV::Qa(
                            QaQuizV {
                                question: strip_content(qa.question),
                                answer: strip_content(qa.answer),
                                source_range: empty_range(),
                            },
                        ),
                        QuizItemKindV::Fold(f) => QuizItemKindV::Fold(
                            FoldQuizV { content: strip_content(f.content), source_range: empty_range() },
                        ),
                    },
                    source_range: empty_range(),
                },
            ),
            DocumentItemKindV::Block(b) => DocumentItemKindV::Block(strip_block(b)),
        },
        source_range: empty_range(),
    }
}

/// The document with every source range emptied.
pub open spec fn strip_document(d: QuizFoldDocumentV) -> QuizFoldDocumentV {
    QuizFoldDocumentV {
        items: d.items.map_values(|i: DocumentItemV| strip_item(i)),
        source_range: empty_range(),
    }
}

/// Each item has at most `u32::MAX` blanks.
pub open spec fn blanks_fit(m: Seq<ItemM>) -> bool {
    forall|i: int|
        0 <= i < m.len() ==> match #[trigger] m[i] {
            ItemM::QaFold { blanks, .. } => blanks.len() <= u32::MAX,
            ItemM::Fold { blanks, .. } => blanks.len() <= u32::MAX,
            _ => true,
        }
}

proof fn lemma_blank_strip(w: Seq<FoldBlankInlineV>)
    ensures
        blank_to_ast(blank_from_ast(w)) == strip_blank_inlines(w),
{
    assert(blank_to_ast(blank_from_ast(w)) =~= strip_blank_inlines(w));
}

proof fn lemma_restore_prefix(
    v: Seq<InlineM>,
    w: Seq<InlineM>,
    n: int,
    blanks: Option<Seq<BlankM>>,
    location: Seq<char>,
    next: u32,
)
    requires
        0 <= n <= v.len(),
        n <= w.len(),
        forall|i: int| 0 <= i < n ==> v[i] == w[i],
    ensures
        restore_inlines_from(v, n, blanks, location, next) == restore_inlines_from(w, n, blanks, location, next),
    decreases n,
{
    if n > 0 {
        lemma_restore_prefix(v, w, n - 1, blanks, location, next);
    }
}

proof fn lemma_blocks_ast_prefix(
    v: Seq<BlockM>,
    w: Seq<BlockM>,
    n: int,
    blanks: Option<Seq<BlankM>>,
    location: Seq<char>,
    next: u32,
)
    requires
        0 <= n <= v.len(),
        n <= w.len(),
        forall|i: int| 0 <= i < n ==> v[i] == w[i],
    ensures
        blocks_to_ast_from(v, n, blanks, location, next) == blocks_to_ast_from(w, n, blanks, location, next),
    decreases n,
{
    if n > 0 {
        lemma_blocks_ast_prefix(v, w, n - 1, blanks, location, next);
    }
}

proof fn lemma_memo_ast_prefix(v: Seq<BlockM>, w: Seq<BlockM>, n: int)
    requires
        0 <= n <= v.len(),
        n <= w.len(),
        forall|i: int| 0 <= i < n ==> v[i] == w[i],
    ensures
        memo_blocks_to_ast(v, n) == memo_blocks_to_ast(w, n),
    decreases n,
{
    if n > 0 {
        lemma_memo_ast_prefix(v, w, n - 1);
    }
}

proof fn lemma_items_ast_prefix(v: Seq<ItemM>, w: Seq<ItemM>, n: int)
    requires
        0 <= n <= v.len(),
        n <= w.len(),
        forall|i: int| 0 <= i < n ==> v[i] == w[i],
    ensures
        items_to_ast(v, n) == items_to_ast(w, n),
    decreases n,
{
    if n > 0 {
        lemma_items_ast_prefix(v, w, n - 1);
    }
}

/// Inlines taken into the model come back, ranges emptied. `location` and
/// `next` are those of a restore without blanks, `bl` those of a restore
/// with blanks.
proof fn lemma_inlines_forth(
    v: Seq<InlineV>,
    n: int,
    policy: Option<Seq<char>>,
    bs: Seq<BlankM>,
    location: Seq<char>,
    next: u32,
    bl: Seq<BlankM>,
)
    requires
        0 <= n <= v.len(),
        inlines_to_model(v, n, policy, bs) is Ok,
    ensures
        ({
            let (xs, bs2) = inlines_to_model(v, n, policy, bs)->Ok_0;
            &&& xs.len() == n
            &&& bs.len() <= bs2.len()
            &&& bs2.subrange(0, bs.len() as int) == bs
            &&& policy is Some ==> bs2 == bs
            &&& bs2.len() == bs.len() ==> restore_inlines_from(xs, n, None, location, next) == Ok::<
                (Seq<InlineV>, u32),
                ModelDiagnosticV,
            >((strip_inlines(v.subrange(0, n)), next))
            &&& (policy is None && bl.len() <= u32::MAX && bs2.len() <= bl.len() && bl.subrange(
                0,
                bs2.len() as int,
            ) == bs2) ==> restore_inlines_from(xs, n, Some(bl), location, bs.len() as u32) == Ok::<
                (Seq<InlineV>, u32),
                ModelDiagnosticV,
            >((strip_inlines(v.subrange(0, n)), bs2.len() as u32))
        }),
    decreases n,
{
    if n == 0 {
        assert(v.subrange(0, 0) =~= Seq::<InlineV>::empty());
        assert(strip_inlines(Seq::<InlineV>::empty()) =~= Seq::<InlineV>::empty());
        assert(bs.subrange(0, bs.len() as int) =~= bs);
    } else {
        lemma_inlines_forth(v, n - 1, policy, bs, location, next, bl);
        let (xs1, bs1) = inlines_to_model(v, n - 1, policy, bs)->Ok_0;
        let (x, bs2) = inline_to_model(v[n - 1], policy, bs1)->Ok_0;
        let xs = xs1.push(x);
        assert(xs[n - 1] == x);
        lemma_restore_prefix(xs, xs1, n - 1, None, location, next);
        assert(strip_inlines(v.subrange(0, n - 1)).push(strip_inline(v[n - 1])) =~= strip_inlines(
            v.subrange(0, n),
        ));
        if v[n - 1].kind is FoldBlank {
            let w = v[n - 1].kind->FoldBlank_0.answer.inlines;
            lemma_blank_strip(w);
            assert(bs2 == bs1.push(blank_from_ast(w)));
            assert(bs2.subrange(0, bs.len() as int) =~= bs1.subrange(0, bs.len() as int));
        } else {
            assert(bs2 == bs1);
        }
        if policy is None && bl.len() <= u32::MAX && bs2.len() <= bl.len() && bl.subrange(
            0,
            bs2.len() as int,
        ) == bs2 {
            assert(bl.subrange(0, bs1.len() as int) =~= bs2.subrange(0, bs1.len() as int));
            assert(bs2.subrange(0, bs1.len() as int) == bs1) by {
                if v[n - 1].kind is FoldBlank {
                    assert(bs2.subrange(0, bs1.len() as int) =~= bs1);
                } else {
                    assert(bs2.subrange(0, bs1.len() as int) =~= bs1);
                }
            }
            lemma_restore_prefix(xs, xs1, n - 1, Some(bl), location, bs.len() as u32);
            if v[n - 1].kind is FoldBlank {
                assert(bl[bs1.len() as int] == bs2[bs1.len() as int]);
            }
        }
    }
}

/// A block taken into the model comes back, ranges emptied.
proof fn lemma_block_forth(
    b: BlockV,
    policy: Option<Seq<char>>,
    bs: Seq<BlankM>,
    location: Seq<char>,
    next: u32,
    bl: Seq<BlankM>,
)
    requires
        block_to_model(b, policy, bs) is Ok,
    ensures
        ({
            let (x, bs2) = block_to_model(b, policy, bs)->Ok_0;
            &&& bs.len() <= bs2.len()
            &&& bs2.subrange(0, bs.len() as int) == bs
            &&& policy is Some ==> bs2 == bs
            &&& bs2.len() == bs.len() ==> block_to_ast_from(x, None, location, next) == Ok::<
                (BlockV, u32),
                ModelDiagnosticV,
            >((strip_block(b), next))
            &&& (policy is None && bl.len() <= u32::MAX && bs2.len() <= bl.len() && bl.subrange(
                0,
                bs2.len() as int,
            ) == bs2) ==> block_to_ast_from(x, Some(bl), location, bs.len() as u32) == Ok::<
                (BlockV, u32),
                ModelDiagnosticV,
            >((strip_block(b), bs2.len() as u32))
        }),
    decreases b, 0int,
{
    match b.kind {
        BlockKindV::Paragraph(p) => {
            lemma_inlines_forth(p.inlines, p.inlines.len() as int, policy, bs, location, next, bl);
            assert(p.inlines.subrange(0, p.inlines.len() as int) =~= p.inlines);
        },
        BlockKindV::Memo(m) => {
            lemma_memo_forth(m.blocks, m.blocks.len() as int, memo_location(), seq![]);
            assert(m.blocks.subrange(0, m.blocks.len() as int) =~= m.blocks);
            assert(bs.subrange(0, bs.len() as int) =~= bs);
            let xs = blocks_to_model(m.blocks, m.blocks.len() as int, Some(memo_location()), seq![])->Ok_0.0;
            assert(strip_blocks(m.blocks) =~= strip_block(b).kind->Memo_0.blocks);
        },
        _ => {
            assert(bs.subrange(0, bs.len() as int) =~= bs);
        },
    }
}

/// Blocks of a memo taken into the model come back, ranges emptied.
proof fn lemma_memo_forth(v: Seq<BlockV>, n: int, l: Seq<char>, bs: Seq<BlankM>)
    requires
        0 <= n <= v.len(),
        blocks_to_model(v, n, Some(l), bs) is Ok,
    ensures
        ({
            let (xs, bs2) = blocks_to_model(v, n, Some(l), bs)->Ok_0;
            &&& xs.len() == n
            &&& bs2 == bs
            &&& memo_blocks_to_ast(xs, n) == Ok::<Seq<BlockV>, ModelDiagnosticV>(
                strip_blocks(v.subrange(0, n)),
            )
        }),
    decreases v, n,
{
    if n == 0 {
        assert(v.subrange(0, 0) =~= Seq::<BlockV>::empty());
        assert(strip_blocks(Seq::<BlockV>::empty()) =~= Seq::<BlockV>::empty());
    } else {
        lemma_memo_forth(v, n - 1, l, bs);
        let (xs1, bs1) = blocks_to_model(v, n - 1, Some(l), bs)->Ok_0;
        lemma_block_forth(v[n - 1], Some(l), bs1, memo_location(), 0, seq![]);
        let (x, bs2) = block_to_model(v[n - 1], Some(l), bs1)->Ok_0;
        let xs = xs1.push(x);
        assert(xs[n - 1] == x);
        lemma_memo_ast_prefix(xs, xs1, n - 1);
        assert(strip_blocks(v.subrange(0, n - 1)).push(strip_block(v[n - 1])) =~= strip_blocks(
            v.subrange(0, n),
        ));
    }
}

/// Blocks sharing one list of blanks, taken into the model, come back.
proof fn lemma_blocks_forth(
    v: Seq<BlockV>,
    n: int,
    policy: Option<Seq<char>>,
    bs: Seq<BlankM>,
    location: Seq<char>,
    next: u32,
    bl: Seq<BlankM>,
)
    requires
        0 <= n <= v.len(),
        blocks_to_model(v, n, policy, bs) is Ok,
    ensures
        ({
            let (xs, bs2) = blocks_to_model(v, n, policy, bs)->Ok_0;
            &&& xs.len() == n
            &&& bs.len() <= bs2.len()
            &&& bs2.subrange(0, bs.len() as int) == bs
            &&& policy is Some ==> bs2 == bs
            &&& bs2.len() == bs.len() ==> blocks_to_ast_from(xs, n, None, location, next) == Ok::<
                (Seq<BlockV>, u32),
                ModelDiagnosticV,
            >((strip_blocks(v.subrange(0, n)), next))
            &&& (policy is None && bl.len() <= u32::MAX && bs2.len() <= bl.len() && bl.subrange(
                0,
                bs2.len() as int,
            ) == bs2) ==> blocks_to_ast_from(xs, n, Some(bl), location, bs.len() as u32) == Ok::<
                (Seq<BlockV>, u32),
                ModelDiagnosticV,
            >((strip_blocks(v.subrange(0, n)), bs2.len() as u32))
        }),
    decreases n,
{
    if n == 0 {
        assert(v.subrange(0, 0) =~= Seq::<BlockV>::empty());
        assert(strip_blocks(Seq::<BlockV>::empty()) =~= Seq::<BlockV>::empty());
        assert(bs.subrange(0, bs.len() as int) =~= bs);
    } else {
        lemma_blocks_forth(v, n - 1, policy, bs, location, next, bl);
        let (xs1, bs1) = blocks_to_model(v, n - 1, policy, bs)->Ok_0;
        lemma_block_forth(v[n - 1], policy, bs1, location, next, bl);
        let (x, bs2) = block_to_model(v[n - 1], policy, bs1)->Ok_0;
        let xs = xs1.push(x);
        assert(xs[n - 1] == x);
        lemma_blocks_ast_prefix(xs, xs1, n - 1, None, location, next);
        assert(strip_blocks(v.subrange(0, n - 1)).push(strip_block(v[n - 1])) =~= strip_blocks(
            v.subrange(0, n),
        ));
        assert(bs2.subrange(0, bs.len() as int) =~= bs1.subrange(0, bs.len() as int));
        if bs2.len() == bs.len() {
            assert(bs1.len() == bs.len());
        }
        if policy is None && bl.len() <= u32::MAX && bs2.len() <= bl.len() && bl.subrange(
            0,
            bs2.len() as int,
        ) == bs2 {
            assert(bl.subrange(0, bs1.len() as int) =~= bs2.subrange(0, bs1.len() as int));
            lemma_blocks_ast_prefix(xs, xs1, n - 1, Some(bl), location, bs.len() as u32);
        }
    }
}

pub open spec fn item_blanks_fit(m: ItemM) -> bool {
    match m {
        ItemM::QaFold { blanks, .. } => blanks.len() <= u32::MAX,
        ItemM::Fold { blanks, .. } => blanks.len() <= u32::MAX,
        _ => true,
    }
}

proof fn lemma_item_forth(i: DocumentItemV)
    requires
        item_to_model(i) is Ok,
        item_blanks_fit(item_to_model(i)->Ok_0),
    ensures
        item_to_ast(item_to_model(i)->Ok_0) == Ok::<DocumentItemV, ModelDiagnosticV>(strip_item(i)),
{
    let empty = Seq::<BlankM>::empty();
    match i.kind {
        DocumentItemKindV::Quiz(q) => match q.kind {
            QuizItemKindV::Qa(qa) => {
                let qb = qa.question.blocks;
                let ab = qa.answer.blocks;
                lemma_blocks_forth(qb, qb.len() as int, Some("a Q/A question"@), empty, "a Q/A question"@, 0, empty);
                assert(qb.subrange(0, qb.len() as int) =~= qb);
                assert(ab.subrange(0, ab.len() as int) =~= ab);
                let (answer, blanks) = blocks_to_model(ab, ab.len() as int, None, empty)->Ok_0;
                if blanks.len() == 0 {
                    lemma_blocks_forth(ab, ab.len() as int, None, empty, "a Q/A answer"@, 0, empty);
                } else {
                    lemma_blocks_forth(ab, ab.len() as int, None, empty, "a Q/A fold answer"@, 0, blanks);
                    assert(blanks.subrange(0, blanks.len() as int) =~= blanks);
                    assert(empty.len() as u32 == 0u32);
                }
            },
            QuizItemKindV::Fold(f) => {
                let blocks = f.content.blocks;
                let p = blocks[0].kind->Paragraph_0;
                let (content, blanks) = inlines_to_model(p.inlines, p.inlines.len() as int, None, empty)->Ok_0;
                lemma_inlines_forth(p.inlines, p.inlines.len() as int, None, empty, "a fold quiz"@, 0, blanks);
                assert(p.inlines.subrange(0, p.inlines.len() as int) =~= p.inlines);
                assert(blanks.subrange(0, blanks.len() as int) =~= blanks);
                assert(strip_blocks(blocks) =~= seq![strip_block(blocks[0])]);
            },
        },
        DocumentItemKindV::Block(b) => {
            lemma_block_forth(b, Some("a note"@), empty, "a note"@, 0, empty);
        },
    }
}

proof fn lemma_items_forth(v: Seq<DocumentItemV>, n: int)
    requires
        0 <= n <= v.len(),
        items_to_model(v, n) is Ok,
        blanks_fit(items_to_model(v, n)->Ok_0),
    ensures
        items_to_model(v, n)->Ok_0.len() == n,
        items_to_ast(items_to_model(v, n)->Ok_0, n) == Ok::<Seq<DocumentItemV>, ModelDiagnosticV>(
            v.subrange(0, n).map_values(|i: DocumentItemV| strip_item(i)),
        ),
    decreases n,
{
    if n == 0 {
        assert(v.subrange(0, 0).map_values(|i: DocumentItemV| strip_item(i)) =~= Seq::<DocumentItemV>::empty());
    } else {
        let xs1 = items_to_model(v, n - 1)->Ok_0;
        let x = item_to_model(v[n - 1])->Ok_0;
        let xs = xs1.push(x);
        assert forall|i: int| 0 <= i < xs1.len() implies match #[trigger] xs1[i] {
            ItemM::QaFold { blanks, .. } => blanks.len() <= u32::MAX,
            ItemM::Fold { blanks, .. } => blanks.len() <= u32::MAX,
            _ => true,
        } by {
            assert(xs[i] == xs1[i]);
        }
        assert(item_blanks_fit(x)) by {
            assert(xs[xs1.len() as int] == x);
        }
        lemma_items_forth(v, n - 1);
        assert(xs[n - 1] == x);
        lemma_item_forth(v[n - 1]);
        lemma_items_ast_prefix(xs, xs1, n - 1);
        assert(v.subrange(0, n - 1).map_values(|i: DocumentItemV| strip_item(i)).push(strip_item(v[n - 1]))
            =~= v.subrange(0, n).map_values(|i: DocumentItemV| strip_item(i)));
    }
}

/// A syntax tree that converts to the model converts back to the same tree
/// with every source range emptied: the model keeps everything of the tree
/// but where it stood in the source. An item with more than `u32::MAX`
/// blanks is left out: its last blank index cannot be followed by another.
pub proof fn lemma_tree_round_trip(d: QuizFoldDocumentV)
    requires
        document_to_model(d) is Ok,
        blanks_fit(document_to_model(d)->Ok_0),
    ensures
        document_to_ast(document_to_model(d)->Ok_0) == Ok::<QuizFoldDocumentV, ModelDiagnosticV>(
            strip_document(d),
        ),
{
    lemma_items_forth(d.items, d.items.len() as int);
    assert(d.items.subrange(0, d.items.len() as int) =~= d.items);
}

} // verus!
