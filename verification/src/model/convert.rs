//! Conversions between the syntax tree and the model.
//!
//! From the tree to the model, fold blanks are taken out of the text in
//! order and replaced by their index; back to the tree, each index must come
//! in order and every answer must be used once.
use crate::ast::{
    self, BlockKindV, BlockV, DocumentItemKindV, DocumentItemV, FoldBlankContentV,
    FoldBlankInlineKindV, FoldBlankInlineV, FoldBlankV, FoldQuizV, InlineKindV, InlineV,
    MemoBlockV, ParagraphV, QaQuizV, QuizContentV, QuizFoldDocumentV, QuizItemKindV, QuizItemV,
};
use crate::model::error::{ModelDiagnostic, ModelDiagnosticV, ModelError, model_diag};
use crate::model::types::{
    Blank, BlankInline, BlankM, Block, BlockM, Content, Document, Fold, Inline, InlineM, Item,
    ItemM, Memo, Note, Paragraph, Qa, QaFold, blanks_view, blocks_m, inlines_m,
};
use crate::parse::block::blocks_view;
use crate::parse::inline::inlines_view;
use crate::source::SourceRange;
use crate::text::{decimal, decimal_text};
use vstd::prelude::*;
use vstd::std_specs::convert::TryFromSpecImpl;
use vstd::string::StringExecFns;

verus! {

// ---------------------------------------------------------------------
// From the syntax tree to the model.
pub open spec fn not_allowed_message(location: Seq<char>) -> Seq<char> {
    "Fold blank is not allowed in "@ + location + "."@
}

/// The answer of a fold blank, without its ranges.
pub open spec fn blank_from_ast(v: Seq<FoldBlankInlineV>) -> BlankM {
    v.map_values(|i: FoldBlankInlineV| i.kind)
}

/// One inline. With policy `None` a fold blank is taken out and replaced by
/// its index; with `Some(location)` it is an error at that location.
pub open spec fn inline_to_model(i: InlineV, policy: Option<Seq<char>>, blanks: Seq<BlankM>) -> Result<
    (InlineM, Seq<BlankM>),
    ModelDiagnosticV,
> {
    match i.kind {
        InlineKindV::Raw(v) => Ok((InlineM::Raw(v), blanks)),
        InlineKindV::MathInline(v) => Ok((InlineM::MathInline(v), blanks)),
        InlineKindV::Image(img) => Ok((InlineM::Image(img), blanks)),
        InlineKindV::SoftBreak => Ok((InlineM::SoftBreak, blanks)),
        InlineKindV::FoldBlank(b) => match policy {
            Some(location) => Err(
                model_diag(
                    ModelError::FoldBlankNotAllowed,
                    not_allowed_message(location),
                    Some(i.source_range),
                ),
            ),
            None => if blanks.len() > u32::MAX {
                Err(
                    model_diag(
                        ModelError::TooManyBlanks,
                        ModelError::TooManyBlanks.spec_message(),
                        Some(i.source_range),
                    ),
                )
            } else {
                Ok((InlineM::Blank(blanks.len() as u32), blanks.push(blank_from_ast(b.answer.inlines))))
            },
        },
    }
}

/// The first `n` inlines of `v`, stopping at the first error.
pub open spec fn inlines_to_model(
    v: Seq<InlineV>,
    n: int,
    policy: Option<Seq<char>>,
    blanks: Seq<BlankM>,
) -> Result<(Seq<InlineM>, Seq<BlankM>), ModelDiagnosticV>
    decreases n,
{
    if n <= 0 || n > v.len() {
        Ok((seq![], blanks))
    } else {
        match inlines_to_model(v, n - 1, policy, blanks) {
            Err(e) => Err(e),
            Ok((xs, bs)) => match inline_to_model(v[n - 1], policy, bs) {
                Err(e) => Err(e),
                Ok((x, bs2)) => Ok((xs.push(x), bs2)),
            },
        }
    }
}

pub open spec fn memo_location() -> Seq<char> {
    "a memo"@
}

/// One block; the blocks of a memo reject fold blanks.
pub open spec fn block_to_model(b: BlockV, policy: Option<Seq<char>>, blanks: Seq<BlankM>) -> Result<
    (BlockM, Seq<BlankM>),
    ModelDiagnosticV,
>
    decreases b, 0int,
{
    match b.kind {
        BlockKindV::Paragraph(p) => match inlines_to_model(
            p.inlines,
            p.inlines.len() as int,
            policy,
            blanks,
        ) {
            Err(e) => Err(e),
            Ok((xs, bs)) => Ok((BlockM::Paragraph(xs), bs)),
        },
        BlockKindV::Memo(m) => match blocks_to_model(
            m.blocks,
            m.blocks.len() as int,
            Some(memo_location()),
            seq![],
        ) {
            Err(e) => Err(e),
            Ok((xs, _)) => Ok((BlockM::Memo(xs), blanks)),
        },
        BlockKindV::MathBlock(x) => Ok((BlockM::MathBlock(x), blanks)),
        BlockKindV::CodeBlock(x) => Ok((BlockM::CodeBlock(x), blanks)),
        BlockKindV::MermaidBlock(x) => Ok((BlockM::MermaidBlock(x), blanks)),
    }
}

/// The first `n` blocks of `v`, sharing one list of blanks.
pub open spec fn blocks_to_model(
    v: Seq<BlockV>,
    n: int,
    policy: Option<Seq<char>>,
    blanks: Seq<BlankM>,
) -> Result<(Seq<BlockM>, Seq<BlankM>), ModelDiagnosticV>
    decreases v, n,
{
    if n <= 0 || n > v.len() {
        Ok((seq![], blanks))
    } else {
        match blocks_to_model(v, n - 1, policy, blanks) {
            Err(e) => Err(e),
            Ok((xs, bs)) => match block_to_model(v[n - 1], policy, bs) {
                Err(e) => Err(e),
                Ok((x, bs2)) => Ok((xs.push(x), bs2)),
            },
        }
    }
}

/// A Q/A quiz is a Q/A fold quiz when its answer holds fold blanks.
pub open spec fn qa_to_model(qa: QaQuizV) -> Result<ItemM, ModelDiagnosticV> {
    match blocks_to_model(
        qa.question.blocks,
        qa.question.blocks.len() as int,
        Some("a Q/A question"@),
        seq![],
    ) {
        Err(e) => Err(e),
        Ok((question, _)) => match blocks_to_model(
            qa.answer.blocks,
            qa.answer.blocks.len() as int,
            None,
            seq![],
        ) {
            Err(e) => Err(e),
            Ok((answer, blanks)) => if blanks.len() == 0 {
                Ok(ItemM::Qa { question, answer })
            } else {
                Ok(ItemM::QaFold { question, content: answer, blanks })
            },
        },
    }
}

/// A fold quiz is one paragraph with at least one fold blank.
pub open spec fn fold_to_model(f: FoldQuizV) -> Result<ItemM, ModelDiagnosticV> {
    let blocks = f.content.blocks;
    if blocks.len() != 1 {
        Err(
            model_diag(
                ModelError::InvalidFoldShape,
                ModelError::InvalidFoldShape.spec_message(),
                Some(f.source_range),
            ),
        )
    } else if !(blocks[0].kind is Paragraph) {
        Err(
            model_diag(
                ModelError::InvalidFoldShape,
                ModelError::InvalidFoldShape.spec_message(),
                Some(blocks[0].source_range),
            ),
        )
    } else {
        let inlines = blocks[0].kind->Paragraph_0.inlines;
        match inlines_to_model(inlines, inlines.len() as int, None, seq![]) {
            Err(e) => Err(e),
            Ok((content, blanks)) => if blanks.len() == 0 {
                Err(
                    model_diag(
                        ModelError::MissingBlank,
                        "Fold quiz must contain at least one blank."@,
                        Some(f.source_range),
                    ),
                )
            } else {
                Ok(ItemM::Fold { content, blanks })
            },
        }
    }
}

pub open spec fn item_to_model(i: DocumentItemV) -> Result<ItemM, ModelDiagnosticV> {
    match i.kind {
        DocumentItemKindV::Quiz(q) => match q.kind {
            QuizItemKindV::Qa(qa) => qa_to_model(qa),
            QuizItemKindV::Fold(f) => fold_to_model(f),
        },
        DocumentItemKindV::Block(b) => match block_to_model(b, Some("a note"@), seq![]) {
            Err(e) => Err(e),
            Ok((block, _)) => Ok(ItemM::Note { block }),
        },
    }
}

/// The first `n` items, stopping at the first error.
pub open spec fn items_to_model(v: Seq<DocumentItemV>, n: int) -> Result<Seq<ItemM>, ModelDiagnosticV>
    decreases n,
{
    if n <= 0 || n > v.len() {
        Ok(seq![])
    } else {
        match items_to_model(v, n - 1) {
            Err(e) => Err(e),
            Ok(xs) => match item_to_model(v[n - 1]) {
                Err(e) => Err(e),
                Ok(x) => Ok(xs.push(x)),
            },
        }
    }
}

/// The model of a document, or the first error met in source order.
pub open spec fn document_to_model(d: QuizFoldDocumentV) -> Result<Seq<ItemM>, ModelDiagnosticV> {
    items_to_model(d.items, d.items.len() as int)
}

// ---------------------------------------------------------------------
// Once a conversion fails, converting more of the sequence gives the same error.
proof fn lemma_inlines_error_stays(
    v: Seq<InlineV>,
    n: int,
    m: int,
    policy: Option<Seq<char>>,
    blanks: Seq<BlankM>,
)
    requires
        0 < n <= m <= v.len(),
        inlines_to_model(v, n, policy, blanks) is Err,
    ensures
        inlines_to_model(v, m, policy, blanks) == inlines_to_model(v, n, policy, blanks),
    decreases m,
{
    if m > n {
        lemma_inlines_error_stays(v, n, m - 1, policy, blanks);
    }
}

proof fn lemma_blocks_error_stays(
    v: Seq<BlockV>,
    n: int,
    m: int,
    policy: Option<Seq<char>>,
    blanks: Seq<BlankM>,
)
    requires
        0 < n <= m <= v.len(),
        blocks_to_model(v, n, policy, blanks) is Err,
    ensures
        blocks_to_model(v, m, policy, blanks) == blocks_to_model(v, n, policy, blanks),
    decreases m,
{
    if m > n {
        lemma_blocks_error_stays(v, n, m - 1, policy, blanks);
    }
}

proof fn lemma_items_error_stays(v: Seq<DocumentItemV>, n: int, m: int)
    requires
        0 < n <= m <= v.len(),
        items_to_model(v, n) is Err,
    ensures
        items_to_model(v, m) == items_to_model(v, n),
    decreases m,
{
    if m > n {
        lemma_items_error_stays(v, n, m - 1);
    }
}

/// Whether fold blanks are taken out, or rejected at a named location.
#[derive(Clone, Copy)]
enum BlankPolicy {
    Allow,
    Reject(&'static str),
}

impl BlankPolicy {
    spec fn location(self) -> Option<Seq<char>> {
        match self {
            BlankPolicy::Allow => None,
            BlankPolicy::Reject(l) => Some(l@),
        }
    }
}

fn not_allowed_text(location: &str) -> (r: String)
    ensures
        r@ == not_allowed_message(location@),
{
    let mut s = String::from_str("Fold blank is not allowed in ");
    s.append(location);
    s.append(".");
    s
}

/// The answer of a fold blank as a model blank.
fn blank_from_content(content: &ast::FoldBlankContent) -> (r: Blank)
    ensures
        r@ == blank_from_ast(content@.inlines),
{
    let mut answer: Vec<BlankInline> = Vec::new();
    let mut index: usize = 0;
    while index < content.inlines.len()
        invariant
            index <= content.inlines@.len(),
            answer@.map_values(|i: BlankInline| i@) == blank_from_ast(
                content@.inlines.subrange(0, index as int),
            ),
        decreases content.inlines@.len() - index,
    {
        let ghost pre = answer@;
        let inline = match &content.inlines[index].kind {
            ast::FoldBlankInlineKind::Raw(value) => BlankInline::Raw(value.value.clone()),
            ast::FoldBlankInlineKind::MathInline(value) => BlankInline::MathInline(value.source.clone()),
        };
        answer.push(inline);
        assert(content@.inlines[index as int] == content.inlines@[index as int]@);
        assert(content@.inlines.subrange(0, index + 1).drop_last() =~= content@.inlines.subrange(0, index as int));
        assert(answer@.map_values(|i: BlankInline| i@) =~= pre.map_values(|i: BlankInline| i@).push(content@.inlines[index as int].kind));
        assert(answer@.map_values(|i: BlankInline| i@) =~= blank_from_ast(
            content@.inlines.subrange(0, index + 1),
        ));
        index = index + 1;
    }
    assert(content@.inlines.subrange(0, index as int) =~= content@.inlines);
    Blank { answer }
}

fn inline_from_ast(inline: &ast::Inline, policy: BlankPolicy, blanks: &mut Vec<Blank>) -> (r: Result<
    Inline,
    ModelDiagnostic,
>)
    ensures
        match inline_to_model(inline@, policy.location(), blanks_view(old(blanks)@)) {
            Ok((x, bs)) => r is Ok && r->Ok_0@ == x && blanks_view(final(blanks)@) == bs,
            Err(e) => r is Err && r->Err_0@ == e,
        },
{
    match &inline.kind {
        ast::InlineKind::Raw(value) => Ok(Inline::Raw(value.value.clone())),
        ast::InlineKind::MathInline(value) => Ok(Inline::MathInline(value.source.clone())),
        ast::InlineKind::Image(value) => Ok(Inline::Image(value.duplicate())),
        ast::InlineKind::SoftBreak => Ok(Inline::SoftBreak),
        ast::InlineKind::FoldBlank(value) => match policy {
            BlankPolicy::Reject(location) => Err(
                ModelDiagnostic::new(
                    ModelError::FoldBlankNotAllowed,
                    not_allowed_text(location),
                    Some(inline.source_range),
                ),
            ),
            BlankPolicy::Allow => {
                if blanks.len() as u64 > 0xffff_ffffu64 {
                    return Err(
                        ModelDiagnostic::new(
                            ModelError::TooManyBlanks,
                            String::from_str(ModelError::TooManyBlanks.message()),
                            Some(inline.source_range),
                        ),
                    );
                }
                let index = blanks.len() as u32;
                let ghost pre = blanks@;
                let blank = blank_from_content(&value.answer);
                blanks.push(blank);
                assert(blanks_view(blanks@) =~= blanks_view(pre).push(blank_from_ast(value.answer@.inlines)));
                Ok(Inline::Blank(index))
            },
        },
    }
}

fn inlines_from_ast(inlines: &Vec<ast::Inline>, policy: BlankPolicy, blanks: &mut Vec<Blank>) -> (r:
    Result<Vec<Inline>, ModelDiagnostic>)
    ensures
        match inlines_to_model(
            inlines_view(inlines@),
            inlines@.len() as int,
            policy.location(),
            blanks_view(old(blanks)@),
        ) {
            Ok((xs, bs)) => r is Ok && inlines_m(r->Ok_0@) == xs && blanks_view(final(blanks)@) == bs,
            Err(e) => r is Err && r->Err_0@ == e,
        },
{
    let ghost v = inlines_view(inlines@);
    let ghost b0 = blanks_view(blanks@);
    let mut out: Vec<Inline> = Vec::new();
    let mut index: usize = 0;
    assert(inlines_m(out@) =~= seq![]);
    while index < inlines.len()
        invariant
            index <= inlines@.len(),
            v == inlines_view(inlines@),
            b0 == blanks_view(old(blanks)@),
            inlines_to_model(v, index as int, policy.location(), b0) == Ok::<
                (Seq<InlineM>, Seq<BlankM>),
                ModelDiagnosticV,
            >((inlines_m(out@), blanks_view(blanks@))),
        decreases inlines@.len() - index,
    {
        assert(v[index as int] == inlines@[index as int]@);
        match inline_from_ast(&inlines[index], policy, blanks) {
            Ok(x) => {
                let ghost pre = out@;
                out.push(x);
                assert(inlines_m(out@) =~= inlines_m(pre).push(x@));
            },
            Err(d) => {
                proof {
                    assert(inlines_to_model(v, index + 1, policy.location(), b0) == Err::<
                        (Seq<InlineM>, Seq<BlankM>),
                        ModelDiagnosticV,
                    >(d@));
                    lemma_inlines_error_stays(v, index + 1, v.len() as int, policy.location(), b0);
                }
                return Err(d);
            },
        }
        index = index + 1;
    }
    Ok(out)
}

fn block_from_ast(block: &ast::Block, policy: BlankPolicy, blanks: &mut Vec<Blank>) -> (r: Result<
    Block,
    ModelDiagnostic,
>)
    ensures
        match block_to_model(block@, policy.location(), blanks_view(old(blanks)@)) {
            Ok((x, bs)) => r is Ok && r->Ok_0@ == x && blanks_view(final(blanks)@) == bs,
            Err(e) => r is Err && r->Err_0@ == e,
        },
    decreases block, 0int,
{
    match &block.kind {
        ast::BlockKind::Paragraph(paragraph) => {
            assert(block@.kind == BlockKindV::Paragraph(paragraph@));
            assert(paragraph@.inlines =~= inlines_view(paragraph.inlines@));
            match inlines_from_ast(&paragraph.inlines, policy, blanks) {
                Ok(inlines) => Ok(Block::Paragraph(Paragraph { inlines })),
                Err(d) => Err(d),
            }
        },
        ast::BlockKind::Memo(memo) => {
            proof {
                ast::lemma_memo_block_view(*block);
                assert(memo@.blocks =~= blocks_view(memo.blocks@));
            }
            let mut none: Vec<Blank> = Vec::new();
            assert(blanks_view(none@) =~= seq![]);
            match blocks_from_ast(&memo.blocks, BlankPolicy::Reject("a memo"), &mut none) {
                Ok(blocks) => {
                    let r = Block::Memo(Memo { blocks });
                    proof {
                        crate::model::types::lemma_model_memo_view(r);
                    }
                    Ok(r)
                },
                Err(d) => Err(d),
            }
        },
        ast::BlockKind::MathBlock(value) => Ok(Block::MathBlock(value.duplicate())),
        ast::BlockKind::CodeBlock(value) => Ok(Block::CodeBlock(value.duplicate())),
        ast::BlockKind::MermaidBlock(value) => Ok(Block::MermaidBlock(value.duplicate())),
    }
}

fn blocks_from_ast(blocks: &Vec<ast::Block>, policy: BlankPolicy, blanks: &mut Vec<Blank>) -> (r:
    Result<Vec<Block>, ModelDiagnostic>)
    ensures
        match blocks_to_model(
            blocks_view(blocks@),
            blocks@.len() as int,
            policy.location(),
            blanks_view(old(blanks)@),
        ) {
            Ok((xs, bs)) => r is Ok && blocks_m(r->Ok_0@) == xs && blanks_view(final(blanks)@) == bs,
            Err(e) => r is Err && r->Err_0@ == e,
        },
    decreases blocks, 1int,
{
    let ghost v = blocks_view(blocks@);
    let ghost b0 = blanks_view(blanks@);
    let mut out: Vec<Block> = Vec::new();
    let mut index: usize = 0;
    assert(blocks_m(out@) =~= seq![]);
    while index < blocks.len()
        invariant
            index <= blocks@.len(),
            v == blocks_view(blocks@),
            b0 == blanks_view(old(blanks)@),
            blocks_to_model(v, index as int, policy.location(), b0) == Ok::<
                (Seq<BlockM>, Seq<BlankM>),
                ModelDiagnosticV,
            >((blocks_m(out@), blanks_view(blanks@))),
        decreases blocks@.len() - index,
    {
        assert(v[index as int] == blocks@[index as int]@);
        match block_from_ast(&blocks[index], policy, blanks) {
            Ok(x) => {
                let ghost pre = out@;
                out.push(x);
                assert(blocks_m(out@) =~= blocks_m(pre).push(x@));
            },
            Err(d) => {
                proof {
                    assert(blocks_to_model(v, index + 1, policy.location(), b0) == Err::<
                        (Seq<BlockM>, Seq<BlankM>),
                        ModelDiagnosticV,
                    >(d@));
                    lemma_blocks_error_stays(v, index + 1, v.len() as int, policy.location(), b0);
                }
                return Err(d);
            },
        }
        index = index + 1;
    }
    Ok(out)
}

pub open spec fn item_result(r: Result<Item, ModelDiagnostic>) -> Result<ItemM, ModelDiagnosticV> {
    match r {
        Ok(x) => Ok(x@),
        Err(d) => Err(d@),
    }
}

fn content_from_ast(content: &ast::QuizContent, policy: BlankPolicy, blanks: &mut Vec<Blank>) -> (r:
    Result<Content, ModelDiagnostic>)
    ensures
        match blocks_to_model(
            content@.blocks,
            content@.blocks.len() as int,
            policy.location(),
            blanks_view(old(blanks)@),
        ) {
            Ok((xs, bs)) => r is Ok && r->Ok_0@ == xs && blanks_view(final(blanks)@) == bs,
            Err(e) => r is Err && r->Err_0@ == e,
        },
{
    assert(content@.blocks =~= blocks_view(content.blocks@));
    match blocks_from_ast(&content.blocks, policy, blanks) {
        Ok(blocks) => Ok(Content { blocks }),
        Err(d) => Err(d),
    }
}

fn qa_item(qa: &ast::QaQuiz) -> (r: Result<Item, ModelDiagnostic>)
    ensures
        item_result(r) == qa_to_model(qa@),
{
    let mut none: Vec<Blank> = Vec::new();
    assert(blanks_view(none@) =~= seq![]);
    let question = match content_from_ast(&qa.question, BlankPolicy::Reject("a Q/A question"), &mut none) {
        Ok(c) => c,
        Err(d) => {
            return Err(d);
        },
    };
    let mut blanks: Vec<Blank> = Vec::new();
    assert(blanks_view(blanks@) =~= seq![]);
    let answer = match content_from_ast(&qa.answer, BlankPolicy::Allow, &mut blanks) {
        Ok(c) => c,
        Err(d) => {
            return Err(d);
        },
    };
    if blanks.len() == 0 {
        Ok(Item::Qa(Qa { question, answer }))
    } else {
        Ok(Item::QaFold(QaFold { question, content: answer, blanks }))
    }
}

fn fold_item(fold: &ast::FoldQuiz) -> (r: Result<Item, ModelDiagnostic>)
    ensures
        item_result(r) == fold_to_model(fold@),
{
    if fold.content.blocks.len() != 1 {
        return Err(
            ModelDiagnostic::new(
                ModelError::InvalidFoldShape,
                String::from_str(ModelError::InvalidFoldShape.message()),
                Some(fold.source_range),
            ),
        );
    }
    let block = &fold.content.blocks[0];
    assert(fold@.content.blocks[0] == block@);
    match &block.kind {
        ast::BlockKind::Paragraph(paragraph) => {
            assert(paragraph@.inlines =~= inlines_view(paragraph.inlines@));
            let mut blanks: Vec<Blank> = Vec::new();
            assert(blanks_view(blanks@) =~= seq![]);
            let content = match inlines_from_ast(&paragraph.inlines, BlankPolicy::Allow, &mut blanks) {
                Ok(c) => c,
                Err(d) => {
                    return Err(d);
                },
            };
            if blanks.len() == 0 {
                return Err(
                    ModelDiagnostic::new(
                        ModelError::MissingBlank,
                        String::from_str("Fold quiz must contain at least one blank."),
                        Some(fold.source_range),
                    ),
                );
            }
            Ok(Item::Fold(Fold { content, blanks }))
        },
        _ => Err(
            ModelDiagnostic::new(
                ModelError::InvalidFoldShape,
                String::from_str(ModelError::InvalidFoldShape.message()),
                Some(block.source_range),
            ),
        ),
    }
}

impl<'a> TryFrom<&'a ast::DocumentItem> for Item {
    type Error = ModelDiagnostic;

    /// A quiz becomes a Q/A, Q/A fold, or fold item; any other block a note.
    fn try_from(item: &'a ast::DocumentItem) -> (r: Result<Item, ModelDiagnostic>)
        ensures
            item_result(r) == item_to_model(item@),
    {
        match &item.kind {
            ast::DocumentItemKind::Quiz(quiz) => match &quiz.kind {
                ast::QuizItemKind::Qa(qa) => qa_item(qa),
                ast::QuizItemKind::Fold(fold) => fold_item(fold),
            },
            ast::DocumentItemKind::Block(block) => {
                let mut none: Vec<Blank> = Vec::new();
                assert(blanks_view(none@) =~= seq![]);
                match block_from_ast(block, BlankPolicy::Reject("a note"), &mut none) {
                    Ok(b) => Ok(Item::Note(Note { block: b })),
                    Err(d) => Err(d),
                }
            },
        }
    }
}

impl<'a> TryFromSpecImpl<&'a ast::DocumentItem> for Item {
    /// The contract of `try_from` is stated on the impl above, over views.
    open spec fn obeys_try_from_spec() -> bool {
        false
    }

    open spec fn try_from_spec(v: &'a ast::DocumentItem) -> Result<Item, ModelDiagnostic> {
        vstd::pervasive::arbitrary()
    }
}

impl<'a> TryFrom<&'a ast::QuizFoldDocument> for Document {
    type Error = ModelDiagnostic;

    /// The model of a document, or the first error met in source order.
    fn try_from(document: &'a ast::QuizFoldDocument) -> (r: Result<Document, ModelDiagnostic>)
        ensures
            match r {
                Ok(d) => document_to_model(document@) == Ok::<Seq<ItemM>, ModelDiagnosticV>(d@),
                Err(e) => document_to_model(document@) == Err::<Seq<ItemM>, ModelDiagnosticV>(e@),
            },
    {
        let ghost v = document@.items;
        let mut items: Vec<Item> = Vec::new();
        let mut index: usize = 0;
        assert(items@.map_values(|i: Item| i@) =~= seq![]);
        while index < document.items.len()
            invariant
                index <= document.items@.len(),
                v == document@.items,
                items_to_model(v, index as int) == Ok::<Seq<ItemM>, ModelDiagnosticV>(
                    items@.map_values(|i: Item| i@),
                ),
            decreases document.items@.len() - index,
        {
            assert(v[index as int] == document.items@[index as int]@);
            match Item::try_from(&document.items[index]) {
                Ok(x) => {
                    let ghost pre = items@;
                    items.push(x);
                    assert(items@.map_values(|i: Item| i@) =~= pre.map_values(|i: Item| i@).push(x@));
                },
                Err(d) => {
                    proof {
                        assert(items_to_model(v, index + 1) == Err::<Seq<ItemM>, ModelDiagnosticV>(d@));
                        lemma_items_error_stays(v, index + 1, v.len() as int);
                    }
                    return Err(d);
                },
            }
            index = index + 1;
        }
        Ok(Document { items })
    }
}

impl<'a> TryFromSpecImpl<&'a ast::QuizFoldDocument> for Document {
    /// The contract of `try_from` is stated on the impl above, over views.
    open spec fn obeys_try_from_spec() -> bool {
        false
    }

    open spec fn try_from_spec(v: &'a ast::QuizFoldDocument) -> Result<Document, ModelDiagnostic> {
        vstd::pervasive::arbitrary()
    }
}

// ---------------------------------------------------------------------
// From the model to the syntax tree.
/// The range of every node made from the model, which has no source.
pub open spec fn empty_range() -> SourceRange {
    SourceRange { start: 0, end: 0 }
}

pub open spec fn blank_to_ast(b: BlankM) -> Seq<FoldBlankInlineV> {
    b.map_values(|k: FoldBlankInlineKindV| FoldBlankInlineV { kind: k, source_range: empty_range() })
}

pub open spec fn out_of_order_message(index: u32, expected: u32) -> Seq<char> {
    "Blank reference "@ + decimal_text(index as nat) + " is out of order; expected "@ + decimal_text(
        expected as nat,
    ) + "."@
}

pub open spec fn missing_reference_message(index: u32) -> Seq<char> {
    "Blank reference "@ + decimal_text(index as nat) + " does not exist."@
}

pub open spec fn unused_message(unused: nat) -> Seq<char> {
    decimal_text(unused) + " blank answers are not referenced."@
}

pub open spec fn inline_ast(kind: InlineKindV) -> InlineV {
    InlineV { kind, source_range: empty_range() }
}

pub open spec fn fold_blank_ast(b: BlankM) -> InlineKindV {
    InlineKindV::FoldBlank(
        FoldBlankV {
            answer: FoldBlankContentV { inlines: blank_to_ast(b), source_range: empty_range() },
            source_range: empty_range(),
        },
    )
}

/// One inline, with `next` the index the next blank reference must have.
/// Without blanks (`None`) a blank reference is an error at `location`.
pub open spec fn restore_inline(
    i: InlineM,
    blanks: Option<Seq<BlankM>>,
    location: Seq<char>,
    next: u32,
) -> Result<(InlineV, u32), ModelDiagnosticV> {
    match i {
        InlineM::Raw(v) => Ok((inline_ast(InlineKindV::Raw(v)), next)),
        InlineM::MathInline(v) => Ok((inline_ast(InlineKindV::MathInline(v)), next)),
        InlineM::Image(img) => Ok((inline_ast(InlineKindV::Image(img)), next)),
        InlineM::SoftBreak => Ok((inline_ast(InlineKindV::SoftBreak), next)),
        InlineM::Blank(index) => match blanks {
            None => Err(model_diag(ModelError::FoldBlankNotAllowed, not_allowed_message(location), None)),
            Some(bs) => if index != next {
                Err(model_diag(ModelError::BlankOutOfOrder, out_of_order_message(index, next), None))
            } else if index >= bs.len() {
                Err(model_diag(ModelError::MissingBlankReference, missing_reference_message(index), None))
            } else if next == u32::MAX {
                Err(model_diag(ModelError::TooManyBlanks, ModelError::TooManyBlanks.spec_message(), None))
            } else {
                Ok((inline_ast(fold_blank_ast(bs[index as int])), (next + 1) as u32))
            },
        },
    }
}

/// The first `n` inlines, sharing the blank cursor `next`.
pub open spec fn restore_inlines_from(
    v: Seq<InlineM>,
    n: int,
    blanks: Option<Seq<BlankM>>,
    location: Seq<char>,
    next: u32,
) -> Result<(Seq<InlineV>, u32), ModelDiagnosticV>
    decreases n,
{
    if n <= 0 || n > v.len() {
        Ok((seq![], next))
    } else {
        match restore_inlines_from(v, n - 1, blanks, location, next) {
            Err(e) => Err(e),
            Ok((xs, k)) => match restore_inline(v[n - 1], blanks, location, k) {
                Err(e) => Err(e),
                Ok((x, k2)) => Ok((xs.push(x), k2)),
            },
        }
    }
}

/// The error when fewer than all blanks were referenced.
pub open spec fn blank_count_error(blanks: Option<Seq<BlankM>>, used: u32) -> Option<ModelDiagnosticV> {
    match blanks {
        None => None,
        Some(bs) => if used < bs.len() {
            Some(model_diag(ModelError::UnusedBlanks, unused_message((bs.len() - used) as nat), None))
        } else {
            None
        },
    }
}

pub open spec fn restore_inlines_v(v: Seq<InlineM>, blanks: Option<Seq<BlankM>>, location: Seq<char>) -> Result<
    Seq<InlineV>,
    ModelDiagnosticV,
> {
    match restore_inlines_from(v, v.len() as int, blanks, location, 0) {
        Err(e) => Err(e),
        Ok((xs, used)) => match blank_count_error(blanks, used) {
            Some(e) => Err(e),
            None => Ok(xs),
        },
    }
}

pub open spec fn block_ast(kind: BlockKindV) -> BlockV {
    BlockV { kind, source_range: empty_range() }
}

pub open spec fn paragraph_ast(inlines: Seq<InlineV>) -> BlockV {
    block_ast(BlockKindV::Paragraph(ParagraphV { inlines, source_range: empty_range() }))
}

/// One block, sharing the blank cursor `next`; the blocks of a memo are
/// converted on their own and reject blank references.
pub open spec fn block_to_ast_from(
    b: BlockM,
    blanks: Option<Seq<BlankM>>,
    location: Seq<char>,
    next: u32,
) -> Result<(BlockV, u32), ModelDiagnosticV>
    decreases b, 0int,
{
    match b {
        BlockM::Paragraph(v) => match restore_inlines_from(v, v.len() as int, blanks, location, next) {
            Err(e) => Err(e),
            Ok((xs, k)) => Ok((paragraph_ast(xs), k)),
        },
        BlockM::Memo(bs) => match memo_blocks_to_ast(bs, bs.len() as int) {
            Err(e) => Err(e),
            Ok(xs) => Ok(
                (block_ast(BlockKindV::Memo(MemoBlockV { blocks: xs, source_range: empty_range() })), next),
            ),
        },
        BlockM::MathBlock(x) => Ok((block_ast(BlockKindV::MathBlock(x)), next)),
        BlockM::CodeBlock(x) => Ok((block_ast(BlockKindV::CodeBlock(x)), next)),
        BlockM::MermaidBlock(x) => Ok((block_ast(BlockKindV::MermaidBlock(x)), next)),
    }
}

/// The first `n` blocks of a memo.
pub open spec fn memo_blocks_to_ast(v: Seq<BlockM>, n: int) -> Result<Seq<BlockV>, ModelDiagnosticV>
    decreases v, n,
{
    if n <= 0 || n > v.len() {
        Ok(seq![])
    } else {
        match memo_blocks_to_ast(v, n - 1) {
            Err(e) => Err(e),
            Ok(xs) => match block_to_ast_from(v[n - 1], None, memo_location(), 0) {
                Err(e) => Err(e),
                Ok((x, _)) => Ok(xs.push(x)),
            },
        }
    }
}

/// The first `n` blocks, sharing the blank cursor `next`.
pub open spec fn blocks_to_ast_from(
    v: Seq<BlockM>,
    n: int,
    blanks: Option<Seq<BlankM>>,
    location: Seq<char>,
    next: u32,
) -> Result<(Seq<BlockV>, u32), ModelDiagnosticV>
    decreases n,
{
    if n <= 0 || n > v.len() {
        Ok((seq![], next))
    } else {
        match blocks_to_ast_from(v, n - 1, blanks, location, next) {
            Err(e) => Err(e),
            Ok((xs, k)) => match block_to_ast_from(v[n - 1], blanks, location, k) {
                Err(e) => Err(e),
                Ok((x, k2)) => Ok((xs.push(x), k2)),
            },
        }
    }
}

pub open spec fn content_to_ast_v(c: Seq<BlockM>, blanks: Option<Seq<BlankM>>, location: Seq<char>) -> Result<
    QuizContentV,
    ModelDiagnosticV,
> {
    match blocks_to_ast_from(c, c.len() as int, blanks, location, 0) {
        Err(e) => Err(e),
        Ok((xs, used)) => match blank_count_error(blanks, used) {
            Some(e) => Err(e),
            None => Ok(QuizContentV { blocks: xs, source_range: empty_range() }),
        },
    }
}

pub open spec fn block_to_ast_v(b: BlockM, blanks: Option<Seq<BlankM>>, location: Seq<char>) -> Result<
    BlockV,
    ModelDiagnosticV,
> {
    match block_to_ast_from(b, blanks, location, 0) {
        Err(e) => Err(e),
        Ok((x, used)) => match blank_count_error(blanks, used) {
            Some(e) => Err(e),
            None => Ok(x),
        },
    }
}

pub open spec fn quiz_ast(kind: QuizItemKindV) -> DocumentItemV {
    DocumentItemV {
        kind: DocumentItemKindV::Quiz(QuizItemV { kind, source_range: empty_range() }),
        source_range: empty_range(),
    }
}

pub open spec fn qa_ast(question: QuizContentV, answer: QuizContentV) -> DocumentItemV {
    quiz_ast(QuizItemKindV::Qa(QaQuizV { question, answer, source_range: empty_range() }))
}

pub open spec fn fold_ast(inlines: Seq<InlineV>) -> DocumentItemV {
    quiz_ast(
        QuizItemKindV::Fold(
            FoldQuizV {
                content: QuizContentV { blocks: seq![paragraph_ast(inlines)], source_range: empty_range() },
                source_range: empty_range(),
            },
        ),
    )
}

pub open spec fn item_to_ast(i: ItemM) -> Result<DocumentItemV, ModelDiagnosticV> {
    match i {
        ItemM::Qa { question, answer } => match content_to_ast_v(question, None, "a Q/A question"@) {
            Err(e) => Err(e),
            Ok(q) => match content_to_ast_v(answer, None, "a Q/A answer"@) {
                Err(e) => Err(e),
                Ok(a) => Ok(qa_ast(q, a)),
            },
        },
        ItemM::QaFold { question, content, blanks } => if blanks.len() == 0 {
            Err(model_diag(ModelError::MissingBlank, "Q/A fold quiz must contain at least one blank."@, None))
        } else {
            match content_to_ast_v(question, None, "a Q/A question"@) {
                Err(e) => Err(e),
                Ok(q) => match content_to_ast_v(content, Some(blanks), "a Q/A fold answer"@) {
                    Err(e) => Err(e),
                    Ok(a) => Ok(qa_ast(q, a)),
                },
            }
        },
        ItemM::Fold { content, blanks } => if blanks.len() == 0 {
            Err(model_diag(ModelError::MissingBlank, "Fold quiz must contain at least one blank."@, None))
        } else {
            match restore_inlines_v(content, Some(blanks), "a fold quiz"@) {
                Err(e) => Err(e),
                Ok(xs) => Ok(fold_ast(xs)),
            }
        },
        ItemM::Note { block } => match block_to_ast_v(block, None, "a note"@) {
            Err(e) => Err(e),
            Ok(b) => Ok(DocumentItemV { kind: DocumentItemKindV::Block(b), source_range: empty_range() }),
        },
    }
}

/// The first `n` items, stopping at the first error.
pub open spec fn items_to_ast(v: Seq<ItemM>, n: int) -> Result<Seq<DocumentItemV>, ModelDiagnosticV>
    decreases n,
{
    if n <= 0 || n > v.len() {
        Ok(seq![])
    } else {
        match items_to_ast(v, n - 1) {
            Err(e) => Err(e),
            Ok(xs) => match item_to_ast(v[n - 1]) {
                Err(e) => Err(e),
                Ok(x) => Ok(xs.push(x)),
            },
        }
    }
}

/// The syntax tree of a model document, or the first error met.
pub open spec fn document_to_ast(d: Seq<ItemM>) -> Result<QuizFoldDocumentV, ModelDiagnosticV> {
    match items_to_ast(d, d.len() as int) {
        Err(e) => Err(e),
        Ok(items) => Ok(QuizFoldDocumentV { items, source_range: empty_range() }),
    }
}

proof fn lemma_restore_error_stays(
    v: Seq<InlineM>,
    n: int,
    m: int,
    blanks: Option<Seq<BlankM>>,
    location: Seq<char>,
    next: u32,
)
    requires
        0 < n <= m <= v.len(),
        restore_inlines_from(v, n, blanks, location, next) is Err,
    ensures
        restore_inlines_from(v, m, blanks, location, next) == restore_inlines_from(v, n, blanks, location, next),
    decreases m,
{
    if m > n {
        lemma_restore_error_stays(v, n, m - 1, blanks, location, next);
    }
}

proof fn lemma_memo_error_stays(v: Seq<BlockM>, n: int, m: int)
    requires
        0 < n <= m <= v.len(),
        memo_blocks_to_ast(v, n) is Err,
    ensures
        memo_blocks_to_ast(v, m) == memo_blocks_to_ast(v, n),
    decreases m,
{
    if m > n {
        lemma_memo_error_stays(v, n, m - 1);
    }
}

proof fn lemma_blocks_ast_error_stays(
    v: Seq<BlockM>,
    n: int,
    m: int,
    blanks: Option<Seq<BlankM>>,
    location: Seq<char>,
    next: u32,
)
    requires
        0 < n <= m <= v.len(),
        blocks_to_ast_from(v, n, blanks, location, next) is Err,
    ensures
        blocks_to_ast_from(v, m, blanks, location, next) == blocks_to_ast_from(v, n, blanks, location, next),
    decreases m,
{
    if m > n {
        lemma_blocks_ast_error_stays(v, n, m - 1, blanks, location, next);
    }
}

proof fn lemma_items_ast_error_stays(v: Seq<ItemM>, n: int, m: int)
    requires
        0 < n <= m <= v.len(),
        items_to_ast(v, n) is Err,
    ensures
        items_to_ast(v, m) == items_to_ast(v, n),
    decreases m,
{
    if m > n {
        lemma_items_ast_error_stays(v, n, m - 1);
    }
}

pub open spec fn opt_blanks(blanks: Option<&Vec<Blank>>) -> Option<Seq<BlankM>> {
    match blanks {
        Some(v) => Some(blanks_view(v@)),
        None => None,
    }
}

fn out_of_order_text(index: u32, expected: u32) -> (r: String)
    ensures
        r@ == out_of_order_message(index, expected),
{
    let mut s = String::from_str("Blank reference ");
    s.append(decimal(index as u64).as_str());
    s.append(" is out of order; expected ");
    s.append(decimal(expected as u64).as_str());
    s.append(".");
    s
}

fn missing_reference_text(index: u32) -> (r: String)
    ensures
        r@ == missing_reference_message(index),
{
    let mut s = String::from_str("Blank reference ");
    s.append(decimal(index as u64).as_str());
    s.append(" does not exist.");
    s
}

fn unused_text(unused: u64) -> (r: String)
    ensures
        r@ == unused_message(unused as nat),
{
    let mut s = decimal(unused);
    s.append(" blank answers are not referenced.");
    s
}

fn empty() -> (r: SourceRange)
    ensures
        r == empty_range(),
{
    SourceRange::new(0, 0)
}

/// The fold blank that holds the answer of a model blank.
fn fold_blank_from(blank: &Blank) -> (r: ast::InlineKind)
    ensures
        r@ == fold_blank_ast(blank@),
{
    let mut inlines: Vec<ast::FoldBlankInline> = Vec::new();
    let mut index: usize = 0;
    while index < blank.answer.len()
        invariant
            index <= blank.answer@.len(),
            inlines@.map_values(|i: ast::FoldBlankInline| i@) == blank_to_ast(
                blank@.subrange(0, index as int),
            ),
        decreases blank.answer@.len() - index,
    {
        let ghost pre = inlines@;
        let kind = match &blank.answer[index] {
            BlankInline::Raw(value) => ast::FoldBlankInlineKind::Raw(ast::Raw { value: value.clone() }),
            BlankInline::MathInline(value) => ast::FoldBlankInlineKind::MathInline(
                ast::MathInline { source: value.clone() },
            ),
        };
        let inline = ast::FoldBlankInline::new(kind, empty());
        inlines.push(inline);
        assert(blank@[index as int] == blank.answer@[index as int]@);
        assert(inlines@.map_values(|i: ast::FoldBlankInline| i@) =~= pre.map_values(
            |i: ast::FoldBlankInline| i@,
        ).push(inline@));
        assert(inlines@.map_values(|i: ast::FoldBlankInline| i@) =~= blank_to_ast(
            blank@.subrange(0, index + 1),
        ));
        index = index + 1;
    }
    assert(blank@.subrange(0, index as int) =~= blank@);
    let content = ast::FoldBlankContent::new(inlines, empty());
    assert(content@.inlines =~= blank_to_ast(blank@));
    ast::InlineKind::FoldBlank(ast::FoldBlank::new(content, empty()))
}

fn restore_one(
    inline: &Inline,
    blanks: Option<&Vec<Blank>>,
    location: &'static str,
    next_blank: &mut u32,
) -> (r: Result<ast::Inline, ModelDiagnostic>)
    ensures
        match restore_inline(inline@, opt_blanks(blanks), location@, *old(next_blank)) {
            Ok((x, k)) => r is Ok && r->Ok_0@ == x && *final(next_blank) == k,
            Err(e) => r is Err && r->Err_0@ == e,
        },
{
    let kind = match inline {
        Inline::Raw(value) => ast::InlineKind::Raw(ast::Raw { value: value.clone() }),
        Inline::MathInline(value) => ast::InlineKind::MathInline(ast::MathInline { source: value.clone() }),
        Inline::Image(value) => ast::InlineKind::Image(value.duplicate()),
        Inline::SoftBreak => ast::InlineKind::SoftBreak,
        Inline::Blank(index) => {
            let index = *index;
            let blanks = match blanks {
                Some(b) => b,
                None => {
                    return Err(
                        ModelDiagnostic::new(
                            ModelError::FoldBlankNotAllowed,
                            not_allowed_text(location),
                            None,
                        ),
                    );
                },
            };
            if index != *next_blank {
                return Err(
                    ModelDiagnostic::new(
                        ModelError::BlankOutOfOrder,
                        out_of_order_text(index, *next_blank),
                        None,
                    ),
                );
            }
            if index as usize >= blanks.len() {
                return Err(
                    ModelDiagnostic::new(
                        ModelError::MissingBlankReference,
                        missing_reference_text(index),
                        None,
                    ),
                );
            }
            if *next_blank == 0xffff_ffffu32 {
                return Err(
                    ModelDiagnostic::new(
                        ModelError::TooManyBlanks,
                        String::from_str(ModelError::TooManyBlanks.message()),
                        None,
                    ),
                );
            }
            *next_blank = *next_blank + 1;
            fold_blank_from(&blanks[index as usize])
        },
    };
    Ok(ast::Inline::new(kind, empty()))
}

fn restore_inlines_with_cursor(
    inlines: &Vec<Inline>,
    blanks: Option<&Vec<Blank>>,
    location: &'static str,
    next_blank: &mut u32,
) -> (r: Result<Vec<ast::Inline>, ModelDiagnostic>)
    ensures
        match restore_inlines_from(
            inlines_m(inlines@),
            inlines@.len() as int,
            opt_blanks(blanks),
            location@,
            *old(next_blank),
        ) {
            Ok((xs, k)) => r is Ok && inlines_view(r->Ok_0@) == xs && *final(next_blank) == k,
            Err(e) => r is Err && r->Err_0@ == e,
        },
{
    let ghost v = inlines_m(inlines@);
    let ghost k0 = *next_blank;
    let mut out: Vec<ast::Inline> = Vec::new();
    let mut index: usize = 0;
    assert(inlines_view(out@) =~= seq![]);
    while index < inlines.len()
        invariant
            index <= inlines@.len(),
            v == inlines_m(inlines@),
            k0 == *old(next_blank),
            restore_inlines_from(v, index as int, opt_blanks(blanks), location@, k0) == Ok::<
                (Seq<InlineV>, u32),
                ModelDiagnosticV,
            >((inlines_view(out@), *next_blank)),
        decreases inlines@.len() - index,
    {
        assert(v[index as int] == inlines@[index as int]@);
        match restore_one(&inlines[index], blanks, location, next_blank) {
            Ok(x) => {
                let ghost pre = out@;
                out.push(x);
                assert(inlines_view(out@) =~= inlines_view(pre).push(x@));
            },
            Err(d) => {
                proof {
                    assert(restore_inlines_from(v, index + 1, opt_blanks(blanks), location@, k0) == Err::<
                        (Seq<InlineV>, u32),
                        ModelDiagnosticV,
                    >(d@));
                    lemma_restore_error_stays(v, index + 1, v.len() as int, opt_blanks(blanks), location@, k0);
                }
                return Err(d);
            },
        }
        index = index + 1;
    }
    Ok(out)
}

/// Fails when fewer than all the blanks were referenced.
fn validate_blank_count(blanks: Option<&Vec<Blank>>, used: u32) -> (r: Result<(), ModelDiagnostic>)
    ensures
        match blank_count_error(opt_blanks(blanks), used) {
            Some(e) => r is Err && r->Err_0@ == e,
            None => r is Ok,
        },
{
    match blanks {
        None => Ok(()),
        Some(b) => {
            if (used as usize) < b.len() {
                let unused = b.len() - used as usize;
                Err(ModelDiagnostic::new(ModelError::UnusedBlanks, unused_text(unused as u64), None))
            } else {
                Ok(())
            }
        },
    }
}

fn restore_inlines(inlines: &Vec<Inline>, blanks: Option<&Vec<Blank>>, location: &'static str) -> (r:
    Result<Vec<ast::Inline>, ModelDiagnostic>)
    ensures
        match restore_inlines_v(inlines_m(inlines@), opt_blanks(blanks), location@) {
            Ok(xs) => r is Ok && inlines_view(r->Ok_0@) == xs,
            Err(e) => r is Err && r->Err_0@ == e,
        },
{
    let mut next_blank: u32 = 0;
    let inlines = match restore_inlines_with_cursor(inlines, blanks, location, &mut next_blank) {
        Ok(v) => v,
        Err(d) => {
            return Err(d);
        },
    };
    match validate_blank_count(blanks, next_blank) {
        Ok(()) => Ok(inlines),
        Err(d) => Err(d),
    }
}

fn block_to_ast_with_cursor(
    block: &Block,
    blanks: Option<&Vec<Blank>>,
    location: &'static str,
    next_blank: &mut u32,
) -> (r: Result<ast::Block, ModelDiagnostic>)
    ensures
        match block_to_ast_from(block@, opt_blanks(blanks), location@, *old(next_blank)) {
            Ok((x, k)) => r is Ok && r->Ok_0@ == x && *final(next_blank) == k,
            Err(e) => r is Err && r->Err_0@ == e,
        },
    decreases block, 0int,
{
    let kind = match block {
        Block::Paragraph(paragraph) => {
            let inlines = match restore_inlines_with_cursor(&paragraph.inlines, blanks, location, next_blank) {
                Ok(v) => v,
                Err(d) => {
                    return Err(d);
                },
            };
            let p = ast::Paragraph::new(inlines, empty());
            assert(p@.inlines =~= inlines_view(p.inlines@));
            ast::BlockKind::Paragraph(p)
        },
        Block::Memo(memo) => {
            proof {
                crate::model::types::lemma_model_memo_view(*block);
            }
            let blocks = match memo_blocks_to_ast_exec(&memo.blocks) {
                Ok(v) => v,
                Err(d) => {
                    return Err(d);
                },
            };
            let m = ast::MemoBlock::new(blocks, empty());
            assert(m@.blocks =~= blocks_view(m.blocks@));
            ast::BlockKind::Memo(m)
        },
        Block::MathBlock(value) => ast::BlockKind::MathBlock(value.duplicate()),
        Block::CodeBlock(value) => ast::BlockKind::CodeBlock(value.duplicate()),
        Block::MermaidBlock(value) => ast::BlockKind::MermaidBlock(value.duplicate()),
    };
    let r = ast::Block::new(kind, empty());
    proof {
        if r.kind is Memo {
            ast::lemma_memo_block_view(r);
        }
    }
    Ok(r)
}

/// The blocks of a memo, each converted on its own, rejecting blank references.
fn memo_blocks_to_ast_exec(blocks: &Vec<Block>) -> (r: Result<Vec<ast::Block>, ModelDiagnostic>)
    ensures
        match memo_blocks_to_ast(blocks_m(blocks@), blocks@.len() as int) {
            Ok(xs) => r is Ok && blocks_view(r->Ok_0@) == xs,
            Err(e) => r is Err && r->Err_0@ == e,
        },
    decreases blocks, 2int,
{
    let ghost v = blocks_m(blocks@);
    let mut out: Vec<ast::Block> = Vec::new();
    let mut index: usize = 0;
    assert(blocks_view(out@) =~= seq![]);
    while index < blocks.len()
        invariant
            index <= blocks@.len(),
            v == blocks_m(blocks@),
            memo_blocks_to_ast(v, index as int) == Ok::<Seq<BlockV>, ModelDiagnosticV>(
                blocks_view(out@),
            ),
        decreases blocks@.len() - index,
    {
        assert(v[index as int] == blocks@[index as int]@);
        match block_to_ast(&blocks[index], None, "a memo") {
            Ok(x) => {
                let ghost pre = out@;
                out.push(x);
                assert(blocks_view(out@) =~= blocks_view(pre).push(x@));
            },
            Err(d) => {
                proof {
                    assert(memo_blocks_to_ast(v, index + 1) == Err::<Seq<BlockV>, ModelDiagnosticV>(d@));
                    lemma_memo_error_stays(v, index + 1, v.len() as int);
                }
                return Err(d);
            },
        }
        index = index + 1;
    }
    Ok(out)
}

fn block_to_ast(block: &Block, blanks: Option<&Vec<Blank>>, location: &'static str) -> (r: Result<
    ast::Block,
    ModelDiagnostic,
>)
    ensures
        match block_to_ast_v(block@, opt_blanks(blanks), location@) {
            Ok(x) => r is Ok && r->Ok_0@ == x,
            Err(e) => r is Err && r->Err_0@ == e,
        },
    decreases block, 1int,
{
    let mut next_blank: u32 = 0;
    let b = match block_to_ast_with_cursor(block, blanks, location, &mut next_blank) {
        Ok(b) => b,
        Err(d) => {
            return Err(d);
        },
    };
    match validate_blank_count(blanks, next_blank) {
        Ok(()) => Ok(b),
        Err(d) => Err(d),
    }
}

fn content_to_ast(content: &Content, blanks: Option<&Vec<Blank>>, location: &'static str) -> (r: Result<
    ast::QuizContent,
    ModelDiagnostic,
>)
    ensures
        match content_to_ast_v(content@, opt_blanks(blanks), location@) {
            Ok(x) => r is Ok && r->Ok_0@ == x,
            Err(e) => r is Err && r->Err_0@ == e,
        },
{
    let ghost v = content@;
    let mut next_blank: u32 = 0;
    let mut blocks: Vec<ast::Block> = Vec::new();
    let mut index: usize = 0;
    assert(blocks_view(blocks@) =~= seq![]);
    while index < content.blocks.len()
        invariant
            index <= content.blocks@.len(),
            v == content@,
            blocks_to_ast_from(v, index as int, opt_blanks(blanks), location@, 0) == Ok::<
                (Seq<BlockV>, u32),
                ModelDiagnosticV,
            >((blocks_view(blocks@), next_blank)),
        decreases content.blocks@.len() - index,
    {
        assert(v[index as int] == content.blocks@[index as int]@);
        match block_to_ast_with_cursor(&content.blocks[index], blanks, location, &mut next_blank) {
            Ok(x) => {
                let ghost pre = blocks@;
                blocks.push(x);
                assert(blocks_view(blocks@) =~= blocks_view(pre).push(x@));
            },
            Err(d) => {
                proof {
                    assert(blocks_to_ast_from(v, index + 1, opt_blanks(blanks), location@, 0) == Err::<
                        (Seq<BlockV>, u32),
                        ModelDiagnosticV,
                    >(d@));
                    lemma_blocks_ast_error_stays(v, index + 1, v.len() as int, opt_blanks(blanks), location@, 0);
                }
                return Err(d);
            },
        }
        index = index + 1;
    }
    match validate_blank_count(blanks, next_blank) {
        Ok(()) => {
            let c = ast::QuizContent::new(blocks, empty());
            assert(c@.blocks =~= blocks_view(c.blocks@));
            Ok(c)
        },
        Err(d) => Err(d),
    }
}

pub open spec fn document_item_result(r: Result<ast::DocumentItem, ModelDiagnostic>) -> Result<
    DocumentItemV,
    ModelDiagnosticV,
> {
    match r {
        Ok(x) => Ok(x@),
        Err(d) => Err(d@),
    }
}

fn quiz_document_item(kind: ast::QuizItemKind) -> (r: ast::DocumentItem)
    ensures
        r@ == quiz_ast(crate::parse::block::quiz_kind_view(kind)),
{
    ast::DocumentItem::new(ast::DocumentItemKind::Quiz(ast::QuizItem::new(kind, empty())), empty())
}

impl<'a> TryFrom<&'a Item> for ast::DocumentItem {
    type Error = ModelDiagnostic;

    /// The quiz or block an item stands for, with every source range empty.
    fn try_from(item: &'a Item) -> (r: Result<ast::DocumentItem, ModelDiagnostic>)
        ensures
            document_item_result(r) == item_to_ast(item@),
    {
        match item {
            Item::Qa(qa) => {
                let question = match content_to_ast(&qa.question, None, "a Q/A question") {
                    Ok(c) => c,
                    Err(d) => {
                        return Err(d);
                    },
                };
                let answer = match content_to_ast(&qa.answer, None, "a Q/A answer") {
                    Ok(c) => c,
                    Err(d) => {
                        return Err(d);
                    },
                };
                Ok(quiz_document_item(ast::QuizItemKind::Qa(ast::QaQuiz::new(question, answer, empty()))))
            },
            Item::QaFold(qa) => {
                if qa.blanks.len() == 0 {
                    return Err(
                        ModelDiagnostic::new(
                            ModelError::MissingBlank,
                            String::from_str("Q/A fold quiz must contain at least one blank."),
                            None,
                        ),
                    );
                }
                let question = match content_to_ast(&qa.question, None, "a Q/A question") {
                    Ok(c) => c,
                    Err(d) => {
                        return Err(d);
                    },
                };
                let answer = match content_to_ast(&qa.content, Some(&qa.blanks), "a Q/A fold answer") {
                    Ok(c) => c,
                    Err(d) => {
                        return Err(d);
                    },
                };
                Ok(quiz_document_item(ast::QuizItemKind::Qa(ast::QaQuiz::new(question, answer, empty()))))
            },
            Item::Fold(fold) => {
                if fold.blanks.len() == 0 {
                    return Err(
                        ModelDiagnostic::new(
                            ModelError::MissingBlank,
                            String::from_str("Fold quiz must contain at least one blank."),
                            None,
                        ),
                    );
                }
                let inlines = match restore_inlines(&fold.content, Some(&fold.blanks), "a fold quiz") {
                    Ok(v) => v,
                    Err(d) => {
                        return Err(d);
                    },
                };
                let paragraph = ast::Paragraph::new(inlines, empty());
                assert(paragraph@.inlines =~= inlines_view(paragraph.inlines@));
                let block = ast::Block::new(ast::BlockKind::Paragraph(paragraph), empty());
                let ghost bv = block@;
                let mut blocks: Vec<ast::Block> = Vec::new();
                blocks.push(block);
                let content = ast::QuizContent::new(blocks, empty());
                assert(content@.blocks =~= seq![bv]);
                Ok(quiz_document_item(ast::QuizItemKind::Fold(ast::FoldQuiz::new(content, empty()))))
            },
            Item::Note(note) => {
                let block = match block_to_ast(&note.block, None, "a note") {
                    Ok(b) => b,
                    Err(d) => {
                        return Err(d);
                    },
                };
                Ok(ast::DocumentItem::new(ast::DocumentItemKind::Block(block), empty()))
            },
        }
    }
}

impl<'a> TryFromSpecImpl<&'a Item> for ast::DocumentItem {
    /// The contract of `try_from` is stated on the impl above, over views.
    open spec fn obeys_try_from_spec() -> bool {
        false
    }

    open spec fn try_from_spec(v: &'a Item) -> Result<ast::DocumentItem, ModelDiagnostic> {
        vstd::pervasive::arbitrary()
    }
}

impl<'a> TryFrom<&'a Document> for ast::QuizFoldDocument {
    type Error = ModelDiagnostic;

    /// The syntax tree of a model document, or the first error met.
    fn try_from(document: &'a Document) -> (r: Result<ast::QuizFoldDocument, ModelDiagnostic>)
        ensures
            match r {
                Ok(d) => document_to_ast(document@) == Ok::<QuizFoldDocumentV, ModelDiagnosticV>(d@),
                Err(e) => document_to_ast(document@) == Err::<QuizFoldDocumentV, ModelDiagnosticV>(e@),
            },
    {
        let ghost v = document@;
        let mut items: Vec<ast::DocumentItem> = Vec::new();
        let mut index: usize = 0;
        assert(items@.map_values(|i: ast::DocumentItem| i@) =~= seq![]);
        while index < document.items.len()
            invariant
                index <= document.items@.len(),
                v == document@,
                items_to_ast(v, index as int) == Ok::<Seq<DocumentItemV>, ModelDiagnosticV>(
                    items@.map_values(|i: ast::DocumentItem| i@),
                ),
            decreases document.items@.len() - index,
        {
            assert(v[index as int] == document.items@[index as int]@);
            match ast::DocumentItem::try_from(&document.items[index]) {
                Ok(x) => {
                    let ghost pre = items@;
                    items.push(x);
                    assert(items@.map_values(|i: ast::DocumentItem| i@) =~= pre.map_values(
                        |i: ast::DocumentItem| i@,
                    ).push(x@));
                },
                Err(d) => {
                    proof {
                        assert(items_to_ast(v, index + 1) == Err::<Seq<DocumentItemV>, ModelDiagnosticV>(d@));
                        lemma_items_ast_error_stays(v, index + 1, v.len() as int);
                    }
                    return Err(d);
                },
            }
            index = index + 1;
        }
        let d = ast::QuizFoldDocument::new(items, empty());
        assert(d@.items =~= d.items@.map_values(|i: ast::DocumentItem| i@));
        Ok(d)
    }
}

impl<'a> TryFromSpecImpl<&'a Document> for ast::QuizFoldDocument {
    /// The contract of `try_from` is stated on the impl above, over views.
    open spec fn obeys_try_from_spec() -> bool {
        false
    }

    open spec fn try_from_spec(v: &'a Document) -> Result<ast::QuizFoldDocument, ModelDiagnostic> {
        vstd::pervasive::arbitrary()
    }
}

impl TryFrom<ast::QuizFoldDocument> for Document {
    type Error = ModelDiagnostic;

    /// As for a borrowed document.
    fn try_from(document: ast::QuizFoldDocument) -> (r: Result<Document, ModelDiagnostic>)
        ensures
            match r {
                Ok(d) => document_to_model(document@) == Ok::<Seq<ItemM>, ModelDiagnosticV>(d@),
                Err(e) => document_to_model(document@) == Err::<Seq<ItemM>, ModelDiagnosticV>(e@),
            },
    {
        Document::try_from(&document)
    }
}

impl TryFromSpecImpl<ast::QuizFoldDocument> for Document {
    /// The contract of `try_from` is stated on the impl above, over views.
    open spec fn obeys_try_from_spec() -> bool {
        false
    }

    open spec fn try_from_spec(v: ast::QuizFoldDocument) -> Result<Document, ModelDiagnostic> {
        vstd::pervasive::arbitrary()
    }
}

impl TryFrom<Document> for ast::QuizFoldDocument {
    type Error = ModelDiagnostic;

    /// As for a borrowed model document.
    fn try_from(document: Document) -> (r: Result<ast::QuizFoldDocument, ModelDiagnostic>)
        ensures
            match r {
                Ok(d) => document_to_ast(document@) == Ok::<QuizFoldDocumentV, ModelDiagnosticV>(d@),
                Err(e) => document_to_ast(document@) == Err::<QuizFoldDocumentV, ModelDiagnosticV>(e@),
            },
    {
        ast::QuizFoldDocument::try_from(&document)
    }
}

impl TryFromSpecImpl<Document> for ast::QuizFoldDocument {
    /// The contract of `try_from` is stated on the impl above, over views.
    open spec fn obeys_try_from_spec() -> bool {
        false
    }

    open spec fn try_from_spec(v: Document) -> Result<ast::QuizFoldDocument, ModelDiagnostic> {
        vstd::pervasive::arbitrary()
    }
}

} // verus!
