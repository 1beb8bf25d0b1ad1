//! The references a parse reports are the image references of its tree, in
//! source order.
use super::block::{
    answer_loop, block_item_v, block_plain_v, block_v, delimited_v, fold_v, marker_line_v,
    memo_block_v, memo_loop, paragraph_from_tokens_v, paragraph_v, push_opt, qa_v,
    question_loop, question_section_v,
};
use super::cursor::LexedLine;
use super::inline::{inline_v, inlines_from, recover_v};
use super::{ContentContext, Ctx, PState, advance_v, at_pos, document_item_v, document_loop, spec_parse};
use crate::ast::{
    BlockKindV, BlockV, DocumentItemKindV, DocumentItemV, ImageReferenceV, InlineKindV, InlineV,
    QuizContentV, QuizItemKindV,
};
use crate::errors::ParseError;
use crate::lexer::{Token, TokenKind};
use crate::source::SourceRange;
use crate::ReferencesV;
use vstd::prelude::*;

verus! {

// ---------------------------------------------------------------------
// The references of a tree.
/// `r` with one more image reference, on the list of its kind.
pub open spec fn add_reference(r: ReferencesV, x: ImageReferenceV) -> ReferencesV {
    match x {
        ImageReferenceV::RequestAttachment(t) => ReferencesV {
            request_attachments: r.request_attachments.push(t),
            ..r
        },
        ImageReferenceV::StoredImage(t) => ReferencesV { stored_images: r.stored_images.push(t), ..r },
        ImageReferenceV::ExternalUrl(t) => ReferencesV {
            external_images: r.external_images.push(t),
            ..r
        },
    }
}

pub open spec fn inline_references(r: ReferencesV, i: InlineV) -> ReferencesV {
    match i.kind {
        InlineKindV::Image(img) => add_reference(r, img.reference),
        _ => r,
    }
}

/// `r` followed by the image references of `v`, in order.
pub open spec fn inlines_references(r: ReferencesV, v: Seq<InlineV>) -> ReferencesV
    decreases v.len(),
{
    if v.len() == 0 {
        r
    } else {
        inline_references(inlines_references(r, v.drop_last()), v.last())
    }
}

pub open spec fn block_references(r: ReferencesV, b: BlockV) -> ReferencesV
    decreases b, 0int,
{
    match b.kind {
        BlockKindV::Paragraph(p) => inlines_references(r, p.inlines),
        BlockKindV::Memo(m) => blocks_references(r, m.blocks, m.blocks.len() as int),
        _ => r,
    }
}

/// `r` followed by the image references of the first `n` blocks.
pub open spec fn blocks_references(r: ReferencesV, v: Seq<BlockV>, n: int) -> ReferencesV
    decreases v, n,
{
    if n <= 0 || n > v.len() {
        r
    } else {
        block_references(blocks_references(r, v, n - 1), v[n - 1])
    }
}

pub open spec fn content_references(r: ReferencesV, c: QuizContentV) -> ReferencesV {
    blocks_references(r, c.blocks, c.blocks.len() as int)
}

pub open spec fn item_references(r: ReferencesV, i: DocumentItemV) -> ReferencesV {
    match i.kind {
        DocumentItemKindV::Quiz(q) => match q.kind {
            QuizItemKindV::Qa(qa) => content_references(content_references(r, qa.question), qa.answer),
            QuizItemKindV::Fold(f) => content_references(r, f.content),
        },
        DocumentItemKindV::Block(b) => block_references(r, b),
    }
}

pub open spec fn items_references(r: ReferencesV, v: Seq<DocumentItemV>, n: int) -> ReferencesV
    decreases n,
{
    if n <= 0 || n > v.len() {
        r
    } else {
        item_references(items_references(r, v, n - 1), v[n - 1])
    }
}

pub open spec fn no_references() -> ReferencesV {
    ReferencesV { request_attachments: seq![], stored_images: seq![], external_images: seq![] }
}

/// The image references of a document's items, by kind, in source order.
pub open spec fn tree_references(items: Seq<DocumentItemV>) -> ReferencesV {
    items_references(no_references(), items, items.len() as int)
}

// ---------------------------------------------------------------------
// Inlines.
proof fn lemma_concat(r: ReferencesV, a: Seq<InlineV>, b: Seq<InlineV>)
    ensures
        inlines_references(r, a + b) == inlines_references(inlines_references(r, a), b),
    decreases b.len(),
{
    if b.len() == 0 {
        assert(a + b =~= a);
    } else {
        assert((a + b).drop_last() =~= a + b.drop_last());
        assert((a + b).last() == b.last());
        lemma_concat(r, a, b.drop_last());
    }
}

proof fn lemma_plain_inlines(r: ReferencesV, v: Seq<InlineV>)
    requires
        forall|j: int| 0 <= j < v.len() ==> !((#[trigger] v[j]).kind is Image),
    ensures
        inlines_references(r, v) == r,
    decreases v.len(),
{
    if v.len() > 0 {
        assert(!(v[v.len() - 1].kind is Image));
        lemma_plain_inlines(r, v.drop_last());
    }
}

proof fn lemma_one(r: ReferencesV, i: InlineV)
    ensures
        inlines_references(r, seq![i]) == inline_references(r, i),
{
    assert(seq![i].drop_last() =~= Seq::<InlineV>::empty());
    assert(inlines_references(r, Seq::<InlineV>::empty()) == r);
    assert(seq![i].last() == i);
}

proof fn lemma_recover_refs(c: Ctx, toks: Seq<Token>, index: int, opening: Token, error: ParseError, st: PState)
    requires
        0 <= index <= toks.len(),
    ensures
        ({
            let (v, _, st1) = recover_v(c, toks, index, opening, error, st);
            &&& inlines_references(st.refs, v) == st1.refs
        }),
{
    let v = recover_v(c, toks, index, opening, error, st).0;
    lemma_plain_inlines(st.refs, v);
}

proof fn lemma_inline_refs(c: Ctx, toks: Seq<Token>, index: int, k: ContentContext, st: PState)
    requires
        0 <= index < toks.len(),
    ensures
        ({
            let (v, _, st1) = inline_v(c, toks, index, k, st);
            &&& inlines_references(st.refs, v) == st1.refs
        }),
{
    let token = toks[index];
    let (v, _, st1) = inline_v(c, toks, index, k, st);
    match token.kind {
        TokenKind::FoldBlankStart => {
            if k != ContentContext::Memo {
                if super::inline::find_kind(toks, index + 1, TokenKind::FoldBlankEnd) is None {
                    lemma_recover_refs(c, toks, index, token, ParseError::UnclosedFoldBlank, st);
                } else {
                    lemma_one(st.refs, v[0]);
                    assert(v == seq![v[0]]);
                }
            } else {
                lemma_one(st.refs, v[0]);
            }
        },
        TokenKind::MathInlineDelimiter => {
            match super::inline::find_kind(toks, index + 1, TokenKind::MathInlineDelimiter) {
                None => lemma_recover_refs(c, toks, index, token, ParseError::UnclosedMathInline, st),
                Some(e) => {
                    lemma_one(st.refs, v[0]);
                    assert(v == seq![v[0]]);
                },
            }
        },
        _ => {
            lemma_one(st.refs, v[0]);
        },
    }
}

proof fn lemma_inlines_from_refs(
    c: Ctx,
    toks: Seq<Token>,
    k: ContentContext,
    idx: int,
    acc: Seq<InlineV>,
    st: PState,
    r0: ReferencesV,
)
    requires
        inlines_references(r0, acc) == st.refs,
    ensures
        ({
            let (r, st1) = inlines_from(c, toks, k, idx, acc, st);
            &&& inlines_references(r0, r) == st1.refs
        }),
    decreases toks.len() - idx,
{
    if idx < 0 || idx >= toks.len() {
    } else {
        let (v, next, st1) = inline_v(c, toks, idx, k, st);
        lemma_inline_refs(c, toks, idx, k, st);
        lemma_concat(r0, acc, v);
        if idx < next <= toks.len() {
            lemma_inlines_from_refs(c, toks, k, next, acc + v, st1, r0);
        }
    }
}

proof fn lemma_paragraph_tokens_refs(
    c: Ctx,
    token_start: int,
    token_end: int,
    range: SourceRange,
    k: ContentContext,
    st: PState,
)
    ensures
        ({
            let (b, st1) = paragraph_from_tokens_v(c, token_start, token_end, range, k, st);
            &&& block_references(st.refs, b) == st1.refs
        }),
{
    let toks = c.tokens.subrange(token_start, token_end);
    lemma_inlines_from_refs(c, toks, k, 0, seq![], st, st.refs);
}

// ---------------------------------------------------------------------
// Blocks.
pub open spec fn opt_block_references(r: ReferencesV, b: Option<BlockV>) -> ReferencesV {
    match b {
        Some(x) => block_references(r, x),
        None => r,
    }
}

pub open spec fn seq_references(r: ReferencesV, v: Seq<BlockV>) -> ReferencesV {
    blocks_references(r, v, v.len() as int)
}

proof fn lemma_blocks_prefix(r: ReferencesV, v: Seq<BlockV>, w: Seq<BlockV>, n: int)
    requires
        0 <= n <= v.len(),
        n <= w.len(),
        forall|i: int| 0 <= i < n ==> v[i] == w[i],
    ensures
        blocks_references(r, v, n) == blocks_references(r, w, n),
    decreases n,
{
    if n > 0 {
        lemma_blocks_prefix(r, v, w, n - 1);
    }
}

proof fn lemma_push_refs(r: ReferencesV, acc: Seq<BlockV>, b: Option<BlockV>)
    ensures
        seq_references(r, push_opt(acc, b)) == opt_block_references(seq_references(r, acc), b),
{
    if let Some(x) = b {
        lemma_blocks_prefix(r, acc.push(x), acc, acc.len() as int);
        assert(acc.push(x)[acc.len() as int] == x);
    }
}

proof fn lemma_paragraph_refs(c: Ctx, k: ContentContext, st: PState)
    ensures
        ({
            let (b, st1) = paragraph_v(c, k, st);
            &&& block_references(st.refs, b) == st1.refs
        }),
{
    let first = c.lines[st.pos];
    let end_pos = super::block::paragraph_end(c, k, st.pos + 1);
    let last = c.lines[end_pos - 1];
    let start = if first.token_start < c.tokens.len() {
        c.tokens[first.token_start as int].source_range.start
    } else {
        first.content_range.start
    };
    lemma_paragraph_tokens_refs(
        c,
        first.token_start as int,
        last.token_end as int,
        SourceRange { start, end: last.content_range.end },
        k,
        at_pos(st, end_pos),
    );
}

proof fn lemma_block_plain_refs(c: Ctx, k: ContentContext, st: PState)
    ensures
        ({
            let (b, st1) = block_plain_v(c, k, st);
            &&& opt_block_references(st.refs, b) == st1.refs
        }),
{
    match super::kind_at(c, st.pos) {
        Some(TokenKind::MathBlockDelimiter) => {},
        Some(TokenKind::CodeFenceStart { .. }) => {
            let opening = c.tokens[c.lines[st.pos].token_start as int];
            match opening.kind {
                TokenKind::CodeFenceStart { info } => {
                    let (d, _) = delimited_v(c, TokenKind::CodeFenceEnd, st);
                    if let Some((body, _)) = d {
                        let k2 = super::block::fence_kind_v(c, info, body);
                        assert(!(k2 is Memo) && !(k2 is Paragraph));
                    }
                },
                _ => {},
            }
        },
        _ => lemma_paragraph_refs(c, k, st),
    }
}

proof fn lemma_memo_loop_refs(c: Ctx, opening: LexedLine, acc: Seq<BlockV>, st: PState, r0: ReferencesV)
    requires
        seq_references(r0, acc) == st.refs,
    ensures
        ({
            let (res, st1) = memo_loop(c, opening, acc, st);
            &&& res is Ok ==> seq_references(r0, res->Ok_0) == st1.refs
        }),
    decreases c.lines.len() - st.pos,
{
    if st.pos < 0 || st.pos >= c.lines.len() {
    } else if super::kind_at(c, st.pos) == Some(TokenKind::MemoEnd) {
    } else if super::kind_at(c, st.pos) == Some(TokenKind::MemoStart) {
    } else if super::blank_at(c, st.pos) {
        lemma_memo_loop_refs(c, opening, acc, at_pos(st, st.pos + 1), r0);
    } else {
        let (b, st1) = block_plain_v(c, ContentContext::Memo, st);
        lemma_block_plain_refs(c, ContentContext::Memo, st);
        lemma_push_refs(r0, acc, b);
        if st.pos < st1.pos <= c.lines.len() {
            lemma_memo_loop_refs(c, opening, push_opt(acc, b), st1, r0);
        }
    }
}

proof fn lemma_memo_block_refs(c: Ctx, st: PState)
    ensures
        ({
            let (b, st1) = memo_block_v(c, st);
            &&& block_references(st.refs, b) == st1.refs
        }),
{
    lemma_memo_loop_refs(c, c.lines[st.pos], seq![], at_pos(st, st.pos + 1), st.refs);
    let (b, _) = memo_block_v(c, st);
    assert(blocks_references(st.refs, b.kind->Memo_0.blocks, b.kind->Memo_0.blocks.len() as int)
        == block_references(st.refs, b));
}

proof fn lemma_block_refs(c: Ctx, k: ContentContext, st: PState)
    ensures
        ({
            let (b, st1) = block_v(c, k, st);
            &&& opt_block_references(st.refs, b) == st1.refs
        }),
{
    if super::kind_at(c, st.pos) == Some(TokenKind::MemoStart) && k != ContentContext::Memo {
        lemma_memo_block_refs(c, st);
    } else {
        lemma_block_plain_refs(c, k, st);
    }
}

proof fn lemma_question_loop_refs(c: Ctx, acc: Seq<BlockV>, st: PState, r0: ReferencesV)
    requires
        seq_references(r0, acc) == st.refs,
    ensures
        ({
            let (r, st1) = question_loop(c, acc, st);
            &&& seq_references(r0, r) == st1.refs
        }),
    decreases c.lines.len() - st.pos,
{
    if st.pos < 0 || st.pos >= c.lines.len() || super::kind_at(c, st.pos) == Some(
        TokenKind::AnswerSeparator,
    ) || super::block::is_quiz_boundary_v(super::kind_at(c, st.pos)) {
    } else if super::blank_at(c, st.pos) {
        lemma_question_loop_refs(c, acc, at_pos(st, st.pos + 1), r0);
    } else {
        let (b, st1) = block_v(c, ContentContext::Question, st);
        lemma_block_refs(c, ContentContext::Question, st);
        lemma_push_refs(r0, acc, b);
        let (r, st2) = question_loop(c, acc, st);
        if st.pos < st1.pos <= c.lines.len() {
            lemma_question_loop_refs(c, push_opt(acc, b), st1, r0);
        }
    }
}

proof fn lemma_answer_loop_refs(c: Ctx, acc: Seq<BlockV>, st: PState, r0: ReferencesV)
    requires
        seq_references(r0, acc) == st.refs,
    ensures
        ({
            let (r, st1) = answer_loop(c, acc, st);
            &&& seq_references(r0, r) == st1.refs
        }),
    decreases c.lines.len() - st.pos,
{
    if st.pos < 0 || st.pos >= c.lines.len() || super::block::is_quiz_boundary_v(
        super::kind_at(c, st.pos),
    ) || super::blank_at(c, st.pos) {
    } else {
        let (b, st1) = block_v(c, ContentContext::Answer, st);
        lemma_block_refs(c, ContentContext::Answer, st);
        lemma_push_refs(r0, acc, b);
        let (r, st2) = answer_loop(c, acc, st);
        if st.pos < st1.pos <= c.lines.len() {
            lemma_answer_loop_refs(c, push_opt(acc, b), st1, r0);
        }
    }
}

// ---------------------------------------------------------------------
// Items and the document.
proof fn lemma_single_block(r: ReferencesV, b: BlockV)
    ensures
        seq_references(r, seq![b]) == block_references(r, b),
{
    assert(seq![b][0] == b);
    assert(blocks_references(r, seq![b], 0) == r);
}

proof fn lemma_question_section_refs(c: Ctx, st: PState)
    ensures
        ({
            let (q, st1) = question_section_v(c, st);
            &&& seq_references(st.refs, q.blocks) == st1.refs
        }),
{
    let opening = c.lines[st.pos];
    let marker = c.tokens[opening.token_start as int];
    let (blocks0, st1) = marker_line_v(c, opening, marker.source_range.end, st);
    if !(opening.token_start + 1 >= opening.token_end) {
        let range = SourceRange { start: marker.source_range.end, end: opening.content_range.end };
        lemma_paragraph_tokens_refs(
            c,
            opening.token_start + 1,
            opening.token_end as int,
            range,
            ContentContext::Question,
            st,
        );
        let (b, _) = paragraph_from_tokens_v(
            c,
            opening.token_start + 1,
            opening.token_end as int,
            range,
            ContentContext::Question,
            st,
        );
        lemma_single_block(st.refs, b);
    }
    lemma_question_loop_refs(c, blocks0, advance_v(c, st1), st.refs);
}

proof fn lemma_empty_content(r: ReferencesV, c: QuizContentV)
    requires
        c.blocks.len() == 0,
    ensures
        content_references(r, c) == r,
{
}

proof fn lemma_qa_refs(c: Ctx, st: PState)
    ensures
        ({
            let (item, st1) = qa_v(c, st);
            &&& item_references(st.refs, item) == st1.refs
        }),
{
    let (q, st1) = question_section_v(c, st);
    lemma_question_section_refs(c, st);
    let (item, st9) = qa_v(c, st);
    if super::kind_at(c, st1.pos) != Some(TokenKind::AnswerSeparator) {
        let st2 = super::with_diag(st1, ParseError::MissingAnswerSeparator, q.missing_separator_range);
        let qa = item.kind->Quiz_0.kind->Qa_0;
        lemma_empty_content(content_references(st.refs, qa.question), qa.answer);
    } else {
        let st2 = at_pos(st1, st1.pos + 1);
        lemma_answer_loop_refs(c, seq![], st2, st1.refs);
        let (blocks, st3) = answer_loop(c, seq![], st2);
    }
}

proof fn lemma_fold_refs(c: Ctx, st: PState)
    ensures
        ({
            let (item, st1) = fold_v(c, st);
            &&& item_references(st.refs, item) == st1.refs
        }),
{
    let line = c.lines[st.pos];
    let toks = c.tokens.subrange(line.token_start + 1, line.token_end as int);
    lemma_inlines_from_refs(c, toks, ContentContext::Fold, 0, seq![], st, st.refs);
    let (item, _) = fold_v(c, st);
    let f = item.kind->Quiz_0.kind->Fold_0;
    lemma_single_block(st.refs, f.content.blocks[0]);
    assert(f.content.blocks == seq![f.content.blocks[0]]);
}

proof fn lemma_block_item_refs(c: Ctx, st: PState)
    ensures
        ({
            let (item, st1) = block_item_v(c, st);
            &&& item_references(st.refs, item) == st1.refs
        }),
{
    lemma_block_refs(c, ContentContext::Document, st);
    assert(inlines_references(st.refs, Seq::<InlineV>::empty()) == st.refs);
}

proof fn lemma_document_item_refs(c: Ctx, st: PState)
    ensures
        ({
            let (item, st1) = document_item_v(c, st);
            &&& item_references(st.refs, item) == st1.refs
        }),
{
    match super::kind_at(c, st.pos) {
        Some(TokenKind::QuestionMarker) => lemma_qa_refs(c, st),
        Some(TokenKind::FoldMarker) => lemma_fold_refs(c, st),
        Some(TokenKind::MemoStart) => lemma_memo_block_refs(c, st),
        Some(TokenKind::MemoEnd) => lemma_block_item_refs(
            c,
            super::with_diag(st, ParseError::UnexpectedMemoEnd, c.lines[st.pos].content_range),
        ),
        _ => lemma_block_item_refs(c, st),
    }
}

proof fn lemma_items_prefix(r: ReferencesV, v: Seq<DocumentItemV>, w: Seq<DocumentItemV>, n: int)
    requires
        0 <= n <= v.len(),
        n <= w.len(),
        forall|i: int| 0 <= i < n ==> v[i] == w[i],
    ensures
        items_references(r, v, n) == items_references(r, w, n),
    decreases n,
{
    if n > 0 {
        lemma_items_prefix(r, v, w, n - 1);
    }
}

proof fn lemma_document_loop_refs(c: Ctx, acc: Seq<DocumentItemV>, st: PState, r0: ReferencesV)
    requires
        items_references(r0, acc, acc.len() as int) == st.refs,
    ensures
        ({
            let (items, st1) = document_loop(c, acc, st);
            &&& items_references(r0, items, items.len() as int) == st1.refs
        }),
    decreases c.lines.len() - st.pos,
{
    let p = super::skip_blank(c, st.pos);
    if st.pos < 0 || p < st.pos || p >= c.lines.len() {
    } else {
        let (item, st1) = document_item_v(c, at_pos(st, p));
        lemma_document_item_refs(c, at_pos(st, p));
        lemma_items_prefix(r0, acc.push(item), acc, acc.len() as int);
        assert(acc.push(item)[acc.len() as int] == item);
        let (items, st2) = document_loop(c, acc, st);
        if p < st1.pos <= c.lines.len() {
            lemma_document_loop_refs(c, acc.push(item), st1, r0);
        }
    }
}

/// The image references that a parse reports are those of its tree: each
/// image's reference, in source order, on the list of its kind. A memo block
/// that fails keeps neither its blocks nor their references.
pub proof fn lemma_references_match_tree(input: Seq<u8>)
    ensures
        spec_parse(input).references == tree_references(spec_parse(input).document.items),
{
    let c = super::parse_ctx(input);
    lemma_document_loop_refs(c, seq![], super::initial_state(), no_references());
}

} // verus!
