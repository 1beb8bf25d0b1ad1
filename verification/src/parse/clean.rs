//! What a parse that reports no diagnostic has built: fold blanks stand only
//! in answers and fold quizzes, and every fold quiz holds one.
use super::block::{
    answer_loop, block_item_v, block_plain_v, block_v, check_memo_only_v, content_tokens_v,
    contains_fold_blank_v, delimited_v, fold_v, marker_line_v, memo_block_v, memo_loop, memo_v,
    paragraph_from_tokens_v, paragraph_v, push_opt, qa_v, question_loop, question_section_v,
};
use super::cursor::LexedLine;
use super::inline::{has_fold_blank, image_v, inline_v, inlines_from, math_inline_v, recover_v};
use super::{ContentContext, Ctx, PState, advance_v, at_pos, document_item_v, document_loop, spec_parse};
use crate::ast::{
    BlockKindV, BlockV, DocumentItemKindV, DocumentItemV, InlineKindV, InlineV, MemoBlockV,
    QuizItemKindV,
};
use crate::errors::ParseError;
use crate::lexer::{Token, TokenKind};
use crate::source::SourceRange;
use vstd::prelude::*;

verus! {

// ---------------------------------------------------------------------
// What the tree holds.
/// A block that is not a memo block and holds no fold blank.
pub open spec fn flat_free(b: BlockV) -> bool {
    match b.kind {
        BlockKindV::Paragraph(p) => !has_fold_blank(p.inlines),
        BlockKindV::Memo(_) => false,
        _ => true,
    }
}

/// A memo block whose blocks are plain blocks without fold blanks.
pub open spec fn memo_free(m: MemoBlockV) -> bool {
    forall|i: int| 0 <= i < m.blocks.len() ==> flat_free(#[trigger] m.blocks[i])
}

/// A block with no fold blank anywhere in it.
pub open spec fn block_free(b: BlockV) -> bool {
    match b.kind {
        BlockKindV::Paragraph(p) => !has_fold_blank(p.inlines),
        BlockKindV::Memo(m) => memo_free(m),
        _ => true,
    }
}

/// A block of an answer: its paragraphs may hold fold blanks, its memo
/// blocks may not.
pub open spec fn answer_block_ok(b: BlockV) -> bool {
    match b.kind {
        BlockKindV::Memo(m) => memo_free(m),
        _ => true,
    }
}

pub open spec fn all_flat_free(v: Seq<BlockV>) -> bool {
    forall|i: int| 0 <= i < v.len() ==> flat_free(#[trigger] v[i])
}

pub open spec fn all_block_free(v: Seq<BlockV>) -> bool {
    forall|i: int| 0 <= i < v.len() ==> block_free(#[trigger] v[i])
}

pub open spec fn all_answer_ok(v: Seq<BlockV>) -> bool {
    forall|i: int| 0 <= i < v.len() ==> answer_block_ok(#[trigger] v[i])
}

/// An item as a clean parse builds it: a Q/A quiz has no fold blank in its
/// question, a fold quiz is one paragraph holding a fold blank, and a
/// block standing alone holds no fold blank.
pub open spec fn item_ready(i: DocumentItemV) -> bool {
    match i.kind {
        DocumentItemKindV::Quiz(q) => match q.kind {
            QuizItemKindV::Qa(qa) => all_block_free(qa.question.blocks) && all_answer_ok(
                qa.answer.blocks,
            ),
            QuizItemKindV::Fold(f) => {
                &&& f.content.blocks.len() == 1
                &&& f.content.blocks[0].kind is Paragraph
                &&& has_fold_blank(f.content.blocks[0].kind->Paragraph_0.inlines)
            },
        },
        DocumentItemKindV::Block(b) => block_free(b),
    }
}

pub open spec fn all_ready(v: Seq<DocumentItemV>) -> bool {
    forall|i: int| 0 <= i < v.len() ==> item_ready(#[trigger] v[i])
}

/// In context `k`, with `clean` telling that no diagnostic was added, what
/// was read holds no fold blank.
pub open spec fn blank_free_here(k: ContentContext, clean: bool) -> bool {
    k == ContentContext::Memo || (!k.spec_allows_fold_blank() && clean)
}

// ---------------------------------------------------------------------
// Inlines.
proof fn lemma_no_blank_concat(a: Seq<InlineV>, b: Seq<InlineV>)
    requires
        !has_fold_blank(a),
        !has_fold_blank(b),
    ensures
        !has_fold_blank(a + b),
{
    assert forall|j: int| 0 <= j < (a + b).len() implies !((#[trigger] (a + b)[j]).kind is FoldBlank) by {
        if j < a.len() {
            assert((a + b)[j] == a[j]);
        } else {
            assert((a + b)[j] == b[j - a.len()]);
        }
    }
}

proof fn lemma_single_no_blank(i: InlineV)
    requires
        !(i.kind is FoldBlank),
    ensures
        !has_fold_blank(seq![i]),
{
    assert forall|j: int| 0 <= j < 1 implies !((#[trigger] seq![i][j]).kind is FoldBlank) by {
        assert(seq![i][j] == i);
    }
}

proof fn lemma_recover(c: Ctx, toks: Seq<Token>, index: int, opening: Token, error: ParseError, st: PState)
    requires
        0 <= index <= toks.len(),
    ensures
        !has_fold_blank(recover_v(c, toks, index, opening, error, st).0),
        recover_v(c, toks, index, opening, error, st).2.diags.len() == st.diags.len() + 1,
{
    let v = recover_v(c, toks, index, opening, error, st).0;
    assert forall|j: int| 0 <= j < v.len() implies !((#[trigger] v[j]).kind is FoldBlank) by {}
}

proof fn lemma_inline(c: Ctx, toks: Seq<Token>, index: int, k: ContentContext, st: PState)
    requires
        0 <= index < toks.len(),
    ensures
        ({
            let (v, next, st1) = inline_v(c, toks, index, k, st);
            &&& st1.diags.len() >= st.diags.len()
            &&& blank_free_here(k, st1.diags.len() == st.diags.len()) ==> !has_fold_blank(v)
        }),
{
    let token = toks[index];
    match token.kind {
        TokenKind::Newline => {
            lemma_single_no_blank(InlineV { kind: InlineKindV::SoftBreak, source_range: token.source_range });
        },
        TokenKind::FoldBlankStart => {
            if k == ContentContext::Memo {
                lemma_single_no_blank(super::inline::raw_inline_v(c, token));
            } else {
                if super::inline::find_kind(toks, index + 1, TokenKind::FoldBlankEnd) is None {
                    lemma_recover(c, toks, index, token, ParseError::UnclosedFoldBlank, st);
                }
            }
        },
        TokenKind::MathInlineDelimiter => {
            match super::inline::find_kind(toks, index + 1, TokenKind::MathInlineDelimiter) {
                None => lemma_recover(c, toks, index, token, ParseError::UnclosedMathInline, st),
                Some(e) => {
                    let (v, _, _) = math_inline_v(c, toks, index, token, st);
                    lemma_single_no_blank(v[0]);
                    assert(v == seq![v[0]]);
                },
            }
        },
        TokenKind::Image { alt, destination } => {
            let (i, _) = image_v(c, token, alt, destination, st);
            lemma_single_no_blank(i);
        },
        _ => {
            lemma_single_no_blank(super::inline::raw_inline_v(c, token));
        },
    }
}

proof fn lemma_inlines_from(
    c: Ctx,
    toks: Seq<Token>,
    k: ContentContext,
    idx: int,
    acc: Seq<InlineV>,
    st: PState,
)
    ensures
        ({
            let (r, st1) = inlines_from(c, toks, k, idx, acc, st);
            &&& st1.diags.len() >= st.diags.len()
            &&& blank_free_here(k, st1.diags.len() == st.diags.len()) && !has_fold_blank(acc)
                ==> !has_fold_blank(r)
        }),
    decreases toks.len() - idx,
{
    if idx < 0 || idx >= toks.len() {
    } else {
        let (v, next, st1) = inline_v(c, toks, idx, k, st);
        lemma_inline(c, toks, idx, k, st);
        let (r, st2) = inlines_from(c, toks, k, idx, acc, st);
        if blank_free_here(k, st2.diags.len() == st.diags.len()) && !has_fold_blank(acc) {
            if idx < next <= toks.len() {
                lemma_inlines_from(c, toks, k, next, acc + v, st1);
                lemma_no_blank_concat(acc, v);
            } else {
                lemma_no_blank_concat(acc, v);
            }
        }
        if idx < next <= toks.len() {
            lemma_inlines_from(c, toks, k, next, acc + v, st1);
        }
    }
}

proof fn lemma_paragraph_tokens(
    c: Ctx,
    token_start: int,
    token_end: int,
    range: SourceRange,
    k: ContentContext,
    st: PState,
)
    ensures
        ({
            let (b, st1) = paragraph_from_tokens_v(c, token_start, token_end, range, k, st);
            &&& st1.diags.len() >= st.diags.len()
            &&& b.kind is Paragraph
            &&& blank_free_here(k, st1.diags.len() == st.diags.len()) ==> flat_free(b)
        }),
{
    let toks = c.tokens.subrange(token_start, token_end);
    assert(!has_fold_blank(Seq::<InlineV>::empty()));
    lemma_inlines_from(c, toks, k, 0, seq![], st);
}

// ---------------------------------------------------------------------
// Blocks.
proof fn lemma_push_flat(acc: Seq<BlockV>, b: Option<BlockV>)
    requires
        all_flat_free(acc),
        b is Some ==> flat_free(b->0),
    ensures
        all_flat_free(push_opt(acc, b)),
{
    if let Some(x) = b {
        assert forall|i: int| 0 <= i < acc.push(x).len() implies flat_free(#[trigger] acc.push(x)[i]) by {
            if i < acc.len() {
                assert(acc.push(x)[i] == acc[i]);
            }
        }
    }
}

proof fn lemma_push_free(acc: Seq<BlockV>, b: Option<BlockV>)
    requires
        all_block_free(acc),
        b is Some ==> block_free(b->0),
    ensures
        all_block_free(push_opt(acc, b)),
{
    if let Some(x) = b {
        assert forall|i: int| 0 <= i < acc.push(x).len() implies block_free(#[trigger] acc.push(x)[i]) by {
            if i < acc.len() {
                assert(acc.push(x)[i] == acc[i]);
            }
        }
    }
}

proof fn lemma_push_answer(acc: Seq<BlockV>, b: Option<BlockV>)
    requires
        all_answer_ok(acc),
        b is Some ==> answer_block_ok(b->0),
    ensures
        all_answer_ok(push_opt(acc, b)),
{
    if let Some(x) = b {
        assert forall|i: int| 0 <= i < acc.push(x).len() implies answer_block_ok(#[trigger] acc.push(x)[i]) by {
            if i < acc.len() {
                assert(acc.push(x)[i] == acc[i]);
            }
        }
    }
}

proof fn lemma_paragraph(c: Ctx, k: ContentContext, st: PState)
    ensures
        ({
            let (b, st1) = paragraph_v(c, k, st);
            &&& st1.diags.len() >= st.diags.len()
            &&& b.kind is Paragraph
            &&& blank_free_here(k, st1.diags.len() == st.diags.len()) ==> flat_free(b)
        }),
{
    let first = c.lines[st.pos];
    let end_pos = super::block::paragraph_end(c, k, st.pos + 1);
    let last = c.lines[end_pos - 1];
    let start = if first.token_start < c.tokens.len() {
        c.tokens[first.token_start as int].source_range.start
    } else {
        first.content_range.start
    };
    lemma_paragraph_tokens(
        c,
        first.token_start as int,
        last.token_end as int,
        SourceRange { start, end: last.content_range.end },
        k,
        at_pos(st, end_pos),
    );
}

pub proof fn lemma_block_plain(c: Ctx, k: ContentContext, st: PState)
    ensures
        ({
            let (b, st1) = block_plain_v(c, k, st);
            &&& st1.diags.len() >= st.diags.len()
            &&& b is Some ==> !(b->0.kind is Memo)
            &&& blank_free_here(k, st1.diags.len() == st.diags.len()) && b is Some ==> flat_free(b->0)
        }),
{
    match super::kind_at(c, st.pos) {
        Some(TokenKind::MathBlockDelimiter) => {},
        Some(TokenKind::CodeFenceStart { .. }) => {
            let opening = c.tokens[c.lines[st.pos].token_start as int];
            match opening.kind {
                TokenKind::CodeFenceStart { info } => {
                    let (d, _) = delimited_v(c, TokenKind::CodeFenceEnd, st);
                    if let Some((body, _)) = d {
                        let k2 = super::block::fence_kind_v(c, info, body);
                        assert(!(k2 is Memo) && !(k2 is Paragraph));
                    }
                },
                _ => {},
            }
        },
        _ => lemma_paragraph(c, k, st),
    }
}

proof fn lemma_memo_loop(c: Ctx, opening: LexedLine, acc: Seq<BlockV>, st: PState)
    ensures
        ({
            let (res, st1) = memo_loop(c, opening, acc, st);
            &&& st1.diags.len() >= st.diags.len()
            &&& all_flat_free(acc) && res is Ok ==> all_flat_free(res->Ok_0)
        }),
    decreases c.lines.len() - st.pos,
{
    if st.pos < 0 || st.pos >= c.lines.len() {
    } else if super::kind_at(c, st.pos) == Some(TokenKind::MemoEnd) {
    } else if super::kind_at(c, st.pos) == Some(TokenKind::MemoStart) {
    } else if super::blank_at(c, st.pos) {
        lemma_memo_loop(c, opening, acc, at_pos(st, st.pos + 1));
    } else {
        let (b, st1) = block_plain_v(c, ContentContext::Memo, st);
        lemma_block_plain(c, ContentContext::Memo, st);
        if all_flat_free(acc) {
            lemma_push_flat(acc, b);
        }
        if st.pos < st1.pos <= c.lines.len() {
            lemma_memo_loop(c, opening, push_opt(acc, b), st1);
        }
    }
}

proof fn lemma_memo_block(c: Ctx, st: PState)
    ensures
        ({
            let (b, st1) = memo_block_v(c, st);
            &&& st1.diags.len() >= st.diags.len()
            &&& b.kind is Memo
            &&& block_free(b)
            &&& answer_block_ok(b)
        }),
{
    assert(all_flat_free(Seq::<BlockV>::empty()));
    lemma_memo_loop(c, c.lines[st.pos], seq![], at_pos(st, st.pos + 1));
    let (res, st1) = memo_v(c, st);
    let blocks = match res {
        Ok(b) => b,
        Err(_) => Seq::<BlockV>::empty(),
    };
    assert(all_flat_free(blocks));
}

proof fn lemma_block(c: Ctx, k: ContentContext, st: PState)
    ensures
        ({
            let (b, st1) = block_v(c, k, st);
            &&& st1.diags.len() >= st.diags.len()
            &&& k == ContentContext::Answer && b is Some ==> answer_block_ok(b->0)
            &&& blank_free_here(k, st1.diags.len() == st.diags.len()) && b is Some ==> block_free(b->0)
        }),
{
    if super::kind_at(c, st.pos) == Some(TokenKind::MemoStart) && k != ContentContext::Memo {
        lemma_memo_block(c, st);
    } else {
        lemma_block_plain(c, k, st);
    }
}

proof fn lemma_question_loop(c: Ctx, acc: Seq<BlockV>, st: PState)
    ensures
        ({
            let (r, st1) = question_loop(c, acc, st);
            &&& st1.diags.len() >= st.diags.len()
            &&& st1.diags.len() == st.diags.len() && all_block_free(acc) ==> all_block_free(r)
        }),
    decreases c.lines.len() - st.pos,
{
    if st.pos < 0 || st.pos >= c.lines.len() || super::kind_at(c, st.pos) == Some(
        TokenKind::AnswerSeparator,
    ) || super::block::is_quiz_boundary_v(super::kind_at(c, st.pos)) {
    } else if super::blank_at(c, st.pos) {
        lemma_question_loop(c, acc, at_pos(st, st.pos + 1));
    } else {
        let (b, st1) = block_v(c, ContentContext::Question, st);
        lemma_block(c, ContentContext::Question, st);
        if st.pos < st1.pos <= c.lines.len() {
            lemma_question_loop(c, push_opt(acc, b), st1);
        }
        let (r, st2) = question_loop(c, acc, st);
        if st2.diags.len() == st.diags.len() && all_block_free(acc) {
            lemma_push_free(acc, b);
        }
    }
}

proof fn lemma_answer_loop(c: Ctx, acc: Seq<BlockV>, st: PState)
    ensures
        ({
            let (r, st1) = answer_loop(c, acc, st);
            &&& st1.diags.len() >= st.diags.len()
            &&& all_answer_ok(acc) ==> all_answer_ok(r)
        }),
    decreases c.lines.len() - st.pos,
{
    if st.pos < 0 || st.pos >= c.lines.len() || super::block::is_quiz_boundary_v(
        super::kind_at(c, st.pos),
    ) || super::blank_at(c, st.pos) {
    } else {
        let (b, st1) = block_v(c, ContentContext::Answer, st);
        lemma_block(c, ContentContext::Answer, st);
        if all_answer_ok(acc) {
            lemma_push_answer(acc, b);
        }
        if st.pos < st1.pos <= c.lines.len() {
            lemma_answer_loop(c, push_opt(acc, b), st1);
        }
    }
}

// ---------------------------------------------------------------------
// Items and the document.
proof fn lemma_question_section(c: Ctx, st: PState)
    ensures
        ({
            let (q, st1) = question_section_v(c, st);
            &&& st1.diags.len() >= st.diags.len()
            &&& st1.diags.len() == st.diags.len() ==> all_block_free(q.blocks)
        }),
{
    let opening = c.lines[st.pos];
    let marker = c.tokens[opening.token_start as int];
    let (blocks0, st1) = marker_line_v(c, opening, marker.source_range.end, st);
    if !(opening.token_start + 1 >= opening.token_end) {
        let range = SourceRange { start: marker.source_range.end, end: opening.content_range.end };
        lemma_paragraph_tokens(
            c,
            opening.token_start + 1,
            opening.token_end as int,
            range,
            ContentContext::Question,
            st,
        );
        let (b, _) = paragraph_from_tokens_v(
            c,
            opening.token_start + 1,
            opening.token_end as int,
            range,
            ContentContext::Question,
            st,
        );
        assert(blocks0 == seq![b]);
        if st1.diags.len() == st.diags.len() {
            assert(all_block_free(blocks0)) by {
                assert forall|i: int| 0 <= i < blocks0.len() implies block_free(#[trigger] blocks0[i]) by {
                    assert(blocks0[i] == b);
                }
            }
        }
    } else {
        assert(all_block_free(blocks0));
    }
    lemma_question_loop(c, blocks0, advance_v(c, st1));
}

proof fn lemma_check_memo_only(content: super::super::ast::QuizContentV, st: PState)
    ensures
        check_memo_only_v(content, st).diags.len() >= st.diags.len(),
{
}

proof fn lemma_qa(c: Ctx, st: PState)
    ensures
        ({
            let (item, st1) = qa_v(c, st);
            &&& st1.diags.len() >= st.diags.len()
            &&& st1.diags.len() == st.diags.len() ==> item_ready(item)
        }),
{
    let (q, st1) = question_section_v(c, st);
    lemma_question_section(c, st);
    if super::kind_at(c, st1.pos) != Some(TokenKind::AnswerSeparator) {
        let st2 = super::with_diag(st1, ParseError::MissingAnswerSeparator, q.missing_separator_range);
        let end = if st2.pos < c.lines.len() {
            c.lines[st2.pos].content_range.start
        } else {
            c.input.len() as usize
        };
        let question = super::super::ast::QuizContentV {
            blocks: q.blocks,
            source_range: SourceRange { start: q.content_start, end },
        };
        lemma_check_memo_only(question, st2);
    } else {
        let separator = c.lines[st1.pos];
        let st2 = at_pos(st1, st1.pos + 1);
        let answer_start = if st2.pos < c.lines.len() {
            c.lines[st2.pos].content_range.start
        } else {
            separator.full_end
        };
        assert(all_answer_ok(Seq::<BlockV>::empty()));
        lemma_answer_loop(c, seq![], st2);
        let (blocks, st3) = answer_loop(c, seq![], st2);
        let end = if blocks.len() > 0 {
            blocks.last().source_range.end
        } else {
            answer_start
        };
        let question = super::super::ast::QuizContentV {
            blocks: q.blocks,
            source_range: SourceRange { start: q.content_start, end: separator.content_range.start },
        };
        let answer = super::super::ast::QuizContentV {
            blocks,
            source_range: SourceRange { start: answer_start, end },
        };
        lemma_check_memo_only(question, st3);
        lemma_check_memo_only(answer, check_memo_only_v(question, st3));
    }
}

proof fn lemma_fold(c: Ctx, st: PState)
    ensures
        ({
            let (item, st1) = fold_v(c, st);
            &&& st1.diags.len() >= st.diags.len()
            &&& st1.diags.len() == st.diags.len() ==> item_ready(item)
        }),
{
    let line = c.lines[st.pos];
    let marker = c.tokens[line.token_start as int];
    let content_range = SourceRange { start: marker.source_range.end, end: line.content_range.end };
    let toks = c.tokens.subrange(line.token_start + 1, line.token_end as int);
    assert(!has_fold_blank(Seq::<InlineV>::empty()));
    lemma_inlines_from(c, toks, ContentContext::Fold, 0, seq![], st);
    let (content, st1) = content_tokens_v(
        c,
        line.token_start + 1,
        line.token_end as int,
        content_range,
        st,
    );
    let (item, st3) = fold_v(c, st);
    if st3.diags.len() == st.diags.len() {
        assert(contains_fold_blank_v(content));
        let i = choose|i: int|
            0 <= i < content.blocks.len() && (#[trigger] content.blocks[i]).kind is Paragraph
                && has_fold_blank(content.blocks[i].kind->Paragraph_0.inlines);
        assert(i == 0);
    }
}

proof fn lemma_block_item(c: Ctx, st: PState)
    ensures
        ({
            let (item, st1) = block_item_v(c, st);
            &&& st1.diags.len() >= st.diags.len()
            &&& st1.diags.len() == st.diags.len() ==> item_ready(item)
        }),
{
    lemma_block(c, ContentContext::Document, st);
    let start = c.lines[st.pos].content_range.start;
    let e = super::block::empty_paragraph_v(start);
    assert(!has_fold_blank(Seq::<InlineV>::empty()));
    assert(e.kind->Paragraph_0.inlines == Seq::<InlineV>::empty());
}

proof fn lemma_document_item(c: Ctx, st: PState)
    ensures
        ({
            let (item, st1) = document_item_v(c, st);
            &&& st1.diags.len() >= st.diags.len()
            &&& st1.diags.len() == st.diags.len() ==> item_ready(item)
        }),
{
    match super::kind_at(c, st.pos) {
        Some(TokenKind::QuestionMarker) => lemma_qa(c, st),
        Some(TokenKind::FoldMarker) => lemma_fold(c, st),
        Some(TokenKind::MemoStart) => lemma_memo_block(c, st),
        Some(TokenKind::MemoEnd) => lemma_block_item(
            c,
            super::with_diag(st, ParseError::UnexpectedMemoEnd, c.lines[st.pos].content_range),
        ),
        _ => lemma_block_item(c, st),
    }
}

proof fn lemma_document_loop(c: Ctx, acc: Seq<DocumentItemV>, st: PState)
    ensures
        ({
            let (items, st1) = document_loop(c, acc, st);
            &&& st1.diags.len() >= st.diags.len()
            &&& st1.diags.len() == st.diags.len() && all_ready(acc) ==> all_ready(items)
        }),
    decreases c.lines.len() - st.pos,
{
    let p = super::skip_blank(c, st.pos);
    if st.pos < 0 || p < st.pos || p >= c.lines.len() {
    } else {
        let (item, st1) = document_item_v(c, at_pos(st, p));
        lemma_document_item(c, at_pos(st, p));
        let (items, st2) = document_loop(c, acc, st);
        if st1.diags.len() == st.diags.len() && all_ready(acc) {
            assert(all_ready(acc.push(item))) by {
                assert forall|i: int| 0 <= i < acc.push(item).len() implies item_ready(
                    #[trigger] acc.push(item)[i],
                ) by {
                    if i < acc.len() {
                        assert(acc.push(item)[i] == acc[i]);
                    }
                }
            }
        }
        if p < st1.pos <= c.lines.len() {
            lemma_document_loop(c, acc.push(item), st1);
        }
    }
}

/// A source that parses without a diagnostic has fold blanks only in Q/A
/// answers and fold quizzes, every fold quiz is one paragraph holding at
/// least one fold blank, and no memo block holds a fold blank.
pub proof fn lemma_clean_parse_ready(input: Seq<u8>)
    requires
        spec_parse(input).diagnostics.len() == 0,
    ensures
        all_ready(spec_parse(input).document.items),
{
    let c = super::parse_ctx(input);
    assert(all_ready(Seq::<DocumentItemV>::empty()));
    lemma_document_loop(c, seq![], super::initial_state());
}

} // verus!
