//! Every diagnostic of a parse points at a range of the source.
use super::block::{
    answer_loop, block_item_v, block_plain_v, block_v, check_memo_only_v, delimited_v, fold_v,
    lemma_recover_memo_pos, marker_line_v, memo_block_v, memo_loop, memo_only, memo_v,
    paragraph_end, paragraph_from_tokens_v, paragraph_v, push_opt, qa_v, question_loop,
    question_section_v, seek_pos,
};
use super::cursor::{LexedLine, line_wf, lines_wf};
use super::inline::{find_kind, inline_v, inlines_from, lemma_find_kind, lemma_tokens_wf_subrange};
use super::{
    ContentContext, Ctx, PState, advance_v, at_pos, document_item_v, document_loop,
    last_content_end, skip_blank,
};
use crate::ast::{BlockV, DocumentItemV, InlineV, QuizContentV};
use crate::diagnostics::Diagnostic;
use crate::errors::ParseError;
use crate::lexer::{Token, TokenKind, token_wf, tokens_wf};
use crate::source::SourceRange;
use vstd::prelude::*;

verus! {

/// A range that starts before it ends and ends within `len` bytes.
pub open spec fn range_within(r: SourceRange, len: int) -> bool {
    r.start <= r.end <= len
}

/// Every diagnostic's range lies within `len` bytes.
pub open spec fn diagnostics_within(d: Seq<Diagnostic>, len: int) -> bool {
    forall|i: int| 0 <= i < d.len() ==> range_within((#[trigger] d[i]).source_range, len)
}

/// The tokens and lines of a parse lie in its source.
pub open spec fn ctx_wf(c: Ctx) -> bool {
    &&& c.input.len() <= usize::MAX
    &&& tokens_wf(c.tokens, c.input.len() as int)
    &&& lines_wf(c.lines, c.tokens, c.input.len() as int)
}

pub(crate) proof fn lemma_push_within(d: Seq<Diagnostic>, x: Diagnostic, len: int)
    requires
        diagnostics_within(d, len),
        range_within(x.source_range, len),
    ensures
        diagnostics_within(d.push(x), len),
{
    assert forall|i: int| 0 <= i < d.push(x).len() implies range_within(
        (#[trigger] d.push(x)[i]).source_range,
        len,
    ) by {
        if i < d.len() {
            assert(d.push(x)[i] == d[i]);
        }
    }
}

// ---------------------------------------------------------------------
// Inlines.
proof fn lemma_inline_ranges(c: Ctx, toks: Seq<Token>, index: int, k: ContentContext, st: PState)
    requires
        tokens_wf(toks, c.input.len() as int),
        0 <= index < toks.len(),
        diagnostics_within(st.diags, c.input.len() as int),
    ensures
        diagnostics_within(inline_v(c, toks, index, k, st).2.diags, c.input.len() as int),
        inline_v(c, toks, index, k, st).2.pos == st.pos,
{
    let len = c.input.len() as int;
    let token = toks[index];
    let last = toks.last();
    assert(token_wf(token, len));
    assert(token_wf(last, len));
    if index < toks.len() - 1 {
        assert(token.source_range.end <= last.source_range.start);
    }
    let unclosed = SourceRange { start: token.source_range.start, end: last.source_range.end };
    assert(range_within(unclosed, len));
    match token.kind {
        TokenKind::FoldBlankStart => {
            if k != ContentContext::Memo {
                lemma_find_kind(toks, index + 1, TokenKind::FoldBlankEnd);
                match find_kind(toks, index + 1, TokenKind::FoldBlankEnd) {
                    None => {
                        lemma_push_within(
                            st.diags,
                            Diagnostic { error: ParseError::UnclosedFoldBlank, source_range: unclosed },
                            len,
                        );
                    },
                    Some(e) => {
                        let closing = toks[e];
                        assert(token_wf(closing, len));
                        assert(token.source_range.end <= closing.source_range.start);
                        let range = SourceRange { start: token.source_range.start, end: closing.source_range.end };
                        lemma_push_within(
                            st.diags,
                            Diagnostic { error: ParseError::FoldBlankOutsideAnswer, source_range: range },
                            len,
                        );
                    },
                }
            }
        },
        TokenKind::MathInlineDelimiter => {
            lemma_push_within(
                st.diags,
                Diagnostic { error: ParseError::UnclosedMathInline, source_range: unclosed },
                len,
            );
        },
        TokenKind::Image { alt, destination } => {
            let st1 = if alt.start == alt.end {
                super::with_diag(st, ParseError::EmptyImageAlt, alt)
            } else {
                st
            };
            lemma_push_within(st.diags, Diagnostic { error: ParseError::EmptyImageAlt, source_range: alt }, len);
            lemma_push_within(
                st1.diags,
                Diagnostic { error: ParseError::InvalidImageReference, source_range: destination },
                len,
            );
        },
        _ => {},
    }
}

proof fn lemma_inlines_ranges(
    c: Ctx,
    toks: Seq<Token>,
    k: ContentContext,
    idx: int,
    acc: Seq<InlineV>,
    st: PState,
)
    requires
        tokens_wf(toks, c.input.len() as int),
        diagnostics_within(st.diags, c.input.len() as int),
    ensures
        diagnostics_within(inlines_from(c, toks, k, idx, acc, st).1.diags, c.input.len() as int),
        inlines_from(c, toks, k, idx, acc, st).1.pos == st.pos,
    decreases toks.len() - idx,
{
    if idx < 0 || idx >= toks.len() {
    } else {
        let (v, next, st1) = inline_v(c, toks, idx, k, st);
        lemma_inline_ranges(c, toks, idx, k, st);
        if idx < next <= toks.len() {
            lemma_inlines_ranges(c, toks, k, next, acc + v, st1);
        }
    }
}

pub(crate) proof fn lemma_paragraph_tokens_ranges(
    c: Ctx,
    token_start: int,
    token_end: int,
    range: SourceRange,
    k: ContentContext,
    st: PState,
)
    requires
        ctx_wf(c),
        0 <= token_start <= token_end <= c.tokens.len(),
        diagnostics_within(st.diags, c.input.len() as int),
    ensures
        diagnostics_within(
            paragraph_from_tokens_v(c, token_start, token_end, range, k, st).1.diags,
            c.input.len() as int,
        ),
        paragraph_from_tokens_v(c, token_start, token_end, range, k, st).1.pos == st.pos,
{
    lemma_tokens_wf_subrange(c.tokens, c.input.len() as int, token_start, token_end);
    lemma_inlines_ranges(c, c.tokens.subrange(token_start, token_end), k, 0, seq![], st);
}

// ---------------------------------------------------------------------
// Lines.
pub(crate) proof fn lemma_line(c: Ctx, p: int)
    requires
        ctx_wf(c),
        0 <= p < c.lines.len(),
    ensures
        line_wf(c.lines[p], c.tokens, c.input.len() as int),
        c.lines[p].content_range.start <= c.lines[p].content_range.end <= c.lines[p].full_end
            <= c.input.len(),
{
}

/// A line ends before a later line starts.
proof fn lemma_lines_order(c: Ctx, p: int, q: int)
    requires
        ctx_wf(c),
        0 <= p < q < c.lines.len(),
    ensures
        c.lines[p].full_end <= c.lines[q].content_range.start,
        c.lines[p].token_end <= c.lines[q].token_start,
{
}

/// The first token of a line that has one lies within the line.
proof fn lemma_first_token(c: Ctx, p: int)
    requires
        ctx_wf(c),
        0 <= p < c.lines.len(),
        c.lines[p].token_start < c.lines[p].token_end,
    ensures
        c.lines[p].token_end <= c.tokens.len(),
        c.lines[p].content_range.start <= c.tokens[c.lines[p].token_start as int].source_range.start,
        c.tokens[c.lines[p].token_start as int].source_range.start
            <= c.tokens[c.lines[p].token_start as int].source_range.end,
        c.tokens[c.lines[p].token_start as int].source_range.end <= c.lines[p].content_range.end,
{
    let l = c.lines[p];
    assert(line_wf(l, c.tokens, c.input.len() as int));
    assert(token_wf(c.tokens[l.token_start as int], c.input.len() as int));
}

pub(crate) proof fn lemma_paragraph_end(c: Ctx, k: ContentContext, p: int)
    requires
        0 <= p <= c.lines.len(),
    ensures
        p <= paragraph_end(c, k, p) <= c.lines.len(),
    decreases c.lines.len() - p,
{
    if p < c.lines.len() {
        lemma_paragraph_end(c, k, p + 1);
    }
}

proof fn lemma_seek_pos(c: Ctx, kind: TokenKind, p: int)
    requires
        0 <= p <= c.lines.len(),
    ensures
        p <= seek_pos(c, kind, p) <= c.lines.len(),
    decreases c.lines.len() - p,
{
    if p < c.lines.len() {
        lemma_seek_pos(c, kind, p + 1);
    }
}

proof fn lemma_last_content_end(ts: Seq<Token>, len: int, n: int, i0: int)
    requires
        tokens_wf(ts, len),
        0 <= len,
        0 <= n <= ts.len(),
        0 <= i0 < n ==> ts[i0].kind != TokenKind::Newline,
    ensures
        0 <= last_content_end(ts, n) <= len,
        0 <= i0 < n ==> ts[i0].source_range.end <= last_content_end(ts, n),
    decreases n,
{
    if n > 0 {
        assert(token_wf(ts[n - 1], len));
        if ts[n - 1].kind == TokenKind::Newline {
            lemma_last_content_end(ts, len, n - 1, i0);
        } else if 0 <= i0 < n - 1 {
            assert(ts[i0].source_range.end <= ts[n - 1].source_range.start);
        }
    }
}

// ---------------------------------------------------------------------
// Blocks.
pub(crate) proof fn lemma_paragraph_ranges(c: Ctx, k: ContentContext, st: PState)
    requires
        ctx_wf(c),
        0 <= st.pos < c.lines.len(),
        diagnostics_within(st.diags, c.input.len() as int),
    ensures
        ({
            let (_, st1) = paragraph_v(c, k, st);
            &&& diagnostics_within(st1.diags, c.input.len() as int)
            &&& st.pos < st1.pos <= c.lines.len()
            &&& st1.pos == paragraph_end(c, k, st.pos + 1)
        }),
{
    let first = c.lines[st.pos];
    lemma_paragraph_end(c, k, st.pos + 1);
    let end_pos = paragraph_end(c, k, st.pos + 1);
    let last = c.lines[end_pos - 1];
    lemma_line(c, st.pos);
    lemma_line(c, end_pos - 1);
    if end_pos - 1 > st.pos {
        lemma_lines_order(c, st.pos, end_pos - 1);
    }
    let start = if first.token_start < c.tokens.len() {
        c.tokens[first.token_start as int].source_range.start
    } else {
        first.content_range.start
    };
    lemma_paragraph_tokens_ranges(
        c,
        first.token_start as int,
        last.token_end as int,
        SourceRange { start, end: last.content_range.end },
        k,
        at_pos(st, end_pos),
    );
}

proof fn lemma_delimited_ranges(c: Ctx, close: TokenKind, st: PState)
    requires
        ctx_wf(c),
        0 <= st.pos < c.lines.len(),
        c.lines[st.pos].token_start < c.lines[st.pos].token_end,
        c.tokens[c.lines[st.pos].token_start as int].kind != TokenKind::Newline,
        diagnostics_within(st.diags, c.input.len() as int),
    ensures
        ({
            let (_, st1) = delimited_v(c, close, st);
            &&& diagnostics_within(st1.diags, c.input.len() as int)
            &&& st.pos < st1.pos <= c.lines.len()
        }),
{
    let len = c.input.len() as int;
    let opening = c.lines[st.pos];
    lemma_seek_pos(c, close, st.pos + 1);
    lemma_first_token(c, st.pos);
    lemma_last_content_end(c.tokens, len, c.tokens.len() as int, opening.token_start as int);
    let range = SourceRange {
        start: opening.content_range.start,
        end: last_content_end(c.tokens, c.tokens.len() as int) as usize,
    };
    lemma_push_within(st.diags, Diagnostic { error: ParseError::UnclosedBlock, source_range: range }, len);
}

proof fn lemma_block_plain_ranges(c: Ctx, k: ContentContext, st: PState)
    requires
        ctx_wf(c),
        0 <= st.pos < c.lines.len(),
        diagnostics_within(st.diags, c.input.len() as int),
    ensures
        ({
            let (_, st1) = block_plain_v(c, k, st);
            &&& diagnostics_within(st1.diags, c.input.len() as int)
            &&& st.pos <= st1.pos <= c.lines.len()
        }),
{
    match super::kind_at(c, st.pos) {
        Some(TokenKind::MathBlockDelimiter) => lemma_delimited_ranges(c, TokenKind::MathBlockDelimiter, st),
        Some(TokenKind::CodeFenceStart { .. }) => lemma_delimited_ranges(c, TokenKind::CodeFenceEnd, st),
        _ => lemma_paragraph_ranges(c, k, st),
    }
}

proof fn lemma_memo_loop_ranges(c: Ctx, opening: LexedLine, acc: Seq<BlockV>, st: PState)
    requires
        ctx_wf(c),
        opening.content_range.start <= c.input.len(),
        0 <= st.pos <= c.lines.len(),
        diagnostics_within(st.diags, c.input.len() as int),
    ensures
        ({
            let (res, st1) = memo_loop(c, opening, acc, st);
            &&& diagnostics_within(st1.diags, c.input.len() as int)
            &&& st.pos <= st1.pos <= c.lines.len()
            &&& res is Err ==> range_within(res->Err_0.source_range, c.input.len() as int)
        }),
    decreases c.lines.len() - st.pos,
{
    if st.pos < 0 || st.pos >= c.lines.len() {
    } else if super::kind_at(c, st.pos) == Some(TokenKind::MemoEnd) {
    } else if super::kind_at(c, st.pos) == Some(TokenKind::MemoStart) {
        lemma_line(c, st.pos);
        lemma_recover_memo_pos(c, st.pos);
    } else if super::blank_at(c, st.pos) {
        lemma_memo_loop_ranges(c, opening, acc, at_pos(st, st.pos + 1));
    } else {
        let (b, st1) = block_plain_v(c, ContentContext::Memo, st);
        lemma_block_plain_ranges(c, ContentContext::Memo, st);
        if st.pos < st1.pos <= c.lines.len() {
            lemma_memo_loop_ranges(c, opening, push_opt(acc, b), st1);
        }
    }
}

proof fn lemma_memo_block_ranges(c: Ctx, st: PState)
    requires
        ctx_wf(c),
        0 <= st.pos < c.lines.len(),
        diagnostics_within(st.diags, c.input.len() as int),
    ensures
        ({
            let (b, st1) = memo_block_v(c, st);
            &&& diagnostics_within(st1.diags, c.input.len() as int)
            &&& st.pos < st1.pos <= c.lines.len()
            &&& b.source_range.start == c.lines[st.pos].content_range.start
            &&& range_within(b.source_range, c.input.len() as int)
        }),
{
    let len = c.input.len() as int;
    lemma_line(c, st.pos);
    lemma_memo_loop_ranges(c, c.lines[st.pos], seq![], at_pos(st, st.pos + 1));
    let (res, st1) = memo_v(c, st);
    if let Err(d) = res {
        lemma_push_within(st1.diags, d, len);
    }
    let (b, st2) = memo_block_v(c, st);
    if 1 <= st2.pos <= c.lines.len() {
        lemma_line(c, st2.pos - 1);
        if st2.pos - 1 > st.pos {
            lemma_lines_order(c, st.pos, st2.pos - 1);
        }
    }
}

/// Memo blocks among `v` start no earlier than `lo` and lie in the source.
pub open spec fn memos_from(v: Seq<BlockV>, lo: int, len: int) -> bool {
    forall|i: int|
        0 <= i < v.len() && (#[trigger] v[i]).kind is Memo ==> lo <= v[i].source_range.start
            && range_within(v[i].source_range, len)
}

proof fn lemma_block_ranges(c: Ctx, k: ContentContext, st: PState)
    requires
        ctx_wf(c),
        0 <= st.pos < c.lines.len(),
        diagnostics_within(st.diags, c.input.len() as int),
    ensures
        ({
            let (b, st1) = block_v(c, k, st);
            &&& diagnostics_within(st1.diags, c.input.len() as int)
            &&& st.pos <= st1.pos <= c.lines.len()
            &&& b is Some && b->0.kind is Memo ==> c.lines[st.pos].content_range.start
                <= b->0.source_range.start && range_within(b->0.source_range, c.input.len() as int)
        }),
{
    if super::kind_at(c, st.pos) == Some(TokenKind::MemoStart) && k != ContentContext::Memo {
        lemma_memo_block_ranges(c, st);
    } else {
        lemma_block_plain_ranges(c, k, st);
        let (b, _) = block_plain_v(c, k, st);
        super::clean::lemma_block_plain(c, k, st);
    }
}

proof fn lemma_question_loop_ranges(c: Ctx, acc: Seq<BlockV>, st: PState)
    requires
        ctx_wf(c),
        0 <= st.pos <= c.lines.len(),
        diagnostics_within(st.diags, c.input.len() as int),
    ensures
        ({
            let (_, st1) = question_loop(c, acc, st);
            &&& diagnostics_within(st1.diags, c.input.len() as int)
            &&& st.pos <= st1.pos <= c.lines.len()
        }),
    decreases c.lines.len() - st.pos,
{
    if st.pos < 0 || st.pos >= c.lines.len() || super::kind_at(c, st.pos) == Some(
        TokenKind::AnswerSeparator,
    ) || super::block::is_quiz_boundary_v(super::kind_at(c, st.pos)) {
    } else if super::blank_at(c, st.pos) {
        lemma_question_loop_ranges(c, acc, at_pos(st, st.pos + 1));
    } else {
        let (b, st1) = block_v(c, ContentContext::Question, st);
        lemma_block_ranges(c, ContentContext::Question, st);
        if st.pos < st1.pos <= c.lines.len() {
            lemma_question_loop_ranges(c, push_opt(acc, b), st1);
        }
    }
}

proof fn lemma_answer_loop_ranges(c: Ctx, acc: Seq<BlockV>, st: PState, lo: int)
    requires
        ctx_wf(c),
        0 <= st.pos <= c.lines.len(),
        diagnostics_within(st.diags, c.input.len() as int),
        memos_from(acc, lo, c.input.len() as int),
        st.pos < c.lines.len() ==> lo <= c.lines[st.pos].content_range.start,
    ensures
        ({
            let (r, st1) = answer_loop(c, acc, st);
            &&& diagnostics_within(st1.diags, c.input.len() as int)
            &&& st.pos <= st1.pos <= c.lines.len()
            &&& memos_from(r, lo, c.input.len() as int)
            &&& (st.pos >= c.lines.len() ==> r == acc)
        }),
    decreases c.lines.len() - st.pos,
{
    let len = c.input.len() as int;
    if st.pos < 0 || st.pos >= c.lines.len() || super::block::is_quiz_boundary_v(
        super::kind_at(c, st.pos),
    ) || super::blank_at(c, st.pos) {
    } else {
        let (b, st1) = block_v(c, ContentContext::Answer, st);
        lemma_block_ranges(c, ContentContext::Answer, st);
        let next = push_opt(acc, b);
        assert(memos_from(next, lo, len)) by {
            if let Some(x) = b {
                assert forall|i: int|
                    0 <= i < next.len() && (#[trigger] next[i]).kind is Memo implies lo
                        <= next[i].source_range.start && range_within(next[i].source_range, len) by {
                    if i < acc.len() {
                        assert(next[i] == acc[i]);
                    }
                }
            }
        }
        if st.pos < st1.pos <= c.lines.len() {
            if st1.pos < c.lines.len() {
                lemma_line(c, st.pos);
                lemma_lines_order(c, st.pos, st1.pos);
            }
            lemma_answer_loop_ranges(c, next, st1, lo);
        }
    }
}

// ---------------------------------------------------------------------
// Items and the document.
pub(crate) proof fn lemma_question_section_ranges(c: Ctx, st: PState)
    requires
        ctx_wf(c),
        0 <= st.pos < c.lines.len(),
        c.lines[st.pos].token_start < c.lines[st.pos].token_end,
        diagnostics_within(st.diags, c.input.len() as int),
    ensures
        ({
            let (q, st1) = question_section_v(c, st);
            &&& diagnostics_within(st1.diags, c.input.len() as int)
            &&& st.pos < st1.pos <= c.lines.len()
            &&& range_within(q.missing_separator_range, c.input.len() as int)
            &&& q.content_start <= c.lines[st.pos].full_end
        }),
        ({
            let opening = c.lines[st.pos];
            let m = marker_line_v(c, opening, c.tokens[opening.token_start as int].source_range.end, st).1;
            &&& m.pos == st.pos
            &&& diagnostics_within(m.diags, c.input.len() as int)
        }),
{
    let opening = c.lines[st.pos];
    lemma_line(c, st.pos);
    lemma_first_token(c, st.pos);
    if st.pos + 1 < c.lines.len() {
        lemma_line(c, st.pos + 1);
    }
    let marker = c.tokens[opening.token_start as int];
    let (blocks0, st1) = marker_line_v(c, opening, marker.source_range.end, st);
    if !(opening.token_start + 1 >= opening.token_end) {
        lemma_paragraph_tokens_ranges(
            c,
            opening.token_start + 1,
            opening.token_end as int,
            SourceRange { start: marker.source_range.end, end: opening.content_range.end },
            ContentContext::Question,
            st,
        );
    }
    lemma_question_loop_ranges(c, blocks0, advance_v(c, st1));
}

pub(crate) proof fn lemma_qa_ranges(c: Ctx, st: PState)
    requires
        ctx_wf(c),
        0 <= st.pos < c.lines.len(),
        c.lines[st.pos].token_start < c.lines[st.pos].token_end,
        diagnostics_within(st.diags, c.input.len() as int),
    ensures
        ({
            let (_, st1) = qa_v(c, st);
            &&& diagnostics_within(st1.diags, c.input.len() as int)
            &&& st.pos < st1.pos <= c.lines.len()
        }),
{
    let len = c.input.len() as int;
    let (q, st1) = question_section_v(c, st);
    lemma_question_section_ranges(c, st);
    lemma_line(c, st.pos);
    if st1.pos < c.lines.len() {
        lemma_line(c, st1.pos);
        lemma_lines_order(c, st.pos, st1.pos);
    }
    if super::kind_at(c, st1.pos) != Some(TokenKind::AnswerSeparator) {
        let st2 = super::with_diag(st1, ParseError::MissingAnswerSeparator, q.missing_separator_range);
        lemma_push_within(
            st1.diags,
            Diagnostic { error: ParseError::MissingAnswerSeparator, source_range: q.missing_separator_range },
            len,
        );
        let end = if st2.pos < c.lines.len() {
            c.lines[st2.pos].content_range.start
        } else {
            c.input.len() as usize
        };
        let range = SourceRange { start: q.content_start, end };
        lemma_push_within(st2.diags, Diagnostic { error: ParseError::QaSectionIsMemoOnly, source_range: range }, len);
    } else {
        let separator = c.lines[st1.pos];
        let st2 = at_pos(st1, st1.pos + 1);
        let answer_start = if st2.pos < c.lines.len() {
            c.lines[st2.pos].content_range.start
        } else {
            separator.full_end
        };
        if st2.pos < c.lines.len() {
            lemma_line(c, st2.pos);
        }
        lemma_answer_loop_ranges(c, seq![], st2, answer_start as int);
        let (blocks, st3) = answer_loop(c, seq![], st2);
        let end = if blocks.len() > 0 {
            blocks.last().source_range.end
        } else {
            answer_start
        };
        let question = QuizContentV {
            blocks: q.blocks,
            source_range: SourceRange { start: q.content_start, end: separator.content_range.start },
        };
        let answer = QuizContentV { blocks, source_range: SourceRange { start: answer_start, end } };
        lemma_push_within(
            st3.diags,
            Diagnostic { error: ParseError::QaSectionIsMemoOnly, source_range: question.source_range },
            len,
        );
        let st4 = check_memo_only_v(question, st3);
        if memo_only(blocks) {
            assert(blocks[blocks.len() - 1].kind is Memo);
            assert(range_within(answer.source_range, len));
            lemma_push_within(
                st4.diags,
                Diagnostic { error: ParseError::QaSectionIsMemoOnly, source_range: answer.source_range },
                len,
            );
        }
        let st5 = check_memo_only_v(answer, st4);
        lemma_push_within(
            st5.diags,
            Diagnostic { error: ParseError::EmptyAnswer, source_range: separator.content_range },
            len,
        );
    }
}

pub(crate) proof fn lemma_fold_ranges(c: Ctx, st: PState)
    requires
        ctx_wf(c),
        0 <= st.pos < c.lines.len(),
        c.lines[st.pos].token_start < c.lines[st.pos].token_end,
        diagnostics_within(st.diags, c.input.len() as int),
    ensures
        ({
            let (_, st1) = fold_v(c, st);
            &&& diagnostics_within(st1.diags, c.input.len() as int)
            &&& st.pos < st1.pos <= c.lines.len()
            &&& st1.pos == st.pos + 1
        }),
{
    let line = c.lines[st.pos];
    lemma_line(c, st.pos);
    lemma_first_token(c, st.pos);
    let marker = c.tokens[line.token_start as int];
    let content_range = SourceRange { start: marker.source_range.end, end: line.content_range.end };
    lemma_paragraph_tokens_ranges(
        c,
        line.token_start + 1,
        line.token_end as int,
        content_range,
        ContentContext::Fold,
        st,
    );
    let (content, st1) = super::block::content_tokens_v(
        c,
        line.token_start + 1,
        line.token_end as int,
        content_range,
        st,
    );
    lemma_push_within(
        advance_v(c, st1).diags,
        Diagnostic { error: ParseError::FoldQuizWithoutBlank, source_range: line.content_range },
        c.input.len() as int,
    );
}

proof fn lemma_block_item_ranges(c: Ctx, st: PState)
    requires
        ctx_wf(c),
        0 <= st.pos < c.lines.len(),
        diagnostics_within(st.diags, c.input.len() as int),
    ensures
        ({
            let (_, st1) = block_item_v(c, st);
            &&& diagnostics_within(st1.diags, c.input.len() as int)
            &&& st.pos <= st1.pos <= c.lines.len()
        }),
{
    lemma_block_ranges(c, ContentContext::Document, st);
}

pub(crate) proof fn lemma_document_item_ranges(c: Ctx, st: PState)
    requires
        ctx_wf(c),
        0 <= st.pos < c.lines.len(),
        diagnostics_within(st.diags, c.input.len() as int),
    ensures
        ({
            let (_, st1) = document_item_v(c, st);
            &&& diagnostics_within(st1.diags, c.input.len() as int)
            &&& st.pos <= st1.pos <= c.lines.len()
        }),
{
    match super::kind_at(c, st.pos) {
        Some(TokenKind::QuestionMarker) => lemma_qa_ranges(c, st),
        Some(TokenKind::FoldMarker) => lemma_fold_ranges(c, st),
        Some(TokenKind::MemoStart) => lemma_memo_block_ranges(c, st),
        Some(TokenKind::MemoEnd) => {
            lemma_line(c, st.pos);
            let range = c.lines[st.pos].content_range;
            lemma_push_within(
                st.diags,
                Diagnostic { error: ParseError::UnexpectedMemoEnd, source_range: range },
                c.input.len() as int,
            );
            lemma_block_item_ranges(c, super::with_diag(st, ParseError::UnexpectedMemoEnd, range));
        },
        _ => lemma_block_item_ranges(c, st),
    }
}

proof fn lemma_document_loop_ranges(c: Ctx, acc: Seq<DocumentItemV>, st: PState)
    requires
        ctx_wf(c),
        0 <= st.pos,
        diagnostics_within(st.diags, c.input.len() as int),
    ensures
        diagnostics_within(document_loop(c, acc, st).1.diags, c.input.len() as int),
    decreases c.lines.len() - st.pos,
{
    let p = skip_blank(c, st.pos);
    if st.pos < 0 || p < st.pos || p >= c.lines.len() {
    } else {
        let (item, st1) = document_item_v(c, at_pos(st, p));
        lemma_document_item_ranges(c, at_pos(st, p));
        if p < st1.pos <= c.lines.len() {
            lemma_document_loop_ranges(c, acc.push(item), st1);
        }
    }
}

/// The diagnostics that the document loop reports from the first line lie in
/// the source.
pub proof fn lemma_parse_diagnostics_within(c: Ctx)
    requires
        ctx_wf(c),
    ensures
        diagnostics_within(
            document_loop(c, seq![], super::initial_state()).1.diags,
            c.input.len() as int,
        ),
{
    lemma_document_loop_ranges(c, seq![], super::initial_state());
}

} // verus!
