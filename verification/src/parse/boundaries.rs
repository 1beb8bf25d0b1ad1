//! Where paragraphs and answers end: a line that opens a quiz is never read
//! as the continuation of text outside memo blocks.
use super::block::{
    answer_loop, paragraph_end, paragraph_v, push_opt, qa_v, question_loop, question_section_v,
};
use super::ranges::{
    ctx_wf, diagnostics_within, lemma_document_item_ranges, lemma_fold_ranges, lemma_line,
    lemma_paragraph_ranges, lemma_push_within, lemma_qa_ranges, lemma_question_section_ranges,
};
use super::{
    ContentContext, Ctx, PState, at_pos, blank_at, document_item_v, document_loop,
    initial_state, kind_at, skip_blank, with_diag,
};
use crate::ast::{BlockV, DocumentItemKindV, DocumentItemV, QuizItemKindV};
use crate::diagnostics::Diagnostic;
use crate::errors::ParseError;
use crate::lexer::TokenKind;
use vstd::prelude::*;

verus! {

/// Line `p` starts with a quiz marker, `? ` or `! `.
pub open spec fn opens_quiz(c: Ctx, p: int) -> bool {
    kind_at(c, p) == Some(TokenKind::QuestionMarker) || kind_at(c, p) == Some(TokenKind::FoldMarker)
}

/// Line `p` opens a memo block, a math block or a code fence.
pub open spec fn opens_block(c: Ctx, p: int) -> bool {
    match kind_at(c, p) {
        Some(TokenKind::MemoStart) => true,
        Some(TokenKind::MathBlockDelimiter) => true,
        Some(TokenKind::CodeFenceStart { .. }) => true,
        _ => false,
    }
}

proof fn lemma_paragraph_end_before(c: Ctx, k: ContentContext, p: int, q: int)
    requires
        k != ContentContext::Memo,
        0 <= p <= q,
        opens_quiz(c, q),
    ensures
        paragraph_end(c, k, p) <= q,
    decreases q - p,
{
    if p < q {
        lemma_paragraph_end_before(c, k, p + 1, q);
    }
}

/// Outside memo blocks a paragraph never runs into a line that opens a quiz:
/// it takes at least its first line, and none of the lines it takes after the
/// first starts with `? ` or `! `.
pub proof fn lemma_paragraph_stops_at_quiz_lines(c: Ctx, k: ContentContext, st: PState)
    requires
        ctx_wf(c),
        0 <= st.pos < c.lines.len(),
        diagnostics_within(st.diags, c.input.len() as int),
        k != ContentContext::Memo,
    ensures
        ({
            let st1 = paragraph_v(c, k, st).1;
            &&& st.pos < st1.pos <= c.lines.len()
            &&& forall|q: int| st.pos < q < st1.pos ==> !opens_quiz(c, q)
        }),
{
    lemma_paragraph_ranges(c, k, st);
    let end_pos = paragraph_end(c, k, st.pos + 1);
    assert(paragraph_v(c, k, st).1.pos == end_pos);
    assert forall|q: int| st.pos < q < paragraph_v(c, k, st).1.pos implies !opens_quiz(c, q) by {
        if opens_quiz(c, q) {
            lemma_paragraph_end_before(c, k, st.pos + 1, q);
        }
    }
}

/// An answer ends at the next line that opens a quiz when no memo block, math
/// block or code fence opens before it: the quiz that follows is never taken
/// into the answer.
pub proof fn lemma_answer_ends_at_next_quiz(c: Ctx, acc: Seq<BlockV>, st: PState, q: int)
    requires
        ctx_wf(c),
        diagnostics_within(st.diags, c.input.len() as int),
        0 <= st.pos <= q,
        opens_quiz(c, q),
        forall|p: int| st.pos <= p < q ==> !opens_block(c, p),
    ensures
        answer_loop(c, acc, st).1.pos <= q,
    decreases q - st.pos,
{
    if st.pos < q && !opens_quiz(c, st.pos) && !super::blank_at(c, st.pos) {
        assert(!opens_block(c, st.pos));
        lemma_paragraph_stops_at_quiz_lines(c, ContentContext::Answer, st);
        lemma_paragraph_ranges(c, ContentContext::Answer, st);
        let st1 = paragraph_v(c, ContentContext::Answer, st).1;
        lemma_paragraph_end_before(c, ContentContext::Answer, st.pos + 1, q);
        assert(st1.pos <= q);
        let b = Some(paragraph_v(c, ContentContext::Answer, st).0);
        lemma_answer_ends_at_next_quiz(c, super::block::push_opt(acc, b), st1, q);
    }
}

proof fn lemma_question_ends_at_next_quiz(c: Ctx, acc: Seq<BlockV>, st: PState, q: int)
    requires
        ctx_wf(c),
        diagnostics_within(st.diags, c.input.len() as int),
        0 <= st.pos <= q,
        opens_quiz(c, q),
        forall|p: int| st.pos <= p < q ==> !opens_block(c, p),
    ensures
        question_loop(c, acc, st).1.pos <= q,
    decreases q - st.pos,
{
    if st.pos < q && kind_at(c, st.pos) != Some(TokenKind::AnswerSeparator) && !opens_quiz(c, st.pos) {
        if blank_at(c, st.pos) {
            lemma_question_ends_at_next_quiz(c, acc, at_pos(st, st.pos + 1), q);
        } else {
            assert(!opens_block(c, st.pos));
            lemma_paragraph_ranges(c, ContentContext::Question, st);
            lemma_paragraph_end_before(c, ContentContext::Question, st.pos + 1, q);
            let (b, st1) = paragraph_v(c, ContentContext::Question, st);
            lemma_question_ends_at_next_quiz(c, push_opt(acc, Some(b)), st1, q);
        }
    }
}

/// The item read from a `? ` line is a Q/A quiz that starts with that line.
proof fn lemma_qa_item(c: Ctx, st: PState)
    requires
        kind_at(c, st.pos) == Some(TokenKind::QuestionMarker),
    ensures
        starts_quiz_here(c, qa_v(c, st).0, st.pos),
{
    let (q, st1) = question_section_v(c, st);
    assert(q.quiz_start == c.lines[st.pos].content_range.start);
    if kind_at(c, st1.pos) != Some(TokenKind::AnswerSeparator) {
        assert(qa_v(c, st).0 == super::block::incomplete_qa_v(c, q, st1).0);
    } else {
        let separator = c.lines[st1.pos];
        let st2 = at_pos(st1, st1.pos + 1);
        let answer_start = if st2.pos < c.lines.len() {
            c.lines[st2.pos].content_range.start
        } else {
            separator.full_end
        };
        let (blocks, st3) = answer_loop(c, seq![], st2);
        assert(qa_v(c, st).0 == super::block::complete_qa_v(c, q, separator, answer_start, blocks, st3).0);
    }
}

/// The item read from a `! ` line is a fold quiz that starts with that line.
proof fn lemma_fold_item(c: Ctx, st: PState)
    requires
        kind_at(c, st.pos) == Some(TokenKind::FoldMarker),
    ensures
        starts_quiz_here(c, super::block::fold_v(c, st).0, st.pos),
{
}

/// The quiz item read at line `q` starts a quiz item of the document.
proof fn lemma_item_at_quiz_line(c: Ctx, acc: Seq<DocumentItemV>, st: PState, q: int)
    requires
        ctx_wf(c),
        diagnostics_within(st.diags, c.input.len() as int),
        0 <= st.pos <= q,
        skip_blank(c, st.pos) == q,
        opens_quiz(c, q),
    ensures
        document_loop(c, acc, st).0.len() > acc.len(),
        starts_quiz_here(c, document_loop(c, acc, st).0[acc.len() as int], q),
{
    let s = at_pos(st, q);
    let (item, st1) = document_item_v(c, s);
    if kind_at(c, q) == Some(TokenKind::QuestionMarker) {
        lemma_qa_ranges(c, s);
        lemma_qa_item(c, s);
    } else {
        lemma_fold_ranges(c, s);
        lemma_fold_item(c, s);
    }
    assert(starts_quiz_here(c, item, q));
    lemma_document_loop_extends(c, acc.push(item), st1);
    assert(document_loop(c, acc, st) == document_loop(c, acc.push(item), st1));
    assert(acc.push(item)[acc.len() as int] == item);
}

/// A Q/A quiz ends at the next line that opens a quiz when no memo block,
/// math block or code fence opens before it.
proof fn lemma_qa_ends_at_next_quiz(c: Ctx, st: PState, q: int)
    requires
        ctx_wf(c),
        diagnostics_within(st.diags, c.input.len() as int),
        0 <= st.pos < q,
        kind_at(c, st.pos) == Some(TokenKind::QuestionMarker),
        opens_quiz(c, q),
        forall|p: int| st.pos <= p < q ==> !opens_block(c, p),
    ensures
        qa_v(c, st).1.pos <= q,
{
    lemma_question_section_ranges(c, st);
    let opening = c.lines[st.pos];
    let m = super::block::marker_line_v(
        c,
        opening,
        c.tokens[opening.token_start as int].source_range.end,
        st,
    );
    lemma_question_ends_at_next_quiz(c, m.0, super::advance_v(c, m.1), q);
    let st1 = question_section_v(c, st).1;
    if kind_at(c, st1.pos) == Some(TokenKind::AnswerSeparator) {
        let st2 = at_pos(st1, st1.pos + 1);
        lemma_answer_ends_at_next_quiz(c, seq![], st2, q);
    }
}

/// `item` is a quiz that starts with line `p`: a Q/A quiz when the line
/// starts with `? `, a fold quiz when it starts with `! `.
pub open spec fn starts_quiz_here(c: Ctx, item: DocumentItemV, p: int) -> bool {
    &&& item.kind is Quiz
    &&& item.source_range.start == c.lines[p].content_range.start
    &&& kind_at(c, p) == Some(TokenKind::QuestionMarker) ==> item.kind->Quiz_0.kind is Qa
    &&& kind_at(c, p) == Some(TokenKind::FoldMarker) ==> item.kind->Quiz_0.kind is Fold
}

/// Line `q` opens a quiz and no memo block, math block or code fence opens
/// on an earlier line.
pub open spec fn quiz_line_before_blocks(c: Ctx, q: int) -> bool {
    &&& opens_quiz(c, q)
    &&& forall|p: int| 0 <= p < q ==> !opens_block(c, p)
}

proof fn lemma_skip_blank_to(c: Ctx, p: int, q: int)
    requires
        0 <= p <= q < c.lines.len(),
        !blank_at(c, q),
    ensures
        p <= skip_blank(c, p) <= q,
        !blank_at(c, skip_blank(c, p)),
    decreases q - p,
{
    if p < q && blank_at(c, p) {
        lemma_skip_blank_to(c, p + 1, q);
    }
}

proof fn lemma_document_loop_extends(c: Ctx, acc: Seq<DocumentItemV>, st: PState)
    ensures
        document_loop(c, acc, st).0.len() >= acc.len(),
        forall|i: int| 0 <= i < acc.len() ==> document_loop(c, acc, st).0[i] == acc[i],
    decreases c.lines.len() - st.pos,
{
    let p = skip_blank(c, st.pos);
    if st.pos < 0 || p < st.pos || p >= c.lines.len() {
    } else {
        let (item, st1) = document_item_v(c, at_pos(st, p));
        if p < st1.pos <= c.lines.len() {
            lemma_document_loop_extends(c, acc.push(item), st1);
            assert forall|i: int| 0 <= i < acc.len() implies document_loop(c, acc, st).0[i] == acc[i] by {
                assert(acc.push(item)[i] == acc[i]);
            }
        } else {
            assert forall|i: int| 0 <= i < acc.len() implies document_loop(c, acc, st).0[i] == acc[i] by {
                assert(acc.push(item)[i] == acc[i]);
            }
        }
    }
}

/// What the item read at a line that neither opens a quiz nor a block does to
/// the line position: it moves on, and not past the next quiz line.
proof fn lemma_plain_item_ends_at_next_quiz(c: Ctx, st: PState, q: int)
    requires
        ctx_wf(c),
        diagnostics_within(st.diags, c.input.len() as int),
        0 <= st.pos < q,
        !blank_at(c, st.pos),
        !opens_quiz(c, st.pos),
        !opens_block(c, st.pos),
        opens_quiz(c, q),
    ensures
        st.pos < document_item_v(c, st).1.pos <= q,
{
    let s0 = if kind_at(c, st.pos) == Some(TokenKind::MemoEnd) {
        lemma_line(c, st.pos);
        lemma_push_within(
            st.diags,
            Diagnostic { error: ParseError::UnexpectedMemoEnd, source_range: c.lines[st.pos].content_range },
            c.input.len() as int,
        );
        with_diag(st, ParseError::UnexpectedMemoEnd, c.lines[st.pos].content_range)
    } else {
        st
    };
    lemma_paragraph_ranges(c, ContentContext::Document, s0);
    lemma_paragraph_end_before(c, ContentContext::Document, st.pos + 1, q);
}

/// Quiz lines before any block: outside memo blocks, math blocks and code
/// fences, every line that opens a quiz starts a quiz item of its own, a Q/A
/// quiz for `? ` and a fold quiz for `! `; no paragraph, question or answer
/// takes it in.
#[verifier::rlimit(40)]
pub proof fn lemma_quiz_lines_start_quiz_items(c: Ctx, acc: Seq<DocumentItemV>, st: PState, q: int)
    requires
        ctx_wf(c),
        diagnostics_within(st.diags, c.input.len() as int),
        0 <= st.pos <= q,
        opens_quiz(c, q),
        forall|p: int| st.pos <= p < q ==> !opens_block(c, p),
    ensures
        exists|i: int|
            acc.len() <= i < document_loop(c, acc, st).0.len() && starts_quiz_here(
                c,
                #[trigger] document_loop(c, acc, st).0[i],
                q,
            ),
    decreases q - st.pos,
{
    let p = skip_blank(c, st.pos);
    lemma_skip_blank_to(c, st.pos, q);
    let s = at_pos(st, p);
    let (item, st1) = document_item_v(c, s);
    lemma_document_item_ranges(c, s);
    if p == q {
        lemma_item_at_quiz_line(c, acc, st, q);
        let r = document_loop(c, acc, st).0;
        assert(starts_quiz_here(c, r[acc.len() as int], q));
    } else {
        if kind_at(c, p) == Some(TokenKind::QuestionMarker) {
            lemma_qa_ranges(c, s);
            lemma_qa_ends_at_next_quiz(c, s, q);
        } else if kind_at(c, p) == Some(TokenKind::FoldMarker) {
            lemma_fold_ranges(c, s);
        } else {
            lemma_plain_item_ends_at_next_quiz(c, s, q);
        }
        assert(p < st1.pos <= q);
        lemma_quiz_lines_start_quiz_items(c, acc.push(item), st1, q);
        let r = document_loop(c, acc, st).0;
        let i = choose|i: int|
            acc.push(item).len() <= i < r.len() && starts_quiz_here(c, #[trigger] r[i], q);
        assert(acc.len() <= i < r.len() && starts_quiz_here(c, r[i], q));
    }
}

/// In a document read from its first line, every line that opens a quiz
/// before any memo block, math block or code fence opens starts a quiz item:
/// `k` such lines give at least `k` quiz items, each starting at its line.
pub proof fn lemma_document_quiz_items(c: Ctx)
    requires
        ctx_wf(c),
    ensures
        forall|q: int|
            quiz_line_before_blocks(c, q) ==> exists|i: int|
                0 <= i < document_loop(c, seq![], initial_state()).0.len() && starts_quiz_here(
                    c,
                    #[trigger] document_loop(c, seq![], initial_state()).0[i],
                    q,
                ),
{
    assert forall|q: int| quiz_line_before_blocks(c, q) implies exists|i: int|
        0 <= i < document_loop(c, seq![], initial_state()).0.len() && starts_quiz_here(
            c,
            #[trigger] document_loop(c, seq![], initial_state()).0[i],
            q,
        ) by {
        assert(diagnostics_within(initial_state().diags, c.input.len() as int));
        lemma_quiz_lines_start_quiz_items(c, seq![], initial_state(), q);
    }
}

} // verus!
