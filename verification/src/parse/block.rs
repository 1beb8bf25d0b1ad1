//! Block-level grammar: quizzes, memo blocks, math and code fences, paragraphs.
use super::cursor::{LexedLine, line_wf};
use super::inline::{has_fold_blank, inlines_view, spec_inlines, text_of};
use super::{
    ContentContext, Ctx, PState, Parser, advance_v, at_pos, blank_at, kind_at, with_diag,
};
use crate::ast::{
    Block, BlockKind, BlockKindV, BlockV, CodeBlock, CodeBlockV, DocumentItem, DocumentItemKind,
    DocumentItemKindV, DocumentItemV, FoldQuiz, FoldQuizV, MathBlock, MemoBlock, MemoBlockV,
    MermaidBlock, Paragraph, ParagraphV, QaQuiz, QaQuizV, QuizContent, QuizContentV, QuizItem,
    QuizItemKind, QuizItemKindV, QuizItemV,
};
use crate::diagnostics::Diagnostic;
use crate::errors::ParseError;
use crate::lexer::{TokenKind, token_wf};
use crate::source::SourceRange;
use crate::text::{bytes_are, bytes_equal, range_text, source_text};
use vstd::prelude::*;

verus! {

// ---------------------------------------------------------------------
// Specification.
pub open spec fn blocks_view(v: Seq<Block>) -> Seq<BlockV> {
    v.map_values(|b: Block| b@)
}

pub open spec fn push_opt(acc: Seq<BlockV>, b: Option<BlockV>) -> Seq<BlockV> {
    match b {
        Some(x) => acc.push(x),
        None => acc,
    }
}

/// The line's first token ends the paragraph being read in context `k`.
pub open spec fn is_block_boundary_v(kind: Option<TokenKind>, k: ContentContext) -> bool {
    match kind {
        Some(TokenKind::MathBlockDelimiter) => true,
        Some(TokenKind::CodeFenceStart { .. }) => true,
        Some(TokenKind::MemoStart) => true,
        Some(TokenKind::MemoEnd) => true,
        Some(TokenKind::AnswerSeparator) => k == ContentContext::Question,
        Some(TokenKind::QuestionMarker) => k != ContentContext::Memo,
        Some(TokenKind::FoldMarker) => k != ContentContext::Memo,
        _ => false,
    }
}

pub open spec fn is_quiz_boundary_v(kind: Option<TokenKind>) -> bool {
    kind == Some(TokenKind::QuestionMarker) || kind == Some(TokenKind::FoldMarker)
}

/// First line at or after `p` that does not continue a paragraph.
pub open spec fn paragraph_end(c: Ctx, k: ContentContext, p: int) -> int
    decreases c.lines.len() - p,
{
    if 0 <= p < c.lines.len() && !blank_at(c, p) && !is_block_boundary_v(kind_at(c, p), k) {
        paragraph_end(c, k, p + 1)
    } else {
        p
    }
}

pub open spec fn paragraph_block_v(inlines: Seq<super::super::ast::InlineV>, range: SourceRange) -> BlockV {
    BlockV {
        kind: BlockKindV::Paragraph(ParagraphV { inlines, source_range: range }),
        source_range: range,
    }
}

pub open spec fn paragraph_from_tokens_v(
    c: Ctx,
    token_start: int,
    token_end: int,
    range: SourceRange,
    k: ContentContext,
    st: PState,
) -> (BlockV, PState) {
    let (inlines, st1) = spec_inlines(c, c.tokens.subrange(token_start, token_end), k, st);
    (paragraph_block_v(inlines, range), st1)
}

/// Paragraph <- Inline* (NEWLINE Inline*)*
pub open spec fn paragraph_v(c: Ctx, k: ContentContext, st: PState) -> (BlockV, PState) {
    let first = c.lines[st.pos];
    let end_pos = paragraph_end(c, k, st.pos + 1);
    let last = c.lines[end_pos - 1];
    let start = if first.token_start < c.tokens.len() {
        c.tokens[first.token_start as int].source_range.start
    } else {
        first.content_range.start
    };
    paragraph_from_tokens_v(
        c,
        first.token_start as int,
        last.token_end as int,
        SourceRange { start, end: last.content_range.end },
        k,
        at_pos(st, end_pos),
    )
}

/// First line at or after `p` whose first token is `kind`.
pub open spec fn seek_pos(c: Ctx, kind: TokenKind, p: int) -> int
    decreases c.lines.len() - p,
{
    if 0 <= p < c.lines.len() && kind_at(c, p) != Some(kind) {
        seek_pos(c, kind, p + 1)
    } else {
        p
    }
}

/// `b` with trailing carriage returns and line feeds of `a..b` removed.
pub open spec fn trim_line_breaks(s: Seq<u8>, a: int, b: int) -> int
    decreases b - a,
{
    if b > a && (s[b - 1] == 13u8 || s[b - 1] == 10u8) {
        trim_line_breaks(s, a, b - 1)
    } else {
        b
    }
}

/// A block from the current line to the next line starting with `close`: its
/// body text and range, or a diagnostic when the block is not closed.
pub open spec fn delimited_v(c: Ctx, close: TokenKind, st: PState) -> (
    Option<(Seq<char>, SourceRange)>,
    PState,
) {
    let opening = c.lines[st.pos];
    let p = seek_pos(c, close, st.pos + 1);
    if p >= c.lines.len() {
        (
            None,
            with_diag(
                at_pos(st, p),
                ParseError::UnclosedBlock,
                SourceRange {
                    start: opening.content_range.start,
                    end: super::last_content_end(c.tokens, c.tokens.len() as int) as usize,
                },
            ),
        )
    } else {
        let closing = c.lines[p];
        let body_end = trim_line_breaks(
            c.input,
            opening.full_end as int,
            closing.content_range.start as int,
        );
        (
            Some(
                (
                    source_text(c.input.subrange(opening.full_end as int, body_end)),
                    SourceRange { start: opening.content_range.start, end: closing.full_end },
                ),
            ),
            at_pos(st, p + 1),
        )
    }
}

/// MathBlock <- MATH_BLOCK_DELIMITER Raw* MATH_BLOCK_DELIMITER
pub open spec fn math_block_v(c: Ctx, st: PState) -> (Option<BlockV>, PState) {
    let (d, st1) = delimited_v(c, TokenKind::MathBlockDelimiter, st);
    match d {
        Some((body, range)) => (
            Some(BlockV { kind: BlockKindV::MathBlock(body), source_range: range }),
            st1,
        ),
        None => (None, st1),
    }
}

pub open spec fn pat_mermaid() -> Seq<u8> {
    seq![109u8, 101u8, 114u8, 109u8, 97u8, 105u8, 100u8]
}

pub open spec fn pat_mmd() -> Seq<u8> {
    seq![109u8, 109u8, 100u8]
}

pub open spec fn pat_math() -> Seq<u8> {
    seq![109u8, 97u8, 116u8, 104u8]
}

/// A fence whose info string is `math` holds a math block, one whose info
/// string is `mermaid` or `mmd` holds a diagram; any other fence holds code in
/// the language its info string names.
pub open spec fn fence_kind_v(c: Ctx, info: Option<SourceRange>, body: Seq<char>) -> BlockKindV {
    match info {
        Some(r) => if bytes_are(c.input, r.start as int, r.end as int, pat_math()) {
            BlockKindV::MathBlock(body)
        } else if bytes_are(c.input, r.start as int, r.end as int, pat_mermaid()) || bytes_are(
            c.input,
            r.start as int,
            r.end as int,
            pat_mmd(),
        ) {
            BlockKindV::MermaidBlock(body)
        } else {
            BlockKindV::CodeBlock(CodeBlockV { language: Some(text_of(c, r)), source: body })
        },
        None => BlockKindV::CodeBlock(CodeBlockV { language: None, source: body }),
    }
}

/// FencedBlock <- CODE_FENCE_START Raw* CODE_FENCE_END
pub open spec fn fenced_block_v(c: Ctx, st: PState) -> (Option<BlockV>, PState) {
    let opening = c.tokens[c.lines[st.pos].token_start as int];
    match opening.kind {
        TokenKind::CodeFenceStart { info } => {
            let (d, st1) = delimited_v(c, TokenKind::CodeFenceEnd, st);
            match d {
                Some((body, range)) => (
                    Some(BlockV { kind: fence_kind_v(c, info, body), source_range: range }),
                    st1,
                ),
                None => (None, st1),
            }
        },
        _ => (None, st),
    }
}

/// Position after the next `@end` from `p` on, or the end of the lines.
pub open spec fn recover_memo_pos(c: Ctx, p: int) -> int
    decreases c.lines.len() - p,
{
    if 0 <= p < c.lines.len() {
        if kind_at(c, p) == Some(TokenKind::MemoEnd) {
            p + 1
        } else {
            recover_memo_pos(c, p + 1)
        }
    } else {
        p
    }
}

/// A block that is not a memo block: math block, fenced block, or paragraph.
pub open spec fn block_plain_v(c: Ctx, k: ContentContext, st: PState) -> (Option<BlockV>, PState) {
    match kind_at(c, st.pos) {
        Some(TokenKind::MathBlockDelimiter) => math_block_v(c, st),
        Some(TokenKind::CodeFenceStart { .. }) => fenced_block_v(c, st),
        _ => {
            let (b, st1) = paragraph_v(c, k, st);
            (Some(b), st1)
        },
    }
}

/// MemoBody <- (BlankLine / MathBlock / FencedBlock / Paragraph)* MEMO_END
pub open spec fn memo_loop(c: Ctx, opening: LexedLine, acc: Seq<BlockV>, st: PState) -> (
    Result<Seq<BlockV>, Diagnostic>,
    PState,
)
    decreases c.lines.len() - st.pos,
{
    if st.pos < 0 || st.pos >= c.lines.len() {
        (
            Err(
                Diagnostic {
                    error: ParseError::UnclosedMemo,
                    source_range: SourceRange {
                        start: opening.content_range.start,
                        end: c.input.len() as usize,
                    },
                },
            ),
            st,
        )
    } else if kind_at(c, st.pos) == Some(TokenKind::MemoEnd) {
        (Ok(acc), at_pos(st, st.pos + 1))
    } else if kind_at(c, st.pos) == Some(TokenKind::MemoStart) {
        (
            Err(
                Diagnostic {
                    error: ParseError::NestedMemo,
                    source_range: c.lines[st.pos].content_range,
                },
            ),
            at_pos(st, recover_memo_pos(c, st.pos)),
        )
    } else if blank_at(c, st.pos) {
        memo_loop(c, opening, acc, at_pos(st, st.pos + 1))
    } else {
        let (b, st1) = block_plain_v(c, ContentContext::Memo, st);
        if st.pos < st1.pos <= c.lines.len() {
            memo_loop(c, opening, push_opt(acc, b), st1)
        } else {
            (Ok(push_opt(acc, b)), st1)
        }
    }
}

pub open spec fn memo_v(c: Ctx, st: PState) -> (Result<Seq<BlockV>, Diagnostic>, PState) {
    memo_loop(c, c.lines[st.pos], seq![], at_pos(st, st.pos + 1))
}

/// MemoBlock <- MEMO_START MemoBody MEMO_END. A memo block that fails keeps
/// neither the blocks nor the image references read inside it.
pub open spec fn memo_block_v(c: Ctx, st: PState) -> (BlockV, PState) {
    let start = c.lines[st.pos].content_range.start;
    let (res, st1) = memo_v(c, st);
    let (blocks, st2) = match res {
        Ok(b) => (b, st1),
        Err(d) => (seq![], PState { diags: st1.diags.push(d), refs: st.refs, ..st1 }),
    };
    let end = if 1 <= st2.pos <= c.lines.len() {
        c.lines[st2.pos - 1].full_end
    } else {
        start
    };
    let range = SourceRange { start, end };
    (
        BlockV { kind: BlockKindV::Memo(MemoBlockV { blocks, source_range: range }), source_range: range },
        st2,
    )
}

/// Block <- MemoBlock / MathBlock / FencedBlock / Paragraph
pub open spec fn block_v(c: Ctx, k: ContentContext, st: PState) -> (Option<BlockV>, PState) {
    if kind_at(c, st.pos) == Some(TokenKind::MemoStart) && k != ContentContext::Memo {
        let (b, st1) = memo_block_v(c, st);
        (Some(b), st1)
    } else {
        block_plain_v(c, k, st)
    }
}

pub open spec fn question_loop(c: Ctx, acc: Seq<BlockV>, st: PState) -> (Seq<BlockV>, PState)
    decreases c.lines.len() - st.pos,
{
    if st.pos < 0 || st.pos >= c.lines.len() || kind_at(c, st.pos) == Some(
        TokenKind::AnswerSeparator,
    ) || is_quiz_boundary_v(kind_at(c, st.pos)) {
        (acc, st)
    } else if blank_at(c, st.pos) {
        question_loop(c, acc, at_pos(st, st.pos + 1))
    } else {
        let (b, st1) = block_v(c, ContentContext::Question, st);
        if st.pos < st1.pos <= c.lines.len() {
            question_loop(c, push_opt(acc, b), st1)
        } else {
            (push_opt(acc, b), st1)
        }
    }
}

pub open spec fn answer_loop(c: Ctx, acc: Seq<BlockV>, st: PState) -> (Seq<BlockV>, PState)
    decreases c.lines.len() - st.pos,
{
    if st.pos < 0 || st.pos >= c.lines.len() || is_quiz_boundary_v(kind_at(c, st.pos)) || blank_at(
        c,
        st.pos,
    ) {
        (acc, st)
    } else {
        let (b, st1) = block_v(c, ContentContext::Answer, st);
        if st.pos < st1.pos <= c.lines.len() {
            answer_loop(c, push_opt(acc, b), st1)
        } else {
            (push_opt(acc, b), st1)
        }
    }
}

pub open spec fn marker_line_v(c: Ctx, line: LexedLine, content_start: usize, st: PState) -> (
    Seq<BlockV>,
    PState,
) {
    if line.token_start + 1 >= line.token_end {
        (seq![], st)
    } else {
        let (b, st1) = paragraph_from_tokens_v(
            c,
            line.token_start + 1,
            line.token_end as int,
            SourceRange { start: content_start, end: line.content_range.end },
            ContentContext::Question,
            st,
        );
        (seq![b], st1)
    }
}

pub struct QuestionSectionV {
    pub quiz_start: usize,
    pub content_start: usize,
    pub missing_separator_range: SourceRange,
    pub blocks: Seq<BlockV>,
}

pub open spec fn question_section_v(c: Ctx, st: PState) -> (QuestionSectionV, PState) {
    let opening = c.lines[st.pos];
    let marker = c.tokens[opening.token_start as int];
    let missing = if st.pos + 1 < c.lines.len() {
        c.lines[st.pos + 1].content_range
    } else {
        SourceRange { start: marker.source_range.end, end: marker.source_range.end }
    };
    let (blocks0, st1) = marker_line_v(c, opening, marker.source_range.end, st);
    let (blocks, st2) = question_loop(c, blocks0, advance_v(c, st1));
    (
        QuestionSectionV {
            quiz_start: opening.content_range.start,
            content_start: marker.source_range.end,
            missing_separator_range: missing,
            blocks,
        },
        st2,
    )
}

/// A section holds blocks and every one of them is a memo block.
pub open spec fn memo_only(blocks: Seq<BlockV>) -> bool {
    blocks.len() > 0 && forall|i: int| 0 <= i < blocks.len() ==> (#[trigger] blocks[i]).kind is Memo
}

pub open spec fn check_memo_only_v(content: QuizContentV, st: PState) -> PState {
    if memo_only(content.blocks) {
        with_diag(st, ParseError::QaSectionIsMemoOnly, content.source_range)
    } else {
        st
    }
}

pub open spec fn quiz_item_v(kind: QuizItemKindV, range: SourceRange) -> DocumentItemV {
    DocumentItemV {
        kind: DocumentItemKindV::Quiz(QuizItemV { kind, source_range: range }),
        source_range: range,
    }
}

pub open spec fn qa_item_v(question: QuizContentV, answer: QuizContentV, start: usize, end: usize) -> DocumentItemV {
    let range = SourceRange { start, end };
    quiz_item_v(QuizItemKindV::Qa(QaQuizV { question, answer, source_range: range }), range)
}

pub open spec fn incomplete_qa_v(c: Ctx, q: QuestionSectionV, st: PState) -> (DocumentItemV, PState) {
    let st1 = with_diag(st, ParseError::MissingAnswerSeparator, q.missing_separator_range);
    let end = if st1.pos < c.lines.len() {
        c.lines[st1.pos].content_range.start
    } else {
        c.input.len() as usize
    };
    let question = QuizContentV {
        blocks: q.blocks,
        source_range: SourceRange { start: q.content_start, end },
    };
    let answer = QuizContentV { blocks: seq![], source_range: SourceRange { start: end, end } };
    (qa_item_v(question, answer, q.quiz_start, end), check_memo_only_v(question, st1))
}

pub open spec fn complete_qa_v(
    c: Ctx,
    q: QuestionSectionV,
    separator: LexedLine,
    answer_start: usize,
    blocks: Seq<BlockV>,
    st: PState,
) -> (DocumentItemV, PState) {
    let end = if blocks.len() > 0 {
        blocks.last().source_range.end
    } else {
        answer_start
    };
    let question = QuizContentV {
        blocks: q.blocks,
        source_range: SourceRange { start: q.content_start, end: separator.content_range.start },
    };
    let answer = QuizContentV { blocks, source_range: SourceRange { start: answer_start, end } };
    let st1 = check_memo_only_v(answer, check_memo_only_v(question, st));
    let st2 = if blocks.len() == 0 {
        with_diag(st1, ParseError::EmptyAnswer, separator.content_range)
    } else {
        st1
    };
    (qa_item_v(question, answer, q.quiz_start, end), st2)
}

/// QaQuiz <- QUESTION_MARKER Inline* Block* ANSWER_SEPARATOR Block*
pub open spec fn qa_v(c: Ctx, st: PState) -> (DocumentItemV, PState) {
    let (q, st1) = question_section_v(c, st);
    if kind_at(c, st1.pos) != Some(TokenKind::AnswerSeparator) {
        incomplete_qa_v(c, q, st1)
    } else {
        let separator = c.lines[st1.pos];
        let st2 = at_pos(st1, st1.pos + 1);
        let answer_start = if st2.pos < c.lines.len() {
            c.lines[st2.pos].content_range.start
        } else {
            separator.full_end
        };
        let (blocks, st3) = answer_loop(c, seq![], st2);
        complete_qa_v(c, q, separator, answer_start, blocks, st3)
    }
}

pub open spec fn content_tokens_v(
    c: Ctx,
    token_start: int,
    token_end: int,
    range: SourceRange,
    st: PState,
) -> (QuizContentV, PState) {
    let (inlines, st1) = spec_inlines(
        c,
        c.tokens.subrange(token_start, token_end),
        ContentContext::Fold,
        st,
    );
    (QuizContentV { blocks: seq![paragraph_block_v(inlines, range)], source_range: range }, st1)
}

/// Some paragraph of the content holds a fold blank.
pub open spec fn contains_fold_blank_v(content: QuizContentV) -> bool {
    exists|i: int|
        0 <= i < content.blocks.len() && (#[trigger] content.blocks[i]).kind is Paragraph
            && has_fold_blank(content.blocks[i].kind->Paragraph_0.inlines)
}

/// FoldQuiz <- FOLD_MARKER Inline* FoldBlank Inline*
pub open spec fn fold_v(c: Ctx, st: PState) -> (DocumentItemV, PState) {
    let line = c.lines[st.pos];
    let marker = c.tokens[line.token_start as int];
    let range = SourceRange { start: line.content_range.start, end: line.full_end };
    let content_range = SourceRange { start: marker.source_range.end, end: line.content_range.end };
    let (content, st1) = content_tokens_v(
        c,
        line.token_start + 1,
        line.token_end as int,
        content_range,
        st,
    );
    let st2 = advance_v(c, st1);
    let st3 = if contains_fold_blank_v(content) {
        st2
    } else {
        with_diag(st2, ParseError::FoldQuizWithoutBlank, line.content_range)
    };
    (quiz_item_v(QuizItemKindV::Fold(FoldQuizV { content, source_range: range }), range), st3)
}

/// A memo block standing at the top level of the document.
pub open spec fn memo_item_v(c: Ctx, st: PState) -> (DocumentItemV, PState) {
    let (b, st1) = memo_block_v(c, st);
    (DocumentItemV { kind: DocumentItemKindV::Block(b), source_range: b.source_range }, st1)
}

pub open spec fn empty_paragraph_v(position: usize) -> BlockV {
    paragraph_block_v(seq![], SourceRange { start: position, end: position })
}

/// BlockItem <- Block
pub open spec fn block_item_v(c: Ctx, st: PState) -> (DocumentItemV, PState) {
    let start = c.lines[st.pos].content_range.start;
    let (b, st1) = block_v(c, ContentContext::Document, st);
    let block = match b {
        Some(x) => x,
        None => empty_paragraph_v(start),
    };
    (DocumentItemV { kind: DocumentItemKindV::Block(block), source_range: block.source_range }, st1)
}

pub open spec fn opt_block_view(b: Option<Block>) -> Option<BlockV> {
    match b {
        Some(x) => Some(x@),
        None => None,
    }
}

pub open spec fn quiz_kind_view(k: QuizItemKind) -> QuizItemKindV {
    match k {
        QuizItemKind::Qa(q) => QuizItemKindV::Qa(q@),
        QuizItemKind::Fold(f) => QuizItemKindV::Fold(f@),
    }
}

// ---------------------------------------------------------------------
// Implementation.
/// What the question part of a Q/A quiz has gathered before its separator.
struct QuestionSection {
    quiz_start: usize,
    content_start: usize,
    missing_separator_range: SourceRange,
    blocks: Vec<Block>,
}

impl View for QuestionSection {
    type V = QuestionSectionV;

    closed spec fn view(&self) -> QuestionSectionV {
        QuestionSectionV {
            quiz_start: self.quiz_start,
            content_start: self.content_start,
            missing_separator_range: self.missing_separator_range,
            blocks: blocks_view(self.blocks@),
        }
    }
}

/// `end` with the trailing carriage returns and line feeds of `start..end` removed.
fn trim_line_breaks_at(s: &[u8], start: usize, end: usize) -> (r: usize)
    requires
        start <= end <= s@.len(),
    ensures
        r as int == trim_line_breaks(s@, start as int, end as int),
        start <= r <= end,
{
    let mut e = end;
    while e > start && (s[e - 1] == 13u8 || s[e - 1] == 10u8)
        invariant
            start <= e <= end <= s@.len(),
            trim_line_breaks(s@, start as int, e as int) == trim_line_breaks(
                s@,
                start as int,
                end as int,
            ),
        decreases e,
    {
        e = e - 1;
    }
    e
}

/// Appends the block, if there is one.
fn push_block(blocks: &mut Vec<Block>, block: Option<Block>)
    ensures
        blocks_view(final(blocks)@) == push_opt(blocks_view(old(blocks)@), opt_block_view(block)),
{
    if let Some(b) = block {
        let ghost before = blocks@;
        let ghost bv = b@;
        blocks.push(b);
        assert(blocks_view(blocks@) =~= blocks_view(before).push(bv));
    }
}

impl<'a> Parser<'a> {
    /// Moves to the first line at or after the cursor whose first token is
    /// `kind`; tells whether there is one.
    fn seek(&mut self, kind: TokenKind) -> (r: bool)
        requires
            old(self).inv(),
        ensures
            final(self).inv(),
            final(self).ctx() == old(self).ctx(),
            final(self).state() == at_pos(
                old(self).state(),
                seek_pos(old(self).ctx(), kind, old(self).cursor.position as int),
            ),
            r == (final(self).cursor.position < final(self).cursor.lines@.len()),
            old(self).cursor.position <= final(self).cursor.position,
    {
        let ghost c = self.ctx();
        while !self.cursor.eof() && !self.current_is(kind)
            invariant
                self.inv(),
                self.ctx() == c,
                c == old(self).ctx(),
                self.diagnostics@ == old(self).diagnostics@,
                self.references@ == old(self).references@,
                old(self).cursor.position <= self.cursor.position,
                seek_pos(c, kind, self.cursor.position as int) == seek_pos(
                    c,
                    kind,
                    old(self).cursor.position as int,
                ),
            decreases self.cursor.lines@.len() - self.cursor.position,
        {
            self.cursor.advance();
        }
        !self.cursor.eof()
    }

    fn report_unclosed_block(&mut self, start: usize)
        requires
            old(self).inv(),
        ensures
            final(self).inv(),
            final(self).ctx() == old(self).ctx(),
            final(self).state() == with_diag(
                old(self).state(),
                ParseError::UnclosedBlock,
                SourceRange {
                    start,
                    end: super::last_content_end(
                        old(self).tokens@,
                        old(self).tokens@.len() as int,
                    ) as usize,
                },
            ),
    {
        let end = self.source_content_end();
        self.diagnostics.push(Diagnostic::new(ParseError::UnclosedBlock, SourceRange::new(start, end)));
    }

    /// From the current line to the next line starting with `closing_kind`:
    /// the text between them and the range they cover.
    fn consume_delimited_block(&mut self, closing_kind: TokenKind) -> (r: Option<(String, SourceRange)>)
        requires
            old(self).inv(),
            old(self).cursor.position < old(self).cursor.lines@.len(),
        ensures
            final(self).inv(),
            final(self).ctx() == old(self).ctx(),
            old(self).cursor.position < final(self).cursor.position,
            ((match r {
                Some(v) => Some((v.0@, v.1)),
                None => None,
            }), final(self).state()) == delimited_v(old(self).ctx(), closing_kind, old(self).state()),
    {
        let ghost c = self.ctx();
        let ghost p0 = self.cursor.position as int;
        let opening = self.current_line();
        self.cursor.advance();
        if !self.seek(closing_kind) {
            self.report_unclosed_block(opening.content_range.start);
            return None;
        }
        let ghost p = self.cursor.position as int;
        let closing = self.current_line();
        self.cursor.advance();
        assert(c.lines[p0].full_end <= c.lines[p].content_range.start);
        assert(line_wf(c.lines[p], c.tokens, c.input.len() as int));
        let body_end = trim_line_breaks_at(self.input, opening.full_end, closing.content_range.start);
        let body = range_text(self.input, opening.full_end, body_end);
        Some((body, SourceRange::new(opening.content_range.start, closing.full_end)))
    }

    /// MathBlock <- MATH_BLOCK_DELIMITER Raw* MATH_BLOCK_DELIMITER
    fn parse_math_block(&mut self) -> (r: Option<Block>)
        requires
            old(self).inv(),
            old(self).cursor.position < old(self).cursor.lines@.len(),
        ensures
            final(self).inv(),
            final(self).ctx() == old(self).ctx(),
            old(self).cursor.position < final(self).cursor.position,
            (opt_block_view(r), final(self).state()) == math_block_v(old(self).ctx(), old(self).state()),
    {
        match self.consume_delimited_block(TokenKind::MathBlockDelimiter) {
            Some((body, range)) => Some(Block::new(BlockKind::MathBlock(MathBlock { source: body }), range)),
            None => None,
        }
    }

    /// FencedBlock <- CODE_FENCE_START Raw* CODE_FENCE_END
    fn parse_fenced_block(&mut self) -> (r: Option<Block>)
        requires
            old(self).inv(),
            kind_at(old(self).ctx(), old(self).cursor.position as int) matches Some(
                TokenKind::CodeFenceStart { .. },
            ),
        ensures
            final(self).inv(),
            final(self).ctx() == old(self).ctx(),
            old(self).cursor.position < final(self).cursor.position,
            (opt_block_view(r), final(self).state()) == fenced_block_v(old(self).ctx(), old(self).state()),
    {
        let line = self.current_line();
        assert(line_wf(line, self.tokens@, self.input@.len() as int));
        let opening = self.tokens[line.token_start];
        assert(token_wf(self.tokens@[line.token_start as int], self.input@.len() as int));
        let info = match opening.kind {
            TokenKind::CodeFenceStart { info } => info,
            _ => {
                return None;
            },
        };
        let (is_math, is_diagram, language) = match info {
            Some(range) => (
                bytes_equal(self.input, range.start, range.end, &[109u8, 97u8, 116u8, 104u8]),
                bytes_equal(self.input, range.start, range.end, &[109u8, 101u8, 114u8, 109u8, 97u8, 105u8, 100u8])
                    || bytes_equal(self.input, range.start, range.end, &[109u8, 109u8, 100u8]),
                Some(range_text(self.input, range.start, range.end)),
            ),
            None => (false, false, None),
        };
        match self.consume_delimited_block(TokenKind::CodeFenceEnd) {
            Some((body, range)) => {
                let kind = if is_math {
                    BlockKind::MathBlock(MathBlock { source: body })
                } else if is_diagram {
                    BlockKind::MermaidBlock(MermaidBlock { source: body })
                } else {
                    BlockKind::CodeBlock(CodeBlock { language, source: body })
                };
                Some(Block::new(kind, range))
            },
            None => None,
        }
    }

    /// The line's first token ends a paragraph read in `context`.
    fn is_block_boundary(&self, context: ContentContext) -> (r: bool)
        requires
            self.inv(),
        ensures
            r == is_block_boundary_v(kind_at(self.ctx(), self.cursor.position as int), context),
            context != ContentContext::Memo && (kind_at(self.ctx(), self.cursor.position as int)
                == Some(TokenKind::QuestionMarker) || kind_at(self.ctx(), self.cursor.position as int)
                == Some(TokenKind::FoldMarker)) ==> r,
    {
        match self.current_kind() {
            Some(TokenKind::MathBlockDelimiter) => true,
            Some(TokenKind::CodeFenceStart { .. }) => true,
            Some(TokenKind::MemoStart) => true,
            Some(TokenKind::MemoEnd) => true,
            Some(TokenKind::AnswerSeparator) => context == ContentContext::Question,
            Some(TokenKind::QuestionMarker) => context != ContentContext::Memo,
            Some(TokenKind::FoldMarker) => context != ContentContext::Memo,
            _ => false,
        }
    }

    /// The line starts a new quiz.
    fn is_quiz_boundary(&self) -> (r: bool)
        requires
            self.inv(),
        ensures
            r == is_quiz_boundary_v(kind_at(self.ctx(), self.cursor.position as int)),
    {
        match self.current_kind() {
            Some(TokenKind::QuestionMarker) => true,
            Some(TokenKind::FoldMarker) => true,
            _ => false,
        }
    }

    /// A paragraph of the inlines of tokens `token_start..token_end`.
    fn paragraph_from_tokens(
        &mut self,
        token_start: usize,
        token_end: usize,
        range: SourceRange,
        context: ContentContext,
    ) -> (r: Block)
        requires
            old(self).inv(),
            token_start <= token_end <= old(self).tokens@.len(),
        ensures
            final(self).inv(),
            final(self).ctx() == old(self).ctx(),
            final(self).cursor.position == old(self).cursor.position,
            (r@, final(self).state()) == paragraph_from_tokens_v(
                old(self).ctx(),
                token_start as int,
                token_end as int,
                range,
                context,
                old(self).state(),
            ),
    {
        let inlines = self.parse_inlines_range(token_start, token_end, context);
        let paragraph = Paragraph::new(inlines, range);
        assert(paragraph@.inlines =~= inlines_view(paragraph.inlines@));
        Block::new(BlockKind::Paragraph(paragraph), range)
    }

    /// A paragraph from line `first_line` up to the line before the cursor.
    fn paragraph_from_lines(&mut self, first_line: usize, token_start: usize, context: ContentContext) -> (r: Block)
        requires
            old(self).inv(),
            first_line < old(self).cursor.position <= old(self).cursor.lines@.len(),
            token_start == old(self).cursor.lines@[first_line as int].token_start,
        ensures
            final(self).inv(),
            final(self).ctx() == old(self).ctx(),
            final(self).cursor.position == old(self).cursor.position,
            ({
                let c = old(self).ctx();
                let last = c.lines[old(self).cursor.position - 1];
                let start = if token_start < c.tokens.len() {
                    c.tokens[token_start as int].source_range.start
                } else {
                    c.lines[first_line as int].content_range.start
                };
                (r@, final(self).state()) == paragraph_from_tokens_v(
                    c,
                    token_start as int,
                    last.token_end as int,
                    SourceRange { start, end: last.content_range.end },
                    context,
                    old(self).state(),
                )
            }),
    {
        let last_line = self.cursor.position() - 1;
        let line = self.cursor.lines[last_line];
        assert(line_wf(self.cursor.lines@[first_line as int], self.tokens@, self.input@.len() as int));
        assert(line_wf(line, self.tokens@, self.input@.len() as int));
        if first_line < last_line {
            assert(self.cursor.lines@[first_line as int].token_end <= self.cursor.lines@[last_line as int].token_start);
        }
        let start = if token_start < self.tokens.len() {
            self.tokens[token_start].source_range.start
        } else {
            self.cursor.lines[first_line].content_range.start
        };
        self.paragraph_from_tokens(
            token_start,
            line.token_end,
            SourceRange::new(start, line.content_range.end),
            context,
        )
    }

    /// Paragraph <- Inline* (NEWLINE Inline*)*
    fn parse_paragraph(&mut self, context: ContentContext) -> (r: Block)
        requires
            old(self).inv(),
            old(self).cursor.position < old(self).cursor.lines@.len(),
        ensures
            final(self).inv(),
            final(self).ctx() == old(self).ctx(),
            old(self).cursor.position < final(self).cursor.position,
            (r@, final(self).state()) == paragraph_v(old(self).ctx(), context, old(self).state()),
    {
        let ghost c = self.ctx();
        let first_line = self.cursor.position();
        let token_start = self.current_line().token_start;
        self.cursor.advance();
        while !self.cursor.eof() && !self.is_blank_line() && !self.is_block_boundary(context)
            invariant
                self.inv(),
                self.ctx() == c,
                c == old(self).ctx(),
                self.diagnostics@ == old(self).diagnostics@,
                self.references@ == old(self).references@,
                first_line == old(self).cursor.position,
                first_line < self.cursor.position,
                paragraph_end(c, context, self.cursor.position as int) == paragraph_end(
                    c,
                    context,
                    first_line + 1,
                ),
            decreases self.cursor.lines@.len() - self.cursor.position,
        {
            self.cursor.advance();
        }
        self.paragraph_from_lines(first_line, token_start, context)
    }

    /// The paragraph that follows a quiz marker on its line, if any.
    fn parse_marker_line(&mut self, line: LexedLine, content_start: usize) -> (r: Vec<Block>)
        requires
            old(self).inv(),
            line_wf(line, old(self).tokens@, old(self).input@.len() as int),
        ensures
            final(self).inv(),
            final(self).ctx() == old(self).ctx(),
            final(self).cursor.position == old(self).cursor.position,
            (blocks_view(r@), final(self).state()) == marker_line_v(
                old(self).ctx(),
                line,
                content_start,
                old(self).state(),
            ),
    {
        let mut blocks: Vec<Block> = Vec::new();
        if line.token_start >= line.token_end || line.token_start + 1 >= line.token_end {
            assert(blocks_view(blocks@) =~= seq![]);
            return blocks;
        }
        let range = SourceRange::new(content_start, line.content_range.end);
        let b = self.paragraph_from_tokens(line.token_start + 1, line.token_end, range, ContentContext::Question);
        let ghost bv = b@;
        blocks.push(b);
        assert(blocks_view(blocks@) =~= seq![bv]);
        blocks
    }

    /// A block that is not a memo block.
    fn parse_block_plain(&mut self, context: ContentContext) -> (r: Option<Block>)
        requires
            old(self).inv(),
            old(self).cursor.position < old(self).cursor.lines@.len(),
        ensures
            final(self).inv(),
            final(self).ctx() == old(self).ctx(),
            old(self).cursor.position < final(self).cursor.position,
            (opt_block_view(r), final(self).state()) == block_plain_v(
                old(self).ctx(),
                context,
                old(self).state(),
            ),
    {
        match self.current_kind() {
            Some(TokenKind::MathBlockDelimiter) => self.parse_math_block(),
            Some(TokenKind::CodeFenceStart { .. }) => self.parse_fenced_block(),
            _ => Some(self.parse_paragraph(context)),
        }
    }
}

pub proof fn lemma_recover_memo_pos(c: Ctx, p: int)
    requires
        0 <= p < c.lines.len(),
    ensures
        p < recover_memo_pos(c, p) <= c.lines.len(),
    decreases c.lines.len() - p,
{
    if kind_at(c, p) != Some(TokenKind::MemoEnd) {
        if p + 1 < c.lines.len() {
            lemma_recover_memo_pos(c, p + 1);
        } else {
            assert(recover_memo_pos(c, p + 1) == p + 1);
        }
    }
}

impl<'a> Parser<'a> {
    /// Moves past the next `@end` line, or to the end of the lines.
    fn recover_memo(&mut self)
        requires
            old(self).inv(),
        ensures
            final(self).inv(),
            final(self).ctx() == old(self).ctx(),
            final(self).state() == at_pos(
                old(self).state(),
                recover_memo_pos(old(self).ctx(), old(self).cursor.position as int),
            ),
    {
        let ghost c = self.ctx();
        while !self.cursor.eof() && !self.current_is(TokenKind::MemoEnd)
            invariant
                self.inv(),
                self.ctx() == c,
                c == old(self).ctx(),
                self.diagnostics@ == old(self).diagnostics@,
                self.references@ == old(self).references@,
                recover_memo_pos(c, self.cursor.position as int) == recover_memo_pos(
                    c,
                    old(self).cursor.position as int,
                ),
            decreases self.cursor.lines@.len() - self.cursor.position,
        {
            self.cursor.advance();
        }
        self.cursor.advance();
    }

    /// The diagnostic for a memo block opened inside another one; skips to
    /// the end of the inner block.
    fn nested_memo_error(&mut self) -> (r: Diagnostic)
        requires
            old(self).inv(),
            old(self).cursor.position < old(self).cursor.lines@.len(),
        ensures
            final(self).inv(),
            final(self).ctx() == old(self).ctx(),
            r == (Diagnostic {
                error: ParseError::NestedMemo,
                source_range: old(self).cursor.lines@[old(self).cursor.position as int].content_range,
            }),
            final(self).state() == at_pos(
                old(self).state(),
                recover_memo_pos(old(self).ctx(), old(self).cursor.position as int),
            ),
            old(self).cursor.position < final(self).cursor.position,
    {
        let range = self.current_line().content_range;
        self.recover_memo();
        proof {
            lemma_recover_memo_pos(self.ctx(), old(self).cursor.position as int);
        }
        Diagnostic::new(ParseError::NestedMemo, range)
    }

    /// MemoBody <- (BlankLine / MathBlock / FencedBlock / Paragraph)* MEMO_END
    fn parse_memo(&mut self) -> (r: Result<Vec<Block>, Diagnostic>)
        requires
            old(self).inv(),
            old(self).cursor.position < old(self).cursor.lines@.len(),
        ensures
            final(self).inv(),
            final(self).ctx() == old(self).ctx(),
            old(self).cursor.position < final(self).cursor.position,
            ((match r {
                Ok(v) => Ok(blocks_view(v@)),
                Err(d) => Err(d),
            }), final(self).state()) == memo_v(old(self).ctx(), old(self).state()),
    {
        let ghost c = self.ctx();
        let opening = self.current_line();
        self.cursor.advance();
        let mut blocks: Vec<Block> = Vec::new();
        assert(blocks_view(blocks@) =~= seq![]);
        while !self.cursor.eof()
            invariant
                self.inv(),
                self.ctx() == c,
                c == old(self).ctx(),
                opening == c.lines[old(self).cursor.position as int],
                old(self).cursor.position < self.cursor.position,
                memo_loop(c, opening, blocks_view(blocks@), self.state()) == memo_v(
                    c,
                    old(self).state(),
                ),
            decreases self.cursor.lines@.len() - self.cursor.position,
        {
            if self.current_is(TokenKind::MemoEnd) {
                self.cursor.advance();
                return Ok(blocks);
            }
            if self.current_is(TokenKind::MemoStart) {
                let diagnostic = self.nested_memo_error();
                return Err(diagnostic);
            }
            if self.is_blank_line() {
                self.cursor.advance();
            } else {
                let block = self.parse_block_plain(ContentContext::Memo);
                push_block(&mut blocks, block);
            }
        }
        Err(Diagnostic::new(ParseError::UnclosedMemo, SourceRange::new(opening.content_range.start, self.input.len())))
    }

    /// MemoBlock <- MEMO_START MemoBody MEMO_END; an unclosed or nested memo
    /// block is reported and left empty.
    fn parse_memo_block(&mut self) -> (r: Block)
        requires
            old(self).inv(),
            old(self).cursor.position < old(self).cursor.lines@.len(),
        ensures
            final(self).inv(),
            final(self).ctx() == old(self).ctx(),
            old(self).cursor.position < final(self).cursor.position,
            (r@, final(self).state()) == memo_block_v(old(self).ctx(), old(self).state()),
    {
        let start = self.current_line().content_range.start;
        let saved = self.references.duplicate();
        let blocks = match self.parse_memo() {
            Ok(blocks) => blocks,
            Err(diagnostic) => {
                self.diagnostics.push(diagnostic);
                self.references = saved;
                let empty: Vec<Block> = Vec::new();
                assert(blocks_view(empty@) =~= seq![]);
                empty
            },
        };
        let end = match self.cursor.previous_end() {
            Some(e) => e,
            None => start,
        };
        let range = SourceRange::new(start, end);
        let b = Block::new(BlockKind::Memo(MemoBlock::new(blocks, range)), range);
        proof {
            crate::ast::lemma_memo_block_view(b);
            assert(b.kind->Memo_0@.blocks =~= blocks_view(b.kind->Memo_0.blocks@));
        }
        b
    }

    /// Block <- MemoBlock / MathBlock / FencedBlock / Paragraph
    fn parse_block(&mut self, context: ContentContext) -> (r: Option<Block>)
        requires
            old(self).inv(),
            old(self).cursor.position < old(self).cursor.lines@.len(),
        ensures
            final(self).inv(),
            final(self).ctx() == old(self).ctx(),
            old(self).cursor.position < final(self).cursor.position,
            (opt_block_view(r), final(self).state()) == block_v(
                old(self).ctx(),
                context,
                old(self).state(),
            ),
    {
        if self.current_is(TokenKind::MemoStart) && context != ContentContext::Memo {
            Some(self.parse_memo_block())
        } else {
            self.parse_block_plain(context)
        }
    }

    /// MemoItem <- MemoBlock, at the top level of the document.
    pub(crate) fn parse_memo_item(&mut self) -> (r: DocumentItem)
        requires
            old(self).inv(),
            old(self).cursor.position < old(self).cursor.lines@.len(),
        ensures
            final(self).inv(),
            final(self).ctx() == old(self).ctx(),
            old(self).cursor.position < final(self).cursor.position,
            (r@, final(self).state()) == memo_item_v(old(self).ctx(), old(self).state()),
    {
        let block = self.parse_memo_block();
        let range = block.source_range;
        DocumentItem::new(DocumentItemKind::Block(block), range)
    }

    /// BlockItem <- Block
    pub(crate) fn parse_block_item(&mut self) -> (r: DocumentItem)
        requires
            old(self).inv(),
            old(self).cursor.position < old(self).cursor.lines@.len(),
        ensures
            final(self).inv(),
            final(self).ctx() == old(self).ctx(),
            old(self).cursor.position < final(self).cursor.position,
            (r@, final(self).state()) == block_item_v(old(self).ctx(), old(self).state()),
    {
        let start = self.current_line().content_range.start;
        let block = match self.parse_block(ContentContext::Document) {
            Some(b) => b,
            None => empty_paragraph(start),
        };
        let range = block.source_range;
        DocumentItem::new(DocumentItemKind::Block(block), range)
    }
}

impl<'a> Parser<'a> {
    /// QaQuiz <- QUESTION_MARKER Inline* Block* ANSWER_SEPARATOR Block*
    pub(crate) fn parse_qa(&mut self) -> (r: DocumentItem)
        requires
            old(self).inv(),
            kind_at(old(self).ctx(), old(self).cursor.position as int) == Some(TokenKind::QuestionMarker),
        ensures
            final(self).inv(),
            final(self).ctx() == old(self).ctx(),
            old(self).cursor.position < final(self).cursor.position,
            (r@, final(self).state()) == qa_v(old(self).ctx(), old(self).state()),
    {
        let question = self.parse_question_section();
        match self.consume_answer_separator() {
            None => self.incomplete_qa(question),
            Some(separator) => {
                let answer_start = match self.cursor.current() {
                    Some(line) => line.content_range.start,
                    None => separator.full_end,
                };
                let answer = self.parse_answer_blocks();
                self.complete_qa(question, separator, answer_start, answer)
            },
        }
    }

    fn parse_question_section(&mut self) -> (r: QuestionSection)
        requires
            old(self).inv(),
            kind_at(old(self).ctx(), old(self).cursor.position as int) == Some(TokenKind::QuestionMarker),
        ensures
            final(self).inv(),
            final(self).ctx() == old(self).ctx(),
            old(self).cursor.position < final(self).cursor.position,
            (r@, final(self).state()) == question_section_v(old(self).ctx(), old(self).state()),
    {
        let opening = self.current_line();
        assert(line_wf(opening, self.tokens@, self.input@.len() as int));
        let marker = self.tokens[opening.token_start];
        let missing_separator_range = self.missing_separator_range(marker.source_range.end);
        let mut blocks = self.parse_marker_line(opening, marker.source_range.end);
        self.cursor.advance();
        self.parse_question_blocks(&mut blocks);
        QuestionSection {
            quiz_start: opening.content_range.start,
            content_start: marker.source_range.end,
            missing_separator_range,
            blocks,
        }
    }

    /// Moves past the answer separator if the cursor is on one.
    fn consume_answer_separator(&mut self) -> (r: Option<LexedLine>)
        requires
            old(self).inv(),
        ensures
            final(self).inv(),
            final(self).ctx() == old(self).ctx(),
            kind_at(old(self).ctx(), old(self).cursor.position as int) == Some(TokenKind::AnswerSeparator)
                ==> r == Some(old(self).cursor.lines@[old(self).cursor.position as int])
                && final(self).state() == at_pos(old(self).state(), old(self).cursor.position + 1),
            kind_at(old(self).ctx(), old(self).cursor.position as int) != Some(TokenKind::AnswerSeparator)
                ==> r is None && final(self).state() == old(self).state(),
    {
        if !self.current_is(TokenKind::AnswerSeparator) {
            return None;
        }
        let separator = self.current_line();
        self.cursor.advance();
        Some(separator)
    }

    /// Where a missing separator is reported: the line after the marker line,
    /// or the end of the marker when there is none.
    fn missing_separator_range(&self, marker_end: usize) -> (r: SourceRange)
        ensures
            r == (if self.cursor.position + 1 < self.cursor.lines@.len() {
                self.cursor.lines@[self.cursor.position + 1].content_range
            } else {
                SourceRange { start: marker_end, end: marker_end }
            }),
    {
        let position = self.cursor.position();
        if position < self.cursor.lines.len() {
            match self.line_at(position + 1) {
                Some(line) => line.content_range,
                None => SourceRange::new(marker_end, marker_end),
            }
        } else {
            SourceRange::new(marker_end, marker_end)
        }
    }

    fn parse_question_blocks(&mut self, blocks: &mut Vec<Block>)
        requires
            old(self).inv(),
        ensures
            final(self).inv(),
            final(self).ctx() == old(self).ctx(),
            old(self).cursor.position <= final(self).cursor.position,
            (blocks_view(final(blocks)@), final(self).state()) == question_loop(
                old(self).ctx(),
                blocks_view(old(blocks)@),
                old(self).state(),
            ),
    {
        let ghost c = self.ctx();
        let ghost target = question_loop(c, blocks_view(blocks@), self.state());
        while !self.cursor.eof() && !self.current_is(TokenKind::AnswerSeparator)
            && !self.is_quiz_boundary()
            invariant
                self.inv(),
                self.ctx() == c,
                c == old(self).ctx(),
                old(self).cursor.position <= self.cursor.position,
                question_loop(c, blocks_view(blocks@), self.state()) == target,
            decreases self.cursor.lines@.len() - self.cursor.position,
        {
            if self.is_blank_line() {
                self.cursor.advance();
            } else {
                let block = self.parse_block(ContentContext::Question);
                push_block(blocks, block);
            }
        }
    }

    fn incomplete_qa(&mut self, question: QuestionSection) -> (r: DocumentItem)
        requires
            old(self).inv(),
        ensures
            final(self).inv(),
            final(self).ctx() == old(self).ctx(),
            final(self).cursor.position == old(self).cursor.position,
            (r@, final(self).state()) == incomplete_qa_v(
                old(self).ctx(),
                question@,
                old(self).state(),
            ),
    {
        self.diagnostics.push(
            Diagnostic::new(ParseError::MissingAnswerSeparator, question.missing_separator_range),
        );
        let end = match self.cursor.current() {
            Some(line) => line.content_range.start,
            None => self.input.len(),
        };
        let content = QuizContent::new(question.blocks, SourceRange::new(question.content_start, end));
        self.check_memo_only(&content);
        let answer = QuizContent::new(Vec::new(), SourceRange::new(end, end));
        assert(answer@.blocks =~= seq![]);
        qa_item(content, answer, question.quiz_start, end)
    }

    fn parse_answer_blocks(&mut self) -> (r: Vec<Block>)
        requires
            old(self).inv(),
        ensures
            final(self).inv(),
            final(self).ctx() == old(self).ctx(),
            old(self).cursor.position <= final(self).cursor.position,
            (blocks_view(r@), final(self).state()) == answer_loop(
                old(self).ctx(),
                seq![],
                old(self).state(),
            ),
    {
        let ghost c = self.ctx();
        let mut blocks: Vec<Block> = Vec::new();
        assert(blocks_view(blocks@) =~= seq![]);
        while !self.cursor.eof() && !self.is_quiz_boundary() && !self.is_blank_line()
            invariant
                self.inv(),
                self.ctx() == c,
                c == old(self).ctx(),
                old(self).cursor.position <= self.cursor.position,
                answer_loop(c, blocks_view(blocks@), self.state()) == answer_loop(
                    c,
                    seq![],
                    old(self).state(),
                ),
            decreases self.cursor.lines@.len() - self.cursor.position,
        {
            let block = self.parse_block(ContentContext::Answer);
            push_block(&mut blocks, block);
        }
        blocks
    }

    fn complete_qa(
        &mut self,
        question: QuestionSection,
        separator: LexedLine,
        answer_start: usize,
        answer_blocks: Vec<Block>,
    ) -> (r: DocumentItem)
        requires
            old(self).inv(),
        ensures
            final(self).inv(),
            final(self).ctx() == old(self).ctx(),
            final(self).cursor.position == old(self).cursor.position,
            (r@, final(self).state()) == complete_qa_v(
                old(self).ctx(),
                question@,
                separator,
                answer_start,
                blocks_view(answer_blocks@),
                old(self).state(),
            ),
    {
        let end = if answer_blocks.len() > 0 {
            answer_blocks[answer_blocks.len() - 1].source_range.end
        } else {
            answer_start
        };
        let content = QuizContent::new(
            question.blocks,
            SourceRange::new(question.content_start, separator.content_range.start),
        );
        let answer = QuizContent::new(answer_blocks, SourceRange::new(answer_start, end));
        self.check_memo_only(&content);
        self.check_memo_only(&answer);
        if answer.blocks.len() == 0 {
            self.diagnostics.push(Diagnostic::new(ParseError::EmptyAnswer, separator.content_range));
        }
        qa_item(content, answer, question.quiz_start, end)
    }

    /// Reports a quiz section whose blocks are all memo blocks.
    fn check_memo_only(&mut self, content: &QuizContent)
        requires
            old(self).inv(),
        ensures
            final(self).inv(),
            final(self).ctx() == old(self).ctx(),
            final(self).state() == check_memo_only_v(content@, old(self).state()),
    {
        if is_memo_only(&content.blocks) {
            self.diagnostics.push(
                Diagnostic::new(ParseError::QaSectionIsMemoOnly, content.source_range),
            );
        }
    }

    /// One paragraph of the inlines of tokens `token_start..token_end`, read
    /// as the content of a fold quiz.
    fn parse_content_tokens(&mut self, token_start: usize, token_end: usize, range: SourceRange) -> (r:
        QuizContent)
        requires
            old(self).inv(),
            token_start <= token_end <= old(self).tokens@.len(),
        ensures
            final(self).inv(),
            final(self).ctx() == old(self).ctx(),
            final(self).cursor.position == old(self).cursor.position,
            (r@, final(self).state()) == content_tokens_v(
                old(self).ctx(),
                token_start as int,
                token_end as int,
                range,
                old(self).state(),
            ),
    {
        let block = self.paragraph_from_tokens(token_start, token_end, range, ContentContext::Fold);
        let ghost bv = block@;
        let mut blocks: Vec<Block> = Vec::new();
        blocks.push(block);
        let r = QuizContent::new(blocks, range);
        assert(r@.blocks =~= seq![bv]);
        r
    }

    /// FoldQuiz <- FOLD_MARKER Inline* FoldBlank Inline*
    pub(crate) fn parse_fold(&mut self) -> (r: DocumentItem)
        requires
            old(self).inv(),
            kind_at(old(self).ctx(), old(self).cursor.position as int) == Some(TokenKind::FoldMarker),
        ensures
            final(self).inv(),
            final(self).ctx() == old(self).ctx(),
            old(self).cursor.position < final(self).cursor.position,
            (r@, final(self).state()) == fold_v(old(self).ctx(), old(self).state()),
    {
        let line = self.current_line();
        assert(line_wf(line, self.tokens@, self.input@.len() as int));
        let marker = self.tokens[line.token_start];
        let range = SourceRange::new(line.content_range.start, line.full_end);
        let content_range = SourceRange::new(marker.source_range.end, line.content_range.end);
        let content = self.parse_content_tokens(line.token_start + 1, line.token_end, content_range);
        self.cursor.advance();
        if !contains_fold_blank(&content) {
            self.diagnostics.push(
                Diagnostic::new(ParseError::FoldQuizWithoutBlank, line.content_range),
            );
        }
        quiz_item(QuizItemKind::Fold(FoldQuiz::new(content, range)), range)
    }
}

/// Every block is a memo block, and there is at least one.
fn is_memo_only(blocks: &Vec<Block>) -> (r: bool)
    ensures
        r == memo_only(blocks_view(blocks@)),
{
    if blocks.len() == 0 {
        return false;
    }
    let mut i: usize = 0;
    while i < blocks.len()
        invariant
            i <= blocks@.len(),
            forall|j: int| 0 <= j < i ==> (#[trigger] blocks_view(blocks@)[j]).kind is Memo,
        decreases blocks@.len() - i,
    {
        match &blocks[i].kind {
            BlockKind::Memo(_) => {},
            _ => {
                assert(blocks_view(blocks@)[i as int].kind !is Memo);
                return false;
            },
        }
        i = i + 1;
    }
    true
}

fn qa_item(question: QuizContent, answer: QuizContent, start: usize, end: usize) -> (r: DocumentItem)
    ensures
        r@ == qa_item_v(question@, answer@, start, end),
{
    let range = SourceRange::new(start, end);
    quiz_item(QuizItemKind::Qa(QaQuiz::new(question, answer, range)), range)
}

fn quiz_item(kind: QuizItemKind, range: SourceRange) -> (r: DocumentItem)
    ensures
        r@ == quiz_item_v(quiz_kind_view(kind), range),
{
    DocumentItem::new(DocumentItemKind::Quiz(QuizItem::new(kind, range)), range)
}

fn empty_paragraph(position: usize) -> (r: Block)
    ensures
        r@ == empty_paragraph_v(position),
{
    let range = SourceRange::new(position, position);
    let r = Block::new(BlockKind::Paragraph(Paragraph::new(Vec::new(), range)), range);
    assert(r@.kind->Paragraph_0.inlines =~= Seq::<crate::ast::InlineV>::empty());
    r
}

/// The paragraph holds a fold blank among its inlines.
fn paragraph_has_fold_blank(paragraph: &Paragraph) -> (r: bool)
    ensures
        r == has_fold_blank(paragraph@.inlines),
{
    let mut j: usize = 0;
    while j < paragraph.inlines.len()
        invariant
            j <= paragraph.inlines@.len(),
            forall|m: int| 0 <= m < j ==> (#[trigger] paragraph.inlines@[m]).kind !is FoldBlank,
        decreases paragraph.inlines@.len() - j,
    {
        if let crate::ast::InlineKind::FoldBlank(_) = &paragraph.inlines[j].kind {
            assert(paragraph@.inlines[j as int] == paragraph.inlines@[j as int]@);
            return true;
        }
        j = j + 1;
    }
    assert forall|m: int| 0 <= m < paragraph@.inlines.len() implies (
    #[trigger] paragraph@.inlines[m]).kind !is FoldBlank by {
        assert(paragraph.inlines@[m].kind !is FoldBlank);
    }
    false
}

/// Some paragraph of the content holds a fold blank.
fn contains_fold_blank(content: &QuizContent) -> (r: bool)
    ensures
        r == contains_fold_blank_v(content@),
{
    let mut i: usize = 0;
    while i < content.blocks.len()
        invariant
            i <= content.blocks@.len(),
            forall|j: int|
                0 <= j < i ==> !((#[trigger] content@.blocks[j]).kind is Paragraph && has_fold_blank(
                    content@.blocks[j].kind->Paragraph_0.inlines,
                )),
        decreases content.blocks@.len() - i,
    {
        let block = &content.blocks[i];
        assert(content@.blocks[i as int] == block@);
        if let BlockKind::Paragraph(paragraph) = &block.kind {
            if paragraph_has_fold_blank(paragraph) {
                return true;
            }
        }
        i = i + 1;
    }
    false
}

} // verus!
