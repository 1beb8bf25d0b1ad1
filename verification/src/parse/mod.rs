//! Parser: from tokens and lines to the document tree.
pub mod block;
pub mod boundaries;
pub mod clean;
pub mod cursor;
pub mod inline;
pub mod ranges;
pub mod refs;

use self::cursor::{LexedLine, LineCursor, lines_wf, spec_collect_lines};
use crate::ast::{DocumentItem, DocumentItemV, QuizFoldDocument, QuizFoldDocumentV};
use crate::diagnostics::Diagnostic;
use crate::errors::ParseError;
use crate::lexer::{self, Token, TokenKind, tokens_wf};
use crate::source::SourceRange;
use crate::{ParseResult, ParseResultV, ParseStats, References, ReferencesV};
use vstd::prelude::*;
use vstd::string::StringSliceAdditionalSpecFns;

verus! {

/// Where content appears; it decides what the parser accepts there.
#[derive(Debug, Clone, Copy, PartialEq, Eq, Structural)]
pub enum ContentContext {
    Document,
    Question,
    Answer,
    Memo,
    Fold,
}

impl ContentContext {
    pub open spec fn spec_allows_fold_blank(self) -> bool {
        self == ContentContext::Answer || self == ContentContext::Fold
    }

    /// Fold blanks are answers: they belong in Q/A answers and fold quizzes.
    pub fn allows_fold_blank(self) -> (r: bool)
        ensures
            r == self.spec_allows_fold_blank(),
    {
        self == ContentContext::Answer || self == ContentContext::Fold
    }
}

/// The fixed inputs of a parse: source bytes, tokens, and lines.
pub struct Ctx {
    pub input: Seq<u8>,
    pub tokens: Seq<Token>,
    pub lines: Seq<LexedLine>,
}

/// What a parse step changes: the line position, the diagnostics so far,
/// and the references so far.
pub struct PState {
    pub pos: int,
    pub diags: Seq<Diagnostic>,
    pub refs: ReferencesV,
}

pub open spec fn with_diag(st: PState, error: ParseError, range: SourceRange) -> PState {
    PState { diags: st.diags.push(Diagnostic { error, source_range: range }), ..st }
}

pub open spec fn at_pos(st: PState, pos: int) -> PState {
    PState { pos, ..st }
}

pub(crate) struct Parser<'a> {
    pub input: &'a [u8],
    pub tokens: Vec<Token>,
    pub cursor: LineCursor,
    pub diagnostics: Vec<Diagnostic>,
    pub references: References,
}

impl<'a> Parser<'a> {
    pub(crate) open spec fn ctx(&self) -> Ctx {
        Ctx { input: self.input@, tokens: self.tokens@, lines: self.cursor.lines@ }
    }

    pub(crate) open spec fn state(&self) -> PState {
        PState {
            pos: self.cursor.position as int,
            diags: self.diagnostics@,
            refs: self.references@,
        }
    }

    /// Tokens and lines are well formed and the cursor is among the lines.
    pub(crate) open spec fn inv(&self) -> bool {
        &&& tokens_wf(self.tokens@, self.input@.len() as int)
        &&& lines_wf(self.cursor.lines@, self.tokens@, self.input@.len() as int)
        &&& self.cursor.position <= self.cursor.lines@.len()
    }
}

} // verus!

verus! {

// ---------------------------------------------------------------------
// Line-level specification helpers.
/// Kind of the first token of line `p`, if the line has tokens.
pub open spec fn kind_at(c: Ctx, p: int) -> Option<TokenKind> {
    if 0 <= p < c.lines.len() && c.lines[p].token_start < c.lines[p].token_end {
        Some(c.tokens[c.lines[p].token_start as int].kind)
    } else {
        None
    }
}

/// Line `p` holds no token.
pub open spec fn blank_at(c: Ctx, p: int) -> bool {
    0 <= p < c.lines.len() && c.lines[p].token_start == c.lines[p].token_end
}

pub open spec fn advance_v(c: Ctx, st: PState) -> PState {
    if st.pos < c.lines.len() {
        at_pos(st, st.pos + 1)
    } else {
        st
    }
}

/// First non-blank line at or after `p`.
pub open spec fn skip_blank(c: Ctx, p: int) -> int
    decreases c.lines.len() - p,
{
    if 0 <= p < c.lines.len() && blank_at(c, p) {
        skip_blank(c, p + 1)
    } else {
        p
    }
}

/// End of the last token before position `i` that is not a line break.
pub open spec fn last_content_end(ts: Seq<Token>, i: int) -> int
    decreases i,
{
    if i <= 0 || i > ts.len() {
        0
    } else if ts[i - 1].kind != TokenKind::Newline {
        ts[i - 1].source_range.end as int
    } else {
        last_content_end(ts, i - 1)
    }
}

impl<'a> Parser<'a> {
    /// The line under the cursor.
    pub(crate) fn current_line(&self) -> (r: LexedLine)
        requires
            self.inv(),
            self.cursor.position < self.cursor.lines@.len(),
        ensures
            r == self.cursor.lines@[self.cursor.position as int],
    {
        self.cursor.lines[self.cursor.position]
    }

    pub(crate) fn line_at(&self, position: usize) -> (r: Option<LexedLine>)
        ensures
            r == (if position < self.cursor.lines@.len() {
                Some(self.cursor.lines@[position as int])
            } else {
                None
            }),
    {
        self.cursor.get(position)
    }

    pub(crate) fn current_kind(&self) -> (r: Option<TokenKind>)
        requires
            self.inv(),
        ensures
            r == kind_at(self.ctx(), self.cursor.position as int),
    {
        self.kind_at(self.cursor.position())
    }

    pub(crate) fn kind_at(&self, position: usize) -> (r: Option<TokenKind>)
        requires
            self.inv(),
        ensures
            r == kind_at(self.ctx(), position as int),
    {
        match self.line_at(position) {
            Some(line) => {
                assert(cursor::line_wf(self.cursor.lines@[position as int], self.tokens@, self.input@.len() as int));
                if line.token_start < line.token_end {
                    Some(self.tokens[line.token_start].kind)
                } else {
                    None
                }
            },
            None => None,
        }
    }

    pub(crate) fn current_is(&self, kind: TokenKind) -> (r: bool)
        requires
            self.inv(),
        ensures
            r == (kind_at(self.ctx(), self.cursor.position as int) == Some(kind)),
    {
        match self.current_kind() {
            Some(k) => k == kind,
            None => false,
        }
    }

    pub(crate) fn is_blank_line(&self) -> (r: bool)
        requires
            self.inv(),
        ensures
            r == blank_at(self.ctx(), self.cursor.position as int),
    {
        match self.cursor.current() {
            Some(line) => line.token_start == line.token_end,
            None => false,
        }
    }

    pub(crate) fn skip_blank_lines(&mut self)
        requires
            old(self).inv(),
        ensures
            final(self).inv(),
            final(self).ctx() == old(self).ctx(),
            final(self).state() == at_pos(
                old(self).state(),
                skip_blank(old(self).ctx(), old(self).cursor.position as int),
            ),
            old(self).cursor.position <= final(self).cursor.position,
    {
        while !self.cursor.eof() && self.is_blank_line()
            invariant
                self.inv(),
                self.ctx() == old(self).ctx(),
                self.diagnostics@ == old(self).diagnostics@,
                self.references@ == old(self).references@,
                old(self).cursor.position <= self.cursor.position,
                skip_blank(self.ctx(), old(self).cursor.position as int) == skip_blank(
                    self.ctx(),
                    self.cursor.position as int,
                ),
            decreases self.cursor.lines@.len() - self.cursor.position,
        {
            self.cursor.advance();
        }
    }

    /// End of the last content token of the source, or 0.
    pub(crate) fn source_content_end(&self) -> (r: usize)
        requires
            self.inv(),
        ensures
            r as int == last_content_end(self.tokens@, self.tokens@.len() as int),
            r <= self.input@.len(),
    {
        let mut i = self.tokens.len();
        while i > 0 && self.tokens[i - 1].kind == TokenKind::Newline
            invariant
                i <= self.tokens@.len(),
                last_content_end(self.tokens@, self.tokens@.len() as int) == last_content_end(
                    self.tokens@,
                    i as int,
                ),
            decreases i,
        {
            i = i - 1;
        }
        if i == 0 {
            0
        } else {
            assert(lexer::token_wf(self.tokens@[i - 1], self.input@.len() as int));
            self.tokens[i - 1].source_range.end
        }
    }
}

// ---------------------------------------------------------------------
// Document level.
/// Document <- (BlankLine / QaQuiz / FoldQuiz / MemoBlock / Block)* EOF
pub open spec fn document_item_v(c: Ctx, st: PState) -> (DocumentItemV, PState) {
    match kind_at(c, st.pos) {
        Some(TokenKind::QuestionMarker) => block::qa_v(c, st),
        Some(TokenKind::FoldMarker) => block::fold_v(c, st),
        Some(TokenKind::MemoStart) => block::memo_item_v(c, st),
        Some(TokenKind::MemoEnd) => block::block_item_v(
            c,
            with_diag(st, ParseError::UnexpectedMemoEnd, c.lines[st.pos].content_range),
        ),
        _ => block::block_item_v(c, st),
    }
}

/// The items of the document from line `st.pos` on, appended to `acc`.
pub open spec fn document_loop(c: Ctx, acc: Seq<DocumentItemV>, st: PState) -> (
    Seq<DocumentItemV>,
    PState,
)
    decreases c.lines.len() - st.pos,
{
    let p = skip_blank(c, st.pos);
    if st.pos < 0 || p < st.pos || p >= c.lines.len() {
        (acc, at_pos(st, p))
    } else {
        let (item, st1) = document_item_v(c, at_pos(st, p));
        if p < st1.pos <= c.lines.len() {
            document_loop(c, acc.push(item), st1)
        } else {
            (acc.push(item), st1)
        }
    }
}

/// Source bytes, their tokens and their lines.
pub open spec fn parse_ctx(input: Seq<u8>) -> Ctx {
    let tokens = lexer::spec_lex(input);
    Ctx { input, tokens, lines: spec_collect_lines(tokens, input.len() as int) }
}

pub open spec fn initial_state() -> PState {
    PState {
        pos: 0,
        diags: seq![],
        refs: ReferencesV {
            request_attachments: seq![],
            stored_images: seq![],
            external_images: seq![],
        },
    }
}

/// What parsing `input` yields.
pub open spec fn spec_parse(input: Seq<u8>) -> ParseResultV {
    let (items, st) = document_loop(parse_ctx(input), seq![], initial_state());
    ParseResultV {
        document: QuizFoldDocumentV {
            items,
            source_range: SourceRange { start: 0, end: input.len() as usize },
        },
        diagnostics: st.diags,
        references: st.refs,
        stats: ParseStats { byte_len: input.len() as usize },
    }
}

pub open spec fn items_view(v: Seq<DocumentItem>) -> Seq<DocumentItemV> {
    v.map_values(|i: DocumentItem| i@)
}

proof fn lemma_skip_blank(c: Ctx, p: int)
    requires
        0 <= p,
    ensures
        p <= skip_blank(c, p),
        p >= c.lines.len() ==> skip_blank(c, p) == p,
    decreases c.lines.len() - p,
{
    if 0 <= p < c.lines.len() && blank_at(c, p) {
        lemma_skip_blank(c, p + 1);
    }
}

impl<'a> Parser<'a> {
    /// A parser at the first line of the source.
    pub(crate) fn new(input: &'a str) -> (r: Parser<'a>)
        ensures
            r.inv(),
            r.ctx() == parse_ctx(input.spec_bytes()),
            r.state() == initial_state(),
    {
        let bytes = input.as_bytes();
        let tokens = lexer::lex_bytes(bytes);
        let cursor = LineCursor::new(bytes.len(), tokens.as_slice());
        let r = Parser { input: bytes, tokens, cursor, diagnostics: Vec::new(), references: References::empty() };
        assert(r.diagnostics@ =~= seq![]);
        r
    }

    /// One document item at the cursor.
    fn parse_document_item(&mut self) -> (r: DocumentItem)
        requires
            old(self).inv(),
            old(self).cursor.position < old(self).cursor.lines@.len(),
        ensures
            final(self).inv(),
            final(self).ctx() == old(self).ctx(),
            old(self).cursor.position < final(self).cursor.position,
            (r@, final(self).state()) == document_item_v(old(self).ctx(), old(self).state()),
    {
        match self.current_kind() {
            Some(TokenKind::QuestionMarker) => self.parse_qa(),
            Some(TokenKind::FoldMarker) => self.parse_fold(),
            Some(TokenKind::MemoStart) => self.parse_memo_item(),
            Some(TokenKind::MemoEnd) => {
                let range = self.current_line().content_range;
                self.diagnostics.push(Diagnostic::new(ParseError::UnexpectedMemoEnd, range));
                self.parse_block_item()
            },
            _ => self.parse_block_item(),
        }
    }

    /// Document <- (BlankLine / QaQuiz / FoldQuiz / MemoBlock / Block)* EOF
    pub(crate) fn parse(self) -> (r: ParseResult)
        requires
            self.inv(),
        ensures
            ({
                let (items, st) = document_loop(self.ctx(), seq![], self.state());
                &&& r.document@.items == items
                &&& r.document.source_range == SourceRange { start: 0, end: self.input@.len() as usize }
                &&& r.diagnostics@ == st.diags
                &&& r.references@ == st.refs
                &&& r.stats == ParseStats { byte_len: self.input@.len() as usize }
            }),
    {
        let mut parser = self;
        let ghost c = parser.ctx();
        let ghost st0 = parser.state();
        let mut items: Vec<DocumentItem> = Vec::new();
        assert(items_view(items@) =~= seq![]);
        while !parser.cursor.eof()
            invariant
                parser.inv(),
                parser.ctx() == c,
                document_loop(c, items_view(items@), parser.state()) == document_loop(c, seq![], st0),
            decreases parser.cursor.lines@.len() - parser.cursor.position,
        {
            proof {
                lemma_skip_blank(c, parser.cursor.position as int);
            }
            parser.skip_blank_lines();
            if !parser.cursor.eof() {
                let ghost acc = items_view(items@);
                let item = parser.parse_document_item();
                let ghost iv = item@;
                items.push(item);
                assert(items_view(items@) =~= acc.push(iv));
            }
        }
        proof {
            lemma_skip_blank(c, parser.cursor.position as int);
        }
        let byte_len = parser.input.len();
        let document = QuizFoldDocument::new(items, SourceRange::new(0, byte_len));
        assert(document@.items =~= items_view(document.items@));
        ParseResult {
            document,
            diagnostics: parser.diagnostics,
            references: parser.references,
            stats: ParseStats { byte_len },
        }
    }
}

} // verus!
