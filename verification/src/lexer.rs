//! Line-oriented lexer for QuizFold Markdown.
//!
//! The lexer works on the UTF-8 bytes of the source. Every marker it looks
//! for is ASCII, so stepping byte by byte finds exactly the markers that a
//! character-by-character scan would find.
use crate::source::SourceRange;
use crate::text::{
    bytes_are, bytes_at, bytes_equal, find_byte, find_in, lemma_find_in_bounds, starts_with_at,
    whitespace_ends_at, whitespace_width, ws_ending_at, ws_width,
};
use vstd::prelude::*;
use vstd::string::StringSliceAdditionalSpecFns;

verus! {

#[derive(Debug, Clone, Copy, PartialEq, Eq, Structural)]
pub struct Token {
    pub kind: TokenKind,
    pub source_range: SourceRange,
}

#[derive(Debug, Clone, Copy, PartialEq, Eq, Structural)]
pub enum TokenKind {
    Raw,
    Newline,
    QuestionMarker,
    FoldMarker,
    AnswerSeparator,
    MathBlockDelimiter,
    CodeFenceStart { info: Option<SourceRange> },
    CodeFenceEnd,
    FoldBlankStart,
    FoldBlankEnd,
    MathInlineDelimiter,
    Image { alt: SourceRange, destination: SourceRange },
    MemoStart,
    MemoEnd,
}

/// Multi-line constructs in which lines are taken verbatim.
#[derive(Debug, Clone, Copy, PartialEq, Eq, Structural)]
pub enum BlockMode {
    Code,
    Math,
}

// ---------------------------------------------------------------------
// Byte patterns of the markers.
pub open spec fn pat_fence() -> Seq<u8> {
    seq![96u8, 96u8, 96u8]
}

pub open spec fn pat_math() -> Seq<u8> {
    seq![36u8, 36u8]
}

pub open spec fn pat_separator() -> Seq<u8> {
    seq![45u8, 45u8, 45u8]
}

pub open spec fn pat_memo_start() -> Seq<u8> {
    seq![64u8, 109u8, 101u8, 109u8, 111u8]
}

pub open spec fn pat_memo_end() -> Seq<u8> {
    seq![64u8, 101u8, 110u8, 100u8]
}

pub open spec fn pat_question() -> Seq<u8> {
    seq![63u8, 32u8]
}

pub open spec fn pat_fold() -> Seq<u8> {
    seq![33u8, 32u8]
}

pub open spec fn pat_image() -> Seq<u8> {
    seq![33u8, 91u8]
}

pub open spec fn pat_blank() -> Seq<u8> {
    seq![36u8, 123u8]
}

// ---------------------------------------------------------------------
// Specification of the token stream.
pub open spec fn tok(kind: TokenKind, start: int, end: int) -> Token {
    Token { kind, source_range: SourceRange { start: start as usize, end: end as usize } }
}

/// A `Raw` token for `start..end` when that range is not empty.
pub open spec fn raw_run(start: int, end: int) -> Seq<Token> {
    if start < end {
        seq![tok(TokenKind::Raw, start, end)]
    } else {
        seq![]
    }
}

/// Markdown image `![alt](destination)` starting at `start`: its end and the
/// ranges of alt text and destination.
pub open spec fn spec_image_at(s: Seq<u8>, start: int, end: int) -> Option<
    (int, SourceRange, SourceRange),
> {
    let alt_start = start + 2;
    let alt_end = find_in(s, alt_start, end, 93u8);
    if alt_end >= end {
        None
    } else if alt_end + 1 >= end || s[alt_end + 1] != 40u8 {
        None
    } else {
        let dest_start = alt_end + 2;
        let dest_end = find_in(s, dest_start, end, 41u8);
        if dest_end >= end {
            None
        } else {
            Some(
                (
                    dest_end + 1,
                    SourceRange { start: alt_start as usize, end: alt_end as usize },
                    SourceRange { start: dest_start as usize, end: dest_end as usize },
                ),
            )
        }
    }
}

/// An image starts at `cursor` and ends after it.
pub open spec fn image_found(s: Seq<u8>, cursor: int, end: int) -> bool {
    match spec_image_at(s, cursor, end) {
        Some(v) => v.0 > cursor,
        None => false,
    }
}

/// The `$` at `cursor` is preceded by a backslash inside the scanned range.
pub open spec fn escaped(s: Seq<u8>, cursor: int, lower: int) -> bool {
    cursor > lower && s[cursor - 1] == 92u8
}

/// A `$` at `cursor` opens inline math when a visible character other than
/// `$` follows it, and closes inline math when a visible character precedes it.
pub open spec fn dollar_delimits(s: Seq<u8>, cursor: int, end: int, in_math: bool) -> bool {
    if in_math {
        cursor > 0 && !ws_ending_at(s, cursor)
    } else {
        cursor + 1 < end && ws_width(s, cursor + 1, end) == 0 && s[cursor + 1] != 36u8
    }
}

/// Tokens of `cursor..end` inside a line whose inline scan started at
/// `start`, given the pending raw run from `raw_start` and the open states.
pub open spec fn inline_tokens(
    s: Seq<u8>,
    start: int,
    end: int,
    cursor: int,
    raw_start: int,
    in_blank: bool,
    in_math: bool,
) -> Seq<Token>
    decreases end - cursor,
{
    if cursor >= end || cursor < 0 {
        raw_run(raw_start, end)
    } else if starts_with_at(s, cursor, end, pat_image()) && !in_math && !in_blank
        && image_found(s, cursor, end) {
        let (image_end, alt, destination) = spec_image_at(s, cursor, end)->0;
        raw_run(raw_start, cursor) + seq![tok(TokenKind::Image { alt, destination }, cursor, image_end)]
            + inline_tokens(s, start, end, image_end, image_end, in_blank, in_math)
    } else if starts_with_at(s, cursor, end, pat_blank()) && !in_math {
        raw_run(raw_start, cursor) + seq![tok(TokenKind::FoldBlankStart, cursor, cursor + 2)]
            + inline_tokens(s, start, end, cursor + 2, cursor + 2, true, in_math)
    } else if s[cursor] == 125u8 && in_blank && !in_math {
        raw_run(raw_start, cursor) + seq![tok(TokenKind::FoldBlankEnd, cursor, cursor + 1)]
            + inline_tokens(s, start, end, cursor + 1, cursor + 1, false, in_math)
    } else if s[cursor] == 36u8 && !escaped(s, cursor, start) && dollar_delimits(s, cursor, end, in_math) {
        raw_run(raw_start, cursor) + seq![tok(TokenKind::MathInlineDelimiter, cursor, cursor + 1)]
            + inline_tokens(s, start, end, cursor + 1, cursor + 1, in_blank, !in_math)
    } else {
        inline_tokens(s, start, end, cursor + 1, raw_start, in_blank, in_math)
    }
}

/// Tokens of an ordinary line `start..end`: an optional quiz marker, then inline tokens.
pub open spec fn normal_line_tokens(s: Seq<u8>, start: int, end: int) -> Seq<Token> {
    if starts_with_at(s, start, end, pat_question()) {
        seq![tok(TokenKind::QuestionMarker, start, start + 2)] + inline_tokens(
            s,
            start + 2,
            end,
            start + 2,
            start + 2,
            false,
            false,
        )
    } else if starts_with_at(s, start, end, pat_fold()) {
        seq![tok(TokenKind::FoldMarker, start, start + 2)] + inline_tokens(
            s,
            start + 2,
            end,
            start + 2,
            start + 2,
            false,
            false,
        )
    } else {
        inline_tokens(s, start, end, start, start, false, false)
    }
}

/// First byte at or after `i` that does not start a whitespace character.
pub open spec fn skip_ws(s: Seq<u8>, i: int, end: int) -> int
    decreases end - i,
{
    if i < end && ws_width(s, i, end) > 0 {
        skip_ws(s, i + ws_width(s, i, end), end)
    } else {
        i
    }
}

/// The info string of a code fence opening at `start`: the rest of the line
/// after the backticks and leading whitespace, when it is not empty.
pub open spec fn fence_info(s: Seq<u8>, start: int, end: int) -> Option<SourceRange> {
    let trimmed = skip_ws(s, start + 3, end);
    if trimmed < end {
        Some(SourceRange { start: trimmed as usize, end: end as usize })
    } else {
        None
    }
}

/// Tokens of the line `start..end` (without its line break), and the block mode after it.
pub open spec fn line_tokens(s: Seq<u8>, start: int, end: int, mode: Option<BlockMode>) -> (
    Seq<Token>,
    Option<BlockMode>,
) {
    match mode {
        Some(BlockMode::Code) => if bytes_are(s, start, end, pat_fence()) {
            (seq![tok(TokenKind::CodeFenceEnd, start, end)], None)
        } else {
            (seq![tok(TokenKind::Raw, start, end)], Some(BlockMode::Code))
        },
        Some(BlockMode::Math) => if bytes_are(s, start, end, pat_math()) {
            (seq![tok(TokenKind::MathBlockDelimiter, start, end)], None)
        } else {
            (seq![tok(TokenKind::Raw, start, end)], Some(BlockMode::Math))
        },
        None => if bytes_are(s, start, end, pat_math()) {
            (seq![tok(TokenKind::MathBlockDelimiter, start, end)], Some(BlockMode::Math))
        } else if starts_with_at(s, start, end, pat_fence()) {
            (
                seq![tok(TokenKind::CodeFenceStart { info: fence_info(s, start, end) }, start, end)],
                Some(BlockMode::Code),
            )
        } else if bytes_are(s, start, end, pat_separator()) {
            (seq![tok(TokenKind::AnswerSeparator, start, end)], None)
        } else if bytes_are(s, start, end, pat_memo_start()) {
            (seq![tok(TokenKind::MemoStart, start, end)], None)
        } else if bytes_are(s, start, end, pat_memo_end()) {
            (seq![tok(TokenKind::MemoEnd, start, end)], None)
        } else {
            (normal_line_tokens(s, start, end), None)
        },
    }
}

/// End of the content of the line `start..line_end`: a carriage return right
/// before the line feed is not content.
pub open spec fn content_end(s: Seq<u8>, start: int, line_end: int) -> int {
    if line_end > start && s[line_end - 1] == 13u8 {
        line_end - 1
    } else {
        line_end
    }
}

/// Tokens of the lines from `cursor` on, lexed in `mode`.
pub open spec fn lines_tokens(s: Seq<u8>, cursor: int, mode: Option<BlockMode>) -> Seq<Token>
    decreases s.len() - cursor,
{
    if cursor < 0 || cursor >= s.len() {
        seq![]
    } else {
        let line_end = find_in(s, cursor, s.len() as int, 10u8);
        let (tokens, next_mode) = line_tokens(
            s,
            cursor,
            content_end(s, cursor, line_end),
            mode,
        );
        if line_end < s.len() && line_end >= cursor {
            tokens + seq![tok(TokenKind::Newline, line_end, line_end + 1)] + lines_tokens(
                s,
                line_end + 1,
                next_mode,
            )
        } else {
            tokens
        }
    }
}

/// The token stream of a source.
pub open spec fn spec_lex(s: Seq<u8>) -> Seq<Token> {
    lines_tokens(s, 0, None)
}

// ---------------------------------------------------------------------
// Well-formedness of token streams.
pub open spec fn token_wf(t: Token, len: int) -> bool {
    &&& t.source_range.start <= t.source_range.end <= len
    &&& match t.kind {
        TokenKind::Image { alt, destination } => t.source_range.start <= alt.start <= alt.end
            <= destination.start <= destination.end <= t.source_range.end,
        TokenKind::CodeFenceStart { info: Some(r) } => t.source_range.start <= r.start <= r.end
            <= t.source_range.end,
        TokenKind::Newline => t.source_range.end == t.source_range.start + 1,
        _ => true,
    }
}

/// Every token lies in the source and tokens follow each other in order.
pub open spec fn tokens_wf(ts: Seq<Token>, len: int) -> bool {
    &&& forall|i: int| 0 <= i < ts.len() ==> token_wf(#[trigger] ts[i], len)
    &&& forall|i: int, j: int|
        0 <= i < j < ts.len() ==> (#[trigger] ts[i]).source_range.end <= (#[trigger] ts[j]).source_range.start
}

/// Every token ends at or before `bound`.
pub open spec fn tokens_end_by(ts: Seq<Token>, bound: int) -> bool {
    forall|i: int| 0 <= i < ts.len() ==> (#[trigger] ts[i]).source_range.end <= bound
}

proof fn lemma_push_token(ts: Seq<Token>, t: Token, len: int, bound: int)
    requires
        tokens_wf(ts, len),
        tokens_end_by(ts, bound),
        token_wf(t, len),
        bound <= t.source_range.start,
    ensures
        tokens_wf(ts.push(t), len),
        tokens_end_by(ts.push(t), t.source_range.end as int),
{
    assert forall|i: int, j: int|
        0 <= i < j < ts.push(t).len() implies (#[trigger] ts.push(t)[i]).source_range.end <= (
    #[trigger] ts.push(t)[j]).source_range.start by {
        if j < ts.len() {
            assert(ts.push(t)[i] == ts[i] && ts.push(t)[j] == ts[j]);
        } else {
            assert(ts.push(t)[i] == ts[i]);
        }
    }
    assert forall|i: int| 0 <= i < ts.push(t).len() implies token_wf(#[trigger] ts.push(t)[i], len) by {
        if i < ts.len() {
            assert(ts.push(t)[i] == ts[i]);
        }
    }
}

proof fn lemma_end_by_weaken(ts: Seq<Token>, a: int, b: int)
    requires
        tokens_end_by(ts, a),
        a <= b,
    ensures
        tokens_end_by(ts, b),
{
}

// ---------------------------------------------------------------------
// Lexer.
/// Lexes QuizFold source into tokens.
pub fn lex(input: &str) -> (r: Vec<Token>)
    ensures
        r@ == spec_lex(input.spec_bytes()),
        tokens_wf(r@, input.spec_bytes().len() as int),
{
    lex_bytes(input.as_bytes())
}

pub open spec fn shift_range(r: SourceRange, offset: int) -> SourceRange {
    SourceRange { start: (r.start + offset) as usize, end: (r.end + offset) as usize }
}

/// The token with every range moved `offset` bytes on.
pub open spec fn shift_token(t: Token, offset: int) -> Token {
    Token {
        kind: match t.kind {
            TokenKind::CodeFenceStart { info: Some(r) } => TokenKind::CodeFenceStart {
                info: Some(shift_range(r, offset)),
            },
            TokenKind::Image { alt, destination } => TokenKind::Image {
                alt: shift_range(alt, offset),
                destination: shift_range(destination, offset),
            },
            k => k,
        },
        source_range: shift_range(t.source_range, offset),
    }
}

fn shift(r: SourceRange, offset: usize) -> (s: SourceRange)
    requires
        r.end + offset <= usize::MAX,
        r.start <= r.end,
    ensures
        s == shift_range(r, offset as int),
{
    SourceRange::new(r.start + offset, r.end + offset)
}

/// Lexes text that stands `offset` bytes into a larger source: the tokens
/// of `lex`, each range moved `offset` bytes on.
pub fn lex_with_offset(input: &str, offset: usize) -> (r: Vec<Token>)
    requires
        input.spec_bytes().len() + offset <= usize::MAX,
    ensures
        r@ == spec_lex(input.spec_bytes()).map_values(|t: Token| shift_token(t, offset as int)),
{
    let tokens = lex(input);
    let ghost len = input.spec_bytes().len() as int;
    let mut out: Vec<Token> = Vec::new();
    let mut i: usize = 0;
    while i < tokens.len()
        invariant
            i <= tokens@.len(),
            tokens_wf(tokens@, len),
            len + offset <= usize::MAX,
            out@ == tokens@.subrange(0, i as int).map_values(|t: Token| shift_token(t, offset as int)),
        decreases tokens@.len() - i,
    {
        let t = tokens[i];
        assert(token_wf(tokens@[i as int], len));
        let kind = match t.kind {
            TokenKind::CodeFenceStart { info: Some(r) } => TokenKind::CodeFenceStart {
                info: Some(shift(r, offset)),
            },
            TokenKind::Image { alt, destination } => TokenKind::Image {
                alt: shift(alt, offset),
                destination: shift(destination, offset),
            },
            k => k,
        };
        out.push(Token { kind, source_range: shift(t.source_range, offset) });
        assert(out@ =~= tokens@.subrange(0, i + 1).map_values(|t: Token| shift_token(t, offset as int)));
        i = i + 1;
    }
    assert(tokens@.subrange(0, i as int) =~= tokens@);
    out
}

/// Lexes the UTF-8 bytes of a source.
pub fn lex_bytes(s: &[u8]) -> (r: Vec<Token>)
    ensures
        r@ == spec_lex(s@),
        tokens_wf(r@, s@.len() as int),
{
    let mut tokens: Vec<Token> = Vec::new();
    let mut cursor: usize = 0;
    let mut mode: Option<BlockMode> = None;
    while cursor < s.len()
        invariant
            cursor <= s@.len(),
            tokens@ + lines_tokens(s@, cursor as int, mode) == spec_lex(s@),
            tokens_wf(tokens@, s@.len() as int),
            tokens_end_by(tokens@, cursor as int),
        decreases s@.len() - cursor,
    {
        let ghost before = tokens@;
        let ghost before_mode = mode;
        let ghost old_cursor = cursor as int;
        let line_end = find_byte(s, cursor, s.len(), 10u8);
        proof {
            lemma_find_in_bounds(s@, cursor as int, s@.len() as int, 10u8);
        }
        let content = if line_end > cursor && s[line_end - 1] == 13u8 {
            line_end - 1
        } else {
            line_end
        };
        mode = lex_line(s, cursor, content, mode, &mut tokens);
        let ghost line = line_tokens(s@, old_cursor, content as int, before_mode);
        assert(tokens@ == before + line.0);
        if line_end < s.len() {
            proof {
                lemma_end_by_weaken(tokens@, content as int, line_end as int);
            }
            push(&mut tokens, TokenKind::Newline, line_end, line_end + 1, Ghost(s@.len() as int));
            cursor = line_end + 1;
            assert(lines_tokens(s@, old_cursor, before_mode) == line.0 + seq![
                tok(TokenKind::Newline, line_end as int, line_end + 1),
            ] + lines_tokens(s@, line_end + 1, mode));
            assert(tokens@ + lines_tokens(s@, cursor as int, mode) =~= before + lines_tokens(
                s@,
                old_cursor,
                before_mode,
            ));
        } else {
            cursor = line_end;
            assert(lines_tokens(s@, old_cursor, before_mode) == line.0);
            assert(tokens@ + lines_tokens(s@, cursor as int, mode) =~= before + line.0);
        }
    }
    tokens
}

fn push(tokens: &mut Vec<Token>, kind: TokenKind, start: usize, end: usize, Ghost(len): Ghost<int>)
    requires
        token_wf(Token { kind, source_range: SourceRange { start, end } }, len),
        tokens_wf(old(tokens)@, len),
        tokens_end_by(old(tokens)@, start as int),
    ensures
        final(tokens)@ == old(tokens)@.push(Token { kind, source_range: SourceRange { start, end } }),
        tokens_wf(final(tokens)@, len),
        tokens_end_by(final(tokens)@, end as int),
{
    let t = Token { kind, source_range: SourceRange::new(start, end) };
    proof {
        lemma_push_token(old(tokens)@, t, len, start as int);
    }
    tokens.push(t);
}

fn flush_raw(tokens: &mut Vec<Token>, start: usize, end: usize, Ghost(len): Ghost<int>)
    requires
        end <= len,
        tokens_wf(old(tokens)@, len),
        tokens_end_by(old(tokens)@, start as int),
        start <= end,
    ensures
        final(tokens)@ == old(tokens)@ + raw_run(start as int, end as int),
        tokens_wf(final(tokens)@, len),
        tokens_end_by(final(tokens)@, end as int),
{
    if start < end {
        push(tokens, TokenKind::Raw, start, end, Ghost(len));
        assert(final(tokens)@ =~= old(tokens)@ + raw_run(start as int, end as int));
    } else {
        assert(old(tokens)@ + raw_run(start as int, end as int) =~= old(tokens)@);
    }
}


/// Lexes one line `start..end` in `mode`, returning the mode for the next line.
fn lex_line(s: &[u8], start: usize, end: usize, mode: Option<BlockMode>, tokens: &mut Vec<Token>) -> (r:
    Option<BlockMode>)
    requires
        start <= end <= s@.len(),
        tokens_wf(old(tokens)@, s@.len() as int),
        tokens_end_by(old(tokens)@, start as int),
    ensures
        final(tokens)@ == old(tokens)@ + line_tokens(s@, start as int, end as int, mode).0,
        r == line_tokens(s@, start as int, end as int, mode).1,
        tokens_wf(final(tokens)@, s@.len() as int),
        tokens_end_by(final(tokens)@, end as int),
{
    let len = Ghost(s@.len() as int);
    match mode {
        Some(BlockMode::Code) => {
            if bytes_equal(s, start, end, &[96u8, 96u8, 96u8]) {
                push(tokens, TokenKind::CodeFenceEnd, start, end, len);
                None
            } else {
                push(tokens, TokenKind::Raw, start, end, len);
                Some(BlockMode::Code)
            }
        },
        Some(BlockMode::Math) => {
            if bytes_equal(s, start, end, &[36u8, 36u8]) {
                push(tokens, TokenKind::MathBlockDelimiter, start, end, len);
                None
            } else {
                push(tokens, TokenKind::Raw, start, end, len);
                Some(BlockMode::Math)
            }
        },
        None => {
            if bytes_equal(s, start, end, &[36u8, 36u8]) {
                push(tokens, TokenKind::MathBlockDelimiter, start, end, len);
                Some(BlockMode::Math)
            } else if bytes_at(s, start, end, &[96u8, 96u8, 96u8]) {
                let info = code_fence_info(s, start, end);
                push(tokens, TokenKind::CodeFenceStart { info }, start, end, len);
                Some(BlockMode::Code)
            } else if bytes_equal(s, start, end, &[45u8, 45u8, 45u8]) {
                push(tokens, TokenKind::AnswerSeparator, start, end, len);
                None
            } else if bytes_equal(s, start, end, &[64u8, 109u8, 101u8, 109u8, 111u8]) {
                push(tokens, TokenKind::MemoStart, start, end, len);
                None
            } else if bytes_equal(s, start, end, &[64u8, 101u8, 110u8, 100u8]) {
                push(tokens, TokenKind::MemoEnd, start, end, len);
                None
            } else {
                lex_normal_line(s, start, end, tokens);
                None
            }
        },
    }
}

/// The info string range of a code fence line `start..end`.
fn code_fence_info(s: &[u8], start: usize, end: usize) -> (r: Option<SourceRange>)
    requires
        start + 3 <= end <= s@.len(),
    ensures
        r == fence_info(s@, start as int, end as int),
        r matches Some(range) ==> start <= range.start <= range.end <= end,
{
    let mut i = start + 3;
    while i < end && whitespace_width(s, i, end) > 0
        invariant
            start + 3 <= i <= end <= s@.len(),
            skip_ws(s@, start + 3, end as int) == skip_ws(s@, i as int, end as int),
        decreases end - i,
    {
        let w = whitespace_width(s, i, end);
        assert(ws_width(s@, i as int, end as int) <= end - i) by {
            assert(i < end);
        }
        i = i + w;
    }
    if i < end {
        Some(SourceRange::new(i, end))
    } else {
        None
    }
}

/// Lexes an ordinary line: an optional quiz marker followed by inline content.
fn lex_normal_line(s: &[u8], start: usize, end: usize, tokens: &mut Vec<Token>)
    requires
        start <= end <= s@.len(),
        tokens_wf(old(tokens)@, s@.len() as int),
        tokens_end_by(old(tokens)@, start as int),
    ensures
        final(tokens)@ == old(tokens)@ + normal_line_tokens(s@, start as int, end as int),
        tokens_wf(final(tokens)@, s@.len() as int),
        tokens_end_by(final(tokens)@, end as int),
{
    let len = Ghost(s@.len() as int);
    if bytes_at(s, start, end, &[63u8, 32u8]) {
        push(tokens, TokenKind::QuestionMarker, start, start + 2, len);
        let ghost mid = tokens@;
        lex_inline_range(s, start + 2, end, tokens);
        assert(final(tokens)@ =~= old(tokens)@ + normal_line_tokens(s@, start as int, end as int));
    } else if bytes_at(s, start, end, &[33u8, 32u8]) {
        push(tokens, TokenKind::FoldMarker, start, start + 2, len);
        lex_inline_range(s, start + 2, end, tokens);
        assert(final(tokens)@ =~= old(tokens)@ + normal_line_tokens(s@, start as int, end as int));
    } else {
        lex_inline_range(s, start, end, tokens);
    }
}

/// Lexes inline content `start..end`: images, fold blanks and inline math.
fn lex_inline_range(s: &[u8], start: usize, end: usize, tokens: &mut Vec<Token>)
    requires
        start <= end <= s@.len(),
        tokens_wf(old(tokens)@, s@.len() as int),
        tokens_end_by(old(tokens)@, start as int),
    ensures
        final(tokens)@ == old(tokens)@ + inline_tokens(
            s@,
            start as int,
            end as int,
            start as int,
            start as int,
            false,
            false,
        ),
        tokens_wf(final(tokens)@, s@.len() as int),
        tokens_end_by(final(tokens)@, end as int),
{
    let len = Ghost(s@.len() as int);
    let mut cursor = start;
    let mut raw_start = start;
    let mut in_blank = false;
    let mut in_math = false;
    while cursor < end
        invariant
            start <= raw_start <= cursor <= end <= s@.len(),
            len@ == s@.len(),
            tokens_wf(tokens@, s@.len() as int),
            tokens_end_by(tokens@, raw_start as int),
            tokens@ + inline_tokens(
                s@,
                start as int,
                end as int,
                cursor as int,
                raw_start as int,
                in_blank,
                in_math,
            ) == old(tokens)@ + inline_tokens(
                s@,
                start as int,
                end as int,
                start as int,
                start as int,
                false,
                false,
            ),
        decreases end - cursor,
    {
        let ghost before = tokens@;
        let ghost rest = inline_tokens(
            s@,
            start as int,
            end as int,
            cursor as int,
            raw_start as int,
            in_blank,
            in_math,
        );
        if bytes_at(s, cursor, end, &[33u8, 91u8]) && !in_math && !in_blank {
            if let Some((image_end, alt, destination)) = image_at(s, cursor, end) {
                flush_raw(tokens, raw_start, cursor, len);
                push(tokens, TokenKind::Image { alt, destination }, cursor, image_end, len);
                assert(tokens@ + inline_tokens(
                    s@,
                    start as int,
                    end as int,
                    image_end as int,
                    image_end as int,
                    in_blank,
                    in_math,
                ) =~= before + rest);
                cursor = image_end;
                raw_start = cursor;
                continue;
            }
        }
        if bytes_at(s, cursor, end, &[36u8, 123u8]) && !in_math {
            flush_raw(tokens, raw_start, cursor, len);
            push(tokens, TokenKind::FoldBlankStart, cursor, cursor + 2, len);
            assert(tokens@ + inline_tokens(
                s@,
                start as int,
                end as int,
                cursor + 2,
                cursor + 2,
                true,
                in_math,
            ) =~= before + rest);
            cursor = cursor + 2;
            raw_start = cursor;
            in_blank = true;
            continue;
        }
        let byte = s[cursor];
        if byte == 125u8 && in_blank && !in_math {
            flush_raw(tokens, raw_start, cursor, len);
            push(tokens, TokenKind::FoldBlankEnd, cursor, cursor + 1, len);
            assert(tokens@ + inline_tokens(
                s@,
                start as int,
                end as int,
                cursor + 1,
                cursor + 1,
                false,
                in_math,
            ) =~= before + rest);
            cursor = cursor + 1;
            raw_start = cursor;
            in_blank = false;
            continue;
        }
        if byte == 36u8 && !is_escaped(s, cursor, start) {
            let valid = if in_math {
                cursor > 0 && !whitespace_ends_at(s, cursor)
            } else {
                cursor + 1 < end && whitespace_width(s, cursor + 1, end) == 0 && s[cursor + 1] != 36u8
            };
            if valid {
                flush_raw(tokens, raw_start, cursor, len);
                push(tokens, TokenKind::MathInlineDelimiter, cursor, cursor + 1, len);
                assert(tokens@ + inline_tokens(
                    s@,
                    start as int,
                    end as int,
                    cursor + 1,
                    cursor + 1,
                    in_blank,
                    !in_math,
                ) =~= before + rest);
                cursor = cursor + 1;
                raw_start = cursor;
                in_math = !in_math;
                continue;
            }
        }
        cursor = cursor + 1;
    }
    flush_raw(tokens, raw_start, end, len);
}

/// A backslash escapes the byte at `index`.
fn is_escaped(s: &[u8], index: usize, lower_bound: usize) -> (r: bool)
    requires
        index < s@.len(),
    ensures
        r == escaped(s@, index as int, lower_bound as int),
{
    index > lower_bound && s[index - 1] == 92u8
}

/// Recognises `![alt](destination)` at `start`.
fn image_at(s: &[u8], start: usize, end: usize) -> (r: Option<(usize, SourceRange, SourceRange)>)
    requires
        start + 2 <= end <= s@.len(),
    ensures
        r matches Some(v) ==> spec_image_at(s@, start as int, end as int) == Some(
            (v.0 as int, v.1, v.2),
        ),
        r is None ==> spec_image_at(s@, start as int, end as int) is None,
        r matches Some(v) ==> start < v.0 <= end && start + 2 == v.1.start && v.1.start <= v.1.end
            && v.1.end < v.2.start && v.2.start <= v.2.end && v.2.end < v.0,
{
    let alt_start = start + 2;
    let alt_end = find_byte(s, alt_start, end, 93u8);
    if alt_end >= end {
        return None;
    }
    if alt_end + 1 >= end || s[alt_end + 1] != 40u8 {
        return None;
    }
    let destination_start = alt_end + 2;
    let destination_end = find_byte(s, destination_start, end, 41u8);
    if destination_end >= end {
        return None;
    }
    Some(
        (
            destination_end + 1,
            SourceRange::new(alt_start, alt_end),
            SourceRange::new(destination_start, destination_end),
        ),
    )
}

} // verus!
