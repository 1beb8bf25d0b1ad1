//! What the token stream says of its source: the tokens of a line lie in the
//! line, line breaks are exactly the `Newline` tokens, and without carriage
//! returns at line ends the tokens tile the source.
use crate::lexer::{
    BlockMode, Token, TokenKind, content_end, image_found, inline_tokens, line_tokens,
    lines_tokens, raw_run, spec_image_at, spec_lex, tok,
};
use crate::parse::cursor::{LexedLine, lines_from, spec_collect_lines};
use crate::source::SourceRange;
use crate::text::{find_in, lemma_find_in_bounds, source_text, starts_with_at};
use vstd::utf8::{
    decode_utf8, encode_utf8, encode_utf8_valid_utf8, is_char_boundary,
    is_char_boundary_iff_not_is_continuation_byte, is_char_boundary_start_end_of_seq,
    length_of_first_scalar, pop_first_scalar, valid_first_scalar, valid_utf8, valid_utf8_split,
};
use vstd::prelude::*;

verus! {

/// The tokens follow each other without gaps from `a` to `b`.
pub open spec fn tiles(ts: Seq<Token>, a: int, b: int) -> bool {
    &&& a <= b
    &&& ts.len() == 0 ==> a == b
    &&& ts.len() > 0 ==> ts[0].source_range.start == a && ts.last().source_range.end == b
    &&& forall|i: int| 0 <= i < ts.len() ==> (#[trigger] ts[i]).source_range.start <= ts[i].source_range.end
    &&& forall|i: int|
        0 <= i < ts.len() - 1 ==> (#[trigger] ts[i]).source_range.end == ts[i + 1].source_range.start
}

/// Every token lies within `a..b` and none is a line break.
pub open spec fn inside_line(ts: Seq<Token>, a: int, b: int) -> bool {
    forall|i: int|
        0 <= i < ts.len() ==> a <= (#[trigger] ts[i]).source_range.start <= ts[i].source_range.end <= b
            && ts[i].kind != TokenKind::Newline
}

/// A carriage return never ends a line: it is followed by a byte other than a
/// line feed.
pub open spec fn no_cr_line_end(s: Seq<u8>) -> bool {
    forall|i: int| 0 <= i < s.len() && #[trigger] s[i] == 13u8 ==> i + 1 < s.len() && s[i + 1] != 10u8
}

/// `Newline` tokens stand exactly on line feeds, and no other token covers one.
pub open spec fn newlines_exact(s: Seq<u8>, ts: Seq<Token>) -> bool {
    forall|i: int|
        0 <= i < ts.len() ==> {
            let t = #[trigger] ts[i];
            &&& t.kind == TokenKind::Newline ==> t.source_range.end == t.source_range.start + 1
                && 0 <= t.source_range.start < s.len() && s[t.source_range.start as int] == 10u8
            &&& t.kind != TokenKind::Newline ==> forall|j: int|
                t.source_range.start <= j < t.source_range.end ==> #[trigger] s[j] != 10u8
        }
}

/// Every line feed from `a` on has its `Newline` token.
pub open spec fn newlines_covered(s: Seq<u8>, ts: Seq<Token>, a: int) -> bool {
    forall|j: int|
        a <= j < s.len() && #[trigger] s[j] == 10u8 ==> exists|i: int|
            0 <= i < ts.len() && #[trigger] ts[i] == tok(TokenKind::Newline, j, j + 1)
}

proof fn lemma_tiles_concat(x: Seq<Token>, y: Seq<Token>, a: int, m: int, b: int)
    requires
        tiles(x, a, m),
        tiles(y, m, b),
    ensures
        tiles(x + y, a, b),
{
    let z = x + y;
    if x.len() == 0 {
        assert(z =~= y);
    } else if y.len() == 0 {
        assert(z =~= x);
    } else {
        assert(z[0] == x[0]);
        assert(z.last() == y.last());
        assert forall|i: int| 0 <= i < z.len() implies (#[trigger] z[i]).source_range.start
            <= z[i].source_range.end by {
            if i < x.len() {
                assert(z[i] == x[i]);
            } else {
                assert(z[i] == y[i - x.len()]);
            }
        }
        assert forall|i: int| 0 <= i < z.len() - 1 implies (#[trigger] z[i]).source_range.end
            == z[i + 1].source_range.start by {
            if i < x.len() - 1 {
                assert(z[i] == x[i] && z[i + 1] == x[i + 1]);
            } else if i == x.len() - 1 {
                assert(z[i] == x.last() && z[i + 1] == y[0]);
            } else {
                assert(z[i] == y[i - x.len()] && z[i + 1] == y[i + 1 - x.len()]);
            }
        }
    }
}

proof fn lemma_inside_concat(x: Seq<Token>, y: Seq<Token>, a: int, b: int)
    requires
        inside_line(x, a, b),
        inside_line(y, a, b),
    ensures
        inside_line(x + y, a, b),
{
    assert forall|i: int| 0 <= i < (x + y).len() implies a <= (#[trigger] (x + y)[i]).source_range.start
        <= (x + y)[i].source_range.end <= b && (x + y)[i].kind != TokenKind::Newline by {
        if i < x.len() {
            assert((x + y)[i] == x[i]);
        } else {
            assert((x + y)[i] == y[i - x.len()]);
        }
    }
}

proof fn lemma_inside_widen(x: Seq<Token>, a: int, b: int, a2: int, b2: int)
    requires
        inside_line(x, a, b),
        a2 <= a,
        b <= b2,
    ensures
        inside_line(x, a2, b2),
{
}

proof fn lemma_one_token(kind: TokenKind, a: int, b: int)
    requires
        0 <= a <= b <= usize::MAX,
    ensures
        tiles(seq![tok(kind, a, b)], a, b),
        kind != TokenKind::Newline ==> inside_line(seq![tok(kind, a, b)], a, b),
{
    assert(seq![tok(kind, a, b)][0] == tok(kind, a, b));
}

proof fn lemma_raw_run(a: int, b: int)
    requires
        0 <= a <= b <= usize::MAX,
    ensures
        tiles(raw_run(a, b), a, b),
        inside_line(raw_run(a, b), a, b),
{
    if a < b {
        lemma_one_token(TokenKind::Raw, a, b);
    }
}

// ---------------------------------------------------------------------
// Lines.
proof fn lemma_inline_tokens(
    s: Seq<u8>,
    start: int,
    end: int,
    cursor: int,
    raw_start: int,
    in_blank: bool,
    in_math: bool,
)
    requires
        0 <= raw_start <= cursor <= end <= s.len() <= usize::MAX,
    ensures
        tiles(inline_tokens(s, start, end, cursor, raw_start, in_blank, in_math), raw_start, end),
        inside_line(inline_tokens(s, start, end, cursor, raw_start, in_blank, in_math), raw_start, end),
    decreases end - cursor,
{
    if cursor >= end {
        lemma_raw_run(raw_start, end);
    } else if starts_with_at(s, cursor, end, crate::lexer::pat_image()) && !in_math && !in_blank
        && image_found(s, cursor, end) {
        let (image_end, alt, destination) = spec_image_at(s, cursor, end)->0;
        lemma_find_in_bounds(s, cursor + 2, end, 93u8);
        let alt_end = find_in(s, cursor + 2, end, 93u8);
        lemma_find_in_bounds(s, alt_end + 2, end, 41u8);
        assert(image_end <= end);
        lemma_raw_run(raw_start, cursor);
        lemma_one_token(TokenKind::Image { alt, destination }, cursor, image_end);
        lemma_inline_tokens(s, start, end, image_end, image_end, in_blank, in_math);
        let x = raw_run(raw_start, cursor);
        let y = seq![tok(TokenKind::Image { alt, destination }, cursor, image_end)];
        let z = inline_tokens(s, start, end, image_end, image_end, in_blank, in_math);
        lemma_tiles_concat(x, y, raw_start, cursor, image_end);
        lemma_tiles_concat(x + y, z, raw_start, image_end, end);
        lemma_inside_widen(x, raw_start, cursor, raw_start, end);
        lemma_inside_widen(y, cursor, image_end, raw_start, end);
        lemma_inside_widen(z, image_end, end, raw_start, end);
        lemma_inside_concat(x, y, raw_start, end);
        lemma_inside_concat(x + y, z, raw_start, end);
    } else if starts_with_at(s, cursor, end, crate::lexer::pat_blank()) && !in_math {
        let n = cursor + 2;
        lemma_step(s, start, end, cursor, raw_start, n, TokenKind::FoldBlankStart, true, in_math);
    } else if s[cursor] == 125u8 && in_blank && !in_math {
        lemma_step(s, start, end, cursor, raw_start, cursor + 1, TokenKind::FoldBlankEnd, false, in_math);
    } else if s[cursor] == 36u8 && !crate::lexer::escaped(s, cursor, start) && crate::lexer::dollar_delimits(
        s,
        cursor,
        end,
        in_math,
    ) {
        lemma_step(
            s,
            start,
            end,
            cursor,
            raw_start,
            cursor + 1,
            TokenKind::MathInlineDelimiter,
            in_blank,
            !in_math,
        );
    } else {
        lemma_inline_tokens(s, start, end, cursor + 1, raw_start, in_blank, in_math);
    }
}

/// A marker token from `cursor` to `next`, with the raw run before it.
proof fn lemma_step(
    s: Seq<u8>,
    start: int,
    end: int,
    cursor: int,
    raw_start: int,
    next: int,
    kind: TokenKind,
    in_blank: bool,
    in_math: bool,
)
    requires
        0 <= raw_start <= cursor < next <= end <= s.len() <= usize::MAX,
        kind != TokenKind::Newline,
    ensures
        tiles(
            raw_run(raw_start, cursor) + seq![tok(kind, cursor, next)] + inline_tokens(
                s,
                start,
                end,
                next,
                next,
                in_blank,
                in_math,
            ),
            raw_start,
            end,
        ),
        inside_line(
            raw_run(raw_start, cursor) + seq![tok(kind, cursor, next)] + inline_tokens(
                s,
                start,
                end,
                next,
                next,
                in_blank,
                in_math,
            ),
            raw_start,
            end,
        ),
    decreases end - cursor, 0int,
{
    lemma_raw_run(raw_start, cursor);
    lemma_one_token(kind, cursor, next);
    lemma_inline_tokens(s, start, end, next, next, in_blank, in_math);
    let x = raw_run(raw_start, cursor);
    let y = seq![tok(kind, cursor, next)];
    let z = inline_tokens(s, start, end, next, next, in_blank, in_math);
    lemma_tiles_concat(x, y, raw_start, cursor, next);
    lemma_tiles_concat(x + y, z, raw_start, next, end);
    lemma_inside_widen(x, raw_start, cursor, raw_start, end);
    lemma_inside_widen(y, cursor, next, raw_start, end);
    lemma_inside_widen(z, next, end, raw_start, end);
    lemma_inside_concat(x, y, raw_start, end);
    lemma_inside_concat(x + y, z, raw_start, end);
}

proof fn lemma_line_tokens(s: Seq<u8>, start: int, end: int, mode: Option<BlockMode>)
    requires
        0 <= start <= end <= s.len() <= usize::MAX,
    ensures
        tiles(line_tokens(s, start, end, mode).0, start, end),
        inside_line(line_tokens(s, start, end, mode).0, start, end),
{
    let ts = line_tokens(s, start, end, mode).0;
    let normal = mode is None && !crate::text::bytes_are(s, start, end, crate::lexer::pat_math())
        && !starts_with_at(s, start, end, crate::lexer::pat_fence()) && !crate::text::bytes_are(
        s,
        start,
        end,
        crate::lexer::pat_separator(),
    ) && !crate::text::bytes_are(s, start, end, crate::lexer::pat_memo_start())
        && !crate::text::bytes_are(s, start, end, crate::lexer::pat_memo_end());
    if !normal {
        assert(ts.len() == 1 && ts[0].source_range.start == start && ts[0].source_range.end == end);
        lemma_one_token(ts[0].kind, start, end);
        assert(ts =~= seq![tok(ts[0].kind, start, end)]);
    } else {
        let q = starts_with_at(s, start, end, crate::lexer::pat_question());
        let f = starts_with_at(s, start, end, crate::lexer::pat_fold());
        if q || f {
            let kind = if q {
                TokenKind::QuestionMarker
            } else {
                TokenKind::FoldMarker
            };
            lemma_one_token(kind, start, start + 2);
            lemma_inline_tokens(s, start + 2, end, start + 2, start + 2, false, false);
            let x = seq![tok(kind, start, start + 2)];
            let z = inline_tokens(s, start + 2, end, start + 2, start + 2, false, false);
            lemma_tiles_concat(x, z, start, start + 2, end);
            lemma_inside_widen(x, start, start + 2, start, end);
            lemma_inside_widen(z, start + 2, end, start, end);
            lemma_inside_concat(x, z, start, end);
        } else {
            lemma_inline_tokens(s, start, end, start, start, false, false);
        }
    }
}

// ---------------------------------------------------------------------
// The source.
proof fn lemma_exact_concat(s: Seq<u8>, x: Seq<Token>, y: Seq<Token>)
    requires
        newlines_exact(s, x),
        newlines_exact(s, y),
    ensures
        newlines_exact(s, x + y),
{
    assert forall|i: int| 0 <= i < (x + y).len() implies {
        let t = #[trigger] (x + y)[i];
        &&& t.kind == TokenKind::Newline ==> t.source_range.end == t.source_range.start + 1
            && 0 <= t.source_range.start < s.len() && s[t.source_range.start as int] == 10u8
        &&& t.kind != TokenKind::Newline ==> forall|j: int|
            t.source_range.start <= j < t.source_range.end ==> #[trigger] s[j] != 10u8
    } by {
        if i < x.len() {
            assert((x + y)[i] == x[i]);
        } else {
            assert((x + y)[i] == y[i - x.len()]);
        }
    }
}

proof fn lemma_line_exact(s: Seq<u8>, ts: Seq<Token>, a: int, b: int)
    requires
        inside_line(ts, a, b),
        forall|j: int| a <= j < b ==> s[j] != 10u8,
    ensures
        newlines_exact(s, ts),
{
    assert forall|i: int| 0 <= i < ts.len() implies {
        let t = #[trigger] ts[i];
        &&& t.kind == TokenKind::Newline ==> t.source_range.end == t.source_range.start + 1
            && 0 <= t.source_range.start < s.len() && s[t.source_range.start as int] == 10u8
        &&& t.kind != TokenKind::Newline ==> forall|j: int|
            t.source_range.start <= j < t.source_range.end ==> #[trigger] s[j] != 10u8
    } by {
        let t = ts[i];
        assert forall|j: int| t.source_range.start <= j < t.source_range.end implies #[trigger] s[j]
            != 10u8 by {
            assert(a <= j < b);
        }
    }
}

proof fn lemma_lines_tokens(s: Seq<u8>, cursor: int, mode: Option<BlockMode>)
    requires
        0 <= cursor <= s.len() <= usize::MAX,
    ensures
        newlines_exact(s, lines_tokens(s, cursor, mode)),
        newlines_covered(s, lines_tokens(s, cursor, mode), cursor),
        no_cr_line_end(s) ==> tiles(lines_tokens(s, cursor, mode), cursor, s.len() as int),
    decreases s.len() - cursor,
{
    let ts = lines_tokens(s, cursor, mode);
    let len = s.len() as int;
    if cursor >= len {
        assert(ts.len() == 0);
    } else {
        lemma_find_in_bounds(s, cursor, len, 10u8);
        let line_end = find_in(s, cursor, len, 10u8);
        let ce = content_end(s, cursor, line_end);
        let (tokens, next_mode) = line_tokens(s, cursor, ce, mode);
        lemma_line_tokens(s, cursor, ce, mode);
        lemma_line_exact(s, tokens, cursor, ce);
        if no_cr_line_end(s) && line_end > cursor && s[line_end - 1] == 13u8 {
            assert(s[line_end - 1] == 13u8);
        }
        if line_end < len {
            let nl = seq![tok(TokenKind::Newline, line_end, line_end + 1)];
            let rest = lines_tokens(s, line_end + 1, next_mode);
            lemma_lines_tokens(s, line_end + 1, next_mode);
            assert(nl[0] == tok(TokenKind::Newline, line_end, line_end + 1));
            assert(newlines_exact(s, nl));
            lemma_exact_concat(s, tokens, nl);
            lemma_exact_concat(s, tokens + nl, rest);
            assert(ts == tokens + nl + rest);
            assert forall|j: int| cursor <= j < len && #[trigger] s[j] == 10u8 implies exists|i: int|
                0 <= i < ts.len() && #[trigger] ts[i] == tok(TokenKind::Newline, j, j + 1) by {
                if j == line_end {
                    assert(ts[tokens.len() as int] == nl[0]);
                } else {
                    assert(j > line_end);
                    let i = choose|i: int|
                        0 <= i < rest.len() && #[trigger] rest[i] == tok(TokenKind::Newline, j, j + 1);
                    assert(ts[tokens.len() + 1 + i] == rest[i]);
                }
            }
            if no_cr_line_end(s) {
                assert(ce == line_end);
                lemma_one_token(TokenKind::Newline, line_end, line_end + 1);
                lemma_tiles_concat(tokens, nl, cursor, line_end, line_end + 1);
                lemma_tiles_concat(tokens + nl, rest, cursor, line_end + 1, len);
            }
        } else {
            assert(ts == tokens);
            if no_cr_line_end(s) {
                assert(ce == line_end);
            }
        }
    }
}

/// `Newline` tokens stand exactly on the line feeds of the source, one for
/// each, and no other token covers a line feed.
pub proof fn lemma_line_feeds_are_newline_tokens(s: Seq<u8>)
    requires
        s.len() <= usize::MAX,
    ensures
        newlines_exact(s, spec_lex(s)),
        newlines_covered(s, spec_lex(s), 0),
{
    lemma_lines_tokens(s, 0, None);
}

/// Unless a carriage return ends a line, the tokens tile the source: the
/// first starts at 0, each ends where the next starts, and the last ends at
/// the end of the source (there is no token exactly when the source is
/// empty).
pub proof fn lemma_tokens_tile_source(s: Seq<u8>)
    requires
        s.len() <= usize::MAX,
        no_cr_line_end(s),
    ensures
        tiles(spec_lex(s), 0, s.len() as int),
{
    lemma_lines_tokens(s, 0, None);
}

// ---------------------------------------------------------------------
// Lines.
/// Line `k` ends at the `Newline` token right after its tokens, or it is the
/// last line and runs to the end of the source.
pub open spec fn line_ends(ls: Seq<LexedLine>, ts: Seq<Token>, len: int, k: int) -> bool {
    let l = ls[k];
    if l.token_end < ts.len() {
        &&& ts[l.token_end as int].kind == TokenKind::Newline
        &&& l.content_range.end == ts[l.token_end as int].source_range.start
        &&& l.full_end == ts[l.token_end as int].source_range.end
    } else {
        &&& k == ls.len() - 1
        &&& l.token_end == ts.len()
        &&& l.content_range.end == len
        &&& l.full_end == len
    }
}

/// The lines cut the token stream at its `Newline` tokens: the first line
/// starts at token 0 and byte 0, each line starts right after the line break
/// of the one before, holds no `Newline` token, and ends at its own.
pub open spec fn lines_cut_at_newlines(ls: Seq<LexedLine>, ts: Seq<Token>, len: int) -> bool {
    &&& ls.len() > 0 ==> ls[0].token_start == 0 && ls[0].content_range.start == 0
    &&& forall|k: int|
        0 <= k < ls.len() - 1 ==> (#[trigger] ls[k]).token_end + 1 == ls[k + 1].token_start
            && ls[k].full_end == ls[k + 1].content_range.start
    &&& forall|k: int, t: int|
        0 <= k < ls.len() && (#[trigger] ls[k]).token_start <= t < ls[k].token_end ==> (#[trigger] ts[t]).kind
            != TokenKind::Newline
    &&& forall|k: int| 0 <= k < ls.len() ==> #[trigger] line_ends(ls, ts, len, k)
}

proof fn lemma_lines_from(
    ts: Seq<Token>,
    len: int,
    i: int,
    token_start: int,
    source_start: int,
    acc: Seq<LexedLine>,
)
    requires
        0 <= token_start <= i <= ts.len() <= usize::MAX,
        0 <= source_start <= len <= usize::MAX,
        forall|t: int| 0 <= t < ts.len() ==> (#[trigger] ts[t]).source_range.end <= len,
        lines_cut_at_newlines(acc, ts, len),
        acc.len() == 0 ==> token_start == 0 && source_start == 0,
        acc.len() > 0 ==> acc.last().token_end + 1 == token_start && acc.last().full_end == source_start
            && acc.last().token_end < ts.len(),
        forall|t: int| token_start <= t < i ==> (#[trigger] ts[t]).kind != TokenKind::Newline,
    ensures
        lines_cut_at_newlines(lines_from(ts, len, i, token_start, source_start, acc), ts, len),
    decreases ts.len() - i,
{
    if i >= ts.len() {
        if source_start < len {
            let l = LexedLine {
                token_start: token_start as usize,
                token_end: ts.len() as usize,
                content_range: SourceRange { start: source_start as usize, end: len as usize },
                full_end: len as usize,
            };
            lemma_push_line(acc, l, ts, len);
        }
    } else if ts[i].kind == TokenKind::Newline {
        let l = LexedLine {
            token_start: token_start as usize,
            token_end: i as usize,
            content_range: SourceRange { start: source_start as usize, end: ts[i].source_range.start },
            full_end: ts[i].source_range.end,
        };
        lemma_push_line(acc, l, ts, len);
        lemma_lines_from(ts, len, i + 1, i + 1, ts[i].source_range.end as int, acc.push(l));
    } else {
        lemma_lines_from(ts, len, i + 1, token_start, source_start, acc);
    }
}

proof fn lemma_push_line(acc: Seq<LexedLine>, l: LexedLine, ts: Seq<Token>, len: int)
    requires
        lines_cut_at_newlines(acc, ts, len),
        acc.len() == 0 ==> l.token_start == 0 && l.content_range.start == 0,
        acc.len() > 0 ==> acc.last().token_end + 1 == l.token_start && acc.last().full_end
            == l.content_range.start && acc.last().token_end < ts.len(),
        forall|t: int| l.token_start <= t < l.token_end ==> (#[trigger] ts[t]).kind != TokenKind::Newline,
        l.token_end <= ts.len(),
        l.token_end < ts.len() ==> ts[l.token_end as int].kind == TokenKind::Newline
            && l.content_range.end == ts[l.token_end as int].source_range.start
            && l.full_end == ts[l.token_end as int].source_range.end,
        l.token_end == ts.len() ==> l.content_range.end == len && l.full_end == len,
    ensures
        lines_cut_at_newlines(acc.push(l), ts, len),
{
    let ls = acc.push(l);
    assert forall|k: int| 0 <= k < ls.len() implies #[trigger] line_ends(ls, ts, len, k) by {
        if k < acc.len() {
            assert(ls[k] == acc[k]);
            assert(line_ends(acc, ts, len, k));
        } else {
            assert(ls[k] == l);
        }
    }
    assert forall|k: int| 0 <= k < ls.len() - 1 implies (#[trigger] ls[k]).token_end + 1 == ls[k + 1].token_start
        && ls[k].full_end == ls[k + 1].content_range.start by {
        assert(ls[k] == acc[k]);
        if k + 1 < acc.len() {
            assert(ls[k + 1] == acc[k + 1]);
        } else {
            assert(ls[k + 1] == l);
        }
    }
    assert forall|k: int, t: int|
        0 <= k < ls.len() && (#[trigger] ls[k]).token_start <= t < ls[k].token_end implies (
    #[trigger] ts[t]).kind != TokenKind::Newline by {
        if k < acc.len() {
            assert(ls[k] == acc[k]);
        } else {
            assert(ls[k] == l);
        }
    }
    if acc.len() > 0 {
        assert(ls[0] == acc[0]);
    }
}

/// The lines of a token stream are cut at its `Newline` tokens.
pub proof fn lemma_lines_cut(ts: Seq<Token>, len: int)
    requires
        crate::lexer::tokens_wf(ts, len),
        ts.len() <= usize::MAX,
        0 <= len <= usize::MAX,
    ensures
        lines_cut_at_newlines(spec_collect_lines(ts, len), ts, len),
{
    assert forall|t: int| 0 <= t < ts.len() implies (#[trigger] ts[t]).source_range.end <= len by {
        assert(crate::lexer::token_wf(ts[t], len));
    }
    if len > 0 {
        lemma_lines_from(ts, len, 0, 0, 0, seq![]);
    }
}

// ---------------------------------------------------------------------
// Counting lines.
/// Line feeds among the bytes `a..b`.
pub open spec fn line_feeds(s: Seq<u8>, a: int, b: int) -> nat
    decreases b - a,
{
    if a >= b || a < 0 || b > s.len() {
        0
    } else {
        (if s[a] == 10u8 {
            1nat
        } else {
            0nat
        }) + line_feeds(s, a + 1, b)
    }
}

/// Where the text after the last line feed of `a..b` starts (`a` when there
/// is none).
pub open spec fn after_last_line_feed(s: Seq<u8>, a: int, b: int) -> int
    decreases b - a,
{
    if a >= b || a < 0 || b > s.len() {
        a
    } else if s[a] == 10u8 {
        after_last_line_feed(s, a + 1, b)
    } else {
        let r = after_last_line_feed(s, a + 1, b);
        if r == a + 1 {
            a
        } else {
            r
        }
    }
}

/// `Newline` tokens of `ts`.
pub open spec fn newline_tokens(ts: Seq<Token>) -> nat
    decreases ts.len(),
{
    if ts.len() == 0 {
        0
    } else {
        (if ts[0].kind == TokenKind::Newline {
            1nat
        } else {
            0nat
        }) + newline_tokens(ts.drop_first())
    }
}

/// Where the text after the last `Newline` token of `ts` starts (`start`
/// when there is none).
pub open spec fn after_last_newline(ts: Seq<Token>, start: int) -> int
    decreases ts.len(),
{
    if ts.len() == 0 {
        start
    } else {
        after_last_newline(
            ts.drop_first(),
            if ts[0].kind == TokenKind::Newline {
                ts[0].source_range.end as int
            } else {
                start
            },
        )
    }
}

proof fn lemma_counts_concat(a: Seq<Token>, b: Seq<Token>, start: int)
    ensures
        newline_tokens(a + b) == newline_tokens(a) + newline_tokens(b),
        after_last_newline(a + b, start) == after_last_newline(b, after_last_newline(a, start)),
    decreases a.len(),
{
    if a.len() > 0 {
        assert((a + b).drop_first() =~= a.drop_first() + b);
        assert((a + b)[0] == a[0]);
        let next = if a[0].kind == TokenKind::Newline {
            a[0].source_range.end as int
        } else {
            start
        };
        lemma_counts_concat(a.drop_first(), b, next);
    } else {
        assert(a + b =~= b);
    }
}

proof fn lemma_no_newline_counts(ts: Seq<Token>, a: int, b: int, start: int)
    requires
        inside_line(ts, a, b),
    ensures
        newline_tokens(ts) == 0,
        after_last_newline(ts, start) == start,
    decreases ts.len(),
{
    if ts.len() > 0 {
        assert(ts[0].kind != TokenKind::Newline);
        assert forall|i: int| 0 <= i < ts.drop_first().len() implies a <= (#[trigger] ts.drop_first()[i]).source_range.start
            <= ts.drop_first()[i].source_range.end <= b && ts.drop_first()[i].kind != TokenKind::Newline by {
            assert(ts.drop_first()[i] == ts[i + 1]);
        }
        lemma_no_newline_counts(ts.drop_first(), a, b, start);
    }
}

proof fn lemma_no_feeds(s: Seq<u8>, a: int, b: int)
    requires
        0 <= a <= b <= s.len(),
        forall|k: int| a <= k < b ==> s[k] != 10u8,
    ensures
        line_feeds(s, a, b) == 0,
        after_last_line_feed(s, a, b) == a,
    decreases b - a,
{
    if a < b {
        lemma_no_feeds(s, a + 1, b);
    }
}

proof fn lemma_feeds_after(s: Seq<u8>, a: int, m: int, b: int)
    requires
        0 <= a <= m < b <= s.len(),
        s[m] == 10u8,
        forall|k: int| a <= k < m ==> s[k] != 10u8,
    ensures
        line_feeds(s, a, b) == 1 + line_feeds(s, m + 1, b),
        after_last_line_feed(s, a, b) == after_last_line_feed(s, m + 1, b),
    decreases m - a,
{
    if a < m {
        lemma_feeds_after(s, a + 1, m, b);
        lemma_after_bounds(s, m + 1, b);
    }
}

proof fn lemma_after_bounds(s: Seq<u8>, a: int, b: int)
    requires
        0 <= a <= b <= s.len(),
    ensures
        a <= after_last_line_feed(s, a, b) <= b,
        after_last_line_feed(s, a, b) > a ==> after_last_line_feed(s, a, b) > a + 1 || s[a] == 10u8,
        after_last_line_feed(s, a, b) == b <==> (a == b || s[b - 1] == 10u8),
    decreases b - a,
{
    if a < b {
        lemma_after_bounds(s, a + 1, b);
    }
}

#[verifier::rlimit(50)]
proof fn lemma_lines_tokens_counts(s: Seq<u8>, cursor: int, mode: Option<BlockMode>)
    requires
        0 <= cursor <= s.len() <= usize::MAX,
    ensures
        newline_tokens(lines_tokens(s, cursor, mode)) == line_feeds(s, cursor, s.len() as int),
        after_last_newline(lines_tokens(s, cursor, mode), cursor) == after_last_line_feed(
            s,
            cursor,
            s.len() as int,
        ),
    decreases s.len() - cursor,
{
    let ts = lines_tokens(s, cursor, mode);
    let len = s.len() as int;
    if cursor < len {
        lemma_find_in_bounds(s, cursor, len, 10u8);
        let line_end = find_in(s, cursor, len, 10u8);
        let ce = content_end(s, cursor, line_end);
        let (tokens, next_mode) = line_tokens(s, cursor, ce, mode);
        lemma_line_tokens(s, cursor, ce, mode);
        lemma_no_newline_counts(tokens, cursor, ce, cursor);
        if line_end < len {
            let nl = seq![tok(TokenKind::Newline, line_end, line_end + 1)];
            let rest = lines_tokens(s, line_end + 1, next_mode);
            lemma_lines_tokens_counts(s, line_end + 1, next_mode);
            assert(ts == tokens + nl + rest);
            lemma_counts_concat(tokens, nl, cursor);
            lemma_counts_concat(tokens + nl, rest, cursor);
            assert(nl.drop_first() =~= Seq::<Token>::empty());
            assert(nl[0].kind == TokenKind::Newline);
            assert(newline_tokens(Seq::<Token>::empty()) == 0);
            assert(newline_tokens(nl) == 1);
            assert(after_last_newline(Seq::<Token>::empty(), line_end + 1) == line_end + 1);
            assert(after_last_newline(nl, cursor) == line_end + 1);
            lemma_feeds_after(s, cursor, line_end, len);
            assert(newline_tokens(ts) == newline_tokens(tokens) + newline_tokens(nl) + newline_tokens(rest));
        } else {
            assert(ts == tokens);
            lemma_no_feeds(s, cursor, len);
        }
    }
}

proof fn lemma_lines_from_count(
    ts: Seq<Token>,
    len: int,
    i: int,
    token_start: int,
    source_start: int,
    acc: Seq<LexedLine>,
)
    requires
        0 <= i <= ts.len(),
    ensures
        lines_from(ts, len, i, token_start, source_start, acc).len() == acc.len() + newline_tokens(
            ts.subrange(i, ts.len() as int),
        ) + if after_last_newline(ts.subrange(i, ts.len() as int), source_start) < len {
            1int
        } else {
            0int
        },
    decreases ts.len() - i,
{
    let sub = ts.subrange(i, ts.len() as int);
    if i < ts.len() {
        assert(sub.drop_first() =~= ts.subrange(i + 1, ts.len() as int));
        assert(sub[0] == ts[i]);
        if ts[i].kind == TokenKind::Newline {
            let l = LexedLine {
                token_start: token_start as usize,
                token_end: i as usize,
                content_range: SourceRange { start: source_start as usize, end: ts[i].source_range.start },
                full_end: ts[i].source_range.end,
            };
            lemma_lines_from_count(ts, len, i + 1, i + 1, ts[i].source_range.end as int, acc.push(l));
        } else {
            lemma_lines_from_count(ts, len, i + 1, token_start, source_start, acc);
        }
    } else {
        assert(sub.len() == 0);
    }
}

/// A source has one line for each line feed, and one more when it does not
/// end with a line feed and is not empty.
pub proof fn lemma_line_count(s: Seq<u8>)
    requires
        s.len() <= usize::MAX,
    ensures
        spec_collect_lines(spec_lex(s), s.len() as int).len() == line_feeds(s, 0, s.len() as int) + if s.len()
            > 0 && s[s.len() - 1] != 10u8 {
            1int
        } else {
            0int
        },
{
    let ts = spec_lex(s);
    lemma_lines_tokens_counts(s, 0, None);
    lemma_after_bounds(s, 0, s.len() as int);
    if s.len() > 0 {
        lemma_lines_from_count(ts, s.len() as int, 0, 0, 0, seq![]);
        assert(ts.subrange(0, ts.len() as int) =~= ts);
    }
}

// ---------------------------------------------------------------------
// Token boundaries and UTF-8.
/// Position `p` is an end of `s` or stands next to an ASCII byte.
pub open spec fn ascii_cut(s: Seq<u8>, p: int) -> bool {
    ||| p == 0
    ||| p == s.len()
    ||| (0 <= p < s.len() && s[p] < 128u8)
    ||| (0 < p <= s.len() && s[p - 1] < 128u8)
}

/// Every token starts and ends at an ASCII cut.
pub open spec fn tokens_cut(s: Seq<u8>, ts: Seq<Token>) -> bool {
    forall|i: int|
        0 <= i < ts.len() ==> ascii_cut(s, (#[trigger] ts[i]).source_range.start as int) && ascii_cut(
            s,
            ts[i].source_range.end as int,
        )
}

proof fn lemma_cut_concat(s: Seq<u8>, x: Seq<Token>, y: Seq<Token>)
    requires
        tokens_cut(s, x),
        tokens_cut(s, y),
    ensures
        tokens_cut(s, x + y),
{
    assert forall|i: int| 0 <= i < (x + y).len() implies ascii_cut(
        s,
        (#[trigger] (x + y)[i]).source_range.start as int,
    ) && ascii_cut(s, (x + y)[i].source_range.end as int) by {
        if i < x.len() {
            assert((x + y)[i] == x[i]);
        } else {
            assert((x + y)[i] == y[i - x.len()]);
        }
    }
}

proof fn lemma_cut_one(s: Seq<u8>, kind: TokenKind, a: int, b: int)
    requires
        0 <= a <= b <= usize::MAX,
        ascii_cut(s, a),
        ascii_cut(s, b),
    ensures
        tokens_cut(s, seq![tok(kind, a, b)]),
{
    assert(seq![tok(kind, a, b)][0] == tok(kind, a, b));
}

proof fn lemma_cut_raw(s: Seq<u8>, a: int, b: int)
    requires
        0 <= a <= b <= usize::MAX,
        ascii_cut(s, a),
        ascii_cut(s, b),
    ensures
        tokens_cut(s, raw_run(a, b)),
{
    if a < b {
        lemma_cut_one(s, TokenKind::Raw, a, b);
    }
}

proof fn lemma_inline_cuts(
    s: Seq<u8>,
    start: int,
    end: int,
    cursor: int,
    raw_start: int,
    in_blank: bool,
    in_math: bool,
)
    requires
        0 <= raw_start <= cursor <= end <= s.len() <= usize::MAX,
        ascii_cut(s, raw_start),
        ascii_cut(s, end),
    ensures
        tokens_cut(s, inline_tokens(s, start, end, cursor, raw_start, in_blank, in_math)),
    decreases end - cursor,
{
    if cursor >= end {
        lemma_cut_raw(s, raw_start, end);
    } else if starts_with_at(s, cursor, end, crate::lexer::pat_image()) && !in_math && !in_blank
        && image_found(s, cursor, end) {
        let (image_end, alt, destination) = spec_image_at(s, cursor, end)->0;
        lemma_find_in_bounds(s, cursor + 2, end, 93u8);
        let alt_end = find_in(s, cursor + 2, end, 93u8);
        lemma_find_in_bounds(s, alt_end + 2, end, 41u8);
        assert(s.subrange(cursor, cursor + 2)[0] == s[cursor]);
        lemma_cut_raw(s, raw_start, cursor);
        lemma_cut_one(s, TokenKind::Image { alt, destination }, cursor, image_end);
        lemma_inline_cuts(s, start, end, image_end, image_end, in_blank, in_math);
        let x = raw_run(raw_start, cursor);
        let y = seq![tok(TokenKind::Image { alt, destination }, cursor, image_end)];
        lemma_cut_concat(s, x, y);
        lemma_cut_concat(s, x + y, inline_tokens(s, start, end, image_end, image_end, in_blank, in_math));
    } else if starts_with_at(s, cursor, end, crate::lexer::pat_blank()) && !in_math {
        assert(s.subrange(cursor, cursor + 2)[0] == s[cursor]);
        assert(s.subrange(cursor, cursor + 2)[1] == s[cursor + 1]);
        lemma_cut_step(s, start, end, cursor, raw_start, cursor + 2, TokenKind::FoldBlankStart, true, in_math);
    } else if s[cursor] == 125u8 && in_blank && !in_math {
        lemma_cut_step(s, start, end, cursor, raw_start, cursor + 1, TokenKind::FoldBlankEnd, false, in_math);
    } else if s[cursor] == 36u8 && !crate::lexer::escaped(s, cursor, start) && crate::lexer::dollar_delimits(
        s,
        cursor,
        end,
        in_math,
    ) {
        lemma_cut_step(
            s,
            start,
            end,
            cursor,
            raw_start,
            cursor + 1,
            TokenKind::MathInlineDelimiter,
            in_blank,
            !in_math,
        );
    } else {
        lemma_inline_cuts(s, start, end, cursor + 1, raw_start, in_blank, in_math);
    }
}

proof fn lemma_cut_step(
    s: Seq<u8>,
    start: int,
    end: int,
    cursor: int,
    raw_start: int,
    next: int,
    kind: TokenKind,
    in_blank: bool,
    in_math: bool,
)
    requires
        0 <= raw_start <= cursor < next <= end <= s.len() <= usize::MAX,
        ascii_cut(s, raw_start),
        ascii_cut(s, end),
        s[cursor] < 128u8,
        s[next - 1] < 128u8,
    ensures
        tokens_cut(
            s,
            raw_run(raw_start, cursor) + seq![tok(kind, cursor, next)] + inline_tokens(
                s,
                start,
                end,
                next,
                next,
                in_blank,
                in_math,
            ),
        ),
    decreases end - cursor, 0int,
{
    lemma_cut_raw(s, raw_start, cursor);
    lemma_cut_one(s, kind, cursor, next);
    lemma_inline_cuts(s, start, end, next, next, in_blank, in_math);
    let x = raw_run(raw_start, cursor);
    let y = seq![tok(kind, cursor, next)];
    lemma_cut_concat(s, x, y);
    lemma_cut_concat(s, x + y, inline_tokens(s, start, end, next, next, in_blank, in_math));
}

proof fn lemma_line_cuts(s: Seq<u8>, start: int, end: int, mode: Option<BlockMode>)
    requires
        0 <= start <= end <= s.len() <= usize::MAX,
        ascii_cut(s, start),
        ascii_cut(s, end),
    ensures
        tokens_cut(s, line_tokens(s, start, end, mode).0),
{
    let ts = line_tokens(s, start, end, mode).0;
    let normal = mode is None && !crate::text::bytes_are(s, start, end, crate::lexer::pat_math())
        && !starts_with_at(s, start, end, crate::lexer::pat_fence()) && !crate::text::bytes_are(
        s,
        start,
        end,
        crate::lexer::pat_separator(),
    ) && !crate::text::bytes_are(s, start, end, crate::lexer::pat_memo_start())
        && !crate::text::bytes_are(s, start, end, crate::lexer::pat_memo_end());
    if !normal {
        assert(ts.len() == 1 && ts[0].source_range.start == start && ts[0].source_range.end == end);
        lemma_cut_one(s, ts[0].kind, start, end);
        assert(ts =~= seq![tok(ts[0].kind, start, end)]);
    } else {
        let q = starts_with_at(s, start, end, crate::lexer::pat_question());
        let f = starts_with_at(s, start, end, crate::lexer::pat_fold());
        if q || f {
            let kind = if q {
                TokenKind::QuestionMarker
            } else {
                TokenKind::FoldMarker
            };
            if q {
                assert(s.subrange(start, start + 2)[1] == s[start + 1]);
            } else {
                assert(s.subrange(start, start + 2)[1] == s[start + 1]);
            }
            lemma_cut_one(s, kind, start, start + 2);
            lemma_inline_cuts(s, start + 2, end, start + 2, start + 2, false, false);
            lemma_cut_concat(
                s,
                seq![tok(kind, start, start + 2)],
                inline_tokens(s, start + 2, end, start + 2, start + 2, false, false),
            );
        } else {
            lemma_inline_cuts(s, start, end, start, start, false, false);
        }
    }
}

proof fn lemma_lines_cuts(s: Seq<u8>, cursor: int, mode: Option<BlockMode>)
    requires
        0 <= cursor <= s.len() <= usize::MAX,
        ascii_cut(s, cursor),
    ensures
        tokens_cut(s, lines_tokens(s, cursor, mode)),
    decreases s.len() - cursor,
{
    let ts = lines_tokens(s, cursor, mode);
    let len = s.len() as int;
    if cursor < len {
        lemma_find_in_bounds(s, cursor, len, 10u8);
        let line_end = find_in(s, cursor, len, 10u8);
        let ce = content_end(s, cursor, line_end);
        let (tokens, next_mode) = line_tokens(s, cursor, ce, mode);
        lemma_line_cuts(s, cursor, ce, mode);
        if line_end < len {
            let nl = seq![tok(TokenKind::Newline, line_end, line_end + 1)];
            let rest = lines_tokens(s, line_end + 1, next_mode);
            lemma_cut_one(s, TokenKind::Newline, line_end, line_end + 1);
            lemma_lines_cuts(s, line_end + 1, next_mode);
            lemma_cut_concat(s, tokens, nl);
            lemma_cut_concat(s, tokens + nl, rest);
            assert(ts == tokens + nl + rest);
        } else {
            assert(ts == tokens);
        }
    }
}

proof fn lemma_boundary_after_ascii(bytes: Seq<u8>, i: int)
    requires
        valid_utf8(bytes),
        0 <= i < bytes.len(),
        is_char_boundary(bytes, i),
        bytes[i] < 128u8,
    ensures
        is_char_boundary(bytes, i + 1),
    decreases bytes.len(),
{
    let l = length_of_first_scalar(bytes);
    let pop = pop_first_scalar(bytes);
    assert(valid_first_scalar(bytes) && valid_utf8(pop));
    assert(1 <= l <= bytes.len());
    assert(pop.len() == bytes.len() - l);
    if i == 0 {
        assert(l == 1);
        assert(is_char_boundary(pop, 0));
    } else {
        assert(is_char_boundary(pop, i - l));
        if i - l < 0 {
            assert(false);
        }
        assert(pop[i - l] == bytes[i]);
        lemma_boundary_after_ascii(pop, i - l);
    }
}

pub proof fn lemma_cut_is_boundary(bytes: Seq<u8>, p: int)
    requires
        valid_utf8(bytes),
        0 <= p <= bytes.len(),
        ascii_cut(bytes, p),
    ensures
        is_char_boundary(bytes, p),
{
    is_char_boundary_start_end_of_seq(bytes);
    if p == 0 || p == bytes.len() {
    } else if bytes[p] < 128u8 {
        is_char_boundary_iff_not_is_continuation_byte(bytes, p);
    } else {
        is_char_boundary_iff_not_is_continuation_byte(bytes, p - 1);
        lemma_boundary_after_ascii(bytes, p - 1);
    }
}

/// Bytes of a well-formed source between two character boundaries are
/// well-formed.
pub proof fn lemma_valid_between(bytes: Seq<u8>, a: int, b: int)
    requires
        valid_utf8(bytes),
        0 <= a <= b <= bytes.len(),
        is_char_boundary(bytes, a),
        is_char_boundary(bytes, b),
    ensures
        valid_utf8(bytes.subrange(a, b)),
{
    valid_utf8_split(bytes, b);
    let t = bytes.subrange(0, b);
    is_char_boundary_start_end_of_seq(t);
    if 0 < a < b {
        is_char_boundary_iff_not_is_continuation_byte(t, a);
        is_char_boundary_iff_not_is_continuation_byte(bytes, a);
        assert(t[a] == bytes[a]);
    }
    assert(t.len() == b);
    valid_utf8_split(t, a);
    assert(t.subrange(a, t.len() as int) =~= bytes.subrange(a, b));
}

/// In the token stream of well-formed text, the bytes of every token are
/// well-formed, so the text the parser takes from them (the text of a raw
/// inline among others) is their decoded characters.
pub proof fn lemma_token_texts_are_decoded(chars: Seq<char>)
    requires
        encode_utf8(chars).len() <= usize::MAX,
    ensures
        ({
            let s = encode_utf8(chars);
            let ts = spec_lex(s);
            forall|i: int|
                0 <= i < ts.len() ==> {
                    let sub = s.subrange(
                        (#[trigger] ts[i]).source_range.start as int,
                        ts[i].source_range.end as int,
                    );
                    &&& valid_utf8(sub)
                    &&& source_text(sub) == decode_utf8(sub)
                    &&& crate::parse::inline::text_of(crate::parse::parse_ctx(s), ts[i].source_range)
                        == decode_utf8(sub)
                }
        }),
{
    let s = encode_utf8(chars);
    let ts = spec_lex(s);
    encode_utf8_valid_utf8(chars);
    lemma_lines_cuts(s, 0, None);
    lemma_lines_tokens_within(s, 0, None);
    assert forall|i: int| 0 <= i < ts.len() implies {
        let sub = s.subrange((#[trigger] ts[i]).source_range.start as int, ts[i].source_range.end as int);
        &&& valid_utf8(sub)
        &&& source_text(sub) == decode_utf8(sub)
        &&& crate::parse::inline::text_of(crate::parse::parse_ctx(s), ts[i].source_range) == decode_utf8(sub)
    } by {
        let a = ts[i].source_range.start as int;
        let b = ts[i].source_range.end as int;
        lemma_cut_is_boundary(s, a);
        lemma_cut_is_boundary(s, b);
        lemma_valid_between(s, a, b);
    }
}

/// Every token lies within `a..b`.
pub open spec fn tokens_within(ts: Seq<Token>, a: int, b: int) -> bool {
    forall|i: int| 0 <= i < ts.len() ==> a <= (#[trigger] ts[i]).source_range.start <= ts[i].source_range.end <= b
}

proof fn lemma_lines_tokens_within(s: Seq<u8>, cursor: int, mode: Option<BlockMode>)
    requires
        0 <= cursor <= s.len() <= usize::MAX,
    ensures
        tokens_within(lines_tokens(s, cursor, mode), cursor, s.len() as int),
    decreases s.len() - cursor,
{
    let ts = lines_tokens(s, cursor, mode);
    let len = s.len() as int;
    if cursor < len {
        lemma_find_in_bounds(s, cursor, len, 10u8);
        let line_end = find_in(s, cursor, len, 10u8);
        let ce = content_end(s, cursor, line_end);
        let (tokens, next_mode) = line_tokens(s, cursor, ce, mode);
        lemma_line_tokens(s, cursor, ce, mode);
        if line_end < len {
            let nl = seq![tok(TokenKind::Newline, line_end, line_end + 1)];
            let rest = lines_tokens(s, line_end + 1, next_mode);
            lemma_lines_tokens_within(s, line_end + 1, next_mode);
            assert(ts == tokens + nl + rest);
            assert forall|i: int| 0 <= i < ts.len() implies cursor <= (#[trigger] ts[i]).source_range.start
                <= ts[i].source_range.end <= len by {
                if i < tokens.len() {
                    assert(ts[i] == tokens[i]);
                } else if i == tokens.len() {
                    assert(ts[i] == nl[0]);
                } else {
                    assert(ts[i] == rest[i - tokens.len() - 1]);
                }
            }
        } else {
            assert(ts == tokens);
        }
    }
}

} // verus!
