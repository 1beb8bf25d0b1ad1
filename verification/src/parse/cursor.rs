//! Lines of the token stream and a cursor over them.
use crate::lex_laws::{lemma_lines_cut, lines_cut_at_newlines};
use crate::lexer::{Token, TokenKind, token_wf, tokens_wf};
use crate::source::SourceRange;
use vstd::prelude::*;

verus! {

/// One source line: its tokens `token_start..token_end` (without the line
/// break), the range of its content, and where the next line starts.
#[derive(Debug, Clone, Copy, PartialEq, Eq, Structural)]
pub struct LexedLine {
    pub token_start: usize,
    pub token_end: usize,
    pub content_range: SourceRange,
    pub full_end: usize,
}

/// Lines collected from token `i` on; `token_start` and `source_start` describe
/// the line being collected and `acc` the lines already complete.
pub open spec fn lines_from(
    ts: Seq<Token>,
    len: int,
    i: int,
    token_start: int,
    source_start: int,
    acc: Seq<LexedLine>,
) -> Seq<LexedLine>
    decreases ts.len() - i,
{
    if i >= ts.len() || i < 0 {
        if source_start < len {
            acc.push(
                LexedLine {
                    token_start: token_start as usize,
                    token_end: ts.len() as usize,
                    content_range: SourceRange { start: source_start as usize, end: len as usize },
                    full_end: len as usize,
                },
            )
        } else {
            acc
        }
    } else if ts[i].kind == TokenKind::Newline {
        lines_from(
            ts,
            len,
            i + 1,
            i + 1,
            ts[i].source_range.end as int,
            acc.push(
                LexedLine {
                    token_start: token_start as usize,
                    token_end: i as usize,
                    content_range: SourceRange {
                        start: source_start as usize,
                        end: ts[i].source_range.start,
                    },
                    full_end: ts[i].source_range.end,
                },
            ),
        )
    } else {
        lines_from(ts, len, i + 1, token_start, source_start, acc)
    }
}

/// The lines of a source of `len` bytes with token stream `ts`.
pub open spec fn spec_collect_lines(ts: Seq<Token>, len: int) -> Seq<LexedLine> {
    if len == 0 {
        seq![]
    } else {
        lines_from(ts, len, 0, 0, 0, seq![])
    }
}

pub open spec fn line_wf(l: LexedLine, ts: Seq<Token>, len: int) -> bool {
    &&& l.token_start <= l.token_end <= ts.len()
    &&& l.content_range.start <= l.content_range.end <= l.full_end <= len
    &&& forall|t: int|
        l.token_start <= t < l.token_end ==> l.content_range.start <= (#[trigger] ts[t]).source_range.start
            && ts[t].source_range.end <= l.content_range.end
}

/// Lines lie in the source, hold their tokens, and follow each other in order.
pub open spec fn lines_wf(ls: Seq<LexedLine>, ts: Seq<Token>, len: int) -> bool {
    &&& forall|k: int| 0 <= k < ls.len() ==> line_wf(#[trigger] ls[k], ts, len)
    &&& forall|k: int, m: int|
        0 <= k < m < ls.len() ==> (#[trigger] ls[k]).full_end <= (#[trigger] ls[m]).content_range.start
            && ls[k].token_end <= ls[m].token_start
}

/// Collects the lines of a source from its tokens.
pub fn collect_lines(len: usize, tokens: &[Token]) -> (r: Vec<LexedLine>)
    requires
        tokens_wf(tokens@, len as int),
    ensures
        r@ == spec_collect_lines(tokens@, len as int),
        lines_wf(r@, tokens@, len as int),
        lines_cut_at_newlines(r@, tokens@, len as int),
{
    proof {
        assert(tokens.len() == tokens@.len());
        lemma_lines_cut(tokens@, len as int);
    }
    if len == 0 {
        return Vec::new();
    }
    let mut lines: Vec<LexedLine> = Vec::new();
    let mut token_start: usize = 0;
    let mut source_start: usize = 0;
    let mut index: usize = 0;
    while index < tokens.len()
        invariant
            tokens_wf(tokens@, len as int),
            token_start <= index <= tokens@.len(),
            source_start <= len,
            lines_from(tokens@, len as int, index as int, token_start as int, source_start as int, lines@)
                == lines_from(tokens@, len as int, 0, 0, 0, seq![]),
            lines_wf(lines@, tokens@, len as int),
            forall|k: int| 0 <= k < lines@.len() ==> (#[trigger] lines@[k]).full_end <= source_start
                && lines@[k].token_end < token_start,
            forall|t: int| token_start <= t < tokens@.len() ==> source_start <= (#[trigger] tokens@[t]).source_range.start,
            forall|t: int| token_start <= t < index ==> (#[trigger] tokens@[t]).kind != TokenKind::Newline,
        decreases tokens@.len() - index,
    {
        let token = tokens[index];
        if token.kind == TokenKind::Newline {
            let line = LexedLine {
                token_start,
                token_end: index,
                content_range: SourceRange::new(source_start, token.source_range.start),
                full_end: token.source_range.end,
            };
            assert(token_wf(tokens@[index as int], len as int));
            assert forall|t: int| token_start <= t < index implies source_start <= (
            #[trigger] tokens@[t]).source_range.start && tokens@[t].source_range.end
                <= token.source_range.start by {
                assert(tokens@[t].source_range.end <= tokens@[index as int].source_range.start);
            }
            let ghost old_lines = lines@;
            lines.push(line);
            assert forall|k: int, m: int|
                0 <= k < m < lines@.len() implies (#[trigger] lines@[k]).full_end <= (
            #[trigger] lines@[m]).content_range.start && lines@[k].token_end
                <= lines@[m].token_start by {
                if m < old_lines.len() {
                    assert(lines@[k] == old_lines[k] && lines@[m] == old_lines[m]);
                } else {
                    assert(lines@[k] == old_lines[k]);
                }
            }
            assert forall|k: int| 0 <= k < lines@.len() implies line_wf(#[trigger] lines@[k], tokens@, len as int) by {
                if k < old_lines.len() {
                    assert(lines@[k] == old_lines[k]);
                }
            }
            assert forall|t: int| index + 1 <= t < tokens@.len() implies token.source_range.end <= (
            #[trigger] tokens@[t]).source_range.start by {
                assert(tokens@[index as int].source_range.end <= tokens@[t].source_range.start);
            }
            token_start = index + 1;
            source_start = token.source_range.end;
        }
        index = index + 1;
    }
    if source_start < len {
        let ghost old_lines = lines@;
        lines.push(
            LexedLine {
                token_start,
                token_end: tokens.len(),
                content_range: SourceRange::new(source_start, len),
                full_end: len,
            },
        );
        assert forall|k: int, m: int|
            0 <= k < m < lines@.len() implies (#[trigger] lines@[k]).full_end <= (
        #[trigger] lines@[m]).content_range.start && lines@[k].token_end <= lines@[m].token_start by {
            if m < old_lines.len() {
                assert(lines@[k] == old_lines[k] && lines@[m] == old_lines[m]);
            } else {
                assert(lines@[k] == old_lines[k]);
            }
        }
        assert forall|k: int| 0 <= k < lines@.len() implies line_wf(#[trigger] lines@[k], tokens@, len as int) by {
            if k < old_lines.len() {
                assert(lines@[k] == old_lines[k]);
            } else {
                assert forall|t: int| token_start <= t < tokens@.len() implies source_start <= (
                #[trigger] tokens@[t]).source_range.start && tokens@[t].source_range.end <= len by {
                    assert(token_wf(tokens@[t], len as int));
                }
            }
        }
    }
    lines
}

/// A position among the lines of a source.
pub struct LineCursor {
    pub lines: Vec<LexedLine>,
    pub position: usize,
}

impl LineCursor {
    /// A cursor at the first line of `input`.
    pub fn new(len: usize, tokens: &[Token]) -> (r: LineCursor)
        requires
            tokens_wf(tokens@, len as int),
        ensures
            r.lines@ == spec_collect_lines(tokens@, len as int),
            lines_wf(r.lines@, tokens@, len as int),
            r.position == 0,
    {
        LineCursor { lines: collect_lines(len, tokens), position: 0 }
    }

    /// The cursor is past the last line.
    pub fn eof(&self) -> (r: bool)
        ensures
            r == (self.position >= self.lines@.len()),
    {
        self.position >= self.lines.len()
    }

    pub fn position(&self) -> (r: usize)
        ensures
            r == self.position,
    {
        self.position
    }

    /// The line under the cursor.
    pub fn current(&self) -> (r: Option<LexedLine>)
        ensures
            r == (if self.position < self.lines@.len() {
                Some(self.lines@[self.position as int])
            } else {
                None
            }),
    {
        self.get(self.position)
    }

    /// The line at `position`.
    pub fn get(&self, position: usize) -> (r: Option<LexedLine>)
        ensures
            r == (if position < self.lines@.len() {
                Some(self.lines@[position as int])
            } else {
                None
            }),
    {
        if position < self.lines.len() {
            Some(self.lines[position])
        } else {
            None
        }
    }

    /// Moves to the next line, staying put at the end.
    pub fn advance(&mut self)
        ensures
            final(self).lines == old(self).lines,
            final(self).position == (if old(self).position < old(self).lines@.len() {
                old(self).position + 1
            } else {
                old(self).position as int
            }),
    {
        if self.position < self.lines.len() {
            self.position = self.position + 1;
        }
    }

    /// Where the line before the cursor ends.
    pub fn previous_end(&self) -> (r: Option<usize>)
        ensures
            r == (if 1 <= self.position <= self.lines@.len() {
                Some(self.lines@[self.position - 1].full_end)
            } else {
                None
            }),
    {
        if self.position >= 1 && self.position - 1 < self.lines.len() {
            Some(self.lines[self.position - 1].full_end)
        } else {
            None
        }
    }
}

} // verus!
