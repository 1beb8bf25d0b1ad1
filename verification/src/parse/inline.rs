//! Inline-level grammar: raw text, inline math, fold blanks, and images.
use super::{ContentContext, Ctx, PState, Parser, with_diag};
use crate::ast::{
    AttachmentKey, ExternalImageUrl, FoldBlank, FoldBlankContent, FoldBlankContentV,
    FoldBlankInline, FoldBlankInlineKind, FoldBlankInlineKindV, FoldBlankInlineV, FoldBlankV,
    Image, ImageReference, ImageReferenceV, ImageV, Inline, InlineKind, InlineKindV, InlineV,
    MathInline, Raw, StoredImageId,
};
use crate::diagnostics::Diagnostic;
use crate::errors::ParseError;
use crate::lexer::{Token, TokenKind, token_wf, tokens_wf};
use crate::source::SourceRange;
use crate::text::{bytes_at, contains_whitespace, has_ws, range_text, source_text, starts_with_at};
use crate::ReferencesV;
use vstd::prelude::*;

verus! {

// ---------------------------------------------------------------------
// Specification.
pub open spec fn text_of(c: Ctx, r: SourceRange) -> Seq<char> {
    source_text(c.input.subrange(r.start as int, r.end as int))
}

pub open spec fn raw_inline_v(c: Ctx, t: Token) -> InlineV {
    InlineV { kind: InlineKindV::Raw(text_of(c, t.source_range)), source_range: t.source_range }
}

pub open spec fn inlines_view(v: Seq<Inline>) -> Seq<InlineV> {
    v.map_values(|i: Inline| i@)
}

/// Index of the first token of kind `k` at or after `i`.
pub open spec fn find_kind(ts: Seq<Token>, i: int, k: TokenKind) -> Option<int>
    decreases ts.len() - i,
{
    if i < 0 || i >= ts.len() {
        None
    } else if ts[i].kind == k {
        Some(i)
    } else {
        find_kind(ts, i + 1, k)
    }
}

/// Unclosed inline construct: the rest of the tokens stay raw text.
pub open spec fn recover_v(
    c: Ctx,
    toks: Seq<Token>,
    index: int,
    opening: Token,
    error: ParseError,
    st: PState,
) -> (Seq<InlineV>, int, PState) {
    let end = if toks.len() > 0 {
        toks.last().source_range.end
    } else {
        opening.source_range.end
    };
    (
        toks.subrange(index, toks.len() as int).map_values(|t: Token| raw_inline_v(c, t)),
        toks.len() as int,
        with_diag(st, error, SourceRange { start: opening.source_range.start, end }),
    )
}

/// Answer content of a fold blank: inline math and raw text.
pub open spec fn blank_inlines_from(
    c: Ctx,
    toks: Seq<Token>,
    idx: int,
    acc: Seq<FoldBlankInlineV>,
) -> Seq<FoldBlankInlineV>
    decreases toks.len() - idx,
{
    if idx < 0 || idx >= toks.len() {
        acc
    } else if toks[idx].kind == TokenKind::MathInlineDelimiter && {
        proof {
            lemma_find_kind(toks, idx + 1, TokenKind::MathInlineDelimiter);
        }
        true
    } && find_kind(
        toks,
        idx + 1,
        TokenKind::MathInlineDelimiter,
    ) is Some && find_kind(toks, idx + 1, TokenKind::MathInlineDelimiter)->0 > idx {
        let e = find_kind(toks, idx + 1, TokenKind::MathInlineDelimiter)->0;
        let opening = toks[idx];
        let closing = toks[e];
        blank_inlines_from(
            c,
            toks,
            e + 1,
            acc.push(
                FoldBlankInlineV {
                    kind: FoldBlankInlineKindV::MathInline(
                        text_of(
                            c,
                            SourceRange {
                                start: opening.source_range.end,
                                end: closing.source_range.start,
                            },
                        ),
                    ),
                    source_range: SourceRange {
                        start: opening.source_range.start,
                        end: closing.source_range.end,
                    },
                },
            ),
        )
    } else {
        blank_inlines_from(
            c,
            toks,
            idx + 1,
            acc.push(
                FoldBlankInlineV {
                    kind: FoldBlankInlineKindV::Raw(text_of(c, toks[idx].source_range)),
                    source_range: toks[idx].source_range,
                },
            ),
        )
    }
}

pub open spec fn fold_blank_v(c: Ctx, toks: Seq<Token>, index: int, opening: Token, st: PState) -> (
    Seq<InlineV>,
    int,
    PState,
) {
    match find_kind(toks, index + 1, TokenKind::FoldBlankEnd) {
        None => recover_v(c, toks, index, opening, ParseError::UnclosedFoldBlank, st),
        Some(e) => {
            let closing = toks[e];
            let answer = FoldBlankContentV {
                inlines: blank_inlines_from(c, toks.subrange(index + 1, e), 0, seq![]),
                source_range: SourceRange {
                    start: opening.source_range.end,
                    end: closing.source_range.start,
                },
            };
            let range = SourceRange {
                start: opening.source_range.start,
                end: closing.source_range.end,
            };
            (
                seq![
                    InlineV {
                        kind: InlineKindV::FoldBlank(FoldBlankV { answer, source_range: range }),
                        source_range: range,
                    },
                ],
                e + 1,
                st,
            )
        },
    }
}

pub open spec fn math_inline_v(c: Ctx, toks: Seq<Token>, index: int, opening: Token, st: PState) -> (
    Seq<InlineV>,
    int,
    PState,
) {
    match find_kind(toks, index + 1, TokenKind::MathInlineDelimiter) {
        None => recover_v(c, toks, index, opening, ParseError::UnclosedMathInline, st),
        Some(e) => {
            let closing = toks[e];
            let range = SourceRange {
                start: opening.source_range.start,
                end: closing.source_range.end,
            };
            let source = text_of(
                c,
                SourceRange { start: opening.source_range.end, end: closing.source_range.start },
            );
            (seq![InlineV { kind: InlineKindV::MathInline(source), source_range: range }], e + 1, st)
        },
    }
}

pub open spec fn pat_attachment() -> Seq<u8> {
    seq![113u8, 102u8, 45u8, 97u8, 116u8, 116u8, 97u8, 99u8, 104u8, 109u8, 101u8, 110u8, 116u8, 58u8]
}

pub open spec fn pat_stored() -> Seq<u8> {
    seq![113u8, 102u8, 45u8, 115u8, 116u8, 111u8, 114u8, 101u8, 100u8, 58u8]
}

pub open spec fn pat_https() -> Seq<u8> {
    seq![104u8, 116u8, 116u8, 112u8, 115u8, 58u8, 47u8, 47u8]
}

pub open spec fn pat_http() -> Seq<u8> {
    seq![104u8, 116u8, 116u8, 112u8, 58u8, 47u8, 47u8]
}

/// `start..end` is an `http://` or `https://` URL with a host part: after the
/// scheme comes at least one character, not `/`, and no whitespace at all.
pub open spec fn http_url(s: Seq<u8>, start: int, end: int) -> bool {
    let rest = if starts_with_at(s, start, end, pat_https()) {
        start + 8
    } else if starts_with_at(s, start, end, pat_http()) {
        start + 7
    } else {
        -1
    };
    rest >= 0 && rest < end && s[rest] != 47u8 && !has_ws(s, rest, end)
}

pub open spec fn image_reference_v(c: Ctx, dest: SourceRange, st: PState) -> (
    Option<ImageReferenceV>,
    PState,
) {
    let s = c.input;
    let a = dest.start as int;
    let b = dest.end as int;
    if starts_with_at(s, a, b, pat_attachment()) {
        if a + 14 >= b {
            (None, st)
        } else {
            let t = source_text(s.subrange(a + 14, b));
            (
                Some(ImageReferenceV::RequestAttachment(t)),
                PState {
                    refs: ReferencesV {
                        request_attachments: st.refs.request_attachments.push(t),
                        ..st.refs
                    },
                    ..st
                },
            )
        }
    } else if starts_with_at(s, a, b, pat_stored()) {
        if a + 10 >= b {
            (None, st)
        } else {
            let t = source_text(s.subrange(a + 10, b));
            (
                Some(ImageReferenceV::StoredImage(t)),
                PState {
                    refs: ReferencesV { stored_images: st.refs.stored_images.push(t), ..st.refs },
                    ..st
                },
            )
        }
    } else if http_url(s, a, b) {
        let t = source_text(s.subrange(a, b));
        (
            Some(ImageReferenceV::ExternalUrl(t)),
            PState {
                refs: ReferencesV { external_images: st.refs.external_images.push(t), ..st.refs },
                ..st
            },
        )
    } else {
        (None, st)
    }
}

pub open spec fn image_v(c: Ctx, token: Token, alt: SourceRange, dest: SourceRange, st: PState) -> (
    InlineV,
    PState,
) {
    let st1 = if alt.start == alt.end {
        with_diag(st, ParseError::EmptyImageAlt, alt)
    } else {
        st
    };
    let (reference, st2) = image_reference_v(c, dest, st1);
    match reference {
        None => (raw_inline_v(c, token), with_diag(st2, ParseError::InvalidImageReference, dest)),
        Some(r) => (
            InlineV {
                kind: InlineKindV::Image(ImageV { alt: text_of(c, alt), reference: r }),
                source_range: token.source_range,
            },
            st2,
        ),
    }
}

pub open spec fn has_fold_blank(v: Seq<InlineV>) -> bool {
    exists|j: int| 0 <= j < v.len() && (#[trigger] v[j]).kind is FoldBlank
}

/// One inline starting at token `index`: the inlines it yields, the next
/// token index, and the new state.
pub open spec fn inline_v(c: Ctx, toks: Seq<Token>, index: int, k: ContentContext, st: PState) -> (
    Seq<InlineV>,
    int,
    PState,
) {
    let token = toks[index];
    match token.kind {
        TokenKind::Newline => (
            seq![InlineV { kind: InlineKindV::SoftBreak, source_range: token.source_range }],
            index + 1,
            st,
        ),
        TokenKind::FoldBlankStart => if k == ContentContext::Memo {
            (seq![raw_inline_v(c, token)], index + 1, st)
        } else {
            let (v, next, st1) = fold_blank_v(c, toks, index, token, st);
            if !k.spec_allows_fold_blank() && has_fold_blank(v) {
                let range = if v.len() > 0 {
                    v[0].source_range
                } else {
                    token.source_range
                };
                (v, next, with_diag(st1, ParseError::FoldBlankOutsideAnswer, range))
            } else {
                (v, next, st1)
            }
        },
        TokenKind::MathInlineDelimiter => math_inline_v(c, toks, index, token, st),
        TokenKind::Image { alt, destination } => {
            let (i, st1) = image_v(c, token, alt, destination, st);
            (seq![i], index + 1, st1)
        },
        _ => (seq![raw_inline_v(c, token)], index + 1, st),
    }
}

/// Inlines of the tokens from `idx` on, appended to `acc`.
pub open spec fn inlines_from(
    c: Ctx,
    toks: Seq<Token>,
    k: ContentContext,
    idx: int,
    acc: Seq<InlineV>,
    st: PState,
) -> (Seq<InlineV>, PState)
    decreases toks.len() - idx,
{
    if idx < 0 || idx >= toks.len() {
        (acc, st)
    } else {
        let (v, next, st1) = inline_v(c, toks, idx, k, st);
        if idx < next <= toks.len() {
            inlines_from(c, toks, k, next, acc + v, st1)
        } else {
            (acc + v, st1)
        }
    }
}

/// The inlines of a token sequence in context `k`.
pub open spec fn spec_inlines(c: Ctx, toks: Seq<Token>, k: ContentContext, st: PState) -> (
    Seq<InlineV>,
    PState,
) {
    inlines_from(c, toks, k, 0, seq![], st)
}

// ---------------------------------------------------------------------
// Implementation.
pub proof fn lemma_find_kind(ts: Seq<Token>, i: int, k: TokenKind)
    requires
        0 <= i,
    ensures
        find_kind(ts, i, k) matches Some(e) ==> i <= e < ts.len() && ts[e].kind == k,
    decreases ts.len() - i,
{
    if i < ts.len() && ts[i].kind != k {
        lemma_find_kind(ts, i + 1, k);
    }
}

/// Index of the first token of `kind` at or after `start`.
fn find_token(tokens: &[Token], start: usize, kind: TokenKind) -> (r: Option<usize>)
    ensures
        r matches Some(e) ==> find_kind(tokens@, start as int, kind) == Some(e as int),
        r is None ==> find_kind(tokens@, start as int, kind) is None,
        r matches Some(e) ==> start <= e < tokens@.len(),
{
    let mut i = start;
    while i < tokens.len()
        invariant
            start <= i,
            find_kind(tokens@, start as int, kind) == find_kind(tokens@, i as int, kind),
        decreases tokens@.len() - i,
    {
        if tokens[i].kind == kind {
            return Some(i);
        }
        i = i + 1;
    }
    None
}

/// A well-formed token sequence stays well formed in any subrange.
pub proof fn lemma_tokens_wf_subrange(ts: Seq<Token>, len: int, a: int, b: int)
    requires
        tokens_wf(ts, len),
        0 <= a <= b <= ts.len(),
    ensures
        tokens_wf(ts.subrange(a, b), len),
{
    let sub = ts.subrange(a, b);
    assert forall|i: int| 0 <= i < sub.len() implies token_wf(#[trigger] sub[i], len) by {
        assert(sub[i] == ts[a + i]);
    }
    assert forall|i: int, j: int|
        0 <= i < j < sub.len() implies (#[trigger] sub[i]).source_range.end <= (
    #[trigger] sub[j]).source_range.start by {
        assert(sub[i] == ts[a + i] && sub[j] == ts[a + j]);
    }
}

impl<'a> Parser<'a> {
    /// Raw text of a token.
    pub(crate) fn raw_inline(&self, token: Token) -> (r: Inline)
        requires
            token_wf(token, self.input@.len() as int),
        ensures
            r@ == raw_inline_v(self.ctx(), token),
    {
        Inline::new(
            InlineKind::Raw(
                Raw {
                    value: range_text(
                        self.input,
                        token.source_range.start,
                        token.source_range.end,
                    ),
                },
            ),
            token.source_range,
        )
    }

    /// Inlines of the tokens `start..end` of the source in context `context`.
    pub(crate) fn parse_inlines_range(&mut self, start: usize, end: usize, context: ContentContext) -> (r:
        Vec<Inline>)
        requires
            old(self).inv(),
            start <= end <= old(self).tokens@.len(),
        ensures
            final(self).ctx() == old(self).ctx(),
            final(self).inv(),
            final(self).cursor.position == old(self).cursor.position,
            (inlines_view(r@), final(self).state()) == spec_inlines(
                old(self).ctx(),
                old(self).tokens@.subrange(start as int, end as int),
                context,
                old(self).state(),
            ),
    {
        let mut tokens: Vec<Token> = Vec::new();
        let mut i = start;
        while i < end
            invariant
                start <= i <= end <= self.tokens@.len(),
                tokens@ == self.tokens@.subrange(start as int, i as int),
            decreases end - i,
        {
            tokens.push(self.tokens[i]);
            i = i + 1;
            assert(tokens@ =~= self.tokens@.subrange(start as int, i as int));
        }
        proof {
            lemma_tokens_wf_subrange(self.tokens@, self.input@.len() as int, start as int, end as int);
        }
        self.parse_inlines(tokens.as_slice(), context)
    }

    /// Inline <- Raw / SoftBreak / FoldBlank / MathInline / Image
    fn parse_inlines(&mut self, tokens: &[Token], context: ContentContext) -> (r: Vec<Inline>)
        requires
            old(self).inv(),
            tokens_wf(tokens@, old(self).input@.len() as int),
        ensures
            final(self).ctx() == old(self).ctx(),
            final(self).inv(),
            final(self).cursor.position == old(self).cursor.position,
            (inlines_view(r@), final(self).state()) == spec_inlines(
                old(self).ctx(),
                tokens@,
                context,
                old(self).state(),
            ),
    {
        let mut inlines: Vec<Inline> = Vec::new();
        let mut index: usize = 0;
        let ghost c = self.ctx();
        while index < tokens.len()
            invariant
                self.inv(),
                self.ctx() == c,
                c == old(self).ctx(),
                self.cursor.position == old(self).cursor.position,
                tokens_wf(tokens@, self.input@.len() as int),
                index <= tokens@.len(),
                inlines_from(c, tokens@, context, index as int, inlines_view(inlines@), self.state())
                    == spec_inlines(c, tokens@, context, old(self).state()),
            decreases tokens@.len() - index,
        {
            let ghost acc = inlines_view(inlines@);
            let ghost st = self.state();
            let (mut more, next) = self.parse_inline(tokens, index, tokens[index], context);
            let ghost more_v = inlines_view(more@);
            inlines.append(&mut more);
            assert(inlines_view(inlines@) =~= acc + more_v);
            index = next;
        }
        assert(inlines_view(inlines@) == inlines_from(c, tokens@, context, index as int, inlines_view(inlines@), self.state()).0);
        inlines
    }

    fn parse_inline(&mut self, tokens: &[Token], index: usize, token: Token, context: ContentContext) -> (r: (
        Vec<Inline>,
        usize,
    ))
        requires
            old(self).inv(),
            tokens_wf(tokens@, old(self).input@.len() as int),
            index < tokens@.len(),
            token == tokens@[index as int],
        ensures
            final(self).ctx() == old(self).ctx(),
            final(self).inv(),
            final(self).cursor.position == old(self).cursor.position,
            index < r.1 <= tokens@.len(),
            (inlines_view(r.0@), r.1 as int, final(self).state()) == inline_v(
                old(self).ctx(),
                tokens@,
                index as int,
                context,
                old(self).state(),
            ),
    {
        assert(token_wf(tokens@[index as int], self.input@.len() as int));
        let n = tokens.len();
        match token.kind {
            TokenKind::Newline => {
                let v = vec![Inline::new(InlineKind::SoftBreak, token.source_range)];
                assert(inlines_view(v@) =~= seq![InlineV { kind: InlineKindV::SoftBreak, source_range: token.source_range }]);
                (v, index + 1)
            },
            TokenKind::FoldBlankStart => {
                if context == ContentContext::Memo {
                    let v = vec![self.raw_inline(token)];
                    assert(inlines_view(v@) =~= seq![raw_inline_v(self.ctx(), token)]);
                    return (v, index + 1);
                }
                let (inlines, next) = self.parse_fold_blank(tokens, index, token);
                if !context.allows_fold_blank() && contains_blank(&inlines) {
                    let range = if inlines.len() > 0 {
                        inlines[0].source_range
                    } else {
                        token.source_range
                    };
                    self.diagnostics.push(Diagnostic::new(ParseError::FoldBlankOutsideAnswer, range));
                }
                (inlines, next)
            },
            TokenKind::MathInlineDelimiter => self.parse_math_inline(tokens, index, token),
            TokenKind::Image { alt, destination } => {
                let i = self.parse_image(token, alt, destination);
                let ghost iv = i@;
                let v = vec![i];
                assert(inlines_view(v@) =~= seq![iv]);
                (v, index + 1)
            },
            _ => {
                let v = vec![self.raw_inline(token)];
                assert(inlines_view(v@) =~= seq![raw_inline_v(self.ctx(), token)]);
                (v, index + 1)
            },
        }
    }

    fn parse_fold_blank(&mut self, tokens: &[Token], index: usize, opening: Token) -> (r: (
        Vec<Inline>,
        usize,
    ))
        requires
            old(self).inv(),
            tokens_wf(tokens@, old(self).input@.len() as int),
            index < tokens@.len(),
            opening == tokens@[index as int],
        ensures
            final(self).ctx() == old(self).ctx(),
            final(self).inv(),
            final(self).cursor.position == old(self).cursor.position,
            index < r.1 <= tokens@.len(),
            (inlines_view(r.0@), r.1 as int, final(self).state()) == fold_blank_v(
                old(self).ctx(),
                tokens@,
                index as int,
                opening,
                old(self).state(),
            ),
    {
        let n = tokens.len();
        let end_index = match find_token(tokens, index + 1, TokenKind::FoldBlankEnd) {
            Some(e) => e,
            None => {
                return self.recover_unclosed_inline(
                    tokens,
                    index,
                    opening,
                    ParseError::UnclosedFoldBlank,
                );
            },
        };
        let closing = tokens[end_index];
        assert(tokens@[index as int].source_range.end <= tokens@[end_index as int].source_range.start);
        let answer_range = SourceRange::new(opening.source_range.end, closing.source_range.start);
        proof {
            lemma_tokens_wf_subrange(tokens@, self.input@.len() as int, index + 1, end_index as int);
        }
        let answer = FoldBlankContent::new(
            self.fold_blank_inlines(&tokens[index + 1..end_index]),
            answer_range,
        );
        let range = SourceRange::new(opening.source_range.start, closing.source_range.end);
        let v = vec![Inline::new(InlineKind::FoldBlank(FoldBlank::new(answer, range)), range)];
        assert(inlines_view(v@) =~= fold_blank_v(self.ctx(), tokens@, index as int, opening, self.state()).0);
        (v, end_index + 1)
    }

    fn parse_math_inline(&mut self, tokens: &[Token], index: usize, opening: Token) -> (r: (
        Vec<Inline>,
        usize,
    ))
        requires
            old(self).inv(),
            tokens_wf(tokens@, old(self).input@.len() as int),
            index < tokens@.len(),
            opening == tokens@[index as int],
        ensures
            final(self).ctx() == old(self).ctx(),
            final(self).inv(),
            final(self).cursor.position == old(self).cursor.position,
            index < r.1 <= tokens@.len(),
            (inlines_view(r.0@), r.1 as int, final(self).state()) == math_inline_v(
                old(self).ctx(),
                tokens@,
                index as int,
                opening,
                old(self).state(),
            ),
    {
        let n = tokens.len();
        let end_index = match find_token(tokens, index + 1, TokenKind::MathInlineDelimiter) {
            Some(e) => e,
            None => {
                return self.recover_unclosed_inline(
                    tokens,
                    index,
                    opening,
                    ParseError::UnclosedMathInline,
                );
            },
        };
        let closing = tokens[end_index];
        assert(tokens@[index as int].source_range.end <= tokens@[end_index as int].source_range.start);
        assert(token_wf(tokens@[end_index as int], self.input@.len() as int));
        let range = SourceRange::new(opening.source_range.start, closing.source_range.end);
        let source = range_text(self.input, opening.source_range.end, closing.source_range.start);
        let v = vec![Inline::new(InlineKind::MathInline(MathInline { source }), range)];
        assert(inlines_view(v@) =~= math_inline_v(self.ctx(), tokens@, index as int, opening, self.state()).0);
        (v, end_index + 1)
    }

    fn recover_unclosed_inline(
        &mut self,
        tokens: &[Token],
        index: usize,
        opening: Token,
        error: ParseError,
    ) -> (r: (Vec<Inline>, usize))
        requires
            old(self).inv(),
            tokens_wf(tokens@, old(self).input@.len() as int),
            index < tokens@.len(),
        ensures
            final(self).ctx() == old(self).ctx(),
            final(self).inv(),
            final(self).cursor.position == old(self).cursor.position,
            r.1 == tokens@.len(),
            (inlines_view(r.0@), r.1 as int, final(self).state()) == recover_v(
                old(self).ctx(),
                tokens@,
                index as int,
                opening,
                error,
                old(self).state(),
            ),
    {
        let end = if tokens.len() > 0 {
            tokens[tokens.len() - 1].source_range.end
        } else {
            opening.source_range.end
        };
        self.diagnostics.push(
            Diagnostic::new(error, SourceRange::new(opening.source_range.start, end)),
        );
        let mut inlines: Vec<Inline> = Vec::new();
        let mut i = index;
        let ghost c = self.ctx();
        while i < tokens.len()
            invariant
                index <= i <= tokens@.len(),
                c == self.ctx(),
                tokens_wf(tokens@, self.input@.len() as int),
                inlines@.len() == i - index,
                forall|j: int| 0 <= j < inlines@.len() ==> (#[trigger] inlines@[j])@ == raw_inline_v(c, tokens@[index + j]),
            decreases tokens@.len() - i,
        {
            assert(token_wf(tokens@[i as int], self.input@.len() as int));
            inlines.push(self.raw_inline(tokens[i]));
            i = i + 1;
        }
        assert(inlines_view(inlines@) =~= tokens@.subrange(index as int, i as int).map_values(
            |t: Token| raw_inline_v(c, t),
        ));
        (inlines, tokens.len())
    }

    /// Image <- IMAGE
    fn parse_image(&mut self, token: Token, alt: SourceRange, destination: SourceRange) -> (r: Inline)
        requires
            old(self).inv(),
            token_wf(token, old(self).input@.len() as int),
            token.kind == (TokenKind::Image { alt, destination }),
        ensures
            final(self).ctx() == old(self).ctx(),
            final(self).inv(),
            final(self).cursor.position == old(self).cursor.position,
            (r@, final(self).state()) == image_v(
                old(self).ctx(),
                token,
                alt,
                destination,
                old(self).state(),
            ),
    {
        self.validate_image_alt(alt);
        let alt_text = range_text(self.input, alt.start, alt.end);
        let reference = match self.parse_image_reference(destination) {
            Some(reference) => reference,
            None => {
                self.diagnostics.push(
                    Diagnostic::new(ParseError::InvalidImageReference, destination),
                );
                return self.raw_inline(token);
            },
        };
        image_inline(alt_text, reference, token.source_range)
    }

    fn validate_image_alt(&mut self, range: SourceRange)
        requires
            old(self).inv(),
        ensures
            final(self).ctx() == old(self).ctx(),
            final(self).inv(),
            final(self).cursor.position == old(self).cursor.position,
            final(self).references@ == old(self).references@,
            final(self).diagnostics@ == (if range.start == range.end {
                old(self).diagnostics@.push(
                    Diagnostic { error: ParseError::EmptyImageAlt, source_range: range },
                )
            } else {
                old(self).diagnostics@
            }),
    {
        if range.start == range.end {
            self.diagnostics.push(Diagnostic::new(ParseError::EmptyImageAlt, range));
        }
    }

    fn parse_image_reference(&mut self, destination: SourceRange) -> (r: Option<ImageReference>)
        requires
            old(self).inv(),
            destination.start <= destination.end <= old(self).input@.len(),
        ensures
            final(self).ctx() == old(self).ctx(),
            final(self).inv(),
            final(self).cursor.position == old(self).cursor.position,
            final(self).diagnostics@ == old(self).diagnostics@,
            ((match r {
                Some(x) => Some(x@),
                None => None,
            }), final(self).state()) == image_reference_v(
                old(self).ctx(),
                destination,
                old(self).state(),
            ),
    {
        let a = destination.start;
        let b = destination.end;
        if bytes_at(
            self.input,
            a,
            b,
            &[113u8, 102u8, 45u8, 97u8, 116u8, 116u8, 97u8, 99u8, 104u8, 109u8, 101u8, 110u8, 116u8, 58u8],
        ) {
            return self.request_attachment(a + 14, b);
        }
        if bytes_at(self.input, a, b, &[113u8, 102u8, 45u8, 115u8, 116u8, 111u8, 114u8, 101u8, 100u8, 58u8]) {
            return self.stored_image(a + 10, b);
        }
        self.external_image(a, b)
    }

    fn request_attachment(&mut self, start: usize, end: usize) -> (r: Option<ImageReference>)
        requires
            old(self).inv(),
            start <= end <= old(self).input@.len(),
        ensures
            final(self).ctx() == old(self).ctx(),
            final(self).inv(),
            final(self).cursor.position == old(self).cursor.position,
            final(self).diagnostics@ == old(self).diagnostics@,
            start >= end ==> r is None && final(self).references@ == old(self).references@,
            start < end ==> (r matches Some(ImageReference::RequestAttachment(k)) && k@ == source_text(
                old(self).input@.subrange(start as int, end as int),
            ) && final(self).references@ == (ReferencesV {
                request_attachments: old(self).references@.request_attachments.push(k@),
                ..old(self).references@
            })),
    {
        if start >= end {
            return None;
        }
        let key = AttachmentKey::from_source(range_text(self.input, start, end));
        let ghost before = self.references.request_attachments@;
        self.references.request_attachments.push(key.duplicate());
        assert(self.references.request_attachments@.map_values(|k: AttachmentKey| k@) =~= before.map_values(
            |k: AttachmentKey| k@,
        ).push(key@));
        Some(ImageReference::RequestAttachment(key))
    }

    fn stored_image(&mut self, start: usize, end: usize) -> (r: Option<ImageReference>)
        requires
            old(self).inv(),
            start <= end <= old(self).input@.len(),
        ensures
            final(self).ctx() == old(self).ctx(),
            final(self).inv(),
            final(self).cursor.position == old(self).cursor.position,
            final(self).diagnostics@ == old(self).diagnostics@,
            start >= end ==> r is None && final(self).references@ == old(self).references@,
            start < end ==> (r matches Some(ImageReference::StoredImage(k)) && k@ == source_text(
                old(self).input@.subrange(start as int, end as int),
            ) && final(self).references@ == (ReferencesV {
                stored_images: old(self).references@.stored_images.push(k@),
                ..old(self).references@
            })),
    {
        if start >= end {
            return None;
        }
        let id = StoredImageId::from_source(range_text(self.input, start, end));
        let ghost before = self.references.stored_images@;
        self.references.stored_images.push(id.duplicate());
        assert(self.references.stored_images@.map_values(|k: StoredImageId| k@) =~= before.map_values(
            |k: StoredImageId| k@,
        ).push(id@));
        Some(ImageReference::StoredImage(id))
    }

    fn external_image(&mut self, start: usize, end: usize) -> (r: Option<ImageReference>)
        requires
            old(self).inv(),
            start <= end <= old(self).input@.len(),
        ensures
            final(self).ctx() == old(self).ctx(),
            final(self).inv(),
            final(self).cursor.position == old(self).cursor.position,
            final(self).diagnostics@ == old(self).diagnostics@,
            !http_url(old(self).input@, start as int, end as int) ==> r is None
                && final(self).references@ == old(self).references@,
            http_url(old(self).input@, start as int, end as int) ==> (r matches Some(
                ImageReference::ExternalUrl(k),
            ) && k@ == source_text(old(self).input@.subrange(start as int, end as int))
                && final(self).references@ == (ReferencesV {
                external_images: old(self).references@.external_images.push(k@),
                ..old(self).references@
            })),
    {
        if !is_http_image_url(self.input, start, end) {
            return None;
        }
        let url = ExternalImageUrl::from_source(range_text(self.input, start, end));
        let ghost before = self.references.external_images@;
        self.references.external_images.push(url.duplicate());
        assert(self.references.external_images@.map_values(|k: ExternalImageUrl| k@) =~= before.map_values(
            |k: ExternalImageUrl| k@,
        ).push(url@));
        Some(ImageReference::ExternalUrl(url))
    }

    /// FoldBlankContent <- (Raw / MathInline)*
    fn fold_blank_inlines(&self, tokens: &[Token]) -> (r: Vec<FoldBlankInline>)
        requires
            tokens_wf(tokens@, self.input@.len() as int),
        ensures
            r@.map_values(|i: FoldBlankInline| i@) == blank_inlines_from(self.ctx(), tokens@, 0, seq![]),
    {
        let mut inlines: Vec<FoldBlankInline> = Vec::new();
        let mut index: usize = 0;
        let ghost c = self.ctx();
        assert(inlines@.map_values(|i: FoldBlankInline| i@) =~= seq![]);
        while index < tokens.len()
            invariant
                index <= tokens@.len(),
                tokens_wf(tokens@, self.input@.len() as int),
                blank_inlines_from(c, tokens@, index as int, inlines@.map_values(|i: FoldBlankInline| i@))
                    == blank_inlines_from(c, tokens@, 0, seq![]),
                c == self.ctx(),
            decreases tokens@.len() - index,
        {
            let ghost acc = inlines@.map_values(|i: FoldBlankInline| i@);
            let token = tokens[index];
            assert(token_wf(tokens@[index as int], self.input@.len() as int));
            if let Some((inline, next)) = self.fold_blank_math(tokens, index, token) {
                inlines.push(inline);
                assert(inlines@.map_values(|i: FoldBlankInline| i@) =~= acc.push(inline@));
                index = next;
            } else {
                let inline = self.fold_blank_raw(token);
                inlines.push(inline);
                assert(inlines@.map_values(|i: FoldBlankInline| i@) =~= acc.push(inline@));
                index = index + 1;
            }
        }
        inlines
    }

    fn fold_blank_math(&self, tokens: &[Token], index: usize, opening: Token) -> (r: Option<
        (FoldBlankInline, usize),
    >)
        requires
            tokens_wf(tokens@, self.input@.len() as int),
            index < tokens@.len(),
            opening == tokens@[index as int],
        ensures
            r is Some <==> (opening.kind == TokenKind::MathInlineDelimiter && find_kind(
                tokens@,
                index + 1,
                TokenKind::MathInlineDelimiter,
            ) is Some && find_kind(tokens@, index + 1, TokenKind::MathInlineDelimiter)->0 > index),
            r matches Some(v) ==> index < v.1 <= tokens@.len(),
            r matches Some(v) ==> v.1 == find_kind(tokens@, index + 1, TokenKind::MathInlineDelimiter)->0 + 1
                && v.0@ == (FoldBlankInlineV {
                kind: FoldBlankInlineKindV::MathInline(
                    text_of(
                        self.ctx(),
                        SourceRange {
                            start: opening.source_range.end,
                            end: tokens@[v.1 - 1].source_range.start,
                        },
                    ),
                ),
                source_range: SourceRange {
                    start: opening.source_range.start,
                    end: tokens@[v.1 - 1].source_range.end,
                },
            }),
    {
        let n = tokens.len();
        if opening.kind != TokenKind::MathInlineDelimiter {
            return None;
        }
        let end_index = find_token(tokens, index + 1, TokenKind::MathInlineDelimiter)?;
        let closing = tokens[end_index];
        assert(tokens@[index as int].source_range.end <= tokens@[end_index as int].source_range.start);
        assert(token_wf(tokens@[end_index as int], self.input@.len() as int));
        let range = SourceRange::new(opening.source_range.start, closing.source_range.end);
        let source = range_text(self.input, opening.source_range.end, closing.source_range.start);
        Some(
            (
                FoldBlankInline::new(FoldBlankInlineKind::MathInline(MathInline { source }), range),
                end_index + 1,
            ),
        )
    }

    fn fold_blank_raw(&self, token: Token) -> (r: FoldBlankInline)
        requires
            token_wf(token, self.input@.len() as int),
        ensures
            r@ == (FoldBlankInlineV {
                kind: FoldBlankInlineKindV::Raw(text_of(self.ctx(), token.source_range)),
                source_range: token.source_range,
            }),
    {
        FoldBlankInline::new(
            FoldBlankInlineKind::Raw(
                Raw {
                    value: range_text(
                        self.input,
                        token.source_range.start,
                        token.source_range.end,
                    ),
                },
            ),
            token.source_range,
        )
    }
}

/// Some inline is a fold blank.
fn contains_blank(inlines: &Vec<Inline>) -> (r: bool)
    ensures
        r == has_fold_blank(inlines_view(inlines@)),
{
    let mut i: usize = 0;
    while i < inlines.len()
        invariant
            i <= inlines@.len(),
            forall|j: int| 0 <= j < i ==> (#[trigger] inlines@[j]).kind !is FoldBlank,
        decreases inlines@.len() - i,
    {
        if let InlineKind::FoldBlank(_) = &inlines[i].kind {
            assert(inlines_view(inlines@)[i as int].kind is FoldBlank);
            return true;
        }
        i = i + 1;
    }
    assert forall|j: int| 0 <= j < inlines_view(inlines@).len() implies (#[trigger] inlines_view(
        inlines@,
    )[j]).kind !is FoldBlank by {
        assert(inlines@[j].kind !is FoldBlank);
    }
    false
}

/// An image inline.
fn image_inline(alt: String, reference: ImageReference, range: SourceRange) -> (r: Inline)
    ensures
        r@ == (InlineV {
            kind: InlineKindV::Image(ImageV { alt: alt@, reference: reference@ }),
            source_range: range,
        }),
{
    Inline::new(InlineKind::Image(Image { alt: Raw { value: alt }, reference }), range)
}

/// An `http://` or `https://` URL with a host part and no whitespace.
fn is_http_image_url(s: &[u8], start: usize, end: usize) -> (r: bool)
    requires
        start <= end <= s@.len(),
    ensures
        r == http_url(s@, start as int, end as int),
{
    let rest = if bytes_at(s, start, end, &[104u8, 116u8, 116u8, 112u8, 115u8, 58u8, 47u8, 47u8]) {
        start + 8
    } else if bytes_at(s, start, end, &[104u8, 116u8, 116u8, 112u8, 58u8, 47u8, 47u8]) {
        start + 7
    } else {
        return false;
    };
    rest < end && s[rest] != 47u8 && !contains_whitespace(s, rest, end)
}

} // verus!
