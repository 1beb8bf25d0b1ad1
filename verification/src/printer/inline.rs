//! Printing of inlines: text, math, fold blanks, and images.
use super::{Printer, blank_inline_text, fold_blank_text, print_inline_v, print_inlines_v, reference_text};
use crate::ast::{FoldBlankContent, FoldBlankInlineKind, Image, ImageReference, InlineKind, Paragraph};
use vstd::prelude::*;

verus! {

impl Printer {
    /// The inlines of a paragraph.
    pub fn print_paragraph(&mut self, paragraph: &Paragraph)
        requires
            old(self).wf(),
        ensures
            final(self).wf(),
            final(self)@ == print_inlines_v(
                old(self)@,
                paragraph@.inlines,
                paragraph@.inlines.len() as int,
            ),
    {
        let mut index: usize = 0;
        while index < paragraph.inlines.len()
            invariant
                self.wf(),
                index <= paragraph.inlines@.len(),
                self@ == print_inlines_v(old(self)@, paragraph@.inlines, index as int),
            decreases paragraph.inlines@.len() - index,
        {
            self.print_inline(&paragraph.inlines[index].kind);
            index = index + 1;
        }
    }

    fn print_inline(&mut self, inline: &InlineKind)
        requires
            old(self).wf(),
        ensures
            final(self).wf(),
            final(self)@ == print_inline_v(old(self)@, inline@),
    {
        match inline {
            InlineKind::Raw(raw) => self.writer.push(raw.value.as_str()),
            InlineKind::MathInline(math) => {
                self.writer.push("$");
                self.writer.push(math.source.as_str());
                self.writer.push("$");
            },
            InlineKind::FoldBlank(blank) => self.print_fold_blank(&blank.answer),
            InlineKind::Image(image) => self.print_image(image),
            InlineKind::SoftBreak => self.writer.newline(),
        }
    }

    fn print_fold_blank(&mut self, content: &FoldBlankContent)
        requires
            old(self).wf(),
        ensures
            final(self).wf(),
            final(self)@ == old(self)@ + "${"@ + fold_blank_text(content@.inlines) + "}"@,
    {
        self.writer.push("${");
        let ghost start = self@;
        let mut index: usize = 0;
        while index < content.inlines.len()
            invariant
                self.wf(),
                index <= content.inlines@.len(),
                self@ == start + fold_blank_text(content@.inlines.subrange(0, index as int)),
            decreases content.inlines@.len() - index,
        {
            let ghost before = self@;
            match &content.inlines[index].kind {
                FoldBlankInlineKind::Raw(raw) => self.writer.push(raw.value.as_str()),
                FoldBlankInlineKind::MathInline(math) => {
                    self.writer.push("$");
                    self.writer.push(math.source.as_str());
                    self.writer.push("$");
                },
            }
            proof {
                let v = content@.inlines;
                let sub = v.subrange(0, index + 1);
                assert(sub.drop_last() =~= v.subrange(0, index as int));
                assert(v[index as int] == content.inlines@[index as int]@);
                assert(sub.last() == v[index as int]);
                assert(fold_blank_text(sub) == fold_blank_text(v.subrange(0, index as int))
                    + blank_inline_text(v[index as int]));
                assert(self@ =~= before + blank_inline_text(v[index as int]));
                assert(self@ =~= start + fold_blank_text(sub));
            }
            index = index + 1;
        }
        assert(content@.inlines.subrange(0, index as int) =~= content@.inlines);
        self.writer.push("}");
        assert(self@ =~= old(self)@ + "${"@ + fold_blank_text(content@.inlines) + "}"@);
    }

    fn print_image(&mut self, image: &Image)
        requires
            old(self).wf(),
        ensures
            final(self).wf(),
            final(self)@ == old(self)@ + "!["@ + image@.alt + "]("@ + reference_text(
                image@.reference,
            ) + ")"@,
    {
        self.writer.push("![");
        self.writer.push(image.alt.value.as_str());
        self.writer.push("](");
        match &image.reference {
            ImageReference::RequestAttachment(key) => {
                self.writer.push("qf-attachment:");
                self.writer.push(key.as_str());
            },
            ImageReference::StoredImage(id) => {
                self.writer.push("qf-stored:");
                self.writer.push(id.as_str());
            },
            ImageReference::ExternalUrl(url) => self.writer.push(url.as_str()),
        }
        self.writer.push(")");
    }
}

} // verus!
