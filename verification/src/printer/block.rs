//! Printing of document items and blocks.
use super::{
    Printer, leading_paragraph, print_block_v, print_blocks_v, print_fold_v,
    print_inlines_v, print_item_v, print_qa_v,
};
use crate::ast::{Block, BlockKind, DocumentItem, DocumentItemKind, FoldQuiz, QaQuiz, QuizContent, QuizItemKind};
use crate::parse::block::blocks_view;
use vstd::prelude::*;

verus! {

impl Printer {
    pub fn print_document_item(&mut self, item: &DocumentItem)
        requires
            old(self).wf(),
        ensures
            final(self).wf(),
            final(self)@ == print_item_v(old(self)@, item@),
    {
        match &item.kind {
            DocumentItemKind::Quiz(quiz) => match &quiz.kind {
                QuizItemKind::Qa(qa) => self.print_qa(qa),
                QuizItemKind::Fold(fold) => self.print_fold(fold),
            },
            DocumentItemKind::Block(block) => self.print_block(block),
        }
    }

    fn print_qa(&mut self, quiz: &QaQuiz)
        requires
            old(self).wf(),
        ensures
            final(self).wf(),
            final(self)@ == print_qa_v(old(self)@, quiz@),
    {
        self.writer.push("? ");
        let rest = self.print_leading_paragraph(&quiz.question);
        self.writer.newline();
        if rest < quiz.question.blocks.len() {
            if let BlockKind::Paragraph(_) = &quiz.question.blocks[rest].kind {
                self.writer.blank_line();
            }
        }
        proof {
            let blocks = quiz@.question.blocks;
            if leading_paragraph(blocks) {
                assert(rest == 1);
            } else {
                assert(rest == 0);
                assert(blocks.subrange(0, blocks.len() as int) =~= blocks);
            }
        }
        self.print_blocks(&quiz.question.blocks, rest, true);
        self.writer.push("---");
        self.writer.newline();
        self.print_blocks(&quiz.answer.blocks, 0, false);
        assert(quiz@.answer.blocks.subrange(0, quiz@.answer.blocks.len() as int) =~= quiz@.answer.blocks);
    }

    fn print_fold(&mut self, quiz: &FoldQuiz)
        requires
            old(self).wf(),
        ensures
            final(self).wf(),
            final(self)@ == print_fold_v(old(self)@, quiz@),
    {
        self.writer.push("! ");
        if quiz.content.blocks.len() > 0 {
            if let BlockKind::Paragraph(paragraph) = &quiz.content.blocks[0].kind {
                assert(quiz@.content.blocks[0] == quiz.content.blocks@[0]@);
                self.print_paragraph(paragraph);
            }
        }
        self.writer.newline();
    }

    /// Prints the first block of the content if it is a paragraph; returns
    /// the index of the first block left to print.
    fn print_leading_paragraph(&mut self, content: &QuizContent) -> (r: usize)
        requires
            old(self).wf(),
        ensures
            final(self).wf(),
            r == (if leading_paragraph(content@.blocks) {
                1usize
            } else {
                0usize
            }),
            final(self)@ == (if leading_paragraph(content@.blocks) {
                print_inlines_v(
                    old(self)@,
                    content@.blocks[0].kind->Paragraph_0.inlines,
                    content@.blocks[0].kind->Paragraph_0.inlines.len() as int,
                )
            } else {
                old(self)@
            }),
    {
        if content.blocks.len() == 0 {
            return 0;
        }
        assert(content@.blocks[0] == content.blocks@[0]@);
        if let BlockKind::Paragraph(paragraph) = &content.blocks[0].kind {
            self.print_paragraph(paragraph);
            1
        } else {
            0
        }
    }

    /// One block, ended by a line break.
    pub fn print_block(&mut self, block: &Block)
        requires
            old(self).wf(),
        ensures
            final(self).wf(),
            final(self)@ == print_block_v(old(self)@, block@),
        decreases block, 0int,
    {
        match &block.kind {
            BlockKind::Paragraph(paragraph) => {
                self.print_paragraph(paragraph);
                self.writer.newline();
            },
            BlockKind::Memo(memo) => {
                proof {
                    crate::ast::lemma_memo_block_view(*block);
                    assert(blocks_view(memo.blocks@).subrange(0, memo.blocks@.len() as int) =~= memo@.blocks);
                }
                self.writer.push("@memo");
                self.writer.newline();
                self.print_blocks(&memo.blocks, 0, true);
                self.writer.push("@end");
                self.writer.newline();
            },
            BlockKind::MathBlock(math) => {
                self.writer.push("$$");
                self.writer.newline();
                self.writer.push(math.source.as_str());
                self.writer.newline();
                self.writer.push("$$");
                self.writer.newline();
            },
            BlockKind::CodeBlock(code) => {
                self.writer.push("```");
                let ghost fence = self@;
                if let Some(language) = &code.language {
                    self.writer.push(language.as_str());
                } else {
                    assert(fence + Seq::<char>::empty() =~= fence);
                }
                self.writer.newline();
                self.writer.push(code.source.as_str());
                self.writer.newline();
                self.writer.push("```");
                self.writer.newline();
            },
            BlockKind::MermaidBlock(mermaid) => {
                self.writer.push("```mermaid");
                self.writer.newline();
                self.writer.push(mermaid.source.as_str());
                self.writer.newline();
                self.writer.push("```");
                self.writer.newline();
            },
        }
    }

    /// The blocks from index `start` on, with a blank line between blocks
    /// when `separated`.
    fn print_blocks(&mut self, blocks: &Vec<Block>, start: usize, separated: bool)
        requires
            old(self).wf(),
            start <= blocks@.len(),
        ensures
            final(self).wf(),
            final(self)@ == print_blocks_v(
                old(self)@,
                blocks_view(blocks@).subrange(start as int, blocks@.len() as int),
                blocks@.len() - start,
                separated,
            ),
        decreases blocks, 1int,
    {
        let ghost rest = blocks_view(blocks@).subrange(start as int, blocks@.len() as int);
        let mut index = start;
        while index < blocks.len()
            invariant
                self.wf(),
                start <= index <= blocks@.len(),
                rest == blocks_view(blocks@).subrange(start as int, blocks@.len() as int),
                self@ == print_blocks_v(old(self)@, rest, index - start, separated),
            decreases blocks@.len() - index,
        {
            if separated && index > start {
                self.writer.blank_line();
            }
            proof {
                assert(rest[index - start] == blocks@[index as int]@);
            }
            self.print_block(&blocks[index]);
            index = index + 1;
        }
    }
}

} // verus!
