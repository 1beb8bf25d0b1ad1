//! Source-independent QuizFold document model: no source ranges, and the
//! answers of fold blanks are listed apart, referred to by their index.
use crate::ast::{CodeBlock, CodeBlockV, FoldBlankInlineKindV, Image, ImageV, MathBlock, MermaidBlock};
use vstd::prelude::*;

verus! {

#[derive(Debug, Clone, Default, PartialEq, Eq)]
pub struct Document {
    pub items: Vec<Item>,
}

#[derive(Debug, Clone, PartialEq, Eq)]
pub enum Item {
    Qa(Qa),
    QaFold(QaFold),
    Fold(Fold),
    Note(Note),
}

#[derive(Debug, Clone, PartialEq, Eq)]
pub struct Qa {
    pub question: Content,
    pub answer: Content,
}

/// A Q/A quiz whose answer holds fold blanks.
#[derive(Debug, Clone, PartialEq, Eq)]
pub struct QaFold {
    pub question: Content,
    pub content: Content,
    pub blanks: Vec<Blank>,
}

#[derive(Debug, Clone, PartialEq, Eq)]
pub struct Fold {
    pub content: Vec<Inline>,
    pub blanks: Vec<Blank>,
}

#[derive(Debug, Clone, PartialEq, Eq)]
pub struct Note {
    pub block: Block,
}

#[derive(Debug, Clone, Default, PartialEq, Eq)]
pub struct Content {
    pub blocks: Vec<Block>,
}

#[derive(Debug, PartialEq, Eq)]
pub enum Block {
    Paragraph(Paragraph),
    Memo(Memo),
    MathBlock(MathBlock),
    CodeBlock(CodeBlock),
    MermaidBlock(MermaidBlock),
}

#[derive(Debug, Clone, PartialEq, Eq)]
pub struct Paragraph {
    pub inlines: Vec<Inline>,
}

#[derive(Debug, PartialEq, Eq)]
pub struct Memo {
    pub blocks: Vec<Block>,
}

#[derive(Debug, Clone, PartialEq, Eq)]
pub enum Inline {
    Raw(String),
    MathInline(String),
    Image(Image),
    SoftBreak,
    /// The fold blank whose answer is at this index of the item's blanks.
    Blank(u32),
}

#[derive(Debug, Clone, PartialEq, Eq)]
pub struct Blank {
    pub answer: Vec<BlankInline>,
}

#[derive(Debug, Clone, PartialEq, Eq)]
pub enum BlankInline {
    Raw(String),
    MathInline(String),
}

// ---------------------------------------------------------------------
// Views.
pub enum ItemM {
    Qa { question: Seq<BlockM>, answer: Seq<BlockM> },
    QaFold { question: Seq<BlockM>, content: Seq<BlockM>, blanks: Seq<BlankM> },
    Fold { content: Seq<InlineM>, blanks: Seq<BlankM> },
    Note { block: BlockM },
}

pub enum BlockM {
    Paragraph(Seq<InlineM>),
    Memo(Seq<BlockM>),
    MathBlock(Seq<char>),
    CodeBlock(CodeBlockV),
    MermaidBlock(Seq<char>),
}

pub enum InlineM {
    Raw(Seq<char>),
    MathInline(Seq<char>),
    Image(ImageV),
    SoftBreak,
    Blank(u32),
}

/// The answer of a fold blank.
pub type BlankM = Seq<FoldBlankInlineKindV>;

impl View for BlankInline {
    type V = FoldBlankInlineKindV;

    open spec fn view(&self) -> FoldBlankInlineKindV {
        match self {
            BlankInline::Raw(s) => FoldBlankInlineKindV::Raw(s@),
            BlankInline::MathInline(s) => FoldBlankInlineKindV::MathInline(s@),
        }
    }
}

impl View for Blank {
    type V = BlankM;

    open spec fn view(&self) -> BlankM {
        self.answer@.map_values(|i: BlankInline| i@)
    }
}

pub open spec fn blanks_view(v: Seq<Blank>) -> Seq<BlankM> {
    v.map_values(|b: Blank| b@)
}

impl View for Inline {
    type V = InlineM;

    open spec fn view(&self) -> InlineM {
        match self {
            Inline::Raw(s) => InlineM::Raw(s@),
            Inline::MathInline(s) => InlineM::MathInline(s@),
            Inline::Image(i) => InlineM::Image(i@),
            Inline::SoftBreak => InlineM::SoftBreak,
            Inline::Blank(n) => InlineM::Blank(*n),
        }
    }
}

pub open spec fn inlines_m(v: Seq<Inline>) -> Seq<InlineM> {
    v.map_values(|i: Inline| i@)
}

/// View of a model block; memo blocks hold blocks, so it is recursive.
pub open spec fn model_block_view(b: Block) -> BlockM
    decreases b,
{
    match b {
        Block::Paragraph(p) => BlockM::Paragraph(inlines_m(p.inlines@)),
        Block::Memo(m) => BlockM::Memo(
            Seq::new(
                m.blocks@.len(),
                |i: int|
                    if 0 <= i < m.blocks@.len() {
                        model_block_view(m.blocks@[i])
                    } else {
                        BlockM::MathBlock(seq![])
                    },
            ),
        ),
        Block::MathBlock(x) => BlockM::MathBlock(x@),
        Block::CodeBlock(x) => BlockM::CodeBlock(x@),
        Block::MermaidBlock(x) => BlockM::MermaidBlock(x@),
    }
}

impl View for Block {
    type V = BlockM;

    open spec fn view(&self) -> BlockM {
        model_block_view(*self)
    }
}

pub open spec fn blocks_m(v: Seq<Block>) -> Seq<BlockM> {
    v.map_values(|b: Block| b@)
}

/// The view of a memo block is the memo of the views of its blocks.
pub proof fn lemma_model_memo_view(b: Block)
    requires
        b is Memo,
    ensures
        b@ == BlockM::Memo(blocks_m(b->Memo_0.blocks@)),
{
    assert(b@->Memo_0 =~= blocks_m(b->Memo_0.blocks@));
}

impl View for Content {
    type V = Seq<BlockM>;

    open spec fn view(&self) -> Seq<BlockM> {
        blocks_m(self.blocks@)
    }
}

impl View for Item {
    type V = ItemM;

    open spec fn view(&self) -> ItemM {
        match self {
            Item::Qa(q) => ItemM::Qa { question: q.question@, answer: q.answer@ },
            Item::QaFold(q) => ItemM::QaFold {
                question: q.question@,
                content: q.content@,
                blanks: blanks_view(q.blanks@),
            },
            Item::Fold(f) => ItemM::Fold { content: inlines_m(f.content@), blanks: blanks_view(f.blanks@) },
            Item::Note(n) => ItemM::Note { block: n.block@ },
        }
    }
}

impl View for Document {
    type V = Seq<ItemM>;

    open spec fn view(&self) -> Seq<ItemM> {
        self.items@.map_values(|i: Item| i@)
    }
}

/// A copy of a model inline.
pub fn copy_inline(i: &Inline) -> (r: Inline)
    ensures
        r@ == i@,
{
    match i {
        Inline::Raw(s) => Inline::Raw(s.clone()),
        Inline::MathInline(s) => Inline::MathInline(s.clone()),
        Inline::Image(img) => Inline::Image(img.duplicate()),
        Inline::SoftBreak => Inline::SoftBreak,
        Inline::Blank(n) => Inline::Blank(*n),
    }
}

/// A copy of model inlines.
pub fn copy_inlines(v: &Vec<Inline>) -> (r: Vec<Inline>)
    ensures
        inlines_m(r@) == inlines_m(v@),
{
    let mut out: Vec<Inline> = Vec::new();
    let mut i: usize = 0;
    while i < v.len()
        invariant
            i <= v@.len(),
            out@.len() == i,
            forall|j: int| 0 <= j < i ==> (#[trigger] out@[j])@ == v@[j]@,
        decreases v@.len() - i,
    {
        out.push(copy_inline(&v[i]));
        i = i + 1;
    }
    assert(inlines_m(out@) =~= inlines_m(v@));
    out
}

/// Copies of model blocks.
fn copy_model_blocks(v: &Vec<Block>) -> (r: Vec<Block>)
    ensures
        blocks_m(r@) == blocks_m(v@),
    decreases v, 1int,
{
    let mut out: Vec<Block> = Vec::new();
    let mut i: usize = 0;
    while i < v.len()
        invariant
            i <= v@.len(),
            out@.len() == i,
            forall|j: int| 0 <= j < i ==> (#[trigger] out@[j])@ == v@[j]@,
        decreases v@.len() - i,
    {
        proof {
            assert(decreases_to!(*v => v@));
            assert(decreases_to!(v@ => v@[i as int]));
        }
        out.push(copy_model_block(&v[i]));
        i = i + 1;
    }
    assert(blocks_m(out@) =~= blocks_m(v@));
    out
}

/// A copy of a model block.
pub fn copy_model_block(b: &Block) -> (r: Block)
    ensures
        r@ == b@,
    decreases b, 0int,
{
    match b {
        Block::Paragraph(p) => Block::Paragraph(Paragraph { inlines: copy_inlines(&p.inlines) }),
        Block::Memo(m) => {
            let r = Block::Memo(Memo { blocks: copy_model_blocks(&m.blocks) });
            proof {
                lemma_model_memo_view(r);
                lemma_model_memo_view(*b);
            }
            r
        },
        Block::MathBlock(x) => Block::MathBlock(x.duplicate()),
        Block::CodeBlock(x) => Block::CodeBlock(x.duplicate()),
        Block::MermaidBlock(x) => Block::MermaidBlock(x.duplicate()),
    }
}

impl Clone for Block {
    fn clone(&self) -> (r: Self)
        ensures
            r@ == self@,
    {
        copy_model_block(self)
    }
}

impl Clone for Memo {
    fn clone(&self) -> (r: Self)
        ensures
            blocks_m(r.blocks@) == blocks_m(self.blocks@),
    {
        Memo { blocks: copy_model_blocks(&self.blocks) }
    }
}

} // verus!
