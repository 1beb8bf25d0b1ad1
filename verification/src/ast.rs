//! Source-oriented syntax tree of a QuizFold document.
//!
//! Every node keeps the byte range of the source it was parsed from. Each
//! type has a view (its `...V` counterpart) in which text is a sequence of
//! characters; contracts are stated over these views.
use crate::source::SourceRange;
use vstd::prelude::*;

verus! {

#[derive(Debug, Clone, Default, PartialEq, Eq)]
pub struct QuizFoldDocument {
    pub items: Vec<DocumentItem>,
    pub source_range: SourceRange,
}

#[derive(Debug, Clone, PartialEq, Eq)]
pub struct DocumentItem {
    pub kind: DocumentItemKind,
    pub source_range: SourceRange,
}

#[derive(Debug, Clone, PartialEq, Eq)]
pub enum DocumentItemKind {
    Quiz(QuizItem),
    Block(Block),
}

#[derive(Debug, Clone, PartialEq, Eq)]
pub struct QuizItem {
    pub kind: QuizItemKind,
    pub source_range: SourceRange,
}

#[derive(Debug, Clone, PartialEq, Eq)]
pub enum QuizItemKind {
    /// `? question`, `---`, then the answer.
    Qa(QaQuiz),
    /// `! This is ${answer}`.
    Fold(FoldQuiz),
}

#[derive(Debug, Clone, PartialEq, Eq)]
pub struct QaQuiz {
    pub question: QuizContent,
    pub answer: QuizContent,
    pub source_range: SourceRange,
}

#[derive(Debug, Clone, PartialEq, Eq)]
pub struct FoldQuiz {
    pub content: QuizContent,
    pub source_range: SourceRange,
}

#[derive(Debug, Clone, PartialEq, Eq)]
pub struct QuizContent {
    pub blocks: Vec<Block>,
    pub source_range: SourceRange,
}

#[derive(Debug, PartialEq, Eq)]
pub struct Block {
    pub kind: BlockKind,
    pub source_range: SourceRange,
}

#[derive(Debug, PartialEq, Eq)]
pub enum BlockKind {
    Paragraph(Paragraph),
    Memo(MemoBlock),
    MathBlock(MathBlock),
    CodeBlock(CodeBlock),
    MermaidBlock(MermaidBlock),
}

#[derive(Debug, PartialEq, Eq)]
pub struct MemoBlock {
    pub blocks: Vec<Block>,
    pub source_range: SourceRange,
}

#[derive(Debug, Clone, PartialEq, Eq)]
pub struct Paragraph {
    pub inlines: Vec<Inline>,
    pub source_range: SourceRange,
}

#[derive(Debug, Clone, PartialEq, Eq)]
pub struct Inline {
    pub kind: InlineKind,
    pub source_range: SourceRange,
}

#[derive(Debug, Clone, PartialEq, Eq)]
pub enum InlineKind {
    Raw(Raw),
    MathInline(MathInline),
    FoldBlank(FoldBlank),
    Image(Image),
    SoftBreak,
}

#[derive(Debug, Clone, PartialEq, Eq)]
pub struct FoldBlank {
    pub answer: FoldBlankContent,
    pub source_range: SourceRange,
}

#[derive(Debug, Clone, PartialEq, Eq)]
pub struct FoldBlankContent {
    pub inlines: Vec<FoldBlankInline>,
    pub source_range: SourceRange,
}

#[derive(Debug, Clone, PartialEq, Eq)]
pub struct FoldBlankInline {
    pub kind: FoldBlankInlineKind,
    pub source_range: SourceRange,
}

#[derive(Debug, Clone, PartialEq, Eq)]
pub enum FoldBlankInlineKind {
    Raw(Raw),
    MathInline(MathInline),
}

#[derive(Debug, Clone, PartialEq, Eq)]
pub struct Raw {
    pub value: String,
}

#[derive(Debug, Clone, PartialEq, Eq)]
pub struct Image {
    pub alt: Raw,
    pub reference: ImageReference,
}

#[derive(Debug, Clone, PartialEq, Eq)]
pub enum ImageReference {
    RequestAttachment(AttachmentKey),
    StoredImage(StoredImageId),
    ExternalUrl(ExternalImageUrl),
}

/// Key of an attachment supplied with a request (`qf-attachment:<key>`).
#[derive(Debug, Clone, PartialEq, Eq, PartialOrd, Ord)]
pub struct AttachmentKey(String);

/// Identifier of an already stored image (`qf-stored:<id>`).
#[derive(Debug, Clone, PartialEq, Eq, PartialOrd, Ord)]
pub struct StoredImageId(String);

/// An external `http://` or `https://` image URL.
#[derive(Debug, Clone, PartialEq, Eq, PartialOrd, Ord)]
pub struct ExternalImageUrl(String);

#[derive(Debug, Clone, PartialEq, Eq)]
pub struct MathBlock {
    pub source: String,
}

#[derive(Debug, Clone, PartialEq, Eq)]
pub struct MathInline {
    pub source: String,
}

#[derive(Debug, Clone, PartialEq, Eq)]
pub struct CodeBlock {
    pub language: Option<String>,
    pub source: String,
}

#[derive(Debug, Clone, PartialEq, Eq)]
pub struct MermaidBlock {
    pub source: String,
}

// ---------------------------------------------------------------------
// Views.
pub struct QuizFoldDocumentV {
    pub items: Seq<DocumentItemV>,
    pub source_range: SourceRange,
}

pub struct DocumentItemV {
    pub kind: DocumentItemKindV,
    pub source_range: SourceRange,
}

pub enum DocumentItemKindV {
    Quiz(QuizItemV),
    Block(BlockV),
}

pub struct QuizItemV {
    pub kind: QuizItemKindV,
    pub source_range: SourceRange,
}

pub enum QuizItemKindV {
    Qa(QaQuizV),
    Fold(FoldQuizV),
}

pub struct QaQuizV {
    pub question: QuizContentV,
    pub answer: QuizContentV,
    pub source_range: SourceRange,
}

pub struct FoldQuizV {
    pub content: QuizContentV,
    pub source_range: SourceRange,
}

pub struct QuizContentV {
    pub blocks: Seq<BlockV>,
    pub source_range: SourceRange,
}

pub struct BlockV {
    pub kind: BlockKindV,
    pub source_range: SourceRange,
}

pub enum BlockKindV {
    Paragraph(ParagraphV),
    Memo(MemoBlockV),
    MathBlock(Seq<char>),
    CodeBlock(CodeBlockV),
    MermaidBlock(Seq<char>),
}

pub struct MemoBlockV {
    pub blocks: Seq<BlockV>,
    pub source_range: SourceRange,
}

pub struct ParagraphV {
    pub inlines: Seq<InlineV>,
    pub source_range: SourceRange,
}

pub struct InlineV {
    pub kind: InlineKindV,
    pub source_range: SourceRange,
}

pub enum InlineKindV {
    Raw(Seq<char>),
    MathInline(Seq<char>),
    FoldBlank(FoldBlankV),
    Image(ImageV),
    SoftBreak,
}

pub struct FoldBlankV {
    pub answer: FoldBlankContentV,
    pub source_range: SourceRange,
}

pub struct FoldBlankContentV {
    pub inlines: Seq<FoldBlankInlineV>,
    pub source_range: SourceRange,
}

pub struct FoldBlankInlineV {
    pub kind: FoldBlankInlineKindV,
    pub source_range: SourceRange,
}

pub enum FoldBlankInlineKindV {
    Raw(Seq<char>),
    MathInline(Seq<char>),
}

pub struct ImageV {
    pub alt: Seq<char>,
    pub reference: ImageReferenceV,
}

pub enum ImageReferenceV {
    RequestAttachment(Seq<char>),
    StoredImage(Seq<char>),
    ExternalUrl(Seq<char>),
}

pub struct CodeBlockV {
    pub language: Option<Seq<char>>,
    pub source: Seq<char>,
}

impl View for Raw {
    type V = Seq<char>;

    open spec fn view(&self) -> Seq<char> {
        self.value@
    }
}

impl View for MathInline {
    type V = Seq<char>;

    open spec fn view(&self) -> Seq<char> {
        self.source@
    }
}

impl View for MathBlock {
    type V = Seq<char>;

    open spec fn view(&self) -> Seq<char> {
        self.source@
    }
}

impl View for MermaidBlock {
    type V = Seq<char>;

    open spec fn view(&self) -> Seq<char> {
        self.source@
    }
}

pub open spec fn option_text_view(o: Option<String>) -> Option<Seq<char>> {
    match o {
        Some(s) => Some(s@),
        None => None,
    }
}

impl View for CodeBlock {
    type V = CodeBlockV;

    open spec fn view(&self) -> CodeBlockV {
        CodeBlockV { language: option_text_view(self.language), source: self.source@ }
    }
}

impl View for AttachmentKey {
    type V = Seq<char>;

    closed spec fn view(&self) -> Seq<char> {
        self.0@
    }
}

impl View for StoredImageId {
    type V = Seq<char>;

    closed spec fn view(&self) -> Seq<char> {
        self.0@
    }
}

impl View for ExternalImageUrl {
    type V = Seq<char>;

    closed spec fn view(&self) -> Seq<char> {
        self.0@
    }
}

impl View for ImageReference {
    type V = ImageReferenceV;

    open spec fn view(&self) -> ImageReferenceV {
        match self {
            ImageReference::RequestAttachment(k) => ImageReferenceV::RequestAttachment(k@),
            ImageReference::StoredImage(k) => ImageReferenceV::StoredImage(k@),
            ImageReference::ExternalUrl(k) => ImageReferenceV::ExternalUrl(k@),
        }
    }
}

impl View for Image {
    type V = ImageV;

    open spec fn view(&self) -> ImageV {
        ImageV { alt: self.alt@, reference: self.reference@ }
    }
}

impl View for FoldBlankInline {
    type V = FoldBlankInlineV;

    open spec fn view(&self) -> FoldBlankInlineV {
        FoldBlankInlineV {
            kind: match self.kind {
                FoldBlankInlineKind::Raw(r) => FoldBlankInlineKindV::Raw(r@),
                FoldBlankInlineKind::MathInline(m) => FoldBlankInlineKindV::MathInline(m@),
            },
            source_range: self.source_range,
        }
    }
}

impl View for FoldBlankContent {
    type V = FoldBlankContentV;

    open spec fn view(&self) -> FoldBlankContentV {
        FoldBlankContentV {
            inlines: self.inlines@.map_values(|i: FoldBlankInline| i@),
            source_range: self.source_range,
        }
    }
}

impl View for FoldBlank {
    type V = FoldBlankV;

    open spec fn view(&self) -> FoldBlankV {
        FoldBlankV { answer: self.answer@, source_range: self.source_range }
    }
}

impl View for InlineKind {
    type V = InlineKindV;

    open spec fn view(&self) -> InlineKindV {
        match self {
            InlineKind::Raw(r) => InlineKindV::Raw(r@),
            InlineKind::MathInline(m) => InlineKindV::MathInline(m@),
            InlineKind::FoldBlank(b) => InlineKindV::FoldBlank(b@),
            InlineKind::Image(i) => InlineKindV::Image(i@),
            InlineKind::SoftBreak => InlineKindV::SoftBreak,
        }
    }
}

impl View for Inline {
    type V = InlineV;

    open spec fn view(&self) -> InlineV {
        InlineV { kind: self.kind@, source_range: self.source_range }
    }
}

impl View for Paragraph {
    type V = ParagraphV;

    open spec fn view(&self) -> ParagraphV {
        ParagraphV {
            inlines: self.inlines@.map_values(|i: Inline| i@),
            source_range: self.source_range,
        }
    }
}

/// View of a block; memo blocks hold blocks, so the view is recursive.
pub open spec fn block_view(b: Block) -> BlockV
    decreases b,
{
    BlockV {
        kind: match b.kind {
            BlockKind::Paragraph(p) => BlockKindV::Paragraph(p@),
            BlockKind::Memo(m) => BlockKindV::Memo(
                MemoBlockV {
                    blocks: Seq::new(
                        m.blocks@.len(),
                        |i: int|
                            if 0 <= i < m.blocks@.len() {
                                block_view(m.blocks@[i])
                            } else {
                                BlockV {
                                    kind: BlockKindV::MathBlock(seq![]),
                                    source_range: SourceRange { start: 0, end: 0 },
                                }
                            },
                    ),
                    source_range: m.source_range,
                },
            ),
            BlockKind::MathBlock(x) => BlockKindV::MathBlock(x@),
            BlockKind::CodeBlock(x) => BlockKindV::CodeBlock(x@),
            BlockKind::MermaidBlock(x) => BlockKindV::MermaidBlock(x@),
        },
        source_range: b.source_range,
    }
}

impl View for Block {
    type V = BlockV;

    open spec fn view(&self) -> BlockV {
        block_view(*self)
    }
}

impl View for MemoBlock {
    type V = MemoBlockV;

    open spec fn view(&self) -> MemoBlockV {
        MemoBlockV {
            blocks: self.blocks@.map_values(|b: Block| b@),
            source_range: self.source_range,
        }
    }
}

pub proof fn lemma_memo_block_view(b: Block)
    requires
        b.kind is Memo,
    ensures
        b@.kind == BlockKindV::Memo(b.kind->Memo_0@),
{
    assert(b@.kind->Memo_0.blocks =~= b.kind->Memo_0@.blocks);
}

impl View for QuizContent {
    type V = QuizContentV;

    open spec fn view(&self) -> QuizContentV {
        QuizContentV {
            blocks: self.blocks@.map_values(|b: Block| b@),
            source_range: self.source_range,
        }
    }
}

impl View for QaQuiz {
    type V = QaQuizV;

    open spec fn view(&self) -> QaQuizV {
        QaQuizV {
            question: self.question@,
            answer: self.answer@,
            source_range: self.source_range,
        }
    }
}

impl View for FoldQuiz {
    type V = FoldQuizV;

    open spec fn view(&self) -> FoldQuizV {
        FoldQuizV { content: self.content@, source_range: self.source_range }
    }
}

impl View for QuizItem {
    type V = QuizItemV;

    open spec fn view(&self) -> QuizItemV {
        QuizItemV {
            kind: match self.kind {
                QuizItemKind::Qa(q) => QuizItemKindV::Qa(q@),
                QuizItemKind::Fold(f) => QuizItemKindV::Fold(f@),
            },
            source_range: self.source_range,
        }
    }
}

impl View for DocumentItem {
    type V = DocumentItemV;

    open spec fn view(&self) -> DocumentItemV {
        DocumentItemV {
            kind: match self.kind {
                DocumentItemKind::Quiz(q) => DocumentItemKindV::Quiz(q@),
                DocumentItemKind::Block(b) => DocumentItemKindV::Block(b@),
            },
            source_range: self.source_range,
        }
    }
}

impl View for QuizFoldDocument {
    type V = QuizFoldDocumentV;

    open spec fn view(&self) -> QuizFoldDocumentV {
        QuizFoldDocumentV {
            items: self.items@.map_values(|i: DocumentItem| i@),
            source_range: self.source_range,
        }
    }
}

// ---------------------------------------------------------------------
// Copies.
impl Raw {
    /// A copy of the text.
    pub fn duplicate(&self) -> (r: Raw)
        ensures
            r@ == self@,
    {
        Raw { value: self.value.clone() }
    }
}

impl MathInline {
    /// A copy of the formula.
    pub fn duplicate(&self) -> (r: MathInline)
        ensures
            r@ == self@,
    {
        MathInline { source: self.source.clone() }
    }
}

impl MathBlock {
    /// A copy of the formula.
    pub fn duplicate(&self) -> (r: MathBlock)
        ensures
            r@ == self@,
    {
        MathBlock { source: self.source.clone() }
    }
}

impl MermaidBlock {
    /// A copy of the diagram source.
    pub fn duplicate(&self) -> (r: MermaidBlock)
        ensures
            r@ == self@,
    {
        MermaidBlock { source: self.source.clone() }
    }
}

impl CodeBlock {
    /// A copy of the code block.
    pub fn duplicate(&self) -> (r: CodeBlock)
        ensures
            r@ == self@,
    {
        let language = match &self.language {
            Some(l) => Some(l.clone()),
            None => None,
        };
        CodeBlock { language, source: self.source.clone() }
    }
}

impl ImageReference {
    /// A copy of the reference.
    pub fn duplicate(&self) -> (r: ImageReference)
        ensures
            r@ == self@,
    {
        match self {
            ImageReference::RequestAttachment(k) => ImageReference::RequestAttachment(k.duplicate()),
            ImageReference::StoredImage(k) => ImageReference::StoredImage(k.duplicate()),
            ImageReference::ExternalUrl(k) => ImageReference::ExternalUrl(k.duplicate()),
        }
    }
}

impl Image {
    /// A copy of the image.
    pub fn duplicate(&self) -> (r: Image)
        ensures
            r@ == self@,
    {
        Image { alt: self.alt.duplicate(), reference: self.reference.duplicate() }
    }
}

impl FoldBlankInline {
    /// A copy of the inline.
    pub fn duplicate(&self) -> (r: FoldBlankInline)
        ensures
            r@ == self@,
    {
        let kind = match &self.kind {
            FoldBlankInlineKind::Raw(x) => FoldBlankInlineKind::Raw(x.duplicate()),
            FoldBlankInlineKind::MathInline(x) => FoldBlankInlineKind::MathInline(x.duplicate()),
        };
        FoldBlankInline { kind, source_range: self.source_range }
    }
}

impl FoldBlankContent {
    /// A copy of the answer content.
    pub fn duplicate(&self) -> (r: FoldBlankContent)
        ensures
            r@ == self@,
    {
        let mut inlines: Vec<FoldBlankInline> = Vec::new();
        let mut i: usize = 0;
        while i < self.inlines.len()
            invariant
                i <= self.inlines@.len(),
                inlines@.len() == i,
                forall|j: int| 0 <= j < i ==> (#[trigger] inlines@[j])@ == self.inlines@[j]@,
            decreases self.inlines@.len() - i,
        {
            inlines.push(self.inlines[i].duplicate());
            i = i + 1;
        }
        assert(inlines@.map_values(|x: FoldBlankInline| x@) =~= self.inlines@.map_values(
            |x: FoldBlankInline| x@,
        ));
        FoldBlankContent { inlines, source_range: self.source_range }
    }
}

impl FoldBlank {
    /// A copy of the blank.
    pub fn duplicate(&self) -> (r: FoldBlank)
        ensures
            r@ == self@,
    {
        FoldBlank { answer: self.answer.duplicate(), source_range: self.source_range }
    }
}

impl Inline {
    /// A copy of the inline.
    pub fn duplicate(&self) -> (r: Inline)
        ensures
            r@ == self@,
    {
        let kind = match &self.kind {
            InlineKind::Raw(x) => InlineKind::Raw(x.duplicate()),
            InlineKind::MathInline(x) => InlineKind::MathInline(x.duplicate()),
            InlineKind::FoldBlank(x) => InlineKind::FoldBlank(x.duplicate()),
            InlineKind::Image(x) => InlineKind::Image(x.duplicate()),
            InlineKind::SoftBreak => InlineKind::SoftBreak,
        };
        Inline { kind, source_range: self.source_range }
    }
}

impl Paragraph {
    /// A copy of the paragraph.
    pub fn duplicate(&self) -> (r: Paragraph)
        ensures
            r@ == self@,
    {
        let mut inlines: Vec<Inline> = Vec::new();
        let mut i: usize = 0;
        while i < self.inlines.len()
            invariant
                i <= self.inlines@.len(),
                inlines@.len() == i,
                forall|j: int| 0 <= j < i ==> (#[trigger] inlines@[j])@ == self.inlines@[j]@,
            decreases self.inlines@.len() - i,
        {
            inlines.push(self.inlines[i].duplicate());
            i = i + 1;
        }
        assert(inlines@.map_values(|x: Inline| x@) =~= self.inlines@.map_values(|x: Inline| x@));
        Paragraph { inlines, source_range: self.source_range }
    }
}

/// A copy of a block.
pub fn copy_block(b: &Block) -> (r: Block)
    ensures
        r@ == b@,
    decreases b,
{
    match &b.kind {
        BlockKind::Paragraph(x) => Block { kind: BlockKind::Paragraph(x.duplicate()), source_range: b.source_range },
        BlockKind::Memo(m) => {
            let mut blocks: Vec<Block> = Vec::new();
            let mut i: usize = 0;
            while i < m.blocks.len()
                invariant
                    b.kind == BlockKind::Memo(*m),
                    i <= m.blocks@.len(),
                    blocks@.len() == i,
                    forall|j: int| 0 <= j < i ==> (#[trigger] blocks@[j])@ == m.blocks@[j]@,
                decreases m.blocks@.len() - i,
            {
                proof {
                    assert(decreases_to!(*b => b.kind));
                    assert(decreases_to!(b.kind => b.kind->Memo_0));
                    assert(decreases_to!(*m => m.blocks));
                    assert(decreases_to!(m.blocks => m.blocks@));
                    assert(decreases_to!(m.blocks@ => m.blocks@[i as int]));
                }
                let c = copy_block(&m.blocks[i]);
                blocks.push(c);
                i = i + 1;
            }
            let r = Block {
                kind: BlockKind::Memo(MemoBlock { blocks, source_range: m.source_range }),
                source_range: b.source_range,
            };
            assert(r@.kind->Memo_0.blocks =~= b@.kind->Memo_0.blocks);
            r
        },
        BlockKind::MathBlock(x) => Block { kind: BlockKind::MathBlock(x.duplicate()), source_range: b.source_range },
        BlockKind::CodeBlock(x) => Block { kind: BlockKind::CodeBlock(x.duplicate()), source_range: b.source_range },
        BlockKind::MermaidBlock(x) => Block { kind: BlockKind::MermaidBlock(x.duplicate()), source_range: b.source_range },
    }
}

impl Clone for Block {
    fn clone(&self) -> (r: Self)
        ensures
            r@ == self@,
    {
        copy_block(self)
    }
}

impl Clone for MemoBlock {
    fn clone(&self) -> (r: Self)
        ensures
            r@ == self@,
    {
        let mut blocks: Vec<Block> = Vec::new();
        let mut i: usize = 0;
        while i < self.blocks.len()
            invariant
                i <= self.blocks@.len(),
                blocks@.len() == i,
                forall|j: int| 0 <= j < i ==> (#[trigger] blocks@[j])@ == self.blocks@[j]@,
            decreases self.blocks@.len() - i,
        {
            blocks.push(copy_block(&self.blocks[i]));
            i = i + 1;
        }
        let r = MemoBlock { blocks, source_range: self.source_range };
        assert(r@.blocks =~= self@.blocks);
        r
    }
}

impl Clone for BlockKind {
    fn clone(&self) -> (r: Self)
        ensures
            block_view(Block { kind: r, source_range: SourceRange { start: 0, end: 0 } }) == block_view(
                Block { kind: *self, source_range: SourceRange { start: 0, end: 0 } },
            ),
    {
        match self {
            BlockKind::Paragraph(x) => BlockKind::Paragraph(x.duplicate()),
            BlockKind::Memo(m) => {
                let copy = m.clone();
                proof {
                    let range = SourceRange { start: 0, end: 0 };
                    lemma_memo_block_view(Block { kind: BlockKind::Memo(copy), source_range: range });
                    lemma_memo_block_view(Block { kind: BlockKind::Memo(*m), source_range: range });
                }
                BlockKind::Memo(copy)
            },
            BlockKind::MathBlock(x) => BlockKind::MathBlock(x.duplicate()),
            BlockKind::CodeBlock(x) => BlockKind::CodeBlock(x.duplicate()),
            BlockKind::MermaidBlock(x) => BlockKind::MermaidBlock(x.duplicate()),
        }
    }
}

// ---------------------------------------------------------------------
// Constructors and accessors.
impl AttachmentKey {
    /// A key with the given text.
    pub fn from_source(value: String) -> (r: AttachmentKey)
        ensures
            r@ == value@,
    {
        AttachmentKey(value)
    }

    /// The key text.
    pub fn as_str(&self) -> (r: &str)
        ensures
            r@ == self@,
    {
        self.0.as_str()
    }

    /// A copy of the key.
    pub fn duplicate(&self) -> (r: AttachmentKey)
        ensures
            r@ == self@,
    {
        AttachmentKey(self.0.clone())
    }
}

impl StoredImageId {
    /// An identifier with the given text.
    pub fn from_source(value: String) -> (r: StoredImageId)
        ensures
            r@ == value@,
    {
        StoredImageId(value)
    }

    /// The identifier text.
    pub fn as_str(&self) -> (r: &str)
        ensures
            r@ == self@,
    {
        self.0.as_str()
    }

    /// A copy of the identifier.
    pub fn duplicate(&self) -> (r: StoredImageId)
        ensures
            r@ == self@,
    {
        StoredImageId(self.0.clone())
    }
}

impl ExternalImageUrl {
    /// A URL with the given text.
    pub fn from_source(value: String) -> (r: ExternalImageUrl)
        ensures
            r@ == value@,
    {
        ExternalImageUrl(value)
    }

    /// The URL text.
    pub fn as_str(&self) -> (r: &str)
        ensures
            r@ == self@,
    {
        self.0.as_str()
    }

    /// A copy of the URL.
    pub fn duplicate(&self) -> (r: ExternalImageUrl)
        ensures
            r@ == self@,
    {
        ExternalImageUrl(self.0.clone())
    }
}

impl QuizFoldDocument {
    pub fn new(items: Vec<DocumentItem>, source_range: SourceRange) -> (r: QuizFoldDocument)
        ensures
            r.items == items,
            r.source_range == source_range,
    {
        QuizFoldDocument { items, source_range }
    }
}

impl DocumentItem {
    pub fn new(kind: DocumentItemKind, source_range: SourceRange) -> (r: DocumentItem)
        ensures
            r.kind == kind,
            r.source_range == source_range,
    {
        DocumentItem { kind, source_range }
    }
}

impl QuizItem {
    pub fn new(kind: QuizItemKind, source_range: SourceRange) -> (r: QuizItem)
        ensures
            r.kind == kind,
            r.source_range == source_range,
    {
        QuizItem { kind, source_range }
    }
}

impl QaQuiz {
    pub fn new(question: QuizContent, answer: QuizContent, source_range: SourceRange) -> (r: QaQuiz)
        ensures
            r.question == question,
            r.answer == answer,
            r.source_range == source_range,
    {
        QaQuiz { question, answer, source_range }
    }
}

impl FoldQuiz {
    pub fn new(content: QuizContent, source_range: SourceRange) -> (r: FoldQuiz)
        ensures
            r.content == content,
            r.source_range == source_range,
    {
        FoldQuiz { content, source_range }
    }
}

impl QuizContent {
    pub fn new(blocks: Vec<Block>, source_range: SourceRange) -> (r: QuizContent)
        ensures
            r.blocks == blocks,
            r.source_range == source_range,
    {
        QuizContent { blocks, source_range }
    }
}

impl Block {
    pub fn new(kind: BlockKind, source_range: SourceRange) -> (r: Block)
        ensures
            r.kind == kind,
            r.source_range == source_range,
    {
        Block { kind, source_range }
    }
}

impl MemoBlock {
    pub fn new(blocks: Vec<Block>, source_range: SourceRange) -> (r: MemoBlock)
        ensures
            r.blocks == blocks,
            r.source_range == source_range,
    {
        MemoBlock { blocks, source_range }
    }
}

impl Paragraph {
    pub fn new(inlines: Vec<Inline>, source_range: SourceRange) -> (r: Paragraph)
        ensures
            r.inlines == inlines,
            r.source_range == source_range,
    {
        Paragraph { inlines, source_range }
    }
}

impl Inline {
    pub fn new(kind: InlineKind, source_range: SourceRange) -> (r: Inline)
        ensures
            r.kind == kind,
            r.source_range == source_range,
    {
        Inline { kind, source_range }
    }
}

impl FoldBlank {
    pub fn new(answer: FoldBlankContent, source_range: SourceRange) -> (r: FoldBlank)
        ensures
            r.answer == answer,
            r.source_range == source_range,
    {
        FoldBlank { answer, source_range }
    }
}

impl FoldBlankContent {
    pub fn new(inlines: Vec<FoldBlankInline>, source_range: SourceRange) -> (r: FoldBlankContent)
        ensures
            r.inlines == inlines,
            r.source_range == source_range,
    {
        FoldBlankContent { inlines, source_range }
    }
}

impl FoldBlankInline {
    pub fn new(kind: FoldBlankInlineKind, source_range: SourceRange) -> (r: FoldBlankInline)
        ensures
            r.kind == kind,
            r.source_range == source_range,
    {
        FoldBlankInline { kind, source_range }
    }
}

} // verus!
