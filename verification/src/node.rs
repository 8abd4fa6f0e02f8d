//! The document tree: block nodes, paragraphs of inline nodes, and the marks
//! that style inline text.

use vstd::prelude::*;

use core::ops::Range;

use crate::bytes::{copy_bytes, copy_opt_bytes, lemma_newline_pos, newline_pos, opt_view, slice_to_vec};
use crate::inline::{InlineState, InlineStateView};
use crate::math::{MathNode, MathNodeView};

verus! {

/// A byte range in the markdown source.
#[derive(Clone, Copy, Debug, PartialEq, Eq, Structural, Default)]
pub struct Span {
    pub start: usize,
    pub end: usize,
}

/// A link target.
#[derive(Clone, Debug, Default)]
pub struct LinkMark {
    pub url: Vec<u8>,
    /// Optional identifier for footnotes and reference links.
    pub identifier: Option<Vec<u8>>,
    pub title: Option<Vec<u8>>,
}

/// The contents of a [`LinkMark`].
pub struct LinkMarkView {
    pub url: Seq<u8>,
    pub identifier: Option<Seq<u8>>,
    pub title: Option<Seq<u8>>,
}

impl View for LinkMark {
    type V = LinkMarkView;

    open spec fn view(&self) -> LinkMarkView {
        LinkMarkView {
            url: self.url@,
            identifier: opt_view(self.identifier),
            title: opt_view(self.title),
        }
    }
}

/// The view of an optional link.
pub open spec fn opt_link_view(l: Option<LinkMark>) -> Option<LinkMarkView> {
    match l {
        Some(link) => Some(link@),
        None => None,
    }
}

impl LinkMark {
    /// A copy of this link.
    pub fn duplicate(&self) -> (r: Self)
        ensures
            r@ == self@,
    {
        LinkMark {
            url: copy_bytes(&self.url),
            identifier: copy_opt_bytes(&self.identifier),
            title: copy_opt_bytes(&self.title),
        }
    }
}

/// A copy of an optional link.
pub fn copy_opt_link(l: &Option<LinkMark>) -> (r: Option<LinkMark>)
    ensures
        opt_link_view(r) == opt_link_view(*l),
{
    match l {
        Some(link) => Some(link.duplicate()),
        None => None,
    }
}

/// The style of a run of inline text.
#[derive(Clone, Debug, Default)]
pub struct TextMark {
    pub bold: bool,
    pub italic: bool,
    pub strikethrough: bool,
    pub underline: bool,
    pub code: bool,
    pub link: Option<LinkMark>,
}

/// The contents of a [`TextMark`].
pub struct TextMarkView {
    pub bold: bool,
    pub italic: bool,
    pub strikethrough: bool,
    pub underline: bool,
    pub code: bool,
    pub link: Option<LinkMarkView>,
}

impl View for TextMark {
    type V = TextMarkView;

    open spec fn view(&self) -> TextMarkView {
        TextMarkView {
            bold: self.bold,
            italic: self.italic,
            strikethrough: self.strikethrough,
            underline: self.underline,
            code: self.code,
            link: opt_link_view(self.link),
        }
    }
}

/// The mark with no style and no link.
pub open spec fn plain_mark() -> TextMarkView {
    TextMarkView {
        bold: false,
        italic: false,
        strikethrough: false,
        underline: false,
        code: false,
        link: None,
    }
}

/// `base` merged with `other`: each flag set in either, and `other`'s link
/// where it has one.
pub open spec fn merged_mark(base: TextMarkView, other: TextMarkView) -> TextMarkView {
    TextMarkView {
        bold: base.bold || other.bold,
        italic: base.italic || other.italic,
        strikethrough: base.strikethrough || other.strikethrough,
        underline: base.underline || other.underline,
        code: base.code || other.code,
        link: if other.link is Some {
            other.link
        } else {
            base.link
        },
    }
}

impl TextMark {
    /// The mark with no style and no link.
    pub fn plain() -> (r: Self)
        ensures
            r@ == plain_mark(),
    {
        TextMark {
            bold: false,
            italic: false,
            strikethrough: false,
            underline: false,
            code: false,
            link: None,
        }
    }

    pub fn bold(self) -> (r: Self)
        ensures
            r@ == (TextMarkView { bold: true, ..self@ }),
    {
        TextMark { bold: true, ..self }
    }

    pub fn italic(self) -> (r: Self)
        ensures
            r@ == (TextMarkView { italic: true, ..self@ }),
    {
        TextMark { italic: true, ..self }
    }

    pub fn strikethrough(self) -> (r: Self)
        ensures
            r@ == (TextMarkView { strikethrough: true, ..self@ }),
    {
        TextMark { strikethrough: true, ..self }
    }

    pub fn underline(self) -> (r: Self)
        ensures
            r@ == (TextMarkView { underline: true, ..self@ }),
    {
        TextMark { underline: true, ..self }
    }

    pub fn code(self) -> (r: Self)
        ensures
            r@ == (TextMarkView { code: true, ..self@ }),
    {
        TextMark { code: true, ..self }
    }

    pub fn link(self, link: LinkMark) -> (r: Self)
        ensures
            r@ == (TextMarkView { link: Some(link@), ..self@ }),
    {
        TextMark { link: Some(link), ..self }
    }

    pub fn merge(&mut self, other: TextMark)
        ensures
            final(self)@ == merged_mark(old(self)@, other@),
    {
        self.bold = self.bold || other.bold;
        self.italic = self.italic || other.italic;
        self.strikethrough = self.strikethrough || other.strikethrough;
        self.underline = self.underline || other.underline;
        self.code = self.code || other.code;
        if let Some(link) = other.link {
            self.link = Some(link);
        }
    }

    /// A copy of this mark.
    pub fn duplicate(&self) -> (r: Self)
        ensures
            r@ == self@,
    {
        TextMark {
            bold: self.bold,
            italic: self.italic,
            strikethrough: self.strikethrough,
            underline: self.underline,
            code: self.code,
            link: copy_opt_link(&self.link),
        }
    }
}

/// An image.
#[derive(Clone, Debug, Default)]
pub struct ImageNode {
    pub url: Vec<u8>,
    pub link: Option<LinkMark>,
    pub title: Option<Vec<u8>>,
    pub alt: Option<Vec<u8>>,
}

/// The contents of an [`ImageNode`].
pub struct ImageNodeView {
    pub url: Seq<u8>,
    pub link: Option<LinkMarkView>,
    pub title: Option<Seq<u8>>,
    pub alt: Option<Seq<u8>>,
}

impl View for ImageNode {
    type V = ImageNodeView;

    open spec fn view(&self) -> ImageNodeView {
        ImageNodeView {
            url: self.url@,
            link: opt_link_view(self.link),
            title: opt_view(self.title),
            alt: opt_view(self.alt),
        }
    }
}

impl ImageNode {
    /// A copy of this image.
    pub fn duplicate(&self) -> (r: Self)
        ensures
            r@ == self@,
    {
        ImageNode {
            url: copy_bytes(&self.url),
            link: copy_opt_link(&self.link),
            title: copy_opt_bytes(&self.title),
            alt: copy_opt_bytes(&self.alt),
        }
    }
}

/// The optional view of an optional image.
pub open spec fn opt_image_view(i: Option<ImageNode>) -> Option<ImageNodeView> {
    match i {
        Some(image) => Some(image@),
        None => None,
    }
}

/// The optional view of an optional math node.
pub open spec fn opt_math_view(m: Option<MathNode>) -> Option<MathNodeView> {
    match m {
        Some(math) => Some(math@),
        None => None,
    }
}

/// An optional text, or empty.
pub open spec fn or_empty(o: Option<Seq<u8>>) -> Seq<u8> {
    match o {
        Some(s) => s,
        None => Seq::empty(),
    }
}

/// The plain text of an image: its alt text.
pub open spec fn image_plain_text(i: ImageNodeView) -> Seq<u8> {
    or_empty(i.alt)
}

/// A styled byte range of an inline node's text.
pub type Mark = (Range<usize>, TextMark);

/// The contents of a [`Mark`].
pub type MarkView = (Range<usize>, TextMarkView);

/// The views of a sequence of marks.
pub open spec fn marks_view(m: Seq<Mark>) -> Seq<MarkView> {
    Seq::new(m.len(), |i: int| (m[i].0, m[i].1@))
}

/// A piece of inline content: text, an image, a math formula or a line break.
#[derive(Clone, Debug)]
pub struct InlineNode {
    /// The text content.
    pub text: Vec<u8>,
    pub image: Option<ImageNode>,
    pub math: Option<MathNode>,
    pub line_break: bool,
    /// The text styles, each with the byte range of the text it covers.
    pub marks: Vec<Mark>,
    pub state: InlineState,
}

/// The contents of an [`InlineNode`].
pub struct InlineNodeView {
    pub text: Seq<u8>,
    pub image: Option<ImageNodeView>,
    pub math: Option<MathNodeView>,
    pub line_break: bool,
    pub marks: Seq<MarkView>,
    pub state: InlineStateView,
}

impl View for InlineNode {
    type V = InlineNodeView;

    open spec fn view(&self) -> InlineNodeView {
        InlineNodeView {
            text: self.text@,
            image: opt_image_view(self.image),
            math: opt_math_view(self.math),
            line_break: self.line_break,
            marks: marks_view(self.marks@),
            state: self.state@,
        }
    }
}

/// The views of a sequence of inline nodes.
pub open spec fn inlines_view(s: Seq<InlineNode>) -> Seq<InlineNodeView> {
    Seq::new(s.len(), |i: int| s[i]@)
}

/// The paragraph element, a sequence of inline nodes.
#[derive(Clone, Debug)]
pub struct Paragraph {
    pub span: Option<Span>,
    pub children: Vec<InlineNode>,
    /// Link references of this paragraph: identifier and url.
    pub link_refs: Vec<(Vec<u8>, Vec<u8>)>,
}

/// The contents of a [`Paragraph`].
pub struct ParagraphView {
    pub span: Option<Span>,
    pub children: Seq<InlineNodeView>,
    pub link_refs: Seq<(Seq<u8>, Seq<u8>)>,
}

impl View for Paragraph {
    type V = ParagraphView;

    open spec fn view(&self) -> ParagraphView {
        ParagraphView {
            span: self.span,
            children: inlines_view(self.children@),
            link_refs: Seq::new(
                self.link_refs@.len(),
                |i: int| (self.link_refs@[i].0@, self.link_refs@[i].1@),
            ),
        }
    }
}

/// Alignment of a table column.
#[derive(Clone, Copy, Debug, PartialEq, Eq, Structural, Default)]
pub enum ColumnAlign {
    #[default]
    Left,
    Center,
    Right,
}

/// A table cell.
#[derive(Clone, Debug)]
pub struct TableCell {
    pub children: Paragraph,
}

/// A table row.
#[derive(Clone, Debug)]
pub struct TableRow {
    pub children: Vec<TableCell>,
}

/// A table.
#[derive(Clone, Debug)]
pub struct Table {
    pub children: Vec<TableRow>,
    pub column_aligns: Vec<ColumnAlign>,
    pub span: Option<Span>,
}

/// The contents of a [`TableRow`]: the paragraphs of its cells.
pub open spec fn row_view(r: TableRow) -> Seq<ParagraphView> {
    Seq::new(r.children@.len(), |i: int| r.children@[i].children@)
}

/// The contents of a [`Table`].
pub struct TableView {
    pub rows: Seq<Seq<ParagraphView>>,
    pub column_aligns: Seq<ColumnAlign>,
    pub span: Option<Span>,
}

impl View for Table {
    type V = TableView;

    open spec fn view(&self) -> TableView {
        TableView {
            rows: Seq::new(self.children@.len(), |i: int| row_view(self.children@[i])),
            column_aligns: self.column_aligns@,
            span: self.span,
        }
    }
}

/// A fenced code block.
#[derive(Clone, Debug)]
pub struct CodeBlock {
    pub lang: Option<Vec<u8>>,
    pub state: InlineState,
    pub span: Option<Span>,
}

/// The contents of a [`CodeBlock`].
pub struct CodeBlockView {
    pub lang: Option<Seq<u8>>,
    pub state: InlineStateView,
    pub span: Option<Span>,
}

impl View for CodeBlock {
    type V = CodeBlockView;

    open spec fn view(&self) -> CodeBlockView {
        CodeBlockView { lang: opt_view(self.lang), state: self.state@, span: self.span }
    }
}

/// The block-level nodes.
#[derive(Debug)]
pub enum BlockNode {
    /// A container of blocks.
    Root { children: Vec<BlockNode>, span: Option<Span> },
    Paragraph(Paragraph),
    Heading { level: u8, children: Paragraph, span: Option<Span> },
    Blockquote { children: Vec<BlockNode>, span: Option<Span> },
    List {
        /// Only list items are rendered, others are ignored.
        children: Vec<BlockNode>,
        ordered: bool,
        span: Option<Span>,
    },
    ListItem {
        children: Vec<BlockNode>,
        spread: bool,
        /// Whether the item is checked; `None` when it is not a checkbox.
        checked: Option<bool>,
        span: Option<Span>,
    },
    CodeBlock(CodeBlock),
    Math(MathNode),
    Table(Table),
    Break { html: bool, span: Option<Span> },
    HorizontalRule { span: Option<Span> },
    /// A link reference definition, kept for markdown serialization.
    Definition {
        identifier: Vec<u8>,
        url: Vec<u8>,
        title: Option<Vec<u8>>,
        span: Option<Span>,
    },
    Unknown,
}

/// The contents of a [`BlockNode`].
pub enum BlockNodeView {
    Root { children: Seq<BlockNodeView>, span: Option<Span> },
    Paragraph(ParagraphView),
    Heading { level: u8, children: ParagraphView, span: Option<Span> },
    Blockquote { children: Seq<BlockNodeView>, span: Option<Span> },
    List { children: Seq<BlockNodeView>, ordered: bool, span: Option<Span> },
    ListItem {
        children: Seq<BlockNodeView>,
        spread: bool,
        checked: Option<bool>,
        span: Option<Span>,
    },
    CodeBlock(CodeBlockView),
    Math(MathNodeView),
    Table(TableView),
    Break { html: bool, span: Option<Span> },
    HorizontalRule { span: Option<Span> },
    Definition {
        identifier: Seq<u8>,
        url: Seq<u8>,
        title: Option<Seq<u8>>,
        span: Option<Span>,
    },
    Unknown,
}

/// The contents of a block node.
pub open spec fn block_view(b: BlockNode) -> BlockNodeView
    decreases b,
{
    match b {
        BlockNode::Root { children, span } => BlockNodeView::Root {
            children: Seq::new(
                children@.len(),
                |i: int|
                    if 0 <= i < children@.len() {
                        block_view(children@[i])
                    } else {
                        BlockNodeView::Unknown
                    },
            ),
            span,
        },
        BlockNode::Paragraph(p) => BlockNodeView::Paragraph(p@),
        BlockNode::Heading { level, children, span } => BlockNodeView::Heading {
            level,
            children: children@,
            span,
        },
        BlockNode::Blockquote { children, span } => BlockNodeView::Blockquote {
            children: Seq::new(
                children@.len(),
                |i: int|
                    if 0 <= i < children@.len() {
                        block_view(children@[i])
                    } else {
                        BlockNodeView::Unknown
                    },
            ),
            span,
        },
        BlockNode::List { children, ordered, span } => BlockNodeView::List {
            children: Seq::new(
                children@.len(),
                |i: int|
                    if 0 <= i < children@.len() {
                        block_view(children@[i])
                    } else {
                        BlockNodeView::Unknown
                    },
            ),
            ordered,
            span,
        },
        BlockNode::ListItem { children, spread, checked, span } => BlockNodeView::ListItem {
            children: Seq::new(
                children@.len(),
                |i: int|
                    if 0 <= i < children@.len() {
                        block_view(children@[i])
                    } else {
                        BlockNodeView::Unknown
                    },
            ),
            spread,
            checked,
            span,
        },
        BlockNode::CodeBlock(c) => BlockNodeView::CodeBlock(c@),
        BlockNode::Math(m) => BlockNodeView::Math(m@),
        BlockNode::Table(t) => BlockNodeView::Table(t@),
        BlockNode::Break { html, span } => BlockNodeView::Break { html, span },
        BlockNode::HorizontalRule { span } => BlockNodeView::HorizontalRule { span },
        BlockNode::Definition { identifier, url, title, span } => BlockNodeView::Definition {
            identifier: identifier@,
            url: url@,
            title: opt_view(title),
            span,
        },
        BlockNode::Unknown => BlockNodeView::Unknown,
    }
}

impl View for BlockNode {
    type V = BlockNodeView;

    open spec fn view(&self) -> BlockNodeView {
        block_view(*self)
    }
}

/// The views of a sequence of blocks.
pub open spec fn blocks_view(s: Seq<BlockNode>) -> Seq<BlockNodeView> {
    Seq::new(s.len(), |i: int| s[i]@)
}

/// A state with no text and nothing selected.
pub open spec fn empty_state() -> InlineStateView {
    InlineStateView { text: Seq::empty(), selection: None }
}

/// An inline node holding `text`, with no marks.
pub open spec fn text_inline(text: Seq<u8>) -> InlineNodeView {
    InlineNodeView {
        text,
        image: None,
        math: None,
        line_break: false,
        marks: Seq::empty(),
        state: empty_state(),
    }
}

/// A line break node.
pub open spec fn break_inline() -> InlineNodeView {
    InlineNodeView { line_break: true, ..text_inline(seq![10u8]) }
}

/// A node holding an image.
pub open spec fn image_inline(image: ImageNodeView) -> InlineNodeView {
    InlineNodeView { image: Some(image), ..text_inline(Seq::empty()) }
}

/// A node holding a formula; its text is the formula's source.
pub open spec fn math_inline(math: MathNodeView) -> InlineNodeView {
    InlineNodeView { math: Some(math), ..text_inline(math.source) }
}

/// A text node with one plain mark over all of its text.
pub open spec fn segment_inline(text: Seq<u8>) -> InlineNodeView {
    InlineNodeView {
        marks: seq![(Range { start: 0usize, end: text.len() as usize }, plain_mark())],
        ..text_inline(text)
    }
}

impl InlineNode {
    pub fn new(text: Vec<u8>) -> (r: Self)
        ensures
            r@ == text_inline(text@),
    {
        let r = InlineNode {
            text,
            image: None,
            math: None,
            line_break: false,
            marks: Vec::new(),
            state: InlineState::new(),
        };
        assert(r@.marks =~= Seq::<MarkView>::empty());
        r
    }

    pub fn image(image: ImageNode) -> (r: Self)
        ensures
            r@ == image_inline(image@),
    {
        let mut this = Self::new(Vec::new());
        this.image = Some(image);
        this
    }

    pub fn math(math: MathNode) -> (r: Self)
        ensures
            r@ == math_inline(math@),
    {
        let mut this = Self::new(copy_bytes(&math.source));
        this.math = Some(math);
        this
    }

    pub fn line_break() -> (r: Self)
        ensures
            r@ == break_inline(),
    {
        let mut text: Vec<u8> = Vec::new();
        text.push(10);
        let mut this = Self::new(text);
        this.line_break = true;
        this
    }

    pub fn marks(self, marks: Vec<Mark>) -> (r: Self)
        ensures
            r@ == (InlineNodeView { marks: marks_view(marks@), ..self@ }),
    {
        InlineNode { marks, ..self }
    }
}

/// The inline nodes that `s[start..]` is split into: text between newlines
/// becomes text nodes with a plain mark, and each newline a line break.
pub open spec fn str_inlines(s: Seq<u8>, start: int) -> Seq<InlineNodeView>
    decreases s.len() - start,
{
    if start < 0 || start >= s.len() {
        Seq::empty()
    } else {
        let k = newline_pos(s, start);
        proof {
            lemma_newline_pos(s, start);
        }
        if k >= s.len() {
            seq![segment_inline(s.subrange(start, s.len() as int))]
        } else {
            (if start < k {
                seq![segment_inline(s.subrange(start, k))]
            } else {
                Seq::empty()
            }) + seq![break_inline()] + str_inlines(s, k + 1)
        }
    }
}

/// The marks of a node that holds no formula lie within its text.
pub open spec fn marks_in_range(c: InlineNodeView) -> bool {
    c.math is None ==> forall|k: int|
        0 <= k < c.marks.len() ==> (#[trigger] c.marks[k]).0.start <= c.marks[k].0.end <= c.text.len()
}

/// Every node that a string is split into has its marks within its text.
pub proof fn lemma_str_inlines_marks(s: Seq<u8>, start: int)
    ensures
        forall|i: int| 0 <= i < str_inlines(s, start).len() ==> marks_in_range(#[trigger] str_inlines(s, start)[i]),
    decreases s.len() - start,
{
    if 0 <= start < s.len() {
        lemma_newline_pos(s, start);
        let k = newline_pos(s, start);
        if k < s.len() {
            lemma_str_inlines_marks(s, k + 1);
            let pre = if start < k {
                seq![segment_inline(s.subrange(start, k))]
            } else {
                Seq::empty()
            };
            let rest = str_inlines(s, k + 1);
            let whole = pre + seq![break_inline()] + rest;
            assert(str_inlines(s, start) == whole);
            assert forall|i: int| 0 <= i < whole.len() implies marks_in_range(#[trigger] whole[i]) by {
                if i > pre.len() {
                    assert(whole[i] == rest[i - pre.len() - 1]);
                }
            }
        }
    }
}

/// A paragraph with no span, children or link references.
pub open spec fn empty_paragraph() -> ParagraphView {
    ParagraphView { span: None, children: Seq::empty(), link_refs: Seq::empty() }
}

impl Default for Paragraph {
    fn default() -> (r: Self)
        ensures
            r@ == empty_paragraph(),
    {
        let r = Paragraph { span: None, children: Vec::new(), link_refs: Vec::new() };
        assert(r@.children =~= Seq::<InlineNodeView>::empty());
        assert(r@.link_refs =~= Seq::<(Seq<u8>, Seq<u8>)>::empty());
        r
    }
}

/// Whether an inline node has no content: no text, image, formula or break.
pub open spec fn inline_is_blank(c: InlineNodeView) -> bool {
    c.text.len() == 0 && c.image is None && c.math is None && !c.line_break
}

/// The total byte length of the nodes' texts.
pub open spec fn inlines_text_len(s: Seq<InlineNodeView>) -> nat
    decreases s.len(),
{
    if s.len() == 0 {
        0
    } else {
        inlines_text_len(s.drop_last()) + s.last().text.len()
    }
}

impl Paragraph {
    pub fn new(text: Vec<u8>) -> (r: Self)
        ensures
            r@ == (ParagraphView { children: str_inlines(text@, 0), ..empty_paragraph() }),
    {
        let mut paragraph = Paragraph::default();
        paragraph.push_str(text.as_slice());
        assert(paragraph@.children =~= str_inlines(text@, 0));
        paragraph
    }

    pub fn take(&mut self) -> (r: Paragraph)
        ensures
            r@ == old(self)@,
            final(self)@ == empty_paragraph(),
    {
        let mut other = Paragraph::default();
        core::mem::swap(self, &mut other);
        other
    }

    pub fn is_image(&self) -> (r: bool)
        ensures
            !r,
    {
        false
    }

    pub fn set_span(&mut self, span: Span)
        ensures
            final(self)@ == (ParagraphView { span: Some(span), ..old(self)@ }),
    {
        self.span = Some(span);
    }

    /// Appends `text`, split at newlines into text segments and line breaks.
    pub fn push_str(&mut self, text: &[u8])
        ensures
            final(self)@ == (ParagraphView {
                children: old(self)@.children + str_inlines(text@, 0),
                ..old(self)@
            }),
    {
        let ghost s = text@;
        let mut start: usize = 0;
        let mut ix: usize = 0;
        while ix < text.len()
            invariant
                start <= ix <= text@.len(),
                s == text@,
                self@.span == old(self)@.span,
                self@.link_refs == old(self)@.link_refs,
                newline_pos(s, start as int) == newline_pos(s, ix as int),
                self@.children + str_inlines(s, start as int) == old(self)@.children
                    + str_inlines(s, 0),
            decreases text@.len() - ix,
        {
            if text[ix] == 10 {
                proof {
                    lemma_newline_pos(s, start as int);
                }
                let ghost before = self@.children;
                if start < ix {
                    self.push_text_segment(text, start, ix);
                }
                self.push(InlineNode::line_break());
                assert(self@.children =~= before + (if start < ix {
                    seq![segment_inline(s.subrange(start as int, ix as int))]
                } else {
                    Seq::empty()
                }) + seq![break_inline()]);
                start = ix + 1;
            }
            ix = ix + 1;
        }
        proof {
            lemma_newline_pos(s, start as int);
        }
        if start < text.len() {
            let ghost before = self@.children;
            self.push_text_segment(text, start, text.len());
            assert(str_inlines(s, start as int) =~= seq![
                segment_inline(s.subrange(start as int, s.len() as int)),
            ]);
        } else {
            assert(str_inlines(s, start as int) =~= Seq::<InlineNodeView>::empty());
        }
        assert(self@.children =~= old(self)@.children + str_inlines(s, 0));
    }

    pub fn push(&mut self, node: InlineNode)
        ensures
            final(self)@ == (ParagraphView {
                children: old(self)@.children.push(node@),
                ..old(self)@
            }),
    {
        self.children.push(node);
        assert(self@.children =~= old(self)@.children.push(node@));
    }

    pub fn push_image(&mut self, image: ImageNode)
        ensures
            final(self)@ == (ParagraphView {
                children: old(self)@.children.push(image_inline(image@)),
                ..old(self)@
            }),
    {
        self.push(InlineNode::image(image));
    }

    /// Appends `text[start..end]` as a text node with one plain mark.
    fn push_text_segment(&mut self, text: &[u8], start: usize, end: usize)
        requires
            start <= end <= text@.len(),
        ensures
            final(self)@ == (ParagraphView {
                children: old(self)@.children.push(
                    segment_inline(text@.subrange(start as int, end as int)),
                ),
                ..old(self)@
            }),
    {
        let seg = slice_to_vec(text, start, end);
        let len = seg.len();
        let mut marks: Vec<Mark> = Vec::new();
        marks.push((0..len, TextMark::plain()));
        let node = InlineNode::new(seg).marks(marks);
        assert(node@.marks =~= segment_inline(text@.subrange(start as int, end as int)).marks);
        self.push(node);
    }

    /// Whether the paragraph has no content.
    pub fn is_empty(&self) -> (r: bool)
        ensures
            r == (self@.children.len() == 0 || forall|i: int|
                0 <= i < self@.children.len() ==> inline_is_blank(#[trigger] self@.children[i])),
    {
        let mut i: usize = 0;
        while i < self.children.len()
            invariant
                i <= self.children@.len(),
                forall|j: int| 0 <= j < i ==> inline_is_blank(#[trigger] self@.children[j]),
            decreases self.children@.len() - i,
        {
            let node = &self.children[i];
            assert(self@.children[i as int] == node@);
            if !(node.text.len() == 0 && node.image.is_none() && node.math.is_none()
                && !node.line_break) {
                return false;
            }
            i = i + 1;
        }
        true
    }

    /// The total byte length of the children's texts.
    pub fn text_len(&self) -> (r: usize)
        requires
            inlines_text_len(self@.children) <= usize::MAX,
        ensures
            r == inlines_text_len(self@.children),
    {
        let ghost cs = self@.children;
        let mut total: usize = 0;
        let mut i: usize = 0;
        while i < self.children.len()
            invariant
                i <= self.children@.len(),
                cs == self@.children,
                inlines_text_len(cs) <= usize::MAX,
                total == inlines_text_len(cs.subrange(0, i as int)),
            decreases self.children@.len() - i,
        {
            assert(cs.subrange(0, i + 1).drop_last() =~= cs.subrange(0, i as int));
            proof {
                lemma_text_len_prefix(cs, i + 1);
            }
            total = total + self.children[i].text.len();
            i = i + 1;
        }
        assert(cs.subrange(0, i as int) =~= cs);
        total
    }

    /// Appends the children of `other`.
    pub fn merge(&mut self, other: Self)
        ensures
            final(self)@ == (ParagraphView {
                children: old(self)@.children + other@.children,
                ..old(self)@
            }),
    {
        let ghost oc = other@.children;
        let mut other = other;
        self.children.append(&mut other.children);
        assert(self@.children =~= old(self)@.children + oc);
    }
}

/// The text length of a prefix is at most that of the whole.
pub proof fn lemma_text_len_prefix(s: Seq<InlineNodeView>, n: int)
    requires
        0 <= n <= s.len(),
    ensures
        inlines_text_len(s.subrange(0, n)) <= inlines_text_len(s),
    decreases s.len(),
{
    if n < s.len() {
        assert(s.drop_last().subrange(0, n) =~= s.subrange(0, n));
        lemma_text_len_prefix(s.drop_last(), n);
    } else {
        assert(s.subrange(0, n) =~= s);
    }
}

impl Table {
    /// The alignment of column `index`, left when not given.
    pub fn column_align(&self, index: usize) -> (r: ColumnAlign)
        ensures
            r == if index < self.column_aligns@.len() {
                self.column_aligns@[index as int]
            } else {
                ColumnAlign::Left
            },
    {
        if index < self.column_aligns.len() {
            self.column_aligns[index]
        } else {
            ColumnAlign::Left
        }
    }
}

impl CodeBlock {
    pub fn new(code: Vec<u8>, lang: Option<Vec<u8>>, span: Option<Span>) -> (r: Self)
        ensures
            r@ == (CodeBlockView {
                lang: opt_view(lang),
                state: InlineStateView { text: code@, selection: None },
                span,
            }),
    {
        let mut state = InlineState::new();
        state.set_text(code);
        CodeBlock { lang, state, span }
    }
}

/// The context in which nodes are built and rendered: the byte offset of the
/// document in a larger source, and the link reference definitions seen.
#[derive(Debug)]
pub struct NodeContext {
    /// The byte offset of the node in the whole markdown text.
    pub offset: usize,
    /// Link reference definitions by identifier.
    pub link_refs: Vec<(Vec<u8>, LinkMark)>,
}

/// The contents of a [`NodeContext`].
pub struct NodeContextView {
    pub offset: usize,
    pub link_refs: Seq<(Seq<u8>, LinkMarkView)>,
}

impl View for NodeContext {
    type V = NodeContextView;

    open spec fn view(&self) -> NodeContextView {
        NodeContextView {
            offset: self.offset,
            link_refs: Seq::new(
                self.link_refs@.len(),
                |i: int| (self.link_refs@[i].0@, self.link_refs@[i].1@),
            ),
        }
    }
}

/// The index of the first entry of `refs` from `i` on with identifier `key`.
pub open spec fn ref_index_from(refs: Seq<(Seq<u8>, LinkMarkView)>, key: Seq<u8>, i: int) -> Option<int>
    decreases refs.len() - i,
{
    if i < 0 || i >= refs.len() {
        None
    } else if refs[i].0 == key {
        Some(i)
    } else {
        ref_index_from(refs, key, i + 1)
    }
}

/// The link defined for `key`, if any.
pub open spec fn lookup_ref(refs: Seq<(Seq<u8>, LinkMarkView)>, key: Seq<u8>) -> Option<LinkMarkView> {
    match ref_index_from(refs, key, 0) {
        Some(i) => Some(refs[i].1),
        None => None,
    }
}

/// `refs` with `key` defined as `link`: the existing definition replaced, or
/// a new one added.
pub open spec fn refs_inserted(
    refs: Seq<(Seq<u8>, LinkMarkView)>,
    key: Seq<u8>,
    link: LinkMarkView,
) -> Seq<(Seq<u8>, LinkMarkView)> {
    match ref_index_from(refs, key, 0) {
        Some(i) => refs.update(i, (key, link)),
        None => refs.push((key, link)),
    }
}

proof fn lemma_ref_index_from(refs: Seq<(Seq<u8>, LinkMarkView)>, key: Seq<u8>, i: int)
    requires
        0 <= i,
    ensures
        match ref_index_from(refs, key, i) {
            Some(j) => i <= j < refs.len() && refs[j].0 == key && forall|k: int|
                i <= k < j ==> refs[k].0 != key,
            None => forall|k: int| i <= k < refs.len() ==> refs[k].0 != key,
        },
    decreases refs.len() - i,
{
    if i < refs.len() && refs[i].0 != key {
        lemma_ref_index_from(refs, key, i + 1);
    }
}

proof fn lemma_ref_index_char(refs: Seq<(Seq<u8>, LinkMarkView)>, key: Seq<u8>, j: Option<int>)
    requires
        match j {
            Some(j) => 0 <= j < refs.len() && refs[j].0 == key && forall|k: int|
                0 <= k < j ==> refs[k].0 != key,
            None => forall|k: int| 0 <= k < refs.len() ==> refs[k].0 != key,
        },
    ensures
        ref_index_from(refs, key, 0) == j,
{
    lemma_ref_index_from(refs, key, 0);
}

/// Reading a definition back gives what was defined last for that
/// identifier; the definitions of other identifiers are unchanged.
pub proof fn lemma_lookup_inserted(
    refs: Seq<(Seq<u8>, LinkMarkView)>,
    key: Seq<u8>,
    link: LinkMarkView,
    other: Seq<u8>,
)
    ensures
        lookup_ref(refs_inserted(refs, key, link), key) == Some(link),
        other != key ==> lookup_ref(refs_inserted(refs, key, link), other) == lookup_ref(
            refs,
            other,
        ),
{
    lemma_ref_index_from(refs, key, 0);
    lemma_ref_index_from(refs, other, 0);
    let r2 = refs_inserted(refs, key, link);
    let j = match ref_index_from(refs, key, 0) {
        Some(i) => Some(i),
        None => Some(refs.len() as int),
    };
    lemma_ref_index_char(r2, key, j);
    if other != key {
        lemma_ref_index_char(r2, other, ref_index_from(refs, other, 0));
    }
}

impl NodeContext {
    /// A context at offset 0 with no link definitions.
    pub fn new() -> (r: Self)
        ensures
            r@.offset == 0,
            r@.link_refs == Seq::<(Seq<u8>, LinkMarkView)>::empty(),
    {
        let r = NodeContext { offset: 0, link_refs: Vec::new() };
        assert(r@.link_refs =~= Seq::<(Seq<u8>, LinkMarkView)>::empty());
        r
    }

    /// Defines `identifier` as `link`.
    pub fn add_ref(&mut self, identifier: Vec<u8>, link: LinkMark)
        ensures
            final(self)@.offset == old(self)@.offset,
            final(self)@.link_refs == refs_inserted(old(self)@.link_refs, identifier@, link@),
    {
        let ghost refs = self@.link_refs;
        let mut i: usize = 0;
        while i < self.link_refs.len()
            invariant
                i <= self.link_refs@.len(),
                refs == self@.link_refs,
                self@ == old(self)@,
                forall|k: int| 0 <= k < i ==> refs[k].0 != identifier@,
            decreases self.link_refs@.len() - i,
        {
            assert(refs[i as int].0 == self.link_refs@[i as int].0@);
            if crate::bytes::bytes_eq(self.link_refs[i].0.as_slice(), identifier.as_slice()) {
                proof {
                    lemma_ref_index_char(refs, identifier@, Some(i as int));
                }
                let ghost kv = identifier@;
                let ghost lv = link@;
                self.link_refs.set(i, (identifier, link));
                assert(self@.link_refs =~= refs.update(i as int, (kv, lv)));
                return;
            }
            i = i + 1;
        }
        proof {
            lemma_ref_index_char(refs, identifier@, None);
        }
        let ghost kv = identifier@;
        let ghost lv = link@;
        self.link_refs.push((identifier, link));
        assert(self@.link_refs =~= refs.push((kv, lv)));
    }

    /// The link defined for `identifier`, if any.
    pub fn get_ref(&self, identifier: &[u8]) -> (r: Option<&LinkMark>)
        ensures
            match r {
                Some(l) => lookup_ref(self@.link_refs, identifier@) == Some(l@),
                None => lookup_ref(self@.link_refs, identifier@) is None,
            },
    {
        let ghost refs = self@.link_refs;
        let mut i: usize = 0;
        while i < self.link_refs.len()
            invariant
                i <= self.link_refs@.len(),
                refs == self@.link_refs,
                forall|k: int| 0 <= k < i ==> refs[k].0 != identifier@,
            decreases self.link_refs@.len() - i,
        {
            assert(refs[i as int].0 == self.link_refs@[i as int].0@);
            if crate::bytes::bytes_eq(self.link_refs[i].0.as_slice(), identifier) {
                proof {
                    lemma_ref_index_char(refs, identifier@, Some(i as int));
                }
                return Some(&self.link_refs[i].1);
            }
            i = i + 1;
        }
        proof {
            lemma_ref_index_char(refs, identifier@, None);
        }
        None
    }
}

/// A block without the single-child roots around it.
pub open spec fn compact_view(b: BlockNodeView) -> BlockNodeView
    decreases b,
{
    match b {
        BlockNodeView::Root { children, .. } => if children.len() == 1 {
            compact_view(children[0])
        } else {
            b
        },
        _ => b,
    }
}

/// The span of a block; unknown blocks have none.
pub open spec fn block_span(b: BlockNodeView) -> Option<Span> {
    match b {
        BlockNodeView::Root { span, .. } => span,
        BlockNodeView::Paragraph(p) => p.span,
        BlockNodeView::Heading { span, .. } => span,
        BlockNodeView::Blockquote { span, .. } => span,
        BlockNodeView::List { span, .. } => span,
        BlockNodeView::ListItem { span, .. } => span,
        BlockNodeView::CodeBlock(c) => c.span,
        BlockNodeView::Math(m) => m.span,
        BlockNodeView::Table(t) => t.span,
        BlockNodeView::Break { span, .. } => span,
        BlockNodeView::HorizontalRule { span } => span,
        BlockNodeView::Definition { span, .. } => span,
        BlockNodeView::Unknown => None,
    }
}

impl BlockNode {
    pub fn is_list_item(&self) -> (r: bool)
        ensures
            r == (self@ is ListItem),
    {
        match self {
            BlockNode::ListItem { .. } => true,
            _ => false,
        }
    }

    pub fn is_break(&self) -> (r: bool)
        ensures
            r == (self@ is Break),
    {
        match self {
            BlockNode::Break { .. } => true,
            _ => false,
        }
    }

    /// The block without the single-child roots around it.
    pub fn compact(self) -> (r: BlockNode)
        ensures
            r@ == compact_view(self@),
        decreases self,
    {
        match self {
            BlockNode::Root { mut children, span } => {
                if children.len() == 1 {
                    let ghost c0 = children@[0];
                    assert(decreases_to!(self => c0));
                    let child = children.remove(0);
                    child.compact()
                } else {
                    BlockNode::Root { children, span }
                }
            },
            _ => self,
        }
    }

    /// The span of the block.
    pub fn span(&self) -> (r: Option<Span>)
        ensures
            r == block_span(self@),
    {
        match self {
            BlockNode::Root { span, .. } => *span,
            BlockNode::Paragraph(paragraph) => paragraph.span,
            BlockNode::Heading { span, .. } => *span,
            BlockNode::Blockquote { span, .. } => *span,
            BlockNode::List { span, .. } => *span,
            BlockNode::ListItem { span, .. } => *span,
            BlockNode::CodeBlock(code_block) => code_block.span,
            BlockNode::Math(math) => math.span(),
            BlockNode::Table(table) => table.span,
            BlockNode::Break { span, .. } => *span,
            BlockNode::HorizontalRule { span } => *span,
            BlockNode::Definition { span, .. } => *span,
            BlockNode::Unknown => None,
        }
    }
}


/// No identifier is defined twice.
pub open spec fn refs_unique(refs: Seq<(Seq<u8>, LinkMarkView)>) -> bool {
    forall|i: int, j: int| 0 <= i < j < refs.len() ==> (#[trigger] refs[i]).0 != (#[trigger] refs[j]).0
}

/// Defining an identifier keeps every identifier defined at most once.
pub proof fn lemma_refs_inserted_unique(refs: Seq<(Seq<u8>, LinkMarkView)>, key: Seq<u8>, link: LinkMarkView)
    requires
        refs_unique(refs),
    ensures
        refs_unique(refs_inserted(refs, key, link)),
{
    lemma_ref_index_from(refs, key, 0);
    let r2 = refs_inserted(refs, key, link);
    assert forall|i: int, j: int| 0 <= i < j < r2.len() implies (#[trigger] r2[i]).0 != (#[trigger] r2[j]).0 by {
        match ref_index_from(refs, key, 0) {
            Some(k) => {
                assert(r2[i].0 == refs[i].0);
                assert(r2[j].0 == refs[j].0);
            },
            None => {
                if j == refs.len() {
                    assert(r2[i] == refs[i]);
                } else {
                    assert(r2[i] == refs[i]);
                    assert(r2[j] == refs[j]);
                }
            },
        }
    }
}

/// Removing the single-child roots around a block a second time changes
/// nothing.
pub proof fn lemma_compact_idempotent(b: BlockNodeView)
    ensures
        compact_view(compact_view(b)) == compact_view(b),
    decreases b,
{
    match b {
        BlockNodeView::Root { children, .. } => {
            if children.len() == 1 {
                lemma_compact_idempotent(children[0]);
            }
        },
        _ => {},
    }
}

} // verus!
