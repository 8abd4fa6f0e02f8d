//! Building the document tree from a parsed markdown syntax tree.
//!
//! The syntax tree ([`MdNode`]) mirrors the mdast tree of a CommonMark/GFM
//! parser: each node has a kind, children and an optional byte position in
//! the source.

use vstd::prelude::*;

use core::ops::Range;

use crate::bytes::{
    char_boundary, copy_bytes, copy_opt_bytes, opt_view, push_bytes, slice_to_vec, starts_with,
    trim, trim_bytes,
};
use crate::document::ParsedDocument;
use crate::math::{math_markdown, math_view, tex_parse_outcome, MathNode, MathNodeView};
use crate::node::{
    blocks_view, row_view, break_inline, marks_in_range, empty_paragraph, image_inline, math_inline, merged_mark,
    plain_mark, refs_inserted, refs_unique, lemma_refs_inserted_unique, str_inlines, text_inline, BlockNode, BlockNodeView, CodeBlock,
    CodeBlockView, ColumnAlign, ImageNode, ImageNodeView, InlineNode, InlineNodeView, LinkMark,
    LinkMarkView, Mark, MarkView, NodeContext, Paragraph, ParagraphView, Span, Table, TableCell,
    TableRow, TableView, TextMark, TextMarkView,
};
use crate::inline::InlineStateView;
use crate::options::{gfm_options, markdown_parse_options, with_math, MdParseOptions};
use crate::syntax_tree::{mdast_of, str_bytes, to_md_tree};
use crate::serialize::{align_markdown, delimiter_align, lemma_align_markdown_reads_back};

verus! {

/// The byte range of a syntax node in the markdown source.
#[derive(Clone, Copy, Debug, PartialEq, Eq, Structural)]
pub struct Position {
    pub start: usize,
    pub end: usize,
}

/// The alignment of a table column in the syntax tree.
#[derive(Clone, Copy, Debug, PartialEq, Eq, Structural)]
pub enum MdAlignKind {
    Left,
    Right,
    Center,
    /// No alignment given.
    Unspecified,
}

/// The kind of a syntax node, with the data of that kind.
#[derive(Debug)]
pub enum MdKind {
    Root,
    Paragraph,
    Text { value: Vec<u8> },
    Emphasis,
    Strong,
    Delete,
    InlineCode { value: Vec<u8> },
    Link { url: Vec<u8>, title: Option<Vec<u8>> },
    Image { url: Vec<u8>, title: Option<Vec<u8>>, alt: Vec<u8> },
    InlineMath { value: Vec<u8> },
    Break,
    MdxTextExpression { value: Vec<u8> },
    /// Raw HTML, with the blocks it parsed to when the HTML parser accepted
    /// it.
    Html { value: Vec<u8>, parsed: Option<Vec<BlockNode>> },
    FootnoteReference { identifier: Vec<u8> },
    LinkReference { identifier: Vec<u8>, label: Option<Vec<u8>> },
    Blockquote,
    List { ordered: bool },
    ListItem { checked: Option<bool>, spread: bool },
    Code { value: Vec<u8>, lang: Option<Vec<u8>> },
    Heading { depth: u8 },
    Math { value: Vec<u8> },
    MdxFlowExpression { value: Vec<u8> },
    Yaml { value: Vec<u8> },
    Toml { value: Vec<u8> },
    MdxJsxTextElement,
    MdxJsxFlowElement,
    ThematicBreak,
    Table { align: Vec<MdAlignKind> },
    TableRow,
    TableCell,
    FootnoteDefinition { identifier: Vec<u8> },
    Definition { identifier: Vec<u8>, url: Vec<u8>, title: Option<Vec<u8>> },
    /// Any other kind of node.
    Other,
}

/// A node of the markdown syntax tree.
#[derive(Debug)]
pub struct MdNode {
    pub kind: MdKind,
    pub children: Vec<MdNode>,
    pub position: Option<Position>,
}

/// The state in which a syntax tree is turned into blocks.
#[derive(Debug)]
pub struct MarkdownParseContext {
    pub source: Vec<u8>,
    pub node_cx: NodeContext,
    pub in_table_cell: bool,
}

/// The contents of a [`MarkdownParseContext`].
#[verifier::ext_equal]
pub struct ParseCtx {
    pub source: Seq<u8>,
    pub offset: usize,
    pub refs: Seq<(Seq<u8>, LinkMarkView)>,
    pub in_table_cell: bool,
}

impl View for MarkdownParseContext {
    type V = ParseCtx;

    open spec fn view(&self) -> ParseCtx {
        ParseCtx {
            source: self.source@,
            offset: self.node_cx@.offset,
            refs: self.node_cx@.link_refs,
            in_table_cell: self.in_table_cell,
        }
    }
}

/// The span of a position, shifted by the context's offset.
pub open spec fn span_at(offset: usize, pos: Option<Position>) -> Option<Span> {
    match pos {
        Some(p) => Some(Span { start: (offset + p.start) as usize, end: (offset + p.end) as usize }),
        None => None,
    }
}

/// The source text at a position, when the position lies within the source
/// on character boundaries.
pub open spec fn source_at(source: Seq<u8>, pos: Option<Position>) -> Option<Seq<u8>> {
    match pos {
        Some(p) => if p.start <= p.end <= source.len() && char_boundary(source, p.start as int)
            && char_boundary(source, p.end as int) {
            Some(source.subrange(p.start as int, p.end as int))
        } else {
            None
        },
        None => None,
    }
}

/// An inline node holding `text` with one mark over all of it.
pub open spec fn marked_inline(text: Seq<u8>, m: TextMarkView) -> InlineNodeView {
    InlineNodeView {
        marks: seq![(Range { start: 0usize, end: text.len() as usize }, m)],
        ..text_inline(text)
    }
}

/// The paragraph with `c` appended.
pub open spec fn pushed(p: ParagraphView, c: InlineNodeView) -> ParagraphView {
    ParagraphView { children: p.children.push(c), ..p }
}

/// The plain mark with one flag or link set.
pub open spec fn italic_mark() -> TextMarkView {
    TextMarkView { italic: true, ..plain_mark() }
}

pub open spec fn bold_mark() -> TextMarkView {
    TextMarkView { bold: true, ..plain_mark() }
}

pub open spec fn strikethrough_mark() -> TextMarkView {
    TextMarkView { strikethrough: true, ..plain_mark() }
}

pub open spec fn code_mark() -> TextMarkView {
    TextMarkView { code: true, ..plain_mark() }
}

pub open spec fn link_mark(l: LinkMarkView) -> TextMarkView {
    TextMarkView { link: Some(l), ..plain_mark() }
}

/// "[id]" with the identifier, as bytes.
pub open spec fn bracketed(id: Seq<u8>) -> Seq<u8> {
    seq![91u8] + id + seq![93u8]
}

/// A run of merged text: the node that it becomes, if any. Its marks are
/// those of its pieces; the mark of the run is merged into a last mark that
/// covers all of the run, or added over all of it.
pub open spec fn merged_run(text: Seq<u8>, marks: Seq<MarkView>, m: TextMarkView) -> Seq<InlineNodeView> {
    if text.len() == 0 {
        Seq::empty()
    } else {
        let len = text.len() as usize;
        let marks2 = if marks.len() > 0 && marks.last().0.start == 0 && marks.last().0.end == len {
            marks.update(marks.len() - 1, (marks.last().0, merged_mark(marks.last().1, m)))
        } else {
            marks.push((Range { start: 0usize, end: len }, m))
        };
        seq![InlineNodeView { marks: marks2, ..text_inline(text) }]
    }
}

/// The progress of merging children's inline nodes under one mark.
pub struct MergeScan {
    /// Nodes emitted so far.
    pub out: Seq<InlineNodeView>,
    /// Text of the run being merged.
    pub text: Seq<u8>,
    /// Marks of the run being merged, shifted into it.
    pub marks: Seq<MarkView>,
}

/// The merge scan with its run emitted.
pub open spec fn merge_flushed(st: MergeScan, m: TextMarkView) -> MergeScan {
    MergeScan { out: st.out + merged_run(st.text, st.marks, m), text: Seq::empty(), marks: Seq::empty() }
}

/// `marks` moved `off` bytes to the right.
pub open spec fn shifted_marks(marks: Seq<MarkView>, off: nat) -> Seq<MarkView> {
    Seq::new(
        marks.len(),
        |i: int|
            (
                Range {
                    start: (marks[i].0.start + off) as usize,
                    end: (marks[i].0.end + off) as usize,
                },
                marks[i].1,
            ),
    )
}

/// One inline node taken into the merge: breaks, images and formulas end
/// the run and are emitted on their own, an image taking the mark's link and a
/// formula the mark (merged into its own marks, or as its one mark); text
/// joins the run with its marks.
pub open spec fn merge_absorb(st: MergeScan, c: InlineNodeView, m: TextMarkView) -> MergeScan {
    if c.line_break {
        let f = merge_flushed(st, m);
        MergeScan { out: f.out.push(break_inline()), ..f }
    } else if c.image is Some {
        let img = c.image->0;
        let img2 = if m.link is Some {
            ImageNodeView { link: m.link, ..img }
        } else {
            img
        };
        let f = merge_flushed(st, m);
        MergeScan { out: f.out.push(image_inline(img2)), ..f }
    } else if c.math is Some {
        let math = c.math->0;
        let marks = if c.marks.len() == 0 {
            seq![(Range { start: 0usize, end: math.source.len() as usize }, m)]
        } else {
            Seq::new(c.marks.len(), |i: int| (c.marks[i].0, merged_mark(c.marks[i].1, m)))
        };
        let f = merge_flushed(st, m);
        MergeScan { out: f.out.push(InlineNodeView { marks, ..math_inline(math) }), ..f }
    } else {
        MergeScan {
            out: st.out,
            text: st.text + c.text,
            marks: st.marks + shifted_marks(c.marks, st.text.len()),
        }
    }
}

/// Taking all of `s` into the merge.
pub open spec fn merge_absorb_all(st: MergeScan, s: Seq<InlineNodeView>, m: TextMarkView) -> MergeScan
    decreases s.len(),
{
    if s.len() == 0 {
        st
    } else {
        merge_absorb(merge_absorb_all(st, s.drop_last(), m), s.last(), m)
    }
}

/// Where the first "$$" of `s` ends and the last begins, when `s` has both:
/// the text between them.
pub open spec fn inner_of_dollars(s: Seq<u8>) -> Option<Seq<u8>> {
    if s.len() >= 4 && s[0] == 36 && s[1] == 36 && s[s.len() - 2] == 36 && s[s.len() - 1] == 36 {
        Some(s.subrange(2, s.len() - 2))
    } else {
        None
    }
}

/// Whether `s` begins with "$$".
pub open spec fn starts_with_dollars(s: Seq<u8>) -> bool {
    s.len() >= 2 && s[0] == 36 && s[1] == 36
}

/// Inline math: shown as a formula when its TeX parses, else as its source.
/// Math written between "$$" shows as display math outside table cells and
/// keeps its written form as markdown; the formula is then what lies between
/// the dollars, trimmed.
pub open spec fn inline_math_parsed(p: ParagraphView, value: Seq<u8>, pos: Option<Position>, ctx: ParseCtx) -> (ParagraphView, Seq<u8>) {
    let raw = source_at(ctx.source, pos);
    let raw_display = raw is Some && starts_with_dollars(raw->0);
    let display = raw_display && !ctx.in_table_cell;
    let math_source = if raw_display {
        match inner_of_dollars(raw->0) {
            Some(inner) => trim(inner),
            None => value,
        }
    } else {
        value
    };
    match tex_parse_outcome(math_source) {
        Ok(_) => {
            let m = math_view(math_source, math_markdown(math_source, display), display);
            let m2 = if raw_display {
                MathNodeView {
                    markdown_source: raw->0,
                    state: InlineStateView { text: raw->0, ..m.state },
                    ..m
                }
            } else {
                m
            };
            (pushed(p, math_inline(m2)), value)
        },
        Err(_) => match raw {
            Some(r) => (ParagraphView { children: p.children + str_inlines(r, 0), ..p }, r),
            None => (pushed(p, text_inline(seq![36u8] + value + seq![36u8])), value),
        },
    }
}

/// An inline syntax node added to a paragraph: the paragraph takes the node's
/// span when it has a position, then the node's inline content; with the
/// plain text the node stands for.
pub open spec fn inline_parsed(p: ParagraphView, node: MdNode, ctx: ParseCtx) -> (ParagraphView, Seq<u8>)
    decreases node,
{
    let p0 = match span_at(ctx.offset, node.position) {
        Some(sp) => ParagraphView { span: Some(sp), ..p },
        None => p,
    };
    match node.kind {
        MdKind::Paragraph => inlines_parsed(p0, node.children@, ctx),
        MdKind::Text { value } => (ParagraphView { children: p0.children + str_inlines(value@, 0), ..p0 }, value@),
        MdKind::Emphasis => merged_into(p0, merge_scanned(node.children@, italic_mark(), ctx), italic_mark()),
        MdKind::Strong => merged_into(p0, merge_scanned(node.children@, bold_mark(), ctx), bold_mark()),
        MdKind::Delete => merged_into(
            p0,
            merge_scanned(node.children@, strikethrough_mark(), ctx),
            strikethrough_mark(),
        ),
        MdKind::InlineCode { value } => (pushed(p0, marked_inline(value@, code_mark())), value@),
        MdKind::Link { url, title } => {
            let m = link_mark(LinkMarkView { url: url@, identifier: None, title: opt_view(title) });
            merged_into(p0, merge_scanned(node.children@, m, ctx), m)
        },
        MdKind::Image { url, title, alt } => (
            pushed(
                p0,
                image_inline(
                    ImageNodeView { url: url@, link: None, title: opt_view(title), alt: Some(alt@) },
                ),
            ),
            Seq::empty(),
        ),
        MdKind::InlineMath { value } => inline_math_parsed(p0, value@, node.position, ctx),
        MdKind::Break => (pushed(p0, break_inline()), seq![10u8]),
        MdKind::MdxTextExpression { value } => (pushed(p0, marked_inline(value@, plain_mark())), value@),
        MdKind::Html { value, parsed } => match parsed {
            Some(blocks) => if blocks@.len() > 0 && blocks@[0]@ is Break {
                (pushed(p0, break_inline()), seq![10u8])
            } else {
                (p0, Seq::empty())
            },
            None => (p0, value@),
        },
        MdKind::FootnoteReference { identifier } => (
            pushed(p0, marked_inline(bracketed(identifier@), italic_mark())),
            Seq::empty(),
        ),
        MdKind::LinkReference { identifier, label } => {
            let m = link_mark(
                LinkMarkView { url: Seq::empty(), identifier: Some(identifier@), title: opt_view(label) },
            );
            merged_into(p0, merge_scanned(node.children@, m, ctx), m)
        },
        _ => (p0, Seq::empty()),
    }
}

/// The syntax nodes `s` added to a paragraph one after the other, with their
/// texts concatenated.
pub open spec fn inlines_parsed(p: ParagraphView, s: Seq<MdNode>, ctx: ParseCtx) -> (ParagraphView, Seq<u8>)
    decreases s,
{
    if s.len() == 0 {
        (p, Seq::empty())
    } else {
        let prev = inlines_parsed(p, s.drop_last(), ctx);
        let last = inline_parsed(prev.0, s.last(), ctx);
        (last.0, prev.1 + last.1)
    }
}

/// Merging the inline content of the syntax nodes `s` under a mark: each
/// node is parsed on its own, its nodes taken into the merge.
pub open spec fn merge_scanned(s: Seq<MdNode>, m: TextMarkView, ctx: ParseCtx) -> (MergeScan, Seq<u8>)
    decreases s,
{
    if s.len() == 0 {
        (MergeScan { out: Seq::empty(), text: Seq::empty(), marks: Seq::empty() }, Seq::empty())
    } else {
        let prev = merge_scanned(s.drop_last(), m, ctx);
        let child = inline_parsed(empty_paragraph(), s.last(), ctx);
        (merge_absorb_all(prev.0, child.0.children, m), prev.1 + child.1)
    }
}

/// The result of a merge added to the paragraph, with the plain text.
pub open spec fn merged_into(p: ParagraphView, scan: (MergeScan, Seq<u8>), m: TextMarkView) -> (ParagraphView, Seq<u8>) {
    let f = merge_flushed(scan.0, m);
    (ParagraphView { children: p.children + f.out, ..p }, scan.1)
}

/// Every position of the tree, shifted by `offset`, fits in a `usize`.
pub open spec fn md_fits(n: MdNode, offset: usize) -> bool
    decreases n,
{
    &&& match n.position {
        Some(p) => offset + p.start <= usize::MAX && offset + p.end <= usize::MAX,
        None => true,
    }
    &&& mds_fit(n.children@, offset)
}

/// Every tree of `s` fits (see [`md_fits`]).
pub open spec fn mds_fit(s: Seq<MdNode>, offset: usize) -> bool
    decreases s,
{
    s.len() == 0 || (mds_fit(s.drop_last(), offset) && md_fits(s.last(), offset))
}

/// Each tree of a sequence that fits, fits.
pub proof fn lemma_mds_fit_index(s: Seq<MdNode>, offset: usize, i: int)
    requires
        mds_fit(s, offset),
        0 <= i < s.len(),
    ensures
        md_fits(s[i], offset),
    decreases s.len(),
{
    if i < s.len() - 1 {
        lemma_mds_fit_index(s.drop_last(), offset, i);
    }
}

/// The marks of every node of the paragraph lie within its text.
pub open spec fn paragraph_marks_in_range(p: ParagraphView) -> bool {
    forall|i: int| 0 <= i < p.children.len() ==> marks_in_range(#[trigger] p.children[i])
}

impl MarkdownParseContext {
    pub fn new(source: Vec<u8>, node_cx: NodeContext) -> (r: Self)
        ensures
            r@ == (ParseCtx {
                source: source@,
                offset: node_cx@.offset,
                refs: node_cx@.link_refs,
                in_table_cell: false,
            }),
    {
        MarkdownParseContext { source, node_cx, in_table_cell: false }
    }

    /// The span of a position.
    pub fn span(&self, pos: Option<Position>) -> (r: Option<Span>)
        requires
            match pos {
                Some(p) => self@.offset + p.start <= usize::MAX && self@.offset + p.end
                    <= usize::MAX,
                None => true,
            },
        ensures
            r == span_at(self@.offset, pos),
    {
        match pos {
            Some(p) => Some(Span { start: self.node_cx.offset + p.start, end: self.node_cx.offset + p.end }),
            None => None,
        }
    }

    /// The source text of an inline math node.
    pub fn inline_math_source(&self, node: &MdNode) -> (r: Option<Vec<u8>>)
        ensures
            opt_view(r) == source_at(self@.source, node.position),
    {
        self.source_for_position(node.position)
    }

    /// The source text at a position, when it lies within the source on
    /// character boundaries.
    pub fn source_for_position(&self, pos: Option<Position>) -> (r: Option<Vec<u8>>)
        ensures
            opt_view(r) == source_at(self@.source, pos),
    {
        match pos {
            Some(p) => {
                if p.start <= p.end && p.end <= self.source.len()
                    && crate::bytes::is_char_boundary(self.source.as_slice(), p.start)
                    && crate::bytes::is_char_boundary(self.source.as_slice(), p.end) {
                    Some(slice_to_vec(self.source.as_slice(), p.start, p.end))
                } else {
                    None
                }
            },
            None => None,
        }
    }
}

/// Pushes a run of text with its `marks` and `new_mark` over the whole run.
///
/// If the last mark already covers the whole run, `new_mark` is merged into
/// it; otherwise it is added over the whole run. Empty runs are skipped.
pub fn push_merged(paragraph: &mut Paragraph, text: Vec<u8>, marks: Vec<Mark>, new_mark: TextMark)
    ensures
        final(paragraph)@ == (ParagraphView {
            children: old(paragraph)@.children + merged_run(
                text@,
                crate::node::marks_view(marks@),
                new_mark@,
            ),
            ..old(paragraph)@
        }),
        (forall|k: int|
            0 <= k < marks@.len() ==> (#[trigger] marks@[k]).0.start <= marks@[k].0.end <= text@.len())
            && paragraph_marks_in_range(old(paragraph)@) ==> paragraph_marks_in_range(final(paragraph)@),
{
    if text.len() == 0 {
        assert(old(paragraph)@.children + merged_run(text@, crate::node::marks_view(marks@), new_mark@)
            =~= old(paragraph)@.children);
        return;
    }
    let len = text.len();
    let ghost mv = crate::node::marks_view(marks@);
    let mut marks = marks;
    let n = marks.len();
    let covers = n > 0 && marks[n - 1].0.start == 0 && marks[n - 1].0.end == len;
    if covers {
        let ghost nm = new_mark@;
        let (r, mut m) = marks.pop().unwrap();
        m.merge(new_mark);
        marks.push((r, m));
        assert(crate::node::marks_view(marks@) =~= mv.update(
            mv.len() - 1,
            (mv.last().0, merged_mark(mv.last().1, nm)),
        ));
    } else {
        let ghost nm = new_mark@;
        marks.push((0..len, new_mark));
        assert(crate::node::marks_view(marks@) =~= mv.push((Range { start: 0usize, end: len }, nm)));
    }
    let ghost tv = text@;
    let node = InlineNode::new(text).marks(marks);
    assert(seq![node@] =~= merged_run(tv, mv, new_mark@));
    paragraph.push(node);
    assert(paragraph@.children =~= old(paragraph)@.children + merged_run(tv, mv, new_mark@));
}

/// The parts of a merge scan, without the nodes it emitted.
pub open spec fn scan_parts(text: Seq<u8>, marks: Seq<MarkView>) -> MergeScan {
    MergeScan { out: Seq::empty(), text, marks }
}

/// Takes one inline node into a merge: the run's text and marks are
/// `text` and `marks`, emitted nodes go to `paragraph`.
fn absorb_node(
    paragraph: &mut Paragraph,
    text: &mut Vec<u8>,
    marks: &mut Vec<Mark>,
    node: &InlineNode,
    mark: &TextMark,
)
    requires
        forall|k: int|
            0 <= k < old(marks)@.len() ==> (#[trigger] old(marks)@[k]).0.start <= old(marks)@[k].0.end
                <= old(text)@.len(),
        marks_in_range(node@),
    ensures
        ({
            let st = merge_absorb(
                scan_parts(old(text)@, crate::node::marks_view(old(marks)@)),
                node@,
                mark@,
            );
            &&& final(paragraph)@ == (ParagraphView {
                children: old(paragraph)@.children + st.out,
                ..old(paragraph)@
            })
            &&& final(text)@ == st.text
            &&& crate::node::marks_view(final(marks)@) == st.marks
        }),
        forall|k: int|
            0 <= k < final(marks)@.len() ==> (#[trigger] final(marks)@[k]).0.start <= final(marks)@[k].0.end
                <= final(text)@.len(),
        paragraph_marks_in_range(old(paragraph)@) ==> paragraph_marks_in_range(final(paragraph)@),
{
    let ghost st0 = scan_parts(old(text)@, crate::node::marks_view(old(marks)@));
    let ghost m = mark@;
    if node.line_break {
        let mut run_text: Vec<u8> = Vec::new();
        core::mem::swap(text, &mut run_text);
        let mut run_marks: Vec<Mark> = Vec::new();
        core::mem::swap(marks, &mut run_marks);
        push_merged(paragraph, run_text, run_marks, mark.duplicate());
        paragraph.push(InlineNode::line_break());
        assert(text@ =~= Seq::<u8>::empty());
        assert(crate::node::marks_view(marks@) =~= Seq::<MarkView>::empty());
        assert(paragraph@.children =~= old(paragraph)@.children + merge_absorb(st0, node@, m).out);
        return;
    }
    if let Some(image) = &node.image {
        let mut image = image.duplicate();
        if let Some(link_mark) = &mark.link {
            image.link = Some(link_mark.duplicate());
        }
        let mut run_text: Vec<u8> = Vec::new();
        core::mem::swap(text, &mut run_text);
        let mut run_marks: Vec<Mark> = Vec::new();
        core::mem::swap(marks, &mut run_marks);
        push_merged(paragraph, run_text, run_marks, mark.duplicate());
        let ghost iv = image@;
        paragraph.push(InlineNode::image(image));
        assert(text@ =~= Seq::<u8>::empty());
        assert(crate::node::marks_view(marks@) =~= Seq::<MarkView>::empty());
        assert(paragraph@.children =~= old(paragraph)@.children + merge_absorb(st0, node@, m).out);
        return;
    }
    if let Some(math) = &node.math {
        let mut run_text: Vec<u8> = Vec::new();
        core::mem::swap(text, &mut run_text);
        let mut run_marks: Vec<Mark> = Vec::new();
        core::mem::swap(marks, &mut run_marks);
        push_merged(paragraph, run_text, run_marks, mark.duplicate());
        let source_len = math.source.len();
        let mut new_marks: Vec<Mark> = Vec::new();
        if node.marks.len() == 0 {
            new_marks.push((0..source_len, mark.duplicate()));
            assert(crate::node::marks_view(new_marks@) =~= seq![
                (Range { start: 0usize, end: source_len }, m),
            ]);
        } else {
            let mut k: usize = 0;
            while k < node.marks.len()
                invariant
                    k <= node.marks@.len(),
                    node.marks@.len() > 0,
                    mark@ == m,
                    crate::node::marks_view(new_marks@) == Seq::new(
                        k as nat,
                        |i: int| (node@.marks[i].0, merged_mark(node@.marks[i].1, m)),
                    ),
                decreases node.marks@.len() - k,
            {
                let (range, child_mark) = &node.marks[k];
                assert(node@.marks[k as int] == (*range, child_mark@));
                let mut merged = child_mark.duplicate();
                merged.merge(mark.duplicate());
                let ghost before = crate::node::marks_view(new_marks@);
                let ghost mm = merged@;
                let r2 = range.start..range.end;
                assert(r2 == *range);
                new_marks.push((r2, merged));
                assert(crate::node::marks_view(new_marks@) =~= before.push((*range, mm)));
                k = k + 1;
                assert(crate::node::marks_view(new_marks@) =~= Seq::new(
                    k as nat,
                    |i: int| (node@.marks[i].0, merged_mark(node@.marks[i].1, m)),
                ));
            }
        }
        let ghost nmv = crate::node::marks_view(new_marks@);
        let math_node = InlineNode::math(math.duplicate()).marks(new_marks);
        paragraph.push(math_node);
        assert(text@ =~= Seq::<u8>::empty());
        assert(crate::node::marks_view(marks@) =~= Seq::<MarkView>::empty());
        assert(paragraph@.children =~= old(paragraph)@.children + merge_absorb(st0, node@, m).out);
        return;
    }
    let offset = text.len();
    push_bytes(text, node.text.as_slice());
    let total = text.len();
    let mut k: usize = 0;
    let ghost base = crate::node::marks_view(old(marks)@);
    while k < node.marks.len()
        invariant
            k <= node.marks@.len(),
            offset == old(text)@.len(),
            text@ == old(text)@ + node.text@,
            total == text@.len(),
            node.math is None,
            marks_in_range(node@),
            crate::node::marks_view(marks@) == base + shifted_marks(
                node@.marks.subrange(0, k as int),
                offset as nat,
            ),
            forall|j: int|
                0 <= j < marks@.len() ==> (#[trigger] marks@[j]).0.start <= marks@[j].0.end
                    <= text@.len(),
        decreases node.marks@.len() - k,
    {
        let (range, child_mark) = &node.marks[k];
        assert(node@.marks[k as int] == (*range, child_mark@));
        assert(node@.marks[k as int].0.end <= node@.text.len());
        let ghost before = crate::node::marks_view(marks@);
        let ghost cm = child_mark@;
        let shifted = (range.start + offset)..(range.end + offset);
        let ghost sh = shifted;
        marks.push((shifted, child_mark.duplicate()));
        assert(crate::node::marks_view(marks@) =~= before.push((sh, cm)));
        k = k + 1;
        assert(shifted_marks(node@.marks.subrange(0, k as int), offset as nat) =~= shifted_marks(
            node@.marks.subrange(0, k - 1),
            offset as nat,
        ).push((sh, cm)));
        assert(crate::node::marks_view(marks@) =~= base + shifted_marks(
            node@.marks.subrange(0, k as int),
            offset as nat,
        ));
    }
    assert(node@.marks.subrange(0, k as int) =~= node@.marks);
    assert(paragraph@.children =~= old(paragraph)@.children + merge_absorb(st0, node@, m).out);
}

/// Parses `children` and applies `mark` across each emitted text run.
///
/// Nested marks are kept and shifted to match the combined text of the run,
/// so nested emphasis like `**_x_**` becomes both bold and italic. Inline
/// images, formulas and line breaks split the run and are emitted as sibling
/// nodes. Returns the plain text of all children.
pub fn merge_children_with_mark(
    paragraph: &mut Paragraph,
    children: &Vec<MdNode>,
    mark: TextMark,
    ctx: &MarkdownParseContext,
) -> (r: Vec<u8>)
    requires
        mds_fit(children@, ctx@.offset),
    ensures
        (final(paragraph)@, r@) == merged_into(
            old(paragraph)@,
            merge_scanned(children@, mark@, ctx@),
            mark@,
        ),
        paragraph_marks_in_range(old(paragraph)@) ==> paragraph_marks_in_range(final(paragraph)@),
    decreases children, 0nat,
{
    let ghost m = mark@;
    let ghost base = old(paragraph)@;
    let mut text: Vec<u8> = Vec::new();
    let mut merged_text: Vec<u8> = Vec::new();
    let mut merged_marks: Vec<Mark> = Vec::new();
    let mut i: usize = 0;
    while i < children.len()
        invariant
            i <= children@.len(),
            mark@ == m,
            mds_fit(children@, ctx@.offset),
            ({
                let sc = merge_scanned(children@.subrange(0, i as int), m, ctx@);
                &&& paragraph@ == (ParagraphView { children: base.children + sc.0.out, ..base })
                &&& merged_text@ == sc.0.text
                &&& crate::node::marks_view(merged_marks@) == sc.0.marks
                &&& text@ == sc.1
            }),
            forall|k: int|
                0 <= k < merged_marks@.len() ==> (#[trigger] merged_marks@[k]).0.start
                    <= merged_marks@[k].0.end <= merged_text@.len(),
            paragraph_marks_in_range(base) ==> paragraph_marks_in_range(paragraph@),
        decreases children@.len() - i,
    {
        proof {
            lemma_mds_fit_index(children@, ctx@.offset, i as int);
        }
        let child = &children[i];
        let mut child_paragraph = Paragraph::default();
        let child_text = parse_paragraph(&mut child_paragraph, child, ctx);
        push_bytes(&mut text, child_text.as_slice());
        let ghost cps = child_paragraph@.children;
        let ghost st_i = merge_scanned(children@.subrange(0, i as int), m, ctx@).0;
        let mut j: usize = 0;
        while j < child_paragraph.children.len()
            invariant
                j <= child_paragraph.children@.len(),
                cps == child_paragraph@.children,
                mark@ == m,
                paragraph_marks_in_range(child_paragraph@),
                ({
                    let st = merge_absorb_all(st_i, cps.subrange(0, j as int), m);
                    &&& paragraph@ == (ParagraphView { children: base.children + st.out, ..base })
                    &&& merged_text@ == st.text
                    &&& crate::node::marks_view(merged_marks@) == st.marks
                }),
                forall|k: int|
                    0 <= k < merged_marks@.len() ==> (#[trigger] merged_marks@[k]).0.start
                        <= merged_marks@[k].0.end <= merged_text@.len(),
                paragraph_marks_in_range(base) ==> paragraph_marks_in_range(paragraph@),
            decreases child_paragraph.children@.len() - j,
        {
            let node = &child_paragraph.children[j];
            assert(cps[j as int] == node@);
            assert(marks_in_range(cps[j as int]));
            let ghost before = paragraph@.children;
            let ghost stj = merge_absorb_all(st_i, cps.subrange(0, j as int), m);
            absorb_node(paragraph, &mut merged_text, &mut merged_marks, node, &mark);
            j = j + 1;
            assert(cps.subrange(0, j as int).drop_last() =~= cps.subrange(0, j - 1));
            assert(merge_absorb(stj, node@, m).out =~= stj.out + merge_absorb(
                scan_parts(stj.text, stj.marks),
                node@,
                m,
            ).out);
            assert(paragraph@.children =~= base.children + merge_absorb_all(
                st_i,
                cps.subrange(0, j as int),
                m,
            ).out);
        }
        assert(cps.subrange(0, j as int) =~= cps);
        i = i + 1;
        assert(children@.subrange(0, i as int).drop_last() =~= children@.subrange(0, i - 1));
    }
    assert(children@.subrange(0, i as int) =~= children@);
    let ghost sc = merge_scanned(children@, m, ctx@);
    push_merged(paragraph, merged_text, merged_marks, mark);
    assert(paragraph@.children =~= base.children + merge_flushed(sc.0, m).out);
    text
}


/// A node holding `text` with `mark` over all of it.
fn marked_node(text: Vec<u8>, mark: TextMark) -> (r: InlineNode)
    ensures
        r@ == marked_inline(text@, mark@),
{
    let ghost tv = text@;
    let ghost mv = mark@;
    let len = text.len();
    let mut marks: Vec<Mark> = Vec::new();
    marks.push((0..len, mark));
    let r = InlineNode::new(text).marks(marks);
    assert(r@.marks =~= seq![(Range { start: 0usize, end: len }, mv)]);
    r
}

/// Adds an inline formula to the paragraph (see [`inline_math_parsed`]) and
/// returns its plain text.
fn parse_inline_math(
    paragraph: &mut Paragraph,
    value: &Vec<u8>,
    pos: Option<Position>,
    ctx: &MarkdownParseContext,
) -> (r: Vec<u8>)
    ensures
        (final(paragraph)@, r@) == inline_math_parsed(old(paragraph)@, value@, pos, ctx@),
        paragraph_marks_in_range(old(paragraph)@) ==> paragraph_marks_in_range(final(paragraph)@),
{
    let raw_source = ctx.source_for_position(pos);
    let raw_display = match &raw_source {
        Some(s) => s.len() >= 2 && s[0] == 36 && s[1] == 36,
        None => false,
    };
    let display = raw_display && !ctx.in_table_cell;
    let math_source: Vec<u8> = match &raw_source {
        Some(s) => {
            let n = s.len();
            if raw_display && n >= 4 && s[n - 2] == 36 && s[n - 1] == 36 {
                let inner = slice_to_vec(s.as_slice(), 2, n - 2);
                trim_bytes(inner.as_slice())
            } else {
                copy_bytes(value)
            }
        },
        None => copy_bytes(value),
    };
    match MathNode::try_new(math_source, display) {
        Ok(math) => {
            let math = match raw_source {
                Some(s) => if raw_display {
                    math.with_markdown_source(s)
                } else {
                    math
                },
                None => math,
            };
            paragraph.push(InlineNode::math(math));
            copy_bytes(value)
        },
        Err(_) => match raw_source {
            Some(s) => {
                paragraph.push_str(s.as_slice());
                proof {
                    crate::node::lemma_str_inlines_marks(s@, 0);
                }
                s
            },
            None => {
                let mut fallback: Vec<u8> = Vec::new();
                fallback.push(36);
                push_bytes(&mut fallback, value.as_slice());
                fallback.push(36);
                assert(fallback@ =~= seq![36u8] + value@ + seq![36u8]);
                paragraph.push(InlineNode::new(fallback));
                copy_bytes(value)
            },
        },
    }
}

/// Adds an inline syntax node to the paragraph (see [`inline_parsed`]) and
/// returns the plain text it stands for.
fn parse_paragraph(paragraph: &mut Paragraph, node: &MdNode, ctx: &MarkdownParseContext) -> (r: Vec<u8>)
    requires
        md_fits(*node, ctx@.offset),
    ensures
        (final(paragraph)@, r@) == inline_parsed(old(paragraph)@, *node, ctx@),
        paragraph_marks_in_range(old(paragraph)@) ==> paragraph_marks_in_range(final(paragraph)@),
    decreases *node, 1nat,
{
    match ctx.span(node.position) {
        Some(sp) => paragraph.set_span(sp),
        None => {},
    }
    let ghost p0 = paragraph@;
    match &node.kind {
        MdKind::Paragraph => parse_inlines(paragraph, &node.children, ctx),
        MdKind::Text { value } => {
            paragraph.push_str(value.as_slice());
            proof {
                crate::node::lemma_str_inlines_marks(value@, 0);
            }
            copy_bytes(value)
        },
        MdKind::Emphasis => merge_children_with_mark(paragraph, &node.children, TextMark::plain().italic(), ctx),
        MdKind::Strong => merge_children_with_mark(paragraph, &node.children, TextMark::plain().bold(), ctx),
        MdKind::Delete => merge_children_with_mark(
            paragraph,
            &node.children,
            TextMark::plain().strikethrough(),
            ctx,
        ),
        MdKind::InlineCode { value } => {
            paragraph.push(marked_node(copy_bytes(value), TextMark::plain().code()));
            copy_bytes(value)
        },
        MdKind::Link { url, title } => {
            let link = LinkMark { url: copy_bytes(url), identifier: None, title: copy_opt_bytes(title) };
            merge_children_with_mark(paragraph, &node.children, TextMark::plain().link(link), ctx)
        },
        MdKind::Image { url, title, alt } => {
            paragraph.push_image(
                ImageNode {
                    url: copy_bytes(url),
                    link: None,
                    title: copy_opt_bytes(title),
                    alt: Some(copy_bytes(alt)),
                },
            );
            Vec::new()
        },
        MdKind::InlineMath { value } => parse_inline_math(paragraph, value, node.position, ctx),
        MdKind::Break => {
            paragraph.push(InlineNode::line_break());
            let mut text: Vec<u8> = Vec::new();
            text.push(10);
            text
        },
        MdKind::MdxTextExpression { value } => {
            paragraph.push(marked_node(copy_bytes(value), TextMark::plain()));
            copy_bytes(value)
        },
        MdKind::Html { value, parsed } => match parsed {
            Some(blocks) => {
                if blocks.len() > 0 && blocks[0].is_break() {
                    paragraph.push(InlineNode::line_break());
                    let mut text: Vec<u8> = Vec::new();
                    text.push(10);
                    text
                } else {
                    Vec::new()
                }
            },
            None => copy_bytes(value),
        },
        MdKind::FootnoteReference { identifier } => {
            let mut prefix: Vec<u8> = Vec::new();
            prefix.push(91);
            push_bytes(&mut prefix, identifier.as_slice());
            prefix.push(93);
            assert(prefix@ =~= bracketed(identifier@));
            paragraph.push(marked_node(prefix, TextMark::plain().italic()));
            Vec::new()
        },
        MdKind::LinkReference { identifier, label } => {
            let link = LinkMark {
                url: Vec::new(),
                identifier: Some(copy_bytes(identifier)),
                title: copy_opt_bytes(label),
            };
            merge_children_with_mark(paragraph, &node.children, TextMark::plain().link(link), ctx)
        },
        _ => Vec::new(),
    }
}


/// Adds the inline syntax nodes `children` to the paragraph one after the
/// other (see [`inlines_parsed`]) and returns their plain text.
fn parse_inlines(paragraph: &mut Paragraph, children: &Vec<MdNode>, ctx: &MarkdownParseContext) -> (r: Vec<u8>)
    requires
        mds_fit(children@, ctx@.offset),
    ensures
        (final(paragraph)@, r@) == inlines_parsed(old(paragraph)@, children@, ctx@),
        paragraph_marks_in_range(old(paragraph)@) ==> paragraph_marks_in_range(final(paragraph)@),
    decreases children, 0nat,
{
    let ghost p0 = paragraph@;
    let mut text: Vec<u8> = Vec::new();
    let mut i: usize = 0;
    while i < children.len()
        invariant
            i <= children@.len(),
            mds_fit(children@, ctx@.offset),
            (paragraph@, text@) == inlines_parsed(p0, children@.subrange(0, i as int), ctx@),
            paragraph_marks_in_range(p0) ==> paragraph_marks_in_range(paragraph@),
        decreases children@.len() - i,
    {
        proof {
            lemma_mds_fit_index(children@, ctx@.offset, i as int);
        }
        let t = parse_paragraph(paragraph, &children[i], ctx);
        push_bytes(&mut text, t.as_slice());
        i = i + 1;
        assert(children@.subrange(0, i as int).drop_last() =~= children@.subrange(0, i - 1));
    }
    assert(children@.subrange(0, i as int) =~= children@);
    text
}

/// The paragraph that inline syntax nodes make, from an empty one.
pub open spec fn paragraph_of(s: Seq<MdNode>, ctx: ParseCtx) -> ParagraphView {
    inlines_parsed(empty_paragraph(), s, ctx).0
}

/// The paragraph of a table cell: its inline nodes, parsed as in a cell.
pub open spec fn cell_of(n: MdNode, ctx: ParseCtx) -> ParagraphView {
    paragraph_of(n.children@, ParseCtx { in_table_cell: true, ..ctx })
}

/// The cells of a table row: those of its children that are cells.
pub open spec fn cells_of(s: Seq<MdNode>, ctx: ParseCtx) -> Seq<ParagraphView>
    decreases s.len(),
{
    if s.len() == 0 {
        Seq::empty()
    } else if s.last().kind is TableCell {
        cells_of(s.drop_last(), ctx).push(cell_of(s.last(), ctx))
    } else {
        cells_of(s.drop_last(), ctx)
    }
}

/// The rows of a table: those of its children that are rows.
pub open spec fn rows_of(s: Seq<MdNode>, ctx: ParseCtx) -> Seq<Seq<ParagraphView>>
    decreases s.len(),
{
    if s.len() == 0 {
        Seq::empty()
    } else if s.last().kind is TableRow {
        rows_of(s.drop_last(), ctx).push(cells_of(s.last().children@, ctx))
    } else {
        rows_of(s.drop_last(), ctx)
    }
}

/// The column alignment that a syntax-tree alignment stands for.
pub open spec fn column_align_of(a: MdAlignKind) -> ColumnAlign {
    match a {
        MdAlignKind::Center => ColumnAlign::Center,
        MdAlignKind::Right => ColumnAlign::Right,
        _ => ColumnAlign::Left,
    }
}

impl From<MdAlignKind> for ColumnAlign {
    fn from(value: MdAlignKind) -> (r: Self) {
        match value {
            MdAlignKind::Unspecified => ColumnAlign::Left,
            MdAlignKind::Left => ColumnAlign::Left,
            MdAlignKind::Center => ColumnAlign::Center,
            MdAlignKind::Right => ColumnAlign::Right,
        }
    }
}

impl vstd::std_specs::convert::FromSpecImpl<MdAlignKind> for ColumnAlign {
    open spec fn obeys_from_spec() -> bool {
        true
    }

    open spec fn from_spec(value: MdAlignKind) -> ColumnAlign {
        column_align_of(value)
    }
}

/// `a - b`, or 0 when `b` is larger.
pub open spec fn sat_sub(a: usize, b: nat) -> usize {
    if a >= b {
        (a - b) as usize
    } else {
        0
    }
}

/// Marks moved `n` bytes to the left (saturating at 0), keeping those that
/// still end after the start.
pub open spec fn marks_after_strip(marks: Seq<MarkView>, n: nat) -> Seq<MarkView>
    decreases marks.len(),
{
    if marks.len() == 0 {
        Seq::empty()
    } else {
        let prev = marks_after_strip(marks.drop_last(), n);
        let m = marks.last();
        let r = Range { start: sat_sub(m.0.start, n), end: sat_sub(m.0.end, n) };
        if r.end > 0 {
            prev.push((r, m.1))
        } else {
            prev
        }
    }
}

/// The paragraph with the first `count` bytes (at most all) of its first node
/// removed, the node's marks moved with its text.
pub open spec fn prefix_stripped(p: ParagraphView, count: nat) -> ParagraphView {
    if p.children.len() == 0 {
        p
    } else {
        let c = p.children[0];
        let n = if count <= c.text.len() {
            count
        } else {
            c.text.len()
        };
        let c2 = InlineNodeView {
            text: c.text.subrange(n as int, c.text.len() as int),
            marks: marks_after_strip(c.marks, n),
            ..c
        };
        ParagraphView { children: p.children.update(0, c2), ..p }
    }
}

/// Whether the first node of the paragraph begins with "[x] " (checked) or
/// "[ ] " (unchecked), with the length of that prefix.
pub open spec fn checkbox_prefix(p: ParagraphView) -> Option<(bool, usize)> {
    if p.children.len() > 0 {
        let t = p.children[0].text;
        if t.len() >= 4 && t[0] == 91 && t[2] == 93 && t[3] == 32 && (t[1] == 120 || t[1] == 32) {
            Some((t[1] == 120, 4usize))
        } else {
            None
        }
    } else {
        None
    }
}

/// One block of a list item after the checkbox fix: a heading whose text
/// begins with a checkbox becomes a paragraph without it, and gives the item
/// its checked state if it had none.
pub open spec fn setext_fixed_one(b: BlockNodeView, checked: Option<bool>) -> (BlockNodeView, Option<bool>) {
    match b {
        BlockNodeView::Heading { children, .. } => match checkbox_prefix(children) {
            Some((c, n)) => (
                BlockNodeView::Paragraph(prefix_stripped(children, n as nat)),
                if checked is None {
                    Some(c)
                } else {
                    checked
                },
            ),
            None => (b, checked),
        },
        _ => (b, checked),
    }
}

/// The blocks of a list item after the checkbox fix, one after the other.
pub open spec fn setext_fixed(s: Seq<BlockNodeView>, checked: Option<bool>) -> (Seq<BlockNodeView>, Option<bool>)
    decreases s.len(),
{
    if s.len() == 0 {
        (s, checked)
    } else {
        let prev = setext_fixed(s.drop_last(), checked);
        let last = setext_fixed_one(s.last(), prev.1);
        (prev.0.push(last.0), last.1)
    }
}

/// A code block of `code` in language `lang`.
pub open spec fn code_view(code: Seq<u8>, lang: Option<Seq<u8>>, span: Option<Span>) -> CodeBlockView {
    CodeBlockView { lang, state: InlineStateView { text: code, selection: None }, span }
}

/// A display formula block: the formula when its TeX parses, else its source
/// shown as written (or as "$$" lines around it when its position is unknown).
pub open spec fn math_block_of(value: Seq<u8>, pos: Option<Position>, ctx: ParseCtx) -> MathNodeView {
    let written = match source_at(ctx.source, pos) {
        Some(s) => s,
        None => math_markdown(value, true),
    };
    let m = match tex_parse_outcome(value) {
        Ok(_) => math_view(value, math_markdown(value, true), true),
        Err(_) => math_view(value, written, true),
    };
    MathNodeView { span: span_at(ctx.offset, pos), ..m }
}

/// "[id]: " with the identifier, as bytes.
pub open spec fn footnote_prefix(id: Seq<u8>) -> Seq<u8> {
    bracketed(id) + seq![58u8, 32u8]
}

/// Whether a syntax tree can be turned into a block: it is no root, and
/// neither are the blocks below it.
pub open spec fn block_ok(n: MdNode) -> bool
    decreases n,
{
    &&& !(n.kind is Root)
    &&& match n.kind {
        MdKind::Blockquote => blocks_ok(n.children@),
        MdKind::List { .. } => blocks_ok(n.children@),
        MdKind::ListItem { .. } => blocks_ok(n.children@),
        _ => true,
    }
}

/// Whether each tree of `s` can be turned into a block.
pub open spec fn blocks_ok(s: Seq<MdNode>) -> bool
    decreases s,
{
    s.len() == 0 || (blocks_ok(s.drop_last()) && block_ok(s.last()))
}

/// The block that a syntax tree makes, with the context after it: only a
/// link definition changes the context, by defining its identifier.
pub open spec fn block_of(node: MdNode, ctx: ParseCtx) -> (BlockNodeView, ParseCtx)
    decreases node,
{
    let span = span_at(ctx.offset, node.position);
    match node.kind {
        MdKind::Paragraph => (BlockNodeView::Paragraph(ParagraphView { span, ..paragraph_of(node.children@, ctx) }), ctx),
        MdKind::MdxJsxTextElement => (BlockNodeView::Paragraph(ParagraphView { span, ..paragraph_of(node.children@, ctx) }), ctx),
        MdKind::MdxJsxFlowElement => (BlockNodeView::Paragraph(ParagraphView { span, ..paragraph_of(node.children@, ctx) }), ctx),
        MdKind::Blockquote => {
            let r = blocks_of(node.children@, ctx);
            (BlockNodeView::Blockquote { children: r.0, span }, r.1)
        },
        MdKind::List { ordered } => {
            let r = blocks_of(node.children@, ctx);
            (BlockNodeView::List { children: r.0, ordered, span }, r.1)
        },
        MdKind::ListItem { checked, spread } => {
            let r = blocks_of(node.children@, ctx);
            let f = setext_fixed(r.0, checked);
            (BlockNodeView::ListItem { children: f.0, spread, checked: f.1, span }, r.1)
        },
        MdKind::Break => (BlockNodeView::Break { html: false, span }, ctx),
        MdKind::Code { value, lang } => (BlockNodeView::CodeBlock(code_view(value@, opt_view(lang), span)), ctx),
        MdKind::Heading { depth } => (BlockNodeView::Heading { level: depth, children: paragraph_of(node.children@, ctx), span }, ctx),
        MdKind::Math { value } => (BlockNodeView::Math(math_block_of(value@, node.position, ctx)), ctx),
        MdKind::Html { value, parsed } => match parsed {
            Some(blocks) => (BlockNodeView::Root { children: blocks_view(blocks@), span }, ctx),
            None => (BlockNodeView::Paragraph(ParagraphView { children: str_inlines(value@, 0), ..empty_paragraph() }), ctx),
        },
        MdKind::MdxFlowExpression { value } => (BlockNodeView::CodeBlock(code_view(value@, Some(seq![109u8, 100u8, 120u8]), span)), ctx),
        MdKind::Yaml { value } => (BlockNodeView::CodeBlock(code_view(value@, Some(seq![121u8, 109u8, 108u8]), span)), ctx),
        MdKind::Toml { value } => (BlockNodeView::CodeBlock(code_view(value@, Some(seq![116u8, 111u8, 109u8, 108u8]), span)), ctx),
        MdKind::ThematicBreak => (BlockNodeView::HorizontalRule { span }, ctx),
        MdKind::Table { align } => (
            BlockNodeView::Table(TableView {
                rows: rows_of(node.children@, ctx),
                column_aligns: Seq::new(align@.len(), |i: int| column_align_of(align@[i])),
                span,
            }),
            ctx,
        ),
        MdKind::FootnoteDefinition { identifier } => {
            let start = ParagraphView {
                children: seq![marked_inline(footnote_prefix(identifier@), italic_mark())],
                ..empty_paragraph()
            };
            (BlockNodeView::Paragraph(ParagraphView { span, ..inlines_parsed(start, node.children@, ctx).0 }), ctx)
        },
        MdKind::Definition { identifier, url, title } => (
            BlockNodeView::Definition { identifier: identifier@, url: url@, title: opt_view(title), span },
            ParseCtx {
                refs: refs_inserted(
                    ctx.refs,
                    identifier@,
                    LinkMarkView { url: url@, identifier: Some(identifier@), title: opt_view(title) },
                ),
                ..ctx
            },
        ),
        _ => (BlockNodeView::Unknown, ctx),
    }
}

/// The blocks that the trees `s` make one after the other, with the context
/// after them.
pub open spec fn blocks_of(s: Seq<MdNode>, ctx: ParseCtx) -> (Seq<BlockNodeView>, ParseCtx)
    decreases s,
{
    if s.len() == 0 {
        (Seq::empty(), ctx)
    } else {
        let prev = blocks_of(s.drop_last(), ctx);
        let last = block_of(s.last(), prev.1);
        (prev.0.push(last.0), last.1)
    }
}


/// Adds a cell parsed from `node` to the row. Its inline nodes are parsed as
/// in a table cell.
fn parse_table_cell(row: &mut TableRow, node: &MdNode, ctx: &mut MarkdownParseContext)
    requires
        mds_fit(node.children@, old(ctx)@.offset),
    ensures
        row_view(*final(row)) == row_view(*old(row)).push(cell_of(*node, old(ctx)@)),
        final(ctx)@ == old(ctx)@,
{
    let ghost c0 = ctx@;
    let mut paragraph = Paragraph::default();
    let was_in_table_cell = ctx.in_table_cell;
    ctx.in_table_cell = true;
    assert(ctx@ =~= ParseCtx { in_table_cell: true, ..c0 });
    parse_inlines(&mut paragraph, &node.children, ctx);
    ctx.in_table_cell = was_in_table_cell;
    assert(ctx@ =~= c0);
    let ghost pv = paragraph@;
    row.children.push(TableCell { children: paragraph });
    assert(row_view(*row) =~= row_view(*old(row)).push(pv));
}

/// Adds a row parsed from `node` to the table: a cell for each child that is
/// a cell.
fn parse_table_row(table: &mut Table, node: &MdNode, ctx: &mut MarkdownParseContext)
    requires
        md_fits(*node, old(ctx)@.offset),
    ensures
        final(table)@ == (TableView {
            rows: old(table)@.rows.push(cells_of(node.children@, old(ctx)@)),
            ..old(table)@
        }),
        final(ctx)@ == old(ctx)@,
{
    let ghost c0 = ctx@;
    let mut row = TableRow { children: Vec::new() };
    let mut i: usize = 0;
    while i < node.children.len()
        invariant
            i <= node.children@.len(),
            mds_fit(node.children@, c0.offset),
            ctx@ == c0,
            row_view(row) == cells_of(node.children@.subrange(0, i as int), c0),
        decreases node.children@.len() - i,
    {
        proof {
            lemma_mds_fit_index(node.children@, c0.offset, i as int);
        }
        let c = &node.children[i];
        match &c.kind {
            MdKind::TableCell => parse_table_cell(&mut row, c, ctx),
            _ => {},
        }
        i = i + 1;
        assert(node.children@.subrange(0, i as int).drop_last() =~= node.children@.subrange(0, i - 1));
    }
    assert(node.children@.subrange(0, i as int) =~= node.children@);
    let ghost rv = row_view(row);
    table.children.push(row);
    assert(table@.rows =~= old(table)@.rows.push(rv));
}

/// Whether the first node of the paragraph begins with a checkbox, "[x] "
/// or "[ ] ": whether it is checked, and the length of the checkbox.
fn detect_checkbox_prefix(paragraph: &Paragraph) -> (r: Option<(bool, usize)>)
    ensures
        r == checkbox_prefix(paragraph@),
{
    if paragraph.children.len() == 0 {
        return None;
    }
    let text = &paragraph.children[0].text;
    assert(text@ == paragraph@.children[0].text);
    if text.len() >= 4 && text[0] == 91 && text[2] == 93 && text[3] == 32 && (text[1] == 120
        || text[1] == 32) {
        Some((text[1] == 120, 4))
    } else {
        None
    }
}

/// Removes the first `count` bytes (at most all) of the first node of the
/// paragraph, moving its marks along and dropping those left empty at the
/// start.
fn strip_paragraph_prefix(paragraph: &mut Paragraph, count: usize)
    ensures
        final(paragraph)@ == prefix_stripped(old(paragraph)@, count as nat),
{
    if paragraph.children.len() == 0 {
        return;
    }
    let ghost p0 = paragraph@;
    let mut first = paragraph.children.remove(0);
    assert(first@ == p0.children[0]);
    let len = first.text.len();
    let prefix_len = if count <= len {
        count
    } else {
        len
    };
    first.text = slice_to_vec(first.text.as_slice(), prefix_len, len);
    let mut marks: Vec<Mark> = Vec::new();
    let ghost old_marks = p0.children[0].marks;
    let mut k: usize = 0;
    while k < first.marks.len()
        invariant
            k <= first.marks@.len(),
            crate::node::marks_view(first.marks@) == old_marks,
            crate::node::marks_view(marks@) == marks_after_strip(old_marks.subrange(0, k as int), prefix_len as nat),
        decreases first.marks@.len() - k,
    {
        let (range, mark) = &first.marks[k];
        assert(old_marks[k as int] == (*range, mark@));
        let start = if range.start >= prefix_len {
            range.start - prefix_len
        } else {
            0
        };
        let end = if range.end >= prefix_len {
            range.end - prefix_len
        } else {
            0
        };
        let ghost before = crate::node::marks_view(marks@);
        let ghost mv = mark@;
        if end > 0 {
            marks.push((start..end, mark.duplicate()));
            assert(crate::node::marks_view(marks@) =~= before.push((Range { start, end }, mv)));
        }
        k = k + 1;
        assert(old_marks.subrange(0, k as int).drop_last() =~= old_marks.subrange(0, k - 1));
    }
    assert(old_marks.subrange(0, k as int) =~= old_marks);
    first.marks = marks;
    let ghost fv = first@;
    paragraph.children.insert(0, first);
    assert(paragraph@.children =~= p0.children.update(0, fv));
}

/// Demotes the headings of a list item whose text begins with a checkbox:
/// the markdown parser reads `- [x] text` followed by a line with a lone `-`
/// as a setext heading inside the item. Such a heading becomes a paragraph
/// without the checkbox, and the item takes the checkbox's state if it had
/// none. Other headings are left as they are.
fn fix_setext_false_positive_in_list_item(children: &mut Vec<BlockNode>, checked: &mut Option<bool>)
    ensures
        (blocks_view(final(children)@), *final(checked)) == setext_fixed(
            blocks_view(old(children)@),
            *old(checked),
        ),
{
    let ghost orig = blocks_view(old(children)@);
    let mut rest: Vec<BlockNode> = Vec::new();
    core::mem::swap(children, &mut rest);
    let ghost rest0 = rest@;
    assert(blocks_view(rest0) == orig);
    assert(blocks_view(children@) =~= orig.subrange(0, 0));
    let n = rest.len();
    let mut i: usize = 0;
    while i < n
        invariant
            i <= n == rest0.len(),
            orig == blocks_view(rest0),
            rest@ == rest0.subrange(i as int, n as int),
            (blocks_view(children@), *checked) == setext_fixed(orig.subrange(0, i as int), *old(checked)),
        decreases n - i,
    {
        let b = rest.remove(0);
        assert(b == rest0[i as int]);
        let ghost bv = b@;
        assert(bv == orig[i as int]);
        let ghost before = blocks_view(children@);
        let fixed = match b {
            BlockNode::Heading { level, children: mut paragraph, span } => {
                match detect_checkbox_prefix(&paragraph) {
                    Some((is_checked, stripped_len)) => {
                        if checked.is_none() {
                            *checked = Some(is_checked);
                        }
                        strip_paragraph_prefix(&mut paragraph, stripped_len);
                        BlockNode::Paragraph(paragraph)
                    },
                    None => BlockNode::Heading { level, children: paragraph, span },
                }
            },
            other => other,
        };
        let ghost fv = fixed@;
        children.push(fixed);
        assert(blocks_view(children@) =~= before.push(fv));
        i = i + 1;
        assert(orig.subrange(0, i as int).drop_last() =~= orig.subrange(0, i - 1));
        assert(rest@ =~= rest0.subrange(i as int, n as int));
    }
    assert(orig.subrange(0, n as int) =~= orig);
}


/// The blocks that the syntax trees `children` make, one after the other.
#[verifier::loop_isolation(false)]
fn ast_to_blocks(children: Vec<MdNode>, ctx: &mut MarkdownParseContext) -> (r: Vec<BlockNode>)
    requires
        mds_fit(children@, old(ctx)@.offset),
        blocks_ok(children@),
    ensures
        (blocks_view(r@), final(ctx)@) == blocks_of(children@, old(ctx)@),
        refs_unique(old(ctx)@.refs) ==> refs_unique(final(ctx)@.refs),
    decreases children@, 0nat,
{
    proof {
        if refs_unique(old(ctx)@.refs) {
            lemma_blocks_of_unique(children@, old(ctx)@);
        }
    }
    let ghost orig = children@;
    let ghost orig_vec = children;
    let ghost c0 = ctx@;
    let mut rest = children;
    let mut out: Vec<BlockNode> = Vec::new();
    let n = rest.len();
    let mut i: usize = 0;
    assert(blocks_view(out@) =~= blocks_of(orig.subrange(0, 0), c0).0);
    while i < n
        invariant
            i <= n == orig.len(),
            orig_vec@ == orig,
            rest@ == orig.subrange(i as int, n as int),
            mds_fit(orig, c0.offset),
            blocks_ok(orig),
            ctx@.offset == c0.offset,
            (blocks_view(out@), ctx@) == blocks_of(orig.subrange(0, i as int), c0),
        decreases n - i,
    {
        proof {
            lemma_mds_fit_index(orig, c0.offset, i as int);
            lemma_blocks_ok_index(orig, i as int);
        }
        let c = rest.remove(0);
        assert(c == orig[i as int]);
        assert(decreases_to!(orig => orig[i as int]));
        let ghost before = blocks_view(out@);
        let ghost cb = ctx@;
        proof {
            lemma_blocks_of_ctx(orig.subrange(0, i as int), c0);
            lemma_block_of_ctx(c, cb);
        }
        let b = ast_to_node(c, ctx);
        let ghost bv = b@;
        out.push(b);
        assert(blocks_view(out@) =~= before.push(bv));
        i = i + 1;
        assert(orig.subrange(0, i as int).drop_last() =~= orig.subrange(0, i - 1));
        assert(rest@ =~= orig.subrange(i as int, n as int));
    }
    assert(orig.subrange(0, n as int) =~= orig);
    out
}

/// Each tree of a sequence of buildable trees is buildable.
proof fn lemma_blocks_ok_index(s: Seq<MdNode>, i: int)
    requires
        blocks_ok(s),
        0 <= i < s.len(),
    ensures
        block_ok(s[i]),
    decreases s.len(),
{
    if i < s.len() - 1 {
        lemma_blocks_ok_index(s.drop_last(), i);
    }
}

/// Lowercase ASCII letters as bytes.
fn lang_name(a: u8, b: u8, c: u8) -> (r: Vec<u8>)
    ensures
        r@ == seq![a, b, c],
{
    let mut v: Vec<u8> = Vec::new();
    v.push(a);
    v.push(b);
    v.push(c);
    assert(v@ =~= seq![a, b, c]);
    v
}

/// The block that a syntax tree makes (see [`block_of`]); a link definition
/// is recorded in the context.
fn ast_to_node(node: MdNode, ctx: &mut MarkdownParseContext) -> (r: BlockNode)
    requires
        md_fits(node, old(ctx)@.offset),
        block_ok(node),
    ensures
        (r@, final(ctx)@) == block_of(node, old(ctx)@),
        refs_unique(old(ctx)@.refs) ==> refs_unique(final(ctx)@.refs),
    decreases node, 1nat,
{
    proof {
        if refs_unique(old(ctx)@.refs) {
            lemma_block_of_unique(node, old(ctx)@);
        }
    }
    let ghost n0 = node;
    let ghost c0 = ctx@;
    let span = ctx.span(node.position);
    let MdNode { kind, children, position } = node;
    match kind {
        MdKind::Paragraph | MdKind::MdxJsxTextElement | MdKind::MdxJsxFlowElement => {
            let mut paragraph = Paragraph::default();
            parse_inlines(&mut paragraph, &children, ctx);
            paragraph.span = span;
            BlockNode::Paragraph(paragraph)
        },
        MdKind::Blockquote => {
            let children = ast_to_blocks(children, ctx);
            let r = BlockNode::Blockquote { children, span };
            assert(r@ == BlockNodeView::Blockquote { children: blocks_view(children@), span }) by {
                assert(blocks_view(children@) =~= match r@ {
                    BlockNodeView::Blockquote { children, .. } => children,
                    _ => Seq::empty(),
                });
            }
            r
        },
        MdKind::List { ordered } => {
            let children = ast_to_blocks(children, ctx);
            let r = BlockNode::List { children, ordered, span };
            assert(r@ == BlockNodeView::List { children: blocks_view(children@), ordered, span }) by {
                assert(blocks_view(children@) =~= match r@ {
                    BlockNodeView::List { children, .. } => children,
                    _ => Seq::empty(),
                });
            }
            r
        },
        MdKind::ListItem { checked, spread } => {
            let mut children = ast_to_blocks(children, ctx);
            let mut checked = checked;
            fix_setext_false_positive_in_list_item(&mut children, &mut checked);
            let r = BlockNode::ListItem { children, spread, checked, span };
            assert(r@ == BlockNodeView::ListItem { children: blocks_view(children@), spread, checked, span }) by {
                assert(blocks_view(children@) =~= match r@ {
                    BlockNodeView::ListItem { children, .. } => children,
                    _ => Seq::empty(),
                });
            }
            r
        },
        MdKind::Break => BlockNode::Break { html: false, span },
        MdKind::Code { value, lang } => BlockNode::CodeBlock(CodeBlock::new(value, lang, span)),
        MdKind::Heading { depth } => {
            let mut paragraph = Paragraph::default();
            parse_inlines(&mut paragraph, &children, ctx);
            BlockNode::Heading { level: depth, children: paragraph, span }
        },
        MdKind::Math { value } => {
            let markdown_source = match ctx.source_for_position(position) {
                Some(s) => s,
                None => crate::math::math_markdown_source(value.as_slice(), true),
            };
            match MathNode::try_new(copy_bytes(&value), true) {
                Ok(math) => BlockNode::Math(math.with_span(span)),
                Err(_) => BlockNode::Math(MathNode::fallback(value, markdown_source, true).with_span(span)),
            }
        },
        MdKind::Html { value, parsed } => match parsed {
            Some(blocks) => {
                let r = BlockNode::Root { children: blocks, span };
                assert(r@ == BlockNodeView::Root { children: blocks_view(blocks@), span }) by {
                    assert(blocks_view(blocks@) =~= match r@ {
                        BlockNodeView::Root { children, .. } => children,
                        _ => Seq::empty(),
                    });
                }
                r
            },
            None => BlockNode::Paragraph(Paragraph::new(value)),
        },
        MdKind::MdxFlowExpression { value } => BlockNode::CodeBlock(
            CodeBlock::new(value, Some(lang_name(109, 100, 120)), span),
        ),
        MdKind::Yaml { value } => BlockNode::CodeBlock(CodeBlock::new(value, Some(lang_name(121, 109, 108)), span)),
        MdKind::Toml { value } => {
            let mut lang: Vec<u8> = Vec::new();
            lang.push(116);
            lang.push(111);
            lang.push(109);
            lang.push(108);
            assert(lang@ =~= seq![116u8, 111u8, 109u8, 108u8]);
            BlockNode::CodeBlock(CodeBlock::new(value, Some(lang), span))
        },
        MdKind::ThematicBreak => BlockNode::HorizontalRule { span },
        MdKind::Table { align } => {
            let mut table = Table { children: Vec::new(), column_aligns: Vec::new(), span: None };
            let mut k: usize = 0;
            while k < align.len()
                invariant
                    k <= align@.len(),
                    table@.rows.len() == 0,
                    table@.span is None,
                    table@.column_aligns == Seq::new(k as nat, |j: int| column_align_of(align@[j])),
                decreases align@.len() - k,
            {
                table.column_aligns.push(ColumnAlign::from(align[k]));
                k = k + 1;
                assert(table@.column_aligns =~= Seq::new(k as nat, |j: int| column_align_of(align@[j])));
            }
            assert(table@.rows =~= rows_of(children@.subrange(0, 0), c0));
            let mut i: usize = 0;
            while i < children.len()
                invariant
                    i <= children@.len(),
                    mds_fit(children@, c0.offset),
                    ctx@ == c0,
                    table@.span is None,
                    table@.column_aligns == Seq::new(align@.len(), |j: int| column_align_of(align@[j])),
                    table@.rows == rows_of(children@.subrange(0, i as int), c0),
                decreases children@.len() - i,
            {
                proof {
                    lemma_mds_fit_index(children@, c0.offset, i as int);
                }
                let c = &children[i];
                match &c.kind {
                    MdKind::TableRow => parse_table_row(&mut table, c, ctx),
                    _ => {},
                }
                i = i + 1;
                assert(children@.subrange(0, i as int).drop_last() =~= children@.subrange(0, i - 1));
            }
            assert(children@.subrange(0, i as int) =~= children@);
            table.span = span;
            BlockNode::Table(table)
        },
        MdKind::FootnoteDefinition { identifier } => {
            let mut paragraph = Paragraph::default();
            let mut prefix: Vec<u8> = Vec::new();
            prefix.push(91);
            push_bytes(&mut prefix, identifier.as_slice());
            prefix.push(93);
            prefix.push(58);
            prefix.push(32);
            assert(prefix@ =~= footnote_prefix(identifier@));
            paragraph.push(marked_node(prefix, TextMark::plain().italic()));
            parse_inlines(&mut paragraph, &children, ctx);
            paragraph.span = span;
            BlockNode::Paragraph(paragraph)
        },
        MdKind::Definition { identifier, url, title } => {
            let link = LinkMark {
                url: copy_bytes(&url),
                identifier: Some(copy_bytes(&identifier)),
                title: copy_opt_bytes(&title),
            };
            ctx.node_cx.add_ref(copy_bytes(&identifier), link);
            BlockNode::Definition { identifier, url, title, span }
        },
        _ => BlockNode::Unknown,
    }
}

/// The document that a syntax tree makes: the blocks of the root's children.
pub fn ast_to_document(root: MdNode, ctx: &mut MarkdownParseContext) -> (r: ParsedDocument)
    requires
        root.kind is Root,
        mds_fit(root.children@, old(ctx)@.offset),
        blocks_ok(root.children@),
    ensures
        r.source@ == old(ctx)@.source,
        (blocks_view(r.blocks@), final(ctx)@) == blocks_of(root.children@, old(ctx)@),
        refs_unique(old(ctx)@.refs) ==> refs_unique(final(ctx)@.refs),
{
    proof {
        lemma_blocks_of_ctx(root.children@, ctx@);
    }
    let blocks = ast_to_blocks(root.children, ctx);
    ParsedDocument { source: copy_bytes(&ctx.source), blocks }
}


/// Building a block keeps the source, offset and cell state of the context.
proof fn lemma_block_of_ctx(n: MdNode, c: ParseCtx)
    ensures
        block_of(n, c).1.source == c.source,
        block_of(n, c).1.offset == c.offset,
        block_of(n, c).1.in_table_cell == c.in_table_cell,
    decreases n,
{
    match n.kind {
        MdKind::Blockquote => lemma_blocks_of_ctx(n.children@, c),
        MdKind::List { .. } => lemma_blocks_of_ctx(n.children@, c),
        MdKind::ListItem { .. } => lemma_blocks_of_ctx(n.children@, c),
        _ => {},
    }
}

/// Building blocks keeps the source, offset and cell state of the context.
proof fn lemma_blocks_of_ctx(s: Seq<MdNode>, c: ParseCtx)
    ensures
        blocks_of(s, c).1.source == c.source,
        blocks_of(s, c).1.offset == c.offset,
        blocks_of(s, c).1.in_table_cell == c.in_table_cell,
    decreases s,
{
    if s.len() > 0 {
        lemma_blocks_of_ctx(s.drop_last(), c);
        lemma_block_of_ctx(s.last(), blocks_of(s.drop_last(), c).1);
    }
}


/// The context in which a document with source `source` starts to be built
/// in the node context `cx`.
pub open spec fn start_ctx(source: Seq<u8>, cx: crate::node::NodeContextView) -> ParseCtx {
    ParseCtx { source, offset: cx.offset, refs: cx.link_refs, in_table_cell: false }
}

/// Parses markdown into a document: the markdown parser, with the options of
/// [`markdown_parse_options`] (GFM with math), makes the syntax tree of
/// `source`, and the document is built from it, recording the link
/// definitions met in `cx`. The parser's message is the error.
pub fn parse(source: Vec<u8>, cx: &mut NodeContext) -> (r: Result<ParsedDocument, Vec<u8>>)
    ensures
        mdast_of(source@, with_math(gfm_options())) matches Err(e) ==> r matches Err(e2) && e2@ == e,
        mdast_of(source@, with_math(gfm_options())) matches Ok(root) ==> (r is Ok <==> tree_buildable(root, old(cx)@.offset)),
        r matches Ok(doc) ==> mdast_of(source@, with_math(gfm_options())) matches Ok(root)
            && doc.source@ == source@
            && blocks_view(doc.blocks@) == blocks_of(root.children@, start_ctx(source@, old(cx)@)).0
            && final(cx)@.link_refs == blocks_of(root.children@, start_ctx(source@, old(cx)@)).1.refs
            && final(cx)@.offset == old(cx)@.offset,
        r is Err ==> final(cx)@ == old(cx)@,
        refs_unique(old(cx)@.link_refs) ==> refs_unique(final(cx)@.link_refs),
{
    let options = markdown_parse_options();
    parse_with(source, &options, cx)
}

/// Parses markdown with the given parser options into a document, as
/// [`parse`] does with its own. A tree from which no document can be built
/// (see [`tree_can_be_built`]) is refused with a message of its own.
pub fn parse_with(source: Vec<u8>, options: &MdParseOptions, cx: &mut NodeContext) -> (r: Result<ParsedDocument, Vec<u8>>)
    ensures
        mdast_of(source@, *options) matches Err(e) ==> r matches Err(e2) && e2@ == e,
        mdast_of(source@, *options) matches Ok(root) ==> (r is Ok <==> tree_buildable(root, old(cx)@.offset)),
        r matches Ok(doc) ==> mdast_of(source@, *options) matches Ok(root)
            && doc.source@ == source@
            && blocks_view(doc.blocks@) == blocks_of(root.children@, start_ctx(source@, old(cx)@)).0
            && final(cx)@.link_refs == blocks_of(root.children@, start_ctx(source@, old(cx)@)).1.refs
            && final(cx)@.offset == old(cx)@.offset,
        r is Err ==> final(cx)@ == old(cx)@,
        refs_unique(old(cx)@.link_refs) ==> refs_unique(final(cx)@.link_refs),
{
    match to_md_tree(source.as_slice(), options) {
        Err(e) => Err(e),
        Ok(root) => {
            if tree_can_be_built(&root, cx.offset) {
                parse_tree(source, Ok(root), cx)
            } else {
                Err(str_bytes("the syntax tree cannot be built into a document"))
            }
        },
    }
}

/// Builds the document of `source` from the outcome of parsing it into a
/// syntax tree: the parser's error is passed on; otherwise the blocks of the
/// tree are built, and the link definitions met are recorded in `cx`.
pub fn parse_tree(source: Vec<u8>, tree: Result<MdNode, Vec<u8>>, cx: &mut NodeContext) -> (r: Result<ParsedDocument, Vec<u8>>)
    requires
        tree matches Ok(root) ==> tree_buildable(root, old(cx)@.offset),
    ensures
        tree matches Err(e) ==> r matches Err(e2) && e2@ == e@,
        tree matches Ok(root) ==> r matches Ok(doc) && doc.source@ == source@,
        tree matches Ok(root) ==> r matches Ok(doc) && blocks_view(doc.blocks@) == blocks_of(
            root.children@,
            start_ctx(source@, old(cx)@),
        ).0,
        tree matches Ok(root) ==> final(cx)@.offset == old(cx)@.offset,
        tree matches Ok(root) ==> final(cx)@.link_refs == blocks_of(
            root.children@,
            start_ctx(source@, old(cx)@),
        ).1.refs,
        tree is Err ==> final(cx)@ == old(cx)@,
        refs_unique(old(cx)@.link_refs) ==> refs_unique(final(cx)@.link_refs),
{
    match tree {
        Err(e) => Err(e),
        Ok(root) => {
            let ghost c0 = cx@;
            let mut node_cx = NodeContext::new();
            core::mem::swap(cx, &mut node_cx);
            let mut ctx = MarkdownParseContext::new(source, node_cx);
            assert(ctx@ =~= start_ctx(ctx.source@, c0));
            let ghost c_start = ctx@;
            proof {
                lemma_blocks_of_ctx(root.children@, c_start);
            }
            let doc = ast_to_document(root, &mut ctx);
            let MarkdownParseContext { source: _, node_cx, in_table_cell: _ } = ctx;
            *cx = node_cx;
            Ok(doc)
        },
    }
}


/// Whether a block is a heading whose text begins with a checkbox.
pub open spec fn is_checkbox_heading(b: BlockNodeView) -> bool {
    b matches BlockNodeView::Heading { children, .. } && checkbox_prefix(children) is Some
}

/// The checkbox fix of a list item keeps the number of blocks, changes only
/// headings that begin with a checkbox (into paragraphs), keeps a checked
/// state that was already known, and sets none when no such heading exists.
pub proof fn lemma_setext_fixed(s: Seq<BlockNodeView>, checked: Option<bool>)
    ensures
        setext_fixed(s, checked).0.len() == s.len(),
        forall|i: int|
            0 <= i < s.len() ==> if is_checkbox_heading(#[trigger] s[i]) {
                setext_fixed(s, checked).0[i] is Paragraph
            } else {
                setext_fixed(s, checked).0[i] == s[i]
            },
        checked is Some ==> setext_fixed(s, checked).1 == checked,
        (forall|i: int| 0 <= i < s.len() ==> !is_checkbox_heading(#[trigger] s[i])) ==> setext_fixed(
            s,
            checked,
        ).1 == checked,
    decreases s.len(),
{
    if s.len() > 0 {
        lemma_setext_fixed(s.drop_last(), checked);
        let prev = setext_fixed(s.drop_last(), checked);
        assert forall|i: int| 0 <= i < s.len() implies if is_checkbox_heading(#[trigger] s[i]) {
            setext_fixed(s, checked).0[i] is Paragraph
        } else {
            setext_fixed(s, checked).0[i] == s[i]
        } by {
            if i < s.len() - 1 {
                assert(s[i] == s.drop_last()[i]);
            }
        }
        if forall|i: int| 0 <= i < s.len() ==> !is_checkbox_heading(#[trigger] s[i]) {
            assert forall|i: int| 0 <= i < s.drop_last().len() implies !is_checkbox_heading(#[trigger] s.drop_last()[i]) by {
                assert(s.drop_last()[i] == s[i]);
            }
            assert(!is_checkbox_heading(s[s.len() - 1]));
        }
    }
}


/// Whether mark `a` carries every style of `m`, and `m`'s link when it has
/// one.
pub open spec fn carries(a: TextMarkView, m: TextMarkView) -> bool {
    &&& m.bold ==> a.bold
    &&& m.italic ==> a.italic
    &&& m.strikethrough ==> a.strikethrough
    &&& m.underline ==> a.underline
    &&& m.code ==> a.code
    &&& m.link is Some ==> a.link == m.link
}

/// A run merged under a mark keeps its text and the marks of its pieces, and
/// ends with a mark over all of its text that carries the mark: nested
/// emphasis keeps the styles of both levels.
pub proof fn lemma_merged_run_carries_mark(text: Seq<u8>, marks: Seq<MarkView>, m: TextMarkView)
    requires
        0 < text.len() <= usize::MAX,
    ensures
        ({
            let r = merged_run(text, marks, m);
            &&& r.len() == 1
            &&& r[0].text == text
            &&& r[0].marks.len() > 0
            &&& r[0].marks.last().0 == Range { start: 0usize, end: text.len() as usize }
            &&& carries(r[0].marks.last().1, m)
            &&& forall|k: int| 0 <= k < r[0].marks.len() - 1 ==> #[trigger] r[0].marks[k] == marks[k]
        }),
{
}


/// Whether every position of the tree, moved by `offset`, fits in a `usize`
/// (see [`md_fits`]).
fn node_fits(node: &MdNode, offset: usize) -> (r: bool)
    ensures
        r == md_fits(*node, offset),
    decreases *node, 1nat,
{
    let here = match node.position {
        Some(p) => p.start <= usize::MAX - offset && p.end <= usize::MAX - offset,
        None => true,
    };
    here && nodes_fit(&node.children, offset)
}

/// Whether every tree of `nodes` fits (see [`mds_fit`]).
fn nodes_fit(nodes: &Vec<MdNode>, offset: usize) -> (r: bool)
    ensures
        r == mds_fit(nodes@, offset),
    decreases nodes, 0nat,
{
    let mut i: usize = 0;
    while i < nodes.len()
        invariant
            i <= nodes@.len(),
            mds_fit(nodes@.subrange(0, i as int), offset),
        decreases nodes@.len() - i,
    {
        assert(nodes@.subrange(0, i + 1).drop_last() =~= nodes@.subrange(0, i as int));
        if !node_fits(&nodes[i], offset) {
            proof {
                if mds_fit(nodes@, offset) {
                    lemma_mds_fit_prefix(nodes@, offset, i + 1);
                }
            }
            return false;
        }
        i = i + 1;
    }
    assert(nodes@.subrange(0, i as int) =~= nodes@);
    true
}

/// A prefix of trees that fit, fits.
proof fn lemma_mds_fit_prefix(s: Seq<MdNode>, offset: usize, n: int)
    requires
        0 <= n <= s.len(),
        mds_fit(s, offset),
    ensures
        mds_fit(s.subrange(0, n), offset),
    decreases s.len() - n,
{
    if n < s.len() {
        assert(s.subrange(0, n + 1).drop_last() =~= s.subrange(0, n));
        lemma_mds_fit_prefix(s, offset, n + 1);
    } else {
        assert(s.subrange(0, n) =~= s);
    }
}

/// Whether a tree can be turned into a block (see [`block_ok`]).
fn node_block_ok(node: &MdNode) -> (r: bool)
    ensures
        r == block_ok(*node),
    decreases *node, 1nat,
{
    match node.kind {
        MdKind::Root => false,
        MdKind::Blockquote => nodes_block_ok(&node.children),
        MdKind::List { .. } => nodes_block_ok(&node.children),
        MdKind::ListItem { .. } => nodes_block_ok(&node.children),
        _ => true,
    }
}

/// Whether each tree of `nodes` can be turned into a block (see
/// [`blocks_ok`]).
fn nodes_block_ok(nodes: &Vec<MdNode>) -> (r: bool)
    ensures
        r == blocks_ok(nodes@),
    decreases nodes, 0nat,
{
    let mut i: usize = 0;
    while i < nodes.len()
        invariant
            i <= nodes@.len(),
            blocks_ok(nodes@.subrange(0, i as int)),
        decreases nodes@.len() - i,
    {
        assert(nodes@.subrange(0, i + 1).drop_last() =~= nodes@.subrange(0, i as int));
        if !node_block_ok(&nodes[i]) {
            proof {
                if blocks_ok(nodes@) {
                    lemma_blocks_ok_prefix(nodes@, i + 1);
                }
            }
            return false;
        }
        i = i + 1;
    }
    assert(nodes@.subrange(0, i as int) =~= nodes@);
    true
}

/// A prefix of buildable trees is buildable.
proof fn lemma_blocks_ok_prefix(s: Seq<MdNode>, n: int)
    requires
        0 <= n <= s.len(),
        blocks_ok(s),
    ensures
        blocks_ok(s.subrange(0, n)),
    decreases s.len() - n,
{
    if n < s.len() {
        assert(s.subrange(0, n + 1).drop_last() =~= s.subrange(0, n));
        lemma_blocks_ok_prefix(s, n + 1);
    } else {
        assert(s.subrange(0, n) =~= s);
    }
}

/// Whether a document can be built from the tree in a context at `offset`:
/// it is a root, no root stands below it where a block is expected, and
/// every position moved by `offset` fits in a `usize`.
pub open spec fn tree_buildable(root: MdNode, offset: usize) -> bool {
    root.kind is Root && mds_fit(root.children@, offset) && blocks_ok(root.children@)
}

/// Whether a document can be built from the tree in a context at `offset`
/// (what [`parse_tree`] asks of a parsed tree): it is a root, no root stands below
/// it where a block is expected, and every position moved by `offset` fits in
/// a `usize`.
pub fn tree_can_be_built(root: &MdNode, offset: usize) -> (r: bool)
    ensures
        r == tree_buildable(*root, offset),
{
    match root.kind {
        MdKind::Root => nodes_fit(&root.children, offset) && nodes_block_ok(&root.children),
        _ => false,
    }
}


/// The column alignment that parsing gives a delimiter-row alignment keeps
/// its meaning: a column asked to align right aligns right, one asked to
/// center is centered, and one asked to align left, or not asked at all,
/// aligns left.
pub proof fn lemma_column_align_of_keeps_kind(k: MdAlignKind)
    ensures
        column_align_of(k) is Right <==> k is Right,
        column_align_of(k) is Center <==> k is Center,
        column_align_of(k) is Left <==> (k is Left || k is Unspecified),
{
}

/// A column's alignment survives a round trip through markdown: the
/// alignment that parsing gives a delimiter-row alignment, written back as a
/// delimiter cell, reads back as that alignment (an unspecified one as left).
pub proof fn lemma_column_align_round_trip(k: MdAlignKind)
    ensures
        delimiter_align(align_markdown(column_align_of(k))) == Some(
            if k is Unspecified {
                MdAlignKind::Left
            } else {
                k
            },
        ),
{
    lemma_align_markdown_reads_back(column_align_of(k));
}

/// Parsing a table gives it one alignment per column of its delimiter row,
/// each with the meaning of that column's alignment: right for right, center
/// for center, left for left or none.
pub proof fn lemma_table_column_aligns(node: MdNode, ctx: ParseCtx)
    requires
        node.kind is Table,
    ensures
        node.kind matches MdKind::Table { align } && block_of(node, ctx).0 matches BlockNodeView::Table(t) && {
            &&& t.column_aligns.len() == align@.len()
            &&& forall|i: int|
                0 <= i < align@.len() ==> {
                    &&& (#[trigger] t.column_aligns[i] is Right <==> align@[i] is Right)
                    &&& (t.column_aligns[i] is Center <==> align@[i] is Center)
                    &&& (t.column_aligns[i] is Left <==> (align@[i] is Left || align@[i] is Unspecified))
                }
        },
{
    if let MdKind::Table { align } = node.kind {
        if let BlockNodeView::Table(t) = block_of(node, ctx).0 {
            assert forall|i: int| 0 <= i < align@.len() implies {
                &&& (#[trigger] t.column_aligns[i] is Right <==> align@[i] is Right)
                &&& (t.column_aligns[i] is Center <==> align@[i] is Center)
                &&& (t.column_aligns[i] is Left <==> (align@[i] is Left || align@[i] is Unspecified))
            } by {
                lemma_column_align_of_keeps_kind(align@[i]);
            }
        }
    }
}

/// Building a block defines no identifier twice when none was defined twice
/// before: a link definition replaces an earlier one of the same identifier.
pub proof fn lemma_block_of_unique(n: MdNode, c: ParseCtx)
    requires
        refs_unique(c.refs),
    ensures
        refs_unique(block_of(n, c).1.refs),
    decreases n,
{
    match n.kind {
        MdKind::Blockquote => lemma_blocks_of_unique(n.children@, c),
        MdKind::List { .. } => lemma_blocks_of_unique(n.children@, c),
        MdKind::ListItem { .. } => lemma_blocks_of_unique(n.children@, c),
        MdKind::Definition { identifier, url, title } => lemma_refs_inserted_unique(
            c.refs,
            identifier@,
            LinkMarkView { url: url@, identifier: Some(identifier@), title: opt_view(title) },
        ),
        _ => {},
    }
}

/// Building blocks one after the other defines no identifier twice when none
/// was defined twice before.
pub proof fn lemma_blocks_of_unique(s: Seq<MdNode>, c: ParseCtx)
    requires
        refs_unique(c.refs),
    ensures
        refs_unique(blocks_of(s, c).1.refs),
    decreases s,
{
    if s.len() > 0 {
        lemma_blocks_of_unique(s.drop_last(), c);
        lemma_block_of_unique(s.last(), blocks_of(s.drop_last(), c).1);
    }
}

} // verus!
