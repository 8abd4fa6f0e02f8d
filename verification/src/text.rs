//! Plain text and selected text of paragraphs, blocks and documents.

use vstd::prelude::*;

use crate::bytes::{copy_bytes, lemma_newline_pos, newline_pos, newlines, push_bytes, push_newlines};
use crate::inline::{state_selected, state_wf};
use crate::math::{MathNodeView, math_selected};
use crate::node::{
    blocks_view, break_inline, empty_paragraph, image_plain_text, segment_inline, str_inlines, BlockNode, BlockNodeView, CodeBlock, InlineNodeView, Paragraph,
    ParagraphView, Table,
};

verus! {

/// Joins `parts` with `sep` between consecutive parts.
pub open spec fn join(parts: Seq<Seq<u8>>, sep: Seq<u8>) -> Seq<u8>
    decreases parts.len(),
{
    if parts.len() == 0 {
        Seq::empty()
    } else if parts.len() == 1 {
        parts[0]
    } else {
        join(parts.drop_last(), sep) + sep + parts.last()
    }
}

/// Joins `parts` with `sep` between consecutive parts.
pub fn join_bytes(parts: &Vec<Vec<u8>>, sep: &[u8]) -> (r: Vec<u8>)
    ensures
        r@ == join(Seq::new(parts@.len(), |i: int| parts@[i]@), sep@),
{
    let ghost ps = Seq::new(parts@.len(), |i: int| parts@[i]@);
    let mut out: Vec<u8> = Vec::new();
    let mut i: usize = 0;
    while i < parts.len()
        invariant
            i <= parts@.len(),
            ps == Seq::new(parts@.len(), |i: int| parts@[i]@),
            out@ == join(ps.subrange(0, i as int), sep@),
        decreases parts@.len() - i,
    {
        if i > 0 {
            push_bytes(&mut out, sep);
        }
        push_bytes(&mut out, parts[i].as_slice());
        i = i + 1;
        assert(ps.subrange(0, i as int).drop_last() =~= ps.subrange(0, i - 1));
        if i == 1 {
            assert(out@ =~= join(ps.subrange(0, i as int), sep@));
        }
    }
    assert(ps.subrange(0, parts@.len() as int) =~= ps);
    out
}

/// The text of an inline node: a newline for a line break, the alt text of an
/// image, the markdown source of a formula, or the node's text.
pub open spec fn inline_text(c: InlineNodeView) -> Seq<u8> {
    if c.line_break {
        seq![10u8]
    } else if c.image is Some {
        image_plain_text(c.image->0)
    } else if c.math is Some {
        c.math->0.markdown_source
    } else {
        c.text
    }
}

/// The texts of `s`, concatenated.
pub open spec fn inlines_text(s: Seq<InlineNodeView>) -> Seq<u8>
    decreases s.len(),
{
    if s.len() == 0 {
        Seq::empty()
    } else {
        inlines_text(s.drop_last()) + inline_text(s.last())
    }
}

/// The text of a paragraph.
pub open spec fn paragraph_text(p: ParagraphView) -> Seq<u8> {
    inlines_text(p.children)
}

/// An image adds its alt text to the text of a paragraph: the text of a
/// paragraph whose children end in an image (not a line break) is the text
/// of the other children followed by the image's alt text, or by nothing
/// when it has none.
pub proof fn lemma_paragraph_text_image(p: ParagraphView, c: InlineNodeView)
    requires
        c.image is Some,
        !c.line_break,
    ensures
        paragraph_text(ParagraphView { children: p.children.push(c), ..p }) == paragraph_text(p) + match c.image->0.alt {
            Some(alt) => alt,
            None => Seq::<u8>::empty(),
        },
{
    assert(p.children.push(c).drop_last() =~= p.children);
}

/// A formula that is not an image or a line break adds its markdown source
/// to the text of a paragraph.
pub proof fn lemma_paragraph_text_math(p: ParagraphView, c: InlineNodeView)
    requires
        c.image is None,
        c.math is Some,
        !c.line_break,
    ensures
        paragraph_text(ParagraphView { children: p.children.push(c), ..p }) == paragraph_text(p)
            + c.math->0.markdown_source,
{
    assert(p.children.push(c).drop_last() =~= p.children);
}

/// A text node adds its text to the text of a paragraph, and a line break a
/// newline.
pub proof fn lemma_paragraph_text_text(p: ParagraphView, c: InlineNodeView)
    requires
        c.image is None,
        c.math is None,
    ensures
        paragraph_text(ParagraphView { children: p.children.push(c), ..p }) == paragraph_text(p) + if c.line_break {
            seq![10u8]
        } else {
            c.text
        },
{
    assert(p.children.push(c).drop_last() =~= p.children);
}

/// The text selected in an inline node: its selected text, followed by the
/// selected text of its formula.
pub open spec fn inline_selected(c: InlineNodeView) -> Seq<u8> {
    state_selected(c.state) + if c.math is Some {
        math_selected(c.math->0)
    } else {
        Seq::empty()
    }
}

/// Whether the selection of an inline node starts at its beginning.
pub open spec fn inline_selection_at_start(c: InlineNodeView) -> bool {
    c.math is Some || (c.state.selection matches Some(sel) && sel.start == 0)
}

/// The progress of collecting the selected text of a paragraph.
pub struct SelectionScan {
    /// The text collected so far.
    pub text: Seq<u8>,
    /// Line breaks seen since the last selected text.
    pub pending: nat,
    /// Whether any selected text was collected.
    pub saw_selected: bool,
    /// Whether unselected content that is not a break was seen since the
    /// last selected text.
    pub saw_unselected: bool,
}

/// One step of collecting selected text. Line breaks between selected
/// pieces are kept; breaks before the first selected piece are kept only
/// when nothing else unselected came between them and a selection that
/// starts at the beginning of its node.
pub open spec fn selection_step(acc: SelectionScan, c: InlineNodeView) -> SelectionScan {
    let sel = inline_selected(c);
    if sel.len() > 0 {
        let keep_breaks = acc.pending > 0 && (acc.saw_selected || (!acc.saw_unselected
            && inline_selection_at_start(c)));
        SelectionScan {
            text: (if keep_breaks {
                acc.text + newlines(acc.pending)
            } else {
                acc.text
            }) + sel,
            pending: 0,
            saw_selected: true,
            saw_unselected: false,
        }
    } else if c.line_break {
        SelectionScan { pending: acc.pending + 1, ..acc }
    } else {
        SelectionScan { pending: 0, saw_unselected: true, ..acc }
    }
}

/// Collecting the selected text of `s`.
pub open spec fn selection_scan(s: Seq<InlineNodeView>) -> SelectionScan
    decreases s.len(),
{
    if s.len() == 0 {
        SelectionScan { text: Seq::empty(), pending: 0, saw_selected: false, saw_unselected: false }
    } else {
        selection_step(selection_scan(s.drop_last()), s.last())
    }
}

/// The selected text of a paragraph: the scan's text, followed by trailing
/// line breaks when some text was selected.
pub open spec fn paragraph_selected_text(p: ParagraphView) -> Seq<u8> {
    let scan = selection_scan(p.children);
    if scan.text.len() > 0 && scan.pending > 0 {
        scan.text + newlines(scan.pending)
    } else {
        scan.text
    }
}

/// Every selection in the paragraph lies within its text, on character
/// boundaries.
pub open spec fn paragraph_wf(p: ParagraphView) -> bool {
    forall|i: int|
        0 <= i < p.children.len() ==> {
            &&& state_wf(#[trigger] p.children[i].state)
            &&& p.children[i].math is Some ==> state_wf(p.children[i].math->0.state)
        }
}

impl Paragraph {
    /// The plain text of the paragraph.
    pub fn text(&self) -> (r: Vec<u8>)
        ensures
            r@ == paragraph_text(self@),
    {
        let ghost cs = self@.children;
        let mut text: Vec<u8> = Vec::new();
        let mut i: usize = 0;
        while i < self.children.len()
            invariant
                i <= self.children@.len(),
                cs == self@.children,
                text@ == inlines_text(cs.subrange(0, i as int)),
            decreases self.children@.len() - i,
        {
            let node = &self.children[i];
            assert(cs[i as int] == node@);
            if node.line_break {
                text.push(10);
            } else if let Some(image) = &node.image {
                match &image.alt {
                    Some(alt) => push_bytes(&mut text, alt.as_slice()),
                    None => {},
                }
            } else if let Some(math) = &node.math {
                push_bytes(&mut text, math.markdown_source.as_slice());
            } else {
                push_bytes(&mut text, node.text.as_slice());
            }
            i = i + 1;
            assert(cs.subrange(0, i as int).drop_last() =~= cs.subrange(0, i - 1));
            assert(text@ =~= inlines_text(cs.subrange(0, i as int)));
        }
        assert(cs.subrange(0, i as int) =~= cs);
        text
    }

    /// The selected text of the paragraph.
    pub fn selected_text(&self) -> (r: Vec<u8>)
        requires
            paragraph_wf(self@),
        ensures
            r@ == paragraph_selected_text(self@),
    {
        let ghost cs = self@.children;
        let mut text: Vec<u8> = Vec::new();
        let mut pending: usize = 0;
        let mut saw_selected = false;
        let mut saw_unselected = false;
        let mut i: usize = 0;
        while i < self.children.len()
            invariant
                i <= self.children@.len(),
                cs == self@.children,
                paragraph_wf(self@),
                pending <= i,
                selection_scan(cs.subrange(0, i as int)) == (SelectionScan {
                    text: text@,
                    pending: pending as nat,
                    saw_selected,
                    saw_unselected,
                }),
            decreases self.children@.len() - i,
        {
            let c = &self.children[i];
            assert(cs[i as int] == c@);
            assert(state_wf(cs[i as int].state));
            let mut selected = c.state.selected();
            let mut at_start = match c.state.selection {
                Some(sel) => sel.start == 0,
                None => false,
            };
            if let Some(math) = &c.math {
                let m = math.selected_text();
                push_bytes(&mut selected, m.as_slice());
                at_start = true;
            }
            assert(selected@ =~= inline_selected(c@));
            assert(cs.subrange(0, i + 1).drop_last() =~= cs.subrange(0, i as int));
            if selected.len() > 0 {
                if pending > 0 {
                    if saw_selected || (!saw_unselected && at_start) {
                        push_newlines(&mut text, pending);
                    }
                    pending = 0;
                }
                push_bytes(&mut text, selected.as_slice());
                saw_selected = true;
                saw_unselected = false;
            } else if c.line_break {
                pending = pending + 1;
            } else {
                pending = 0;
                saw_unselected = true;
            }
            i = i + 1;
        }
        assert(cs.subrange(0, i as int) =~= cs);
        if text.len() > 0 && pending > 0 {
            push_newlines(&mut text, pending);
        }
        text
    }
}

/// Which text of a block to collect.
#[derive(Clone, Copy, Debug, PartialEq, Eq, Structural)]
pub enum BlockTextKind {
    All,
    Selected,
}

/// The text of a paragraph, all of it or the selected part.
pub open spec fn paragraph_kind_text(p: ParagraphView, kind: BlockTextKind) -> Seq<u8> {
    match kind {
        BlockTextKind::All => paragraph_text(p),
        BlockTextKind::Selected => paragraph_selected_text(p),
    }
}

/// `t` followed by a newline, or nothing when `t` is empty.
pub open spec fn text_line(t: Seq<u8>) -> Seq<u8> {
    if t.len() > 0 {
        t.push(10u8)
    } else {
        Seq::empty()
    }
}

/// The texts of a row's cells: all of them, or only the non-empty ones when
/// collecting selected text.
pub open spec fn row_texts(cells: Seq<ParagraphView>, kind: BlockTextKind) -> Seq<Seq<u8>>
    decreases cells.len(),
{
    if cells.len() == 0 {
        Seq::empty()
    } else {
        let prev = row_texts(cells.drop_last(), kind);
        let t = paragraph_kind_text(cells.last(), kind);
        if kind == BlockTextKind::All || t.len() > 0 {
            prev.push(t)
        } else {
            prev
        }
    }
}

/// The text of a table's rows: for each row with cell texts, the texts
/// joined by spaces and followed by a newline.
pub open spec fn table_rows_text(rows: Seq<Seq<ParagraphView>>, kind: BlockTextKind) -> Seq<u8>
    decreases rows.len(),
{
    if rows.len() == 0 {
        Seq::empty()
    } else {
        let prev = table_rows_text(rows.drop_last(), kind);
        let texts = row_texts(rows.last(), kind);
        if texts.len() > 0 {
            prev + join(texts, seq![32u8]).push(10u8)
        } else {
            prev
        }
    }
}

/// The text of a block: each block that has text ends with a newline; lists
/// and list items pass on their children's text; breaks, rules and
/// definitions have none.
pub open spec fn block_text(b: BlockNodeView, kind: BlockTextKind) -> Seq<u8>
    decreases b,
{
    match b {
        BlockNodeView::Root { children, .. } => text_line(blocks_text(children, kind)),
        BlockNodeView::Paragraph(p) => text_line(paragraph_kind_text(p, kind)),
        BlockNodeView::Heading { children, .. } => text_line(paragraph_kind_text(children, kind)),
        BlockNodeView::List { children, .. } => blocks_text(children, kind),
        BlockNodeView::ListItem { children, .. } => blocks_text(children, kind),
        BlockNodeView::Blockquote { children, .. } => text_line(blocks_text(children, kind)),
        BlockNodeView::Table(t) => text_line(table_rows_text(t.rows, kind)),
        BlockNodeView::CodeBlock(c) => text_line(
            match kind {
                BlockTextKind::All => c.state.text,
                BlockTextKind::Selected => state_selected(c.state),
            },
        ),
        BlockNodeView::Math(m) => text_line(
            match kind {
                BlockTextKind::All => m.markdown_source,
                BlockTextKind::Selected => math_selected(m),
            },
        ),
        _ => Seq::empty(),
    }
}

/// The texts of `s`, concatenated.
pub open spec fn blocks_text(s: Seq<BlockNodeView>, kind: BlockTextKind) -> Seq<u8>
    decreases s,
{
    if s.len() == 0 {
        Seq::empty()
    } else {
        blocks_text(s.drop_last(), kind) + block_text(s.last(), kind)
    }
}

/// Every selection in the block lies within its text, on character
/// boundaries.
pub open spec fn block_wf(b: BlockNodeView) -> bool
    decreases b,
{
    match b {
        BlockNodeView::Root { children, .. } => blocks_wf(children),
        BlockNodeView::Paragraph(p) => paragraph_wf(p),
        BlockNodeView::Heading { children, .. } => paragraph_wf(children),
        BlockNodeView::List { children, .. } => blocks_wf(children),
        BlockNodeView::ListItem { children, .. } => blocks_wf(children),
        BlockNodeView::Blockquote { children, .. } => blocks_wf(children),
        BlockNodeView::Table(t) => forall|i: int, j: int|
            0 <= i < t.rows.len() && 0 <= j < t.rows[i].len() ==> paragraph_wf(
                #[trigger] t.rows[i][j],
            ),
        BlockNodeView::CodeBlock(c) => state_wf(c.state),
        BlockNodeView::Math(m) => state_wf(m.state),
        _ => true,
    }
}

/// Every block of `s` is well formed.
pub open spec fn blocks_wf(s: Seq<BlockNodeView>) -> bool
    decreases s,
{
    if s.len() == 0 {
        true
    } else {
        blocks_wf(s.drop_last()) && block_wf(s.last())
    }
}

impl CodeBlock {
    /// The code.
    pub fn code(&self) -> (r: Vec<u8>)
        ensures
            r@ == self@.state.text,
    {
        copy_bytes(&self.state.text)
    }

    /// The language of the code, if given.
    pub fn lang(&self) -> (r: Option<Vec<u8>>)
        ensures
            crate::bytes::opt_view(r) == self@.lang,
    {
        crate::bytes::copy_opt_bytes(&self.lang)
    }

    pub fn text(&self) -> (r: Vec<u8>)
        ensures
            r@ == self@.state.text,
    {
        copy_bytes(&self.state.text)
    }

    pub fn selected_text(&self) -> (r: Vec<u8>)
        requires
            state_wf(self@.state),
        ensures
            r@ == state_selected(self@.state),
    {
        self.state.selected()
    }
}

/// Pushes `t` and a newline when `t` is not empty.
fn push_line(out: &mut Vec<u8>, t: &[u8])
    ensures
        final(out)@ == old(out)@ + text_line(t@),
{
    if t.len() > 0 {
        push_bytes(out, t);
        out.push(10);
        assert(out@ =~= old(out)@ + text_line(t@));
    } else {
        assert(text_line(t@) =~= Seq::<u8>::empty());
        assert(out@ =~= old(out)@ + text_line(t@));
    }
}

impl Paragraph {
    fn kind_text(&self, kind: BlockTextKind) -> (r: Vec<u8>)
        requires
            kind == BlockTextKind::Selected ==> paragraph_wf(self@),
        ensures
            r@ == paragraph_kind_text(self@, kind),
    {
        match kind {
            BlockTextKind::All => self.text(),
            BlockTextKind::Selected => self.selected_text(),
        }
    }
}

/// The text of a table's rows.
fn table_text(table: &Table, kind: BlockTextKind) -> (r: Vec<u8>)
    requires
        kind == BlockTextKind::Selected ==> block_wf(BlockNodeView::Table(table@)),
    ensures
        r@ == table_rows_text(table@.rows, kind),
{
    let ghost rows = table@.rows;
    let mut block_text: Vec<u8> = Vec::new();
    let mut r: usize = 0;
    while r < table.children.len()
        invariant
            r <= table.children@.len(),
            rows == table@.rows,
            kind == BlockTextKind::Selected ==> block_wf(BlockNodeView::Table(table@)),
            block_text@ == table_rows_text(rows.subrange(0, r as int), kind),
        decreases table.children@.len() - r,
    {
        let row = &table.children[r];
        let ghost cells = rows[r as int];
        assert(cells == crate::node::row_view(*row));
        let mut row_texts_v: Vec<Vec<u8>> = Vec::new();
        let mut c: usize = 0;
        while c < row.children.len()
            invariant
                c <= row.children@.len(),
                cells == crate::node::row_view(*row),
                cells == rows[r as int],
                r < rows.len(),
                kind == BlockTextKind::Selected ==> block_wf(BlockNodeView::Table(table@)),
                rows == table@.rows,
                Seq::new(row_texts_v@.len(), |i: int| row_texts_v@[i]@) == row_texts(
                    cells.subrange(0, c as int),
                    kind,
                ),
            decreases row.children@.len() - c,
        {
            let cell = &row.children[c];
            assert(cells[c as int] == cell.children@);
            if kind == BlockTextKind::Selected {
                assert(paragraph_wf(rows[r as int][c as int]));
            }
            let t = cell.children.kind_text(kind);
            let ghost before = Seq::new(row_texts_v@.len(), |i: int| row_texts_v@[i]@);
            assert(cells.subrange(0, c + 1).drop_last() =~= cells.subrange(0, c as int));
            if kind == BlockTextKind::All || t.len() > 0 {
                row_texts_v.push(t);
                assert(Seq::new(row_texts_v@.len(), |i: int| row_texts_v@[i]@) =~= before.push(
                    paragraph_kind_text(cells[c as int], kind),
                ));
            }
            c = c + 1;
        }
        assert(cells.subrange(0, c as int) =~= cells);
        assert(rows.subrange(0, r + 1).drop_last() =~= rows.subrange(0, r as int));
        if row_texts_v.len() > 0 {
            let joined = join_bytes(&row_texts_v, &[32u8]);
            assert((&[32u8])@ =~= seq![32u8]);
            push_bytes(&mut block_text, joined.as_slice());
            block_text.push(10);
        }
        r = r + 1;
        assert(block_text@ =~= table_rows_text(rows.subrange(0, r as int), kind));
    }
    assert(rows.subrange(0, r as int) =~= rows);
    block_text
}

impl BlockNode {
    /// The text of the block, all of it or the selected part.
    pub fn text_by_kind(&self, kind: BlockTextKind) -> (r: Vec<u8>)
        requires
            kind == BlockTextKind::Selected ==> block_wf(self@),
        ensures
            r@ == block_text(self@, kind),
        decreases self,
    {
        let mut text: Vec<u8> = Vec::new();
        match self {
            BlockNode::Root { children, .. } => {
                assert(blocks_view(children@) =~= match self@ {
                    BlockNodeView::Root { children, .. } => children,
                    _ => Seq::empty(),
                });
                let t = Self::children_text(children, kind);
                push_line(&mut text, t.as_slice());
            },
            BlockNode::Paragraph(paragraph) => {
                let t = paragraph.kind_text(kind);
                push_line(&mut text, t.as_slice());
            },
            BlockNode::Heading { children, .. } => {
                let t = children.kind_text(kind);
                push_line(&mut text, t.as_slice());
            },
            BlockNode::List { children, .. } => {
                assert(blocks_view(children@) =~= match self@ {
                    BlockNodeView::List { children, .. } => children,
                    _ => Seq::empty(),
                });
                let t = Self::children_text(children, kind);
                push_bytes(&mut text, t.as_slice());
            },
            BlockNode::ListItem { children, .. } => {
                assert(blocks_view(children@) =~= match self@ {
                    BlockNodeView::ListItem { children, .. } => children,
                    _ => Seq::empty(),
                });
                let t = Self::children_text(children, kind);
                push_bytes(&mut text, t.as_slice());
            },
            BlockNode::Blockquote { children, .. } => {
                assert(blocks_view(children@) =~= match self@ {
                    BlockNodeView::Blockquote { children, .. } => children,
                    _ => Seq::empty(),
                });
                let t = Self::children_text(children, kind);
                push_line(&mut text, t.as_slice());
            },
            BlockNode::Table(table) => {
                let t = table_text(table, kind);
                push_line(&mut text, t.as_slice());
            },
            BlockNode::CodeBlock(code_block) => {
                let t = match kind {
                    BlockTextKind::All => code_block.text(),
                    BlockTextKind::Selected => code_block.selected_text(),
                };
                push_line(&mut text, t.as_slice());
            },
            BlockNode::Math(math) => {
                let t = match kind {
                    BlockTextKind::All => math.markdown_source(),
                    BlockTextKind::Selected => math.selected_text(),
                };
                push_line(&mut text, t.as_slice());
            },
            BlockNode::Definition { .. }
            | BlockNode::Break { .. }
            | BlockNode::HorizontalRule { .. }
            | BlockNode::Unknown => {},
        }
        text
    }

    /// The texts of `children`, concatenated.
    pub fn children_text(children: &Vec<BlockNode>, kind: BlockTextKind) -> (r: Vec<u8>)
        requires
            kind == BlockTextKind::Selected ==> blocks_wf(blocks_view(children@)),
        ensures
            r@ == blocks_text(blocks_view(children@), kind),
        decreases children,
    {
        let ghost bs = blocks_view(children@);
        let mut text: Vec<u8> = Vec::new();
        let mut i: usize = 0;
        while i < children.len()
            invariant
                i <= children@.len(),
                bs == blocks_view(children@),
                kind == BlockTextKind::Selected ==> blocks_wf(bs),
                text@ == blocks_text(bs.subrange(0, i as int), kind),
            decreases children@.len() - i,
        {
            assert(bs.subrange(0, i + 1).drop_last() =~= bs.subrange(0, i as int));
            proof {
                if kind == BlockTextKind::Selected {
                    lemma_blocks_wf_index(bs, i as int);
                }
            }
            let t = children[i].text_by_kind(kind);
            push_bytes(&mut text, t.as_slice());
            i = i + 1;
        }
        assert(bs.subrange(0, i as int) =~= bs);
        text
    }

    /// The plain text of the block.
    pub fn text(&self) -> (r: Vec<u8>)
        ensures
            r@ == block_text(self@, BlockTextKind::All),
    {
        self.text_by_kind(BlockTextKind::All)
    }

    /// The selected text of the block.
    pub fn selected_text(&self) -> (r: Vec<u8>)
        requires
            block_wf(self@),
        ensures
            r@ == block_text(self@, BlockTextKind::Selected),
    {
        self.text_by_kind(BlockTextKind::Selected)
    }
}

/// Each block of a well-formed sequence is well formed, and so is each of its
/// prefixes.
pub proof fn lemma_blocks_wf_index(s: Seq<BlockNodeView>, i: int)
    requires
        blocks_wf(s),
        0 <= i < s.len(),
    ensures
        block_wf(s[i]),
        blocks_wf(s.subrange(0, i)),
    decreases s.len(),
{
    if i == s.len() - 1 {
        assert(s.drop_last() =~= s.subrange(0, i));
    } else {
        lemma_blocks_wf_index(s.drop_last(), i);
        assert(s.drop_last().subrange(0, i) =~= s.subrange(0, i));
    }
}


/// The text of nodes one after the other is their texts one after the other.
pub proof fn lemma_inlines_text_concat(a: Seq<InlineNodeView>, b: Seq<InlineNodeView>)
    ensures
        inlines_text(a + b) == inlines_text(a) + inlines_text(b),
    decreases b.len(),
{
    if b.len() == 0 {
        assert(a + b =~= a);
    } else {
        lemma_inlines_text_concat(a, b.drop_last());
        assert((a + b).drop_last() =~= a + b.drop_last());
    }
}

/// Splitting `s[start..]` at newlines and reading the pieces back gives
/// `s[start..]` again.
proof fn lemma_str_inlines_text(s: Seq<u8>, start: int)
    requires
        0 <= start <= s.len(),
    ensures
        inlines_text(str_inlines(s, start)) == s.subrange(start, s.len() as int),
    decreases s.len() - start,
{
    if start == s.len() {
        assert(s.subrange(start, s.len() as int) =~= Seq::<u8>::empty());
    } else {
        lemma_newline_pos(s, start);
        let k = newline_pos(s, start);
        if k >= s.len() {
            let seg = seq![segment_inline(s.subrange(start, s.len() as int))];
            assert(seg.drop_last() =~= Seq::<InlineNodeView>::empty());
            assert(str_inlines(s, start) == seg);
            assert(inlines_text(seg) =~= inlines_text(seg.drop_last()) + inline_text(seg.last()));
        } else {
            lemma_str_inlines_text(s, k + 1);
            let pre = if start < k {
                seq![segment_inline(s.subrange(start, k))]
            } else {
                Seq::empty()
            };
            let mid = seq![break_inline()];
            lemma_inlines_text_concat(pre + mid, str_inlines(s, k + 1));
            lemma_inlines_text_concat(pre, mid);
            assert(mid.drop_last() =~= Seq::<InlineNodeView>::empty());
            if start < k {
                assert(pre.drop_last() =~= Seq::<InlineNodeView>::empty());
                assert(inlines_text(pre) =~= inlines_text(pre.drop_last()) + inline_text(pre.last()));
            }
            assert(inlines_text(pre) =~= s.subrange(start, k));
            assert(inlines_text(mid) =~= seq![10u8]);
            assert(str_inlines(s, start) == pre + mid + str_inlines(s, k + 1));
            assert(s.subrange(start, s.len() as int) =~= s.subrange(start, k) + seq![10u8] + s.subrange(
                k + 1,
                s.len() as int,
            ));
        }
    }
}

/// A paragraph made from a text reads back as that text: line breaks give
/// back the newlines they were split at.
pub proof fn lemma_paragraph_text_round_trip(s: Seq<u8>)
    ensures
        paragraph_text(ParagraphView { children: str_inlines(s, 0), ..empty_paragraph() }) == s,
{
    lemma_str_inlines_text(s, 0);
    assert(s.subrange(0, s.len() as int) =~= s);
}

} // verus!
