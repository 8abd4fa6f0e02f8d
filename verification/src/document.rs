//! The parsed document, and the options with which its blocks are rendered.

use vstd::prelude::*;

use crate::bytes::push_bytes;
use crate::node::{blocks_view, BlockNode, ColumnAlign};
use crate::serialize::{blocks_markdown, blocks_marks_wf};
use crate::text::{blocks_text, blocks_wf, join, join_bytes, BlockTextKind, lemma_blocks_wf_index};

verus! {

/// The parsed document: its markdown source and its blocks.
#[derive(Debug)]
pub struct ParsedDocument {
    pub source: Vec<u8>,
    pub blocks: Vec<BlockNode>,
}

/// The selected texts of the blocks that have selected text.
pub open spec fn selected_parts(s: Seq<crate::node::BlockNodeView>) -> Seq<Seq<u8>>
    decreases s.len(),
{
    if s.len() == 0 {
        Seq::empty()
    } else {
        let t = crate::text::block_text(s.last(), BlockTextKind::Selected);
        if t.len() > 0 {
            selected_parts(s.drop_last()).push(t)
        } else {
            selected_parts(s.drop_last())
        }
    }
}

impl ParsedDocument {
    /// The plain text of the document.
    pub fn text(&self) -> (r: Vec<u8>)
        ensures
            r@ == blocks_text(blocks_view(self.blocks@), BlockTextKind::All),
    {
        BlockNode::children_text(&self.blocks, BlockTextKind::All)
    }

    /// The selected text of the document: the selected texts of its blocks,
    /// one per line.
    pub fn selected_text(&self) -> (r: Vec<u8>)
        requires
            blocks_wf(blocks_view(self.blocks@)),
        ensures
            r@ == join(selected_parts(blocks_view(self.blocks@)), seq![10u8]),
    {
        let ghost bs = blocks_view(self.blocks@);
        let mut parts: Vec<Vec<u8>> = Vec::new();
        let mut i: usize = 0;
        while i < self.blocks.len()
            invariant
                i <= self.blocks@.len(),
                bs == blocks_view(self.blocks@),
                blocks_wf(bs),
                Seq::new(parts@.len(), |k: int| parts@[k]@) == selected_parts(
                    bs.subrange(0, i as int),
                ),
            decreases self.blocks@.len() - i,
        {
            proof {
                lemma_blocks_wf_index(bs, i as int);
            }
            let t = self.blocks[i].selected_text();
            let ghost before = Seq::new(parts@.len(), |k: int| parts@[k]@);
            assert(bs.subrange(0, i + 1).drop_last() =~= bs.subrange(0, i as int));
            if t.len() > 0 {
                let ghost tv = t@;
                parts.push(t);
                assert(Seq::new(parts@.len(), |k: int| parts@[k]@) =~= before.push(tv));
            }
            i = i + 1;
        }
        assert(bs.subrange(0, i as int) =~= bs);
        let nl: [u8; 1] = [10];
        assert(nl@ =~= seq![10u8]);
        join_bytes(&parts, &nl)
    }

    /// Converts the document back to markdown-like source: the markdown of
    /// its blocks, separated by blank lines.
    pub fn to_markdown(&self) -> (r: Vec<u8>)
        requires
            blocks_marks_wf(blocks_view(self.blocks@)),
        ensures
            r@ == join(blocks_markdown(blocks_view(self.blocks@)), seq![10u8, 10u8]),
    {
        let parts = BlockNode::children_markdown(&self.blocks);
        let nn: [u8; 2] = [10, 10];
        assert(nn@ =~= seq![10u8, 10u8]);
        assert(Seq::new(parts@.len(), |i: int| parts@[i]@) =~= crate::bytes::vecs_view(parts@));
        join_bytes(&parts, &nn)
    }
}

/// The prefix drawn before a list item's first line.
#[derive(Clone, Copy, Debug, PartialEq, Eq, Structural)]
pub enum ListItemPrefix {
    Marker { ix: usize, ordered: bool, depth: usize, visible: bool },
    Todo { checked: bool, visible: bool },
}

/// The prefix with the same shape, not drawn.
pub open spec fn hidden_prefix(p: ListItemPrefix) -> ListItemPrefix {
    match p {
        ListItemPrefix::Marker { ix, ordered, depth, .. } => ListItemPrefix::Marker {
            ix,
            ordered,
            depth,
            visible: false,
        },
        ListItemPrefix::Todo { checked, .. } => ListItemPrefix::Todo { checked, visible: false },
    }
}

impl ListItemPrefix {
    /// The same prefix, taking the same room but not drawn.
    pub fn hidden(self) -> (r: Self)
        ensures
            r == hidden_prefix(self),
    {
        match self {
            Self::Marker { ix, ordered, depth, .. } => Self::Marker {
                ix,
                ordered,
                depth,
                visible: false,
            },
            Self::Todo { checked, .. } => Self::Todo { checked, visible: false },
        }
    }
}

/// Hiding a prefix is idempotent, and it changes nothing but visibility.
pub proof fn lemma_hidden_prefix(p: ListItemPrefix)
    ensures
        hidden_prefix(hidden_prefix(p)) == hidden_prefix(p),
        match (p, hidden_prefix(p)) {
            (
                ListItemPrefix::Marker { ix, ordered, depth, .. },
                ListItemPrefix::Marker { ix: ix2, ordered: o2, depth: d2, visible },
            ) => ix == ix2 && ordered == o2 && depth == d2 && !visible,
            (ListItemPrefix::Todo { checked, .. }, ListItemPrefix::Todo { checked: c2, visible }) =>
                checked == c2 && !visible,
            _ => false,
        },
{
}

/// How a block is rendered.
#[derive(Clone, Copy, Debug, PartialEq, Eq, Structural, Default)]
pub struct NodeRenderOptions {
    pub ix: usize,
    pub in_list: bool,
    pub ordered: bool,
    pub depth: usize,
    pub is_last: bool,
    pub column_align: ColumnAlign,
    pub list_prefix: Option<ListItemPrefix>,
}

impl NodeRenderOptions {
    pub fn is_last(self, is_last: bool) -> (r: Self)
        ensures
            r == (NodeRenderOptions { is_last, ..self }),
    {
        NodeRenderOptions { is_last, ..self }
    }
}

} // verus!
