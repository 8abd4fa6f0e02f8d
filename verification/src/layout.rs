//! The decisions that rendering takes from the document: the numbering of
//! list items, which child of a list item draws the item's prefix, and the
//! relative widths of table columns.

use vstd::prelude::*;

use crate::document::{hidden_prefix, ListItemPrefix, NodeRenderOptions};
use crate::node::ColumnAlign;
use crate::node::{blocks_view, inlines_text_len, BlockNode, BlockNodeView, Table, TableView};

verus! {

/// The number of list items among the first `n` blocks.
pub open spec fn items_before(s: Seq<BlockNodeView>, n: int) -> nat
    decreases n,
{
    if n <= 0 {
        0
    } else {
        items_before(s, n - 1) + if s[n - 1] is ListItem {
            1nat
        } else {
            0nat
        }
    }
}

proof fn lemma_items_before_bound(s: Seq<BlockNodeView>, n: int)
    requires
        0 <= n,
    ensures
        items_before(s, n) <= n,
    decreases n,
{
    if n > 0 {
        lemma_items_before_bound(s, n - 1);
    }
}

/// The number that each child of a list is drawn with: children that are
/// not list items do not advance the count.
pub fn list_item_indices(children: &Vec<BlockNode>) -> (r: Vec<usize>)
    ensures
        r@.len() == children@.len(),
        forall|i: int| 0 <= i < r@.len() ==> #[trigger] r@[i] == items_before(blocks_view(children@), i),
{
    let ghost bs = blocks_view(children@);
    let mut out: Vec<usize> = Vec::new();
    let mut item_index: usize = 0;
    let mut i: usize = 0;
    while i < children.len()
        invariant
            i <= children@.len(),
            bs == blocks_view(children@),
            out@.len() == i,
            item_index == items_before(bs, i as int),
            forall|k: int| 0 <= k < i ==> #[trigger] out@[k] == items_before(bs, k),
        decreases children@.len() - i,
    {
        proof {
            lemma_items_before_bound(bs, i as int);
        }
        out.push(item_index);
        assert(bs[i as int] == children@[i as int]@);
        if children[i].is_list_item() {
            item_index = item_index + 1;
        }
        i = i + 1;
    }
    out
}

/// Where a child of a list item draws the item's prefix: on a line of its
/// own before the child, or at the start of the child's first line.
#[derive(Clone, Copy, Debug, PartialEq, Eq, Structural)]
pub struct ChildPrefix {
    pub line_before: Option<ListItemPrefix>,
    pub prefix: Option<ListItemPrefix>,
}

/// The prefix of a list item: its checkbox when it has one, else its marker.
pub open spec fn item_prefix(checked: Option<bool>, ix: usize, ordered: bool, depth: usize) -> ListItemPrefix {
    match checked {
        Some(c) => ListItemPrefix::Todo { checked: c, visible: true },
        None => ListItemPrefix::Marker { ix, ordered, depth, visible: true },
    }
}

/// Whether a block is drawn below the prefix, indented, rather than beside
/// it: nested lists, code, tables, quotes and rules.
pub open spec fn drawn_below(b: BlockNodeView) -> bool {
    b is List || b is CodeBlock || b is Table || b is Blockquote || b is HorizontalRule
}

/// The prefixes of the first `n` children of a list item with prefix `p`:
/// the first child draws `p` (on a line of its own when it is drawn below);
/// later children beside the prefix get its hidden form, so that they line
/// up; later children drawn below get nothing.
pub open spec fn child_prefixes(s: Seq<BlockNodeView>, p: ListItemPrefix, n: int) -> Seq<ChildPrefix>
    decreases n,
{
    if n <= 0 {
        Seq::empty()
    } else {
        let first = n == 1;
        let c = if drawn_below(s[n - 1]) {
            ChildPrefix { line_before: if first { Some(p) } else { None }, prefix: None }
        } else {
            ChildPrefix { line_before: None, prefix: Some(if first { p } else { hidden_prefix(p) }) }
        };
        child_prefixes(s, p, n - 1).push(c)
    }
}

/// Whether `q` is the prefix of a list item with checkbox state `checked`,
/// number `ix`, kind `ordered` and depth `depth`, drawn or not as `visible`
/// says: the item's own checkbox when it has one, else its marker.
pub open spec fn shows_item(q: ListItemPrefix, checked: Option<bool>, ix: usize, ordered: bool, depth: usize, visible: bool) -> bool {
    match checked {
        Some(c) => q == ListItemPrefix::Todo { checked: c, visible },
        None => q == ListItemPrefix::Marker { ix, ordered, depth, visible },
    }
}

/// Whether `q`, when there is one, is the prefix of the item (see
/// [`shows_item`]).
pub open spec fn opt_shows_item(q: Option<ListItemPrefix>, checked: Option<bool>, ix: usize, ordered: bool, depth: usize, visible: bool) -> bool {
    match q {
        Some(q) => shows_item(q, checked, ix, ordered, depth, visible),
        None => true,
    }
}

/// Whether the prefixes of the children of a list item show the item: the
/// first child draws it, beside it or on a line before it, and each prefix
/// any child holds is the item's, drawn only for the first child.
pub open spec fn prefixes_show_item(cp: Seq<ChildPrefix>, checked: Option<bool>, ix: usize, ordered: bool, depth: usize) -> bool {
    &&& cp.len() > 0 ==> (cp[0].line_before is Some || cp[0].prefix is Some)
    &&& forall|j: int|
        0 <= j < cp.len() ==> opt_shows_item((#[trigger] cp[j]).line_before, checked, ix, ordered, depth, j == 0)
            && opt_shows_item(cp[j].prefix, checked, ix, ordered, depth, j == 0)
}

/// What the children of a list item draw shows the item's own state: the
/// first child draws the item's checkbox (checked as the item is) or, when
/// it has none, its marker, either beside it or on a line before it; every
/// other prefix a child holds is the same one, hidden.
pub proof fn lemma_child_prefixes_show_item(
    s: Seq<BlockNodeView>,
    checked: Option<bool>,
    ix: usize,
    ordered: bool,
    depth: usize,
    n: int,
)
    requires
        0 <= n <= s.len(),
    ensures
        child_prefixes(s, item_prefix(checked, ix, ordered, depth), n).len() == n,
        prefixes_show_item(child_prefixes(s, item_prefix(checked, ix, ordered, depth), n), checked, ix, ordered, depth),
    decreases n,
{
    if n > 0 {
        lemma_child_prefixes_show_item(s, checked, ix, ordered, depth, n - 1);
        let p = item_prefix(checked, ix, ordered, depth);
        let prev = child_prefixes(s, p, n - 1);
        let cp = child_prefixes(s, p, n);
        assert(cp.drop_last() =~= prev);
        assert forall|j: int| 0 <= j < n - 1 implies #[trigger] cp[j] == prev[j] by {}
    }
}

/// The prefixes that the children of a list item draw (see
/// [`child_prefixes`]).
pub fn list_item_child_prefixes(
    checked: Option<bool>,
    ix: usize,
    ordered: bool,
    depth: usize,
    children: &Vec<BlockNode>,
) -> (r: Vec<ChildPrefix>)
    ensures
        r@ == child_prefixes(
            blocks_view(children@),
            item_prefix(checked, ix, ordered, depth),
            children@.len() as int,
        ),
{
    let ghost bs = blocks_view(children@);
    let prefix = match checked {
        Some(c) => ListItemPrefix::Todo { checked: c, visible: true },
        None => ListItemPrefix::Marker { ix, ordered, depth, visible: true },
    };
    let indent = prefix.hidden();
    let mut list_prefix = Some(prefix);
    let mut out: Vec<ChildPrefix> = Vec::new();
    let mut i: usize = 0;
    while i < children.len()
        invariant
            i <= children@.len(),
            bs == blocks_view(children@),
            prefix == item_prefix(checked, ix, ordered, depth),
            indent == hidden_prefix(prefix),
            list_prefix == (if i == 0 { Some(prefix) } else { None::<ListItemPrefix> }),
            out@ == child_prefixes(bs, prefix, i as int),
        decreases children@.len() - i,
    {
        assert(bs[i as int] == children@[i as int]@);
        let below = match &children[i] {
            BlockNode::List { .. } | BlockNode::CodeBlock(_) | BlockNode::Table(_)
            | BlockNode::Blockquote { .. } | BlockNode::HorizontalRule { .. } => true,
            _ => false,
        };
        let taken = list_prefix.take();
        let c = if below {
            ChildPrefix { line_before: taken, prefix: None }
        } else {
            ChildPrefix {
                line_before: None,
                prefix: match taken {
                    Some(p) => Some(p),
                    None => Some(indent),
                },
            }
        };
        out.push(c);
        i = i + 1;
    }
    out
}

/// Whether exactly one child draws the visible prefix, and it is the first.
pub open spec fn only_first_shows_prefix(r: Seq<ChildPrefix>, p: ListItemPrefix) -> bool {
    &&& r.len() > 0 ==> (r[0].line_before == Some(p) || r[0].prefix == Some(p))
    &&& forall|i: int| 1 <= i < r.len() ==> (#[trigger] r[i]).line_before is None && (r[i].prefix is None
        || r[i].prefix == Some(hidden_prefix(p)))
}

/// A list item's prefix is drawn once, by its first child; every later child
/// drawn beside it takes the prefix's room without drawing it.
pub proof fn lemma_prefix_drawn_once(s: Seq<BlockNodeView>, p: ListItemPrefix, n: int)
    requires
        0 <= n <= s.len(),
    ensures
        child_prefixes(s, p, n).len() == n,
        only_first_shows_prefix(child_prefixes(s, p, n), p),
    decreases n,
{
    if n > 0 {
        lemma_prefix_drawn_once(s, p, n - 1);
        let r = child_prefixes(s, p, n);
        assert forall|i: int| 1 <= i < r.len() implies (#[trigger] r[i]).line_before is None && (
        r[i].prefix is None || r[i].prefix == Some(hidden_prefix(p))) by {
            if i < n - 1 {
                assert(r[i] == child_prefixes(s, p, n - 1)[i]);
            }
        }
        if n > 1 {
            assert(r[0] == child_prefixes(s, p, n - 1)[0]);
        }
    }
}

/// The widest text of each column so far, after one more row with the given
/// text lengths: each column is at least 5 wide.
pub open spec fn widened(cols: Seq<usize>, row: Seq<nat>) -> Seq<usize> {
    let n = if cols.len() >= row.len() {
        cols.len()
    } else {
        row.len()
    };
    Seq::new(
        n,
        |ix: int|
            {
                let c: nat = if ix < cols.len() {
                    cols[ix] as nat
                } else {
                    5
                };
                let t: nat = if ix < row.len() {
                    row[ix]
                } else {
                    0
                };
                (if c >= t {
                    c
                } else {
                    t
                }) as usize
            },
    )
}

/// The text lengths of the cells of a row.
pub open spec fn row_text_lens(row: Seq<crate::node::ParagraphView>) -> Seq<nat> {
    Seq::new(row.len(), |i: int| inlines_text_len(row[i].children))
}

/// The width of each column over the first `n` rows: the longest text of
/// its cells, and at least 5.
pub open spec fn column_lengths(rows: Seq<Seq<crate::node::ParagraphView>>, n: int) -> Seq<usize>
    decreases n,
{
    if n <= 0 {
        Seq::empty()
    } else {
        widened(column_lengths(rows, n - 1), row_text_lens(rows[n - 1]))
    }
}

/// Every cell's text length fits in a `usize`.
pub open spec fn cell_lens_fit(t: TableView) -> bool {
    forall|r: int, c: int|
        0 <= r < t.rows.len() && 0 <= c < t.rows[r].len() ==> inlines_text_len(
            #[trigger] t.rows[r][c].children,
        ) <= usize::MAX
}

impl Table {
    /// The width of each column, in characters of its longest text (see
    /// [`column_lengths`]).
    pub fn column_lengths(&self) -> (r: Vec<usize>)
        requires
            cell_lens_fit(self@),
        ensures
            r@ == column_lengths(self@.rows, self@.rows.len() as int),
    {
        let ghost rows = self@.rows;
        let mut col_lens: Vec<usize> = Vec::new();
        let mut r: usize = 0;
        while r < self.children.len()
            invariant
                r <= self.children@.len(),
                rows == self@.rows,
                cell_lens_fit(self@),
                col_lens@ == column_lengths(rows, r as int),
            decreases self.children@.len() - r,
        {
            let row = &self.children[r];
            assert(rows[r as int] == crate::node::row_view(*row));
            let ghost before = col_lens@;
            let ghost lens = row_text_lens(rows[r as int]);
            let mut ix: usize = 0;
            while ix < row.children.len()
                invariant
                    ix <= row.children@.len(),
                    rows == self@.rows,
                    rows[r as int] == crate::node::row_view(*row),
                    lens == row_text_lens(rows[r as int]),
                    cell_lens_fit(self@),
                    r < rows.len(),
                    col_lens@ == widened(before, lens.subrange(0, ix as int)),
                decreases row.children@.len() - ix,
            {
                assert(rows[r as int][ix as int] == row.children@[ix as int].children@);
                assert(inlines_text_len(rows[r as int][ix as int].children) <= usize::MAX);
                let len = row.children[ix].children.text_len();
                let ghost cols0 = col_lens@;
                if col_lens.len() <= ix {
                    col_lens.push(5);
                }
                if len > col_lens[ix] {
                    col_lens.set(ix, len);
                }
                ix = ix + 1;
                assert(col_lens@ =~= widened(before, lens.subrange(0, ix as int)));
            }
            assert(lens.subrange(0, ix as int) =~= lens);
            r = r + 1;
        }
        col_lens
    }
}

/// The relative width that column `ix` is drawn with: its length, at most
/// 150; columns without a length take 150.
pub fn column_width(col_lens: &Vec<usize>, ix: usize) -> (r: usize)
    ensures
        r == (if ix < col_lens@.len() && col_lens@[ix as int] < 150 {
            col_lens@[ix as int]
        } else {
            150
        }),
{
    if ix < col_lens.len() && col_lens[ix] < 150 {
        col_lens[ix]
    } else {
        150
    }
}


/// The options a list's child at `ix` is rendered with: its index, and
/// whether the list is ordered.
pub fn list_item_options(options: NodeRenderOptions, ix: usize, ordered: bool) -> (r: NodeRenderOptions)
    ensures
        r == (NodeRenderOptions { ix, ordered, ..options }),
{
    NodeRenderOptions { ix, ordered, ..options }
}

/// The options a child of a list item is rendered with: one level deeper, in
/// a list, as the last block, with the prefix that the child draws at the
/// start of its first line (none for a child drawn below the prefix).
pub fn list_item_child_options(options: NodeRenderOptions, child: ChildPrefix) -> (r: NodeRenderOptions)
    requires
        options.depth < usize::MAX,
    ensures
        r == (NodeRenderOptions {
            depth: (options.depth + 1) as usize,
            in_list: true,
            is_last: true,
            list_prefix: child.prefix,
            ..options
        }),
{
    NodeRenderOptions {
        depth: options.depth + 1,
        in_list: true,
        is_last: true,
        list_prefix: child.prefix,
        ..options
    }
}

/// The options the cell in column `ix` of a table is rendered with: the
/// column's alignment (left when the table gives none), and no list prefix.
pub fn table_cell_options(options: NodeRenderOptions, table: &Table, ix: usize) -> (r: NodeRenderOptions)
    ensures
        r == (NodeRenderOptions {
            column_align: if ix < table@.column_aligns.len() {
                table@.column_aligns[ix as int]
            } else {
                ColumnAlign::Left
            },
            list_prefix: None,
            ..options
        }),
{
    NodeRenderOptions { column_align: table.column_align(ix), list_prefix: None, ..options }
}


/// The options the block at `ix` of a document of `len` blocks is rendered
/// with: its index, and whether it is the last block; nothing else set.
pub fn document_block_options(ix: usize, len: usize) -> (r: NodeRenderOptions)
    requires
        ix < len,
    ensures
        r == (NodeRenderOptions {
            ix,
            in_list: false,
            ordered: false,
            depth: 0,
            is_last: ix + 1 == len,
            column_align: ColumnAlign::Left,
            list_prefix: None,
        }),
{
    NodeRenderOptions {
        ix,
        in_list: false,
        ordered: false,
        depth: 0,
        is_last: ix + 1 == len,
        column_align: ColumnAlign::Left,
        list_prefix: None,
    }
}

/// The options the child at `ix` of a container block is rendered with: its
/// index, the rest as the container's.
pub fn root_child_options(options: NodeRenderOptions, ix: usize) -> (r: NodeRenderOptions)
    ensures
        r == (NodeRenderOptions { ix, ..options }),
{
    NodeRenderOptions { ix, ..options }
}

/// The options the child at `index` of a quote of `len` blocks is rendered
/// with: whether it is the quote's last block, and no list prefix.
pub fn blockquote_child_options(options: NodeRenderOptions, index: usize, len: usize) -> (r: NodeRenderOptions)
    requires
        index < len,
    ensures
        r == (NodeRenderOptions { is_last: index == len - 1, list_prefix: None, ..options }),
{
    NodeRenderOptions { list_prefix: None, ..options.is_last(index == len - 1) }
}

} // verus!
