//! Inline text state and the pure parts of inline layout: highlight ranges,
//! segment splitting, and selection ranges.

use vstd::prelude::*;

use core::ops::Range;

use crate::bytes::{char_boundary, copy_bytes, lemma_newline_pos, newline_pos, slice_to_vec};
use crate::node::{
    lookup_ref, opt_link_view, InlineNode, InlineNodeView, LinkMark, LinkMarkView, MarkView,
    NodeContext, TextMark, TextMarkView,
};

verus! {

/// A byte range of selected text.
#[derive(Clone, Copy, Debug, PartialEq, Eq, Structural)]
pub struct Selection {
    pub start: usize,
    pub end: usize,
}

/// The inline text state: the text that is actually rendered, and which part
/// of it is selected.
#[derive(Clone, Debug)]
pub struct InlineState {
    pub text: Vec<u8>,
    pub selection: Option<Selection>,
}

/// The contents of an [`InlineState`].
pub struct InlineStateView {
    pub text: Seq<u8>,
    pub selection: Option<Selection>,
}

impl View for InlineState {
    type V = InlineStateView;

    open spec fn view(&self) -> InlineStateView {
        InlineStateView { text: self.text@, selection: self.selection }
    }
}

/// A selection lies within the text, on character boundaries.
pub open spec fn state_wf(st: InlineStateView) -> bool {
    match st.selection {
        Some(sel) => sel.start <= sel.end <= st.text.len() && char_boundary(st.text, sel.start as int)
            && char_boundary(st.text, sel.end as int),
        None => true,
    }
}

/// The selected part of the state's text; empty when nothing is selected.
pub open spec fn state_selected(st: InlineStateView) -> Seq<u8> {
    match st.selection {
        Some(sel) => st.text.subrange(sel.start as int, sel.end as int),
        None => Seq::empty(),
    }
}

impl InlineState {
    /// An empty state with nothing selected.
    pub fn new() -> (r: Self)
        ensures
            r@.text == Seq::<u8>::empty(),
            r@.selection is None,
    {
        InlineState { text: Vec::new(), selection: None }
    }

    /// Save actually rendered text for selected text to use.
    pub fn set_text(&mut self, text: Vec<u8>)
        ensures
            final(self)@.text == text@,
            final(self)@.selection == old(self)@.selection,
    {
        self.text = text;
    }

    /// The selected part of the text.
    pub fn selected(&self) -> (r: Vec<u8>)
        requires
            state_wf(self@),
        ensures
            r@ == state_selected(self@),
    {
        match self.selection {
            Some(sel) => slice_to_vec(self.text.as_slice(), sel.start, sel.end),
            None => Vec::new(),
        }
    }

    /// A copy of this state.
    pub fn duplicate(&self) -> (r: Self)
        ensures
            r@ == self@,
    {
        InlineState { text: copy_bytes(&self.text), selection: self.selection }
    }
}

/// The link of a mark, with a reference link replaced by its definition when
/// the context has one.
pub open spec fn resolved_link(m: TextMarkView, refs: Seq<(Seq<u8>, LinkMarkView)>) -> Option<LinkMarkView> {
    match m.link {
        None => None,
        Some(l) => match l.identifier {
            Some(id) => match lookup_ref(refs, id) {
                Some(d) => Some(d),
                None => Some(l),
            },
            None => Some(l),
        },
    }
}

/// The resolved link of the first mark of `marks` from `i` on that has one.
pub open spec fn first_resolved_link(
    marks: Seq<MarkView>,
    refs: Seq<(Seq<u8>, LinkMarkView)>,
    i: int,
) -> Option<LinkMarkView>
    decreases marks.len() - i,
{
    if i < 0 || i >= marks.len() {
        None
    } else if resolved_link(marks[i].1, refs) is Some {
        resolved_link(marks[i].1, refs)
    } else {
        first_resolved_link(marks, refs, i + 1)
    }
}

/// The link of a mark, resolved against the context's definitions.
pub fn resolved_link_mark(style: &TextMark, node_cx: &NodeContext) -> (r: Option<LinkMark>)
    ensures
        opt_link_view(r) == resolved_link(style@, node_cx@.link_refs),
{
    let link = match &style.link {
        Some(l) => l,
        None => return None,
    };
    if let Some(identifier) = &link.identifier {
        if let Some(mark) = node_cx.get_ref(identifier.as_slice()) {
            return Some(mark.duplicate());
        }
    }
    Some(link.duplicate())
}

/// The resolved link of the first of the node's marks that has one.
pub fn inline_node_link(node: &InlineNode, node_cx: &NodeContext) -> (r: Option<LinkMark>)
    ensures
        opt_link_view(r) == first_resolved_link(node@.marks, node_cx@.link_refs, 0),
{
    let mut i: usize = 0;
    while i < node.marks.len()
        invariant
            i <= node.marks@.len(),
            first_resolved_link(node@.marks, node_cx@.link_refs, 0) == first_resolved_link(
                node@.marks,
                node_cx@.link_refs,
                i as int,
            ),
        decreases node.marks@.len() - i,
    {
        assert(node@.marks[i as int].1 == node.marks@[i as int].1@);
        let r = resolved_link_mark(&node.marks[i].1, node_cx);
        if r.is_some() {
            return r;
        }
        i = i + 1;
    }
    None
}


/// The styles that a mark gives its text when drawn: a resolved link is
/// drawn in the link color and underlined.
#[derive(Clone, Copy, Debug, PartialEq, Eq, Structural)]
pub struct InlineHighlight {
    pub bold: bool,
    pub italic: bool,
    pub strikethrough: bool,
    pub underline: bool,
    /// Drawn on the code background.
    pub code: bool,
    /// Drawn in the link color.
    pub link: bool,
}

/// The highlight of a mark whose link resolves (or not) to a link.
pub open spec fn highlight_of(m: TextMarkView, linked: bool) -> InlineHighlight {
    InlineHighlight {
        bold: m.bold,
        italic: m.italic,
        strikethrough: m.strikethrough,
        underline: m.underline || linked,
        code: m.code,
        link: linked,
    }
}

/// The part of `r` inside `within`, when it is not empty.
pub open spec fn clipped(r: Range<usize>, within: Range<usize>) -> Option<(usize, usize)> {
    let start = if r.start >= within.start {
        r.start
    } else {
        within.start
    };
    let end = if r.end <= within.end {
        r.end
    } else {
        within.end
    };
    if start < end {
        Some((start, end))
    } else {
        None
    }
}

/// The highlights and links of the node's first `n` marks within
/// `text_range`, their ranges taken relative to the start of `text_range`
/// and moved by `offset`.
pub open spec fn styles_for_range(
    marks: Seq<MarkView>,
    text_range: Range<usize>,
    offset: usize,
    refs: Seq<(Seq<u8>, LinkMarkView)>,
    n: int,
) -> (Seq<(Range<usize>, InlineHighlight)>, Seq<(Range<usize>, LinkMarkView)>)
    decreases n,
{
    if n <= 0 {
        (Seq::empty(), Seq::empty())
    } else {
        let prev = styles_for_range(marks, text_range, offset, refs, n - 1);
        let (range, style) = marks[n - 1];
        match clipped(range, text_range) {
            None => prev,
            Some((start, end)) => {
                let inner = Range {
                    start: (offset + start - text_range.start) as usize,
                    end: (offset + end - text_range.start) as usize,
                };
                let link = resolved_link(style, refs);
                (
                    prev.0.push((inner, highlight_of(style, link is Some))),
                    match link {
                        Some(l) => prev.1.push((inner, l)),
                        None => prev.1,
                    },
                )
            },
        }
    }
}

/// The indices, in order, of those of the first `n` marks whose ranges reach
/// into `text_range`.
pub open spec fn marks_within(marks: Seq<MarkView>, text_range: Range<usize>, n: int) -> Seq<int>
    decreases n,
{
    if n <= 0 {
        Seq::empty()
    } else if clipped(marks[n - 1].0, text_range) is Some {
        marks_within(marks, text_range, n - 1).push(n - 1)
    } else {
        marks_within(marks, text_range, n - 1)
    }
}

/// Whether a highlight keeps the style of a mark: the same bold, italic,
/// strikethrough and code flags, underlined when the mark is or when it is
/// drawn as a link.
pub open spec fn keeps_style(h: InlineHighlight, m: TextMarkView) -> bool {
    &&& h.bold == m.bold
    &&& h.italic == m.italic
    &&& h.strikethrough == m.strikethrough
    &&& h.code == m.code
    &&& h.underline == (m.underline || h.link)
}

/// Whether `r` is the part of `mark` inside `text_range`, taken relative to
/// the start of `text_range` and moved by `offset`.
pub open spec fn placed_at(r: Range<usize>, mark: Range<usize>, text_range: Range<usize>, offset: usize) -> bool {
    let start = if mark.start >= text_range.start { mark.start } else { text_range.start };
    let end = if mark.end <= text_range.end { mark.end } else { text_range.end };
    &&& start < end
    &&& r.start == offset + start - text_range.start
    &&& r.end == offset + end - text_range.start
}

/// Whether the highlights `hs` come one from each mark of `marks` indexed by
/// `ix`, in order, each over the mark's part of the range and keeping its
/// style.
pub open spec fn highlights_follow(
    hs: Seq<(Range<usize>, InlineHighlight)>,
    ix: Seq<int>,
    marks: Seq<MarkView>,
    text_range: Range<usize>,
    offset: usize,
) -> bool {
    &&& hs.len() == ix.len()
    &&& forall|j: int|
        0 <= j < hs.len() ==> 0 <= #[trigger] ix[j] < marks.len() && keeps_style(hs[j].1, marks[ix[j]].1)
            && placed_at(hs[j].0, marks[ix[j]].0, text_range, offset)
}

/// Each mark that reaches into the range gives one highlight, in order, over
/// the mark's part of the range, and the highlight keeps the mark's style
/// (see [`keeps_style`]).
pub proof fn lemma_highlights_keep_mark_styles(
    marks: Seq<MarkView>,
    text_range: Range<usize>,
    offset: usize,
    refs: Seq<(Seq<u8>, LinkMarkView)>,
    n: int,
)
    requires
        0 <= n <= marks.len(),
        forall|k: int|
            0 <= k < n ==> (#[trigger] clipped(marks[k].0, text_range) matches Some((s, e)) ==> offset + e
                <= usize::MAX),
    ensures
        highlights_follow(
            styles_for_range(marks, text_range, offset, refs, n).0,
            marks_within(marks, text_range, n),
            marks,
            text_range,
            offset,
        ),
    decreases n,
{
    if n > 0 {
        lemma_highlights_keep_mark_styles(marks, text_range, offset, refs, n - 1);
        let prev = styles_for_range(marks, text_range, offset, refs, n - 1).0;
        let pix = marks_within(marks, text_range, n - 1);
        let hs = styles_for_range(marks, text_range, offset, refs, n).0;
        let ix = marks_within(marks, text_range, n);
        if clipped(marks[n - 1].0, text_range) is Some {
            assert forall|j: int| 0 <= j < hs.len() implies 0 <= #[trigger] ix[j] < marks.len() && keeps_style(
                hs[j].1,
                marks[ix[j]].1,
            ) && placed_at(hs[j].0, marks[ix[j]].0, text_range, offset) by {
                if j < hs.len() - 1 {
                    assert(hs[j] == prev[j]);
                    assert(ix[j] == pix[j]);
                } else {
                    assert(clipped(marks[n - 1].0, text_range) is Some);
                    let link = resolved_link(marks[n - 1].1, refs);
                    assert(hs[j].1 == highlight_of(marks[n - 1].1, link is Some));
                    assert(ix[j] == n - 1);
                }
            }
        } else {
            assert(hs == prev);
            assert(ix == pix);
        }
    }
}

/// The views of a sequence of ranged links.
pub open spec fn ranged_links_view(s: Seq<(Range<usize>, LinkMark)>) -> Seq<(Range<usize>, LinkMarkView)> {
    Seq::new(s.len(), |i: int| (s[i].0, s[i].1@))
}

/// The highlights and links of the node's marks within `text_range`, placed
/// at `offset` (see [`styles_for_range`]).
pub fn inline_node_styles_for_range(
    node: &InlineNode,
    text_range: Range<usize>,
    offset: usize,
    node_cx: &NodeContext,
) -> (r: (Vec<(Range<usize>, InlineHighlight)>, Vec<(Range<usize>, LinkMark)>))
    requires
        forall|k: int|
            0 <= k < node@.marks.len() ==> (#[trigger] clipped(node@.marks[k].0, text_range) matches Some(
                (s, e),
            ) ==> offset + e <= usize::MAX),
    ensures
        (r.0@, ranged_links_view(r.1@)) == styles_for_range(
            node@.marks,
            text_range,
            offset,
            node_cx@.link_refs,
            node@.marks.len() as int,
        ),
{
    let ghost marks = node@.marks;
    let ghost refs = node_cx@.link_refs;
    let mut highlights: Vec<(Range<usize>, InlineHighlight)> = Vec::new();
    let mut links: Vec<(Range<usize>, LinkMark)> = Vec::new();
    let mut k: usize = 0;
    while k < node.marks.len()
        invariant
            k <= marks.len(),
            marks == node@.marks,
            refs == node_cx@.link_refs,
            forall|j: int|
                0 <= j < marks.len() ==> (#[trigger] clipped(marks[j].0, text_range) matches Some(
                    (s, e),
                ) ==> offset + e <= usize::MAX),
            (highlights@, ranged_links_view(links@)) == styles_for_range(marks, text_range, offset, refs, k as int),
        decreases marks.len() - k,
    {
        let (range, style) = &node.marks[k];
        assert(marks[k as int] == (*range, style@));
        let start = if range.start >= text_range.start {
            range.start
        } else {
            text_range.start
        };
        let end = if range.end <= text_range.end {
            range.end
        } else {
            text_range.end
        };
        if start < end {
            assert(clipped(marks[k as int].0, text_range) == Some((start, end)));
            let inner = (offset + start - text_range.start)..(offset + end - text_range.start);
            let link = resolved_link_mark(style, node_cx);
            let linked = link.is_some();
            let highlight = InlineHighlight {
                bold: style.bold,
                italic: style.italic,
                strikethrough: style.strikethrough,
                underline: style.underline || linked,
                code: style.code,
                link: linked,
            };
            let ghost lb = ranged_links_view(links@);
            match link {
                Some(l) => {
                    let ghost lv = l@;
                    links.push((inner.start..inner.end, l));
                    assert(ranged_links_view(links@) =~= lb.push((inner, lv)));
                },
                None => {},
            }
            highlights.push((inner, highlight));
        }
        k = k + 1;
    }
    (highlights, links)
}

/// A piece of a paragraph's text between line breaks, with the highlights
/// that fall in it.
pub struct InlineTextSegment<H> {
    pub text: Vec<u8>,
    /// Where the piece starts in the paragraph's text.
    pub source_offset: usize,
    /// The links of the piece; none are attached when it is cut.
    pub links: Vec<(Range<usize>, LinkMark)>,
    /// The highlights, with ranges relative to the piece.
    pub highlights: Vec<(Range<usize>, H)>,
}

/// The contents of an [`InlineTextSegment`].
pub struct InlineTextSegmentView<H> {
    pub text: Seq<u8>,
    pub source_offset: usize,
    pub links: Seq<(Range<usize>, LinkMarkView)>,
    pub highlights: Seq<(Range<usize>, H)>,
}

impl<H> View for InlineTextSegment<H> {
    type V = InlineTextSegmentView<H>;

    open spec fn view(&self) -> InlineTextSegmentView<H> {
        InlineTextSegmentView {
            text: self.text@,
            source_offset: self.source_offset,
            links: ranged_links_view(self.links@),
            highlights: self.highlights@,
        }
    }
}

/// The first `n` highlights clipped to `range` and made relative to its
/// start; those outside it are dropped.
pub open spec fn clipped_highlights<H>(hs: Seq<(Range<usize>, H)>, range: Range<usize>, n: int) -> Seq<(Range<usize>, H)>
    decreases n,
{
    if n <= 0 {
        Seq::empty()
    } else {
        let prev = clipped_highlights(hs, range, n - 1);
        match clipped(hs[n - 1].0, range) {
            Some((s, e)) => prev.push(
                (Range { start: (s - range.start) as usize, end: (e - range.start) as usize }, hs[n - 1].1),
            ),
            None => prev,
        }
    }
}

/// The piece of `text` in `start..end`, with the highlights that fall in it.
pub open spec fn segment_of<H>(text: Seq<u8>, start: int, end: int, hs: Seq<(Range<usize>, H)>) -> InlineTextSegmentView<H> {
    InlineTextSegmentView {
        text: text.subrange(start, end),
        source_offset: start as usize,
        links: Seq::empty(),
        highlights: clipped_highlights(hs, Range { start: start as usize, end: end as usize }, hs.len() as int),
    }
}

/// Cuts the piece `range` out of the text, with the highlights that fall in
/// it.
pub fn paragraph_inline_text_segment<H: Copy>(
    source_text: &[u8],
    range: Range<usize>,
    highlights: &[(Range<usize>, H)],
) -> (r: InlineTextSegment<H>)
    requires
        range.start <= range.end <= source_text@.len(),
        char_boundary(source_text@, range.start as int),
        char_boundary(source_text@, range.end as int),
    ensures
        r@ == segment_of(source_text@, range.start as int, range.end as int, highlights@),
{
    let text = slice_to_vec(source_text, range.start, range.end);
    let mut out: Vec<(Range<usize>, H)> = Vec::new();
    let mut k: usize = 0;
    while k < highlights.len()
        invariant
            k <= highlights@.len(),
            range.start <= range.end,
            out@ == clipped_highlights(highlights@, range, k as int),
        decreases highlights@.len() - k,
    {
        let hr = highlights[k].0.start..highlights[k].0.end;
        let h = highlights[k].1;
        let start = if hr.start >= range.start {
            hr.start
        } else {
            range.start
        };
        let end = if hr.end <= range.end {
            hr.end
        } else {
            range.end
        };
        if start < end {
            out.push(((start - range.start)..(end - range.start), h));
        }
        k = k + 1;
    }
    let r = InlineTextSegment { text, source_offset: range.start, links: Vec::new(), highlights: out };
    assert(r@.links =~= Seq::<(Range<usize>, LinkMarkView)>::empty());
    assert(Range { start: range.start as int as usize, end: range.end as int as usize } == range);
    r
}

/// An item of a paragraph's inline flow: a piece of text, or a line break.
pub enum InlineTextItem<H> {
    Text(InlineTextSegment<H>),
    Break,
}

/// The contents of an [`InlineTextItem`].
pub enum InlineTextItemView<H> {
    Text(InlineTextSegmentView<H>),
    Break,
}

/// The views of a sequence of items.
pub open spec fn items_view<H>(s: Seq<InlineTextItem<H>>) -> Seq<InlineTextItemView<H>> {
    Seq::new(
        s.len(),
        |i: int|
            match s[i] {
                InlineTextItem::Text(seg) => InlineTextItemView::Text(seg@),
                InlineTextItem::Break => InlineTextItemView::Break,
            },
    )
}

/// The items of `text[start..]`: the text between newlines as pieces (none
/// for empty ones), and a break for each newline.
pub open spec fn text_items<H>(text: Seq<u8>, hs: Seq<(Range<usize>, H)>, start: int) -> Seq<InlineTextItemView<H>>
    decreases text.len() - start,
{
    if start < 0 || start >= text.len() {
        Seq::empty()
    } else {
        let k = newline_pos(text, start);
        proof {
            lemma_newline_pos(text, start);
        }
        if k >= text.len() {
            seq![InlineTextItemView::Text(segment_of(text, start, text.len() as int, hs))]
        } else {
            (if start < k {
                seq![InlineTextItemView::Text(segment_of(text, start, k, hs))]
            } else {
                Seq::empty()
            }) + seq![InlineTextItemView::Break] + text_items(text, hs, k + 1)
        }
    }
}

/// Every byte that follows a newline starts a character (as in any UTF-8
/// text).
pub open spec fn lines_start_on_boundaries(text: Seq<u8>) -> bool {
    forall|i: int| 0 <= i < text.len() && text[i] == 10 ==> char_boundary(text, #[trigger] (i + 1))
}

/// Splits the text at newlines into pieces with their highlights and line
/// breaks (see [`text_items`]).
pub fn paragraph_inline_highlighted_text_items<H: Copy>(
    text: &[u8],
    highlights: &[(Range<usize>, H)],
) -> (r: Vec<InlineTextItem<H>>)
    requires
        lines_start_on_boundaries(text@),
    ensures
        items_view(r@) == text_items(text@, highlights@, 0),
{
    let ghost t = text@;
    let mut items: Vec<InlineTextItem<H>> = Vec::new();
    let mut start: usize = 0;
    let mut ix: usize = 0;
    while ix < text.len()
        invariant
            start <= ix <= t.len(),
            t == text@,
            lines_start_on_boundaries(t),
            char_boundary(t, start as int),
            newline_pos(t, start as int) == newline_pos(t, ix as int),
            items_view(items@) + text_items(t, highlights@, start as int) == text_items(t, highlights@, 0),
        decreases t.len() - ix,
    {
        if text[ix] == 10 {
            proof {
                lemma_newline_pos(t, start as int);
            }
            let ghost before = items_view(items@);
            if start < ix {
                let seg = paragraph_inline_text_segment(text, start..ix, highlights);
                items.push(InlineTextItem::Text(seg));
            }
            items.push(InlineTextItem::Break);
            assert(items_view(items@) =~= before + (if start < ix {
                seq![InlineTextItemView::Text(segment_of(t, start as int, ix as int, highlights@))]
            } else {
                Seq::empty()
            }) + seq![InlineTextItemView::Break]);
            assert(char_boundary(t, ix + 1));
            start = ix + 1;
        }
        ix = ix + 1;
    }
    proof {
        lemma_newline_pos(t, start as int);
    }
    if start < text.len() {
        let ghost before = items_view(items@);
        let seg = paragraph_inline_text_segment(text, start..text.len(), highlights);
        items.push(InlineTextItem::Text(seg));
        assert(items_view(items@) =~= before + text_items(t, highlights@, start as int));
    } else {
        assert(text_items(t, highlights@, start as int) =~= Seq::<InlineTextItemView<H>>::empty());
    }
    assert(items_view(items@) =~= text_items(t, highlights@, 0));
    items
}


/// The total byte length of the characters.
pub open spec fn chars_len(chars: Seq<(usize, bool)>) -> nat
    decreases chars.len(),
{
    if chars.len() == 0 {
        0
    } else {
        chars_len(chars.drop_last()) + chars.last().0 as nat
    }
}

/// The progress of collecting selected ranges: the ranges closed so far, the
/// range being extended, and where the next character starts.
pub struct RangeScan {
    pub closed: Seq<Range<usize>>,
    pub open: Option<Range<usize>>,
    pub offset: nat,
}

/// The selected ranges of the characters, in order: runs of hit characters,
/// each as the byte range it covers, counted from `start`.
pub open spec fn hit_ranges_scan(start: usize, chars: Seq<(usize, bool)>) -> RangeScan
    decreases chars.len(),
{
    if chars.len() == 0 {
        RangeScan { closed: Seq::empty(), open: None, offset: start as nat }
    } else {
        let st = hit_ranges_scan(start, chars.drop_last());
        let (len, hit) = chars.last();
        let next: nat = st.offset + len as nat;
        if hit {
            let begin = match st.open {
                Some(r) => r.start,
                None => st.offset as usize,
            };
            RangeScan { closed: st.closed, open: Some(Range { start: begin, end: next as usize }), offset: next }
        } else {
            match st.open {
                Some(r) => RangeScan { closed: st.closed.push(r), open: None, offset: next },
                None => RangeScan { closed: st.closed, open: None, offset: next },
            }
        }
    }
}

/// The selected ranges of the characters (see [`hit_ranges_scan`]), with the
/// last run closed.
pub open spec fn hit_ranges(start: usize, chars: Seq<(usize, bool)>) -> Seq<Range<usize>> {
    let st = hit_ranges_scan(start, chars);
    match st.open {
        Some(r) => st.closed.push(r),
        None => st.closed,
    }
}

proof fn lemma_scan_offset(start: usize, chars: Seq<(usize, bool)>)
    ensures
        hit_ranges_scan(start, chars).offset == start + chars_len(chars),
    decreases chars.len(),
{
    if chars.len() > 0 {
        lemma_scan_offset(start, chars.drop_last());
    }
}

proof fn lemma_chars_len_prefix(chars: Seq<(usize, bool)>, i: int)
    requires
        0 <= i <= chars.len(),
    ensures
        chars_len(chars.subrange(0, i)) <= chars_len(chars),
    decreases chars.len() - i,
{
    if i < chars.len() {
        lemma_chars_len_prefix(chars, i + 1);
        assert(chars.subrange(0, i + 1).drop_last() =~= chars.subrange(0, i));
    } else {
        assert(chars.subrange(0, i) =~= chars);
    }
}

/// The selected byte ranges of a text, from whether each of its characters
/// (given by its byte length) lies in the selection: each run of such
/// characters makes one range, counted from `start`.
pub fn selected_ranges_for_chars(start: usize, chars: &Vec<(usize, bool)>) -> (r: Vec<Range<usize>>)
    requires
        start + chars_len(chars@) <= usize::MAX,
    ensures
        r@ == hit_ranges(start, chars@),
{
    let mut ranges: Vec<Range<usize>> = Vec::new();
    let mut selected_start: Option<usize> = None;
    let mut selected_end: Option<usize> = None;
    let mut offset: usize = start;
    let mut k: usize = 0;
    while k < chars.len()
        invariant
            k <= chars@.len(),
            start + chars_len(chars@) <= usize::MAX,
            ({
                let st = hit_ranges_scan(start, chars@.subrange(0, k as int));
                &&& ranges@ == st.closed
                &&& offset == st.offset
                &&& match st.open {
                    Some(rg) => selected_start == Some(rg.start) && selected_end == Some(rg.end),
                    None => selected_start is None && selected_end is None,
                }
            }),
        decreases chars@.len() - k,
    {
        proof {
            lemma_chars_len_prefix(chars@, k + 1);
            assert(chars@.subrange(0, k + 1).drop_last() =~= chars@.subrange(0, k as int));
            assert(start + chars_len(chars@.subrange(0, k + 1)) <= usize::MAX);
            lemma_scan_offset(start, chars@.subrange(0, k as int));
        }
        let (len, hit) = chars[k];
        let next = offset + len;
        if hit {
            if selected_start.is_none() {
                selected_start = Some(offset);
            }
            selected_end = Some(next);
        } else {
            match (selected_start, selected_end) {
                (Some(s), Some(e)) => {
                    ranges.push(s..e);
                    selected_start = None;
                    selected_end = None;
                },
                _ => {},
            }
        }
        offset = next;
        k = k + 1;
    }
    assert(chars@.subrange(0, k as int) =~= chars@);
    match (selected_start, selected_end) {
        (Some(s), Some(e)) => ranges.push(s..e),
        _ => {},
    }
    ranges
}

/// A selection grown to cover `range` too; the range itself when there was
/// none.
pub open spec fn grown_selection(sel: Option<Selection>, range: Range<usize>) -> Selection {
    match sel {
        Some(s) => Selection {
            start: if s.start <= range.start {
                s.start
            } else {
                range.start
            },
            end: if s.end >= range.end {
                s.end
            } else {
                range.end
            },
        },
        None => Selection { start: range.start, end: range.end },
    }
}

/// The selection grown over the first `n` ranges, one after the other.
pub open spec fn grown_over(sel: Option<Selection>, ranges: Seq<Range<usize>>, n: int) -> Option<Selection>
    decreases n,
{
    if n <= 0 {
        sel
    } else {
        Some(grown_selection(grown_over(sel, ranges, n - 1), ranges[n - 1]))
    }
}

/// Whether the selection covers the range.
pub open spec fn covers(sel: Option<Selection>, r: Range<usize>) -> bool {
    match sel {
        Some(s) => s.start <= r.start && r.end <= s.end,
        None => false,
    }
}

/// A selection grown over ranges covers each of them, and what it covered
/// before.
pub proof fn lemma_grown_covers(sel: Option<Selection>, ranges: Seq<Range<usize>>, n: int)
    requires
        0 <= n <= ranges.len(),
        forall|i: int| 0 <= i < n ==> (#[trigger] ranges[i]).start <= ranges[i].end,
    ensures
        forall|i: int| 0 <= i < n ==> covers(grown_over(sel, ranges, n), #[trigger] ranges[i]),
        forall|r: Range<usize>| covers(sel, r) ==> covers(grown_over(sel, ranges, n), r),
    decreases n,
{
    if n > 0 {
        lemma_grown_covers(sel, ranges, n - 1);
    }
}

impl InlineState {
    /// Grows the selection to cover each of the ranges.
    pub fn extend_selection(&mut self, ranges: &Vec<Range<usize>>)
        ensures
            final(self)@.text == old(self)@.text,
            final(self)@.selection == grown_over(old(self)@.selection, ranges@, ranges@.len() as int),
    {
        let mut i: usize = 0;
        while i < ranges.len()
            invariant
                i <= ranges@.len(),
                self@.text == old(self)@.text,
                self@.selection == grown_over(old(self)@.selection, ranges@, i as int),
            decreases ranges@.len() - i,
        {
            let range = ranges[i].start..ranges[i].end;
            let grown = match self.selection {
                Some(s) => Selection {
                    start: if s.start <= range.start {
                        s.start
                    } else {
                        range.start
                    },
                    end: if s.end >= range.end {
                        s.end
                    } else {
                        range.end
                    },
                },
                None => Selection { start: range.start, end: range.end },
            };
            self.selection = Some(grown);
            i = i + 1;
        }
    }
}

} // verus!
