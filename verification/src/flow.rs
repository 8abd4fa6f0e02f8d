//! The logical text of a paragraph's inline flow: the text that line breaking
//! looks at, with each grapheme of the paragraph's text as one unit of the
//! flow and each image or inline formula as one object replacement character.

use vstd::prelude::*;

use unicode_segmentation::UnicodeSegmentation;

use crate::bytes::push_bytes;

verus! {

/// The byte offset at which each extended grapheme cluster of `text` starts,
/// as `UnicodeSegmentation::grapheme_indices` gives them; none when `text` is
/// not UTF-8.
pub uninterp spec fn grapheme_starts(text: Seq<u8>) -> Seq<usize>;

/// Calls `UnicodeSegmentation::grapheme_indices` (extended clusters) on the
/// text and keeps the offsets. The contract claims that the result is
/// `grapheme_starts` of the text, and what the crate's iterator shows of the
/// clusters: they cut the text into non-empty pieces in order, the first at
/// offset 0.
#[verifier::external_body]
fn grapheme_starts_of(text: &[u8]) -> (r: Vec<usize>)
    ensures
        r@ == grapheme_starts(text@),
        forall|i: int, j: int| 0 <= i < j < r@.len() ==> r@[i] < r@[j],
        forall|i: int| 0 <= i < r@.len() ==> r@[i] < text@.len(),
        r@.len() > 0 ==> r@[0] == 0,
{
    match std::str::from_utf8(text) {
        Ok(s) => s.grapheme_indices(true).map(|(i, _)| i).collect(),
        Err(_) => Vec::new(),
    }
}

/// The byte offsets of the line break opportunities of `text`, as
/// `unicode_linebreak::linebreaks` gives them; none when `text` is not UTF-8.
pub uninterp spec fn line_break_offsets(text: Seq<u8>) -> Seq<usize>;

/// Calls `unicode_linebreak::linebreaks` on the text and keeps the offsets.
/// The contract claims only that the result is `line_break_offsets` of the
/// text.
#[verifier::external_body]
fn line_break_offsets_of(text: &[u8]) -> (r: Vec<usize>)
    ensures
        r@ == line_break_offsets(text@),
{
    match std::str::from_utf8(text) {
        Ok(s) => unicode_linebreak::linebreaks(s).map(|(ix, _)| ix).collect(),
        Err(_) => Vec::new(),
    }
}

/// A piece of a paragraph's inline flow: text, or an object (an image or an
/// inline formula).
pub enum FlowPiece {
    Text(Vec<u8>),
    Object,
}

/// The contents of a [`FlowPiece`].
pub enum FlowPieceView {
    Text(Seq<u8>),
    Object,
}

/// The views of a sequence of pieces.
pub open spec fn pieces_view(s: Seq<FlowPiece>) -> Seq<FlowPieceView> {
    Seq::new(
        s.len(),
        |i: int|
            match s[i] {
                FlowPiece::Text(t) => FlowPieceView::Text(t@),
                FlowPiece::Object => FlowPieceView::Object,
            },
    )
}

/// A unit of the flow: where it ends in the logical text, the piece it comes
/// from, and the byte range of the piece's text it covers (empty for an
/// object).
#[derive(Clone, Copy, Debug, PartialEq, Eq, Structural)]
pub struct FlowItem {
    pub logical_end: usize,
    pub piece: usize,
    pub start: usize,
    pub end: usize,
}

/// The logical text of a flow, its units, and the line break opportunities
/// of the logical text.
pub struct InlineFlow {
    pub logical: Vec<u8>,
    pub items: Vec<FlowItem>,
    pub breaks: Vec<usize>,
}

/// U+FFFC OBJECT REPLACEMENT CHARACTER as UTF-8.
pub open spec fn object_char() -> Seq<u8> {
    seq![0xEFu8, 0xBFu8, 0xBCu8]
}

/// Where grapheme `k` ends: where the next starts, or at the end of the text.
pub open spec fn grapheme_end(text: Seq<u8>, starts: Seq<usize>, k: int) -> int {
    if k + 1 < starts.len() {
        starts[k + 1] as int
    } else {
        text.len() as int
    }
}

/// The logical text after the first `k` graphemes of a text piece, and the
/// units they make.
pub open spec fn text_flow(logical: Seq<u8>, text: Seq<u8>, starts: Seq<usize>, piece: usize, k: int) -> (
    Seq<u8>,
    Seq<FlowItem>,
)
    decreases k,
{
    if k <= 0 {
        (logical, Seq::empty())
    } else {
        let prev = text_flow(logical, text, starts, piece, k - 1);
        let s = starts[k - 1] as int;
        let e = grapheme_end(text, starts, k - 1);
        let l2 = prev.0 + text.subrange(s, e);
        (
            l2,
            prev.1.push(
                FlowItem { logical_end: l2.len() as usize, piece, start: s as usize, end: e as usize },
            ),
        )
    }
}

/// The logical text and the units of the first `n` pieces: a text piece adds
/// its graphemes, an object the object replacement character.
pub open spec fn flow_of(pieces: Seq<FlowPieceView>, n: int) -> (Seq<u8>, Seq<FlowItem>)
    decreases n,
{
    if n <= 0 {
        (Seq::empty(), Seq::empty())
    } else {
        let prev = flow_of(pieces, n - 1);
        match pieces[n - 1] {
            FlowPieceView::Text(t) => {
                let starts = grapheme_starts(t);
                let r = text_flow(prev.0, t, starts, (n - 1) as usize, starts.len() as int);
                (r.0, prev.1 + r.1)
            },
            FlowPieceView::Object => {
                let l2 = prev.0 + object_char();
                (
                    l2,
                    prev.1.push(
                        FlowItem { logical_end: l2.len() as usize, piece: (n - 1) as usize, start: 0, end: 0 },
                    ),
                )
            },
        }
    }
}

/// Builds the logical text of the pieces (see [`flow_of`]) and finds its line
/// break opportunities.
pub fn paragraph_inline_flow(pieces: &Vec<FlowPiece>) -> (r: InlineFlow)
    ensures
        (r.logical@, r.items@) == flow_of(pieces_view(pieces@), pieces@.len() as int),
        r.breaks@ == line_break_offsets(r.logical@),
{
    let ghost pv = pieces_view(pieces@);
    let mut logical: Vec<u8> = Vec::new();
    let mut items: Vec<FlowItem> = Vec::new();
    let mut i: usize = 0;
    while i < pieces.len()
        invariant
            i <= pieces@.len(),
            pv == pieces_view(pieces@),
            (logical@, items@) == flow_of(pv, i as int),
        decreases pieces@.len() - i,
    {
        let ghost before = items@;
        match &pieces[i] {
            FlowPiece::Text(text) => {
                assert(pv[i as int] == FlowPieceView::Text(text@));
                let starts = grapheme_starts_of(text.as_slice());
                let ghost l0 = logical@;
                let mut k: usize = 0;
                while k < starts.len()
                    invariant
                        k <= starts@.len(),
                        starts@ == grapheme_starts(text@),
                        forall|a: int, b: int| 0 <= a < b < starts@.len() ==> starts@[a] < starts@[b],
                        forall|a: int| 0 <= a < starts@.len() ==> starts@[a] < text@.len(),
                        ({
                            let tf = text_flow(l0, text@, starts@, i, k as int);
                            &&& logical@ == tf.0
                            &&& items@ == before + tf.1
                        }),
                    decreases starts@.len() - k,
                {
                    let s = starts[k];
                    let e = if k + 1 < starts.len() {
                        starts[k + 1]
                    } else {
                        text.len()
                    };
                    let ghost tf0 = text_flow(l0, text@, starts@, i, k as int);
                    let piece_text = crate::bytes::slice_to_vec(text.as_slice(), s, e);
                    push_bytes(&mut logical, piece_text.as_slice());
                    items.push(FlowItem { logical_end: logical.len(), piece: i, start: s, end: e });
                    k = k + 1;
                    assert(items@ =~= before + text_flow(l0, text@, starts@, i, k as int).1);
                }
            },
            FlowPiece::Object => {
                assert(pv[i as int] == FlowPieceView::Object);
                logical.push(0xEF);
                logical.push(0xBF);
                logical.push(0xBC);
                items.push(FlowItem { logical_end: logical.len(), piece: i, start: 0, end: 0 });
            },
        }
        i = i + 1;
        assert(items@ =~= flow_of(pv, i as int).1);
    }
    let breaks = line_break_offsets_of(logical.as_slice());
    InlineFlow { logical, items, breaks }
}

} // verus!
