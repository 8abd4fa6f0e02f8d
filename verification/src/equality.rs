//! Equality of nodes by their content: the selection state that a node
//! carries for rendering takes no part in it.

use vstd::prelude::*;

use crate::bytes::bytes_eq;
use crate::math::{MathNode, MathNodeView};
use crate::node::{
    marks_view, CodeBlock, ImageNode, InlineNode, InlineNodeView, LinkMark,
    NodeContext, Paragraph, ParagraphView, Span, TextMark,
};
use crate::serialize::{link_eq, opt_bytes_eq};

verus! {

/// Whether two optional spans are equal.
fn span_eq(a: Option<Span>, b: Option<Span>) -> (r: bool)
    ensures
        r == (a == b),
{
    match (a, b) {
        (Some(x), Some(y)) => x.start == y.start && x.end == y.end,
        (None, None) => true,
        _ => false,
    }
}

/// Two formulas are equal when their sources, markdown forms, kinds and
/// spans are.
pub open spec fn math_same(a: MathNodeView, b: MathNodeView) -> bool {
    a.source == b.source && a.markdown_source == b.markdown_source && a.display == b.display
        && a.span == b.span
}

/// Two optional formulas are equal (see [`math_same`]).
pub open spec fn opt_math_same(a: Option<MathNodeView>, b: Option<MathNodeView>) -> bool {
    match (a, b) {
        (Some(x), Some(y)) => math_same(x, y),
        (None, None) => true,
        _ => false,
    }
}

/// Two inline nodes are equal when their texts, images, formulas, breaks and
/// marks are.
pub open spec fn inline_same(a: InlineNodeView, b: InlineNodeView) -> bool {
    &&& a.text == b.text
    &&& a.image == b.image
    &&& opt_math_same(a.math, b.math)
    &&& a.line_break == b.line_break
    &&& a.marks == b.marks
}

/// Two paragraphs are equal when their spans, nodes and link references
/// are.
pub open spec fn paragraph_same(a: ParagraphView, b: ParagraphView) -> bool {
    &&& a.span == b.span
    &&& a.children.len() == b.children.len()
    &&& forall|i: int| 0 <= i < a.children.len() ==> inline_same(#[trigger] a.children[i], b.children[i])
    &&& same_definitions(a.link_refs, b.link_refs)
}

impl PartialEq for LinkMark {
    fn eq(&self, other: &Self) -> (r: bool) {
        link_eq(self, other)
    }
}

impl vstd::std_specs::cmp::PartialEqSpecImpl for LinkMark {
    open spec fn obeys_eq_spec() -> bool {
        true
    }

    open spec fn eq_spec(&self, other: &LinkMark) -> bool {
        self@ == other@
    }
}

/// Whether two optional links are equal.
fn opt_link_eq(a: &Option<LinkMark>, b: &Option<LinkMark>) -> (r: bool)
    ensures
        r == (crate::node::opt_link_view(*a) == crate::node::opt_link_view(*b)),
{
    match (a, b) {
        (Some(x), Some(y)) => link_eq(x, y),
        (None, None) => true,
        _ => false,
    }
}

impl PartialEq for TextMark {
    fn eq(&self, other: &Self) -> (r: bool) {
        self.bold == other.bold && self.italic == other.italic && self.strikethrough
            == other.strikethrough && self.underline == other.underline && self.code == other.code
            && opt_link_eq(&self.link, &other.link)
    }
}

impl vstd::std_specs::cmp::PartialEqSpecImpl for TextMark {
    open spec fn obeys_eq_spec() -> bool {
        true
    }

    open spec fn eq_spec(&self, other: &TextMark) -> bool {
        self@ == other@
    }
}

impl PartialEq for ImageNode {
    fn eq(&self, other: &Self) -> (r: bool) {
        bytes_eq(self.url.as_slice(), other.url.as_slice()) && opt_link_eq(&self.link, &other.link)
            && opt_bytes_eq(&self.title, &other.title) && opt_bytes_eq(&self.alt, &other.alt)
    }
}

impl vstd::std_specs::cmp::PartialEqSpecImpl for ImageNode {
    open spec fn obeys_eq_spec() -> bool {
        true
    }

    open spec fn eq_spec(&self, other: &ImageNode) -> bool {
        self@ == other@
    }
}

impl PartialEq for MathNode {
    fn eq(&self, other: &Self) -> (r: bool) {
        bytes_eq(self.source.as_slice(), other.source.as_slice()) && bytes_eq(
            self.markdown_source.as_slice(),
            other.markdown_source.as_slice(),
        ) && self.display == other.display && span_eq(self.span, other.span)
    }
}

impl vstd::std_specs::cmp::PartialEqSpecImpl for MathNode {
    open spec fn obeys_eq_spec() -> bool {
        true
    }

    open spec fn eq_spec(&self, other: &MathNode) -> bool {
        math_same(self@, other@)
    }
}

/// Whether two sequences of marks are equal.
fn marks_eq(a: &Vec<(core::ops::Range<usize>, TextMark)>, b: &Vec<(core::ops::Range<usize>, TextMark)>) -> (r: bool)
    ensures
        r == (marks_view(a@) == marks_view(b@)),
{
    if a.len() != b.len() {
        assert(marks_view(a@).len() != marks_view(b@).len());
        return false;
    }
    let mut i: usize = 0;
    while i < a.len()
        invariant
            i <= a@.len() == b@.len(),
            forall|k: int| 0 <= k < i ==> #[trigger] marks_view(a@)[k] == marks_view(b@)[k],
        decreases a@.len() - i,
    {
        let (ra, ma) = &a[i];
        let (rb, mb) = &b[i];
        assert(marks_view(a@)[i as int] == (*ra, ma@));
        assert(marks_view(b@)[i as int] == (*rb, mb@));
        if !(ra.start == rb.start && ra.end == rb.end && ma.eq(mb)) {
            return false;
        }
        i = i + 1;
    }
    assert(marks_view(a@) =~= marks_view(b@));
    true
}

impl PartialEq for InlineNode {
    fn eq(&self, other: &Self) -> (r: bool) {
        let image_eq = match (&self.image, &other.image) {
            (Some(x), Some(y)) => x.eq(y),
            (None, None) => true,
            _ => false,
        };
        let math_eq = match (&self.math, &other.math) {
            (Some(x), Some(y)) => x.eq(y),
            (None, None) => true,
            _ => false,
        };
        bytes_eq(self.text.as_slice(), other.text.as_slice()) && image_eq && math_eq
            && self.line_break == other.line_break && marks_eq(&self.marks, &other.marks)
    }
}

impl vstd::std_specs::cmp::PartialEqSpecImpl for InlineNode {
    open spec fn obeys_eq_spec() -> bool {
        true
    }

    open spec fn eq_spec(&self, other: &InlineNode) -> bool {
        inline_same(self@, other@)
    }
}

/// The value given first for `key` among `refs` from index `i` on, if any.
pub open spec fn first_value<V>(refs: Seq<(Seq<u8>, V)>, key: Seq<u8>, i: int) -> Option<V>
    decreases refs.len() - i,
{
    if i < 0 || i >= refs.len() {
        None
    } else if refs[i].0 == key {
        Some(refs[i].1)
    } else {
        first_value(refs, key, i + 1)
    }
}

/// Two lists of definitions define the same keys alike, whatever their order.
pub open spec fn same_definitions<V>(a: Seq<(Seq<u8>, V)>, b: Seq<(Seq<u8>, V)>) -> bool {
    forall|key: Seq<u8>| #[trigger] first_value(a, key, 0) == first_value(b, key, 0)
}

/// The value given for each key of `a` is the one `b` gives.
pub open spec fn agrees_on_keys<V>(a: Seq<(Seq<u8>, V)>, b: Seq<(Seq<u8>, V)>) -> bool {
    forall|k: int| 0 <= k < a.len() ==> first_value(b, (#[trigger] a[k]).0, 0) == first_value(a, a[k].0, 0)
}

/// A key that no entry from `i` on has has no value there; a key that one
/// has has one.
proof fn lemma_first_value<V>(refs: Seq<(Seq<u8>, V)>, key: Seq<u8>, i: int)
    requires
        0 <= i,
    ensures
        (first_value(refs, key, i) is None) <==> (forall|k: int| i <= k < refs.len() ==> (#[trigger] refs[k]).0 != key),
    decreases refs.len() - i,
{
    if i < refs.len() && refs[i].0 != key {
        lemma_first_value(refs, key, i + 1);
    }
}

/// Agreeing on the keys of each list both ways is having the same
/// definitions.
proof fn lemma_agree_both_ways<V>(a: Seq<(Seq<u8>, V)>, b: Seq<(Seq<u8>, V)>)
    ensures
        (agrees_on_keys(a, b) && agrees_on_keys(b, a)) <==> same_definitions(a, b),
{
    if agrees_on_keys(a, b) && agrees_on_keys(b, a) {
        assert forall|key: Seq<u8>| #[trigger] first_value(a, key, 0) == first_value(b, key, 0) by {
            lemma_first_value(a, key, 0);
            lemma_first_value(b, key, 0);
            if exists|k: int| 0 <= k < a.len() && a[k].0 == key {
                let k = choose|k: int| 0 <= k < a.len() && a[k].0 == key;
                assert(first_value(b, a[k].0, 0) == first_value(a, a[k].0, 0));
            } else if exists|k: int| 0 <= k < b.len() && b[k].0 == key {
                let k = choose|k: int| 0 <= k < b.len() && b[k].0 == key;
                assert(first_value(a, b[k].0, 0) == first_value(b, b[k].0, 0));
            }
        }
    }
    if same_definitions(a, b) {
        assert forall|k: int| 0 <= k < a.len() implies first_value(b, (#[trigger] a[k]).0, 0) == first_value(a, a[k].0, 0) by {
            assert(first_value(a, a[k].0, 0) == first_value(b, a[k].0, 0));
        }
        assert forall|k: int| 0 <= k < b.len() implies first_value(a, (#[trigger] b[k]).0, 0) == first_value(b, b[k].0, 0) by {
            assert(first_value(a, b[k].0, 0) == first_value(b, b[k].0, 0));
        }
    }
}

/// The views of a list of link references of a paragraph.
pub open spec fn pairs_view(v: Seq<(Vec<u8>, Vec<u8>)>) -> Seq<(Seq<u8>, Seq<u8>)> {
    Seq::new(v.len(), |i: int| (v[i].0@, v[i].1@))
}

/// The url given first for `key`.
fn pair_lookup<'a>(refs: &'a Vec<(Vec<u8>, Vec<u8>)>, key: &[u8]) -> (r: Option<&'a Vec<u8>>)
    ensures
        match r {
            Some(v) => first_value(pairs_view(refs@), key@, 0) == Some(v@),
            None => first_value(pairs_view(refs@), key@, 0) is None,
        },
{
    let ghost rv = pairs_view(refs@);
    let mut i: usize = 0;
    while i < refs.len()
        invariant
            i <= refs@.len(),
            rv == pairs_view(refs@),
            first_value(rv, key@, 0) == first_value(rv, key@, i as int),
        decreases refs@.len() - i,
    {
        if bytes_eq(refs[i].0.as_slice(), key) {
            return Some(&refs[i].1);
        }
        i = i + 1;
    }
    None
}

/// Whether each key of `a` is given the same url by `b` as by `a`.
fn pairs_agree(a: &Vec<(Vec<u8>, Vec<u8>)>, b: &Vec<(Vec<u8>, Vec<u8>)>) -> (r: bool)
    ensures
        r == agrees_on_keys(pairs_view(a@), pairs_view(b@)),
{
    let ghost av = pairs_view(a@);
    let ghost bv = pairs_view(b@);
    let mut i: usize = 0;
    while i < a.len()
        invariant
            i <= a@.len(),
            av == pairs_view(a@),
            bv == pairs_view(b@),
            forall|k: int| 0 <= k < i ==> first_value(bv, (#[trigger] av[k]).0, 0) == first_value(av, av[k].0, 0),
        decreases a@.len() - i,
    {
        let key = a[i].0.as_slice();
        assert(key@ == av[i as int].0);
        let same = match (pair_lookup(b, key), pair_lookup(a, key)) {
            (Some(x), Some(y)) => bytes_eq(x.as_slice(), y.as_slice()),
            (None, None) => true,
            _ => false,
        };
        if !same {
            return false;
        }
        i = i + 1;
    }
    true
}

impl PartialEq for Paragraph {
    fn eq(&self, other: &Self) -> (r: bool) {
        if !span_eq(self.span, other.span) || self.children.len() != other.children.len() {
            return false;
        }
        let mut i: usize = 0;
        while i < self.children.len()
            invariant
                i <= self.children@.len() == other.children@.len(),
                forall|k: int| 0 <= k < i ==> inline_same(#[trigger] self@.children[k], other@.children[k]),
            decreases self.children@.len() - i,
        {
            assert(self@.children[i as int] == self.children@[i as int]@);
            assert(other@.children[i as int] == other.children@[i as int]@);
            if !self.children[i].eq(&other.children[i]) {
                return false;
            }
            i = i + 1;
        }
        proof {
            lemma_agree_both_ways(pairs_view(self.link_refs@), pairs_view(other.link_refs@));
        }
        pairs_agree(&self.link_refs, &other.link_refs) && pairs_agree(&other.link_refs, &self.link_refs)
    }
}

impl vstd::std_specs::cmp::PartialEqSpecImpl for Paragraph {
    open spec fn obeys_eq_spec() -> bool {
        true
    }

    open spec fn eq_spec(&self, other: &Paragraph) -> bool {
        paragraph_same(self@, other@)
    }
}

impl PartialEq for CodeBlock {
    fn eq(&self, other: &Self) -> (r: bool) {
        opt_bytes_eq(&self.lang, &other.lang) && bytes_eq(
            self.state.text.as_slice(),
            other.state.text.as_slice(),
        ) && span_eq(self.span, other.span)
    }
}

impl vstd::std_specs::cmp::PartialEqSpecImpl for CodeBlock {
    open spec fn obeys_eq_spec() -> bool {
        true
    }

    open spec fn eq_spec(&self, other: &CodeBlock) -> bool {
        self@.lang == other@.lang && self@.state.text == other@.state.text && self.span == other.span
    }
}

/// The link given first for `key`.
fn link_lookup<'a>(cx: &'a NodeContext, key: &[u8]) -> (r: Option<&'a LinkMark>)
    ensures
        match r {
            Some(v) => first_value(cx@.link_refs, key@, 0) == Some(v@),
            None => first_value(cx@.link_refs, key@, 0) is None,
        },
{
    let ghost rv = cx@.link_refs;
    let mut i: usize = 0;
    while i < cx.link_refs.len()
        invariant
            i <= cx.link_refs@.len(),
            rv == cx@.link_refs,
            first_value(rv, key@, 0) == first_value(rv, key@, i as int),
        decreases cx.link_refs@.len() - i,
    {
        assert(rv[i as int] == (cx.link_refs@[i as int].0@, cx.link_refs@[i as int].1@));
        if bytes_eq(cx.link_refs[i].0.as_slice(), key) {
            return Some(&cx.link_refs[i].1);
        }
        i = i + 1;
    }
    None
}

/// Whether each identifier that `a` defines is defined alike by `b`.
fn links_agree(a: &NodeContext, b: &NodeContext) -> (r: bool)
    ensures
        r == agrees_on_keys(a@.link_refs, b@.link_refs),
{
    let ghost av = a@.link_refs;
    let ghost bv = b@.link_refs;
    let mut i: usize = 0;
    while i < a.link_refs.len()
        invariant
            i <= a.link_refs@.len(),
            av == a@.link_refs,
            bv == b@.link_refs,
            forall|k: int| 0 <= k < i ==> first_value(bv, (#[trigger] av[k]).0, 0) == first_value(av, av[k].0, 0),
        decreases a.link_refs@.len() - i,
    {
        let key = a.link_refs[i].0.as_slice();
        assert(key@ == av[i as int].0);
        let same = match (link_lookup(b, key), link_lookup(a, key)) {
            (Some(x), Some(y)) => link_eq(x, y),
            (None, None) => true,
            _ => false,
        };
        if !same {
            return false;
        }
        i = i + 1;
    }
    true
}

impl PartialEq for NodeContext {
    fn eq(&self, other: &Self) -> (r: bool) {
        proof {
            lemma_agree_both_ways(self@.link_refs, other@.link_refs);
        }
        links_agree(self, other) && links_agree(other, self)
    }
}

impl vstd::std_specs::cmp::PartialEqSpecImpl for NodeContext {
    open spec fn obeys_eq_spec() -> bool {
        true
    }

    open spec fn eq_spec(&self, other: &NodeContext) -> bool {
        same_definitions(self@.link_refs, other@.link_refs)
    }
}

} // verus!
