//! Converting paragraphs and blocks back to markdown-like source.

use vstd::prelude::*;

use crate::bytes::{
    char_boundary, copy_bytes, decimal, lines, push_bytes, push_decimal, push_repeat, repeat,
    slice_to_vec, split_lines, trim, trim_bytes, vecs_view,
};
use crate::node::{blocks_view, BlockNode, BlockNodeView, ColumnAlign, Table, TableView};
use crate::text::{join, join_bytes};
use crate::markdown::MdAlignKind;
use crate::node::{
    ImageNode, ImageNodeView, InlineNode, InlineNodeView, LinkMark, LinkMarkView, MarkView,
    Paragraph, ParagraphView, TextMark, TextMarkView, copy_opt_link, or_empty, opt_link_view,
};

verus! {

/// The markdown emphasis of a run of text.
#[derive(Clone, Copy, Debug, PartialEq, Eq, Structural)]
pub struct InlineMarkdownStyle {
    pub bold: bool,
    pub italic: bool,
    pub strikethrough: bool,
    pub code: bool,
}

/// The emphasis that a mark carries.
pub open spec fn style_of(m: TextMarkView) -> InlineMarkdownStyle {
    InlineMarkdownStyle {
        bold: m.bold,
        italic: m.italic,
        strikethrough: m.strikethrough,
        code: m.code,
    }
}

/// No emphasis.
pub open spec fn plain_style() -> InlineMarkdownStyle {
    InlineMarkdownStyle { bold: false, italic: false, strikethrough: false, code: false }
}

/// `t` between `open` and `close`.
pub open spec fn wrap(open: Seq<u8>, t: Seq<u8>, close: Seq<u8>) -> Seq<u8> {
    open + t + close
}

/// "`" as bytes.
pub open spec fn tick() -> Seq<u8> {
    seq![96u8]
}

/// "**" as bytes.
pub open spec fn stars2() -> Seq<u8> {
    seq![42u8, 42u8]
}

/// "*" as bytes.
pub open spec fn star() -> Seq<u8> {
    seq![42u8]
}

/// "~~" as bytes.
pub open spec fn tildes() -> Seq<u8> {
    seq![126u8, 126u8]
}

/// `t` wrapped in the markers of the style: code innermost, then bold, italic
/// and strikethrough outermost.
pub open spec fn apply_style(s: InlineMarkdownStyle, t: Seq<u8>) -> Seq<u8> {
    let t1 = if s.code {
        wrap(tick(), t, tick())
    } else {
        t
    };
    let t2 = if s.bold {
        wrap(stars2(), t1, stars2())
    } else {
        t1
    };
    let t3 = if s.italic {
        wrap(star(), t2, star())
    } else {
        t2
    };
    if s.strikethrough {
        wrap(tildes(), t3, tildes())
    } else {
        t3
    }
}

/// Pushes `open`, `t` and `close`.
fn push_wrapped(out: &mut Vec<u8>, open: &[u8], t: &[u8], close: &[u8])
    ensures
        final(out)@ == old(out)@ + wrap(open@, t@, close@),
{
    push_bytes(out, open);
    push_bytes(out, t);
    push_bytes(out, close);
    assert(out@ =~= old(out)@ + wrap(open@, t@, close@));
}

/// `t` between `open` and `close`, as a new byte string.
fn wrapped(open: &[u8], t: &[u8], close: &[u8]) -> (r: Vec<u8>)
    ensures
        r@ == wrap(open@, t@, close@),
{
    let mut out: Vec<u8> = Vec::new();
    push_wrapped(&mut out, open, t, close);
    assert(out@ =~= wrap(open@, t@, close@));
    out
}

impl InlineMarkdownStyle {
    pub fn from_mark(mark: &TextMark) -> (r: Self)
        ensures
            r == style_of(mark@),
    {
        InlineMarkdownStyle {
            bold: mark.bold,
            italic: mark.italic,
            strikethrough: mark.strikethrough,
            code: mark.code,
        }
    }

    /// No emphasis.
    pub fn plain() -> (r: Self)
        ensures
            r == plain_style(),
    {
        InlineMarkdownStyle { bold: false, italic: false, strikethrough: false, code: false }
    }

    /// Wraps `text` in the markers of this style.
    pub fn apply(&self, text: Vec<u8>) -> (r: Vec<u8>)
        ensures
            r@ == apply_style(*self, text@),
    {
        let mut text = text;
        let tick_b: [u8; 1] = [96];
        let star_b: [u8; 1] = [42];
        let stars_b: [u8; 2] = [42, 42];
        let tildes_b: [u8; 2] = [126, 126];
        assert(tick_b@ =~= tick() && star_b@ =~= star() && stars_b@ =~= stars2() && tildes_b@
            =~= tildes());
        if self.code {
            text = wrapped(&tick_b, text.as_slice(), &tick_b);
        }
        if self.bold {
            text = wrapped(&stars_b, text.as_slice(), &stars_b);
        }
        if self.italic {
            text = wrapped(&star_b, text.as_slice(), &star_b);
        }
        if self.strikethrough {
            text = wrapped(&tildes_b, text.as_slice(), &tildes_b);
        }
        text
    }
}

/// Whether two optional byte strings are equal.
pub fn opt_bytes_eq(a: &Option<Vec<u8>>, b: &Option<Vec<u8>>) -> (r: bool)
    ensures
        r == (crate::bytes::opt_view(*a) == crate::bytes::opt_view(*b)),
{
    match (a, b) {
        (Some(x), Some(y)) => crate::bytes::bytes_eq(x.as_slice(), y.as_slice()),
        (None, None) => true,
        _ => false,
    }
}

/// Whether two links are equal.
pub fn link_eq(a: &LinkMark, b: &LinkMark) -> (r: bool)
    ensures
        r == (a@ == b@),
{
    crate::bytes::bytes_eq(a.url.as_slice(), b.url.as_slice()) && opt_bytes_eq(
        &a.identifier,
        &b.identifier,
    ) && opt_bytes_eq(&a.title, &b.title)
}

/// `[text](url)` as bytes.
pub open spec fn link_markdown(text: Seq<u8>, url: Seq<u8>) -> Seq<u8> {
    seq![91u8] + text + seq![93u8, 40u8] + url + seq![41u8]
}

/// Pushes `[text](url)`.
fn push_link_markdown(out: &mut Vec<u8>, text: &[u8], url: &[u8])
    ensures
        final(out)@ == old(out)@ + link_markdown(text@, url@),
{
    out.push(91);
    push_bytes(out, text);
    out.push(93);
    out.push(40);
    push_bytes(out, url);
    out.push(41);
    assert(out@ =~= old(out)@ + link_markdown(text@, url@));
}

/// The markdown of an image: `![alt](url "title")`, wrapped in a link to the
/// image's link url when it has one.
pub open spec fn image_markdown(i: ImageNodeView) -> Seq<u8> {
    let title = match i.title {
        Some(t) => seq![32u8, 34u8] + t + seq![34u8],
        None => Seq::empty(),
    };
    let image = seq![33u8] + link_markdown(or_empty(i.alt), i.url + title);
    match i.link {
        Some(l) => link_markdown(image, l.url),
        None => image,
    }
}

/// The title of an image: its title, or else its alt text.
pub open spec fn image_title(i: ImageNodeView) -> Seq<u8> {
    match i.title {
        Some(t) => t,
        None => or_empty(i.alt),
    }
}

impl ImageNode {
    pub fn title(&self) -> (r: Vec<u8>)
        ensures
            r@ == image_title(self@),
    {
        match &self.title {
            Some(t) => copy_bytes(t),
            None => match &self.alt {
                Some(a) => copy_bytes(a),
                None => Vec::new(),
            },
        }
    }

    pub fn plain_text(&self) -> (r: Vec<u8>)
        ensures
            r@ == crate::node::image_plain_text(self@),
    {
        match &self.alt {
            Some(a) => copy_bytes(a),
            None => Vec::new(),
        }
    }

    pub fn markdown_source(&self) -> (r: Vec<u8>)
        ensures
            r@ == image_markdown(self@),
    {
        let mut dest: Vec<u8> = copy_bytes(&self.url);
        if let Some(t) = &self.title {
            dest.push(32);
            dest.push(34);
            push_bytes(&mut dest, t.as_slice());
            dest.push(34);
        }
        let mut image: Vec<u8> = Vec::new();
        image.push(33);
        let alt = self.plain_text();
        push_link_markdown(&mut image, alt.as_slice(), dest.as_slice());
        assert(image@ =~= seq![33u8] + link_markdown(or_empty(self@.alt), dest@));
        match &self.link {
            Some(l) => {
                let mut out: Vec<u8> = Vec::new();
                push_link_markdown(&mut out, image.as_slice(), l.url.as_slice());
                assert(out@ =~= image_markdown(self@));
                out
            },
            None => {
                assert(image@ =~= image_markdown(self@));
                image
            },
        }
    }
}

/// Markdown text waiting for more text of the same emphasis.
pub struct PendingMarkdown {
    pub style: InlineMarkdownStyle,
    pub text: Vec<u8>,
    /// Text of a link that may continue, and the link.
    pub link: Option<(LinkMark, Vec<u8>)>,
}

/// The contents of a [`PendingMarkdown`].
pub struct PendingView {
    pub style: InlineMarkdownStyle,
    pub text: Seq<u8>,
    pub link: Option<(LinkMarkView, Seq<u8>)>,
}

impl View for PendingMarkdown {
    type V = PendingView;

    open spec fn view(&self) -> PendingView {
        PendingView {
            style: self.style,
            text: self.text@,
            link: match self.link {
                Some((l, t)) => Some((l@, t@)),
                None => None,
            },
        }
    }
}

/// The pending text with its link, if any, written out.
pub open spec fn pending_flushed(p: PendingView) -> PendingView {
    match p.link {
        Some((l, t)) => PendingView { text: p.text + link_markdown(t, l.url), link: None, ..p },
        None => p,
    }
}

/// Adds a segment: text of the same link continues that link; otherwise the
/// pending link is written out first.
pub open spec fn pending_pushed(p: PendingView, seg: Seq<u8>, link: Option<LinkMarkView>) -> PendingView {
    match link {
        Some(l) => match p.link {
            Some((pl, pt)) => if pl == l {
                PendingView { link: Some((l, pt + seg)), ..p }
            } else {
                PendingView { link: Some((l, seg)), ..pending_flushed(p) }
            },
            None => PendingView { link: Some((l, seg)), ..pending_flushed(p) },
        },
        None => {
            let f = pending_flushed(p);
            PendingView { text: f.text + seg, ..f }
        },
    }
}

/// The finished markdown of the pending text.
pub open spec fn pending_finished(p: PendingView) -> Seq<u8> {
    apply_style(p.style, pending_flushed(p).text)
}

impl PendingMarkdown {
    pub fn new(style: InlineMarkdownStyle) -> (r: Self)
        ensures
            r@ == (PendingView { style, text: Seq::empty(), link: None }),
    {
        PendingMarkdown { style, text: Vec::new(), link: None }
    }

    pub fn push(&mut self, segment: Vec<u8>, link: Option<LinkMark>)
        ensures
            final(self)@ == pending_pushed(old(self)@, segment@, opt_link_view(link)),
    {
        if let Some(link) = link {
            let same = match &self.link {
                Some((pending_link, _)) => link_eq(pending_link, &link),
                None => false,
            };
            if same {
                match &mut self.link {
                    Some((_, pending_text)) => push_bytes(pending_text, segment.as_slice()),
                    None => {},
                }
                return;
            }
            self.flush_link();
            self.link = Some((link, segment));
        } else {
            self.flush_link();
            push_bytes(&mut self.text, segment.as_slice());
        }
    }

    pub fn flush_link(&mut self)
        ensures
            final(self)@ == pending_flushed(old(self)@),
    {
        let link = self.link.take();
        if let Some((link, pending_text)) = link {
            push_link_markdown(&mut self.text, pending_text.as_slice(), link.url.as_slice());
        }
    }

    pub fn finish(self) -> (r: Vec<u8>)
        ensures
            r@ == pending_finished(self@),
    {
        let mut this = self;
        this.flush_link();
        let style = this.style;
        style.apply(this.text)
    }
}

/// Markdown written so far, and the pending run.
pub struct SegmentScan {
    pub text: Seq<u8>,
    pub pending: Option<PendingView>,
}

/// Adds a segment: it joins the pending run when the emphasis matches;
/// otherwise the pending run is finished and a new one starts.
pub open spec fn segment_pushed(
    acc: SegmentScan,
    seg: Seq<u8>,
    link: Option<LinkMarkView>,
    style: InlineMarkdownStyle,
) -> SegmentScan {
    if acc.pending is Some && acc.pending->0.style == style {
        SegmentScan { text: acc.text, pending: Some(pending_pushed(acc.pending->0, seg, link)) }
    } else {
        let text = match acc.pending {
            Some(p) => acc.text + pending_finished(p),
            None => acc.text,
        };
        SegmentScan {
            text,
            pending: Some(
                pending_pushed(PendingView { style, text: Seq::empty(), link: None }, seg, link),
            ),
        }
    }
}

/// The view of an optional pending run.
pub open spec fn opt_pending_view(p: Option<PendingMarkdown>) -> Option<PendingView> {
    match p {
        Some(x) => Some(x@),
        None => None,
    }
}

pub fn push_markdown_segment(
    text: &mut Vec<u8>,
    pending: &mut Option<PendingMarkdown>,
    segment: Vec<u8>,
    link: Option<LinkMark>,
    style: InlineMarkdownStyle,
)
    ensures
        (SegmentScan { text: final(text)@, pending: opt_pending_view(*final(pending)) })
            == segment_pushed(
            SegmentScan { text: old(text)@, pending: opt_pending_view(*old(pending)) },
            segment@,
            opt_link_view(link),
            style,
        ),
{
    let same = match pending {
        Some(p) => p.style == style,
        None => false,
    };
    if same {
        match pending {
            Some(p) => p.push(segment, link),
            None => {},
        }
        return;
    }
    let prev = pending.take();
    if let Some(p) = prev {
        let finished = p.finish();
        push_bytes(text, finished.as_slice());
    }
    let mut next = PendingMarkdown::new(style);
    next.push(segment, link);
    *pending = Some(next);
}

/// The first mark of `marks`, from index `i` on, that covers all `len` bytes.
pub open spec fn full_range_mark_from(marks: Seq<MarkView>, len: int, i: int) -> Option<TextMarkView>
    decreases marks.len() - i,
{
    if i < 0 || i >= marks.len() {
        None
    } else if marks[i].0.start == 0 && marks[i].0.end == len {
        Some(marks[i].1)
    } else {
        full_range_mark_from(marks, len, i + 1)
    }
}

/// The first mark of the node that covers all of its text.
pub open spec fn full_range_mark_of(c: InlineNodeView) -> Option<TextMarkView> {
    full_range_mark_from(c.marks, c.text.len() as int, 0)
}

/// The first mark of the node that covers all of its text.
pub fn full_range_mark(node: &InlineNode) -> (r: Option<&TextMark>)
    ensures
        match r {
            Some(m) => full_range_mark_of(node@) == Some(m@),
            None => full_range_mark_of(node@) is None,
        },
{
    let mut i: usize = 0;
    while i < node.marks.len()
        invariant
            i <= node.marks@.len(),
            full_range_mark_of(node@) == full_range_mark_from(
                node@.marks,
                node@.text.len() as int,
                i as int,
            ),
        decreases node.marks@.len() - i,
    {
        let (range, mark) = &node.marks[i];
        assert(node@.marks[i as int] == (*range, mark@));
        if range.start == 0 && range.end == node.text.len() {
            return Some(mark);
        }
        i = i + 1;
    }
    None
}

/// Whether a mark is written out in markdown when it does not cover all of
/// its node's text: it has an emphasis, code or a link.
pub open spec fn mark_written(m: TextMarkView) -> bool {
    m.bold || m.italic || m.strikethrough || m.code || m.link is Some
}

/// The marks that a text node writes out lie within its text, on character
/// boundaries (a mark over all of the text always does).
pub open spec fn inline_marks_wf(c: InlineNodeView) -> bool {
    c.math is None ==> forall|k: int|
        0 <= k < c.marks.len() && mark_written(#[trigger] c.marks[k].1) ==> {
            let r = c.marks[k].0;
            &&& r.start <= r.end <= c.text.len()
            &&& char_boundary(c.text, r.start as int)
            &&& char_boundary(c.text, r.end as int)
        }
}

/// The marks of every node of the paragraph are well formed.
pub open spec fn paragraph_marks_wf(p: ParagraphView) -> bool {
    forall|i: int| 0 <= i < p.children.len() ==> inline_marks_wf(#[trigger] p.children[i])
}

/// The markdown of a text node, from its first `n` marks: a mark that covers
/// all text and has a link makes the node that link, with the mark's
/// emphasis; a sole mark covering all text gives its emphasis; any other mark
/// writes its covered text with its markers, the last such mark winning.
pub open spec fn marks_markdown(c: InlineNodeView, n: int) -> (
    Seq<u8>,
    Option<LinkMarkView>,
    InlineMarkdownStyle,
)
    decreases n,
{
    if n <= 0 {
        (c.text, None, plain_style())
    } else {
        let prev = marks_markdown(c, n - 1);
        let range = c.marks[n - 1].0;
        let m = c.marks[n - 1].1;
        let slice = c.text.subrange(range.start as int, range.end as int);
        let full = range.start == 0 && range.end == c.text.len();
        if full && m.link is Some {
            (slice, m.link, style_of(m))
        } else if full && c.marks.len() == 1 {
            (slice, prev.1, style_of(m))
        } else {
            let t1 = if m.bold {
                wrap(stars2(), slice, stars2())
            } else {
                prev.0
            };
            let t2 = if m.italic {
                wrap(star(), slice, star())
            } else {
                t1
            };
            let t3 = if m.strikethrough {
                wrap(tildes(), slice, tildes())
            } else {
                t2
            };
            let t4 = if m.code {
                wrap(tick(), slice, tick())
            } else {
                t3
            };
            if m.link is Some {
                (slice, m.link, prev.2)
            } else {
                (t4, prev.1, prev.2)
            }
        }
    }
}

/// The markdown segment of an inline node, with its link and emphasis: a
/// formula writes its markdown source with the link and emphasis of its
/// full-range mark; other nodes write their text by their marks, followed by
/// the markdown of their image.
pub open spec fn inline_segment(c: InlineNodeView) -> (
    Seq<u8>,
    Option<LinkMarkView>,
    InlineMarkdownStyle,
) {
    if c.math is Some {
        match full_range_mark_of(c) {
            Some(m) => (c.math->0.markdown_source, m.link, style_of(m)),
            None => (c.math->0.markdown_source, None, plain_style()),
        }
    } else {
        let t = marks_markdown(c, c.marks.len() as int);
        (
            if c.image is Some {
                t.0 + image_markdown(c.image->0)
            } else {
                t.0
            },
            t.1,
            t.2,
        )
    }
}

/// Writing the segments of `s` one after the other.
pub open spec fn segments_scan(s: Seq<InlineNodeView>) -> SegmentScan
    decreases s.len(),
{
    if s.len() == 0 {
        SegmentScan { text: Seq::empty(), pending: None }
    } else {
        let seg = inline_segment(s.last());
        segment_pushed(segments_scan(s.drop_last()), seg.0, seg.1, seg.2)
    }
}

/// The inline markdown of a paragraph.
pub open spec fn paragraph_inline_markdown(p: ParagraphView) -> Seq<u8> {
    let scan = segments_scan(p.children);
    match scan.pending {
        Some(pending) => scan.text + pending_finished(pending),
        None => scan.text,
    }
}

/// The markdown segment of an inline node.
fn inline_markdown_segment(node: &InlineNode) -> (r: (Vec<u8>, Option<LinkMark>, InlineMarkdownStyle))
    requires
        inline_marks_wf(node@),
    ensures
        r.0@ == inline_segment(node@).0,
        opt_link_view(r.1) == inline_segment(node@).1,
        r.2 == inline_segment(node@).2,
{
    if let Some(math) = &node.math {
        let text = math.markdown_source();
        match full_range_mark(node) {
            Some(mark) => (text, copy_opt_link(&mark.link), InlineMarkdownStyle::from_mark(mark)),
            None => (text, None, InlineMarkdownStyle::plain()),
        }
    } else {
        let mut text = copy_bytes(&node.text);
        let mut link: Option<LinkMark> = None;
        let mut markdown_style = InlineMarkdownStyle::plain();
        let mut k: usize = 0;
        let tick_b: [u8; 1] = [96];
        let star_b: [u8; 1] = [42];
        let stars_b: [u8; 2] = [42, 42];
        let tildes_b: [u8; 2] = [126, 126];
        assert(tick_b@ =~= tick() && star_b@ =~= star() && stars_b@ =~= stars2() && tildes_b@
            =~= tildes());
        while k < node.marks.len()
            invariant
                k <= node.marks@.len(),
                inline_marks_wf(node@),
                node.math is None,
                tick_b@ == tick() && star_b@ == star() && stars_b@ == stars2() && tildes_b@
                    == tildes(),
                marks_markdown(node@, k as int) == (text@, opt_link_view(link), markdown_style),
            decreases node.marks@.len() - k,
        {
            let (range, style) = &node.marks[k];
            assert(node@.marks[k as int] == (*range, style@));
            let full = range.start == 0 && range.end == node.text.len();
            if full && style.link.is_some() {
                markdown_style = InlineMarkdownStyle::from_mark(style);
                link = copy_opt_link(&style.link);
                text = copy_bytes(&node.text);
                assert(text@ =~= node@.text.subrange(range.start as int, range.end as int));
            } else if full && node.marks.len() == 1 {
                markdown_style = InlineMarkdownStyle::from_mark(style);
                text = copy_bytes(&node.text);
                assert(text@ =~= node@.text.subrange(range.start as int, range.end as int));
            } else if style.bold || style.italic || style.strikethrough || style.code
                || style.link.is_some() {
                assert(mark_written(node@.marks[k as int].1));
                let slice = slice_to_vec(node.text.as_slice(), range.start, range.end);
                if style.bold {
                    text = wrapped(&stars_b, slice.as_slice(), &stars_b);
                }
                if style.italic {
                    text = wrapped(&star_b, slice.as_slice(), &star_b);
                }
                if style.strikethrough {
                    text = wrapped(&tildes_b, slice.as_slice(), &tildes_b);
                }
                if style.code {
                    text = wrapped(&tick_b, slice.as_slice(), &tick_b);
                }
                if style.link.is_some() {
                    link = copy_opt_link(&style.link);
                    text = slice;
                }
            }
            k = k + 1;
        }
        if let Some(image) = &node.image {
            let image_md = image.markdown_source();
            push_bytes(&mut text, image_md.as_slice());
        }
        (text, link, markdown_style)
    }
}

impl Paragraph {
    /// The paragraph as inline markdown.
    pub fn to_inline_markdown(&self) -> (r: Vec<u8>)
        requires
            paragraph_marks_wf(self@),
        ensures
            r@ == paragraph_inline_markdown(self@),
    {
        let ghost cs = self@.children;
        let mut text: Vec<u8> = Vec::new();
        let mut pending: Option<PendingMarkdown> = None;
        let mut i: usize = 0;
        while i < self.children.len()
            invariant
                i <= self.children@.len(),
                cs == self@.children,
                paragraph_marks_wf(self@),
                segments_scan(cs.subrange(0, i as int)) == (SegmentScan {
                    text: text@,
                    pending: opt_pending_view(pending),
                }),
            decreases self.children@.len() - i,
        {
            let node = &self.children[i];
            assert(cs[i as int] == node@);
            assert(inline_marks_wf(cs[i as int]));
            let (segment, link, style) = inline_markdown_segment(node);
            push_markdown_segment(&mut text, &mut pending, segment, link, style);
            i = i + 1;
            assert(cs.subrange(0, i as int).drop_last() =~= cs.subrange(0, i - 1));
        }
        assert(cs.subrange(0, i as int) =~= cs);
        if let Some(p) = pending {
            let finished = p.finish();
            push_bytes(&mut text, finished.as_slice());
        }
        text
    }

    /// The paragraph as markdown: its inline markdown and a blank line.
    pub fn to_markdown(&self) -> (r: Vec<u8>)
        requires
            paragraph_marks_wf(self@),
        ensures
            r@ == paragraph_inline_markdown(self@) + seq![10u8, 10u8],
    {
        let mut text = self.to_inline_markdown();
        text.push(10);
        text.push(10);
        assert(text@ =~= paragraph_inline_markdown(self@) + seq![10u8, 10u8]);
        text
    }
}

/// `markdown` with every line after the first indented by `indent`, except
/// empty lines.
pub open spec fn indent_lines(ls: Seq<Seq<u8>>, indent: Seq<u8>) -> Seq<u8>
    decreases ls.len(),
{
    if ls.len() == 0 {
        Seq::empty()
    } else if ls.len() == 1 {
        ls[0]
    } else {
        indent_lines(ls.drop_last(), indent) + seq![10u8] + (if ls.last().len() > 0 {
            indent
        } else {
            Seq::empty()
        }) + ls.last()
    }
}

/// Indents every line of `markdown` after the first by `indent`, except empty
/// lines.
pub fn indent_markdown_continuation_lines(markdown: &[u8], indent: &[u8]) -> (r: Vec<u8>)
    ensures
        r@ == indent_lines(lines(markdown@), indent@),
{
    let ls = split_lines(markdown);
    let ghost lv = vecs_view(ls@);
    if ls.len() == 0 {
        return Vec::new();
    }
    let mut text = copy_bytes(&ls[0]);
    assert(lv.subrange(0, 1) =~= seq![lv[0]]);
    let mut i: usize = 1;
    while i < ls.len()
        invariant
            1 <= i <= ls@.len(),
            lv == vecs_view(ls@),
            text@ == indent_lines(lv.subrange(0, i as int), indent@),
        decreases ls@.len() - i,
    {
        text.push(10);
        if ls[i].len() > 0 {
            push_bytes(&mut text, indent);
        }
        push_bytes(&mut text, ls[i].as_slice());
        i = i + 1;
        assert(lv.subrange(0, i as int).drop_last() =~= lv.subrange(0, i - 1));
        assert(text@ =~= indent_lines(lv.subrange(0, i as int), indent@));
    }
    assert(lv.subrange(0, i as int) =~= lv);
    text
}

/// The prefix of the `i`th item of a list: "n. " counting from 1 when
/// ordered, "- " otherwise.
pub open spec fn list_marker(i: nat, ordered: bool) -> Seq<u8> {
    if ordered {
        decimal(i + 1) + seq![46u8, 32u8]
    } else {
        seq![45u8, 32u8]
    }
}

/// The markdown of the `i`th item of a list, from the item's markdown: the
/// marker, then the item with its continuation lines indented to the marker's
/// width.
pub open spec fn list_item_markdown(item: Seq<u8>, i: nat, ordered: bool) -> Seq<u8> {
    let marker = list_marker(i, ordered);
    marker + indent_lines(lines(item), repeat(32u8, marker.len()))
}

/// The markdown of a checkbox: "[x] ", "[ ] ", or nothing.
pub open spec fn checkbox_markdown(checked: Option<bool>) -> Seq<u8> {
    match checked {
        Some(true) => seq![91u8, 120u8, 93u8, 32u8],
        Some(false) => seq![91u8, 32u8, 93u8, 32u8],
        None => Seq::empty(),
    }
}

/// The markdown of a column alignment.
pub open spec fn align_markdown(a: ColumnAlign) -> Seq<u8> {
    match a {
        ColumnAlign::Left => seq![58u8, 45u8, 45u8],
        ColumnAlign::Center => seq![58u8, 45u8, 58u8],
        ColumnAlign::Right => seq![45u8, 45u8, 58u8],
    }
}

/// Whether `cell` is a cell of a table's delimiter row: dashes, with an
/// optional colon at either end, and at least one dash.
pub open spec fn is_delimiter_cell(cell: Seq<u8>) -> bool {
    &&& exists|i: int| 0 <= i < cell.len() && #[trigger] cell[i] == 45u8
    &&& forall|i: int|
        0 <= i < cell.len() ==> #[trigger] cell[i] == 45u8 || (cell[i] == 58u8 && (i == 0 || i == cell.len() - 1))
}

/// The alignment that a cell of a table's delimiter row asks for: a colon at
/// both ends centers the column, one at the end alone aligns it right, one at
/// the start alone aligns it left, and none leaves it unspecified.
pub open spec fn delimiter_align(cell: Seq<u8>) -> Option<MdAlignKind> {
    if !is_delimiter_cell(cell) {
        None
    } else {
        let starts = cell[0] == 58u8;
        let ends = cell.last() == 58u8;
        Some(
            if starts && ends {
                MdAlignKind::Center
            } else if ends {
                MdAlignKind::Right
            } else if starts {
                MdAlignKind::Left
            } else {
                MdAlignKind::Unspecified
            },
        )
    }
}

/// Whether a delimiter cell asks for the alignment `a`: right for a
/// right-aligned column, centering for a centered one, left for a left-aligned
/// one.
pub open spec fn cell_reads_as(cell: Seq<u8>, a: ColumnAlign) -> bool {
    delimiter_align(cell) matches Some(k) && ((k is Right <==> a is Right) && (k is Center <==> a is Center) && (k
        is Left <==> a is Left))
}

/// Each column alignment is written as a delimiter cell that reads back as
/// the same alignment: a right-aligned column as one that asks for right
/// alignment, a centered one as one that asks for centering, a left-aligned
/// one as one that asks for left alignment.
pub proof fn lemma_align_markdown_reads_back(a: ColumnAlign)
    ensures
        cell_reads_as(align_markdown(a), a),
{
    let m = align_markdown(a);
    assert(m[1] == 45u8);
    assert(is_delimiter_cell(m));
}

/// The markdown of a table holds, after its header row, a delimiter row with
/// one cell per column, each of which reads back as that column's alignment.
pub proof fn lemma_table_markdown_alignment_row(t: TableView)
    ensures
        exists|head: Seq<u8>, cells: Seq<Seq<u8>>, rest: Seq<u8>|
            {
                &&& table_markdown(t) == head + seq![10u8] + join(cells, cell_sep()) + seq![10u8] + rest
                &&& cells.len() == t.column_aligns.len()
                &&& forall|i: int| 0 <= i < cells.len() ==> #[trigger] cell_reads_as(cells[i], t.column_aligns[i])
            },
{
    let head = if t.rows.len() > 0 {
        row_markdown(t.rows[0])
    } else {
        Seq::empty()
    };
    let cells = Seq::new(t.column_aligns.len(), |i: int| align_markdown(t.column_aligns[i]));
    let n: nat = if t.rows.len() > 0 {
        (t.rows.len() - 1) as nat
    } else {
        0
    };
    let rest = join(Seq::new(n, |i: int| row_markdown(t.rows[i + 1])), seq![10u8]);
    assert forall|i: int| 0 <= i < cells.len() implies #[trigger] cell_reads_as(cells[i], t.column_aligns[i]) by {
        lemma_align_markdown_reads_back(t.column_aligns[i]);
    }
    assert(table_markdown(t) == head + seq![10u8] + join(cells, cell_sep()) + seq![10u8] + rest);
}

/// " | " as bytes.
pub open spec fn cell_sep() -> Seq<u8> {
    seq![32u8, 124u8, 32u8]
}

/// The cells of a table row, as inline markdown joined by " | ".
pub open spec fn row_markdown(cells: Seq<ParagraphView>) -> Seq<u8> {
    join(Seq::new(cells.len(), |i: int| paragraph_inline_markdown(cells[i])), cell_sep())
}

/// A table as markdown: the header row, the alignment row and the other rows,
/// one per line.
pub open spec fn table_markdown(t: TableView) -> Seq<u8> {
    let header = if t.rows.len() > 0 {
        row_markdown(t.rows[0])
    } else {
        Seq::empty()
    };
    let aligns = join(
        Seq::new(t.column_aligns.len(), |i: int| align_markdown(t.column_aligns[i])),
        cell_sep(),
    );
    let n: nat = if t.rows.len() > 0 {
        (t.rows.len() - 1) as nat
    } else {
        0
    };
    let rows = join(Seq::new(n, |i: int| row_markdown(t.rows[i + 1])), seq![10u8]);
    header + seq![10u8] + aligns + seq![10u8] + rows
}

/// A fenced code block as markdown.
pub open spec fn code_markdown(lang: Option<Seq<u8>>, code: Seq<u8>) -> Seq<u8> {
    seq![96u8, 96u8, 96u8] + or_empty(lang) + seq![10u8] + code + seq![10u8, 96u8, 96u8, 96u8]
}

/// A link reference definition as markdown.
pub open spec fn definition_markdown(id: Seq<u8>, url: Seq<u8>, title: Option<Seq<u8>>) -> Seq<u8> {
    let head = seq![91u8] + id + seq![93u8, 58u8, 32u8] + url;
    match title {
        Some(t) => head + seq![32u8, 34u8] + t + seq![34u8],
        None => head,
    }
}

/// The markdown of a block, trimmed of surrounding white space.
pub open spec fn block_markdown(b: BlockNodeView) -> Seq<u8>
    decreases b,
{
    let nn = seq![10u8, 10u8];
    trim(
        match b {
            BlockNodeView::Root { children, .. } => join(blocks_markdown(children), nn),
            BlockNodeView::Paragraph(p) => paragraph_inline_markdown(p) + nn,
            BlockNodeView::Heading { level, children, .. } => repeat(35u8, level as nat) + seq![
                32u8,
            ] + paragraph_inline_markdown(children) + nn,
            BlockNodeView::Blockquote { children, .. } => {
                let ls = lines(join(blocks_markdown(children), nn));
                join(Seq::new(ls.len(), |i: int| seq![62u8, 32u8] + ls[i]), seq![10u8])
            },
            BlockNodeView::List { children, ordered, .. } => join(
                list_items_markdown(children, ordered),
                seq![10u8],
            ),
            BlockNodeView::ListItem { children, checked, .. } => checkbox_markdown(checked) + join(
                blocks_markdown(children),
                nn,
            ),
            BlockNodeView::CodeBlock(c) => code_markdown(c.lang, c.state.text),
            BlockNodeView::Math(m) => m.markdown_source,
            BlockNodeView::Table(t) => table_markdown(t),
            BlockNodeView::Break { html, .. } => if html {
                seq![60u8, 98u8, 114u8, 62u8]
            } else {
                seq![10u8]
            },
            BlockNodeView::HorizontalRule { .. } => seq![45u8, 45u8, 45u8],
            BlockNodeView::Definition { identifier, url, title, .. } => definition_markdown(
                identifier,
                url,
                title,
            ),
            BlockNodeView::Unknown => Seq::empty(),
        },
    )
}

/// The markdown of each block of `s`.
pub open spec fn blocks_markdown(s: Seq<BlockNodeView>) -> Seq<Seq<u8>>
    decreases s,
{
    if s.len() == 0 {
        Seq::empty()
    } else {
        blocks_markdown(s.drop_last()).push(block_markdown(s.last()))
    }
}

/// The markdown of each item of a list.
pub open spec fn list_items_markdown(s: Seq<BlockNodeView>, ordered: bool) -> Seq<Seq<u8>>
    decreases s,
{
    if s.len() == 0 {
        Seq::empty()
    } else {
        list_items_markdown(s.drop_last(), ordered).push(
            list_item_markdown(block_markdown(s.last()), (s.len() - 1) as nat, ordered),
        )
    }
}

/// Every paragraph of the block has well-formed marks.
pub open spec fn block_marks_wf(b: BlockNodeView) -> bool
    decreases b,
{
    match b {
        BlockNodeView::Root { children, .. } => blocks_marks_wf(children),
        BlockNodeView::Paragraph(p) => paragraph_marks_wf(p),
        BlockNodeView::Heading { children, .. } => paragraph_marks_wf(children),
        BlockNodeView::List { children, .. } => blocks_marks_wf(children),
        BlockNodeView::ListItem { children, .. } => blocks_marks_wf(children),
        BlockNodeView::Blockquote { children, .. } => blocks_marks_wf(children),
        BlockNodeView::Table(t) => forall|i: int, j: int|
            0 <= i < t.rows.len() && 0 <= j < t.rows[i].len() ==> paragraph_marks_wf(
                #[trigger] t.rows[i][j],
            ),
        _ => true,
    }
}

/// Every block of `s` has well-formed marks.
pub open spec fn blocks_marks_wf(s: Seq<BlockNodeView>) -> bool
    decreases s,
{
    if s.len() == 0 {
        true
    } else {
        blocks_marks_wf(s.drop_last()) && block_marks_wf(s.last())
    }
}

/// Each block of a sequence with well-formed marks has well-formed marks.
pub proof fn lemma_blocks_marks_wf_index(s: Seq<BlockNodeView>, i: int)
    requires
        blocks_marks_wf(s),
        0 <= i < s.len(),
    ensures
        block_marks_wf(s[i]),
    decreases s.len(),
{
    if i < s.len() - 1 {
        lemma_blocks_marks_wf_index(s.drop_last(), i);
    }
}

/// The inline markdown of a table row.
fn row_to_markdown(row: &crate::node::TableRow) -> (r: Vec<u8>)
    requires
        forall|j: int|
            0 <= j < crate::node::row_view(*row).len() ==> paragraph_marks_wf(
                #[trigger] crate::node::row_view(*row)[j],
            ),
    ensures
        r@ == row_markdown(crate::node::row_view(*row)),
{
    let ghost cells = crate::node::row_view(*row);
    let mut parts: Vec<Vec<u8>> = Vec::new();
    let mut j: usize = 0;
    while j < row.children.len()
        invariant
            j <= row.children@.len(),
            cells == crate::node::row_view(*row),
            forall|k: int| 0 <= k < cells.len() ==> paragraph_marks_wf(#[trigger] cells[k]),
            vecs_view(parts@) == Seq::new(j as nat, |i: int| paragraph_inline_markdown(cells[i])),
        decreases row.children@.len() - j,
    {
        assert(cells[j as int] == row.children[j as int].children@);
        let md = row.children[j].children.to_inline_markdown();
        let ghost before = vecs_view(parts@);
        let ghost mdv = md@;
        parts.push(md);
        assert(vecs_view(parts@) =~= before.push(mdv));
        j = j + 1;
        assert(vecs_view(parts@) =~= Seq::new(
            j as nat,
            |i: int| paragraph_inline_markdown(cells[i]),
        ));
    }
    let sep: [u8; 3] = [32, 124, 32];
    assert(sep@ =~= cell_sep());
    assert(vecs_view(parts@) =~= Seq::new(cells.len(), |i: int| paragraph_inline_markdown(cells[i])));
    assert(Seq::new(parts@.len(), |i: int| parts@[i]@) =~= vecs_view(parts@));
    join_bytes(&parts, &sep)
}

/// The markdown of a table.
fn table_to_markdown(table: &Table) -> (r: Vec<u8>)
    requires
        block_marks_wf(BlockNodeView::Table(table@)),
    ensures
        r@ == table_markdown(table@),
{
    let ghost t = table@;
    let mut out: Vec<u8> = Vec::new();
    if table.children.len() > 0 {
        assert(t.rows[0] == crate::node::row_view(table.children[0]));
        assert forall|j: int|
            0 <= j < crate::node::row_view(table.children@[0]).len() implies paragraph_marks_wf(
            #[trigger] crate::node::row_view(table.children@[0])[j],
        ) by {
            assert(paragraph_marks_wf(t.rows[0][j]));
        }
        let header = row_to_markdown(&table.children[0]);
        push_bytes(&mut out, header.as_slice());
    }
    out.push(10);
    let mut aligns: Vec<Vec<u8>> = Vec::new();
    let mut a: usize = 0;
    while a < table.column_aligns.len()
        invariant
            a <= table.column_aligns@.len(),
            t == table@,
            vecs_view(aligns@) == Seq::new(
                a as nat,
                |i: int| align_markdown(t.column_aligns[i]),
            ),
        decreases table.column_aligns@.len() - a,
    {
        let mut md: Vec<u8> = Vec::new();
        match table.column_aligns[a] {
            ColumnAlign::Left => {
                md.push(58);
                md.push(45);
                md.push(45);
            },
            ColumnAlign::Center => {
                md.push(58);
                md.push(45);
                md.push(58);
            },
            ColumnAlign::Right => {
                md.push(45);
                md.push(45);
                md.push(58);
            },
        }
        assert(md@ =~= align_markdown(t.column_aligns[a as int]));
        let ghost before = vecs_view(aligns@);
        let ghost mdv = md@;
        aligns.push(md);
        assert(vecs_view(aligns@) =~= before.push(mdv));
        a = a + 1;
        assert(vecs_view(aligns@) =~= Seq::new(
            a as nat,
            |i: int| align_markdown(t.column_aligns[i]),
        ));
    }
    let sep: [u8; 3] = [32, 124, 32];
    assert(sep@ =~= cell_sep());
    assert(Seq::new(aligns@.len(), |i: int| aligns@[i]@) =~= vecs_view(aligns@));
    let aligns_md = join_bytes(&aligns, &sep);
    push_bytes(&mut out, aligns_md.as_slice());
    out.push(10);
    let mut rows: Vec<Vec<u8>> = Vec::new();
    let mut r: usize = 1;
    while r < table.children.len()
        invariant
            1 <= r <= table.children@.len() || (r == 1 && table.children@.len() == 0),
            t == table@,
            block_marks_wf(BlockNodeView::Table(table@)),
            vecs_view(rows@) == Seq::new((r - 1) as nat, |i: int| row_markdown(t.rows[i + 1])),
        decreases table.children@.len() - r,
    {
        assert(t.rows[r as int] == crate::node::row_view(table.children[r as int]));
        assert forall|j: int|
            0 <= j < crate::node::row_view(table.children@[r as int]).len() implies paragraph_marks_wf(
            #[trigger] crate::node::row_view(table.children@[r as int])[j],
        ) by {
            assert(paragraph_marks_wf(t.rows[r as int][j]));
        }
        let md = row_to_markdown(&table.children[r]);
        let ghost before = vecs_view(rows@);
        let ghost mdv = md@;
        rows.push(md);
        assert(vecs_view(rows@) =~= before.push(mdv));
        r = r + 1;
        assert(vecs_view(rows@) =~= Seq::new((r - 1) as nat, |i: int| row_markdown(t.rows[i + 1])));
    }
    let nl: [u8; 1] = [10];
    assert(nl@ =~= seq![10u8]);
    assert(Seq::new(rows@.len(), |i: int| rows@[i]@) =~= vecs_view(rows@));
    let ghost n: nat = if t.rows.len() > 0 {
        (t.rows.len() - 1) as nat
    } else {
        0
    };
    assert(vecs_view(rows@) =~= Seq::new(n, |i: int| row_markdown(t.rows[i + 1])));
    let rows_md = join_bytes(&rows, &nl);
    push_bytes(&mut out, rows_md.as_slice());
    assert(out@ =~= table_markdown(t));
    out
}

impl BlockNode {
    /// Converts the node back to markdown-like source.
    pub fn to_markdown(&self) -> (r: Vec<u8>)
        requires
            block_marks_wf(self@),
        ensures
            r@ == block_markdown(self@),
        decreases self,
    {
        let mut out: Vec<u8> = Vec::new();
        let nn: [u8; 2] = [10, 10];
        let nl: [u8; 1] = [10];
        assert(nn@ =~= seq![10u8, 10u8] && nl@ =~= seq![10u8]);
        match self {
            BlockNode::Root { children, .. } => {
                assert(blocks_view(children@) =~= match self@ {
                    BlockNodeView::Root { children, .. } => children,
                    _ => Seq::empty(),
                });
                let parts = Self::children_markdown(children);
                assert(Seq::new(parts@.len(), |i: int| parts@[i]@) =~= vecs_view(parts@));
                out = join_bytes(&parts, &nn);
            },
            BlockNode::Paragraph(paragraph) => {
                out = paragraph.to_markdown();
            },
            BlockNode::Heading { level, children, .. } => {
                push_repeat(&mut out, 35, *level as usize);
                out.push(32);
                let md = children.to_markdown();
                push_bytes(&mut out, md.as_slice());
            },
            BlockNode::Blockquote { children, .. } => {
                assert(blocks_view(children@) =~= match self@ {
                    BlockNodeView::Blockquote { children, .. } => children,
                    _ => Seq::empty(),
                });
                let parts = Self::children_markdown(children);
                assert(Seq::new(parts@.len(), |i: int| parts@[i]@) =~= vecs_view(parts@));
                let content = join_bytes(&parts, &nn);
                let ls = split_lines(content.as_slice());
                let ghost lv = vecs_view(ls@);
                let mut quoted: Vec<Vec<u8>> = Vec::new();
                let mut i: usize = 0;
                while i < ls.len()
                    invariant
                        i <= ls@.len(),
                        lv == vecs_view(ls@),
                        vecs_view(quoted@) == Seq::new(
                            i as nat,
                            |k: int| seq![62u8, 32u8] + lv[k],
                        ),
                    decreases ls@.len() - i,
                {
                    let mut q: Vec<u8> = Vec::new();
                    q.push(62);
                    q.push(32);
                    push_bytes(&mut q, ls[i].as_slice());
                    assert(q@ =~= seq![62u8, 32u8] + lv[i as int]);
                    let ghost before = vecs_view(quoted@);
                    let ghost qv = q@;
                    quoted.push(q);
                    assert(vecs_view(quoted@) =~= before.push(qv));
                    i = i + 1;
                    assert(vecs_view(quoted@) =~= Seq::new(
                        i as nat,
                        |k: int| seq![62u8, 32u8] + lv[k],
                    ));
                }
                assert(Seq::new(quoted@.len(), |i: int| quoted@[i]@) =~= vecs_view(quoted@));
                out = join_bytes(&quoted, &nl);
            },
            BlockNode::List { children, ordered, .. } => {
                assert(blocks_view(children@) =~= match self@ {
                    BlockNodeView::List { children, .. } => children,
                    _ => Seq::empty(),
                });
                let items = Self::list_items_to_markdown(children, *ordered);
                assert(Seq::new(items@.len(), |i: int| items@[i]@) =~= vecs_view(items@));
                out = join_bytes(&items, &nl);
            },
            BlockNode::ListItem { children, checked, .. } => {
                assert(blocks_view(children@) =~= match self@ {
                    BlockNodeView::ListItem { children, .. } => children,
                    _ => Seq::empty(),
                });
                match checked {
                    Some(true) => {
                        out.push(91);
                        out.push(120);
                        out.push(93);
                        out.push(32);
                    },
                    Some(false) => {
                        out.push(91);
                        out.push(32);
                        out.push(93);
                        out.push(32);
                    },
                    None => {},
                }
                let parts = Self::children_markdown(children);
                assert(Seq::new(parts@.len(), |i: int| parts@[i]@) =~= vecs_view(parts@));
                let body = join_bytes(&parts, &nn);
                push_bytes(&mut out, body.as_slice());
            },
            BlockNode::CodeBlock(code_block) => {
                out.push(96);
                out.push(96);
                out.push(96);
                if let Some(lang) = &code_block.lang {
                    push_bytes(&mut out, lang.as_slice());
                }
                out.push(10);
                push_bytes(&mut out, code_block.state.text.as_slice());
                out.push(10);
                out.push(96);
                out.push(96);
                out.push(96);
            },
            BlockNode::Math(math) => {
                out = math.markdown_source();
            },
            BlockNode::Table(table) => {
                out = table_to_markdown(table);
            },
            BlockNode::Break { html, .. } => {
                if *html {
                    out.push(60);
                    out.push(98);
                    out.push(114);
                    out.push(62);
                } else {
                    out.push(10);
                }
            },
            BlockNode::HorizontalRule { .. } => {
                out.push(45);
                out.push(45);
                out.push(45);
            },
            BlockNode::Definition { identifier, url, title, .. } => {
                out.push(91);
                push_bytes(&mut out, identifier.as_slice());
                out.push(93);
                out.push(58);
                out.push(32);
                push_bytes(&mut out, url.as_slice());
                if let Some(t) = title {
                    out.push(32);
                    out.push(34);
                    push_bytes(&mut out, t.as_slice());
                    out.push(34);
                }
            },
            BlockNode::Unknown => {},
        }
        assert(out@ =~= match self@ {
            BlockNodeView::Root { children, .. } => join(blocks_markdown(children), seq![10u8, 10u8]),
            BlockNodeView::Paragraph(p) => paragraph_inline_markdown(p) + seq![10u8, 10u8],
            BlockNodeView::Heading { level, children, .. } => repeat(35u8, level as nat) + seq![
                32u8,
            ] + paragraph_inline_markdown(children) + seq![10u8, 10u8],
            BlockNodeView::Blockquote { children, .. } => {
                let ls = lines(join(blocks_markdown(children), seq![10u8, 10u8]));
                join(Seq::new(ls.len(), |i: int| seq![62u8, 32u8] + ls[i]), seq![10u8])
            },
            BlockNodeView::List { children, ordered, .. } => join(
                list_items_markdown(children, ordered),
                seq![10u8],
            ),
            BlockNodeView::ListItem { children, checked, .. } => checkbox_markdown(checked) + join(
                blocks_markdown(children),
                seq![10u8, 10u8],
            ),
            BlockNodeView::CodeBlock(c) => code_markdown(c.lang, c.state.text),
            BlockNodeView::Math(m) => m.markdown_source,
            BlockNodeView::Table(t) => table_markdown(t),
            BlockNodeView::Break { html, .. } => if html {
                seq![60u8, 98u8, 114u8, 62u8]
            } else {
                seq![10u8]
            },
            BlockNodeView::HorizontalRule { .. } => seq![45u8, 45u8, 45u8],
            BlockNodeView::Definition { identifier, url, title, .. } => definition_markdown(
                identifier,
                url,
                title,
            ),
            BlockNodeView::Unknown => Seq::empty(),
        });
        trim_bytes(out.as_slice())
    }

    /// The markdown of each of `children`.
    pub(crate) fn children_markdown(children: &Vec<BlockNode>) -> (r: Vec<Vec<u8>>)
        requires
            blocks_marks_wf(blocks_view(children@)),
        ensures
            vecs_view(r@) == blocks_markdown(blocks_view(children@)),
        decreases children,
    {
        let ghost bs = blocks_view(children@);
        let mut out: Vec<Vec<u8>> = Vec::new();
        let mut i: usize = 0;
        while i < children.len()
            invariant
                i <= children@.len(),
                bs == blocks_view(children@),
                blocks_marks_wf(bs),
                vecs_view(out@) == blocks_markdown(bs.subrange(0, i as int)),
            decreases children@.len() - i,
        {
            proof {
                lemma_blocks_marks_wf_index(bs, i as int);
            }
            let md = children[i].to_markdown();
            let ghost before = vecs_view(out@);
            out.push(md);
            i = i + 1;
            assert(bs.subrange(0, i as int).drop_last() =~= bs.subrange(0, i - 1));
            assert(vecs_view(out@) =~= before.push(block_markdown(bs[i - 1])));
        }
        assert(bs.subrange(0, i as int) =~= bs);
        out
    }

    /// The markdown of each item of a list.
    fn list_items_to_markdown(children: &Vec<BlockNode>, ordered: bool) -> (r: Vec<Vec<u8>>)
        requires
            blocks_marks_wf(blocks_view(children@)),
        ensures
            vecs_view(r@) == list_items_markdown(blocks_view(children@), ordered),
        decreases children,
    {
        let ghost bs = blocks_view(children@);
        let mut out: Vec<Vec<u8>> = Vec::new();
        let mut i: usize = 0;
        while i < children.len()
            invariant
                i <= children@.len(),
                bs == blocks_view(children@),
                blocks_marks_wf(bs),
                vecs_view(out@) == list_items_markdown(bs.subrange(0, i as int), ordered),
            decreases children@.len() - i,
        {
            proof {
                lemma_blocks_marks_wf_index(bs, i as int);
            }
            let md = children[i].to_markdown();
            let mut prefix: Vec<u8> = Vec::new();
            if ordered {
                push_decimal(&mut prefix, i + 1);
                prefix.push(46);
                prefix.push(32);
            } else {
                prefix.push(45);
                prefix.push(32);
            }
            assert(prefix@ =~= list_marker(i as nat, ordered));
            let mut indent: Vec<u8> = Vec::new();
            push_repeat(&mut indent, 32, prefix.len());
            let content = indent_markdown_continuation_lines(md.as_slice(), indent.as_slice());
            let mut item = prefix;
            push_bytes(&mut item, content.as_slice());
            let ghost before = vecs_view(out@);
            out.push(item);
            i = i + 1;
            assert(bs.subrange(0, i as int).drop_last() =~= bs.subrange(0, i - 1));
            assert(vecs_view(out@) =~= before.push(
                list_item_markdown(block_markdown(bs[i - 1]), (i - 1) as nat, ordered),
            ));
        }
        assert(bs.subrange(0, i as int) =~= bs);
        out
    }
}

} // verus!
