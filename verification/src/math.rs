//! Math nodes: TeX sources with their markdown form and selection state.

use vstd::prelude::*;

use crate::bytes::{copy_bytes, push_bytes};
use crate::inline::{InlineState, InlineStateView, Selection, state_selected, state_wf};
use crate::node::Span;

verus! {

/// A math formula, inline or display.
#[derive(Clone, Debug)]
pub struct MathNode {
    pub source: Vec<u8>,
    pub markdown_source: Vec<u8>,
    pub display: bool,
    pub state: InlineState,
    pub span: Option<Span>,
}

/// The contents of a [`MathNode`].
pub struct MathNodeView {
    pub source: Seq<u8>,
    pub markdown_source: Seq<u8>,
    pub display: bool,
    pub state: InlineStateView,
    pub span: Option<Span>,
}

impl View for MathNode {
    type V = MathNodeView;

    open spec fn view(&self) -> MathNodeView {
        MathNodeView {
            source: self.source@,
            markdown_source: self.markdown_source@,
            display: self.display,
            state: self.state@,
            span: self.span,
        }
    }
}

/// The selected text of a math node.
pub open spec fn math_selected(m: MathNodeView) -> Seq<u8> {
    state_selected(m.state)
}

impl MathNode {
    pub fn span(&self) -> (r: Option<Span>)
        ensures
            r == self.span,
    {
        self.span
    }

    pub fn source(&self) -> (r: &Vec<u8>)
        ensures
            r@ == self.source@,
    {
        &self.source
    }

    pub fn is_display(&self) -> (r: bool)
        ensures
            r == self.display,
    {
        self.display
    }

    pub fn markdown_source(&self) -> (r: Vec<u8>)
        ensures
            r@ == self.markdown_source@,
    {
        copy_bytes(&self.markdown_source)
    }

    pub fn selected_text(&self) -> (r: Vec<u8>)
        requires
            state_wf(self.state@),
        ensures
            r@ == math_selected(self@),
    {
        self.state.selected()
    }

    /// A copy of this node.
    pub fn duplicate(&self) -> (r: Self)
        ensures
            r@ == self@,
    {
        MathNode {
            source: copy_bytes(&self.source),
            markdown_source: copy_bytes(&self.markdown_source),
            display: self.display,
            state: self.state.duplicate(),
            span: self.span,
        }
    }
}

/// The markdown form of a formula: `$$`, a newline, the source, a newline and
/// `$$` for display math; the source between single dollars otherwise.
pub open spec fn math_markdown(source: Seq<u8>, display: bool) -> Seq<u8> {
    if display {
        seq![36u8, 36u8, 10u8] + source + seq![10u8, 36u8, 36u8]
    } else {
        seq![36u8] + source + seq![36u8]
    }
}

/// The markdown form of a formula.
pub fn math_markdown_source(source: &[u8], display: bool) -> (r: Vec<u8>)
    ensures
        r@ == math_markdown(source@, display),
{
    let mut out: Vec<u8> = Vec::new();
    if display {
        out.push(36);
        out.push(36);
        out.push(10);
        push_bytes(&mut out, source);
        out.push(10);
        out.push(36);
        out.push(36);
    } else {
        out.push(36);
        push_bytes(&mut out, source);
        out.push(36);
    }
    assert(out@ =~= math_markdown(source@, display));
    out
}

/// What `ratex_parser::parse` makes of the UTF-8 text `source` (invalid
/// sequences read as U+FFFD): success, or the message of its error.
pub uninterp spec fn tex_parse_outcome(source: Seq<u8>) -> Result<(), Seq<u8>>;

/// Parses `source` as TeX with `ratex_parser::parse`, keeping only whether it
/// parsed and, when not, the error's message. The contract claims only that
/// this equals `tex_parse_outcome` of the source.
#[verifier::external_body]
fn parse_tex(source: &[u8]) -> (r: Result<(), Vec<u8>>)
    ensures
        match r {
            Ok(()) => tex_parse_outcome(source@) == Ok::<(), Seq<u8>>(()),
            Err(e) => tex_parse_outcome(source@) == Err::<(), Seq<u8>>(e@),
        },
{
    match ratex_parser::parse(&String::from_utf8_lossy(source)) {
        Ok(_) => Ok(()),
        Err(err) => Err(err.to_string().into_bytes()),
    }
}

/// A formula whose markdown form is `markdown_source`, with that text
/// rendered and nothing selected.
pub open spec fn math_view(source: Seq<u8>, markdown_source: Seq<u8>, display: bool) -> MathNodeView {
    MathNodeView {
        source,
        markdown_source,
        display,
        state: InlineStateView { text: markdown_source, selection: None },
        span: None,
    }
}

impl MathNode {
    /// A formula from its TeX source; fails with the parser's message when the
    /// source does not parse.
    pub fn try_new(source: Vec<u8>, display: bool) -> (r: Result<Self, Vec<u8>>)
        ensures
            match r {
                Ok(m) => tex_parse_outcome(source@) is Ok && m@ == math_view(
                    source@,
                    math_markdown(source@, display),
                    display,
                ),
                Err(e) => tex_parse_outcome(source@) == Err::<(), Seq<u8>>(e@),
            },
    {
        let markdown_source = math_markdown_source(source.as_slice(), display);
        match parse_tex(source.as_slice()) {
            Ok(()) => Ok(Self::fallback(source, markdown_source, display)),
            Err(e) => Err(e),
        }
    }

    /// A formula that is shown by its markdown form.
    pub fn fallback(source: Vec<u8>, markdown_source: Vec<u8>, display: bool) -> (r: Self)
        ensures
            r@ == math_view(source@, markdown_source@, display),
    {
        let mut state = InlineState::new();
        state.set_text(copy_bytes(&markdown_source));
        MathNode { source, markdown_source, display, state, span: None }
    }

    pub fn with_span(self, span: Option<Span>) -> (r: Self)
        ensures
            r@ == (MathNodeView { span, ..self@ }),
    {
        MathNode { span, ..self }
    }

    /// The same formula, written in markdown as `markdown_source`.
    pub fn with_markdown_source(self, markdown_source: Vec<u8>) -> (r: Self)
        ensures
            r@ == (MathNodeView {
                markdown_source: markdown_source@,
                state: InlineStateView { text: markdown_source@, ..self@.state },
                ..self@
            }),
    {
        let mut this = self;
        this.state.set_text(copy_bytes(&markdown_source));
        this.markdown_source = markdown_source;
        this
    }
}


/// A formula shows its markdown form, so selecting all that it shows selects
/// exactly its markdown form; such a selection is well formed.
pub proof fn lemma_math_select_all(m: MathNodeView)
    requires
        m.state.text == m.markdown_source,
        m.markdown_source.len() <= usize::MAX,
    ensures
        ({
            let all = MathNodeView {
                state: InlineStateView {
                    selection: Some(Selection { start: 0, end: m.markdown_source.len() as usize }),
                    ..m.state
                },
                ..m
            };
            &&& state_wf(all.state)
            &&& math_selected(all) == m.markdown_source
        }),
{
    assert(m.markdown_source.subrange(0, m.markdown_source.len() as int) =~= m.markdown_source);
}

} // verus!
