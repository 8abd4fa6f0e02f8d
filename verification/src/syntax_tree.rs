//! The markdown parser's syntax tree of a source text, as the library's plain
//! tree ([`MdNode`]).
//!
//! The parser's tree holds over thirty kinds of node. The conversion below
//! has one arm for each kind, split over a few short functions; none of it
//! decides anything but which kind a node is.

use vstd::prelude::*;
use vstd::string::{StrSliceExecFns, StringSliceAdditionalSpecFns};

use crate::markdown::{MdAlignKind, MdKind, MdNode, Position};
use crate::options::{MdConstructs, MdParseOptions};

verus! {

// The parser's node, options and column alignment, carried as opaque values.
#[verifier::external_type_specification]
#[verifier::external_body]
pub struct ExMdastNode(::markdown::mdast::Node);

#[verifier::external_type_specification]
#[verifier::external_body]
pub struct ExMarkdownParseOptions(::markdown::ParseOptions);

#[verifier::external_type_specification]
#[verifier::external_body]
pub struct ExMdastAlignKind(::markdown::mdast::AlignKind);

/// A node of the markdown parser's syntax tree.
type MdastNode = ::markdown::mdast::Node;

/// The UTF-8 bytes of a string.
pub fn str_bytes(s: &str) -> (r: Vec<u8>)
    ensures
        r@ == s.spec_bytes(),
{
    s.as_bytes_vec()
}

/// The syntax tree that `markdown::to_mdast` makes of `source` with
/// `options`, as the library's plain tree, or the parser's message when it
/// refuses the text (and the UTF-8 decoder's message when `source` is not
/// UTF-8).
pub uninterp spec fn mdast_of(source: Seq<u8>, options: MdParseOptions) -> Result<MdNode, Seq<u8>>;

/// Calls `markdown::to_mdast` on the source with the options and converts
/// the tree it gives into the library's plain tree (or its message into
/// bytes). The contract claims only that the result is `mdast_of` of the
/// source and the options.
#[verifier::external_body]
pub(crate) fn to_md_tree(source: &[u8], options: &MdParseOptions) -> (r: Result<MdNode, Vec<u8>>)
    ensures
        match (r, mdast_of(source@, *options)) {
            (Ok(t), Ok(u)) => t == u,
            (Err(e), Err(f)) => e@ == f,
            _ => false,
        },
{
    match std::str::from_utf8(source) {
        Ok(s) => match markdown::to_mdast(s, &parser_options(options)) {
            Ok(tree) => Ok(md_node(&tree)),
            Err(message) => Err(message.to_string().into_bytes()),
        },
        Err(e) => Err(e.to_string().into_bytes()),
    }
}

/// The library's parse options as `markdown::ParseOptions`, field by field
/// (no MDX expression or ESM parser). Nothing is stated of it.
#[verifier::external_body]
fn parser_options(o: &MdParseOptions) -> markdown::ParseOptions {
    let MdConstructs { attention, autolink, block_quote, character_escape, character_reference, code_indented, code_fenced, code_text, definition,
        frontmatter, gfm_autolink_literal, gfm_footnote_definition, gfm_label_start_footnote, gfm_strikethrough, gfm_table, gfm_task_list_item,
        hard_break_escape, hard_break_trailing, heading_atx, heading_setext, html_flow, html_text, label_start_image, label_start_link, label_end,
        list_item, math_flow, math_text, mdx_esm, mdx_expression_flow, mdx_expression_text, mdx_jsx_flow, mdx_jsx_text, thematic_break } = o.constructs;
    let constructs = markdown::Constructs { attention, autolink, block_quote, character_escape, character_reference, code_indented, code_fenced,
        code_text, definition, frontmatter, gfm_autolink_literal, gfm_footnote_definition, gfm_label_start_footnote, gfm_strikethrough, gfm_table,
        gfm_task_list_item, hard_break_escape, hard_break_trailing, heading_atx, heading_setext, html_flow, html_text, label_start_image,
        label_start_link, label_end, list_item, math_flow, math_text, mdx_esm, mdx_expression_flow, mdx_expression_text, mdx_jsx_flow,
        mdx_jsx_text, thematic_break };
    let (gfm_strikethrough_single_tilde, math_text_single_dollar) = (o.gfm_strikethrough_single_tilde, o.math_text_single_dollar);
    markdown::ParseOptions { constructs, gfm_strikethrough_single_tilde, math_text_single_dollar, mdx_expression_parse: None, mdx_esm_parse: None }
}

/// A node of the parser's tree as a node of the library's plain tree: its
/// kind, its children in order and the byte offsets of its position.
/// Nothing is stated of it.
#[verifier::external_body]
fn md_node(node: &MdastNode) -> MdNode {
    MdNode {
        kind: md_kind(node),
        children: node.children().map_or(Vec::new(), |cs| cs.iter().map(md_node).collect()),
        position: node.position().map(|p| Position { start: p.start.offset, end: p.end.offset }),
    }
}

/// The kind of a node of the parser's tree, with its fields: here the kinds
/// that hold nothing but children, the others in [`md_block_kind`]. Nothing
/// is stated of it.
#[verifier::external_body]
fn md_kind(node: &MdastNode) -> MdKind {
    match node {
        MdastNode::Root(_) => MdKind::Root,
        MdastNode::Paragraph(_) => MdKind::Paragraph,
        MdastNode::Emphasis(_) => MdKind::Emphasis,
        MdastNode::Strong(_) => MdKind::Strong,
        MdastNode::Delete(_) => MdKind::Delete,
        MdastNode::Blockquote(_) => MdKind::Blockquote,
        MdastNode::TableRow(_) => MdKind::TableRow,
        MdastNode::TableCell(_) => MdKind::TableCell,
        MdastNode::MdxJsxTextElement(_) => MdKind::MdxJsxTextElement,
        MdastNode::MdxJsxFlowElement(_) => MdKind::MdxJsxFlowElement,
        _ => md_block_kind(node),
    }
}

/// The kind of a node of the parser's tree, for lists, list items,
/// headings, tables, code and math blocks; the others in [`md_text_kind`].
/// Nothing is stated of it.
#[verifier::external_body]
fn md_block_kind(node: &MdastNode) -> MdKind {
    match node {
        MdastNode::List(l) => MdKind::List { ordered: l.ordered },
        MdastNode::ListItem(i) => MdKind::ListItem { checked: i.checked, spread: i.spread },
        MdastNode::Heading(h) => MdKind::Heading { depth: h.depth },
        MdastNode::Table(t) => MdKind::Table { align: t.align.iter().map(align_kind).collect() },
        MdastNode::Code(c) => MdKind::Code { value: str_bytes(&c.value), lang: c.lang.as_deref().map(str_bytes) },
        MdastNode::Math(m) => MdKind::Math { value: str_bytes(&m.value) },
        _ => md_text_kind(node),
    }
}

/// The kind of a node of the parser's tree, for the kinds that hold a text
/// value; the others in [`md_link_kind`]. Raw HTML is kept unparsed.
/// Nothing is stated of it.
#[verifier::external_body]
fn md_text_kind(node: &MdastNode) -> MdKind {
    match node {
        MdastNode::Text(t) => MdKind::Text { value: str_bytes(&t.value) },
        MdastNode::InlineCode(c) => MdKind::InlineCode { value: str_bytes(&c.value) },
        MdastNode::InlineMath(m) => MdKind::InlineMath { value: str_bytes(&m.value) },
        MdastNode::Html(h) => MdKind::Html { value: str_bytes(&h.value), parsed: None },
        MdastNode::Yaml(y) => MdKind::Yaml { value: str_bytes(&y.value) },
        MdastNode::Toml(t) => MdKind::Toml { value: str_bytes(&t.value) },
        MdastNode::MdxTextExpression(e) => MdKind::MdxTextExpression { value: str_bytes(&e.value) },
        _ => md_link_kind(node),
    }
}

/// The kind of a node of the parser's tree, for links, images and link
/// references; the others in [`md_reference_kind`]. Nothing is stated of it.
#[verifier::external_body]
fn md_link_kind(node: &MdastNode) -> MdKind {
    match node {
        MdastNode::Link(l) => MdKind::Link { url: str_bytes(&l.url), title: l.title.as_deref().map(str_bytes) },
        MdastNode::Image(i) => MdKind::Image {
            url: str_bytes(&i.url),
            title: i.title.as_deref().map(str_bytes),
            alt: str_bytes(&i.alt),
        },
        MdastNode::LinkReference(l) => MdKind::LinkReference {
            identifier: str_bytes(&l.identifier),
            label: l.label.as_deref().map(str_bytes),
        },
        _ => md_reference_kind(node),
    }
}

/// The kind of a node of the parser's tree, for footnotes, definitions, flow
/// expressions and breaks; the two kinds that are left (ESM and image
/// references) are `Other`.
/// Nothing is stated of it.
#[verifier::external_body]
fn md_reference_kind(node: &MdastNode) -> MdKind {
    match node {
        MdastNode::FootnoteReference(f) => MdKind::FootnoteReference { identifier: str_bytes(&f.identifier) },
        MdastNode::FootnoteDefinition(d) => MdKind::FootnoteDefinition { identifier: str_bytes(&d.identifier) },
        MdastNode::Definition(d) => MdKind::Definition {
            identifier: str_bytes(&d.identifier),
            url: str_bytes(&d.url),
            title: d.title.as_deref().map(str_bytes),
        },
        MdastNode::MdxFlowExpression(e) => MdKind::MdxFlowExpression { value: str_bytes(&e.value) },
        MdastNode::Break(_) => MdKind::Break,
        MdastNode::ThematicBreak(_) => MdKind::ThematicBreak,
        _ => MdKind::Other,
    }
}

/// The alignment of a table column of the parser's tree. Nothing is stated
/// of it.
#[verifier::external_body]
fn align_kind(a: &markdown::mdast::AlignKind) -> MdAlignKind {
    match a {
        markdown::mdast::AlignKind::Left => MdAlignKind::Left,
        markdown::mdast::AlignKind::Right => MdAlignKind::Right,
        markdown::mdast::AlignKind::Center => MdAlignKind::Center,
        markdown::mdast::AlignKind::None => MdAlignKind::Unspecified,
    }
}

} // verus!
