//! The options with which markdown is parsed: which constructs the parser
//! recognizes, as the markdown parser's `ParseOptions` holds them.

use vstd::prelude::*;

verus! {

/// The constructs that the markdown parser recognizes.
#[derive(Clone, Copy, Debug, PartialEq, Eq, Structural)]
pub struct MdConstructs {
    pub attention: bool,
    pub autolink: bool,
    pub block_quote: bool,
    pub character_escape: bool,
    pub character_reference: bool,
    pub code_indented: bool,
    pub code_fenced: bool,
    pub code_text: bool,
    pub definition: bool,
    pub frontmatter: bool,
    pub gfm_autolink_literal: bool,
    pub gfm_footnote_definition: bool,
    pub gfm_label_start_footnote: bool,
    pub gfm_strikethrough: bool,
    pub gfm_table: bool,
    pub gfm_task_list_item: bool,
    pub hard_break_escape: bool,
    pub hard_break_trailing: bool,
    pub heading_atx: bool,
    pub heading_setext: bool,
    pub html_flow: bool,
    pub html_text: bool,
    pub label_start_image: bool,
    pub label_start_link: bool,
    pub label_end: bool,
    pub list_item: bool,
    pub math_flow: bool,
    pub math_text: bool,
    pub mdx_esm: bool,
    pub mdx_expression_flow: bool,
    pub mdx_expression_text: bool,
    pub mdx_jsx_flow: bool,
    pub mdx_jsx_text: bool,
    pub thematic_break: bool,
}

/// The options of the markdown parser.
#[derive(Clone, Copy, Debug, PartialEq, Eq, Structural)]
pub struct MdParseOptions {
    pub constructs: MdConstructs,
    /// Whether a single tilde makes strikethrough.
    pub gfm_strikethrough_single_tilde: bool,
    /// Whether single dollars make inline math.
    pub math_text_single_dollar: bool,
}

/// The CommonMark constructs: everything but frontmatter, GFM, math and MDX.
pub open spec fn commonmark_constructs() -> MdConstructs {
    MdConstructs {
        attention: true,
        autolink: true,
        block_quote: true,
        character_escape: true,
        character_reference: true,
        code_indented: true,
        code_fenced: true,
        code_text: true,
        definition: true,
        frontmatter: false,
        gfm_autolink_literal: false,
        gfm_footnote_definition: false,
        gfm_label_start_footnote: false,
        gfm_strikethrough: false,
        gfm_table: false,
        gfm_task_list_item: false,
        hard_break_escape: true,
        hard_break_trailing: true,
        heading_atx: true,
        heading_setext: true,
        html_flow: true,
        html_text: true,
        label_start_image: true,
        label_start_link: true,
        label_end: true,
        list_item: true,
        math_flow: false,
        math_text: false,
        mdx_esm: false,
        mdx_expression_flow: false,
        mdx_expression_text: false,
        mdx_jsx_flow: false,
        mdx_jsx_text: false,
        thematic_break: true,
    }
}

/// The GFM constructs: CommonMark with autolink literals, footnotes,
/// strikethrough, tables and task list items.
pub open spec fn gfm_constructs() -> MdConstructs {
    MdConstructs {
        gfm_autolink_literal: true,
        gfm_footnote_definition: true,
        gfm_label_start_footnote: true,
        gfm_strikethrough: true,
        gfm_table: true,
        gfm_task_list_item: true,
        ..commonmark_constructs()
    }
}

/// The GFM options: the GFM constructs, single tildes and single dollars on.
pub open spec fn gfm_options() -> MdParseOptions {
    MdParseOptions {
        constructs: gfm_constructs(),
        gfm_strikethrough_single_tilde: true,
        math_text_single_dollar: true,
    }
}

/// The options with math blocks and inline math turned on.
pub open spec fn with_math(o: MdParseOptions) -> MdParseOptions {
    MdParseOptions { constructs: MdConstructs { math_flow: true, math_text: true, ..o.constructs }, ..o }
}

/// The flags of the options, in the order of their fields: the constructs,
/// then single tildes and single dollars.
pub open spec fn option_flags(o: MdParseOptions) -> Seq<bool> {
    seq![
        o.constructs.attention,
        o.constructs.autolink,
        o.constructs.block_quote,
        o.constructs.character_escape,
        o.constructs.character_reference,
        o.constructs.code_indented,
        o.constructs.code_fenced,
        o.constructs.code_text,
        o.constructs.definition,
        o.constructs.frontmatter,
        o.constructs.gfm_autolink_literal,
        o.constructs.gfm_footnote_definition,
        o.constructs.gfm_label_start_footnote,
        o.constructs.gfm_strikethrough,
        o.constructs.gfm_table,
        o.constructs.gfm_task_list_item,
        o.constructs.hard_break_escape,
        o.constructs.hard_break_trailing,
        o.constructs.heading_atx,
        o.constructs.heading_setext,
        o.constructs.html_flow,
        o.constructs.html_text,
        o.constructs.label_start_image,
        o.constructs.label_start_link,
        o.constructs.label_end,
        o.constructs.list_item,
        o.constructs.math_flow,
        o.constructs.math_text,
        o.constructs.mdx_esm,
        o.constructs.mdx_expression_flow,
        o.constructs.mdx_expression_text,
        o.constructs.mdx_jsx_flow,
        o.constructs.mdx_jsx_text,
        o.constructs.thematic_break,
        o.gfm_strikethrough_single_tilde,
        o.math_text_single_dollar,
    ]
}

/// Calls `markdown::ParseOptions::gfm` and reads its flags in the order of
/// [`option_flags`]. The contract claims that they are the flags of
/// [`gfm_options`]: the GFM constructs on top of the CommonMark ones, single
/// tildes and single dollars on, as the crate's source sets them.
#[verifier::external_body]
fn gfm_flags() -> (r: [bool; 36])
    ensures
        r@ == option_flags(gfm_options()),
{
    let o = markdown::ParseOptions::gfm();
    let c = &o.constructs;
    [
        c.attention, c.autolink, c.block_quote, c.character_escape, c.character_reference,
        c.code_indented, c.code_fenced, c.code_text, c.definition, c.frontmatter,
        c.gfm_autolink_literal, c.gfm_footnote_definition, c.gfm_label_start_footnote, c.gfm_strikethrough, c.gfm_table,
        c.gfm_task_list_item, c.hard_break_escape, c.hard_break_trailing, c.heading_atx, c.heading_setext,
        c.html_flow, c.html_text, c.label_start_image, c.label_start_link, c.label_end,
        c.list_item, c.math_flow, c.math_text, c.mdx_esm, c.mdx_expression_flow,
        c.mdx_expression_text, c.mdx_jsx_flow, c.mdx_jsx_text, c.thematic_break, o.gfm_strikethrough_single_tilde,
        o.math_text_single_dollar,
    ]
}

impl MdConstructs {
    /// The GFM constructs, as the markdown parser defines them.
    pub fn gfm() -> (r: Self)
        ensures
            r == gfm_constructs(),
    {
        let f = gfm_flags();
        MdConstructs {
            attention: f[0],
            autolink: f[1],
            block_quote: f[2],
            character_escape: f[3],
            character_reference: f[4],
            code_indented: f[5],
            code_fenced: f[6],
            code_text: f[7],
            definition: f[8],
            frontmatter: f[9],
            gfm_autolink_literal: f[10],
            gfm_footnote_definition: f[11],
            gfm_label_start_footnote: f[12],
            gfm_strikethrough: f[13],
            gfm_table: f[14],
            gfm_task_list_item: f[15],
            hard_break_escape: f[16],
            hard_break_trailing: f[17],
            heading_atx: f[18],
            heading_setext: f[19],
            html_flow: f[20],
            html_text: f[21],
            label_start_image: f[22],
            label_start_link: f[23],
            label_end: f[24],
            list_item: f[25],
            math_flow: f[26],
            math_text: f[27],
            mdx_esm: f[28],
            mdx_expression_flow: f[29],
            mdx_expression_text: f[30],
            mdx_jsx_flow: f[31],
            mdx_jsx_text: f[32],
            thematic_break: f[33],
        }
    }
}

impl MdParseOptions {
    /// The GFM options, as the markdown parser defines them.
    pub fn gfm() -> (r: Self)
        ensures
            r == gfm_options(),
    {
        let f = gfm_flags();
        MdParseOptions {
            constructs: MdConstructs::gfm(),
            gfm_strikethrough_single_tilde: f[34],
            math_text_single_dollar: f[35],
        }
    }
}

/// The options with which documents are parsed: GFM, with math.
pub fn markdown_parse_options() -> (r: MdParseOptions)
    ensures
        r == with_math(gfm_options()),
{
    let mut options = MdParseOptions::gfm();
    configure_markdown_math(&mut options);
    options
}

/// Turns on math blocks (`$$` fences) and inline math (`$`).
pub fn configure_markdown_math(options: &mut MdParseOptions)
    ensures
        *final(options) == with_math(*old(options)),
{
    let constructs = MdConstructs { math_flow: true, math_text: true, ..options.constructs };
    *options = MdParseOptions { constructs, ..*options };
}

} // verus!
