use ui_text::document::ParsedDocument;
use ui_text::inline::Selection;
use ui_text::markdown::{parse, parse_tree, parse_with, tree_can_be_built, MdKind, MdNode, Position};
use ui_text::node::{BlockNode, ColumnAlign, NodeContext};
use ui_text::options::{markdown_parse_options, MdParseOptions};

fn bytes(s: &str) -> Vec<u8> {
    s.as_bytes().to_vec()
}

fn parse_doc(source: &str, cx: &mut NodeContext) -> ParsedDocument {
    parse(bytes(source), cx).unwrap()
}

fn parse_doc_with(source: &str, o: &MdParseOptions, cx: &mut NodeContext) -> ParsedDocument {
    parse_with(bytes(source), o, cx).unwrap()
}

fn string(b: Vec<u8>) -> String {
    String::from_utf8(b).unwrap()
}

fn text(b: &[u8]) -> &str {
    std::str::from_utf8(b).unwrap()
}

#[test]
fn test_nested_emphasis_merges_text_marks() {
    let mut cx = NodeContext::new();
    let document = parse_doc("This has **_bold and italic_** text.", &mut cx);

    let BlockNode::Paragraph(paragraph) = &document.blocks[0] else {
        panic!("expected paragraph");
    };

    let bold_italic = paragraph
        .children
        .iter()
        .find(|child| text(&child.text) == "bold and italic")
        .expect("expected emphasized text");

    assert!(
        bold_italic.marks.iter().any(|(_, mark)| mark.bold && mark.italic),
        "nested emphasis should produce a bold and italic mark"
    );
}

#[test]
fn test_inline_math_parses_to_math_node() {
    let mut cx = NodeContext::new();
    let document = parse_doc("This has inline math $x^2 + y^2 = z^2$.", &mut cx);

    let BlockNode::Paragraph(paragraph) = &document.blocks[0] else {
        panic!("expected paragraph");
    };

    assert!(
        paragraph.children.iter().any(|child| child.math.is_some()),
        "inline math should produce a math inline node"
    );
}

#[test]
fn test_inline_math_keeps_surrounding_text_nodes() {
    let mut cx = NodeContext::new();
    let source = "每个测试用例包含一行，有三个整数 $n, a, b$（$1 \\le n, a, b \\le 10^8$）——学生人数、个人密钥的价格和团体密钥的价格。";
    let document = parse_doc(source, &mut cx);

    let BlockNode::Paragraph(paragraph) = &document.blocks[0] else {
        panic!("expected paragraph");
    };

    assert_eq!(paragraph.children.len(), 5);
    assert_eq!(text(&paragraph.children[0].text), "每个测试用例包含一行，有三个整数 ");
    assert_eq!(text(paragraph.children[1].math.as_ref().unwrap().source()), "n, a, b");
    assert_eq!(text(&paragraph.children[2].text), "（");
    let math = paragraph.children[3].math.as_ref().unwrap();
    assert_eq!(text(math.source()), "1 \\le n, a, b \\le 10^8");
    assert!(!math.is_display());
    assert_eq!(
        text(&paragraph.children[4].text),
        "）——学生人数、个人密钥的价格和团体密钥的价格。"
    );
}

#[test]
fn test_inline_math_soft_break_is_explicit_line_break() {
    let mut cx = NodeContext::new();
    let document = parse_doc("This has inline math $x^2$ before\n$y^2$ after.", &mut cx);

    let BlockNode::Paragraph(paragraph) = &document.blocks[0] else {
        panic!("expected paragraph");
    };

    let break_ix = paragraph
        .children
        .iter()
        .position(|child| child.line_break)
        .expect("expected an explicit line break node");

    assert!(
        paragraph.children[break_ix + 1].math.is_some(),
        "math after a source newline should start after the explicit break"
    );
    assert!(
        paragraph
            .children
            .iter()
            .filter(|child| !child.line_break)
            .all(|child| !child.text.contains(&b'\n')),
        "source newlines should not remain inside text boxes when inline math is present"
    );
}

#[test]
fn test_nested_inline_math_stays_math_node() {
    let mut cx = NodeContext::new();
    let document = parse_doc("This has *inline math $x^2$*.", &mut cx);

    let BlockNode::Paragraph(paragraph) = &document.blocks[0] else {
        panic!("expected paragraph");
    };

    assert!(
        paragraph.children.iter().any(|child| child.math.is_some()),
        "nested inline math should stay a math node"
    );
}

#[test]
fn test_double_dollar_math_in_paragraph_renders_as_display_math() {
    let mut cx = NodeContext::new();
    let mut document = parse_doc("This has $$x^2$$ text.", &mut cx);

    assert_eq!(string(document.to_markdown()), "This has $$x^2$$ text.");
    let BlockNode::Paragraph(paragraph) = &mut document.blocks[0] else {
        panic!("expected paragraph");
    };

    assert!(
        paragraph.children.iter().any(|child| child.math.is_some()),
        "double-dollar math in a paragraph should produce a display math node"
    );
    let math = paragraph
        .children
        .iter_mut()
        .find_map(|child| child.math.as_mut())
        .expect("expected display math");
    let len = math.state.text.len();
    math.state.selection = Some(Selection { start: 0, end: len });
    assert_eq!(string(paragraph.selected_text()), "$$x^2$$");

    let round_tripped = parse_doc(&string(document.to_markdown()), &mut cx);
    let BlockNode::Paragraph(paragraph) = &round_tripped.blocks[0] else {
        panic!("expected paragraph");
    };
    assert!(
        paragraph
            .children
            .iter()
            .any(|child| child.math.as_ref().map(|math| math.is_display()) == Some(true)),
        "double-dollar math in a paragraph should round-trip as display math"
    );
}

#[test]
fn test_double_dollar_math_in_table_cell_renders_inline() {
    let mut cx = NodeContext::new();
    let document = parse_doc("| Name | Formula |\n|---|---|\n| Inline | $$x^2+y^2=z^2$$ |", &mut cx);

    let BlockNode::Table(table) = &document.blocks[0] else {
        panic!("expected table");
    };
    let math = table.children[1].children[1]
        .children
        .children
        .iter()
        .find_map(|child| child.math.as_ref())
        .expect("expected table cell math");

    assert!(!math.is_display(), "double-dollar math in a table cell should render inline");
    assert_eq!(string(math.markdown_source()), "$$x^2+y^2=z^2$$");
    assert_eq!(table.column_aligns, vec![ColumnAlign::Left, ColumnAlign::Left]);
    assert_eq!(
        string(document.to_markdown()),
        "Name | Formula\n:-- | :--\nInline | $$x^2+y^2=z^2$$"
    );
}

#[test]
fn test_escaped_dollar_text_does_not_parse_as_math() {
    let mut cx = NodeContext::new();
    let document = parse_doc("Price is \\$5 and \\$10 today.", &mut cx);

    let BlockNode::Paragraph(paragraph) = &document.blocks[0] else {
        panic!("expected paragraph");
    };

    assert!(
        paragraph.children.iter().all(|child| child.math.is_none()),
        "escaped dollar text should not produce math nodes"
    );
    assert_eq!(text(&paragraph.children[0].text), "Price is $5 and $10 today.");
}

#[test]
fn test_unescaped_dollar_amounts_follow_math_dialect() {
    let mut cx = NodeContext::new();
    let source = "Price is $5 and $10 today.";
    let document = parse_doc(source, &mut cx);

    let BlockNode::Paragraph(paragraph) = &document.blocks[0] else {
        panic!("expected paragraph");
    };

    assert_eq!(paragraph.children.len(), 3);
    assert_eq!(text(&paragraph.children[0].text), "Price is ");
    assert_eq!(
        paragraph.children[1].math.as_ref().map(|math| text(math.source())),
        Some("5 and ")
    );
    assert_eq!(text(&paragraph.children[2].text), "10 today.");
    assert_eq!(string(document.to_markdown()), source);
}

#[test]
fn test_linked_inline_math_keeps_link_mark() {
    let mut cx = NodeContext::new();
    let document = parse_doc("[See $x^2$](https://example.com).", &mut cx);

    let BlockNode::Paragraph(paragraph) = &document.blocks[0] else {
        panic!("expected paragraph");
    };

    let math = paragraph
        .children
        .iter()
        .find(|child| child.math.is_some())
        .expect("expected inline math");
    let link = math
        .marks
        .iter()
        .find_map(|(_, mark)| mark.link.as_ref())
        .expect("expected inline math to inherit the link mark");

    assert_eq!(text(&link.url), "https://example.com");
    assert_eq!(string(document.to_markdown()), "[See $x^2$](https://example.com).");

    let document = parse_doc("*[See $x^2$](https://example.com).*", &mut cx);

    let BlockNode::Paragraph(paragraph) = &document.blocks[0] else {
        panic!("expected paragraph");
    };

    let math = paragraph
        .children
        .iter()
        .find(|child| child.math.is_some())
        .expect("expected inline math");
    let mark = math.marks.iter().map(|(_, mark)| mark).next().expect("expected inline math marks");

    assert!(mark.italic, "expected outer emphasis to survive");
    assert_eq!(mark.link.as_ref().map(|link| text(&link.url)), Some("https://example.com"));
    assert_eq!(string(document.to_markdown()), "*[See $x^2$](https://example.com).*");
}

#[test]
fn test_styled_inline_math_to_markdown_keeps_style() {
    let mut cx = NodeContext::new();
    let document = parse_doc("This has *$x^2$* and **$y^2$**.", &mut cx);

    assert_eq!(string(document.to_markdown()), "This has *$x^2$* and **$y^2$**.");
}

#[test]
fn test_inline_math_to_markdown_does_not_duplicate_source() {
    let mut cx = NodeContext::new();
    let document = parse_doc("This has $x^2$ inline math.", &mut cx);

    assert_eq!(string(document.to_markdown()), "This has $x^2$ inline math.");
}

#[test]
fn test_block_math_parses_to_math_node() {
    let mut cx = NodeContext::new();
    let document = parse_doc(
        "$$\n\\begin{aligned}\nx^2 + y^2 &= z^2 \\\\\nx^3 + y^3 &= z^3\n\\end{aligned}\n$$",
        &mut cx,
    );

    assert!(
        matches!(document.blocks[0], BlockNode::Math(_)),
        "block math should produce a math block node"
    );
}

#[test]
fn test_unsupported_block_math_preserves_markdown_source() {
    let mut cx = NodeContext::new();
    let source = "$$\n\\frac{1\n$$";
    assert!(
        ui_text::math::MathNode::try_new(bytes("\\frac{1"), true).is_err(),
        "test input should exercise the unsupported math fallback"
    );

    let document = parse_doc(source, &mut cx);

    let BlockNode::Math(math) = &document.blocks[0] else {
        panic!("expected unsupported block math to remain a math node");
    };

    assert_eq!(string(math.markdown_source()), source);
    assert_eq!(string(document.to_markdown()), source);

    let round_tripped = parse_doc(&string(document.to_markdown()), &mut cx);
    assert!(
        matches!(round_tripped.blocks[0], BlockNode::Math(_)),
        "unsupported block math should not round-trip as a code block"
    );
}

#[test]
fn test_list_item_block_math_parses_to_math_node() {
    let mut cx = NodeContext::new();
    let document = parse_doc("1. A list item\n\n   $$\n   x^2 + y^2 = z^2\n   $$", &mut cx);

    let BlockNode::List { children, .. } = &document.blocks[0] else {
        panic!("expected list");
    };
    let BlockNode::ListItem { children, .. } = &children[0] else {
        panic!("expected list item");
    };

    assert!(
        children.iter().any(|child| matches!(child, BlockNode::Math(_))),
        "list item block math should parse to a math block node"
    );
}

#[test]
fn test_list_item_block_math_to_markdown_keeps_list_scope() {
    let mut cx = NodeContext::new();
    let source = "1. A list item\n\n   $$\n   x^2 + y^2 = z^2\n   $$";
    let document = parse_doc(source, &mut cx);

    assert_eq!(string(document.to_markdown()), source);

    let round_tripped = parse_doc(&string(document.to_markdown()), &mut cx);
    let BlockNode::List { children, .. } = &round_tripped.blocks[0] else {
        panic!("expected list");
    };
    let BlockNode::ListItem { children, .. } = &children[0] else {
        panic!("expected list item");
    };

    assert!(
        children.iter().any(|child| matches!(child, BlockNode::Math(_))),
        "round-tripped block math should remain inside the list item"
    );
}

#[test]
fn test_list_item_starting_with_block_math_to_markdown_keeps_list_scope() {
    let mut cx = NodeContext::new();
    let source = "- $$\n  x^2 + y^2 = z^2\n  $$";
    let document = parse_doc(source, &mut cx);

    assert_eq!(string(document.to_markdown()), source);

    let round_tripped = parse_doc(&string(document.to_markdown()), &mut cx);
    let BlockNode::List { children, .. } = &round_tripped.blocks[0] else {
        panic!("expected list");
    };
    let BlockNode::ListItem { children, .. } = &children[0] else {
        panic!("expected list item");
    };

    assert!(
        children.iter().any(|child| matches!(child, BlockNode::Math(_))),
        "round-tripped block math should remain inside the list item"
    );
}

#[test]
fn test_todo_list_parses_with_nested_list() {
    let mut cx = NodeContext::new();
    let document = parse_doc("- [x] foefewigweg\n  - subtask", &mut cx);

    let BlockNode::List { children, ordered, .. } = &document.blocks[0] else {
        panic!("expected list, got {:?}", document.blocks[0]);
    };
    assert!(!ordered);

    let BlockNode::ListItem { children: item1_children, checked, .. } = &children[0] else {
        panic!("expected list item");
    };
    assert_eq!(*checked, Some(true));

    assert_eq!(item1_children.len(), 2);

    let BlockNode::List { children: nested, .. } = &item1_children[1] else {
        panic!("expected nested list as second child");
    };
    assert_eq!(nested.len(), 1);

    let BlockNode::ListItem { checked: nested_checked, .. } = &nested[0] else {
        panic!("expected nested list item");
    };
    assert_eq!(*nested_checked, None);
}

#[test]
fn test_setext_heading_false_positive_demoted_to_paragraph() {
    let mut cx = NodeContext::new();
    let document = parse_doc("- [x] foefewigweg\n  -", &mut cx);

    let BlockNode::List { children, .. } = &document.blocks[0] else {
        panic!("expected list");
    };
    let BlockNode::ListItem { children: item_children, checked, .. } = &children[0] else {
        panic!("expected list item");
    };

    assert_eq!(*checked, Some(true));
    assert!(
        item_children.iter().all(|c| !matches!(c, BlockNode::Heading { .. })),
        "heading should have been demoted to paragraph"
    );
    assert!(
        item_children.iter().any(|c| matches!(c, BlockNode::Paragraph(_))),
        "should have a paragraph child"
    );
}

#[test]
fn test_atx_heading_in_list_item_stays_heading() {
    let mut cx = NodeContext::new();
    let document = parse_doc("- # Heading in list", &mut cx);

    let BlockNode::List { children, .. } = &document.blocks[0] else {
        panic!("expected list");
    };
    let BlockNode::ListItem { children: item_children, checked, .. } = &children[0] else {
        panic!("expected list item");
    };

    assert_eq!(*checked, None);
    assert!(
        item_children.iter().any(|c| matches!(c, BlockNode::Heading { level: 1, .. })),
        "ATX heading inside a list item should stay a heading"
    );
}

#[test]
fn test_nested_heading_in_list_item_stays_heading() {
    let mut cx = NodeContext::new();
    let document = parse_doc("- item\n\n  ## Nested heading", &mut cx);

    let BlockNode::List { children, .. } = &document.blocks[0] else {
        panic!("expected list");
    };
    let BlockNode::ListItem { children: item_children, checked, .. } = &children[0] else {
        panic!("expected list item");
    };

    assert_eq!(*checked, None);
    assert!(
        item_children.iter().any(|c| matches!(c, BlockNode::Heading { level: 2, .. })),
        "nested heading inside a list item should stay a heading"
    );
}

#[test]
fn link_definitions_are_recorded_in_the_context() {
    let mut cx = NodeContext::new();
    let document = parse_doc("[a]: https://example.com \"T\"\n\nSee [a].", &mut cx);
    assert!(matches!(document.blocks[0], BlockNode::Definition { .. }));
    let link = cx.get_ref(b"a").expect("definition should be recorded");
    assert_eq!(text(&link.url), "https://example.com");
    assert_eq!(link.title.as_deref().map(text), Some("T"));
    assert_eq!(link.identifier.as_deref().map(text), Some("a"));
}

#[test]
fn spans_are_byte_ranges_shifted_by_the_context_offset() {
    let mut cx = NodeContext::new();
    cx.offset = 100;
    let document = parse_doc("# Title\n\nBody", &mut cx);
    let BlockNode::Heading { level, span, .. } = &document.blocks[0] else {
        panic!("expected heading");
    };
    assert_eq!(*level, 1);
    assert_eq!(span.map(|s| (s.start, s.end)), Some((100, 107)));
    let BlockNode::Paragraph(p) = &document.blocks[1] else {
        panic!("expected paragraph");
    };
    assert_eq!(p.span.map(|s| (s.start, s.end)), Some((109, 113)));
    assert_eq!(string(document.text()), "Title\nBody\n");
}

#[test]
fn footnotes_and_code_become_their_blocks() {
    let mut cx = NodeContext::new();
    let document = parse_doc("```rust\nlet x = 1;\n```\n\n---", &mut cx);
    let BlockNode::CodeBlock(code) = &document.blocks[0] else {
        panic!("expected code block");
    };
    assert_eq!(string(code.code()), "let x = 1;");
    assert_eq!(code.lang().map(string).as_deref(), Some("rust"));
    assert!(matches!(document.blocks[1], BlockNode::HorizontalRule { .. }));
}

#[test]
fn parser_errors_are_passed_on() {
    let mut cx = NodeContext::new();
    let r = parse_tree(bytes("x"), Err(bytes("broken")), &mut cx);
    assert_eq!(r.err(), Some(bytes("broken")));
}

#[test]
fn markdown_parse_options_enable_gfm_and_math() {
    let o = markdown_parse_options();
    assert!(o.constructs.gfm_table && o.constructs.gfm_task_list_item && o.constructs.gfm_strikethrough);
    assert!(o.constructs.math_flow && o.constructs.math_text);
    assert!(!o.constructs.mdx_jsx_flow && !o.constructs.frontmatter);
    let mut g = MdParseOptions::gfm();
    assert!(!g.constructs.math_text);
    ui_text::options::configure_markdown_math(&mut g);
    assert_eq!(g, o);
}

#[test]
fn test_dollar_math_source_stays_text_when_math_feature_disabled() {
    let mut cx = NodeContext::new();
    let source = "$x$ and $$y^2$$";
    let document = parse_doc_with(source, &MdParseOptions::gfm(), &mut cx);

    let BlockNode::Paragraph(paragraph) = &document.blocks[0] else {
        panic!("expected paragraph");
    };

    assert!(
        paragraph.children.iter().all(|child| child.math.is_none()),
        "math delimiters should stay plain text when markdown-math is disabled"
    );
    assert_eq!(string(paragraph.text()), source);
    assert_eq!(string(document.to_markdown()), source);
}

#[test]
fn only_root_trees_that_fit_can_be_built() {
    let leaf = |kind: MdKind, end: usize| MdNode { kind, children: vec![], position: Some(Position { start: 0, end }) };
    let root = MdNode { kind: MdKind::Root, children: vec![leaf(MdKind::ThematicBreak, 3)], position: None };
    assert!(tree_can_be_built(&root, 10));
    assert!(!tree_can_be_built(&root, usize::MAX - 1));
    let nested = MdNode {
        kind: MdKind::Root,
        children: vec![MdNode { kind: MdKind::Blockquote, children: vec![leaf(MdKind::Root, 1)], position: None }],
        position: None,
    };
    assert!(!tree_can_be_built(&nested, 0));
    assert!(!tree_can_be_built(&leaf(MdKind::Paragraph, 1), 0));
}

#[test]
fn push_merged_accepts_marks_past_the_text() {
    let mut p = ui_text::node::Paragraph::default();
    ui_text::markdown::push_merged(
        &mut p,
        bytes("ab"),
        vec![(0..9, ui_text::node::TextMark::plain().bold())],
        ui_text::node::TextMark::plain().italic(),
    );
    assert_eq!(p.children.len(), 1);
    assert_eq!(p.children[0].marks.len(), 2);
    assert_eq!(p.children[0].marks[0].0, 0..9);
    assert_eq!(p.children[0].marks[1].0, 0..2);
    assert!(p.children[0].marks[1].1.italic);
}

#[test]
fn repeated_definitions_keep_one_entry_per_identifier() {
    let mut cx = NodeContext::new();
    let document = parse_doc("[a]: https://one\n\n[b]: https://two\n\n[a]: https://three", &mut cx);
    assert_eq!(document.blocks.len(), 3);
    assert_eq!(cx.link_refs.len(), 2);
    assert_eq!(text(&cx.get_ref(b"a").unwrap().url), "https://three");
}

#[test]
fn parse_refuses_bytes_that_are_not_utf8() {
    let mut cx = NodeContext::new();
    let r = parse(vec![b'a', 0xff, 0xfe], &mut cx);
    assert!(r.is_err());
    assert!(cx.link_refs.is_empty());
    assert_eq!(cx.offset, 0);
}

#[test]
fn parse_refuses_a_tree_whose_spans_overflow_the_offset() {
    let mut cx = NodeContext::new();
    cx.offset = usize::MAX - 1;
    let r = parse(bytes("[a]: /u\n\nhello"), &mut cx);
    assert!(r.is_err());
    assert!(cx.link_refs.is_empty());
    assert_eq!(cx.offset, usize::MAX - 1);
}

#[test]
fn parse_records_link_definitions_in_the_context() {
    let mut cx = NodeContext::new();
    let document = parse_doc("[a]: /u \"t\"\n\nsee [a]", &mut cx);
    assert_eq!(cx.link_refs.len(), 1);
    assert_eq!(cx.link_refs[0].0, bytes("a"));
    assert_eq!(document.source, bytes("[a]: /u \"t\"\n\nsee [a]"));
}
