use ui_text::document::{ListItemPrefix, ParsedDocument};
use ui_text::inline::Selection;
use ui_text::math::MathNode;
use ui_text::node::{
    BlockNode, CodeBlock, ImageNode, InlineNode, LinkMark, NodeContext, Paragraph, Span, Table, TableCell,
    TableRow, TextMark,
};

fn select_all(node: &mut InlineNode, text: &str) {
    node.state.set_text(text.as_bytes().to_vec());
    node.state.selection = Some(Selection { start: 0, end: text.len() });
}

fn selected_math(source: &str) -> MathNode {
    let mut math = MathNode::try_new(source.as_bytes().to_vec(), false).unwrap();
    let len = math.state.text.len();
    math.state.selection = Some(Selection { start: 0, end: len });
    math
}

fn string(bytes: Vec<u8>) -> String {
    String::from_utf8(bytes).unwrap()
}

#[test]
fn image_markdown_source_preserves_outer_link() {
    let image = ImageNode {
        url: b"https://example.com/badge.svg".to_vec(),
        alt: Some(b"Build Status".to_vec()),
        link: Some(LinkMark { url: b"https://example.com/ci".to_vec(), ..Default::default() }),
        ..Default::default()
    };

    assert_eq!(
        string(image.markdown_source()),
        "[![Build Status](https://example.com/badge.svg)](https://example.com/ci)"
    );
}

#[test]
fn image_markdown_source_without_link_and_with_title() {
    let image = ImageNode {
        url: b"a.png".to_vec(),
        alt: Some(b"A".to_vec()),
        title: Some(b"T".to_vec()),
        ..Default::default()
    };
    assert_eq!(string(image.markdown_source()), "![A](a.png \"T\")");
    assert_eq!(string(image.title()), "T");
    assert_eq!(string(image.plain_text()), "A");
}

#[test]
fn test_selected_text_preserves_text_before_inline_math() {
    let math = selected_math("x^2");

    let mut paragraph = Paragraph::default();
    paragraph.push_str(b"before ");
    paragraph.push(InlineNode::math(math));
    select_all(&mut paragraph.children[0], "before ");

    assert_eq!(string(paragraph.selected_text()), "before $x^2$");
}

#[test]
fn test_selected_text_preserves_line_break_around_inline_math() {
    let math = selected_math("x^2");

    let mut paragraph = Paragraph::default();
    paragraph.push_str(b"before");
    paragraph.push(InlineNode::math(math));
    paragraph.push(InlineNode::line_break());
    paragraph.push_str(b"after");

    select_all(&mut paragraph.children[0], "before");
    let math = paragraph.children[1].math.as_mut().unwrap();
    let len = math.state.text.len();
    math.state.selection = Some(Selection { start: 0, end: len });
    paragraph.children[2].state.set_text(Vec::new());
    select_all(&mut paragraph.children[3], "after");

    assert_eq!(string(paragraph.selected_text()), "before$x^2$\nafter");
}

#[test]
fn test_selected_text_preserves_consecutive_line_breaks_and_trailing_breaks() {
    let mut paragraph = Paragraph::default();
    paragraph.push_str(b"before");
    paragraph.push(InlineNode::line_break());
    paragraph.push(InlineNode::line_break());
    paragraph.push_str(b"after");

    select_all(&mut paragraph.children[0], "before");
    select_all(&mut paragraph.children[3], "after");

    assert_eq!(string(paragraph.selected_text()), "before\n\nafter");

    let mut trailing = Paragraph::default();
    trailing.push_str(b"foo");
    trailing.push(InlineNode::line_break());
    select_all(&mut trailing.children[0], "foo");

    assert_eq!(string(trailing.selected_text()), "foo\n");

    let mut leading = Paragraph::default();
    leading.push(InlineNode::line_break());
    leading.push_str(b"a");
    select_all(&mut leading.children[1], "a");

    assert_eq!(string(leading.selected_text()), "\na");
}

#[test]
fn test_selected_text_does_not_copy_break_before_unselected_content() {
    let mut paragraph = Paragraph::default();
    paragraph.push_str(b"a");
    paragraph.push(InlineNode::line_break());
    paragraph.push_str(b"b");

    select_all(&mut paragraph.children[0], "a");
    paragraph.children[2].state.set_text(b"b".to_vec());

    assert_eq!(string(paragraph.selected_text()), "a");
}

#[test]
fn test_table_selected_text_skips_unselected_cells_and_rows() {
    let mut selected = Paragraph::default();
    selected.push_str(b"selected");
    select_all(&mut selected.children[0], "selected");

    let cell = |text: &str| TableCell { children: Paragraph::new(text.as_bytes().to_vec()) };
    let table = BlockNode::Table(Table {
        children: vec![
            TableRow { children: vec![cell("header a"), cell("header b")] },
            TableRow { children: vec![cell("left"), TableCell { children: selected }, cell("right")] },
            TableRow { children: vec![cell("footer")] },
        ],
        column_aligns: vec![],
        span: None,
    });

    assert_eq!(string(table.selected_text()), "selected\n\n");
}

#[test]
fn test_selected_text_preserves_text_around_inline_math() {
    let math = selected_math("x^2");

    let mut paragraph = Paragraph::default();
    paragraph.push_str("text（".as_bytes());
    paragraph.push(InlineNode::math(math));
    paragraph.push_str("）after".as_bytes());

    select_all(&mut paragraph.children[0], "text（");
    select_all(&mut paragraph.children[2], "）after");

    assert_eq!(string(paragraph.selected_text()), "text（$x^2$）after");
}

#[test]
fn paragraph_new_reads_back_its_text() {
    let paragraph = Paragraph::new(b"one\ntwo\n\nthree".to_vec());
    assert_eq!(paragraph.children.len(), 6);
    assert!(paragraph.children[1].line_break);
    assert_eq!(string(paragraph.text()), "one\ntwo\n\nthree");
    assert_eq!(paragraph.text_len(), 14);
}

#[test]
fn paragraph_is_empty_only_without_content() {
    assert!(Paragraph::default().is_empty());
    let mut p = Paragraph::default();
    p.push(InlineNode::new(Vec::new()));
    assert!(p.is_empty());
    p.push(InlineNode::line_break());
    assert!(!p.is_empty());
}

#[test]
fn link_reference_reads_back_last_definition() {
    let mut cx = NodeContext::new();
    let link = |url: &str| LinkMark { url: url.as_bytes().to_vec(), ..Default::default() };
    cx.add_ref(b"a".to_vec(), link("first"));
    cx.add_ref(b"b".to_vec(), link("other"));
    cx.add_ref(b"a".to_vec(), link("second"));
    assert_eq!(cx.link_refs.len(), 2);
    assert_eq!(cx.get_ref(b"a").unwrap().url, b"second".to_vec());
    assert_eq!(cx.get_ref(b"b").unwrap().url, b"other".to_vec());
    assert!(cx.get_ref(b"c").is_none());
}

#[test]
fn text_mark_merge_keeps_flags_and_takes_new_link() {
    let mut mark = TextMark::plain().bold().link(LinkMark { url: b"x".to_vec(), ..Default::default() });
    mark.merge(TextMark::plain().italic());
    assert!(mark.bold && mark.italic && !mark.code);
    assert_eq!(mark.link.as_ref().unwrap().url, b"x".to_vec());
    mark.merge(TextMark::plain().link(LinkMark { url: b"y".to_vec(), ..Default::default() }));
    assert_eq!(mark.link.as_ref().unwrap().url, b"y".to_vec());
}

#[test]
fn compact_removes_single_child_roots() {
    let inner = BlockNode::Paragraph(Paragraph::new(b"x".to_vec()));
    let root = BlockNode::Root {
        children: vec![BlockNode::Root { children: vec![inner], span: None }],
        span: Some(Span { start: 0, end: 1 }),
    };
    let compacted = root.compact();
    assert!(matches!(compacted, BlockNode::Paragraph(_)));
    assert_eq!(compacted.span(), None);
}

#[test]
fn hidden_prefix_keeps_shape_and_hides() {
    let marker = ListItemPrefix::Marker { ix: 3, ordered: true, depth: 1, visible: true };
    let hidden = marker.hidden();
    assert_eq!(hidden, ListItemPrefix::Marker { ix: 3, ordered: true, depth: 1, visible: false });
    assert_eq!(hidden.hidden(), hidden);
    let todo = ListItemPrefix::Todo { checked: true, visible: true };
    assert_eq!(todo.hidden(), ListItemPrefix::Todo { checked: true, visible: false });
}

#[test]
fn document_text_and_markdown_join_blocks() {
    let doc = ParsedDocument {
        source: Vec::new(),
        blocks: vec![
            BlockNode::Paragraph(Paragraph::new(b"a".to_vec())),
            BlockNode::HorizontalRule { span: None },
            BlockNode::Paragraph(Paragraph::new(b"b".to_vec())),
        ],
    };
    assert_eq!(string(doc.to_markdown()), "a\n\n---\n\nb");
}

#[test]
fn code_block_equality_includes_code_content() {
    let first = CodeBlock::new(b"let value = 1;".to_vec(), Some(b"rust".to_vec()), None::<Span>);
    let second = CodeBlock::new(b"let value = 2;".to_vec(), Some(b"rust".to_vec()), None::<Span>);

    assert_ne!(first, second);
    let again = CodeBlock::new(b"let value = 1;".to_vec(), Some(b"rust".to_vec()), None::<Span>);
    assert_eq!(first, again);
}

#[test]
fn node_equality_ignores_selection_state() {
    let mut a = InlineNode::math(MathNode::try_new(b"x".to_vec(), false).unwrap());
    let b = InlineNode::math(MathNode::try_new(b"x".to_vec(), false).unwrap());
    a.state.selection = Some(Selection { start: 0, end: 1 });
    a.math.as_mut().unwrap().state.selection = Some(Selection { start: 0, end: 1 });
    assert_eq!(a, b);
    let c = InlineNode::math(MathNode::try_new(b"y".to_vec(), false).unwrap());
    assert_ne!(a, c);
    assert_eq!(Paragraph::new(b"a\nb".to_vec()), Paragraph::new(b"a\nb".to_vec()));
    assert_ne!(Paragraph::new(b"a\nb".to_vec()), Paragraph::new(b"a b".to_vec()));
}

#[test]
fn node_context_equality_ignores_definition_order() {
    let link = |url: &str| LinkMark { url: url.as_bytes().to_vec(), ..Default::default() };
    let mut a = NodeContext::new();
    a.add_ref(b"x".to_vec(), link("1"));
    a.add_ref(b"y".to_vec(), link("2"));
    let mut b = NodeContext::new();
    b.add_ref(b"y".to_vec(), link("2"));
    b.add_ref(b"x".to_vec(), link("1"));
    assert_eq!(a, b);
    let mut c = NodeContext::new();
    c.add_ref(b"y".to_vec(), link("2"));
    c.add_ref(b"x".to_vec(), link("3"));
    assert_ne!(a, c);
    let mut d = NodeContext::new();
    d.add_ref(b"x".to_vec(), link("1"));
    assert_ne!(a, d);
}

#[test]
fn paragraph_equality_ignores_link_reference_order() {
    let mut a = Paragraph::new(b"t".to_vec());
    let mut b = Paragraph::new(b"t".to_vec());
    a.link_refs = vec![(b"x".to_vec(), b"1".to_vec()), (b"y".to_vec(), b"2".to_vec())];
    b.link_refs = vec![(b"y".to_vec(), b"2".to_vec()), (b"x".to_vec(), b"1".to_vec())];
    assert_eq!(a, b);
    b.link_refs.pop();
    assert_ne!(a, b);
}

#[test]
fn marks_that_are_not_written_may_lie_past_the_text() {
    let mut p = Paragraph::default();
    p.push(InlineNode::new(b"ab".to_vec()).marks(vec![
        (0..9, TextMark::plain().underline()),
        (5..3, TextMark::plain()),
        (0..1, TextMark::plain().bold()),
    ]));
    assert_eq!(string(p.to_inline_markdown()), "**a**");
    let doc = ParsedDocument { source: Vec::new(), blocks: vec![BlockNode::Paragraph(p)] };
    assert_eq!(string(doc.to_markdown()), "**a**");
}
