use ui_text::document::{ListItemPrefix, NodeRenderOptions};
use ui_text::layout::{
    blockquote_child_options, column_width, document_block_options, list_item_child_options, root_child_options, list_item_child_prefixes, list_item_indices, list_item_options,
    table_cell_options, ChildPrefix,
};
use ui_text::node::{BlockNode, ColumnAlign, Paragraph, Table, TableCell, TableRow};

fn para(text: &str) -> BlockNode {
    BlockNode::Paragraph(Paragraph::new(text.as_bytes().to_vec()))
}

fn item() -> BlockNode {
    BlockNode::ListItem { children: vec![], spread: false, checked: None, span: None }
}

#[test]
fn list_items_are_numbered_skipping_other_children() {
    let children = vec![item(), para("x"), item(), item()];
    assert_eq!(list_item_indices(&children), vec![0, 1, 1, 2]);
}

#[test]
fn list_item_prefix_drawn_by_first_child_only() {
    let marker = ListItemPrefix::Marker { ix: 2, ordered: true, depth: 0, visible: true };
    let hidden = marker.hidden();
    let children = vec![para("a"), BlockNode::HorizontalRule { span: None }, para("b")];
    let r = list_item_child_prefixes(None, 2, true, 0, &children);
    assert_eq!(
        r,
        vec![
            ChildPrefix { line_before: None, prefix: Some(marker) },
            ChildPrefix { line_before: None, prefix: None },
            ChildPrefix { line_before: None, prefix: Some(hidden) },
        ]
    );
}

#[test]
fn list_item_starting_with_nested_block_draws_prefix_line() {
    let todo = ListItemPrefix::Todo { checked: true, visible: true };
    let children = vec![
        BlockNode::List { children: vec![], ordered: false, span: None },
        para("after"),
    ];
    let r = list_item_child_prefixes(Some(true), 0, false, 1, &children);
    assert_eq!(
        r,
        vec![
            ChildPrefix { line_before: Some(todo), prefix: None },
            ChildPrefix { line_before: None, prefix: Some(todo.hidden()) },
        ]
    );
}

#[test]
fn table_columns_are_as_wide_as_their_longest_text() {
    let cell = |text: &str| TableCell { children: Paragraph::new(text.as_bytes().to_vec()) };
    let table = Table {
        children: vec![
            TableRow { children: vec![cell("a"), cell("bbbbbbbb")] },
            TableRow { children: vec![cell("cccccc"), cell("d"), cell("e")] },
        ],
        column_aligns: vec![],
        span: None,
    };
    let lens = table.column_lengths();
    assert_eq!(lens, vec![6, 8, 5]);
    assert_eq!(column_width(&lens, 1), 8);
    assert_eq!(column_width(&lens, 7), 150);
    assert_eq!(column_width(&vec![400], 0), 150);
}

#[test]
fn list_item_children_render_one_level_deeper() {
    let base = NodeRenderOptions { ix: 7, depth: 1, column_align: ColumnAlign::Right, ..Default::default() };
    let item = list_item_options(base, 2, true);
    assert_eq!(item, NodeRenderOptions { ix: 2, ordered: true, ..base });
    let marker = ListItemPrefix::Marker { ix: 2, ordered: true, depth: 1, visible: true };
    let child = list_item_child_options(item, ChildPrefix { line_before: None, prefix: Some(marker) });
    assert_eq!(
        child,
        NodeRenderOptions { depth: 2, in_list: true, is_last: true, list_prefix: Some(marker), ..item }
    );
    let below = list_item_child_options(item, ChildPrefix { line_before: Some(marker), prefix: None });
    assert_eq!(below.list_prefix, None);
}

#[test]
fn table_cells_render_with_their_column_alignment() {
    let table = Table { children: vec![], column_aligns: vec![ColumnAlign::Center], span: None };
    let marker = ListItemPrefix::Todo { checked: false, visible: true };
    let options = NodeRenderOptions { list_prefix: Some(marker), depth: 3, ..Default::default() };
    let first = table_cell_options(options, &table, 0);
    assert_eq!(first, NodeRenderOptions { column_align: ColumnAlign::Center, list_prefix: None, ..options });
    assert_eq!(table_cell_options(options, &table, 4).column_align, ColumnAlign::Left);
}

#[test]
fn document_and_container_children_render_options() {
    let last = document_block_options(2, 3);
    assert_eq!(last, NodeRenderOptions { ix: 2, is_last: true, ..Default::default() });
    assert!(!document_block_options(0, 3).is_last);
    let marker = ListItemPrefix::Todo { checked: true, visible: true };
    let base = NodeRenderOptions { ix: 9, depth: 2, list_prefix: Some(marker), ..Default::default() };
    assert_eq!(root_child_options(base, 4), NodeRenderOptions { ix: 4, ..base });
    assert_eq!(
        blockquote_child_options(base, 1, 2),
        NodeRenderOptions { is_last: true, list_prefix: None, ..base }
    );
    assert!(!blockquote_child_options(base, 0, 2).is_last);
}
