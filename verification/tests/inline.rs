use ui_text::inline::{
    inline_node_link, inline_node_styles_for_range, paragraph_inline_highlighted_text_items,
    selected_ranges_for_chars, InlineHighlight, InlineState, InlineTextItem, Selection,
};
use ui_text::node::{InlineNode, LinkMark, NodeContext, TextMark};

#[test]
fn selected_ranges_group_runs_of_hit_characters() {
    // "aé b" with 'a' and 'é' hit, ' ' not, 'b' hit, starting at byte 10.
    let chars = vec![(1, true), (2, true), (1, false), (1, true)];
    let ranges = selected_ranges_for_chars(10, &chars);
    assert_eq!(ranges, vec![10..13, 14..15]);
    assert!(selected_ranges_for_chars(0, &vec![(1, false), (3, false)]).is_empty());
}

#[test]
fn extend_selection_covers_all_ranges() {
    let mut state = InlineState::new();
    state.set_text(b"0123456789".to_vec());
    state.extend_selection(&vec![4..6, 1..2]);
    assert_eq!(state.selection, Some(Selection { start: 1, end: 6 }));
    state.extend_selection(&vec![8..9]);
    assert_eq!(state.selection, Some(Selection { start: 1, end: 9 }));
    assert_eq!(state.selected(), b"12345678".to_vec());
}

#[test]
fn styles_for_range_clip_marks_and_resolve_links() {
    let mut cx = NodeContext::new();
    cx.add_ref(b"r".to_vec(), LinkMark { url: b"https://r".to_vec(), ..Default::default() });
    let reference = LinkMark { url: Vec::new(), identifier: Some(b"r".to_vec()), title: None };
    let node = InlineNode::new(b"hello world".to_vec()).marks(vec![
        (0..5, TextMark::plain().bold()),
        (6..11, TextMark::plain().link(reference)),
        (20..30, TextMark::plain().italic()),
    ]);
    let (highlights, links) = inline_node_styles_for_range(&node, 2..8, 100, &cx);
    assert_eq!(highlights.len(), 2);
    assert_eq!(highlights[0].0, 100..103);
    assert!(highlights[0].1.bold && !highlights[0].1.link);
    assert_eq!(highlights[1].0, 104..106);
    assert_eq!(
        highlights[1].1,
        InlineHighlight { bold: false, italic: false, strikethrough: false, underline: true, code: false, link: true }
    );
    assert_eq!(links.len(), 1);
    assert_eq!(links[0].0, 104..106);
    assert_eq!(links[0].1.url, b"https://r".to_vec());
    assert_eq!(inline_node_link(&node, &cx).map(|l| l.url), Some(b"https://r".to_vec()));
}

#[test]
fn highlighted_text_splits_at_newlines() {
    let text = "ab\n\ncd".as_bytes();
    let items = paragraph_inline_highlighted_text_items(text, &[(1..5, 'h')]);
    assert_eq!(items.len(), 4);
    let InlineTextItem::Text(first) = &items[0] else { panic!("expected text") };
    assert_eq!(first.text, b"ab".to_vec());
    assert_eq!(first.source_offset, 0);
    assert_eq!(first.highlights, vec![(1..2, 'h')]);
    assert!(matches!(items[1], InlineTextItem::Break));
    assert!(matches!(items[2], InlineTextItem::Break));
    let InlineTextItem::Text(last) = &items[3] else { panic!("expected text") };
    assert_eq!(last.text, b"cd".to_vec());
    assert_eq!(last.source_offset, 4);
    assert_eq!(last.highlights, vec![(0..1, 'h')]);
}
