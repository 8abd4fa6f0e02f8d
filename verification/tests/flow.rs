use ui_text::flow::{paragraph_inline_flow, FlowItem, FlowPiece};

#[test]
fn flow_units_are_graphemes_and_objects() {
    // "é" written as e + combining acute is one grapheme of three bytes.
    let pieces = vec![
        FlowPiece::Text("ae\u{301}".as_bytes().to_vec()),
        FlowPiece::Object,
        FlowPiece::Text(b"b".to_vec()),
    ];
    let flow = paragraph_inline_flow(&pieces);
    assert_eq!(flow.logical, "ae\u{301}\u{fffc}b".as_bytes().to_vec());
    assert_eq!(
        flow.items,
        vec![
            FlowItem { logical_end: 1, piece: 0, start: 0, end: 1 },
            FlowItem { logical_end: 4, piece: 0, start: 1, end: 4 },
            FlowItem { logical_end: 7, piece: 1, start: 0, end: 0 },
            FlowItem { logical_end: 8, piece: 2, start: 0, end: 1 },
        ]
    );
}

#[test]
fn flow_break_opportunities_follow_the_line_breaking_algorithm() {
    let flow = paragraph_inline_flow(&vec![FlowPiece::Text(b"Hello world!".to_vec())]);
    assert_eq!(flow.items.len(), 12);
    assert_eq!(flow.breaks, vec![6, 12]);
}

#[test]
fn empty_text_adds_nothing_to_the_flow() {
    let flow = paragraph_inline_flow(&vec![FlowPiece::Text(Vec::new())]);
    assert!(flow.logical.is_empty());
    assert!(flow.items.is_empty());
}
