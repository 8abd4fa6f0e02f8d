use ui_text::bytes::is_char_boundary;
use ui_text::utils::{list_item_prefix, normalize_runs_for_text, TextRun};

fn prefix(ix: usize, ordered: bool, depth: usize) -> String {
    String::from_utf8(list_item_prefix(ix, ordered, depth)).unwrap()
}

#[test]
fn test_list_item_prefix() {
    assert_eq!(prefix(0, true, 0), "1. ");
    assert_eq!(prefix(1, true, 0), "2. ");
    assert_eq!(prefix(2, true, 0), "3. ");
    assert_eq!(prefix(10, true, 0), "11. ");
    assert_eq!(prefix(0, true, 1), "A. ");
    assert_eq!(prefix(1, true, 1), "B. ");
    assert_eq!(prefix(2, true, 1), "C. ");
    assert_eq!(prefix(0, true, 2), "a. ");
    assert_eq!(prefix(1, true, 2), "b. ");
    assert_eq!(prefix(6, true, 2), "g. ");
    assert_eq!(prefix(0, true, 1), "A. ");
    assert_eq!(prefix(0, true, 2), "a. ");
    assert_eq!(prefix(0, false, 0), "• ");
    assert_eq!(prefix(0, false, 1), "◦ ");
    assert_eq!(prefix(0, false, 2), "▪ ");
    assert_eq!(prefix(0, false, 3), "‣ ");
    assert_eq!(prefix(0, false, 4), "⁃ ");
}

#[test]
fn list_item_prefix_cycles_letters_and_caps_bullets() {
    assert_eq!(prefix(26, true, 1), "A. ");
    assert_eq!(prefix(27, true, 3), "b. ");
    assert_eq!(prefix(5, false, 9), "⁃ ");
    assert_eq!(prefix(99, true, 0), "100. ");
}

#[test]
fn test_normalize_runs_for_text_keeps_utf8_boundaries() {
    let text = "- normal 渲染 -> supported";

    let runs = normalize_runs_for_text(
        text.as_bytes(),
        vec![TextRun { len: 13, style: "a" }, TextRun { len: 20, style: "b" }],
    );

    let mut offset = 0;
    for run in &runs {
        offset += run.len;
        assert!(
            text.is_char_boundary(offset),
            "run boundary {offset} should be a UTF-8 char boundary"
        );
        assert!(is_char_boundary(text.as_bytes(), offset));
    }

    assert_eq!(runs.iter().map(|run| run.len).sum::<usize>(), text.len());
}

#[test]
fn normalize_runs_stretches_last_run_to_the_end() {
    let runs = normalize_runs_for_text(b"abcdef", vec![TextRun { len: 2, style: 1 }, TextRun { len: 1, style: 2 }]);
    let lens: Vec<(usize, i32)> = runs.iter().map(|r| (r.len, r.style)).collect();
    assert_eq!(lens, vec![(2, 1), (4, 2)]);
}

#[test]
fn normalize_runs_drops_runs_past_the_end_and_empty_runs() {
    let runs = normalize_runs_for_text(
        b"abc",
        vec![TextRun { len: 0, style: 0 }, TextRun { len: 5, style: 1 }, TextRun { len: 2, style: 2 }],
    );
    let lens: Vec<(usize, i32)> = runs.iter().map(|r| (r.len, r.style)).collect();
    assert_eq!(lens, vec![(3, 1)]);
}

#[test]
fn normalize_runs_of_empty_text_is_empty() {
    let runs = normalize_runs_for_text(b"", vec![TextRun { len: 3, style: () }]);
    assert!(runs.is_empty());
}

#[test]
fn normalize_runs_with_no_progress_gives_no_runs() {
    let runs = normalize_runs_for_text(b"abc", vec![TextRun { len: 0, style: () }]);
    assert!(runs.is_empty());
}

#[test]
fn normalize_runs_moves_ends_past_multibyte_characters() {
    // "é" is two bytes; a run of one byte is extended to the whole character.
    let runs = normalize_runs_for_text("éa".as_bytes(), vec![TextRun { len: 1, style: 'x' }, TextRun { len: 1, style: 'y' }]);
    let lens: Vec<(usize, char)> = runs.iter().map(|r| (r.len, r.style)).collect();
    assert_eq!(lens, vec![(2, 'x'), (1, 'y')]);
}
