use ui_text::inline::Selection;
use ui_text::math::{math_markdown_source, MathNode};

fn string(bytes: Vec<u8>) -> String {
    String::from_utf8(bytes).unwrap()
}

fn select_all(math: &mut MathNode) {
    let len = math.state.text.len();
    math.state.selection = Some(Selection { start: 0, end: len });
}

#[test]
fn test_math_selected_text_matches_markdown_source() {
    let mut inline = MathNode::try_new(b"x^2+y^2".to_vec(), false).unwrap();
    let inline_markdown = inline.markdown_source();
    assert_eq!(string(inline_markdown.clone()), "$x^2+y^2$");
    inline.state.selection = Some(Selection { start: 0, end: inline_markdown.len() });
    assert_eq!(inline.selected_text(), inline_markdown);

    let mut block = MathNode::try_new(b"x^2+y^2".to_vec(), true).unwrap();
    let block_markdown = block.markdown_source();
    assert_eq!(string(block_markdown.clone()), "$$\nx^2+y^2\n$$");
    block.state.selection = Some(Selection { start: 0, end: block_markdown.len() });
    assert_eq!(block.selected_text(), block_markdown);

    let mut paragraph_display = MathNode::try_new(b"x^2+y^2".to_vec(), true)
        .unwrap()
        .with_markdown_source(b"$$x^2+y^2$$".to_vec());
    let paragraph_display_markdown = paragraph_display.markdown_source();
    paragraph_display.state.selection =
        Some(Selection { start: 0, end: paragraph_display_markdown.len() });
    assert_eq!(string(paragraph_display.selected_text()), "$$x^2+y^2$$");
}

#[test]
fn test_common_math_inputs_parse() {
    for source in [
        "\\begin{aligned}x&=1\\\\y&=2\\end{aligned}",
        "\\begin{equation}e^{i\\pi}+1=0\\end{equation}",
        "\\begin{cases}x^2,&x\\ge0\\\\-x,&x<0\\end{cases}",
        "\\begin{bmatrix}1&0\\\\0&1\\end{bmatrix}",
        "\\color{red}{x} + \\textcolor{blue}{y}",
    ] {
        if let Err(err) = MathNode::try_new(source.as_bytes().to_vec(), true) {
            panic!("expected ratex to parse `{source}`, got {}", string(err));
        }
    }
}

#[test]
fn unparsable_tex_is_refused_with_a_message() {
    let err = MathNode::try_new(b"\\frac{1".to_vec(), true).err().expect("expected an error");
    assert!(!err.is_empty());
}

#[test]
fn fallback_math_shows_its_markdown_source() {
    let mut math = MathNode::fallback(b"\\frac{1".to_vec(), b"$$\n\\frac{1\n$$".to_vec(), true);
    assert!(math.is_display());
    assert_eq!(string(math.source().clone()), "\\frac{1");
    select_all(&mut math);
    assert_eq!(string(math.selected_text()), "$$\n\\frac{1\n$$");
}

#[test]
fn math_markdown_source_wraps_in_dollars() {
    assert_eq!(string(math_markdown_source(b"a+b", false)), "$a+b$");
    assert_eq!(string(math_markdown_source(b"a+b", true)), "$$\na+b\n$$");
}

#[test]
fn math_without_selection_selects_nothing() {
    let math = MathNode::try_new(b"x".to_vec(), false).unwrap();
    assert!(math.selected_text().is_empty());
}
