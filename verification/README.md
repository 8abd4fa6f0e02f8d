# ui_text

The text document model of a rich-text view: markdown turned into blocks
(paragraphs, headings, lists, tables, code, formulas), the inline nodes of a
paragraph with their styles, and what the view reads back from them: plain
text, selected text and markdown.

All text is UTF-8 held as bytes, since every offset the model handles (spans,
mark ranges, selections, run lengths) is a byte offset.

- `src/` is verified with Verus. `markdown.rs` builds the document from the
  markdown parser's syntax tree; `serialize.rs` and `text.rs` read markdown and
  text back; `inline.rs` and `layout.rs` hold the decisions that drawing takes
  from the model; `flow.rs` builds the logical text that lines are broken
  in; `math.rs` checks TeX with the TeX parser; `options.rs` holds
  the parser's options; `syntax_tree.rs` runs the markdown parser and turns
  its tree into the library's plain tree.
- `app/` gives the parser's message as a `String` and holds the
  floating-point geometry (hit-testing, image sizes).
- `tests/` exercise the library with the real parsers linked.
