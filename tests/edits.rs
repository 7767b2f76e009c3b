use gneiss::cst::{FieldName, NodeKind, SyntaxNode, SyntaxTree};
use gneiss::document::{Document, EditError, InputEdit, TextEdit};
use gneiss::text::{byte_to_point, Point, Position, PositionEncoding, Range};
use ropey::Rope;

fn node(kind: NodeKind, field: Option<FieldName>, start: usize, end: usize, children: Vec<usize>) -> SyntaxNode {
    SyntaxNode {
        kind,
        field,
        start_byte: start,
        end_byte: end,
        is_named: true,
        is_extra: false,
        is_error: false,
        has_error: false,
        children,
    }
}

fn pos(line: u32, character: u32) -> Position {
    Position { line, character }
}

fn edit(start: Position, end: Position, text: &str) -> TextEdit {
    TextEdit { range: Some(Range { start, end }), text: text.to_owned() }
}

/// A tree over any text that holds no function: a bare root.
fn bare_tree(len: usize) -> SyntaxTree {
    SyntaxTree { nodes: vec![node(NodeKind::Other, None, 0, len, vec![])] }
}

fn open(src: &str, enc: PositionEncoding) -> Document {
    Document::open(Rope::from_str(src), bare_tree(src.len()), enc)
}

#[test]
fn single_edit_replaces_range_and_reports_delta() {
    let enc = PositionEncoding::Utf16;
    let doc = open("let a = 1;\nlet b = 2;\n", enc);
    let out = doc.apply_edits(enc, &vec![edit(pos(1, 4), pos(1, 5), "total")]).unwrap();
    assert_eq!(out.text.to_string(), "let a = 1;\nlet total = 2;\n");
    assert_eq!(
        out.deltas,
        vec![InputEdit {
            start_byte: 15,
            old_end_byte: 16,
            new_end_byte: 20,
            start_position: Point { row: 1, column: 4 },
            old_end_position: Point { row: 1, column: 5 },
            new_end_position: Point { row: 1, column: 9 },
        }]
    );
    // The document itself is unchanged until its state is replaced.
    assert_eq!(doc.text.to_string(), "let a = 1;\nlet b = 2;\n");
}

#[test]
fn batch_is_applied_from_the_last_edit() {
    let enc = PositionEncoding::Utf8;
    let doc = open("abcdef", enc);
    // The second edit lies before the first: applied first, it shifts the
    // first edit's range, which is then read against the shifted text.
    let batch = vec![edit(pos(0, 4), pos(0, 5), "X"), edit(pos(0, 1), pos(0, 2), "YYY")];
    let out = doc.apply_edits(enc, &batch).unwrap();
    assert_eq!(out.text.to_string(), "aYYYXdef");
    assert_eq!(out.deltas[0].start_byte, 1);
    assert_eq!(out.deltas[0].new_end_byte, 4);
    assert_eq!(out.deltas[1].start_byte, 4);
    assert_eq!(out.deltas[1].old_end_byte, 5);
}

#[test]
fn reverse_order_matches_document_order_with_shifted_offsets() {
    let enc = PositionEncoding::Utf8;
    let doc = open("0123456789", enc);
    // Later range first, then the earlier one, each at its own offsets.
    let reverse = doc
        .apply_edits(enc, &vec![edit(pos(0, 1), pos(0, 3), "ab"), edit(pos(0, 6), pos(0, 8), "Z")])
        .unwrap();
    // Earlier range first, then the later one shifted by the first's change (+0 here, then -1).
    let forward = doc
        .apply_edits(enc, &vec![edit(pos(0, 6), pos(0, 8), "Z"), edit(pos(0, 1), pos(0, 3), "ab")])
        .unwrap();
    assert_eq!(reverse.text.to_string(), "0ab345Z89");
    assert_eq!(forward.text.to_string(), "0ab345Z89");
    let doc2 = open("0123456789", enc);
    let shrink_first = doc2.apply_edits(enc, &vec![edit(pos(0, 1), pos(0, 3), "")]).unwrap();
    let then_later = Document::open(shrink_first.text, bare_tree(8), enc)
        .apply_edits(enc, &vec![edit(pos(0, 4), pos(0, 6), "Z")])
        .unwrap();
    let later_first = doc2
        .apply_edits(enc, &vec![edit(pos(0, 1), pos(0, 3), ""), edit(pos(0, 6), pos(0, 8), "Z")])
        .unwrap();
    assert_eq!(then_later.text.to_string(), later_first.text.to_string());
    assert_eq!(later_first.text.to_string(), "0345Z89");
}

#[test]
fn whole_document_edit_is_refused() {
    let enc = PositionEncoding::Utf16;
    let doc = open("abc", enc);
    let batch = vec![TextEdit { range: None, text: "x".to_owned() }];
    assert_eq!(doc.apply_edits(enc, &batch).err(), Some(EditError::WholeDocument));
}

#[test]
fn out_of_range_edit_is_refused() {
    let enc = PositionEncoding::Utf16;
    let doc = open("abc\n", enc);
    assert_eq!(
        doc.apply_edits(enc, &vec![edit(pos(5, 0), pos(5, 1), "x")]).err(),
        Some(EditError::OutOfRange)
    );
    assert_eq!(
        doc.apply_edits(enc, &vec![edit(pos(0, 3), pos(0, 1), "x")]).err(),
        Some(EditError::OutOfRange)
    );
    assert_eq!(
        doc.apply_edits(enc, &vec![edit(pos(0, 0), pos(0, 9), "x")]).err(),
        Some(EditError::OutOfRange)
    );
}

#[test]
fn utf8_column_inside_a_character_is_refused() {
    let enc = PositionEncoding::Utf8;
    let doc = open("é!", enc);
    assert_eq!(
        doc.apply_edits(enc, &vec![edit(pos(0, 1), pos(0, 2), "x")]).err(),
        Some(EditError::OutOfRange)
    );
    let ok = doc.apply_edits(enc, &vec![edit(pos(0, 2), pos(0, 3), "?")]).unwrap();
    assert_eq!(ok.text.to_string(), "é?");
}

#[test]
fn utf16_edit_after_astral_character() {
    let enc = PositionEncoding::Utf16;
    let doc = open("a😀b", enc);
    // `b` starts at code unit 3 and at byte 5.
    let out = doc.apply_edits(enc, &vec![edit(pos(0, 3), pos(0, 4), "c")]).unwrap();
    assert_eq!(out.text.to_string(), "a😀c");
    assert_eq!(out.deltas[0].start_byte, 5);
    assert_eq!(out.deltas[0].start_position, Point { row: 0, column: 2 });
}

/// The tree of `fn f() -> i32 { g(1_i32) }`.
fn call_tree() -> SyntaxTree {
    SyntaxTree {
        nodes: vec![
            node(NodeKind::Other, None, 0, 26, vec![1]),
            node(NodeKind::Other, None, 0, 26, vec![2, 3, 4, 5]),
            node(NodeKind::Identifier, Some(FieldName::Name), 3, 4, vec![]),
            node(NodeKind::Other, Some(FieldName::Parameters), 4, 6, vec![]),
            node(NodeKind::PrimitiveType, Some(FieldName::ReturnType), 10, 13, vec![]),
            node(NodeKind::Block, Some(FieldName::Body), 14, 26, vec![6]),
            node(NodeKind::FunctionCall, Some(FieldName::Result), 16, 24, vec![7, 8]),
            node(NodeKind::Identifier, Some(FieldName::Name), 16, 17, vec![]),
            node(NodeKind::Other, Some(FieldName::Arguments), 17, 24, vec![9]),
            node(NodeKind::Number, None, 18, 23, vec![]),
        ],
    }
}

/// The tree of `fn f(` as the grammar engine reports it: one error region.
fn truncated_tree() -> SyntaxTree {
    let mut t = SyntaxTree {
        nodes: vec![
            node(NodeKind::Other, None, 0, 5, vec![1]),
            node(NodeKind::Other, None, 0, 5, vec![2]),
            node(NodeKind::Identifier, None, 3, 4, vec![]),
        ],
    };
    t.nodes[0].has_error = true;
    t.nodes[1].is_error = true;
    t.nodes[1].has_error = true;
    t
}

#[test]
fn truncation_leaves_one_function_and_one_diagnostic() {
    let enc = PositionEncoding::Utf16;
    let src = "fn f() -> i32 { g(1_i32) }";
    let mut doc = Document::open(Rope::from_str(src), call_tree(), enc);
    assert!(doc.diagnostics.is_empty());
    let out = doc.apply_edits(enc, &vec![edit(pos(0, 5), pos(0, 26), "")]).unwrap();
    assert_eq!(out.text.to_string(), "fn f(");
    assert_eq!(out.deltas[0].old_end_byte, 26);
    assert_eq!(out.deltas[0].new_end_byte, 5);
    let tree = truncated_tree();
    assert!(gneiss::ast::check_readable(&tree, &out.text));
    doc.replace(out.text, tree, enc);
    assert_eq!(doc.ast.functions.len(), 1);
    let f = &doc.ast.functions[0];
    assert!(f.signature.parameters.is_err());
    assert!(f.body.is_err());
    assert_eq!(doc.diagnostics.len(), 1);
    assert_eq!(doc.diagnostics[0].range, Range { start: pos(0, 0), end: pos(0, 5) });
}

#[test]
fn edited_document_matches_fresh_open() {
    let enc = PositionEncoding::Utf16;
    let mut doc = Document::open(Rope::from_str("fn f() -> i32 { g(1_i32) }"), call_tree(), enc);
    let out = doc.apply_edits(enc, &vec![edit(pos(0, 5), pos(0, 26), "")]).unwrap();
    let text = out.text.to_string();
    doc.replace(out.text, truncated_tree(), enc);
    let fresh = Document::open(Rope::from_str(&text), truncated_tree(), enc);
    assert_eq!(doc.text.to_string(), fresh.text.to_string());
    assert_eq!(format!("{:?}", doc.ast), format!("{:?}", fresh.ast));
    assert_eq!(doc.diagnostics, fresh.diagnostics);
}

#[test]
fn new_end_point_counts_characters() {
    let text = Rope::from_str("ab\ncdé\r\nx");
    assert_eq!(byte_to_point(&text, 0), Point { row: 0, column: 0 });
    assert_eq!(byte_to_point(&text, 3), Point { row: 1, column: 0 });
    assert_eq!(byte_to_point(&text, 7), Point { row: 1, column: 3 });
    assert_eq!(byte_to_point(&text, 8), Point { row: 1, column: 4 });
    assert_eq!(byte_to_point(&text, 9), Point { row: 2, column: 0 });
}

#[test]
fn syntax_errors_are_appended_to_the_list() {
    let enc = PositionEncoding::Utf16;
    let mut doc = Document::open(Rope::from_str("fn f("), truncated_tree(), enc);
    assert_eq!(doc.diagnostics.len(), 1);
    let first = doc.diagnostics[0];
    doc.check_syntax_errors(enc);
    assert_eq!(doc.diagnostics, vec![first, first]);
    // A tree with no error leaves the list as it was.
    let mut clean = open("abc", enc);
    clean.diagnostics.push(first);
    clean.check_syntax_errors(enc);
    assert_eq!(clean.diagnostics, vec![first]);
    // Replacing the state starts the list afresh.
    let text = Rope::from_str("fn f(");
    doc.replace(text, truncated_tree(), enc);
    assert_eq!(doc.diagnostics, vec![first]);
}

#[test]
fn text_length_in_bytes() {
    assert_eq!(gneiss::text::text_len_bytes(&Rope::from_str("aé😀")), 7);
    assert_eq!(gneiss::text::text_len_bytes(&Rope::from_str("")), 0);
}
