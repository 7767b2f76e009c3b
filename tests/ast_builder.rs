use gneiss::ast::{check_readable, Expr, File, Statement, SyntaxError};
use internment::Intern;

fn interned_str(h: &Intern<str>) -> &str {
    &**h
}
use gneiss::cst::{FieldName, NodeKind, SyntaxNode, SyntaxTree};
use gneiss::diagnostics::DiagnosticSeverity;
use gneiss::document::Document;
use gneiss::literal::IntLiteral;
use gneiss::text::PositionEncoding;
use gneiss::typ::Type;
use ropey::Rope;

fn node(
    kind: NodeKind,
    field: Option<FieldName>,
    start_byte: usize,
    end_byte: usize,
    children: Vec<usize>,
) -> SyntaxNode {
    SyntaxNode {
        kind,
        field,
        start_byte,
        end_byte,
        is_named: true,
        is_extra: false,
        is_error: false,
        has_error: false,
        children,
    }
}

/// The tree of `fn f() -> <ty> { g(<lit>) }`, with the type spanning
/// `ty_start..ty_end` and a literal `lit_len` bytes long.
fn call_tree(ty_start: usize, ty_end: usize, lit_len: usize) -> SyntaxTree {
    let body_start = ty_end + 1;
    let g = body_start + 2;
    let args_end = g + 2 + lit_len + 1;
    let end = args_end + 2;
    SyntaxTree {
        nodes: vec![
            node(NodeKind::Other, None, 0, end, vec![1]),
            node(NodeKind::Other, None, 0, end, vec![2, 3, 4, 5]),
            node(NodeKind::Identifier, Some(FieldName::Name), 3, 4, vec![]),
            node(NodeKind::Other, Some(FieldName::Parameters), 4, 6, vec![]),
            node(NodeKind::PrimitiveType, Some(FieldName::ReturnType), ty_start, ty_end, vec![]),
            node(NodeKind::Block, Some(FieldName::Body), body_start, end, vec![6]),
            node(NodeKind::FunctionCall, Some(FieldName::Result), g, args_end, vec![7, 8]),
            node(NodeKind::Identifier, Some(FieldName::Name), g, g + 1, vec![]),
            node(NodeKind::Other, Some(FieldName::Arguments), g + 1, args_end, vec![9]),
            node(NodeKind::Number, None, g + 2, g + 2 + lit_len, vec![]),
        ],
    }
}

fn build(src: &str, tree: &SyntaxTree) -> File {
    let text = Rope::from_str(src);
    assert!(check_readable(tree, &text));
    File::parse(tree, &text)
}

fn call_literal(file: &File) -> (String, IntLiteral) {
    let body = file.functions[0].body.as_ref().unwrap();
    assert!(body.statements.is_empty());
    let result = body.result.as_ref().unwrap().as_ref().unwrap();
    match &**result {
        Expr::FunctionCall { name, arguments } => {
            let name = interned_str(name.as_ref().unwrap()).to_owned();
            let args = &arguments.as_ref().unwrap().0;
            assert_eq!(args.len(), 1);
            match args[0].as_ref().unwrap() {
                Expr::IntLiteral(l) => (name, *l),
                other => panic!("not a literal: {other:?}"),
            }
        }
        other => panic!("not a call: {other:?}"),
    }
}

#[test]
fn call_with_literal_argument() {
    let src = "fn f() -> i32 { g(1_i32) }";
    let tree = call_tree(10, 13, 5);
    let file = build(src, &tree);
    assert_eq!(file.functions.len(), 1);
    let f = &file.functions[0];
    assert_eq!(interned_str(f.signature.name.as_ref().unwrap()), "f");
    assert!(f.signature.parameters.as_ref().unwrap().0.is_empty());
    assert_eq!(f.signature.return_type, Ok(Type::I32));
    let (callee, lit) = call_literal(&file);
    assert_eq!(callee, "g");
    assert_eq!(lit, IntLiteral::I32(Ok(1)));
    let doc = Document::open(Rope::from_str(src), tree, PositionEncoding::Utf16);
    assert!(doc.diagnostics.is_empty());
}

#[test]
fn scenario_source_with_suffixed_return_type() {
    // `i32_t` is not one of the nine type names: only the return type fails.
    let src = "fn f() -> i32_t { g(1_i32) }";
    let tree = call_tree(10, 15, 5);
    let file = build(src, &tree);
    assert_eq!(file.functions.len(), 1);
    let f = &file.functions[0];
    assert_eq!(f.signature.return_type, Err(SyntaxError));
    let (callee, lit) = call_literal(&file);
    assert_eq!(callee, "g");
    assert_eq!(lit, IntLiteral::I32(Ok(1)));
    let doc = Document::open(Rope::from_str(src), tree, PositionEncoding::Utf16);
    assert!(doc.diagnostics.is_empty());
}

#[test]
fn failed_return_type_leaves_body_intact() {
    let src = "fn f() -> bogus { g(7_u8) }";
    let tree = call_tree(10, 15, 4);
    let file = build(src, &tree);
    let f = &file.functions[0];
    assert_eq!(f.signature.return_type, Err(SyntaxError));
    assert!(f.body.is_ok());
    assert_eq!(call_literal(&file).1, IntLiteral::U8(Ok(7)));
}

#[test]
fn failed_body_leaves_return_type_intact() {
    let src = "fn f() -> u64 { g(7_u8) }";
    let mut tree = call_tree(10, 13, 4);
    tree.nodes[5].kind = NodeKind::Other;
    let file = build(src, &tree);
    let f = &file.functions[0];
    assert_eq!(f.signature.return_type, Ok(Type::U64));
    assert!(f.body.is_err());
}

#[test]
fn overflowing_literal_fails_without_diagnostic() {
    let src = "fn f() -> u8 { g(300_u8) }";
    let tree = call_tree(10, 12, 6);
    let file = build(src, &tree);
    assert_eq!(call_literal(&file).1, IntLiteral::U8(Err(SyntaxError)));
    let doc = Document::open(Rope::from_str(src), tree, PositionEncoding::Utf8);
    assert!(doc.diagnostics.is_empty());
}

#[test]
fn literal_separators_are_stripped() {
    let src = "fn f() -> i64 { g(1_000_i64) }";
    let tree = call_tree(10, 13, 9);
    let file = build(src, &tree);
    assert_eq!(call_literal(&file).1, IntLiteral::I64(Ok(1000)));
}

#[test]
fn literal_bounds_of_each_width() {
    let cases: Vec<(&str, IntLiteral)> = vec![
        ("255_u8", IntLiteral::U8(Ok(255))),
        ("256_u8", IntLiteral::U8(Err(SyntaxError))),
        ("65535_u16", IntLiteral::U16(Ok(65535))),
        ("4294967296_u32", IntLiteral::U32(Err(SyntaxError))),
        ("18446744073709551615_u64", IntLiteral::U64(Ok(u64::MAX))),
        ("127_i8", IntLiteral::I8(Ok(127))),
        ("128_i8", IntLiteral::I8(Err(SyntaxError))),
        ("32767_i16", IntLiteral::I16(Ok(32767))),
        ("2147483648_i32", IntLiteral::I32(Err(SyntaxError))),
        ("9223372036854775807_i64", IntLiteral::I64(Ok(i64::MAX))),
    ];
    for (lit, expected) in cases {
        let cs: Vec<char> = lit.chars().collect();
        assert!(gneiss::literal::is_literal_text(&cs));
        assert_eq!(gneiss::literal::literal_from_text(&cs), expected, "{lit}");
    }
    let bad: Vec<char> = "12_f32".chars().collect();
    assert!(!gneiss::literal::is_literal_text(&bad));
    let bare: Vec<char> = "12".chars().collect();
    assert!(!gneiss::literal::is_literal_text(&bare));
}

#[test]
fn decimal_parsing_follows_str_parse() {
    let p = |s: &str, lo: i128, hi: i128| {
        let cs: Vec<char> = s.chars().collect();
        gneiss::literal::parse_decimal(&cs, lo, hi)
    };
    assert_eq!(p("", 0, 255), None);
    assert_eq!(p("+", -128, 127), None);
    assert_eq!(p("+12", 0, 255), Some(12));
    assert_eq!(p("-12", 0, 255), None);
    assert_eq!(p("-128", -128, 127), Some(-128));
    assert_eq!(p("1a", 0, 255), None);
}

#[test]
fn statements_exclude_the_result_node() {
    // fn f() -> unit { let x = y; z }
    let src = "fn f() -> unit { let x = y; z }";
    let tree = SyntaxTree {
        nodes: vec![
            node(NodeKind::Other, None, 0, 31, vec![1]),
            node(NodeKind::Other, None, 0, 31, vec![2, 3, 4, 5]),
            node(NodeKind::Identifier, Some(FieldName::Name), 3, 4, vec![]),
            node(NodeKind::Other, Some(FieldName::Parameters), 4, 6, vec![]),
            node(NodeKind::PrimitiveType, Some(FieldName::ReturnType), 10, 14, vec![]),
            node(NodeKind::Block, Some(FieldName::Body), 15, 31, vec![6, 9]),
            node(NodeKind::LetDeclaration, None, 17, 27, vec![7, 8]),
            node(NodeKind::Identifier, Some(FieldName::Pattern), 21, 22, vec![]),
            node(NodeKind::Identifier, Some(FieldName::Value), 25, 26, vec![]),
            node(NodeKind::Identifier, Some(FieldName::Result), 28, 29, vec![]),
        ],
    };
    let file = build(src, &tree);
    let f = &file.functions[0];
    assert_eq!(f.signature.return_type, Ok(Type::Unit));
    let body = f.body.as_ref().unwrap();
    assert_eq!(body.statements.len(), 1);
    match body.statements[0].as_ref().unwrap() {
        Statement::Let { pattern, value } => {
            match (pattern.as_ref().unwrap(), value.as_ref().unwrap()) {
                (Expr::Identifier(p), Expr::Identifier(v)) => {
                    assert_eq!(interned_str(p), "x");
                    assert_eq!(interned_str(v), "y");
                }
                other => panic!("{other:?}"),
            }
        }
        other => panic!("{other:?}"),
    }
    match &**body.result.as_ref().unwrap().as_ref().unwrap() {
        Expr::Identifier(z) => assert_eq!(interned_str(z), "z"),
        other => panic!("{other:?}"),
    }
}

#[test]
fn error_argument_keeps_its_position() {
    // g(1_u8, ?) with the second argument an extra error marker
    let src = "fn f() -> u8 { g(1_u8, ?) }";
    let mut tree = SyntaxTree {
        nodes: vec![
            node(NodeKind::Other, None, 0, 27, vec![1]),
            node(NodeKind::Other, None, 0, 27, vec![2, 3, 4, 5]),
            node(NodeKind::Identifier, Some(FieldName::Name), 3, 4, vec![]),
            node(NodeKind::Other, Some(FieldName::Parameters), 4, 6, vec![]),
            node(NodeKind::PrimitiveType, Some(FieldName::ReturnType), 10, 12, vec![]),
            node(NodeKind::Block, Some(FieldName::Body), 13, 27, vec![6]),
            node(NodeKind::FunctionCall, Some(FieldName::Result), 15, 25, vec![7, 8]),
            node(NodeKind::Identifier, Some(FieldName::Name), 15, 16, vec![]),
            node(NodeKind::Other, Some(FieldName::Arguments), 16, 25, vec![9, 10]),
            node(NodeKind::Number, None, 17, 21, vec![]),
            node(NodeKind::Other, None, 23, 24, vec![]),
        ],
    };
    tree.nodes[10].is_extra = true;
    tree.nodes[10].is_error = true;
    tree.nodes[10].has_error = true;
    for i in [0, 1, 5, 6, 8] {
        tree.nodes[i].has_error = true;
    }
    let text = Rope::from_str(src);
    assert!(check_readable(&tree, &text));
    let file = File::parse(&tree, &text);
    let body = file.functions[0].body.as_ref().unwrap();
    match &**body.result.as_ref().unwrap().as_ref().unwrap() {
        Expr::FunctionCall { arguments, .. } => {
            let args = &arguments.as_ref().unwrap().0;
            assert_eq!(args.len(), 2);
            assert!(matches!(args[0], Ok(Expr::IntLiteral(IntLiteral::U8(Ok(1))))));
            assert!(args[1].is_err());
        }
        other => panic!("{other:?}"),
    }
    let doc = Document::open(text, tree, PositionEncoding::Utf8);
    assert_eq!(doc.diagnostics.len(), 1);
    assert_eq!(doc.diagnostics[0].severity, DiagnosticSeverity::Error);
    assert_eq!(doc.diagnostics[0].message, "syntax error");
    assert_eq!(doc.diagnostics[0].range.start.character, 23);
    assert_eq!(doc.diagnostics[0].range.end.character, 24);
}

#[test]
fn empty_identifier_fails() {
    let src = "fn f() -> u8 { g(1_u8) }";
    let mut tree = call_tree(10, 12, 4);
    tree.nodes[7].end_byte = tree.nodes[7].start_byte;
    let file = build(src, &tree);
    let body = file.functions[0].body.as_ref().unwrap();
    match &**body.result.as_ref().unwrap().as_ref().unwrap() {
        Expr::FunctionCall { name, arguments } => {
            assert!(name.is_err());
            assert!(arguments.is_ok());
        }
        other => panic!("{other:?}"),
    }
}

#[test]
fn unreadable_trees_are_refused() {
    let src = "fn f() -> u8 { g(1_u8) }";
    let text = Rope::from_str(src);
    let mut cyclic = call_tree(10, 12, 4);
    cyclic.nodes[5].children = vec![1];
    assert!(!check_readable(&cyclic, &text));
    let mut long = call_tree(10, 12, 4);
    long.nodes[0].end_byte = 99;
    assert!(!check_readable(&long, &text));
    let mut bad_literal = call_tree(10, 12, 4);
    bad_literal.nodes[9].end_byte = 18;
    assert!(!check_readable(&bad_literal, &text));
    assert!(!check_readable(&SyntaxTree { nodes: vec![] }, &text));
}

#[test]
fn parsing_twice_gives_equal_results() {
    let src = "fn f() -> i32 { g(1_i32) }";
    let tree = call_tree(10, 13, 5);
    let a = Document::open(Rope::from_str(src), tree.clone(), PositionEncoding::Utf16);
    let b = Document::open(Rope::from_str(src), tree, PositionEncoding::Utf16);
    assert_eq!(format!("{:?}", a.ast), format!("{:?}", b.ast));
    assert_eq!(a.diagnostics, b.diagnostics);
}

#[test]
fn type_names() {
    let w = |s: &str| -> Vec<char> { s.chars().collect() };
    assert_eq!(gneiss::typ::type_from_word(&w("unit")), Some(Type::Unit));
    assert_eq!(gneiss::typ::type_from_word(&w("i16")), Some(Type::I16));
    assert_eq!(gneiss::typ::type_from_word(&w("u32")), Some(Type::U32));
    assert_eq!(gneiss::typ::type_from_word(&w("u128")), None);
    assert_eq!(gneiss::typ::type_from_word(&w("")), None);
}

#[test]
fn error_argument_that_is_not_extra_keeps_its_position() {
    // g(?, 1_u8) with the first argument an error marker that is not extra
    let src = "fn f() -> u8 { g(?, 1_u8) }";
    let mut tree = SyntaxTree {
        nodes: vec![
            node(NodeKind::Other, None, 0, 27, vec![1]),
            node(NodeKind::Other, None, 0, 27, vec![2, 3, 4, 5]),
            node(NodeKind::Identifier, Some(FieldName::Name), 3, 4, vec![]),
            node(NodeKind::Other, Some(FieldName::Parameters), 4, 6, vec![]),
            node(NodeKind::PrimitiveType, Some(FieldName::ReturnType), 10, 12, vec![]),
            node(NodeKind::Block, Some(FieldName::Body), 13, 27, vec![6]),
            node(NodeKind::FunctionCall, Some(FieldName::Result), 15, 25, vec![7, 8]),
            node(NodeKind::Identifier, Some(FieldName::Name), 15, 16, vec![]),
            node(NodeKind::Other, Some(FieldName::Arguments), 16, 25, vec![9, 10, 11]),
            node(NodeKind::Other, None, 17, 18, vec![]),
            node(NodeKind::Other, None, 18, 19, vec![]),
            node(NodeKind::Number, None, 20, 24, vec![]),
        ],
    };
    tree.nodes[9].is_error = true;
    tree.nodes[9].has_error = true;
    // Extra filler with no error is skipped.
    tree.nodes[10].is_extra = true;
    for i in [0, 1, 5, 6, 8] {
        tree.nodes[i].has_error = true;
    }
    let text = Rope::from_str(src);
    assert!(check_readable(&tree, &text));
    let file = File::parse(&tree, &text);
    let body = file.functions[0].body.as_ref().unwrap();
    match &**body.result.as_ref().unwrap().as_ref().unwrap() {
        Expr::FunctionCall { arguments, .. } => {
            let args = &arguments.as_ref().unwrap().0;
            assert_eq!(args.len(), 2);
            assert!(args[0].is_err());
            assert!(matches!(args[1], Ok(Expr::IntLiteral(IntLiteral::U8(Ok(1))))));
        }
        other => panic!("{other:?}"),
    }
}

#[test]
fn equal_identifiers_share_one_handle() {
    // fn g() -> unit { g }: the function's name and the result name one handle.
    let src = "fn g() -> unit { g }";
    let tree = SyntaxTree {
        nodes: vec![
            node(NodeKind::Other, None, 0, 20, vec![1]),
            node(NodeKind::Other, None, 0, 20, vec![2, 3, 4, 5]),
            node(NodeKind::Identifier, Some(FieldName::Name), 3, 4, vec![]),
            node(NodeKind::Other, Some(FieldName::Parameters), 4, 6, vec![]),
            node(NodeKind::PrimitiveType, Some(FieldName::ReturnType), 10, 14, vec![]),
            node(NodeKind::Block, Some(FieldName::Body), 15, 20, vec![6]),
            node(NodeKind::Identifier, Some(FieldName::Result), 17, 18, vec![]),
        ],
    };
    let file = build(src, &tree);
    let f = &file.functions[0];
    let name = *f.signature.name.as_ref().unwrap();
    match &**f.body.as_ref().unwrap().result.as_ref().unwrap().as_ref().unwrap() {
        Expr::Identifier(h) => assert_eq!(*h, name),
        other => panic!("{other:?}"),
    }
}
