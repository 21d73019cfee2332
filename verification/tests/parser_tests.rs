use gallang::parser::parse_program;
use gallang::syntax::{Associativity, Expr, Primitive};

fn parse_one(src: &[u8]) -> Expr {
    let mut es = parse_program(src).expect("parse should succeed");
    assert_eq!(es.len(), 1);
    es.remove(0)
}

#[test]
fn parses_int_literal() {
    match parse_one(b"42") {
        Expr::Primitive(Primitive::Int(i)) => assert_eq!(i, 42),
        other => panic!("unexpected: {:?}", expr_kind(&other)),
    }
}

#[test]
fn parses_negative_int() {
    match parse_one(b"-17") {
        Expr::Primitive(Primitive::Int(i)) => assert_eq!(i, -17),
        _ => panic!("expected int"),
    }
}

#[test]
fn rejects_overflowing_int_literal() {
    assert!(parse_program(b"99999999999999999999999999").is_err());
}

#[test]
fn parses_float_as_lexical_text() {
    match parse_one(b"3.25e+2") {
        Expr::Primitive(Primitive::Float(t)) => assert_eq!(t, b"3.25e+2".to_vec()),
        _ => panic!("expected float"),
    }
}

#[test]
fn parses_string_with_escapes() {
    match parse_one(b"\"a\\n\\\"b\\\\\"") {
        Expr::Primitive(Primitive::Str(v)) => assert_eq!(v, b"a\n\"b\\".to_vec()),
        _ => panic!("expected string"),
    }
}

#[test]
fn parses_bool_literals() {
    match parse_one(b"true") {
        Expr::Primitive(Primitive::Bool(b)) => assert!(b),
        _ => panic!("expected bool"),
    }
    match parse_one(b"false") {
        Expr::Primitive(Primitive::Bool(b)) => assert!(!b),
        _ => panic!("expected bool"),
    }
}

#[test]
fn parses_array_literal() {
    match parse_one(b"[1, 2, 3]") {
        Expr::Primitive(Primitive::Array(es)) => assert_eq!(es.len(), 3),
        _ => panic!("expected array"),
    }
}

#[test]
fn parses_variable() {
    match parse_one(b"some_name") {
        Expr::Variable(n) => assert_eq!(n, b"some_name".to_vec()),
        _ => panic!("expected variable"),
    }
}

#[test]
fn parses_dotted_identifier() {
    match parse_one(b"a.b.c") {
        Expr::Variable(n) => assert_eq!(n, b"a.b.c".to_vec()),
        _ => panic!("expected variable"),
    }
}

#[test]
fn parses_function_call() {
    match parse_one(b"f(1, x)") {
        Expr::FunctionCall(callee, args) => {
            match *callee {
                Expr::Variable(n) => assert_eq!(n, b"f".to_vec()),
                _ => panic!("expected variable callee"),
            }
            assert_eq!(args.len(), 2);
        },
        _ => panic!("expected call"),
    }
}

#[test]
fn parses_function_def() {
    match parse_one(b"f(a, b) { a; b }") {
        Expr::FunctionDef(name, params, body) => {
            assert_eq!(name, b"f".to_vec());
            assert_eq!(params, vec![b"a".to_vec(), b"b".to_vec()]);
            assert_eq!(body.len(), 2);
        },
        _ => panic!("expected definition"),
    }
}

#[test]
fn parses_fn_keyword_definition() {
    match parse_one(b"fn g() { 1 }") {
        Expr::FunctionDef(name, params, body) => {
            assert_eq!(name, b"g".to_vec());
            assert!(params.is_empty());
            assert_eq!(body.len(), 1);
        },
        _ => panic!("expected definition"),
    }
}

#[test]
fn parses_assignment() {
    match parse_one(b"x = 5") {
        Expr::Assignment(name, e) => {
            assert_eq!(name, b"x".to_vec());
            assert!(matches!(*e, Expr::Primitive(Primitive::Int(5))));
        },
        _ => panic!("expected assignment"),
    }
}

#[test]
fn parses_return() {
    match parse_one(b"return 7") {
        Expr::Return(e) => assert!(matches!(*e, Expr::Primitive(Primitive::Int(7)))),
        _ => panic!("expected return"),
    }
}

#[test]
fn infix_folds_left_to_right() {
    // 1 + 2 * 3 parses as ((1 + 2) * 3): a left-leaning fold with no
    // precedence beyond it.
    match parse_one(b"1 + 2 * 3") {
        Expr::InfixOp(left, op, right) => {
            assert_eq!(op, b"*".to_vec());
            assert!(matches!(*right, Expr::Primitive(Primitive::Int(3))));
            match *left {
                Expr::InfixOp(l2, op2, r2) => {
                    assert_eq!(op2, b"+".to_vec());
                    assert!(matches!(*l2, Expr::Primitive(Primitive::Int(1))));
                    assert!(matches!(*r2, Expr::Primitive(Primitive::Int(2))));
                },
                _ => panic!("expected nested infix"),
            }
        },
        _ => panic!("expected infix"),
    }
}

#[test]
fn parses_parenthesized_grouping() {
    match parse_one(b"(1 + 2)") {
        Expr::InfixOp(_, op, _) => assert_eq!(op, b"+".to_vec()),
        _ => panic!("expected infix"),
    }
}

#[test]
fn comments_and_whitespace_are_insignificant() {
    let src = b"  // a line comment\n  /* block\n comment */ 11  // trailing\n";
    match parse_one(src) {
        Expr::Primitive(Primitive::Int(i)) => assert_eq!(i, 11),
        _ => panic!("expected int"),
    }
}

#[test]
fn parses_notation_declaration() {
    let src = b"notation \"$x plus $y\" with x, y precedence 5 associativity left := add(x, y)";
    match parse_one(src) {
        Expr::NotationDecl(pat, expansion) => {
            assert_eq!(pat.pattern, b"$x plus $y".to_vec());
            assert_eq!(pat.variables, vec![b"x".to_vec(), b"y".to_vec()]);
            assert_eq!(pat.precedence, Some(5));
            assert!(matches!(pat.associativity, Associativity::Left));
            assert!(matches!(*expansion, Expr::FunctionCall(_, _)));
        },
        _ => panic!("expected notation declaration"),
    }
}

#[test]
fn parses_ffi_declaration_with_alias() {
    match parse_one(b"from python.math use square as sq") {
        Expr::FFIDecl(module, name, alias) => {
            assert_eq!(module, b"python.math".to_vec());
            assert_eq!(name, b"square".to_vec());
            assert_eq!(alias, Some(b"sq".to_vec()));
        },
        _ => panic!("expected ffi declaration"),
    }
}

#[test]
fn parses_several_top_level_expressions() {
    let es = parse_program(b"x = 1; y = 2 f(x, y)").expect("parse");
    assert_eq!(es.len(), 3);
}

#[test]
fn trailing_garbage_is_a_parse_error() {
    // total consumption: a non-whitespace, non-comment remainder fails
    assert!(parse_program(b"1 2 #garbage#").is_err());
    assert!(parse_program(b"x = 1 }").is_err());
}

#[test]
fn empty_input_is_a_parse_error() {
    assert!(parse_program(b"").is_err());
    assert!(parse_program(b"   // only a comment\n").is_err());
}

#[test]
fn parse_error_reports_position_and_context() {
    let err = match parse_program(b"x = ") {
        Err(e) => e,
        Ok(_) => panic!("an unfinished assignment must not parse"),
    };
    assert!(!err.contexts.is_empty());
    assert!(err.position <= 4);
}

fn expr_kind(e: &Expr) -> &'static str {
    match e {
        Expr::Primitive(_) => "primitive",
        Expr::Variable(_) => "variable",
        Expr::FunctionDef(_, _, _) => "function definition",
        Expr::FunctionCall(_, _) => "function call",
        Expr::Return(_) => "return",
        Expr::Assignment(_, _) => "assignment",
        Expr::FFIDecl(_, _, _) => "ffi declaration",
        Expr::InfixOp(_, _, _) => "infix",
        Expr::NotationDecl(_, _) => "notation declaration",
    }
}
