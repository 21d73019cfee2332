use gallang::notation::apply_notations;
use gallang::parser::parse_program;
use gallang::render::render_program;
use gallang::syntax::{Expr, Primitive};

fn expand_src(src: &[u8]) -> Vec<Expr> {
    let ast = parse_program(src).expect("parse");
    apply_notations(ast).expect("expansion never fails")
}

#[test]
fn declarations_are_removed_from_the_stream() {
    let out = expand_src(b"notation \"$x plus $y\" with x, y := add(x, y) 1");
    assert_eq!(out.len(), 1);
    assert!(matches!(out[0], Expr::Primitive(Primitive::Int(1))));
}

#[test]
fn infix_use_is_rewritten_to_the_expansion() {
    let out = expand_src(b"notation \"$x + $y\" with x, y := add(x, y) 1 + 2");
    assert_eq!(out.len(), 1);
    match &out[0] {
        Expr::FunctionCall(callee, args) => {
            match &**callee {
                Expr::Variable(n) => assert_eq!(n, &b"add".to_vec()),
                _ => panic!("expected add"),
            }
            assert_eq!(args.len(), 2);
            assert!(matches!(args[0], Expr::Primitive(Primitive::Int(1))));
            assert!(matches!(args[1], Expr::Primitive(Primitive::Int(2))));
        },
        _ => panic!("expected rewritten call"),
    }
}

#[test]
fn rewriting_happens_bottom_up_inside_calls() {
    let out = expand_src(b"notation \"$x + $y\" with x, y := add(x, y) f(1 + 2)");
    match &out[0] {
        Expr::FunctionCall(_, args) => {
            assert!(matches!(args[0], Expr::FunctionCall(_, _)));
        },
        _ => panic!("expected call"),
    }
}

#[test]
fn unmatched_operator_passes_through() {
    let out = expand_src(b"notation \"$x + $y\" with x, y := add(x, y) 1 - 2");
    assert!(matches!(out[0], Expr::InfixOp(_, _, _)));
}

#[test]
fn first_declaration_wins_on_overlap() {
    let out = expand_src(
        b"notation \"$x + $y\" with x, y := first(x, y) notation \"$x + $y\" with x, y := second(x, y) 1 + 2",
    );
    match &out[0] {
        Expr::FunctionCall(callee, _) => match &**callee {
            Expr::Variable(n) => assert_eq!(n, &b"first".to_vec()),
            _ => panic!("expected variable"),
        },
        _ => panic!("expected call"),
    }
}

#[test]
fn unbound_expansion_variable_stays_free() {
    let out = expand_src(b"notation \"$x + $y\" with x, y := add(x, z) 1 + 2");
    match &out[0] {
        Expr::FunctionCall(_, args) => {
            assert!(matches!(args[0], Expr::Primitive(Primitive::Int(1))));
            match &args[1] {
                Expr::Variable(n) => assert_eq!(n, &b"z".to_vec()),
                _ => panic!("free variable should pass through"),
            }
        },
        _ => panic!("expected call"),
    }
}

#[test]
fn expansion_is_idempotent_on_its_output() {
    // expanding an already-expanded program, with the declarations
    // still available, changes nothing
    let src = b"notation \"$x + $y\" with x, y := add(x, y) 1 + 2 f(3 + 4)";
    let ast = parse_program(src).expect("parse");
    let once = apply_notations(ast).expect("expansion");
    let rendered_once = render_program(&once);
    // feed the expanded output through the pass again, re-declaring the
    // same notation in front of it
    let mut again_src = b"notation \"$x + $y\" with x, y := add(x, y) ".to_vec();
    again_src.extend_from_slice(&rendered_once);
    let ast2 = parse_program(&again_src).expect("reparse");
    let twice = apply_notations(ast2).expect("expansion");
    assert_eq!(render_program(&twice), rendered_once);
}

#[test]
fn word_patterns_never_match_the_symbol_operator_class() {
    // `plus` is an identifier, not an operator byte, so `1 plus 2` is
    // three expressions and the pattern template matches nothing
    let out = expand_src(b"notation \"$x plus $y\" with x, y := add(x, y) 1 plus 2");
    assert_eq!(out.len(), 3);
    assert!(matches!(out[1], Expr::Variable(_)));
}

#[test]
fn notation_whose_expansion_reintroduces_an_operator_rewrites_again() {
    // the documented limit of idempotence: a template that is itself an
    // infix use of a declared operator
    let src = b"notation \"$x + $y\" with x, y := swap_args(y, x) 1 + 2";
    let out = expand_src(src);
    match &out[0] {
        Expr::FunctionCall(callee, args) => {
            match &**callee {
                Expr::Variable(n) => assert_eq!(n, &b"swap_args".to_vec()),
                _ => panic!("expected call"),
            }
            assert!(matches!(args[0], Expr::Primitive(Primitive::Int(2))));
            assert!(matches!(args[1], Expr::Primitive(Primitive::Int(1))));
        },
        _ => panic!("expected call"),
    }
}
