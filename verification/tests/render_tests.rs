use gallang::parser::parse_program;
use gallang::render::{render_expr, render_program, render_value};
use gallang::builtins::Builtins;
use gallang::ffi::FFIBackend;
use gallang::interpreter::interpret;
use gallang::notation::apply_notations;

/// Round trip: parsing the canonical rendering of a parsed program
/// gives a structurally equivalent tree, observed through a second
/// rendering.
fn round_trips(src: &[u8]) {
    let ast = parse_program(src).expect("parse");
    let rendered = render_program(&ast);
    let reparsed = parse_program(&rendered)
        .unwrap_or_else(|_| panic!("rendering should reparse: {}", String::from_utf8_lossy(&rendered)));
    assert_eq!(render_program(&reparsed), rendered);
    assert_eq!(ast.len(), reparsed.len());
}

#[test]
fn literals_round_trip() {
    round_trips(b"42");
    round_trips(b"-7");
    round_trips(b"3.5e-1");
    round_trips(b"true; false");
    round_trips(b"\"text with \\\"escapes\\\" and \\n\"");
    round_trips(b"[1, 2, [3]]");
}

#[test]
fn expressions_round_trip() {
    round_trips(b"x = f(1, g(2))");
    round_trips(b"return a.b.c");
    round_trips(b"1 + 2 * 3");
    round_trips(b"f(a, b) { x = a; return x; }");
}

#[test]
fn declarations_round_trip() {
    round_trips(b"from python.math use square as sq");
    round_trips(b"notation \"$x plus $y\" with x, y precedence 3 associativity left := add(x, y)");
    round_trips(b"notation \"$x times $y\" with x, y := mul_of(x, y) 1 times 2");
}

#[test]
fn whole_program_round_trips() {
    round_trips(
        b"from builtin.math use add \
          notation \"$x + $y\" with x, y := add(x, y) \
          f(a) { a + 1; } \
          f(2 + 3)",
    );
}

#[test]
fn renders_expression_text() {
    let ast = parse_program(b"x = add(1, 2)").expect("parse");
    assert_eq!(render_expr(&ast[0]), b"x = add(1, 2)".to_vec());
}

#[test]
fn renders_integer_value() {
    let ast = parse_program(b"41").expect("parse");
    let expanded = apply_notations(ast).expect("expansion");
    let ffi = FFIBackend::new(b"builtin".to_vec(), Builtins {});
    let v = interpret(expanded, ffi).expect("eval");
    assert_eq!(render_value(&v), b"41".to_vec());
}

#[test]
fn renders_function_value() {
    let ast = parse_program(b"f(a) { a }").expect("parse");
    let expanded = apply_notations(ast).expect("expansion");
    let ffi = FFIBackend::new(b"builtin".to_vec(), Builtins {});
    let v = interpret(expanded, ffi).expect("eval");
    assert_eq!(render_value(&v), b"function f(a) { a; }".to_vec());
}

#[test]
fn renders_partial_application_value() {
    let ast = parse_program(b"f(a, b) { a } f(1)").expect("parse");
    let expanded = apply_notations(ast).expect("expansion");
    let ffi = FFIBackend::new(b"builtin".to_vec(), Builtins {});
    let v = interpret(expanded, ffi).expect("eval");
    let text = String::from_utf8(render_value(&v)).expect("utf8");
    assert!(text.starts_with("partial application of function f"));
    assert!(text.ends_with("with 1 args"));
}
