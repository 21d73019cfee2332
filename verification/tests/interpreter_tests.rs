use gallang::builtins::Builtins;
use gallang::ffi::{FFIBackend, FFIError};
use gallang::interpreter::{interpret, Interpreter, InterpreterError};
use gallang::notation::apply_notations;
use gallang::parser::parse_program;
use gallang::syntax::{Primitive, Value};

fn run(src: &[u8]) -> Result<Value, InterpreterError> {
    run_with_language(src, b"builtin")
}

fn run_with_language(src: &[u8], language: &[u8]) -> Result<Value, InterpreterError> {
    let ast = parse_program(src).expect("parse");
    let expanded = apply_notations(ast).expect("expansion");
    let ffi = FFIBackend::new(language.to_vec(), Builtins {});
    interpret(expanded, ffi)
}

fn expect_int(r: Result<Value, InterpreterError>) -> i64 {
    match r.expect("evaluation should succeed") {
        Value::Primitive(Primitive::Int(i)) => i,
        _ => panic!("expected an integer result"),
    }
}

#[test]
fn literal_evaluates_to_itself() {
    assert_eq!(expect_int(run(b"41")), 41);
}

#[test]
fn empty_result_defaults_to_false_value() {
    // the program must be non-empty to parse; a lone definition returns
    // the function value, so use an assignment result instead
    match run(b"x = true").expect("eval") {
        Value::Primitive(Primitive::Bool(b)) => assert!(b),
        _ => panic!("expected bool"),
    }
}

#[test]
fn assignment_binds_and_returns_value() {
    assert_eq!(expect_int(run(b"x = 5 x")), 5);
}

#[test]
fn assignment_is_visible_to_later_siblings() {
    assert_eq!(expect_int(run(b"x = 2 y = x f(a) { a } f(y)")), 2);
}

#[test]
fn undefined_variable_fails_by_name() {
    // referencing an unbound identifier with no prior binding fails
    match run(b"y") {
        Err(InterpreterError::UndefinedVariable(n)) => assert_eq!(n, b"y".to_vec()),
        _ => panic!("expected UndefinedVariable(y)"),
    }
}

#[test]
fn function_call_with_exact_arity() {
    assert_eq!(expect_int(run(b"f(a) { a } f(9)")), 9);
}

#[test]
fn function_body_returns_last_expression() {
    assert_eq!(expect_int(run(b"f(a) { x = a; x }  f(4)")), 4);
}

#[test]
fn return_yields_the_value_of_its_operand() {
    assert_eq!(expect_int(run(b"f(a) { return a }  f(6)")), 6);
}

#[test]
fn too_many_arguments_is_an_arity_mismatch() {
    // more arguments than the declared arity fail, naming the function
    match run(b"f(a) { a } f(1,2)") {
        Err(InterpreterError::ArityMismatch { name, expected, got }) => {
            assert_eq!(name, b"f".to_vec());
            assert_eq!(expected, 1);
            assert_eq!(got, 2);
        },
        _ => panic!("expected ArityMismatch"),
    }
}

#[test]
fn too_few_arguments_is_a_partial_application() {
    // fewer arguments than the declared arity curry into a partial application
    match run(b"f(a,b) { a } f(1)").expect("eval") {
        Value::PartialApplication(func, supplied) => {
            assert!(matches!(*func, Value::Function(_, _, _, _)));
            assert_eq!(supplied.len(), 1);
        },
        _ => panic!("expected a partial application"),
    }
}

#[test]
fn partial_application_completes_with_remaining_arguments() {
    // supplying the remaining argument completes the call
    assert_eq!(expect_int(run(b"f(a,b) { a } g = f(1) g(2)")), 1);
}

#[test]
fn currying_agrees_with_applying_all_at_once() {
    let two_step = expect_int(run(b"f(a,b) { b } g = f(10) g(20)"));
    let one_shot = expect_int(run(b"f(a,b) { b } f(10, 20)"));
    assert_eq!(two_step, one_shot);
}

#[test]
fn closure_captures_definition_environment() {
    assert_eq!(expect_int(run(b"k = 7 f(a) { k } f(0)")), 7);
}

#[test]
fn calls_do_not_leak_parameter_bindings() {
    // the parameter a of f(0) must not become visible afterwards
    match run(b"f(a) { a } f(0) a") {
        Err(InterpreterError::UndefinedVariable(n)) => assert_eq!(n, b"a".to_vec()),
        _ => panic!("parameter binding leaked out of the call"),
    }
}

#[test]
fn recursive_calls_are_isolated() {
    // each level sees only its own binding of n: the outer call still
    // returns its own n afterwards
    let src = b"g(n) { n } \
                f(n, stop) { m = g(n) n } \
                f(3, 0)";
    assert_eq!(expect_int(run(src)), 3);
}

#[test]
fn direct_recursion_reaches_base_case() {
    // recursion through the function's own name; termination via the
    // built-in surface would need comparisons, so recurse a fixed depth
    // by nesting calls instead
    let src = b"f(n) { n } f(f(f(1)))";
    assert_eq!(expect_int(run(src)), 1);
}

#[test]
fn unexpanded_operator_is_an_evaluation_error() {
    match run(b"1 + 2") {
        Err(InterpreterError::UnhandledOperator(op)) => assert_eq!(op, b"+".to_vec()),
        _ => panic!("expected UnhandledOperator"),
    }
}

#[test]
fn calling_a_non_function_is_a_type_mismatch() {
    match run(b"x = 1 y = x(2)") {
        Err(InterpreterError::TypeMismatch) => {},
        _ => panic!("expected TypeMismatch"),
    }
}

#[test]
fn notation_scenario_evaluates_through_external_add() {
    // a two-slot notation over an operator rewrites to a call
    // of the external add, so its use evaluates to 3 (the word `plus`
    // itself is not in the grammar's operator class, so the operator
    // spelling `+` carries the scenario)
    let src = b"from builtin.math use add \
                notation \"$x + $y\" with x, y := add(x, y) \
                1 + 2";
    assert_eq!(expect_int(run(src)), 3);
}

#[test]
fn extern_declaration_returns_truthy_marker() {
    match run(b"from builtin.math use add").expect("eval") {
        Value::Primitive(Primitive::Bool(b)) => assert!(b),
        _ => panic!("expected marker value"),
    }
}

#[test]
fn extern_call_delegates_to_the_surface() {
    // a loaded external function returns whatever the external call
    // surface reports for it
    let src = b"from python.math use square square(5)";
    assert_eq!(expect_int(run_with_language(src, b"python")), 25);
}

#[test]
fn extern_alias_binds_under_the_alias() {
    let src = b"from builtin.math use square as sq sq(3)";
    assert_eq!(expect_int(run(src)), 9);
}

#[test]
fn unknown_language_prefix_fails_the_load() {
    match run(b"from elsewhere.math use add") {
        Err(InterpreterError::FFIError(FFIError::ProtocolNotImplemented(lang))) => {
            assert_eq!(lang, b"elsewhere".to_vec());
        },
        _ => panic!("expected ProtocolNotImplemented"),
    }
}

#[test]
fn unknown_function_name_fails_the_call() {
    // the module exports add and square only, so a reference to cube
    // loads but the call cannot be routed
    match run(b"from builtin.math use cube cube(1)") {
        Err(InterpreterError::FFIError(FFIError::FunctionNotFound(n))) => {
            assert_eq!(n, b"cube".to_vec());
        },
        _ => panic!("expected FunctionNotFound"),
    }
}

#[test]
fn external_add_overflow_is_a_call_error() {
    let src = b"from builtin.math use add add(9223372036854775807, 1)";
    match run(src) {
        Err(InterpreterError::FFIError(FFIError::CallError(_))) => {},
        _ => panic!("expected CallError"),
    }
}

#[test]
fn runaway_recursion_fails_with_stack_overflow() {
    // unbounded recursion with no base case must fail with
    // StackOverflow rather than crash the host
    match run(b"f() { f() } f()") {
        Err(InterpreterError::StackOverflow) => {},
        _ => panic!("expected StackOverflow"),
    }
}

#[test]
fn nested_calls_beyond_the_depth_budget_fail_with_stack_overflow() {
    // nesting far deeper than the configured budget trips the guard
    let mut src: Vec<u8> = b"f(n) { n } ".to_vec();
    for _ in 0..100 {
        src.extend_from_slice(b"f(");
    }
    src.push(b'1');
    for _ in 0..100 {
        src.extend_from_slice(b")");
    }
    let ast = parse_program(&src).expect("parse");
    let expanded = apply_notations(ast).expect("expansion");
    let ffi = FFIBackend::new(b"builtin".to_vec(), Builtins {});
    let mut it = Interpreter::new(ffi);
    it.max_depth = 50;
    match it.interpret(expanded) {
        Err(InterpreterError::StackOverflow) => {},
        _ => panic!("expected StackOverflow"),
    }
}

#[test]
fn module_loading_is_idempotent() {
    // loading the same module twice succeeds and the second program
    // still calls through it
    let src = b"from builtin.math use add from builtin.math use square square(add(1, 2))";
    assert_eq!(expect_int(run(src)), 9);
}

#[test]
fn interpreter_struct_keeps_environment_between_runs() {
    let ffi = FFIBackend::new(b"builtin".to_vec(), Builtins {});
    let mut it = Interpreter::new(ffi);
    let first = parse_program(b"x = 21").expect("parse");
    let first = apply_notations(first).expect("expansion");
    it.interpret(first).expect("eval");
    let second = parse_program(b"x").expect("parse");
    let second = apply_notations(second).expect("expansion");
    match it.interpret(second).expect("eval") {
        Value::Primitive(Primitive::Int(i)) => assert_eq!(i, 21),
        _ => panic!("expected the earlier binding"),
    }
}

#[test]
fn shadowing_rebinds_last_write_wins() {
    assert_eq!(expect_int(run(b"x = 1 x = 2 x")), 2);
}

#[test]
fn unexpanded_notation_declaration_is_not_reachable() {
    // feeding the evaluator a raw tree that still holds a notation
    // declaration (skipping the expansion pass) is rejected
    let ast = parse_program(b"notation \"$x + $y\" with x, y := add(x, y) 1").expect("parse");
    let ffi = FFIBackend::new(b"builtin".to_vec(), Builtins {});
    match interpret(ast, ffi) {
        Err(InterpreterError::NotReachable) => {},
        _ => panic!("expected NotReachable"),
    }
}

/// A backend that counts how often its module loading actually runs,
/// to observe that the routing layer loads each module only once.
struct CountingBackend {
    loads: usize,
}

impl gallang::ffi::FFIProtocol for CountingBackend {
    fn load_module(&mut self, _module_name: &[u8]) -> Result<Vec<Vec<u8>>, FFIError> {
        self.loads += 1;
        Ok(vec![b"probe".to_vec()])
    }

    fn call_function(&self, _func_path: &[u8], _args: Vec<Value>) -> Result<Value, FFIError> {
        Ok(Value::Primitive(Primitive::Int(0)))
    }
}

#[test]
fn loading_a_module_twice_runs_its_backend_once() {
    let ast = parse_program(b"from lang.m use probe from lang.m use probe as p probe(1)")
        .expect("parse");
    let expanded = apply_notations(ast).expect("expansion");
    let ffi = FFIBackend::new(b"lang".to_vec(), CountingBackend { loads: 0 });
    let mut it = Interpreter::new(ffi);
    match it.interpret(expanded).expect("eval") {
        Value::Primitive(Primitive::Int(i)) => assert_eq!(i, 0),
        _ => panic!("expected the backend's value"),
    }
    assert_eq!(it.ffi.protocol.loads, 1);
}
