//! The evaluator: a tree walk over the expanded syntax against a
//! mutable lexical environment, producing runtime values. Function
//! definition captures a copy of the current environment; application
//! binds the function's own name (for direct recursion) and its
//! parameters in a fresh environment derived from the captured one, so
//! distinct calls never observe each other's parameter bindings.
//! A `return` yields the value of its operand where it stands; it does
//! not cut short the remaining expressions of an enclosing body.
//! Every nested evaluation and application step spends one unit of an
//! explicit depth budget; running out is a `StackOverflow` error, never
//! a crash of the host.

use vstd::prelude::*;

use crate::ffi::{
    spec_backend_call, spec_backend_load, FFIBackend, FFIError, FFIProtocol, SpecBackend,
    SpecFFIError,
};
use crate::syntax::{
    clone_bytes, clone_environment, clone_exprs, clone_names, clone_value, view_expr, view_exprs,
    view_names, view_value, view_values, Environment, Expr, Primitive, SpecEnv, SpecExpr,
    SpecPrimitive, SpecValue, Value,
};

verus! {

broadcast use {
    crate::syntax::lemma_view_exprs_len,
    crate::syntax::lemma_view_exprs_index,
    crate::syntax::lemma_view_values_len,
    crate::syntax::lemma_view_values_index,
    crate::syntax::lemma_view_values_push,
    crate::syntax::lemma_view_names_len,
    crate::syntax::lemma_view_names_index,
};

/// The default depth budget for nested evaluation.
pub const DEFAULT_MAX_DEPTH: u64 = 1000;

/// Mathematical model of an evaluation failure.
pub enum SpecInterpreterError {
    UndefinedVariable(Seq<u8>),
    TypeMismatch,
    ArityMismatch { name: Seq<u8>, expected: int, got: int },
    UnhandledOperator(Seq<u8>),
    StackOverflow,
    FFIError(SpecFFIError),
    NotReachable,
}

/// An evaluation failure.
#[derive(Debug)]
pub enum InterpreterError {
    /// A variable was read with no binding in scope.
    UndefinedVariable(Vec<u8>),
    /// A non-function value was applied to arguments.
    TypeMismatch,
    /// A function received more arguments than it declares.
    ArityMismatch { name: Vec<u8>, expected: usize, got: usize },
    /// An infix operator survived to evaluation: no notation expanded
    /// it, and the evaluator defines no built-in operators.
    UnhandledOperator(Vec<u8>),
    /// The nested evaluation depth budget ran out.
    StackOverflow,
    /// The external call surface failed.
    FFIError(FFIError),
    /// A notation declaration reached the evaluator; the expansion pass
    /// removes them.
    NotReachable,
}

impl View for InterpreterError {
    type V = SpecInterpreterError;

    open spec fn view(&self) -> SpecInterpreterError {
        match self {
            InterpreterError::UndefinedVariable(s) => SpecInterpreterError::UndefinedVariable(
                s.view(),
            ),
            InterpreterError::TypeMismatch => SpecInterpreterError::TypeMismatch,
            InterpreterError::ArityMismatch { name, expected, got } => {
                SpecInterpreterError::ArityMismatch {
                    name: name.view(),
                    expected: *expected as int,
                    got: *got as int,
                }
            },
            InterpreterError::UnhandledOperator(s) => SpecInterpreterError::UnhandledOperator(
                s.view(),
            ),
            InterpreterError::StackOverflow => SpecInterpreterError::StackOverflow,
            InterpreterError::FFIError(e) => SpecInterpreterError::FFIError(e.view()),
            InterpreterError::NotReachable => SpecInterpreterError::NotReachable,
        }
    }
}

/// Evaluation outcome: the result, the environment afterwards, and the
/// external surface state afterwards.
pub struct SpecOutcome<P> {
    pub result: Result<SpecValue, SpecInterpreterError>,
    pub env: SpecEnv,
    pub backend: SpecBackend<P>,
}

/// Outcome of evaluating an argument list.
pub struct SpecArgsOutcome<P> {
    pub result: Result<Seq<SpecValue>, SpecInterpreterError>,
    pub env: SpecEnv,
    pub backend: SpecBackend<P>,
}

/// Binds each parameter to its argument, left to right.
pub open spec fn bind_params(env: SpecEnv, params: Seq<Seq<u8>>, args: Seq<SpecValue>) -> SpecEnv
    decreases params.len(),
{
    if params.len() == 0 || args.len() == 0 {
        env
    } else {
        bind_params(env.insert(params[0], args[0]), params.drop_first(), args.drop_first())
    }
}

/// One step of evaluation, spending one unit of the depth budget for
/// each nested evaluation or application.
pub open spec fn spec_eval<P: FFIProtocol>(
    e: SpecExpr,
    env: SpecEnv,
    b: SpecBackend<P>,
    fuel: nat,
) -> SpecOutcome<P>
    decreases fuel, 0int,
{
    if fuel == 0 {
        SpecOutcome { result: Result::Err(SpecInterpreterError::StackOverflow), env, backend: b }
    } else {
        match e {
            SpecExpr::Primitive(p) => SpecOutcome {
                result: Result::Ok(SpecValue::Primitive(p)),
                env,
                backend: b,
            },
            SpecExpr::Variable(name) => if env.dom().contains(name) {
                SpecOutcome { result: Result::Ok(env[name]), env, backend: b }
            } else {
                SpecOutcome {
                    result: Result::Err(SpecInterpreterError::UndefinedVariable(name)),
                    env,
                    backend: b,
                }
            },
            SpecExpr::FunctionDef(name, params, body) => {
                let fv = SpecValue::Function(name, params, body, env);
                SpecOutcome { result: Result::Ok(fv), env: env.insert(name, fv), backend: b }
            },
            SpecExpr::FunctionCall(f, args) => {
                let r1 = spec_eval(*f, env, b, (fuel - 1) as nat);
                match r1.result {
                    Result::Err(err) => r1,
                    Result::Ok(fv) => {
                        let r2 = spec_eval_args(
                            args,
                            r1.env,
                            r1.backend,
                            (fuel - 1) as nat,
                            Seq::empty(),
                        );
                        match r2.result {
                            Result::Err(err) => SpecOutcome {
                                result: Result::Err(err),
                                env: r2.env,
                                backend: r2.backend,
                            },
                            Result::Ok(vs) => {
                                let r3 = spec_apply(fv, vs, r2.backend, (fuel - 1) as nat);
                                SpecOutcome { result: r3.0, env: r2.env, backend: r3.1 }
                            },
                        }
                    },
                }
            },
            SpecExpr::Return(x) => spec_eval(*x, env, b, (fuel - 1) as nat),
            SpecExpr::Assignment(name, x) => {
                let r1 = spec_eval(*x, env, b, (fuel - 1) as nat);
                match r1.result {
                    Result::Ok(v) => SpecOutcome {
                        result: Result::Ok(v),
                        env: r1.env.insert(name, v),
                        backend: r1.backend,
                    },
                    Result::Err(err) => r1,
                }
            },
            SpecExpr::FFIDecl(module, name, alias) => {
                let lr = spec_backend_load(b, module);
                match lr.0 {
                    Result::Ok(fns) => {
                        let local = match alias {
                            Option::Some(a) => a,
                            Option::None => name,
                        };
                        SpecOutcome {
                            result: Result::Ok(SpecValue::Primitive(SpecPrimitive::Bool(true))),
                            env: env.insert(local, SpecValue::Ffi(name)),
                            backend: lr.1,
                        }
                    },
                    Result::Err(err) => SpecOutcome {
                        result: Result::Err(SpecInterpreterError::FFIError(err)),
                        env,
                        backend: lr.1,
                    },
                }
            },
            SpecExpr::InfixOp(l, op, r) => SpecOutcome {
                result: Result::Err(SpecInterpreterError::UnhandledOperator(op)),
                env,
                backend: b,
            },
            SpecExpr::NotationDecl(p, x) => SpecOutcome {
                result: Result::Err(SpecInterpreterError::NotReachable),
                env,
                backend: b,
            },
        }
    }
}

/// Evaluates arguments strictly left to right in the caller's
/// environment, stopping at the first failure.
pub open spec fn spec_eval_args<P: FFIProtocol>(
    es: Seq<SpecExpr>,
    env: SpecEnv,
    b: SpecBackend<P>,
    fuel: nat,
    acc: Seq<SpecValue>,
) -> SpecArgsOutcome<P>
    decreases fuel, es.len() + 2,
{
    if es.len() == 0 {
        SpecArgsOutcome { result: Result::Ok(acc), env, backend: b }
    } else {
        let r = spec_eval(es[0], env, b, fuel);
        match r.result {
            Result::Err(err) => SpecArgsOutcome {
                result: Result::Err(err),
                env: r.env,
                backend: r.backend,
            },
            Result::Ok(v) => spec_eval_args(
                es.drop_first(),
                r.env,
                r.backend,
                fuel,
                acc.push(v),
            ),
        }
    }
}

/// Evaluates a body sequence in order, returning the value of the last
/// expression, or a false value for an empty body.
pub open spec fn spec_eval_body<P: FFIProtocol>(
    es: Seq<SpecExpr>,
    env: SpecEnv,
    b: SpecBackend<P>,
    fuel: nat,
) -> SpecOutcome<P>
    decreases fuel, es.len() + 2,
{
    if es.len() == 0 {
        SpecOutcome {
            result: Result::Ok(SpecValue::Primitive(SpecPrimitive::Bool(false))),
            env,
            backend: b,
        }
    } else {
        let r = spec_eval(es[0], env, b, fuel);
        match r.result {
            Result::Err(err) => r,
            Result::Ok(v) => if es.len() == 1 {
                r
            } else {
                spec_eval_body(es.drop_first(), r.env, r.backend, fuel)
            },
        }
    }
}

/// The environment a function body runs in: the captured closure, the
/// function itself bound under its own name (enabling direct
/// recursion), and each parameter bound to its argument. It is built
/// from the function value and the call's own arguments alone.
pub open spec fn spec_call_env(f: SpecValue, args: Seq<SpecValue>) -> SpecEnv {
    match f {
        SpecValue::Function(name, params, body, cenv) => bind_params(
            cenv.insert(name, f),
            params,
            args,
        ),
        _ => Map::empty(),
    }
}

/// Applies a callee value to an argument list: a function of matching
/// arity runs its body in a fresh environment derived from its closure;
/// too few arguments produce a partial application; too many are an
/// arity error; an external reference delegates to the call surface;
/// anything else is a type error.
pub open spec fn spec_apply<P: FFIProtocol>(
    f: SpecValue,
    args: Seq<SpecValue>,
    b: SpecBackend<P>,
    fuel: nat,
) -> (Result<SpecValue, SpecInterpreterError>, SpecBackend<P>)
    decreases fuel, 1int,
{
    if fuel == 0 {
        (Result::Err(SpecInterpreterError::StackOverflow), b)
    } else {
        match f {
            SpecValue::Function(name, params, body, cenv) => {
                if args.len() < params.len() {
                    (Result::Ok(SpecValue::PartialApplication(Box::new(f), args)), b)
                } else if args.len() == params.len() {
                    let r = spec_eval_body(body, spec_call_env(f, args), b, (fuel - 1) as nat);
                    (r.result, r.backend)
                } else {
                    (
                        Result::Err(
                            SpecInterpreterError::ArityMismatch {
                                name,
                                expected: params.len() as int,
                                got: args.len() as int,
                            },
                        ),
                        b,
                    )
                }
            },
            SpecValue::Ffi(fname) => {
                match spec_backend_call(b, fname, args) {
                    Result::Ok(v) => (Result::Ok(v), b),
                    Result::Err(err) => (
                        Result::Err(SpecInterpreterError::FFIError(err)),
                        b,
                    ),
                }
            },
            SpecValue::PartialApplication(pf, prior) => spec_apply(
                *pf,
                prior + args,
                b,
                (fuel - 1) as nat,
            ),
            SpecValue::Primitive(p) => (Result::Err(SpecInterpreterError::TypeMismatch), b),
        }
    }
}

/// Evaluates top-level expressions in order with a fresh depth budget
/// each, returning the value of the last one, or a false value for an
/// empty program.
pub open spec fn spec_interpret<P: FFIProtocol>(
    es: Seq<SpecExpr>,
    env: SpecEnv,
    b: SpecBackend<P>,
    fuel: nat,
) -> SpecOutcome<P>
    decreases es.len(),
{
    if es.len() == 0 {
        SpecOutcome {
            result: Result::Ok(SpecValue::Primitive(SpecPrimitive::Bool(false))),
            env,
            backend: b,
        }
    } else {
        let r = spec_eval(es[0], env, b, fuel);
        match r.result {
            Result::Err(err) => r,
            Result::Ok(v) => if es.len() == 1 {
                r
            } else {
                spec_interpret(es.drop_first(), r.env, r.backend, fuel)
            },
        }
    }
}

} // verus!

// Executable evaluator, proven against the model above.

verus! {

/// Evaluates one expression against the environment and external
/// surface, spending depth budget `fuel`.
#[verifier::loop_isolation(false)]
pub fn eval_expr<P: FFIProtocol>(
    e: &Expr,
    env: &mut Environment,
    ffi: &mut FFIBackend<P>,
    fuel: u64,
) -> (r: Result<Value, InterpreterError>)
    ensures
        ({
            let o = spec_eval(e@, old(env)@, old(ffi)@, fuel as nat);
            &&& final(env)@ == o.env
            &&& final(ffi)@ == o.backend
            &&& match (r, o.result) {
                (Result::Ok(v), Result::Ok(sv)) => v@ == sv,
                (Result::Err(err), Result::Err(serr)) => err@ == serr,
                _ => false,
            }
        }),
    decreases fuel, 0int,
{
    if fuel == 0 {
        return Result::Err(InterpreterError::StackOverflow);
    }
    match e {
        Expr::Primitive(p) => Result::Ok(Value::Primitive(crate::syntax::clone_primitive(p))),
        Expr::Variable(name) => match env.get(name.as_slice()) {
            Option::Some(v) => Result::Ok(clone_value(v)),
            Option::None => Result::Err(InterpreterError::UndefinedVariable(clone_bytes(name))),
        },
        Expr::FunctionDef(name, params, body) => {
            let fv = Value::Function(
                clone_bytes(name),
                clone_names(params),
                clone_exprs(body),
                clone_environment(env),
            );
            let fv2 = clone_value(&fv);
            env.insert(clone_bytes(name), fv);
            Result::Ok(fv2)
        },
        Expr::FunctionCall(callee, args) => {
            let fv = match eval_expr(callee, env, ffi, fuel - 1) {
                Result::Ok(v) => v,
                Result::Err(err) => {
                    return Result::Err(err);
                },
            };
            let vs = match eval_args(args, env, ffi, fuel - 1) {
                Result::Ok(vs) => vs,
                Result::Err(err) => {
                    return Result::Err(err);
                },
            };
            apply_function(fv, vs, ffi, fuel - 1)
        },
        Expr::Return(x) => eval_expr(x, env, ffi, fuel - 1),
        Expr::Assignment(name, x) => {
            let v = match eval_expr(x, env, ffi, fuel - 1) {
                Result::Ok(v) => v,
                Result::Err(err) => {
                    return Result::Err(err);
                },
            };
            let v2 = clone_value(&v);
            env.insert(clone_bytes(name), v);
            Result::Ok(v2)
        },
        Expr::FFIDecl(module, name, alias) => {
            match ffi.load_module(module.as_slice()) {
                Result::Ok(_names) => {
                    let local: Vec<u8> = match alias {
                        Option::Some(a) => clone_bytes(a),
                        Option::None => clone_bytes(name),
                    };
                    env.insert(local, Value::Ffi(clone_bytes(name)));
                    Result::Ok(Value::Primitive(Primitive::Bool(true)))
                },
                Result::Err(err) => Result::Err(InterpreterError::FFIError(err)),
            }
        },
        Expr::InfixOp(_, op, _) => Result::Err(
            InterpreterError::UnhandledOperator(clone_bytes(op)),
        ),
        Expr::NotationDecl(_, _) => Result::Err(InterpreterError::NotReachable),
    }
}

/// Evaluates an argument list strictly left to right in the caller's
/// environment, stopping at the first failure.
#[verifier::loop_isolation(false)]
pub fn eval_args<P: FFIProtocol>(
    args: &Vec<Expr>,
    env: &mut Environment,
    ffi: &mut FFIBackend<P>,
    fuel: u64,
) -> (r: Result<Vec<Value>, InterpreterError>)
    ensures
        ({
            let o = spec_eval_args(
                view_exprs(args@),
                old(env)@,
                old(ffi)@,
                fuel as nat,
                Seq::empty(),
            );
            &&& final(env)@ == o.env
            &&& final(ffi)@ == o.backend
            &&& match (r, o.result) {
                (Result::Ok(vs), Result::Ok(svs)) => view_values(vs@) == svs,
                (Result::Err(err), Result::Err(serr)) => err@ == serr,
                _ => false,
            }
        }),
    decreases fuel, 2int,
{
    let ghost full = view_exprs(args@);
    let ghost env0 = env@;
    let ghost b0 = ffi@;
    let mut out: Vec<Value> = Vec::new();
    proof {
        assert(full.subrange(0, full.len() as int) =~= full);
        assert(view_values(out@) =~= Seq::<SpecValue>::empty());
    }
    let mut i: usize = 0;
    while i < args.len()
        invariant
            0 <= i <= args@.len(),
            spec_eval_args(full, env0, b0, fuel as nat, Seq::empty()) == spec_eval_args(
                full.subrange(i as int, full.len() as int),
                env@,
                ffi@,
                fuel as nat,
                view_values(out@),
            ),
        decreases args@.len() - i,
    {
        let ghost tail = full.subrange(i as int, full.len() as int);
        proof {
            assert(tail[0] == view_expr(args@[i as int]));
            assert(tail.drop_first() =~= full.subrange(i + 1, full.len() as int));
        }
        match eval_expr(&args[i], env, ffi, fuel) {
            Result::Ok(v) => {
                out.push(v);
            },
            Result::Err(err) => {
                return Result::Err(err);
            },
        }
        i += 1;
    }
    proof {
        assert(full.subrange(args@.len() as int, full.len() as int)
            =~= Seq::<SpecExpr>::empty());
    }
    Result::Ok(out)
}

/// Evaluates a body sequence in order and returns the value of the
/// last expression, or a false value for an empty body.
#[verifier::loop_isolation(false)]
pub fn eval_body<P: FFIProtocol>(
    body: &Vec<Expr>,
    env: &mut Environment,
    ffi: &mut FFIBackend<P>,
    fuel: u64,
) -> (r: Result<Value, InterpreterError>)
    ensures
        ({
            let o = spec_eval_body(view_exprs(body@), old(env)@, old(ffi)@, fuel as nat);
            &&& final(env)@ == o.env
            &&& final(ffi)@ == o.backend
            &&& match (r, o.result) {
                (Result::Ok(v), Result::Ok(sv)) => v@ == sv,
                (Result::Err(err), Result::Err(serr)) => err@ == serr,
                _ => false,
            }
        }),
    decreases fuel, 2int,
{
    let ghost full = view_exprs(body@);
    let ghost env0 = env@;
    let ghost b0 = ffi@;
    let mut result: Value = Value::Primitive(Primitive::Bool(false));
    proof {
        assert(full.subrange(0, full.len() as int) =~= full);
    }
    if body.len() == 0 {
        return Result::Ok(result);
    }
    let mut i: usize = 0;
    while i < body.len()
        invariant
            0 <= i <= body@.len(),
            i < body@.len() ==> spec_eval_body(full, env0, b0, fuel as nat) == spec_eval_body(
                full.subrange(i as int, full.len() as int),
                env@,
                ffi@,
                fuel as nat,
            ),
            (i == body@.len() && body@.len() > 0) ==> spec_eval_body(full, env0, b0, fuel as nat)
                == (SpecOutcome { result: Result::Ok(result@), env: env@, backend: ffi@ }),
        decreases body@.len() - i,
    {
        let ghost tail = full.subrange(i as int, full.len() as int);
        proof {
            assert(tail[0] == view_expr(body@[i as int]));
            assert(tail.drop_first() =~= full.subrange(i + 1, full.len() as int));
        }
        match eval_expr(&body[i], env, ffi, fuel) {
            Result::Ok(v) => {
                result = v;
            },
            Result::Err(err) => {
                return Result::Err(err);
            },
        }
        i += 1;
    }
    Result::Ok(result)
}

/// Applies a callee value to evaluated arguments.
#[verifier::loop_isolation(false)]
pub fn apply_function<P: FFIProtocol>(
    func: Value,
    args: Vec<Value>,
    ffi: &mut FFIBackend<P>,
    fuel: u64,
) -> (r: Result<Value, InterpreterError>)
    ensures
        ({
            let o = spec_apply(func@, view_values(args@), old(ffi)@, fuel as nat);
            &&& final(ffi)@ == o.1
            &&& match (r, o.0) {
                (Result::Ok(v), Result::Ok(sv)) => v@ == sv,
                (Result::Err(err), Result::Err(serr)) => err@ == serr,
                _ => false,
            }
        }),
    decreases fuel, 1int,
{
    if fuel == 0 {
        return Result::Err(InterpreterError::StackOverflow);
    }
    match func {
        Value::Function(name, params, body, cenv) => {
            if args.len() < params.len() {
                Result::Ok(
                    Value::PartialApplication(
                        Box::new(Value::Function(name, params, body, cenv)),
                        args,
                    ),
                )
            } else if args.len() == params.len() {
                let ghost fv = func@;
                let mut call_env = clone_environment(&cenv);
                let self_val = Value::Function(
                    clone_bytes(&name),
                    clone_names(&params),
                    clone_exprs(&body),
                    cenv,
                );
                assert(self_val@ == fv);
                call_env.insert(clone_bytes(&name), self_val);
                let ghost env1 = call_env@;
                let ghost params_v = view_names(params@);
                let ghost args_v = view_values(args@);
                proof {
                    assert(params_v.subrange(0, params_v.len() as int) =~= params_v);
                    assert(args_v.subrange(0, args_v.len() as int) =~= args_v);
                }
                let mut i: usize = 0;
                while i < params.len()
                    invariant
                        0 <= i <= params@.len(),
                        params@.len() == args@.len(),
                        bind_params(
                            call_env@,
                            params_v.subrange(i as int, params_v.len() as int),
                            args_v.subrange(i as int, args_v.len() as int),
                        ) == bind_params(env1, params_v, args_v),
                    decreases params@.len() - i,
                {
                    let ghost ptail = params_v.subrange(i as int, params_v.len() as int);
                    let ghost atail = args_v.subrange(i as int, args_v.len() as int);
                    proof {
                        assert(ptail[0] == params@[i as int]@);
                        assert(atail[0] == view_value(args@[i as int]));
                        assert(ptail.drop_first() =~= params_v.subrange(
                            i + 1,
                            params_v.len() as int,
                        ));
                        assert(atail.drop_first() =~= args_v.subrange(
                            i + 1,
                            args_v.len() as int,
                        ));
                    }
                    call_env.insert(clone_bytes(&params[i]), clone_value(&args[i]));
                    i += 1;
                }
                proof {
                    assert(params_v.subrange(params_v.len() as int, params_v.len() as int)
                        =~= Seq::<Seq<u8>>::empty());
                    assert(args_v.subrange(args_v.len() as int, args_v.len() as int)
                        =~= Seq::<SpecValue>::empty());
                }
                eval_body(&body, &mut call_env, ffi, fuel - 1)
            } else {
                let expected = params.len();
                let got = args.len();
                Result::Err(InterpreterError::ArityMismatch { name, expected, got })
            }
        },
        Value::Ffi(fname) => {
            match ffi.call_function(fname.as_slice(), args) {
                Result::Ok(v) => Result::Ok(v),
                Result::Err(err) => Result::Err(InterpreterError::FFIError(err)),
            }
        },
        Value::PartialApplication(pf, prior) => {
            let ghost prior_v = view_values(prior@);
            let ghost args_v = view_values(args@);
            let mut all = prior;
            let mut i: usize = 0;
            while i < args.len()
                invariant
                    0 <= i <= args@.len(),
                    view_values(all@) == prior_v + args_v.subrange(0, i as int),
                decreases args@.len() - i,
            {
                let ghost before = view_values(all@);
                all.push(clone_value(&args[i]));
                proof {
                    assert(view_values(all@) == before.push(view_value(args@[i as int])));
                    assert(before.push(args_v[i as int]) =~= prior_v + args_v.subrange(0, i + 1));
                }
                i += 1;
            }
            proof {
                assert(args_v.subrange(0, args_v.len() as int) =~= args_v);
                assert(prior_v + args_v.subrange(0, 0) =~= prior_v);
            }
            apply_function(*pf, all, ffi, fuel - 1)
        },
        Value::Primitive(_) => Result::Err(InterpreterError::TypeMismatch),
    }
}

} // verus!

// The interpreter: an environment and an external call surface.

verus! {

/// A tree-walking interpreter: the global environment, the external
/// call surface, and the depth budget for nested evaluation.
pub struct Interpreter<P: FFIProtocol> {
    pub env: Environment,
    pub ffi: FFIBackend<P>,
    pub max_depth: u64,
}

impl<P: FFIProtocol> Interpreter<P> {
    /// An interpreter with an empty environment and the default depth
    /// budget.
    pub fn new(ffi: FFIBackend<P>) -> (r: Interpreter<P>)
        ensures
            r.env@ == Map::<Seq<u8>, SpecValue>::empty(),
            r.ffi == ffi,
            r.max_depth == DEFAULT_MAX_DEPTH,
    {
        Interpreter { env: Environment::new(), ffi, max_depth: DEFAULT_MAX_DEPTH }
    }

    /// Evaluates top-level expressions in order and returns the value
    /// of the last one, or a false value for an empty program.
    #[verifier::loop_isolation(false)]
    pub fn interpret(&mut self, exprs: Vec<Expr>) -> (r: Result<Value, InterpreterError>)
        ensures
            ({
                let o = spec_interpret(
                    view_exprs(exprs@),
                    old(self).env@,
                    old(self).ffi@,
                    old(self).max_depth as nat,
                );
                &&& final(self).env@ == o.env
                &&& final(self).ffi@ == o.backend
                &&& final(self).max_depth == old(self).max_depth
                &&& match (r, o.result) {
                    (Result::Ok(v), Result::Ok(sv)) => v@ == sv,
                    (Result::Err(err), Result::Err(serr)) => err@ == serr,
                    _ => false,
                }
            }),
    {
        let ghost full = view_exprs(exprs@);
        let ghost env0 = self.env@;
        let ghost b0 = self.ffi@;
        let fuel = self.max_depth;
        let mut result: Value = Value::Primitive(Primitive::Bool(false));
        proof {
            assert(full.subrange(0, full.len() as int) =~= full);
        }
        if exprs.len() == 0 {
            return Result::Ok(result);
        }
        let mut i: usize = 0;
        while i < exprs.len()
            invariant
                0 <= i <= exprs@.len(),
                self.max_depth == fuel,
                i < exprs@.len() ==> spec_interpret(full, env0, b0, fuel as nat)
                    == spec_interpret(
                    full.subrange(i as int, full.len() as int),
                    self.env@,
                    self.ffi@,
                    fuel as nat,
                ),
                (i == exprs@.len() && exprs@.len() > 0) ==> spec_interpret(
                    full,
                    env0,
                    b0,
                    fuel as nat,
                ) == (SpecOutcome {
                    result: Result::Ok(result@),
                    env: self.env@,
                    backend: self.ffi@,
                }),
            decreases exprs@.len() - i,
        {
            let ghost tail = full.subrange(i as int, full.len() as int);
            proof {
                assert(tail[0] == view_expr(exprs@[i as int]));
                assert(tail.drop_first() =~= full.subrange(i + 1, full.len() as int));
            }
            match eval_expr(&exprs[i], &mut self.env, &mut self.ffi, fuel) {
                Result::Ok(v) => {
                    result = v;
                },
                Result::Err(err) => {
                    return Result::Err(err);
                },
            }
            i += 1;
        }
        Result::Ok(result)
    }
}

/// Parses nothing and loads nothing: evaluates an already-expanded
/// program against a fresh interpreter over the given external surface.
pub fn interpret<P: FFIProtocol>(exprs: Vec<Expr>, ffi: FFIBackend<P>) -> (r: Result<
    Value,
    InterpreterError,
>)
    ensures
        ({
            let o = spec_interpret(
                view_exprs(exprs@),
                Map::<Seq<u8>, SpecValue>::empty(),
                ffi@,
                DEFAULT_MAX_DEPTH as nat,
            );
            match (r, o.result) {
                (Result::Ok(v), Result::Ok(sv)) => v@ == sv,
                (Result::Err(err), Result::Err(serr)) => err@ == serr,
                _ => false,
            }
        }),
{
    let mut it = Interpreter::new(ffi);
    it.interpret(exprs)
}

} // verus!

// Laws of application.

verus! {

/// Binding parameters never disturbs a name that is not a parameter.
pub proof fn lemma_bind_params_frame(
    env: SpecEnv,
    params: Seq<Seq<u8>>,
    args: Seq<SpecValue>,
    n: Seq<u8>,
)
    requires
        !params.contains(n),
    ensures
        bind_params(env, params, args).dom().contains(n) <==> env.dom().contains(n),
        env.dom().contains(n) ==> bind_params(env, params, args)[n] == env[n],
    decreases params.len(),
{
    if params.len() > 0 && args.len() > 0 {
        assert(params[0] != n) by {
            if params[0] == n {
                assert(params.contains(n));
            }
        }
        assert(!params.drop_first().contains(n)) by {
            if params.drop_first().contains(n) {
                let i = choose|i: int|
                    0 <= i < params.drop_first().len() && params.drop_first()[i] == n;
                assert(params[i + 1] == n);
                assert(params.contains(n));
            }
        }
        lemma_bind_params_frame(env.insert(params[0], args[0]), params.drop_first(),
            args.drop_first(), n);
    }
}

/// Closure isolation: beyond its own parameter names, a call's
/// environment is exactly the function's closure, with the function
/// itself bound under its own name. Nothing from the caller and
/// nothing from any other call of the same function — in flight or not
/// — is visible, since the environment is built from the function
/// value and this call's arguments alone.
pub proof fn lemma_closure_isolation(f: SpecValue, args: Seq<SpecValue>, n: Seq<u8>)
    requires
        f is Function,
        !(f->Function_1).contains(n),
    ensures
        n == f->Function_0 ==> spec_call_env(f, args).dom().contains(n) && spec_call_env(
            f,
            args,
        )[n] == f,
        n != f->Function_0 ==> (spec_call_env(f, args).dom().contains(n) <==> (
        f->Function_3).dom().contains(n)),
        n != f->Function_0 && (f->Function_3).dom().contains(n) ==> spec_call_env(f, args)[n] == (
        f->Function_3)[n],
{
    match f {
        SpecValue::Function(name, params, body, cenv) => {
            lemma_bind_params_frame(cenv.insert(name, f), params, args, n);
        },
        _ => {},
    }
}

/// Two calls of the same function agree everywhere outside their own
/// parameter bindings: neither sees the other's arguments.
pub proof fn lemma_calls_independent(
    f: SpecValue,
    args1: Seq<SpecValue>,
    args2: Seq<SpecValue>,
    n: Seq<u8>,
)
    requires
        f is Function,
        !(f->Function_1).contains(n),
    ensures
        spec_call_env(f, args1).dom().contains(n) <==> spec_call_env(f, args2).dom().contains(n),
        spec_call_env(f, args1).dom().contains(n) ==> spec_call_env(f, args1)[n] == spec_call_env(
            f,
            args2,
        )[n],
{
    lemma_closure_isolation(f, args1, n);
    lemma_closure_isolation(f, args2, n);
}

/// Currying law: supplying fewer arguments than a function's arity
/// yields a partial application and touches nothing else; supplying
/// the remaining arguments to that partial application evaluates
/// exactly as supplying all arguments at once would, with one unit of
/// depth budget spent unwrapping the partial application.
pub proof fn lemma_currying<P: FFIProtocol>(
    f: SpecValue,
    first: Seq<SpecValue>,
    rest: Seq<SpecValue>,
    b: SpecBackend<P>,
    fuel: nat,
)
    requires
        fuel > 0,
        f is Function,
        first.len() < (f->Function_1).len(),
    ensures
        spec_apply(f, first, b, fuel).0 == Result::<SpecValue, SpecInterpreterError>::Ok(
            SpecValue::PartialApplication(Box::new(f), first),
        ),
        spec_apply(f, first, b, fuel).1 == b,
        spec_apply(SpecValue::PartialApplication(Box::new(f), first), rest, b, fuel + 1)
            == spec_apply(f, first + rest, b, fuel),
{
}

} // verus!
