//! Abstract syntax of the language: literal primitives, expressions,
//! notation patterns, runtime values and environments, together with the
//! mathematical models (`Spec*` types) that the contracts are stated over.

use vstd::prelude::*;

verus! {

/// Mathematical model of a literal primitive. Strings are sequences of
/// UTF-8 bytes; a float literal is kept as its lexical form, since the
/// evaluator itself defines no arithmetic on it.
pub enum SpecPrimitive {
    Int(int),
    Float(Seq<u8>),
    Str(Seq<u8>),
    Bool(bool),
    Array(Seq<SpecExpr>),
}

/// Mathematical model of an expression.
pub enum SpecExpr {
    Primitive(SpecPrimitive),
    Variable(Seq<u8>),
    FunctionDef(Seq<u8>, Seq<Seq<u8>>, Seq<SpecExpr>),
    FunctionCall(Box<SpecExpr>, Seq<SpecExpr>),
    Return(Box<SpecExpr>),
    Assignment(Seq<u8>, Box<SpecExpr>),
    FFIDecl(Seq<u8>, Seq<u8>, Option<Seq<u8>>),
    InfixOp(Box<SpecExpr>, Seq<u8>, Box<SpecExpr>),
    NotationDecl(SpecNotationPattern, Box<SpecExpr>),
}

/// Mathematical model of a notation pattern.
pub struct SpecNotationPattern {
    pub pattern: Seq<u8>,
    pub variables: Seq<Seq<u8>>,
    pub precedence: Option<int>,
    pub associativity: Associativity,
}

/// Associativity annotation of a notation declaration; advisory metadata
/// for downstream tooling, it does not alter parsing.
#[derive(Clone, Copy, PartialEq, Eq, Structural, Debug)]
pub enum Associativity {
    Left,
    Right,
    NonAssoc,
}

/// A literal primitive. Identifier-like data and string contents are held
/// as UTF-8 bytes; a float literal keeps its lexical form.
pub enum Primitive {
    Int(i64),
    Float(Vec<u8>),
    Str(Vec<u8>),
    Bool(bool),
    Array(Vec<Expr>),
}

/// An expression node of the abstract syntax tree.
pub enum Expr {
    Primitive(Primitive),
    Variable(Vec<u8>),
    FunctionDef(Vec<u8>, Vec<Vec<u8>>, Vec<Expr>),
    FunctionCall(Box<Expr>, Vec<Expr>),
    Return(Box<Expr>),
    Assignment(Vec<u8>, Box<Expr>),
    FFIDecl(Vec<u8>, Vec<u8>, Option<Vec<u8>>),
    InfixOp(Box<Expr>, Vec<u8>, Box<Expr>),
    NotationDecl(NotationPattern, Box<Expr>),
}

/// A notation (macro) pattern: the textual template, the declared slot
/// variables, and advisory precedence/associativity metadata.
pub struct NotationPattern {
    pub pattern: Vec<u8>,
    pub variables: Vec<Vec<u8>>,
    pub precedence: Option<i64>,
    pub associativity: Associativity,
}

impl View for NotationPattern {
    type V = SpecNotationPattern;

    open spec fn view(&self) -> SpecNotationPattern {
        SpecNotationPattern {
            pattern: self.pattern.view(),
            variables: view_names(self.variables.view()),
            precedence: match self.precedence {
                Option::Some(p) => Option::Some(p as int),
                Option::None => Option::None,
            },
            associativity: self.associativity,
        }
    }
}

/// Model of a list of names, element by element.
pub open spec fn view_names(ns: Seq<Vec<u8>>) -> Seq<Seq<u8>>
    decreases ns,
{
    if ns.len() == 0 {
        Seq::empty()
    } else {
        view_names(ns.drop_last()).push(ns.last().view())
    }
}

/// Model of an expression list, element by element.
pub open spec fn view_exprs(es: Seq<Expr>) -> Seq<SpecExpr>
    decreases es,
{
    if es.len() == 0 {
        Seq::empty()
    } else {
        view_exprs(es.drop_last()).push(view_expr(es.last()))
    }
}

/// Model of a primitive literal.
pub open spec fn view_primitive(p: Primitive) -> SpecPrimitive
    decreases p,
{
    match p {
        Primitive::Int(i) => SpecPrimitive::Int(i as int),
        Primitive::Float(s) => SpecPrimitive::Float(s.view()),
        Primitive::Str(s) => SpecPrimitive::Str(s.view()),
        Primitive::Bool(b) => SpecPrimitive::Bool(b),
        Primitive::Array(es) => SpecPrimitive::Array(view_exprs(es.view())),
    }
}

/// Model of an expression node.
pub open spec fn view_expr(e: Expr) -> SpecExpr
    decreases e,
{
    match e {
        Expr::Primitive(p) => SpecExpr::Primitive(view_primitive(p)),
        Expr::Variable(name) => SpecExpr::Variable(name.view()),
        Expr::FunctionDef(name, params, body) => SpecExpr::FunctionDef(
            name.view(),
            view_names(params.view()),
            view_exprs(body.view()),
        ),
        Expr::FunctionCall(callee, args) => SpecExpr::FunctionCall(
            Box::new(view_expr(*callee)),
            view_exprs(args.view()),
        ),
        Expr::Return(e1) => SpecExpr::Return(Box::new(view_expr(*e1))),
        Expr::Assignment(name, e1) => SpecExpr::Assignment(
            name.view(),
            Box::new(view_expr(*e1)),
        ),
        Expr::FFIDecl(module, name, alias) => SpecExpr::FFIDecl(
            module.view(),
            name.view(),
            match alias {
                Option::Some(a) => Option::Some(a.view()),
                Option::None => Option::None,
            },
        ),
        Expr::InfixOp(left, op, right) => SpecExpr::InfixOp(
            Box::new(view_expr(*left)),
            op.view(),
            Box::new(view_expr(*right)),
        ),
        Expr::NotationDecl(pattern, expansion) => SpecExpr::NotationDecl(
            pattern.view(),
            Box::new(view_expr(*expansion)),
        ),
    }
}

impl View for Primitive {
    type V = SpecPrimitive;

    open spec fn view(&self) -> SpecPrimitive {
        view_primitive(*self)
    }
}

impl View for Expr {
    type V = SpecExpr;

    open spec fn view(&self) -> SpecExpr {
        view_expr(*self)
    }
}

pub broadcast proof fn lemma_view_names_len(ns: Seq<Vec<u8>>)
    ensures
        #[trigger] view_names(ns).len() == ns.len(),
    decreases ns,
{
    if ns.len() > 0 {
        lemma_view_names_len(ns.drop_last());
    }
}

pub broadcast proof fn lemma_view_names_index(ns: Seq<Vec<u8>>, i: int)
    requires
        0 <= i < ns.len(),
    ensures
        #[trigger] view_names(ns)[i] == ns[i]@,
    decreases ns,
{
    lemma_view_names_len(ns);
    if i < ns.len() - 1 {
        lemma_view_names_index(ns.drop_last(), i);
    }
}

pub broadcast proof fn lemma_view_names_push(ns: Seq<Vec<u8>>, n: Vec<u8>)
    ensures
        #[trigger] view_names(ns.push(n)) == view_names(ns).push(n@),
{
    assert(ns.push(n).drop_last() =~= ns);
    assert(ns.push(n).last() == n);
}

pub broadcast proof fn lemma_view_exprs_len(es: Seq<Expr>)
    ensures
        #[trigger] view_exprs(es).len() == es.len(),
    decreases es,
{
    if es.len() > 0 {
        lemma_view_exprs_len(es.drop_last());
    }
}

pub broadcast proof fn lemma_view_exprs_index(es: Seq<Expr>, i: int)
    requires
        0 <= i < es.len(),
    ensures
        #[trigger] view_exprs(es)[i] == view_expr(es[i]),
    decreases es,
{
    lemma_view_exprs_len(es);
    if i < es.len() - 1 {
        lemma_view_exprs_index(es.drop_last(), i);
    }
}

pub broadcast proof fn lemma_view_exprs_push(es: Seq<Expr>, e: Expr)
    ensures
        #[trigger] view_exprs(es.push(e)) == view_exprs(es).push(view_expr(e)),
{
    assert(es.push(e).drop_last() =~= es);
    assert(es.push(e).last() == e);
}

/// Lists whose elements have equal models have equal list models.
pub proof fn lemma_view_exprs_pointwise(a: Seq<Expr>, b: Seq<Expr>)
    requires
        a.len() == b.len(),
        forall|k: int| 0 <= k < a.len() ==> view_expr(a[k]) == view_expr(b[k]),
    ensures
        view_exprs(a) == view_exprs(b),
    decreases a,
{
    if a.len() > 0 {
        lemma_view_exprs_pointwise(a.drop_last(), b.drop_last());
    }
}

/// Copies a byte vector.
pub fn clone_bytes(v: &Vec<u8>) -> (r: Vec<u8>)
    ensures
        r@ == v@,
{
    let r = v.clone();
    assert(r@ =~= v@);
    r
}

/// Copies a list of names.
pub fn clone_names(ns: &Vec<Vec<u8>>) -> (r: Vec<Vec<u8>>)
    ensures
        view_names(r@) == view_names(ns@),
        r@.len() == ns@.len(),
{
    let mut out: Vec<Vec<u8>> = Vec::new();
    let mut i: usize = 0;
    while i < ns.len()
        invariant
            0 <= i <= ns@.len(),
            out@.len() == i,
            view_names(out@) == view_names(ns@.subrange(0, i as int)),
        decreases ns@.len() - i,
    {
        let ghost prev = out@;
        out.push(clone_bytes(&ns[i]));
        proof {
            lemma_view_names_push(prev, out@.last());
            lemma_view_names_push(ns@.subrange(0, i as int), ns@[i as int]);
            assert(ns@.subrange(0, i as int).push(ns@[i as int]) =~= ns@.subrange(0, i + 1));
        }
        i += 1;
    }
    proof {
        assert(ns@.subrange(0, ns@.len() as int) =~= ns@);
    }
    out
}

/// Copies a notation pattern.
pub fn clone_notation_pattern(p: &NotationPattern) -> (r: NotationPattern)
    ensures
        r@ == p@,
{
    NotationPattern {
        pattern: clone_bytes(&p.pattern),
        variables: clone_names(&p.variables),
        precedence: p.precedence,
        associativity: p.associativity,
    }
}

/// Copies an expression tree.
pub fn clone_expr(e: &Expr) -> (r: Expr)
    ensures
        r@ == e@,
    decreases *e,
{
    match e {
        Expr::Primitive(p) => Expr::Primitive(clone_primitive(p)),
        Expr::Variable(name) => Expr::Variable(clone_bytes(name)),
        Expr::FunctionDef(name, params, body) => Expr::FunctionDef(
            clone_bytes(name),
            clone_names(params),
            clone_exprs(body),
        ),
        Expr::FunctionCall(callee, args) => Expr::FunctionCall(
            Box::new(clone_expr(callee)),
            clone_exprs(args),
        ),
        Expr::Return(e1) => Expr::Return(Box::new(clone_expr(e1))),
        Expr::Assignment(name, e1) => Expr::Assignment(
            clone_bytes(name),
            Box::new(clone_expr(e1)),
        ),
        Expr::FFIDecl(module, name, alias) => Expr::FFIDecl(
            clone_bytes(module),
            clone_bytes(name),
            match alias {
                Option::Some(a) => Option::Some(clone_bytes(a)),
                Option::None => Option::None,
            },
        ),
        Expr::InfixOp(left, op, right) => Expr::InfixOp(
            Box::new(clone_expr(left)),
            clone_bytes(op),
            Box::new(clone_expr(right)),
        ),
        Expr::NotationDecl(pattern, expansion) => Expr::NotationDecl(
            clone_notation_pattern(pattern),
            Box::new(clone_expr(expansion)),
        ),
    }
}

/// Copies a primitive literal.
pub fn clone_primitive(p: &Primitive) -> (r: Primitive)
    ensures
        r@ == p@,
    decreases *p,
{
    match p {
        Primitive::Int(i) => Primitive::Int(*i),
        Primitive::Float(s) => Primitive::Float(clone_bytes(s)),
        Primitive::Str(s) => Primitive::Str(clone_bytes(s)),
        Primitive::Bool(b) => Primitive::Bool(*b),
        Primitive::Array(es) => Primitive::Array(clone_exprs(es)),
    }
}

/// Copies a list of expressions.
pub fn clone_exprs(es: &Vec<Expr>) -> (r: Vec<Expr>)
    ensures
        view_exprs(r@) == view_exprs(es@),
        r@.len() == es@.len(),
    decreases *es,
{
    let mut out: Vec<Expr> = Vec::new();
    let mut i: usize = 0;
    while i < es.len()
        invariant
            0 <= i <= es@.len(),
            out@.len() == i,
            forall|k: int| 0 <= k < i ==> view_expr(out@[k]) == view_expr(es@[k]),
        decreases es@.len() - i,
    {
        out.push(clone_expr(&es[i]));
        i += 1;
    }
    proof {
        lemma_view_exprs_pointwise(out@, es@);
    }
    out
}

} // verus!

// Runtime values and environments.

verus! {

/// Mathematical model of an environment: a mapping from names to
/// values, keys unique, last write wins.
pub type SpecEnv = Map<Seq<u8>, SpecValue>;

/// Mathematical model of a runtime value.
pub enum SpecValue {
    Primitive(SpecPrimitive),
    Function(Seq<u8>, Seq<Seq<u8>>, Seq<SpecExpr>, SpecEnv),
    Ffi(Seq<u8>),
    PartialApplication(Box<SpecValue>, Seq<SpecValue>),
}

/// A runtime value: a literal, a closure (name, parameters, body and
/// captured environment), a reference to an externally registered
/// function, or a function still awaiting arguments.
pub enum Value {
    Primitive(Primitive),
    Function(Vec<u8>, Vec<Vec<u8>>, Vec<Expr>, Environment),
    Ffi(Vec<u8>),
    PartialApplication(Box<Value>, Vec<Value>),
}

/// An environment: bindings from names to values. A later binding for
/// the same name shadows an earlier one, so the model is a mapping with
/// unique keys where the last write wins. A closure captures a copy of
/// the environment in effect at its definition; invoking the function
/// never mutates a captured environment.
pub struct Environment {
    pub entries: Vec<(Vec<u8>, Value)>,
}

/// Model of an environment's entries, first to last; a later entry for
/// the same name wins.
pub open spec fn view_env_entries(es: Seq<(Vec<u8>, Value)>) -> SpecEnv
    decreases es,
{
    if es.len() == 0 {
        Map::empty()
    } else {
        view_env_entries(es.drop_last()).insert(es.last().0@, view_value(es.last().1))
    }
}

/// Model of a runtime value.
pub open spec fn view_value(v: Value) -> SpecValue
    decreases v,
{
    match v {
        Value::Primitive(p) => SpecValue::Primitive(view_primitive(p)),
        Value::Function(name, params, body, env) => SpecValue::Function(
            name.view(),
            view_names(params.view()),
            view_exprs(body.view()),
            view_env_entries(env.entries.view()),
        ),
        Value::Ffi(name) => SpecValue::Ffi(name.view()),
        Value::PartialApplication(f, args) => SpecValue::PartialApplication(
            Box::new(view_value(*f)),
            view_values(args.view()),
        ),
    }
}

/// Model of a value list, element by element.
pub open spec fn view_values(vs: Seq<Value>) -> Seq<SpecValue>
    decreases vs,
{
    if vs.len() == 0 {
        Seq::empty()
    } else {
        view_values(vs.drop_last()).push(view_value(vs.last()))
    }
}

impl View for Value {
    type V = SpecValue;

    open spec fn view(&self) -> SpecValue {
        view_value(*self)
    }
}

impl View for Environment {
    type V = SpecEnv;

    open spec fn view(&self) -> SpecEnv {
        view_env_entries(self.entries@)
    }
}

pub broadcast proof fn lemma_view_values_len(vs: Seq<Value>)
    ensures
        #[trigger] view_values(vs).len() == vs.len(),
    decreases vs,
{
    if vs.len() > 0 {
        lemma_view_values_len(vs.drop_last());
    }
}

pub broadcast proof fn lemma_view_values_index(vs: Seq<Value>, i: int)
    requires
        0 <= i < vs.len(),
    ensures
        #[trigger] view_values(vs)[i] == view_value(vs[i]),
    decreases vs,
{
    lemma_view_values_len(vs);
    if i < vs.len() - 1 {
        lemma_view_values_index(vs.drop_last(), i);
    }
}

pub broadcast proof fn lemma_view_values_push(vs: Seq<Value>, v: Value)
    ensures
        #[trigger] view_values(vs.push(v)) == view_values(vs).push(view_value(v)),
{
    assert(vs.push(v).drop_last() =~= vs);
    assert(vs.push(v).last() == v);
}

/// Value lists whose elements have equal models have equal models.
pub proof fn lemma_view_values_pointwise(a: Seq<Value>, b: Seq<Value>)
    requires
        a.len() == b.len(),
        forall|k: int| 0 <= k < a.len() ==> view_value(a[k]) == view_value(b[k]),
    ensures
        view_values(a) == view_values(b),
    decreases a,
{
    if a.len() > 0 {
        lemma_view_values_pointwise(a.drop_last(), b.drop_last());
    }
}

/// Copies a runtime value.
pub fn clone_value(v: &Value) -> (r: Value)
    ensures
        r@ == v@,
    decreases *v,
{
    match v {
        Value::Primitive(p) => Value::Primitive(clone_primitive(p)),
        Value::Function(name, params, body, env) => Value::Function(
            clone_bytes(name),
            clone_names(params),
            clone_exprs(body),
            clone_environment(env),
        ),
        Value::Ffi(name) => Value::Ffi(clone_bytes(name)),
        Value::PartialApplication(f, args) => Value::PartialApplication(
            Box::new(clone_value(f)),
            clone_values(args),
        ),
    }
}

/// Copies a list of values.
pub fn clone_values(vs: &Vec<Value>) -> (r: Vec<Value>)
    ensures
        view_values(r@) == view_values(vs@),
        r@.len() == vs@.len(),
    decreases *vs,
{
    let mut out: Vec<Value> = Vec::new();
    let mut i: usize = 0;
    while i < vs.len()
        invariant
            0 <= i <= vs@.len(),
            out@.len() == i,
            forall|k: int| 0 <= k < i ==> view_value(out@[k]) == view_value(vs@[k]),
        decreases vs@.len() - i,
    {
        out.push(clone_value(&vs[i]));
        i += 1;
    }
    proof {
        lemma_view_values_pointwise(out@, vs@);
    }
    out
}

/// Copies an environment.
pub fn clone_environment(env: &Environment) -> (r: Environment)
    ensures
        r@ == env@,
    decreases *env,
{
    let mut out: Vec<(Vec<u8>, Value)> = Vec::new();
    let mut i: usize = 0;
    while i < env.entries.len()
        invariant
            0 <= i <= env.entries@.len(),
            view_env_entries(out@) == view_env_entries(env.entries@.subrange(0, i as int)),
        decreases env.entries@.len() - i,
    {
        let name = clone_bytes(&env.entries[i].0);
        let val = clone_value(&env.entries[i].1);
        let ghost prev = out@;
        out.push((name, val));
        proof {
            assert(out@.drop_last() =~= prev);
            assert(env.entries@.subrange(0, i + 1).drop_last() =~= env.entries@.subrange(
                0,
                i as int,
            ));
            assert(env.entries@.subrange(0, i + 1).last() == env.entries@[i as int]);
        }
        i += 1;
    }
    proof {
        assert(env.entries@.subrange(0, env.entries@.len() as int) =~= env.entries@);
    }
    Environment { entries: out }
}

impl Environment {
    /// The empty environment.
    pub fn new() -> (r: Environment)
        ensures
            r@ == Map::<Seq<u8>, SpecValue>::empty(),
    {
        let r = Environment { entries: Vec::new() };
        proof {
            assert(r.entries@.len() == 0);
        }
        r
    }

    /// Looks a name up; the latest binding wins.
    pub fn get(&self, name: &[u8]) -> (r: Option<&Value>)
        ensures
            match r {
                Option::Some(v) => self@.dom().contains(name@) && v@ == self@[name@],
                Option::None => !self@.dom().contains(name@),
            },
    {
        let ghost full = self.entries@;
        assert(full.subrange(0, full.len() as int) =~= full);
        let mut i: usize = self.entries.len();
        while i > 0
            invariant
                0 <= i <= full.len(),
                full == self.entries@,
                view_env_entries(full).dom().contains(name@) == view_env_entries(
                    full.subrange(0, i as int),
                ).dom().contains(name@),
                view_env_entries(full).dom().contains(name@) ==> view_env_entries(full)[name@]
                    == view_env_entries(full.subrange(0, i as int))[name@],
            decreases i,
        {
            i = i - 1;
            proof {
                assert(full.subrange(0, i + 1).drop_last() =~= full.subrange(0, i as int));
                assert(full.subrange(0, i + 1).last() == full[i as int]);
            }
            if crate::lexical::bytes_eq(self.entries[i].0.as_slice(), name) {
                return Option::Some(&self.entries[i].1);
            }
        }
        proof {
            assert(full.subrange(0, 0) =~= Seq::<(Vec<u8>, Value)>::empty());
        }
        Option::None
    }

    /// Binds a name to a value; an earlier binding for the same name is
    /// shadowed.
    pub fn insert(&mut self, name: Vec<u8>, v: Value)
        ensures
            final(self)@ == old(self)@.insert(name@, v@),
    {
        let ghost prev = self.entries@;
        self.entries.push((name, v));
        proof {
            assert(self.entries@.drop_last() =~= prev);
        }
    }
}

} // verus!
