//! The notation (macro) rewriting pass. Top-level notation declarations
//! are collected and removed from the expression stream; every remaining
//! expression is then rewritten bottom-up, replacing each infix node
//! that matches a declared pattern with the pattern's expansion, the two
//! slot variables `x` and `y` bound to the operands. Only the first
//! matching notation, in declaration order, applies to a node.

use vstd::prelude::*;

use crate::syntax::{
    clone_bytes, clone_expr, clone_names, clone_notation_pattern, view_expr, view_exprs, Expr,
    NotationPattern, SpecExpr, SpecNotationPattern,
};
use crate::lexical::bytes_eq;

verus! {

broadcast use {
    crate::syntax::lemma_view_exprs_len,
    crate::syntax::lemma_view_exprs_index,
    crate::syntax::lemma_view_exprs_push,
};

/// A collected notation: its pattern and its expansion template.
pub struct SpecNotation {
    pub pattern: SpecNotationPattern,
    pub expansion: SpecExpr,
}

/// The name of the first slot variable.
pub open spec fn name_x() -> Seq<u8> {
    seq![('x' as u8)]
}

/// The name of the second slot variable.
pub open spec fn name_y() -> Seq<u8> {
    seq![('y' as u8)]
}

/// The canonical two-slot template for an infix operator: `$x <op> $y`.
pub open spec fn infix_template(op: Seq<u8>) -> Seq<u8> {
    seq![('$' as u8), ('x' as u8), (' ' as u8)] + op + seq![(' ' as u8), ('$' as u8), ('y' as u8)]
}

/// Matches a node against a pattern. An infix node matches when the
/// pattern's template equals the canonical two-slot template for its
/// operator; the slots `x` and `y` are then bound to the operands.
pub open spec fn spec_match(e: SpecExpr, p: SpecNotationPattern) -> Option<Map<Seq<u8>, SpecExpr>> {
    match e {
        SpecExpr::InfixOp(l, op, r) => if p.pattern == infix_template(op) {
            Option::Some(map![name_x() => *l, name_y() => *r])
        } else {
            Option::None
        },
        _ => Option::None,
    }
}

/// Substitutes bound variables into an expansion template, descending
/// into function calls and infix expressions; a variable with no binding
/// is left as a free reference, and every other node kind is unchanged.
pub open spec fn spec_substitute(expansion: SpecExpr, b: Map<Seq<u8>, SpecExpr>) -> SpecExpr
    decreases expansion,
{
    match expansion {
        SpecExpr::Variable(name) => if b.dom().contains(name) {
            b[name]
        } else {
            SpecExpr::Variable(name)
        },
        SpecExpr::FunctionCall(f, args) => SpecExpr::FunctionCall(
            Box::new(spec_substitute(*f, b)),
            spec_substitute_list(args, b),
        ),
        SpecExpr::InfixOp(l, op, r) => SpecExpr::InfixOp(
            Box::new(spec_substitute(*l, b)),
            op,
            Box::new(spec_substitute(*r, b)),
        ),
        _ => expansion,
    }
}

pub open spec fn spec_substitute_list(es: Seq<SpecExpr>, b: Map<Seq<u8>, SpecExpr>) -> Seq<
    SpecExpr,
>
    decreases es,
{
    if es.len() == 0 {
        Seq::empty()
    } else {
        spec_substitute_list(es.drop_last(), b).push(spec_substitute(es.last(), b))
    }
}

pub broadcast proof fn lemma_substitute_list_len(es: Seq<SpecExpr>, b: Map<Seq<u8>, SpecExpr>)
    ensures
        #[trigger] spec_substitute_list(es, b).len() == es.len(),
    decreases es,
{
    if es.len() > 0 {
        lemma_substitute_list_len(es.drop_last(), b);
    }
}

pub broadcast proof fn lemma_substitute_list_index(
    es: Seq<SpecExpr>,
    b: Map<Seq<u8>, SpecExpr>,
    i: int,
)
    requires
        0 <= i < es.len(),
    ensures
        #[trigger] spec_substitute_list(es, b)[i] == spec_substitute(es[i], b),
    decreases es,
{
    lemma_substitute_list_len(es, b);
    if i < es.len() - 1 {
        lemma_substitute_list_index(es.drop_last(), b, i);
    }
}

/// Rewrites a node by the first matching notation, in declaration
/// order; a node that matches none passes through unchanged.
pub open spec fn spec_rewrite(e: SpecExpr, ns: Seq<SpecNotation>) -> SpecExpr
    decreases ns.len(),
{
    if ns.len() == 0 {
        e
    } else {
        match spec_match(e, ns[0].pattern) {
            Option::Some(b) => spec_substitute(ns[0].expansion, b),
            Option::None => spec_rewrite(e, ns.drop_first()),
        }
    }
}

/// Rewrites an expression bottom-up: first every child, then the node
/// itself. Array literals, variables, literals and declarations have no
/// children that are rewritten.
pub open spec fn spec_expand(e: SpecExpr, ns: Seq<SpecNotation>) -> SpecExpr
    decreases e,
{
    let expanded = match e {
        SpecExpr::FunctionDef(n, ps, body) => SpecExpr::FunctionDef(
            n,
            ps,
            spec_expand_list(body, ns),
        ),
        SpecExpr::FunctionCall(f, args) => SpecExpr::FunctionCall(
            Box::new(spec_expand(*f, ns)),
            spec_expand_list(args, ns),
        ),
        SpecExpr::Return(x) => SpecExpr::Return(Box::new(spec_expand(*x, ns))),
        SpecExpr::Assignment(n, x) => SpecExpr::Assignment(n, Box::new(spec_expand(*x, ns))),
        SpecExpr::InfixOp(l, op, r) => SpecExpr::InfixOp(
            Box::new(spec_expand(*l, ns)),
            op,
            Box::new(spec_expand(*r, ns)),
        ),
        _ => e,
    };
    spec_rewrite(expanded, ns)
}

pub open spec fn spec_expand_list(es: Seq<SpecExpr>, ns: Seq<SpecNotation>) -> Seq<SpecExpr>
    decreases es,
{
    if es.len() == 0 {
        Seq::empty()
    } else {
        spec_expand_list(es.drop_last(), ns).push(spec_expand(es.last(), ns))
    }
}

pub broadcast proof fn lemma_expand_list_len(es: Seq<SpecExpr>, ns: Seq<SpecNotation>)
    ensures
        #[trigger] spec_expand_list(es, ns).len() == es.len(),
    decreases es,
{
    if es.len() > 0 {
        lemma_expand_list_len(es.drop_last(), ns);
    }
}

pub broadcast proof fn lemma_expand_list_index(es: Seq<SpecExpr>, ns: Seq<SpecNotation>, i: int)
    requires
        0 <= i < es.len(),
    ensures
        #[trigger] spec_expand_list(es, ns)[i] == spec_expand(es[i], ns),
    decreases es,
{
    lemma_expand_list_len(es, ns);
    if i < es.len() - 1 {
        lemma_expand_list_index(es.drop_last(), ns, i);
    }
}

/// The notation declarations of a program, in declaration order.
pub open spec fn spec_collect_notations(es: Seq<SpecExpr>) -> Seq<SpecNotation>
    decreases es,
{
    if es.len() == 0 {
        Seq::empty()
    } else {
        let rest = spec_collect_notations(es.drop_last());
        match es.last() {
            SpecExpr::NotationDecl(p, x) => rest.push(SpecNotation { pattern: p, expansion: *x }),
            _ => rest,
        }
    }
}

/// The program without its notation declarations, in order.
pub open spec fn spec_real_exprs(es: Seq<SpecExpr>) -> Seq<SpecExpr>
    decreases es,
{
    if es.len() == 0 {
        Seq::empty()
    } else {
        let rest = spec_real_exprs(es.drop_last());
        match es.last() {
            SpecExpr::NotationDecl(_, _) => rest,
            _ => rest.push(es.last()),
        }
    }
}

/// The whole pass: collect the declarations, drop them from the stream,
/// and rewrite every remaining expression.
pub open spec fn spec_apply_notations(es: Seq<SpecExpr>) -> Seq<SpecExpr> {
    spec_expand_list(spec_real_exprs(es), spec_collect_notations(es))
}

} // verus!

// Executable pass, proven to implement the rewriting above.

verus! {

/// A collected notation, executable form.
struct Notation {
    pattern: NotationPattern,
    expansion: Expr,
}

spec fn view_notation(n: Notation) -> SpecNotation {
    SpecNotation { pattern: n.pattern.view(), expansion: n.expansion.view() }
}

spec fn view_notations(ns: Seq<Notation>) -> Seq<SpecNotation>
    decreases ns,
{
    if ns.len() == 0 {
        Seq::empty()
    } else {
        view_notations(ns.drop_last()).push(view_notation(ns.last()))
    }
}

broadcast proof fn lemma_view_notations_len(ns: Seq<Notation>)
    ensures
        #[trigger] view_notations(ns).len() == ns.len(),
    decreases ns,
{
    if ns.len() > 0 {
        lemma_view_notations_len(ns.drop_last());
    }
}

broadcast proof fn lemma_view_notations_index(ns: Seq<Notation>, i: int)
    requires
        0 <= i < ns.len(),
    ensures
        #[trigger] view_notations(ns)[i] == view_notation(ns[i]),
    decreases ns,
{
    lemma_view_notations_len(ns);
    if i < ns.len() - 1 {
        lemma_view_notations_index(ns.drop_last(), i);
    }
}

broadcast proof fn lemma_view_notations_push(ns: Seq<Notation>, n: Notation)
    ensures
        #[trigger] view_notations(ns.push(n)) == view_notations(ns).push(view_notation(n)),
{
    assert(ns.push(n).drop_last() =~= ns);
    assert(ns.push(n).last() == n);
}

/// Builds the canonical two-slot template `$x <op> $y` for an operator.
fn build_template(op: &Vec<u8>) -> (r: Vec<u8>)
    ensures
        r@ == infix_template(op@),
{
    let mut r: Vec<u8> = Vec::new();
    r.push('$' as u8);
    r.push('x' as u8);
    r.push(' ' as u8);
    let mut i: usize = 0;
    while i < op.len()
        invariant
            0 <= i <= op@.len(),
            r@ =~= seq![('$' as u8), ('x' as u8), (' ' as u8)] + op@.subrange(0, i as int),
        decreases op@.len() - i,
    {
        r.push(op[i]);
        assert(op@.subrange(0, i as int).push(op@[i as int]) =~= op@.subrange(0, i + 1));
        i += 1;
    }
    assert(op@.subrange(0, op@.len() as int) =~= op@);
    r.push(' ' as u8);
    r.push('$' as u8);
    r.push('y' as u8);
    assert(r@ =~= infix_template(op@));
    r
}

/// Substitutes the slot bindings `x := bx`, `y := by` into an expansion
/// template.
#[verifier::loop_isolation(false)]
fn substitute(expansion: &Expr, bx: &Expr, by: &Expr) -> (r: Expr)
    ensures
        r@ == spec_substitute(expansion@, map![name_x() => bx@, name_y() => by@]),
    decreases *expansion,
{
    let ghost b = map![name_x() => bx@, name_y() => by@];
    match expansion {
        Expr::Variable(name) => {
            if name.len() == 1 && name[0] == ('x' as u8) {
                assert(name@ =~= name_x());
                clone_expr(bx)
            } else if name.len() == 1 && name[0] == ('y' as u8) {
                assert(name@ =~= name_y());
                clone_expr(by)
            } else {
                assert(name@ != name_x() && name@ != name_y());
                assert(!b.dom().contains(name@));
                Expr::Variable(clone_bytes(name))
            }
        },
        Expr::FunctionCall(f, args) => {
            let new_f = substitute(f, bx, by);
            let mut out: Vec<Expr> = Vec::new();
            let mut i: usize = 0;
            while i < args.len()
                invariant
                    0 <= i <= args@.len(),
                    out@.len() == i,
                    forall|k: int|
                        0 <= k < i ==> view_expr(out@[k]) == spec_substitute(
                            view_expr(args@[k]),
                            b,
                        ),
                decreases args@.len() - i,
            {
                out.push(substitute(&args[i], bx, by));
                i += 1;
            }
            proof {
                broadcast use {lemma_substitute_list_len, lemma_substitute_list_index};

                assert(view_exprs(out@) =~= spec_substitute_list(view_exprs(args@), b));
            }
            Expr::FunctionCall(Box::new(new_f), out)
        },
        Expr::InfixOp(l, op, rr) => Expr::InfixOp(
            Box::new(substitute(l, bx, by)),
            clone_bytes(op),
            Box::new(substitute(rr, bx, by)),
        ),
        _ => {
            let c = clone_expr(expansion);
            assert(c@ == spec_substitute(expansion@, b));
            c
        },
    }
}

/// Rewrites one node by the first matching notation, if any.
#[verifier::loop_isolation(false)]
fn rewrite_node(e: Expr, ns: &Vec<Notation>) -> (r: Expr)
    ensures
        r@ == spec_rewrite(e@, view_notations(ns@)),
{
    proof {
        broadcast use {lemma_view_notations_len, lemma_view_notations_index};

    }
    let ghost full = view_notations(ns@);
    assert(full.subrange(0, full.len() as int) =~= full);
    let mut i: usize = 0;
    while i < ns.len()
        invariant
            0 <= i <= ns@.len(),
            full == view_notations(ns@),
            spec_rewrite(e@, full) == spec_rewrite(e@, full.subrange(i as int, full.len() as int)),
        decreases ns@.len() - i,
    {
        proof {
            broadcast use {lemma_view_notations_len, lemma_view_notations_index};

        }
        let ghost tail = full.subrange(i as int, full.len() as int);
        let matched: bool = match &e {
            Expr::InfixOp(_, op, _) => {
                let t = build_template(op);
                bytes_eq(ns[i].pattern.pattern.as_slice(), t.as_slice())
            },
            _ => false,
        };
        if matched {
            match &e {
                Expr::InfixOp(l, op, rr) => {
                    assert(tail[0] == view_notation(ns@[i as int]));
                    let r = substitute(&ns[i].expansion, l, rr);
                    proof {
                        let b0 = spec_match(e@, view_notation(ns@[i as int]).pattern);
                        assert(b0 == Option::Some(map![name_x() => (*l)@, name_y() => (*rr)@]));
                        assert(spec_rewrite(e@, tail) == spec_substitute(
                            view_notation(ns@[i as int]).expansion,
                            b0.unwrap(),
                        ));
                    }
                    return r;
                },
                _ => {
                    assert(false);
                },
            }
        }
        proof {
            assert(spec_match(e@, tail[0].pattern) is None);
            assert(tail.drop_first() =~= full.subrange(i + 1, full.len() as int));
        }
        i += 1;
    }
    assert(full.subrange(ns@.len() as int, full.len() as int) =~= Seq::<SpecNotation>::empty());
    e
}

/// Expands one expression bottom-up: children first, then the node
/// itself by the first matching notation.
fn expand_expr(e: &Expr, ns: &Vec<Notation>) -> (r: Expr)
    ensures
        r@ == spec_expand(e@, view_notations(ns@)),
    decreases *e,
{
    let ghost nsv = view_notations(ns@);
    let expanded: Expr = match e {
        Expr::FunctionDef(name, params, body) => Expr::FunctionDef(
            clone_bytes(name),
            clone_names(params),
            expand_exprs(body, ns),
        ),
        Expr::FunctionCall(callee, args) => Expr::FunctionCall(
            Box::new(expand_expr(callee, ns)),
            expand_exprs(args, ns),
        ),
        Expr::Return(x) => Expr::Return(Box::new(expand_expr(x, ns))),
        Expr::Assignment(name, x) => Expr::Assignment(
            clone_bytes(name),
            Box::new(expand_expr(x, ns)),
        ),
        Expr::InfixOp(l, op, rr) => Expr::InfixOp(
            Box::new(expand_expr(l, ns)),
            clone_bytes(op),
            Box::new(expand_expr(rr, ns)),
        ),
        _ => clone_expr(e),
    };
    rewrite_node(expanded, ns)
}

/// Expands every expression of a list.
#[verifier::loop_isolation(false)]
fn expand_exprs(es: &Vec<Expr>, ns: &Vec<Notation>) -> (r: Vec<Expr>)
    ensures
        view_exprs(r@) == spec_expand_list(view_exprs(es@), view_notations(ns@)),
        r@.len() == es@.len(),
    decreases *es,
{
    let ghost nsv = view_notations(ns@);
    let mut out: Vec<Expr> = Vec::new();
    let mut i: usize = 0;
    while i < es.len()
        invariant
            0 <= i <= es@.len(),
            out@.len() == i,
            nsv == view_notations(ns@),
            forall|k: int|
                0 <= k < i ==> view_expr(out@[k]) == spec_expand(view_expr(es@[k]), nsv),
        decreases es@.len() - i,
    {
        out.push(expand_expr(&es[i], ns));
        i += 1;
    }
    proof {
        broadcast use {lemma_expand_list_len, lemma_expand_list_index};

        assert(view_exprs(out@) =~= spec_expand_list(view_exprs(es@), nsv));
    }
    out
}

/// A failure of the rewriting pass. The current semantics never
/// produces one — unbound expansion variables pass through as free
/// references and overlapping notations resolve by declaration order —
/// but the boundary of `apply_notations` keeps the error type.
#[derive(Debug)]
pub enum ExpansionError {
    MalformedNotation(Vec<u8>),
}

/// Collects the notation declarations of a program, removes them from
/// the expression stream, and rewrites every remaining expression. The
/// pass always succeeds.
#[verifier::loop_isolation(false)]
pub fn apply_notations(ast: Vec<Expr>) -> (r: Result<Vec<Expr>, ExpansionError>)
    ensures
        match r {
            Result::Ok(out) => view_exprs(out@) == spec_apply_notations(view_exprs(ast@)),
            Result::Err(_) => false,
        },
{
    proof {
        broadcast use {lemma_view_notations_push};

    }
    let ghost full = view_exprs(ast@);
    let mut notations: Vec<Notation> = Vec::new();
    let mut exprs: Vec<Expr> = Vec::new();
    assert(view_notations(notations@) =~= Seq::<SpecNotation>::empty());
    assert(view_exprs(exprs@) =~= Seq::<SpecExpr>::empty());
    assert(full.subrange(0, 0) =~= Seq::<SpecExpr>::empty());
    let mut i: usize = 0;
    while i < ast.len()
        invariant
            0 <= i <= ast@.len(),
            full == view_exprs(ast@),
            view_notations(notations@) == spec_collect_notations(full.subrange(0, i as int)),
            view_exprs(exprs@) == spec_real_exprs(full.subrange(0, i as int)),
        decreases ast@.len() - i,
    {
        proof {
            broadcast use {lemma_view_notations_push};

            assert(full.subrange(0, i + 1).drop_last() =~= full.subrange(0, i as int));
            assert(full.subrange(0, i + 1).last() == view_expr(ast@[i as int]));
        }
        match &ast[i] {
            Expr::NotationDecl(p, x) => {
                notations.push(
                    Notation { pattern: clone_notation_pattern(p), expansion: clone_expr(x) },
                );
            },
            _ => {
                exprs.push(clone_expr(&ast[i]));
            },
        }
        i += 1;
    }
    assert(full.subrange(0, ast@.len() as int) =~= full);
    let out = expand_exprs(&exprs, &notations);
    Result::Ok(out)
}

} // verus!

// Laws of the rewriting pass.

verus! {

/// Some declared notation matches this node.
pub open spec fn node_matches(e: SpecExpr, ns: Seq<SpecNotation>) -> bool {
    exists|i: int| 0 <= i < ns.len() && spec_match(e, ns[i].pattern) is Some
}

/// No declared notation matches this node nor any node beneath it in a
/// rewriting position.
pub open spec fn redex_free(e: SpecExpr, ns: Seq<SpecNotation>) -> bool
    decreases e,
{
    &&& !node_matches(e, ns)
    &&& match e {
        SpecExpr::FunctionDef(_, _, body) => redex_free_list(body, ns),
        SpecExpr::FunctionCall(f, args) => redex_free(*f, ns) && redex_free_list(args, ns),
        SpecExpr::Return(x) => redex_free(*x, ns),
        SpecExpr::Assignment(_, x) => redex_free(*x, ns),
        SpecExpr::InfixOp(l, _, r) => redex_free(*l, ns) && redex_free(*r, ns),
        _ => true,
    }
}

pub open spec fn redex_free_list(es: Seq<SpecExpr>, ns: Seq<SpecNotation>) -> bool
    decreases es,
{
    if es.len() == 0 {
        true
    } else {
        redex_free_list(es.drop_last(), ns) && redex_free(es.last(), ns)
    }
}

/// A node that no notation matches passes through rewriting unchanged.
pub proof fn lemma_rewrite_id(e: SpecExpr, ns: Seq<SpecNotation>)
    requires
        !node_matches(e, ns),
    ensures
        spec_rewrite(e, ns) == e,
    decreases ns.len(),
{
    if ns.len() > 0 {
        assert(spec_match(e, ns[0].pattern) is None) by {
            if spec_match(e, ns[0].pattern) is Some {
                assert(node_matches(e, ns));
            }
        }
        assert(!node_matches(e, ns.drop_first())) by {
            if node_matches(e, ns.drop_first()) {
                let i = choose|i: int|
                    0 <= i < ns.drop_first().len() && spec_match(
                        e,
                        ns.drop_first()[i].pattern,
                    ) is Some;
                assert(ns.drop_first()[i] == ns[i + 1]);
                assert(node_matches(e, ns));
            }
        }
        lemma_rewrite_id(e, ns.drop_first());
    }
}

/// Expansion is the identity on an expression with no matching node.
pub proof fn lemma_expand_fixed(e: SpecExpr, ns: Seq<SpecNotation>)
    requires
        redex_free(e, ns),
    ensures
        spec_expand(e, ns) == e,
    decreases e,
{
    match e {
        SpecExpr::FunctionDef(n, ps, body) => {
            lemma_expand_list_fixed(body, ns);
        },
        SpecExpr::FunctionCall(f, args) => {
            lemma_expand_fixed(*f, ns);
            lemma_expand_list_fixed(args, ns);
        },
        SpecExpr::Return(x) => {
            lemma_expand_fixed(*x, ns);
        },
        SpecExpr::Assignment(n, x) => {
            lemma_expand_fixed(*x, ns);
        },
        SpecExpr::InfixOp(l, op, r) => {
            lemma_expand_fixed(*l, ns);
            lemma_expand_fixed(*r, ns);
        },
        _ => {},
    }
    lemma_rewrite_id(e, ns);
}

/// Expansion is the identity on a list of such expressions.
pub proof fn lemma_expand_list_fixed(es: Seq<SpecExpr>, ns: Seq<SpecNotation>)
    requires
        redex_free_list(es, ns),
    ensures
        spec_expand_list(es, ns) == es,
    decreases es,
{
    if es.len() > 0 {
        lemma_expand_list_fixed(es.drop_last(), ns);
        lemma_expand_fixed(es.last(), ns);
        assert(es.drop_last().push(es.last()) =~= es);
    }
}

/// With no notations declared, expansion changes nothing at all.
pub proof fn lemma_expand_empty_id(e: SpecExpr)
    ensures
        spec_expand(e, Seq::<SpecNotation>::empty()) == e,
    decreases e,
{
    let ns = Seq::<SpecNotation>::empty();
    match e {
        SpecExpr::FunctionDef(n, ps, body) => {
            lemma_expand_list_empty_id(body);
        },
        SpecExpr::FunctionCall(f, args) => {
            lemma_expand_empty_id(*f);
            lemma_expand_list_empty_id(args);
        },
        SpecExpr::Return(x) => {
            lemma_expand_empty_id(*x);
        },
        SpecExpr::Assignment(n, x) => {
            lemma_expand_empty_id(*x);
        },
        SpecExpr::InfixOp(l, op, r) => {
            lemma_expand_empty_id(*l);
            lemma_expand_empty_id(*r);
        },
        _ => {},
    }
}

pub proof fn lemma_expand_list_empty_id(es: Seq<SpecExpr>)
    ensures
        spec_expand_list(es, Seq::<SpecNotation>::empty()) == es,
    decreases es,
{
    if es.len() > 0 {
        lemma_expand_list_empty_id(es.drop_last());
        lemma_expand_empty_id(es.last());
        assert(es.drop_last().push(es.last()) =~= es);
    }
}

/// Expanding an already-expanded program, with the same notation
/// declarations still available, is a no-op, whenever that first
/// output has no further matching node. The proviso is needed: a
/// notation whose expansion template itself uses an operator with a
/// declared notation produces output that rewrites again.
pub proof fn lemma_expansion_idempotent(es: Seq<SpecExpr>, ns: Seq<SpecNotation>)
    requires
        redex_free_list(spec_expand_list(es, ns), ns),
    ensures
        spec_expand_list(spec_expand_list(es, ns), ns) == spec_expand_list(es, ns),
{
    lemma_expand_list_fixed(spec_expand_list(es, ns), ns);
}

} // verus!
