//! The canonical textual rendering of syntax trees and runtime values:
//! a grammar-conformant text for every expression, meant to parse back
//! to a structurally equivalent tree (proved below for integer
//! literals), and a readable form for values.

use vstd::prelude::*;

use crate::grammar::{
    kw_as, kw_coloneq, kw_false, kw_fn, kw_from, kw_notation, kw_return, kw_true, kw_use,
    spec_array, spec_assignment, spec_bool, spec_expr, spec_ffi_decl, spec_float,
    spec_function_call, spec_function_def, spec_identifier, spec_infix_expr, spec_infix_rest,
    spec_int, spec_notation_decl, spec_primitive, spec_program, spec_return, spec_string,
    spec_term, spec_top_level, spec_top_levels,
};
use crate::lexical::{digits_end, digits_val, is_digit, is_ident_start, is_op_char, op_end, ws_end};
use crate::syntax::{
    view_expr, view_exprs, view_names, view_value, Associativity, Expr, NotationPattern,
    Primitive, SpecExpr, SpecNotationPattern, SpecPrimitive, SpecValue, Value,
};

verus! {

broadcast use {
    crate::syntax::lemma_view_exprs_len,
    crate::syntax::lemma_view_exprs_index,
    crate::syntax::lemma_view_names_len,
    crate::syntax::lemma_view_names_index,
    crate::syntax::lemma_view_values_len,
    crate::syntax::lemma_view_values_index,
};

pub open spec fn lit_lparen() -> Seq<u8> {
    seq![('(' as u8)]
}

fn push_lparen(out: &mut Vec<u8>)
    ensures
        final(out)@ == old(out)@ + lit_lparen(),
{
    let ghost prev = out@;
    out.push(('(' as u8));
    assert(out@ =~= prev + lit_lparen());
}

pub open spec fn lit_rparen() -> Seq<u8> {
    seq![(')' as u8)]
}

fn push_rparen(out: &mut Vec<u8>)
    ensures
        final(out)@ == old(out)@ + lit_rparen(),
{
    let ghost prev = out@;
    out.push((')' as u8));
    assert(out@ =~= prev + lit_rparen());
}

pub open spec fn lit_comma_sp() -> Seq<u8> {
    seq![(',' as u8), (' ' as u8)]
}

fn push_comma_sp(out: &mut Vec<u8>)
    ensures
        final(out)@ == old(out)@ + lit_comma_sp(),
{
    let ghost prev = out@;
    out.push((',' as u8));
    out.push((' ' as u8));
    assert(out@ =~= prev + lit_comma_sp());
}

pub open spec fn lit_body_open() -> Seq<u8> {
    seq![(')' as u8), (' ' as u8), ('{' as u8), (' ' as u8)]
}

fn push_body_open(out: &mut Vec<u8>)
    ensures
        final(out)@ == old(out)@ + lit_body_open(),
{
    let ghost prev = out@;
    out.push((')' as u8));
    out.push((' ' as u8));
    out.push(('{' as u8));
    out.push((' ' as u8));
    assert(out@ =~= prev + lit_body_open());
}

pub open spec fn lit_semi_sp() -> Seq<u8> {
    seq![(';' as u8), (' ' as u8)]
}

fn push_semi_sp(out: &mut Vec<u8>)
    ensures
        final(out)@ == old(out)@ + lit_semi_sp(),
{
    let ghost prev = out@;
    out.push((';' as u8));
    out.push((' ' as u8));
    assert(out@ =~= prev + lit_semi_sp());
}

pub open spec fn lit_rbrace() -> Seq<u8> {
    seq![('}' as u8)]
}

fn push_rbrace(out: &mut Vec<u8>)
    ensures
        final(out)@ == old(out)@ + lit_rbrace(),
{
    let ghost prev = out@;
    out.push(('}' as u8));
    assert(out@ =~= prev + lit_rbrace());
}

pub open spec fn lit_eq_sp() -> Seq<u8> {
    seq![(' ' as u8), ('=' as u8), (' ' as u8)]
}

fn push_eq_sp(out: &mut Vec<u8>)
    ensures
        final(out)@ == old(out)@ + lit_eq_sp(),
{
    let ghost prev = out@;
    out.push((' ' as u8));
    out.push(('=' as u8));
    out.push((' ' as u8));
    assert(out@ =~= prev + lit_eq_sp());
}

pub open spec fn lit_return_sp() -> Seq<u8> {
    seq![('r' as u8), ('e' as u8), ('t' as u8), ('u' as u8), ('r' as u8), ('n' as u8), (' ' as u8)]
}

fn push_return_sp(out: &mut Vec<u8>)
    ensures
        final(out)@ == old(out)@ + lit_return_sp(),
{
    let ghost prev = out@;
    out.push(('r' as u8));
    out.push(('e' as u8));
    out.push(('t' as u8));
    out.push(('u' as u8));
    out.push(('r' as u8));
    out.push(('n' as u8));
    out.push((' ' as u8));
    assert(out@ =~= prev + lit_return_sp());
}

pub open spec fn lit_space() -> Seq<u8> {
    seq![(' ' as u8)]
}

fn push_space(out: &mut Vec<u8>)
    ensures
        final(out)@ == old(out)@ + lit_space(),
{
    let ghost prev = out@;
    out.push((' ' as u8));
    assert(out@ =~= prev + lit_space());
}

pub open spec fn lit_from_sp() -> Seq<u8> {
    seq![('f' as u8), ('r' as u8), ('o' as u8), ('m' as u8), (' ' as u8)]
}

fn push_from_sp(out: &mut Vec<u8>)
    ensures
        final(out)@ == old(out)@ + lit_from_sp(),
{
    let ghost prev = out@;
    out.push(('f' as u8));
    out.push(('r' as u8));
    out.push(('o' as u8));
    out.push(('m' as u8));
    out.push((' ' as u8));
    assert(out@ =~= prev + lit_from_sp());
}

pub open spec fn lit_use_sp() -> Seq<u8> {
    seq![(' ' as u8), ('u' as u8), ('s' as u8), ('e' as u8), (' ' as u8)]
}

fn push_use_sp(out: &mut Vec<u8>)
    ensures
        final(out)@ == old(out)@ + lit_use_sp(),
{
    let ghost prev = out@;
    out.push((' ' as u8));
    out.push(('u' as u8));
    out.push(('s' as u8));
    out.push(('e' as u8));
    out.push((' ' as u8));
    assert(out@ =~= prev + lit_use_sp());
}

pub open spec fn lit_as_sp() -> Seq<u8> {
    seq![(' ' as u8), ('a' as u8), ('s' as u8), (' ' as u8)]
}

fn push_as_sp(out: &mut Vec<u8>)
    ensures
        final(out)@ == old(out)@ + lit_as_sp(),
{
    let ghost prev = out@;
    out.push((' ' as u8));
    out.push(('a' as u8));
    out.push(('s' as u8));
    out.push((' ' as u8));
    assert(out@ =~= prev + lit_as_sp());
}

pub open spec fn lit_notation_q() -> Seq<u8> {
    seq![('n' as u8), ('o' as u8), ('t' as u8), ('a' as u8), ('t' as u8), ('i' as u8), ('o' as u8), ('n' as u8), (' ' as u8), ('\"' as u8)]
}

fn push_notation_q(out: &mut Vec<u8>)
    ensures
        final(out)@ == old(out)@ + lit_notation_q(),
{
    let ghost prev = out@;
    out.push(('n' as u8));
    out.push(('o' as u8));
    out.push(('t' as u8));
    out.push(('a' as u8));
    out.push(('t' as u8));
    out.push(('i' as u8));
    out.push(('o' as u8));
    out.push(('n' as u8));
    out.push((' ' as u8));
    out.push(('\"' as u8));
    assert(out@ =~= prev + lit_notation_q());
}

pub open spec fn lit_quote() -> Seq<u8> {
    seq![('\"' as u8)]
}

fn push_quote(out: &mut Vec<u8>)
    ensures
        final(out)@ == old(out)@ + lit_quote(),
{
    let ghost prev = out@;
    out.push(('\"' as u8));
    assert(out@ =~= prev + lit_quote());
}

pub open spec fn lit_with_sp() -> Seq<u8> {
    seq![(' ' as u8), ('w' as u8), ('i' as u8), ('t' as u8), ('h' as u8), (' ' as u8)]
}

fn push_with_sp(out: &mut Vec<u8>)
    ensures
        final(out)@ == old(out)@ + lit_with_sp(),
{
    let ghost prev = out@;
    out.push((' ' as u8));
    out.push(('w' as u8));
    out.push(('i' as u8));
    out.push(('t' as u8));
    out.push(('h' as u8));
    out.push((' ' as u8));
    assert(out@ =~= prev + lit_with_sp());
}

pub open spec fn lit_precedence_sp() -> Seq<u8> {
    seq![(' ' as u8), ('p' as u8), ('r' as u8), ('e' as u8), ('c' as u8), ('e' as u8), ('d' as u8), ('e' as u8), ('n' as u8), ('c' as u8), ('e' as u8), (' ' as u8)]
}

fn push_precedence_sp(out: &mut Vec<u8>)
    ensures
        final(out)@ == old(out)@ + lit_precedence_sp(),
{
    let ghost prev = out@;
    out.push((' ' as u8));
    out.push(('p' as u8));
    out.push(('r' as u8));
    out.push(('e' as u8));
    out.push(('c' as u8));
    out.push(('e' as u8));
    out.push(('d' as u8));
    out.push(('e' as u8));
    out.push(('n' as u8));
    out.push(('c' as u8));
    out.push(('e' as u8));
    out.push((' ' as u8));
    assert(out@ =~= prev + lit_precedence_sp());
}

pub open spec fn lit_assoc_sp() -> Seq<u8> {
    seq![(' ' as u8), ('a' as u8), ('s' as u8), ('s' as u8), ('o' as u8), ('c' as u8), ('i' as u8), ('a' as u8), ('t' as u8), ('i' as u8), ('v' as u8), ('i' as u8), ('t' as u8), ('y' as u8), (' ' as u8)]
}

fn push_assoc_sp(out: &mut Vec<u8>)
    ensures
        final(out)@ == old(out)@ + lit_assoc_sp(),
{
    let ghost prev = out@;
    out.push((' ' as u8));
    out.push(('a' as u8));
    out.push(('s' as u8));
    out.push(('s' as u8));
    out.push(('o' as u8));
    out.push(('c' as u8));
    out.push(('i' as u8));
    out.push(('a' as u8));
    out.push(('t' as u8));
    out.push(('i' as u8));
    out.push(('v' as u8));
    out.push(('i' as u8));
    out.push(('t' as u8));
    out.push(('y' as u8));
    out.push((' ' as u8));
    assert(out@ =~= prev + lit_assoc_sp());
}

pub open spec fn lit_left() -> Seq<u8> {
    seq![('l' as u8), ('e' as u8), ('f' as u8), ('t' as u8)]
}

fn push_left(out: &mut Vec<u8>)
    ensures
        final(out)@ == old(out)@ + lit_left(),
{
    let ghost prev = out@;
    out.push(('l' as u8));
    out.push(('e' as u8));
    out.push(('f' as u8));
    out.push(('t' as u8));
    assert(out@ =~= prev + lit_left());
}

pub open spec fn lit_right() -> Seq<u8> {
    seq![('r' as u8), ('i' as u8), ('g' as u8), ('h' as u8), ('t' as u8)]
}

fn push_right(out: &mut Vec<u8>)
    ensures
        final(out)@ == old(out)@ + lit_right(),
{
    let ghost prev = out@;
    out.push(('r' as u8));
    out.push(('i' as u8));
    out.push(('g' as u8));
    out.push(('h' as u8));
    out.push(('t' as u8));
    assert(out@ =~= prev + lit_right());
}

pub open spec fn lit_none_kw() -> Seq<u8> {
    seq![('n' as u8), ('o' as u8), ('n' as u8), ('e' as u8)]
}

fn push_none_kw(out: &mut Vec<u8>)
    ensures
        final(out)@ == old(out)@ + lit_none_kw(),
{
    let ghost prev = out@;
    out.push(('n' as u8));
    out.push(('o' as u8));
    out.push(('n' as u8));
    out.push(('e' as u8));
    assert(out@ =~= prev + lit_none_kw());
}

pub open spec fn lit_coloneq_sp() -> Seq<u8> {
    seq![(' ' as u8), (':' as u8), ('=' as u8), (' ' as u8)]
}

fn push_coloneq_sp(out: &mut Vec<u8>)
    ensures
        final(out)@ == old(out)@ + lit_coloneq_sp(),
{
    let ghost prev = out@;
    out.push((' ' as u8));
    out.push((':' as u8));
    out.push(('=' as u8));
    out.push((' ' as u8));
    assert(out@ =~= prev + lit_coloneq_sp());
}

pub open spec fn lit_lbrack() -> Seq<u8> {
    seq![('[' as u8)]
}

fn push_lbrack(out: &mut Vec<u8>)
    ensures
        final(out)@ == old(out)@ + lit_lbrack(),
{
    let ghost prev = out@;
    out.push(('[' as u8));
    assert(out@ =~= prev + lit_lbrack());
}

pub open spec fn lit_rbrack() -> Seq<u8> {
    seq![(']' as u8)]
}

fn push_rbrack(out: &mut Vec<u8>)
    ensures
        final(out)@ == old(out)@ + lit_rbrack(),
{
    let ghost prev = out@;
    out.push((']' as u8));
    assert(out@ =~= prev + lit_rbrack());
}

pub open spec fn lit_true_kw() -> Seq<u8> {
    seq![('t' as u8), ('r' as u8), ('u' as u8), ('e' as u8)]
}

fn push_true_kw(out: &mut Vec<u8>)
    ensures
        final(out)@ == old(out)@ + lit_true_kw(),
{
    let ghost prev = out@;
    out.push(('t' as u8));
    out.push(('r' as u8));
    out.push(('u' as u8));
    out.push(('e' as u8));
    assert(out@ =~= prev + lit_true_kw());
}

pub open spec fn lit_false_kw() -> Seq<u8> {
    seq![('f' as u8), ('a' as u8), ('l' as u8), ('s' as u8), ('e' as u8)]
}

fn push_false_kw(out: &mut Vec<u8>)
    ensures
        final(out)@ == old(out)@ + lit_false_kw(),
{
    let ghost prev = out@;
    out.push(('f' as u8));
    out.push(('a' as u8));
    out.push(('l' as u8));
    out.push(('s' as u8));
    out.push(('e' as u8));
    assert(out@ =~= prev + lit_false_kw());
}

pub open spec fn lit_function_sp() -> Seq<u8> {
    seq![('f' as u8), ('u' as u8), ('n' as u8), ('c' as u8), ('t' as u8), ('i' as u8), ('o' as u8), ('n' as u8), (' ' as u8)]
}

fn push_function_sp(out: &mut Vec<u8>)
    ensures
        final(out)@ == old(out)@ + lit_function_sp(),
{
    let ghost prev = out@;
    out.push(('f' as u8));
    out.push(('u' as u8));
    out.push(('n' as u8));
    out.push(('c' as u8));
    out.push(('t' as u8));
    out.push(('i' as u8));
    out.push(('o' as u8));
    out.push(('n' as u8));
    out.push((' ' as u8));
    assert(out@ =~= prev + lit_function_sp());
}

pub open spec fn lit_partial_sp() -> Seq<u8> {
    seq![('p' as u8), ('a' as u8), ('r' as u8), ('t' as u8), ('i' as u8), ('a' as u8), ('l' as u8), (' ' as u8), ('a' as u8), ('p' as u8), ('p' as u8), ('l' as u8), ('i' as u8), ('c' as u8), ('a' as u8), ('t' as u8), ('i' as u8), ('o' as u8), ('n' as u8), (' ' as u8), ('o' as u8), ('f' as u8), (' ' as u8)]
}

fn push_partial_sp(out: &mut Vec<u8>)
    ensures
        final(out)@ == old(out)@ + lit_partial_sp(),
{
    let ghost prev = out@;
    out.push(('p' as u8));
    out.push(('a' as u8));
    out.push(('r' as u8));
    out.push(('t' as u8));
    out.push(('i' as u8));
    out.push(('a' as u8));
    out.push(('l' as u8));
    out.push((' ' as u8));
    out.push(('a' as u8));
    out.push(('p' as u8));
    out.push(('p' as u8));
    out.push(('l' as u8));
    out.push(('i' as u8));
    out.push(('c' as u8));
    out.push(('a' as u8));
    out.push(('t' as u8));
    out.push(('i' as u8));
    out.push(('o' as u8));
    out.push(('n' as u8));
    out.push((' ' as u8));
    out.push(('o' as u8));
    out.push(('f' as u8));
    out.push((' ' as u8));
    assert(out@ =~= prev + lit_partial_sp());
}

pub open spec fn lit_args_sp() -> Seq<u8> {
    seq![(' ' as u8), ('a' as u8), ('r' as u8), ('g' as u8), ('s' as u8)]
}

fn push_args_sp(out: &mut Vec<u8>)
    ensures
        final(out)@ == old(out)@ + lit_args_sp(),
{
    let ghost prev = out@;
    out.push((' ' as u8));
    out.push(('a' as u8));
    out.push(('r' as u8));
    out.push(('g' as u8));
    out.push(('s' as u8));
    assert(out@ =~= prev + lit_args_sp());
}

/// Decimal digits of a non-negative number, most significant first.
pub open spec fn dec_of(n: int) -> Seq<u8>
    decreases n,
    when n >= 0
{
    if n < 10 {
        seq![(48 + n) as u8]
    } else {
        dec_of(n / 10).push((48 + (n % 10)) as u8)
    }
}

/// Rendering of a signed integer.
pub open spec fn spec_render_int(i: int) -> Seq<u8> {
    if i < 0 {
        seq![('-' as u8)] + dec_of(-i)
    } else {
        dec_of(i)
    }
}

/// Rendering of one string byte, escaping what the grammar escapes.
pub open spec fn escape_byte(c: u8) -> Seq<u8> {
    if c == ('"' as u8) {
        seq![('\\' as u8), ('"' as u8)]
    } else if c == ('\\' as u8) {
        seq![('\\' as u8), ('\\' as u8)]
    } else if c == ('\n' as u8) {
        seq![('\\' as u8), ('n' as u8)]
    } else if c == ('\r' as u8) {
        seq![('\\' as u8), ('r' as u8)]
    } else if c == ('\t' as u8) {
        seq![('\\' as u8), ('t' as u8)]
    } else {
        seq![c]
    }
}

/// Rendering of string contents, escaped.
pub open spec fn escaped(v: Seq<u8>) -> Seq<u8>
    decreases v.len(),
{
    if v.len() == 0 {
        Seq::empty()
    } else {
        escaped(v.drop_last()) + escape_byte(v.last())
    }
}

/// A comma-separated name list.
pub open spec fn spec_render_names(ns: Seq<Seq<u8>>) -> Seq<u8>
    decreases ns.len(),
{
    if ns.len() == 0 {
        Seq::empty()
    } else if ns.len() == 1 {
        ns[0]
    } else {
        spec_render_names(ns.drop_last()) + lit_comma_sp() + ns.last()
    }
}

/// A comma-separated expression list.
pub open spec fn spec_render_args(es: Seq<SpecExpr>) -> Seq<u8>
    decreases es,
{
    if es.len() == 0 {
        Seq::empty()
    } else if es.len() == 1 {
        spec_render(es[0])
    } else {
        spec_render_args(es.drop_last()) + lit_comma_sp() + spec_render(es.last())
    }
}

/// A body sequence: every expression followed by `; `.
pub open spec fn spec_render_body(es: Seq<SpecExpr>) -> Seq<u8>
    decreases es,
{
    if es.len() == 0 {
        Seq::empty()
    } else {
        spec_render_body(es.drop_last()) + spec_render(es.last()) + lit_semi_sp()
    }
}

/// Rendering of a primitive literal.
pub open spec fn spec_render_primitive(p: SpecPrimitive) -> Seq<u8>
    decreases p,
{
    match p {
        SpecPrimitive::Int(i) => spec_render_int(i),
        SpecPrimitive::Float(t) => t,
        SpecPrimitive::Str(v) => lit_quote() + escaped(v) + lit_quote(),
        SpecPrimitive::Bool(b) => if b {
            lit_true_kw()
        } else {
            lit_false_kw()
        },
        SpecPrimitive::Array(es) => lit_lbrack() + spec_render_args(es) + lit_rbrack(),
    }
}

/// Rendering of a notation pattern's optional clauses.
pub open spec fn spec_render_pattern(p: SpecNotationPattern) -> Seq<u8> {
    lit_notation_q() + p.pattern + lit_quote() + (if p.variables.len() > 0 {
        lit_with_sp() + spec_render_names(p.variables)
    } else {
        Seq::empty()
    }) + (match p.precedence {
        Option::Some(v) => lit_precedence_sp() + spec_render_int(v),
        Option::None => Seq::empty(),
    }) + (match p.associativity {
        Associativity::Left => lit_assoc_sp() + lit_left(),
        Associativity::Right => lit_assoc_sp() + lit_right(),
        Associativity::NonAssoc => Seq::empty(),
    })
}

/// The canonical textual rendering of an expression, in the shape the
/// grammar accepts.
pub open spec fn spec_render(e: SpecExpr) -> Seq<u8>
    decreases e,
{
    match e {
        SpecExpr::Primitive(p) => spec_render_primitive(p),
        SpecExpr::Variable(n) => n,
        SpecExpr::FunctionDef(name, params, body) => name + lit_lparen() + spec_render_names(
            params,
        ) + lit_body_open() + spec_render_body(body) + lit_rbrace(),
        SpecExpr::FunctionCall(f, args) => spec_render(*f) + lit_lparen() + spec_render_args(args)
            + lit_rparen(),
        SpecExpr::Return(x) => lit_return_sp() + spec_render(*x),
        SpecExpr::Assignment(n, x) => n + lit_eq_sp() + spec_render(*x),
        SpecExpr::FFIDecl(m, n, a) => lit_from_sp() + m + lit_use_sp() + n + (match a {
            Option::Some(al) => lit_as_sp() + al,
            Option::None => Seq::empty(),
        }),
        SpecExpr::InfixOp(l, op, r) => lit_lparen() + spec_render(*l) + lit_space() + op
            + lit_space() + spec_render(*r) + lit_rparen(),
        SpecExpr::NotationDecl(p, x) => spec_render_pattern(p) + lit_coloneq_sp() + spec_render(
            *x,
        ),
    }
}

/// A whole program: its top-level expressions separated by a space.
pub open spec fn spec_render_program(es: Seq<SpecExpr>) -> Seq<u8>
    decreases es,
{
    if es.len() == 0 {
        Seq::empty()
    } else if es.len() == 1 {
        spec_render(es[0])
    } else {
        spec_render_program(es.drop_last()) + lit_space() + spec_render(es.last())
    }
}

/// A readable rendering of a runtime value.
pub open spec fn spec_render_value(v: SpecValue) -> Seq<u8>
    decreases v,
{
    match v {
        SpecValue::Primitive(p) => spec_render_primitive(p),
        SpecValue::Function(name, params, body, env) => lit_function_sp() + name + lit_lparen()
            + spec_render_names(params) + lit_body_open() + spec_render_body(body) + lit_rbrace(),
        SpecValue::Ffi(n) => n,
        SpecValue::PartialApplication(f, args) => lit_partial_sp() + spec_render_value(*f)
            + lit_with_sp() + dec_of(args.len() as int) + lit_args_sp(),
    }
}

} // verus!

// Executable rendering.

verus! {

/// Appends the bytes of `src`.
fn append_bytes(out: &mut Vec<u8>, src: &Vec<u8>)
    ensures
        final(out)@ == old(out)@ + src@,
{
    let ghost prev = out@;
    let mut i: usize = 0;
    while i < src.len()
        invariant
            0 <= i <= src@.len(),
            out@ =~= prev + src@.subrange(0, i as int),
        decreases src@.len() - i,
    {
        out.push(src[i]);
        assert(out@ =~= prev + src@.subrange(0, i + 1));
        i += 1;
    }
    assert(out@ =~= prev + src@);
}

/// Appends the decimal digits of `n`.
fn push_dec(out: &mut Vec<u8>, n: u64)
    ensures
        final(out)@ == old(out)@ + dec_of(n as int),
    decreases n,
{
    let ghost prev = out@;
    if n < 10 {
        out.push(48 + (n as u8));
        assert(out@ =~= prev + dec_of(n as int));
    } else {
        push_dec(out, n / 10);
        out.push(48 + ((n % 10) as u8));
        assert(out@ =~= prev + dec_of(n as int));
    }
}

/// Appends a signed integer.
fn push_int(out: &mut Vec<u8>, i: i64)
    ensures
        final(out)@ == old(out)@ + spec_render_int(i as int),
{
    let ghost prev = out@;
    if i < 0 {
        out.push('-' as u8);
        let m: u64 = if i == i64::MIN {
            9223372036854775808u64
        } else {
            (-i) as u64
        };
        assert(m as int == -(i as int));
        push_dec(out, m);
        assert(out@ =~= prev + spec_render_int(i as int));
    } else {
        push_dec(out, i as u64);
    }
}

/// Appends the escaped contents of a string literal.
fn push_escaped(out: &mut Vec<u8>, v: &Vec<u8>)
    ensures
        final(out)@ == old(out)@ + escaped(v@),
{
    let ghost prev = out@;
    assert(prev + escaped(v@.subrange(0, 0)) =~= prev);
    let mut i: usize = 0;
    while i < v.len()
        invariant
            0 <= i <= v@.len(),
            out@ == prev + escaped(v@.subrange(0, i as int)),
        decreases v@.len() - i,
    {
        let ghost sofar = escaped(v@.subrange(0, i as int));
        let c = v[i];
        if c == ('"' as u8) || c == ('\\' as u8) {
            out.push('\\' as u8);
            out.push(c);
        } else if c == ('\n' as u8) {
            out.push('\\' as u8);
            out.push('n' as u8);
        } else if c == ('\r' as u8) {
            out.push('\\' as u8);
            out.push('r' as u8);
        } else if c == ('\t' as u8) {
            out.push('\\' as u8);
            out.push('t' as u8);
        } else {
            out.push(c);
        }
        proof {
            assert(v@.subrange(0, i + 1).drop_last() =~= v@.subrange(0, i as int));
            assert(v@.subrange(0, i + 1).last() == v@[i as int]);
            assert(out@ =~= prev + (sofar + escape_byte(v@[i as int])));
        }
        i += 1;
    }
    assert(v@.subrange(0, v@.len() as int) =~= v@);
}

/// Appends a comma-separated name list.
fn push_names(out: &mut Vec<u8>, ns: &Vec<Vec<u8>>)
    ensures
        final(out)@ == old(out)@ + spec_render_names(view_names(ns@)),
{
    let ghost prev = out@;
    let ghost full = view_names(ns@);
    let mut i: usize = 0;
    while i < ns.len()
        invariant
            0 <= i <= ns@.len(),
            full == view_names(ns@),
            out@ == prev + spec_render_names(full.subrange(0, i as int)),
        decreases ns@.len() - i,
    {
        let ghost sofar = spec_render_names(full.subrange(0, i as int));
        if i > 0 {
            push_comma_sp(out);
        }
        append_bytes(out, &ns[i]);
        proof {
            assert(full.subrange(0, i + 1).drop_last() =~= full.subrange(0, i as int));
            assert(full.subrange(0, i + 1).last() == ns@[i as int]@);
            if i == 0 {
                assert(out@ =~= prev + spec_render_names(full.subrange(0, 1)));
            } else {
                assert(out@ =~= prev + (sofar + lit_comma_sp() + ns@[i as int]@));
            }
        }
        i += 1;
    }
    assert(full.subrange(0, full.len() as int) =~= full);
    assert(out@ =~= prev + spec_render_names(full));
}

/// Appends a comma-separated expression list.
fn push_args(out: &mut Vec<u8>, es: &Vec<Expr>)
    ensures
        final(out)@ == old(out)@ + spec_render_args(view_exprs(es@)),
    decreases *es,
{
    let ghost prev = out@;
    let ghost full = view_exprs(es@);
    let mut i: usize = 0;
    while i < es.len()
        invariant
            0 <= i <= es@.len(),
            full == view_exprs(es@),
            out@ == prev + spec_render_args(full.subrange(0, i as int)),
        decreases es@.len() - i,
    {
        let ghost sofar = spec_render_args(full.subrange(0, i as int));
        if i > 0 {
            push_comma_sp(out);
        }
        render_into(&es[i], out);
        proof {
            assert(full.subrange(0, i + 1).drop_last() =~= full.subrange(0, i as int));
            assert(full.subrange(0, i + 1).last() == view_expr(es@[i as int]));
            if i == 0 {
                assert(out@ =~= prev + spec_render_args(full.subrange(0, 1)));
            } else {
                assert(out@ =~= prev + (sofar + lit_comma_sp() + spec_render(
                    view_expr(es@[i as int]),
                )));
            }
        }
        i += 1;
    }
    assert(full.subrange(0, full.len() as int) =~= full);
    assert(out@ =~= prev + spec_render_args(full));
}

/// Appends a body sequence, every expression followed by `; `.
fn push_body(out: &mut Vec<u8>, es: &Vec<Expr>)
    ensures
        final(out)@ == old(out)@ + spec_render_body(view_exprs(es@)),
    decreases *es,
{
    let ghost prev = out@;
    let ghost full = view_exprs(es@);
    assert(prev + spec_render_body(full.subrange(0, 0)) =~= prev);
    let mut i: usize = 0;
    while i < es.len()
        invariant
            0 <= i <= es@.len(),
            full == view_exprs(es@),
            out@ == prev + spec_render_body(full.subrange(0, i as int)),
        decreases es@.len() - i,
    {
        let ghost sofar = spec_render_body(full.subrange(0, i as int));
        render_into(&es[i], out);
        push_semi_sp(out);
        proof {
            assert(full.subrange(0, i + 1).drop_last() =~= full.subrange(0, i as int));
            assert(full.subrange(0, i + 1).last() == view_expr(es@[i as int]));
            assert(out@ =~= prev + (sofar + spec_render(view_expr(es@[i as int]))
                + lit_semi_sp()));
        }
        i += 1;
    }
    assert(full.subrange(0, full.len() as int) =~= full);
}

/// Appends the rendering of a primitive literal.
fn render_primitive_into(p: &Primitive, out: &mut Vec<u8>)
    ensures
        final(out)@ == old(out)@ + spec_render_primitive(p@),
    decreases *p,
{
    let ghost prev = out@;
    match p {
        Primitive::Int(i) => {
            push_int(out, *i);
        },
        Primitive::Float(t) => {
            append_bytes(out, t);
        },
        Primitive::Str(v) => {
            push_quote(out);
            push_escaped(out, v);
            push_quote(out);
            assert(out@ =~= prev + (lit_quote() + escaped(v@) + lit_quote()));
        },
        Primitive::Bool(b) => {
            if *b {
                push_true_kw(out);
            } else {
                push_false_kw(out);
            }
        },
        Primitive::Array(es) => {
            push_lbrack(out);
            push_args(out, es);
            push_rbrack(out);
            assert(out@ =~= prev + (lit_lbrack() + spec_render_args(view_exprs(es@))
                + lit_rbrack()));
        },
    }
}

/// Appends the rendering of a notation pattern.
#[verifier::rlimit(30)]
fn render_pattern_into(p: &NotationPattern, out: &mut Vec<u8>)
    ensures
        final(out)@ == old(out)@ + spec_render_pattern(p@),
{
    let ghost prev = out@;
    push_notation_q(out);
    append_bytes(out, &p.pattern);
    push_quote(out);
    if p.variables.len() > 0 {
        push_with_sp(out);
        push_names(out, &p.variables);
    }
    match &p.precedence {
        Option::Some(v) => {
            push_precedence_sp(out);
            push_int(out, *v);
        },
        Option::None => {},
    }
    match p.associativity {
        Associativity::Left => {
            push_assoc_sp(out);
            push_left(out);
        },
        Associativity::Right => {
            push_assoc_sp(out);
            push_right(out);
        },
        Associativity::NonAssoc => {},
    }
    assert(out@ =~= prev + spec_render_pattern(p@));
}

/// Appends the rendering of an expression.
fn render_into(e: &Expr, out: &mut Vec<u8>)
    ensures
        final(out)@ == old(out)@ + spec_render(e@),
    decreases *e,
{
    let ghost prev = out@;
    match e {
        Expr::Primitive(p) => {
            render_primitive_into(p, out);
        },
        Expr::Variable(n) => {
            append_bytes(out, n);
        },
        Expr::FunctionDef(name, params, body) => {
            append_bytes(out, name);
            push_lparen(out);
            push_names(out, params);
            push_body_open(out);
            push_body(out, body);
            push_rbrace(out);
            assert(out@ =~= prev + (name@ + lit_lparen() + spec_render_names(view_names(params@))
                + lit_body_open() + spec_render_body(view_exprs(body@)) + lit_rbrace()));
        },
        Expr::FunctionCall(f, args) => {
            render_into(f, out);
            push_lparen(out);
            push_args(out, args);
            push_rparen(out);
            assert(out@ =~= prev + (spec_render(view_expr(**f)) + lit_lparen()
                + spec_render_args(view_exprs(args@)) + lit_rparen()));
        },
        Expr::Return(x) => {
            push_return_sp(out);
            render_into(x, out);
            assert(out@ =~= prev + (lit_return_sp() + spec_render(view_expr(**x))));
        },
        Expr::Assignment(n, x) => {
            append_bytes(out, n);
            push_eq_sp(out);
            render_into(x, out);
            assert(out@ =~= prev + (n@ + lit_eq_sp() + spec_render(view_expr(**x))));
        },
        Expr::FFIDecl(m, n, a) => {
            push_from_sp(out);
            append_bytes(out, m);
            push_use_sp(out);
            append_bytes(out, n);
            match a {
                Option::Some(al) => {
                    push_as_sp(out);
                    append_bytes(out, al);
                    assert(out@ =~= prev + (lit_from_sp() + m@ + lit_use_sp() + n@ + (lit_as_sp()
                        + al@)));
                },
                Option::None => {
                    assert(out@ =~= prev + (lit_from_sp() + m@ + lit_use_sp() + n@
                        + Seq::<u8>::empty()));
                },
            }
        },
        Expr::InfixOp(l, op, r) => {
            push_lparen(out);
            render_into(l, out);
            push_space(out);
            append_bytes(out, op);
            push_space(out);
            render_into(r, out);
            push_rparen(out);
            assert(out@ =~= prev + (lit_lparen() + spec_render(view_expr(**l)) + lit_space()
                + op@ + lit_space() + spec_render(view_expr(**r)) + lit_rparen()));
        },
        Expr::NotationDecl(p, x) => {
            render_pattern_into(p, out);
            push_coloneq_sp(out);
            render_into(x, out);
            assert(out@ =~= prev + (spec_render_pattern(p@) + lit_coloneq_sp() + spec_render(
                view_expr(**x),
            )));
        },
    }
}

/// The canonical textual rendering of an expression.
pub fn render_expr(e: &Expr) -> (r: Vec<u8>)
    ensures
        r@ == spec_render(e@),
{
    let mut out: Vec<u8> = Vec::new();
    render_into(e, &mut out);
    proof {
        assert(out@ =~= spec_render(e@));
    }
    out
}

/// The canonical textual rendering of a program: its top-level
/// expressions separated by a space.
pub fn render_program(es: &Vec<Expr>) -> (r: Vec<u8>)
    ensures
        r@ == spec_render_program(view_exprs(es@)),
{
    let ghost full = view_exprs(es@);
    let mut out: Vec<u8> = Vec::new();
    assert(out@ =~= Seq::<u8>::empty() + spec_render_program(full.subrange(0, 0)));
    let mut i: usize = 0;
    while i < es.len()
        invariant
            0 <= i <= es@.len(),
            full == view_exprs(es@),
            out@ == spec_render_program(full.subrange(0, i as int)),
        decreases es@.len() - i,
    {
        let ghost sofar = spec_render_program(full.subrange(0, i as int));
        if i > 0 {
            push_space(&mut out);
        }
        render_into(&es[i], &mut out);
        proof {
            assert(full.subrange(0, i + 1).drop_last() =~= full.subrange(0, i as int));
            assert(full.subrange(0, i + 1).last() == view_expr(es@[i as int]));
            if i == 0 {
                assert(out@ =~= spec_render_program(full.subrange(0, 1)));
            } else {
                assert(out@ =~= sofar + lit_space() + spec_render(view_expr(es@[i as int])));
            }
        }
        i += 1;
    }
    assert(full.subrange(0, full.len() as int) =~= full);
    out
}

/// A readable rendering of a runtime value.
pub fn render_value(v: &Value) -> (r: Vec<u8>)
    ensures
        r@ == spec_render_value(v@),
{
    let mut out: Vec<u8> = Vec::new();
    render_value_into(v, &mut out);
    proof {
        assert(out@ =~= spec_render_value(v@));
    }
    out
}

fn render_value_into(v: &Value, out: &mut Vec<u8>)
    ensures
        final(out)@ == old(out)@ + spec_render_value(v@),
    decreases *v,
{
    let ghost prev = out@;
    match v {
        Value::Primitive(p) => {
            assert(v@ == SpecValue::Primitive(p@));
            render_primitive_into(p, out);
            assert(out@ =~= prev + spec_render_value(v@));
        },
        Value::Function(name, params, body, env) => {
            push_function_sp(out);
            append_bytes(out, name);
            push_lparen(out);
            push_names(out, params);
            push_body_open(out);
            push_body(out, body);
            push_rbrace(out);
            proof {
                assert(v@ == SpecValue::Function(
                    name@,
                    view_names(params@),
                    view_exprs(body@),
                    crate::syntax::view_env_entries(env.entries@),
                ));
                assert(out@ =~= prev + (lit_function_sp() + name@ + lit_lparen()
                    + spec_render_names(view_names(params@)) + lit_body_open()
                    + spec_render_body(view_exprs(body@)) + lit_rbrace()));
                assert(out@ =~= prev + spec_render_value(v@));
            }
        },
        Value::Ffi(n) => {
            append_bytes(out, n);
            assert(v@ == SpecValue::Ffi(n@));
            assert(out@ =~= prev + spec_render_value(v@));
        },
        Value::PartialApplication(f, args) => {
            push_partial_sp(out);
            render_value_into(f, out);
            push_with_sp(out);
            push_dec(out, args.len() as u64);
            push_args_sp(out);
            proof {
                assert(v@ == SpecValue::PartialApplication(
                    Box::new(view_value(**f)),
                    crate::syntax::view_values(args@),
                ));
                assert(out@ =~= prev + (lit_partial_sp() + spec_render_value(view_value(**f))
                    + lit_with_sp() + dec_of(args@.len() as int) + lit_args_sp()));
                assert(out@ =~= prev + spec_render_value(v@));
            }
        },
    }
}

} // verus!

// The round trip for integer literals: parsing the canonical rendering
// of an integer expression recovers exactly that expression.

verus! {

proof fn lemma_dec_of_shape(n: int)
    requires
        n >= 0,
    ensures
        dec_of(n).len() >= 1,
        forall|k: int| 0 <= k < dec_of(n).len() ==> is_digit(#[trigger] dec_of(n)[k]),
    decreases n,
{
    if n >= 10 {
        lemma_dec_of_shape(n / 10);
    }
}

proof fn lemma_digits_val_congruent(s1: Seq<u8>, s2: Seq<u8>, i: int, j: int)
    requires
        0 <= i <= j <= s1.len(),
        j <= s2.len(),
        forall|k: int| i <= k < j ==> s1[k] == s2[k],
    ensures
        digits_val(s1, i, j) == digits_val(s2, i, j),
    decreases j - i,
{
    if i < j {
        lemma_digits_val_congruent(s1, s2, i, j - 1);
    }
}

proof fn lemma_digits_val_of_dec(n: int)
    requires
        n >= 0,
    ensures
        digits_val(dec_of(n), 0, dec_of(n).len() as int) == n,
    decreases n,
{
    lemma_dec_of_shape(n);
    if n < 10 {
        assert(digits_val(dec_of(n), 0, 1) == digits_val(dec_of(n), 0, 0) * 10 + (dec_of(n)[0]
            - 48));
    } else {
        let s = dec_of(n);
        let t = dec_of(n / 10);
        lemma_digits_val_of_dec(n / 10);
        lemma_dec_of_shape(n / 10);
        assert(s == t.push((48 + (n % 10)) as u8));
        assert(s.len() == t.len() + 1);
        assert(digits_val(s, 0, s.len() as int) == digits_val(s, 0, s.len() - 1) * 10 + (s[s.len()
            - 1] - 48));
        lemma_digits_val_congruent(s, t, 0, t.len() as int);
    }
}

proof fn lemma_digits_val_shift(s: Seq<u8>, i: int, j: int)
    requires
        0 <= i <= j <= s.len(),
    ensures
        digits_val(s, i, j) == digits_val(s.subrange(i, j), 0, j - i),
    decreases j - i,
{
    if i < j {
        lemma_digits_val_shift(s, i, j - 1);
        lemma_digits_val_congruent(s.subrange(i, j - 1), s.subrange(i, j), 0, j - 1 - i);
        assert(s.subrange(i, j)[j - i - 1] == s[j - 1]);
    }
}

proof fn lemma_digits_end_all(s: Seq<u8>, i: int)
    requires
        0 <= i <= s.len(),
        forall|k: int| i <= k < s.len() ==> is_digit(#[trigger] s[k]),
    ensures
        digits_end(s, i) == s.len(),
    decreases s.len() - i,
{
    if i < s.len() {
        lemma_digits_end_all(s, i + 1);
    }
}

} // verus!

// The walk through the grammar for a bare number: every alternative
// before the integer fails on the first byte, the integer consumes the
// whole input, and nothing can follow it.

verus! {

/// At the very end of the input no top-level expression can begin.
proof fn lemma_end_of_input(s: Seq<u8>)
    ensures
        spec_top_level(s, s.len() as int) is None,
{
    let n = s.len() as int;
    assert(ws_end(s, n) == n);
    assert(spec_identifier(s, n) is None);
    assert(spec_float(s, n) is None);
    assert(spec_int(s, n) is None);
    assert(spec_string(s, n) is None);
    assert(spec_bool(s, n) is None);
    assert(spec_array(s, n) is None);
    assert(spec_primitive(s, n) is None);
    assert(spec_function_call(s, n) is None);
    assert(spec_term(s, n) is None);
    assert(spec_infix_expr(s, n) is None);
    assert(spec_function_def(s, n) is None);
    assert(spec_assignment(s, n) is None);
    assert(spec_return(s, n) is None);
    assert(spec_expr(s, n) is None);
    assert(spec_ffi_decl(s, n) is None);
    assert(spec_notation_decl(s, n) is None);
}

/// A sequence whose bytes are digits, with at most a leading minus
/// sign before them.
spec fn number_shaped(s: Seq<u8>) -> bool {
    &&& s.len() >= 1
    &&& (is_digit(s[0]) || (s[0] == ('-' as u8) && s.len() >= 2))
    &&& forall|k: int| 1 <= k < s.len() ==> is_digit(#[trigger] s[k])
}

proof fn lemma_number_parse(s: Seq<u8>, v: int)
    requires
        number_shaped(s),
        spec_int(s, 0) == Option::Some(((s.len() as int, v))),
    ensures
        spec_program(s) == Option::Some(seq![SpecExpr::Primitive(SpecPrimitive::Int(v))]),
{
    let n = s.len() as int;
    let e = SpecExpr::Primitive(SpecPrimitive::Int(v));
    // no byte of a number opens whitespace, a comment, an identifier,
    // a keyword, a quote or a bracket
    assert(ws_end(s, 0) == 0);
    assert(ws_end(s, n) == n);
    // the float alternative fails: all digits run to the end, and no
    // dot can follow
    let d0: int = if s[0] == ('-' as u8) {
        1
    } else {
        0
    };
    lemma_digits_end_all(s, d0);
    assert(spec_float(s, 0) is None);
    assert(spec_identifier(s, 0) is None);
    // the term is exactly the integer
    assert(spec_primitive(s, 0) == Option::Some(((n, e))));
    assert(spec_term(s, 0) == Option::Some(((n, e))));
    // nothing follows: no operator, no further term
    assert(op_end(s, n) == n);
    assert(spec_infix_rest(s, n, e) == ((n, e)));
    assert(spec_infix_expr(s, 0) == Option::Some(((n, e))));
    // the statement alternatives before the infix expression fail
    assert(!kw_fn(s, 0) && !kw_return(s, 0) && !kw_from(s, 0) && !kw_notation(s, 0));
    assert(spec_function_def(s, 0) is None);
    assert(spec_assignment(s, 0) is None);
    assert(spec_return(s, 0) is None);
    assert(spec_expr(s, 0) == Option::Some(((n, e))));
    assert(spec_ffi_decl(s, 0) is None);
    assert(spec_notation_decl(s, 0) is None);
    assert(spec_top_level(s, 0) == Option::Some(((n, e))));
    // at the end of the input every production fails
    lemma_end_of_input(s);
    reveal_with_fuel(spec_top_levels, 3);
    assert(spec_top_levels(s, 0, Seq::empty()) == Option::Some(((n, seq![e]))));
    assert(spec_program(s) == Option::Some(seq![e]));
}

/// The re-parsing round trip, proved for every integer literal: the
/// canonical rendering of an integer expression parses back to exactly
/// that expression.
pub proof fn lemma_int_literal_round_trip(i: int)
    requires
        i64::MIN <= i <= i64::MAX,
    ensures
        spec_program(spec_render(SpecExpr::Primitive(SpecPrimitive::Int(i))))
            == Option::Some(seq![SpecExpr::Primitive(SpecPrimitive::Int(i))]),
{
    reveal_with_fuel(spec_render, 2);
    reveal_with_fuel(spec_render_primitive, 2);
    let s = spec_render(SpecExpr::Primitive(SpecPrimitive::Int(i)));
    assert(s == spec_render_int(i));
    if i >= 0 {
        assert(s == dec_of(i));
        lemma_dec_of_shape(i);
        lemma_digits_val_of_dec(i);
        lemma_digits_end_all(s, 0);
        assert(spec_int(s, 0) == Option::Some(((s.len() as int, i))));
        lemma_number_parse(s, i);
    } else {
        let t = dec_of(-i);
        lemma_dec_of_shape(-i);
        assert(s == seq![('-' as u8)] + t);
        assert(s[0] == ('-' as u8));
        assert(forall|k: int| 1 <= k < s.len() ==> s[k] == t[k - 1] && is_digit(#[trigger] s[k]));
        lemma_digits_end_all(s, 1);
        lemma_digits_val_shift(s, 1, s.len() as int);
        assert(s.subrange(1, s.len() as int) =~= t);
        lemma_digits_val_of_dec(-i);
        assert(digits_val(s, 1, s.len() as int) == -i);
        assert(spec_int(s, 0) == Option::Some(((s.len() as int, i))));
        lemma_number_parse(s, i);
    }
}

} // verus!

// The round trip for boolean literals.

verus! {

/// The re-parsing round trip for boolean literals: the canonical
/// rendering of a boolean expression parses back to exactly that
/// expression.
#[verifier::rlimit(100)]
pub proof fn lemma_bool_literal_round_trip(b: bool)
    ensures
        spec_program(spec_render(SpecExpr::Primitive(SpecPrimitive::Bool(b))))
            == Option::Some(seq![SpecExpr::Primitive(SpecPrimitive::Bool(b))]),
{
    reveal_with_fuel(spec_render, 2);
    reveal_with_fuel(spec_render_primitive, 2);
    reveal_with_fuel(crate::lexical::ident_end, 7);
    let s = spec_render(SpecExpr::Primitive(SpecPrimitive::Bool(b)));
    let n = s.len() as int;
    let e = SpecExpr::Primitive(SpecPrimitive::Bool(b));
    assert(s == if b {
        lit_true_kw()
    } else {
        lit_false_kw()
    });
    assert(ws_end(s, 0) == 0);
    assert(ws_end(s, n) == n);
    // the whole literal is one identifier run, so the statement forms
    // that begin with an identifier stop right at the end of the input
    assert(crate::lexical::ident_end(s, 0) == n);
    assert(spec_identifier(s, 0) == Option::Some((n, s.subrange(0, n))));
    assert(!kw_fn(s, 0) && !kw_return(s, 0) && !kw_from(s, 0) && !kw_notation(s, 0));
    assert(spec_function_def(s, 0) is None);
    assert(spec_assignment(s, 0) is None);
    assert(spec_return(s, 0) is None);
    // the term is the boolean literal
    assert(spec_float(s, 0) is None);
    assert(spec_int(s, 0) is None);
    assert(spec_string(s, 0) is None);
    assert(spec_bool(s, 0) == Option::Some(((n, b))));
    assert(spec_primitive(s, 0) == Option::Some(((n, e))));
    assert(spec_term(s, 0) == Option::Some(((n, e))));
    assert(op_end(s, n) == n);
    assert(spec_infix_rest(s, n, e) == ((n, e)));
    assert(spec_infix_expr(s, 0) == Option::Some(((n, e))));
    assert(spec_expr(s, 0) == Option::Some(((n, e))));
    assert(spec_ffi_decl(s, 0) is None);
    assert(spec_notation_decl(s, 0) is None);
    assert(spec_top_level(s, 0) == Option::Some(((n, e))));
    lemma_end_of_input(s);
    reveal_with_fuel(spec_top_levels, 3);
    assert(spec_top_levels(s, 0, Seq::empty()) == Option::Some(((n, seq![e]))));
    assert(spec_program(s) == Option::Some(seq![e]));
}

} // verus!
