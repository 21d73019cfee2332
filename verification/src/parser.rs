//! The executable parser: recursive descent over the input bytes,
//! proven to return exactly what the grammar of `crate::grammar`
//! prescribes. A failed parse carries the furthest failure position and
//! the chain of grammar context labels around it, innermost first.

use vstd::prelude::*;

use crate::grammar::{
    kw_as, kw_associativity, kw_coloneq, kw_false, kw_fn, kw_from, kw_left, kw_none, kw_notation,
    kw_precedence, kw_return, kw_right, kw_true, kw_use, kw_with, spec_array, spec_assignment,
    spec_bool, spec_body_exprs, spec_expr, spec_expr_list, spec_expr_list_rest, spec_ffi_decl,
    spec_float, spec_float_exp, spec_function_call, spec_function_def, spec_identifier,
    spec_infix_expr, spec_infix_rest, spec_int, spec_notation_decl, spec_notation_pattern,
    spec_param_list, spec_param_list_rest, spec_primitive, spec_program, spec_return, spec_string,
    spec_string_body, spec_term, spec_top_level, spec_top_levels,
};
use crate::lexical::{
    copy_range, digits_end, digits_val, find_byte_at, ident_end, is_digit, is_digit_b,
    is_ident_char, is_ident_start_b, is_op_char, lemma_digits_end_range, lemma_digits_val_mono,
    op_end, scan_digits, scan_ident, scan_op, skip_ws, ws_end,
};
use crate::syntax::{
    Associativity, Expr, NotationPattern, Primitive, SpecExpr, SpecNotationPattern, SpecPrimitive,
    view_expr, view_exprs, view_names, view_primitive,
};

verus! {


broadcast use {
    crate::lexical::lemma_digits_end_bounds,
    crate::lexical::lemma_ident_end_bounds,
    crate::lexical::lemma_op_end_bounds,
    crate::lexical::lemma_ws_end_bounds,
    crate::lexical::lemma_find_byte_bounds,
    crate::lexical::lemma_find_close_bounds,
    crate::lexical::lemma_digits_val_nonneg,
    crate::grammar::lemma_string_body_bounds,
    crate::syntax::lemma_view_names_len,
    crate::syntax::lemma_view_names_index,
    crate::syntax::lemma_view_names_push,
    crate::syntax::lemma_view_exprs_len,
    crate::syntax::lemma_view_exprs_index,
    crate::syntax::lemma_view_exprs_push,
};

/// A parse failure: the deepest position the parser reached before
/// failing, and the grammar context labels around that point, the most
/// specific first.
#[derive(Debug)]
pub struct ParseError {
    pub position: usize,
    pub contexts: Vec<&'static str>,
}

/// A fresh failure at `position`, with no context labels yet.
fn fail(position: usize) -> ParseError {
    ParseError { position, contexts: Vec::new() }
}

/// Wraps a failure in one more grammar context.
fn label(e: ParseError, l: &'static str) -> ParseError {
    let mut e = e;
    e.contexts.push(l);
    e
}

/// Of two failures from alternative branches, keeps the one that got
/// further; on a tie the later branch wins.
fn better(a: ParseError, b: ParseError) -> ParseError {
    if b.position >= a.position {
        b
    } else {
        a
    }
}

pub fn kw_fn_b(input: &[u8], pos: usize) -> (r: bool)
    requires
        pos <= input@.len(),
    ensures
        r == kw_fn(input@, pos as int),
{
    input.len() - pos >= 2 && input[pos] == ('f' as u8) && input[pos + 1] == ('n' as u8)
}

pub fn kw_true_b(input: &[u8], pos: usize) -> (r: bool)
    requires
        pos <= input@.len(),
    ensures
        r == kw_true(input@, pos as int),
{
    input.len() - pos >= 4 && input[pos] == ('t' as u8) && input[pos + 1] == ('r' as u8) && input[pos + 2] == ('u' as u8) && input[pos + 3] == ('e' as u8)
}

pub fn kw_false_b(input: &[u8], pos: usize) -> (r: bool)
    requires
        pos <= input@.len(),
    ensures
        r == kw_false(input@, pos as int),
{
    input.len() - pos >= 5 && input[pos] == ('f' as u8) && input[pos + 1] == ('a' as u8) && input[pos + 2] == ('l' as u8) && input[pos + 3] == ('s' as u8) && input[pos + 4] == ('e' as u8)
}

pub fn kw_return_b(input: &[u8], pos: usize) -> (r: bool)
    requires
        pos <= input@.len(),
    ensures
        r == kw_return(input@, pos as int),
{
    input.len() - pos >= 6 && input[pos] == ('r' as u8) && input[pos + 1] == ('e' as u8) && input[pos + 2] == ('t' as u8) && input[pos + 3] == ('u' as u8) && input[pos + 4] == ('r' as u8) && input[pos + 5] == ('n' as u8)
}

pub fn kw_notation_b(input: &[u8], pos: usize) -> (r: bool)
    requires
        pos <= input@.len(),
    ensures
        r == kw_notation(input@, pos as int),
{
    input.len() - pos >= 8 && input[pos] == ('n' as u8) && input[pos + 1] == ('o' as u8) && input[pos + 2] == ('t' as u8) && input[pos + 3] == ('a' as u8) && input[pos + 4] == ('t' as u8) && input[pos + 5] == ('i' as u8) && input[pos + 6] == ('o' as u8) && input[pos + 7] == ('n' as u8)
}

pub fn kw_with_b(input: &[u8], pos: usize) -> (r: bool)
    requires
        pos <= input@.len(),
    ensures
        r == kw_with(input@, pos as int),
{
    input.len() - pos >= 4 && input[pos] == ('w' as u8) && input[pos + 1] == ('i' as u8) && input[pos + 2] == ('t' as u8) && input[pos + 3] == ('h' as u8)
}

pub fn kw_precedence_b(input: &[u8], pos: usize) -> (r: bool)
    requires
        pos <= input@.len(),
    ensures
        r == kw_precedence(input@, pos as int),
{
    input.len() - pos >= 10 && input[pos] == ('p' as u8) && input[pos + 1] == ('r' as u8) && input[pos + 2] == ('e' as u8) && input[pos + 3] == ('c' as u8) && input[pos + 4] == ('e' as u8) && input[pos + 5] == ('d' as u8) && input[pos + 6] == ('e' as u8) && input[pos + 7] == ('n' as u8) && input[pos + 8] == ('c' as u8) && input[pos + 9] == ('e' as u8)
}

pub fn kw_associativity_b(input: &[u8], pos: usize) -> (r: bool)
    requires
        pos <= input@.len(),
    ensures
        r == kw_associativity(input@, pos as int),
{
    input.len() - pos >= 13 && input[pos] == ('a' as u8) && input[pos + 1] == ('s' as u8) && input[pos + 2] == ('s' as u8) && input[pos + 3] == ('o' as u8) && input[pos + 4] == ('c' as u8) && input[pos + 5] == ('i' as u8) && input[pos + 6] == ('a' as u8) && input[pos + 7] == ('t' as u8) && input[pos + 8] == ('i' as u8) && input[pos + 9] == ('v' as u8) && input[pos + 10] == ('i' as u8) && input[pos + 11] == ('t' as u8) && input[pos + 12] == ('y' as u8)
}

pub fn kw_left_b(input: &[u8], pos: usize) -> (r: bool)
    requires
        pos <= input@.len(),
    ensures
        r == kw_left(input@, pos as int),
{
    input.len() - pos >= 4 && input[pos] == ('l' as u8) && input[pos + 1] == ('e' as u8) && input[pos + 2] == ('f' as u8) && input[pos + 3] == ('t' as u8)
}

pub fn kw_right_b(input: &[u8], pos: usize) -> (r: bool)
    requires
        pos <= input@.len(),
    ensures
        r == kw_right(input@, pos as int),
{
    input.len() - pos >= 5 && input[pos] == ('r' as u8) && input[pos + 1] == ('i' as u8) && input[pos + 2] == ('g' as u8) && input[pos + 3] == ('h' as u8) && input[pos + 4] == ('t' as u8)
}

pub fn kw_none_b(input: &[u8], pos: usize) -> (r: bool)
    requires
        pos <= input@.len(),
    ensures
        r == kw_none(input@, pos as int),
{
    input.len() - pos >= 4 && input[pos] == ('n' as u8) && input[pos + 1] == ('o' as u8) && input[pos + 2] == ('n' as u8) && input[pos + 3] == ('e' as u8)
}

pub fn kw_from_b(input: &[u8], pos: usize) -> (r: bool)
    requires
        pos <= input@.len(),
    ensures
        r == kw_from(input@, pos as int),
{
    input.len() - pos >= 4 && input[pos] == ('f' as u8) && input[pos + 1] == ('r' as u8) && input[pos + 2] == ('o' as u8) && input[pos + 3] == ('m' as u8)
}

pub fn kw_use_b(input: &[u8], pos: usize) -> (r: bool)
    requires
        pos <= input@.len(),
    ensures
        r == kw_use(input@, pos as int),
{
    input.len() - pos >= 3 && input[pos] == ('u' as u8) && input[pos + 1] == ('s' as u8) && input[pos + 2] == ('e' as u8)
}

pub fn kw_as_b(input: &[u8], pos: usize) -> (r: bool)
    requires
        pos <= input@.len(),
    ensures
        r == kw_as(input@, pos as int),
{
    input.len() - pos >= 2 && input[pos] == ('a' as u8) && input[pos + 1] == ('s' as u8)
}

pub fn kw_coloneq_b(input: &[u8], pos: usize) -> (r: bool)
    requires
        pos <= input@.len(),
    ensures
        r == kw_coloneq(input@, pos as int),
{
    input.len() - pos >= 2 && input[pos] == (':' as u8) && input[pos + 1] == ('=' as u8)
}

/// Parses an identifier.
fn parse_identifier(input: &[u8], pos: usize) -> (r: Result<(usize, Vec<u8>), ParseError>)
    requires
        pos <= input@.len(),
    ensures
        match r {
            Result::Ok((j, name)) => spec_identifier(input@, pos as int) == Option::Some(
                ((j as int, name@)),
            ) && pos < j <= input@.len(),
            Result::Err(_) => spec_identifier(input@, pos as int) is None,
        },
{
    if pos < input.len() && is_ident_start_b(input[pos]) {
        let j = scan_ident(input, pos);
        assert(ident_end(input@, pos as int) == ident_end(input@, pos + 1));
        let name = copy_range(input, pos, j);
        Result::Ok((j, name))
    } else {
        Result::Err(fail(pos))
    }
}

/// Parses an integer literal into an `i64`; a literal whose value does
/// not fit is a parse failure, not a wrapped value.
#[verifier::loop_isolation(false)]
fn parse_int(input: &[u8], pos: usize) -> (r: Result<(usize, i64), ParseError>)
    requires
        pos <= input@.len(),
    ensures
        match r {
            Result::Ok((j, v)) => spec_int(input@, pos as int) == Option::Some(
                ((j as int, v as int)),
            ) && pos < j <= input@.len(),
            Result::Err(_) => spec_int(input@, pos as int) is None,
        },
{
    let ghost s = input@;
    let n = input.len();
    let neg = pos < n && input[pos] == ('-' as u8);
    let d0: usize = if neg { pos + 1 } else { pos };
    if !(d0 < n && is_digit_b(input[d0])) {
        return Result::Err(label(fail(pos), "integer"));
    }
    let j = scan_digits(input, d0);
    proof {
        assert(digits_end(s, d0 as int) == digits_end(s, d0 + 1));
        lemma_digits_end_range(s, d0 as int);
    }
    let limit: u128 = if neg { 9223372036854775808u128 } else { 9223372036854775807u128 };
    let mut acc: u128 = 0;
    let mut k: usize = d0;
    while k < j
        invariant
            n == input@.len(),
            d0 <= k <= j <= input@.len(),
            j == digits_end(input@, d0 as int),
            acc == digits_val(input@, d0 as int, k as int),
            acc <= limit,
            limit == if neg { 9223372036854775808u128 } else { 9223372036854775807u128 },
            neg ==> (pos < input@.len() && input@[pos as int] == ('-' as u8) && d0 == pos + 1),
            !neg ==> d0 == pos,
            pos <= input@.len(),
            d0 < input@.len() && is_digit(input@[d0 as int]),
        decreases j - k,
    {
        let d = input[k] - ('0' as u8);
        proof {
            assert(is_digit(input@[k as int]));
        }
        let next: u128 = acc * 10 + (d as u128);
        assert(next == digits_val(s, d0 as int, k + 1));
        if next > limit {
            proof {
                lemma_digits_val_mono(s, d0 as int, k + 1, j as int);
            }
            return Result::Err(label(fail(pos), "integer"));
        }
        acc = next;
        k += 1;
    }
    if neg {
        if acc == 9223372036854775808u128 {
            Result::Ok((j, i64::MIN))
        } else {
            Result::Ok((j, -(acc as i64)))
        }
    } else {
        Result::Ok((j, acc as i64))
    }
}

/// The end of an optional float exponent at `k`.
fn float_exp_end(input: &[u8], k: usize) -> (r: usize)
    requires
        k <= input@.len(),
    ensures
        r == spec_float_exp(input@, k as int),
        k <= r <= input@.len(),
{
    if k < input.len() && (input[k] == ('e' as u8) || input[k] == ('E' as u8)) {
        let p: usize = if k + 1 < input.len() && (input[k + 1] == ('+' as u8) || input[k + 1]
            == ('-' as u8)) {
            k + 2
        } else {
            k + 1
        };
        if p < input.len() && is_digit_b(input[p]) {
            let r = scan_digits(input, p);
            assert(digits_end(input@, p as int) == digits_end(input@, p + 1));
            r
        } else {
            k
        }
    } else {
        k
    }
}

/// Parses a float literal, keeping its lexical form.
fn parse_float(input: &[u8], pos: usize) -> (r: Result<(usize, Vec<u8>), ParseError>)
    requires
        pos <= input@.len(),
    ensures
        match r {
            Result::Ok((j, t)) => spec_float(input@, pos as int) == Option::Some(
                ((j as int, t@)),
            ) && pos < j <= input@.len(),
            Result::Err(_) => spec_float(input@, pos as int) is None,
        },
{
    let ghost s = input@;
    let n = input.len();
    let neg = pos < n && input[pos] == ('-' as u8);
    let d0: usize = if neg { pos + 1 } else { pos };
    if !(d0 < n && is_digit_b(input[d0])) {
        return Result::Err(label(fail(pos), "float"));
    }
    let j = scan_digits(input, d0);
    assert(digits_end(s, d0 as int) == digits_end(s, d0 + 1));
    if !(j < input.len() && input[j] == ('.' as u8) && j + 1 < input.len() && is_digit_b(
        input[j + 1],
    )) {
        return Result::Err(label(fail(j), "float"));
    }
    let k = scan_digits(input, j + 1);
    assert(digits_end(s, j + 1 as int) == digits_end(s, j + 2));
    let e = float_exp_end(input, k);
    let t = copy_range(input, pos, e);
    Result::Ok((e, t))
}

/// Parses a boolean literal.
fn parse_bool(input: &[u8], pos: usize) -> (r: Result<(usize, bool), ParseError>)
    requires
        pos <= input@.len(),
    ensures
        match r {
            Result::Ok((j, b)) => spec_bool(input@, pos as int) == Option::Some(
                ((j as int, b)),
            ) && pos < j <= input@.len(),
            Result::Err(_) => spec_bool(input@, pos as int) is None,
        },
{
    let n = input.len();
    if kw_true_b(input, pos) {
        assert(pos + 4 <= n);
        Result::Ok((pos + 4, true))
    } else if kw_false_b(input, pos) {
        assert(pos + 5 <= n);
        Result::Ok((pos + 5, false))
    } else {
        Result::Err(label(fail(pos), "boolean"))
    }
}

/// Parses the decoded body of a string literal.
#[verifier::loop_isolation(false)]
fn parse_string(input: &[u8], pos: usize) -> (r: Result<(usize, Vec<u8>), ParseError>)
    requires
        pos <= input@.len(),
    ensures
        match r {
            Result::Ok((j, v)) => spec_string(input@, pos as int) == Option::Some(
                ((j as int, v@)),
            ) && pos < j <= input@.len(),
            Result::Err(_) => spec_string(input@, pos as int) is None,
        },
{
    let ghost s = input@;
    if !(pos < input.len() && input[pos] == ('"' as u8)) {
        return Result::Err(label(fail(pos), "string"));
    }
    let mut cur: usize = pos + 1;
    let mut acc: Vec<u8> = Vec::new();
    proof {
        assert(acc@ =~= Seq::<u8>::empty());
        match spec_string_body(s, pos + 1) {
            Option::Some((j, r)) => {
                assert(acc@ + r =~= r);
            },
            Option::None => {},
        }
    }
    loop
        invariant
            pos + 1 <= cur <= input@.len(),
            pos < input@.len() && input@[pos as int] == ('"' as u8),
            match spec_string_body(input@, cur as int) {
                Option::Some((j, r)) => spec_string_body(input@, pos + 1) == Option::Some(
                    ((j, acc@ + r)),
                ),
                Option::None => spec_string_body(input@, pos + 1) is None,
            },
        decreases input@.len() - cur,
    {
        if cur >= input.len() {
            assert(spec_string_body(s, cur as int) is None);
            return Result::Err(label(fail(cur), "string"));
        }
        let c = input[cur];
        if c == ('"' as u8) {
            assert(spec_string_body(s, cur as int) == Option::Some(((cur as int, Seq::<u8>::empty()))));
            assert(acc@ + Seq::<u8>::empty() =~= acc@);
            return Result::Ok((cur + 1, acc));
        }
        if c == ('\\' as u8) {
            if cur + 1 < input.len() && (input[cur + 1] == ('"' as u8) || input[cur + 1] == ('\\'
                as u8) || input[cur + 1] == ('n' as u8) || input[cur + 1] == ('r' as u8) || input[cur
                + 1] == ('t' as u8)) {
                let e: u8 = if input[cur + 1] == ('n' as u8) {
                    ('\n' as u8)
                } else if input[cur + 1] == ('r' as u8) {
                    ('\r' as u8)
                } else if input[cur + 1] == ('t' as u8) {
                    ('\t' as u8)
                } else {
                    input[cur + 1]
                };
                proof {
                    let ghost old_acc = acc@;
                    match spec_string_body(s, cur + 2) {
                        Option::Some((j, r)) => {
                            assert(spec_string_body(s, cur as int) == Option::Some(
                                ((j, seq![e] + r)),
                            ));
                            assert(old_acc + (seq![e] + r) =~= old_acc.push(e) + r);
                        },
                        Option::None => {},
                    }
                }
                acc.push(e);
                cur = cur + 2;
            } else {
                assert(spec_string_body(s, cur as int) is None);
                return Result::Err(label(fail(cur), "string"));
            }
        } else {
            proof {
                let ghost old_acc = acc@;
                match spec_string_body(s, cur + 1) {
                    Option::Some((j, r)) => {
                        assert(spec_string_body(s, cur as int) == Option::Some(
                            ((j, seq![s[cur as int]] + r)),
                        ));
                        assert(old_acc + (seq![s[cur as int]] + r) =~= old_acc.push(s[cur as int])
                            + r);
                    },
                    Option::None => {},
                }
            }
            acc.push(c);
            cur = cur + 1;
        }
    }
}

/// The remaining comma-separated parameter names after the first.
fn parse_param_list_rest(input: &[u8], pos: usize, acc: Vec<Vec<u8>>) -> (r: (usize, Vec<Vec<u8>>))
    requires
        pos <= input@.len(),
    ensures
        spec_param_list_rest(input@, pos as int, view_names(acc@)) == ((r.0 as int, view_names(
            r.1@,
        ))),
        pos <= r.0 <= input@.len(),
    decreases input@.len() - pos,
{
    let m = skip_ws(input, pos);
    if m < input.len() && input[m] == (',' as u8) {
        let k = skip_ws(input, m + 1);
        match parse_identifier(input, k) {
            Result::Ok((j, name)) => {
                let ghost prev = view_names(acc@);
                let mut acc2 = acc;
                acc2.push(name);
                assert(view_names(acc2@) == prev.push(name@));
                parse_param_list_rest(input, j, acc2)
            },
            Result::Err(_) => (pos, acc),
        }
    } else {
        (pos, acc)
    }
}

/// A comma-separated, possibly empty list of parameter names.
fn parse_param_list(input: &[u8], pos: usize) -> (r: (usize, Vec<Vec<u8>>))
    requires
        pos <= input@.len(),
    ensures
        spec_param_list(input@, pos as int) == ((r.0 as int, view_names(r.1@))),
        pos <= r.0 <= input@.len(),
{
    let m = skip_ws(input, pos);
    match parse_identifier(input, m) {
        Result::Ok((j, name)) => {
            let mut acc: Vec<Vec<u8>> = Vec::new();
            assert(view_names(acc@) =~= Seq::<Seq<u8>>::empty());
            acc.push(name);
            assert(view_names(acc@) == Seq::<Seq<u8>>::empty().push(name@));
            parse_param_list_rest(input, j, acc)
        },
        Result::Err(_) => {
            let r: Vec<Vec<u8>> = Vec::new();
            assert(view_names(r@) =~= Seq::<Seq<u8>>::empty());
            (pos, r)
        },
    }
}

/// Parses a notation pattern: the quoted template and its optional
/// `with`, `precedence` and `associativity` clauses.
fn parse_notation_pattern(input: &[u8], pos: usize) -> (r: Result<
    (usize, NotationPattern),
    ParseError,
>)
    requires
        pos <= input@.len(),
    ensures
        match r {
            Result::Ok((j, np)) => spec_notation_pattern(input@, pos as int) == Option::Some(
                ((j as int, np@)),
            ) && pos < j <= input@.len(),
            Result::Err(_) => spec_notation_pattern(input@, pos as int) is None,
        },
{
    let n = input.len();
    if !(pos < n && input[pos] == ('"' as u8)) {
        return Result::Err(label(fail(pos), "notation pattern"));
    }
    let q = match find_byte_at(input, pos + 1, '"' as u8) {
        Option::Some(q) => q,
        Option::None => {
            return Result::Err(label(fail(pos), "notation pattern"));
        },
    };
    let pattern = copy_range(input, pos + 1, q);
    let after = q + 1;
    let m = skip_ws(input, after);
    let (pv, variables): (usize, Vec<Vec<u8>>) = if kw_with_b(input, m) {
        let k = skip_ws(input, m + 4);
        parse_param_list(input, k)
    } else {
        let none_declared: Vec<Vec<u8>> = Vec::new();
        assert(view_names(none_declared@) =~= Seq::<Seq<u8>>::empty());
        (after, none_declared)
    };
    let m2 = skip_ws(input, pv);
    let (pp, precedence): (usize, Option<i64>) = if kw_precedence_b(input, m2) {
        let k2 = skip_ws(input, m2 + 10);
        match parse_int(input, k2) {
            Result::Ok((j2, v)) => (j2, Option::Some(v)),
            Result::Err(_) => (pv, Option::None),
        }
    } else {
        (pv, Option::None)
    };
    let m3 = skip_ws(input, pp);
    let (pa, associativity): (usize, Associativity) = if kw_associativity_b(input, m3) {
        let k3 = skip_ws(input, m3 + 13);
        if kw_left_b(input, k3) {
            (k3 + 4, Associativity::Left)
        } else if kw_right_b(input, k3) {
            (k3 + 5, Associativity::Right)
        } else if kw_none_b(input, k3) {
            (k3 + 4, Associativity::NonAssoc)
        } else {
            (pp, Associativity::NonAssoc)
        }
    } else {
        (pp, Associativity::NonAssoc)
    };
    let np = NotationPattern { pattern, variables, precedence, associativity };
    Result::Ok((pa, np))
}

/// Parses an extern declaration: `from` module `use` name, with an
/// optional `as` alias.
fn parse_ffi_decl(input: &[u8], pos: usize) -> (r: Result<(usize, Expr), ParseError>)
    requires
        pos <= input@.len(),
    ensures
        match r {
            Result::Ok((j, e)) => spec_ffi_decl(input@, pos as int) == Option::Some(
                ((j as int, e@)),
            ) && pos < j <= input@.len(),
            Result::Err(_) => spec_ffi_decl(input@, pos as int) is None,
        },
{
    let n = input.len();
    if !kw_from_b(input, pos) {
        return Result::Err(label(fail(pos), "ffi declaration"));
    }
    let m = skip_ws(input, pos + 4);
    let (j, module) = match parse_identifier(input, m) {
        Result::Ok(x) => x,
        Result::Err(e) => {
            return Result::Err(label(e, "ffi declaration"));
        },
    };
    let m2 = skip_ws(input, j);
    if !kw_use_b(input, m2) {
        return Result::Err(label(fail(m2), "ffi declaration"));
    }
    let k = skip_ws(input, m2 + 3);
    let (j2, name) = match parse_identifier(input, k) {
        Result::Ok(x) => x,
        Result::Err(e) => {
            return Result::Err(label(e, "ffi declaration"));
        },
    };
    let m3 = skip_ws(input, j2);
    if kw_as_b(input, m3) {
        let k2 = skip_ws(input, m3 + 2);
        match parse_identifier(input, k2) {
            Result::Ok((j3, alias)) => {
                return Result::Ok((j3, Expr::FFIDecl(module, name, Option::Some(alias))));
            },
            Result::Err(_) => {
                return Result::Ok((j2, Expr::FFIDecl(module, name, Option::None)));
            },
        }
    }
    Result::Ok((j2, Expr::FFIDecl(module, name, Option::None)))
}

/// Parses a primitive literal: float, integer, string, boolean or
/// array, tried in that order.
#[verifier::rlimit(30)]
fn parse_primitive(input: &[u8], pos: usize) -> (r: Result<(usize, Expr), ParseError>)
    requires
        pos <= input@.len(),
    ensures
        match r {
            Result::Ok((j, e)) => spec_primitive(input@, pos as int) == Option::Some(
                ((j as int, e@)),
            ) && pos < j <= input@.len(),
            Result::Err(_) => spec_primitive(input@, pos as int) is None,
        },
    decreases input@.len() - pos, 3int,
{
    proof {
        reveal_with_fuel(view_expr, 2);
        reveal_with_fuel(view_primitive, 2);
    }
    let e1 = match parse_float(input, pos) {
        Result::Ok((j, t)) => {
            return Result::Ok((j, Expr::Primitive(Primitive::Float(t))));
        },
        Result::Err(e) => e,
    };
    let e2 = match parse_int(input, pos) {
        Result::Ok((j, v)) => {
            return Result::Ok((j, Expr::Primitive(Primitive::Int(v))));
        },
        Result::Err(e) => better(e1, e),
    };
    let e3 = match parse_string(input, pos) {
        Result::Ok((j, v)) => {
            return Result::Ok((j, Expr::Primitive(Primitive::Str(v))));
        },
        Result::Err(e) => better(e2, e),
    };
    let e4 = match parse_bool(input, pos) {
        Result::Ok((j, b)) => {
            return Result::Ok((j, Expr::Primitive(Primitive::Bool(b))));
        },
        Result::Err(e) => better(e3, e),
    };
    match parse_array(input, pos) {
        Result::Ok((j, es)) => Result::Ok((j, Expr::Primitive(Primitive::Array(es)))),
        Result::Err(e) => Result::Err(label(better(e4, e), "primitive")),
    }
}

/// Parses an array literal.
fn parse_array(input: &[u8], pos: usize) -> (r: Result<(usize, Vec<Expr>), ParseError>)
    requires
        pos <= input@.len(),
    ensures
        match r {
            Result::Ok((j, es)) => spec_array(input@, pos as int) == Option::Some(
                ((j as int, view_exprs(es@))),
            ) && pos < j <= input@.len(),
            Result::Err(_) => spec_array(input@, pos as int) is None,
        },
    decreases input@.len() - pos, 2int,
{
    let n = input.len();
    if !(pos < n && input[pos] == ('[' as u8)) {
        return Result::Err(label(fail(pos), "array"));
    }
    let (k, es) = parse_expr_list(input, pos + 1);
    if k < n && input[k] == (']' as u8) {
        Result::Ok((k + 1, es))
    } else {
        Result::Err(label(fail(k), "array"))
    }
}

/// Parses a comma-separated, possibly empty expression list.
fn parse_expr_list(input: &[u8], pos: usize) -> (r: (usize, Vec<Expr>))
    requires
        pos <= input@.len(),
    ensures
        spec_expr_list(input@, pos as int) == ((r.0 as int, view_exprs(r.1@))),
        pos <= r.0 <= input@.len(),
    decreases input@.len() - pos, 8int,
{
    match parse_expr(input, pos) {
        Result::Err(_) => {
            let es: Vec<Expr> = Vec::new();
            assert(view_exprs(es@) =~= Seq::<SpecExpr>::empty());
            (pos, es)
        },
        Result::Ok((j, e)) => {
            let mut acc: Vec<Expr> = Vec::new();
            proof {
                assert(view_exprs(acc@) =~= Seq::<SpecExpr>::empty());
            }
            let ghost ev = e@;
            acc.push(e);
            assert(view_exprs(acc@) =~= seq![ev]);
            parse_expr_list_rest(input, j, acc)
        },
    }
}

/// Parses the remaining comma-separated expressions after the first.
fn parse_expr_list_rest(input: &[u8], pos: usize, acc: Vec<Expr>) -> (r: (usize, Vec<Expr>))
    requires
        pos <= input@.len(),
    ensures
        spec_expr_list_rest(input@, pos as int, view_exprs(acc@)) == ((r.0 as int, view_exprs(
            r.1@,
        ))),
        pos <= r.0 <= input@.len(),
    decreases input@.len() - pos, 8int,
{
    let n = input.len();
    let m = skip_ws(input, pos);
    if m < n && input[m] == (',' as u8) {
        let k = skip_ws(input, m + 1);
        match parse_expr(input, k) {
            Result::Ok((j, e)) => {
                let ghost prev = view_exprs(acc@);
                let mut acc2 = acc;
                acc2.push(e);
                assert(view_exprs(acc2@) == prev.push(e@));
                parse_expr_list_rest(input, j, acc2)
            },
            Result::Err(_) => (pos, acc),
        }
    } else {
        (pos, acc)
    }
}

/// Parses a function call: an identifier immediately followed by a
/// parenthesized argument list.
#[verifier::rlimit(30)]
fn parse_function_call(input: &[u8], pos: usize) -> (r: Result<(usize, Expr), ParseError>)
    requires
        pos <= input@.len(),
    ensures
        match r {
            Result::Ok((j, e)) => spec_function_call(input@, pos as int) == Option::Some(
                ((j as int, e@)),
            ) && pos < j <= input@.len(),
            Result::Err(_) => spec_function_call(input@, pos as int) is None,
        },
    decreases input@.len() - pos, 2int,
{
    proof {
        reveal_with_fuel(view_expr, 3);
    }
    let n = input.len();
    let (j, name) = match parse_identifier(input, pos) {
        Result::Ok(x) => x,
        Result::Err(e) => {
            return Result::Err(label(e, "function call"));
        },
    };
    if !(j < n && input[j] == ('(' as u8)) {
        return Result::Err(label(fail(j), "function call"));
    }
    let (k, es) = parse_expr_list(input, j + 1);
    if k < n && input[k] == (')' as u8) {
        Result::Ok((k + 1, Expr::FunctionCall(Box::new(Expr::Variable(name)), es)))
    } else {
        Result::Err(label(fail(k), "function call"))
    }
}

/// Parses a term: a primitive, a function call, a variable or a
/// parenthesized expression, wrapped in insignificant text.
fn parse_term(input: &[u8], pos: usize) -> (r: Result<(usize, Expr), ParseError>)
    requires
        pos <= input@.len(),
    ensures
        match r {
            Result::Ok((j, e)) => spec_term(input@, pos as int) == Option::Some(
                ((j as int, e@)),
            ) && pos < j <= input@.len(),
            Result::Err(_) => spec_term(input@, pos as int) is None,
        },
    decreases input@.len() - pos, 4int,
{
    let n = input.len();
    let m = skip_ws(input, pos);
    let res: Result<(usize, Expr), ParseError> = match parse_primitive(input, m) {
        Result::Ok(x) => Result::Ok(x),
        Result::Err(e1) => match parse_function_call(input, m) {
            Result::Ok(x) => Result::Ok(x),
            Result::Err(e2) => match parse_identifier(input, m) {
                Result::Ok((j, name)) => Result::Ok((j, Expr::Variable(name))),
                Result::Err(e3) => if m < n && input[m] == ('(' as u8) {
                    match parse_expr(input, m + 1) {
                        Result::Ok((j, e)) => {
                            if j < n && input[j] == (')' as u8) {
                                Result::Ok((j + 1, e))
                            } else {
                                Result::Err(label(better(better(e1, e2), fail(j)), "term"))
                            }
                        },
                        Result::Err(e4) => Result::Err(label(better(better(e1, e2), e4), "term")),
                    }
                } else {
                    Result::Err(label(better(better(e1, e2), e3), "term"))
                },
            },
        },
    };
    match res {
        Result::Ok((j, e)) => {
            let w = skip_ws(input, j);
            Result::Ok((w, e))
        },
        Result::Err(e) => Result::Err(e),
    }
}

/// Folds the remaining `(operator, term)` pairs of an infix expression
/// onto `acc`, left to right.
fn parse_infix_rest(input: &[u8], pos: usize, acc: Expr) -> (r: (usize, Expr))
    requires
        pos <= input@.len(),
    ensures
        spec_infix_rest(input@, pos as int, acc@) == ((r.0 as int, r.1@)),
        pos <= r.0 <= input@.len(),
    decreases input@.len() - pos, 5int,
{
    let m = skip_ws(input, pos);
    let oe = scan_op(input, m);
    if m < oe {
        let op = copy_range(input, m, oe);
        let k = skip_ws(input, oe);
        match parse_term(input, k) {
            Result::Ok((j, t)) => parse_infix_rest(
                input,
                j,
                Expr::InfixOp(Box::new(acc), op, Box::new(t)),
            ),
            Result::Err(_) => (pos, acc),
        }
    } else {
        (pos, acc)
    }
}

/// Parses an infix expression: a first term and zero or more
/// `(operator, term)` pairs, folded left-associatively.
fn parse_infix_expr(input: &[u8], pos: usize) -> (r: Result<(usize, Expr), ParseError>)
    requires
        pos <= input@.len(),
    ensures
        match r {
            Result::Ok((j, e)) => spec_infix_expr(input@, pos as int) == Option::Some(
                ((j as int, e@)),
            ) && pos < j <= input@.len(),
            Result::Err(_) => spec_infix_expr(input@, pos as int) is None,
        },
    decreases input@.len() - pos, 5int,
{
    match parse_term(input, pos) {
        Result::Ok((j, first)) => {
            let (j2, e) = parse_infix_rest(input, j, first);
            Result::Ok((j2, e))
        },
        Result::Err(e) => Result::Err(e),
    }
}

/// Parses a return expression.
fn parse_return(input: &[u8], pos: usize) -> (r: Result<(usize, Expr), ParseError>)
    requires
        pos <= input@.len(),
    ensures
        match r {
            Result::Ok((j, e)) => spec_return(input@, pos as int) == Option::Some(
                ((j as int, e@)),
            ) && pos < j <= input@.len(),
            Result::Err(_) => spec_return(input@, pos as int) is None,
        },
    decreases input@.len() - pos, 6int,
{
    let n = input.len();
    if !kw_return_b(input, pos) {
        return Result::Err(label(fail(pos), "return"));
    }
    let k = skip_ws(input, pos + 6);
    match parse_expr(input, k) {
        Result::Ok((j, e)) => Result::Ok((j, Expr::Return(Box::new(e)))),
        Result::Err(e) => Result::Err(label(e, "return")),
    }
}

/// Parses an assignment: an identifier, `=`, and an expression.
fn parse_assignment(input: &[u8], pos: usize) -> (r: Result<(usize, Expr), ParseError>)
    requires
        pos <= input@.len(),
    ensures
        match r {
            Result::Ok((j, e)) => spec_assignment(input@, pos as int) == Option::Some(
                ((j as int, e@)),
            ) && pos < j <= input@.len(),
            Result::Err(_) => spec_assignment(input@, pos as int) is None,
        },
    decreases input@.len() - pos, 6int,
{
    let n = input.len();
    let (j, name) = match parse_identifier(input, pos) {
        Result::Ok(x) => x,
        Result::Err(e) => {
            return Result::Err(label(e, "assignment"));
        },
    };
    let m = skip_ws(input, j);
    if !(m < n && input[m] == ('=' as u8)) {
        return Result::Err(label(fail(m), "assignment"));
    }
    let k = skip_ws(input, m + 1);
    match parse_expr(input, k) {
        Result::Ok((j2, e)) => Result::Ok((j2, Expr::Assignment(name, Box::new(e)))),
        Result::Err(e) => Result::Err(label(e, "assignment")),
    }
}

/// Parses the expressions of a function body, each optionally followed
/// by a semicolon.
fn parse_body_exprs(input: &[u8], pos: usize, acc: Vec<Expr>) -> (r: (usize, Vec<Expr>))
    requires
        pos <= input@.len(),
    ensures
        spec_body_exprs(input@, pos as int, view_exprs(acc@)) == ((r.0 as int, view_exprs(r.1@))),
        pos <= r.0 <= input@.len(),
    decreases input@.len() - pos, 8int,
{
    let n = input.len();
    match parse_expr(input, pos) {
        Result::Err(_) => (pos, acc),
        Result::Ok((j, e)) => {
            let m = skip_ws(input, j);
            let p: usize = if m < n && input[m] == (';' as u8) {
                m + 1
            } else {
                m
            };
            let q = skip_ws(input, p);
            let ghost prev = view_exprs(acc@);
            let mut acc2 = acc;
            acc2.push(e);
            assert(view_exprs(acc2@) == prev.push(e@));
            parse_body_exprs(input, q, acc2)
        },
    }
}

/// Parses a function definition.
fn parse_function_def(input: &[u8], pos: usize) -> (r: Result<(usize, Expr), ParseError>)
    requires
        pos <= input@.len(),
    ensures
        match r {
            Result::Ok((j, e)) => spec_function_def(input@, pos as int) == Option::Some(
                ((j as int, e@)),
            ) && pos < j <= input@.len(),
            Result::Err(_) => spec_function_def(input@, pos as int) is None,
        },
    decreases input@.len() - pos, 6int,
{
    let n = input.len();
    let d0: usize = if kw_fn_b(input, pos) {
        pos + 2
    } else {
        pos
    };
    let m = skip_ws(input, d0);
    let (j, name) = match parse_identifier(input, m) {
        Result::Ok(x) => x,
        Result::Err(e) => {
            return Result::Err(label(e, "function definition"));
        },
    };
    if !(j < n && input[j] == ('(' as u8)) {
        return Result::Err(label(fail(j), "function definition"));
    }
    let (pe, params) = parse_param_list(input, j + 1);
    if !(pe < n && input[pe] == (')' as u8)) {
        return Result::Err(label(fail(pe), "function definition"));
    }
    let m2 = skip_ws(input, pe + 1);
    if !(m2 < n && input[m2] == ('{' as u8)) {
        return Result::Err(label(fail(m2), "function definition"));
    }
    let b0 = skip_ws(input, m2 + 1);
    let no_body: Vec<Expr> = Vec::new();
    proof {
        assert(view_exprs(no_body@) =~= Seq::<SpecExpr>::empty());
    }
    let (bend, body) = parse_body_exprs(input, b0, no_body);
    let m3 = skip_ws(input, bend);
    if !(m3 < n && input[m3] == ('}' as u8)) {
        return Result::Err(label(fail(m3), "function definition"));
    }
    let fin = skip_ws(input, m3 + 1);
    Result::Ok((fin, Expr::FunctionDef(name, params, body)))
}

/// Parses an expression: a function definition, an assignment, a return
/// or an infix expression, in that order, wrapped in insignificant text.
fn parse_expr(input: &[u8], pos: usize) -> (r: Result<(usize, Expr), ParseError>)
    requires
        pos <= input@.len(),
    ensures
        match r {
            Result::Ok((j, e)) => spec_expr(input@, pos as int) == Option::Some(
                ((j as int, e@)),
            ) && pos < j <= input@.len(),
            Result::Err(_) => spec_expr(input@, pos as int) is None,
        },
    decreases input@.len() - pos, 7int,
{
    let m = skip_ws(input, pos);
    let res: Result<(usize, Expr), ParseError> = match parse_function_def(input, m) {
        Result::Ok(x) => Result::Ok(x),
        Result::Err(e1) => match parse_assignment(input, m) {
            Result::Ok(x) => Result::Ok(x),
            Result::Err(e2) => match parse_return(input, m) {
                Result::Ok(x) => Result::Ok(x),
                Result::Err(e3) => match parse_infix_expr(input, m) {
                    Result::Ok(x) => Result::Ok(x),
                    Result::Err(e4) => Result::Err(
                        label(better(better(better(e1, e2), e3), e4), "expression"),
                    ),
                },
            },
        },
    };
    match res {
        Result::Ok((j, e)) => {
            let w = skip_ws(input, j);
            Result::Ok((w, e))
        },
        Result::Err(e) => Result::Err(e),
    }
}

/// Parses a notation declaration.
fn parse_notation_decl(input: &[u8], pos: usize) -> (r: Result<(usize, Expr), ParseError>)
    requires
        pos <= input@.len(),
    ensures
        match r {
            Result::Ok((j, e)) => spec_notation_decl(input@, pos as int) == Option::Some(
                ((j as int, e@)),
            ) && pos < j <= input@.len(),
            Result::Err(_) => spec_notation_decl(input@, pos as int) is None,
        },
    decreases input@.len() - pos, 8int,
{
    let n = input.len();
    if !kw_notation_b(input, pos) {
        return Result::Err(label(fail(pos), "notation declaration"));
    }
    let m = skip_ws(input, pos + 8);
    let (j, pat) = match parse_notation_pattern(input, m) {
        Result::Ok(x) => x,
        Result::Err(e) => {
            return Result::Err(label(e, "notation declaration"));
        },
    };
    let m2 = skip_ws(input, j);
    if !kw_coloneq_b(input, m2) {
        return Result::Err(label(fail(m2), "notation declaration"));
    }
    let k = skip_ws(input, m2 + 2);
    match parse_expr(input, k) {
        Result::Ok((j2, e)) => Result::Ok((j2, Expr::NotationDecl(pat, Box::new(e)))),
        Result::Err(e) => Result::Err(label(e, "notation declaration")),
    }
}

/// Parses a top-level expression: an extern declaration, a notation
/// declaration or an expression with an optional trailing semicolon.
fn parse_top_level(input: &[u8], pos: usize) -> (r: Result<(usize, Expr), ParseError>)
    requires
        pos <= input@.len(),
    ensures
        match r {
            Result::Ok((j, e)) => spec_top_level(input@, pos as int) == Option::Some(
                ((j as int, e@)),
            ) && pos < j <= input@.len(),
            Result::Err(_) => spec_top_level(input@, pos as int) is None,
        },
    decreases input@.len() - pos, 9int,
{
    let n = input.len();
    let pos = skip_ws(input, pos);
    match parse_ffi_decl(input, pos) {
        Result::Ok(x) => Result::Ok(x),
        Result::Err(e1) => match parse_notation_decl(input, pos) {
            Result::Ok(x) => Result::Ok(x),
            Result::Err(e2) => match parse_expr(input, pos) {
                Result::Ok((j, e)) => {
                    let m = skip_ws(input, j);
                    let p: usize = if m < n && input[m] == (';' as u8) {
                        m + 1
                    } else {
                        m
                    };
                    let q = skip_ws(input, p);
                    Result::Ok((q, e))
                },
                Result::Err(e3) => Result::Err(
                    label(better(better(e1, e2), e3), "top level expression"),
                ),
            },
        },
    }
}

/// Parses one or more top-level expressions onto `acc`.
fn parse_top_levels(input: &[u8], pos: usize, acc: Vec<Expr>) -> (r: Result<
    (usize, Vec<Expr>),
    ParseError,
>)
    requires
        pos <= input@.len(),
    ensures
        match r {
            Result::Ok((j, es)) => spec_top_levels(input@, pos as int, view_exprs(acc@))
                == Option::Some(((j as int, view_exprs(es@)))) && pos <= j <= input@.len(),
            Result::Err(_) => spec_top_levels(input@, pos as int, view_exprs(acc@)) is None,
        },
    decreases input@.len() - pos, 10int,
{
    match parse_top_level(input, pos) {
        Result::Err(e) => {
            if acc.len() == 0 {
                Result::Err(e)
            } else {
                Result::Ok((pos, acc))
            }
        },
        Result::Ok((j, e)) => {
            let ghost prev = view_exprs(acc@);
            let mut acc2 = acc;
            acc2.push(e);
            assert(view_exprs(acc2@) == prev.push(e@));
            parse_top_levels(input, j, acc2)
        },
    }
}

/// Parses a whole program: one or more top-level expressions surrounded
/// by insignificant text. The entire input must be consumed; a trailing
/// non-whitespace, non-comment remainder is a parse error.
pub fn parse_program(input: &[u8]) -> (r: Result<Vec<Expr>, ParseError>)
    ensures
        match r {
            Result::Ok(es) => spec_program(input@) == Option::Some(view_exprs(es@)),
            Result::Err(_) => spec_program(input@) is None,
        },
{
    let n = input.len();
    let m = skip_ws(input, 0);
    let no_exprs: Vec<Expr> = Vec::new();
    proof {
        assert(view_exprs(no_exprs@) =~= Seq::<SpecExpr>::empty());
    }
    match parse_top_levels(input, m, no_exprs) {
        Result::Ok((j, es)) => {
            let w = skip_ws(input, j);
            if w == n {
                Result::Ok(es)
            } else {
                Result::Err(label(fail(w), "program"))
            }
        },
        Result::Err(e) => Result::Err(label(e, "program")),
    }
}

} // verus!
