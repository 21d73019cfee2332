//! The grammar, stated as a family of specification functions over the
//! input bytes. Each function mirrors one production of the recursive
//! descent grammar and returns the position after the consumed text
//! together with the parsed model value, or `None` on failure.
//!
//! Positions coming back from a mutually recursive production are guarded
//! with explicit bounds checks (`i < j <= s.len()`) before they feed a
//! further recursive call; the guards keep the recursion well-founded and
//! never fail on the positions the grammar actually produces, which the
//! executable parser proves.

use vstd::prelude::*;

use crate::lexical::{
    digits_end, digits_val, find_byte, ident_end, is_digit, is_ident_start, op_end, ws_end,
};
use crate::syntax::{Associativity, SpecExpr, SpecNotationPattern, SpecPrimitive};

verus! {

pub open spec fn kw_fn(s: Seq<u8>, i: int) -> bool {
    &&& i + 2 <= s.len()
    &&& s[i] == ('f' as u8)
    &&& s[i + 1] == ('n' as u8)
}

pub open spec fn kw_true(s: Seq<u8>, i: int) -> bool {
    &&& i + 4 <= s.len()
    &&& s[i] == ('t' as u8)
    &&& s[i + 1] == ('r' as u8)
    &&& s[i + 2] == ('u' as u8)
    &&& s[i + 3] == ('e' as u8)
}

pub open spec fn kw_false(s: Seq<u8>, i: int) -> bool {
    &&& i + 5 <= s.len()
    &&& s[i] == ('f' as u8)
    &&& s[i + 1] == ('a' as u8)
    &&& s[i + 2] == ('l' as u8)
    &&& s[i + 3] == ('s' as u8)
    &&& s[i + 4] == ('e' as u8)
}

pub open spec fn kw_return(s: Seq<u8>, i: int) -> bool {
    &&& i + 6 <= s.len()
    &&& s[i] == ('r' as u8)
    &&& s[i + 1] == ('e' as u8)
    &&& s[i + 2] == ('t' as u8)
    &&& s[i + 3] == ('u' as u8)
    &&& s[i + 4] == ('r' as u8)
    &&& s[i + 5] == ('n' as u8)
}

pub open spec fn kw_notation(s: Seq<u8>, i: int) -> bool {
    &&& i + 8 <= s.len()
    &&& s[i] == ('n' as u8)
    &&& s[i + 1] == ('o' as u8)
    &&& s[i + 2] == ('t' as u8)
    &&& s[i + 3] == ('a' as u8)
    &&& s[i + 4] == ('t' as u8)
    &&& s[i + 5] == ('i' as u8)
    &&& s[i + 6] == ('o' as u8)
    &&& s[i + 7] == ('n' as u8)
}

pub open spec fn kw_with(s: Seq<u8>, i: int) -> bool {
    &&& i + 4 <= s.len()
    &&& s[i] == ('w' as u8)
    &&& s[i + 1] == ('i' as u8)
    &&& s[i + 2] == ('t' as u8)
    &&& s[i + 3] == ('h' as u8)
}

pub open spec fn kw_precedence(s: Seq<u8>, i: int) -> bool {
    &&& i + 10 <= s.len()
    &&& s[i] == ('p' as u8)
    &&& s[i + 1] == ('r' as u8)
    &&& s[i + 2] == ('e' as u8)
    &&& s[i + 3] == ('c' as u8)
    &&& s[i + 4] == ('e' as u8)
    &&& s[i + 5] == ('d' as u8)
    &&& s[i + 6] == ('e' as u8)
    &&& s[i + 7] == ('n' as u8)
    &&& s[i + 8] == ('c' as u8)
    &&& s[i + 9] == ('e' as u8)
}

pub open spec fn kw_associativity(s: Seq<u8>, i: int) -> bool {
    &&& i + 13 <= s.len()
    &&& s[i] == ('a' as u8)
    &&& s[i + 1] == ('s' as u8)
    &&& s[i + 2] == ('s' as u8)
    &&& s[i + 3] == ('o' as u8)
    &&& s[i + 4] == ('c' as u8)
    &&& s[i + 5] == ('i' as u8)
    &&& s[i + 6] == ('a' as u8)
    &&& s[i + 7] == ('t' as u8)
    &&& s[i + 8] == ('i' as u8)
    &&& s[i + 9] == ('v' as u8)
    &&& s[i + 10] == ('i' as u8)
    &&& s[i + 11] == ('t' as u8)
    &&& s[i + 12] == ('y' as u8)
}

pub open spec fn kw_left(s: Seq<u8>, i: int) -> bool {
    &&& i + 4 <= s.len()
    &&& s[i] == ('l' as u8)
    &&& s[i + 1] == ('e' as u8)
    &&& s[i + 2] == ('f' as u8)
    &&& s[i + 3] == ('t' as u8)
}

pub open spec fn kw_right(s: Seq<u8>, i: int) -> bool {
    &&& i + 5 <= s.len()
    &&& s[i] == ('r' as u8)
    &&& s[i + 1] == ('i' as u8)
    &&& s[i + 2] == ('g' as u8)
    &&& s[i + 3] == ('h' as u8)
    &&& s[i + 4] == ('t' as u8)
}

pub open spec fn kw_none(s: Seq<u8>, i: int) -> bool {
    &&& i + 4 <= s.len()
    &&& s[i] == ('n' as u8)
    &&& s[i + 1] == ('o' as u8)
    &&& s[i + 2] == ('n' as u8)
    &&& s[i + 3] == ('e' as u8)
}

pub open spec fn kw_from(s: Seq<u8>, i: int) -> bool {
    &&& i + 4 <= s.len()
    &&& s[i] == ('f' as u8)
    &&& s[i + 1] == ('r' as u8)
    &&& s[i + 2] == ('o' as u8)
    &&& s[i + 3] == ('m' as u8)
}

pub open spec fn kw_use(s: Seq<u8>, i: int) -> bool {
    &&& i + 3 <= s.len()
    &&& s[i] == ('u' as u8)
    &&& s[i + 1] == ('s' as u8)
    &&& s[i + 2] == ('e' as u8)
}

pub open spec fn kw_as(s: Seq<u8>, i: int) -> bool {
    &&& i + 2 <= s.len()
    &&& s[i] == ('a' as u8)
    &&& s[i + 1] == ('s' as u8)
}

pub open spec fn kw_coloneq(s: Seq<u8>, i: int) -> bool {
    &&& i + 2 <= s.len()
    &&& s[i] == (':' as u8)
    &&& s[i + 1] == ('=' as u8)
}

/// An identifier: a letter, underscore or dot, continued by the maximal
/// run of letters, digits, underscores and dots. Returns its text.
pub open spec fn spec_identifier(s: Seq<u8>, i: int) -> Option<(int, Seq<u8>)> {
    if 0 <= i && i < s.len() && is_ident_start(s[i]) {
        let j = ident_end(s, i);
        Option::Some((j, s.subrange(i, j)))
    } else {
        Option::None
    }
}

/// An integer literal: an optional minus sign and at least one digit.
/// A lexically valid run whose value does not fit in `i64` is rejected.
pub open spec fn spec_int(s: Seq<u8>, i: int) -> Option<(int, int)> {
    if 0 <= i <= s.len() {
        let d0 = if i < s.len() && s[i] == ('-' as u8) {
            i + 1
        } else {
            i
        };
        if d0 < s.len() && is_digit(s[d0]) {
            let j = digits_end(s, d0);
            let v0 = digits_val(s, d0, j);
            let v = if d0 != i {
                -v0
            } else {
                v0
            };
            if i64::MIN <= v <= i64::MAX {
                Option::Some((j, v))
            } else {
                Option::None
            }
        } else {
            Option::None
        }
    } else {
        Option::None
    }
}

/// End of an optional exponent part (`e`/`E`, optional sign, digits) at
/// `k`; `k` itself when no complete exponent follows.
pub open spec fn spec_float_exp(s: Seq<u8>, k: int) -> int {
    if 0 <= k && k < s.len() && (s[k] == ('e' as u8) || s[k] == ('E' as u8)) {
        let p = if k + 1 < s.len() && (s[k + 1] == ('+' as u8) || s[k + 1] == ('-' as u8)) {
            k + 2
        } else {
            k + 1
        };
        if p < s.len() && is_digit(s[p]) {
            digits_end(s, p)
        } else {
            k
        }
    } else {
        k
    }
}

/// A float literal: optional minus, digits, a dot, digits, and an
/// optional exponent. Its lexical form is kept as the result.
pub open spec fn spec_float(s: Seq<u8>, i: int) -> Option<(int, Seq<u8>)> {
    if 0 <= i <= s.len() {
        let d0 = if i < s.len() && s[i] == ('-' as u8) {
            i + 1
        } else {
            i
        };
        if d0 < s.len() && is_digit(s[d0]) {
            let j = digits_end(s, d0);
            if j < s.len() && s[j] == ('.' as u8) && j + 1 < s.len() && is_digit(s[j + 1]) {
                let k = digits_end(s, j + 1);
                let e = spec_float_exp(s, k);
                Option::Some((e, s.subrange(i, e)))
            } else {
                Option::None
            }
        } else {
            Option::None
        }
    } else {
        Option::None
    }
}

/// The body of a string literal from `i` up to (not including) the
/// closing quote, with escape sequences `\"`, `\\`, `\n`, `\r`, `\t`
/// decoded. Fails on any other escape or an unterminated literal.
pub open spec fn spec_string_body(s: Seq<u8>, i: int) -> Option<(int, Seq<u8>)>
    decreases s.len() - i,
    when 0 <= i <= s.len()
{
    if i >= s.len() {
        Option::None
    } else if s[i] == ('"' as u8) {
        Option::Some((i, Seq::empty()))
    } else if s[i] == ('\\' as u8) {
        if i + 1 < s.len() && (s[i + 1] == ('"' as u8) || s[i + 1] == ('\\' as u8) || s[i + 1]
            == ('n' as u8) || s[i + 1] == ('r' as u8) || s[i + 1] == ('t' as u8)) {
            let c = if s[i + 1] == ('n' as u8) {
                ('\n' as u8)
            } else if s[i + 1] == ('r' as u8) {
                ('\r' as u8)
            } else if s[i + 1] == ('t' as u8) {
                ('\t' as u8)
            } else {
                s[i + 1]
            };
            match spec_string_body(s, i + 2) {
                Option::Some((j, rest)) => Option::Some((j, seq![c] + rest)),
                Option::None => Option::None,
            }
        } else {
            Option::None
        }
    } else {
        match spec_string_body(s, i + 1) {
            Option::Some((j, rest)) => Option::Some((j, seq![s[i]] + rest)),
            Option::None => Option::None,
        }
    }
}

pub broadcast proof fn lemma_string_body_bounds(s: Seq<u8>, i: int)
    requires
        0 <= i <= s.len(),
    ensures
        match #[trigger] spec_string_body(s, i) {
            Option::Some((j, v)) => i <= j < s.len() && s[j] == ('"' as u8),
            Option::None => true,
        },
    decreases s.len() - i,
{
    if i < s.len() && s[i] != ('"' as u8) {
        if s[i] == ('\\' as u8) {
            if i + 2 <= s.len() {
                lemma_string_body_bounds(s, i + 2);
            }
        } else {
            lemma_string_body_bounds(s, i + 1);
        }
    }
}

/// A string literal: quote, body, quote. Returns the decoded contents.
pub open spec fn spec_string(s: Seq<u8>, i: int) -> Option<(int, Seq<u8>)> {
    if 0 <= i && i < s.len() && s[i] == ('"' as u8) {
        match spec_string_body(s, i + 1) {
            Option::Some((j, v)) => Option::Some((j + 1, v)),
            Option::None => Option::None,
        }
    } else {
        Option::None
    }
}

/// A boolean literal.
pub open spec fn spec_bool(s: Seq<u8>, i: int) -> Option<(int, bool)> {
    if kw_true(s, i) {
        Option::Some((i + 4, true))
    } else if kw_false(s, i) {
        Option::Some((i + 5, false))
    } else {
        Option::None
    }
}

/// The comma-separated list of parameter names of a function definition
/// (each a bare identifier), possibly empty. Never fails; stops before
/// the first text that does not continue the list.
pub open spec fn spec_param_list(s: Seq<u8>, i: int) -> (int, Seq<Seq<u8>>)
    decreases s.len() - i, 1int,
    when 0 <= i <= s.len()
{
    let m = ws_end(s, i);
    if i <= m <= s.len() {
        match spec_identifier(s, m) {
            Option::Some((j, name)) => if m < j <= s.len() {
                spec_param_list_rest(s, j, seq![name])
            } else {
                (i, Seq::empty())
            },
            Option::None => (i, Seq::empty()),
        }
    } else {
        (i, Seq::empty())
    }
}

pub open spec fn spec_param_list_rest(s: Seq<u8>, i: int, acc: Seq<Seq<u8>>) -> (int, Seq<Seq<u8>>)
    decreases s.len() - i, 0int,
    when 0 <= i <= s.len()
{
    let m = ws_end(s, i);
    if i <= m <= s.len() && m < s.len() && s[m] == (',' as u8) {
        let k = ws_end(s, m + 1);
        if m + 1 <= k <= s.len() {
            match spec_identifier(s, k) {
                Option::Some((j, name)) => if i < j <= s.len() {
                    spec_param_list_rest(s, j, acc.push(name))
                } else {
                    (i, acc)
                },
                Option::None => (i, acc),
            }
        } else {
            (i, acc)
        }
    } else {
        (i, acc)
    }
}

/// A notation pattern: a quoted template (taken verbatim up to the next
/// quote), an optional `with` variable list, an optional `precedence`
/// integer and an optional `associativity` keyword.
pub open spec fn spec_notation_pattern(s: Seq<u8>, i: int) -> Option<(int, SpecNotationPattern)> {
    if 0 <= i && i < s.len() && s[i] == ('"' as u8) {
        match find_byte(s, i + 1, '"' as u8) {
            Option::Some(q) => if i + 1 <= q < s.len() {
                let pat = s.subrange(i + 1, q);
                let after = q + 1;
                let m = ws_end(s, after);
                let pv_vars: (int, Seq<Seq<u8>>) = if after <= m <= s.len() && kw_with(s, m) {
                    let k = ws_end(s, m + 4);
                    if m + 4 <= k <= s.len() {
                        spec_param_list(s, k)
                    } else {
                        (after, Seq::empty())
                    }
                } else {
                    (after, Seq::empty())
                };
                let pv = pv_vars.0;
                let m2 = ws_end(s, pv);
                let pp_prec: (int, Option<int>) = if pv <= m2 <= s.len() && kw_precedence(s, m2) {
                    let k2 = ws_end(s, m2 + 10);
                    if m2 + 10 <= k2 <= s.len() {
                        match spec_int(s, k2) {
                            Option::Some((j2, v)) => (j2, Option::Some(v)),
                            Option::None => (pv, Option::None),
                        }
                    } else {
                        (pv, Option::None)
                    }
                } else {
                    (pv, Option::None)
                };
                let pp = pp_prec.0;
                let m3 = ws_end(s, pp);
                let pa_assoc: (int, Associativity) = if pp <= m3 <= s.len() && kw_associativity(
                    s,
                    m3,
                ) {
                    let k3 = ws_end(s, m3 + 13);
                    if m3 + 13 <= k3 <= s.len() {
                        if kw_left(s, k3) {
                            (k3 + 4, Associativity::Left)
                        } else if kw_right(s, k3) {
                            (k3 + 5, Associativity::Right)
                        } else if kw_none(s, k3) {
                            (k3 + 4, Associativity::NonAssoc)
                        } else {
                            (pp, Associativity::NonAssoc)
                        }
                    } else {
                        (pp, Associativity::NonAssoc)
                    }
                } else {
                    (pp, Associativity::NonAssoc)
                };
                Option::Some(
                    (
                        pa_assoc.0,
                        SpecNotationPattern {
                            pattern: pat,
                            variables: pv_vars.1,
                            precedence: pp_prec.1,
                            associativity: pa_assoc.1,
                        },
                    ),
                )
            } else {
                Option::None
            },
            Option::None => Option::None,
        }
    } else {
        Option::None
    }
}

/// An extern declaration: `from` module `use` name, optionally `as` alias.
pub open spec fn spec_ffi_decl(s: Seq<u8>, i: int) -> Option<(int, SpecExpr)> {
    if 0 <= i <= s.len() && kw_from(s, i) {
        let m = ws_end(s, i + 4);
        if i + 4 <= m <= s.len() {
            match spec_identifier(s, m) {
                Option::Some((j, module)) => if m < j <= s.len() {
                    let m2 = ws_end(s, j);
                    if j <= m2 <= s.len() && kw_use(s, m2) {
                        let k = ws_end(s, m2 + 3);
                        if m2 + 3 <= k <= s.len() {
                            match spec_identifier(s, k) {
                                Option::Some((j2, name)) => if k < j2 <= s.len() {
                                    let m3 = ws_end(s, j2);
                                    if j2 <= m3 <= s.len() && kw_as(s, m3) {
                                        let k2 = ws_end(s, m3 + 2);
                                        if m3 + 2 <= k2 <= s.len() {
                                            match spec_identifier(s, k2) {
                                                Option::Some((j3, alias)) => Option::Some(
                                                    (
                                                        j3,
                                                        SpecExpr::FFIDecl(
                                                            module,
                                                            name,
                                                            Option::Some(alias),
                                                        ),
                                                    ),
                                                ),
                                                Option::None => Option::Some(
                                                    (
                                                        j2,
                                                        SpecExpr::FFIDecl(
                                                            module,
                                                            name,
                                                            Option::None,
                                                        ),
                                                    ),
                                                ),
                                            }
                                        } else {
                                            Option::Some(
                                                (j2, SpecExpr::FFIDecl(module, name, Option::None)),
                                            )
                                        }
                                    } else {
                                        Option::Some(
                                            (j2, SpecExpr::FFIDecl(module, name, Option::None)),
                                        )
                                    }
                                } else {
                                    Option::None
                                },
                                Option::None => Option::None,
                            }
                        } else {
                            Option::None
                        }
                    } else {
                        Option::None
                    }
                } else {
                    Option::None
                },
                Option::None => Option::None,
            }
        } else {
            Option::None
        }
    } else {
        Option::None
    }
}

} // verus!

// The mutually recursive core of the grammar. The second `decreases`
// component ranks the productions that can call one another without
// consuming input: list of top-level expressions (10) > top-level
// expression (9) > notation declaration / expression-list helpers (8) >
// expression (7) > definition, assignment, return (6) > infix expression
// (5) > term (4) > primitive (3) > call, array (2).

verus! {

/// A primitive literal: float, integer, string, boolean or array, tried
/// in that order.
pub open spec fn spec_primitive(s: Seq<u8>, i: int) -> Option<(int, SpecExpr)>
    decreases s.len() - i, 3int,
    when 0 <= i <= s.len()
{
    match spec_float(s, i) {
        Option::Some((j, t)) => Option::Some(
            (j, SpecExpr::Primitive(SpecPrimitive::Float(t))),
        ),
        Option::None => match spec_int(s, i) {
            Option::Some((j, v)) => Option::Some(
                (j, SpecExpr::Primitive(SpecPrimitive::Int(v))),
            ),
            Option::None => match spec_string(s, i) {
                Option::Some((j, v)) => Option::Some(
                    (j, SpecExpr::Primitive(SpecPrimitive::Str(v))),
                ),
                Option::None => match spec_bool(s, i) {
                    Option::Some((j, b)) => Option::Some(
                        (j, SpecExpr::Primitive(SpecPrimitive::Bool(b))),
                    ),
                    Option::None => match spec_array(s, i) {
                        Option::Some((j, es)) => Option::Some(
                            (j, SpecExpr::Primitive(SpecPrimitive::Array(es))),
                        ),
                        Option::None => Option::None,
                    },
                },
            },
        },
    }
}

/// An array literal: a bracketed, comma-separated, possibly empty list
/// of expressions.
pub open spec fn spec_array(s: Seq<u8>, i: int) -> Option<(int, Seq<SpecExpr>)>
    decreases s.len() - i, 2int,
    when 0 <= i <= s.len()
{
    if i < s.len() && s[i] == ('[' as u8) {
        let r = spec_expr_list(s, i + 1);
        if i + 1 <= r.0 <= s.len() && r.0 < s.len() && s[r.0] == (']' as u8) {
            Option::Some((r.0 + 1, r.1))
        } else {
            Option::None
        }
    } else {
        Option::None
    }
}

/// A comma-separated, possibly empty expression list, as it appears in
/// argument lists and array literals. Never fails; stops before the
/// first text that does not continue the list.
pub open spec fn spec_expr_list(s: Seq<u8>, i: int) -> (int, Seq<SpecExpr>)
    decreases s.len() - i, 8int,
    when 0 <= i <= s.len()
{
    match spec_expr(s, i) {
        Option::None => (i, Seq::empty()),
        Option::Some((j, e)) => if i < j <= s.len() {
            spec_expr_list_rest(s, j, seq![e])
        } else {
            (i, Seq::empty())
        },
    }
}

pub open spec fn spec_expr_list_rest(s: Seq<u8>, i: int, acc: Seq<SpecExpr>) -> (
    int,
    Seq<SpecExpr>,
)
    decreases s.len() - i, 8int,
    when 0 <= i <= s.len()
{
    let m = ws_end(s, i);
    if i <= m <= s.len() && m < s.len() && s[m] == (',' as u8) {
        let k = ws_end(s, m + 1);
        if m + 1 <= k <= s.len() {
            match spec_expr(s, k) {
                Option::Some((j, e)) => if i < j <= s.len() {
                    spec_expr_list_rest(s, j, acc.push(e))
                } else {
                    (i, acc)
                },
                Option::None => (i, acc),
            }
        } else {
            (i, acc)
        }
    } else {
        (i, acc)
    }
}

/// A function call: an identifier immediately followed (no whitespace)
/// by a parenthesized argument list.
pub open spec fn spec_function_call(s: Seq<u8>, i: int) -> Option<(int, SpecExpr)>
    decreases s.len() - i, 2int,
    when 0 <= i <= s.len()
{
    match spec_identifier(s, i) {
        Option::Some((j, name)) => if i < j <= s.len() && j < s.len() && s[j] == ('(' as u8) {
            let r = spec_expr_list(s, j + 1);
            if j + 1 <= r.0 <= s.len() && r.0 < s.len() && s[r.0] == (')' as u8) {
                Option::Some(
                    (
                        r.0 + 1,
                        SpecExpr::FunctionCall(Box::new(SpecExpr::Variable(name)), r.1),
                    ),
                )
            } else {
                Option::None
            }
        } else {
            Option::None
        },
        Option::None => Option::None,
    }
}

/// A term: a primitive, a function call, a variable or a parenthesized
/// expression, each wrapped in insignificant text.
pub open spec fn spec_term(s: Seq<u8>, i: int) -> Option<(int, SpecExpr)>
    decreases s.len() - i, 4int,
    when 0 <= i <= s.len()
{
    let m = ws_end(s, i);
    if i <= m <= s.len() {
        let r = match spec_primitive(s, m) {
            Option::Some(p) => Option::Some(p),
            Option::None => match spec_function_call(s, m) {
                Option::Some(c) => Option::Some(c),
                Option::None => match spec_identifier(s, m) {
                    Option::Some((j, name)) => Option::Some((j, SpecExpr::Variable(name))),
                    Option::None => if m < s.len() && s[m] == ('(' as u8) {
                        match spec_expr(s, m + 1) {
                            Option::Some((j, e)) => if m + 1 <= j <= s.len() && j < s.len() && s[j]
                                == (')' as u8) {
                                Option::Some((j + 1, e))
                            } else {
                                Option::None
                            },
                            Option::None => Option::None,
                        }
                    } else {
                        Option::None
                    },
                },
            },
        };
        match r {
            Option::Some((j, e)) => if m <= j <= s.len() {
                let w = ws_end(s, j);
                if j <= w <= s.len() {
                    Option::Some((w, e))
                } else {
                    Option::None
                }
            } else {
                Option::None
            },
            Option::None => Option::None,
        }
    } else {
        Option::None
    }
}

/// The remaining `(operator, term)` pairs of an infix expression,
/// folded left to right onto `acc`. Never fails; stops before the first
/// text that does not continue the chain.
pub open spec fn spec_infix_rest(s: Seq<u8>, i: int, acc: SpecExpr) -> (int, SpecExpr)
    decreases s.len() - i, 5int,
    when 0 <= i <= s.len()
{
    let m = ws_end(s, i);
    if i <= m <= s.len() {
        let oe = op_end(s, m);
        if m < oe <= s.len() {
            let op = s.subrange(m, oe);
            let k = ws_end(s, oe);
            if oe <= k <= s.len() {
                match spec_term(s, k) {
                    Option::Some((j, t)) => if i < j <= s.len() {
                        spec_infix_rest(
                            s,
                            j,
                            SpecExpr::InfixOp(Box::new(acc), op, Box::new(t)),
                        )
                    } else {
                        (i, acc)
                    },
                    Option::None => (i, acc),
                }
            } else {
                (i, acc)
            }
        } else {
            (i, acc)
        }
    } else {
        (i, acc)
    }
}

/// An infix expression: a first term and zero or more `(operator, term)`
/// pairs, folded left-associatively.
pub open spec fn spec_infix_expr(s: Seq<u8>, i: int) -> Option<(int, SpecExpr)>
    decreases s.len() - i, 5int,
    when 0 <= i <= s.len()
{
    match spec_term(s, i) {
        Option::Some((j, first)) => if i < j <= s.len() {
            let r = spec_infix_rest(s, j, first);
            Option::Some(r)
        } else {
            Option::Some((j, first))
        },
        Option::None => Option::None,
    }
}

/// A return expression: `return` followed by an expression; the keyword
/// is recognized by prefix, as the source grammar does.
pub open spec fn spec_return(s: Seq<u8>, i: int) -> Option<(int, SpecExpr)>
    decreases s.len() - i, 6int,
    when 0 <= i <= s.len()
{
    if kw_return(s, i) {
        let k = ws_end(s, i + 6);
        if i + 6 <= k <= s.len() {
            match spec_expr(s, k) {
                Option::Some((j, e)) => Option::Some((j, SpecExpr::Return(Box::new(e)))),
                Option::None => Option::None,
            }
        } else {
            Option::None
        }
    } else {
        Option::None
    }
}

/// An assignment: an identifier, `=`, and an expression.
pub open spec fn spec_assignment(s: Seq<u8>, i: int) -> Option<(int, SpecExpr)>
    decreases s.len() - i, 6int,
    when 0 <= i <= s.len()
{
    match spec_identifier(s, i) {
        Option::Some((j, name)) => if i < j <= s.len() {
            let m = ws_end(s, j);
            if j <= m <= s.len() && m < s.len() && s[m] == ('=' as u8) {
                let k = ws_end(s, m + 1);
                if m + 1 <= k <= s.len() {
                    match spec_expr(s, k) {
                        Option::Some((j2, e)) => Option::Some(
                            (j2, SpecExpr::Assignment(name, Box::new(e))),
                        ),
                        Option::None => Option::None,
                    }
                } else {
                    Option::None
                }
            } else {
                Option::None
            }
        } else {
            Option::None
        },
        Option::None => Option::None,
    }
}

/// The body of a function definition: expressions, each optionally
/// terminated by a semicolon wrapped in insignificant text. Never fails.
pub open spec fn spec_body_exprs(s: Seq<u8>, i: int, acc: Seq<SpecExpr>) -> (int, Seq<SpecExpr>)
    decreases s.len() - i, 8int,
    when 0 <= i <= s.len()
{
    match spec_expr(s, i) {
        Option::None => (i, acc),
        Option::Some((j, e)) => if i < j <= s.len() {
            let m = ws_end(s, j);
            if j <= m <= s.len() {
                let p = if m < s.len() && s[m] == (';' as u8) {
                    m + 1
                } else {
                    m
                };
                let q = ws_end(s, p);
                if p <= q <= s.len() && i < q {
                    spec_body_exprs(s, q, acc.push(e))
                } else {
                    (i, acc)
                }
            } else {
                (i, acc)
            }
        } else {
            (i, acc)
        },
    }
}

/// A function definition: an optional `fn`, a name, a parenthesized
/// parameter list of bare identifiers, and a braced body.
pub open spec fn spec_function_def(s: Seq<u8>, i: int) -> Option<(int, SpecExpr)>
    decreases s.len() - i, 6int,
    when 0 <= i <= s.len()
{
    let d0 = if kw_fn(s, i) {
        i + 2
    } else {
        i
    };
    let m = ws_end(s, d0);
    if d0 <= m <= s.len() {
        match spec_identifier(s, m) {
            Option::Some((j, name)) => if m < j <= s.len() && j < s.len() && s[j] == ('(' as u8) {
                let pr = spec_param_list(s, j + 1);
                if j + 1 <= pr.0 <= s.len() && pr.0 < s.len() && s[pr.0] == (')' as u8) {
                    let m2 = ws_end(s, pr.0 + 1);
                    if pr.0 + 1 <= m2 <= s.len() && m2 < s.len() && s[m2] == ('{' as u8) {
                        let b0 = ws_end(s, m2 + 1);
                        if m2 + 1 <= b0 <= s.len() && i < b0 {
                            let br = spec_body_exprs(s, b0, Seq::empty());
                            if b0 <= br.0 <= s.len() {
                                let m3 = ws_end(s, br.0);
                                if br.0 <= m3 <= s.len() && m3 < s.len() && s[m3] == ('}' as u8) {
                                    let fin = ws_end(s, m3 + 1);
                                    if m3 + 1 <= fin <= s.len() {
                                        Option::Some(
                                            (fin, SpecExpr::FunctionDef(name, pr.1, br.1)),
                                        )
                                    } else {
                                        Option::None
                                    }
                                } else {
                                    Option::None
                                }
                            } else {
                                Option::None
                            }
                        } else {
                            Option::None
                        }
                    } else {
                        Option::None
                    }
                } else {
                    Option::None
                }
            } else {
                Option::None
            },
            Option::None => Option::None,
        }
    } else {
        Option::None
    }
}

/// An expression: a function definition, an assignment, a return or an
/// infix expression, tried in that order, wrapped in insignificant text.
pub open spec fn spec_expr(s: Seq<u8>, i: int) -> Option<(int, SpecExpr)>
    decreases s.len() - i, 7int,
    when 0 <= i <= s.len()
{
    let m = ws_end(s, i);
    if i <= m <= s.len() {
        let r = match spec_function_def(s, m) {
            Option::Some(d) => Option::Some(d),
            Option::None => match spec_assignment(s, m) {
                Option::Some(a) => Option::Some(a),
                Option::None => match spec_return(s, m) {
                    Option::Some(t) => Option::Some(t),
                    Option::None => spec_infix_expr(s, m),
                },
            },
        };
        match r {
            Option::Some((j, e)) => if m <= j <= s.len() {
                let w = ws_end(s, j);
                if j <= w <= s.len() {
                    Option::Some((w, e))
                } else {
                    Option::None
                }
            } else {
                Option::None
            },
            Option::None => Option::None,
        }
    } else {
        Option::None
    }
}

/// A notation declaration: `notation`, a pattern, `:=`, an expansion.
pub open spec fn spec_notation_decl(s: Seq<u8>, i: int) -> Option<(int, SpecExpr)>
    decreases s.len() - i, 8int,
    when 0 <= i <= s.len()
{
    if kw_notation(s, i) {
        let m = ws_end(s, i + 8);
        if i + 8 <= m <= s.len() {
            match spec_notation_pattern(s, m) {
                Option::Some((j, pat)) => if i < j <= s.len() {
                    let m2 = ws_end(s, j);
                    if j <= m2 <= s.len() && kw_coloneq(s, m2) {
                        let k = ws_end(s, m2 + 2);
                        if m2 + 2 <= k <= s.len() {
                            match spec_expr(s, k) {
                                Option::Some((j2, e)) => Option::Some(
                                    (j2, SpecExpr::NotationDecl(pat, Box::new(e))),
                                ),
                                Option::None => Option::None,
                            }
                        } else {
                            Option::None
                        }
                    } else {
                        Option::None
                    }
                } else {
                    Option::None
                },
                Option::None => Option::None,
            }
        } else {
            Option::None
        }
    } else {
        Option::None
    }
}

/// A top-level expression: an extern declaration, a notation declaration
/// or an expression with an optional trailing semicolon, in that order,
/// after insignificant text (whitespace and comments may stand between
/// any two syntactic units).
pub open spec fn spec_top_level(s: Seq<u8>, i: int) -> Option<(int, SpecExpr)>
    decreases s.len() - i, 9int,
    when 0 <= i <= s.len()
{
    let i = ws_end(s, i);
    if !(0 <= i <= s.len()) {
        Option::None
    } else {
    match spec_ffi_decl(s, i) {
        Option::Some(d) => Option::Some(d),
        Option::None => match spec_notation_decl(s, i) {
            Option::Some(n) => Option::Some(n),
            Option::None => match spec_expr(s, i) {
                Option::Some((j, e)) => if i < j <= s.len() {
                    let m = ws_end(s, j);
                    if j <= m <= s.len() {
                        let p = if m < s.len() && s[m] == (';' as u8) {
                            m + 1
                        } else {
                            m
                        };
                        let q = ws_end(s, p);
                        if p <= q <= s.len() {
                            Option::Some((q, e))
                        } else {
                            Option::None
                        }
                    } else {
                        Option::None
                    }
                } else {
                    Option::None
                },
                Option::None => Option::None,
            },
        },
    }
    }
}

/// One or more top-level expressions.
pub open spec fn spec_top_levels(s: Seq<u8>, i: int, acc: Seq<SpecExpr>) -> Option<(
    int,
    Seq<SpecExpr>,
)>
    decreases s.len() - i, 10int,
    when 0 <= i <= s.len()
{
    match spec_top_level(s, i) {
        Option::None => if acc.len() == 0 {
            Option::None
        } else {
            Option::Some((i, acc))
        },
        Option::Some((j, e)) => if i < j <= s.len() {
            spec_top_levels(s, j, acc.push(e))
        } else {
            Option::Some((j, acc.push(e)))
        },
    }
}

/// A whole program: insignificant text, one or more top-level
/// expressions, insignificant text, and nothing else — a non-empty
/// unconsumed remainder is a failure, not a partial success.
pub open spec fn spec_program(s: Seq<u8>) -> Option<Seq<SpecExpr>> {
    let m = ws_end(s, 0);
    if 0 <= m <= s.len() {
        match spec_top_levels(s, m, Seq::empty()) {
            Option::Some((j, es)) => if m <= j <= s.len() {
                let w = ws_end(s, j);
                if w == s.len() {
                    Option::Some(es)
                } else {
                    Option::None
                }
            } else {
                Option::None
            },
            Option::None => Option::None,
        }
    } else {
        Option::None
    }
}

} // verus!

// Law of whole-input consumption.

verus! {

/// Parsing is total-consumption: a program parse succeeds exactly when
/// one or more top-level expressions parse and nothing but whitespace
/// and comments remains after them, to the very end of the input. A
/// non-empty unconsumed remainder is never a silent partial success.
pub proof fn lemma_parse_total_consumption(s: Seq<u8>)
    ensures
        spec_program(s) is Some <==> ({
            let m = ws_end(s, 0);
            &&& 0 <= m <= s.len()
            &&& match spec_top_levels(s, m, Seq::empty()) {
                Option::Some((j, es)) => m <= j <= s.len() && ws_end(s, j) == s.len(),
                Option::None => false,
            }
        }),
{
}

} // verus!
