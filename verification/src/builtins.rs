//! A built-in external call surface: integer arithmetic implemented
//! natively, so programs can call `add` and `square` without any
//! foreign runtime. Any module loads successfully and exports the two
//! names. Arithmetic that would leave the 64-bit signed range is a
//! call error, never a wrapped value.

use vstd::prelude::*;

use crate::ffi::{FFIError, FFIProtocol, SpecFFIError};
use crate::lexical::copy_range;
use crate::syntax::{view_names, view_values, Primitive, SpecPrimitive, SpecValue, Value};

verus! {

broadcast use {
    crate::syntax::lemma_view_names_len,
    crate::syntax::lemma_view_names_index,
    crate::syntax::lemma_view_names_push,
    crate::syntax::lemma_view_values_len,
    crate::syntax::lemma_view_values_index,
};

pub open spec fn name_add() -> Seq<u8> {
    seq![('a' as u8), ('d' as u8), ('d' as u8)]
}

pub open spec fn name_square() -> Seq<u8> {
    seq![('s' as u8), ('q' as u8), ('u' as u8), ('a' as u8), ('r' as u8), ('e' as u8)]
}

/// Position of the last `.` in a qualified name, if any.
pub open spec fn last_dot(s: Seq<u8>) -> Option<int>
    decreases s.len(),
{
    if s.len() == 0 {
        Option::None
    } else if s.last() == ('.' as u8) {
        Option::Some(s.len() - 1)
    } else {
        last_dot(s.drop_last())
    }
}

/// The part of a qualified name after its last `.`; the whole name when
/// it has none.
pub open spec fn base_name(s: Seq<u8>) -> Seq<u8> {
    match last_dot(s) {
        Option::Some(i) => s.subrange(i + 1, s.len() as int),
        Option::None => s,
    }
}

/// Sums integer argument values left to right onto `acc`, failing on a
/// non-integer argument or on a step that leaves the 64-bit range.
pub open spec fn spec_add_all(args: Seq<SpecValue>, acc: int) -> Option<int>
    decreases args.len(),
{
    if args.len() == 0 {
        Option::Some(acc)
    } else {
        match args[0] {
            SpecValue::Primitive(SpecPrimitive::Int(x)) => {
                let a2 = acc + x;
                if i64::MIN <= a2 <= i64::MAX {
                    spec_add_all(args.drop_first(), a2)
                } else {
                    Option::None
                }
            },
            _ => Option::None,
        }
    }
}

/// What a call of the built-in surface returns: `add` sums its integer
/// arguments, `square` multiplies its one integer argument by itself;
/// anything else, a non-integer argument, or a result outside the
/// 64-bit signed range fails.
pub open spec fn spec_builtin_call(func_path: Seq<u8>, args: Seq<SpecValue>) -> Result<
    SpecValue,
    SpecFFIError,
> {
    let base = base_name(func_path);
    if base == name_add() {
        match spec_add_all(args, 0) {
            Option::Some(s) => Result::Ok(SpecValue::Primitive(SpecPrimitive::Int(s))),
            Option::None => Result::Err(SpecFFIError::CallError(func_path)),
        }
    } else if base == name_square() {
        if args.len() == 1 {
            match args[0] {
                SpecValue::Primitive(SpecPrimitive::Int(x)) => {
                    if i64::MIN <= x * x <= i64::MAX {
                        Result::Ok(SpecValue::Primitive(SpecPrimitive::Int(x * x)))
                    } else {
                        Result::Err(SpecFFIError::CallError(func_path))
                    }
                },
                _ => Result::Err(SpecFFIError::CallError(func_path)),
            }
        } else {
            Result::Err(SpecFFIError::CallError(func_path))
        }
    } else {
        Result::Err(SpecFFIError::FunctionNotFound(base))
    }
}

/// The built-in arithmetic surface. It is stateless: loading a module
/// only reports the exported names.
pub struct Builtins {}

impl FFIProtocol for Builtins {
    open spec fn load_result(&self, module_name: Seq<u8>) -> Result<Seq<Seq<u8>>, SpecFFIError> {
        Result::Ok(seq![name_add(), name_square()])
    }

    open spec fn load_next(&self, module_name: Seq<u8>) -> Self {
        Builtins {  }
    }

    open spec fn call_result(&self, func_path: Seq<u8>, args: Seq<SpecValue>) -> Result<
        SpecValue,
        SpecFFIError,
    > {
        spec_builtin_call(func_path, args)
    }

    fn load_module(&mut self, module_name: &[u8]) -> (r: Result<Vec<Vec<u8>>, FFIError>) {
        let mut add: Vec<u8> = Vec::new();
        add.push('a' as u8);
        add.push('d' as u8);
        add.push('d' as u8);
        let mut square: Vec<u8> = Vec::new();
        square.push('s' as u8);
        square.push('q' as u8);
        square.push('u' as u8);
        square.push('a' as u8);
        square.push('r' as u8);
        square.push('e' as u8);
        let mut names: Vec<Vec<u8>> = Vec::new();
        proof {
            assert(view_names(names@) =~= Seq::<Seq<u8>>::empty());
            assert(add@ =~= name_add());
            assert(square@ =~= name_square());
        }
        let ghost s0 = names@;
        names.push(add);
        let ghost s1 = names@;
        names.push(square);
        proof {
            assert(view_names(s0) =~= Seq::<Seq<u8>>::empty());
            assert(view_names(names@) =~= seq![name_add(), name_square()]);
        }
        Result::Ok(names)
    }

    #[verifier::loop_isolation(false)]
    fn call_function(&self, func_path: &[u8], args: Vec<Value>) -> (r: Result<Value, FFIError>) {
        let n = func_path.len();
        let ghost full = func_path@;
        // find the last dot
        proof {
            assert(full.subrange(0, full.len() as int) =~= full);
        }
        let mut i: usize = n;
        let mut dot: Option<usize> = Option::None;
        while i > 0
            invariant
                0 <= i <= n,
                n == full.len(),
                dot is None,
                last_dot(full) == last_dot(full.subrange(0, i as int)),
            decreases i,
        {
            i = i - 1;
            proof {
                assert(full.subrange(0, i + 1).drop_last() =~= full.subrange(0, i as int));
                assert(full.subrange(0, i + 1).last() == full[i as int]);
            }
            if func_path[i] == ('.' as u8) {
                dot = Option::Some(i);
                break ;
            }
        }
        proof {
            assert(full.subrange(0, 0) =~= Seq::<u8>::empty());
        }
        let base: Vec<u8> = match dot {
            Option::Some(d) => copy_range(func_path, d + 1, n),
            Option::None => copy_range(func_path, 0, n),
        };
        proof {
            assert(base@ == base_name(full));
        }
        let is_add = base.len() == 3 && base[0] == ('a' as u8) && base[1] == ('d' as u8) && base[2]
            == ('d' as u8);
        let is_square = base.len() == 6 && base[0] == ('s' as u8) && base[1] == ('q' as u8)
            && base[2] == ('u' as u8) && base[3] == ('a' as u8) && base[4] == ('r' as u8)
            && base[5] == ('e' as u8);
        proof {
            if is_add {
                assert(base@ =~= name_add());
            }
            if is_square {
                assert(base@ =~= name_square());
            }
            if !is_add {
                assert(base@ != name_add());
            }
            if !is_square {
                assert(base@ != name_square());
            }
        }
        if is_add {
            let ghost argsv = view_values(args@);
            proof {
                assert(argsv.subrange(0, argsv.len() as int) =~= argsv);
            }
            let mut acc: i64 = 0;
            let mut k: usize = 0;
            while k < args.len()
                invariant
                    0 <= k <= args@.len(),
                    spec_add_all(argsv, 0) == spec_add_all(
                        argsv.subrange(k as int, argsv.len() as int),
                        acc as int,
                    ),
                decreases args@.len() - k,
            {
                let ghost tail = argsv.subrange(k as int, argsv.len() as int);
                proof {
                    assert(tail[0] == view_values(args@)[k as int]);
                    assert(tail.drop_first() =~= argsv.subrange(k + 1, argsv.len() as int));
                }
                let x: i64 = match &args[k] {
                    Value::Primitive(Primitive::Int(x)) => *x,
                    _ => {
                        return Result::Err(FFIError::CallError(copy_range(func_path, 0, n)));
                    },
                };
                let wide: i128 = (acc as i128) + (x as i128);
                if wide > (i64::MAX as i128) || wide < (i64::MIN as i128) {
                    return Result::Err(FFIError::CallError(copy_range(func_path, 0, n)));
                }
                acc = wide as i64;
                k += 1;
            }
            proof {
                assert(argsv.subrange(argsv.len() as int, argsv.len() as int)
                    =~= Seq::<SpecValue>::empty());
            }
            Result::Ok(Value::Primitive(Primitive::Int(acc)))
        } else if is_square {
            if args.len() != 1 {
                return Result::Err(FFIError::CallError(copy_range(func_path, 0, n)));
            }
            let x: i64 = match &args[0] {
                Value::Primitive(Primitive::Int(x)) => *x,
                _ => {
                    return Result::Err(FFIError::CallError(copy_range(func_path, 0, n)));
                },
            };
            let xi: i128 = x as i128;
            proof {
                assert(i128::MIN <= xi * xi <= i128::MAX) by (nonlinear_arith)
                    requires
                        -9223372036854775808 <= xi <= 9223372036854775807,
                ;
            }
            let wide: i128 = xi * xi;
            if wide > (i64::MAX as i128) || wide < (i64::MIN as i128) {
                return Result::Err(FFIError::CallError(copy_range(func_path, 0, n)));
            }
            Result::Ok(Value::Primitive(Primitive::Int(wide as i64)))
        } else {
            Result::Err(FFIError::FunctionNotFound(base))
        }
    }
}

} // verus!
