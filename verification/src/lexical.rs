//! Lexical primitives: byte classes, maximal-run scanners, whitespace and
//! comment skipping, and the numeric value of a digit run. Scanning is
//! interleaved with parsing; there is no separate lexer stage.

use vstd::prelude::*;

verus! {

/// Whitespace bytes: space, tab, newline, carriage return.
pub open spec fn is_space(c: u8) -> bool {
    c == (' ' as u8) || c == ('\t' as u8) || c == ('\n' as u8) || c == ('\r' as u8)
}

/// ASCII decimal digit.
pub open spec fn is_digit(c: u8) -> bool {
    ('0' as u8) <= c <= ('9' as u8)
}

/// ASCII letter.
pub open spec fn is_alpha(c: u8) -> bool {
    (('a' as u8) <= c <= ('z' as u8)) || (('A' as u8) <= c <= ('Z' as u8))
}

/// A byte that may start an identifier: a letter, underscore or dot
/// (dots appear in qualified module paths).
pub open spec fn is_ident_start(c: u8) -> bool {
    is_alpha(c) || c == ('_' as u8) || c == ('.' as u8)
}

/// A byte that may continue an identifier.
pub open spec fn is_ident_char(c: u8) -> bool {
    is_alpha(c) || is_digit(c) || c == ('_' as u8) || c == ('.' as u8)
}

/// An infix operator byte, drawn from the class `! @ # $ % ^ & * - + = | < > ? / : ~`.
pub open spec fn is_op_char(c: u8) -> bool {
    ||| c == ('!' as u8)
    ||| c == ('@' as u8)
    ||| c == ('#' as u8)
    ||| c == ('$' as u8)
    ||| c == ('%' as u8)
    ||| c == ('^' as u8)
    ||| c == ('&' as u8)
    ||| c == ('*' as u8)
    ||| c == ('-' as u8)
    ||| c == ('+' as u8)
    ||| c == ('=' as u8)
    ||| c == ('|' as u8)
    ||| c == ('<' as u8)
    ||| c == ('>' as u8)
    ||| c == ('?' as u8)
    ||| c == ('/' as u8)
    ||| c == (':' as u8)
    ||| c == ('~' as u8)
}

/// End of the maximal run of decimal digits starting at `i`.
pub open spec fn digits_end(s: Seq<u8>, i: int) -> int
    decreases s.len() - i,
    when 0 <= i <= s.len()
{
    if i < s.len() && is_digit(s[i]) {
        digits_end(s, i + 1)
    } else {
        i
    }
}

/// End of the maximal run of identifier bytes starting at `i`.
pub open spec fn ident_end(s: Seq<u8>, i: int) -> int
    decreases s.len() - i,
    when 0 <= i <= s.len()
{
    if i < s.len() && is_ident_char(s[i]) {
        ident_end(s, i + 1)
    } else {
        i
    }
}

/// End of the maximal run of operator bytes starting at `i`.
pub open spec fn op_end(s: Seq<u8>, i: int) -> int
    decreases s.len() - i,
    when 0 <= i <= s.len()
{
    if i < s.len() && is_op_char(s[i]) {
        op_end(s, i + 1)
    } else {
        i
    }
}

/// Position of the first occurrence of `c` at or after `i`, if any.
pub open spec fn find_byte(s: Seq<u8>, i: int, c: u8) -> Option<int>
    decreases s.len() - i,
    when 0 <= i <= s.len()
{
    if i < s.len() {
        if s[i] == c {
            Option::Some(i)
        } else {
            find_byte(s, i + 1, c)
        }
    } else {
        Option::None
    }
}

/// Position of the first occurrence of the two-byte sequence `*/` at or
/// after `i`, if any.
pub open spec fn find_close(s: Seq<u8>, i: int) -> Option<int>
    decreases s.len() - i,
    when 0 <= i <= s.len()
{
    if i + 1 < s.len() {
        if s[i] == ('*' as u8) && s[i + 1] == ('/' as u8) {
            Option::Some(i)
        } else {
            find_close(s, i + 1)
        }
    } else {
        Option::None
    }
}

/// End of the run of insignificant text starting at `i`: whitespace,
/// line comments `//` (up to, not including, the next newline, which the
/// next round then consumes as whitespace) and block comments `/* */`.
/// An unterminated comment is not consumed.
pub open spec fn ws_end(s: Seq<u8>, i: int) -> int
    decreases s.len() - i,
    when 0 <= i <= s.len()
{
    if i < s.len() && is_space(s[i]) {
        ws_end(s, i + 1)
    } else if i + 2 <= s.len() && s[i] == ('/' as u8) && s[i + 1] == ('/' as u8) {
        match find_byte(s, i + 2, '\n' as u8) {
            Option::Some(j) => if i + 2 <= j <= s.len() {
                ws_end(s, j)
            } else {
                i
            },
            Option::None => i,
        }
    } else if i + 2 <= s.len() && s[i] == ('/' as u8) && s[i + 1] == ('*' as u8) {
        match find_close(s, i + 2) {
            Option::Some(j) => if i + 2 <= j && j + 2 <= s.len() {
                ws_end(s, j + 2)
            } else {
                i
            },
            Option::None => i,
        }
    } else {
        i
    }
}

pub broadcast proof fn lemma_digits_end_bounds(s: Seq<u8>, i: int)
    requires
        0 <= i <= s.len(),
    ensures
        i <= #[trigger] digits_end(s, i) <= s.len(),
    decreases s.len() - i,
{
    if i < s.len() && is_digit(s[i]) {
        lemma_digits_end_bounds(s, i + 1);
    }
}

pub broadcast proof fn lemma_ident_end_bounds(s: Seq<u8>, i: int)
    requires
        0 <= i <= s.len(),
    ensures
        i <= #[trigger] ident_end(s, i) <= s.len(),
    decreases s.len() - i,
{
    if i < s.len() && is_ident_char(s[i]) {
        lemma_ident_end_bounds(s, i + 1);
    }
}

pub broadcast proof fn lemma_op_end_bounds(s: Seq<u8>, i: int)
    requires
        0 <= i <= s.len(),
    ensures
        i <= #[trigger] op_end(s, i) <= s.len(),
    decreases s.len() - i,
{
    if i < s.len() && is_op_char(s[i]) {
        lemma_op_end_bounds(s, i + 1);
    }
}

pub broadcast proof fn lemma_find_byte_bounds(s: Seq<u8>, i: int, c: u8)
    requires
        0 <= i <= s.len(),
    ensures
        match #[trigger] find_byte(s, i, c) {
            Option::Some(j) => i <= j < s.len() && s[j] == c,
            Option::None => true,
        },
    decreases s.len() - i,
{
    if i < s.len() && s[i] != c {
        lemma_find_byte_bounds(s, i + 1, c);
    }
}

pub broadcast proof fn lemma_find_close_bounds(s: Seq<u8>, i: int)
    requires
        0 <= i <= s.len(),
    ensures
        match #[trigger] find_close(s, i) {
            Option::Some(j) => i <= j && j + 2 <= s.len(),
            Option::None => true,
        },
    decreases s.len() - i,
{
    if i + 1 < s.len() && !(s[i] == ('*' as u8) && s[i + 1] == ('/' as u8)) {
        lemma_find_close_bounds(s, i + 1);
    }
}

pub broadcast proof fn lemma_ws_end_bounds(s: Seq<u8>, i: int)
    requires
        0 <= i <= s.len(),
    ensures
        i <= #[trigger] ws_end(s, i) <= s.len(),
    decreases s.len() - i,
{
    if i < s.len() && is_space(s[i]) {
        lemma_ws_end_bounds(s, i + 1);
    } else if i + 2 <= s.len() && s[i] == ('/' as u8) && s[i + 1] == ('/' as u8) {
        match find_byte(s, i + 2, '\n' as u8) {
            Option::Some(j) => {
                if i + 2 <= j <= s.len() {
                    lemma_ws_end_bounds(s, j);
                }
            },
            Option::None => {},
        }
    } else if i + 2 <= s.len() && s[i] == ('/' as u8) && s[i + 1] == ('*' as u8) {
        match find_close(s, i + 2) {
            Option::Some(j) => {
                if i + 2 <= j && j + 2 <= s.len() {
                    lemma_ws_end_bounds(s, j + 2);
                }
            },
            Option::None => {},
        }
    }
}

pub proof fn lemma_digits_end_range(s: Seq<u8>, i: int)
    requires
        0 <= i <= s.len(),
    ensures
        forall|k: int| i <= k < digits_end(s, i) ==> is_digit(#[trigger] s[k]),
    decreases s.len() - i,
{
    if i < s.len() && is_digit(s[i]) {
        lemma_digits_end_range(s, i + 1);
        lemma_digits_end_bounds(s, i + 1);
    }
}

/// Decimal value of the digit run `s[i..j]`, most significant digit first.
pub open spec fn digits_val(s: Seq<u8>, i: int, j: int) -> int
    decreases j - i,
    when 0 <= i <= j <= s.len()
{
    if i >= j {
        0
    } else {
        digits_val(s, i, j - 1) * 10 + (s[j - 1] - ('0' as u8))
    }
}

pub broadcast proof fn lemma_digits_val_nonneg(s: Seq<u8>, i: int, j: int)
    requires
        0 <= i <= j <= s.len(),
        forall|k: int| i <= k < j ==> is_digit(s[k]),
    ensures
        #[trigger] digits_val(s, i, j) >= 0,
    decreases j - i,
{
    if i < j {
        lemma_digits_val_nonneg(s, i, j - 1);
    }
}

/// Extending a digit run to the right can only increase its value.
pub proof fn lemma_digits_val_mono(s: Seq<u8>, i: int, j: int, k: int)
    requires
        0 <= i <= j <= k <= s.len(),
        forall|m: int| i <= m < k ==> is_digit(s[m]),
    ensures
        digits_val(s, i, j) <= digits_val(s, i, k),
    decreases k - j,
{
    if j < k {
        lemma_digits_val_mono(s, i, j, k - 1);
        lemma_digits_val_nonneg(s, i, k - 1);
    }
}

} // verus!

// Executable counterparts of the scanners above.

verus! {

/// True when the bytes of `a` and `b` are equal.
pub fn bytes_eq(a: &[u8], b: &[u8]) -> (r: bool)
    ensures
        r == (a@ == b@),
{
    if a.len() != b.len() {
        assert(a@.len() != b@.len());
        return false;
    }
    let mut k: usize = 0;
    while k < a.len()
        invariant
            0 <= k <= a@.len(),
            a@.len() == b@.len(),
            forall|m: int| 0 <= m < k ==> a@[m] == b@[m],
        decreases a@.len() - k,
    {
        if a[k] != b[k] {
            return false;
        }
        k += 1;
    }
    assert(a@ =~= b@);
    true
}

/// Copies `input[from..to]` into a fresh vector.
pub fn copy_range(input: &[u8], from: usize, to: usize) -> (v: Vec<u8>)
    requires
        from <= to <= input@.len(),
    ensures
        v@ == input@.subrange(from as int, to as int),
{
    let mut v: Vec<u8> = Vec::new();
    let mut k: usize = from;
    while k < to
        invariant
            from <= k <= to <= input@.len(),
            v@ =~= input@.subrange(from as int, k as int),
        decreases to - k,
    {
        v.push(input[k]);
        assert(v@ =~= input@.subrange(from as int, k + 1));
        k += 1;
    }
    assert(v@ =~= input@.subrange(from as int, to as int));
    v
}

pub fn is_space_b(c: u8) -> (r: bool)
    ensures
        r == is_space(c),
{
    c == (' ' as u8) || c == ('\t' as u8) || c == ('\n' as u8) || c == ('\r' as u8)
}

pub fn is_digit_b(c: u8) -> (r: bool)
    ensures
        r == is_digit(c),
{
    ('0' as u8) <= c && c <= ('9' as u8)
}

pub fn is_ident_start_b(c: u8) -> (r: bool)
    ensures
        r == is_ident_start(c),
{
    (('a' as u8) <= c && c <= ('z' as u8)) || (('A' as u8) <= c && c <= ('Z' as u8)) || c == ('_'
        as u8) || c == ('.' as u8)
}

pub fn is_ident_char_b(c: u8) -> (r: bool)
    ensures
        r == is_ident_char(c),
{
    (('a' as u8) <= c && c <= ('z' as u8)) || (('A' as u8) <= c && c <= ('Z' as u8)) || (('0'
        as u8) <= c && c <= ('9' as u8)) || c == ('_' as u8) || c == ('.' as u8)
}

pub fn is_op_char_b(c: u8) -> (r: bool)
    ensures
        r == is_op_char(c),
{
    c == ('!' as u8) || c == ('@' as u8) || c == ('#' as u8) || c == ('$' as u8) || c == ('%'
        as u8) || c == ('^' as u8) || c == ('&' as u8) || c == ('*' as u8) || c == ('-' as u8) || c
        == ('+' as u8) || c == ('=' as u8) || c == ('|' as u8) || c == ('<' as u8) || c == ('>'
        as u8) || c == ('?' as u8) || c == ('/' as u8) || c == (':' as u8) || c == ('~' as u8)
}

/// Scans the maximal digit run starting at `pos`.
pub fn scan_digits(input: &[u8], pos: usize) -> (r: usize)
    requires
        pos <= input@.len(),
    ensures
        r == digits_end(input@, pos as int),
        pos <= r <= input@.len(),
{
    proof {
        broadcast use lemma_digits_end_bounds;

    }
    let mut cur = pos;
    while cur < input.len() && is_digit_b(input[cur])
        invariant
            pos <= cur <= input@.len(),
            digits_end(input@, pos as int) == digits_end(input@, cur as int),
        decreases input@.len() - cur,
    {
        cur += 1;
    }
    cur
}

/// Scans the maximal identifier run starting at `pos`.
pub fn scan_ident(input: &[u8], pos: usize) -> (r: usize)
    requires
        pos <= input@.len(),
    ensures
        r == ident_end(input@, pos as int),
        pos <= r <= input@.len(),
{
    proof {
        broadcast use lemma_ident_end_bounds;

    }
    let mut cur = pos;
    while cur < input.len() && is_ident_char_b(input[cur])
        invariant
            pos <= cur <= input@.len(),
            ident_end(input@, pos as int) == ident_end(input@, cur as int),
        decreases input@.len() - cur,
    {
        cur += 1;
    }
    cur
}

/// Scans the maximal operator run starting at `pos`.
pub fn scan_op(input: &[u8], pos: usize) -> (r: usize)
    requires
        pos <= input@.len(),
    ensures
        r == op_end(input@, pos as int),
        pos <= r <= input@.len(),
{
    proof {
        broadcast use lemma_op_end_bounds;

    }
    let mut cur = pos;
    while cur < input.len() && is_op_char_b(input[cur])
        invariant
            pos <= cur <= input@.len(),
            op_end(input@, pos as int) == op_end(input@, cur as int),
        decreases input@.len() - cur,
    {
        cur += 1;
    }
    cur
}

/// Finds the first occurrence of `c` at or after `from`.
pub fn find_byte_at(input: &[u8], from: usize, c: u8) -> (r: Option<usize>)
    requires
        from <= input@.len(),
    ensures
        match r {
            Option::Some(j) => find_byte(input@, from as int, c) == Option::Some(j as int) && from
                <= j < input@.len(),
            Option::None => find_byte(input@, from as int, c) is None,
        },
{
    let mut cur = from;
    while cur < input.len()
        invariant
            from <= cur <= input@.len(),
            find_byte(input@, from as int, c) == find_byte(input@, cur as int, c),
        decreases input@.len() - cur,
    {
        if input[cur] == c {
            return Option::Some(cur);
        }
        cur += 1;
    }
    Option::None
}

/// Finds the first occurrence of `*/` at or after `from`.
pub fn find_close_at(input: &[u8], from: usize) -> (r: Option<usize>)
    requires
        from <= input@.len(),
    ensures
        match r {
            Option::Some(j) => find_close(input@, from as int) == Option::Some(j as int) && from
                <= j && j + 2 <= input@.len(),
            Option::None => find_close(input@, from as int) is None,
        },
{
    let mut cur = from;
    while input.len() - cur >= 2
        invariant
            from <= cur <= input@.len(),
            find_close(input@, from as int) == find_close(input@, cur as int),
        decreases input@.len() - cur,
    {
        if input[cur] == ('*' as u8) && input[cur + 1] == ('/' as u8) {
            return Option::Some(cur);
        }
        cur += 1;
    }
    Option::None
}

/// Skips whitespace and comments starting at `pos`.
pub fn skip_ws(input: &[u8], pos: usize) -> (r: usize)
    requires
        pos <= input@.len(),
    ensures
        r == ws_end(input@, pos as int),
        pos <= r <= input@.len(),
{
    let mut cur = pos;
    loop
        invariant
            pos <= cur <= input@.len(),
            ws_end(input@, pos as int) == ws_end(input@, cur as int),
        ensures
            pos <= cur <= input@.len(),
            ws_end(input@, pos as int) == cur,
        decreases input@.len() - cur,
    {
        if cur < input.len() && is_space_b(input[cur]) {
            cur += 1;
        } else if input.len() - cur >= 2 && input[cur] == ('/' as u8) && input[cur + 1] == ('/'
            as u8) {
            match find_byte_at(input, cur + 2, '\n' as u8) {
                Option::Some(j) => {
                    cur = j;
                },
                Option::None => {
                    return cur;
                },
            }
        } else if input.len() - cur >= 2 && input[cur] == ('/' as u8) && input[cur + 1] == ('*'
            as u8) {
            match find_close_at(input, cur + 2) {
                Option::Some(j) => {
                    cur = j + 2;
                },
                Option::None => {
                    return cur;
                },
            }
        } else {
            return cur;
        }
    }
}

} // verus!
