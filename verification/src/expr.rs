//! Integer arithmetic for `%[..]`: decimal numbers, `+ - * /`, a minus
//! sign and parentheses, over 64-bit signed values.
//!
//! The value of a text is defined by division: a sum splits at its last
//! `+` or `-` outside parentheses, a product at its last `*` or `/`, and
//! what has neither is a number, a negation or a parenthesised sum.

use vstd::prelude::*;
use crate::error::ParseFault;
use crate::text::{blank, blank_end, digit, is_blank, is_digit, skip_blanks};

verus! {

/// The value of a decimal digit.
pub open spec fn digit_value(c: char) -> int {
    (c as u32) as int - 48
}

/// Every character of `s[lo..hi)` is a digit, and there is at least one.
pub open spec fn all_digits(s: Seq<char>, lo: int, hi: int) -> bool {
    lo < hi && forall|i: int| lo <= i < hi ==> is_digit(#[trigger] s[i])
}

/// The number that the decimal digits in `s[lo..hi)` write.
pub open spec fn digits_value(s: Seq<char>, lo: int, hi: int) -> int
    decreases hi - lo,
{
    if hi <= lo {
        0
    } else {
        digits_value(s, lo, hi - 1) * 10 + digit_value(s[hi - 1])
    }
}

/// The character of a decimal digit.
pub open spec fn digit_char(d: int) -> char {
    if d == 0 {
        '0'
    } else if d == 1 {
        '1'
    } else if d == 2 {
        '2'
    } else if d == 3 {
        '3'
    } else if d == 4 {
        '4'
    } else if d == 5 {
        '5'
    } else if d == 6 {
        '6'
    } else if d == 7 {
        '7'
    } else if d == 8 {
        '8'
    } else {
        '9'
    }
}

/// A natural number in decimal, without leading zeros.
pub open spec fn natural_text(n: int) -> Seq<char>
    decreases n,
{
    if n < 10 {
        seq![digit_char(n)]
    } else {
        natural_text(n / 10).push(digit_char(n % 10))
    }
}

/// An integer in decimal, with a minus sign where it is negative.
pub open spec fn integer_text(v: int) -> Seq<char> {
    if v < 0 {
        seq!['-'] + natural_text(-v)
    } else {
        natural_text(v)
    }
}

/// Whether a value fits in 64 bits.
pub open spec fn in_range(v: int) -> bool {
    i64::MIN <= v <= i64::MAX
}

/// A value, if it fits in 64 bits.
pub open spec fn checked(v: int) -> Result<int, ParseFault> {
    if in_range(v) {
        Ok(v)
    } else {
        Err(ParseFault::ArithmeticOverflow)
    }
}

/// Division that rounds toward zero.
pub open spec fn quotient(a: int, b: int) -> int {
    let x = if a < 0 {
        -a
    } else {
        a
    };
    let y = if b < 0 {
        -b
    } else {
        b
    };
    if (a >= 0) == (b > 0) {
        x / y
    } else {
        -(x / y)
    }
}

/// What an operator makes of two values.
pub open spec fn apply(op: char, a: int, b: int) -> Result<int, ParseFault> {
    if op == '+' {
        checked(a + b)
    } else if op == '-' {
        checked(a - b)
    } else if op == '*' {
        checked(a * b)
    } else if b == 0 {
        Err(ParseFault::DivisionByZero)
    } else {
        checked(quotient(a, b))
    }
}

/// What an operator makes of two operands: the fault of the left one, else
/// that of the right one, else the result.
pub open spec fn combine(l: Result<int, ParseFault>, op: char, r: Result<int, ParseFault>) -> Result<
    int,
    ParseFault,
> {
    match l {
        Err(f) => Err(f),
        Ok(a) => match r {
            Err(f) => Err(f),
            Ok(b) => apply(op, a, b),
        },
    }
}

/// The end of `s[lo..hi)` without the blanks at its end.
pub open spec fn trim_end(s: Seq<char>, lo: int, hi: int) -> int
    decreases hi - lo,
{
    if lo < hi && 0 < hi <= s.len() && is_blank(s[hi - 1]) {
        trim_end(s, lo, hi - 1)
    } else {
        hi
    }
}

/// The index of the last `a` or `b` in `s[from..hi)` that stands outside
/// parentheses and after an operand, or `found` where there is none.
/// `depth` counts the parentheses open at `from`; `after_operand` says
/// whether the last character before `from` that is no blank ends an
/// operand, that is, whether it is a digit or a `)`.
pub open spec fn last_operator(
    s: Seq<char>,
    from: int,
    hi: int,
    a: char,
    b: char,
    depth: int,
    after_operand: bool,
    found: int,
) -> int
    decreases hi - from,
{
    if !(0 <= from < hi && hi <= s.len()) {
        found
    } else if is_blank(s[from]) {
        last_operator(s, from + 1, hi, a, b, depth, after_operand, found)
    } else if s[from] == '(' {
        last_operator(s, from + 1, hi, a, b, depth + 1, false, found)
    } else if s[from] == ')' {
        last_operator(s, from + 1, hi, a, b, depth - 1, true, found)
    } else if (s[from] == a || s[from] == b) && depth == 0 && after_operand {
        last_operator(s, from + 1, hi, a, b, depth, false, from)
    } else {
        last_operator(s, from + 1, hi, a, b, depth, is_digit(s[from]), found)
    }
}

/// Where `s[lo..hi)` splits as a sum or as a product, if it does.
pub open spec fn split_point(s: Seq<char>, lo: int, hi: int, a: char, b: char) -> int {
    last_operator(s, lo, hi, a, b, 0, false, -1)
}

/// The value of `s[lo..hi)` read as a sum.
pub open spec fn sum_value(s: Seq<char>, lo: int, hi: int) -> Result<int, ParseFault>
    decreases hi - lo, 2int,
{
    let p = split_point(s, lo, hi, '+', '-');
    if 0 <= lo <= p < hi {
        combine(sum_value(s, lo, p), s[p], product_value(s, p + 1, hi))
    } else {
        product_value(s, lo, hi)
    }
}

/// The value of `s[lo..hi)` read as a product.
pub open spec fn product_value(s: Seq<char>, lo: int, hi: int) -> Result<int, ParseFault>
    decreases hi - lo, 1int,
{
    let p = split_point(s, lo, hi, '*', '/');
    if 0 <= lo <= p < hi {
        combine(product_value(s, lo, p), s[p], atom_value(s, p + 1, hi))
    } else {
        atom_value(s, lo, hi)
    }
}

/// The value of `s[lo..hi)` read as a number, a negation or a
/// parenthesised sum, blanks around it set aside.
pub open spec fn atom_value(s: Seq<char>, lo: int, hi: int) -> Result<int, ParseFault>
    decreases hi - lo, 0int,
{
    let a = blank_end(s, lo, hi);
    let b = trim_end(s, a, hi);
    if !(0 <= lo <= a < b <= hi) {
        Err(ParseFault::MalformedExpression)
    } else if s[a] == '-' {
        match atom_value(s, a + 1, b) {
            Ok(v) => checked(-v),
            Err(f) => Err(f),
        }
    } else if s[a] == '(' {
        if a + 1 < b && s[b - 1] == ')' {
            sum_value(s, a + 1, b - 1)
        } else {
            Err(ParseFault::MalformedExpression)
        }
    } else if all_digits(s, a, b) {
        checked(digits_value(s, a, b))
    } else {
        Err(ParseFault::MalformedExpression)
    }
}

/// The value of an expression.
pub open spec fn expression_value(s: Seq<char>) -> Result<int, ParseFault> {
    sum_value(s, 0, s.len() as int)
}

/// The mathematical value of what an evaluation gave.
pub open spec fn number_view(r: Result<i64, ParseFault>) -> Result<int, ParseFault> {
    match r {
        Ok(v) => Ok(v as int),
        Err(f) => Err(f),
    }
}

/// The digits written so far never count for more than the whole number.
pub proof fn lemma_digits_grow(s: Seq<char>, lo: int, mid: int, hi: int)
    requires
        0 <= lo <= mid <= hi <= s.len(),
        forall|i: int| lo <= i < hi ==> is_digit(#[trigger] s[i]),
    ensures
        0 <= digits_value(s, lo, mid) <= digits_value(s, lo, hi),
    decreases hi - mid,
{
    lemma_digits_nonnegative(s, lo, mid);
    if mid < hi {
        lemma_digits_grow(s, lo, mid, hi - 1);
        assert(is_digit(s[hi - 1]));
    }
}

/// Digits write a natural number.
pub proof fn lemma_digits_nonnegative(s: Seq<char>, lo: int, hi: int)
    requires
        0 <= lo <= hi <= s.len(),
        forall|i: int| lo <= i < hi ==> is_digit(#[trigger] s[i]),
    ensures
        0 <= digits_value(s, lo, hi),
    decreases hi - lo,
{
    if lo < hi {
        lemma_digits_nonnegative(s, lo, hi - 1);
        assert(is_digit(s[hi - 1]));
    }
}

/// Finds the end of `s[lo..hi)` without the blanks at its end.
fn skip_blanks_back(s: &Vec<char>, lo: usize, hi: usize) -> (end: usize)
    requires
        lo <= hi <= s.len(),
    ensures
        end == trim_end(s@, lo as int, hi as int),
        lo <= end <= hi,
{
    let mut e: usize = hi;
    while e > lo && blank(s[e - 1])
        invariant
            lo <= e <= hi <= s.len(),
            trim_end(s@, lo as int, hi as int) == trim_end(s@, lo as int, e as int),
        decreases e - lo,
    {
        e -= 1;
    }
    e
}

/// Finds where `s[lo..hi)` splits at an operator `a` or `b`.
fn find_operator(s: &Vec<char>, lo: usize, hi: usize, a: char, b: char) -> (r: Option<usize>)
    requires
        lo <= hi <= s.len(),
    ensures
        match r {
            Some(p) => split_point(s@, lo as int, hi as int, a, b) == p && lo <= p < hi,
            None => !(lo <= split_point(s@, lo as int, hi as int, a, b) < hi),
        },
{
    let mut found: Option<usize> = None;
    let mut depth: i128 = 0;
    let mut after_operand: bool = false;
    let mut i: usize = lo;
    while i < hi
        invariant
            lo <= i <= hi <= s.len(),
            -(i - lo) <= depth <= i - lo,
            found matches Some(p) ==> lo <= p < i,
            split_point(s@, lo as int, hi as int, a, b) == last_operator(
                s@,
                i as int,
                hi as int,
                a,
                b,
                depth as int,
                after_operand,
                match found {
                    Some(p) => p as int,
                    None => -1,
                },
            ),
        decreases hi - i,
    {
        let c: char = s[i];
        if blank(c) {
        } else if c == '(' {
            depth += 1;
            after_operand = false;
        } else if c == ')' {
            depth -= 1;
            after_operand = true;
        } else if (c == a || c == b) && depth == 0 && after_operand {
            after_operand = false;
            found = Some(i);
        } else {
            after_operand = digit(c);
        }
        i += 1;
    }
    found
}

/// Applies an operator to two values.
fn apply_operator(op: char, a: i64, b: i64) -> (r: Result<i64, ParseFault>)
    ensures
        number_view(r) == apply(op, a as int, b as int),
{
    let x: i128 = a as i128;
    let y: i128 = b as i128;
    let v: i128 = if op == '+' {
        x + y
    } else if op == '-' {
        x - y
    } else if op == '*' {
        assert(-0x4000_0000_0000_0000_0000_0000_0000_0000 <= x * y <= 0x4000_0000_0000_0000_0000_0000_0000_0000)
            by (nonlinear_arith)
            requires
                -0x8000_0000_0000_0000 <= x <= 0x8000_0000_0000_0000,
                -0x8000_0000_0000_0000 <= y <= 0x8000_0000_0000_0000,
        ;
        x * y
    } else {
        if b == 0 {
            return Err(ParseFault::DivisionByZero);
        }
        let ax: i128 = if x < 0 {
            -x
        } else {
            x
        };
        let ay: i128 = if y < 0 {
            -y
        } else {
            y
        };
        let q: i128 = ax / ay;
        assert(0 <= q <= ax) by (nonlinear_arith)
            requires
                q == ax / ay,
                ax >= 0,
                ay > 0,
        ;
        if (x >= 0) == (y > 0) {
            q
        } else {
            -q
        }
    };
    if v < -0x8000_0000_0000_0000 || v > 0x7fff_ffff_ffff_ffff {
        Err(ParseFault::ArithmeticOverflow)
    } else {
        Ok(v as i64)
    }
}

/// Applies an operator to two operands.
fn combine_operands(l: Result<i64, ParseFault>, op: char, r: Result<i64, ParseFault>) -> (v: Result<
    i64,
    ParseFault,
>)
    ensures
        number_view(v) == combine(number_view(l), op, number_view(r)),
{
    match l {
        Err(f) => Err(f),
        Ok(a) => match r {
            Err(f) => Err(f),
            Ok(b) => apply_operator(op, a, b),
        },
    }
}

/// Tests whether `s[lo..hi)` is made of digits.
fn check_digits(s: &Vec<char>, lo: usize, hi: usize) -> (r: bool)
    requires
        lo <= hi <= s.len(),
    ensures
        r == all_digits(s@, lo as int, hi as int),
{
    if lo >= hi {
        return false;
    }
    let mut i: usize = lo;
    while i < hi
        invariant
            lo <= i <= hi <= s.len(),
            forall|j: int| lo <= j < i ==> is_digit(#[trigger] s@[j]),
        decreases hi - i,
    {
        if !digit(s[i]) {
            return false;
        }
        i += 1;
    }
    true
}

/// Reads the number that the digits in `s[lo..hi)` write.
fn read_digits(s: &Vec<char>, lo: usize, hi: usize) -> (r: Result<i64, ParseFault>)
    requires
        lo <= hi <= s.len(),
        all_digits(s@, lo as int, hi as int),
    ensures
        number_view(r) == checked(digits_value(s@, lo as int, hi as int)),
{
    let mut acc: i64 = 0;
    let mut i: usize = lo;
    while i < hi
        invariant
            lo <= i <= hi <= s.len(),
            forall|j: int| lo <= j < hi ==> is_digit(#[trigger] s@[j]),
            acc == digits_value(s@, lo as int, i as int),
            acc >= 0,
        decreases hi - i,
    {
        assert(is_digit(s@[i as int]));
        let d: i128 = (s[i] as u32 - 48) as i128;
        let next: i128 = acc as i128 * 10 + d;
        if next > 0x7fff_ffff_ffff_ffff {
            proof {
                lemma_digits_grow(s@, lo as int, i as int + 1, hi as int);
            }
            return Err(ParseFault::ArithmeticOverflow);
        }
        acc = next as i64;
        i += 1;
    }
    Ok(acc)
}

/// Evaluates `s[lo..hi)` as a sum.
pub fn evaluate_sum(s: &Vec<char>, lo: usize, hi: usize) -> (r: Result<i64, ParseFault>)
    requires
        lo <= hi <= s.len(),
    ensures
        number_view(r) == sum_value(s@, lo as int, hi as int),
    decreases hi - lo, 2int,
{
    match find_operator(s, lo, hi, '+', '-') {
        Some(p) => {
            let l = evaluate_sum(s, lo, p);
            let r = evaluate_product(s, p + 1, hi);
            combine_operands(l, s[p], r)
        },
        None => evaluate_product(s, lo, hi),
    }
}

/// Evaluates `s[lo..hi)` as a product.
pub fn evaluate_product(s: &Vec<char>, lo: usize, hi: usize) -> (r: Result<i64, ParseFault>)
    requires
        lo <= hi <= s.len(),
    ensures
        number_view(r) == product_value(s@, lo as int, hi as int),
    decreases hi - lo, 1int,
{
    match find_operator(s, lo, hi, '*', '/') {
        Some(p) => {
            let l = evaluate_product(s, lo, p);
            let r = evaluate_atom(s, p + 1, hi);
            combine_operands(l, s[p], r)
        },
        None => evaluate_atom(s, lo, hi),
    }
}

/// Evaluates `s[lo..hi)` as a number, a negation or a parenthesised sum.
pub fn evaluate_atom(s: &Vec<char>, lo: usize, hi: usize) -> (r: Result<i64, ParseFault>)
    requires
        lo <= hi <= s.len(),
    ensures
        number_view(r) == atom_value(s@, lo as int, hi as int),
    decreases hi - lo, 0int,
{
    let a: usize = skip_blanks(s, lo, hi);
    let b: usize = skip_blanks_back(s, a, hi);
    if a >= b {
        Err(ParseFault::MalformedExpression)
    } else if s[a] == '-' {
        match evaluate_atom(s, a + 1, b) {
            Ok(v) => if v == i64::MIN {
                Err(ParseFault::ArithmeticOverflow)
            } else {
                Ok(-v)
            },
            Err(f) => Err(f),
        }
    } else if s[a] == '(' {
        if a + 1 < b && s[b - 1] == ')' {
            evaluate_sum(s, a + 1, b - 1)
        } else {
            Err(ParseFault::MalformedExpression)
        }
    } else if check_digits(s, a, b) {
        read_digits(s, a, b)
    } else {
        Err(ParseFault::MalformedExpression)
    }
}

/// Evaluates an expression.
pub fn evaluate(s: &Vec<char>) -> (r: Result<i64, ParseFault>)
    ensures
        number_view(r) == expression_value(s@),
{
    evaluate_sum(s, 0, s.len())
}

/// Gives the character of the digit `d`.
fn digit_to_char(d: u64) -> (c: char)
    requires
        d < 10,
    ensures
        c == digit_char(d as int),
{
    if d == 0 {
        '0'
    } else if d == 1 {
        '1'
    } else if d == 2 {
        '2'
    } else if d == 3 {
        '3'
    } else if d == 4 {
        '4'
    } else if d == 5 {
        '5'
    } else if d == 6 {
        '6'
    } else if d == 7 {
        '7'
    } else if d == 8 {
        '8'
    } else {
        '9'
    }
}

/// Appends `n` in decimal.
fn push_natural(out: &mut Vec<char>, n: u64)
    ensures
        final(out)@ == old(out)@ + natural_text(n as int),
    decreases n,
{
    if n < 10 {
        out.push(digit_to_char(n));
        assert(out@ =~= old(out)@ + natural_text(n as int));
    } else {
        push_natural(out, n / 10);
        out.push(digit_to_char(n % 10));
        assert(out@ =~= old(out)@ + natural_text(n as int));
    }
}

/// Writes `v` in decimal.
pub fn render(v: i64) -> (r: Vec<char>)
    ensures
        r@ == integer_text(v as int),
{
    let mut r: Vec<char> = Vec::new();
    if v < 0 {
        r.push('-');
        let m: u64 = (-(v as i128)) as u64;
        push_natural(&mut r, m);
        assert(r@ =~= integer_text(v as int));
    } else {
        push_natural(&mut r, v as u64);
        assert(r@ =~= integer_text(v as int));
    }
    r
}

} // verus!
