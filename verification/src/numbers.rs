//! Decimal integers: parsing as `str::parse` does for the integer types, and
//! zero-padded formatting as `format!("{:0w}")` does.
use vstd::prelude::*;

use crate::text::{decimal_digits, digit_char, is_ascii_digit, signed_pad2, zero_padded};

verus! {

/// Why a decimal integer could not be read (`core::num::IntErrorKind`).
#[derive(Clone, Copy, Debug, PartialEq, Eq)]
pub enum NumberError {
    Empty,
    InvalidDigit,
    PosOverflow,
    NegOverflow,
}

pub open spec fn digit_value(c: char) -> int {
    (c as u32) - ('0' as u32)
}

/// The value of a string of decimal digits.
pub open spec fn digits_value(s: Seq<char>) -> int
    decreases s.len(),
{
    if s.len() == 0 {
        0
    } else {
        digits_value(s.drop_last()) * 10 + digit_value(s.last())
    }
}

pub open spec fn all_digits(s: Seq<char>) -> bool {
    forall|i: int| 0 <= i < s.len() ==> is_ascii_digit(#[trigger] s[i])
}

/// What `str::parse` gives for an integer type with range `[min, max]`:
/// an optional sign (a `-` only when `min < 0`) followed by at least one digit.
pub open spec fn parse_int(s: Seq<char>, min: int, max: int) -> Result<int, NumberError> {
    if s.len() == 0 {
        Err(NumberError::Empty)
    } else {
        let neg = s[0] == '-' && min < 0;
        let body = if s[0] == '+' || neg { s.drop_first() } else { s };
        if body.len() == 0 {
            Err(NumberError::InvalidDigit)
        } else if !all_digits(body) {
            Err(NumberError::InvalidDigit)
        } else if neg {
            if -digits_value(body) < min {
                Err(NumberError::NegOverflow)
            } else {
                Ok(-digits_value(body))
            }
        } else if digits_value(body) > max {
            Err(NumberError::PosOverflow)
        } else {
            Ok(digits_value(body))
        }
    }
}

proof fn lemma_digits_value_nonneg(s: Seq<char>)
    requires
        all_digits(s),
    ensures
        digits_value(s) >= 0,
    decreases s.len(),
{
    if s.len() > 0 {
        lemma_digits_value_nonneg(s.drop_last());
        assert(is_ascii_digit(s[s.len() - 1]));
    }
}

proof fn lemma_digits_value_monotone(s: Seq<char>, i: int)
    requires
        all_digits(s),
        0 <= i <= s.len(),
    ensures
        digits_value(s.take(i)) <= digits_value(s),
    decreases s.len() - i,
{
    if i < s.len() {
        lemma_digits_value_monotone(s, i + 1);
        assert(s.take(i + 1).drop_last() =~= s.take(i));
        assert(is_ascii_digit(s[i]));
        lemma_digits_value_nonneg(s.take(i));
        assert(s.take(i + 1).last() == s[i]);
    } else {
        assert(s.take(i) =~= s);
    }
}

/// Reads the digits of `body` (all of them decimal digits), stopping with
/// `None` once the value exceeds `limit`.
fn digits_upto(body: &[char], limit: u128) -> (r: Option<u128>)
    requires
        all_digits(body@),
    ensures
        match r {
            Some(v) => v == digits_value(body@) && v <= limit,
            None => digits_value(body@) > limit,
        },
{
    let mut acc: u128 = 0;
    let mut i: usize = 0;
    while i < body.len()
        invariant
            i <= body.len(),
            all_digits(body@),
            acc == digits_value(body@.take(i as int)),
            acc <= limit,
        decreases body.len() - i,
    {
        assert(is_ascii_digit(body@[i as int]));
        let d = (body[i] as u32 - '0' as u32) as u128;
        assert(body@.take(i + 1).drop_last() =~= body@.take(i as int));
        assert(body@.take(i + 1).last() == body@[i as int]);
        assert(digits_value(body@.take(i + 1)) == acc * 10 + d);
        if acc > limit / 10 {
            assert(acc * 10 + d > limit) by (nonlinear_arith)
                requires
                    acc > limit / 10,
                    d >= 0,
            ;
            proof {
                lemma_digits_value_monotone(body@, i + 1);
            }
            return None;
        }
        assert(acc * 10 <= limit) by (nonlinear_arith)
            requires
                acc <= limit / 10,
        ;
        let next = acc * 10;
        if d > limit - next {
            proof {
                lemma_digits_value_monotone(body@, i + 1);
            }
            return None;
        }
        acc = next + d;
        i += 1;
    }
    assert(body@.take(body.len() as int) =~= body@);
    Some(acc)
}

fn all_digits_exec(s: &[char]) -> (r: bool)
    ensures
        r == all_digits(s@),
{
    let mut i: usize = 0;
    while i < s.len()
        invariant
            i <= s.len(),
            forall|j: int| 0 <= j < i ==> is_ascii_digit(#[trigger] s@[j]),
        decreases s.len() - i,
    {
        if !('0' <= s[i] && s[i] <= '9') {
            return false;
        }
        i += 1;
    }
    true
}

/// `str::parse::<u32>()`.
pub fn parse_u32(s: &[char]) -> (r: Result<u32, NumberError>)
    ensures
        match r {
            Ok(x) => parse_int(s@, 0, u32::MAX as int) == Ok::<int, NumberError>(x as int),
            Err(e) => parse_int(s@, 0, u32::MAX as int) == Err::<int, NumberError>(e),
        },
{
    match parse_i128_in(s, 0, u32::MAX as i128) {
        Ok(v) => Ok(v as u32),
        Err(e) => Err(e),
    }
}

/// `str::parse::<i64>()`.
pub fn parse_i64(s: &[char]) -> (r: Result<i64, NumberError>)
    ensures
        match r {
            Ok(x) => parse_int(s@, i64::MIN as int, i64::MAX as int) == Ok::<int, NumberError>(x as int),
            Err(e) => parse_int(s@, i64::MIN as int, i64::MAX as int) == Err::<int, NumberError>(e),
        },
{
    match parse_i128_in(s, i64::MIN as i128, i64::MAX as i128) {
        Ok(v) => Ok(v as i64),
        Err(e) => Err(e),
    }
}

/// `str::parse` for an integer type whose range `[min, max]` fits well inside `i128`.
pub fn parse_i128_in(s: &[char], min: i128, max: i128) -> (r: Result<i128, NumberError>)
    requires
        i128::MIN < min <= 0 <= max,
    ensures
        match r {
            Ok(x) => parse_int(s@, min as int, max as int) == Ok::<int, NumberError>(x as int),
            Err(e) => parse_int(s@, min as int, max as int) == Err::<int, NumberError>(e),
        },
        r matches Ok(v) ==> min <= v <= max,
{
    if s.len() == 0 {
        return Err(NumberError::Empty);
    }
    let neg = s[0] == '-' && min < 0;
    let start: usize = if s[0] == '+' || neg { 1 } else { 0 };
    let body = slice_from(s, start);
    assert(body@ == (if s@[0] == '+' || neg { s@.drop_first() } else { s@ }));
    if body.len() == 0 {
        return Err(NumberError::InvalidDigit);
    }
    if !all_digits_exec(&body) {
        return Err(NumberError::InvalidDigit);
    }
    proof {
        lemma_digits_value_nonneg(body@);
    }
    assert(max as u128 as int == max as int);
    if neg {
        let limit: u128 = (0 - min) as u128;
        assert(limit as int == -(min as int));
        match digits_upto(&body, limit) {
            Some(v) => Ok(0 - (v as i128)),
            None => Err(NumberError::NegOverflow),
        }
    } else {
        match digits_upto(&body, max as u128) {
            Some(v) => Ok(v as i128),
            None => Err(NumberError::PosOverflow),
        }
    }
}

/// `str::parse::<i128>()`.
pub fn parse_i128(s: &[char]) -> (r: Result<i128, NumberError>)
    ensures
        match r {
            Ok(x) => parse_int(s@, i128::MIN as int, i128::MAX as int) == Ok::<int, NumberError>(x as int),
            Err(e) => parse_int(s@, i128::MIN as int, i128::MAX as int) == Err::<int, NumberError>(e),
        },
{
    if s.len() > 0 && s[0] == '-' {
        let body = slice_from(s, 1);
        if body.len() == 0 || !all_digits_exec(&body) {
            return Err(NumberError::InvalidDigit);
        }
        proof {
            lemma_digits_value_nonneg(body@);
        }
        match digits_upto(&body, 170141183460469231731687303715884105728u128) {
            Some(v) => {
                if v == 170141183460469231731687303715884105728u128 {
                    Ok(i128::MIN)
                } else {
                    Ok(0 - (v as i128))
                }
            },
            None => Err(NumberError::NegOverflow),
        }
    } else {
        parse_i128_in(s, 1 - 1, i128::MAX)
    }
}

/// `s[from..]` as an owned vector.
pub fn slice_from(s: &[char], from: usize) -> (r: Vec<char>)
    requires
        from <= s.len(),
    ensures
        r@ == s@.skip(from as int),
{
    let mut out: Vec<char> = Vec::new();
    let mut i: usize = from;
    while i < s.len()
        invariant
            from <= i <= s.len(),
            out@ == s@.subrange(from as int, i as int),
        decreases s.len() - i,
    {
        out.push(s[i]);
        assert(out@ =~= s@.subrange(from as int, i + 1));
        i += 1;
    }
    assert(out@ =~= s@.skip(from as int));
    out
}

/// `s[from..to]` as an owned vector.
pub fn slice_range(s: &[char], from: usize, to: usize) -> (r: Vec<char>)
    requires
        from <= to <= s.len(),
    ensures
        r@ == s@.subrange(from as int, to as int),
{
    let mut out: Vec<char> = Vec::new();
    let mut i: usize = from;
    while i < to
        invariant
            from <= i <= to <= s.len(),
            out@ == s@.subrange(from as int, i as int),
        decreases to - i,
    {
        out.push(s[i]);
        assert(out@ =~= s@.subrange(from as int, i + 1));
        i += 1;
    }
    out
}

pub proof fn lemma_decimal_digits_nonempty(n: nat)
    ensures
        decimal_digits(n).len() >= 1,
    decreases n,
{
    if n >= 10 {
        lemma_decimal_digits_nonempty(n / 10);
    }
}

/// The decimal digits of `n`, most significant first.
pub fn decimal_digits_exec(n: u64) -> (r: Vec<char>)
    ensures
        r@ == decimal_digits(n as nat),
    decreases n,
{
    if n < 10 {
        let c = ((n as u8) + 48u8) as char;
        assert(c == digit_char(n as nat));
        vec![c]
    } else {
        let mut v = decimal_digits_exec(n / 10);
        let d = n % 10;
        let c = ((d as u8) + 48u8) as char;
        assert(c == digit_char((n % 10) as nat));
        v.push(c);
        v
    }
}

/// `format!("{:0width$}", n)`.
pub fn zero_padded_exec(n: u64, width: usize) -> (r: Vec<char>)
    ensures
        r@ == zero_padded(n as nat, width as nat),
{
    let digits = decimal_digits_exec(n);
    if digits.len() >= width {
        return digits;
    }
    let mut out: Vec<char> = Vec::new();
    let pad = width - digits.len();
    let mut i: usize = 0;
    while i < pad
        invariant
            i <= pad,
            out@ == Seq::new(i as nat, |k: int| '0'),
        decreases pad - i,
    {
        out.push('0');
        assert(out@ =~= Seq::new((i + 1) as nat, |k: int| '0'));
        i += 1;
    }
    let mut d = digits;
    out.append(&mut d);
    out
}

/// `format!("{:02}", v)`.
pub fn signed_pad2_exec(v: i64) -> (r: Vec<char>)
    ensures
        r@ == signed_pad2(v as int),
{
    if v >= 0 {
        zero_padded_exec(v as u64, 2)
    } else {
        let magnitude: u64 = if v == i64::MIN { 9223372036854775808u64 } else { (0 - v) as u64 };
        let mut out = vec!['-'];
        let mut digits = zero_padded_exec(magnitude, 1);
        out.append(&mut digits);
        assert(out@ =~= seq!['-'] + zero_padded((-(v as int)) as nat, 1));
        out
    }
}

} // verus!
