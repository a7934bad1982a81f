//! Double-precision numbers, held as IEEE-754 binary64 bit patterns in
//! `u64`. The arithmetic, comparisons, decimal parsing and decimal
//! formatting are performed by the `rustc_apfloat` software
//! implementation of IEEE-754 behind the trusted wrappers below; each
//! result that has no short statement is given a name by an
//! uninterpreted spec function, so that contracts can speak of it
//! exactly.

use vstd::prelude::*;
use rustc_apfloat::Float;

verus! {

/// The binary64 value denoted by a decimal numeral, as
/// `rustc_apfloat`'s correctly rounded decimal conversion defines it.
pub uninterp spec fn double_of_decimal(s: Seq<char>) -> u64;

/// The IEEE-754 sum of two binary64 values, rounded to nearest-even.
pub uninterp spec fn double_add(a: u64, b: u64) -> u64;

/// The IEEE-754 difference of two binary64 values.
pub uninterp spec fn double_sub(a: u64, b: u64) -> u64;

/// The IEEE-754 product of two binary64 values.
pub uninterp spec fn double_mul(a: u64, b: u64) -> u64;

/// The IEEE-754 quotient of two binary64 values. Total: a zero divisor
/// yields an infinity or NaN, never a fault.
pub uninterp spec fn double_div(a: u64, b: u64) -> u64;

/// The IEEE-754 negation of a binary64 value.
pub uninterp spec fn double_neg(a: u64) -> u64;

/// IEEE-754 equality of two binary64 values (NaN equals nothing; the
/// two zeroes are equal).
pub uninterp spec fn double_eq(a: u64, b: u64) -> bool;

/// IEEE-754 less-than of two binary64 values (false whenever either
/// side is NaN).
pub uninterp spec fn double_lt(a: u64, b: u64) -> bool;

/// The decimal rendering of a binary64 value, as `rustc_apfloat`'s
/// `Display` implementation defines it.
pub uninterp spec fn double_display(bits: u64) -> Seq<char>;

/// A run of one or more decimal digits.
pub open spec fn all_digits(s: Seq<char>) -> bool {
    forall|i: int| 0 <= i < s.len() ==> '0' <= #[trigger] s[i] <= '9'
}

/// A numeral the scanner produces: digits, optionally a dot followed
/// by more digits.
pub open spec fn clean_decimal(s: Seq<char>) -> bool {
    ||| (s.len() > 0 && all_digits(s))
    ||| (exists|j: int|
        0 < j < s.len() - 1 && #[trigger] s[j] == '.' && all_digits(s.subrange(0, j))
            && all_digits(s.subrange(j + 1, s.len() as int)))
}

/// Relies on `rustc_apfloat::ieee::Double::from_str`: correctly rounded
/// decimal-to-binary64 conversion, which accepts every numeral made of
/// digits with at most one interior dot.
#[verifier::external_body]
pub(crate) fn parse_double(s: &str) -> (r: Option<u64>)
    ensures
        r matches Some(b) ==> b == double_of_decimal(s@),
        clean_decimal(s@) ==> r is Some,
{
    match s.parse::<rustc_apfloat::ieee::Double>() {
        Ok(d) => Some(d.to_bits() as u64),
        Err(_) => None,
    }
}

/// Relies on `rustc_apfloat::ieee::Double`'s `Add`: IEEE-754 addition,
/// rounding to nearest-even.
#[verifier::external_body]
pub(crate) fn add_bits(a: u64, b: u64) -> (r: u64)
    ensures
        r == double_add(a, b),
{
    let x = rustc_apfloat::ieee::Double::from_bits(a as u128);
    let y = rustc_apfloat::ieee::Double::from_bits(b as u128);
    (x + y).value.to_bits() as u64
}

/// Relies on `rustc_apfloat::ieee::Double`'s `Sub`: IEEE-754 subtraction.
#[verifier::external_body]
pub(crate) fn sub_bits(a: u64, b: u64) -> (r: u64)
    ensures
        r == double_sub(a, b),
{
    let x = rustc_apfloat::ieee::Double::from_bits(a as u128);
    let y = rustc_apfloat::ieee::Double::from_bits(b as u128);
    (x - y).value.to_bits() as u64
}

/// Relies on `rustc_apfloat::ieee::Double`'s `Mul`: IEEE-754 multiplication.
#[verifier::external_body]
pub(crate) fn mul_bits(a: u64, b: u64) -> (r: u64)
    ensures
        r == double_mul(a, b),
{
    let x = rustc_apfloat::ieee::Double::from_bits(a as u128);
    let y = rustc_apfloat::ieee::Double::from_bits(b as u128);
    (x * y).value.to_bits() as u64
}

/// Relies on `rustc_apfloat::ieee::Double`'s `Div`: IEEE-754 division,
/// total on every pair of operands including zero divisors.
#[verifier::external_body]
pub(crate) fn div_bits(a: u64, b: u64) -> (r: u64)
    ensures
        r == double_div(a, b),
{
    let x = rustc_apfloat::ieee::Double::from_bits(a as u128);
    let y = rustc_apfloat::ieee::Double::from_bits(b as u128);
    (x / y).value.to_bits() as u64
}

/// Relies on `rustc_apfloat::ieee::Double`'s `Neg`: IEEE-754 sign negation.
#[verifier::external_body]
pub(crate) fn neg_bits(a: u64) -> (r: u64)
    ensures
        r == double_neg(a),
{
    let x = rustc_apfloat::ieee::Double::from_bits(a as u128);
    (-x).to_bits() as u64
}

/// Relies on `rustc_apfloat::ieee::Double`'s `PartialEq`, which
/// compares by IEEE-754 ordering (NaN unequal to everything, the two
/// zeroes equal).
#[verifier::external_body]
pub(crate) fn eq_bits(a: u64, b: u64) -> (r: bool)
    ensures
        r == double_eq(a, b),
{
    let x = rustc_apfloat::ieee::Double::from_bits(a as u128);
    let y = rustc_apfloat::ieee::Double::from_bits(b as u128);
    x == y
}

/// Relies on `rustc_apfloat::ieee::Double`'s `PartialOrd`, the IEEE-754
/// ordering predicate (false on NaN operands).
#[verifier::external_body]
pub(crate) fn lt_bits(a: u64, b: u64) -> (r: bool)
    ensures
        r == double_lt(a, b),
{
    let x = rustc_apfloat::ieee::Double::from_bits(a as u128);
    let y = rustc_apfloat::ieee::Double::from_bits(b as u128);
    x < y
}

/// Relies on `rustc_apfloat::ieee::Double`'s `Display`: a decimal
/// rendering of the value, a function of the bits alone.
#[verifier::external_body]
pub(crate) fn display_bits(bits: u64) -> (r: String)
    ensures
        r@ == double_display(bits),
{
    format!("{}", rustc_apfloat::ieee::Double::from_bits(bits as u128))
}

} // verus!
