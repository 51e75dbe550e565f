//! The float unit: 64-bit floats as bit patterns, computed by software
//! IEEE-754 arithmetic behind trusted wrappers.

use vstd::prelude::*;
use rustc_apfloat::Float;
use rustc_apfloat::ieee::Double;

verus! {

// The library never holds a 64-bit float itself: it carries the IEEE-754
// binary64 bit pattern as a `u64`, and every operation on floats goes
// through one of the trusted wrappers below, which hand the bits to
// `rustc_apfloat`'s software implementation of IEEE-754 arithmetic.
// What an operation returns is named by an uninterpreted function of the
// operand bit patterns: IEEE-754 arithmetic with round-to-nearest-even is
// a function of the bits alone, the same on every machine.

/// Whether a character is a decimal digit.
pub open spec fn is_digit_char(c: char) -> bool {
    48 <= c as u32 <= 57
}

/// Whether a character sequence is a decimal float lexeme: one or more
/// digits, a point, then one or more digits.
pub open spec fn is_float_lexeme(s: Seq<char>) -> bool {
    exists|k: int|
        0 < k < s.len() - 1 && s[k] == '.' && (forall|i: int|
            0 <= i < k ==> is_digit_char(#[trigger] s[i])) && (forall|i: int|
            k < i < s.len() ==> is_digit_char(#[trigger] s[i]))
}

/// The bit pattern of the 64-bit float that a decimal lexeme denotes,
/// rounded to nearest, ties to even.
pub uninterp spec fn f64_bits_of_decimal(s: Seq<char>) -> u64;

/// The bit pattern of the 64-bit float sum of two bit patterns.
pub uninterp spec fn f64_add_bits(a: u64, b: u64) -> u64;

/// The bit pattern of the 64-bit float difference of two bit patterns.
pub uninterp spec fn f64_sub_bits(a: u64, b: u64) -> u64;

/// The bit pattern of the 64-bit float product of two bit patterns.
pub uninterp spec fn f64_mul_bits(a: u64, b: u64) -> u64;

/// The bit pattern of the 64-bit float quotient of two bit patterns.
pub uninterp spec fn f64_div_bits(a: u64, b: u64) -> u64;

/// The bit pattern of the 64-bit float remainder (C `fmod`: truncated
/// division, the sign of the dividend) of two bit patterns.
pub uninterp spec fn f64_rem_bits(a: u64, b: u64) -> u64;

/// The bit pattern of a 64-bit float with its sign flipped.
pub uninterp spec fn f64_neg_bits(a: u64) -> u64;

/// How two 64-bit float bit patterns compare: less than, equal, or greater
/// as a signum, or nothing when either is a NaN.
pub uninterp spec fn f64_cmp_bits(a: u64, b: u64) -> Option<i8>;

/// Relies on `rustc_apfloat::ieee::Double::from_str`: parsing a decimal
/// float lexeme succeeds and rounds to the nearest 64-bit float, a
/// function of the lexeme alone.
#[verifier::external_body]
pub(crate) fn parse_f64_bits(s: &str) -> (r: u64)
    requires
        is_float_lexeme(s@),
    ensures
        r == f64_bits_of_decimal(s@),
{
    match s.parse::<Double>() {
        Ok(d) => d.to_bits() as u64,
        Err(_) => 0,
    }
}

/// Relies on `rustc_apfloat::ieee::Double`'s `Add`: IEEE-754 addition,
/// rounded to nearest, ties to even.
#[verifier::external_body]
pub(crate) fn add_f64_bits(a: u64, b: u64) -> (r: u64)
    ensures
        r == f64_add_bits(a, b),
{
    (Double::from_bits(a as u128) + Double::from_bits(b as u128)).value.to_bits() as u64
}

/// Relies on `rustc_apfloat::ieee::Double`'s `Sub`: IEEE-754 subtraction,
/// rounded to nearest, ties to even.
#[verifier::external_body]
pub(crate) fn sub_f64_bits(a: u64, b: u64) -> (r: u64)
    ensures
        r == f64_sub_bits(a, b),
{
    (Double::from_bits(a as u128) - Double::from_bits(b as u128)).value.to_bits() as u64
}

/// Relies on `rustc_apfloat::ieee::Double`'s `Mul`: IEEE-754
/// multiplication, rounded to nearest, ties to even.
#[verifier::external_body]
pub(crate) fn mul_f64_bits(a: u64, b: u64) -> (r: u64)
    ensures
        r == f64_mul_bits(a, b),
{
    (Double::from_bits(a as u128) * Double::from_bits(b as u128)).value.to_bits() as u64
}

/// Relies on `rustc_apfloat::ieee::Double`'s `Div`: IEEE-754 division,
/// rounded to nearest, ties to even; division by zero gives an infinity.
#[verifier::external_body]
pub(crate) fn div_f64_bits(a: u64, b: u64) -> (r: u64)
    ensures
        r == f64_div_bits(a, b),
{
    (Double::from_bits(a as u128) / Double::from_bits(b as u128)).value.to_bits() as u64
}

/// Relies on `rustc_apfloat::ieee::Double`'s `Rem`, which is C `fmod`:
/// the remainder of truncated division, with the sign of the dividend.
#[verifier::external_body]
pub(crate) fn rem_f64_bits(a: u64, b: u64) -> (r: u64)
    ensures
        r == f64_rem_bits(a, b),
{
    (Double::from_bits(a as u128) % Double::from_bits(b as u128)).value.to_bits() as u64
}

/// Relies on `rustc_apfloat::ieee::Double`'s `Neg`: flips the sign bit.
#[verifier::external_body]
pub(crate) fn neg_f64_bits(a: u64) -> (r: u64)
    ensures
        r == f64_neg_bits(a),
{
    (-Double::from_bits(a as u128)).to_bits() as u64
}

/// Relies on `rustc_apfloat::ieee::Double`'s `PartialOrd`: the IEEE-754
/// partial order, in which a NaN compares with nothing.
#[verifier::external_body]
pub(crate) fn cmp_f64_bits(a: u64, b: u64) -> (r: Option<i8>)
    ensures
        r == f64_cmp_bits(a, b),
{
    match Double::from_bits(a as u128).partial_cmp(&Double::from_bits(b as u128)) {
        Some(core::cmp::Ordering::Less) => Some(-1),
        Some(core::cmp::Ordering::Equal) => Some(0),
        Some(core::cmp::Ordering::Greater) => Some(1),
        None => None,
    }
}

} // verus!
