//! Numeric values are carried as IEEE-754 binary64 bit patterns (`u64`).
//! The arithmetic itself is done by `rustc_apfloat`, a pure software
//! implementation of IEEE-754, so every operation here is a deterministic
//! function of its argument bit patterns.
use vstd::prelude::*;

use rustc_apfloat::Float;
use rustc_apfloat::ieee::Double;

verus! {

/// The bit pattern that a token parses to, if it is a valid numeric literal.
pub uninterp spec fn parse_bits(s: Seq<char>) -> Option<u64>;

/// The IEEE-754 binary64 sum of two bit patterns, rounded to nearest even.
pub uninterp spec fn add_bits(a: u64, b: u64) -> u64;

/// The IEEE-754 binary64 difference of two bit patterns, rounded to nearest even.
pub uninterp spec fn sub_bits(a: u64, b: u64) -> u64;

/// The IEEE-754 binary64 product of two bit patterns, rounded to nearest even.
pub uninterp spec fn mul_bits(a: u64, b: u64) -> u64;

/// The IEEE-754 binary64 quotient of two bit patterns, rounded to nearest even.
pub uninterp spec fn div_bits(a: u64, b: u64) -> u64;

/// Relies on rustc_apfloat::ieee::Double::from_str (round to nearest even):
/// it accepts or rejects a literal, and on success yields its binary64 value,
/// depending on the characters alone; it returns an error rather than
/// panicking on every invalid string.
#[verifier::external_body]
pub(crate) fn parse_num(t: &Vec<char>) -> (r: Option<u64>)
    ensures
        r == parse_bits(t@),
{
    let s: String = t.iter().collect();
    match s.parse::<Double>() {
        Ok(d) => Some(d.to_bits() as u64),
        Err(_) => None,
    }
}

/// Relies on rustc_apfloat::ieee::Double::add_r (round to nearest even),
/// a deterministic software IEEE-754 addition on the bit patterns.
#[verifier::external_body]
pub(crate) fn add_num(a: u64, b: u64) -> (r: u64)
    ensures
        r == add_bits(a, b),
{
    let x = Double::from_bits(a as u128);
    let y = Double::from_bits(b as u128);
    (x + y).value.to_bits() as u64
}

/// Relies on rustc_apfloat::ieee::Double::sub_r (round to nearest even),
/// a deterministic software IEEE-754 subtraction on the bit patterns.
#[verifier::external_body]
pub(crate) fn sub_num(a: u64, b: u64) -> (r: u64)
    ensures
        r == sub_bits(a, b),
{
    let x = Double::from_bits(a as u128);
    let y = Double::from_bits(b as u128);
    (x - y).value.to_bits() as u64
}

/// Relies on rustc_apfloat::ieee::Double::mul_r (round to nearest even),
/// a deterministic software IEEE-754 multiplication on the bit patterns.
#[verifier::external_body]
pub(crate) fn mul_num(a: u64, b: u64) -> (r: u64)
    ensures
        r == mul_bits(a, b),
{
    let x = Double::from_bits(a as u128);
    let y = Double::from_bits(b as u128);
    (x * y).value.to_bits() as u64
}

/// Relies on rustc_apfloat::ieee::Double::div_r (round to nearest even),
/// a deterministic software IEEE-754 division on the bit patterns; division
/// by zero yields an infinity or NaN bit pattern, never an error.
#[verifier::external_body]
pub(crate) fn div_num(a: u64, b: u64) -> (r: u64)
    ensures
        r == div_bits(a, b),
{
    let x = Double::from_bits(a as u128);
    let y = Double::from_bits(b as u128);
    (x / y).value.to_bits() as u64
}

} // verus!
