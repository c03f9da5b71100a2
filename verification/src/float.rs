//! The arithmetic on 64-bit floating-point numbers, which the rest of the
//! library handles only as IEEE 754 bit patterns held in `u64`.
//!
//! Every operation here is a pure function of the operand bits: the results
//! are named by uninterpreted spec functions, and the verified code reasons
//! over those names.

use rustc_apfloat::Float;
use vstd::prelude::*;

verus! {

/// The bits of the sum of the two numbers `a` and `b` encode.
pub uninterp spec fn add_bits(a: u64, b: u64) -> u64;

/// The bits of the difference of the two numbers `a` and `b` encode.
pub uninterp spec fn sub_bits(a: u64, b: u64) -> u64;

/// The bits of the product of the two numbers `a` and `b` encode.
pub uninterp spec fn mul_bits(a: u64, b: u64) -> u64;

/// The bits of the quotient of the two numbers `a` and `b` encode.
pub uninterp spec fn div_bits(a: u64, b: u64) -> u64;

/// Whether the number `a` encodes is strictly less than the one `b` encodes.
pub uninterp spec fn lt_bits(a: u64, b: u64) -> bool;

/// Whether the number `a` encodes is strictly greater than the one `b` encodes.
pub uninterp spec fn gt_bits(a: u64, b: u64) -> bool;

/// The bits of the number a decimal literal denotes, or `None` where the
/// text is not a numeric literal.
pub uninterp spec fn number_bits_of(s: Seq<u8>) -> Option<u64>;

/// Relies on rustc_apfloat's `Double` addition: IEEE 754 binary64 addition,
/// rounded to nearest even, a function of the operand bits alone.
#[verifier::external_body]
pub(crate) fn f64_add(a: u64, b: u64) -> (r: u64)
    ensures
        r == add_bits(a, b),
{
    let x = rustc_apfloat::ieee::Double::from_bits(a as u128);
    let y = rustc_apfloat::ieee::Double::from_bits(b as u128);
    (x + y).value.to_bits() as u64
}

/// Relies on rustc_apfloat's `Double` subtraction: IEEE 754 binary64
/// subtraction, rounded to nearest even, a function of the operand bits alone.
#[verifier::external_body]
pub(crate) fn f64_sub(a: u64, b: u64) -> (r: u64)
    ensures
        r == sub_bits(a, b),
{
    let x = rustc_apfloat::ieee::Double::from_bits(a as u128);
    let y = rustc_apfloat::ieee::Double::from_bits(b as u128);
    (x - y).value.to_bits() as u64
}

/// Relies on rustc_apfloat's `Double` multiplication: IEEE 754 binary64
/// multiplication, rounded to nearest even, a function of the operand bits
/// alone.
#[verifier::external_body]
pub(crate) fn f64_mul(a: u64, b: u64) -> (r: u64)
    ensures
        r == mul_bits(a, b),
{
    let x = rustc_apfloat::ieee::Double::from_bits(a as u128);
    let y = rustc_apfloat::ieee::Double::from_bits(b as u128);
    (x * y).value.to_bits() as u64
}

/// Relies on rustc_apfloat's `Double` division: IEEE 754 binary64 division,
/// rounded to nearest even, a function of the operand bits alone.
#[verifier::external_body]
pub(crate) fn f64_div(a: u64, b: u64) -> (r: u64)
    ensures
        r == div_bits(a, b),
{
    let x = rustc_apfloat::ieee::Double::from_bits(a as u128);
    let y = rustc_apfloat::ieee::Double::from_bits(b as u128);
    (x / y).value.to_bits() as u64
}

/// Relies on `PartialOrd::lt` for rustc_apfloat's `Double`: the IEEE 754
/// ordering, under which a NaN compares less than nothing.
#[verifier::external_body]
pub(crate) fn f64_lt(a: u64, b: u64) -> (r: bool)
    ensures
        r == lt_bits(a, b),
{
    rustc_apfloat::ieee::Double::from_bits(a as u128)
        < rustc_apfloat::ieee::Double::from_bits(b as u128)
}

/// Relies on `PartialOrd::gt` for rustc_apfloat's `Double`: the IEEE 754
/// ordering, under which a NaN compares greater than nothing.
#[verifier::external_body]
pub(crate) fn f64_gt(a: u64, b: u64) -> (r: bool)
    ensures
        r == gt_bits(a, b),
{
    rustc_apfloat::ieee::Double::from_bits(a as u128)
        > rustc_apfloat::ieee::Double::from_bits(b as u128)
}

/// Relies on rustc_apfloat's `Double::from_str`: a correctly rounded decimal
/// parse, a function of the text alone; `None` where the text is rejected.
/// Its digit-offset arithmetic needs the text to fit a 32-bit span.
#[verifier::external_body]
pub(crate) fn parse_number_bits(s: &[u8]) -> (r: Option<u64>)
    requires
        s@.len() < 0x8000_0000,
    ensures
        r == number_bits_of(s@),
{
    let text = core::str::from_utf8(s).ok()?;
    match text.parse::<rustc_apfloat::ieee::Double>() {
        Ok(d) => Some(d.to_bits() as u64),
        Err(_) => None,
    }
}

} // verus!
