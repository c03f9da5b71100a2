//! The tagged value representation: a number, a boolean, or nil.

use vstd::prelude::*;

use crate::float::{f64_sub, sub_bits};

verus! {

/// The sign bit of an IEEE 754 binary64 pattern.
pub const F64_SIGN_BIT: u64 = 0x8000_0000_0000_0000;

/// Mask clearing the sign bit of an IEEE 754 binary64 pattern.
pub const F64_ABS_MASK: u64 = 0x7FFF_FFFF_FFFF_FFFF;

/// The bits of the machine epsilon for binary64 (2^-52), the tolerance under
/// which two numbers compare equal.
pub const F64_EPSILON_BITS: u64 = 0x3CB0_0000_0000_0000;

/// A runtime value. Numbers are 64-bit floats, held as their IEEE 754 bit
/// pattern so that every field is a plain integer.
#[derive(Clone, Copy, Debug)]
pub enum Value {
    Number(u64),
    Bool(bool),
    Nil,
}

/// Nil and false are falsy; every number (zero included) and true are truthy.
pub open spec fn spec_is_falsy(v: Value) -> bool {
    match v {
        Value::Number(_) => false,
        Value::Bool(b) => !b,
        Value::Nil => true,
    }
}

/// The magnitude bits of `a`: the same pattern with the sign bit cleared.
pub open spec fn abs_bits(a: u64) -> u64 {
    a & F64_ABS_MASK
}

/// Whether the numbers `a` and `b` encode are equal within epsilon.
///
/// For every non-negative finite pattern the integer order of the bits is the
/// order of the numbers, so `|a - b| < epsilon` is the integer comparison of
/// the magnitude bits of the difference against the epsilon bits; a NaN
/// difference has a larger magnitude pattern than epsilon and compares
/// unequal.
pub open spec fn number_eq(a: u64, b: u64) -> bool {
    abs_bits(sub_bits(a, b)) < F64_EPSILON_BITS
}

/// Equality across values: numbers compare within epsilon, booleans by value,
/// nil equals only nil, and values of different variants are unequal.
pub open spec fn value_eq(a: Value, b: Value) -> bool {
    match (a, b) {
        (Value::Number(x), Value::Number(y)) => number_eq(x, y),
        (Value::Bool(x), Value::Bool(y)) => x == y,
        (Value::Nil, Value::Nil) => true,
        _ => false,
    }
}

impl Value {
    /// Whether this value counts as false in a boolean context.
    pub fn is_falsy(&self) -> (r: bool)
        ensures
            r == spec_is_falsy(*self),
    {
        match self {
            Value::Number(_) => false,
            Value::Bool(b) => !*b,
            Value::Nil => true,
        }
    }
}

impl PartialEq for Value {
    fn eq(&self, other: &Self) -> (r: bool) {
        match (self, other) {
            (Value::Number(a), Value::Number(b)) => {
                let diff = f64_sub(*a, *b);
                (diff & F64_ABS_MASK) < F64_EPSILON_BITS
            },
            (Value::Bool(a), Value::Bool(b)) => *a == *b,
            (Value::Nil, Value::Nil) => true,
            _ => false,
        }
    }
}

impl vstd::std_specs::cmp::PartialEqSpecImpl for Value {
    open spec fn obeys_eq_spec() -> bool {
        true
    }

    open spec fn eq_spec(&self, other: &Value) -> bool {
        value_eq(*self, *other)
    }
}

} // verus!
