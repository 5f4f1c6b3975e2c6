//! Runtime values and the comparisons of numbers.

use vstd::prelude::*;

verus! {

/// A runtime value.
///
/// A number is the bit pattern of an IEEE-754 double. Strings, functions,
/// classes and instances live in the interpreter and are named by a handle;
/// two functions, classes or instances are the same when their handles are.
#[derive(Debug, Clone, Copy, PartialEq, Eq, Structural)]
pub enum Value {
    Nil,
    Boolean(bool),
    Number(u64),
    String(usize),
    Function(usize),
    Class(usize),
    Instance(usize),
}

impl Value {
    /// Truthiness: `nil` and `false` are false, every other value is true.
    pub open spec fn truthy(self) -> bool {
        !(self is Nil || self == Value::Boolean(false))
    }

    /// Truthiness: `nil` and `false` are false, every other value is true.
    pub fn is_truthy(&self) -> (truthy: bool)
        ensures
            truthy == self.truthy(),
    {
        match self {
            Value::Boolean(b) => *b,
            Value::Nil => false,
            _ => true,
        }
    }
}

/// Whether two values are of the same variant.
pub fn variant_eq(a: &Value, b: &Value) -> (same: bool)
    ensures
        same == same_variant(*a, *b),
{
    match (a, b) {
        (Value::Nil, Value::Nil) => true,
        (Value::Boolean(_), Value::Boolean(_)) => true,
        (Value::Number(_), Value::Number(_)) => true,
        (Value::String(_), Value::String(_)) => true,
        (Value::Function(_), Value::Function(_)) => true,
        (Value::Class(_), Value::Class(_)) => true,
        (Value::Instance(_), Value::Instance(_)) => true,
        _ => false,
    }
}

/// Whether two values are of the same variant.
pub open spec fn same_variant(a: Value, b: Value) -> bool {
    ||| a is Nil && b is Nil
    ||| a is Boolean && b is Boolean
    ||| a is Number && b is Number
    ||| a is String && b is String
    ||| a is Function && b is Function
    ||| a is Class && b is Class
    ||| a is Instance && b is Instance
}

/// The sign bit of a double.
pub const SIGN_BIT: u64 = 0x8000_0000_0000_0000u64;

/// The exponent bits of a double.
pub const EXPONENT_BITS: u64 = 0x7ff0_0000_0000_0000u64;

/// The fraction bits of a double.
pub const FRACTION_BITS: u64 = 0x000f_ffff_ffff_ffffu64;

/// Everything but the sign bit.
pub const MAGNITUDE_BITS: u64 = 0x7fff_ffff_ffff_ffffu64;

/// Whether the double is not a number: all exponent bits set, and a
/// fraction that is not zero.
pub open spec fn is_nan(bits: u64) -> bool {
    bits & EXPONENT_BITS == EXPONENT_BITS && bits & FRACTION_BITS != 0
}

/// The place of a double on the number line, for doubles that are numbers.
///
/// Doubles of one sign are ordered as their magnitude bits are, and both
/// zeros stand at 0.
pub open spec fn rank(bits: u64) -> int {
    if bits & SIGN_BIT != 0 {
        -((bits & MAGNITUDE_BITS) as int)
    } else {
        (bits & MAGNITUDE_BITS) as int
    }
}

/// Equality of doubles: false when either is not a number, and the two
/// zeros are equal.
pub open spec fn number_equal(left: u64, right: u64) -> bool {
    !is_nan(left) && !is_nan(right) && rank(left) == rank(right)
}

/// The strict order of doubles: false when either is not a number.
pub open spec fn number_less(left: u64, right: u64) -> bool {
    !is_nan(left) && !is_nan(right) && rank(left) < rank(right)
}

/// The double of opposite sign.
pub open spec fn number_negated(bits: u64) -> u64 {
    bits ^ SIGN_BIT
}

/// Whether the double is not a number.
pub fn nan(bits: u64) -> (r: bool)
    ensures
        r == is_nan(bits),
{
    bits & EXPONENT_BITS == EXPONENT_BITS && bits & FRACTION_BITS != 0
}

/// Equality of doubles.
pub fn numbers_equal(left: u64, right: u64) -> (r: bool)
    ensures
        r == number_equal(left, right),
{
    if nan(left) || nan(right) {
        return false;
    }
    let left_magnitude: u64 = left & MAGNITUDE_BITS;
    let right_magnitude: u64 = right & MAGNITUDE_BITS;
    let left_negative: bool = left & SIGN_BIT != 0;
    let right_negative: bool = right & SIGN_BIT != 0;
    if left_negative == right_negative {
        left_magnitude == right_magnitude
    } else {
        left_magnitude == 0 && right_magnitude == 0
    }
}

/// The strict order of doubles.
pub fn numbers_less(left: u64, right: u64) -> (r: bool)
    ensures
        r == number_less(left, right),
{
    if nan(left) || nan(right) {
        return false;
    }
    let left_magnitude: u64 = left & MAGNITUDE_BITS;
    let right_magnitude: u64 = right & MAGNITUDE_BITS;
    let left_negative: bool = left & SIGN_BIT != 0;
    let right_negative: bool = right & SIGN_BIT != 0;
    if left_negative {
        if right_negative {
            right_magnitude < left_magnitude
        } else {
            left_magnitude != 0 || right_magnitude != 0
        }
    } else {
        if right_negative {
            false
        } else {
            left_magnitude < right_magnitude
        }
    }
}

/// The double of opposite sign.
pub fn negate(bits: u64) -> (r: u64)
    ensures
        r == number_negated(bits),
{
    bits ^ SIGN_BIT
}

/// Equality of doubles is reflexive on every double that is a number.
pub proof fn lemma_number_equal_reflexive(bits: u64)
    requires
        !is_nan(bits),
    ensures
        number_equal(bits, bits),
{
}

/// Negating a double twice gives it back.
pub proof fn lemma_negate_twice(bits: u64)
    ensures
        number_negated(number_negated(bits)) == bits,
{
    assert((bits ^ 0x8000_0000_0000_0000u64) ^ 0x8000_0000_0000_0000u64 == bits) by (bit_vector);
}

} // verus!
