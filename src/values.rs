use vstd::prelude::*;

use crate::virtual_machine::InterpretError;

verus! {

/// Bit of an IEEE-754 binary64 pattern that holds the sign.
pub const SIGN_BIT: u64 = 0x8000_0000_0000_0000u64;

/// Bits of an IEEE-754 binary64 pattern that hold the biased exponent.
pub const EXPONENT_BITS: u64 = 0x7FF0_0000_0000_0000u64;

/// Bits of an IEEE-754 binary64 pattern that hold the fraction.
pub const FRACTION_BITS: u64 = 0x000F_FFFF_FFFF_FFFFu64;

/// A binary64 pattern is a NaN when its exponent is all ones and its fraction
/// is not zero.
pub open spec fn nan_bits(b: u64) -> bool {
    (b & EXPONENT_BITS) == EXPONENT_BITS && (b & FRACTION_BITS) != 0
}

/// Both patterns are zeros (of either sign).
pub open spec fn both_zero_bits(a: u64, b: u64) -> bool {
    (a | b) & !SIGN_BIT == 0
}

/// IEEE-754 equality: NaN equals nothing, `+0` equals `-0`, and otherwise
/// two numbers are equal exactly when their patterns are.
pub open spec fn eq_bits(a: u64, b: u64) -> bool {
    !nan_bits(a) && !nan_bits(b) && (a == b || both_zero_bits(a, b))
}

/// IEEE-754 `<`: false when either side is NaN or both are zeros; otherwise
/// a negative number is below a positive one, positive numbers order as their
/// patterns, negative numbers in reverse.
pub open spec fn lt_bits(a: u64, b: u64) -> bool {
    if nan_bits(a) || nan_bits(b) || both_zero_bits(a, b) {
        false
    } else if a & SIGN_BIT != 0 {
        b & SIGN_BIT == 0 || a > b
    } else {
        b & SIGN_BIT == 0 && a < b
    }
}

/// IEEE-754 negation flips the sign bit and nothing else.
pub open spec fn neg_bits(a: u64) -> u64 {
    a ^ SIGN_BIT
}

/// A scalar of the language. A number is held as the bit pattern of its
/// IEEE-754 binary64 value.
#[derive(Clone, Copy, Debug, PartialEq, Eq, Structural)]
pub enum Value {
    Number(u64),
    Boolean(bool),
    Nil,
}

/// `nil` and `false` are falsey; every other value is truthy.
pub open spec fn falsey(v: Value) -> bool {
    match v {
        Value::Nil => true,
        Value::Boolean(b) => !b,
        Value::Number(_) => false,
    }
}

/// Equality of the language: values of different variants are never equal;
/// numbers compare as IEEE-754 numbers, booleans by their payload.
pub open spec fn values_equal(a: Value, b: Value) -> bool {
    match (a, b) {
        (Value::Number(x), Value::Number(y)) => eq_bits(x, y),
        (Value::Boolean(x), Value::Boolean(y)) => x == y,
        (Value::Nil, Value::Nil) => true,
        _ => false,
    }
}

impl Value {
    pub fn create_number(bits: u64) -> (r: Value)
        ensures
            r == Value::Number(bits),
    {
        Value::Number(bits)
    }

    pub fn create_boolean(value: bool) -> (r: Value)
        ensures
            r == Value::Boolean(value),
    {
        Value::Boolean(value)
    }

    pub fn create_nil() -> (r: Value)
        ensures
            r == Value::Nil,
    {
        Value::Nil
    }

    pub fn is_boolean(&self) -> (r: bool)
        ensures
            r == (*self is Boolean),
    {
        match self {
            Value::Boolean(_) => true,
            _ => false,
        }
    }

    pub fn is_nil(&self) -> (r: bool)
        ensures
            r == (*self is Nil),
    {
        match self {
            Value::Nil => true,
            _ => false,
        }
    }

    pub fn is_number(&self) -> (r: bool)
        ensures
            r == (*self is Number),
    {
        match self {
            Value::Number(_) => true,
            _ => false,
        }
    }

    pub fn try_as_boolean(&self) -> (r: Result<bool, InterpretError>)
        ensures
            match *self {
                Value::Boolean(b) => r == Ok::<bool, InterpretError>(b),
                _ => r == Err::<bool, InterpretError>(InterpretError::RuntimeError),
            },
    {
        if let Value::Boolean(value) = self {
            Ok(*value)
        } else {
            Err(InterpretError::RuntimeError)
        }
    }

    /// The bit pattern of a number.
    pub fn try_as_number(&self) -> (r: Result<u64, InterpretError>)
        ensures
            match *self {
                Value::Number(b) => r == Ok::<u64, InterpretError>(b),
                _ => r == Err::<u64, InterpretError>(InterpretError::RuntimeError),
            },
    {
        if let Value::Number(value) = self {
            Ok(*value)
        } else {
            Err(InterpretError::RuntimeError)
        }
    }

    pub fn is_falsey(&self) -> (r: bool)
        ensures
            r == falsey(*self),
    {
        self.is_nil() || (self.is_boolean() && !match self.try_as_boolean() {
            Ok(b) => b,
            Err(_) => false,
        })
    }

    pub fn is_equal_to(&self, other: &Value) -> (r: bool)
        ensures
            r == values_equal(*self, *other),
    {
        match (self, other) {
            (Value::Number(x), Value::Number(y)) => number_equal(*x, *y),
            (Value::Boolean(x), Value::Boolean(y)) => *x == *y,
            (Value::Nil, Value::Nil) => true,
            _ => false,
        }
    }

    /// `self < other` for two numbers.
    pub fn is_less_than(&self, other: &Value) -> (r: bool)
        requires
            *self is Number,
            *other is Number,
        ensures
            r == lt_bits(self->Number_0, other->Number_0),
    {
        match (self, other) {
            (Value::Number(x), Value::Number(y)) => number_less(*x, *y),
            _ => false,
        }
    }

    /// `self > other` for two numbers.
    pub fn is_greater_than(&self, other: &Value) -> (r: bool)
        requires
            *self is Number,
            *other is Number,
        ensures
            r == lt_bits(other->Number_0, self->Number_0),
    {
        match (self, other) {
            (Value::Number(x), Value::Number(y)) => number_less(*y, *x),
            _ => false,
        }
    }

    /// The negation of a number; any other value gives `nil`.
    pub fn negate(&self) -> (r: Value)
        ensures
            r == match *self {
                Value::Number(b) => Value::Number(neg_bits(b)),
                _ => Value::Nil,
            },
    {
        match self {
            Value::Number(b) => Value::Number(*b ^ SIGN_BIT),
            _ => Value::Nil,
        }
    }
}

pub fn number_is_nan(b: u64) -> (r: bool)
    ensures
        r == nan_bits(b),
{
    (b & EXPONENT_BITS) == EXPONENT_BITS && (b & FRACTION_BITS) != 0
}

pub fn number_equal(a: u64, b: u64) -> (r: bool)
    ensures
        r == eq_bits(a, b),
{
    !number_is_nan(a) && !number_is_nan(b) && (a == b || (a | b) & !SIGN_BIT == 0)
}

pub fn number_less(a: u64, b: u64) -> (r: bool)
    ensures
        r == lt_bits(a, b),
{
    if number_is_nan(a) || number_is_nan(b) || (a | b) & !SIGN_BIT == 0 {
        false
    } else if a & SIGN_BIT != 0 {
        b & SIGN_BIT == 0 || a > b
    } else {
        b & SIGN_BIT == 0 && a < b
    }
}

/// Only `nil` and `false` are falsey: a number never is, `true` never is.
pub proof fn lemma_falsey_values(v: Value)
    ensures
        v is Number ==> !falsey(v),
        falsey(Value::Nil),
        falsey(Value::Boolean(false)),
        !falsey(Value::Boolean(true)),
{
}

/// Values of different variants are never equal; in particular `nil` is not
/// `false` and no number is `true`.
pub proof fn lemma_equal_needs_same_variant(a: Value, b: Value)
    ensures
        (a is Number) != (b is Number) ==> !values_equal(a, b),
        (a is Boolean) != (b is Boolean) ==> !values_equal(a, b),
        (a is Nil) != (b is Nil) ==> !values_equal(a, b),
        !values_equal(Value::Nil, Value::Boolean(false)),
        !values_equal(Value::Number(a->Number_0), Value::Boolean(true)),
{
}

} // verus!
