//! Values of the language, and the operations on them that need no rounding.
//!
//! A number is held as the bit pattern of an IEEE-754 binary64 value. Order,
//! equality and negation of such patterns are integer work and are done
//! here; sums, differences, products and quotients are not.

use vstd::prelude::*;
use vstd::slice::slice_to_vec;
use crate::text::{ascii, ascii_bytes};

verus! {

/// The sign bit of a binary64 pattern.
pub const SIGN_BIT: u64 = 0x8000_0000_0000_0000;

/// The pattern of positive infinity: every pattern whose magnitude is above
/// it is a NaN.
pub const INFINITY_BITS: u64 = 0x7ff0_0000_0000_0000;

/// A value that lives on the heap.
#[derive(Debug)]
pub enum Object {
    /// A string: an owned sequence of bytes.
    String(Vec<u8>),
}

/// A value of the language.
#[derive(Debug)]
pub enum LoxValue {
    Bool(bool),
    /// A number, as the bits of a binary64 value.
    Number(u64),
    Object(Object),
    Null,
}

/// The model of a value.
pub enum Value {
    Bool(bool),
    Number(u64),
    String(Seq<u8>),
    Null,
}

impl View for Object {
    type V = Value;

    open spec fn view(&self) -> Value {
        match self {
            Object::String(bytes) => Value::String(bytes@),
        }
    }
}

impl View for LoxValue {
    type V = Value;

    open spec fn view(&self) -> Value {
        match self {
            LoxValue::Bool(b) => Value::Bool(*b),
            LoxValue::Number(bits) => Value::Number(*bits),
            LoxValue::Object(object) => object@,
            LoxValue::Null => Value::Null,
        }
    }
}

/// The pattern without its sign bit.
pub open spec fn magnitude(bits: u64) -> int {
    if bits >= SIGN_BIT {
        bits - SIGN_BIT
    } else {
        bits as int
    }
}

/// Whether the pattern is a NaN.
pub open spec fn is_nan(bits: u64) -> bool {
    magnitude(bits) > INFINITY_BITS
}

/// The place of a pattern that is no NaN in the order of the numbers: the
/// magnitude, below zero where the sign bit is set. Both zeros have place 0.
pub open spec fn rank(bits: u64) -> int {
    if bits >= SIGN_BIT {
        -magnitude(bits)
    } else {
        magnitude(bits)
    }
}

/// IEEE-754 `<`: false where either side is a NaN.
pub open spec fn number_less(left: u64, right: u64) -> bool {
    !is_nan(left) && !is_nan(right) && rank(left) < rank(right)
}

/// IEEE-754 `==`: false where either side is a NaN; the two zeros are equal.
pub open spec fn number_equal(left: u64, right: u64) -> bool {
    !is_nan(left) && !is_nan(right) && rank(left) == rank(right)
}

/// IEEE-754 negation: the same pattern with the other sign.
pub open spec fn number_negated(bits: u64) -> u64 {
    if bits >= SIGN_BIT {
        (bits - SIGN_BIT) as u64
    } else {
        (bits + SIGN_BIT) as u64
    }
}

/// Only `Null` and `false` are falsey.
pub open spec fn falsey(value: Value) -> bool {
    value is Null || value == Value::Bool(false)
}

/// Equality of the language: values of different variants are never equal.
pub open spec fn values_equal(left: Value, right: Value) -> bool {
    match (left, right) {
        (Value::Null, Value::Null) => true,
        (Value::Bool(a), Value::Bool(b)) => a == b,
        (Value::Number(a), Value::Number(b)) => number_equal(a, b),
        (Value::String(a), Value::String(b)) => a == b,
        _ => false,
    }
}

/// The text a value prints as, where that needs no number formatting.
pub open spec fn printed(value: Value) -> Option<Seq<u8>> {
    match value {
        Value::Null => Some(ascii("null"@)),
        Value::Bool(b) => Some(if b { ascii("true"@) } else { ascii("false"@) }),
        Value::String(bytes) => Some(bytes),
        Value::Number(_) => None,
    }
}

/// Whether `left < right` as binary64 values.
pub fn bits_less(left: u64, right: u64) -> (less: bool)
    ensures
        less == number_less(left, right),
{
    let left_size: u64 = if left >= SIGN_BIT { left - SIGN_BIT } else { left };
    let right_size: u64 = if right >= SIGN_BIT { right - SIGN_BIT } else { right };
    if left_size > INFINITY_BITS || right_size > INFINITY_BITS {
        false
    } else if left >= SIGN_BIT {
        if right >= SIGN_BIT {
            left_size > right_size
        } else {
            left_size > 0 || right_size > 0
        }
    } else {
        right < SIGN_BIT && left_size < right_size
    }
}

/// Whether `left == right` as binary64 values.
pub fn bits_equal(left: u64, right: u64) -> (equal: bool)
    ensures
        equal == number_equal(left, right),
{
    let left_size: u64 = if left >= SIGN_BIT { left - SIGN_BIT } else { left };
    let right_size: u64 = if right >= SIGN_BIT { right - SIGN_BIT } else { right };
    if left_size > INFINITY_BITS || right_size > INFINITY_BITS {
        false
    } else {
        left == right || (left_size == 0 && right_size == 0)
    }
}

/// The pattern of `-x` for the pattern of `x`.
pub fn bits_negated(bits: u64) -> (negated: u64)
    ensures
        negated == number_negated(bits),
{
    if bits >= SIGN_BIT {
        bits - SIGN_BIT
    } else {
        bits + SIGN_BIT
    }
}

impl Clone for Object {
    fn clone(&self) -> (copy: Self)
        ensures
            copy@ == self@,
    {
        match self {
            Object::String(bytes) => Object::String(slice_to_vec(bytes.as_slice())),
        }
    }
}

impl Clone for LoxValue {
    fn clone(&self) -> (copy: Self)
        ensures
            copy@ == self@,
    {
        match self {
            LoxValue::Bool(b) => LoxValue::Bool(*b),
            LoxValue::Number(bits) => LoxValue::Number(*bits),
            LoxValue::Object(object) => LoxValue::Object(object.clone()),
            LoxValue::Null => LoxValue::Null,
        }
    }
}

impl Default for LoxValue {
    /// The default value is `Null`.
    fn default() -> (value: Self)
        ensures
            value@ == Value::Null,
    {
        LoxValue::Null
    }
}

impl LoxValue {
    /// Whether the value counts as false: only `Null` and `false` do.
    pub fn is_falsey(&self) -> (yes: bool)
        ensures
            yes == falsey(self@),
    {
        match self {
            LoxValue::Null => true,
            LoxValue::Bool(b) => !*b,
            _ => false,
        }
    }

    /// `self < rhs` for two numbers; `None` where either is not a number.
    pub fn less(&self, rhs: &Self) -> (result: Option<Self>)
        ensures
            match (self@, rhs@) {
                (Value::Number(a), Value::Number(b)) => result is Some && result->0@
                    == Value::Bool(number_less(a, b)),
                _ => result is None,
            },
    {
        match (self, rhs) {
            (LoxValue::Number(a), LoxValue::Number(b)) => Some(LoxValue::Bool(bits_less(*a, *b))),
            _ => None,
        }
    }

    /// `self > rhs` for two numbers; `None` where either is not a number.
    pub fn greater(&self, rhs: &Self) -> (result: Option<Self>)
        ensures
            match (self@, rhs@) {
                (Value::Number(a), Value::Number(b)) => result is Some && result->0@
                    == Value::Bool(number_less(b, a)),
                _ => result is None,
            },
    {
        match (self, rhs) {
            (LoxValue::Number(a), LoxValue::Number(b)) => Some(LoxValue::Bool(bits_less(*b, *a))),
            _ => None,
        }
    }

    /// `-self` for a number; `None` for anything else.
    pub fn neg(self) -> (result: Option<Self>)
        ensures
            match self@ {
                Value::Number(a) => result is Some && result->0@ == Value::Number(
                    number_negated(a),
                ),
                _ => result is None,
            },
    {
        match self {
            LoxValue::Number(a) => Some(LoxValue::Number(bits_negated(a))),
            _ => None,
        }
    }

    /// `!self` for a boolean; `None` for anything else.
    pub fn not(self) -> (result: Option<Self>)
        ensures
            match self@ {
                Value::Bool(a) => result is Some && result->0@ == Value::Bool(!a),
                _ => result is None,
            },
    {
        match self {
            LoxValue::Bool(a) => Some(LoxValue::Bool(!a)),
            _ => None,
        }
    }

    /// `self && rhs` for two booleans; `None` where either is not one.
    pub fn bitand(self, rhs: Self) -> (result: Option<Self>)
        ensures
            match (self@, rhs@) {
                (Value::Bool(a), Value::Bool(b)) => result is Some && result->0@ == Value::Bool(
                    a && b,
                ),
                _ => result is None,
            },
    {
        match (self, rhs) {
            (LoxValue::Bool(a), LoxValue::Bool(b)) => Some(LoxValue::Bool(a && b)),
            _ => None,
        }
    }

    /// `self || rhs` for two booleans; `None` where either is not one.
    pub fn bitor(self, rhs: Self) -> (result: Option<Self>)
        ensures
            match (self@, rhs@) {
                (Value::Bool(a), Value::Bool(b)) => result is Some && result->0@ == Value::Bool(
                    a || b,
                ),
                _ => result is None,
            },
    {
        match (self, rhs) {
            (LoxValue::Bool(a), LoxValue::Bool(b)) => Some(LoxValue::Bool(a || b)),
            _ => None,
        }
    }

    /// Equality of the language. Values of different variants are unequal;
    /// the call never fails.
    pub fn equals(&self, other: &Self) -> (equal: bool)
        ensures
            equal == values_equal(self@, other@),
    {
        match (self, other) {
            (LoxValue::Null, LoxValue::Null) => true,
            (LoxValue::Bool(a), LoxValue::Bool(b)) => *a == *b,
            (LoxValue::Number(a), LoxValue::Number(b)) => bits_equal(*a, *b),
            (LoxValue::Object(Object::String(a)), LoxValue::Object(Object::String(b))) => {
                crate::text::same_bytes(a.as_slice(), b.as_slice())
            },
            _ => false,
        }
    }

    /// The bytes the value prints as: `null`, `true`, `false`, or the bytes
    /// of a string. A number has no text here: formatting it is its
    /// holder's work.
    pub fn text(&self) -> (bytes: Option<Vec<u8>>)
        ensures
            bytes is Some == printed(self@) is Some,
            bytes is Some ==> bytes->0@ == printed(self@)->0,
    {
        proof {
            reveal_strlit("null");
            reveal_strlit("true");
            reveal_strlit("false");
        }
        match self {
            LoxValue::Null => Some(slice_to_vec(ascii_bytes("null"))),
            LoxValue::Bool(true) => Some(slice_to_vec(ascii_bytes("true"))),
            LoxValue::Bool(false) => Some(slice_to_vec(ascii_bytes("false"))),
            LoxValue::Object(Object::String(bytes)) => Some(slice_to_vec(bytes.as_slice())),
            LoxValue::Number(_) => None,
        }
    }
}

/// Whether two values are of the same variant.
pub open spec fn same_variant(left: Value, right: Value) -> bool {
    match (left, right) {
        (Value::Null, Value::Null) => true,
        (Value::Bool(_), Value::Bool(_)) => true,
        (Value::Number(_), Value::Number(_)) => true,
        (Value::String(_), Value::String(_)) => true,
        _ => false,
    }
}

/// Values of different variants are never equal.
pub proof fn lemma_unlike_values_differ(left: Value, right: Value)
    requires
        !same_variant(left, right),
    ensures
        !values_equal(left, right),
{
}

/// Every value but `Null` and `false` is truthy.
pub proof fn lemma_falsey_values(value: Value)
    ensures
        falsey(value) <==> value == Value::Null || value == Value::Bool(false),
{
}

} // verus!
