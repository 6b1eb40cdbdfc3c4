use vstd::prelude::*;

verus! {

/// The sign bit of an IEEE-754 double.
pub const SIGN_BIT: u64 = 0x8000_0000_0000_0000;

/// Every bit of an IEEE-754 double but the sign.
pub const MAGNITUDE_MASK: u64 = 0x7fff_ffff_ffff_ffff;

/// The exponent field of an IEEE-754 double.
pub const EXPONENT_MASK: u64 = 0x7ff0_0000_0000_0000;

/// The fraction field of an IEEE-754 double.
pub const FRACTION_MASK: u64 = 0x000f_ffff_ffff_ffff;

/// The tag of a value.
#[derive(Clone, Copy, Debug, PartialEq, Eq, Structural)]
pub enum ValueType {
    Bool,
    Nil,
    Number,
}

/// A runtime value: nil, a boolean, or a number given by its IEEE-754 bits.
#[derive(Clone, Copy, Debug, PartialEq, Eq, Structural)]
pub enum Value {
    Nil,
    Bool(bool),
    Number(u64),
}

/// The bits are a NaN: all exponent bits set and a fraction that is not zero.
pub open spec fn is_nan_bits(b: u64) -> bool {
    b & EXPONENT_MASK == EXPONENT_MASK && b & FRACTION_MASK != 0
}

/// Where a number that is not a NaN stands on the number line, as an integer
/// that orders doubles as their values do: the magnitude bits of a double
/// grow with its absolute value, and both zeros land on 0.
pub open spec fn order_key(b: u64) -> int {
    if b & SIGN_BIT == 0 {
        (b & MAGNITUDE_MASK) as int
    } else {
        -((b & MAGNITUDE_MASK) as int)
    }
}

/// IEEE-754 equality: no NaN equals anything, and `0 == -0`.
pub open spec fn number_eq(a: u64, b: u64) -> bool {
    !is_nan_bits(a) && !is_nan_bits(b) && order_key(a) == order_key(b)
}

/// IEEE-754 `<`: false whenever a NaN takes part.
pub open spec fn number_lt(a: u64, b: u64) -> bool {
    !is_nan_bits(a) && !is_nan_bits(b) && order_key(a) < order_key(b)
}

/// IEEE-754 negation flips the sign bit and nothing else.
pub open spec fn negated_bits(b: u64) -> u64 {
    b ^ SIGN_BIT
}

/// `nil` and `false` are falsy; every other value, `0` included, is truthy.
pub open spec fn is_falsy_spec(v: Value) -> bool {
    v is Nil || v == Value::Bool(false)
}

/// Equality of the language: values of different tags differ; nil equals nil;
/// booleans compare by value, numbers by IEEE-754 equality.
pub open spec fn values_equal_spec(a: Value, b: Value) -> bool {
    match (a, b) {
        (Value::Nil, Value::Nil) => true,
        (Value::Bool(x), Value::Bool(y)) => x == y,
        (Value::Number(x), Value::Number(y)) => number_eq(x, y),
        _ => false,
    }
}

impl Value {
    pub open spec fn type_of(self) -> ValueType {
        match self {
            Value::Nil => ValueType::Nil,
            Value::Bool(_) => ValueType::Bool,
            Value::Number(_) => ValueType::Number,
        }
    }

    /// The tag of this value.
    pub fn value_type(&self) -> (r: ValueType)
        ensures
            r == self.type_of(),
    {
        match self {
            Value::Nil => ValueType::Nil,
            Value::Bool(_) => ValueType::Bool,
            Value::Number(_) => ValueType::Number,
        }
    }
}

/// The value nil.
pub fn nil_val() -> (r: Value)
    ensures
        r == Value::Nil,
{
    Value::Nil
}

/// A boolean value.
pub fn bool_val(boolean: bool) -> (r: Value)
    ensures
        r == Value::Bool(boolean),
{
    Value::Bool(boolean)
}

/// A number value, from the bits of a double.
pub fn number_val(number: u64) -> (r: Value)
    ensures
        r == Value::Number(number),
{
    Value::Number(number)
}

/// The bits of a number value; the caller has checked the tag.
pub fn as_number(value: &Value) -> (r: u64)
    requires
        value is Number,
    ensures
        *value == Value::Number(r),
{
    match value {
        Value::Number(n) => *n,
        _ => 0,
    }
}

/// The payload of a boolean value; the caller has checked the tag.
pub fn as_bool(value: &Value) -> (r: bool)
    requires
        value is Bool,
    ensures
        *value == Value::Bool(r),
{
    match value {
        Value::Bool(b) => *b,
        _ => false,
    }
}

/// Whether the bits are a NaN.
pub fn is_nan(b: u64) -> (r: bool)
    ensures
        r == is_nan_bits(b),
{
    b & EXPONENT_MASK == EXPONENT_MASK && b & FRACTION_MASK != 0
}

proof fn lemma_same_sign_and_magnitude(a: u64, b: u64)
    requires
        a & SIGN_BIT == b & SIGN_BIT,
        a & MAGNITUDE_MASK == b & MAGNITUDE_MASK,
    ensures
        a == b,
{
    assert(a & 0x8000_0000_0000_0000u64 == b & 0x8000_0000_0000_0000u64 && a
        & 0x7fff_ffff_ffff_ffffu64 == b & 0x7fff_ffff_ffff_ffffu64 ==> a == b) by (bit_vector);
}

proof fn lemma_sign_bit_cases(a: u64)
    ensures
        a & SIGN_BIT == 0 || a & SIGN_BIT == SIGN_BIT,
{
    assert(a & 0x8000_0000_0000_0000u64 == 0 || a & 0x8000_0000_0000_0000u64
        == 0x8000_0000_0000_0000u64) by (bit_vector);
}

/// IEEE-754 equality of two doubles given by their bits.
pub fn number_equal(a: u64, b: u64) -> (r: bool)
    ensures
        r == number_eq(a, b),
{
    if is_nan(a) || is_nan(b) {
        return false;
    }
    let ma = a & MAGNITUDE_MASK;
    let mb = b & MAGNITUDE_MASK;
    if ma == 0 && mb == 0 {
        return true;
    }
    proof {
        lemma_sign_bit_cases(a);
        lemma_sign_bit_cases(b);
        if a & SIGN_BIT == b & SIGN_BIT && ma == mb {
            lemma_same_sign_and_magnitude(a, b);
        }
    }
    a == b
}

/// IEEE-754 `a < b` of two doubles given by their bits.
pub fn number_less(a: u64, b: u64) -> (r: bool)
    ensures
        r == number_lt(a, b),
{
    if is_nan(a) || is_nan(b) {
        return false;
    }
    let ma = a & MAGNITUDE_MASK;
    let mb = b & MAGNITUDE_MASK;
    let a_negative = a & SIGN_BIT != 0;
    let b_negative = b & SIGN_BIT != 0;
    if !a_negative && !b_negative {
        ma < mb
    } else if a_negative && b_negative {
        mb < ma
    } else if a_negative {
        !(ma == 0 && mb == 0)
    } else {
        false
    }
}

/// IEEE-754 negation of a double given by its bits.
pub fn number_negate(b: u64) -> (r: u64)
    ensures
        r == negated_bits(b),
{
    b ^ SIGN_BIT
}

/// Whether the value is falsy.
pub fn is_falsy(value: &Value) -> (r: bool)
    ensures
        r == is_falsy_spec(*value),
{
    match value {
        Value::Nil => true,
        Value::Bool(b) => !*b,
        Value::Number(_) => false,
    }
}

/// Equality of two values, as the language's `==` sees it.
pub fn values_equal(a: Value, b: Value) -> (r: bool)
    ensures
        r == values_equal_spec(a, b),
{
    match (a, b) {
        (Value::Nil, Value::Nil) => true,
        (Value::Bool(x), Value::Bool(y)) => x == y,
        (Value::Number(x), Value::Number(y)) => number_equal(x, y),
        _ => false,
    }
}

} // verus!
