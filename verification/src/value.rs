//! Runtime values of the language.
//!
//! A value is a tagged variant: `Nil`, a boolean, a number, or an owned
//! string.  Numbers are IEEE-754 doubles carried as their 64-bit patterns;
//! strings are owned byte sequences compared bytewise.  Equality across
//! distinct tags is always false, never an error.  Two numbers are compared
//! by the embedder (their difference measured against the machine epsilon),
//! so `values_equal` takes that verdict as an argument and is exact about
//! every other pairing.

use vstd::prelude::*;

verus! {

/// A runtime value.  `Number` holds the IEEE-754 bit pattern of a double;
/// `ObjString` holds the string's bytes, compared bytewise.
#[derive(Clone, Debug)]
pub enum Value {
    Bool(bool),
    Nil,
    Number(u64),
    ObjString(Vec<u8>),
}

/// The mathematical shape of a runtime value: the same variants, with the
/// string as an abstract byte sequence.
pub enum ValueV {
    VBool(bool),
    VNil,
    VNum(u64),
    VStr(Seq<u8>),
}

impl View for Value {
    type V = ValueV;

    open spec fn view(&self) -> ValueV {
        match self {
            Value::Bool(b) => ValueV::VBool(*b),
            Value::Nil => ValueV::VNil,
            Value::Number(n) => ValueV::VNum(*n),
            Value::ObjString(s) => ValueV::VStr(s@),
        }
    }
}

/// True iff the value is neither `Nil` nor `false`.  Numbers (including
/// zero) and strings (including the empty string) are truthy.
pub open spec fn spec_truthy(v: ValueV) -> bool {
    match v {
        ValueV::VBool(b) => b,
        ValueV::VNil => false,
        _ => true,
    }
}

impl Value {
    /// Executable truthiness test.
    pub fn truthy(&self) -> (r: bool)
        ensures
            r == spec_truthy(self@),
    {
        match self {
            Value::Bool(b) => *b,
            Value::Nil => false,
            _ => true,
        }
    }

    /// An owned copy of the value.
    pub fn duplicate(&self) -> (r: Value)
        ensures
            r@ == self@,
    {
        match self {
            Value::Bool(b) => Value::Bool(*b),
            Value::Nil => Value::Nil,
            Value::Number(n) => Value::Number(*n),
            Value::ObjString(s) => {
                let n = s.len();
                let c = crate::scanner::copy_range(s, 0, n);
                proof {
                    assert(c@ =~= s@);
                }
                Value::ObjString(c)
            },
        }
    }
}

/// What `values_equal` returns, as a function of the two values and of the
/// embedder's verdict on the one case the core cannot decide: two numbers,
/// which the language compares within the machine epsilon.
pub open spec fn spec_values_equal(a: ValueV, b: ValueV, numbers_equal: bool) -> bool {
    match (a, b) {
        (ValueV::VNum(_), ValueV::VNum(_)) => numbers_equal,
        (ValueV::VBool(x), ValueV::VBool(y)) => x == y,
        (ValueV::VNil, ValueV::VNil) => true,
        (ValueV::VStr(x), ValueV::VStr(y)) => x == y,
        _ => false,
    }
}

/// Equality of two values.  `numbers_equal` is the embedder's answer for the
/// number/number case (`|a - b| < epsilon` on the decoded doubles) and is
/// ignored for every other pairing: values of distinct tags are never equal,
/// booleans and `Nil` compare structurally, and strings compare bytewise.
pub fn values_equal(a: &Value, b: &Value, numbers_equal: bool) -> (r: bool)
    ensures
        r == spec_values_equal(a@, b@, numbers_equal),
{
    match (a, b) {
        (Value::Number(_), Value::Number(_)) => numbers_equal,
        (Value::Bool(x), Value::Bool(y)) => *x == *y,
        (Value::Nil, Value::Nil) => true,
        (Value::ObjString(x), Value::ObjString(y)) => {
            crate::compiler::bytes_eq(x, y)
        },
        _ => false,
    }
}

/// Value equality never holds across distinct tags, whatever the embedder
/// answered for the number case.
pub proof fn lemma_values_equal_distinct_tags(a: ValueV, b: ValueV, numbers_equal: bool)
    requires
        !(a is VBool && b is VBool),
        !(a is VNil && b is VNil),
        !(a is VNum && b is VNum),
        !(a is VStr && b is VStr),
    ensures
        !spec_values_equal(a, b, numbers_equal),
{
}

/// Value equality is symmetric, for any one embedder verdict on the number
/// case (the epsilon comparison itself is symmetric in its arguments).
pub proof fn lemma_values_equal_symmetric(a: ValueV, b: ValueV, numbers_equal: bool)
    ensures
        spec_values_equal(a, b, numbers_equal) == spec_values_equal(b, a, numbers_equal),
{
}

/// Value equality is reflexive on `Nil`, booleans and strings.  For a number
/// it returns exactly the embedder's verdict, which for a value compared
/// with itself is `|x - x| < epsilon`: true for every finite double.
pub proof fn lemma_values_equal_reflexive(a: ValueV, numbers_equal: bool)
    requires
        !(a is VNum),
    ensures
        spec_values_equal(a, a, numbers_equal),
{
}

/// The sign bit of an IEEE-754 double's bit pattern.
pub const SIGN_BIT: u64 = 0x8000_0000_0000_0000;

/// Negation of an IEEE-754 double, exactly: the sign bit flips and nothing
/// else changes, for every input including zeros, infinities and NaNs.
pub fn negate_number_bits(bits: u64) -> (r: u64)
    ensures
        r == (bits ^ SIGN_BIT),
{
    bits ^ SIGN_BIT
}

/// Negating a double twice gives back the original bit pattern.
pub proof fn lemma_negate_involution(bits: u64)
    ensures
        (bits ^ SIGN_BIT) ^ SIGN_BIT == bits,
{
    assert((bits ^ 0x8000_0000_0000_0000u64) ^ 0x8000_0000_0000_0000u64 == bits) by (bit_vector);
}

} // verus!
