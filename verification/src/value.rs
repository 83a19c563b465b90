//! The tagged value union of a layer's value dictionary.

use vstd::prelude::*;
use crate::dict::dict_insert;
use crate::dict::lemma_dict_insert_two;
use crate::strutil::str_eq;

verus! {

/// A metadata value.  Two values are equal only when both the variant tag and
/// the payload match: a double and a float never compare equal, whatever bits
/// they carry.
///
/// Floating-point payloads are held as their IEEE-754 bit patterns, so that
/// equality and serialization are exact functions of the stored bits.
pub enum Value {
    /// A string value.
    Str(String),
    /// A 64-bit floating-point value, as its bit pattern.
    Double(u64),
    /// A 32-bit floating-point value, as its bit pattern.
    Float(u32),
    /// A signed integer, encoded two's-complement on the wire.
    Int(i64),
    /// An unsigned integer.
    Uint(u64),
    /// A signed integer, zigzag-encoded on the wire.
    Sint(i64),
    /// A boolean value.
    Bool(bool),
}

/// The mathematical model of a [`Value`].
pub enum ValueV {
    /// A string value.
    Str(Seq<char>),
    /// A 64-bit floating-point value, as its bit pattern.
    Double(u64),
    /// A 32-bit floating-point value, as its bit pattern.
    Float(u32),
    /// A signed integer, encoded two's-complement on the wire.
    Int(i64),
    /// An unsigned integer.
    Uint(u64),
    /// A signed integer, zigzag-encoded on the wire.
    Sint(i64),
    /// A boolean value.
    Bool(bool),
}

impl View for Value {
    type V = ValueV;

    open spec fn view(&self) -> ValueV {
        match self {
            Value::Str(s) => ValueV::Str(s@),
            Value::Double(b) => ValueV::Double(*b),
            Value::Float(b) => ValueV::Float(*b),
            Value::Int(v) => ValueV::Int(*v),
            Value::Uint(v) => ValueV::Uint(*v),
            Value::Sint(v) => ValueV::Sint(*v),
            Value::Bool(v) => ValueV::Bool(*v),
        }
    }
}

impl Value {
    /// Returns whether two values are fully equal: same variant tag and same
    /// payload.
    pub fn full_eq(&self, other: &Value) -> (r: bool)
        ensures
            r == (self@ == other@),
    {
        match (self, other) {
            (Value::Str(a), Value::Str(b)) => str_eq(a.as_str(), b.as_str()),
            (Value::Double(a), Value::Double(b)) => *a == *b,
            (Value::Float(a), Value::Float(b)) => *a == *b,
            (Value::Int(a), Value::Int(b)) => *a == *b,
            (Value::Uint(a), Value::Uint(b)) => *a == *b,
            (Value::Sint(a), Value::Sint(b)) => *a == *b,
            (Value::Bool(a), Value::Bool(b)) => *a == *b,
            _ => false,
        }
    }
}

/// A double and a float are distinct dictionary entries, whatever bits they
/// carry: same numeric value or not, the variant tag differs.  Inserting one
/// of each into a dictionary that holds neither grows it by exactly two
/// entries.
pub proof fn lemma_double_float_distinct(s: Seq<ValueV>, d: u64, f: u32)
    ensures
        ValueV::Double(d) != ValueV::Float(f),
        (!s.contains(ValueV::Double(d)) && !s.contains(ValueV::Float(f)))
            ==> dict_insert(dict_insert(s, ValueV::Double(d)), ValueV::Float(f)).len() == s.len()
            + 2,
{
    if !s.contains(ValueV::Double(d)) && !s.contains(ValueV::Float(f)) {
        lemma_dict_insert_two(s, ValueV::Double(d), ValueV::Float(f));
    }
}

} // verus!
