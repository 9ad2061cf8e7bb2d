//! Node parameters. A 32-bit float parameter is carried as its IEEE-754 bit
//! pattern, and compared as the float it encodes.

use vstd::prelude::*;
use crate::text::{owned, text_eq};
use crate::text_map::TextMap;

verus! {

/// A parameter value. `Float`, `Vec2` and `Vec3` hold the bit patterns of `f32` values.
#[derive(Debug, Clone)]
pub enum ParamValue {
    Float(u32),
    Int(i32),
    Bool(bool),
    Vec2([u32; 2]),
    Vec3([u32; 3]),
    String(String),
}

/// Whether the bit pattern encodes a NaN.
pub open spec fn f32_bits_nan(a: u32) -> bool {
    (a & 0x7f80_0000u32) == 0x7f80_0000u32 && (a & 0x007f_ffffu32) != 0
}

/// Whether two bit patterns encode floats that compare equal: NaN equals nothing,
/// and the two zeros are equal.
pub open spec fn f32_bits_eq(a: u32, b: u32) -> bool {
    !f32_bits_nan(a) && !f32_bits_nan(b) && (a == b || ((a & 0x7fff_ffffu32) == 0 && (b
        & 0x7fff_ffffu32) == 0))
}

/// Float equality on bit patterns.
pub fn f32_bits_equal(a: u32, b: u32) -> (r: bool)
    ensures
        r == f32_bits_eq(a, b),
{
    let a_nan = (a & 0x7f80_0000u32) == 0x7f80_0000u32 && (a & 0x007f_ffffu32) != 0;
    let b_nan = (b & 0x7f80_0000u32) == 0x7f80_0000u32 && (b & 0x007f_ffffu32) != 0;
    !a_nan && !b_nan && (a == b || ((a & 0x7fff_ffffu32) == 0 && (b & 0x7fff_ffffu32) == 0))
}

/// The equality of parameter values: same variant and equal payload.
pub open spec fn param_eq(a: ParamValue, b: ParamValue) -> bool {
    match (a, b) {
        (ParamValue::Float(x), ParamValue::Float(y)) => f32_bits_eq(x, y),
        (ParamValue::Int(x), ParamValue::Int(y)) => x == y,
        (ParamValue::Bool(x), ParamValue::Bool(y)) => x == y,
        (ParamValue::Vec2(x), ParamValue::Vec2(y)) => f32_bits_eq(x[0], y[0]) && f32_bits_eq(
            x[1],
            y[1],
        ),
        (ParamValue::Vec3(x), ParamValue::Vec3(y)) => f32_bits_eq(x[0], y[0]) && f32_bits_eq(
            x[1],
            y[1],
        ) && f32_bits_eq(x[2], y[2]),
        (ParamValue::String(x), ParamValue::String(y)) => x@ == y@,
        _ => false,
    }
}

/// Whether two parameter values are equal.
pub fn param_values_equal(a: &ParamValue, b: &ParamValue) -> (r: bool)
    ensures
        r == param_eq(*a, *b),
{
    match (a, b) {
        (ParamValue::Float(x), ParamValue::Float(y)) => f32_bits_equal(*x, *y),
        (ParamValue::Int(x), ParamValue::Int(y)) => *x == *y,
        (ParamValue::Bool(x), ParamValue::Bool(y)) => *x == *y,
        (ParamValue::Vec2(x), ParamValue::Vec2(y)) => f32_bits_equal(x[0], y[0]) && f32_bits_equal(
            x[1],
            y[1],
        ),
        (ParamValue::Vec3(x), ParamValue::Vec3(y)) => f32_bits_equal(x[0], y[0]) && f32_bits_equal(
            x[1],
            y[1],
        ) && f32_bits_equal(x[2], y[2]),
        (ParamValue::String(x), ParamValue::String(y)) => text_eq(x.as_str(), y.as_str()),
        _ => false,
    }
}

/// The parameters of a node, by name.
#[derive(Debug)]
pub struct NodeParams {
    pub values: TextMap<ParamValue>,
}

impl NodeParams {
    /// The integer stored under `key`, or `default` when there is none or it is not an integer.
    pub open spec fn int_or(&self, key: Seq<char>, default: i32) -> i32 {
        match self.values@.get(key) {
            Some(ParamValue::Int(v)) => v,
            _ => default,
        }
    }

    /// The flag stored under `key`, or `default` when there is none or it is not a flag.
    pub open spec fn bool_or(&self, key: Seq<char>, default: bool) -> bool {
        match self.values@.get(key) {
            Some(ParamValue::Bool(v)) => v,
            _ => default,
        }
    }

    /// The text stored under `key`, or `default` when there is none or it is not text.
    pub open spec fn text_or(&self, key: Seq<char>, default: Seq<char>) -> Seq<char> {
        match self.values@.get(key) {
            Some(ParamValue::String(v)) => v@,
            _ => default,
        }
    }

    /// Parameters with no value set.
    pub fn new() -> (r: Self)
        ensures
            r.values.wf(),
            r.values@ == Map::<Seq<char>, ParamValue>::empty(),
            r.values.entries_view().len() == 0,
    {
        NodeParams { values: TextMap::new() }
    }

    /// The integer stored under `key`, or `default` when there is none or it is not an integer.
    pub fn get_int(&self, key: &str, default: i32) -> (r: i32)
        requires
            self.values.wf(),
        ensures
            r == self.int_or(key@, default),
    {
        match self.values.get(key) {
            Some(ParamValue::Int(v)) => *v,
            _ => default,
        }
    }

    /// The pair of float bit patterns stored under `key`, or `default` when there
    /// is none or it is not a pair.
    pub fn get_vec2(&self, key: &str, default: [u32; 2]) -> (r: [u32; 2])
        requires
            self.values.wf(),
        ensures
            r == (match self.values@.get(key@) {
                Some(ParamValue::Vec2(v)) => v,
                _ => default,
            }),
    {
        match self.values.get(key) {
            Some(ParamValue::Vec2(v)) => *v,
            _ => default,
        }
    }

    /// The triple of float bit patterns stored under `key`, or `default` when
    /// there is none or it is not a triple.
    pub fn get_vec3(&self, key: &str, default: [u32; 3]) -> (r: [u32; 3])
        requires
            self.values.wf(),
        ensures
            r == (match self.values@.get(key@) {
                Some(ParamValue::Vec3(v)) => v,
                _ => default,
            }),
    {
        match self.values.get(key) {
            Some(ParamValue::Vec3(v)) => *v,
            _ => default,
        }
    }

    /// The flag stored under `key`, or `default` when there is none or it is not a flag.
    pub fn get_bool(&self, key: &str, default: bool) -> (r: bool)
        requires
            self.values.wf(),
        ensures
            r == self.bool_or(key@, default),
    {
        match self.values.get(key) {
            Some(ParamValue::Bool(v)) => *v,
            _ => default,
        }
    }

    /// The text stored under `key`, or `default` when there is none or it is not text.
    pub fn get_string<'a>(&'a self, key: &str, default: &'a str) -> (r: &'a str)
        requires
            self.values.wf(),
        ensures
            r@ == self.text_or(key@, default@),
    {
        match self.values.get(key) {
            Some(ParamValue::String(v)) => v.as_str(),
            _ => default,
        }
    }

    /// Stores `value` under `key` unless an equal value is stored there already;
    /// says whether it stored it.
    pub fn store(&mut self, key: String, value: ParamValue) -> (changed: bool)
        requires
            old(self).values.wf(),
        ensures
            final(self).values.wf(),
            changed == !(old(self).values@.contains_key(key@) && param_eq(
                old(self).values@[key@],
                value,
            )),
            changed ==> final(self).values@ == old(self).values@.insert(key@, value),
            !changed ==> final(self).values@ == old(self).values@,
    {
        let changed = match self.values.get(key.as_str()) {
            Some(existing) => !param_values_equal(existing, &value),
            None => true,
        };
        if changed {
            self.values.insert(key, value);
        }
        changed
    }
}

/// A `String` parameter value made from a string slice.
pub fn text_param(s: &str) -> (r: ParamValue)
    ensures
        r matches ParamValue::String(v) && v@ == s@,
{
    ParamValue::String(owned(s))
}

/// Whether `key` holds the text `text`.
pub open spec fn text_entry(values: Map<Seq<char>, ParamValue>, key: Seq<char>, text: Seq<char>) -> bool {
    &&& values.contains_key(key)
    &&& values[key] matches ParamValue::String(s) && s@ == text
}

} // verus!
