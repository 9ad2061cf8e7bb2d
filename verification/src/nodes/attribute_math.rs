//! The "Attribute Math" node, which combines attributes arithmetically.

use vstd::prelude::*;
use crate::params::{NodeParams, ParamValue, text_entry, text_param};
use crate::text_map::TextMap;
use crate::graph::NodeDefinition;
use crate::nodes::{geometry_in, geometry_out, geometry_node};
use crate::text::owned;
use crate::attributes::{AttributeDomain, AttributeError, AttributeRef, AttributeStorage, attribute_error_message, error_text};
use crate::nodes::attribute_utils::{domain_from_params, domain_of_index};
use crate::topology::mask_at;

verus! {

/// The node kind's name.
pub const NAME: &'static str = "Attribute Math";

/// The definition of the "Attribute Math" node: an operator with geometry input "in" and one geometry output.
pub fn definition() -> (def: NodeDefinition)
    ensures
        geometry_node(def, NAME@, "Operators"@, seq!["in"@], seq!["out"@]),
{
    let def = NodeDefinition {
        name: owned(NAME),
        category: owned("Operators"),
        inputs: vec![geometry_in("in")],
        outputs: vec![geometry_out("out")],
    };
    assert(def.inputs@ =~= seq![def.inputs@[0]]);
    assert(def.outputs@ =~= seq![def.outputs@[0]]);
    def
}

/// `x` clamped to the range of `i32`.
pub open spec fn saturate_i32(x: int) -> i32 {
    if x > i32::MAX {
        i32::MAX
    } else if x < i32::MIN {
        i32::MIN
    } else {
        x as i32
    }
}

/// Division rounding toward zero, as Rust's integer `/` does.
pub open spec fn trunc_div(a: int, b: int) -> int {
    if a >= 0 { a / b } else { -((-a) / b) }
}

/// The result of integer operation `op` on `value` and `rhs`: 0 adds, 1
/// subtracts, 2 multiplies (each saturating), 3 divides (leaving `value` as it
/// is for a zero divisor); any other code leaves `value` as it is.
pub open spec fn int_op(value: i32, rhs: i32, op: i32) -> i32 {
    if op == 0 {
        saturate_i32(value + rhs)
    } else if op == 1 {
        saturate_i32(value - rhs)
    } else if op == 2 {
        saturate_i32(value * rhs)
    } else if op == 3 {
        if rhs == 0 { value } else { trunc_div(value as int, rhs as int) as i32 }
    } else {
        value
    }
}

fn saturate(x: i64) -> (r: i32)
    ensures
        r == saturate_i32(x as int),
{
    if x > i32::MAX as i64 {
        i32::MAX
    } else if x < i32::MIN as i64 {
        i32::MIN
    } else {
        x as i32
    }
}

/// Applies integer operation `op` to `value` and `rhs`.
pub fn apply_op_i(value: i32, rhs: i32, op: i32) -> (r: i32)
    requires
        !(op == 3 && value == i32::MIN && rhs == -1),
    ensures
        r == int_op(value, rhs, op),
{
    match op {
        0 => saturate(value as i64 + rhs as i64),
        1 => saturate(value as i64 - rhs as i64),
        2 => {
            assert(-0x8000_0000 * 0x8000_0000 <= value * rhs <= 0x8000_0000 * 0x8000_0000) by (nonlinear_arith)
                requires
                    -0x8000_0000 <= value < 0x8000_0000,
                    -0x8000_0000 <= rhs < 0x8000_0000,
            ;
            saturate(value as i64 * rhs as i64)
        },
        3 => {
            if rhs == 0 {
                value
            } else {
                value / rhs
            }
        },
        _ => value,
    }
}

/// The values of an optional slice.
pub open spec fn opt_slice<T>(o: Option<&[T]>) -> Option<Seq<T>> {
    match o {
        Some(s) => Some(s@),
        None => None,
    }
}

/// The values a math result starts from: the existing result values where they
/// are as many as the input values, the input values otherwise.
pub open spec fn math_start<T>(values: Seq<T>, existing: Option<Seq<T>>) -> Seq<T> {
    if existing is Some && existing.unwrap().len() == values.len() {
        existing.unwrap()
    } else {
        values
    }
}

/// Whether element `i` is worked on: every element without a mask, the elements
/// the mask holds otherwise.
pub open spec fn in_mask(mask: Option<Seq<bool>>, i: int) -> bool {
    mask is None || mask_at(mask.unwrap(), i)
}

/// The values of a math result: `f` of each input value the mask holds, and the
/// start value (see `math_start`) elsewhere.
pub fn masked_update<T: Copy, F: Fn(T) -> T>(values: &[T], existing: Option<&[T]>, mask: Option<&[bool]>, f: F) -> (out: Vec<T>)
    requires
        forall|i: int| 0 <= i < values@.len() && in_mask(opt_slice(mask), i) ==> call_requires(f, (values@[i],)),
    ensures
        out@.len() == values@.len(),
        forall|i: int| 0 <= i < values@.len() ==> if in_mask(opt_slice(mask), i) {
            call_ensures(f, (values@[i],), #[trigger] out@[i])
        } else {
            out@[i] == math_start(values@, opt_slice(existing))[i]
        },
{
    let start: &[T] = match existing {
        Some(e) => {
            if e.len() == values.len() {
                e
            } else {
                values
            }
        },
        None => values,
    };
    let ghost st = math_start(values@, opt_slice(existing));
    assert(start@ == st);
    let mut out: Vec<T> = Vec::new();
    let mut i: usize = 0;
    while i < values.len()
        invariant
            start@ == st,
            st.len() == values@.len(),
            forall|k: int| 0 <= k < values@.len() && in_mask(opt_slice(mask), k) ==> call_requires(f, (values@[k],)),
            0 <= i <= values@.len(),
            out@.len() == i,
            forall|k: int| 0 <= k < i ==> if in_mask(opt_slice(mask), k) {
                call_ensures(f, (values@[k],), #[trigger] out@[k])
            } else {
                out@[k] == st[k]
            },
        decreases values@.len() - i,
    {
        let selected = match mask {
            Some(m) => i < m.len() && m[i],
            None => true,
        };
        assert(selected == in_mask(opt_slice(mask), i as int));
        if selected {
            assert(call_requires(f, (values@[i as int],)));
            let v = f(values[i]);
            out.push(v);
        } else {
            out.push(start[i]);
        }
        i = i + 1;
    }
    out
}

/// The integer values of a math result: `op` with `rhs` on each input value the
/// mask holds, the start value (see `math_start`) elsewhere.
pub fn int_math_values(values: &[i32], existing: Option<&[i32]>, mask: Option<&[bool]>, op: i32, rhs: i32) -> (out: Vec<i32>)
    requires
        forall|i: int| 0 <= i < values@.len() && in_mask(opt_slice(mask), i)
            ==> !(op == 3 && #[trigger] values@[i] == i32::MIN && rhs == -1),
    ensures
        out@.len() == values@.len(),
        forall|i: int| 0 <= i < values@.len() ==> #[trigger] out@[i] == if in_mask(opt_slice(mask), i) {
            int_op(values@[i], rhs, op)
        } else {
            math_start(values@, opt_slice(existing))[i]
        },
{
    let f = |v: i32| -> (r: i32)
        requires
            !(op == 3 && v == i32::MIN && rhs == -1),
        ensures
            r == int_op(v, rhs, op),
    {
        apply_op_i(v, rhs, op)
    };
    masked_update(values, existing, mask, f)
}

/// The existing values of a result attribute of the given kind, if it has that kind.
pub open spec fn existing_floats(e: Option<AttributeRef>) -> Option<Seq<u32>> {
    match e {
        Some(AttributeRef::Float(x)) => Some(x@),
        _ => None,
    }
}

/// The existing integer values of a result attribute, if it holds integers.
pub open spec fn existing_ints(e: Option<AttributeRef>) -> Option<Seq<i32>> {
    match e {
        Some(AttributeRef::Int(x)) => Some(x@),
        _ => None,
    }
}

/// The existing pairs of a result attribute, if it holds pairs.
pub open spec fn existing_vec2(e: Option<AttributeRef>) -> Option<Seq<[u32; 2]>> {
    match e {
        Some(AttributeRef::Vec2(x)) => Some(x@),
        _ => None,
    }
}

/// The existing triples of a result attribute, if it holds triples.
pub open spec fn existing_vec3(e: Option<AttributeRef>) -> Option<Seq<[u32; 3]>> {
    match e {
        Some(AttributeRef::Vec3(x)) => Some(x@),
        _ => None,
    }
}

/// The existing quadruples of a result attribute, if it holds quadruples.
pub open spec fn existing_vec4(e: Option<AttributeRef>) -> Option<Seq<[u32; 4]>> {
    match e {
        Some(AttributeRef::Vec4(x)) => Some(x@),
        _ => None,
    }
}

/// Whether `out` is the result of a masked update of `values` by `f`: `f` of each
/// value the mask holds, the start value elsewhere.
pub open spec fn masked_result<T, F: Fn(T) -> T>(values: Seq<T>, existing: Option<Seq<T>>, mask: Option<Seq<bool>>, f: F, out: Seq<T>) -> bool {
    &&& out.len() == values.len()
    &&& forall|i: int| 0 <= i < values.len() ==> if in_mask(mask, i) {
        call_ensures(f, (values[i],), #[trigger] out[i])
    } else {
        out[i] == math_start(values, existing)[i]
    }
}

/// The values of an Attribute Math result for the attribute `attr`: integers by
/// `op` with `rhs`; float values, pairs, triples and quadruples (as bit patterns) by
/// the float operations given; each only where the mask holds, starting from the
/// existing result values where they are of the same kind and length.
pub fn build_attribute_math_storage<FS, F2, F3, F4>(
    attr: AttributeRef<'_>,
    existing: Option<AttributeRef<'_>>,
    mask: Option<&[bool]>,
    op: i32,
    rhs: i32,
    float_op: FS,
    vec2_op: F2,
    vec3_op: F3,
    vec4_op: F4,
) -> (r: AttributeStorage)
    where
        FS: Fn(u32) -> u32,
        F2: Fn([u32; 2]) -> [u32; 2],
        F3: Fn([u32; 3]) -> [u32; 3],
        F4: Fn([u32; 4]) -> [u32; 4],
    requires
        forall|v: u32| call_requires(float_op, (v,)),
        forall|v: [u32; 2]| call_requires(vec2_op, (v,)),
        forall|v: [u32; 3]| call_requires(vec3_op, (v,)),
        forall|v: [u32; 4]| call_requires(vec4_op, (v,)),
        attr matches AttributeRef::Int(values) ==> forall|i: int| 0 <= i < values@.len() && in_mask(opt_slice(mask), i)
            ==> !(op == 3 && #[trigger] values@[i] == i32::MIN && rhs == -1),
    ensures
        match attr {
            AttributeRef::Float(v) => r matches AttributeStorage::Float(o)
                && masked_result(v@, existing_floats(existing), opt_slice(mask), float_op, o@),
            AttributeRef::Int(v) => r matches AttributeStorage::Int(o) && o@.len() == v@.len()
                && forall|i: int| 0 <= i < v@.len() ==> #[trigger] o@[i] == if in_mask(opt_slice(mask), i) {
                    int_op(v@[i], rhs, op)
                } else {
                    math_start(v@, existing_ints(existing))[i]
                },
            AttributeRef::Vec2(v) => r matches AttributeStorage::Vec2(o)
                && masked_result(v@, existing_vec2(existing), opt_slice(mask), vec2_op, o@),
            AttributeRef::Vec3(v) => r matches AttributeStorage::Vec3(o)
                && masked_result(v@, existing_vec3(existing), opt_slice(mask), vec3_op, o@),
            AttributeRef::Vec4(v) => r matches AttributeStorage::Vec4(o)
                && masked_result(v@, existing_vec4(existing), opt_slice(mask), vec4_op, o@),
        },
{
    match attr {
        AttributeRef::Float(values) => {
            let e = match existing {
                Some(AttributeRef::Float(x)) => Some(x),
                _ => None,
            };
            AttributeStorage::Float(masked_update(values, e, mask, float_op))
        },
        AttributeRef::Int(values) => {
            let e = match existing {
                Some(AttributeRef::Int(x)) => Some(x),
                _ => None,
            };
            AttributeStorage::Int(int_math_values(values, e, mask, op, rhs))
        },
        AttributeRef::Vec2(values) => {
            let e = match existing {
                Some(AttributeRef::Vec2(x)) => Some(x),
                _ => None,
            };
            AttributeStorage::Vec2(masked_update(values, e, mask, vec2_op))
        },
        AttributeRef::Vec3(values) => {
            let e = match existing {
                Some(AttributeRef::Vec3(x)) => Some(x),
                _ => None,
            };
            AttributeStorage::Vec3(masked_update(values, e, mask, vec3_op))
        },
        AttributeRef::Vec4(values) => {
            let e = match existing {
                Some(AttributeRef::Vec4(x)) => Some(x),
                _ => None,
            };
            AttributeStorage::Vec4(masked_update(values, e, mask, vec4_op))
        },
    }
}

/// What the node reads from its parameters: the input attribute, the result
/// attribute, the domain and the operation.
pub struct MathSettings {
    pub attr: String,
    pub result: String,
    pub domain: AttributeDomain,
    pub op: i32,
}

/// The operation code of the parameters: `op` (default 0) clamped to 0..=3.
pub open spec fn op_of(params: NodeParams) -> i32 {
    let o = params.int_or("op"@, 0);
    if o < 0 { 0 } else if o > 3 { 3 } else { o }
}

/// The settings of the parameters: `attr` (default "Cd"), `result` (default the
/// input attribute), `domain` (default points) and the clamped operation.
pub fn math_settings(params: &NodeParams) -> (s: MathSettings)
    requires
        params.values.wf(),
    ensures
        s.attr@ == params.text_or("attr"@, "Cd"@),
        s.result@ == params.text_or("result"@, params.text_or("attr"@, "Cd"@)),
        s.domain == domain_of_index(params.int_or("domain"@, 0)),
        s.op == op_of(*params),
{
    let attr = owned(params.get_string("attr", "Cd"));
    let result = owned(params.get_string("result", attr.as_str()));
    let raw = params.get_int("op", 0);
    let op = if raw < 0 { 0 } else if raw > 3 { 3 } else { raw };
    MathSettings { attr, result, domain: domain_from_params(params), op }
}

/// The message for a result that could not be stored: "Attribute Math error: "
/// and the error written out.
pub fn math_error_text(e: AttributeError) -> (r: String)
    ensures
        r@ == "Attribute Math error: "@ + error_text(e),
{
    attribute_error_message("Attribute Math error: ", e)
}

/// The parameters a new "Attribute Math" node starts with (floats held as their bit patterns): attr "Cd", result "Cd", domain 0, op 0, value_f 1.0, value_v3 (1.0, 1.0, 1.0), group "", group_type 0.
pub fn default_params() -> (params: NodeParams)
    ensures
        params.values.wf(),
        params.values@.dom() == set!["attr"@, "result"@, "domain"@, "op"@, "value_f"@, "value_v3"@, "group"@, "group_type"@],
        text_entry(params.values@, "attr"@, "Cd"@),
        text_entry(params.values@, "result"@, "Cd"@),
        params.values@["domain"@] == ParamValue::Int(0),
        params.values@["op"@] == ParamValue::Int(0),
        params.values@["value_f"@] == ParamValue::Float(0x3f800000),
        params.values@["value_v3"@] == ParamValue::Vec3([0x3f800000, 0x3f800000, 0x3f800000]),
        text_entry(params.values@, "group"@, ""@),
        params.values@["group_type"@] == ParamValue::Int(0),
{
    proof {
        reveal_strlit("attr");
        reveal_strlit("result");
        reveal_strlit("domain");
        reveal_strlit("op");
        reveal_strlit("value_f");
        reveal_strlit("value_v3");
        reveal_strlit("group");
        reveal_strlit("group_type");
        assert("attr"@.len() == 4 && "attr"@[0] == 'a');
        assert("result"@.len() == 6 && "result"@[0] == 'r');
        assert("domain"@.len() == 6 && "domain"@[0] == 'd');
        assert("op"@.len() == 2 && "op"@[0] == 'o');
        assert("value_f"@.len() == 7 && "value_f"@[0] == 'v');
        assert("value_v3"@.len() == 8 && "value_v3"@[0] == 'v');
        assert("group"@.len() == 5 && "group"@[0] == 'g');
        assert("group_type"@.len() == 10 && "group_type"@[0] == 'g');
    }
    let mut values: TextMap<ParamValue> = TextMap::new();
    values.insert(owned("attr"), text_param("Cd"));
    values.insert(owned("result"), text_param("Cd"));
    values.insert(owned("domain"), ParamValue::Int(0));
    values.insert(owned("op"), ParamValue::Int(0));
    values.insert(owned("value_f"), ParamValue::Float(0x3f800000));
    values.insert(owned("value_v3"), ParamValue::Vec3([0x3f800000, 0x3f800000, 0x3f800000]));
    values.insert(owned("group"), text_param(""));
    values.insert(owned("group_type"), ParamValue::Int(0));
    NodeParams { values }
}

} // verus!
