//! The "Copy to Points" node, which copies a source geometry onto the points of a template.

use vstd::prelude::*;
use crate::params::{NodeParams, ParamValue, text_entry, text_param};
use crate::text_map::TextMap;
use crate::graph::NodeDefinition;
use crate::nodes::{geometry_in, geometry_out, geometry_node};
use crate::attributes::AttributeDomain;
use crate::text::owned;

verus! {

/// The node kind's name.
pub const NAME: &'static str = "Copy to Points";

/// The definition of the "Copy to Points" node: an operator with geometry inputs "source" and "template" and one geometry output.
pub fn definition() -> (def: NodeDefinition)
    ensures
        geometry_node(def, NAME@, "Operators"@, seq!["source"@, "template"@], seq!["out"@]),
{
    let def = NodeDefinition {
        name: owned(NAME),
        category: owned("Operators"),
        inputs: vec![geometry_in("source"), geometry_in("template")],
        outputs: vec![geometry_out("out")],
    };
    assert(def.inputs@ =~= seq![def.inputs@[0], def.inputs@[1]]);
    assert(def.outputs@ =~= seq![def.outputs@[0]]);
    def
}

/// The positions of the `true` entries among the first `k` of a mask, in order.
pub open spec fn set_positions(mask: Seq<bool>, k: int) -> Seq<usize>
    decreases k,
{
    if k <= 0 {
        Seq::empty()
    } else {
        let rest = set_positions(mask, k - 1);
        if mask[k - 1] { rest.push((k - 1) as usize) } else { rest }
    }
}

/// The template elements to copy onto: those the mask selects, or all `len`
/// without a mask.
pub fn selected_indices(len: usize, mask: Option<&[bool]>) -> (r: Vec<usize>)
    ensures
        r@ == match mask {
            Some(m) => set_positions(m@, m@.len() as int),
            None => Seq::new(len as nat, |i: int| i as usize),
        },
{
    match mask {
        Some(m) => {
            let mut out: Vec<usize> = Vec::new();
            let mut k: usize = 0;
            while k < m.len()
                invariant
                    0 <= k <= m@.len(),
                    out@ == set_positions(m@, k as int),
                decreases m@.len() - k,
            {
                if m[k] {
                    out.push(k);
                }
                k = k + 1;
            }
            out
        },
        None => {
            let mut out: Vec<usize> = Vec::new();
            let mut k: usize = 0;
            while k < len
                invariant
                    0 <= k <= len,
                    out@ == Seq::new(k as nat, |i: int| i as usize),
                decreases len - k,
            {
                out.push(k);
                k = k + 1;
                assert(out@ =~= Seq::new(k as nat, |i: int| i as usize));
            }
            out
        },
    }
}

/// The domain of the copy index attribute: the value clamped to 0..=2, which
/// stand for point, vertex and primitive.
pub open spec fn copy_domain_of(value: i32) -> AttributeDomain {
    if value == 1 {
        AttributeDomain::Vertex
    } else if value >= 2 {
        AttributeDomain::Primitive
    } else {
        AttributeDomain::Point
    }
}

/// The domain of the copy index attribute.
pub fn copy_attr_domain(value: i32) -> (d: AttributeDomain)
    ensures
        d == copy_domain_of(value),
{
    let c = if value < 0 { 0 } else if value > 2 { 2 } else { value };
    match c {
        1 => AttributeDomain::Vertex,
        2 => AttributeDomain::Primitive,
        _ => AttributeDomain::Point,
    }
}

/// The parameters a new "Copy to Points" node starts with (floats held as their bit patterns): align_to_normals true, translate (0.0, 0.0, 0.0), rotate_deg (0.0, 0.0, 0.0), scale (1.0, 1.0, 1.0), inherit "Cd", copy_attr "copynr", copy_attr_class 0, group "", group_type 0.
pub fn default_params() -> (params: NodeParams)
    ensures
        params.values.wf(),
        params.values@.dom() == set!["align_to_normals"@, "translate"@, "rotate_deg"@, "scale"@, "inherit"@, "copy_attr"@, "copy_attr_class"@, "group"@, "group_type"@],
        params.values@["align_to_normals"@] == ParamValue::Bool(true),
        params.values@["translate"@] == ParamValue::Vec3([0x00000000, 0x00000000, 0x00000000]),
        params.values@["rotate_deg"@] == ParamValue::Vec3([0x00000000, 0x00000000, 0x00000000]),
        params.values@["scale"@] == ParamValue::Vec3([0x3f800000, 0x3f800000, 0x3f800000]),
        text_entry(params.values@, "inherit"@, "Cd"@),
        text_entry(params.values@, "copy_attr"@, "copynr"@),
        params.values@["copy_attr_class"@] == ParamValue::Int(0),
        text_entry(params.values@, "group"@, ""@),
        params.values@["group_type"@] == ParamValue::Int(0),
{
    proof {
        reveal_strlit("align_to_normals");
        reveal_strlit("translate");
        reveal_strlit("rotate_deg");
        reveal_strlit("scale");
        reveal_strlit("inherit");
        reveal_strlit("copy_attr");
        reveal_strlit("copy_attr_class");
        reveal_strlit("group");
        reveal_strlit("group_type");
        assert("align_to_normals"@.len() == 16 && "align_to_normals"@[0] == 'a');
        assert("translate"@.len() == 9 && "translate"@[0] == 't');
        assert("rotate_deg"@.len() == 10 && "rotate_deg"@[0] == 'r');
        assert("scale"@.len() == 5 && "scale"@[0] == 's');
        assert("inherit"@.len() == 7 && "inherit"@[0] == 'i');
        assert("copy_attr"@.len() == 9 && "copy_attr"@[0] == 'c');
        assert("copy_attr_class"@.len() == 15 && "copy_attr_class"@[0] == 'c');
        assert("group"@.len() == 5 && "group"@[0] == 'g');
        assert("group_type"@.len() == 10 && "group_type"@[0] == 'g');
    }
    let mut values: TextMap<ParamValue> = TextMap::new();
    values.insert(owned("align_to_normals"), ParamValue::Bool(true));
    values.insert(owned("translate"), ParamValue::Vec3([0x00000000, 0x00000000, 0x00000000]));
    values.insert(owned("rotate_deg"), ParamValue::Vec3([0x00000000, 0x00000000, 0x00000000]));
    values.insert(owned("scale"), ParamValue::Vec3([0x3f800000, 0x3f800000, 0x3f800000]));
    values.insert(owned("inherit"), text_param("Cd"));
    values.insert(owned("copy_attr"), text_param("copynr"));
    values.insert(owned("copy_attr_class"), ParamValue::Int(0));
    values.insert(owned("group"), text_param(""));
    values.insert(owned("group_type"), ParamValue::Int(0));
    NodeParams { values }
}

} // verus!
