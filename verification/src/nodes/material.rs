//! The "Material" node, which assigns a material to the geometry.

use vstd::prelude::*;
use crate::params::{NodeParams, ParamValue, text_entry, text_param};
use crate::text_map::TextMap;
use crate::graph::NodeDefinition;
use crate::nodes::{geometry_in, geometry_out, geometry_node};
use crate::text::owned;

verus! {

/// The node kind's name.
pub const NAME: &'static str = "Material";

/// The definition of the "Material" node: an operator with geometry input "in" and one geometry output.
pub fn definition() -> (def: NodeDefinition)
    ensures
        geometry_node(def, NAME@, "Operators"@, seq!["in"@], seq!["out"@]),
{
    let def = NodeDefinition {
        name: owned(NAME),
        category: owned("Operators"),
        inputs: vec![geometry_in("in")],
        outputs: vec![geometry_out("out")],
    };
    assert(def.inputs@ =~= seq![def.inputs@[0]]);
    assert(def.outputs@ =~= seq![def.outputs@[0]]);
    def
}

/// The parameters a new "Material" node starts with (floats held as their bit patterns): name "material1", base_color (1.0, 1.0, 1.0), metallic 0.0, roughness 0.5, base_color_tex "".
pub fn default_params() -> (params: NodeParams)
    ensures
        params.values.wf(),
        params.values@.dom() == set!["name"@, "base_color"@, "metallic"@, "roughness"@, "base_color_tex"@],
        text_entry(params.values@, "name"@, "material1"@),
        params.values@["base_color"@] == ParamValue::Vec3([0x3f800000, 0x3f800000, 0x3f800000]),
        params.values@["metallic"@] == ParamValue::Float(0x00000000),
        params.values@["roughness"@] == ParamValue::Float(0x3f000000),
        text_entry(params.values@, "base_color_tex"@, ""@),
{
    proof {
        reveal_strlit("name");
        reveal_strlit("base_color");
        reveal_strlit("metallic");
        reveal_strlit("roughness");
        reveal_strlit("base_color_tex");
        assert("name"@.len() == 4 && "name"@[0] == 'n');
        assert("base_color"@.len() == 10 && "base_color"@[0] == 'b');
        assert("metallic"@.len() == 8 && "metallic"@[0] == 'm');
        assert("roughness"@.len() == 9 && "roughness"@[0] == 'r');
        assert("base_color_tex"@.len() == 14 && "base_color_tex"@[0] == 'b');
    }
    let mut values: TextMap<ParamValue> = TextMap::new();
    values.insert(owned("name"), text_param("material1"));
    values.insert(owned("base_color"), ParamValue::Vec3([0x3f800000, 0x3f800000, 0x3f800000]));
    values.insert(owned("metallic"), ParamValue::Float(0x00000000));
    values.insert(owned("roughness"), ParamValue::Float(0x3f000000));
    values.insert(owned("base_color_tex"), text_param(""));
    NodeParams { values }
}

} // verus!
