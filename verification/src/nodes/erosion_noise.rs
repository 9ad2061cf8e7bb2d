//! The "Erosion Noise" node, which displaces the geometry with eroded noise.

use vstd::prelude::*;
use crate::params::{NodeParams, ParamValue, text_entry, text_param};
use crate::text_map::TextMap;
use crate::graph::NodeDefinition;
use crate::nodes::{geometry_in, geometry_out, geometry_node};
use crate::text::owned;

verus! {

/// The node kind's name.
pub const NAME: &'static str = "Erosion Noise";

/// The definition of the "Erosion Noise" node: an operator with geometry input "in" and one geometry output.
pub fn definition() -> (def: NodeDefinition)
    ensures
        geometry_node(def, NAME@, "Operators"@, seq!["in"@], seq!["out"@]),
{
    let def = NodeDefinition {
        name: owned(NAME),
        category: owned("Operators"),
        inputs: vec![geometry_in("in")],
        outputs: vec![geometry_out("out")],
    };
    assert(def.inputs@ =~= seq![def.inputs@[0]]);
    assert(def.outputs@ =~= seq![def.outputs@[0]]);
    def
}

/// The parameters a new "Erosion Noise" node starts with (floats held as their bit patterns): erosion_strength 0.1, erosion_freq 15.0, erosion_octaves 4, erosion_roughness 0.3, erosion_lacunarity 2.17, erosion_slope_strength 2.0, erosion_branch_strength 2.5, do_mask false, group "", group_type 0.
pub fn default_params() -> (params: NodeParams)
    ensures
        params.values.wf(),
        params.values@.dom() == set!["erosion_strength"@, "erosion_freq"@, "erosion_octaves"@, "erosion_roughness"@, "erosion_lacunarity"@, "erosion_slope_strength"@, "erosion_branch_strength"@, "do_mask"@, "group"@, "group_type"@],
        params.values@["erosion_strength"@] == ParamValue::Float(0x3dcccccd),
        params.values@["erosion_freq"@] == ParamValue::Float(0x41700000),
        params.values@["erosion_octaves"@] == ParamValue::Int(4),
        params.values@["erosion_roughness"@] == ParamValue::Float(0x3e99999a),
        params.values@["erosion_lacunarity"@] == ParamValue::Float(0x400ae148),
        params.values@["erosion_slope_strength"@] == ParamValue::Float(0x40000000),
        params.values@["erosion_branch_strength"@] == ParamValue::Float(0x40200000),
        params.values@["do_mask"@] == ParamValue::Bool(false),
        text_entry(params.values@, "group"@, ""@),
        params.values@["group_type"@] == ParamValue::Int(0),
{
    proof {
        reveal_strlit("erosion_strength");
        reveal_strlit("erosion_freq");
        reveal_strlit("erosion_octaves");
        reveal_strlit("erosion_roughness");
        reveal_strlit("erosion_lacunarity");
        reveal_strlit("erosion_slope_strength");
        reveal_strlit("erosion_branch_strength");
        reveal_strlit("do_mask");
        reveal_strlit("group");
        reveal_strlit("group_type");
        assert("erosion_strength"@.len() == 16 && "erosion_strength"@[0] == 'e');
        assert("erosion_freq"@.len() == 12 && "erosion_freq"@[0] == 'e');
        assert("erosion_octaves"@.len() == 15 && "erosion_octaves"@[0] == 'e');
        assert("erosion_roughness"@.len() == 17 && "erosion_roughness"@[0] == 'e');
        assert("erosion_lacunarity"@.len() == 18 && "erosion_lacunarity"@[0] == 'e');
        assert("erosion_slope_strength"@.len() == 22 && "erosion_slope_strength"@[0] == 'e');
        assert("erosion_branch_strength"@.len() == 23 && "erosion_branch_strength"@[0] == 'e');
        assert("do_mask"@.len() == 7 && "do_mask"@[0] == 'd');
        assert("group"@.len() == 5 && "group"@[0] == 'g');
        assert("group_type"@.len() == 10 && "group_type"@[0] == 'g');
    }
    let mut values: TextMap<ParamValue> = TextMap::new();
    values.insert(owned("erosion_strength"), ParamValue::Float(0x3dcccccd));
    values.insert(owned("erosion_freq"), ParamValue::Float(0x41700000));
    values.insert(owned("erosion_octaves"), ParamValue::Int(4));
    values.insert(owned("erosion_roughness"), ParamValue::Float(0x3e99999a));
    values.insert(owned("erosion_lacunarity"), ParamValue::Float(0x400ae148));
    values.insert(owned("erosion_slope_strength"), ParamValue::Float(0x40000000));
    values.insert(owned("erosion_branch_strength"), ParamValue::Float(0x40200000));
    values.insert(owned("do_mask"), ParamValue::Bool(false));
    values.insert(owned("group"), text_param(""));
    values.insert(owned("group_type"), ParamValue::Int(0));
    NodeParams { values }
}

} // verus!
