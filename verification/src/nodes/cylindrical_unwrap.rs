//! The "Cylindrical Unwrap" node, which unwraps the geometry around a cylinder into UVs.

use vstd::prelude::*;
use crate::params::{NodeParams, ParamValue};
use crate::text_map::TextMap;
use crate::graph::NodeDefinition;
use crate::nodes::{geometry_in, geometry_out, geometry_node};
use crate::text::owned;

verus! {

/// The node kind's name.
pub const NAME: &'static str = "Cylindrical Unwrap";

/// The definition of the "Cylindrical Unwrap" node: an operator with geometry input "in" and one geometry output.
pub fn definition() -> (def: NodeDefinition)
    ensures
        geometry_node(def, NAME@, "Operators"@, seq!["in"@], seq!["out"@]),
{
    let def = NodeDefinition {
        name: owned(NAME),
        category: owned("Operators"),
        inputs: vec![geometry_in("in")],
        outputs: vec![geometry_out("out")],
    };
    assert(def.inputs@ =~= seq![def.inputs@[0]]);
    assert(def.outputs@ =~= seq![def.outputs@[0]]);
    def
}

/// The parameters a new "Cylindrical Unwrap" node starts with (floats held as their bit patterns): inverse true, full_processing true, seam_angle_deg 0.0, axis_mult (30.0, 1.0, 1.0), coverage_boost_max 3.0, coverage_boost_mul 1.0.
pub fn default_params() -> (params: NodeParams)
    ensures
        params.values.wf(),
        params.values@.dom() == set!["inverse"@, "full_processing"@, "seam_angle_deg"@, "axis_mult"@, "coverage_boost_max"@, "coverage_boost_mul"@],
        params.values@["inverse"@] == ParamValue::Bool(true),
        params.values@["full_processing"@] == ParamValue::Bool(true),
        params.values@["seam_angle_deg"@] == ParamValue::Float(0x00000000),
        params.values@["axis_mult"@] == ParamValue::Vec3([0x41f00000, 0x3f800000, 0x3f800000]),
        params.values@["coverage_boost_max"@] == ParamValue::Float(0x40400000),
        params.values@["coverage_boost_mul"@] == ParamValue::Float(0x3f800000),
{
    proof {
        reveal_strlit("inverse");
        reveal_strlit("full_processing");
        reveal_strlit("seam_angle_deg");
        reveal_strlit("axis_mult");
        reveal_strlit("coverage_boost_max");
        reveal_strlit("coverage_boost_mul");
        assert("inverse"@.len() == 7 && "inverse"@[0] == 'i');
        assert("full_processing"@.len() == 15 && "full_processing"@[0] == 'f');
        assert("seam_angle_deg"@.len() == 14 && "seam_angle_deg"@[0] == 's');
        assert("axis_mult"@.len() == 9 && "axis_mult"@[0] == 'a');
        assert("coverage_boost_max"@.len() == 18 && "coverage_boost_max"@[0] == 'c');
        assert("coverage_boost_mul"@.len() == 18 && "coverage_boost_mul"@[0] == 'c');
        assert("coverage_boost_max"@[16] != "coverage_boost_mul"@[16]);
    }
    let mut values: TextMap<ParamValue> = TextMap::new();
    values.insert(owned("inverse"), ParamValue::Bool(true));
    values.insert(owned("full_processing"), ParamValue::Bool(true));
    values.insert(owned("seam_angle_deg"), ParamValue::Float(0x00000000));
    values.insert(owned("axis_mult"), ParamValue::Vec3([0x41f00000, 0x3f800000, 0x3f800000]));
    values.insert(owned("coverage_boost_max"), ParamValue::Float(0x40400000));
    values.insert(owned("coverage_boost_mul"), ParamValue::Float(0x3f800000));
    NodeParams { values }
}

} // verus!
