//! The "FFD" node, which deforms the geometry with a lattice.

use vstd::prelude::*;
use crate::params::{NodeParams, ParamValue, text_entry, text_param};
use crate::text_map::TextMap;
use crate::graph::NodeDefinition;
use crate::nodes::{geometry_in, geometry_out, geometry_node};
use crate::text::owned;

verus! {

/// The node kind's name.
pub const NAME: &'static str = "FFD";

/// The definition of the "FFD" node: an operator with geometry inputs "in" and "lattice" and one geometry output.
pub fn definition() -> (def: NodeDefinition)
    ensures
        geometry_node(def, NAME@, "Operators"@, seq!["in"@, "lattice"@], seq!["out"@]),
{
    let def = NodeDefinition {
        name: owned(NAME),
        category: owned("Operators"),
        inputs: vec![geometry_in("in"), geometry_in("lattice")],
        outputs: vec![geometry_out("out")],
    };
    assert(def.inputs@ =~= seq![def.inputs@[0], def.inputs@[1]]);
    assert(def.outputs@ =~= seq![def.outputs@[0]]);
    def
}

/// The parameters a new "FFD" node starts with (floats held as their bit patterns): group "", group_type 0, res_x 2, res_y 2, res_z 2, lattice_points "", use_input_bounds true, center (0.0, 0.0, 0.0), size (1.0, 1.0, 1.0), padding 0.0, extrapolate false.
pub fn default_params() -> (params: NodeParams)
    ensures
        params.values.wf(),
        params.values@.dom() == set!["group"@, "group_type"@, "res_x"@, "res_y"@, "res_z"@, "lattice_points"@, "use_input_bounds"@, "center"@, "size"@, "padding"@, "extrapolate"@],
        text_entry(params.values@, "group"@, ""@),
        params.values@["group_type"@] == ParamValue::Int(0),
        params.values@["res_x"@] == ParamValue::Int(2),
        params.values@["res_y"@] == ParamValue::Int(2),
        params.values@["res_z"@] == ParamValue::Int(2),
        text_entry(params.values@, "lattice_points"@, ""@),
        params.values@["use_input_bounds"@] == ParamValue::Bool(true),
        params.values@["center"@] == ParamValue::Vec3([0x00000000, 0x00000000, 0x00000000]),
        params.values@["size"@] == ParamValue::Vec3([0x3f800000, 0x3f800000, 0x3f800000]),
        params.values@["padding"@] == ParamValue::Float(0x00000000),
        params.values@["extrapolate"@] == ParamValue::Bool(false),
{
    proof {
        reveal_strlit("group");
        reveal_strlit("group_type");
        reveal_strlit("res_x");
        reveal_strlit("res_y");
        reveal_strlit("res_z");
        reveal_strlit("lattice_points");
        reveal_strlit("use_input_bounds");
        reveal_strlit("center");
        reveal_strlit("size");
        reveal_strlit("padding");
        reveal_strlit("extrapolate");
        assert("group"@.len() == 5 && "group"@[0] == 'g');
        assert("group_type"@.len() == 10 && "group_type"@[0] == 'g');
        assert("res_x"@.len() == 5 && "res_x"@[0] == 'r');
        assert("res_y"@.len() == 5 && "res_y"@[0] == 'r');
        assert("res_z"@.len() == 5 && "res_z"@[0] == 'r');
        assert("lattice_points"@.len() == 14 && "lattice_points"@[0] == 'l');
        assert("use_input_bounds"@.len() == 16 && "use_input_bounds"@[0] == 'u');
        assert("center"@.len() == 6 && "center"@[0] == 'c');
        assert("size"@.len() == 4 && "size"@[0] == 's');
        assert("padding"@.len() == 7 && "padding"@[0] == 'p');
        assert("extrapolate"@.len() == 11 && "extrapolate"@[0] == 'e');
        assert("res_x"@[4] != "res_y"@[4]);
        assert("res_x"@[4] != "res_z"@[4]);
        assert("res_y"@[4] != "res_z"@[4]);
    }
    let mut values: TextMap<ParamValue> = TextMap::new();
    values.insert(owned("group"), text_param(""));
    values.insert(owned("group_type"), ParamValue::Int(0));
    values.insert(owned("res_x"), ParamValue::Int(2));
    values.insert(owned("res_y"), ParamValue::Int(2));
    values.insert(owned("res_z"), ParamValue::Int(2));
    values.insert(owned("lattice_points"), text_param(""));
    values.insert(owned("use_input_bounds"), ParamValue::Bool(true));
    values.insert(owned("center"), ParamValue::Vec3([0x00000000, 0x00000000, 0x00000000]));
    values.insert(owned("size"), ParamValue::Vec3([0x3f800000, 0x3f800000, 0x3f800000]));
    values.insert(owned("padding"), ParamValue::Float(0x00000000));
    values.insert(owned("extrapolate"), ParamValue::Bool(false));
    NodeParams { values }
}

} // verus!
