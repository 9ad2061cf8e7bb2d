//! The "Noise/Mountain" node, which displaces the geometry with noise.

use vstd::prelude::*;
use crate::params::{NodeParams, ParamValue, text_entry, text_param};
use crate::text_map::TextMap;
use crate::graph::NodeDefinition;
use crate::nodes::{geometry_in, geometry_out, geometry_node};
use crate::text::owned;

verus! {

/// The node kind's name.
pub const NAME: &'static str = "Noise/Mountain";

/// The definition of the "Noise/Mountain" node: an operator with geometry input "in" and one geometry output.
pub fn definition() -> (def: NodeDefinition)
    ensures
        geometry_node(def, NAME@, "Operators"@, seq!["in"@], seq!["out"@]),
{
    let def = NodeDefinition {
        name: owned(NAME),
        category: owned("Operators"),
        inputs: vec![geometry_in("in")],
        outputs: vec![geometry_out("out")],
    };
    assert(def.inputs@ =~= seq![def.inputs@[0]]);
    assert(def.outputs@ =~= seq![def.outputs@[0]]);
    def
}

/// The parameters a new "Noise/Mountain" node starts with (floats held as their bit patterns): amplitude 0.5, frequency 1.0, seed 1, offset (0.0, 0.0, 0.0), group "", group_type 0.
pub fn default_params() -> (params: NodeParams)
    ensures
        params.values.wf(),
        params.values@.dom() == set!["amplitude"@, "frequency"@, "seed"@, "offset"@, "group"@, "group_type"@],
        params.values@["amplitude"@] == ParamValue::Float(0x3f000000),
        params.values@["frequency"@] == ParamValue::Float(0x3f800000),
        params.values@["seed"@] == ParamValue::Int(1),
        params.values@["offset"@] == ParamValue::Vec3([0x00000000, 0x00000000, 0x00000000]),
        text_entry(params.values@, "group"@, ""@),
        params.values@["group_type"@] == ParamValue::Int(0),
{
    proof {
        reveal_strlit("amplitude");
        reveal_strlit("frequency");
        reveal_strlit("seed");
        reveal_strlit("offset");
        reveal_strlit("group");
        reveal_strlit("group_type");
        assert("amplitude"@.len() == 9 && "amplitude"@[0] == 'a');
        assert("frequency"@.len() == 9 && "frequency"@[0] == 'f');
        assert("seed"@.len() == 4 && "seed"@[0] == 's');
        assert("offset"@.len() == 6 && "offset"@[0] == 'o');
        assert("group"@.len() == 5 && "group"@[0] == 'g');
        assert("group_type"@.len() == 10 && "group_type"@[0] == 'g');
    }
    let mut values: TextMap<ParamValue> = TextMap::new();
    values.insert(owned("amplitude"), ParamValue::Float(0x3f000000));
    values.insert(owned("frequency"), ParamValue::Float(0x3f800000));
    values.insert(owned("seed"), ParamValue::Int(1));
    values.insert(owned("offset"), ParamValue::Vec3([0x00000000, 0x00000000, 0x00000000]));
    values.insert(owned("group"), text_param(""));
    values.insert(owned("group_type"), ParamValue::Int(0));
    NodeParams { values }
}

} // verus!
