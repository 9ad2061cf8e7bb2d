//! The "Circle" node, which a source of circle geometry.

use vstd::prelude::*;
use crate::params::{NodeParams, ParamValue, text_entry, text_param};
use crate::text_map::TextMap;
use crate::graph::NodeDefinition;
use crate::nodes::{geometry_out, geometry_node};
use crate::text::owned;

verus! {

/// The node kind's name.
pub const NAME: &'static str = "Circle";

/// The definition of the "Circle" node: a source with one geometry output.
pub fn definition() -> (def: NodeDefinition)
    ensures
        geometry_node(def, NAME@, "Sources"@, seq![], seq!["out"@]),
{
    let def = NodeDefinition {
        name: owned(NAME),
        category: owned("Sources"),
        inputs: Vec::new(),
        outputs: vec![geometry_out("out")],
    };
    assert(def.outputs@ =~= seq![def.outputs@[0]]);
    def
}

/// The parameters a new "Circle" node starts with (floats held as their bit patterns): output "curve", radius 1.0, segments 32, center (0.0, 0.0, 0.0).
pub fn default_params() -> (params: NodeParams)
    ensures
        params.values.wf(),
        params.values@.dom() == set!["output"@, "radius"@, "segments"@, "center"@],
        text_entry(params.values@, "output"@, "curve"@),
        params.values@["radius"@] == ParamValue::Float(0x3f800000),
        params.values@["segments"@] == ParamValue::Int(32),
        params.values@["center"@] == ParamValue::Vec3([0x00000000, 0x00000000, 0x00000000]),
{
    proof {
        reveal_strlit("output");
        reveal_strlit("radius");
        reveal_strlit("segments");
        reveal_strlit("center");
        assert("output"@.len() == 6 && "output"@[0] == 'o');
        assert("radius"@.len() == 6 && "radius"@[0] == 'r');
        assert("segments"@.len() == 8 && "segments"@[0] == 's');
        assert("center"@.len() == 6 && "center"@[0] == 'c');
    }
    let mut values: TextMap<ParamValue> = TextMap::new();
    values.insert(owned("output"), text_param("curve"));
    values.insert(owned("radius"), ParamValue::Float(0x3f800000));
    values.insert(owned("segments"), ParamValue::Int(32));
    values.insert(owned("center"), ParamValue::Vec3([0x00000000, 0x00000000, 0x00000000]));
    NodeParams { values }
}

} // verus!
