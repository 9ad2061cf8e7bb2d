//! The "Box" node: a source of box geometry.

use vstd::prelude::*;
use crate::params::{NodeParams, ParamValue};
use crate::text_map::TextMap;
use crate::graph::NodeDefinition;
use crate::nodes::{geometry_out, geometry_node};
use crate::text::owned;

verus! {

/// The node kind's name.
pub const NAME: &'static str = "Box";

/// The definition of the "Box" node: a source with one geometry output.
pub fn definition() -> (def: NodeDefinition)
    ensures
        geometry_node(def, NAME@, "Sources"@, seq![], seq!["out"@]),
{
    let def = NodeDefinition {
        name: owned(NAME),
        category: owned("Sources"),
        inputs: Vec::new(),
        outputs: vec![geometry_out("out")],
    };
    assert(def.outputs@ =~= seq![def.outputs@[0]]);
    def
}

/// The parameters a new "Box" node starts with (floats held as their bit patterns): size (1.0, 1.0, 1.0), center (0.0, 0.0, 0.0).
pub fn default_params() -> (params: NodeParams)
    ensures
        params.values.wf(),
        params.values@.dom() == set!["size"@, "center"@],
        params.values@["size"@] == ParamValue::Vec3([0x3f800000, 0x3f800000, 0x3f800000]),
        params.values@["center"@] == ParamValue::Vec3([0x00000000, 0x00000000, 0x00000000]),
{
    proof {
        reveal_strlit("size");
        reveal_strlit("center");
        assert("size"@.len() == 4 && "size"@[0] == 's');
        assert("center"@.len() == 6 && "center"@[0] == 'c');
    }
    let mut values: TextMap<ParamValue> = TextMap::new();
    values.insert(owned("size"), ParamValue::Vec3([0x3f800000, 0x3f800000, 0x3f800000]));
    values.insert(owned("center"), ParamValue::Vec3([0x00000000, 0x00000000, 0x00000000]));
    NodeParams { values }
}

} // verus!
