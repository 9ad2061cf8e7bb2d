//! The "Grid" node, which a source of grid geometry.

use vstd::prelude::*;
use crate::params::{NodeParams, ParamValue};
use crate::text_map::TextMap;
use crate::graph::NodeDefinition;
use crate::nodes::{geometry_out, geometry_node};
use crate::text::owned;

verus! {

/// The node kind's name.
pub const NAME: &'static str = "Grid";

/// The definition of the "Grid" node: a source with one geometry output.
pub fn definition() -> (def: NodeDefinition)
    ensures
        geometry_node(def, NAME@, "Sources"@, seq![], seq!["out"@]),
{
    let def = NodeDefinition {
        name: owned(NAME),
        category: owned("Sources"),
        inputs: Vec::new(),
        outputs: vec![geometry_out("out")],
    };
    assert(def.outputs@ =~= seq![def.outputs@[0]]);
    def
}

/// The parameters a new "Grid" node starts with (floats held as their bit patterns): size (2.0, 2.0), rows 10, cols 10, center (0.0, 0.0, 0.0).
pub fn default_params() -> (params: NodeParams)
    ensures
        params.values.wf(),
        params.values@.dom() == set!["size"@, "rows"@, "cols"@, "center"@],
        params.values@["size"@] == ParamValue::Vec2([0x40000000, 0x40000000]),
        params.values@["rows"@] == ParamValue::Int(10),
        params.values@["cols"@] == ParamValue::Int(10),
        params.values@["center"@] == ParamValue::Vec3([0x00000000, 0x00000000, 0x00000000]),
{
    proof {
        reveal_strlit("size");
        reveal_strlit("rows");
        reveal_strlit("cols");
        reveal_strlit("center");
        assert("size"@.len() == 4 && "size"@[0] == 's');
        assert("rows"@.len() == 4 && "rows"@[0] == 'r');
        assert("cols"@.len() == 4 && "cols"@[0] == 'c');
        assert("center"@.len() == 6 && "center"@[0] == 'c');
    }
    let mut values: TextMap<ParamValue> = TextMap::new();
    values.insert(owned("size"), ParamValue::Vec2([0x40000000, 0x40000000]));
    values.insert(owned("rows"), ParamValue::Int(10));
    values.insert(owned("cols"), ParamValue::Int(10));
    values.insert(owned("center"), ParamValue::Vec3([0x00000000, 0x00000000, 0x00000000]));
    NodeParams { values }
}

} // verus!
