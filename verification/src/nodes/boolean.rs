//! The "Boolean SDF" node, which combines two shapes through signed distance fields.

use vstd::prelude::*;
use crate::params::{NodeParams, ParamValue, text_entry, text_param};
use crate::text_map::TextMap;
use crate::graph::NodeDefinition;
use crate::nodes::{geometry_in, geometry_out, geometry_node};
use crate::text::owned;

verus! {

/// The node kind's name.
pub const NAME: &'static str = "Boolean SDF";

/// The definition of the "Boolean SDF" node: an operator with geometry inputs "a" and "b" and one geometry output.
pub fn definition() -> (def: NodeDefinition)
    ensures
        geometry_node(def, NAME@, "Operators"@, seq!["a"@, "b"@], seq!["out"@]),
{
    let def = NodeDefinition {
        name: owned(NAME),
        category: owned("Operators"),
        inputs: vec![geometry_in("a"), geometry_in("b")],
        outputs: vec![geometry_out("out")],
    };
    assert(def.inputs@ =~= seq![def.inputs@[0], def.inputs@[1]]);
    assert(def.outputs@ =~= seq![def.outputs@[0]]);
    def
}

/// The parameters a new "Boolean SDF" node starts with (floats held as their bit patterns): mode "auto", op 1, max_dim 64, padding 0.1, surface_iso 0.0.
pub fn default_params() -> (params: NodeParams)
    ensures
        params.values.wf(),
        params.values@.dom() == set!["mode"@, "op"@, "max_dim"@, "padding"@, "surface_iso"@],
        text_entry(params.values@, "mode"@, "auto"@),
        params.values@["op"@] == ParamValue::Int(1),
        params.values@["max_dim"@] == ParamValue::Int(64),
        params.values@["padding"@] == ParamValue::Float(0x3dcccccd),
        params.values@["surface_iso"@] == ParamValue::Float(0x00000000),
{
    proof {
        reveal_strlit("mode");
        reveal_strlit("op");
        reveal_strlit("max_dim");
        reveal_strlit("padding");
        reveal_strlit("surface_iso");
        assert("mode"@.len() == 4 && "mode"@[0] == 'm');
        assert("op"@.len() == 2 && "op"@[0] == 'o');
        assert("max_dim"@.len() == 7 && "max_dim"@[0] == 'm');
        assert("padding"@.len() == 7 && "padding"@[0] == 'p');
        assert("surface_iso"@.len() == 11 && "surface_iso"@[0] == 's');
    }
    let mut values: TextMap<ParamValue> = TextMap::new();
    values.insert(owned("mode"), text_param("auto"));
    values.insert(owned("op"), ParamValue::Int(1));
    values.insert(owned("max_dim"), ParamValue::Int(64));
    values.insert(owned("padding"), ParamValue::Float(0x3dcccccd));
    values.insert(owned("surface_iso"), ParamValue::Float(0x00000000));
    NodeParams { values }
}

} // verus!
