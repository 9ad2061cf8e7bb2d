//! The "Boolean Geo" node, which cuts one mesh with another.

use vstd::prelude::*;
use crate::params::{NodeParams, ParamValue, text_entry, text_param};
use crate::text_map::TextMap;
use crate::graph::NodeDefinition;
use crate::nodes::{geometry_in, geometry_out, geometry_node};
use crate::text::owned;

verus! {

/// The node kind's name.
pub const NAME: &'static str = "Boolean Geo";

/// The definition of the "Boolean Geo" node: an operator with geometry inputs "geo" and "cutter" and one geometry output.
pub fn definition() -> (def: NodeDefinition)
    ensures
        geometry_node(def, NAME@, "Operators"@, seq!["geo"@, "cutter"@], seq!["out"@]),
{
    let def = NodeDefinition {
        name: owned(NAME),
        category: owned("Operators"),
        inputs: vec![geometry_in("geo"), geometry_in("cutter")],
        outputs: vec![geometry_out("out")],
    };
    assert(def.inputs@ =~= seq![def.inputs@[0], def.inputs@[1]]);
    assert(def.outputs@ =~= seq![def.outputs@[0]]);
    def
}

/// The parameters a new "Boolean Geo" node starts with (floats held as their bit patterns): mode "auto", op 1.
pub fn default_params() -> (params: NodeParams)
    ensures
        params.values.wf(),
        params.values@.dom() == set!["mode"@, "op"@],
        text_entry(params.values@, "mode"@, "auto"@),
        params.values@["op"@] == ParamValue::Int(1),
{
    proof {
        reveal_strlit("mode");
        reveal_strlit("op");
        assert("mode"@.len() == 4 && "mode"@[0] == 'm');
        assert("op"@.len() == 2 && "op"@[0] == 'o');
    }
    let mut values: TextMap<ParamValue> = TextMap::new();
    values.insert(owned("mode"), text_param("auto"));
    values.insert(owned("op"), ParamValue::Int(1));
    NodeParams { values }
}

} // verus!
