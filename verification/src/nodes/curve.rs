//! The "Curve" node, which a source of curve geometry.

use vstd::prelude::*;
use crate::params::{NodeParams, ParamValue, text_entry, text_param};
use crate::text_map::TextMap;
use crate::graph::NodeDefinition;
use crate::nodes::{geometry_out, geometry_node};
use crate::text::owned;

verus! {

/// The node kind's name.
pub const NAME: &'static str = "Curve";

/// The definition of the "Curve" node: a source with one geometry output.
pub fn definition() -> (def: NodeDefinition)
    ensures
        geometry_node(def, NAME@, "Sources"@, seq![], seq!["out"@]),
{
    let def = NodeDefinition {
        name: owned(NAME),
        category: owned("Sources"),
        inputs: Vec::new(),
        outputs: vec![geometry_out("out")],
    };
    assert(def.outputs@ =~= seq![def.outputs@[0]]);
    def
}

/// The parameters a new "Curve" node starts with (floats held as their bit patterns): points "", subdivs 8, closed false.
pub fn default_params() -> (params: NodeParams)
    ensures
        params.values.wf(),
        params.values@.dom() == set!["points"@, "subdivs"@, "closed"@],
        text_entry(params.values@, "points"@, ""@),
        params.values@["subdivs"@] == ParamValue::Int(8),
        params.values@["closed"@] == ParamValue::Bool(false),
{
    proof {
        reveal_strlit("points");
        reveal_strlit("subdivs");
        reveal_strlit("closed");
        assert("points"@.len() == 6 && "points"@[0] == 'p');
        assert("subdivs"@.len() == 7 && "subdivs"@[0] == 's');
        assert("closed"@.len() == 6 && "closed"@[0] == 'c');
    }
    let mut values: TextMap<ParamValue> = TextMap::new();
    values.insert(owned("points"), text_param(""));
    values.insert(owned("subdivs"), ParamValue::Int(8));
    values.insert(owned("closed"), ParamValue::Bool(false));
    NodeParams { values }
}

} // verus!
