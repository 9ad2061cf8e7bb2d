//! The "Attribute from Volume" node, which samples a volume into an attribute of the geometry.

use vstd::prelude::*;
use crate::params::{NodeParams, ParamValue, text_entry, text_param};
use crate::text_map::TextMap;
use crate::graph::NodeDefinition;
use crate::nodes::{geometry_in, geometry_out, geometry_node};
use crate::text::owned;

verus! {

/// The node kind's name.
pub const NAME: &'static str = "Attribute from Volume";

/// The definition of the "Attribute from Volume" node: an operator with geometry inputs "geo" and "volume" and one geometry output.
pub fn definition() -> (def: NodeDefinition)
    ensures
        geometry_node(def, NAME@, "Operators"@, seq!["geo"@, "volume"@], seq!["out"@]),
{
    let def = NodeDefinition {
        name: owned(NAME),
        category: owned("Operators"),
        inputs: vec![geometry_in("geo"), geometry_in("volume")],
        outputs: vec![geometry_out("out")],
    };
    assert(def.inputs@ =~= seq![def.inputs@[0], def.inputs@[1]]);
    assert(def.outputs@ =~= seq![def.outputs@[0]]);
    def
}

/// The parameters a new "Attribute from Volume" node starts with (floats held as their bit patterns): attr "", domain 0, group "", group_type 0.
pub fn default_params() -> (params: NodeParams)
    ensures
        params.values.wf(),
        params.values@.dom() == set!["attr"@, "domain"@, "group"@, "group_type"@],
        text_entry(params.values@, "attr"@, ""@),
        params.values@["domain"@] == ParamValue::Int(0),
        text_entry(params.values@, "group"@, ""@),
        params.values@["group_type"@] == ParamValue::Int(0),
{
    proof {
        reveal_strlit("attr");
        reveal_strlit("domain");
        reveal_strlit("group");
        reveal_strlit("group_type");
        assert("attr"@.len() == 4 && "attr"@[0] == 'a');
        assert("domain"@.len() == 6 && "domain"@[0] == 'd');
        assert("group"@.len() == 5 && "group"@[0] == 'g');
        assert("group_type"@.len() == 10 && "group_type"@[0] == 'g');
    }
    let mut values: TextMap<ParamValue> = TextMap::new();
    values.insert(owned("attr"), text_param(""));
    values.insert(owned("domain"), ParamValue::Int(0));
    values.insert(owned("group"), text_param(""));
    values.insert(owned("group_type"), ParamValue::Int(0));
    NodeParams { values }
}

} // verus!
