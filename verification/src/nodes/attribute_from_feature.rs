//! The "Attribute from Feature" node, which writes a geometric feature of each element into an attribute.

use vstd::prelude::*;
use crate::params::{NodeParams, ParamValue, text_entry, text_param};
use crate::text_map::TextMap;
use crate::graph::NodeDefinition;
use crate::nodes::{geometry_in, geometry_out, geometry_node};
use crate::text::owned;

verus! {

/// The node kind's name.
pub const NAME: &'static str = "Attribute from Feature";

/// The definition of the "Attribute from Feature" node: an operator with geometry input "in" and one geometry output.
pub fn definition() -> (def: NodeDefinition)
    ensures
        geometry_node(def, NAME@, "Operators"@, seq!["in"@], seq!["out"@]),
{
    let def = NodeDefinition {
        name: owned(NAME),
        category: owned("Operators"),
        inputs: vec![geometry_in("in")],
        outputs: vec![geometry_out("out")],
    };
    assert(def.inputs@ =~= seq![def.inputs@[0]]);
    assert(def.outputs@ =~= seq![def.outputs@[0]]);
    def
}

/// The parameters a new "Attribute from Feature" node starts with (floats held as their bit patterns): feature 0, attr "", domain 0, group "", group_type 0.
pub fn default_params() -> (params: NodeParams)
    ensures
        params.values.wf(),
        params.values@.dom() == set!["feature"@, "attr"@, "domain"@, "group"@, "group_type"@],
        params.values@["feature"@] == ParamValue::Int(0),
        text_entry(params.values@, "attr"@, ""@),
        params.values@["domain"@] == ParamValue::Int(0),
        text_entry(params.values@, "group"@, ""@),
        params.values@["group_type"@] == ParamValue::Int(0),
{
    proof {
        reveal_strlit("feature");
        reveal_strlit("attr");
        reveal_strlit("domain");
        reveal_strlit("group");
        reveal_strlit("group_type");
        assert("feature"@.len() == 7 && "feature"@[0] == 'f');
        assert("attr"@.len() == 4 && "attr"@[0] == 'a');
        assert("domain"@.len() == 6 && "domain"@[0] == 'd');
        assert("group"@.len() == 5 && "group"@[0] == 'g');
        assert("group_type"@.len() == 10 && "group_type"@[0] == 'g');
    }
    let mut values: TextMap<ParamValue> = TextMap::new();
    values.insert(owned("feature"), ParamValue::Int(0));
    values.insert(owned("attr"), text_param(""));
    values.insert(owned("domain"), ParamValue::Int(0));
    values.insert(owned("group"), text_param(""));
    values.insert(owned("group_type"), ParamValue::Int(0));
    NodeParams { values }
}

} // verus!
