//! The "File" node, which a source of geometry read from a file.

use vstd::prelude::*;
use crate::params::{NodeParams, ParamValue, text_entry, text_param};
use crate::text_map::TextMap;
use crate::graph::NodeDefinition;
use crate::nodes::{geometry_out, geometry_node};
use crate::text::owned;

verus! {

/// The node kind's name.
pub const NAME: &'static str = "File";

/// The definition of the "File" node: a source with one geometry output.
pub fn definition() -> (def: NodeDefinition)
    ensures
        geometry_node(def, NAME@, "Sources"@, seq![], seq!["out"@]),
{
    let def = NodeDefinition {
        name: owned(NAME),
        category: owned("Sources"),
        inputs: Vec::new(),
        outputs: vec![geometry_out("out")],
    };
    assert(def.outputs@ =~= seq![def.outputs@[0]]);
    def
}

/// The parameters a new "File" node starts with (floats held as their bit patterns): path "C:\code\lobedo\geo\pig.obj".
pub fn default_params() -> (params: NodeParams)
    ensures
        params.values.wf(),
        params.values@.dom() == set!["path"@],
        text_entry(params.values@, "path"@, "C:\\code\\lobedo\\geo\\pig.obj"@),
{
    proof {
        reveal_strlit("path");
        assert("path"@.len() == 4 && "path"@[0] == 'p');
    }
    let mut values: TextMap<ParamValue> = TextMap::new();
    values.insert(owned("path"), text_param("C:\\code\\lobedo\\geo\\pig.obj"));
    NodeParams { values }
}

} // verus!
