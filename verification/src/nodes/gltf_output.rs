//! The "GLTF Output" node, which writes the geometry out as glTF.

use vstd::prelude::*;
use crate::params::{NodeParams, ParamValue, text_entry, text_param};
use crate::text_map::TextMap;
use crate::graph::NodeDefinition;
use crate::nodes::{geometry_in, geometry_out, geometry_node};
use crate::text::owned;
use crate::mesh::Mesh;
use crate::mesh_copy::same_mesh;
use crate::mesh_merge::all_wf;
use crate::nodes::require_mesh_input;

verus! {

/// The node kind's name.
pub const NAME: &'static str = "GLTF Output";

/// The definition of the "GLTF Output" node: an output with geometry input "in" and one geometry output.
pub fn definition() -> (def: NodeDefinition)
    ensures
        geometry_node(def, NAME@, "Outputs"@, seq!["in"@], seq!["out"@]),
{
    let def = NodeDefinition {
        name: owned(NAME),
        category: owned("Outputs"),
        inputs: vec![geometry_in("in")],
        outputs: vec![geometry_out("out")],
    };
    assert(def.inputs@ =~= seq![def.inputs@[0]]);
    assert(def.outputs@ =~= seq![def.outputs@[0]]);
    def
}

/// The parameters a new "GLTF Output" node starts with (floats held as their bit patterns): path "output.glb".
pub fn default_params() -> (params: NodeParams)
    ensures
        params.values.wf(),
        params.values@.dom() == set!["path"@],
        text_entry(params.values@, "path"@, "output.glb"@),
{
    proof {
        reveal_strlit("path");
        assert("path"@.len() == 4 && "path"@[0] == 'p');
    }
    let mut values: TextMap<ParamValue> = TextMap::new();
    values.insert(owned("path"), text_param("output.glb"));
    NodeParams { values }
}

/// The message given when there is no input mesh.
pub const NEEDS_INPUT: &'static str = "GLTF Output requires a mesh input";

/// The first input mesh, passed through unchanged (writing the file is done by the caller).
pub fn compute(params: &NodeParams, inputs: &[Mesh]) -> (r: Result<Mesh, String>)
    requires
        all_wf(inputs@),
    ensures
        inputs@.len() == 0 ==> (r matches Err(msg) && msg@ == NEEDS_INPUT@),
        inputs@.len() > 0 ==> (r matches Ok(m) && m.wf() && same_mesh(m, inputs@[0])),
{
    require_mesh_input(inputs, 0, NEEDS_INPUT)
}

} // verus!
