//! The "Merge" node, which joins two meshes into one.

use vstd::prelude::*;
use crate::graph::{NodeDefinition, PinType};
use crate::nodes::{mesh_in, mesh_out, pin_is};
use crate::params::NodeParams;
use crate::text::owned;
use crate::mesh::Mesh;
use crate::mesh_merge::{all_wf, is_merge_of, merge_fits};

verus! {

/// The node kind's name.
pub const NAME: &'static str = "Merge";

/// The definition of the "Merge" node: an operator with mesh inputs "a" and "b"
/// and one mesh output.
pub fn definition() -> (def: NodeDefinition)
    ensures
        def.name@ == NAME@,
        def.category@ == "Operators"@,
        def.inputs@.len() == 2,
        pin_is(def.inputs@[0], "a"@, PinType::Mesh),
        pin_is(def.inputs@[1], "b"@, PinType::Mesh),
        def.outputs@.len() == 1,
        pin_is(def.outputs@[0], "out"@, PinType::Mesh),
{
    NodeDefinition {
        name: owned(NAME),
        category: owned("Operators"),
        inputs: vec![mesh_in("a"), mesh_in("b")],
        outputs: vec![mesh_out("out")],
    }
}

/// The parameters a new "Merge" node starts with: none.
pub fn default_params() -> (params: NodeParams)
    ensures
        params.values.wf(),
        params.values@ == Map::<Seq<char>, crate::params::ParamValue>::empty(),
{
    NodeParams::new()
}

/// The message given when there is nothing to merge.
pub const NO_INPUT: &'static str = "Merge requires at least one mesh input";

/// The merge of the input meshes; at least one is needed.
pub fn compute(params: &NodeParams, inputs: &[Mesh]) -> (r: Result<Mesh, String>)
    requires
        all_wf(inputs@),
        merge_fits(inputs@),
    ensures
        inputs@.len() == 0 ==> (r matches Err(msg) && msg@ == NO_INPUT@),
        inputs@.len() > 0 ==> (r matches Ok(m) && m.wf() && is_merge_of(m, inputs@)),
{
    if inputs.len() == 0 {
        return Err(owned(NO_INPUT));
    }
    Ok(Mesh::merge(inputs))
}

} // verus!
