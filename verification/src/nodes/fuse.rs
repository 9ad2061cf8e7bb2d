//! The "Fuse" node, which merges points that lie close together.

use vstd::prelude::*;
use crate::params::{NodeParams, ParamValue};
use crate::text_map::TextMap;
use crate::graph::NodeDefinition;
use crate::nodes::{geometry_in, geometry_out, geometry_node};
use crate::text::owned;

verus! {

/// The node kind's name.
pub const NAME: &'static str = "Fuse";

/// The definition of the "Fuse" node: an operator with geometry input "in" and one geometry output.
pub fn definition() -> (def: NodeDefinition)
    ensures
        geometry_node(def, NAME@, "Operators"@, seq!["in"@], seq!["out"@]),
{
    let def = NodeDefinition {
        name: owned(NAME),
        category: owned("Operators"),
        inputs: vec![geometry_in("in")],
        outputs: vec![geometry_out("out")],
    };
    assert(def.inputs@ =~= seq![def.inputs@[0]]);
    assert(def.outputs@ =~= seq![def.outputs@[0]]);
    def
}

/// For each source index, the value there, or `default` where there is none.
pub fn remap_storage_values<T: Copy>(values: &[T], sources: &[usize], default: T) -> (out: Vec<T>)
    ensures
        out@.len() == sources@.len(),
        forall|i: int| 0 <= i < sources@.len() ==> #[trigger] out@[i] == if (sources@[i] as int) < values@.len() {
            values@[sources@[i] as int]
        } else {
            default
        },
{
    let mut out: Vec<T> = Vec::new();
    let mut k: usize = 0;
    while k < sources.len()
        invariant
            0 <= k <= sources@.len(),
            out@.len() == k,
            forall|i: int| 0 <= i < k ==> #[trigger] out@[i] == if (sources@[i] as int) < values@.len() {
                values@[sources@[i] as int]
            } else {
                default
            },
        decreases sources@.len() - k,
    {
        let src = sources[k];
        let v = if src < values.len() { values[src] } else { default };
        out.push(v);
        k = k + 1;
    }
    out
}

/// The parameters a new "Fuse" node starts with (floats held as their bit patterns): radius 0.001, unfuse false.
pub fn default_params() -> (params: NodeParams)
    ensures
        params.values.wf(),
        params.values@.dom() == set!["radius"@, "unfuse"@],
        params.values@["radius"@] == ParamValue::Float(0x3a83126f),
        params.values@["unfuse"@] == ParamValue::Bool(false),
{
    proof {
        reveal_strlit("radius");
        reveal_strlit("unfuse");
        assert("radius"@.len() == 6 && "radius"@[0] == 'r');
        assert("unfuse"@.len() == 6 && "unfuse"@[0] == 'u');
    }
    let mut values: TextMap<ParamValue> = TextMap::new();
    values.insert(owned("radius"), ParamValue::Float(0x3a83126f));
    values.insert(owned("unfuse"), ParamValue::Bool(false));
    NodeParams { values }
}

} // verus!
