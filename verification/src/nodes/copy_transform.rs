//! The "Copy/Transform" node, which makes transformed copies of the geometry.

use vstd::prelude::*;
use crate::params::{NodeParams, ParamValue};
use crate::text_map::TextMap;
use crate::graph::NodeDefinition;
use crate::nodes::{geometry_in, geometry_out, geometry_node};
use crate::text::owned;

verus! {

/// The node kind's name.
pub const NAME: &'static str = "Copy/Transform";

/// The definition of the "Copy/Transform" node: an operator with geometry input "in" and one geometry output.
pub fn definition() -> (def: NodeDefinition)
    ensures
        geometry_node(def, NAME@, "Operators"@, seq!["in"@], seq!["out"@]),
{
    let def = NodeDefinition {
        name: owned(NAME),
        category: owned("Operators"),
        inputs: vec![geometry_in("in")],
        outputs: vec![geometry_out("out")],
    };
    assert(def.inputs@ =~= seq![def.inputs@[0]]);
    assert(def.outputs@ =~= seq![def.outputs@[0]]);
    def
}

/// The parameters a new "Copy/Transform" node starts with (floats held as their bit patterns): translate (0.0, 0.0, 0.0), rotate_deg (0.0, 0.0, 0.0), scale (1.0, 1.0, 1.0), pivot (0.0, 0.0, 0.0), count 5, translate_step (1.0, 0.0, 0.0), rotate_step_deg (0.0, 0.0, 0.0), scale_step (0.0, 0.0, 0.0).
pub fn default_params() -> (params: NodeParams)
    ensures
        params.values.wf(),
        params.values@.dom() == set!["translate"@, "rotate_deg"@, "scale"@, "pivot"@, "count"@, "translate_step"@, "rotate_step_deg"@, "scale_step"@],
        params.values@["translate"@] == ParamValue::Vec3([0x00000000, 0x00000000, 0x00000000]),
        params.values@["rotate_deg"@] == ParamValue::Vec3([0x00000000, 0x00000000, 0x00000000]),
        params.values@["scale"@] == ParamValue::Vec3([0x3f800000, 0x3f800000, 0x3f800000]),
        params.values@["pivot"@] == ParamValue::Vec3([0x00000000, 0x00000000, 0x00000000]),
        params.values@["count"@] == ParamValue::Int(5),
        params.values@["translate_step"@] == ParamValue::Vec3([0x3f800000, 0x00000000, 0x00000000]),
        params.values@["rotate_step_deg"@] == ParamValue::Vec3([0x00000000, 0x00000000, 0x00000000]),
        params.values@["scale_step"@] == ParamValue::Vec3([0x00000000, 0x00000000, 0x00000000]),
{
    proof {
        reveal_strlit("translate");
        reveal_strlit("rotate_deg");
        reveal_strlit("scale");
        reveal_strlit("pivot");
        reveal_strlit("count");
        reveal_strlit("translate_step");
        reveal_strlit("rotate_step_deg");
        reveal_strlit("scale_step");
        assert("translate"@.len() == 9 && "translate"@[0] == 't');
        assert("rotate_deg"@.len() == 10 && "rotate_deg"@[0] == 'r');
        assert("scale"@.len() == 5 && "scale"@[0] == 's');
        assert("pivot"@.len() == 5 && "pivot"@[0] == 'p');
        assert("count"@.len() == 5 && "count"@[0] == 'c');
        assert("translate_step"@.len() == 14 && "translate_step"@[0] == 't');
        assert("rotate_step_deg"@.len() == 15 && "rotate_step_deg"@[0] == 'r');
        assert("scale_step"@.len() == 10 && "scale_step"@[0] == 's');
    }
    let mut values: TextMap<ParamValue> = TextMap::new();
    values.insert(owned("translate"), ParamValue::Vec3([0x00000000, 0x00000000, 0x00000000]));
    values.insert(owned("rotate_deg"), ParamValue::Vec3([0x00000000, 0x00000000, 0x00000000]));
    values.insert(owned("scale"), ParamValue::Vec3([0x3f800000, 0x3f800000, 0x3f800000]));
    values.insert(owned("pivot"), ParamValue::Vec3([0x00000000, 0x00000000, 0x00000000]));
    values.insert(owned("count"), ParamValue::Int(5));
    values.insert(owned("translate_step"), ParamValue::Vec3([0x3f800000, 0x00000000, 0x00000000]));
    values.insert(owned("rotate_step_deg"), ParamValue::Vec3([0x00000000, 0x00000000, 0x00000000]));
    values.insert(owned("scale_step"), ParamValue::Vec3([0x00000000, 0x00000000, 0x00000000]));
    NodeParams { values }
}

} // verus!
