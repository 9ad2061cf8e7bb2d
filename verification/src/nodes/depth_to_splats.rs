//! The "Depth to Splats" node, which turns a depth image into splats. Its pins carry images, a pin type this
//! library's graph does not have, so only its name and parameters are here.

use vstd::prelude::*;
use crate::text::owned;
use crate::params::{NodeParams, ParamValue};
use crate::text_map::TextMap;

verus! {

/// The node kind's name.
pub const NAME: &'static str = "Depth to Splats";

/// The parameters a new "Depth to Splats" node starts with (floats held as their bit patterns): fov_deg 60.0, depth_scale 1.0, scale_k 1.0, scale_tau 0.2, opacity 0.1.
pub fn default_params() -> (params: NodeParams)
    ensures
        params.values.wf(),
        params.values@.dom() == set!["fov_deg"@, "depth_scale"@, "scale_k"@, "scale_tau"@, "opacity"@],
        params.values@["fov_deg"@] == ParamValue::Float(0x42700000),
        params.values@["depth_scale"@] == ParamValue::Float(0x3f800000),
        params.values@["scale_k"@] == ParamValue::Float(0x3f800000),
        params.values@["scale_tau"@] == ParamValue::Float(0x3e4ccccd),
        params.values@["opacity"@] == ParamValue::Float(0x3dcccccd),
{
    proof {
        reveal_strlit("fov_deg");
        reveal_strlit("depth_scale");
        reveal_strlit("scale_k");
        reveal_strlit("scale_tau");
        reveal_strlit("opacity");
        assert("fov_deg"@.len() == 7 && "fov_deg"@[0] == 'f');
        assert("depth_scale"@.len() == 11 && "depth_scale"@[0] == 'd');
        assert("scale_k"@.len() == 7 && "scale_k"@[0] == 's');
        assert("scale_tau"@.len() == 9 && "scale_tau"@[0] == 's');
        assert("opacity"@.len() == 7 && "opacity"@[0] == 'o');
    }
    let mut values: TextMap<ParamValue> = TextMap::new();
    values.insert(owned("fov_deg"), ParamValue::Float(0x42700000));
    values.insert(owned("depth_scale"), ParamValue::Float(0x3f800000));
    values.insert(owned("scale_k"), ParamValue::Float(0x3f800000));
    values.insert(owned("scale_tau"), ParamValue::Float(0x3e4ccccd));
    values.insert(owned("opacity"), ParamValue::Float(0x3dcccccd));
    NodeParams { values }
}

} // verus!
