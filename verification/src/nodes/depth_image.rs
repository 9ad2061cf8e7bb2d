//! The "Depth Image" node, which estimates depth and segments from an image. Its pins carry images, a pin type this
//! library's graph does not have, so only its name and parameters are here.

use vstd::prelude::*;
use crate::text::owned;
use crate::params::{NodeParams, ParamValue};
use crate::text_map::TextMap;

verus! {

/// The node kind's name.
pub const NAME: &'static str = "Depth Image";

/// The parameters a new "Depth Image" node starts with (floats held as their bit patterns): debug false, segmentation true, sam_grid 8, directml_device_id 0.
pub fn default_params() -> (params: NodeParams)
    ensures
        params.values.wf(),
        params.values@.dom() == set!["debug"@, "segmentation"@, "sam_grid"@, "directml_device_id"@],
        params.values@["debug"@] == ParamValue::Bool(false),
        params.values@["segmentation"@] == ParamValue::Bool(true),
        params.values@["sam_grid"@] == ParamValue::Int(8),
        params.values@["directml_device_id"@] == ParamValue::Int(0),
{
    proof {
        reveal_strlit("debug");
        reveal_strlit("segmentation");
        reveal_strlit("sam_grid");
        reveal_strlit("directml_device_id");
        assert("debug"@.len() == 5 && "debug"@[0] == 'd');
        assert("segmentation"@.len() == 12 && "segmentation"@[0] == 's');
        assert("sam_grid"@.len() == 8 && "sam_grid"@[0] == 's');
        assert("directml_device_id"@.len() == 18 && "directml_device_id"@[0] == 'd');
    }
    let mut values: TextMap<ParamValue> = TextMap::new();
    values.insert(owned("debug"), ParamValue::Bool(false));
    values.insert(owned("segmentation"), ParamValue::Bool(true));
    values.insert(owned("sam_grid"), ParamValue::Int(8));
    values.insert(owned("directml_device_id"), ParamValue::Int(0));
    NodeParams { values }
}

} // verus!
