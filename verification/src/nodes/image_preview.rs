//! The "Image Preview" node, which shows an image as geometry. Its pins carry images, a pin type this
//! library's graph does not have, so only its name and parameters are here.

use vstd::prelude::*;
use crate::text::owned;
use crate::params::{NodeParams, ParamValue};
use crate::text_map::TextMap;

verus! {

/// The node kind's name.
pub const NAME: &'static str = "Image Preview";

/// The parameters a new "Image Preview" node starts with (floats held as their bit patterns): black_point 0.0, white_point 1.0, srgb_gamma false.
pub fn default_params() -> (params: NodeParams)
    ensures
        params.values.wf(),
        params.values@.dom() == set!["black_point"@, "white_point"@, "srgb_gamma"@],
        params.values@["black_point"@] == ParamValue::Float(0x00000000),
        params.values@["white_point"@] == ParamValue::Float(0x3f800000),
        params.values@["srgb_gamma"@] == ParamValue::Bool(false),
{
    proof {
        reveal_strlit("black_point");
        reveal_strlit("white_point");
        reveal_strlit("srgb_gamma");
        assert("black_point"@.len() == 11 && "black_point"@[0] == 'b');
        assert("white_point"@.len() == 11 && "white_point"@[0] == 'w');
        assert("srgb_gamma"@.len() == 10 && "srgb_gamma"@[0] == 's');
    }
    let mut values: TextMap<ParamValue> = TextMap::new();
    values.insert(owned("black_point"), ParamValue::Float(0x00000000));
    values.insert(owned("white_point"), ParamValue::Float(0x3f800000));
    values.insert(owned("srgb_gamma"), ParamValue::Bool(false));
    NodeParams { values }
}

} // verus!
