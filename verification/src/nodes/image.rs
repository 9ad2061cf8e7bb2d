//! The "Image" node, which a source of an image read from a file. Its pins carry images, a pin type this
//! library's graph does not have, so only its name and parameters are here.

use vstd::prelude::*;
use crate::text::owned;
use crate::params::{NodeParams, ParamValue, text_entry, text_param};
use crate::text_map::TextMap;

verus! {

/// The node kind's name.
pub const NAME: &'static str = "Image";

/// The parameters a new "Image" node starts with (floats held as their bit patterns): path "".
pub fn default_params() -> (params: NodeParams)
    ensures
        params.values.wf(),
        params.values@.dom() == set!["path"@],
        text_entry(params.values@, "path"@, ""@),
{
    proof {
        reveal_strlit("path");
        assert("path"@.len() == 4 && "path"@[0] == 'p');
    }
    let mut values: TextMap<ParamValue> = TextMap::new();
    values.insert(owned("path"), text_param(""));
    NodeParams { values }
}

} // verus!
