//! The built-in node kinds, and what they share.

use vstd::prelude::*;
use crate::graph::{NodeDefinition, PinDefinition, PinType};
use crate::params::{ParamValue, text_entry, text_param};
use crate::text::owned;
use crate::text_map::TextMap;
use crate::mesh::Mesh;
use crate::mesh_copy::{copy_mesh, same_mesh};
use crate::mesh_merge::all_wf;

pub mod attribute_expand;
pub mod attribute_from_feature;
pub mod attribute_from_volume;
pub mod attribute_math;
pub mod attribute_noise;
pub mod attribute_promote;
pub mod attribute_transfer;
pub mod attribute_utils;
pub mod boolean;
pub mod boolean_geo;
pub mod box_node;
pub mod circle;
pub mod color;
pub mod copy_to_points;
pub mod copy_transform;
pub mod curve;
pub mod cylindrical_unwrap;
pub mod delete;
pub mod depth_image;
pub mod depth_to_splats;
pub mod erosion_noise;
pub mod expand_utils;
pub mod ffd;
pub mod file;
pub mod fuse;
pub mod gltf_output;
pub mod grid;
pub mod group;
pub mod group_expand;
pub mod group_utils;
pub mod image;
pub mod image_preview;
pub mod material;
pub mod merge;
pub mod noise;
pub mod normal;

verus! {

/// Whether `pin` is named `name` and carries data of type `pin_type`.
pub open spec fn pin_is(pin: PinDefinition, name: Seq<char>, pin_type: PinType) -> bool {
    pin.name@ == name && pin.pin_type == pin_type
}

/// Whether `pins` are, in order, geometry pins with the given names.
pub open spec fn geometry_pins(pins: Seq<PinDefinition>, names: Seq<Seq<char>>) -> bool {
    &&& pins.len() == names.len()
    &&& forall|i: int| 0 <= i < pins.len() ==> pin_is(#[trigger] pins[i], names[i], PinType::Geometry)
}

/// Whether `def` describes a node kind named `name` in `category` whose
/// geometry inputs and outputs carry the given names, in order.
pub open spec fn geometry_node(
    def: NodeDefinition,
    name: Seq<char>,
    category: Seq<char>,
    inputs: Seq<Seq<char>>,
    outputs: Seq<Seq<char>>,
) -> bool {
    &&& def.name@ == name
    &&& def.category@ == category
    &&& geometry_pins(def.inputs@, inputs)
    &&& geometry_pins(def.outputs@, outputs)
}

/// An input pin named `name` that receives geometry.
pub fn geometry_in(name: &str) -> (pin: PinDefinition)
    ensures
        pin_is(pin, name@, PinType::Geometry),
{
    PinDefinition { name: owned(name), pin_type: PinType::Geometry }
}

/// An output pin named `name` that emits geometry.
pub fn geometry_out(name: &str) -> (pin: PinDefinition)
    ensures
        pin_is(pin, name@, PinType::Geometry),
{
    PinDefinition { name: owned(name), pin_type: PinType::Geometry }
}

/// An input pin named `name` that receives a mesh.
pub fn mesh_in(name: &str) -> (pin: PinDefinition)
    ensures
        pin_is(pin, name@, PinType::Mesh),
{
    PinDefinition { name: owned(name), pin_type: PinType::Mesh }
}

/// An output pin named `name` that emits a mesh.
pub fn mesh_out(name: &str) -> (pin: PinDefinition)
    ensures
        pin_is(pin, name@, PinType::Mesh),
{
    PinDefinition { name: owned(name), pin_type: PinType::Mesh }
}

/// A copy of input mesh `index`, or `message` as the error where there is no such input.
pub fn require_mesh_input(inputs: &[Mesh], index: usize, message: &str) -> (r: Result<Mesh, String>)
    requires
        all_wf(inputs@),
    ensures
        index < inputs@.len() ==> (r matches Ok(m) && m.wf() && same_mesh(m, inputs@[index as int])),
        index >= inputs@.len() ==> (r matches Err(msg) && msg@ == message@),
{
    if index < inputs.len() {
        assert(inputs@[index as int].wf());
        Ok(copy_mesh(&inputs[index]))
    } else {
        Err(owned(message))
    }
}

/// The shape parameters of the selecting nodes (floats held as their bit patterns): shape "box", invert false, center (0.0, 0.0, 0.0), size (1.0, 1.0, 1.0), radius 1.0, plane_origin (0.0, 0.0, 0.0), plane_normal (0.0, 1.0, 0.0).
pub fn selection_shape_params() -> (values: TextMap<ParamValue>)
    ensures
        values.wf(),
        values@.dom() == set!["shape"@, "invert"@, "center"@, "size"@, "radius"@, "plane_origin"@, "plane_normal"@],
        text_entry(values@, "shape"@, "box"@),
        values@["invert"@] == ParamValue::Bool(false),
        values@["center"@] == ParamValue::Vec3([0x00000000, 0x00000000, 0x00000000]),
        values@["size"@] == ParamValue::Vec3([0x3f800000, 0x3f800000, 0x3f800000]),
        values@["radius"@] == ParamValue::Float(0x3f800000),
        values@["plane_origin"@] == ParamValue::Vec3([0x00000000, 0x00000000, 0x00000000]),
        values@["plane_normal"@] == ParamValue::Vec3([0x00000000, 0x3f800000, 0x00000000]),
{
    proof {
        reveal_strlit("shape");
        reveal_strlit("invert");
        reveal_strlit("center");
        reveal_strlit("size");
        reveal_strlit("radius");
        reveal_strlit("plane_origin");
        reveal_strlit("plane_normal");
        assert("shape"@.len() == 5 && "shape"@[0] == 's');
        assert("invert"@.len() == 6 && "invert"@[0] == 'i');
        assert("center"@.len() == 6 && "center"@[0] == 'c');
        assert("size"@.len() == 4 && "size"@[0] == 's');
        assert("radius"@.len() == 6 && "radius"@[0] == 'r');
        assert("plane_origin"@.len() == 12 && "plane_origin"@[0] == 'p');
        assert("plane_normal"@.len() == 12 && "plane_normal"@[0] == 'p');
        assert("plane_origin"@[6] != "plane_normal"@[6]);
    }
    let mut values: TextMap<ParamValue> = TextMap::new();
    values.insert(owned("shape"), text_param("box"));
    values.insert(owned("invert"), ParamValue::Bool(false));
    values.insert(owned("center"), ParamValue::Vec3([0x00000000, 0x00000000, 0x00000000]));
    values.insert(owned("size"), ParamValue::Vec3([0x3f800000, 0x3f800000, 0x3f800000]));
    values.insert(owned("radius"), ParamValue::Float(0x3f800000));
    values.insert(owned("plane_origin"), ParamValue::Vec3([0x00000000, 0x00000000, 0x00000000]));
    values.insert(owned("plane_normal"), ParamValue::Vec3([0x00000000, 0x3f800000, 0x00000000]));
    values
}

} // verus!
