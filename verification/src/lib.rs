use vstd::prelude::*;

pub mod attributes;
pub mod attribute_values;
pub mod text;
pub mod text_map;
pub mod text_order;
pub mod params;
pub mod graph;
pub mod eval;
pub mod curve;
pub mod material;
pub mod glob;
pub mod gltf_io;
pub mod groups;
pub mod mesh;
pub mod mesh_groups;
pub mod mesh_merge;
pub mod mesh_copy;
pub mod splat;
pub mod splat_merge;
pub mod assets;
pub mod nodes;
pub mod topology;
pub mod image_data;
pub mod geometry_eval;

verus! {

} // verus!
