use lobedo_core::gltf_io::{align_to_four, encode_indices};
use lobedo_core::nodes::copy_to_points::{copy_attr_domain, selected_indices};
use lobedo_core::nodes::fuse::remap_storage_values;
use lobedo_core::attributes::StringTableAttribute;
use lobedo_core::nodes::attribute_transfer::{append_string_table_values, merge_string_tables};
use lobedo_core::attributes::AttributeDomain;
use lobedo_core::graph::PinType;
use lobedo_core::mesh_groups::MeshGroups;
use lobedo_core::nodes::attribute_expand::{expand_int, expand_mode_from_params};
use lobedo_core::nodes::attribute_math::apply_op_i;
use lobedo_core::nodes::attribute_promote::{
    build_mapping, build_mapping_splats, promote_i32, promote_u32, resolve_attribute_patterns, resolve_output_name,
    source_domain_from_params, target_domain_from_params, PromotionMethod,
};
use lobedo_core::nodes::attribute_utils::{domain_from_params, parse_attribute_list};
use lobedo_core::nodes::delete::{build_index_mapping, filter_group_values};
use lobedo_core::nodes::expand_utils::{expand_mask, mesh_adjacency, ExpandMode};
use lobedo_core::nodes::group_expand::output_group_name;
use lobedo_core::nodes::group_utils::{
    group_type_from_params, map_group_mask, mask_has_any, mesh_group_mask, select_group_domain, GroupType,
};
use lobedo_core::nodes::{
    attribute_transfer, box_node, copy_to_points, delete, gltf_output, group, merge, noise, selection_shape_params,
    geometry_in, geometry_out,
};
use lobedo_core::params::{NodeParams, ParamValue};
use lobedo_core::topology::MeshTopology;

fn params(entries: &[(&str, ParamValue)]) -> NodeParams {
    let mut p = NodeParams::new();
    for (k, v) in entries {
        p.store(k.to_string(), v.clone());
    }
    p
}

fn text(s: &str) -> ParamValue {
    ParamValue::String(s.to_string())
}

/// Two triangles sharing the edge between points 1 and 2.
fn two_triangles() -> MeshTopology {
    MeshTopology { point_count: 4, indices: vec![0, 1, 2, 2, 1, 3], face_counts: Vec::new() }
}

#[test]
fn definitions_name_their_pins() {
    let b = box_node::definition();
    assert_eq!(b.name, "Box");
    assert_eq!(b.category, "Sources");
    assert!(b.inputs.is_empty());
    assert_eq!(b.outputs.len(), 1);
    assert_eq!(b.outputs[0].name, "out");
    assert_eq!(b.outputs[0].pin_type, PinType::Geometry);

    let t = attribute_transfer::definition();
    assert_eq!(t.name, "Attribute Transfer");
    let names: Vec<&str> = t.inputs.iter().map(|p| p.name.as_str()).collect();
    assert_eq!(names, vec!["target", "source"]);

    let c = copy_to_points::definition();
    assert_eq!(c.inputs[1].name, "template");
    assert_eq!(gltf_output::definition().category, "Outputs");
    assert_eq!(noise::definition().name, "Noise/Mountain");

    let m = merge::definition();
    assert_eq!(m.inputs.len(), 2);
    assert_eq!(m.inputs[0].pin_type, PinType::Mesh);
    assert_eq!(m.outputs[0].pin_type, PinType::Mesh);
}

#[test]
fn geometry_pins_carry_geometry() {
    let i = geometry_in("geo");
    let o = geometry_out("result");
    assert_eq!(i.name, "geo");
    assert_eq!(o.name, "result");
    assert_eq!(i.pin_type, PinType::Geometry);
    assert_eq!(o.pin_type, PinType::Geometry);
}

#[test]
fn attribute_lists_split_on_whitespace() {
    assert_eq!(parse_attribute_list("  Cd  N\tuv\n"), vec!["Cd", "N", "uv"]);
    assert!(parse_attribute_list("   ").is_empty());
    assert_eq!(parse_attribute_list("a,b"), vec!["a,b"]);
}

#[test]
fn domain_parameters_clamp() {
    assert_eq!(domain_from_params(&params(&[])), AttributeDomain::Point);
    assert_eq!(domain_from_params(&params(&[("domain", ParamValue::Int(2))])), AttributeDomain::Primitive);
    assert_eq!(domain_from_params(&params(&[("domain", ParamValue::Int(-5))])), AttributeDomain::Point);
    assert_eq!(domain_from_params(&params(&[("domain", ParamValue::Int(9))])), AttributeDomain::Detail);
    assert_eq!(source_domain_from_params(&params(&[])), AttributeDomain::Point);
    assert_eq!(target_domain_from_params(&params(&[])), AttributeDomain::Primitive);
}

#[test]
fn group_types_from_parameters() {
    assert_eq!(group_type_from_params(&params(&[])), GroupType::Auto);
    assert_eq!(group_type_from_params(&params(&[("group_type", ParamValue::Int(1))])), GroupType::Vertex);
    assert_eq!(group_type_from_params(&params(&[("group_type", ParamValue::Int(3))])), GroupType::Primitive);
    assert_eq!(group_type_from_params(&params(&[("group_type", ParamValue::Int(4))])), GroupType::Auto);
}

#[test]
fn mask_has_any_reads_masks() {
    assert!(mask_has_any(None));
    assert!(!mask_has_any(Some(&[])));
    assert!(!mask_has_any(Some(&[false, false])));
    assert!(mask_has_any(Some(&[false, true])));
}

#[test]
fn group_masks_map_between_domains() {
    let topo = two_triangles();
    // point 3 selects the corner on it and the polygon holding it
    let points = [false, false, false, true];
    assert_eq!(map_group_mask(&topo, AttributeDomain::Point, AttributeDomain::Vertex, &points), vec![false, false, false, false, false, true]);
    assert_eq!(map_group_mask(&topo, AttributeDomain::Point, AttributeDomain::Primitive, &points), vec![false, true]);
    assert_eq!(map_group_mask(&topo, AttributeDomain::Point, AttributeDomain::Detail, &points), vec![true]);
    // the first polygon selects its points and corners
    let prims = [true, false];
    assert_eq!(map_group_mask(&topo, AttributeDomain::Primitive, AttributeDomain::Point, &prims), vec![true, true, true, false]);
    assert_eq!(map_group_mask(&topo, AttributeDomain::Primitive, AttributeDomain::Vertex, &prims), vec![true, true, true, false, false, false]);
    // a corner selects its point and its polygon
    let verts = [false, false, false, false, true, false];
    assert_eq!(map_group_mask(&topo, AttributeDomain::Vertex, AttributeDomain::Point, &verts), vec![false, true, false, false]);
    assert_eq!(map_group_mask(&topo, AttributeDomain::Vertex, AttributeDomain::Primitive, &verts), vec![false, true]);
    assert_eq!(map_group_mask(&topo, AttributeDomain::Point, AttributeDomain::Point, &points), points.to_vec());
}

#[test]
fn mesh_group_mask_selects_named_groups() {
    let topo = two_triangles();
    let mut groups = MeshGroups::new();
    groups.map_mut(AttributeDomain::Point).insert("top".to_string(), vec![false, false, false, true]);
    assert_eq!(select_group_domain(&groups, "top", GroupType::Auto), AttributeDomain::Point);
    assert_eq!(select_group_domain(&groups, "other", GroupType::Auto), AttributeDomain::Primitive);

    let p = params(&[("group", text("  top "))]);
    assert_eq!(mesh_group_mask(&topo, &groups, &p, AttributeDomain::Primitive), Some(vec![false, true]));
    let none = params(&[("group", text("   "))]);
    assert_eq!(mesh_group_mask(&topo, &groups, &none, AttributeDomain::Point), None);
    let excluded = params(&[("group", text("^top"))]);
    assert_eq!(mesh_group_mask(&topo, &groups, &excluded, AttributeDomain::Point), Some(vec![false, false, false, false]));
}

#[test]
fn expand_mask_grows_and_shrinks() {
    let neighbors = vec![vec![1], vec![0, 2], vec![1, 3], vec![2]];
    let mask = [true, false, false, false];
    assert_eq!(expand_mask(&mask, &neighbors, 1, ExpandMode::Expand), vec![true, true, false, false]);
    assert_eq!(expand_mask(&mask, &neighbors, 2, ExpandMode::Expand), vec![true, true, true, false]);
    let full = [true, true, true, false];
    assert_eq!(expand_mask(&full, &neighbors, 1, ExpandMode::Contract), vec![true, true, false, false]);
    assert_eq!(expand_mask(&mask, &neighbors, 0, ExpandMode::Expand), mask.to_vec());
    // an element without neighbours does not survive a contraction
    assert_eq!(expand_mask(&[true], &[vec![]], 1, ExpandMode::Contract), vec![false]);
}

#[test]
fn adjacency_of_two_triangles() {
    let topo = two_triangles();
    assert_eq!(mesh_adjacency(&topo, AttributeDomain::Point), vec![vec![1, 2], vec![0, 2, 3], vec![0, 1, 3], vec![1, 2]]);
    assert_eq!(mesh_adjacency(&topo, AttributeDomain::Vertex)[0], vec![1, 2]);
    assert_eq!(mesh_adjacency(&topo, AttributeDomain::Primitive), vec![vec![1], vec![0]]);
    assert!(mesh_adjacency(&topo, AttributeDomain::Detail).is_empty());
}

#[test]
fn expand_int_spreads_extremes() {
    let neighbors = vec![vec![1], vec![0, 2], vec![1]];
    assert_eq!(expand_int(&[1, 5, 2], &neighbors, None, 1, ExpandMode::Expand), vec![5, 5, 5]);
    assert_eq!(expand_int(&[1, 5, 2], &neighbors, None, 1, ExpandMode::Contract), vec![1, 1, 2]);
    let mask = [false, false, true];
    assert_eq!(expand_int(&[1, 5, 2], &neighbors, Some(&mask), 1, ExpandMode::Expand), vec![1, 5, 5]);
    assert_eq!(expand_mode_from_params(&params(&[("expand_mode", ParamValue::Int(1))])), ExpandMode::Contract);
}

#[test]
fn output_group_names() {
    let empty = params(&[]);
    assert_eq!(output_group_name(" edge ", &empty), Ok("edge".to_string()));
    assert!(output_group_name("a b", &empty).is_err());
    assert!(output_group_name("^a", &empty).is_err());
    assert!(output_group_name("a*", &empty).is_err());
    let named = params(&[("out_group", text(" grown "))]);
    assert_eq!(output_group_name("a*", &named), Ok("grown".to_string()));
}

#[test]
fn mappings_between_mesh_domains() {
    let topo = two_triangles();
    assert_eq!(build_mapping(&topo, AttributeDomain::Point, AttributeDomain::Primitive), vec![vec![0, 1, 2], vec![2, 1, 3]]);
    assert_eq!(build_mapping(&topo, AttributeDomain::Vertex, AttributeDomain::Primitive), vec![vec![0, 1, 2], vec![3, 4, 5]]);
    assert_eq!(build_mapping(&topo, AttributeDomain::Primitive, AttributeDomain::Point), vec![vec![0], vec![0, 1], vec![0, 1], vec![1]]);
    assert_eq!(build_mapping(&topo, AttributeDomain::Vertex, AttributeDomain::Point), vec![vec![0], vec![1, 4], vec![2, 3], vec![5]]);
    assert_eq!(build_mapping(&topo, AttributeDomain::Primitive, AttributeDomain::Vertex), vec![vec![0], vec![0], vec![0], vec![1], vec![1], vec![1]]);
    assert_eq!(build_mapping(&topo, AttributeDomain::Point, AttributeDomain::Detail), vec![vec![0, 1, 2, 3]]);
    assert_eq!(build_mapping(&topo, AttributeDomain::Detail, AttributeDomain::Primitive), vec![vec![0], vec![0]]);
    assert!(build_mapping(&topo, AttributeDomain::Point, AttributeDomain::Point).is_empty());
    assert_eq!(build_mapping_splats(3, 2, AttributeDomain::Point, AttributeDomain::Primitive), vec![vec![0], vec![1]]);
    assert_eq!(build_mapping_splats(1, 2, AttributeDomain::Primitive, AttributeDomain::Point), vec![vec![0], vec![]]);
}

#[test]
fn promotion_of_integers() {
    let mapping = vec![vec![0, 1, 2, 3], vec![], vec![9, 4]];
    let values = [3, 1, 3, -2, 7];
    assert_eq!(promote_i32(&values, &mapping, PromotionMethod::Max), Some(vec![3, 0, 7]));
    assert_eq!(promote_i32(&values, &mapping, PromotionMethod::Min), Some(vec![-2, 0, 7]));
    assert_eq!(promote_i32(&values, &mapping, PromotionMethod::Mode), Some(vec![3, 0, 7]));
    assert_eq!(promote_i32(&values, &mapping, PromotionMethod::Median), Some(vec![3, 0, 7]));
    assert_eq!(promote_i32(&values, &mapping, PromotionMethod::Sum), Some(vec![5, 0, 7]));
    assert_eq!(promote_i32(&values, &mapping, PromotionMethod::SumSquares), Some(vec![23, 0, 49]));
    assert_eq!(promote_i32(&values, &mapping, PromotionMethod::First), Some(vec![3, 0, 7]));
    assert_eq!(promote_i32(&values, &mapping, PromotionMethod::Last), Some(vec![-2, 0, 7]));
    assert_eq!(promote_i32(&values, &mapping, PromotionMethod::Average), None);
    // a tie between modes goes to the smaller value; sums wrap to 32 bits
    assert_eq!(promote_u32(&[4, 2, 4, 2], &[vec![0, 1, 2, 3]], PromotionMethod::Mode), Some(vec![2]));
    assert_eq!(promote_u32(&[u32::MAX, 2], &[vec![0, 1]], PromotionMethod::Sum), Some(vec![1]));
    assert_eq!(promote_u32(&[1, 2, 3, 4], &[vec![0, 1, 2, 3]], PromotionMethod::Median), Some(vec![3]));
}

#[test]
fn promotion_methods_from_parameters() {
    assert_eq!(PromotionMethod::from_params(&params(&[])), PromotionMethod::Average);
    assert_eq!(PromotionMethod::from_params(&params(&[("promotion", ParamValue::Int(4))])), PromotionMethod::Median);
    assert_eq!(PromotionMethod::from_params(&params(&[("promotion", ParamValue::Int(42))])), PromotionMethod::Average);
}

#[test]
fn output_names_of_promoted_attributes() {
    assert_eq!(resolve_output_name("Cd", "x", false, 1), "Cd");
    assert_eq!(resolve_output_name("Cd", "   ", true, 1), "Cd");
    assert_eq!(resolve_output_name("Cd", " avg_* ", true, 2), "avg_Cd");
    assert_eq!(resolve_output_name("Cd", "new", true, 2), "new_Cd");
    assert_eq!(resolve_output_name("Cd", "new", true, 1), "new");
}

#[test]
fn attribute_patterns_resolve_sorted() {
    let available: Vec<String> = vec!["Cd".into(), "Alpha".into(), "uv".into(), "Ca".into()];
    let patterns: Vec<String> = vec!["C*".into(), "zeta".into(), "Cd".into()];
    assert_eq!(resolve_attribute_patterns(&available, &patterns), vec!["Ca", "Cd", "zeta"]);
    let q: Vec<String> = vec!["?v".into()];
    assert_eq!(resolve_attribute_patterns(&available, &q), vec!["uv"]);
}

#[test]
fn integer_math_saturates() {
    assert_eq!(apply_op_i(i32::MAX, 1, 0), i32::MAX);
    assert_eq!(apply_op_i(i32::MIN, 1, 1), i32::MIN);
    assert_eq!(apply_op_i(1 << 20, 1 << 20, 2), i32::MAX);
    assert_eq!(apply_op_i(-7, 2, 3), -3);
    assert_eq!(apply_op_i(7, 0, 3), 7);
    assert_eq!(apply_op_i(7, 3, 9), 7);
}

#[test]
fn delete_helpers_keep_order() {
    let (mapping, kept) = build_index_mapping(&[true, false, true, true]);
    assert_eq!(mapping, vec![0, u32::MAX, 1, 2]);
    assert_eq!(kept, vec![0, 2, 3]);
    assert_eq!(filter_group_values(&[true, false, true], &[2, 1, 7]), vec![true, false]);
}

#[test]
fn index_buffers_pick_their_width() {
    let (short, code) = encode_indices(&[1, 258], 3).unwrap();
    assert_eq!(short, vec![1, 0, 2, 1]);
    assert_eq!(code, 5123);
    let (wide, code) = encode_indices(&[0x0403_0201], 70_000).unwrap();
    assert_eq!(wide, vec![1, 2, 3, 4]);
    assert_eq!(code, 5125);
    let mut buffer = vec![9u8; 5];
    align_to_four(&mut buffer);
    assert_eq!(buffer, vec![9, 9, 9, 9, 9, 0, 0, 0]);
    let mut aligned = vec![1u8; 8];
    align_to_four(&mut aligned);
    assert_eq!(aligned.len(), 8);
}

#[test]
fn copy_helpers() {
    assert_eq!(selected_indices(3, None), vec![0, 1, 2]);
    assert_eq!(selected_indices(3, Some(&[false, true, true, false])), vec![1, 2]);
    assert_eq!(copy_attr_domain(-1), AttributeDomain::Point);
    assert_eq!(copy_attr_domain(1), AttributeDomain::Vertex);
    assert_eq!(copy_attr_domain(7), AttributeDomain::Primitive);
    assert_eq!(remap_storage_values(&[10, 20, 30], &[2, 5, 0], -1), vec![30, -1, 10]);
}

#[test]
fn string_tables_merge_without_repeats() {
    let existing = StringTableAttribute { values: vec!["a".into(), "b".into(), "a".into()], indices: vec![] };
    let source = StringTableAttribute { values: vec!["b".into(), "c".into()], indices: vec![1, 0, 5] };
    let (combined, existing_map, source_map) = merge_string_tables(Some(&existing), &source);
    assert_eq!(combined, vec!["a", "b", "c"]);
    assert_eq!(existing_map, vec![0, 1, 0]);
    assert_eq!(source_map, vec![1, 2]);
    let (alone, none_map, src_map) = merge_string_tables(None, &source);
    assert_eq!(alone, vec!["b", "c"]);
    assert!(none_map.is_empty());
    assert_eq!(src_map, vec![0, 1]);

    let mut table = StringTableAttribute { values: vec!["x".into(), "c".into(), "x".into()], indices: vec![0] };
    append_string_table_values(&mut table, &source);
    assert_eq!(table.values, vec!["x", "c", "x", "b", ""]);
    assert_eq!(table.indices, vec![0, 1, 3, 4]);
}

#[test]
fn default_parameters_of_nodes() {
    let n = noise::default_params();
    assert_eq!(n.values.len(), 6);
    assert_eq!(n.get_int("seed", 0), 1);
    assert_eq!(n.get_string("group", "x"), "");
    assert_eq!(n.get_vec3("offset", [7; 3]), [0; 3]);
    let b = box_node::default_params();
    assert_eq!(b.get_vec3("size", [0; 3]), [1.0f32.to_bits(); 3]);
    let g = group::default_params();
    assert_eq!(g.get_string("shape", ""), "box");
    assert_eq!(g.get_string("group", ""), "group1");
    assert_eq!(g.get_int("domain", 0), 2);
    let d = delete::default_params();
    assert_eq!(d.values.len(), 9);
    assert!(!d.get_bool("invert", true));
    assert_eq!(selection_shape_params().len(), 7);
    assert_eq!(lobedo_core::nodes::file::default_params().get_string("path", ""), "C:\\code\\lobedo\\geo\\pig.obj");
    assert!(merge::default_params().values.is_empty());
}
