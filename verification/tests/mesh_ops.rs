use lobedo_core::attributes::{AttributeDomain, AttributeError, AttributeRef, AttributeStorage, AttributeType};
use lobedo_core::nodes::attribute_promote::{promote_plan, promote_step};
use lobedo_core::nodes::attribute_math::{build_attribute_math_storage, int_math_values, math_error_text, math_settings};
use lobedo_core::mesh::Mesh;
use lobedo_core::nodes::attribute_utils::{
    existing_float_attr_mesh, existing_int_attr_mesh, existing_vec2_attr_mesh, existing_vec3_attr_mesh, existing_vec4_attr_mesh,
};
use lobedo_core::mesh_copy::copy_mesh;
use lobedo_core::nodes::delete;
use lobedo_core::nodes::group_expand;
use lobedo_core::nodes::merge;
use lobedo_core::nodes::require_mesh_input;
use lobedo_core::params::{NodeParams, ParamValue};

fn params(entries: &[(&str, ParamValue)]) -> NodeParams {
    let mut p = NodeParams::new();
    for (k, v) in entries {
        p.store(k.to_string(), v.clone());
    }
    p
}

fn text(s: &str) -> ParamValue {
    ParamValue::String(s.to_string())
}

fn triangle(offset: u32) -> Mesh {
    Mesh::with_positions_indices(vec![[offset, 0, 0], [offset + 1, 0, 0], [offset + 2, 0, 0]], vec![0, 1, 2])
}

/// Two triangles sharing the edge between points 1 and 2.
fn two_triangles() -> Mesh {
    Mesh::with_positions_indices(vec![[0, 0, 0], [1, 0, 0], [2, 0, 0], [3, 0, 0]], vec![0, 1, 2, 2, 1, 3])
}

fn int_values(mesh: &Mesh, domain: AttributeDomain, name: &str) -> Option<Vec<i32>> {
    match mesh.attributes.get(domain, name) {
        Some(AttributeStorage::Int(v)) => Some(v.clone()),
        _ => None,
    }
}

fn group(mesh: &Mesh, domain: AttributeDomain, name: &str) -> Option<Vec<bool>> {
    mesh.groups.map(domain).get(name).cloned()
}

#[test]
fn merge_concatenates_points_and_shifts_corners() {
    let a = triangle(0);
    let b = triangle(10);
    let merged = Mesh::merge(&[a, b]);
    assert_eq!(merged.positions.len(), 6);
    assert_eq!(merged.positions[3], [10, 0, 0]);
    assert_eq!(merged.indices, vec![0, 1, 2, 3, 4, 5]);
    assert!(merged.normals.is_none());
}

#[test]
fn merge_keeps_channels_only_when_all_have_them() {
    let mut a = triangle(0);
    let mut b = triangle(5);
    a.normals = Some(vec![[1, 1, 1]; 3]);
    b.normals = Some(vec![[2, 2, 2]; 3]);
    a.uvs = Some(vec![[0, 0]; 3]);
    let merged = Mesh::merge(&[a, b]);
    assert_eq!(merged.normals, Some(vec![[1, 1, 1], [1, 1, 1], [1, 1, 1], [2, 2, 2], [2, 2, 2], [2, 2, 2]]));
    assert!(merged.uvs.is_none());
}

#[test]
fn merge_combines_attributes_by_name_and_type() {
    let mut a = triangle(0);
    let mut b = triangle(5);
    a.set_attribute(AttributeDomain::Point, "id".to_string(), AttributeStorage::Int(vec![1, 2, 3])).unwrap();
    b.set_attribute(AttributeDomain::Point, "id".to_string(), AttributeStorage::Int(vec![4, 5, 6])).unwrap();
    a.set_attribute(AttributeDomain::Point, "only_a".to_string(), AttributeStorage::Int(vec![0, 0, 0])).unwrap();
    a.set_attribute(AttributeDomain::Point, "mixed".to_string(), AttributeStorage::Int(vec![0, 0, 0])).unwrap();
    b.set_attribute(AttributeDomain::Point, "mixed".to_string(), AttributeStorage::Float(vec![0, 0, 0])).unwrap();
    let merged = Mesh::merge(&[a, b]);
    assert_eq!(int_values(&merged, AttributeDomain::Point, "id"), Some(vec![1, 2, 3, 4, 5, 6]));
    assert!(merged.attributes.get(AttributeDomain::Point, "only_a").is_none());
    assert!(merged.attributes.get(AttributeDomain::Point, "mixed").is_none());
}

#[test]
fn merge_keeps_detail_values_that_compare_equal_as_floats() {
    let zero = 0.0f32.to_bits();
    let negative_zero = (-0.0f32).to_bits();
    let nan = f32::NAN.to_bits();
    let mut a = triangle(0);
    let mut b = triangle(5);
    a.set_attribute(AttributeDomain::Detail, "z".to_string(), AttributeStorage::Float(vec![zero])).unwrap();
    b.set_attribute(AttributeDomain::Detail, "z".to_string(), AttributeStorage::Float(vec![negative_zero])).unwrap();
    a.set_attribute(AttributeDomain::Detail, "n".to_string(), AttributeStorage::Float(vec![nan])).unwrap();
    b.set_attribute(AttributeDomain::Detail, "n".to_string(), AttributeStorage::Float(vec![nan])).unwrap();
    a.set_attribute(AttributeDomain::Detail, "k".to_string(), AttributeStorage::Int(vec![7])).unwrap();
    b.set_attribute(AttributeDomain::Detail, "k".to_string(), AttributeStorage::Int(vec![8])).unwrap();
    let merged = Mesh::merge(&[a, b]);
    match merged.attributes.get(AttributeDomain::Detail, "z") {
        Some(AttributeStorage::Float(v)) => assert_eq!(v, &vec![zero]),
        other => panic!("unexpected {:?}", other),
    }
    assert!(merged.attributes.get(AttributeDomain::Detail, "n").is_none());
    assert!(merged.attributes.get(AttributeDomain::Detail, "k").is_none());
}

#[test]
fn merge_fills_missing_groups_with_false() {
    let mut a = triangle(0);
    let b = triangle(5);
    a.groups.map_mut(AttributeDomain::Point).insert("g".to_string(), vec![true, false, true]);
    let merged = Mesh::merge(&[a, b]);
    assert_eq!(group(&merged, AttributeDomain::Point, "g"), Some(vec![true, false, true, false, false, false]));
}

#[test]
fn merging_one_mesh_gives_it_back() {
    let mut a = two_triangles();
    a.set_attribute(AttributeDomain::Primitive, "p".to_string(), AttributeStorage::Int(vec![3, 4])).unwrap();
    let merged = Mesh::merge(&[copy_mesh(&a)]);
    assert_eq!(merged.positions, a.positions);
    assert_eq!(merged.indices, a.indices);
    assert_eq!(int_values(&merged, AttributeDomain::Primitive, "p"), Some(vec![3, 4]));
}

#[test]
fn merge_node_needs_an_input() {
    let p = NodeParams::new();
    assert_eq!(merge::compute(&p, &[]).err(), Some("Merge requires at least one mesh input".to_string()));
    let out = merge::compute(&p, &[triangle(0), triangle(1)]).unwrap();
    assert_eq!(out.indices, vec![0, 1, 2, 3, 4, 5]);
}

#[test]
fn required_inputs_are_copied() {
    let mut a = triangle(0);
    a.set_attribute(AttributeDomain::Point, "id".to_string(), AttributeStorage::Int(vec![1, 2, 3])).unwrap();
    let inputs = vec![a];
    let copy = require_mesh_input(&inputs, 0, "missing").unwrap();
    assert_eq!(copy.positions, inputs[0].positions);
    assert_eq!(int_values(&copy, AttributeDomain::Point, "id"), Some(vec![1, 2, 3]));
    assert_eq!(require_mesh_input(&inputs, 1, "missing").err(), Some("missing".to_string()));
}

#[test]
fn group_expand_grows_point_groups() {
    let mut mesh = two_triangles();
    mesh.groups.map_mut(AttributeDomain::Point).insert("sel".to_string(), vec![true, false, false, false]);
    let p = params(&[("group", text(" sel ")), ("group_type", ParamValue::Int(2)), ("out_group", text("grown"))]);
    let out = group_expand::compute(&p, &[mesh]).unwrap();
    assert_eq!(group(&out, AttributeDomain::Point, "grown"), Some(vec![true, true, true, false]));
    assert_eq!(group(&out, AttributeDomain::Point, "sel"), Some(vec![true, false, false, false]));
}

#[test]
fn group_expand_contracts_and_iterates() {
    let mut mesh = two_triangles();
    mesh.groups.map_mut(AttributeDomain::Point).insert("sel".to_string(), vec![true, false, false, false]);
    let twice = params(&[("group", text("sel")), ("group_type", ParamValue::Int(2)), ("iterations", ParamValue::Int(2))]);
    let mut grown = copy_mesh(&mesh);
    assert_eq!(group_expand::apply_to_mesh(&twice, &mut grown), Ok(()));
    assert_eq!(group(&grown, AttributeDomain::Point, "sel"), Some(vec![true, true, true, true]));

    mesh.groups.map_mut(AttributeDomain::Point).insert("all".to_string(), vec![true, true, true, false]);
    let shrink = params(&[("group", text("all")), ("group_type", ParamValue::Int(2)), ("expand_mode", ParamValue::Int(1))]);
    assert_eq!(group_expand::apply_to_mesh(&shrink, &mut mesh), Ok(()));
    assert_eq!(group(&mesh, AttributeDomain::Point, "all"), Some(vec![true, false, false, false]));
}

#[test]
fn group_expand_errors() {
    let mesh = two_triangles();
    let p = params(&[("group", text("  "))]);
    assert_eq!(group_expand::compute(&p, &[]).err(), Some("Group Expand requires a mesh input".to_string()));
    let mut m = copy_mesh(&mesh);
    assert_eq!(group_expand::apply_to_mesh(&p, &mut m).err(), Some("Group Expand requires a group name".to_string()));
    let pattern = params(&[("group", text("a b"))]);
    assert_eq!(
        group_expand::apply_to_mesh(&pattern, &mut m).err(),
        Some("Group Expand requires an output group name when using group patterns".to_string())
    );
    let only_commas = params(&[("group", text(",")), ("out_group", text("x"))]);
    assert_eq!(group_expand::apply_to_mesh(&only_commas, &mut m).err(), Some("Group Expand requires an existing group".to_string()));
}

#[test]
fn delete_drops_triangles_touching_deleted_points() {
    let mut mesh = two_triangles();
    mesh.set_attribute(AttributeDomain::Point, "id".to_string(), AttributeStorage::Int(vec![10, 11, 12, 13])).unwrap();
    mesh.set_attribute(AttributeDomain::Primitive, "prim".to_string(), AttributeStorage::Int(vec![7, 8])).unwrap();
    mesh.set_attribute(AttributeDomain::Vertex, "corner".to_string(), AttributeStorage::Int(vec![0, 1, 2, 3, 4, 5])).unwrap();
    mesh.set_attribute(AttributeDomain::Detail, "d".to_string(), AttributeStorage::Int(vec![9])).unwrap();
    let p = NodeParams::new();
    let out = delete::compute(&p, &[mesh], &[true, false, false, false]).unwrap();
    assert_eq!(out.positions, vec![[1, 0, 0], [2, 0, 0], [3, 0, 0]]);
    assert_eq!(out.indices, vec![1, 0, 2]);
    assert_eq!(int_values(&out, AttributeDomain::Point, "id"), Some(vec![11, 12, 13]));
    assert_eq!(int_values(&out, AttributeDomain::Primitive, "prim"), Some(vec![8]));
    assert_eq!(int_values(&out, AttributeDomain::Vertex, "corner"), Some(vec![3, 4, 5]));
    assert_eq!(int_values(&out, AttributeDomain::Detail, "d"), Some(vec![9]));
}

#[test]
fn delete_inverted_and_group_limited() {
    let mut mesh = two_triangles();
    mesh.groups.map_mut(AttributeDomain::Point).insert("g".to_string(), vec![false, true, true, true]);
    let inverted = params(&[("invert", ParamValue::Bool(true))]);
    let out = delete::delete_mesh(&inverted, &mesh, &[true, true, true, false]);
    assert_eq!(out.indices, vec![0, 1, 2]);
    assert_eq!(out.positions.len(), 3);

    let limited = params(&[("group", text("g")), ("group_type", ParamValue::Int(2))]);
    let out = delete::delete_mesh(&limited, &mesh, &[true, false, false, false]);
    assert_eq!(out.indices, vec![0, 1, 2, 2, 1, 3]);
}

#[test]
fn delete_without_triangles_filters_points() {
    let mut cloud = Mesh::with_positions_indices(vec![[0, 0, 0], [1, 0, 0], [2, 0, 0]], Vec::new());
    cloud.normals = Some(vec![[5, 5, 5], [6, 6, 6], [7, 7, 7]]);
    cloud.set_attribute(AttributeDomain::Point, "id".to_string(), AttributeStorage::Int(vec![1, 2, 3])).unwrap();
    let p = NodeParams::new();
    let out = delete::delete_mesh(&p, &cloud, &[false, true, false]);
    assert_eq!(out.positions, vec![[0, 0, 0], [2, 0, 0]]);
    assert_eq!(out.normals, Some(vec![[5, 5, 5], [7, 7, 7]]));
    assert_eq!(int_values(&out, AttributeDomain::Point, "id"), Some(vec![1, 3]));
    assert!(out.indices.is_empty());
    assert_eq!(delete::compute(&p, &[], &[]).err(), Some("Delete requires a mesh input".to_string()));
}

#[test]
fn group_node_stores_inside_elements() {
    let mut mesh = two_triangles();
    mesh.groups.map_mut(AttributeDomain::Primitive).insert("base".to_string(), vec![true, false]);
    let p = params(&[("group", text(" picked ")), ("domain", ParamValue::Int(0))]);
    let out = lobedo_core::nodes::group::compute(&p, &[copy_mesh(&mesh)], &[true, false, true, false]).unwrap();
    assert_eq!(group(&out, AttributeDomain::Point, "picked"), Some(vec![true, false, true, false]));

    let by_base = params(&[("group", text("g")), ("shape", text("GROUP")), ("base_group", text("base")), ("invert", ParamValue::Bool(true))]);
    let out = lobedo_core::nodes::group::compute(&by_base, &[copy_mesh(&mesh)], &[false, false]).unwrap();
    assert_eq!(group(&out, AttributeDomain::Primitive, "g"), Some(vec![false, true]));

    let limited = params(&[("group", text("h")), ("base_group", text("base"))]);
    let out = lobedo_core::nodes::group::compute(&limited, &[copy_mesh(&mesh)], &[true, true]).unwrap();
    assert_eq!(group(&out, AttributeDomain::Primitive, "h"), Some(vec![true, false]));

    let unnamed = params(&[("group", text(" "))]);
    assert_eq!(lobedo_core::nodes::group::compute(&unnamed, &[mesh], &[false, false]).err(), Some("Group requires a group name".to_string()));
    assert_eq!(lobedo_core::nodes::group::compute(&unnamed, &[], &[]).err(), Some("Group requires a mesh input".to_string()));
}

#[test]
fn attribute_math_on_integers() {
    assert_eq!(int_math_values(&[1, 2, 3], None, None, 0, 10), vec![11, 12, 13]);
    assert_eq!(int_math_values(&[1, 2, 3], Some(&[7, 8, 9][..]), Some(&[true, false][..]), 2, 5), vec![5, 8, 9]);
    assert_eq!(int_math_values(&[1, 2, 3], Some(&[7, 8][..]), Some(&[false, true][..]), 3, 0), vec![1, 2, 3]);
    assert_eq!(int_math_values(&[i32::MAX, -7], None, None, 0, 1), vec![i32::MAX, -6]);
    assert_eq!(int_math_values(&[-7], None, None, 3, 2), vec![-3]);

    let values = [1u32, 2];
    let storage = build_attribute_math_storage(
        AttributeRef::Float(&values),
        None,
        Some(&[true, false][..]),
        0,
        0,
        |b: u32| b + 100,
        |v: [u32; 2]| v,
        |v: [u32; 3]| v,
        |v: [u32; 4]| v,
    );
    match storage {
        AttributeStorage::Float(v) => assert_eq!(v, vec![101, 2]),
        other => panic!("unexpected {:?}", other),
    }

    let p = params(&[("attr", text("w")), ("op", ParamValue::Int(9))]);
    let s = math_settings(&p);
    assert_eq!((s.attr.as_str(), s.result.as_str(), s.domain, s.op), ("w", "w", AttributeDomain::Point, 3));
    assert_eq!(
        math_error_text(AttributeError::InvalidLength { expected: 3, actual: 12 }),
        "Attribute Math error: InvalidLength { expected: 3, actual: 12 }"
    );
    assert_eq!(
        math_error_text(AttributeError::InvalidType { expected: AttributeType::Vec3, actual: AttributeType::Int }),
        format!("Attribute Math error: {:?}", AttributeError::InvalidType { expected: AttributeType::Vec3, actual: AttributeType::Int })
    );
    assert_eq!(math_error_text(AttributeError::InvalidDomain), "Attribute Math error: InvalidDomain");
}

#[test]
fn existing_attributes_or_zeros() {
    use_existing_attributes();
}

fn use_existing_attributes() {
    let mut mesh = triangle(0);
    mesh.set_attribute(AttributeDomain::Point, "id".to_string(), AttributeStorage::Int(vec![4, 5, 6])).unwrap();
    mesh.set_attribute(AttributeDomain::Point, "w".to_string(), AttributeStorage::Float(vec![9, 8, 7])).unwrap();
    assert_eq!(existing_int_attr_mesh(&mesh, AttributeDomain::Point, "id", 3), vec![4, 5, 6]);
    assert_eq!(existing_int_attr_mesh(&mesh, AttributeDomain::Point, "id", 2), vec![0, 0]);
    assert_eq!(existing_int_attr_mesh(&mesh, AttributeDomain::Point, "w", 0), vec![0]);
    assert_eq!(existing_float_attr_mesh(&mesh, AttributeDomain::Point, "w", 3), vec![9, 8, 7]);
    assert_eq!(existing_vec3_attr_mesh(&mesh, AttributeDomain::Point, "P", 3), mesh.positions);
    assert_eq!(existing_vec2_attr_mesh(&mesh, AttributeDomain::Vertex, "uv", 3), vec![[0, 0]; 3]);
    assert_eq!(existing_vec4_attr_mesh(&mesh, AttributeDomain::Detail, "Cd", 1), vec![[0, 0, 0, 0]]);
}

#[test]
fn attribute_promote_plans_and_steps() {
    let mut mesh = two_triangles();
    mesh.set_attribute(AttributeDomain::Point, "id".to_string(), AttributeStorage::Int(vec![1, 2, 3, 4])).unwrap();
    mesh.set_attribute(AttributeDomain::Point, "idx".to_string(), AttributeStorage::Int(vec![0, 0, 0, 0])).unwrap();
    let same = params(&[("attr", text("id")), ("source_domain", ParamValue::Int(2))]);
    assert_eq!(promote_plan(&same, &mesh).err(), Some("Attribute Promote requires different source/target classes".to_string()));
    let none = params(&[("attr", text("missing*"))]);
    assert_eq!(promote_plan(&none, &mesh).err(), Some("Attribute Promote requires an attribute name".to_string()));

    let p = params(&[("attr", text("id*")), ("rename", ParamValue::Bool(true)), ("new_name", text("p_*")), ("delete_original", ParamValue::Bool(true))]);
    let plan = promote_plan(&p, &mesh).unwrap().unwrap();
    assert_eq!(plan.names, vec!["id".to_string(), "idx".to_string()]);
    assert_eq!(plan.out_names, vec!["p_id".to_string(), "p_idx".to_string()]);
    assert_eq!(plan.mapping, vec![vec![0, 1, 2], vec![2, 1, 3]]);
    assert_eq!(promote_step(&mut mesh, &plan, 0, AttributeStorage::Int(vec![3, 4])), Ok(()));
    assert_eq!(int_values(&mesh, AttributeDomain::Primitive, "p_id"), Some(vec![3, 4]));
    assert!(mesh.attributes.get(AttributeDomain::Point, "id").is_none());
    assert_eq!(
        promote_step(&mut mesh, &plan, 1, AttributeStorage::Int(vec![1, 2, 3])),
        Err(AttributeError::InvalidLength { expected: 2, actual: 3 })
    );
    assert!(mesh.attributes.get(AttributeDomain::Point, "idx").is_some());

    let mut cloud = Mesh::with_positions_indices(vec![[0, 0, 0]], Vec::new());
    cloud.set_attribute(AttributeDomain::Point, "id".to_string(), AttributeStorage::Int(vec![1])).unwrap();
    let q = params(&[("attr", text("id"))]);
    assert!(promote_plan(&q, &cloud).unwrap().is_none());
}

#[test]
fn merge_offsets_indices() {
    let mesh_a = Mesh::with_positions_indices(vec![[0.0f32.to_bits(); 3]], vec![0]);
    let mesh_b = Mesh::with_positions_indices(vec![[1.0f32.to_bits(), 0.0f32.to_bits(), 0.0f32.to_bits()]], vec![0]);
    let merged = Mesh::merge(&[mesh_a, mesh_b]);
    assert_eq!(merged.indices, vec![0, 1]);
}

#[test]
fn group_box_includes_primitives() {
    let h = 1.0f32.to_bits();
    let l = (-1.0f32).to_bits();
    let positions = vec![[l, l, l], [h, l, l], [h, h, l], [l, h, l], [l, l, h], [h, l, h], [h, h, h], [l, h, h]];
    let indices = vec![0, 3, 2, 1, 4, 5, 6, 7, 0, 1, 5, 4, 3, 7, 6, 2, 1, 2, 6, 5, 0, 4, 7, 3];
    let mut mesh = Mesh::with_positions_indices(positions, indices);
    let params = params(&[
        ("group", text("keep")),
        ("domain", ParamValue::Int(2)),
        ("shape", text("box")),
        ("center", ParamValue::Vec3([0, 0, 0])),
        ("size", ParamValue::Vec3([10.0f32.to_bits(); 3])),
    ]);
    // Every element's centre lies within the 10-unit box around the origin.
    let inside = vec![true; mesh.attribute_domain_len(AttributeDomain::Primitive)];
    lobedo_core::nodes::group::apply_to_mesh(&params, &mut mesh, &inside).expect("group");
    let group = mesh.groups.map(AttributeDomain::Primitive).get("keep").unwrap();
    let count = group.iter().filter(|v| **v).count();
    assert_eq!(count, mesh.indices.len() / 3);
}
