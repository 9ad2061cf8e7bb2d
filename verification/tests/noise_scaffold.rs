use lobedo_core::attributes::{AttributeDomain, AttributeRef};
use lobedo_core::mesh::Mesh;
use lobedo_core::nodes::attribute_noise::apply_to_mesh_with;
use lobedo_core::params::{NodeParams, ParamValue};

fn params(entries: &[(&str, ParamValue)]) -> NodeParams {
    let mut p = NodeParams::new();
    for (k, v) in entries {
        p.store(k.to_string(), v.clone());
    }
    p
}

fn tri() -> Mesh {
    Mesh::with_positions_indices(vec![[0, 0, 0], [1, 0, 0], [0, 1, 0]], vec![0, 1, 2])
}

#[test]
fn noise_fills_new_float_attribute_by_index() {
    let mut mesh = tri();
    let p = params(&[("attr", ParamValue::String("w".to_string())), ("data_type", ParamValue::Int(0))]);
    let r = apply_to_mesh_with(&p, &mut mesh, |i: usize, v: u32| v + i as u32 + 1, |_i: usize, v: [u32; 2]| v, |_i: usize, v: [u32; 3]| v);
    assert_eq!(r, Ok(false));
    match mesh.attribute(AttributeDomain::Point, "w") {
        Some(AttributeRef::Float(values)) => assert_eq!(values, &[1, 2, 3]),
        _ => panic!("attribute missing"),
    }
}

#[test]
fn noise_on_positions_asks_for_normals() {
    let mut mesh = tri();
    let p = NodeParams::new();
    let r = apply_to_mesh_with(&p, &mut mesh, |_i: usize, v: u32| v, |_i: usize, v: [u32; 2]| v, |_i: usize, v: [u32; 3]| [v[0], v[1], 7]);
    assert_eq!(r, Ok(true));
    assert_eq!(mesh.positions[2], [0, 1, 7]);
}

#[test]
fn noise_skips_empty_domain() {
    let mut mesh = Mesh::new();
    let p = NodeParams::new();
    let r = apply_to_mesh_with(&p, &mut mesh, |_i: usize, v: u32| v, |_i: usize, v: [u32; 2]| v, |_i: usize, v: [u32; 3]| [1, 1, 1]);
    assert_eq!(r, Ok(false));
    assert_eq!(mesh.positions.len(), 0);
}

#[test]
fn noise_refused_type_is_error() {
    let mut mesh = tri();
    let p = params(&[("data_type", ParamValue::Int(0))]);
    let r = apply_to_mesh_with(&p, &mut mesh, |_i: usize, v: u32| v, |_i: usize, v: [u32; 2]| v, |_i: usize, v: [u32; 3]| v);
    assert!(r.unwrap_err().starts_with("Attribute Noise error: "));
}
