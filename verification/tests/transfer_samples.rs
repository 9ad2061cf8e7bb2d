use lobedo_core::attributes::AttributeRef;
use lobedo_core::nodes::attribute_transfer::{append_samples, AttributeSamples};
use lobedo_core::text_map::TextMap;

fn positions(n: u32) -> Vec<[u32; 3]> {
    (0..n).map(|i| [i, 0, 0]).collect()
}

#[test]
fn samples_start_then_grow() {
    let mut samples: TextMap<AttributeSamples> = TextMap::new();
    let p = positions(2);
    append_samples(&mut samples, "w", &p, AttributeRef::Int(&[5, 6]));
    append_samples(&mut samples, "w", &positions(1), AttributeRef::Int(&[7]));
    match samples.get("w") {
        Some(AttributeSamples::Int { positions, values }) => {
            assert_eq!(values, &vec![5, 6, 7]);
            assert_eq!(positions.len(), 3);
            assert_eq!(positions[2], [0, 0, 0]);
        },
        other => panic!("unexpected samples {:?}", other),
    }
}

#[test]
fn samples_skip_mismatched_lengths_and_types() {
    let mut samples: TextMap<AttributeSamples> = TextMap::new();
    append_samples(&mut samples, "w", &positions(2), AttributeRef::Int(&[1]));
    assert!(samples.get("w").is_none());
    append_samples(&mut samples, "w", &[], AttributeRef::Int(&[]));
    assert!(samples.get("w").is_none());
    append_samples(&mut samples, "w", &positions(1), AttributeRef::Float(&[0x3f80_0000]));
    append_samples(&mut samples, "w", &positions(1), AttributeRef::Int(&[3]));
    match samples.get("w") {
        Some(AttributeSamples::Float { values, .. }) => assert_eq!(values, &vec![0x3f80_0000]),
        other => panic!("unexpected samples {:?}", other),
    }
}

use lobedo_core::attributes::AttributeDomain;
use lobedo_core::mesh::Mesh;
use lobedo_core::nodes::attribute_transfer::apply_transfer_to_mesh_with;
use lobedo_core::params::NodeParams;

fn tri() -> Mesh {
    Mesh::with_positions_indices(vec![[0, 0, 0], [1, 0, 0], [0, 1, 0]], vec![0, 1, 2])
}

fn f1(_k: usize, _i: usize, v: u32) -> u32 { v }
fn f3(_k: usize, _i: usize, v: [u32; 2]) -> [u32; 2] { v }
fn f5(_k: usize, _i: usize, v: [u32; 4]) -> [u32; 4] { v }

#[test]
fn transfer_writes_combined_values_where_selected() {
    let mut samples: TextMap<AttributeSamples> = TextMap::new();
    samples.insert("w".to_string(), AttributeSamples::Int { positions: vec![[0, 0, 0]], values: vec![5] });
    let mut mesh = tri();
    let f2 = |_k: usize, i: usize, _v: i32| 5 + i as i32;
    let f4 = |_k: usize, _i: usize, v: [u32; 3]| v;
    let r = apply_transfer_to_mesh_with(&NodeParams::new(), &samples, AttributeDomain::Point, &mut mesh, &f1, &f2, &f3, &f4, &f5);
    assert_eq!(r, Ok(false));
    match mesh.attribute(AttributeDomain::Point, "w") {
        Some(AttributeRef::Int(values)) => assert_eq!(values, &[5, 6, 7]),
        _ => panic!("attribute missing"),
    }
}

#[test]
fn transfer_of_positions_asks_for_normals() {
    let mut samples: TextMap<AttributeSamples> = TextMap::new();
    samples.insert("P".to_string(), AttributeSamples::Vec3 { positions: vec![[0, 0, 0]], values: vec![[9, 9, 9]] });
    let mut mesh = tri();
    let f2 = |_k: usize, _i: usize, v: i32| v;
    let f4 = |_k: usize, _i: usize, _v: [u32; 3]| [9, 9, 9];
    let r = apply_transfer_to_mesh_with(&NodeParams::new(), &samples, AttributeDomain::Point, &mut mesh, &f1, &f2, &f3, &f4, &f5);
    assert_eq!(r, Ok(true));
    assert_eq!(mesh.positions[1], [9, 9, 9]);
}

#[test]
fn transfer_refused_type_is_error() {
    let mut samples: TextMap<AttributeSamples> = TextMap::new();
    samples.insert("P".to_string(), AttributeSamples::Int { positions: vec![[0, 0, 0]], values: vec![1] });
    let mut mesh = tri();
    let f2 = |_k: usize, _i: usize, v: i32| v;
    let f4 = |_k: usize, _i: usize, v: [u32; 3]| v;
    let r = apply_transfer_to_mesh_with(&NodeParams::new(), &samples, AttributeDomain::Point, &mut mesh, &f1, &f2, &f3, &f4, &f5);
    assert!(r.unwrap_err().starts_with("Attribute Transfer error: "));
    assert_eq!(mesh.positions[1], [1, 0, 0]);
}

#[test]
fn transfer_without_samples_changes_nothing() {
    let samples: TextMap<AttributeSamples> = TextMap::new();
    let mut mesh = tri();
    let f2 = |_k: usize, _i: usize, v: i32| v;
    let f4 = |_k: usize, _i: usize, _v: [u32; 3]| [7, 7, 7];
    let r = apply_transfer_to_mesh_with(&NodeParams::new(), &samples, AttributeDomain::Point, &mut mesh, &f1, &f2, &f3, &f4, &f5);
    assert_eq!(r, Ok(false));
    assert_eq!(mesh.positions[0], [0, 0, 0]);
}
