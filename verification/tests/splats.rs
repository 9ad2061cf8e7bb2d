use lobedo_core::attributes::{AttributeDomain, AttributeRef, AttributeStorage};
use lobedo_core::nodes::attribute_noise::apply_to_splats_with;
use lobedo_core::nodes::attribute_transfer::{apply_transfer_to_splats_with, AttributeSamples};
use lobedo_core::params::{NodeParams, ParamValue};
use lobedo_core::splat::{existing_float_attr_splats, existing_int_attr_splats, splat_group_mask, SplatGeo};
use lobedo_core::text_map::TextMap;

fn params(entries: &[(&str, ParamValue)]) -> NodeParams {
    let mut p = NodeParams::new();
    for (k, v) in entries {
        p.store(k.to_string(), v.clone());
    }
    p
}

fn three() -> SplatGeo {
    let mut s = SplatGeo::new();
    s.positions = vec![[0, 0, 0], [1, 0, 0], [2, 0, 0]];
    s
}

#[test]
fn splat_attribute_round_trip() {
    let mut s = three();
    assert!(s.set_attribute(AttributeDomain::Point, "w".to_string(), AttributeStorage::Int(vec![4, 5, 6])).is_ok());
    assert_eq!(existing_int_attr_splats(&s, AttributeDomain::Point, "w", 3), vec![4, 5, 6]);
    assert_eq!(existing_int_attr_splats(&s, AttributeDomain::Point, "w", 2), vec![0, 0]);
    assert_eq!(existing_float_attr_splats(&s, AttributeDomain::Point, "w", 3), vec![0, 0, 0]);
    assert!(s.set_attribute(AttributeDomain::Point, "w".to_string(), AttributeStorage::Int(vec![1])).is_err());
    assert!(s.set_attribute(AttributeDomain::Primitive, "P".to_string(), AttributeStorage::Vec3(vec![[0, 0, 0]; 3])).is_err());
}

#[test]
fn splat_group_mask_uses_intrinsic_group() {
    let s = three();
    let p = params(&[("group", ParamValue::String("splats".to_string()))]);
    assert_eq!(splat_group_mask(&s, &p, AttributeDomain::Point), Some(vec![true, true, true]));
    assert_eq!(splat_group_mask(&s, &p, AttributeDomain::Detail), Some(vec![true]));
    assert_eq!(splat_group_mask(&s, &p, AttributeDomain::Vertex), Some(vec![]));
    let none = params(&[("group", ParamValue::String("  ".to_string()))]);
    assert_eq!(splat_group_mask(&s, &none, AttributeDomain::Point), None);
}

#[test]
fn splat_group_mask_named_group() {
    let mut s = three();
    s.groups.map_mut(AttributeDomain::Point).insert("sel".to_string(), vec![false, true, false]);
    let p = params(&[("group", ParamValue::String("sel".to_string()))]);
    assert_eq!(splat_group_mask(&s, &p, AttributeDomain::Point), Some(vec![false, true, false]));
}

#[test]
fn splat_noise_updates_masked_values() {
    let mut s = three();
    s.groups.map_mut(AttributeDomain::Point).insert("sel".to_string(), vec![false, true, true]);
    let p = params(&[
        ("attr", ParamValue::String("w".to_string())),
        ("data_type", ParamValue::Int(0)),
        ("group", ParamValue::String("sel".to_string())),
    ]);
    let r = apply_to_splats_with(&p, &mut s, |i: usize, v: u32| v + 10 * i as u32, |_i: usize, v: [u32; 2]| v, |_i: usize, v: [u32; 3]| v);
    assert_eq!(r, Ok(()));
    match s.attribute(AttributeDomain::Point, "w") {
        Some(AttributeRef::Float(values)) => assert_eq!(values, &[0, 10, 20]),
        _ => panic!("attribute missing"),
    }
}

#[test]
fn splat_noise_on_no_splats_does_nothing() {
    let mut s = SplatGeo::new();
    let r = apply_to_splats_with(&NodeParams::new(), &mut s, |_i: usize, v: u32| v, |_i: usize, v: [u32; 2]| v, |_i: usize, _v: [u32; 3]| [1, 1, 1]);
    assert_eq!(r, Ok(()));
    assert_eq!(s.positions.len(), 0);
}

fn f1(_k: usize, _i: usize, v: u32) -> u32 { v }
fn f3(_k: usize, _i: usize, v: [u32; 2]) -> [u32; 2] { v }
fn f4(_k: usize, _i: usize, v: [u32; 3]) -> [u32; 3] { v }
fn f5(_k: usize, _i: usize, v: [u32; 4]) -> [u32; 4] { v }

#[test]
fn splat_transfer_writes_values() {
    let mut samples: TextMap<AttributeSamples> = TextMap::new();
    samples.insert("w".to_string(), AttributeSamples::Int { positions: vec![[0, 0, 0]], values: vec![5] });
    let mut s = three();
    let f2 = |_k: usize, i: usize, _v: i32| 5 + i as i32;
    let r = apply_transfer_to_splats_with(&NodeParams::new(), &samples, AttributeDomain::Point, &mut s, &f1, &f2, &f3, &f4, &f5);
    assert_eq!(r, Ok(()));
    assert_eq!(existing_int_attr_splats(&s, AttributeDomain::Point, "w", 3), vec![5, 6, 7]);
}

#[test]
fn splat_transfer_skips_corner_domain() {
    let mut samples: TextMap<AttributeSamples> = TextMap::new();
    samples.insert("w".to_string(), AttributeSamples::Int { positions: vec![[0, 0, 0]], values: vec![5] });
    let mut s = three();
    let f2 = |_k: usize, _i: usize, _v: i32| 9;
    let r = apply_transfer_to_splats_with(&NodeParams::new(), &samples, AttributeDomain::Vertex, &mut s, &f1, &f2, &f3, &f4, &f5);
    assert_eq!(r, Ok(()));
    assert!(s.attribute(AttributeDomain::Vertex, "w").is_none());
}

#[test]
fn splat_transfer_refused_type_is_error() {
    let mut samples: TextMap<AttributeSamples> = TextMap::new();
    samples.insert("P".to_string(), AttributeSamples::Int { positions: vec![[0, 0, 0]], values: vec![1] });
    let mut s = three();
    let f2 = |_k: usize, _i: usize, v: i32| v;
    let r = apply_transfer_to_splats_with(&NodeParams::new(), &samples, AttributeDomain::Point, &mut s, &f1, &f2, &f3, &f4, &f5);
    assert!(r.unwrap_err().starts_with("Attribute Transfer error: "));
}
