use lobedo_core::attributes::{AttributeDomain, AttributeStorage};
use lobedo_core::splat::SplatGeo;
use lobedo_core::splat_merge::merge_splats;

fn bits(v: [f32; 3]) -> [u32; 3] {
    [v[0].to_bits(), v[1].to_bits(), v[2].to_bits()]
}

fn with_len(n: usize) -> SplatGeo {
    let mut s = SplatGeo::new();
    s.positions = vec![[0, 0, 0]; n];
    s.rotations = vec![[0, 0, 0, 1.0f32.to_bits()]; n];
    s.scales = vec![[0, 0, 0]; n];
    s.opacity = vec![0; n];
    s.sh0 = vec![[0, 0, 0]; n];
    s
}

fn with_len_and_sh(n: usize, coeffs: usize) -> SplatGeo {
    let mut s = with_len(n);
    s.sh_coeffs = coeffs;
    s.sh_rest = vec![[0, 0, 0]; n * coeffs];
    s
}

#[test]
fn merge_splats_concatenates() {
    let mut a = with_len(1);
    a.positions[0] = bits([1.0, 2.0, 3.0]);
    let mut b = with_len(1);
    b.positions[0] = bits([4.0, 5.0, 6.0]);

    let merged = merge_splats(&[a, b]);
    assert_eq!(merged.positions.len(), 2);
    assert_eq!(merged.positions[0], bits([1.0, 2.0, 3.0]));
    assert_eq!(merged.positions[1], bits([4.0, 5.0, 6.0]));
}

#[test]
fn merge_splats_pads_sh_coeffs() {
    let mut a = with_len_and_sh(1, 3);
    a.sh_rest[0] = bits([1.0, 2.0, 3.0]);
    let b = with_len(1);

    let merged = merge_splats(&[a, b]);
    assert_eq!(merged.sh_coeffs, 3);
    assert_eq!(merged.sh_rest.len(), 2 * 3);
    assert_eq!(merged.sh_rest[0], bits([1.0, 2.0, 3.0]));
    assert_eq!(merged.sh_rest[3], bits([0.0, 0.0, 0.0]));
}

#[test]
fn merge_splats_pads_each_splat_row() {
    let mut a = with_len_and_sh(2, 1);
    a.sh_rest = vec![[1, 1, 1], [2, 2, 2]];
    let mut b = with_len_and_sh(1, 2);
    b.sh_rest = vec![[3, 3, 3], [4, 4, 4]];
    let merged = merge_splats(&[a, b]);
    assert_eq!(merged.sh_coeffs, 2);
    assert_eq!(merged.sh_rest, vec![[1, 1, 1], [0, 0, 0], [2, 2, 2], [0, 0, 0], [3, 3, 3], [4, 4, 4]]);
    assert_eq!(merged.opacity.len(), 3);
}

#[test]
fn merge_splats_without_coefficients_has_none() {
    let merged = merge_splats(&[with_len(2), with_len(1)]);
    assert_eq!(merged.sh_coeffs, 0);
    assert!(merged.sh_rest.is_empty());
    assert_eq!(merged.rotations.len(), 3);
    let empty = merge_splats(&[]);
    assert_eq!(empty.positions.len(), 0);
}

#[test]
fn merge_splats_keeps_shared_attributes_and_groups() {
    let mut a = with_len(2);
    a.attributes.map_mut(AttributeDomain::Point).insert("w".to_string(), AttributeStorage::Int(vec![1, 2]));
    a.attributes.map_mut(AttributeDomain::Point).insert("only_a".to_string(), AttributeStorage::Int(vec![1, 2]));
    a.attributes.map_mut(AttributeDomain::Detail).insert("d".to_string(), AttributeStorage::Int(vec![7]));
    a.groups.map_mut(AttributeDomain::Point).insert("g".to_string(), vec![true, false]);
    let mut b = with_len(1);
    b.attributes.map_mut(AttributeDomain::Point).insert("w".to_string(), AttributeStorage::Int(vec![3]));
    b.attributes.map_mut(AttributeDomain::Detail).insert("d".to_string(), AttributeStorage::Int(vec![8]));
    b.groups.map_mut(AttributeDomain::Primitive).insert("h".to_string(), vec![true]);

    let merged = merge_splats(&[a, b]);
    match merged.attributes.get(AttributeDomain::Point, "w") {
        Some(AttributeStorage::Int(v)) => assert_eq!(v, &vec![1, 2, 3]),
        _ => panic!("w kept"),
    }
    assert!(merged.attributes.get(AttributeDomain::Point, "only_a").is_none());
    assert!(merged.attributes.get(AttributeDomain::Detail, "d").is_none());
    assert_eq!(merged.groups.map(AttributeDomain::Point).get("g"), Some(&vec![true, false, false]));
    assert_eq!(merged.groups.map(AttributeDomain::Primitive).get("h"), Some(&vec![false, false, true]));
}

#[test]
fn merge_splats_of_one_set_gives_it_back() {
    let mut a = with_len_and_sh(2, 1);
    a.positions = vec![[1, 2, 3], [4, 5, 6]];
    a.sh_rest = vec![[7, 7, 7], [8, 8, 8]];
    a.attributes.map_mut(AttributeDomain::Primitive).insert("w".to_string(), AttributeStorage::Int(vec![5, 6]));
    let merged = merge_splats(&[a]);
    assert_eq!(merged.positions, vec![[1, 2, 3], [4, 5, 6]]);
    assert_eq!(merged.sh_coeffs, 1);
    assert_eq!(merged.sh_rest, vec![[7, 7, 7], [8, 8, 8]]);
    match merged.attributes.get(AttributeDomain::Primitive, "w") {
        Some(AttributeStorage::Int(v)) => assert_eq!(v, &vec![5, 6]),
        _ => panic!("w kept"),
    }
}
