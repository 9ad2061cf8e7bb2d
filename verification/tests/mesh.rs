use lobedo_core::attributes::{AttributeDomain, AttributeError, AttributeRef, AttributeStorage, AttributeType, MeshAttributes};
use lobedo_core::mesh::Mesh;

fn triangle() -> Mesh {
    let one = 1.0f32.to_bits();
    Mesh::with_positions_indices(vec![[0, 0, 0], [one, 0, 0], [0, one, 0]], vec![0, 1, 2])
}

#[test]
fn domain_lengths_follow_points_and_corners() {
    let mesh = triangle();
    assert_eq!(mesh.attribute_domain_len(AttributeDomain::Point), 3);
    assert_eq!(mesh.attribute_domain_len(AttributeDomain::Vertex), 3);
    assert_eq!(mesh.attribute_domain_len(AttributeDomain::Primitive), 1);
    assert_eq!(mesh.attribute_domain_len(AttributeDomain::Detail), 1);
}

#[test]
fn set_attribute_checks_lengths_and_types() {
    let mut mesh = triangle();
    assert_eq!(
        mesh.set_attribute(AttributeDomain::Point, "Cd".to_string(), AttributeStorage::Float(vec![0; 2])),
        Err(AttributeError::InvalidLength { expected: 3, actual: 2 })
    );
    assert_eq!(
        mesh.set_attribute(AttributeDomain::Point, "P".to_string(), AttributeStorage::Int(vec![1, 2, 3])),
        Err(AttributeError::InvalidType { expected: AttributeType::Vec3, actual: AttributeType::Int })
    );
    assert_eq!(
        mesh.set_attribute(AttributeDomain::Primitive, "P".to_string(), AttributeStorage::Vec3(vec![[0; 3]])),
        Err(AttributeError::InvalidDomain)
    );
    assert_eq!(mesh.set_attribute(AttributeDomain::Point, "id".to_string(), AttributeStorage::Int(vec![4, 5, 6])), Ok(()));
    match mesh.attribute(AttributeDomain::Point, "id") {
        Some(AttributeRef::Int(values)) => assert_eq!(values, &[4, 5, 6]),
        other => panic!("unexpected {:?}", other),
    }
    assert_eq!(mesh.set_attribute(AttributeDomain::Point, "N".to_string(), AttributeStorage::Vec3(vec![[1, 2, 3]; 3])), Ok(()));
    assert_eq!(mesh.normals, Some(vec![[1, 2, 3]; 3]));
}

#[test]
fn attributes_are_listed_with_intrinsic_ones_first() {
    let mut mesh = triangle();
    mesh.set_attribute(AttributeDomain::Detail, "name".to_string(), AttributeStorage::Int(vec![7])).unwrap();
    mesh.set_attribute(AttributeDomain::Vertex, "uv".to_string(), AttributeStorage::Vec2(vec![[0; 2]; 3])).unwrap();
    let list = mesh.list_attributes();
    let names: Vec<(&str, AttributeDomain, bool)> = list.iter().map(|i| (i.name.as_str(), i.domain, i.implicit)).collect();
    assert_eq!(
        names,
        vec![("P", AttributeDomain::Point, true), ("uv", AttributeDomain::Vertex, false), ("name", AttributeDomain::Detail, false)]
    );
    assert_eq!(list[1].data_type, AttributeType::Vec2);
    assert_eq!(list[1].len, 3);
}

#[test]
fn precedence_prefers_vertex_over_point() {
    let mut mesh = triangle();
    mesh.set_attribute(AttributeDomain::Point, "w".to_string(), AttributeStorage::Int(vec![1, 2, 3])).unwrap();
    mesh.set_attribute(AttributeDomain::Vertex, "w".to_string(), AttributeStorage::Int(vec![9, 9, 9])).unwrap();
    let (domain, values) = mesh.attribute_with_precedence("w").unwrap();
    assert_eq!(domain, AttributeDomain::Vertex);
    assert_eq!(values.len(), 3);
    let (domain, _) = mesh.attribute_with_precedence("P").unwrap();
    assert_eq!(domain, AttributeDomain::Point);
    assert!(mesh.attribute_with_precedence("missing").is_none());
}

#[test]
fn removing_attributes() {
    let mut mesh = triangle();
    mesh.set_attribute(AttributeDomain::Point, "id".to_string(), AttributeStorage::Int(vec![1, 2, 3])).unwrap();
    assert!(mesh.remove_attribute(AttributeDomain::Point, "P").is_none());
    assert_eq!(mesh.positions.len(), 3);
    match mesh.remove_attribute(AttributeDomain::Point, "id") {
        Some(AttributeStorage::Int(values)) => assert_eq!(values, vec![1, 2, 3]),
        other => panic!("unexpected {:?}", other),
    }
    assert!(mesh.attribute(AttributeDomain::Point, "id").is_none());
}

#[test]
fn storage_reports_length_and_type() {
    let s = AttributeStorage::Vec4(vec![[0; 4]; 5]);
    assert_eq!(s.len(), 5);
    assert!(!s.is_empty());
    assert_eq!(s.data_type(), AttributeType::Vec4);
    assert_eq!(s.as_ref().len(), 5);
    assert_eq!(s.as_ref().data_type(), AttributeType::Vec4);
    let mut attrs = MeshAttributes::default();
    attrs.map_mut(AttributeDomain::Primitive).insert("id".to_string(), AttributeStorage::Int(vec![]));
    assert!(attrs.get(AttributeDomain::Primitive, "id").unwrap().is_empty());
    assert!(attrs.get(AttributeDomain::Point, "id").is_none());
    assert!(attrs.remove(AttributeDomain::Primitive, "id").is_some());
    assert!(attrs.map(AttributeDomain::Primitive).is_empty());
}
