use lobedo_core::material::{Material, MaterialLibrary};

#[test]
fn materials_are_kept_by_name_in_order() {
    let mut lib = MaterialLibrary::default();
    assert!(lib.is_empty());
    lib.insert(Material::new("steel".to_string()));
    lib.insert(Material::new("brick".to_string()));
    let mut glass = Material::new("glass".to_string());
    glass.metallic = 0.25f32.to_bits();
    lib.insert(glass);
    assert!(!lib.is_empty());
    let names: Vec<&str> = lib.iter().iter().map(|m| m.name.as_str()).collect();
    assert_eq!(names, vec!["brick", "glass", "steel"]);
    assert_eq!(lib.get("glass").unwrap().metallic, 0.25f32.to_bits());
    assert!(lib.get("wood").is_none());
}

#[test]
fn new_materials_are_white_and_half_rough() {
    let m = Material::new("m".to_string());
    assert_eq!(m.base_color, [1.0f32.to_bits(); 3]);
    assert_eq!(m.metallic, 0.0f32.to_bits());
    assert_eq!(m.roughness, 0.5f32.to_bits());
    assert!(m.base_color_texture.is_none());
}

#[test]
fn merging_prefers_the_other_library() {
    let mut a = MaterialLibrary::default();
    a.insert(Material::new("x".to_string()));
    a.insert(Material::new("y".to_string()));
    let mut b = MaterialLibrary::default();
    let mut y = Material::new("y".to_string());
    y.base_color_texture = Some("tex.png".to_string());
    b.insert(y);
    b.insert(Material::new("z".to_string()));
    a.merge(&b);
    let names: Vec<&str> = a.iter().iter().map(|m| m.name.as_str()).collect();
    assert_eq!(names, vec!["x", "y", "z"]);
    assert_eq!(a.get("y").unwrap().base_color_texture.as_deref(), Some("tex.png"));
}

#[test]
fn inserting_a_name_again_replaces() {
    let mut lib = MaterialLibrary::default();
    lib.insert(Material::new("a".to_string()));
    let mut again = Material::new("a".to_string());
    again.roughness = 1.0f32.to_bits();
    lib.insert(again);
    assert_eq!(lib.iter().len(), 1);
    assert_eq!(lib.get("a").unwrap().roughness, 1.0f32.to_bits());
}
