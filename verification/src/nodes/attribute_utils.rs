//! Helpers shared by the attribute nodes.

use vstd::prelude::*;
use crate::attributes::{AttributeDomain, AttributeRef, views};
use crate::attribute_values::{StorageValues, copy_values};
use crate::mesh::{Mesh, gives_attribute};
use crate::groups::{space_words, split_words};
use crate::params::NodeParams;
use crate::text::{chars_of, string_from_chars};

verus! {

/// The domain selected by an integer parameter: the value is clamped to 0..=3,
/// which stand for point, vertex, primitive and detail.
pub open spec fn domain_of_index(i: i32) -> AttributeDomain {
    if i <= 0 {
        AttributeDomain::Point
    } else if i == 1 {
        AttributeDomain::Vertex
    } else if i == 2 {
        AttributeDomain::Primitive
    } else {
        AttributeDomain::Detail
    }
}

/// The domain chosen by an integer parameter, clamped to 0..=3.
pub fn domain_from_index(i: i32) -> (d: AttributeDomain)
    ensures
        d == domain_of_index(i),
{
    let c = if i < 0 { 0 } else if i > 3 { 3 } else { i };
    match c {
        0 => AttributeDomain::Point,
        1 => AttributeDomain::Vertex,
        2 => AttributeDomain::Primitive,
        _ => AttributeDomain::Detail,
    }
}

/// The domain named by the `domain` parameter (default 0, the point domain).
pub fn domain_from_params(params: &NodeParams) -> (d: AttributeDomain)
    requires
        params.values.wf(),
    ensures
        d == domain_of_index(params.int_or("domain"@, 0)),
{
    domain_from_index(params.get_int("domain", 0))
}

/// The attribute names or patterns of a list written with whitespace between them.
pub fn parse_attribute_list(value: &str) -> (names: Vec<String>)
    ensures
        names@.map_values(|n: String| n@) == space_words(value@),
{
    let chars = chars_of(value);
    let words = split_words(chars.as_slice(), false);
    let mut out: Vec<String> = Vec::new();
    let mut i: usize = 0;
    while i < words.len()
        invariant
            0 <= i <= words@.len(),
            words@.map_values(|w: Vec<char>| w@) == space_words(value@),
            out@.map_values(|n: String| n@) == words@.map_values(|w: Vec<char>| w@).take(i as int),
        decreases words@.len() - i,
    {
        let ghost before = out@.map_values(|n: String| n@);
        let name = string_from_chars(words[i].as_slice());
        out.push(name);
        assert(out@.map_values(|n: String| n@) =~= before.push(words@[i as int]@));
        assert(out@.map_values(|n: String| n@) =~= words@.map_values(|w: Vec<char>| w@).take(i + 1));
        i = i + 1;
    }
    assert(words@.map_values(|w: Vec<char>| w@).take(words@.len() as int) =~= words@.map_values(|w: Vec<char>| w@));
    out
}

/// The values a mesh holds for attribute `name` of `domain`: the positions for `P`
/// on points, the point or corner normals for `N` where present, otherwise the
/// attribute table's values, if any.
pub open spec fn attribute_values(m: Mesh, domain: AttributeDomain, name: Seq<char>) -> Option<StorageValues> {
    if name == "P"@ && domain == AttributeDomain::Point {
        Some(StorageValues::Vec3(m.positions@))
    } else if name == "N"@ && domain == AttributeDomain::Point {
        match m.normals {
            Some(v) => Some(StorageValues::Vec3(v@)),
            None => None,
        }
    } else if name == "N"@ && domain == AttributeDomain::Vertex {
        match m.corner_normals {
            Some(v) => Some(StorageValues::Vec3(v@)),
            None => None,
        }
    } else if m.attributes.table(domain)@.contains_key(name) {
        Some(crate::attribute_values::storage_values(m.attributes.table(domain)@[name]))
    } else {
        None
    }
}

/// The values viewed by an attribute reference.
pub open spec fn ref_values(r: AttributeRef) -> StorageValues {
    match r {
        AttributeRef::Float(v) => StorageValues::Float(v@),
        AttributeRef::Int(v) => StorageValues::Int(v@),
        AttributeRef::Vec2(v) => StorageValues::Vec2(v@),
        AttributeRef::Vec3(v) => StorageValues::Vec3(v@),
        AttributeRef::Vec4(v) => StorageValues::Vec4(v@),
    }
}

/// What `attribute` gives is what the mesh holds.
proof fn lemma_given_values(m: Mesh, domain: AttributeDomain, name: Seq<char>, x: AttributeRef)
    requires
        gives_attribute(m, domain, name, x),
    ensures
        attribute_values(m, domain, name) == Some(ref_values(x)),
{
    if !((name == "P"@ && domain == AttributeDomain::Point) || (name == "N"@ && domain == AttributeDomain::Point)
        || (name == "N"@ && domain == AttributeDomain::Vertex)) {
        assert(views(x, m.attributes.table(domain)@[name]));
    }
}

/// The integer values of attribute `name` where it holds `count` integers;
/// otherwise `count` zeros (at least one).
pub fn existing_int_attr_mesh(mesh: &Mesh, domain: AttributeDomain, name: &str, count: usize) -> (r: Vec<i32>)
    requires
        mesh.wf(),
    ensures
        r@ == (match attribute_values(*mesh, domain, name@) {
            Some(StorageValues::Int(v)) => if v.len() == count { v } else { Seq::new(if count > 0 { count as nat } else { 1 }, |i: int| 0i32) },
            _ => Seq::new(if count > 0 { count as nat } else { 1 }, |i: int| 0i32),
        }),
{
    match mesh.attribute(domain, name) {
        Some(x) => {
            proof {
                lemma_given_values(*mesh, domain, name@, x);
            }
            match x {
                AttributeRef::Int(values) => {
                    if values.len() == count {
                        return copy_values(values);
                    }
                },
                _ => {},
            }
        },
        None => {},
    }
    filled(if count > 0 { count } else { 1 }, 0i32)
}

/// The float values (bit patterns) of attribute `name` where it holds `count`
/// floats; otherwise `count` zeros (at least one).
pub fn existing_float_attr_mesh(mesh: &Mesh, domain: AttributeDomain, name: &str, count: usize) -> (r: Vec<u32>)
    requires
        mesh.wf(),
    ensures
        r@ == (match attribute_values(*mesh, domain, name@) {
            Some(StorageValues::Float(v)) => if v.len() == count { v } else { Seq::new(if count > 0 { count as nat } else { 1 }, |i: int| 0u32) },
            _ => Seq::new(if count > 0 { count as nat } else { 1 }, |i: int| 0u32),
        }),
{
    match mesh.attribute(domain, name) {
        Some(x) => {
            proof {
                lemma_given_values(*mesh, domain, name@, x);
            }
            match x {
                AttributeRef::Float(values) => {
                    if values.len() == count {
                        return copy_values(values);
                    }
                },
                _ => {},
            }
        },
        None => {},
    }
    filled(if count > 0 { count } else { 1 }, 0u32)
}

/// The pairs (bit patterns) of attribute `name` where it holds `count` pairs;
/// otherwise `count` zero pairs (at least one).
pub fn existing_vec2_attr_mesh(mesh: &Mesh, domain: AttributeDomain, name: &str, count: usize) -> (r: Vec<[u32; 2]>)
    requires
        mesh.wf(),
    ensures
        r@ == (match attribute_values(*mesh, domain, name@) {
            Some(StorageValues::Vec2(v)) => if v.len() == count { v } else { Seq::new(if count > 0 { count as nat } else { 1 }, |i: int| [0u32, 0u32]) },
            _ => Seq::new(if count > 0 { count as nat } else { 1 }, |i: int| [0u32, 0u32]),
        }),
{
    match mesh.attribute(domain, name) {
        Some(x) => {
            proof {
                lemma_given_values(*mesh, domain, name@, x);
            }
            match x {
                AttributeRef::Vec2(values) => {
                    if values.len() == count {
                        return copy_values(values);
                    }
                },
                _ => {},
            }
        },
        None => {},
    }
    filled(if count > 0 { count } else { 1 }, [0u32, 0u32])
}

/// The triples (bit patterns) of attribute `name` where it holds `count` triples;
/// otherwise `count` zero triples (at least one).
pub fn existing_vec3_attr_mesh(mesh: &Mesh, domain: AttributeDomain, name: &str, count: usize) -> (r: Vec<[u32; 3]>)
    requires
        mesh.wf(),
    ensures
        r@ == (match attribute_values(*mesh, domain, name@) {
            Some(StorageValues::Vec3(v)) => if v.len() == count { v } else { Seq::new(if count > 0 { count as nat } else { 1 }, |i: int| [0u32, 0u32, 0u32]) },
            _ => Seq::new(if count > 0 { count as nat } else { 1 }, |i: int| [0u32, 0u32, 0u32]),
        }),
{
    match mesh.attribute(domain, name) {
        Some(x) => {
            proof {
                lemma_given_values(*mesh, domain, name@, x);
            }
            match x {
                AttributeRef::Vec3(values) => {
                    if values.len() == count {
                        return copy_values(values);
                    }
                },
                _ => {},
            }
        },
        None => {},
    }
    filled(if count > 0 { count } else { 1 }, [0u32, 0u32, 0u32])
}

/// The quadruples (bit patterns) of attribute `name` where it holds `count`
/// quadruples; otherwise `count` zero quadruples (at least one).
pub fn existing_vec4_attr_mesh(mesh: &Mesh, domain: AttributeDomain, name: &str, count: usize) -> (r: Vec<[u32; 4]>)
    requires
        mesh.wf(),
    ensures
        r@ == (match attribute_values(*mesh, domain, name@) {
            Some(StorageValues::Vec4(v)) => if v.len() == count { v } else { Seq::new(if count > 0 { count as nat } else { 1 }, |i: int| [0u32, 0u32, 0u32, 0u32]) },
            _ => Seq::new(if count > 0 { count as nat } else { 1 }, |i: int| [0u32, 0u32, 0u32, 0u32]),
        }),
{
    match mesh.attribute(domain, name) {
        Some(x) => {
            proof {
                lemma_given_values(*mesh, domain, name@, x);
            }
            match x {
                AttributeRef::Vec4(values) => {
                    if values.len() == count {
                        return copy_values(values);
                    }
                },
                _ => {},
            }
        },
        None => {},
    }
    filled(if count > 0 { count } else { 1 }, [0u32, 0u32, 0u32, 0u32])
}

/// `n` copies of `v`.
pub fn filled<T: Copy>(n: usize, v: T) -> (r: Vec<T>)
    ensures
        r@ == Seq::new(n as nat, |i: int| v),
{
    let mut out: Vec<T> = Vec::new();
    let mut k: usize = 0;
    while k < n
        invariant
            0 <= k <= n,
            out@ == Seq::new(k as nat, |i: int| v),
        decreases n - k,
    {
        out.push(v);
        k = k + 1;
        proof {
            assert(out@ =~= Seq::new(k as nat, |i: int| v));
        }
    }
    out
}

} // verus!
