//! Attribute domains and types, attribute storage, and the attributes of a mesh
//! by domain and name. Float values are held as their IEEE-754 bit patterns.

use vstd::prelude::*;
use crate::text_map::TextMap;
use crate::assets::{decimal, decimal_chars};
use crate::attribute_values::extend_values;
use crate::text::{chars_of, string_from_chars};

verus! {

/// The element class that an attribute or a group is attached to.
#[derive(Debug, Clone, Copy, PartialEq, Eq, Hash, Structural)]
pub enum AttributeDomain {
    Point,
    Vertex,
    Primitive,
    Detail,
}

/// The value type stored by an attribute.
#[derive(Debug, Clone, Copy, PartialEq, Eq, Structural)]
pub enum AttributeType {
    Float,
    Int,
    Vec2,
    Vec3,
    Vec4,
}

/// Why an attribute could not be stored.
#[derive(Debug, Clone, Copy, PartialEq, Eq, Structural)]
pub enum AttributeError {
    InvalidDomain,
    InvalidLength { expected: usize, actual: usize },
    InvalidType { expected: AttributeType, actual: AttributeType },
}

/// The name of an attribute type.
pub open spec fn kind_name(t: AttributeType) -> Seq<char> {
    match t {
        AttributeType::Float => "Float"@,
        AttributeType::Int => "Int"@,
        AttributeType::Vec2 => "Vec2"@,
        AttributeType::Vec3 => "Vec3"@,
        AttributeType::Vec4 => "Vec4"@,
    }
}

/// An attribute error as its variant name and fields are written out.
pub open spec fn error_text(e: AttributeError) -> Seq<char> {
    match e {
        AttributeError::InvalidDomain => "InvalidDomain"@,
        AttributeError::InvalidLength { expected, actual } => "InvalidLength { expected: "@ + decimal(expected as nat)
            + ", actual: "@ + decimal(actual as nat) + " }"@,
        AttributeError::InvalidType { expected, actual } => "InvalidType { expected: "@ + kind_name(expected)
            + ", actual: "@ + kind_name(actual) + " }"@,
    }
}

/// The name of an attribute type.
fn kind_text(t: AttributeType) -> (r: &'static str)
    ensures
        r@ == kind_name(t),
{
    match t {
        AttributeType::Float => "Float",
        AttributeType::Int => "Int",
        AttributeType::Vec2 => "Vec2",
        AttributeType::Vec3 => "Vec3",
        AttributeType::Vec4 => "Vec4",
    }
}

/// `prefix` followed by the error written out.
pub fn attribute_error_message(prefix: &str, e: AttributeError) -> (r: String)
    ensures
        r@ == prefix@ + error_text(e),
{
    let mut out = chars_of(prefix);
    match e {
        AttributeError::InvalidDomain => {
            extend_values(&mut out, chars_of("InvalidDomain").as_slice());
        },
        AttributeError::InvalidLength { expected, actual } => {
            extend_values(&mut out, chars_of("InvalidLength { expected: ").as_slice());
            extend_values(&mut out, decimal_chars(expected).as_slice());
            extend_values(&mut out, chars_of(", actual: ").as_slice());
            extend_values(&mut out, decimal_chars(actual).as_slice());
            extend_values(&mut out, chars_of(" }").as_slice());
        },
        AttributeError::InvalidType { expected, actual } => {
            extend_values(&mut out, chars_of("InvalidType { expected: ").as_slice());
            extend_values(&mut out, chars_of(kind_text(expected)).as_slice());
            extend_values(&mut out, chars_of(", actual: ").as_slice());
            extend_values(&mut out, chars_of(kind_text(actual)).as_slice());
            extend_values(&mut out, chars_of(" }").as_slice());
        },
    }
    string_from_chars(out.as_slice())
}

/// A description of one attribute of a geometry.
#[derive(Debug, Clone)]
pub struct AttributeInfo {
    pub name: String,
    pub domain: AttributeDomain,
    pub data_type: AttributeType,
    pub len: usize,
    pub implicit: bool,
}

impl AttributeDomain {
    /// The four domains, in the order in which attributes are listed.
    pub fn all() -> (r: [AttributeDomain; 4])
        ensures
            r@ == seq![
                AttributeDomain::Vertex,
                AttributeDomain::Point,
                AttributeDomain::Primitive,
                AttributeDomain::Detail,
            ],
    {
        [AttributeDomain::Vertex, AttributeDomain::Point, AttributeDomain::Primitive, AttributeDomain::Detail]
    }
}

/// A string attribute: a table of distinct strings and, per element, the number of
/// its string in the table.
#[derive(Debug, Clone)]
pub struct StringTableAttribute {
    pub values: Vec<String>,
    pub indices: Vec<u32>,
}

/// The values of an attribute, one per element.
#[derive(Debug)]
pub enum AttributeStorage {
    Float(Vec<u32>),
    Int(Vec<i32>),
    Vec2(Vec<[u32; 2]>),
    Vec3(Vec<[u32; 3]>),
    Vec4(Vec<[u32; 4]>),
}

/// The number of values held.
pub open spec fn storage_len(s: AttributeStorage) -> nat {
    match s {
        AttributeStorage::Float(v) => v@.len(),
        AttributeStorage::Int(v) => v@.len(),
        AttributeStorage::Vec2(v) => v@.len(),
        AttributeStorage::Vec3(v) => v@.len(),
        AttributeStorage::Vec4(v) => v@.len(),
    }
}

/// The type of the values held.
pub open spec fn storage_type(s: AttributeStorage) -> AttributeType {
    match s {
        AttributeStorage::Float(_) => AttributeType::Float,
        AttributeStorage::Int(_) => AttributeType::Int,
        AttributeStorage::Vec2(_) => AttributeType::Vec2,
        AttributeStorage::Vec3(_) => AttributeType::Vec3,
        AttributeStorage::Vec4(_) => AttributeType::Vec4,
    }
}

/// A borrowed view of attribute values.
#[derive(Debug, Clone, Copy)]
pub enum AttributeRef<'a> {
    Float(&'a [u32]),
    Int(&'a [i32]),
    Vec2(&'a [[u32; 2]]),
    Vec3(&'a [[u32; 3]]),
    Vec4(&'a [[u32; 4]]),
}

/// The number of values viewed.
pub open spec fn ref_len(r: AttributeRef) -> nat {
    match r {
        AttributeRef::Float(v) => v@.len(),
        AttributeRef::Int(v) => v@.len(),
        AttributeRef::Vec2(v) => v@.len(),
        AttributeRef::Vec3(v) => v@.len(),
        AttributeRef::Vec4(v) => v@.len(),
    }
}

/// The type of the values viewed.
pub open spec fn ref_type(r: AttributeRef) -> AttributeType {
    match r {
        AttributeRef::Float(_) => AttributeType::Float,
        AttributeRef::Int(_) => AttributeType::Int,
        AttributeRef::Vec2(_) => AttributeType::Vec2,
        AttributeRef::Vec3(_) => AttributeType::Vec3,
        AttributeRef::Vec4(_) => AttributeType::Vec4,
    }
}

/// Whether `r` views exactly the values of `s`.
pub open spec fn views(r: AttributeRef, s: AttributeStorage) -> bool {
    match (r, s) {
        (AttributeRef::Float(a), AttributeStorage::Float(b)) => a@ == b@,
        (AttributeRef::Int(a), AttributeStorage::Int(b)) => a@ == b@,
        (AttributeRef::Vec2(a), AttributeStorage::Vec2(b)) => a@ == b@,
        (AttributeRef::Vec3(a), AttributeStorage::Vec3(b)) => a@ == b@,
        (AttributeRef::Vec4(a), AttributeStorage::Vec4(b)) => a@ == b@,
        _ => false,
    }
}

impl AttributeStorage {
    /// The number of values.
    pub fn len(&self) -> (r: usize)
        ensures
            r == storage_len(*self),
    {
        match self {
            AttributeStorage::Float(values) => values.len(),
            AttributeStorage::Int(values) => values.len(),
            AttributeStorage::Vec2(values) => values.len(),
            AttributeStorage::Vec3(values) => values.len(),
            AttributeStorage::Vec4(values) => values.len(),
        }
    }

    /// Whether there are no values.
    pub fn is_empty(&self) -> (r: bool)
        ensures
            r == (storage_len(*self) == 0),
    {
        self.len() == 0
    }

    /// The type of the values.
    pub fn data_type(&self) -> (t: AttributeType)
        ensures
            t == storage_type(*self),
    {
        match self {
            AttributeStorage::Float(_) => AttributeType::Float,
            AttributeStorage::Int(_) => AttributeType::Int,
            AttributeStorage::Vec2(_) => AttributeType::Vec2,
            AttributeStorage::Vec3(_) => AttributeType::Vec3,
            AttributeStorage::Vec4(_) => AttributeType::Vec4,
        }
    }

    /// A borrowed view of the values.
    pub fn as_ref(&self) -> (r: AttributeRef<'_>)
        ensures
            views(r, *self),
    {
        match self {
            AttributeStorage::Float(values) => AttributeRef::Float(values.as_slice()),
            AttributeStorage::Int(values) => AttributeRef::Int(values.as_slice()),
            AttributeStorage::Vec2(values) => AttributeRef::Vec2(values.as_slice()),
            AttributeStorage::Vec3(values) => AttributeRef::Vec3(values.as_slice()),
            AttributeStorage::Vec4(values) => AttributeRef::Vec4(values.as_slice()),
        }
    }
}

impl<'a> AttributeRef<'a> {
    /// The number of values.
    pub fn len(&self) -> (r: usize)
        ensures
            r == ref_len(*self),
    {
        match self {
            AttributeRef::Float(values) => values.len(),
            AttributeRef::Int(values) => values.len(),
            AttributeRef::Vec2(values) => values.len(),
            AttributeRef::Vec3(values) => values.len(),
            AttributeRef::Vec4(values) => values.len(),
        }
    }

    /// Whether there are no values.
    pub fn is_empty(&self) -> (r: bool)
        ensures
            r == (ref_len(*self) == 0),
    {
        self.len() == 0
    }

    /// The type of the values.
    pub fn data_type(&self) -> (t: AttributeType)
        ensures
            t == ref_type(*self),
    {
        match self {
            AttributeRef::Float(_) => AttributeType::Float,
            AttributeRef::Int(_) => AttributeType::Int,
            AttributeRef::Vec2(_) => AttributeType::Vec2,
            AttributeRef::Vec3(_) => AttributeType::Vec3,
            AttributeRef::Vec4(_) => AttributeType::Vec4,
        }
    }
}

/// The attributes of a mesh: for each domain, a table from names to values.
#[derive(Debug)]
pub struct MeshAttributes {
    point: TextMap<AttributeStorage>,
    vertex: TextMap<AttributeStorage>,
    primitive: TextMap<AttributeStorage>,
    detail: TextMap<AttributeStorage>,
}

impl MeshAttributes {
    /// The table of a domain.
    pub closed spec fn table(&self, domain: AttributeDomain) -> TextMap<AttributeStorage> {
        match domain {
            AttributeDomain::Point => self.point,
            AttributeDomain::Vertex => self.vertex,
            AttributeDomain::Primitive => self.primitive,
            AttributeDomain::Detail => self.detail,
        }
    }

    /// Every table is well formed.
    pub open spec fn wf(&self) -> bool {
        forall|d: AttributeDomain| #[trigger] self.table(d).wf()
    }

    /// No attributes.
    pub fn new() -> (r: Self)
        ensures
            r.wf(),
            forall|d: AttributeDomain| #[trigger] r.table(d)@ == Map::<Seq<char>, AttributeStorage>::empty(),
            forall|d: AttributeDomain| #[trigger] r.table(d).entries_view().len() == 0,
    {
        MeshAttributes { point: TextMap::new(), vertex: TextMap::new(), primitive: TextMap::new(), detail: TextMap::new() }
    }

    /// The attributes with the given table for each domain.
    pub fn from_tables(
        point: TextMap<AttributeStorage>,
        vertex: TextMap<AttributeStorage>,
        primitive: TextMap<AttributeStorage>,
        detail: TextMap<AttributeStorage>,
    ) -> (r: Self)
        ensures
            r.table(AttributeDomain::Point) == point,
            r.table(AttributeDomain::Vertex) == vertex,
            r.table(AttributeDomain::Primitive) == primitive,
            r.table(AttributeDomain::Detail) == detail,
    {
        MeshAttributes { point, vertex, primitive, detail }
    }

    /// The table of a domain.
    pub fn map(&self, domain: AttributeDomain) -> (r: &TextMap<AttributeStorage>)
        ensures
            *r == self.table(domain),
    {
        match domain {
            AttributeDomain::Point => &self.point,
            AttributeDomain::Vertex => &self.vertex,
            AttributeDomain::Primitive => &self.primitive,
            AttributeDomain::Detail => &self.detail,
        }
    }

    /// The table of a domain, for changing it.
    pub fn map_mut(&mut self, domain: AttributeDomain) -> (r: &mut TextMap<AttributeStorage>)
        ensures
            *r == old(self).table(domain),
            final(self).table(domain) == *final(r),
            forall|d: AttributeDomain| d != domain ==> #[trigger] final(self).table(d) == old(self).table(d),
    {
        match domain {
            AttributeDomain::Point => &mut self.point,
            AttributeDomain::Vertex => &mut self.vertex,
            AttributeDomain::Primitive => &mut self.primitive,
            AttributeDomain::Detail => &mut self.detail,
        }
    }

    /// The values named `name` in `domain`, if there are any.
    pub fn get(&self, domain: AttributeDomain, name: &str) -> (r: Option<&AttributeStorage>)
        requires
            self.wf(),
        ensures
            match r {
                Some(s) => self.table(domain)@.contains_key(name@) && self.table(domain)@[name@] == *s,
                None => !self.table(domain)@.contains_key(name@),
            },
    {
        assert(self.table(domain).wf());
        self.map(domain).get(name)
    }

    /// Removes the values named `name` in `domain` and hands them back.
    pub fn remove(&mut self, domain: AttributeDomain, name: &str) -> (r: Option<AttributeStorage>)
        requires
            old(self).wf(),
        ensures
            final(self).wf(),
            final(self).table(domain)@ == old(self).table(domain)@.remove(name@),
            forall|d: AttributeDomain| d != domain ==> #[trigger] final(self).table(d) == old(self).table(d),
            match r {
                Some(s) => old(self).table(domain)@.contains_key(name@) && old(self).table(domain)@[name@] == s,
                None => !old(self).table(domain)@.contains_key(name@),
            },
    {
        assert(self.table(domain).wf());
        let r = self.map_mut(domain).remove(name);
        assert forall|d: AttributeDomain| #[trigger] self.table(d).wf() by {
            if d != domain {
                assert(old(self).table(d).wf());
            }
        }
        r
    }
}

impl Default for MeshAttributes {
    fn default() -> (r: Self)
        ensures
            r.wf(),
    {
        MeshAttributes::new()
    }
}

} // verus!
