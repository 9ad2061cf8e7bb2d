//! A polygon mesh: point positions, corner indices, optional normals and UVs,
//! and named attributes and groups. Float values are held as their IEEE-754 bit
//! patterns.

use vstd::prelude::*;
use crate::attributes::{
    AttributeDomain, AttributeError, AttributeInfo, AttributeRef, AttributeStorage, AttributeType, MeshAttributes,
    storage_len, storage_type, views,
};
use crate::mesh_groups::MeshGroups;
use crate::text::{owned, text_eq};
use crate::text_map::TextMap;
use crate::topology::resolved_counts;

verus! {

/// A polygon mesh.
#[derive(Debug)]
pub struct Mesh {
    pub positions: Vec<[u32; 3]>,
    pub indices: Vec<u32>,
    pub normals: Option<Vec<[u32; 3]>>,
    pub corner_normals: Option<Vec<[u32; 3]>>,
    pub uvs: Option<Vec<[u32; 2]>>,
    pub attributes: MeshAttributes,
    pub groups: MeshGroups,
}

/// An attribute description as plain values: name, domain, type, length and
/// whether the mesh holds it intrinsically.
pub open spec fn info_view(i: AttributeInfo) -> (Seq<char>, AttributeDomain, AttributeType, usize, bool) {
    (i.name@, i.domain, i.data_type, i.len, i.implicit)
}

/// The descriptions of the attributes of one table, in table order.
pub open spec fn table_infos(table: TextMap<AttributeStorage>, domain: AttributeDomain) -> Seq<(Seq<char>, AttributeDomain, AttributeType, usize, bool)> {
    table.entries_view().map_values(|e: (String, AttributeStorage)| (e.0@, domain, storage_type(e.1), storage_len(e.1) as usize, false))
}

impl Mesh {
    /// The attribute tables and groups are well formed.
    pub open spec fn wf(&self) -> bool {
        self.attributes.wf() && self.groups.wf()
    }

    /// The number of elements in `domain`: points, corners, triangles, or the one
    /// detail element.
    pub open spec fn domain_len(&self, domain: AttributeDomain) -> nat {
        match domain {
            AttributeDomain::Point => self.positions@.len(),
            AttributeDomain::Vertex => self.indices@.len(),
            AttributeDomain::Primitive => self.indices@.len() / 3,
            AttributeDomain::Detail => 1,
        }
    }

    /// The polygon sizes of the mesh: triangles, or one polygon over all corners
    /// where their number is not a multiple of three.
    pub open spec fn faces(&self) -> Seq<u32> {
        resolved_counts(self.indices@.len(), Seq::empty())
    }

    /// The descriptions `list_attributes` gives: positions, point normals and
    /// corner normals where present, then the attribute tables of the vertex,
    /// point, primitive and detail domains.
    pub open spec fn infos(&self) -> Seq<(Seq<char>, AttributeDomain, AttributeType, usize, bool)> {
        let p = if self.positions@.len() > 0 {
            seq![("P"@, AttributeDomain::Point, AttributeType::Vec3, self.positions@.len() as usize, true)]
        } else {
            Seq::empty()
        };
        let n = match self.normals {
            Some(v) => seq![("N"@, AttributeDomain::Point, AttributeType::Vec3, v@.len() as usize, true)],
            None => Seq::empty(),
        };
        let c = match self.corner_normals {
            Some(v) => seq![("N"@, AttributeDomain::Vertex, AttributeType::Vec3, v@.len() as usize, true)],
            None => Seq::empty(),
        };
        p + n + c + table_infos(self.attributes.table(AttributeDomain::Vertex), AttributeDomain::Vertex)
            + table_infos(self.attributes.table(AttributeDomain::Point), AttributeDomain::Point)
            + table_infos(self.attributes.table(AttributeDomain::Primitive), AttributeDomain::Primitive)
            + table_infos(self.attributes.table(AttributeDomain::Detail), AttributeDomain::Detail)
    }

    /// A mesh with nothing in it.
    pub fn new() -> (m: Self)
        ensures
            m.wf(),
            m.positions@.len() == 0,
            m.indices@.len() == 0,
            m.normals.is_none(),
            m.corner_normals.is_none(),
            m.uvs.is_none(),
            forall|d: AttributeDomain| #[trigger] m.attributes.table(d).entries_view().len() == 0,
            m.groups.table(AttributeDomain::Point)@ == Map::<Seq<char>, Vec<bool>>::empty(),
            m.groups.table(AttributeDomain::Vertex)@ == Map::<Seq<char>, Vec<bool>>::empty(),
            m.groups.table(AttributeDomain::Primitive)@ == Map::<Seq<char>, Vec<bool>>::empty(),
    {
        Mesh {
            positions: Vec::new(),
            indices: Vec::new(),
            normals: None,
            corner_normals: None,
            uvs: None,
            attributes: MeshAttributes::new(),
            groups: MeshGroups::new(),
        }
    }

    /// A mesh of the given points and corners, with no normals, UVs, attributes
    /// or groups.
    pub fn with_positions_indices(positions: Vec<[u32; 3]>, indices: Vec<u32>) -> (m: Self)
        ensures
            m.wf(),
            m.positions@ == positions@,
            m.indices@ == indices@,
            m.normals.is_none(),
            m.corner_normals.is_none(),
            m.uvs.is_none(),
            forall|d: AttributeDomain| #[trigger] m.attributes.table(d).entries_view().len() == 0,
    {
        Mesh {
            positions,
            indices,
            normals: None,
            corner_normals: None,
            uvs: None,
            attributes: MeshAttributes::new(),
            groups: MeshGroups::new(),
        }
    }

    /// The number of elements in `domain`.
    pub fn attribute_domain_len(&self, domain: AttributeDomain) -> (n: usize)
        ensures
            n == self.domain_len(domain),
    {
        match domain {
            AttributeDomain::Point => self.positions.len(),
            AttributeDomain::Vertex => self.indices.len(),
            AttributeDomain::Primitive => self.indices.len() / 3,
            AttributeDomain::Detail => 1,
        }
    }
}

/// Whether the mesh holds an attribute `name` in `domain`: positions always,
/// normals where present, otherwise the attribute tables.
pub open spec fn has_attribute(m: Mesh, domain: AttributeDomain, name: Seq<char>) -> bool {
    if name == "P"@ && domain == AttributeDomain::Point {
        true
    } else if name == "N"@ && domain == AttributeDomain::Point {
        m.normals is Some
    } else if name == "N"@ && domain == AttributeDomain::Vertex {
        m.corner_normals is Some
    } else {
        m.attributes.table(domain)@.contains_key(name)
    }
}

/// Whether `r` views the attribute `name` of `domain`.
pub open spec fn gives_attribute(m: Mesh, domain: AttributeDomain, name: Seq<char>, r: AttributeRef) -> bool {
    if name == "P"@ && domain == AttributeDomain::Point {
        r matches AttributeRef::Vec3(s) && s@ == m.positions@
    } else if name == "N"@ && domain == AttributeDomain::Point {
        m.normals matches Some(v) && r matches AttributeRef::Vec3(s) && s@ == v@
    } else if name == "N"@ && domain == AttributeDomain::Vertex {
        m.corner_normals matches Some(v) && r matches AttributeRef::Vec3(s) && s@ == v@
    } else {
        m.attributes.table(domain)@.contains_key(name) && views(r, m.attributes.table(domain)@[name])
    }
}

/// Whether `name` equals one of the reserved names.
fn is_name(name: &str, reserved: &str) -> (r: bool)
    ensures
        r == (name@ == reserved@),
{
    text_eq(name, reserved)
}

fn push_table_infos(out: &mut Vec<AttributeInfo>, table: &TextMap<AttributeStorage>, domain: AttributeDomain)
    ensures
        final(out)@.map_values(|i: AttributeInfo| info_view(i)) == old(out)@.map_values(|i: AttributeInfo| info_view(i)) + table_infos(*table, domain),
{
    let entries = table.entries();
    let ghost start = out@.map_values(|i: AttributeInfo| info_view(i));
    let mut k: usize = 0;
    while k < entries.len()
        invariant
            entries@ == table.entries_view(),
            0 <= k <= entries@.len(),
            out@.map_values(|i: AttributeInfo| info_view(i)) == start + table_infos(*table, domain).take(k as int),
        decreases entries@.len() - k,
    {
        let (name, storage) = (&entries[k].0, &entries[k].1);
        let info = AttributeInfo {
            name: owned(name.as_str()),
            domain,
            data_type: storage.data_type(),
            len: storage.len(),
            implicit: false,
        };
        let ghost before = out@.map_values(|i: AttributeInfo| info_view(i));
        out.push(info);
        proof {
            assert(table_infos(*table, domain).take(k + 1) =~= table_infos(*table, domain).take(k as int).push(info_view(info)));
            assert(out@.map_values(|i: AttributeInfo| info_view(i)) =~= before.push(info_view(info)));
        }
        k = k + 1;
    }
    assert(table_infos(*table, domain).take(entries@.len() as int) =~= table_infos(*table, domain));
}

impl Mesh {
    /// The descriptions of all attributes of the mesh.
    pub fn list_attributes(&self) -> (list: Vec<AttributeInfo>)
        ensures
            list@.map_values(|i: AttributeInfo| info_view(i)) == self.infos(),
    {
        let mut list: Vec<AttributeInfo> = Vec::new();
        let ghost p = if self.positions@.len() > 0 {
            seq![("P"@, AttributeDomain::Point, AttributeType::Vec3, self.positions@.len() as usize, true)]
        } else {
            Seq::empty()
        };
        if self.positions.len() > 0 {
            list.push(AttributeInfo { name: owned("P"), domain: AttributeDomain::Point, data_type: AttributeType::Vec3, len: self.positions.len(), implicit: true });
        }
        assert(list@.map_values(|i: AttributeInfo| info_view(i)) =~= p);
        let ghost n = match &self.normals {
            Some(v) => seq![("N"@, AttributeDomain::Point, AttributeType::Vec3, v@.len() as usize, true)],
            None => Seq::empty(),
        };
        if let Some(normals) = &self.normals {
            list.push(AttributeInfo { name: owned("N"), domain: AttributeDomain::Point, data_type: AttributeType::Vec3, len: normals.len(), implicit: true });
        }
        assert(list@.map_values(|i: AttributeInfo| info_view(i)) =~= p + n);
        let ghost c = match &self.corner_normals {
            Some(v) => seq![("N"@, AttributeDomain::Vertex, AttributeType::Vec3, v@.len() as usize, true)],
            None => Seq::empty(),
        };
        if let Some(normals) = &self.corner_normals {
            list.push(AttributeInfo { name: owned("N"), domain: AttributeDomain::Vertex, data_type: AttributeType::Vec3, len: normals.len(), implicit: true });
        }
        assert(list@.map_values(|i: AttributeInfo| info_view(i)) =~= p + n + c);
        push_table_infos(&mut list, self.attributes.map(AttributeDomain::Vertex), AttributeDomain::Vertex);
        push_table_infos(&mut list, self.attributes.map(AttributeDomain::Point), AttributeDomain::Point);
        push_table_infos(&mut list, self.attributes.map(AttributeDomain::Primitive), AttributeDomain::Primitive);
        push_table_infos(&mut list, self.attributes.map(AttributeDomain::Detail), AttributeDomain::Detail);
        list
    }

    /// A view of the attribute `name` of `domain`, if the mesh holds one.
    pub fn attribute(&self, domain: AttributeDomain, name: &str) -> (r: Option<AttributeRef<'_>>)
        requires
            self.wf(),
        ensures
            r is Some == has_attribute(*self, domain, name@),
            r matches Some(x) ==> gives_attribute(*self, domain, name@, x),
    {
        let p = is_name(name, "P");
        let n = is_name(name, "N");
        if p && domain == AttributeDomain::Point {
            return Some(AttributeRef::Vec3(self.positions.as_slice()));
        }
        if n && domain == AttributeDomain::Point {
            return match &self.normals {
                Some(v) => Some(AttributeRef::Vec3(v.as_slice())),
                None => None,
            };
        }
        if n && domain == AttributeDomain::Vertex {
            return match &self.corner_normals {
                Some(v) => Some(AttributeRef::Vec3(v.as_slice())),
                None => None,
            };
        }
        match self.attributes.get(domain, name) {
            Some(storage) => Some(storage.as_ref()),
            None => None,
        }
    }

    /// The attribute `name` from the first domain that holds it: positions for
    /// `P`; otherwise vertex, point, primitive and detail in that order.
    pub fn attribute_with_precedence(&self, name: &str) -> (r: Option<(AttributeDomain, AttributeRef<'_>)>)
        requires
            self.wf(),
        ensures
            name@ == "P"@ ==> (r matches Some((d, x)) && d == AttributeDomain::Point && gives_attribute(*self, d, name@, x)),
            name@ != "P"@ ==> match r {
                Some((d, x)) => has_attribute(*self, d, name@) && gives_attribute(*self, d, name@, x) && match d {
                    AttributeDomain::Vertex => true,
                    AttributeDomain::Point => !has_attribute(*self, AttributeDomain::Vertex, name@),
                    AttributeDomain::Primitive => !has_attribute(*self, AttributeDomain::Vertex, name@)
                        && !has_attribute(*self, AttributeDomain::Point, name@),
                    AttributeDomain::Detail => !has_attribute(*self, AttributeDomain::Vertex, name@)
                        && !has_attribute(*self, AttributeDomain::Point, name@)
                        && !has_attribute(*self, AttributeDomain::Primitive, name@),
                },
                None => !has_attribute(*self, AttributeDomain::Vertex, name@) && !has_attribute(*self, AttributeDomain::Point, name@)
                    && !has_attribute(*self, AttributeDomain::Primitive, name@) && !has_attribute(*self, AttributeDomain::Detail, name@),
            },
    {
        if is_name(name, "P") {
            return match self.attribute(AttributeDomain::Point, name) {
                Some(x) => Some((AttributeDomain::Point, x)),
                None => None,
            };
        }
        if let Some(x) = self.attribute(AttributeDomain::Vertex, name) {
            return Some((AttributeDomain::Vertex, x));
        }
        if let Some(x) = self.attribute(AttributeDomain::Point, name) {
            return Some((AttributeDomain::Point, x));
        }
        if let Some(x) = self.attribute(AttributeDomain::Primitive, name) {
            return Some((AttributeDomain::Primitive, x));
        }
        if let Some(x) = self.attribute(AttributeDomain::Detail, name) {
            return Some((AttributeDomain::Detail, x));
        }
        None
    }
}

/// What `set_attribute` makes of a mesh: the result and the mesh after. A
/// length other than the domain's (unless the domain is empty) is refused; `P`
/// must be a point attribute of three-component values and replaces the
/// positions; `N` of three components replaces the point or corner normals;
/// anything else is filed in the attribute table of its domain.
pub open spec fn set_outcome(m: Mesh, domain: AttributeDomain, name: Seq<char>, storage: AttributeStorage, r: Result<(), AttributeError>, after: Mesh) -> bool {
    let expected = m.domain_len(domain);
    let actual = storage_len(storage);
    let t = storage_type(storage);
    if expected != 0 && actual != expected {
        r == Err::<(), AttributeError>(AttributeError::InvalidLength { expected: expected as usize, actual: actual as usize }) && after == m
    } else if name == "P"@ && domain == AttributeDomain::Point {
        if t != AttributeType::Vec3 {
            r == Err::<(), AttributeError>(AttributeError::InvalidType { expected: AttributeType::Vec3, actual: t }) && after == m
        } else {
            &&& r is Ok
            &&& storage matches AttributeStorage::Vec3(v) && after == (Mesh { positions: v, ..m })
        }
    } else if name == "P"@ {
        r == Err::<(), AttributeError>(AttributeError::InvalidDomain) && after == m
    } else if name == "N"@ && (domain == AttributeDomain::Point || domain == AttributeDomain::Vertex) {
        if t != AttributeType::Vec3 {
            r == Err::<(), AttributeError>(AttributeError::InvalidType { expected: AttributeType::Vec3, actual: t }) && after == m
        } else if domain == AttributeDomain::Point {
            &&& r is Ok
            &&& storage matches AttributeStorage::Vec3(v) && after == (Mesh { normals: Some(v), ..m })
        } else {
            &&& r is Ok
            &&& storage matches AttributeStorage::Vec3(v) && after == (Mesh { corner_normals: Some(v), ..m })
        }
    } else {
        &&& r is Ok
        &&& after.attributes.table(domain)@ == m.attributes.table(domain)@.insert(name, storage)
        &&& forall|d: AttributeDomain| d != domain ==> #[trigger] after.attributes.table(d) == m.attributes.table(d)
        &&& after.positions == m.positions && after.indices == m.indices && after.normals == m.normals
        &&& after.corner_normals == m.corner_normals && after.uvs == m.uvs && after.groups == m.groups
    }
}

/// What `remove_attribute` makes of a mesh: positions stay; removing normals
/// drops them and hands nothing back; anything else leaves the attribute table of
/// its domain and hands back what it held under that name.
pub open spec fn remove_outcome(m: Mesh, domain: AttributeDomain, name: Seq<char>, r: Option<AttributeStorage>, after: Mesh) -> bool {
    if name == "P"@ && domain == AttributeDomain::Point {
        r.is_none() && after == m
    } else if name == "N"@ && domain == AttributeDomain::Point {
        r.is_none() && after == (Mesh { normals: None, ..m })
    } else if name == "N"@ && domain == AttributeDomain::Vertex {
        r.is_none() && after == (Mesh { corner_normals: None, ..m })
    } else {
        &&& after.attributes.table(domain)@ == m.attributes.table(domain)@.remove(name)
        &&& forall|d: AttributeDomain| d != domain ==> #[trigger] after.attributes.table(d) == m.attributes.table(d)
        &&& match r {
            Some(s) => m.attributes.table(domain)@.contains_key(name) && m.attributes.table(domain)@[name] == s,
            None => !m.attributes.table(domain)@.contains_key(name),
        }
        &&& after.positions == m.positions && after.indices == m.indices
        &&& after.normals == m.normals && after.corner_normals == m.corner_normals
        &&& after.uvs == m.uvs && after.groups == m.groups
    }
}

impl Mesh {
    /// Stores an attribute, checking it against the mesh.
    pub fn set_attribute(&mut self, domain: AttributeDomain, name: String, storage: AttributeStorage) -> (r: Result<(), AttributeError>)
        requires
            old(self).wf(),
        ensures
            final(self).wf(),
            set_outcome(*old(self), domain, name@, storage, r, *final(self)),
    {
        let expected = self.attribute_domain_len(domain);
        let actual = storage.len();
        if expected != 0 && actual != expected {
            return Err(AttributeError::InvalidLength { expected, actual });
        }
        let p = is_name(name.as_str(), "P");
        let n = is_name(name.as_str(), "N");
        if p {
            if domain != AttributeDomain::Point {
                return Err(AttributeError::InvalidDomain);
            }
            return match storage {
                AttributeStorage::Vec3(values) => {
                    self.positions = values;
                    Ok(())
                },
                other => Err(AttributeError::InvalidType { expected: AttributeType::Vec3, actual: other.data_type() }),
            };
        }
        if n && (domain == AttributeDomain::Point || domain == AttributeDomain::Vertex) {
            return match storage {
                AttributeStorage::Vec3(values) => {
                    if domain == AttributeDomain::Point {
                        self.normals = Some(values);
                    } else {
                        self.corner_normals = Some(values);
                    }
                    Ok(())
                },
                other => Err(AttributeError::InvalidType { expected: AttributeType::Vec3, actual: other.data_type() }),
            };
        }
        assert(self.attributes.table(domain).wf());
        let ghost old_attrs = self.attributes;
        self.attributes.map_mut(domain).insert(name, storage);
        proof {
            assert forall|d: AttributeDomain| #[trigger] self.attributes.table(d).wf() by {
                if d != domain {
                    assert(old_attrs.table(d).wf());
                }
            }
        }
        Ok(())
    }

    /// Removes an attribute and hands its values back. Positions cannot be
    /// removed; removing normals drops them but hands nothing back.
    pub fn remove_attribute(&mut self, domain: AttributeDomain, name: &str) -> (r: Option<AttributeStorage>)
        requires
            old(self).wf(),
        ensures
            final(self).wf(),
            remove_outcome(*old(self), domain, name@, r, *final(self)),
    {
        proof {
            reveal_strlit("P");
            reveal_strlit("N");
            assert("P"@[0] == 'P' && "N"@[0] == 'N');
        }
        let p = is_name(name, "P");
        let n = is_name(name, "N");
        if p && domain == AttributeDomain::Point {
            return None;
        }
        if n && domain == AttributeDomain::Point {
            self.normals = None;
            return None;
        }
        if n && domain == AttributeDomain::Vertex {
            self.corner_normals = None;
            return None;
        }
        self.attributes.remove(domain, name)
    }
}

/// An attribute that was stored reads back: after a successful `set_attribute`
/// the mesh holds the attribute, and any view of the stored values is what
/// `attribute` gives for it.
pub proof fn law_set_then_read(m: Mesh, domain: AttributeDomain, name: Seq<char>, storage: AttributeStorage, after: Mesh, x: AttributeRef)
    requires
        set_outcome(m, domain, name, storage, Ok(()), after),
        views(x, storage),
    ensures
        has_attribute(after, domain, name),
        gives_attribute(after, domain, name, x),
{
    reveal_strlit("P");
    reveal_strlit("N");
    assert("P"@[0] == 'P' && "N"@[0] == 'N');
}

/// Storing an attribute under a name its domain does not hold yet and removing it
/// again hands back the stored values and leaves the attribute table as it was.
pub proof fn law_set_then_remove(
    m: Mesh,
    domain: AttributeDomain,
    name: Seq<char>,
    storage: AttributeStorage,
    mid: Mesh,
    r: Option<AttributeStorage>,
    after: Mesh,
)
    requires
        set_outcome(m, domain, name, storage, Ok(()), mid),
        remove_outcome(mid, domain, name, r, after),
        !m.attributes.table(domain)@.contains_key(name),
        !(name == "P"@ && domain == AttributeDomain::Point),
        !(name == "N"@ && (domain == AttributeDomain::Point || domain == AttributeDomain::Vertex)),
    ensures
        r == Some(storage),
        after.attributes.table(domain)@ == m.attributes.table(domain)@,
{
    reveal_strlit("P");
    reveal_strlit("N");
    assert("P"@[0] == 'P' && "N"@[0] == 'N');
    assert(after.attributes.table(domain)@ =~= m.attributes.table(domain)@);
}

} // verus!
