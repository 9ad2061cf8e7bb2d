//! Named element groups of a mesh, one table per domain.

use vstd::prelude::*;
use crate::attributes::AttributeDomain;
use crate::text_map::TextMap;

verus! {

/// The groups of a mesh: for each of the point, vertex and primitive domains, a
/// table from group names to membership masks. Detail groups are primitive groups.
#[derive(Debug)]
pub struct MeshGroups {
    point: TextMap<Vec<bool>>,
    vertex: TextMap<Vec<bool>>,
    primitive: TextMap<Vec<bool>>,
}

impl MeshGroups {
    /// The table of a domain; `Detail` shares the primitive table.
    pub closed spec fn table(&self, domain: AttributeDomain) -> TextMap<Vec<bool>> {
        match domain {
            AttributeDomain::Point => self.point,
            AttributeDomain::Vertex => self.vertex,
            AttributeDomain::Primitive => self.primitive,
            AttributeDomain::Detail => self.primitive,
        }
    }

    /// Every table is well formed.
    pub open spec fn wf(&self) -> bool {
        &&& self.table(AttributeDomain::Point).wf()
        &&& self.table(AttributeDomain::Vertex).wf()
        &&& self.table(AttributeDomain::Primitive).wf()
    }

    /// No groups in any domain.
    pub fn new() -> (r: Self)
        ensures
            r.wf(),
            r.table(AttributeDomain::Point)@ == Map::<Seq<char>, Vec<bool>>::empty(),
            r.table(AttributeDomain::Vertex)@ == Map::<Seq<char>, Vec<bool>>::empty(),
            r.table(AttributeDomain::Primitive)@ == Map::<Seq<char>, Vec<bool>>::empty(),
    {
        MeshGroups { point: TextMap::new(), vertex: TextMap::new(), primitive: TextMap::new() }
    }

    /// The groups with the given table for each of the point, vertex and
    /// primitive domains.
    pub fn from_tables(point: TextMap<Vec<bool>>, vertex: TextMap<Vec<bool>>, primitive: TextMap<Vec<bool>>) -> (r: Self)
        ensures
            r.table(AttributeDomain::Point) == point,
            r.table(AttributeDomain::Vertex) == vertex,
            r.table(AttributeDomain::Primitive) == primitive,
            r.table(AttributeDomain::Detail) == primitive,
    {
        MeshGroups { point, vertex, primitive }
    }

    /// The group table of a domain.
    pub fn map(&self, domain: AttributeDomain) -> (r: &TextMap<Vec<bool>>)
        ensures
            *r == self.table(domain),
    {
        match domain {
            AttributeDomain::Point => &self.point,
            AttributeDomain::Vertex => &self.vertex,
            AttributeDomain::Primitive => &self.primitive,
            AttributeDomain::Detail => &self.primitive,
        }
    }

    /// The group table of a domain, for changing it.
    pub fn map_mut(&mut self, domain: AttributeDomain) -> (r: &mut TextMap<Vec<bool>>)
        ensures
            *r == old(self).table(domain),
            final(self).table(domain) == *final(r),
            forall|d: AttributeDomain| #[trigger] final(self).table(d) == (if d == domain || (d == AttributeDomain::Detail
                && domain == AttributeDomain::Primitive) || (d == AttributeDomain::Primitive && domain
                == AttributeDomain::Detail) {
                *final(r)
            } else {
                old(self).table(d)
            }),
    {
        match domain {
            AttributeDomain::Point => &mut self.point,
            AttributeDomain::Vertex => &mut self.vertex,
            AttributeDomain::Primitive => &mut self.primitive,
            AttributeDomain::Detail => &mut self.primitive,
        }
    }
}

/// The detail domain shares the primitive groups.
pub proof fn lemma_detail_groups(g: MeshGroups)
    ensures
        g.table(AttributeDomain::Detail) == g.table(AttributeDomain::Primitive),
{
}

impl Default for MeshGroups {
    fn default() -> (r: Self)
        ensures
            r.wf(),
    {
        MeshGroups::new()
    }
}

} // verus!
