//! Copies of meshes, and what it means for two meshes to hold the same contents.

use vstd::prelude::*;
use crate::attributes::{AttributeDomain, AttributeStorage, MeshAttributes};
use crate::attribute_values::{copy_storage, copy_values, pick_storage, pick_values, picked, picked_values, storage_values};
use crate::mesh::Mesh;
use crate::mesh_groups::{MeshGroups, lemma_detail_groups};
use crate::text_map::{TextMap, entry_names, lemma_entry_in_map};

verus! {

/// Two attribute tables hold the same names, in the same order, with the same values.
pub open spec fn same_storage_table(a: TextMap<AttributeStorage>, b: TextMap<AttributeStorage>) -> bool {
    &&& entry_names(a.entries_view()) == entry_names(b.entries_view())
    &&& a@.dom() == b@.dom()
    &&& forall|n: Seq<char>| #[trigger] a@.contains_key(n) ==> storage_values(a@[n]) == storage_values(b@[n])
}

/// Two group tables hold the same names, in the same order, with the same masks.
pub open spec fn same_group_table(a: TextMap<Vec<bool>>, b: TextMap<Vec<bool>>) -> bool {
    &&& entry_names(a.entries_view()) == entry_names(b.entries_view())
    &&& a@.dom() == b@.dom()
    &&& forall|n: Seq<char>| #[trigger] a@.contains_key(n) ==> a@[n]@ == b@[n]@
}

/// The values of an optional vector.
pub open spec fn opt_view<T>(o: Option<Vec<T>>) -> Option<Seq<T>> {
    match o {
        Some(v) => Some(v@),
        None => None,
    }
}

/// Two meshes hold the same points, corners, optional channels, attributes and groups.
pub open spec fn same_mesh(a: Mesh, b: Mesh) -> bool {
    &&& a.positions@ == b.positions@
    &&& a.indices@ == b.indices@
    &&& opt_view(a.normals) == opt_view(b.normals)
    &&& opt_view(a.corner_normals) == opt_view(b.corner_normals)
    &&& opt_view(a.uvs) == opt_view(b.uvs)
    &&& forall|d: AttributeDomain| #[trigger] same_storage_table(a.attributes.table(d), b.attributes.table(d))
    &&& forall|d: AttributeDomain| #[trigger] same_group_table(a.groups.table(d), b.groups.table(d))
}

/// A copy of an optional vector of copyable values.
fn copy_opt<T: Copy>(o: &Option<Vec<T>>) -> (r: Option<Vec<T>>)
    ensures
        opt_view(r) == opt_view(*o),
{
    match o {
        Some(v) => Some(copy_values(v.as_slice())),
        None => None,
    }
}

/// A copy of an attribute table.
pub fn copy_storage_table(t: &TextMap<AttributeStorage>) -> (r: TextMap<AttributeStorage>)
    requires
        t.wf(),
    ensures
        r.wf(),
        same_storage_table(r, *t),
{
    let entries = t.entries();
    let mut out: TextMap<AttributeStorage> = TextMap::new();
    let mut j: usize = 0;
    while j < entries.len()
        invariant
            t.wf(),
            entries@ == t.entries_view(),
            0 <= j <= entries@.len(),
            out.wf(),
            entry_names(out.entries_view()) == entry_names(entries@.take(j as int)),
            forall|n: Seq<char>| #[trigger] out@.contains_key(n) <==> exists|i: int| 0 <= i < j && entries@[i].0@ == n,
            forall|n: Seq<char>| #[trigger] out@.contains_key(n) ==> storage_values(out@[n]) == storage_values(t@[n]),
        decreases entries@.len() - j,
    {
        let name = &entries[j].0;
        let value = copy_storage(&entries[j].1);
        proof {
            lemma_entry_in_map(t.entries_view(), j as int);
            assert(!out@.contains_key(name@)) by {
                if out@.contains_key(name@) {
                    let i = choose|i: int| 0 <= i < j && entries@[i].0@ == name@;
                }
            }
        }
        let ghost before = out.entries_view();
        out.insert(name.clone(), value);
        proof {
            assert(entry_names(entries@.take(j + 1)) =~= entry_names(entries@.take(j as int)).push(name@));
            assert(entry_names(out.entries_view()) =~= entry_names(before).push(name@));
            assert forall|n: Seq<char>| #[trigger] out@.contains_key(n) <==> exists|i: int| 0 <= i < j + 1 && entries@[i].0@ == n by {
                if n == name@ {
                    assert(entries@[j as int].0@ == n);
                }
            }
        }
        j = j + 1;
    }
    proof {
        assert(entries@.take(entries@.len() as int) =~= entries@);
        assert forall|n: Seq<char>| out@.contains_key(n) <==> t@.contains_key(n) by {
            if t@.contains_key(n) {
                let i = choose|i: int| 0 <= i < t.entries_view().len() && t.entries_view()[i].0@ == n;
                assert(entries@[i].0@ == n);
            }
            if out@.contains_key(n) {
                let i = choose|i: int| 0 <= i < j && entries@[i].0@ == n;
                lemma_entry_in_map(t.entries_view(), i);
            }
        }
        assert(out@.dom() =~= t@.dom());
    }
    out
}

/// A copy of a group table.
pub fn copy_group_table(t: &TextMap<Vec<bool>>) -> (r: TextMap<Vec<bool>>)
    requires
        t.wf(),
    ensures
        r.wf(),
        same_group_table(r, *t),
{
    let entries = t.entries();
    let mut out: TextMap<Vec<bool>> = TextMap::new();
    let mut j: usize = 0;
    while j < entries.len()
        invariant
            t.wf(),
            entries@ == t.entries_view(),
            0 <= j <= entries@.len(),
            out.wf(),
            entry_names(out.entries_view()) == entry_names(entries@.take(j as int)),
            forall|n: Seq<char>| #[trigger] out@.contains_key(n) <==> exists|i: int| 0 <= i < j && entries@[i].0@ == n,
            forall|n: Seq<char>| #[trigger] out@.contains_key(n) ==> out@[n]@ == t@[n]@,
        decreases entries@.len() - j,
    {
        let name = &entries[j].0;
        let value = copy_values(entries[j].1.as_slice());
        proof {
            lemma_entry_in_map(t.entries_view(), j as int);
            assert(!out@.contains_key(name@)) by {
                if out@.contains_key(name@) {
                    let i = choose|i: int| 0 <= i < j && entries@[i].0@ == name@;
                }
            }
        }
        let ghost before = out.entries_view();
        out.insert(name.clone(), value);
        proof {
            assert(entry_names(entries@.take(j + 1)) =~= entry_names(entries@.take(j as int)).push(name@));
            assert(entry_names(out.entries_view()) =~= entry_names(before).push(name@));
            assert forall|n: Seq<char>| #[trigger] out@.contains_key(n) <==> exists|i: int| 0 <= i < j + 1 && entries@[i].0@ == n by {
                if n == name@ {
                    assert(entries@[j as int].0@ == n);
                }
            }
        }
        j = j + 1;
    }
    proof {
        assert(entries@.take(entries@.len() as int) =~= entries@);
        assert forall|n: Seq<char>| out@.contains_key(n) <==> t@.contains_key(n) by {
            if t@.contains_key(n) {
                let i = choose|i: int| 0 <= i < t.entries_view().len() && t.entries_view()[i].0@ == n;
                assert(entries@[i].0@ == n);
            }
            if out@.contains_key(n) {
                let i = choose|i: int| 0 <= i < j && entries@[i].0@ == n;
                lemma_entry_in_map(t.entries_view(), i);
            }
        }
        assert(out@.dom() =~= t@.dom());
    }
    out
}

/// A copy of a mesh.
pub fn copy_mesh(m: &Mesh) -> (c: Mesh)
    requires
        m.wf(),
    ensures
        c.wf(),
        same_mesh(c, *m),
{
    assert(m.attributes.table(AttributeDomain::Point).wf());
    assert(m.attributes.table(AttributeDomain::Vertex).wf());
    assert(m.attributes.table(AttributeDomain::Primitive).wf());
    assert(m.attributes.table(AttributeDomain::Detail).wf());
    let attributes = MeshAttributes::from_tables(
        copy_storage_table(m.attributes.map(AttributeDomain::Point)),
        copy_storage_table(m.attributes.map(AttributeDomain::Vertex)),
        copy_storage_table(m.attributes.map(AttributeDomain::Primitive)),
        copy_storage_table(m.attributes.map(AttributeDomain::Detail)),
    );
    let groups = MeshGroups::from_tables(
        copy_group_table(m.groups.map(AttributeDomain::Point)),
        copy_group_table(m.groups.map(AttributeDomain::Vertex)),
        copy_group_table(m.groups.map(AttributeDomain::Primitive)),
    );
    let c = Mesh {
        positions: copy_values(m.positions.as_slice()),
        indices: copy_values(m.indices.as_slice()),
        normals: copy_opt(&m.normals),
        corner_normals: copy_opt(&m.corner_normals),
        uvs: copy_opt(&m.uvs),
        attributes,
        groups,
    };
    proof {
        assert forall|d: AttributeDomain| #[trigger] c.attributes.table(d).wf() by {}
        assert forall|d: AttributeDomain| #[trigger] same_storage_table(c.attributes.table(d), m.attributes.table(d)) by {}
        lemma_detail_groups(m.groups);
        assert forall|d: AttributeDomain| #[trigger] same_group_table(c.groups.table(d), m.groups.table(d)) by {}
    }
    c
}

/// The values of each attribute of a table at the given indices that exist.
pub fn pick_storage_table(t: &TextMap<AttributeStorage>, indices: &[usize]) -> (r: TextMap<AttributeStorage>)
    requires
        t.wf(),
    ensures
        r.wf(),
        entry_names(r.entries_view()) == entry_names(t.entries_view()),
        r@.dom() == t@.dom(),
        forall|n: Seq<char>| #[trigger] r@.contains_key(n) ==> storage_values(r@[n]) == picked_values(storage_values(t@[n]), indices@),
{
    let entries = t.entries();
    let mut out: TextMap<AttributeStorage> = TextMap::new();
    let mut j: usize = 0;
    while j < entries.len()
        invariant
            t.wf(),
            entries@ == t.entries_view(),
            0 <= j <= entries@.len(),
            out.wf(),
            entry_names(out.entries_view()) == entry_names(entries@.take(j as int)),
            forall|n: Seq<char>| #[trigger] out@.contains_key(n) <==> exists|i: int| 0 <= i < j && entries@[i].0@ == n,
            forall|n: Seq<char>| #[trigger] out@.contains_key(n) ==> storage_values(out@[n]) == picked_values(storage_values(t@[n]), indices@),
        decreases entries@.len() - j,
    {
        let name = &entries[j].0;
        let value = pick_storage(&entries[j].1, indices);
        proof {
            lemma_entry_in_map(t.entries_view(), j as int);
            assert(!out@.contains_key(name@)) by {
                if out@.contains_key(name@) {
                    let i = choose|i: int| 0 <= i < j && entries@[i].0@ == name@;
                }
            }
        }
        let ghost before = out.entries_view();
        out.insert(name.clone(), value);
        proof {
            assert(entry_names(entries@.take(j + 1)) =~= entry_names(entries@.take(j as int)).push(name@));
            assert(entry_names(out.entries_view()) =~= entry_names(before).push(name@));
            assert forall|n: Seq<char>| #[trigger] out@.contains_key(n) <==> exists|i: int| 0 <= i < j + 1 && entries@[i].0@ == n by {
                if n == name@ {
                    assert(entries@[j as int].0@ == n);
                }
            }
        }
        j = j + 1;
    }
    proof {
        assert(entries@.take(entries@.len() as int) =~= entries@);
        assert forall|n: Seq<char>| out@.contains_key(n) <==> t@.contains_key(n) by {
            if t@.contains_key(n) {
                let i = choose|i: int| 0 <= i < t.entries_view().len() && t.entries_view()[i].0@ == n;
                assert(entries@[i].0@ == n);
            }
            if out@.contains_key(n) {
                let i = choose|i: int| 0 <= i < j && entries@[i].0@ == n;
                lemma_entry_in_map(t.entries_view(), i);
            }
        }
        assert(out@.dom() =~= t@.dom());
    }
    out
}

/// The flags of each group of a table at the given indices that exist.
pub fn pick_group_table(t: &TextMap<Vec<bool>>, indices: &[usize]) -> (r: TextMap<Vec<bool>>)
    requires
        t.wf(),
    ensures
        r.wf(),
        entry_names(r.entries_view()) == entry_names(t.entries_view()),
        r@.dom() == t@.dom(),
        forall|n: Seq<char>| #[trigger] r@.contains_key(n) ==> r@[n]@ == picked(t@[n]@, indices@),
{
    let entries = t.entries();
    let mut out: TextMap<Vec<bool>> = TextMap::new();
    let mut j: usize = 0;
    while j < entries.len()
        invariant
            t.wf(),
            entries@ == t.entries_view(),
            0 <= j <= entries@.len(),
            out.wf(),
            entry_names(out.entries_view()) == entry_names(entries@.take(j as int)),
            forall|n: Seq<char>| #[trigger] out@.contains_key(n) <==> exists|i: int| 0 <= i < j && entries@[i].0@ == n,
            forall|n: Seq<char>| #[trigger] out@.contains_key(n) ==> out@[n]@ == picked(t@[n]@, indices@),
        decreases entries@.len() - j,
    {
        let name = &entries[j].0;
        let value = pick_values(entries[j].1.as_slice(), indices);
        proof {
            lemma_entry_in_map(t.entries_view(), j as int);
            assert(!out@.contains_key(name@)) by {
                if out@.contains_key(name@) {
                    let i = choose|i: int| 0 <= i < j && entries@[i].0@ == name@;
                }
            }
        }
        let ghost before = out.entries_view();
        out.insert(name.clone(), value);
        proof {
            assert(entry_names(entries@.take(j + 1)) =~= entry_names(entries@.take(j as int)).push(name@));
            assert(entry_names(out.entries_view()) =~= entry_names(before).push(name@));
            assert forall|n: Seq<char>| #[trigger] out@.contains_key(n) <==> exists|i: int| 0 <= i < j + 1 && entries@[i].0@ == n by {
                if n == name@ {
                    assert(entries@[j as int].0@ == n);
                }
            }
        }
        j = j + 1;
    }
    proof {
        assert(entries@.take(entries@.len() as int) =~= entries@);
        assert forall|n: Seq<char>| out@.contains_key(n) <==> t@.contains_key(n) by {
            if t@.contains_key(n) {
                let i = choose|i: int| 0 <= i < t.entries_view().len() && t.entries_view()[i].0@ == n;
                assert(entries@[i].0@ == n);
            }
            if out@.contains_key(n) {
                let i = choose|i: int| 0 <= i < j && entries@[i].0@ == n;
                lemma_entry_in_map(t.entries_view(), i);
            }
        }
        assert(out@.dom() =~= t@.dom());
    }
    out
}

} // verus!
