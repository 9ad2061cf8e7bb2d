//! Merging meshes into one: points and corners one after another, optional
//! channels kept where every mesh has them, attributes and groups combined by name.

use vstd::prelude::*;
use crate::attributes::{AttributeDomain, AttributeStorage, AttributeType, MeshAttributes, storage_len, storage_type};
use crate::attribute_values::{
    StorageValues, append_storage, copy_storage, empty_storage, storage_equal, storage_equals, storage_values,
    values_concat, values_empty, extend_values,
};
use crate::mesh::Mesh;
use crate::mesh_groups::MeshGroups;
use crate::text_map::{TextMap, lemma_entry_in_map};

verus! {

/// The points of the meshes, one mesh after another.
pub open spec fn positions_concat(meshes: Seq<Mesh>) -> Seq<[u32; 3]>
    decreases meshes.len(),
{
    if meshes.len() == 0 {
        Seq::empty()
    } else {
        positions_concat(meshes.drop_last()) + meshes.last().positions@
    }
}

/// The corner indices of `indices`, each raised by `offset`.
pub open spec fn shifted(indices: Seq<u32>, offset: int) -> Seq<u32> {
    indices.map_values(|i: u32| (i + offset) as u32)
}

/// The corners of the meshes, one mesh after another, each index raised by the
/// number of points of the meshes before its own.
pub open spec fn indices_concat(meshes: Seq<Mesh>) -> Seq<u32>
    decreases meshes.len(),
{
    if meshes.len() == 0 {
        Seq::empty()
    } else {
        indices_concat(meshes.drop_last()) + shifted(meshes.last().indices@, positions_concat(meshes.drop_last()).len() as int)
    }
}

/// The point count of all meshes fits in a `u32`, and so does every raised index.
pub open spec fn merge_fits(meshes: Seq<Mesh>) -> bool {
    &&& positions_concat(meshes).len() <= u32::MAX
    &&& forall|k: int, j: int| 0 <= k < meshes.len() && 0 <= j < meshes[k].indices@.len()
        ==> #[trigger] meshes[k].indices@[j] + positions_concat(meshes.take(k)).len() <= u32::MAX
}

/// Every mesh has point normals.
pub open spec fn all_have_normals(meshes: Seq<Mesh>) -> bool {
    forall|k: int| 0 <= k < meshes.len() ==> (#[trigger] meshes[k]).normals is Some
}

/// Every mesh has corner normals.
pub open spec fn all_have_corner_normals(meshes: Seq<Mesh>) -> bool {
    forall|k: int| 0 <= k < meshes.len() ==> (#[trigger] meshes[k]).corner_normals is Some
}

/// Every mesh has UVs.
pub open spec fn all_have_uvs(meshes: Seq<Mesh>) -> bool {
    forall|k: int| 0 <= k < meshes.len() ==> (#[trigger] meshes[k]).uvs is Some
}

/// The point normals of the meshes, one mesh after another.
pub open spec fn normals_concat(meshes: Seq<Mesh>) -> Seq<[u32; 3]>
    decreases meshes.len(),
{
    if meshes.len() == 0 {
        Seq::empty()
    } else {
        normals_concat(meshes.drop_last()) + meshes.last().normals.unwrap()@
    }
}

/// The corner normals of the meshes, one mesh after another.
pub open spec fn corner_normals_concat(meshes: Seq<Mesh>) -> Seq<[u32; 3]>
    decreases meshes.len(),
{
    if meshes.len() == 0 {
        Seq::empty()
    } else {
        corner_normals_concat(meshes.drop_last()) + meshes.last().corner_normals.unwrap()@
    }
}

/// The UVs of the meshes, one mesh after another.
pub open spec fn uvs_concat(meshes: Seq<Mesh>) -> Seq<[u32; 2]>
    decreases meshes.len(),
{
    if meshes.len() == 0 {
        Seq::empty()
    } else {
        uvs_concat(meshes.drop_last()) + meshes.last().uvs.unwrap()@
    }
}

/// The attribute `name` of `domain` in `m` (meaningful where `m` has it).
pub open spec fn attr(m: Mesh, domain: AttributeDomain, name: Seq<char>) -> AttributeStorage {
    m.attributes.table(domain)@[name]
}

/// Whether `m` has the attribute `name` of `domain`, with values of type `t`.
pub open spec fn attr_has_type(m: Mesh, domain: AttributeDomain, name: Seq<char>, t: AttributeType) -> bool {
    m.attributes.table(domain)@.contains_key(name) && storage_type(attr(m, domain, name)) == t
}

/// Every mesh from `from` on has the attribute, with values of type `t`.
pub open spec fn attr_typed_from(meshes: Seq<Mesh>, from: int, domain: AttributeDomain, name: Seq<char>, t: AttributeType) -> bool {
    forall|k: int| from <= k < meshes.len() ==> #[trigger] attr_has_type(meshes[k], domain, name, t)
}

/// Every mesh holds as many values of the attribute as the domain has elements,
/// where the domain has any.
pub open spec fn attr_lengths_fit(meshes: Seq<Mesh>, domain: AttributeDomain, name: Seq<char>) -> bool {
    forall|k: int| 0 <= k < meshes.len() ==> (#[trigger] meshes[k]).domain_len(domain) == 0
        || storage_len(attr(meshes[k], domain, name)) == meshes[k].domain_len(domain)
}

/// Every mesh after the first holds detail values equal to those of the first.
pub open spec fn attr_detail_agrees(meshes: Seq<Mesh>, domain: AttributeDomain, name: Seq<char>) -> bool {
    forall|k: int| 1 <= k < meshes.len() ==> storage_equal(#[trigger] attr(meshes[k], domain, name), attr(meshes[0], domain, name))
}

/// Whether the attribute `name` of `domain` is kept by a merge: the first mesh has
/// it, every other mesh has it with values of the same type, and detail values
/// agree while other values fill their domains.
pub open spec fn attr_merges(meshes: Seq<Mesh>, domain: AttributeDomain, name: Seq<char>) -> bool {
    &&& meshes.len() > 0
    &&& meshes[0].attributes.table(domain)@.contains_key(name)
    &&& attr_typed_from(meshes, 1, domain, name, storage_type(attr(meshes[0], domain, name)))
    &&& if domain == AttributeDomain::Detail {
        attr_detail_agrees(meshes, domain, name)
    } else {
        attr_lengths_fit(meshes, domain, name)
    }
}

/// The values of the attribute in every mesh, one mesh after another, starting
/// from no values of type `t`.
pub open spec fn attr_values_concat(meshes: Seq<Mesh>, domain: AttributeDomain, name: Seq<char>, t: AttributeType) -> StorageValues
    decreases meshes.len(),
{
    if meshes.len() == 0 {
        values_empty(t)
    } else {
        values_concat(attr_values_concat(meshes.drop_last(), domain, name, t), storage_values(attr(meshes.last(), domain, name)))
    }
}

/// The values a merge keeps for an attribute: those of the first mesh for a
/// detail attribute, those of all meshes one after another otherwise.
pub open spec fn merged_attr_values(meshes: Seq<Mesh>, domain: AttributeDomain, name: Seq<char>) -> StorageValues {
    if domain == AttributeDomain::Detail {
        storage_values(attr(meshes[0], domain, name))
    } else {
        attr_values_concat(meshes, domain, name, storage_type(attr(meshes[0], domain, name)))
    }
}

/// The part of a merged group that mesh `m` gives: its own mask where it has the
/// group with one flag per element, no member otherwise.
pub open spec fn group_piece(m: Mesh, domain: AttributeDomain, name: Seq<char>) -> Seq<bool> {
    if m.groups.table(domain)@.contains_key(name) && m.groups.table(domain)@[name]@.len() == m.domain_len(domain) {
        m.groups.table(domain)@[name]@
    } else {
        Seq::new(m.domain_len(domain), |i: int| false)
    }
}

/// A merged group: the pieces of all meshes, one after another.
pub open spec fn group_concat(meshes: Seq<Mesh>, domain: AttributeDomain, name: Seq<char>) -> Seq<bool>
    decreases meshes.len(),
{
    if meshes.len() == 0 {
        Seq::empty()
    } else {
        group_concat(meshes.drop_last(), domain, name) + group_piece(meshes.last(), domain, name)
    }
}

/// Whether `m` has a group `name` in `domain`.
pub open spec fn has_group(m: Mesh, domain: AttributeDomain, name: Seq<char>) -> bool {
    m.groups.table(domain)@.contains_key(name)
}

/// Whether some mesh has a group `name` in `domain`.
pub open spec fn group_named(meshes: Seq<Mesh>, domain: AttributeDomain, name: Seq<char>) -> bool {
    exists|k: int| 0 <= k < meshes.len() && #[trigger] has_group(meshes[k], domain, name)
}

/// Whether `r` is the merge of `meshes`: points and corners one mesh after
/// another, corner indices raised by the points before their mesh, each optional
/// channel present exactly where every mesh has it, the attributes that survive
/// with their merged values, and every group of any mesh with its merged mask.
pub open spec fn is_merge_of(r: Mesh, meshes: Seq<Mesh>) -> bool {
    &&& r.positions@ == positions_concat(meshes)
    &&& r.indices@ == indices_concat(meshes)
    &&& (r.normals is Some <==> all_have_normals(meshes))
    &&& (r.normals matches Some(v) ==> v@ == normals_concat(meshes))
    &&& (r.corner_normals is Some <==> all_have_corner_normals(meshes))
    &&& (r.corner_normals matches Some(v) ==> v@ == corner_normals_concat(meshes))
    &&& (r.uvs is Some <==> all_have_uvs(meshes))
    &&& (r.uvs matches Some(v) ==> v@ == uvs_concat(meshes))
    &&& forall|d: AttributeDomain, n: Seq<char>| #[trigger] r.attributes.table(d)@.contains_key(n) <==> attr_merges(meshes, d, n)
    &&& forall|d: AttributeDomain, n: Seq<char>| attr_merges(meshes, d, n)
        ==> storage_values(#[trigger] r.attributes.table(d)@[n]) == merged_attr_values(meshes, d, n)
    &&& forall|d: AttributeDomain, n: Seq<char>| d != AttributeDomain::Detail
        ==> (#[trigger] r.groups.table(d)@.contains_key(n) <==> group_named(meshes, d, n))
    &&& forall|d: AttributeDomain, n: Seq<char>| d != AttributeDomain::Detail && #[trigger] r.groups.table(d)@.contains_key(n)
        ==> r.groups.table(d)@[n]@ == group_concat(meshes, d, n)
}

/// Every mesh's tables are well formed.
pub open spec fn all_wf(meshes: Seq<Mesh>) -> bool {
    forall|k: int| 0 <= k < meshes.len() ==> (#[trigger] meshes[k]).wf()
}

pub(crate) proof fn lemma_take_step<A>(meshes: Seq<A>, k: int)
    requires
        0 <= k < meshes.len(),
    ensures
        meshes.take(k + 1).drop_last() == meshes.take(k),
        meshes.take(k + 1).last() == meshes[k],
        meshes.take(k + 1).len() == k + 1,
{
    assert(meshes.take(k + 1).drop_last() =~= meshes.take(k));
}

/// Whether every mesh after the first has the attribute with values of type `t`.
fn attr_types_agree(meshes: &[Mesh], domain: AttributeDomain, name: &str, t: AttributeType) -> (r: bool)
    requires
        all_wf(meshes@),
    ensures
        r == attr_typed_from(meshes@, 1, domain, name@, t),
{
    if meshes.len() == 0 {
        return true;
    }
    let mut k: usize = 1;
    while k < meshes.len()
        invariant
            all_wf(meshes@),
            1 <= k <= meshes@.len(),
            forall|i: int| 1 <= i < k ==> #[trigger] attr_has_type(meshes@[i], domain, name@, t),
        decreases meshes@.len() - k,
    {
        assert(meshes@[k as int].wf());
        match meshes[k].attributes.get(domain, name) {
            Some(s) => {
                let st = s.data_type();
                assert(meshes@[k as int].attributes.table(domain)@.contains_key(name@));
                assert(attr(meshes@[k as int], domain, name@) == *s);
                if st != t {
                    assert(!attr_has_type(meshes@[k as int], domain, name@, t));
                    return false;
                }
            },
            None => {
                assert(!attr_has_type(meshes@[k as int], domain, name@, t));
                return false;
            },
        }
        assert(attr_has_type(meshes@[k as int], domain, name@, t));
        k = k + 1;
    }
    true
}

/// Whether every mesh after the first holds values equal to `first`.
fn detail_agrees(meshes: &[Mesh], domain: AttributeDomain, name: &str, first: &AttributeStorage) -> (r: bool)
    requires
        all_wf(meshes@),
        meshes@.len() > 0,
        *first == attr(meshes@[0], domain, name@),
        attr_typed_from(meshes@, 1, domain, name@, storage_type(*first)),
    ensures
        r == attr_detail_agrees(meshes@, domain, name@),
{
    let mut k: usize = 1;
    while k < meshes.len()
        invariant
            all_wf(meshes@),
            meshes@.len() > 0,
            *first == attr(meshes@[0], domain, name@),
            attr_typed_from(meshes@, 1, domain, name@, storage_type(*first)),
            1 <= k <= meshes@.len(),
            forall|i: int| 1 <= i < k ==> storage_equal(#[trigger] attr(meshes@[i], domain, name@), attr(meshes@[0], domain, name@)),
        decreases meshes@.len() - k,
    {
        assert(meshes@[k as int].wf());
        assert(attr_has_type(meshes@[k as int], domain, name@, storage_type(*first)));
        match meshes[k].attributes.get(domain, name) {
            Some(s) => {
                if !storage_equals(s, first) {
                    assert(!storage_equal(attr(meshes@[k as int], domain, name@), attr(meshes@[0], domain, name@)));
                    return false;
                }
            },
            None => {
                return false;
            },
        }
        k = k + 1;
    }
    true
}

/// The values of the attribute in every mesh one after another, where each mesh
/// holds as many as its domain has elements (or its domain has none).
fn concat_attribute(meshes: &[Mesh], domain: AttributeDomain, name: &str, t: AttributeType) -> (r: Option<AttributeStorage>)
    requires
        all_wf(meshes@),
        attr_typed_from(meshes@, 0, domain, name@, t),
    ensures
        r is Some <==> attr_lengths_fit(meshes@, domain, name@),
        r matches Some(s) ==> storage_values(s) == attr_values_concat(meshes@, domain, name@, t) && storage_type(s) == t,
{
    let mut combined = empty_storage(t);
    let mut k: usize = 0;
    while k < meshes.len()
        invariant
            all_wf(meshes@),
            attr_typed_from(meshes@, 0, domain, name@, t),
            0 <= k <= meshes@.len(),
            storage_type(combined) == t,
            storage_values(combined) == attr_values_concat(meshes@.take(k as int), domain, name@, t),
            forall|i: int| 0 <= i < k ==> (#[trigger] meshes@[i]).domain_len(domain) == 0
                || storage_len(attr(meshes@[i], domain, name@)) == meshes@[i].domain_len(domain),
        decreases meshes@.len() - k,
    {
        assert(meshes@[k as int].wf());
        assert(attr_has_type(meshes@[k as int], domain, name@, t));
        let expected = meshes[k].attribute_domain_len(domain);
        match meshes[k].attributes.get(domain, name) {
            Some(current) => {
                if expected != 0 && current.len() != expected {
                    return None;
                }
                let (c, _) = append_storage(combined, current);
                combined = c;
            },
            None => {
                return None;
            },
        }
        proof {
            lemma_take_step(meshes@, k as int);
        }
        k = k + 1;
    }
    assert(meshes@.take(meshes@.len() as int) =~= meshes@);
    Some(combined)
}

/// The merged attribute table of one domain.
fn merge_attribute_table(meshes: &[Mesh], domain: AttributeDomain) -> (r: TextMap<AttributeStorage>)
    requires
        all_wf(meshes@),
        meshes@.len() > 0,
    ensures
        r.wf(),
        forall|n: Seq<char>| #[trigger] r@.contains_key(n) <==> attr_merges(meshes@, domain, n),
        forall|n: Seq<char>| attr_merges(meshes@, domain, n) ==> storage_values(#[trigger] r@[n]) == merged_attr_values(meshes@, domain, n),
{
    assert(meshes@[0].wf());
    let first = meshes[0].attributes.map(domain);
    assert(first.wf());
    let entries = first.entries();
    let mut out: TextMap<AttributeStorage> = TextMap::new();
    let mut j: usize = 0;
    while j < entries.len()
        invariant
            all_wf(meshes@),
            meshes@.len() > 0,
            *first == meshes@[0].attributes.table(domain),
            first.wf(),
            entries@ == first.entries_view(),
            0 <= j <= entries@.len(),
            out.wf(),
            forall|n: Seq<char>| #[trigger] out@.contains_key(n) <==> (attr_merges(meshes@, domain, n)
                && exists|i: int| 0 <= i < j && entries@[i].0@ == n),
            forall|n: Seq<char>| #[trigger] out@.contains_key(n) ==> storage_values(out@[n]) == merged_attr_values(meshes@, domain, n),
        decreases entries@.len() - j,
    {
        let name = &entries[j].0;
        let storage = &entries[j].1;
        proof {
            lemma_entry_in_map(first.entries_view(), j as int);
            assert forall|i: int| 0 <= i < j implies entries@[i].0@ != name@ by {}
        }
        let t = storage.data_type();
        let ghost n = name@;
        if attr_types_agree(meshes, domain, name.as_str(), t) {
            let value = if domain == AttributeDomain::Detail {
                if detail_agrees(meshes, domain, name.as_str(), storage) {
                    Some(copy_storage(storage))
                } else {
                    None
                }
            } else {
                proof {
                    assert forall|k: int| 0 <= k < meshes@.len() implies #[trigger] attr_has_type(meshes@[k], domain, n, t) by {
                        if k == 0 {
                            assert(first@.contains_key(n));
                        }
                    }
                }
                concat_attribute(meshes, domain, name.as_str(), t)
            };
            match value {
                Some(v) => {
                    let key = name.clone();
                    out.insert(key, v);
                },
                None => {},
            }
        }
        proof {
            assert forall|m: Seq<char>| #[trigger] out@.contains_key(m) <==> (attr_merges(meshes@, domain, m)
                && exists|i: int| 0 <= i < j + 1 && entries@[i].0@ == m) by {
                if m == n {
                    assert(entries@[j as int].0@ == m);
                } else {
                    if exists|i: int| 0 <= i < j + 1 && entries@[i].0@ == m {
                        let i = choose|i: int| 0 <= i < j + 1 && entries@[i].0@ == m;
                        assert(i < j);
                    }
                }
            }
        }
        j = j + 1;
    }
    proof {
        assert forall|n: Seq<char>| attr_merges(meshes@, domain, n) implies #[trigger] out@.contains_key(n) by {
            assert(first@.contains_key(n));
            let i = choose|i: int| 0 <= i < first.entries_view().len() && first.entries_view()[i].0@ == n;
            assert(entries@[i].0@ == n);
        }
        assert forall|n: Seq<char>| attr_merges(meshes@, domain, n) implies storage_values(#[trigger] out@[n])
            == merged_attr_values(meshes@, domain, n) by {
            assert(out@.contains_key(n));
        }
    }
    out
}

/// The merged group of `name`: the pieces of all meshes one after another.
fn concat_group(meshes: &[Mesh], domain: AttributeDomain, name: &str) -> (r: Vec<bool>)
    requires
        all_wf(meshes@),
        domain != AttributeDomain::Detail,
    ensures
        r@ == group_concat(meshes@, domain, name@),
{
    let mut values: Vec<bool> = Vec::new();
    let mut k: usize = 0;
    while k < meshes.len()
        invariant
            all_wf(meshes@),
            domain != AttributeDomain::Detail,
            0 <= k <= meshes@.len(),
            values@ == group_concat(meshes@.take(k as int), domain, name@),
        decreases meshes@.len() - k,
    {
        assert(meshes@[k as int].wf());
        let len = meshes[k].attribute_domain_len(domain);
        let table = meshes[k].groups.map(domain);
        assert(table.wf());
        let ghost before = values@;
        let mut own = false;
        match table.get(name) {
            Some(group) => {
                if group.len() == len {
                    extend_values(&mut values, group.as_slice());
                    own = true;
                }
            },
            None => {},
        }
        if !own {
            let mut c: usize = 0;
            while c < len
                invariant
                    0 <= c <= len,
                    values@ == before + Seq::new(c as nat, |i: int| false),
                decreases len - c,
            {
                values.push(false);
                c = c + 1;
                proof {
                    assert(values@ =~= before + Seq::new(c as nat, |i: int| false));
                }
            }
        }
        proof {
            lemma_take_step(meshes@, k as int);
            assert(values@ =~= before + group_piece(meshes@[k as int], domain, name@));
        }
        k = k + 1;
    }
    assert(meshes@.take(meshes@.len() as int) =~= meshes@);
    values
}

/// The merged group table of one domain: every group name of any mesh.
fn merge_group_table(meshes: &[Mesh], domain: AttributeDomain) -> (r: TextMap<Vec<bool>>)
    requires
        all_wf(meshes@),
        domain != AttributeDomain::Detail,
    ensures
        r.wf(),
        forall|n: Seq<char>| #[trigger] r@.contains_key(n) <==> group_named(meshes@, domain, n),
        forall|n: Seq<char>| #[trigger] r@.contains_key(n) ==> r@[n]@ == group_concat(meshes@, domain, n),
{
    let mut out: TextMap<Vec<bool>> = TextMap::new();
    let mut k: usize = 0;
    while k < meshes.len()
        invariant
            all_wf(meshes@),
            domain != AttributeDomain::Detail,
            0 <= k <= meshes@.len(),
            out.wf(),
            forall|n: Seq<char>| #[trigger] out@.contains_key(n) <==> group_named(meshes@.take(k as int), domain, n),
            forall|n: Seq<char>| #[trigger] out@.contains_key(n) ==> out@[n]@ == group_concat(meshes@, domain, n),
        decreases meshes@.len() - k,
    {
        assert(meshes@[k as int].wf());
        let table = meshes[k].groups.map(domain);
        assert(table.wf());
        let entries = table.entries();
        let mut j: usize = 0;
        while j < entries.len()
            invariant
                all_wf(meshes@),
                domain != AttributeDomain::Detail,
                0 <= k < meshes@.len(),
                *table == meshes@[k as int].groups.table(domain),
                table.wf(),
                entries@ == table.entries_view(),
                0 <= j <= entries@.len(),
                out.wf(),
                forall|n: Seq<char>| #[trigger] out@.contains_key(n) <==> (group_named(meshes@.take(k as int), domain, n)
                    || exists|i: int| 0 <= i < j && entries@[i].0@ == n),
                forall|n: Seq<char>| #[trigger] out@.contains_key(n) ==> out@[n]@ == group_concat(meshes@, domain, n),
            decreases entries@.len() - j,
        {
            let name = &entries[j].0;
            if !out.contains_key(name.as_str()) {
                let values = concat_group(meshes, domain, name.as_str());
                out.insert(name.clone(), values);
            }
            proof {
                assert forall|m: Seq<char>| #[trigger] out@.contains_key(m) <==> (group_named(meshes@.take(k as int), domain, m)
                    || exists|i: int| 0 <= i < j + 1 && entries@[i].0@ == m) by {
                    if exists|i: int| 0 <= i < j + 1 && entries@[i].0@ == m {
                        let i = choose|i: int| 0 <= i < j + 1 && entries@[i].0@ == m;
                        if i == j {
                            assert(m == name@);
                        }
                    }
                }
            }
            j = j + 1;
        }
        proof {
            lemma_take_step(meshes@, k as int);
            let next = meshes@.take(k + 1);
            assert forall|n: Seq<char>| #[trigger] out@.contains_key(n) <==> group_named(next, domain, n) by {
                if out@.contains_key(n) {
                    if group_named(meshes@.take(k as int), domain, n) {
                        let i = choose|i: int| 0 <= i < k && #[trigger] has_group(meshes@.take(k as int)[i], domain, n);
                        assert(next[i] == meshes@.take(k as int)[i]);
                        assert(has_group(next[i], domain, n));
                    } else {
                        let i = choose|i: int| 0 <= i < entries@.len() && entries@[i].0@ == n;
                        lemma_entry_in_map(table.entries_view(), i);
                        assert(next[k as int] == meshes@[k as int]);
                        assert(has_group(next[k as int], domain, n));
                    }
                }
                if group_named(next, domain, n) {
                    let i = choose|i: int| 0 <= i < k + 1 && #[trigger] has_group(next[i], domain, n);
                    if i < k {
                        assert(meshes@.take(k as int)[i] == next[i]);
                        assert(has_group(meshes@.take(k as int)[i], domain, n));
                    } else {
                        assert(next[i] == meshes@[k as int]);
                        assert(table@.contains_key(n));
                        let e = choose|e: int| 0 <= e < table.entries_view().len() && table.entries_view()[e].0@ == n;
                        assert(entries@[e].0@ == n);
                    }
                }
            }
        }
        k = k + 1;
    }
    assert(meshes@.take(meshes@.len() as int) =~= meshes@);
    out
}

impl Mesh {
    /// One mesh holding all of `meshes`: the points and corners one mesh after
    /// another, each corner index raised by the number of points before its mesh;
    /// normals, corner normals and UVs where every mesh has them; the attributes of
    /// the first mesh that every mesh has with one type (detail attributes where
    /// all agree, other attributes where each mesh fills its domain); and every
    /// group of any mesh, with no members where a mesh lacks it.
    pub fn merge(meshes: &[Mesh]) -> (r: Mesh)
        requires
            all_wf(meshes@),
            merge_fits(meshes@),
        ensures
            r.wf(),
            is_merge_of(r, meshes@),
    {
        let (positions, indices) = merge_points(meshes);
        let normals = merge_normals(meshes);
        let corner_normals = merge_corner_normals(meshes);
        let uvs = merge_uvs(meshes);
        let attributes = if meshes.len() == 0 {
            MeshAttributes::new()
        } else {
            MeshAttributes::from_tables(
                merge_attribute_table(meshes, AttributeDomain::Point),
                merge_attribute_table(meshes, AttributeDomain::Vertex),
                merge_attribute_table(meshes, AttributeDomain::Primitive),
                merge_attribute_table(meshes, AttributeDomain::Detail),
            )
        };
        let groups = MeshGroups::from_tables(
            merge_group_table(meshes, AttributeDomain::Point),
            merge_group_table(meshes, AttributeDomain::Vertex),
            merge_group_table(meshes, AttributeDomain::Primitive),
        );
        let r = Mesh { positions, indices, normals, corner_normals, uvs, attributes, groups };
        proof {
            assert forall|d: AttributeDomain| #[trigger] r.attributes.table(d).wf() by {}
            assert forall|d: AttributeDomain, n: Seq<char>| #[trigger] r.attributes.table(d)@.contains_key(n)
                <==> attr_merges(meshes@, d, n) by {}
        }
        r
    }
}

/// The points and corners of the meshes, one mesh after another.
fn merge_points(meshes: &[Mesh]) -> (r: (Vec<[u32; 3]>, Vec<u32>))
    requires
        merge_fits(meshes@),
    ensures
        r.0@ == positions_concat(meshes@),
        r.1@ == indices_concat(meshes@),
{
    let mut positions: Vec<[u32; 3]> = Vec::new();
    let mut indices: Vec<u32> = Vec::new();
    let mut offset: u32 = 0;
    let mut k: usize = 0;
    proof {
        lemma_positions_prefix_bound(meshes@, 0);
    }
    while k < meshes.len()
        invariant
            merge_fits(meshes@),
            0 <= k <= meshes@.len(),
            positions@ == positions_concat(meshes@.take(k as int)),
            indices@ == indices_concat(meshes@.take(k as int)),
            offset == positions@.len(),
        decreases meshes@.len() - k,
    {
        let mesh = &meshes[k];
        let ghost before = indices@;
        let mut j: usize = 0;
        while j < mesh.indices.len()
            invariant
                merge_fits(meshes@),
                0 <= k < meshes@.len(),
                *mesh == meshes@[k as int],
                offset == positions_concat(meshes@.take(k as int)).len(),
                0 <= j <= mesh.indices@.len(),
                indices@ == before + shifted(mesh.indices@, offset as int).take(j as int),
            decreases mesh.indices@.len() - j,
        {
            assert(mesh.indices@[j as int] + positions_concat(meshes@.take(k as int)).len() <= u32::MAX);
            indices.push(mesh.indices[j] + offset);
            j = j + 1;
            proof {
                assert(indices@ =~= before + shifted(mesh.indices@, offset as int).take(j as int));
            }
        }
        extend_values(&mut positions, mesh.positions.as_slice());
        proof {
            lemma_take_step(meshes@, k as int);
            assert(shifted(mesh.indices@, offset as int).take(mesh.indices@.len() as int) =~= shifted(mesh.indices@, offset as int));
            lemma_positions_prefix_bound(meshes@, k + 1);
        }
        offset = positions.len() as u32;
        k = k + 1;
    }
    assert(meshes@.take(meshes@.len() as int) =~= meshes@);
    (positions, indices)
}

/// The points of a prefix of the meshes are no more than those of all of them.
proof fn lemma_positions_prefix_bound(meshes: Seq<Mesh>, k: int)
    requires
        0 <= k <= meshes.len(),
    ensures
        positions_concat(meshes.take(k)).len() <= positions_concat(meshes).len(),
    decreases meshes.len() - k,
{
    if k < meshes.len() {
        lemma_positions_prefix_bound(meshes, k + 1);
        lemma_take_step(meshes, k);
    } else {
        assert(meshes.take(k) =~= meshes);
    }
}

/// The point normals of the meshes where every mesh has them.
fn merge_normals(meshes: &[Mesh]) -> (r: Option<Vec<[u32; 3]>>)
    ensures
        r is Some <==> all_have_normals(meshes@),
        r matches Some(v) ==> v@ == normals_concat(meshes@),
{
    let mut out: Vec<[u32; 3]> = Vec::new();
    let mut k: usize = 0;
    while k < meshes.len()
        invariant
            0 <= k <= meshes@.len(),
            all_have_normals(meshes@.take(k as int)),
            out@ == normals_concat(meshes@.take(k as int)),
        decreases meshes@.len() - k,
    {
        match &meshes[k].normals {
            Some(v) => {
                extend_values(&mut out, v.as_slice());
            },
            None => {
                assert(meshes@[k as int].normals is None);
                return None;
            },
        }
        proof {
            lemma_take_step(meshes@, k as int);
        }
        k = k + 1;
    }
    assert(meshes@.take(meshes@.len() as int) =~= meshes@);
    Some(out)
}

/// The corner normals of the meshes where every mesh has them.
fn merge_corner_normals(meshes: &[Mesh]) -> (r: Option<Vec<[u32; 3]>>)
    ensures
        r is Some <==> all_have_corner_normals(meshes@),
        r matches Some(v) ==> v@ == corner_normals_concat(meshes@),
{
    let mut out: Vec<[u32; 3]> = Vec::new();
    let mut k: usize = 0;
    while k < meshes.len()
        invariant
            0 <= k <= meshes@.len(),
            all_have_corner_normals(meshes@.take(k as int)),
            out@ == corner_normals_concat(meshes@.take(k as int)),
        decreases meshes@.len() - k,
    {
        match &meshes[k].corner_normals {
            Some(v) => {
                extend_values(&mut out, v.as_slice());
            },
            None => {
                assert(meshes@[k as int].corner_normals is None);
                return None;
            },
        }
        proof {
            lemma_take_step(meshes@, k as int);
        }
        k = k + 1;
    }
    assert(meshes@.take(meshes@.len() as int) =~= meshes@);
    Some(out)
}

/// The UVs of the meshes where every mesh has them.
fn merge_uvs(meshes: &[Mesh]) -> (r: Option<Vec<[u32; 2]>>)
    ensures
        r is Some <==> all_have_uvs(meshes@),
        r matches Some(v) ==> v@ == uvs_concat(meshes@),
{
    let mut out: Vec<[u32; 2]> = Vec::new();
    let mut k: usize = 0;
    while k < meshes.len()
        invariant
            0 <= k <= meshes@.len(),
            all_have_uvs(meshes@.take(k as int)),
            out@ == uvs_concat(meshes@.take(k as int)),
        decreases meshes@.len() - k,
    {
        match &meshes[k].uvs {
            Some(v) => {
                extend_values(&mut out, v.as_slice());
            },
            None => {
                assert(meshes@[k as int].uvs is None);
                return None;
            },
        }
        proof {
            lemma_take_step(meshes@, k as int);
        }
        k = k + 1;
    }
    assert(meshes@.take(meshes@.len() as int) =~= meshes@);
    Some(out)
}

/// Merging a single mesh gives back its points, its corners, and every attribute
/// that is a detail attribute or fills its domain, with the same values.
pub proof fn law_merge_single(m: Mesh, r: Mesh)
    requires
        is_merge_of(r, seq![m]),
    ensures
        r.positions@ == m.positions@,
        r.indices@ == m.indices@,
        forall|d: AttributeDomain, n: Seq<char>| #![trigger r.attributes.table(d)@[n]]
            m.attributes.table(d)@.contains_key(n) && (d == AttributeDomain::Detail || m.domain_len(d) == 0
            || storage_len(attr(m, d, n)) == m.domain_len(d))
            ==> r.attributes.table(d)@.contains_key(n) && storage_values(r.attributes.table(d)@[n]) == storage_values(attr(m, d, n)),
{
    let s = seq![m];
    assert(s.drop_last() =~= Seq::<Mesh>::empty());
    assert(s.last() == m);
    assert(positions_concat(s) =~= m.positions@);
    assert(shifted(m.indices@, 0) =~= m.indices@);
    assert(positions_concat(s.drop_last()).len() == 0);
    assert(indices_concat(s.drop_last()) =~= Seq::<u32>::empty());
    assert(Seq::<u32>::empty() + m.indices@ =~= m.indices@);
    assert(indices_concat(s) =~= m.indices@);
    assert forall|d: AttributeDomain, n: Seq<char>| #![trigger r.attributes.table(d)@[n]]
        m.attributes.table(d)@.contains_key(n) && (d == AttributeDomain::Detail || m.domain_len(d) == 0
        || storage_len(attr(m, d, n)) == m.domain_len(d))
        implies r.attributes.table(d)@.contains_key(n) && storage_values(r.attributes.table(d)@[n]) == storage_values(attr(m, d, n)) by {
        assert(s[0] == m);
        assert(attr_merges(s, d, n));
        if d != AttributeDomain::Detail {
            let t = storage_type(attr(m, d, n));
            assert(attr_values_concat(s.drop_last(), d, n, t) == values_empty(t));
            match attr(m, d, n) {
                AttributeStorage::Float(v) => { assert(Seq::<u32>::empty() + v@ =~= v@); },
                AttributeStorage::Int(v) => { assert(Seq::<i32>::empty() + v@ =~= v@); },
                AttributeStorage::Vec2(v) => { assert(Seq::<[u32; 2]>::empty() + v@ =~= v@); },
                AttributeStorage::Vec3(v) => { assert(Seq::<[u32; 3]>::empty() + v@ =~= v@); },
                AttributeStorage::Vec4(v) => { assert(Seq::<[u32; 4]>::empty() + v@ =~= v@); },
            }
        }
    }
}

} // verus!
