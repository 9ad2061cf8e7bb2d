//! The "Delete" node, which removes the selected elements of the geometry.

use vstd::prelude::*;
use crate::nodes::selection_shape_params;
use crate::params::{NodeParams, ParamValue, text_entry, text_param};
use crate::graph::NodeDefinition;
use crate::nodes::{geometry_in, geometry_out, geometry_node};
use crate::text::{owned, trimmed};
use crate::attributes::{AttributeDomain, AttributeStorage, MeshAttributes};
use crate::attribute_values::{copy_values, picked, picked_values, pick_values, storage_values};
use crate::mesh::Mesh;
use crate::mesh_groups::MeshGroups;
use crate::mesh_copy::{opt_view, same_storage_table, copy_storage_table, pick_storage_table, pick_group_table};
use crate::mesh_merge::all_wf;
use crate::nodes::group_utils::{GROUP_PARAM, GROUP_TYPE_PARAM, group_domain, group_type_of, group_mask, mapped_mask_in, mesh_group_mask};
use crate::groups::group_tokens;
use crate::topology::{MeshTopology, mask_at, lemma_unsized_corners_fit};
use crate::text_map::{TextMap, entry_names};

verus! {

/// The node kind's name.
pub const NAME: &'static str = "Delete";

/// The definition of the "Delete" node: an operator with geometry input "in" and one geometry output.
pub fn definition() -> (def: NodeDefinition)
    ensures
        geometry_node(def, NAME@, "Operators"@, seq!["in"@], seq!["out"@]),
{
    let def = NodeDefinition {
        name: owned(NAME),
        category: owned("Operators"),
        inputs: vec![geometry_in("in")],
        outputs: vec![geometry_out("out")],
    };
    assert(def.inputs@ =~= seq![def.inputs@[0]]);
    assert(def.outputs@ =~= seq![def.outputs@[0]]);
    def
}

/// The group membership of the kept elements, in order of the kept indices.
pub fn filter_group_values(values: &[bool], indices: &[usize]) -> (out: Vec<bool>)
    ensures
        out@ == picked(values@, indices@),
{
    pick_values(values, indices)
}

/// How many of the first `k` entries of `used` are set.
pub open spec fn used_before(used: Seq<bool>, k: int) -> int
    decreases k,
{
    if k <= 0 { 0 } else { used_before(used, k - 1) + if used[k - 1] { 1int } else { 0int } }
}

/// The positions of the set entries of `s`, in order.
pub open spec fn true_indices(s: Seq<bool>) -> Seq<usize>
    decreases s.len(),
{
    if s.len() == 0 {
        Seq::empty()
    } else if s.last() {
        true_indices(s.drop_last()).push((s.len() - 1) as usize)
    } else {
        true_indices(s.drop_last())
    }
}

/// For the elements that stay, in order: the new number of each element (the
/// largest `u32` for removed ones) and the old numbers of the kept ones.
pub fn build_index_mapping(used: &[bool]) -> (r: (Vec<u32>, Vec<usize>))
    requires
        used@.len() <= u32::MAX,
    ensures
        r.0@.len() == used@.len(),
        forall|i: int| 0 <= i < used@.len() ==> #[trigger] r.0@[i] == if used@[i] { used_before(used@, i) as u32 } else { u32::MAX },
        r.1@.len() == used_before(used@, used@.len() as int),
        forall|j: int| 0 <= j < r.1@.len() ==> used@[#[trigger] r.1@[j] as int] && used_before(used@, r.1@[j] as int) == j,
        forall|i: int| 0 <= i < r.1@.len() - 1 ==> #[trigger] r.1@[i] < r.1@[i + 1],
        forall|j: int| 0 <= j < r.1@.len() ==> (r.1@[j] as int) < r.0@.len() && #[trigger] r.0@[r.1@[j] as int] == j,
        r.1@ == true_indices(used@),
{
    let mut mapping: Vec<u32> = Vec::new();
    let mut kept: Vec<usize> = Vec::new();
    let mut next: u32 = 0;
    let mut idx: usize = 0;
    while idx < used.len()
        invariant
            0 <= idx <= used@.len(),
            used@.len() <= u32::MAX,
            next == used_before(used@, idx as int),
            next <= idx,
            mapping@.len() == idx,
            forall|i: int| 0 <= i < idx ==> #[trigger] mapping@[i] == if used@[i] { used_before(used@, i) as u32 } else { u32::MAX },
            kept@.len() == next,
            forall|j: int| 0 <= j < kept@.len() ==> #[trigger] kept@[j] < idx && used@[kept@[j] as int] && used_before(used@, kept@[j] as int) == j,
            forall|i: int| 0 <= i < kept@.len() - 1 ==> #[trigger] kept@[i] < kept@[i + 1],
            kept@ == true_indices(used@.take(idx as int)),
        decreases used@.len() - idx,
    {
        proof {
            assert(used@.take(idx + 1).drop_last() =~= used@.take(idx as int));
        }
        if used[idx] {
            mapping.push(next);
            kept.push(idx);
            next = next + 1;
        } else {
            mapping.push(u32::MAX);
        }
        idx = idx + 1;
    }
    assert(used@.take(used@.len() as int) =~= used@);
    (mapping, kept)
}

/// The point mask of the `group` parameter: none when the trimmed expression is
/// empty or has no token; otherwise the mask of the groups it selects in the domain
/// that `group_type` picks, carried over to the points.
pub open spec fn point_group_mask(params: NodeParams, m: Mesh) -> Option<Seq<bool>> {
    let expr = trimmed(params.text_or(GROUP_PARAM@, ""@));
    let source = group_domain(m.groups, expr, group_type_of(params.int_or(GROUP_TYPE_PARAM@, 0)));
    if expr.len() == 0 || group_tokens(expr).len() == 0 {
        None
    } else {
        Some(mapped_mask_in(m.positions@.len(), m.indices@, m.faces(), source, AttributeDomain::Point,
            group_mask(m.groups, source, expr, m.domain_len(source))))
    }
}

/// Whether point `i` stays before triangles are looked at: it is outside the shape
/// (inside, when inverted), or a group mask is given and does not hold it.
pub open spec fn point_stays(inside: Seq<bool>, invert: bool, mask: Option<Seq<bool>>, i: int) -> bool {
    (if invert { inside[i] } else { !inside[i] }) || (mask matches Some(g) && !mask_at(g, i))
}

/// Which points stay before triangles are looked at.
pub open spec fn delete_keep(params: NodeParams, m: Mesh, inside: Seq<bool>) -> Seq<bool> {
    Seq::new(m.positions@.len(), |i: int| point_stays(inside, params.bool_or("invert"@, false), point_group_mask(params, m), i))
}

/// Whether all three corners of triangle `t` refer to points that stay.
pub open spec fn tri_kept(idx: Seq<u32>, keep: Seq<bool>, t: int) -> bool {
    mask_at(keep, idx[3 * t] as int) && mask_at(keep, idx[3 * t + 1] as int) && mask_at(keep, idx[3 * t + 2] as int)
}

/// The triangles among the first `n` whose points all stay, in order.
pub open spec fn kept_tris(idx: Seq<u32>, keep: Seq<bool>, n: int) -> Seq<usize>
    decreases n,
{
    if n <= 0 {
        Seq::empty()
    } else if tri_kept(idx, keep, n - 1) {
        kept_tris(idx, keep, n - 1).push((n - 1) as usize)
    } else {
        kept_tris(idx, keep, n - 1)
    }
}

/// The corners of the given triangles, three per triangle, in order.
pub open spec fn tri_corners(tris: Seq<usize>) -> Seq<usize>
    decreases tris.len(),
{
    if tris.len() == 0 {
        Seq::empty()
    } else {
        let t = tris.last() as int;
        tri_corners(tris.drop_last()) + seq![(3 * t) as usize, (3 * t + 1) as usize, (3 * t + 2) as usize]
    }
}

/// Whether some entry of `s` is `p`.
pub open spec fn refers_to(s: Seq<u32>, p: int) -> bool {
    exists|c: int| 0 <= c < s.len() && s[c] as int == p
}

/// The triangles a deletion keeps: none for a mesh without corners.
pub open spec fn delete_tris(params: NodeParams, m: Mesh, inside: Seq<bool>) -> Seq<usize> {
    if m.indices@.len() == 0 {
        Seq::empty()
    } else {
        kept_tris(m.indices@, delete_keep(params, m, inside), (m.indices@.len() / 3) as int)
    }
}

/// The corners a deletion keeps.
pub open spec fn delete_corners(params: NodeParams, m: Mesh, inside: Seq<bool>) -> Seq<usize> {
    tri_corners(delete_tris(params, m, inside))
}

/// The old point numbers of the corners a deletion keeps.
pub open spec fn delete_refs(params: NodeParams, m: Mesh, inside: Seq<bool>) -> Seq<u32> {
    picked(m.indices@, delete_corners(params, m, inside))
}

/// Which points the kept corners refer to.
pub open spec fn delete_used(params: NodeParams, m: Mesh, inside: Seq<bool>) -> Seq<bool> {
    Seq::new(m.positions@.len(), |p: int| refers_to(delete_refs(params, m, inside), p))
}

/// The points a deletion keeps, in order: of a mesh without corners those that
/// stay, otherwise those a kept corner refers to.
pub open spec fn delete_points(params: NodeParams, m: Mesh, inside: Seq<bool>) -> Seq<usize> {
    if m.indices@.len() == 0 {
        true_indices(delete_keep(params, m, inside))
    } else {
        true_indices(delete_used(params, m, inside))
    }
}

/// The corner indices after a deletion: each kept corner's point renumbered among
/// the kept points.
pub open spec fn delete_indices(params: NodeParams, m: Mesh, inside: Seq<bool>) -> Seq<u32> {
    delete_refs(params, m, inside).map_values(|x: u32| used_before(delete_used(params, m, inside), x as int) as u32)
}

/// Every kept point has a normal, where the mesh has normals.
pub open spec fn normals_cover(params: NodeParams, m: Mesh, inside: Seq<bool>) -> bool {
    m.normals matches Some(n) ==> forall|j: int| 0 <= j < delete_points(params, m, inside).len()
        ==> (#[trigger] delete_points(params, m, inside)[j] as int) < n@.len()
}

/// Whether attribute table `a` holds the names of `b`, in order, each with the
/// values of `b` at `indices` that exist.
pub open spec fn picked_table(a: TextMap<AttributeStorage>, b: TextMap<AttributeStorage>, indices: Seq<usize>) -> bool {
    &&& entry_names(a.entries_view()) == entry_names(b.entries_view())
    &&& a@.dom() == b@.dom()
    &&& forall|n: Seq<char>| #[trigger] a@.contains_key(n) ==> storage_values(a@[n]) == picked_values(storage_values(b@[n]), indices)
}

/// Whether group table `a` holds the names of `b`, in order, each with the flags
/// of `b` at `indices` that exist.
pub open spec fn picked_groups(a: TextMap<Vec<bool>>, b: TextMap<Vec<bool>>, indices: Seq<usize>) -> bool {
    &&& entry_names(a.entries_view()) == entry_names(b.entries_view())
    &&& a@.dom() == b@.dom()
    &&& forall|n: Seq<char>| #[trigger] a@.contains_key(n) ==> a@[n]@ == picked(b@[n]@, indices)
}

/// Whether `r` is what deleting from `m` leaves, given which points lie inside the
/// selection shape: the kept points and their normals (and UVs, where there is one
/// per point), the kept corners renumbered (with their corner normals, where there
/// is one per corner), and every attribute and group filtered to the kept elements;
/// vertex attributes and groups are dropped when no corner is kept, detail
/// attributes are kept as they are.
pub open spec fn is_deletion_of(r: Mesh, params: NodeParams, m: Mesh, inside: Seq<bool>) -> bool {
    let kp = delete_points(params, m, inside);
    let tris = delete_tris(params, m, inside);
    let corners = delete_corners(params, m, inside);
    let idx = delete_indices(params, m, inside);
    &&& r.positions@ == picked(m.positions@, kp)
    &&& r.indices@ == idx
    &&& opt_view(r.normals) == (match m.normals {
        Some(n) => Some(picked(n@, kp)),
        None => None,
    })
    &&& opt_view(r.uvs) == (if m.uvs is Some && m.uvs.unwrap()@.len() == m.positions@.len() {
        Some(picked(m.uvs.unwrap()@, kp))
    } else {
        None
    })
    &&& opt_view(r.corner_normals) == (if m.indices@.len() > 0 && m.corner_normals is Some
        && m.corner_normals.unwrap()@.len() == m.indices@.len() {
        Some(picked(m.corner_normals.unwrap()@, corners))
    } else {
        None
    })
    &&& picked_table(r.attributes.table(AttributeDomain::Point), m.attributes.table(AttributeDomain::Point), kp)
    &&& (if idx.len() == 0 {
        r.attributes.table(AttributeDomain::Vertex)@.dom() == Set::<Seq<char>>::empty()
    } else {
        picked_table(r.attributes.table(AttributeDomain::Vertex), m.attributes.table(AttributeDomain::Vertex), corners)
    })
    &&& picked_table(r.attributes.table(AttributeDomain::Primitive), m.attributes.table(AttributeDomain::Primitive), tris)
    &&& same_storage_table(r.attributes.table(AttributeDomain::Detail), m.attributes.table(AttributeDomain::Detail))
    &&& picked_groups(r.groups.table(AttributeDomain::Point), m.groups.table(AttributeDomain::Point), kp)
    &&& (if idx.len() == 0 {
        r.groups.table(AttributeDomain::Vertex)@.dom() == Set::<Seq<char>>::empty()
    } else {
        picked_groups(r.groups.table(AttributeDomain::Vertex), m.groups.table(AttributeDomain::Vertex), corners)
    })
    &&& picked_groups(r.groups.table(AttributeDomain::Primitive), m.groups.table(AttributeDomain::Primitive), tris)
}

/// Which points stay before triangles are looked at.
fn points_to_keep(params: &NodeParams, mesh: &Mesh, inside: &[bool]) -> (keep: Vec<bool>)
    requires
        params.values.wf(),
        mesh.wf(),
        inside@.len() == mesh.positions@.len(),
    ensures
        keep@ == delete_keep(*params, *mesh, inside@),
{
    let invert = params.get_bool("invert", false);
    let n = mesh.positions.len();
    let topo = MeshTopology { point_count: n, indices: copy_values(mesh.indices.as_slice()), face_counts: Vec::new() };
    let corner_count: usize = topo.indices.len();
    proof {
        assert(corner_count == topo.indices@.len());
        lemma_unsized_corners_fit(topo);
        assert(topo.faces() == mesh.faces());
    }
    let mask = mesh_group_mask(&topo, &mesh.groups, params, AttributeDomain::Point);
    let ghost gm = point_group_mask(*params, *mesh);
    assert(mask matches Some(g) ==> gm == Some(g@));
    assert(mask is None ==> gm is None);
    let mut keep: Vec<bool> = Vec::new();
    let mut i: usize = 0;
    while i < n
        invariant
            n == mesh.positions@.len(),
            inside@.len() == n,
            invert == params.bool_or("invert"@, false),
            gm == point_group_mask(*params, *mesh),
            mask matches Some(g) ==> gm == Some(g@),
            mask is None ==> gm is None,
            0 <= i <= n,
            keep@.len() == i,
            forall|k: int| 0 <= k < i ==> #[trigger] keep@[k] == point_stays(inside@, invert, gm, k),
        decreases n - i,
    {
        let base = if invert { inside[i] } else { !inside[i] };
        let outside_group = match &mask {
            Some(g) => !(i < g.len() && g[i]),
            None => false,
        };
        keep.push(base || outside_group);
        i = i + 1;
    }
    assert(keep@ =~= delete_keep(*params, *mesh, inside@));
    keep
}

/// Picking one more index adds the value there, if there is one.
proof fn lemma_picked_push<T>(values: Seq<T>, indices: Seq<usize>, x: usize)
    ensures
        picked(values, indices.push(x)) == if (x as int) < values.len() {
            picked(values, indices).push(values[x as int])
        } else {
            picked(values, indices)
        },
{
    assert(indices.push(x).drop_last() =~= indices);
}

/// The triangles whose points all stay, their corners, and the points those
/// corners refer to.
fn kept_triangles(idx: &[u32], keep: &[bool]) -> (r: (Vec<usize>, Vec<usize>, Vec<u32>))
    ensures
        r.0@ == kept_tris(idx@, keep@, (idx@.len() / 3) as int),
        r.1@ == tri_corners(r.0@),
        r.2@ == picked(idx@, r.1@),
        forall|c: int| 0 <= c < r.2@.len() ==> (#[trigger] r.2@[c] as int) < keep@.len(),
        forall|c: int| 0 <= c < r.1@.len() ==> (#[trigger] r.1@[c] as int) < idx@.len(),
        r.2@.len() == r.1@.len(),
{
    let total = idx.len();
    let count = total / 3;
    let mut tris: Vec<usize> = Vec::new();
    let mut corners: Vec<usize> = Vec::new();
    let mut refs: Vec<u32> = Vec::new();
    let mut t: usize = 0;
    while t < count
        invariant
            total == idx@.len(),
            count == idx@.len() / 3,
            0 <= t <= count,
            tris@ == kept_tris(idx@, keep@, t as int),
            corners@ == tri_corners(tris@),
            refs@ == picked(idx@, corners@),
            refs@.len() == corners@.len(),
            forall|c: int| 0 <= c < refs@.len() ==> (#[trigger] refs@[c] as int) < keep@.len(),
            forall|c: int| 0 <= c < corners@.len() ==> (#[trigger] corners@[c] as int) < idx@.len(),
        decreases count - t,
    {
        assert(3 * t + 2 < idx@.len()) by (nonlinear_arith)
            requires
                t < count,
                count == idx@.len() / 3,
        ;
        let a = idx[3 * t];
        let b = idx[3 * t + 1];
        let c = idx[3 * t + 2];
        let ka = (a as usize) < keep.len() && keep[a as usize];
        let kb = (b as usize) < keep.len() && keep[b as usize];
        let kc = (c as usize) < keep.len() && keep[c as usize];
        if ka && kb && kc {
            let ghost tris0 = tris@;
            let ghost corners0 = corners@;
            tris.push(t);
            corners.push(3 * t);
            corners.push(3 * t + 1);
            corners.push(3 * t + 2);
            refs.push(a);
            refs.push(b);
            refs.push(c);
            proof {
                assert(tris@.drop_last() =~= tris0);
                assert(corners@ =~= corners0 + seq![(3 * t) as usize, (3 * t + 1) as usize, (3 * t + 2) as usize]);
                lemma_picked_push(idx@, corners0, (3 * t) as usize);
                lemma_picked_push(idx@, corners0.push((3 * t) as usize), (3 * t + 1) as usize);
                lemma_picked_push(idx@, corners0.push((3 * t) as usize).push((3 * t + 1) as usize), (3 * t + 2) as usize);
                assert(corners0.push((3 * t) as usize).push((3 * t + 1) as usize).push((3 * t + 2) as usize) =~= corners@);
            }
        }
        t = t + 1;
    }
    (tris, corners, refs)
}

/// Which of `n` points the entries of `refs` refer to.
fn used_points(refs: &[u32], n: usize) -> (used: Vec<bool>)
    ensures
        used@ == Seq::new(n as nat, |p: int| refers_to(refs@, p)),
{
    let mut used: Vec<bool> = Vec::new();
    let mut p: usize = 0;
    while p < n
        invariant
            0 <= p <= n,
            used@ =~= Seq::new(p as nat, |q: int| false),
        decreases n - p,
    {
        used.push(false);
        p = p + 1;
    }
    let mut k: usize = 0;
    while k < refs.len()
        invariant
            0 <= k <= refs@.len(),
            used@.len() == n,
            forall|q: int| 0 <= q < n ==> #[trigger] used@[q] == refers_to(refs@.take(k as int), q),
        decreases refs@.len() - k,
    {
        let x = refs[k] as usize;
        if x < used.len() {
            used.set(x, true);
        }
        proof {
            assert forall|q: int| 0 <= q < n implies #[trigger] used@[q] == refers_to(refs@.take(k + 1), q) by {
                let s1 = refs@.take(k + 1);
                let s0 = refs@.take(k as int);
                if refers_to(s0, q) {
                    let c = choose|c: int| 0 <= c < s0.len() && s0[c] as int == q;
                    assert(s1[c] == s0[c]);
                }
                if refers_to(s1, q) {
                    let c = choose|c: int| 0 <= c < s1.len() && s1[c] as int == q;
                    if c < k {
                        assert(s0[c] == s1[c]);
                    }
                }
                if q == x {
                    assert(s1[k as int] as int == q);
                }
            }
        }
        k = k + 1;
    }
    assert(refs@.take(refs@.len() as int) =~= refs@);
    assert(used@ =~= Seq::new(n as nat, |p: int| refers_to(refs@, p)));
    used
}

/// The positions of the set entries of `s`, in order.
fn true_positions(s: &[bool]) -> (r: Vec<usize>)
    ensures
        r@ == true_indices(s@),
{
    let mut out: Vec<usize> = Vec::new();
    let mut i: usize = 0;
    while i < s.len()
        invariant
            0 <= i <= s@.len(),
            out@ == true_indices(s@.take(i as int)),
        decreases s@.len() - i,
    {
        proof {
            assert(s@.take(i + 1).drop_last() =~= s@.take(i as int));
        }
        if s[i] {
            out.push(i);
        }
        i = i + 1;
    }
    assert(s@.take(s@.len() as int) =~= s@);
    out
}

/// Each entry of `refs` replaced by its entry in `mapping`.
fn remap(refs: &[u32], mapping: &[u32]) -> (r: Vec<u32>)
    requires
        forall|c: int| 0 <= c < refs@.len() ==> (#[trigger] refs@[c] as int) < mapping@.len(),
    ensures
        r@ == refs@.map_values(|x: u32| mapping@[x as int]),
{
    let mut out: Vec<u32> = Vec::new();
    let mut k: usize = 0;
    while k < refs.len()
        invariant
            forall|c: int| 0 <= c < refs@.len() ==> (#[trigger] refs@[c] as int) < mapping@.len(),
            0 <= k <= refs@.len(),
            out@ == refs@.take(k as int).map_values(|x: u32| mapping@[x as int]),
        decreases refs@.len() - k,
    {
        out.push(mapping[refs[k] as usize]);
        k = k + 1;
        proof {
            assert(out@ =~= refs@.take(k as int).map_values(|x: u32| mapping@[x as int]));
        }
    }
    assert(refs@.take(refs@.len() as int) =~= refs@);
    out
}

/// What a deletion keeps: the points, the triangles, their corners, and the new
/// corner indices.
pub struct DeletePlan {
    pub points: Vec<usize>,
    pub tris: Vec<usize>,
    pub corners: Vec<usize>,
    pub indices: Vec<u32>,
}

/// What deleting from `mesh` keeps, given which points lie inside the selection shape.
pub fn plan_delete(params: &NodeParams, mesh: &Mesh, inside: &[bool]) -> (p: DeletePlan)
    requires
        params.values.wf(),
        mesh.wf(),
        inside@.len() == mesh.positions@.len(),
        mesh.indices@.len() > 0 ==> mesh.positions@.len() <= u32::MAX,
    ensures
        p.points@ == delete_points(*params, *mesh, inside@),
        p.tris@ == delete_tris(*params, *mesh, inside@),
        p.corners@ == delete_corners(*params, *mesh, inside@),
        p.indices@ == delete_indices(*params, *mesh, inside@),
        forall|c: int| 0 <= c < p.corners@.len() ==> (#[trigger] p.corners@[c] as int) < mesh.indices@.len(),
{
    let keep = points_to_keep(params, mesh, inside);
    if mesh.indices.len() == 0 {
        let points = true_positions(keep.as_slice());
        let ghost corners0 = tri_corners(Seq::<usize>::empty());
        assert(corners0 =~= Seq::<usize>::empty());
        assert(delete_refs(*params, *mesh, inside@) =~= Seq::<u32>::empty());
        assert(delete_indices(*params, *mesh, inside@) =~= Seq::<u32>::empty());
        return DeletePlan { points, tris: Vec::new(), corners: Vec::new(), indices: Vec::new() };
    }
    let (tris, corners, refs) = kept_triangles(mesh.indices.as_slice(), keep.as_slice());
    let used = used_points(refs.as_slice(), mesh.positions.len());
    assert(used@ =~= delete_used(*params, *mesh, inside@));
    let (mapping, points) = build_index_mapping(used.as_slice());
    proof {
        assert forall|c: int| 0 <= c < refs@.len() implies (#[trigger] refs@[c] as int) < mapping@.len() by {}
    }
    let indices = remap(refs.as_slice(), mapping.as_slice());
    proof {
        let u = used@;
        assert forall|c: int| 0 <= c < refs@.len() implies mapping@[#[trigger] refs@[c] as int] == used_before(u, refs@[c] as int) as u32 by {
            assert(refers_to(refs@, refs@[c] as int));
            assert(u[refs@[c] as int]);
        }
        assert(indices@ =~= delete_indices(*params, *mesh, inside@));
    }
    DeletePlan { points, tris, corners, indices }
}

/// What deleting the selected elements from `mesh` leaves, given which points lie
/// inside the selection shape: see `is_deletion_of`.
pub fn delete_mesh(params: &NodeParams, mesh: &Mesh, inside: &[bool]) -> (r: Mesh)
    requires
        params.values.wf(),
        mesh.wf(),
        inside@.len() == mesh.positions@.len(),
        mesh.indices@.len() > 0 ==> mesh.positions@.len() <= u32::MAX,
        normals_cover(*params, *mesh, inside@),
    ensures
        r.wf(),
        is_deletion_of(r, *params, *mesh, inside@),
{
    let plan = plan_delete(params, mesh, inside);
    let positions = pick_values(mesh.positions.as_slice(), plan.points.as_slice());
    let normals = match &mesh.normals {
        Some(n) => Some(pick_values(n.as_slice(), plan.points.as_slice())),
        None => None,
    };
    let uvs = match &mesh.uvs {
        Some(u) => {
            if u.len() == mesh.positions.len() {
                Some(pick_values(u.as_slice(), plan.points.as_slice()))
            } else {
                None
            }
        },
        None => None,
    };
    let corner_normals = if mesh.indices.len() > 0 {
        match &mesh.corner_normals {
            Some(c) => {
                if c.len() == mesh.indices.len() {
                    Some(pick_values(c.as_slice(), plan.corners.as_slice()))
                } else {
                    None
                }
            },
            None => None,
        }
    } else {
        None
    };
    assert(mesh.attributes.table(AttributeDomain::Point).wf());
    assert(mesh.attributes.table(AttributeDomain::Vertex).wf());
    assert(mesh.attributes.table(AttributeDomain::Primitive).wf());
    assert(mesh.attributes.table(AttributeDomain::Detail).wf());
    let vertex_attributes = if plan.indices.len() == 0 {
        TextMap::new()
    } else {
        pick_storage_table(mesh.attributes.map(AttributeDomain::Vertex), plan.corners.as_slice())
    };
    let attributes = MeshAttributes::from_tables(
        pick_storage_table(mesh.attributes.map(AttributeDomain::Point), plan.points.as_slice()),
        vertex_attributes,
        pick_storage_table(mesh.attributes.map(AttributeDomain::Primitive), plan.tris.as_slice()),
        copy_storage_table(mesh.attributes.map(AttributeDomain::Detail)),
    );
    let vertex_groups = if plan.indices.len() == 0 {
        TextMap::new()
    } else {
        pick_group_table(mesh.groups.map(AttributeDomain::Vertex), plan.corners.as_slice())
    };
    let groups = MeshGroups::from_tables(
        pick_group_table(mesh.groups.map(AttributeDomain::Point), plan.points.as_slice()),
        vertex_groups,
        pick_group_table(mesh.groups.map(AttributeDomain::Primitive), plan.tris.as_slice()),
    );
    let r = Mesh { positions, indices: plan.indices, normals, corner_normals, uvs, attributes, groups };
    proof {
        assert forall|d: AttributeDomain| #[trigger] r.attributes.table(d).wf() by {}
    }
    r
}

/// The message given when there is no input mesh.
pub const NEEDS_INPUT: &'static str = "Delete requires a mesh input";

/// Deletion from the first input mesh, given which of its points lie inside the
/// selection shape.
pub fn compute(params: &NodeParams, inputs: &[Mesh], inside: &[bool]) -> (r: Result<Mesh, String>)
    requires
        params.values.wf(),
        all_wf(inputs@),
        inputs@.len() > 0 ==> inside@.len() == inputs@[0].positions@.len(),
        inputs@.len() > 0 && inputs@[0].indices@.len() > 0 ==> inputs@[0].positions@.len() <= u32::MAX,
        inputs@.len() > 0 ==> normals_cover(*params, inputs@[0], inside@),
    ensures
        inputs@.len() == 0 ==> (r matches Err(msg) && msg@ == NEEDS_INPUT@),
        inputs@.len() > 0 ==> (r matches Ok(m) && m.wf() && is_deletion_of(m, *params, inputs@[0], inside@)),
{
    if inputs.len() == 0 {
        return Err(owned(NEEDS_INPUT));
    }
    assert(inputs@[0].wf());
    Ok(delete_mesh(params, &inputs[0], inside))
}

/// The positions of the set entries number as many as the set entries.
proof fn lemma_true_indices_len(s: Seq<bool>)
    ensures
        true_indices(s).len() == used_before(s, s.len() as int),
    decreases s.len(),
{
    if s.len() > 0 {
        lemma_true_indices_len(s.drop_last());
        lemma_used_before_prefix(s, s.len() - 1);
        assert(s.last() == s[s.len() - 1]);
    }
}

/// Counting set entries before `k` looks at the first `k` entries only.
proof fn lemma_used_before_prefix(s: Seq<bool>, k: int)
    requires
        0 <= k <= s.len() - 1,
    ensures
        used_before(s.drop_last(), k) == used_before(s, k),
    decreases k,
{
    if k > 0 {
        lemma_used_before_prefix(s, k - 1);
    }
}

/// No more entries are set before `k` than there are.
proof fn lemma_used_before_bound(s: Seq<bool>, k: int)
    requires
        0 <= k <= s.len(),
    ensures
        0 <= used_before(s, k) <= k,
    decreases k,
{
    if k > 0 {
        lemma_used_before_bound(s, k - 1);
    }
}

/// A set entry is counted before every later position.
proof fn lemma_used_before_grows(s: Seq<bool>, x: int, k: int)
    requires
        0 <= x < k <= s.len(),
        s[x],
    ensures
        used_before(s, x) < used_before(s, k),
    decreases k - x,
{
    if k > x + 1 {
        lemma_used_before_grows(s, x, k - 1);
    }
}

/// The points that the corners of kept triangles refer to are points that stay.
proof fn lemma_kept_refs_in_range(idx: Seq<u32>, keep: Seq<bool>, n: int)
    requires
        0 <= n <= idx.len() / 3,
        idx.len() <= usize::MAX,
    ensures
        forall|c: int| 0 <= c < picked(idx, tri_corners(kept_tris(idx, keep, n))).len()
            ==> (#[trigger] picked(idx, tri_corners(kept_tris(idx, keep, n)))[c] as int) < keep.len(),
    decreases n,
{
    if n > 0 {
        lemma_kept_refs_in_range(idx, keep, n - 1);
        let t0 = kept_tris(idx, keep, n - 1);
        if tri_kept(idx, keep, n - 1) {
            let t1 = t0.push((n - 1) as usize);
            let t = n - 1;
            assert(3 * t + 2 < idx.len()) by (nonlinear_arith)
                requires
                    t < n,
                    n <= idx.len() / 3,
            ;
            assert(t1.drop_last() =~= t0);
            let c0 = tri_corners(t0);
            let ca = c0.push((3 * t) as usize);
            let cb = ca.push((3 * t + 1) as usize);
            let cc = cb.push((3 * t + 2) as usize);
            assert(tri_corners(t1) =~= cc);
            lemma_picked_push(idx, c0, (3 * t) as usize);
            lemma_picked_push(idx, ca, (3 * t + 1) as usize);
            lemma_picked_push(idx, cb, (3 * t + 2) as usize);
        }
    }
}

/// Every corner that a deletion keeps refers to a kept point: the new corner
/// indices are all below the number of kept points.
pub proof fn law_delete_corners_in_range(params: NodeParams, m: Mesh, inside: Seq<bool>)
    requires
        m.indices@.len() > 0 ==> m.positions@.len() <= u32::MAX,
    ensures
        forall|c: int| 0 <= c < delete_indices(params, m, inside).len()
            ==> (#[trigger] delete_indices(params, m, inside)[c] as int) < delete_points(params, m, inside).len(),
{
    let refs = delete_refs(params, m, inside);
    let used = delete_used(params, m, inside);
    if m.indices@.len() == 0 {
        assert(tri_corners(Seq::<usize>::empty()) =~= Seq::<usize>::empty());
        assert(refs =~= Seq::<u32>::empty());
    } else {
        lemma_true_indices_len(used);
        assert(m.indices.len() == m.indices@.len());
        lemma_kept_refs_in_range(m.indices@, delete_keep(params, m, inside), (m.indices@.len() / 3) as int);
        assert forall|c: int| 0 <= c < delete_indices(params, m, inside).len()
            implies (#[trigger] delete_indices(params, m, inside)[c] as int) < delete_points(params, m, inside).len() by {
            let x = refs[c] as int;
            assert(refers_to(refs, x));
            assert(x < used.len());
            lemma_used_before_grows(used, x, used.len() as int);
            lemma_used_before_bound(used, used.len() as int);
            lemma_used_before_bound(used, x);
            assert(used_before(used, x) < used.len());
            assert(delete_indices(params, m, inside)[c] as int == used_before(used, x));
        }
    }
}

/// The parameters a new "Delete" node starts with (floats held as their bit patterns): shape "box", invert false, center (0.0, 0.0, 0.0), size (1.0, 1.0, 1.0), radius 1.0, plane_origin (0.0, 0.0, 0.0), plane_normal (0.0, 1.0, 0.0), group "", group_type 0.
pub fn default_params() -> (params: NodeParams)
    ensures
        params.values.wf(),
        params.values@.dom() == set!["shape"@, "invert"@, "center"@, "size"@, "radius"@, "plane_origin"@, "plane_normal"@, "group"@, "group_type"@],
        text_entry(params.values@, "shape"@, "box"@),
        params.values@["invert"@] == ParamValue::Bool(false),
        params.values@["center"@] == ParamValue::Vec3([0x00000000, 0x00000000, 0x00000000]),
        params.values@["size"@] == ParamValue::Vec3([0x3f800000, 0x3f800000, 0x3f800000]),
        params.values@["radius"@] == ParamValue::Float(0x3f800000),
        params.values@["plane_origin"@] == ParamValue::Vec3([0x00000000, 0x00000000, 0x00000000]),
        params.values@["plane_normal"@] == ParamValue::Vec3([0x00000000, 0x3f800000, 0x00000000]),
        text_entry(params.values@, "group"@, ""@),
        params.values@["group_type"@] == ParamValue::Int(0),
{
    proof {
        reveal_strlit("shape");
        reveal_strlit("invert");
        reveal_strlit("center");
        reveal_strlit("size");
        reveal_strlit("radius");
        reveal_strlit("plane_origin");
        reveal_strlit("plane_normal");
        reveal_strlit("group");
        reveal_strlit("group_type");
        assert("shape"@.len() == 5 && "shape"@[0] == 's');
        assert("invert"@.len() == 6 && "invert"@[0] == 'i');
        assert("center"@.len() == 6 && "center"@[0] == 'c');
        assert("size"@.len() == 4 && "size"@[0] == 's');
        assert("radius"@.len() == 6 && "radius"@[0] == 'r');
        assert("plane_origin"@.len() == 12 && "plane_origin"@[0] == 'p');
        assert("plane_normal"@.len() == 12 && "plane_normal"@[0] == 'p');
        assert("group"@.len() == 5 && "group"@[0] == 'g');
        assert("group_type"@.len() == 10 && "group_type"@[0] == 'g');
        assert("plane_origin"@[6] != "plane_normal"@[6]);
    }
    let mut values = selection_shape_params();
    values.insert(owned("group"), text_param(""));
    values.insert(owned("group_type"), ParamValue::Int(0));
    NodeParams { values }
}

} // verus!
