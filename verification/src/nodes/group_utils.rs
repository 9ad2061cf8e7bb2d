//! How nodes find the elements that their `group` parameter selects.

use vstd::prelude::*;
use crate::attributes::AttributeDomain;
use crate::groups::{build_group_mask, expr_names_group, group_expr_matches, group_tokens, mask_bit, selected_groups};
use crate::mesh_groups::MeshGroups;
use crate::params::NodeParams;
use crate::text::{chars_of, string_from_chars, trim_chars, trimmed};
use crate::topology::{MeshTopology, corner_start, mask_at, lemma_corner_start_mono};

verus! {

/// The parameter that holds a node's group expression.
pub const GROUP_PARAM: &'static str = "group";

/// The parameter that says which domain the group expression refers to.
pub const GROUP_TYPE_PARAM: &'static str = "group_type";

/// The domain a group expression refers to; `Auto` lets the groups decide.
#[derive(Debug, Clone, Copy, PartialEq, Eq, Structural)]
pub enum GroupType {
    Auto,
    Vertex,
    Point,
    Primitive,
}

/// The group type an integer parameter stands for: 1, 2 and 3 are vertex, point
/// and primitive; anything else is automatic.
pub open spec fn group_type_of(i: i32) -> GroupType {
    if i == 1 {
        GroupType::Vertex
    } else if i == 2 {
        GroupType::Point
    } else if i == 3 {
        GroupType::Primitive
    } else {
        GroupType::Auto
    }
}

/// The group type chosen by the `group_type` parameter (default 0, automatic).
pub fn group_type_from_params(params: &NodeParams) -> (t: GroupType)
    requires
        params.values.wf(),
    ensures
        t == group_type_of(params.int_or(GROUP_TYPE_PARAM@, 0)),
{
    match params.get_int(GROUP_TYPE_PARAM, 0) {
        1 => GroupType::Vertex,
        2 => GroupType::Point,
        3 => GroupType::Primitive,
        _ => GroupType::Auto,
    }
}

/// Whether some entry of `mask` is `true`.
pub open spec fn any_set(mask: Seq<bool>) -> bool {
    exists|i: int| 0 <= i < mask.len() && #[trigger] mask[i]
}

/// Whether a mask selects anything: a missing mask selects everything.
pub fn mask_has_any(mask: Option<&[bool]>) -> (r: bool)
    ensures
        r == (match mask {
            Some(m) => any_set(m@),
            None => true,
        }),
{
    match mask {
        Some(m) => {
            let mut i: usize = 0;
            while i < m.len()
                invariant
                    mask == Some(m),
                    0 <= i <= m@.len(),
                    forall|k: int| 0 <= k < i ==> !m@[k],
                decreases m@.len() - i,
            {
                if m[i] {
                    assert(any_set(m@));
                    return true;
                }
                i = i + 1;
            }
            false
        },
        None => true,
    }
}

/// The domain whose groups a group expression selects from: the one the group
/// type names, or for `Auto` the vertex groups if the expression names one of
/// them, else the point groups if it names one of those, else the primitive groups.
pub open spec fn group_domain(groups: MeshGroups, expr: Seq<char>, group_type: GroupType) -> AttributeDomain {
    match group_type {
        GroupType::Vertex => AttributeDomain::Vertex,
        GroupType::Point => AttributeDomain::Point,
        GroupType::Primitive => AttributeDomain::Primitive,
        GroupType::Auto => if expr_names_group(groups.table(AttributeDomain::Vertex), expr) {
            AttributeDomain::Vertex
        } else if expr_names_group(groups.table(AttributeDomain::Point), expr) {
            AttributeDomain::Point
        } else {
            AttributeDomain::Primitive
        },
    }
}

/// The domain whose groups a group expression selects from.
pub fn select_group_domain(groups: &MeshGroups, expr: &str, group_type: GroupType) -> (d: AttributeDomain)
    requires
        groups.wf(),
    ensures
        d == group_domain(*groups, expr@, group_type),
{
    match group_type {
        GroupType::Vertex => AttributeDomain::Vertex,
        GroupType::Point => AttributeDomain::Point,
        GroupType::Primitive => AttributeDomain::Primitive,
        GroupType::Auto => {
            if group_expr_matches(groups.map(AttributeDomain::Vertex), expr) {
                AttributeDomain::Vertex
            } else if group_expr_matches(groups.map(AttributeDomain::Point), expr) {
                AttributeDomain::Point
            } else {
                AttributeDomain::Primitive
            }
        },
    }
}

/// The first corner of polygon `p` plus `i`: the `i`-th corner of that polygon.
pub open spec fn corner(faces: Seq<u32>, p: int, i: int) -> int {
    corner_start(faces, p) + i
}

/// Whether `i` is a corner number of polygon `p`.
pub open spec fn in_face(faces: Seq<u32>, p: int, i: int) -> bool {
    0 <= p < faces.len() && 0 <= i < faces[p]
}

/// Vertex `v` refers to a point that `mask` selects.
pub open spec fn point_to_vertex_bit(idx: Seq<u32>, mask: Seq<bool>, v: int) -> bool {
    0 <= v < idx.len() && mask_at(mask, idx[v] as int)
}

/// Corner `i` of polygon `p` exists and refers to a point that `mask` selects.
pub open spec fn corner_on_point(idx: Seq<u32>, faces: Seq<u32>, mask: Seq<bool>, p: int, i: int) -> bool {
    in_face(faces, p, i) && corner(faces, p, i) < idx.len() && mask_at(mask, idx[corner(faces, p, i)] as int)
}

/// Polygon `p` has a corner on a point that `mask` selects.
pub open spec fn point_to_prim_bit(idx: Seq<u32>, faces: Seq<u32>, mask: Seq<bool>, p: int) -> bool {
    exists|i: int| #[trigger] corner_on_point(idx, faces, mask, p, i)
}

/// Some vertex on point `q` is selected by `mask`.
pub open spec fn vertex_to_point_bit(idx: Seq<u32>, mask: Seq<bool>, q: int) -> bool {
    exists|v: int| 0 <= v < idx.len() && #[trigger] idx[v] == q && mask_at(mask, v)
}

/// Corner `i` of polygon `p` is selected by `mask`.
pub open spec fn corner_selected(faces: Seq<u32>, mask: Seq<bool>, p: int, i: int) -> bool {
    in_face(faces, p, i) && mask_at(mask, corner(faces, p, i))
}

/// Polygon `p` has a corner that `mask` selects.
pub open spec fn vertex_to_prim_bit(faces: Seq<u32>, mask: Seq<bool>, p: int) -> bool {
    exists|i: int| #[trigger] corner_selected(faces, mask, p, i)
}

/// Corner `i` of the selected polygon `p` lies on point `q`.
pub open spec fn selected_corner_on(idx: Seq<u32>, faces: Seq<u32>, mask: Seq<bool>, p: int, i: int, q: int) -> bool {
    in_face(faces, p, i) && mask_at(mask, p) && corner(faces, p, i) < idx.len() && idx[corner(faces, p, i)] == q
}

/// Some polygon that `mask` selects has a corner on point `q`.
pub open spec fn prim_to_point_bit(idx: Seq<u32>, faces: Seq<u32>, mask: Seq<bool>, q: int) -> bool {
    exists|p: int, i: int| #[trigger] selected_corner_on(idx, faces, mask, p, i, q)
}

/// Corner `i` of the selected polygon `p` is vertex `v`.
pub open spec fn selected_corner_is(faces: Seq<u32>, mask: Seq<bool>, p: int, i: int, v: int) -> bool {
    in_face(faces, p, i) && mask_at(mask, p) && corner(faces, p, i) == v
}

/// Vertex `v` is a corner of a polygon that `mask` selects.
pub open spec fn prim_to_vertex_bit(faces: Seq<u32>, mask: Seq<bool>, v: int) -> bool {
    exists|p: int, i: int| #[trigger] selected_corner_is(faces, mask, p, i, v)
}

/// Element `j` of `target` is selected when `mask` selects elements of `source`,
/// over corners `idx` and polygon sizes `faces`: a vertex by its point or polygon,
/// a point by any vertex or polygon on it, a polygon by any of its corners or
/// their points.
pub open spec fn mapped_bit_in(idx: Seq<u32>, faces: Seq<u32>, source: AttributeDomain, target: AttributeDomain, mask: Seq<bool>, j: int) -> bool {
    match (source, target) {
        (AttributeDomain::Point, AttributeDomain::Vertex) => point_to_vertex_bit(idx, mask, j),
        (AttributeDomain::Point, AttributeDomain::Primitive) => point_to_prim_bit(idx, faces, mask, j),
        (AttributeDomain::Vertex, AttributeDomain::Point) => vertex_to_point_bit(idx, mask, j),
        (AttributeDomain::Vertex, AttributeDomain::Primitive) => vertex_to_prim_bit(faces, mask, j),
        (AttributeDomain::Primitive, AttributeDomain::Point) => prim_to_point_bit(idx, faces, mask, j),
        (AttributeDomain::Primitive, AttributeDomain::Vertex) => prim_to_vertex_bit(faces, mask, j),
        _ => false,
    }
}

/// `len` times `false`.
pub fn falses(len: usize) -> (out: Vec<bool>)
    ensures
        out@ == Seq::new(len as nat, |_i: int| false),
{
    let mut out: Vec<bool> = Vec::new();
    let mut k: usize = 0;
    while k < len
        invariant
            0 <= k <= len,
            out@ == Seq::new(k as nat, |_i: int| false),
        decreases len - k,
    {
        out.push(false);
        k = k + 1;
        assert(out@ =~= Seq::new(k as nat, |_i: int| false));
    }
    out
}

fn map_point_to_vertex(idx: &[u32], mask: &[bool], len: usize) -> (out: Vec<bool>)
    ensures
        out@.len() == len,
        forall|j: int| 0 <= j < len ==> out@[j] == point_to_vertex_bit(idx@, mask@, j),
{
    let mut out: Vec<bool> = Vec::new();
    let mut j: usize = 0;
    while j < len
        invariant
            0 <= j <= len,
            out@.len() == j,
            forall|k: int| 0 <= k < j ==> out@[k] == point_to_vertex_bit(idx@, mask@, k),
        decreases len - j,
    {
        let bit = j < idx.len() && (idx[j] as usize) < mask.len() && mask[idx[j] as usize];
        out.push(bit);
        j = j + 1;
    }
    out
}

fn map_corners_to_prim(idx: &[u32], faces: &[u32], mask: &[bool], len: usize, by_point: bool) -> (out: Vec<bool>)
    requires
        corner_start(faces@, faces@.len() as int) <= usize::MAX,
    ensures
        out@.len() == len,
        forall|j: int| 0 <= j < len ==> out@[j] == if by_point {
            point_to_prim_bit(idx@, faces@, mask@, j)
        } else {
            vertex_to_prim_bit(faces@, mask@, j)
        },
{
    let mut out: Vec<bool> = Vec::new();
    let mut cursor: usize = 0;
    let mut p: usize = 0;
    while p < len
        invariant
            0 <= p <= len,
            corner_start(faces@, faces@.len() as int) <= usize::MAX,
            p <= faces@.len() ==> cursor == corner_start(faces@, p as int),
            out@.len() == p,
            forall|k: int| 0 <= k < p ==> out@[k] == if by_point {
                point_to_prim_bit(idx@, faces@, mask@, k)
            } else {
                vertex_to_prim_bit(faces@, mask@, k)
            },
        decreases len - p,
    {
        let mut hit = false;
        if p < faces.len() {
            let count = faces[p] as usize;
            proof {
                lemma_corner_start_mono(faces@, p + 1, faces@.len() as int);
            }
            let mut i: usize = 0;
            while i < count && !hit
                invariant
                    p < faces@.len(),
                    count == faces@[p as int],
                    cursor == corner_start(faces@, p as int),
                    cursor + count <= usize::MAX,
                    0 <= i <= count,
                    hit ==> i > 0 && (if by_point {
                        corner_on_point(idx@, faces@, mask@, p as int, i - 1)
                    } else {
                        corner_selected(faces@, mask@, p as int, i - 1)
                    }),
                    !hit && by_point ==> forall|ii: int| 0 <= ii < i ==> !#[trigger] corner_on_point(idx@, faces@, mask@, p as int, ii),
                    !hit && !by_point ==> forall|ii: int| 0 <= ii < i ==> !#[trigger] corner_selected(faces@, mask@, p as int, ii),
                decreases count - i,
            {
                let c = cursor + i;
                let sel = if by_point {
                    c < idx.len() && (idx[c] as usize) < mask.len() && mask[idx[c] as usize]
                } else {
                    c < mask.len() && mask[c]
                };
                assert(sel == if by_point {
                    corner_on_point(idx@, faces@, mask@, p as int, i as int)
                } else {
                    corner_selected(faces@, mask@, p as int, i as int)
                });
                hit = sel;
                i = i + 1;
            }
            proof {
                if by_point {
                    if hit {
                        assert(corner_on_point(idx@, faces@, mask@, p as int, i - 1));
                    } else {
                        assert forall|ii: int| !corner_on_point(idx@, faces@, mask@, p as int, ii) by {
                            if 0 <= ii < i {
                            }
                        }
                    }
                } else {
                    if hit {
                        assert(corner_selected(faces@, mask@, p as int, i - 1));
                    } else {
                        assert forall|ii: int| !corner_selected(faces@, mask@, p as int, ii) by {
                            if 0 <= ii < i {
                            }
                        }
                    }
                }
            }
            cursor = cursor + count;
        }
        proof {
            if p >= faces@.len() {
                assert forall|ii: int| !corner_on_point(idx@, faces@, mask@, p as int, ii) by {}
                assert forall|ii: int| !corner_selected(faces@, mask@, p as int, ii) by {}
            }
        }
        out.push(hit);
        p = p + 1;
    }
    out
}

fn map_vertex_to_point(idx: &[u32], mask: &[bool], len: usize) -> (out: Vec<bool>)
    ensures
        out@.len() == len,
        forall|j: int| 0 <= j < len ==> out@[j] == vertex_to_point_bit(idx@, mask@, j),
{
    let mut out = falses(len);
    let mut v: usize = 0;
    while v < idx.len()
        invariant
            0 <= v <= idx@.len(),
            out@.len() == len,
            forall|q: int| 0 <= q < len ==> #[trigger] out@[q] == exists|w: int| 0 <= w < v && #[trigger] idx@[w] == q && mask_at(mask@, w),
        decreases idx@.len() - v,
    {
        if v < mask.len() && mask[v] {
            let q = idx[v] as usize;
            if q < len {
                out.set(q, true);
            }
        }
        proof {
            assert forall|q: int| 0 <= q < len implies #[trigger] out@[q] == exists|w: int| 0 <= w < v + 1 && #[trigger] idx@[w] == q && mask_at(mask@, w) by {
                if idx@[v as int] == q && mask_at(mask@, v as int) {
                    assert(idx@[v as int] == q);
                }
            }
        }
        v = v + 1;
    }
    out
}

/// The selected corners on point `q` among the corners before corner `i` of polygon `p`.
pub open spec fn point_hits_before(idx: Seq<u32>, faces: Seq<u32>, mask: Seq<bool>, q: int, p: int, i: int) -> bool {
    exists|pp: int, ii: int| #[trigger] selected_corner_on(idx, faces, mask, pp, ii, q) && (pp < p || (pp == p && ii < i))
}

/// The selected corners that are vertex `v` among the corners before corner `i` of polygon `p`.
pub open spec fn vertex_hits_before(faces: Seq<u32>, mask: Seq<bool>, v: int, p: int, i: int) -> bool {
    exists|pp: int, ii: int| #[trigger] selected_corner_is(faces, mask, pp, ii, v) && (pp < p || (pp == p && ii < i))
}

fn map_prim_to_corners(idx: &[u32], faces: &[u32], mask: &[bool], len: usize, to_point: bool) -> (out: Vec<bool>)
    requires
        corner_start(faces@, faces@.len() as int) <= usize::MAX,
    ensures
        out@.len() == len,
        forall|j: int| 0 <= j < len ==> out@[j] == if to_point {
            prim_to_point_bit(idx@, faces@, mask@, j)
        } else {
            prim_to_vertex_bit(faces@, mask@, j)
        },
{
    let mut out = falses(len);
    let mut cursor: usize = 0;
    let mut p: usize = 0;
    while p < faces.len()
        invariant
            0 <= p <= faces@.len(),
            corner_start(faces@, faces@.len() as int) <= usize::MAX,
            cursor == corner_start(faces@, p as int),
            out@.len() == len,
            to_point ==> forall|q: int| 0 <= q < len ==> #[trigger] out@[q] == point_hits_before(idx@, faces@, mask@, q, p as int, 0),
            !to_point ==> forall|q: int| 0 <= q < len ==> #[trigger] out@[q] == vertex_hits_before(faces@, mask@, q, p as int, 0),
        decreases faces@.len() - p,
    {
        let count = faces[p] as usize;
        proof {
            lemma_corner_start_mono(faces@, p + 1, faces@.len() as int);
        }
        let selected = p < mask.len() && mask[p];
        let mut i: usize = 0;
        while i < count
            invariant
                p < faces@.len(),
                count == faces@[p as int],
                cursor == corner_start(faces@, p as int),
                cursor + count <= usize::MAX,
                selected == mask_at(mask@, p as int),
                0 <= i <= count,
                out@.len() == len,
                to_point ==> forall|q: int| 0 <= q < len ==> #[trigger] out@[q] == point_hits_before(idx@, faces@, mask@, q, p as int, i as int),
                !to_point ==> forall|q: int| 0 <= q < len ==> #[trigger] out@[q] == vertex_hits_before(faces@, mask@, q, p as int, i as int),
            decreases count - i,
        {
            let c = cursor + i;
            let target: Option<usize> = if !selected {
                None
            } else if to_point {
                if c < idx.len() { Some(idx[c] as usize) } else { None }
            } else {
                Some(c)
            };
            if let Some(q) = target {
                if q < len {
                    out.set(q, true);
                }
            }
            proof {
                let ip = i as int;
                let pp = p as int;
                if to_point {
                    assert forall|q: int| 0 <= q < len implies #[trigger] out@[q] == point_hits_before(idx@, faces@, mask@, q, pp, ip + 1) by {
                        if selected_corner_on(idx@, faces@, mask@, pp, ip, q) {
                            assert(point_hits_before(idx@, faces@, mask@, q, pp, ip + 1));
                        }
                        if point_hits_before(idx@, faces@, mask@, q, pp, ip + 1) {
                            let (a, b) = choose|a: int, b: int| #[trigger] selected_corner_on(idx@, faces@, mask@, a, b, q) && (a < pp || (a == pp && b < ip + 1));
                            if !(a == pp && b == ip) {
                                assert(point_hits_before(idx@, faces@, mask@, q, pp, ip));
                            }
                        }
                    }
                } else {
                    assert forall|q: int| 0 <= q < len implies #[trigger] out@[q] == vertex_hits_before(faces@, mask@, q, pp, ip + 1) by {
                        if selected_corner_is(faces@, mask@, pp, ip, q) {
                            assert(vertex_hits_before(faces@, mask@, q, pp, ip + 1));
                        }
                        if vertex_hits_before(faces@, mask@, q, pp, ip + 1) {
                            let (a, b) = choose|a: int, b: int| #[trigger] selected_corner_is(faces@, mask@, a, b, q) && (a < pp || (a == pp && b < ip + 1));
                            if !(a == pp && b == ip) {
                                assert(vertex_hits_before(faces@, mask@, q, pp, ip));
                            }
                        }
                    }
                }
            }
            i = i + 1;
        }
        proof {
            let pp = p as int;
            let n = count as int;
            if to_point {
                assert forall|q: int| 0 <= q < len implies #[trigger] out@[q] == point_hits_before(idx@, faces@, mask@, q, pp + 1, 0) by {
                    if point_hits_before(idx@, faces@, mask@, q, pp + 1, 0) {
                        let (a, b) = choose|a: int, b: int| #[trigger] selected_corner_on(idx@, faces@, mask@, a, b, q) && (a < pp + 1 || (a == pp + 1 && b < 0));
                        assert(point_hits_before(idx@, faces@, mask@, q, pp, n));
                    }
                    if point_hits_before(idx@, faces@, mask@, q, pp, n) {
                        let (a, b) = choose|a: int, b: int| #[trigger] selected_corner_on(idx@, faces@, mask@, a, b, q) && (a < pp || (a == pp && b < n));
                        assert(point_hits_before(idx@, faces@, mask@, q, pp + 1, 0));
                    }
                }
            } else {
                assert forall|q: int| 0 <= q < len implies #[trigger] out@[q] == vertex_hits_before(faces@, mask@, q, pp + 1, 0) by {
                    if vertex_hits_before(faces@, mask@, q, pp + 1, 0) {
                        let (a, b) = choose|a: int, b: int| #[trigger] selected_corner_is(faces@, mask@, a, b, q) && (a < pp + 1 || (a == pp + 1 && b < 0));
                        assert(vertex_hits_before(faces@, mask@, q, pp, n));
                    }
                    if vertex_hits_before(faces@, mask@, q, pp, n) {
                        let (a, b) = choose|a: int, b: int| #[trigger] selected_corner_is(faces@, mask@, a, b, q) && (a < pp || (a == pp && b < n));
                        assert(vertex_hits_before(faces@, mask@, q, pp + 1, 0));
                    }
                }
            }
        }
        cursor = cursor + count;
        p = p + 1;
    }
    proof {
        let n = faces@.len() as int;
        if to_point {
            assert forall|q: int| 0 <= q < len implies #[trigger] out@[q] == prim_to_point_bit(idx@, faces@, mask@, q) by {
                if prim_to_point_bit(idx@, faces@, mask@, q) {
                    let (a, b) = choose|a: int, b: int| #[trigger] selected_corner_on(idx@, faces@, mask@, a, b, q);
                    assert(point_hits_before(idx@, faces@, mask@, q, n, 0));
                }
            }
        } else {
            assert forall|q: int| 0 <= q < len implies #[trigger] out@[q] == prim_to_vertex_bit(faces@, mask@, q) by {
                if prim_to_vertex_bit(faces@, mask@, q) {
                    let (a, b) = choose|a: int, b: int| #[trigger] selected_corner_is(faces@, mask@, a, b, q);
                    assert(vertex_hits_before(faces@, mask@, q, n, 0));
                }
            }
        }
    }
    out
}

/// The number of elements of `domain` in a mesh of `point_count` points and
/// corners `idx`: points, corners, triangles, or the one detail element.
pub open spec fn domain_count_in(point_count: nat, idx: Seq<u32>, domain: AttributeDomain) -> nat {
    match domain {
        AttributeDomain::Point => point_count,
        AttributeDomain::Vertex => idx.len(),
        AttributeDomain::Primitive => idx.len() / 3,
        AttributeDomain::Detail => 1,
    }
}

/// What `mask` over the elements of `source` selects among the elements of
/// `target`, in a mesh of `point_count` points, corners `idx` and polygon sizes
/// `faces`: the mask itself for one domain, nothing where `target` is empty, for
/// the detail domain whether anything is selected, and otherwise `mapped_bit_in`.
pub open spec fn mapped_mask_in(point_count: nat, idx: Seq<u32>, faces: Seq<u32>, source: AttributeDomain, target: AttributeDomain, mask: Seq<bool>) -> Seq<bool> {
    let n = domain_count_in(point_count, idx, target);
    if source == target {
        mask
    } else if n == 0 {
        Seq::empty()
    } else if target == AttributeDomain::Detail {
        seq![any_set(mask)]
    } else {
        Seq::new(n, |j: int| mapped_bit_in(idx, faces, source, target, mask, j))
    }
}

/// What `mask` over the elements of `source` selects among the elements of `target`.
pub open spec fn mapped_mask(t: MeshTopology, source: AttributeDomain, target: AttributeDomain, mask: Seq<bool>) -> Seq<bool> {
    mapped_mask_in(t.point_count as nat, t.indices@, t.faces(), source, target, mask)
}

/// Carries a selection mask from the elements of one domain to those of another.
pub fn map_group_mask(topo: &MeshTopology, source: AttributeDomain, target: AttributeDomain, mask: &[bool]) -> (out: Vec<bool>)
    requires
        topo.corners_fit(),
    ensures
        out@ == mapped_mask(*topo, source, target, mask@),
{
    if source == target {
        let mut copy: Vec<bool> = Vec::new();
        let mut k: usize = 0;
        while k < mask.len()
            invariant
                0 <= k <= mask@.len(),
                copy@ == mask@.take(k as int),
            decreases mask@.len() - k,
        {
            copy.push(mask[k]);
            k = k + 1;
            assert(copy@ =~= mask@.take(k as int));
        }
        assert(mask@.take(mask@.len() as int) =~= mask@);
        return copy;
    }
    let target_len = topo.attribute_domain_len(target);
    if target_len == 0 {
        return Vec::new();
    }
    if target == AttributeDomain::Detail {
        let any = mask_has_any(Some(mask));
        return vec![any];
    }
    let faces = topo.resolved_face_counts();
    let idx = topo.indices.as_slice();
    let out = match (source, target) {
        (AttributeDomain::Point, AttributeDomain::Vertex) => map_point_to_vertex(idx, mask, target_len),
        (AttributeDomain::Point, AttributeDomain::Primitive) => map_corners_to_prim(idx, faces.as_slice(), mask, target_len, true),
        (AttributeDomain::Vertex, AttributeDomain::Point) => map_vertex_to_point(idx, mask, target_len),
        (AttributeDomain::Vertex, AttributeDomain::Primitive) => map_corners_to_prim(idx, faces.as_slice(), mask, target_len, false),
        (AttributeDomain::Primitive, AttributeDomain::Point) => map_prim_to_corners(idx, faces.as_slice(), mask, target_len, true),
        (AttributeDomain::Primitive, AttributeDomain::Vertex) => map_prim_to_corners(idx, faces.as_slice(), mask, target_len, false),
        _ => falses(target_len),
    };
    assert(out@ =~= mapped_mask(*topo, source, target, mask@));
    out
}

/// The mask over the elements of `domain` that a group expression selects: a
/// group of length `len` is selected when the expression selects its name.
pub open spec fn group_mask(groups: MeshGroups, domain: AttributeDomain, expr: Seq<char>, len: nat) -> Seq<bool> {
    let table = groups.table(domain)@;
    Seq::new(len, |i: int| mask_bit(table, selected_groups(table, expr), len as int, i))
}

/// The elements of `target` that the node's `group` parameter selects: none
/// (meaning all) when the trimmed expression is empty or has no token; otherwise
/// the mask of the groups it selects in the domain chosen by `group_type`,
/// carried over to `target`.
pub fn mesh_group_mask(topo: &MeshTopology, groups: &MeshGroups, params: &NodeParams, target: AttributeDomain) -> (r: Option<Vec<bool>>)
    requires
        topo.corners_fit(),
        groups.wf(),
        params.values.wf(),
    ensures
        ({
            let expr = trimmed(params.text_or(GROUP_PARAM@, ""@));
            let source = group_domain(*groups, expr, group_type_of(params.int_or(GROUP_TYPE_PARAM@, 0)));
            if expr.len() == 0 || group_tokens(expr).len() == 0 {
                r.is_none()
            } else {
                r matches Some(m) && m@ == mapped_mask(*topo, source, target, group_mask(*groups, source, expr, topo.domain_len(source)))
            }
        }),
{
    let raw = chars_of(params.get_string(GROUP_PARAM, ""));
    let expr_chars = trim_chars(raw.as_slice());
    if expr_chars.len() == 0 {
        return None;
    }
    let expr = string_from_chars(expr_chars.as_slice());
    let group_type = group_type_from_params(params);
    let source = select_group_domain(groups, expr.as_str(), group_type);
    let source_len = topo.attribute_domain_len(source);
    match build_group_mask(groups.map(source), expr.as_str(), source_len) {
        None => None,
        Some(mask) => {
            assert(mask@ =~= group_mask(*groups, source, expr@, topo.domain_len(source)));
            Some(map_group_mask(topo, source, target, mask.as_slice()))
        },
    }
}

} // verus!
