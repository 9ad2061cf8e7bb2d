//! The "Attribute Promote" node, which moves an attribute from one domain to another.

use vstd::prelude::*;
use crate::text_map::TextMap;
use crate::graph::NodeDefinition;
use crate::attributes::{AttributeDomain, AttributeError, AttributeInfo, AttributeStorage, AttributeType};
use crate::mesh::{Mesh, info_view, set_outcome, remove_outcome};
use crate::nodes::attribute_utils::parse_attribute_list;
use crate::groups::space_words;
use crate::topology::lemma_unsized_corners_fit;
use crate::attribute_values::copy_values;
use crate::nodes::{geometry_in, geometry_out, geometry_node};
use crate::nodes::attribute_utils::{domain_from_index, domain_of_index};
use crate::params::{NodeParams, ParamValue, text_entry, text_param};
use crate::glob::{glob_match, glob_text};
use crate::text::{chars_contain, chars_of, owned, string_from_chars, trim_chars, trimmed};
use crate::text_order::{insert_text_sorted, texts, texts_increasing};
use crate::topology::{MeshTopology, corner_start, lemma_corner_start_mono};
use crate::nodes::group_utils::domain_count_in;
use vstd::relations::{sorted_by, total_ordering};

verus! {

/// The node kind's name.
pub const NAME: &'static str = "Attribute Promote";

/// The definition of the "Attribute Promote" node: an operator with geometry input "in" and one geometry output.
pub fn definition() -> (def: NodeDefinition)
    ensures
        geometry_node(def, NAME@, "Operators"@, seq!["in"@], seq!["out"@]),
{
    let def = NodeDefinition {
        name: owned(NAME),
        category: owned("Operators"),
        inputs: vec![geometry_in("in")],
        outputs: vec![geometry_out("out")],
    };
    assert(def.inputs@ =~= seq![def.inputs@[0]]);
    assert(def.outputs@ =~= seq![def.outputs@[0]]);
    def
}

/// How the values of several source elements combine into one target value.
#[derive(Debug, Clone, Copy, PartialEq, Eq, Structural)]
pub enum PromotionMethod {
    Max,
    Min,
    Average,
    Mode,
    Median,
    Sum,
    SumSquares,
    RootMeanSquare,
    First,
    Last,
}

/// The method an integer parameter stands for, in the order of the variants;
/// anything out of range averages.
pub open spec fn method_of(i: i32) -> PromotionMethod {
    if i == 0 {
        PromotionMethod::Max
    } else if i == 1 {
        PromotionMethod::Min
    } else if i == 3 {
        PromotionMethod::Mode
    } else if i == 4 {
        PromotionMethod::Median
    } else if i == 5 {
        PromotionMethod::Sum
    } else if i == 6 {
        PromotionMethod::SumSquares
    } else if i == 7 {
        PromotionMethod::RootMeanSquare
    } else if i == 8 {
        PromotionMethod::First
    } else if i == 9 {
        PromotionMethod::Last
    } else {
        PromotionMethod::Average
    }
}

impl PromotionMethod {
    /// The method chosen by the `promotion` parameter (default 2, average).
    pub fn from_params(params: &NodeParams) -> (m: PromotionMethod)
        requires
            params.values.wf(),
        ensures
            m == method_of(params.int_or("promotion"@, 2)),
    {
        match params.get_int("promotion", 2) {
            0 => PromotionMethod::Max,
            1 => PromotionMethod::Min,
            2 => PromotionMethod::Average,
            3 => PromotionMethod::Mode,
            4 => PromotionMethod::Median,
            5 => PromotionMethod::Sum,
            6 => PromotionMethod::SumSquares,
            7 => PromotionMethod::RootMeanSquare,
            8 => PromotionMethod::First,
            9 => PromotionMethod::Last,
            _ => PromotionMethod::Average,
        }
    }
}

/// The domain to promote from: the `source_domain` parameter (default 0, points), clamped.
pub fn source_domain_from_params(params: &NodeParams) -> (d: AttributeDomain)
    requires
        params.values.wf(),
    ensures
        d == domain_of_index(params.int_or("source_domain"@, 0)),
{
    domain_from_index(params.get_int("source_domain", 0))
}

/// The domain to promote to: the `target_domain` parameter (default 2, primitives), clamped.
pub fn target_domain_from_params(params: &NodeParams) -> (d: AttributeDomain)
    requires
        params.values.wf(),
    ensures
        d == domain_of_index(params.int_or("target_domain"@, 2)),
{
    domain_from_index(params.get_int("target_domain", 2))
}

/// The numbers `0..n`, in order.
pub open spec fn range_seq(n: nat) -> Seq<usize> {
    Seq::new(n, |i: int| i as usize)
}

fn range_vec(n: usize) -> (r: Vec<usize>)
    ensures
        r@ == range_seq(n as nat),
{
    let mut r: Vec<usize> = Vec::new();
    let mut k: usize = 0;
    while k < n
        invariant
            0 <= k <= n,
            r@ == range_seq(k as nat),
        decreases n - k,
    {
        r.push(k);
        k = k + 1;
        assert(r@ =~= range_seq(k as nat));
    }
    r
}

fn repeat_list(list: &Vec<usize>, n: usize) -> (r: Vec<Vec<usize>>)
    ensures
        r@.len() == n,
        forall|j: int| 0 <= j < n ==> (#[trigger] r@[j])@ == list@,
{
    let mut r: Vec<Vec<usize>> = Vec::new();
    let mut k: usize = 0;
    while k < n
        invariant
            0 <= k <= n,
            r@.len() == k,
            forall|j: int| 0 <= j < k ==> (#[trigger] r@[j])@ == list@,
        decreases n - k,
    {
        let mut copy: Vec<usize> = Vec::new();
        let mut m: usize = 0;
        while m < list.len()
            invariant
                0 <= m <= list@.len(),
                copy@ == list@.take(m as int),
            decreases list@.len() - m,
        {
            copy.push(list[m]);
            m = m + 1;
            assert(copy@ =~= list@.take(m as int));
        }
        assert(list@.take(list@.len() as int) =~= list@);
        r.push(copy);
        k = k + 1;
    }
    r
}

/// The source elements of each target element of a point cloud, whose points and
/// primitives are the same elements: none for one domain; for the detail target
/// all sources; from the detail source element 0; otherwise between points and
/// primitives each element is its own source, as far as both domains reach.
pub open spec fn splat_mapping(source_len: nat, target_len: nat, source: AttributeDomain, target: AttributeDomain) -> Seq<Seq<usize>> {
    if source == target {
        Seq::empty()
    } else if target == AttributeDomain::Detail {
        seq![range_seq(source_len)]
    } else if source == AttributeDomain::Detail {
        Seq::new(target_len, |j: int| seq![0usize])
    } else if (source == AttributeDomain::Point || source == AttributeDomain::Primitive) && (target == AttributeDomain::Point
        || target == AttributeDomain::Primitive) {
        Seq::new(target_len, |j: int| if j < source_len { seq![j as usize] } else { Seq::empty() })
    } else {
        Seq::new(target_len, |j: int| Seq::empty())
    }
}

/// What the mapping of a point cloud gives, case by case. Between one domain and
/// itself there is no list. A detail target has a single list holding every source
/// element, each once and in order (`0..source_len`), whatever the target count. A
/// detail source gives every target element the single source element 0. Between
/// points and primitives (distinct domains) target `j` has source `j` alone where
/// `j < source_len`, and none beyond. Any other pair (one side the corner domain)
/// gives every target element no source.
pub proof fn law_splat_mapping(source_len: nat, target_len: nat, source: AttributeDomain, target: AttributeDomain,
    mapping: Seq<Seq<usize>>)
    requires
        source_len <= usize::MAX,
        target_len <= usize::MAX,
        mapping == splat_mapping(source_len, target_len, source, target),
    ensures
        source == target ==> mapping.len() == 0,
        source != target && target == AttributeDomain::Detail ==> {
            &&& mapping.len() == 1
            &&& mapping[0].len() == source_len
            &&& forall|s: int| 0 <= s < source_len ==> #[trigger] mapping[0][s] == s
        },
        source != target && target != AttributeDomain::Detail ==> mapping.len() == target_len,
        source == AttributeDomain::Detail && target != AttributeDomain::Detail ==> forall|j: int| 0 <= j < target_len
            ==> (#[trigger] mapping[j]).len() == 1 && mapping[j][0] == 0,
        source != target && (source == AttributeDomain::Point || source == AttributeDomain::Primitive)
            && (target == AttributeDomain::Point || target == AttributeDomain::Primitive) ==> forall|j: int| 0 <= j < target_len
            ==> (#[trigger] mapping[j]).len() == (if j < source_len { 1int } else { 0int })
                && (j < source_len ==> mapping[j][0] == j),
        source != target && (source == AttributeDomain::Vertex || target == AttributeDomain::Vertex)
            && source != AttributeDomain::Detail && target != AttributeDomain::Detail
            ==> forall|j: int| 0 <= j < target_len ==> (#[trigger] mapping[j]).len() == 0,
{
}

/// The source elements of each target element of a point cloud.
pub fn build_mapping_splats(source_len: usize, target_len: usize, source: AttributeDomain, target: AttributeDomain) -> (mapping: Vec<Vec<usize>>)
    ensures
        mapping@.map_values(|l: Vec<usize>| l@) == splat_mapping(source_len as nat, target_len as nat, source, target),
{
    if source == target {
        let r: Vec<Vec<usize>> = Vec::new();
        assert(r@.map_values(|l: Vec<usize>| l@) =~= splat_mapping(source_len as nat, target_len as nat, source, target));
        return r;
    }
    if target == AttributeDomain::Detail {
        let all = range_vec(source_len);
        let mut r: Vec<Vec<usize>> = Vec::new();
        r.push(all);
        assert(r@.map_values(|l: Vec<usize>| l@) =~= splat_mapping(source_len as nat, target_len as nat, source, target));
        return r;
    }
    if source == AttributeDomain::Detail {
        let mut zero: Vec<usize> = Vec::new();
        zero.push(0);
        let r = repeat_list(&zero, target_len);
        assert(r@.map_values(|l: Vec<usize>| l@) =~= splat_mapping(source_len as nat, target_len as nat, source, target));
        return r;
    }
    let same_elements = (source == AttributeDomain::Point || source == AttributeDomain::Primitive)
        && (target == AttributeDomain::Point || target == AttributeDomain::Primitive);
    let mut r: Vec<Vec<usize>> = Vec::new();
    let mut j: usize = 0;
    while j < target_len
        invariant
            0 <= j <= target_len,
            r@.len() == j,
            forall|k: int| 0 <= k < j ==> (#[trigger] r@[k])@ == (if same_elements && k < source_len { seq![k as usize] } else { Seq::<usize>::empty() }),
        decreases target_len - j,
    {
        if same_elements && j < source_len {
            r.push(vec![j]);
        } else {
            r.push(Vec::new());
        }
        j = j + 1;
    }
    assert(r@.map_values(|l: Vec<usize>| l@) =~= splat_mapping(source_len as nat, target_len as nat, source, target));
    r
}

/// The polygons among the first `p` that own corner `v`, in order.
pub open spec fn prims_of_corner(faces: Seq<u32>, v: int, p: int) -> Seq<usize>
    decreases p,
{
    if p <= 0 {
        Seq::empty()
    } else {
        let q = p - 1;
        let rest = prims_of_corner(faces, v, q);
        if q < faces.len() && corner_start(faces, q) <= v < corner_start(faces, q) + faces[q] {
            rest.push(q as usize)
        } else {
            rest
        }
    }
}

/// The vertices among the first `k` whose point is `q`, in order.
pub open spec fn vertices_on(idx: Seq<u32>, q: int, k: int) -> Seq<usize>
    decreases k,
{
    if k <= 0 {
        Seq::empty()
    } else {
        let rest = vertices_on(idx, q, k - 1);
        if k - 1 < idx.len() && idx[k - 1] == q { rest.push((k - 1) as usize) } else { rest }
    }
}

/// Whether all corners of polygon `p` are within the corner list.
pub open spec fn face_in_range(idx: Seq<u32>, faces: Seq<u32>, p: int) -> bool {
    0 <= p < faces.len() && corner_start(faces, p) + faces[p] <= idx.len()
}

/// Polygon `p` once for each of its first `i` corners on point `q` (nothing when
/// the polygon reaches beyond the corner list).
pub open spec fn face_hits(idx: Seq<u32>, faces: Seq<u32>, q: int, p: int, i: int) -> Seq<usize>
    decreases i,
{
    if i <= 0 || !face_in_range(idx, faces, p) {
        Seq::empty()
    } else {
        let rest = face_hits(idx, faces, q, p, i - 1);
        if idx[corner_start(faces, p) + i - 1] == q { rest.push(p as usize) } else { rest }
    }
}

/// The polygons among the first `p` with a corner on point `q`, once per such corner.
pub open spec fn prims_on(idx: Seq<u32>, faces: Seq<u32>, q: int, p: int) -> Seq<usize>
    decreases p,
{
    if p <= 0 {
        Seq::empty()
    } else {
        prims_on(idx, faces, q, p - 1) + face_hits(idx, faces, q, p - 1, faces[p - 1] as int)
    }
}

/// The source elements of target element `j` in a mesh with corners `idx` and
/// polygon sizes `faces`, for two different domains neither of which is the
/// detail domain.
pub open spec fn mapping_list_in(idx: Seq<u32>, faces: Seq<u32>, source: AttributeDomain, target: AttributeDomain, j: int) -> Seq<usize> {
    match (source, target) {
        (AttributeDomain::Point, AttributeDomain::Vertex) => if j < idx.len() { seq![idx[j] as usize] } else { Seq::empty() },
        (AttributeDomain::Primitive, AttributeDomain::Vertex) => prims_of_corner(faces, j, faces.len() as int),
        (AttributeDomain::Point, AttributeDomain::Primitive) => if face_in_range(idx, faces, j) {
            Seq::new(faces[j] as nat, |i: int| idx[corner_start(faces, j) + i] as usize)
        } else {
            Seq::empty()
        },
        (AttributeDomain::Vertex, AttributeDomain::Primitive) => if j < faces.len() {
            Seq::new(faces[j] as nat, |i: int| (corner_start(faces, j) + i) as usize)
        } else {
            Seq::empty()
        },
        (AttributeDomain::Vertex, AttributeDomain::Point) => vertices_on(idx, j, idx.len() as int),
        (AttributeDomain::Primitive, AttributeDomain::Point) => prims_on(idx, faces, j, faces.len() as int),
        _ => Seq::empty(),
    }
}

/// The source elements of each target element of a mesh of `point_count` points,
/// corners `idx` and polygon sizes `faces`: none for one domain; for the detail
/// target all sources; none where the target domain is empty; from the detail
/// source element 0; otherwise `mapping_list_in`.
pub open spec fn mesh_mapping_in(point_count: nat, idx: Seq<u32>, faces: Seq<u32>, source: AttributeDomain, target: AttributeDomain) -> Seq<Seq<usize>> {
    if source == target {
        Seq::empty()
    } else if target == AttributeDomain::Detail {
        seq![range_seq(domain_count_in(point_count, idx, source))]
    } else if domain_count_in(point_count, idx, target) == 0 {
        Seq::empty()
    } else if source == AttributeDomain::Detail {
        Seq::new(domain_count_in(point_count, idx, target), |j: int| seq![0usize])
    } else {
        Seq::new(domain_count_in(point_count, idx, target), |j: int| mapping_list_in(idx, faces, source, target, j))
    }
}

/// The source elements of each target element of a mesh.
pub open spec fn mesh_mapping(t: MeshTopology, source: AttributeDomain, target: AttributeDomain) -> Seq<Seq<usize>> {
    mesh_mapping_in(t.point_count as nat, t.indices@, t.faces(), source, target)
}

/// The point of corner `j` of polygon `f`.
pub open spec fn corner_point(idx: Seq<u32>, faces: Seq<u32>, f: int, j: int) -> int {
    idx[corner_start(faces, f) + j] as int
}

proof fn lemma_push_contains<A>(s: Seq<A>, x: A, y: A)
    ensures
        s.push(x).contains(y) <==> (s.contains(y) || x == y),
{
    if s.push(x).contains(y) {
        let i = choose|i: int| 0 <= i < s.push(x).len() && s.push(x)[i] == y;
        if i < s.len() {
            assert(s[i] == y);
        }
    }
    if s.contains(y) {
        let i = choose|i: int| 0 <= i < s.len() && s[i] == y;
        assert(s.push(x)[i] == y);
    }
    if x == y {
        assert(s.push(x)[s.len() as int] == y);
    }
}

proof fn lemma_concat_contains<A>(a: Seq<A>, b: Seq<A>, y: A)
    ensures
        (a + b).contains(y) <==> (a.contains(y) || b.contains(y)),
{
    if (a + b).contains(y) {
        let i = choose|i: int| 0 <= i < (a + b).len() && (a + b)[i] == y;
        if i < a.len() {
            assert(a[i] == y);
        } else {
            assert(b[i - a.len()] == y);
        }
    }
    if a.contains(y) {
        let i = choose|i: int| 0 <= i < a.len() && a[i] == y;
        assert((a + b)[i] == y);
    }
    if b.contains(y) {
        let i = choose|i: int| 0 <= i < b.len() && b[i] == y;
        assert((a + b)[a.len() + i] == y);
    }
}

/// The corners among the first `k` that lie on point `q` are exactly those listed.
proof fn lemma_vertices_on(idx: Seq<u32>, q: int, k: int)
    requires
        0 <= k <= idx.len(),
        idx.len() <= usize::MAX,
    ensures
        forall|v: int| 0 <= v < idx.len() ==> (#[trigger] vertices_on(idx, q, k).contains(v as usize) <==> (v < k && idx[v] == q)),
    decreases k,
{
    if k > 0 {
        lemma_vertices_on(idx, q, k - 1);
        let rest = vertices_on(idx, q, k - 1);
        assert forall|v: int| 0 <= v < idx.len() implies (#[trigger] vertices_on(idx, q, k).contains(v as usize) <==> (v < k && idx[v] == q)) by {
            if idx[k - 1] == q {
                lemma_push_contains(rest, (k - 1) as usize, v as usize);
            }
        }
    }
}

/// The polygons among the first `p` that own corner `v` are exactly those listed.
proof fn lemma_prims_of_corner(faces: Seq<u32>, v: int, p: int)
    requires
        0 <= p <= faces.len(),
        faces.len() <= usize::MAX,
    ensures
        forall|f: int| 0 <= f < faces.len() ==> (#[trigger] prims_of_corner(faces, v, p).contains(f as usize)
            <==> (f < p && corner_start(faces, f) <= v < corner_start(faces, f) + faces[f])),
    decreases p,
{
    if p > 0 {
        lemma_prims_of_corner(faces, v, p - 1);
        let q = p - 1;
        let rest = prims_of_corner(faces, v, q);
        assert forall|f: int| 0 <= f < faces.len() implies (#[trigger] prims_of_corner(faces, v, p).contains(f as usize)
            <==> (f < p && corner_start(faces, f) <= v < corner_start(faces, f) + faces[f])) by {
            if corner_start(faces, q) <= v < corner_start(faces, q) + faces[q] {
                lemma_push_contains(rest, q as usize, f as usize);
            }
        }
    }
}

/// Polygon `f` is listed among the hits of its first `i` corners exactly when it is
/// within the corner list and one of those corners is on point `q`.
proof fn lemma_face_hits(idx: Seq<u32>, faces: Seq<u32>, q: int, f: int, i: int)
    requires
        0 <= f < faces.len(),
        0 <= i <= faces[f],
        faces.len() <= usize::MAX,
    ensures
        forall|g: int| 0 <= g < faces.len() ==> (#[trigger] face_hits(idx, faces, q, f, i).contains(g as usize)
            <==> (g == f && face_in_range(idx, faces, f) && exists|j: int| 0 <= j < i && #[trigger] corner_point(idx, faces, f, j) == q)),
    decreases i,
{
    if i > 0 && face_in_range(idx, faces, f) {
        lemma_face_hits(idx, faces, q, f, i - 1);
        let rest = face_hits(idx, faces, q, f, i - 1);
        assert forall|g: int| 0 <= g < faces.len() implies (#[trigger] face_hits(idx, faces, q, f, i).contains(g as usize)
            <==> (g == f && face_in_range(idx, faces, f) && exists|j: int| 0 <= j < i && #[trigger] corner_point(idx, faces, f, j) == q)) by {
            assert(corner_point(idx, faces, f, i - 1) == idx[corner_start(faces, f) + i - 1]);
            if idx[corner_start(faces, f) + i - 1] == q {
                lemma_push_contains(rest, f as usize, g as usize);
            }
            if g == f && exists|j: int| 0 <= j < i && #[trigger] corner_point(idx, faces, f, j) == q {
                let j = choose|j: int| 0 <= j < i && #[trigger] corner_point(idx, faces, f, j) == q;
                if j < i - 1 {
                    assert(exists|j2: int| 0 <= j2 < i - 1 && #[trigger] corner_point(idx, faces, f, j2) == q);
                }
            }
        }
    } else {
        assert forall|g: int| 0 <= g < faces.len() implies !(#[trigger] face_hits(idx, faces, q, f, i).contains(g as usize)) by {}
    }
}

/// The polygons among the first `p` with a corner on point `q` are exactly those listed.
proof fn lemma_prims_on(idx: Seq<u32>, faces: Seq<u32>, q: int, p: int)
    requires
        0 <= p <= faces.len(),
        faces.len() <= usize::MAX,
    ensures
        forall|f: int| 0 <= f < faces.len() ==> (#[trigger] prims_on(idx, faces, q, p).contains(f as usize)
            <==> (f < p && face_in_range(idx, faces, f)
                && exists|j: int| 0 <= j < faces[f] && #[trigger] corner_point(idx, faces, f, j) == q)),
    decreases p,
{
    if p > 0 {
        lemma_prims_on(idx, faces, q, p - 1);
        lemma_face_hits(idx, faces, q, p - 1, faces[p - 1] as int);
        let a = prims_on(idx, faces, q, p - 1);
        let b = face_hits(idx, faces, q, p - 1, faces[p - 1] as int);
        assert forall|f: int| 0 <= f < faces.len() implies (#[trigger] prims_on(idx, faces, q, p).contains(f as usize)
            <==> (f < p && face_in_range(idx, faces, f)
                && exists|j: int| 0 <= j < faces[f] && #[trigger] corner_point(idx, faces, f, j) == q)) by {
            lemma_concat_contains(a, b, f as usize);
        }
    }
}

/// The mappings between two domains of a mesh, each way, are one relation seen from
/// both sides: corner `v` is a source of point `q` exactly when point `q` is the
/// source of corner `v` (its point); corner `v` is a source of polygon `p` exactly
/// when polygon `p` is a source of corner `v` (it owns the corner); and polygon `p`
/// is a source of point `q` exactly when point `q` is a source of polygon `p` (one
/// of its corners is on it).
pub proof fn law_mesh_mapping_inverse(point_count: nat, idx: Seq<u32>, faces: Seq<u32>, q: int, v: int, p: int)
    requires
        point_count <= usize::MAX,
        idx.len() <= usize::MAX,
        faces.len() <= usize::MAX,
        corner_start(faces, faces.len() as int) <= usize::MAX,
        0 <= q < point_count,
        0 <= v < idx.len(),
        0 <= p < faces.len(),
        p < idx.len() / 3,
    ensures
        mesh_mapping_in(point_count, idx, faces, AttributeDomain::Vertex, AttributeDomain::Point)[q].contains(v as usize)
            <==> mesh_mapping_in(point_count, idx, faces, AttributeDomain::Point, AttributeDomain::Vertex)[v] == seq![q as usize],
        mesh_mapping_in(point_count, idx, faces, AttributeDomain::Vertex, AttributeDomain::Primitive)[p].contains(v as usize)
            <==> mesh_mapping_in(point_count, idx, faces, AttributeDomain::Primitive, AttributeDomain::Vertex)[v].contains(p as usize),
        mesh_mapping_in(point_count, idx, faces, AttributeDomain::Primitive, AttributeDomain::Point)[q].contains(p as usize)
            <==> mesh_mapping_in(point_count, idx, faces, AttributeDomain::Point, AttributeDomain::Primitive)[p].contains(q as usize),
{
    let cs = corner_start(faces, p);
    lemma_corner_start_mono(faces, p + 1, faces.len() as int);
    lemma_corner_start_mono(faces, 0, p);
    assert(corner_start(faces, p + 1) == cs + faces[p]);
    // Corners and points.
    lemma_vertices_on(idx, q, idx.len() as int);
    let pv = mesh_mapping_in(point_count, idx, faces, AttributeDomain::Point, AttributeDomain::Vertex)[v];
    assert(pv == seq![idx[v] as usize]);
    if pv == seq![q as usize] {
        assert(pv[0] == q as usize);
    }
    if idx[v] == q {
        assert(pv =~= seq![q as usize]);
    }
    // Corners and polygons.
    lemma_prims_of_corner(faces, v, faces.len() as int);
    let vp = mesh_mapping_in(point_count, idx, faces, AttributeDomain::Vertex, AttributeDomain::Primitive)[p];
    assert(vp == Seq::new(faces[p] as nat, |i: int| (cs + i) as usize));
    if vp.contains(v as usize) {
        let i = choose|i: int| 0 <= i < vp.len() && vp[i] == v as usize;
        assert(0 <= cs + i <= usize::MAX);
        assert(vp[i] == (cs + i) as usize);
        assert(v == cs + i);
    }
    if cs <= v < cs + faces[p] {
        assert(vp[v - cs] == v as usize);
    }
    // Points and polygons.
    lemma_prims_on(idx, faces, q, faces.len() as int);
    let qp = mesh_mapping_in(point_count, idx, faces, AttributeDomain::Point, AttributeDomain::Primitive)[p];
    if face_in_range(idx, faces, p) {
        assert(qp == Seq::new(faces[p] as nat, |i: int| idx[cs + i] as usize));
        if qp.contains(q as usize) {
            let i = choose|i: int| 0 <= i < qp.len() && qp[i] == q as usize;
            assert(corner_point(idx, faces, p, i) == q);
        }
        if exists|j: int| 0 <= j < faces[p] && #[trigger] corner_point(idx, faces, p, j) == q {
            let j = choose|j: int| 0 <= j < faces[p] && #[trigger] corner_point(idx, faces, p, j) == q;
            assert(qp[j] == q as usize);
        }
    } else {
        assert(qp == Seq::<usize>::empty());
    }
}

fn point_to_vertex_lists(idx: &[u32], len: usize) -> (r: Vec<Vec<usize>>)
    ensures
        r@.len() == len,
        forall|j: int| 0 <= j < len ==> (#[trigger] r@[j])@ == (if j < idx@.len() { seq![idx@[j] as usize] } else { Seq::<usize>::empty() }),
{
    let mut r: Vec<Vec<usize>> = Vec::new();
    let mut j: usize = 0;
    while j < len
        invariant
            0 <= j <= len,
            r@.len() == j,
            forall|k: int| 0 <= k < j ==> (#[trigger] r@[k])@ == (if k < idx@.len() { seq![idx@[k] as usize] } else { Seq::<usize>::empty() }),
        decreases len - j,
    {
        let mut l: Vec<usize> = Vec::new();
        if j < idx.len() {
            l.push(idx[j] as usize);
        }
        r.push(l);
        j = j + 1;
    }
    r
}

fn corners_of_prim_lists(idx: &[u32], faces: &[u32], len: usize, by_point: bool) -> (r: Vec<Vec<usize>>)
    requires
        corner_start(faces@, faces@.len() as int) <= usize::MAX,
    ensures
        r@.len() == len,
        forall|j: int| 0 <= j < len ==> (#[trigger] r@[j])@ == (if by_point {
            if face_in_range(idx@, faces@, j) {
                Seq::new(faces@[j] as nat, |i: int| idx@[corner_start(faces@, j) + i] as usize)
            } else {
                Seq::empty()
            }
        } else {
            if j < faces@.len() {
                Seq::new(faces@[j] as nat, |i: int| (corner_start(faces@, j) + i) as usize)
            } else {
                Seq::empty()
            }
        }),
{
    let mut r: Vec<Vec<usize>> = Vec::new();
    let mut cursor: usize = 0;
    let mut p: usize = 0;
    while p < len
        invariant
            0 <= p <= len,
            corner_start(faces@, faces@.len() as int) <= usize::MAX,
            p <= faces@.len() ==> cursor == corner_start(faces@, p as int),
            r@.len() == p,
            forall|j: int| 0 <= j < p ==> (#[trigger] r@[j])@ == (if by_point {
                if face_in_range(idx@, faces@, j) {
                    Seq::new(faces@[j] as nat, |i: int| idx@[corner_start(faces@, j) + i] as usize)
                } else {
                    Seq::empty()
                }
            } else {
                if j < faces@.len() {
                    Seq::new(faces@[j] as nat, |i: int| (corner_start(faces@, j) + i) as usize)
                } else {
                    Seq::empty()
                }
            }),
        decreases len - p,
    {
        let mut l: Vec<usize> = Vec::new();
        if p < faces.len() {
            let count = faces[p] as usize;
            proof {
                lemma_corner_start_mono(faces@, p + 1, faces@.len() as int);
            }
            let take = !by_point || cursor + count <= idx.len();
            if take {
                let mut i: usize = 0;
                while i < count
                    invariant
                        p < faces@.len(),
                        count == faces@[p as int],
                        cursor == corner_start(faces@, p as int),
                        cursor + count <= usize::MAX,
                        by_point ==> cursor + count <= idx@.len(),
                        0 <= i <= count,
                        l@ == (if by_point {
                            Seq::new(i as nat, |m: int| idx@[corner_start(faces@, p as int) + m] as usize)
                        } else {
                            Seq::new(i as nat, |m: int| (corner_start(faces@, p as int) + m) as usize)
                        }),
                    decreases count - i,
                {
                    if by_point {
                        l.push(idx[cursor + i] as usize);
                    } else {
                        l.push(cursor + i);
                    }
                    i = i + 1;
                    proof {
                        if by_point {
                            assert(l@ =~= Seq::new(i as nat, |m: int| idx@[corner_start(faces@, p as int) + m] as usize));
                        } else {
                            assert(l@ =~= Seq::new(i as nat, |m: int| (corner_start(faces@, p as int) + m) as usize));
                        }
                    }
                }
            } else {
                assert(l@ =~= Seq::<usize>::empty());
            }
            cursor = cursor + count;
        }
        r.push(l);
        p = p + 1;
    }
    r
}

fn empty_lists(len: usize) -> (r: Vec<Vec<usize>>)
    ensures
        r@.len() == len,
        forall|j: int| 0 <= j < len ==> (#[trigger] r@[j])@ == Seq::<usize>::empty(),
{
    let mut r: Vec<Vec<usize>> = Vec::new();
    let mut k: usize = 0;
    while k < len
        invariant
            0 <= k <= len,
            r@.len() == k,
            forall|j: int| 0 <= j < k ==> (#[trigger] r@[j])@ == Seq::<usize>::empty(),
        decreases len - k,
    {
        r.push(Vec::new());
        k = k + 1;
    }
    r
}

fn vertex_to_point_lists(idx: &[u32], len: usize) -> (r: Vec<Vec<usize>>)
    ensures
        r@.len() == len,
        forall|q: int| 0 <= q < len ==> (#[trigger] r@[q])@ == vertices_on(idx@, q, idx@.len() as int),
{
    let mut r = empty_lists(len);
    let mut v: usize = 0;
    while v < idx.len()
        invariant
            0 <= v <= idx@.len(),
            r@.len() == len,
            forall|q: int| 0 <= q < len ==> (#[trigger] r@[q])@ == vertices_on(idx@, q, v as int),
        decreases idx@.len() - v,
    {
        let q = idx[v] as usize;
        let ghost before = r@;
        if q < len {
            r[q].push(v);
        }
        proof {
            assert forall|x: int| 0 <= x < len implies (#[trigger] r@[x])@ == vertices_on(idx@, x, v + 1) by {
                if x != q as int {
                    assert(r@[x] == before[x]);
                }
            }
        }
        v = v + 1;
    }
    r
}

fn prim_to_vertex_lists(faces: &[u32], len: usize) -> (r: Vec<Vec<usize>>)
    requires
        corner_start(faces@, faces@.len() as int) <= usize::MAX,
    ensures
        r@.len() == len,
        forall|v: int| 0 <= v < len ==> (#[trigger] r@[v])@ == prims_of_corner(faces@, v, faces@.len() as int),
{
    let mut r = empty_lists(len);
    let mut cursor: usize = 0;
    let mut p: usize = 0;
    while p < faces.len()
        invariant
            0 <= p <= faces@.len(),
            corner_start(faces@, faces@.len() as int) <= usize::MAX,
            cursor == corner_start(faces@, p as int),
            r@.len() == len,
            forall|v: int| 0 <= v < len ==> (#[trigger] r@[v])@ == prims_of_corner(faces@, v, p as int),
        decreases faces@.len() - p,
    {
        let count = faces[p] as usize;
        proof {
            lemma_corner_start_mono(faces@, p + 1, faces@.len() as int);
        }
        let mut i: usize = 0;
        while i < count
            invariant
                p < faces@.len(),
                count == faces@[p as int],
                cursor == corner_start(faces@, p as int),
                cursor + count <= usize::MAX,
                0 <= i <= count,
                r@.len() == len,
                forall|v: int| 0 <= v < len ==> (#[trigger] r@[v])@ == (if cursor <= v < cursor + i {
                    prims_of_corner(faces@, v, p as int).push(p as usize)
                } else {
                    prims_of_corner(faces@, v, p as int)
                }),
            decreases count - i,
        {
            let v = cursor + i;
            let ghost before = r@;
            if v < len {
                r[v].push(p);
            }
            proof {
                assert forall|x: int| 0 <= x < len implies (#[trigger] r@[x])@ == (if cursor <= x < cursor + i + 1 {
                    prims_of_corner(faces@, x, p as int).push(p as usize)
                } else {
                    prims_of_corner(faces@, x, p as int)
                }) by {
                    if x != v as int {
                        assert(r@[x] == before[x]);
                    }
                }
            }
            i = i + 1;
        }
        cursor = cursor + count;
        p = p + 1;
    }
    r
}

fn prim_to_point_lists(idx: &[u32], faces: &[u32], len: usize) -> (r: Vec<Vec<usize>>)
    requires
        corner_start(faces@, faces@.len() as int) <= usize::MAX,
    ensures
        r@.len() == len,
        forall|q: int| 0 <= q < len ==> (#[trigger] r@[q])@ == prims_on(idx@, faces@, q, faces@.len() as int),
{
    let mut r = empty_lists(len);
    let mut cursor: usize = 0;
    let mut p: usize = 0;
    while p < faces.len()
        invariant
            0 <= p <= faces@.len(),
            corner_start(faces@, faces@.len() as int) <= usize::MAX,
            cursor == corner_start(faces@, p as int),
            r@.len() == len,
            forall|q: int| 0 <= q < len ==> (#[trigger] r@[q])@ == prims_on(idx@, faces@, q, p as int),
        decreases faces@.len() - p,
    {
        let count = faces[p] as usize;
        proof {
            lemma_corner_start_mono(faces@, p + 1, faces@.len() as int);
        }
        if cursor + count <= idx.len() {
            let mut i: usize = 0;
            while i < count
                invariant
                    p < faces@.len(),
                    count == faces@[p as int],
                    cursor == corner_start(faces@, p as int),
                    cursor + count <= idx@.len(),
                    cursor + count <= usize::MAX,
                    face_in_range(idx@, faces@, p as int),
                    0 <= i <= count,
                    r@.len() == len,
                    forall|q: int| 0 <= q < len ==> (#[trigger] r@[q])@ == prims_on(idx@, faces@, q, p as int) + face_hits(idx@, faces@, q, p as int, i as int),
                decreases count - i,
            {
                let q = idx[cursor + i] as usize;
                let ghost before = r@;
                if q < len {
                    r[q].push(p);
                }
                proof {
                    assert forall|x: int| 0 <= x < len implies (#[trigger] r@[x])@ == prims_on(idx@, faces@, x, p as int) + face_hits(idx@, faces@, x, p as int, i + 1) by {
                        if x != q as int {
                            assert(r@[x] == before[x]);
                        } else {
                            assert(prims_on(idx@, faces@, x, p as int) + face_hits(idx@, faces@, x, p as int, i + 1)
                                =~= (prims_on(idx@, faces@, x, p as int) + face_hits(idx@, faces@, x, p as int, i as int)).push(p as usize));
                        }
                    }
                }
                i = i + 1;
            }
        } else {
            proof {
                assert forall|q: int| 0 <= q < len implies (#[trigger] r@[q])@ == prims_on(idx@, faces@, q, p + 1) by {
                    assert(face_hits(idx@, faces@, q, p as int, count as int) =~= Seq::<usize>::empty());
                    assert(prims_on(idx@, faces@, q, p + 1) =~= prims_on(idx@, faces@, q, p as int));
                }
            }
        }
        cursor = cursor + count;
        p = p + 1;
    }
    r
}

/// The source elements of each target element of a mesh.
pub fn build_mapping(topo: &MeshTopology, source: AttributeDomain, target: AttributeDomain) -> (mapping: Vec<Vec<usize>>)
    requires
        topo.corners_fit(),
    ensures
        mapping@.map_values(|l: Vec<usize>| l@) == mesh_mapping(*topo, source, target),
{
    if source == target {
        let r: Vec<Vec<usize>> = Vec::new();
        assert(r@.map_values(|l: Vec<usize>| l@) =~= mesh_mapping(*topo, source, target));
        return r;
    }
    if target == AttributeDomain::Detail {
        let source_len = topo.attribute_domain_len(source);
        let all = range_vec(source_len);
        let mut r: Vec<Vec<usize>> = Vec::new();
        r.push(all);
        assert(r@.map_values(|l: Vec<usize>| l@) =~= mesh_mapping(*topo, source, target));
        return r;
    }
    let target_len = topo.attribute_domain_len(target);
    if target_len == 0 {
        let r: Vec<Vec<usize>> = Vec::new();
        assert(r@.map_values(|l: Vec<usize>| l@) =~= mesh_mapping(*topo, source, target));
        return r;
    }
    if source == AttributeDomain::Detail {
        let mut zero: Vec<usize> = Vec::new();
        zero.push(0);
        let r = repeat_list(&zero, target_len);
        assert(r@.map_values(|l: Vec<usize>| l@) =~= mesh_mapping(*topo, source, target));
        return r;
    }
    let faces = topo.resolved_face_counts();
    let idx = topo.indices.as_slice();
    let r = match (source, target) {
        (AttributeDomain::Point, AttributeDomain::Vertex) => point_to_vertex_lists(idx, target_len),
        (AttributeDomain::Primitive, AttributeDomain::Vertex) => prim_to_vertex_lists(faces.as_slice(), target_len),
        (AttributeDomain::Point, AttributeDomain::Primitive) => corners_of_prim_lists(idx, faces.as_slice(), target_len, true),
        (AttributeDomain::Vertex, AttributeDomain::Primitive) => corners_of_prim_lists(idx, faces.as_slice(), target_len, false),
        (AttributeDomain::Vertex, AttributeDomain::Point) => vertex_to_point_lists(idx, target_len),
        (AttributeDomain::Primitive, AttributeDomain::Point) => prim_to_point_lists(idx, faces.as_slice(), target_len),
        _ => empty_lists(target_len),
    };
    assert(r@.map_values(|l: Vec<usize>| l@) =~= mesh_mapping(*topo, source, target));
    r
}

/// The order of integers by value.
pub open spec fn leq_i64() -> spec_fn(i64, i64) -> bool {
    |a: i64, b: i64| a <= b
}

proof fn lemma_leq_i64_total()
    ensures
        total_ordering(leq_i64()),
{
}

/// The values in increasing order.
pub fn sort_values(values: &[i64]) -> (out: Vec<i64>)
    ensures
        out@ == values@.sort_by(leq_i64()),
{
    broadcast use vstd::seq_lib::group_to_multiset_ensures;
    let mut out: Vec<i64> = Vec::new();
    let mut k: usize = 0;
    while k < values.len()
        invariant
            0 <= k <= values@.len(),
            sorted_by(out@, leq_i64()),
            out@.to_multiset() == values@.take(k as int).to_multiset(),
        decreases values@.len() - k,
    {
        let x = values[k];
        let mut pos: usize = 0;
        while pos < out.len() && out[pos] <= x
            invariant
                0 <= k < values@.len(),
                x == values@[k as int],
                sorted_by(out@, leq_i64()),
                out@.to_multiset() == values@.take(k as int).to_multiset(),
                0 <= pos <= out@.len(),
                forall|m: int| 0 <= m < pos ==> out@[m] <= x,
            decreases out@.len() - pos,
        {
            pos = pos + 1;
        }
        let ghost before = out@;
        out.insert(pos, x);
        proof {
            assert(out@ == before.insert(pos as int, x));
            vstd::seq_lib::to_multiset_insert(before, pos as int, x);
            assert(values@.take(k + 1) =~= values@.take(k as int).push(x));
            vstd::seq_lib::to_multiset_build(values@.take(k as int), x);
            assert forall|a: int, b: int| 0 <= a < b < out@.len() implies #[trigger] leq_i64()(out@[a], out@[b]) by {
                if b < pos {
                    assert(leq_i64()(before[a], before[b]));
                } else if a > pos {
                    assert(leq_i64()(before[a - 1], before[b - 1]));
                } else if a == pos {
                    if pos < before.len() {
                        assert(!(before[pos as int] <= x));
                        if b - 1 > pos {
                            assert(leq_i64()(before[pos as int], before[b - 1]));
                        }
                    }
                } else if b == pos {
                } else {
                    if b - 1 > pos {
                        assert(leq_i64()(before[pos as int], before[b - 1]));
                    }
                    assert(!(before[pos as int] <= x));
                }
            }
        }
        k = k + 1;
    }
    proof {
        assert(values@.take(values@.len() as int) =~= values@);
        lemma_leq_i64_total();
        values@.lemma_sort_by_ensures(leq_i64());
        vstd::seq_lib::lemma_sorted_unique(out@, values@.sort_by(leq_i64()), leq_i64());
    }
    out
}

/// The largest of the first `k` values (`k` at least 1).
pub open spec fn max_upto(s: Seq<i64>, k: int) -> i64
    decreases k,
{
    if k <= 1 {
        s[0]
    } else {
        let m = max_upto(s, k - 1);
        if s[k - 1] > m { s[k - 1] } else { m }
    }
}

/// The smallest of the first `k` values (`k` at least 1).
pub open spec fn min_upto(s: Seq<i64>, k: int) -> i64
    decreases k,
{
    if k <= 1 {
        s[0]
    } else {
        let m = min_upto(s, k - 1);
        if s[k - 1] < m { s[k - 1] } else { m }
    }
}

/// How often `v` occurs among the first `k` values.
pub open spec fn count_in(s: Seq<i64>, v: i64, k: int) -> int
    decreases k,
{
    if k <= 0 {
        0
    } else {
        count_in(s, v, k - 1) + if s[k - 1] == v { 1int } else { 0int }
    }
}

/// `v` occurs in `s`, no value occurs more often, and no smaller value as often.
pub open spec fn is_mode(s: Seq<i64>, v: i64) -> bool {
    &&& s.contains(v)
    &&& forall|j: int| 0 <= j < s.len() ==> count_in(s, #[trigger] s[j], s.len() as int) < count_in(s, v, s.len() as int)
        || (count_in(s, s[j], s.len() as int) == count_in(s, v, s.len() as int) && v <= s[j])
}

/// The most frequent value, the smallest of those on a tie.
pub open spec fn mode_of(s: Seq<i64>) -> i64 {
    choose|v: i64| is_mode(s, v)
}

/// The sum of the first `k` values.
pub open spec fn sum_upto(s: Seq<i64>, k: int) -> int
    decreases k,
{
    if k <= 0 { 0 } else { sum_upto(s, k - 1) + s[k - 1] }
}

/// The sum of the squares of the first `k` values.
pub open spec fn sum_sq_upto(s: Seq<i64>, k: int) -> int
    decreases k,
{
    if k <= 0 { 0 } else { sum_sq_upto(s, k - 1) + s[k - 1] * s[k - 1] }
}

/// A value is the mode of at most one value.
proof fn lemma_mode_unique(s: Seq<i64>, v: i64, w: i64)
    requires
        is_mode(s, v),
        is_mode(s, w),
    ensures
        v == w,
{
    let n = s.len() as int;
    let i = choose|i: int| 0 <= i < s.len() && s[i] == v;
    let j = choose|j: int| 0 <= j < s.len() && s[j] == w;
    assert(count_in(s, s[j], n) < count_in(s, v, n) || (count_in(s, s[j], n) == count_in(s, v, n) && v <= s[j]));
    assert(count_in(s, s[i], n) < count_in(s, w, n) || (count_in(s, s[i], n) == count_in(s, w, n) && w <= s[i]));
}

fn count_value(s: &[i64], v: i64) -> (c: usize)
    ensures
        c == count_in(s@, v, s@.len() as int),
{
    let mut c: usize = 0;
    let mut m: usize = 0;
    while m < s.len()
        invariant
            0 <= m <= s@.len(),
            c == count_in(s@, v, m as int),
            c <= m,
        decreases s@.len() - m,
    {
        if s[m] == v {
            c = c + 1;
        }
        m = m + 1;
    }
    c
}

/// The most frequent value, the smallest of those on a tie.
pub fn mode_value(s: &[i64]) -> (r: i64)
    requires
        s@.len() > 0,
    ensures
        r == mode_of(s@),
{
    let n = s.len();
    let mut best = s[0];
    let mut best_count = count_value(s, best);
    let mut i: usize = 1;
    while i < n
        invariant
            n == s@.len(),
            1 <= i <= n,
            s@.contains(best),
            best_count == count_in(s@, best, n as int),
            forall|j: int| 0 <= j < i ==> count_in(s@, #[trigger] s@[j], n as int) < best_count
                || (count_in(s@, s@[j], n as int) == best_count && best <= s@[j]),
        decreases n - i,
    {
        let v = s[i];
        let c = count_value(s, v);
        if c > best_count || (c == best_count && v < best) {
            best = v;
            best_count = c;
            assert(s@[i as int] == best);
        }
        i = i + 1;
    }
    proof {
        assert(is_mode(s@, best));
        lemma_mode_unique(s@, best, mode_of(s@));
    }
    best
}

/// The middle value in increasing order (the upper one of an even count).
pub open spec fn median_of(s: Seq<i64>) -> i64 {
    s.sort_by(leq_i64())[(s.len() / 2) as int]
}

/// The middle value in increasing order.
pub fn median_value(s: &[i64]) -> (r: i64)
    requires
        s@.len() > 0,
    ensures
        r == median_of(s@),
{
    let sorted = sort_values(s);
    proof {
        lemma_leq_i64_total();
        s@.lemma_sort_by_ensures(leq_i64());
        vstd::seq_lib::to_multiset_len(s@);
        vstd::seq_lib::to_multiset_len(sorted@);
        assert(sorted@.len() == s@.len());
    }
    sorted[s.len() / 2]
}

/// The largest value.
pub fn max_value(s: &[i64]) -> (r: i64)
    requires
        s@.len() > 0,
    ensures
        r == max_upto(s@, s@.len() as int),
{
    let mut m = s[0];
    let mut i: usize = 1;
    while i < s.len()
        invariant
            1 <= i <= s@.len(),
            m == max_upto(s@, i as int),
        decreases s@.len() - i,
    {
        if s[i] > m {
            m = s[i];
        }
        i = i + 1;
    }
    m
}

/// The smallest value.
pub fn min_value(s: &[i64]) -> (r: i64)
    requires
        s@.len() > 0,
    ensures
        r == min_upto(s@, s@.len() as int),
{
    let mut m = s[0];
    let mut i: usize = 1;
    while i < s.len()
        invariant
            1 <= i <= s@.len(),
            m == min_upto(s@, i as int),
        decreases s@.len() - i,
    {
        if s[i] < m {
            m = s[i];
        }
        i = i + 1;
    }
    m
}

/// Whether every value lies strictly between -2^32 and 2^32.
pub open spec fn values_bounded(s: Seq<i64>) -> bool {
    forall|j: int| 0 <= j < s.len() ==> -0x1_0000_0000 < #[trigger] s[j] < 0x1_0000_0000
}

/// The sum of the values, exactly.
pub fn sum_values(s: &[i64]) -> (r: i128)
    requires
        values_bounded(s@),
    ensures
        r == sum_upto(s@, s@.len() as int),
{
    let mut acc: i128 = 0;
    let mut i: usize = 0;
    while i < s.len()
        invariant
            0 <= i <= s@.len(),
            values_bounded(s@),
            acc == sum_upto(s@, i as int),
            -(i as int) * 0x1_0000_0000 <= acc <= (i as int) * 0x1_0000_0000,
        decreases s@.len() - i,
    {
        let v = s[i];
        assert(-0x1_0000_0000 < v < 0x1_0000_0000);
        assert((i as int) * 0x1_0000_0000 + 0x1_0000_0000 <= 0x1_0000_0000_0000_0000 * 0x1_0000_0000) by (nonlinear_arith)
            requires
                i < 0x1_0000_0000_0000_0000,
        ;
        acc = acc + v as i128;
        i = i + 1;
    }
    acc
}

/// The sum of the squares of the values, exactly.
pub fn sum_squares(s: &[i64]) -> (r: u128)
    requires
        values_bounded(s@),
    ensures
        r == sum_sq_upto(s@, s@.len() as int),
{
    let mut acc: u128 = 0;
    let mut i: usize = 0;
    while i < s.len()
        invariant
            0 <= i <= s@.len(),
            values_bounded(s@),
            acc == sum_sq_upto(s@, i as int),
            acc <= (i as int) * 0xffff_fffe_0000_0001,
        decreases s@.len() - i,
    {
        let v = s[i];
        let a: u64 = if v < 0 { (0 - v) as u64 } else { v as u64 };
        assert(a <= 0xffff_ffff);
        assert(a as int * a as int <= 0xffff_fffe_0000_0001) by (nonlinear_arith)
            requires
                a <= 0xffff_ffff,
        ;
        assert(a as int * a as int == v as int * v as int) by (nonlinear_arith)
            requires
                a as int == v as int || a as int == -(v as int),
        ;
        assert((i as int) * 0xffff_fffe_0000_0001 + 0xffff_fffe_0000_0001 <= 0x1_0000_0000_0000_0000 * 0xffff_fffe_0000_0001) by (nonlinear_arith)
            requires
                i < 0x1_0000_0000_0000_0000,
        ;
        let sq: u128 = (a as u128) * (a as u128);
        acc = acc + sq;
        i = i + 1;
    }
    acc
}

/// The values at the first `k` sources that exist, in order.
pub open spec fn gathered(values: Seq<i64>, sources: Seq<usize>, k: int) -> Seq<i64>
    decreases k,
{
    if k <= 0 {
        Seq::empty()
    } else {
        let rest = gathered(values, sources, k - 1);
        let at = sources[k - 1] as int;
        if at < values.len() { rest.push(values[at]) } else { rest }
    }
}

/// Whether the method works on integers alone (the mean-based ones need
/// floating point).
pub open spec fn exact_method(m: PromotionMethod) -> bool {
    !(m is Average || m is RootMeanSquare)
}

/// The value an exact method makes of a list: 0 for no values.
pub open spec fn promote_one(list: Seq<i64>, method: PromotionMethod) -> int {
    if list.len() == 0 {
        0
    } else {
        match method {
            PromotionMethod::Max => max_upto(list, list.len() as int) as int,
            PromotionMethod::Min => min_upto(list, list.len() as int) as int,
            PromotionMethod::Mode => mode_of(list) as int,
            PromotionMethod::Median => median_of(list) as int,
            PromotionMethod::Sum => sum_upto(list, list.len() as int),
            PromotionMethod::SumSquares => sum_sq_upto(list, list.len() as int),
            PromotionMethod::First => list[0] as int,
            PromotionMethod::Last => list[list.len() - 1] as int,
            _ => 0,
        }
    }
}

/// The largest and smallest of the first `k` values are among them and bound them.
proof fn lemma_extremes_upto(s: Seq<i64>, k: int)
    requires
        1 <= k <= s.len(),
    ensures
        forall|j: int| 0 <= j < k ==> #[trigger] s[j] <= max_upto(s, k) && min_upto(s, k) <= s[j],
        exists|j: int| 0 <= j < k && s[j] == max_upto(s, k),
        exists|j: int| 0 <= j < k && s[j] == min_upto(s, k),
    decreases k,
{
    if k > 1 {
        lemma_extremes_upto(s, k - 1);
        let a = choose|j: int| 0 <= j < k - 1 && s[j] == max_upto(s, k - 1);
        let b = choose|j: int| 0 <= j < k - 1 && s[j] == min_upto(s, k - 1);
        if s[k - 1] > max_upto(s, k - 1) { assert(s[k - 1] == max_upto(s, k)); } else { assert(s[a] == max_upto(s, k)); }
        if s[k - 1] < min_upto(s, k - 1) { assert(s[k - 1] == min_upto(s, k)); } else { assert(s[b] == min_upto(s, k)); }
    } else {
        assert(s[0] == max_upto(s, k));
    }
}

/// What the exact promotion methods make of a non-empty list of gathered values:
/// the maximum is one of the values and no value exceeds it; the minimum is one of
/// the values and no value is below it; the first and last are the values at the two
/// ends; and an empty list gives 0.
pub proof fn law_promote_one(list: Seq<i64>)
    ensures
        list.len() == 0 ==> forall|m: PromotionMethod| #[trigger] promote_one(list, m) == 0,
        list.len() > 0 ==> list.contains(promote_one(list, PromotionMethod::Max) as i64)
            && forall|j: int| 0 <= j < list.len() ==> #[trigger] list[j] <= promote_one(list, PromotionMethod::Max),
        list.len() > 0 ==> list.contains(promote_one(list, PromotionMethod::Min) as i64)
            && forall|j: int| 0 <= j < list.len() ==> promote_one(list, PromotionMethod::Min) <= #[trigger] list[j],
        list.len() > 0 ==> promote_one(list, PromotionMethod::First) == list[0],
        list.len() > 0 ==> promote_one(list, PromotionMethod::Last) == list[list.len() - 1],
{
    if list.len() > 0 {
        lemma_extremes_upto(list, list.len() as int);
        let a = choose|j: int| 0 <= j < list.len() && list[j] == max_upto(list, list.len() as int);
        let b = choose|j: int| 0 <= j < list.len() && list[j] == min_upto(list, list.len() as int);
        assert(list[a] == promote_one(list, PromotionMethod::Max) as i64);
        assert(list[b] == promote_one(list, PromotionMethod::Min) as i64);
    }
}

/// The mapping of a mesh, for the detail domain: a detail target has a single list
/// holding every element of the source domain, each once and in order; a detail
/// source gives every element of a non-empty target domain the single element 0;
/// otherwise there is one list per target element.
pub proof fn law_mesh_mapping_detail(t: MeshTopology, source: AttributeDomain, target: AttributeDomain, mapping: Seq<Seq<usize>>)
    requires
        domain_count_in(t.point_count as nat, t.indices@, source) <= usize::MAX,
        mapping == mesh_mapping(t, source, target),
    ensures
        source == target ==> mapping.len() == 0,
        source != target && target == AttributeDomain::Detail ==> {
            &&& mapping.len() == 1
            &&& mapping[0].len() == domain_count_in(t.point_count as nat, t.indices@, source)
            &&& forall|s: int| 0 <= s < mapping[0].len() ==> #[trigger] mapping[0][s] == s
        },
        source != target && target != AttributeDomain::Detail ==> mapping.len() == domain_count_in(t.point_count as nat, t.indices@, target),
        source == AttributeDomain::Detail && target != AttributeDomain::Detail ==> forall|j: int| 0 <= j < mapping.len()
            ==> (#[trigger] mapping[j]).len() == 1 && mapping[j][0] == 0,
{
}

/// The values at the sources that exist, in order.
pub fn gather_values(values: &[i64], sources: &[usize]) -> (list: Vec<i64>)
    ensures
        list@ == gathered(values@, sources@, sources@.len() as int),
        list@.len() <= sources@.len(),
        forall|j: int| 0 <= j < list@.len() ==> exists|k: int| 0 <= k < values@.len() && #[trigger] list@[j] == values@[k],
{
    let mut list: Vec<i64> = Vec::new();
    let mut k: usize = 0;
    while k < sources.len()
        invariant
            0 <= k <= sources@.len(),
            list@ == gathered(values@, sources@, k as int),
            list@.len() <= k,
            forall|j: int| 0 <= j < list@.len() ==> exists|m: int| 0 <= m < values@.len() && #[trigger] list@[j] == values@[m],
        decreases sources@.len() - k,
    {
        let at = sources[k];
        if at < values.len() {
            let ghost before = list@;
            list.push(values[at]);
            assert forall|j: int| 0 <= j < list@.len() implies exists|m: int| 0 <= m < values@.len() && #[trigger] list@[j] == values@[m] by {
                if j < before.len() {
                    assert(list@[j] == before[j]);
                } else {
                    assert(list@[j] == values@[at as int]);
                }
            }
        }
        k = k + 1;
    }
    list
}

/// The value an exact method other than the sum of squares makes of a list of
/// bounded values, exactly.
fn promote_exact(list: &[i64], method: PromotionMethod) -> (r: i128)
    requires
        exact_method(method),
        method != PromotionMethod::SumSquares,
        values_bounded(list@),
    ensures
        r == promote_one(list@, method),
{
    if list.len() == 0 {
        return 0;
    }
    match method {
        PromotionMethod::Max => max_value(list) as i128,
        PromotionMethod::Min => min_value(list) as i128,
        PromotionMethod::Mode => mode_value(list) as i128,
        PromotionMethod::Median => median_value(list) as i128,
        PromotionMethod::Sum => sum_values(list),
        PromotionMethod::First => list[0] as i128,
        _ => list[list.len() - 1] as i128,
    }
}

/// The 64-bit copies of 32-bit values.
pub open spec fn widen_i32(values: Seq<i32>) -> Seq<i64> {
    values.map_values(|v: i32| v as i64)
}

/// The 64-bit copies of unsigned 32-bit values.
pub open spec fn widen_u32(values: Seq<u32>) -> Seq<i64> {
    values.map_values(|v: u32| v as i64)
}

fn widen_i32_vec(values: &[i32]) -> (r: Vec<i64>)
    ensures
        r@ == widen_i32(values@),
        values_bounded(r@),
{
    let mut r: Vec<i64> = Vec::new();
    let mut k: usize = 0;
    while k < values.len()
        invariant
            0 <= k <= values@.len(),
            r@ == widen_i32(values@.take(k as int)),
        decreases values@.len() - k,
    {
        r.push(values[k] as i64);
        k = k + 1;
        assert(r@ =~= widen_i32(values@.take(k as int)));
    }
    assert(values@.take(values@.len() as int) =~= values@);
    r
}

fn widen_u32_vec(values: &[u32]) -> (r: Vec<i64>)
    ensures
        r@ == widen_u32(values@),
        values_bounded(r@),
{
    let mut r: Vec<i64> = Vec::new();
    let mut k: usize = 0;
    while k < values.len()
        invariant
            0 <= k <= values@.len(),
            r@ == widen_u32(values@.take(k as int)),
        decreases values@.len() - k,
    {
        r.push(values[k] as i64);
        k = k + 1;
        assert(r@ =~= widen_u32(values@.take(k as int)));
    }
    assert(values@.take(values@.len() as int) =~= values@);
    r
}

/// Promotes integer values along a mapping: each target gets what the method
/// makes of the values at its sources (0 where it has none), cut to 32 bits as
/// the sums are; none for the mean-based methods, which need floating point.
pub fn promote_i32(values: &[i32], mapping: &[Vec<usize>], method: PromotionMethod) -> (r: Option<Vec<i32>>)
    ensures
        !exact_method(method) ==> r.is_none(),
        exact_method(method) ==> (r matches Some(out) && out@.len() == mapping@.len() && forall|i: int| 0 <= i < mapping@.len()
            ==> #[trigger] out@[i] == promote_one(gathered(widen_i32(values@), mapping@[i]@, mapping@[i]@.len() as int), method) as i32),
{
    if !(method != PromotionMethod::Average && method != PromotionMethod::RootMeanSquare) {
        return None;
    }
    let wide = widen_i32_vec(values);
    let mut out: Vec<i32> = Vec::new();
    let mut i: usize = 0;
    while i < mapping.len()
        invariant
            0 <= i <= mapping@.len(),
            exact_method(method),
            wide@ == widen_i32(values@),
            values_bounded(wide@),
            out@.len() == i,
            forall|k: int| 0 <= k < i ==> #[trigger] out@[k] == promote_one(gathered(widen_i32(values@), mapping@[k]@, mapping@[k]@.len() as int), method) as i32,
        decreases mapping@.len() - i,
    {
        let list = gather_values(wide.as_slice(), mapping[i].as_slice());
        assert(values_bounded(list@)) by {
            assert forall|j: int| 0 <= j < list@.len() implies -0x1_0000_0000 < #[trigger] list@[j] < 0x1_0000_0000 by {
                let m = choose|m: int| 0 <= m < wide@.len() && list@[j] == wide@[m];
            }
        }
        let t: i32 = if method == PromotionMethod::SumSquares {
            let sq = sum_squares(list.as_slice());
            #[verifier::truncate]
            let c = sq as i32;
            c
        } else {
            let v = promote_exact(list.as_slice(), method);
            #[verifier::truncate]
            let c = v as i32;
            c
        };
        out.push(t);
        i = i + 1;
    }
    Some(out)
}

/// Promotes unsigned integer values (string table indices) along a mapping, as
/// `promote_i32` does, cut to unsigned 32 bits.
pub fn promote_u32(values: &[u32], mapping: &[Vec<usize>], method: PromotionMethod) -> (r: Option<Vec<u32>>)
    ensures
        !exact_method(method) ==> r.is_none(),
        exact_method(method) ==> (r matches Some(out) && out@.len() == mapping@.len() && forall|i: int| 0 <= i < mapping@.len()
            ==> #[trigger] out@[i] == promote_one(gathered(widen_u32(values@), mapping@[i]@, mapping@[i]@.len() as int), method) as u32),
{
    if !(method != PromotionMethod::Average && method != PromotionMethod::RootMeanSquare) {
        return None;
    }
    let wide = widen_u32_vec(values);
    let mut out: Vec<u32> = Vec::new();
    let mut i: usize = 0;
    while i < mapping.len()
        invariant
            0 <= i <= mapping@.len(),
            exact_method(method),
            wide@ == widen_u32(values@),
            values_bounded(wide@),
            out@.len() == i,
            forall|k: int| 0 <= k < i ==> #[trigger] out@[k] == promote_one(gathered(widen_u32(values@), mapping@[k]@, mapping@[k]@.len() as int), method) as u32,
        decreases mapping@.len() - i,
    {
        let list = gather_values(wide.as_slice(), mapping[i].as_slice());
        assert(values_bounded(list@)) by {
            assert forall|j: int| 0 <= j < list@.len() implies -0x1_0000_0000 < #[trigger] list@[j] < 0x1_0000_0000 by {
                let m = choose|m: int| 0 <= m < wide@.len() && list@[j] == wide@[m];
            }
        }
        let t: u32 = if method == PromotionMethod::SumSquares {
            let sq = sum_squares(list.as_slice());
            #[verifier::truncate]
            let c = sq as u32;
            c
        } else {
            let v = promote_exact(list.as_slice(), method);
            #[verifier::truncate]
            let c = v as u32;
            c
        };
        out.push(t);
        i = i + 1;
    }
    Some(out)
}

/// Whether a name pattern holds a wildcard (`*` or `?`).
pub open spec fn has_wildcard(p: Seq<char>) -> bool {
    p.contains('*') || p.contains('?')
}

/// Whether `pattern` stands for the name `n`: a wildcard pattern for the
/// available names it matches, any other pattern for itself.
pub open spec fn pattern_names(available: Seq<Seq<char>>, pattern: Seq<char>, n: Seq<char>) -> bool {
    if has_wildcard(pattern) { available.contains(n) && glob_text(pattern, n) } else { n == pattern }
}

/// The names the patterns stand for, each once, in increasing order.
pub fn resolve_attribute_patterns(available: &[String], patterns: &[String]) -> (out: Vec<String>)
    ensures
        texts_increasing(texts(out@)),
        forall|n: Seq<char>| #[trigger] texts(out@).contains(n) <==> exists|k: int| 0 <= k < patterns@.len()
            && pattern_names(texts(available@), #[trigger] patterns@[k]@, n),
{
    let mut out: Vec<String> = Vec::new();
    let mut k: usize = 0;
    while k < patterns.len()
        invariant
            0 <= k <= patterns@.len(),
            texts_increasing(texts(out@)),
            forall|n: Seq<char>| #[trigger] texts(out@).contains(n) <==> exists|j: int| 0 <= j < k
                && pattern_names(texts(available@), #[trigger] patterns@[j]@, n),
        decreases patterns@.len() - k,
    {
        let pattern = &patterns[k];
        let pc = chars_of(pattern.as_str());
        let wild = chars_contain(pc.as_slice(), '*') || chars_contain(pc.as_slice(), '?');
        let ghost before = texts(out@);
        let ghost kk = k as int;
        if wild {
            let mut m: usize = 0;
            while m < available.len()
                invariant
                    0 <= k < patterns@.len(),
                    kk == k,
                    pattern == &patterns@[kk],
                    has_wildcard(pattern@),
                    0 <= m <= available@.len(),
                    texts_increasing(texts(out@)),
                    forall|n: Seq<char>| #[trigger] texts(out@).contains(n) <==> (before.contains(n)
                        || (texts(available@).take(m as int).contains(n) && glob_text(pattern@, n))),
                decreases available@.len() - m,
            {
                let name = &available[m];
                let ghost mid = texts(out@);
                if glob_match(pattern.as_str(), name.as_str()) {
                    insert_text_sorted(&mut out, name.clone());
                }
                proof {
                    assert(texts(available@).take(m + 1) =~= texts(available@).take(m as int).push(name@));
                    assert forall|n: Seq<char>| #[trigger] texts(out@).contains(n) <==> (before.contains(n)
                        || (texts(available@).take(m + 1).contains(n) && glob_text(pattern@, n))) by {
                        let pre1 = texts(available@).take(m + 1);
                        let pre0 = texts(available@).take(m as int);
                        if pre1.contains(n) && !pre0.contains(n) {
                            let t = choose|t: int| 0 <= t < pre1.len() && #[trigger] pre1[t] == n;
                            if t < m {
                                assert(pre0[t] == n);
                            }
                        }
                        if pre0.contains(n) {
                            let t = choose|t: int| 0 <= t < pre0.len() && #[trigger] pre0[t] == n;
                            assert(pre1[t] == n);
                        }
                        if n == name@ {
                            assert(texts(available@).take(m + 1)[m as int] == n);
                        }
                    }
                }
                m = m + 1;
            }
            proof {
                assert(texts(available@).take(available@.len() as int) =~= texts(available@));
            }
        } else {
            insert_text_sorted(&mut out, pattern.clone());
        }
        proof {
            assert forall|n: Seq<char>| #[trigger] texts(out@).contains(n) <==> exists|j: int| 0 <= j < k + 1
                && pattern_names(texts(available@), #[trigger] patterns@[j]@, n) by {
                if exists|j: int| 0 <= j < k + 1 && pattern_names(texts(available@), #[trigger] patterns@[j]@, n) {
                    let j = choose|j: int| 0 <= j < k + 1 && pattern_names(texts(available@), #[trigger] patterns@[j]@, n);
                    if j < k {
                        assert(before.contains(n));
                    }
                }
                if before.contains(n) {
                    let j = choose|j: int| 0 <= j < k && pattern_names(texts(available@), #[trigger] patterns@[j]@, n);
                    assert(exists|j: int| 0 <= j < k + 1 && pattern_names(texts(available@), #[trigger] patterns@[j]@, n));
                }
                if texts(out@).contains(n) && !before.contains(n) {
                    assert(pattern_names(texts(available@), patterns@[kk]@, n));
                }
            }
        }
        k = k + 1;
    }
    out
}

/// `t` with each `*` replaced by `orig`.
pub open spec fn star_replaced(t: Seq<char>, orig: Seq<char>) -> Seq<char>
    decreases t.len(),
{
    if t.len() == 0 {
        Seq::empty()
    } else {
        let rest = star_replaced(t.drop_last(), orig);
        if t.last() == '*' { rest + orig } else { rest.push(t.last()) }
    }
}

/// The name a promoted attribute gets: without renaming, or with an empty new
/// name, the original name; a new name with `*` has each `*` replaced by the
/// original name; with several attributes, the new name, `_` and the original
/// name; else the new name (trimmed throughout).
pub open spec fn output_name(original: Seq<char>, new_name: Seq<char>, rename: bool, total: nat) -> Seq<char> {
    let t = trimmed(new_name);
    if !rename || t.len() == 0 {
        original
    } else if t.contains('*') {
        star_replaced(t, original)
    } else if total > 1 {
        t.push('_') + original
    } else {
        t
    }
}

fn append_chars(out: &mut Vec<char>, more: &[char])
    ensures
        final(out)@ == old(out)@ + more@,
{
    let ghost start = out@;
    let mut k: usize = 0;
    while k < more.len()
        invariant
            0 <= k <= more@.len(),
            out@ == start + more@.take(k as int),
        decreases more@.len() - k,
    {
        out.push(more[k]);
        k = k + 1;
        assert(out@ =~= start + more@.take(k as int));
    }
    assert(more@.take(more@.len() as int) =~= more@);
}

/// The name a promoted attribute gets.
pub fn resolve_output_name(original: &str, new_name: &str, rename: bool, total: usize) -> (r: String)
    ensures
        r@ == output_name(original@, new_name@, rename, total as nat),
{
    if !rename {
        return owned(original);
    }
    let raw = chars_of(new_name);
    let t = trim_chars(raw.as_slice());
    if t.len() == 0 {
        return owned(original);
    }
    let orig = chars_of(original);
    if chars_contain(t.as_slice(), '*') {
        let mut out: Vec<char> = Vec::new();
        let mut k: usize = 0;
        while k < t.len()
            invariant
                0 <= k <= t@.len(),
                out@ == star_replaced(t@.take(k as int), orig@),
            decreases t@.len() - k,
        {
            assert(t@.take(k + 1).drop_last() =~= t@.take(k as int));
            if t[k] == '*' {
                append_chars(&mut out, orig.as_slice());
            } else {
                out.push(t[k]);
            }
            k = k + 1;
        }
        assert(t@.take(t@.len() as int) =~= t@);
        return string_from_chars(out.as_slice());
    }
    if total > 1 {
        let mut out: Vec<char> = Vec::new();
        append_chars(&mut out, t.as_slice());
        out.push('_');
        append_chars(&mut out, orig.as_slice());
        assert(out@ =~= t@.push('_') + orig@);
        return string_from_chars(out.as_slice());
    }
    string_from_chars(t.as_slice())
}

/// The names among attribute descriptions `infos` that belong to `domain`, in order.
pub open spec fn names_in_domain(infos: Seq<(Seq<char>, AttributeDomain, AttributeType, usize, bool)>, domain: AttributeDomain) -> Seq<Seq<char>>
    decreases infos.len(),
{
    if infos.len() == 0 {
        Seq::empty()
    } else if infos.last().1 == domain {
        names_in_domain(infos.drop_last(), domain).push(infos.last().0)
    } else {
        names_in_domain(infos.drop_last(), domain)
    }
}

/// Whether the whitespace-separated patterns of `expr` name `n` among the
/// attributes of `domain` that the mesh lists.
pub open spec fn names_attribute(m: Mesh, domain: AttributeDomain, expr: Seq<char>, n: Seq<char>) -> bool {
    let pats = space_words(expr);
    exists|k: int| 0 <= k < pats.len() && #[trigger] pattern_names(names_in_domain(m.infos(), domain), pats[k], n)
}

/// The names of the listed attributes of `domain` (the intrinsic ones included).
fn listed_names(mesh: &Mesh, domain: AttributeDomain) -> (r: Vec<String>)
    ensures
        texts(r@) == names_in_domain(mesh.infos(), domain),
{
    let list = mesh.list_attributes();
    let ghost infos = mesh.infos();
    let mut out: Vec<String> = Vec::new();
    let mut i: usize = 0;
    while i < list.len()
        invariant
            list@.map_values(|x: AttributeInfo| info_view(x)) == infos,
            0 <= i <= list@.len(),
            texts(out@) == names_in_domain(infos.take(i as int), domain),
        decreases list@.len() - i,
    {
        proof {
            assert(infos.take(i + 1).drop_last() =~= infos.take(i as int));
            assert(infos[i as int] == info_view(list@[i as int]));
        }
        if list[i].domain == domain {
            let ghost before = out@;
            out.push(list[i].name.clone());
            proof {
                assert(texts(out@) =~= texts(before).push(list@[i as int].name@));
            }
        }
        i = i + 1;
    }
    assert(infos.take(list@.len() as int) =~= infos);
    out
}

/// The attribute names that the patterns of `expr` select among the listed
/// attributes of `domain`, each once, in increasing order.
pub fn collect_attribute_names_mesh(mesh: &Mesh, domain: AttributeDomain, expr: &str) -> (r: Vec<String>)
    ensures
        texts_increasing(texts(r@)),
        forall|n: Seq<char>| #[trigger] texts(r@).contains(n) <==> names_attribute(*mesh, domain, expr@, n),
{
    let patterns = parse_attribute_list(expr);
    if patterns.len() == 0 {
        let r: Vec<String> = Vec::new();
        proof {
            assert(texts(r@) =~= Seq::<Seq<char>>::empty());
            assert forall|n: Seq<char>| !names_attribute(*mesh, domain, expr@, n) by {
                assert(space_words(expr@) == patterns@.map_values(|p: String| p@));
            }
        }
        return r;
    }
    let available = listed_names(mesh, domain);
    let r = resolve_attribute_patterns(available.as_slice(), patterns.as_slice());
    proof {
        let pats = space_words(expr@);
        assert(pats == patterns@.map_values(|p: String| p@));
        assert forall|n: Seq<char>| #[trigger] texts(r@).contains(n) <==> names_attribute(*mesh, domain, expr@, n) by {
            if texts(r@).contains(n) {
                let k = choose|k: int| 0 <= k < patterns@.len() && pattern_names(texts(available@), #[trigger] patterns@[k]@, n);
                assert(pats[k] == patterns@[k]@);
            }
            if names_attribute(*mesh, domain, expr@, n) {
                let k = choose|k: int| 0 <= k < pats.len() && #[trigger] pattern_names(names_in_domain(mesh.infos(), domain), pats[k], n);
                assert(pats[k] == patterns@[k]@);
            }
        }
    }
    r
}

/// The message given when the source and target domains are the same.
pub const SAME_DOMAINS: &'static str = "Attribute Promote requires different source/target classes";

/// The message given when the patterns name no attribute.
pub const NEEDS_NAME: &'static str = "Attribute Promote requires an attribute name";

/// What Attribute Promote does to a mesh: the domains, the method, the attributes
/// to promote with the names to store them under, the source elements of each
/// target element, and whether the originals are removed.
pub struct PromotePlan {
    pub source: AttributeDomain,
    pub target: AttributeDomain,
    pub method: PromotionMethod,
    pub names: Vec<String>,
    pub out_names: Vec<String>,
    pub mapping: Vec<Vec<usize>>,
    pub delete_original: bool,
}

/// The plan of Attribute Promote for a mesh: an error when the two domains are the
/// same or the `attr` patterns name no attribute of the source domain; nothing to
/// do when either domain is empty or no target element has sources; otherwise the
/// attributes to promote (increasing names), each with its output name (see
/// `output_name`, counted over the target elements), and the source elements of
/// each target element.
pub fn promote_plan(params: &NodeParams, mesh: &Mesh) -> (r: Result<Option<PromotePlan>, String>)
    requires
        params.values.wf(),
        mesh.wf(),
    ensures
        ({
            let s = domain_of_index(params.int_or("source_domain"@, 0));
            let t = domain_of_index(params.int_or("target_domain"@, 2));
            let expr = params.text_or("attr"@, ""@);
            let mapping = mesh_mapping_in(mesh.positions@.len(), mesh.indices@, mesh.faces(), s, t);
            if s == t {
                r matches Err(msg) && msg@ == SAME_DOMAINS@
            } else if !exists|n: Seq<char>| names_attribute(*mesh, s, expr, n) {
                r matches Err(msg) && msg@ == NEEDS_NAME@
            } else if mesh.domain_len(s) == 0 || mesh.domain_len(t) == 0 || mapping.len() == 0 {
                r matches Ok(None)
            } else {
                r matches Ok(Some(p)) && {
                    &&& p.source == s
                    &&& p.target == t
                    &&& p.method == method_of(params.int_or("promotion"@, 2))
                    &&& p.delete_original == params.bool_or("delete_original"@, false)
                    &&& p.mapping@.map_values(|l: Vec<usize>| l@) == mapping
                    &&& texts_increasing(texts(p.names@))
                    &&& forall|n: Seq<char>| #[trigger] texts(p.names@).contains(n) <==> names_attribute(*mesh, s, expr, n)
                    &&& p.out_names@.len() == p.names@.len()
                    &&& forall|k: int| 0 <= k < p.names@.len() ==> (#[trigger] p.out_names@[k])@ == output_name(p.names@[k]@,
                        params.text_or("new_name"@, ""@), params.bool_or("rename"@, false), mapping.len())
                }
            }
        }),
{
    let expr = params.get_string("attr", "");
    let source = source_domain_from_params(params);
    let target = target_domain_from_params(params);
    if source == target {
        return Err(owned(SAME_DOMAINS));
    }
    let method = PromotionMethod::from_params(params);
    let delete_original = params.get_bool("delete_original", false);
    let rename = params.get_bool("rename", false);
    let new_name = params.get_string("new_name", "");
    let names = collect_attribute_names_mesh(mesh, source, expr);
    if names.len() == 0 {
        proof {
            assert forall|n: Seq<char>| !names_attribute(*mesh, source, expr@, n) by {
                if names_attribute(*mesh, source, expr@, n) {
                    assert(texts(names@).contains(n));
                }
            }
        }
        return Err(owned(NEEDS_NAME));
    }
    proof {
        let n0 = names@[0]@;
        assert(texts(names@)[0] == n0);
        assert(texts(names@).contains(n0));
    }
    let source_len = mesh.attribute_domain_len(source);
    let target_len = mesh.attribute_domain_len(target);
    if source_len == 0 || target_len == 0 {
        return Ok(None);
    }
    let topo = MeshTopology { point_count: mesh.positions.len(), indices: copy_values(mesh.indices.as_slice()), face_counts: Vec::new() };
    let corner_count: usize = topo.indices.len();
    proof {
        assert(corner_count == topo.indices@.len());
        lemma_unsized_corners_fit(topo);
        assert(topo.faces() == mesh.faces());
    }
    let mapping = build_mapping(&topo, source, target);
    if mapping.len() == 0 {
        return Ok(None);
    }
    let mut out_names: Vec<String> = Vec::new();
    let mut k: usize = 0;
    while k < names.len()
        invariant
            0 <= k <= names@.len(),
            out_names@.len() == k,
            forall|j: int| 0 <= j < k ==> (#[trigger] out_names@[j])@ == output_name(names@[j]@, new_name@, rename, mapping@.len() as nat),
        decreases names@.len() - k,
    {
        out_names.push(resolve_output_name(names[k].as_str(), new_name, rename, mapping.len()));
        k = k + 1;
    }
    Ok(Some(PromotePlan { source, target, method, names, out_names, mapping, delete_original }))
}

/// Stores the promoted values of attribute `k` of the plan under its output name in
/// the target domain and, when the plan says so and that succeeded, removes the
/// original from the source domain; a value that cannot be stored leaves the mesh
/// as it is and gives the error.
pub fn promote_step(mesh: &mut Mesh, plan: &PromotePlan, k: usize, storage: AttributeStorage) -> (r: Result<(), AttributeError>)
    requires
        old(mesh).wf(),
        k < plan.names@.len(),
        k < plan.out_names@.len(),
    ensures
        final(mesh).wf(),
        match r {
            Err(e) => set_outcome(*old(mesh), plan.target, plan.out_names@[k as int]@, storage, Err(e), *final(mesh)),
            Ok(()) => exists|mid: Mesh| #[trigger] set_outcome(*old(mesh), plan.target, plan.out_names@[k as int]@, storage, Ok(()), mid)
                && if plan.delete_original {
                    exists|gone: Option<AttributeStorage>| #[trigger] remove_outcome(mid, plan.source, plan.names@[k as int]@, gone, *final(mesh))
                } else {
                    *final(mesh) == mid
                },
        },
{
    let ghost before = *mesh;
    let ghost stored = storage;
    let r = mesh.set_attribute(plan.target, plan.out_names[k].clone(), storage);
    match r {
        Ok(()) => {
            let ghost mid = *mesh;
            if plan.delete_original {
                let gone = mesh.remove_attribute(plan.source, plan.names[k].as_str());
                assert(remove_outcome(mid, plan.source, plan.names@[k as int]@, gone, *mesh));
            }
            assert(set_outcome(before, plan.target, plan.out_names@[k as int]@, stored, Ok(()), mid));
            Ok(())
        },
        Err(e) => Err(e),
    }
}

/// The parameters a new "Attribute Promote" node starts with (floats held as their bit patterns): attr "Cd", source_domain 0, target_domain 2, promotion 2, rename false, new_name "", delete_original false.
pub fn default_params() -> (params: NodeParams)
    ensures
        params.values.wf(),
        params.values@.dom() == set!["attr"@, "source_domain"@, "target_domain"@, "promotion"@, "rename"@, "new_name"@, "delete_original"@],
        text_entry(params.values@, "attr"@, "Cd"@),
        params.values@["source_domain"@] == ParamValue::Int(0),
        params.values@["target_domain"@] == ParamValue::Int(2),
        params.values@["promotion"@] == ParamValue::Int(2),
        params.values@["rename"@] == ParamValue::Bool(false),
        text_entry(params.values@, "new_name"@, ""@),
        params.values@["delete_original"@] == ParamValue::Bool(false),
{
    proof {
        reveal_strlit("attr");
        reveal_strlit("source_domain");
        reveal_strlit("target_domain");
        reveal_strlit("promotion");
        reveal_strlit("rename");
        reveal_strlit("new_name");
        reveal_strlit("delete_original");
        assert("attr"@.len() == 4 && "attr"@[0] == 'a');
        assert("source_domain"@.len() == 13 && "source_domain"@[0] == 's');
        assert("target_domain"@.len() == 13 && "target_domain"@[0] == 't');
        assert("promotion"@.len() == 9 && "promotion"@[0] == 'p');
        assert("rename"@.len() == 6 && "rename"@[0] == 'r');
        assert("new_name"@.len() == 8 && "new_name"@[0] == 'n');
        assert("delete_original"@.len() == 15 && "delete_original"@[0] == 'd');
    }
    let mut values: TextMap<ParamValue> = TextMap::new();
    values.insert(owned("attr"), text_param("Cd"));
    values.insert(owned("source_domain"), ParamValue::Int(0));
    values.insert(owned("target_domain"), ParamValue::Int(2));
    values.insert(owned("promotion"), ParamValue::Int(2));
    values.insert(owned("rename"), ParamValue::Bool(false));
    values.insert(owned("new_name"), text_param(""));
    values.insert(owned("delete_original"), ParamValue::Bool(false));
    NodeParams { values }
}

} // verus!
