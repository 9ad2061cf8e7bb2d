//! The connectivity of a polygon mesh: how many points it has, which point
//! each corner (vertex) refers to, and how many corners each polygon has.

use vstd::prelude::*;
use crate::attributes::AttributeDomain;

verus! {

/// The connectivity of a mesh. Polygon `p` owns the corners that follow those of
/// the polygons before it; where no polygon sizes are given, the corners make
/// triangles (or, when their number is not a multiple of three, one polygon).
#[derive(Debug, Clone)]
pub struct MeshTopology {
    pub point_count: usize,
    pub indices: Vec<u32>,
    pub face_counts: Vec<u32>,
}

/// The polygon sizes of a mesh with `corners` corners and the given sizes.
pub open spec fn resolved_counts(corners: nat, face_counts: Seq<u32>) -> Seq<u32> {
    if face_counts.len() > 0 {
        face_counts
    } else if corners % 3 == 0 {
        Seq::new(corners / 3, |_i: int| 3u32)
    } else {
        seq![corners as u32]
    }
}

/// The number of corners owned by the first `k` polygons.
pub open spec fn corner_start(counts: Seq<u32>, k: int) -> int
    decreases k,
{
    if k <= 0 || counts.len() == 0 {
        0
    } else {
        corner_start(counts, k - 1) + counts[k - 1] as int
    }
}

/// Whether `mask` has a `true` at `i` (a missing entry counts as `false`).
pub open spec fn mask_at(mask: Seq<bool>, i: int) -> bool {
    0 <= i < mask.len() && mask[i]
}

/// The first corners of polygons grow with the polygon number.
pub proof fn lemma_corner_start_mono(counts: Seq<u32>, j: int, k: int)
    requires
        0 <= j <= k,
    ensures
        corner_start(counts, j) <= corner_start(counts, k),
    decreases k - j,
{
    if j < k {
        lemma_corner_start_mono(counts, j, k - 1);
    }
}

/// The first `k` of `m` triangles own three corners each.
proof fn lemma_triangle_starts(m: nat, k: int)
    requires
        0 <= k <= m,
    ensures
        corner_start(Seq::new(m, |_i: int| 3u32), k) == 3 * k,
    decreases k,
{
    if k > 0 {
        lemma_triangle_starts(m, k - 1);
    }
}

/// Without polygon sizes, the corners of all polygons can be counted in a `usize`.
pub proof fn lemma_unsized_corners_fit(t: MeshTopology)
    requires
        t.face_counts@.len() == 0,
        t.indices@.len() <= usize::MAX,
    ensures
        t.corners_fit(),
{
    let n = t.indices@.len();
    if n % 3 == 0 {
        lemma_triangle_starts(n / 3, (n / 3) as int);
    } else {
        let f = seq![n as u32];
        assert(corner_start(f, 1) == corner_start(f, 0) + f[0] as int);
    }
}

impl MeshTopology {
    /// The polygon sizes of the mesh.
    pub open spec fn faces(&self) -> Seq<u32> {
        resolved_counts(self.indices@.len(), self.face_counts@)
    }

    /// Whether the corners of all polygons together can be counted in a `usize`.
    pub open spec fn corners_fit(&self) -> bool {
        corner_start(self.faces(), self.faces().len() as int) <= usize::MAX
    }

    /// The number of elements in `domain`: points, corners, triangles, or the one
    /// detail element.
    pub open spec fn domain_len(&self, domain: AttributeDomain) -> nat {
        match domain {
            AttributeDomain::Point => self.point_count as nat,
            AttributeDomain::Vertex => self.indices@.len(),
            AttributeDomain::Primitive => self.indices@.len() / 3,
            AttributeDomain::Detail => 1,
        }
    }

    /// The number of elements in `domain`.
    pub fn attribute_domain_len(&self, domain: AttributeDomain) -> (n: usize)
        ensures
            n == self.domain_len(domain),
    {
        match domain {
            AttributeDomain::Point => self.point_count,
            AttributeDomain::Vertex => self.indices.len(),
            AttributeDomain::Primitive => self.indices.len() / 3,
            AttributeDomain::Detail => 1,
        }
    }

    /// The polygon sizes of the mesh: the given ones, or else triangles, or else
    /// one polygon over all corners.
    pub fn resolved_face_counts(&self) -> (counts: Vec<u32>)
        ensures
            counts@ == self.faces(),
    {
        if self.face_counts.len() > 0 {
            return self.face_counts.clone();
        }
        let n = self.indices.len();
        if n % 3 == 0 {
            let mut out: Vec<u32> = Vec::new();
            let mut k: usize = 0;
            while k < n / 3
                invariant
                    0 <= k <= n / 3,
                    out@ == Seq::new(k as nat, |_i: int| 3u32),
                decreases n / 3 - k,
            {
                out.push(3);
                k = k + 1;
                assert(out@ =~= Seq::new(k as nat, |_i: int| 3u32));
            }
            out
        } else {
            #[verifier::truncate]
            let c = n as u32;
            vec![c]
        }
    }
}

} // verus!
