//! Growing and shrinking selections over the neighbourhoods of mesh elements.

use vstd::prelude::*;
use crate::attributes::AttributeDomain;
use crate::topology::{MeshTopology, corner_start, mask_at, lemma_corner_start_mono};

verus! {

/// Whether a selection grows into neighbours or shrinks away from them.
#[derive(Debug, Clone, Copy, PartialEq, Eq, Structural)]
pub enum ExpandMode {
    Expand,
    Contract,
}

/// The lists of neighbours, as sequences.
pub open spec fn neighbor_seqs(neighbors: Seq<Vec<usize>>) -> Seq<Seq<usize>> {
    neighbors.map_values(|l: Vec<usize>| l@)
}

/// The new selection bit of element `i` after one step: expanding selects an
/// element that has a selected neighbour; contracting keeps a selected element
/// only when it has neighbours and all of them are selected.
pub open spec fn step_bit(cur: Seq<bool>, list: Seq<usize>, mode: ExpandMode, i: int) -> bool {
    match mode {
        ExpandMode::Expand => cur[i] || exists|k: int| 0 <= k < list.len() && mask_at(cur, #[trigger] list[k] as int),
        ExpandMode::Contract => cur[i] && list.len() > 0 && forall|k: int| 0 <= k < list.len() ==> mask_at(cur, #[trigger] list[k] as int),
    }
}

/// One step over the first `len` elements; the others stay as they are.
pub open spec fn expand_step(cur: Seq<bool>, nb: Seq<Seq<usize>>, len: int, mode: ExpandMode) -> Seq<bool> {
    Seq::new(cur.len(), |i: int| if i < len { step_bit(cur, nb[i], mode, i) } else { cur[i] })
}

/// The selection after `k` steps.
pub open spec fn expand_iter(mask: Seq<bool>, nb: Seq<Seq<usize>>, len: int, mode: ExpandMode, k: nat) -> Seq<bool>
    decreases k,
{
    if k == 0 {
        mask
    } else {
        expand_step(expand_iter(mask, nb, len, mode, (k - 1) as nat), nb, len, mode)
    }
}

fn step_once(cur: &Vec<bool>, neighbors: &[Vec<usize>], len: usize, mode: ExpandMode) -> (next: Vec<bool>)
    requires
        len <= cur@.len(),
        len <= neighbors@.len(),
    ensures
        next@ == expand_step(cur@, neighbor_seqs(neighbors@), len as int, mode),
{
    let ghost nb = neighbor_seqs(neighbors@);
    let mut next: Vec<bool> = Vec::new();
    let mut i: usize = 0;
    while i < cur.len()
        invariant
            0 <= i <= cur@.len(),
            len <= cur@.len(),
            len <= neighbors@.len(),
            nb == neighbor_seqs(neighbors@),
            next@.len() == i,
            forall|j: int| 0 <= j < i ==> next@[j] == (if j < len { step_bit(cur@, nb[j], mode, j) } else { cur@[j] }),
        decreases cur@.len() - i,
    {
        let mut bit = cur[i];
        if i < len {
            let list = &neighbors[i];
            assert(list@ == nb[i as int]);
            match mode {
                ExpandMode::Expand => {
                    if !bit {
                        let mut k: usize = 0;
                        while k < list.len() && !bit
                            invariant
                                0 <= k <= list@.len(),
                                bit ==> k > 0 && mask_at(cur@, list@[k - 1] as int),
                                !bit ==> forall|m: int| 0 <= m < k ==> !mask_at(cur@, #[trigger] list@[m] as int),
                            decreases list@.len() - k,
                        {
                            let n = list[k];
                            bit = n < cur.len() && cur[n];
                            k = k + 1;
                        }
                        if bit {
                            assert(mask_at(cur@, list@[k - 1] as int));
                        }
                    }
                },
                ExpandMode::Contract => {
                    if bit {
                        if list.len() == 0 {
                            bit = false;
                        } else {
                            let mut k: usize = 0;
                            while k < list.len() && bit
                                invariant
                                    0 <= k <= list@.len(),
                                    !bit ==> k > 0 && !mask_at(cur@, list@[k - 1] as int),
                                    bit ==> forall|m: int| 0 <= m < k ==> mask_at(cur@, #[trigger] list@[m] as int),
                                decreases list@.len() - k,
                            {
                                let n = list[k];
                                bit = n < cur.len() && cur[n];
                                k = k + 1;
                            }
                            if !bit {
                                assert(!mask_at(cur@, list@[k - 1] as int));
                            }
                        }
                    }
                },
            }
        }
        next.push(bit);
        i = i + 1;
    }
    assert(next@ =~= expand_step(cur@, nb, len as int, mode));
    next
}

/// Grows (or shrinks) a selection `iterations` times over the neighbour lists;
/// elements beyond the shorter of the mask and the lists stay as they are.
pub fn expand_mask(mask: &[bool], neighbors: &[Vec<usize>], iterations: usize, mode: ExpandMode) -> (out: Vec<bool>)
    ensures
        out@ == expand_iter(
            mask@,
            neighbor_seqs(neighbors@),
            if mask@.len() < neighbors@.len() { mask@.len() as int } else { neighbors@.len() as int },
            mode,
            iterations as nat,
        ),
{
    let len = if mask.len() < neighbors.len() { mask.len() } else { neighbors.len() };
    let mut current: Vec<bool> = Vec::new();
    let mut k: usize = 0;
    while k < mask.len()
        invariant
            0 <= k <= mask@.len(),
            current@ == mask@.take(k as int),
        decreases mask@.len() - k,
    {
        current.push(mask[k]);
        k = k + 1;
        assert(current@ =~= mask@.take(k as int));
    }
    assert(mask@.take(mask@.len() as int) =~= mask@);
    if iterations == 0 || mask.len() == 0 || len == 0 {
        proof {
            lemma_expand_iter_fixed(mask@, neighbor_seqs(neighbors@), len as int, mode, iterations as nat);
        }
        return current;
    }
    let mut it: usize = 0;
    while it < iterations
        invariant
            0 <= it <= iterations,
            len <= mask@.len(),
            len <= neighbors@.len(),
            current@ == expand_iter(mask@, neighbor_seqs(neighbors@), len as int, mode, it as nat),
        decreases iterations - it,
    {
        proof {
            lemma_expand_iter_len(mask@, neighbor_seqs(neighbors@), len as int, mode, it as nat);
        }
        current = step_once(&current, neighbors, len, mode);
        it = it + 1;
    }
    current
}

/// Steps keep the length of the selection.
proof fn lemma_expand_iter_len(mask: Seq<bool>, nb: Seq<Seq<usize>>, len: int, mode: ExpandMode, k: nat)
    ensures
        expand_iter(mask, nb, len, mode, k).len() == mask.len(),
    decreases k,
{
    if k > 0 {
        lemma_expand_iter_len(mask, nb, len, mode, (k - 1) as nat);
    }
}

/// With nothing to step over, or no step, the selection stays as it is.
proof fn lemma_expand_iter_fixed(mask: Seq<bool>, nb: Seq<Seq<usize>>, len: int, mode: ExpandMode, k: nat)
    requires
        k == 0 || mask.len() == 0 || len <= 0,
    ensures
        expand_iter(mask, nb, len, mode, k) == mask,
    decreases k,
{
    if k > 0 {
        lemma_expand_iter_fixed(mask, nb, len, mode, (k - 1) as nat);
        lemma_expand_iter_len(mask, nb, len, mode, (k - 1) as nat);
        assert(expand_step(mask, nb, len, mode) =~= mask);
    }
}

/// Whether the entries of `s` strictly increase.
pub open spec fn strictly_increasing(s: Seq<usize>) -> bool {
    forall|i: int, j: int| 0 <= i < j < s.len() ==> s[i] < s[j]
}

/// Two strictly increasing lists with the same members are the same list.
proof fn lemma_sorted_same_members(s: Seq<usize>, t: Seq<usize>)
    requires
        strictly_increasing(s),
        strictly_increasing(t),
        forall|x: usize| s.contains(x) <==> t.contains(x),
    ensures
        s == t,
    decreases s.len(),
{
    if s.len() == 0 {
        if t.len() > 0 {
            assert(t.contains(t[0]));
        }
        assert(s =~= t);
    } else if t.len() == 0 {
        assert(s.contains(s[0]));
    } else {
        assert(s.contains(s[0]));
        assert(t.contains(t[0]));
        let j = choose|j: int| 0 <= j < t.len() && t[j] == s[0];
        let i = choose|i: int| 0 <= i < s.len() && s[i] == t[0];
        assert(s[0] == t[0]) by {
            if j > 0 {
                assert(t[0] < t[j]);
            }
            if i > 0 {
                assert(s[0] < s[i]);
            }
        }
        let s1 = s.drop_first();
        let t1 = t.drop_first();
        assert forall|x: usize| s1.contains(x) <==> t1.contains(x) by {
            if s1.contains(x) {
                let k = choose|k: int| 0 <= k < s1.len() && s1[k] == x;
                assert(s[k + 1] == x);
                assert(s[0] < s[k + 1]);
                assert(t.contains(x));
                let m = choose|m: int| 0 <= m < t.len() && t[m] == x;
                assert(m != 0);
                assert(t1[m - 1] == x);
            }
            if t1.contains(x) {
                let k = choose|k: int| 0 <= k < t1.len() && t1[k] == x;
                assert(t[k + 1] == x);
                assert(t[0] < t[k + 1]);
                assert(s.contains(x));
                let m = choose|m: int| 0 <= m < s.len() && s[m] == x;
                assert(m != 0);
                assert(s1[m - 1] == x);
            }
        }
        lemma_sorted_same_members(s1, t1);
        assert forall|k: int| 0 <= k < s.len() implies s[k] == t[k] by {
            if k > 0 {
                assert(s[k] == s1[k - 1]);
                assert(t[k] == t1[k - 1]);
            }
        }
        assert(s =~= t);
    }
}

/// Neighbour lists are determined by the relation they list.
pub proof fn lemma_neighbor_lists_unique(a: Seq<Vec<usize>>, b: Seq<Vec<usize>>, n: int, adj: spec_fn(int, int) -> bool)
    requires
        neighbor_lists(a, n, adj),
        neighbor_lists(b, n, adj),
    ensures
        a.len() == b.len(),
        neighbor_seqs(a) == neighbor_seqs(b),
{
    assert forall|k: int| 0 <= k < a.len() implies a[k]@ == b[k]@ by {
        assert(strictly_increasing(a[k]@));
        assert(strictly_increasing(b[k]@));
        assert forall|x: usize| a[k]@.contains(x) <==> b[k]@.contains(x) by {
            assert(a[k]@.contains(x) <==> adj(k, x as int));
            assert(b[k]@.contains(x) <==> adj(k, x as int));
        }
        lemma_sorted_same_members(a[k]@, b[k]@);
    }
    assert(neighbor_seqs(a) =~= neighbor_seqs(b));
}

/// Adds `x` to a strictly increasing list, which stays strictly increasing.
fn insert_sorted(list: &mut Vec<usize>, x: usize)
    requires
        strictly_increasing(old(list)@),
    ensures
        strictly_increasing(final(list)@),
        forall|y: usize| #[trigger] final(list)@.contains(y) <==> (old(list)@.contains(y) || y == x),
{
    let ghost before = list@;
    let mut result: Vec<usize> = Vec::new();
    let mut k: usize = 0;
    while k < list.len() && list[k] < x
        invariant
            list@ == before,
            strictly_increasing(before),
            0 <= k <= before.len(),
            result@ == before.take(k as int),
            forall|m: int| 0 <= m < k ==> before[m] < x,
        decreases before.len() - k,
    {
        result.push(list[k]);
        k = k + 1;
        assert(result@ =~= before.take(k as int));
    }
    let start = if k < list.len() && list[k] == x { k + 1 } else { k };
    result.push(x);
    let mut m: usize = start;
    while m < list.len()
        invariant
            list@ == before,
            strictly_increasing(before),
            0 <= k <= start <= m <= before.len(),
            start == k || (start == k + 1 && before[k as int] == x),
            k < before.len() && start == k ==> before[k as int] > x,
            forall|t: int| 0 <= t < k ==> before[t] < x,
            result@ == before.take(k as int).push(x) + before.subrange(start as int, m as int),
        decreases before.len() - m,
    {
        result.push(list[m]);
        m = m + 1;
        assert(result@ =~= before.take(k as int).push(x) + before.subrange(start as int, m as int));
    }
    proof {
        let r = result@;
        assert(r =~= before.take(k as int).push(x) + before.subrange(start as int, before.len() as int));
        assert forall|a: int, b: int| 0 <= a < b < r.len() implies r[a] < r[b] by {
            if b <= k as int {
            } else if a < k as int {
                if b > k as int {
                    assert(r[b] == before[start + b - k - 1]);
                    if start == k {
                        assert(before[k as int] > x);
                    } else {
                        assert(before[k as int] == x);
                    }
                }
            } else if a == k as int {
                assert(r[b] == before[start + b - k - 1]);
                if start == k {
                    assert(before[k as int] > x);
                } else {
                    assert(before[k as int] == x);
                }
            } else {
                assert(r[a] == before[start + a - k - 1]);
                assert(r[b] == before[start + b - k - 1]);
            }
        }
        assert forall|y: usize| #[trigger] r.contains(y) <==> (before.contains(y) || y == x) by {
            if r.contains(y) {
                let t = choose|t: int| 0 <= t < r.len() && r[t] == y;
                if t < k {
                    assert(before[t] == y);
                } else if t > k {
                    assert(before[start + t - k - 1] == y);
                }
            }
            if before.contains(y) {
                let t = choose|t: int| 0 <= t < before.len() && before[t] == y;
                if t < k {
                    assert(r[t] == y);
                } else if t >= start {
                    assert(r[k + 1 + t - start] == y);
                } else {
                    assert(r[k as int] == y);
                }
            }
            if y == x {
                assert(r[k as int] == y);
            }
        }
    }
    *list = result;
}

/// Whether polygon `p` has at least two corners and all of them are within the
/// corner list.
pub open spec fn valid_face(idx_len: int, faces: Seq<u32>, p: int) -> bool {
    0 <= p < faces.len() && faces[p] >= 2 && corner_start(faces, p) + faces[p] <= idx_len
}

/// The corner after corner `i` of polygon `p`, going round the polygon.
pub open spec fn next_corner(faces: Seq<u32>, p: int, i: int) -> int {
    corner_start(faces, p) + (i + 1) % (faces[p] as int)
}

/// The element a corner stands for: its point, or the corner itself.
pub open spec fn endpoint(idx: Seq<u32>, c: int, by_point: bool) -> int {
    if by_point { idx[c] as int } else { c }
}

/// The edge from corner `i` of a valid polygon `p` to the next corner joins
/// element `a` to element `b`.
pub open spec fn face_edge(idx: Seq<u32>, faces: Seq<u32>, by_point: bool, p: int, i: int, a: int, b: int) -> bool {
    &&& valid_face(idx.len() as int, faces, p)
    &&& 0 <= i < faces[p]
    &&& endpoint(idx, corner_start(faces, p) + i, by_point) == a
    &&& endpoint(idx, next_corner(faces, p, i), by_point) == b
}

/// The edge from corner `i` of polygon `p` joins `a` and `b`, in one direction or the other.
pub open spec fn edge_either(idx: Seq<u32>, faces: Seq<u32>, by_point: bool, p: int, i: int, a: int, b: int) -> bool {
    face_edge(idx, faces, by_point, p, i, a, b) || face_edge(idx, faces, by_point, p, i, b, a)
}

/// Elements `a` and `b`, both below `n`, are joined by an edge of a valid polygon,
/// in one direction or the other.
pub open spec fn adjacent(idx: Seq<u32>, faces: Seq<u32>, by_point: bool, n: int, a: int, b: int) -> bool {
    &&& 0 <= a < n
    &&& 0 <= b < n
    &&& exists|p: int, i: int| #[trigger] edge_either(idx, faces, by_point, p, i, a, b)
}

/// As `adjacent`, over the edges before corner `i` of polygon `p`.
pub open spec fn adjacent_before(idx: Seq<u32>, faces: Seq<u32>, by_point: bool, n: int, a: int, b: int, p: int, i: int) -> bool {
    &&& 0 <= a < n
    &&& 0 <= b < n
    &&& exists|pp: int, ii: int| (pp < p || (pp == p && ii < i)) && #[trigger] edge_either(idx, faces, by_point, pp, ii, a, b)
}

/// The lists of neighbours over `n` elements, each strictly increasing and
/// holding exactly the elements that `adj` joins to its element.
pub open spec fn neighbor_lists(out: Seq<Vec<usize>>, n: int, adj: spec_fn(int, int) -> bool) -> bool {
    &&& out.len() == n
    &&& forall|a: int| 0 <= a < n ==> strictly_increasing(#[trigger] out[a]@)
    &&& forall|a: int, b: usize| 0 <= a < n ==> (#[trigger] out[a]@.contains(b) <==> adj(a, b as int))
}

/// The neighbours of each of `n` elements over the edges of the polygons: of the
/// points when `by_point` holds, of the corners otherwise.
fn edge_neighbors(idx: &[u32], faces: &[u32], n: usize, by_point: bool) -> (out: Vec<Vec<usize>>)
    requires
        corner_start(faces@, faces@.len() as int) <= usize::MAX,
    ensures
        neighbor_lists(out@, n as int, |a: int, b: int| adjacent(idx@, faces@, by_point, n as int, a, b)),
{
    let mut out: Vec<Vec<usize>> = Vec::new();
    let mut k: usize = 0;
    while k < n
        invariant
            0 <= k <= n,
            out@.len() == k,
            forall|a: int| 0 <= a < k ==> #[trigger] out@[a]@ == Seq::<usize>::empty(),
        decreases n - k,
    {
        out.push(Vec::new());
        k = k + 1;
    }
    let mut cursor: usize = 0;
    let mut p: usize = 0;
    while p < faces.len()
        invariant
            0 <= p <= faces@.len(),
            corner_start(faces@, faces@.len() as int) <= usize::MAX,
            cursor == corner_start(faces@, p as int),
            neighbor_lists(out@, n as int, |a: int, b: int| adjacent_before(idx@, faces@, by_point, n as int, a, b, p as int, 0)),
        decreases faces@.len() - p,
    {
        let count = faces[p] as usize;
        proof {
            lemma_corner_start_mono(faces@, p + 1, faces@.len() as int);
        }
        if count >= 2 && cursor + count <= idx.len() {
            let mut i: usize = 0;
            while i < count
                invariant
                    p < faces@.len(),
                    count == faces@[p as int],
                    count >= 2,
                    cursor == corner_start(faces@, p as int),
                    cursor + count <= idx@.len(),
                    cursor + count <= usize::MAX,
                    0 <= i <= count,
                    neighbor_lists(out@, n as int, |a: int, b: int| adjacent_before(idx@, faces@, by_point, n as int, a, b, p as int, i as int)),
                decreases count - i,
            {
                let ca = cursor + i;
                let cb = cursor + (i + 1) % count;
                let a: usize = if by_point { idx[ca] as usize } else { ca };
                let b: usize = if by_point { idx[cb] as usize } else { cb };
                let ghost old_out = out@;
                let ghost pi = p as int;
                let ghost ii = i as int;
                assert(face_edge(idx@, faces@, by_point, pi, ii, a as int, b as int));
                if a < n && b < n {
                    insert_sorted(&mut out[a], b);
                    let ghost mid = out@;
                    insert_sorted(&mut out[b], a);
                    proof {
                        assert forall|x: int| 0 <= x < n implies strictly_increasing(#[trigger] out@[x]@) by {
                            assert(old_out[x]@ == out@[x]@ || x == a || x == b);
                        }
                        assert forall|x: int, y: usize| 0 <= x < n implies (#[trigger] out@[x]@.contains(y) <==> adjacent_before(idx@, faces@, by_point, n as int, x, y as int, pi, ii + 1)) by {
                            let now = out@[x]@.contains(y);
                            let was = old_out[x]@.contains(y);
                            assert(now <==> (was || (x == a && y == b) || (x == b && y == a)));
                            let fresh = edge_either(idx@, faces@, by_point, pi, ii, x, y as int);
                            assert(fresh <==> ((x == a && y == b) || (x == b && y == a)));
                            if adjacent_before(idx@, faces@, by_point, n as int, x, y as int, pi, ii + 1) {
                                let (q, j) = choose|q: int, j: int| (q < pi || (q == pi && j < ii + 1)) && #[trigger] edge_either(idx@, faces@, by_point, q, j, x, y as int);
                                if !(q == pi && j == ii) {
                                    assert(adjacent_before(idx@, faces@, by_point, n as int, x, y as int, pi, ii));
                                }
                            }
                            if was {
                                assert(adjacent_before(idx@, faces@, by_point, n as int, x, y as int, pi, ii));
                                let (q, j) = choose|q: int, j: int| (q < pi || (q == pi && j < ii)) && #[trigger] edge_either(idx@, faces@, by_point, q, j, x, y as int);
                                assert(adjacent_before(idx@, faces@, by_point, n as int, x, y as int, pi, ii + 1));
                            }
                            if fresh {
                                assert(adjacent_before(idx@, faces@, by_point, n as int, x, y as int, pi, ii + 1));
                            }
                        }
                    }
                } else {
                    proof {
                        assert forall|x: int, y: usize| 0 <= x < n implies (#[trigger] out@[x]@.contains(y) <==> adjacent_before(idx@, faces@, by_point, n as int, x, y as int, pi, ii + 1)) by {
                            let was = old_out[x]@.contains(y);
                            if adjacent_before(idx@, faces@, by_point, n as int, x, y as int, pi, ii + 1) {
                                let (q, j) = choose|q: int, j: int| (q < pi || (q == pi && j < ii + 1)) && #[trigger] edge_either(idx@, faces@, by_point, q, j, x, y as int);
                                if !(q == pi && j == ii) {
                                    assert(adjacent_before(idx@, faces@, by_point, n as int, x, y as int, pi, ii));
                                }
                            }
                            if was {
                                let (q, j) = choose|q: int, j: int| (q < pi || (q == pi && j < ii)) && #[trigger] edge_either(idx@, faces@, by_point, q, j, x, y as int);
                                assert(adjacent_before(idx@, faces@, by_point, n as int, x, y as int, pi, ii + 1));
                            }
                        }
                    }
                }
                i = i + 1;
            }
        }
        proof {
            let pi = p as int;
            let cnt = count as int;
            let done_i: int = if count >= 2 && cursor + count <= idx@.len() { cnt } else { 0 };
            assert forall|x: int, y: usize| 0 <= x < n implies (#[trigger] out@[x]@.contains(y) <==> adjacent_before(idx@, faces@, by_point, n as int, x, y as int, pi + 1, 0)) by {
                if adjacent_before(idx@, faces@, by_point, n as int, x, y as int, pi + 1, 0) {
                    let (q, j) = choose|q: int, j: int| (q < pi + 1 || (q == pi + 1 && j < 0)) && #[trigger] edge_either(idx@, faces@, by_point, q, j, x, y as int);
                    assert(adjacent_before(idx@, faces@, by_point, n as int, x, y as int, pi, done_i));
                }
                if adjacent_before(idx@, faces@, by_point, n as int, x, y as int, pi, done_i) {
                    let (q, j) = choose|q: int, j: int| (q < pi || (q == pi && j < done_i)) && #[trigger] edge_either(idx@, faces@, by_point, q, j, x, y as int);
                    assert(adjacent_before(idx@, faces@, by_point, n as int, x, y as int, pi + 1, 0));
                }
            }
        }
        cursor = cursor + count;
        p = p + 1;
    }
    proof {
        let m = faces@.len() as int;
        assert forall|x: int, y: usize| 0 <= x < n implies (#[trigger] out@[x]@.contains(y) <==> adjacent(idx@, faces@, by_point, n as int, x, y as int)) by {
            if adjacent(idx@, faces@, by_point, n as int, x, y as int) {
                let (q, j) = choose|q: int, j: int| #[trigger] edge_either(idx@, faces@, by_point, q, j, x, y as int);
                assert(adjacent_before(idx@, faces@, by_point, n as int, x, y as int, m, 0));
            }
            if adjacent_before(idx@, faces@, by_point, n as int, x, y as int, m, 0) {
                let (q, j) = choose|q: int, j: int| (q < m || (q == m && j < 0)) && #[trigger] edge_either(idx@, faces@, by_point, q, j, x, y as int);
                assert(adjacent(idx@, faces@, by_point, n as int, x, y as int));
            }
        }
    }
    out
}

/// The neighbours of each point: the points joined to it by a polygon edge,
/// in increasing order.
fn point_neighbors(topo: &MeshTopology) -> (out: Vec<Vec<usize>>)
    requires
        topo.corners_fit(),
    ensures
        neighbor_lists(out@, topo.point_count as int, |a: int, b: int| adjacent(topo.indices@, topo.faces(), true, topo.point_count as int, a, b)),
{
    let faces = topo.resolved_face_counts();
    edge_neighbors(topo.indices.as_slice(), faces.as_slice(), topo.point_count, true)
}

/// The neighbours of each corner: the corners next to it around its polygon,
/// in increasing order.
fn vertex_neighbors(topo: &MeshTopology) -> (out: Vec<Vec<usize>>)
    requires
        topo.corners_fit(),
    ensures
        neighbor_lists(out@, topo.indices@.len() as int, |a: int, b: int| adjacent(topo.indices@, topo.faces(), false, topo.indices@.len() as int, a, b)),
{
    let faces = topo.resolved_face_counts();
    edge_neighbors(topo.indices.as_slice(), faces.as_slice(), topo.indices.len(), false)
}

/// Polygons `f` and `g` differ and share an edge between two different points.
pub open spec fn share_edge(idx: Seq<u32>, faces: Seq<u32>, f: int, g: int) -> bool {
    &&& f != g
    &&& exists|a: int, b: int, i: int, j: int| a != b && #[trigger] edge_either(idx, faces, true, f, i, a, b) && #[trigger] edge_either(idx, faces, true, g, j, a, b)
}

/// Entry `t` of an edge list is an edge of its polygon, lower point first.
pub open spec fn edge_entry_sound(idx: Seq<u32>, faces: Seq<u32>, e: (u32, u32, usize)) -> bool {
    e.0 < e.1 && exists|i: int| #[trigger] edge_either(idx, faces, true, e.2 as int, i, e.0 as int, e.1 as int)
}

/// The edge from corner `i` of polygon `f` is in the list, lower point first.
pub open spec fn edge_listed(edges: Seq<(u32, u32, usize)>, idx: Seq<u32>, faces: Seq<u32>, f: int, i: int) -> bool {
    let a = idx[corner_start(faces, f) + i];
    let b = idx[next_corner(faces, f, i)];
    exists|t: int| 0 <= t < edges.len() && #[trigger] edges[t] == (if a < b { (a, b, f as usize) } else { (b, a, f as usize) })
}

/// Polygons `f` and `g` differ and are the polygons of two entries of the list
/// with the same points.
pub open spec fn listed_pair(edges: Seq<(u32, u32, usize)>, t1: int, t2: int, f: int, g: int) -> bool {
    &&& 0 <= t1 < edges.len()
    &&& 0 <= t2 < edges.len()
    &&& edges[t1].0 == edges[t2].0
    &&& edges[t1].1 == edges[t2].1
    &&& edges[t1].2 == f
    &&& edges[t2].2 == g
    &&& f != g
}

/// The edges between different points of all valid polygons, each with its polygon.
fn collect_edges(idx: &[u32], faces: &[u32]) -> (edges: Vec<(u32, u32, usize)>)
    requires
        corner_start(faces@, faces@.len() as int) <= usize::MAX,
    ensures
        forall|t: int| 0 <= t < edges@.len() ==> edge_entry_sound(idx@, faces@, #[trigger] edges@[t]),
        forall|f: int, i: int| #[trigger] valid_face(idx@.len() as int, faces@, f) && 0 <= i < faces@[f]
            && idx@[corner_start(faces@, f) + i] != idx@[next_corner(faces@, f, i)] ==> #[trigger] edge_listed(edges@, idx@, faces@, f, i),
{
    let mut edges: Vec<(u32, u32, usize)> = Vec::new();
    let mut cursor: usize = 0;
    let mut p: usize = 0;
    while p < faces.len()
        invariant
            0 <= p <= faces@.len(),
            corner_start(faces@, faces@.len() as int) <= usize::MAX,
            cursor == corner_start(faces@, p as int),
            forall|t: int| 0 <= t < edges@.len() ==> edge_entry_sound(idx@, faces@, #[trigger] edges@[t]),
            forall|f: int, i: int| #[trigger] valid_face(idx@.len() as int, faces@, f) && f < p && 0 <= i < faces@[f]
                && idx@[corner_start(faces@, f) + i] != idx@[next_corner(faces@, f, i)] ==> #[trigger] edge_listed(edges@, idx@, faces@, f, i),
        decreases faces@.len() - p,
    {
        let count = faces[p] as usize;
        proof {
            lemma_corner_start_mono(faces@, p + 1, faces@.len() as int);
        }
        if count >= 2 && cursor + count <= idx.len() {
            let mut i: usize = 0;
            while i < count
                invariant
                    p < faces@.len(),
                    count == faces@[p as int],
                    count >= 2,
                    cursor == corner_start(faces@, p as int),
                    cursor + count <= idx@.len(),
                    cursor + count <= usize::MAX,
                    0 <= i <= count,
                    forall|t: int| 0 <= t < edges@.len() ==> edge_entry_sound(idx@, faces@, #[trigger] edges@[t]),
                    forall|f: int, ii: int| #[trigger] valid_face(idx@.len() as int, faces@, f) && (f < p || (f == p && ii < i)) && 0 <= ii < faces@[f]
                        && idx@[corner_start(faces@, f) + ii] != idx@[next_corner(faces@, f, ii)] ==> #[trigger] edge_listed(edges@, idx@, faces@, f, ii),
                decreases count - i,
            {
                let a = idx[cursor + i];
                let b = idx[cursor + (i + 1) % count];
                let ghost pi = p as int;
                let ghost ii = i as int;
                assert(face_edge(idx@, faces@, true, pi, ii, a as int, b as int));
                if a != b {
                    let e = if a < b { (a, b, p) } else { (b, a, p) };
                    let ghost prev = edges@;
                    edges.push(e);
                    proof {
                        assert(e.2 as int == pi);
                        assert(edge_either(idx@, faces@, true, e.2 as int, ii, e.0 as int, e.1 as int));
                        assert(edge_entry_sound(idx@, faces@, e));
                        assert forall|t: int| 0 <= t < edges@.len() implies edge_entry_sound(idx@, faces@, #[trigger] edges@[t]) by {
                            if t < prev.len() {
                                assert(edges@[t] == prev[t]);
                            }
                        }
                        assert forall|f: int, j: int| #[trigger] valid_face(idx@.len() as int, faces@, f) && (f < pi || (f == pi && j < ii + 1)) && 0 <= j < faces@[f]
                            && idx@[corner_start(faces@, f) + j] != idx@[next_corner(faces@, f, j)] implies #[trigger] edge_listed(edges@, idx@, faces@, f, j) by {
                            if f == pi && j == ii {
                                assert(edges@[prev.len() as int] == e);
                            } else {
                                assert(edge_listed(prev, idx@, faces@, f, j));
                                let t = choose|t: int| 0 <= t < prev.len() && #[trigger] prev[t] == (if idx@[corner_start(faces@, f) + j] < idx@[next_corner(faces@, f, j)] {
                                    (idx@[corner_start(faces@, f) + j], idx@[next_corner(faces@, f, j)], f as usize)
                                } else {
                                    (idx@[next_corner(faces@, f, j)], idx@[corner_start(faces@, f) + j], f as usize)
                                });
                                assert(edges@[t] == prev[t]);
                            }
                        }
                    }
                }
                i = i + 1;
            }
        }
        cursor = cursor + count;
        p = p + 1;
    }
    edges
}

/// Pairs of list entries before entry pair (`k1`, `k2`) in the order of the scan.
pub open spec fn pairs_before(edges: Seq<(u32, u32, usize)>, f: int, g: int, k1: int, k2: int) -> bool {
    exists|t1: int, t2: int| #[trigger] listed_pair(edges, t1, t2, f, g) && (t1 < k1 || (t1 == k1 && t2 < k2))
}

/// Two polygons are the polygons of two entries with the same points exactly
/// when they share an edge.
proof fn lemma_pairs_share(idx: Seq<u32>, faces: Seq<u32>, edges: Seq<(u32, u32, usize)>, f: int, g: int)
    requires
        faces.len() <= usize::MAX,
        forall|t: int| 0 <= t < edges.len() ==> edge_entry_sound(idx, faces, #[trigger] edges[t]),
        forall|f: int, i: int| #[trigger] valid_face(idx.len() as int, faces, f) && 0 <= i < faces[f]
            && idx[corner_start(faces, f) + i] != idx[next_corner(faces, f, i)] ==> #[trigger] edge_listed(edges, idx, faces, f, i),
    ensures
        pairs_before(edges, f, g, edges.len() as int, 0) <==> share_edge(idx, faces, f, g),
{
    if pairs_before(edges, f, g, edges.len() as int, 0) {
        let (t1, t2) = choose|t1: int, t2: int| #[trigger] listed_pair(edges, t1, t2, f, g) && (t1 < edges.len() || (t1 == edges.len() && t2 < 0));
        assert(edge_entry_sound(idx, faces, edges[t1]));
        assert(edge_entry_sound(idx, faces, edges[t2]));
        let i = choose|i: int| #[trigger] edge_either(idx, faces, true, edges[t1].2 as int, i, edges[t1].0 as int, edges[t1].1 as int);
        let j = choose|j: int| #[trigger] edge_either(idx, faces, true, edges[t2].2 as int, j, edges[t2].0 as int, edges[t2].1 as int);
        assert(edge_either(idx, faces, true, g, j, edges[t1].0 as int, edges[t1].1 as int));
        assert(share_edge(idx, faces, f, g));
    }
    if share_edge(idx, faces, f, g) {
        let (a, b, i, j) = choose|a: int, b: int, i: int, j: int| a != b && #[trigger] edge_either(idx, faces, true, f, i, a, b) && #[trigger] edge_either(idx, faces, true, g, j, a, b);
        assert(valid_face(idx.len() as int, faces, f));
        assert(valid_face(idx.len() as int, faces, g));
        assert(edge_listed(edges, idx, faces, f, i));
        assert(edge_listed(edges, idx, faces, g, j));
        let lo: u32 = if a < b { a as u32 } else { b as u32 };
        let hi: u32 = if a < b { b as u32 } else { a as u32 };
        let t1 = choose|t: int| 0 <= t < edges.len() && #[trigger] edges[t] == (if idx[corner_start(faces, f) + i] < idx[next_corner(faces, f, i)] {
            (idx[corner_start(faces, f) + i], idx[next_corner(faces, f, i)], f as usize)
        } else {
            (idx[next_corner(faces, f, i)], idx[corner_start(faces, f) + i], f as usize)
        });
        let t2 = choose|t: int| 0 <= t < edges.len() && #[trigger] edges[t] == (if idx[corner_start(faces, g) + j] < idx[next_corner(faces, g, j)] {
            (idx[corner_start(faces, g) + j], idx[next_corner(faces, g, j)], g as usize)
        } else {
            (idx[next_corner(faces, g, j)], idx[corner_start(faces, g) + j], g as usize)
        });
        assert(edges[t1].0 == lo && edges[t1].1 == hi);
        assert(edges[t2].0 == lo && edges[t2].1 == hi);
        assert(listed_pair(edges, t1, t2, f, g));
        assert(pairs_before(edges, f, g, edges.len() as int, 0));
    }
}

/// The neighbours of each polygon: the other polygons that share an edge
/// between two different points with it, in increasing order.
fn primitive_neighbors(topo: &MeshTopology) -> (out: Vec<Vec<usize>>)
    requires
        topo.corners_fit(),
    ensures
        neighbor_lists(out@, topo.faces().len() as int, |f: int, g: int| share_edge(topo.indices@, topo.faces(), f, g)),
{
    let faces = topo.resolved_face_counts();
    let idx = topo.indices.as_slice();
    let edges = collect_edges(idx, faces.as_slice());
    let face_count = faces.len();
    let mut out: Vec<Vec<usize>> = Vec::new();
    let mut k: usize = 0;
    while k < face_count
        invariant
            0 <= k <= face_count,
            out@.len() == k,
            forall|a: int| 0 <= a < k ==> #[trigger] out@[a]@ == Seq::<usize>::empty(),
        decreases face_count - k,
    {
        out.push(Vec::new());
        k = k + 1;
    }
    assert(neighbor_lists(out@, face_count as int, |f: int, g: int| pairs_before(edges@, f, g, 0, 0)));
    let mut k1: usize = 0;
    while k1 < edges.len()
        invariant
            0 <= k1 <= edges@.len(),
            face_count == faces@.len(),
            forall|t: int| 0 <= t < edges@.len() ==> edge_entry_sound(idx@, faces@, #[trigger] edges@[t]),
            neighbor_lists(out@, face_count as int, |f: int, g: int| pairs_before(edges@, f, g, k1 as int, 0)),
        decreases edges@.len() - k1,
    {
        let mut k2: usize = 0;
        while k2 < edges.len()
            invariant
                0 <= k1 < edges@.len(),
                0 <= k2 <= edges@.len(),
                face_count == faces@.len(),
                forall|t: int| 0 <= t < edges@.len() ==> edge_entry_sound(idx@, faces@, #[trigger] edges@[t]),
                neighbor_lists(out@, face_count as int, |f: int, g: int| pairs_before(edges@, f, g, k1 as int, k2 as int)),
            decreases edges@.len() - k2,
        {
            let e1 = edges[k1];
            let e2 = edges[k2];
            let ghost old_out = out@;
            let ghost a1 = k1 as int;
            let ghost a2 = k2 as int;
            proof {
                assert(edge_entry_sound(idx@, faces@, edges@[a1]));
                assert(edge_entry_sound(idx@, faces@, edges@[a2]));
            }
            if e1.0 == e2.0 && e1.1 == e2.1 && e1.2 != e2.2 {
                let f = e1.2;
                let g = e2.2;
                assert(listed_pair(edges@, a1, a2, f as int, g as int));
                insert_sorted(&mut out[f], g);
                proof {
                    assert forall|x: int, y: usize| 0 <= x < face_count implies (#[trigger] out@[x]@.contains(y) <==> pairs_before(edges@, x, y as int, a1, a2 + 1)) by {
                        if pairs_before(edges@, x, y as int, a1, a2 + 1) {
                            let (t1, t2) = choose|t1: int, t2: int| #[trigger] listed_pair(edges@, t1, t2, x, y as int) && (t1 < a1 || (t1 == a1 && t2 < a2 + 1));
                            if !(t1 == a1 && t2 == a2) {
                                assert(pairs_before(edges@, x, y as int, a1, a2));
                            }
                        }
                        if old_out[x]@.contains(y) {
                            assert(pairs_before(edges@, x, y as int, a1, a2));
                            let (t1, t2) = choose|t1: int, t2: int| #[trigger] listed_pair(edges@, t1, t2, x, y as int) && (t1 < a1 || (t1 == a1 && t2 < a2));
                            assert(pairs_before(edges@, x, y as int, a1, a2 + 1));
                        }
                        if x == f as int && y == g {
                            assert(pairs_before(edges@, x, y as int, a1, a2 + 1));
                        }
                    }
                    assert forall|x: int| 0 <= x < face_count implies strictly_increasing(#[trigger] out@[x]@) by {
                        assert(old_out[x]@ == out@[x]@ || x == f as int);
                    }
                }
            } else {
                proof {
                    assert forall|x: int, y: usize| 0 <= x < face_count implies (#[trigger] out@[x]@.contains(y) <==> pairs_before(edges@, x, y as int, a1, a2 + 1)) by {
                        if pairs_before(edges@, x, y as int, a1, a2 + 1) {
                            let (t1, t2) = choose|t1: int, t2: int| #[trigger] listed_pair(edges@, t1, t2, x, y as int) && (t1 < a1 || (t1 == a1 && t2 < a2 + 1));
                            if !(t1 == a1 && t2 == a2) {
                                assert(pairs_before(edges@, x, y as int, a1, a2));
                            }
                        }
                        if old_out[x]@.contains(y) {
                            let (t1, t2) = choose|t1: int, t2: int| #[trigger] listed_pair(edges@, t1, t2, x, y as int) && (t1 < a1 || (t1 == a1 && t2 < a2));
                            assert(pairs_before(edges@, x, y as int, a1, a2 + 1));
                        }
                    }
                }
            }
            k2 = k2 + 1;
        }
        proof {
            let a1 = k1 as int;
            let n = edges@.len() as int;
            assert forall|x: int, y: usize| 0 <= x < face_count implies (#[trigger] out@[x]@.contains(y) <==> pairs_before(edges@, x, y as int, a1 + 1, 0)) by {
                if pairs_before(edges@, x, y as int, a1 + 1, 0) {
                    let (t1, t2) = choose|t1: int, t2: int| #[trigger] listed_pair(edges@, t1, t2, x, y as int) && (t1 < a1 + 1 || (t1 == a1 + 1 && t2 < 0));
                    assert(pairs_before(edges@, x, y as int, a1, n));
                }
                if pairs_before(edges@, x, y as int, a1, n) {
                    let (t1, t2) = choose|t1: int, t2: int| #[trigger] listed_pair(edges@, t1, t2, x, y as int) && (t1 < a1 || (t1 == a1 && t2 < n));
                    assert(pairs_before(edges@, x, y as int, a1 + 1, 0));
                }
            }
        }
        k1 = k1 + 1;
    }
    proof {
        assert forall|x: int, y: usize| 0 <= x < face_count implies (#[trigger] out@[x]@.contains(y) <==> share_edge(idx@, faces@, x, y as int)) by {
            lemma_pairs_share(idx@, faces@, edges@, x, y as int);
        }
    }
    out
}

/// The neighbour lists of the elements of `domain`: points joined by polygon
/// edges, corners next to each other around their polygon, polygons sharing an
/// edge; the detail domain has none.
pub fn mesh_adjacency(topo: &MeshTopology, domain: AttributeDomain) -> (out: Vec<Vec<usize>>)
    requires
        topo.corners_fit(),
    ensures
        match domain {
            AttributeDomain::Point => neighbor_lists(out@, topo.point_count as int, |a: int, b: int| adjacent(topo.indices@, topo.faces(), true, topo.point_count as int, a, b)),
            AttributeDomain::Vertex => neighbor_lists(out@, topo.indices@.len() as int, |a: int, b: int| adjacent(topo.indices@, topo.faces(), false, topo.indices@.len() as int, a, b)),
            AttributeDomain::Primitive => neighbor_lists(out@, topo.faces().len() as int, |f: int, g: int| share_edge(topo.indices@, topo.faces(), f, g)),
            AttributeDomain::Detail => out@.len() == 0,
        },
{
    match domain {
        AttributeDomain::Point => point_neighbors(topo),
        AttributeDomain::Vertex => vertex_neighbors(topo),
        AttributeDomain::Primitive => primitive_neighbors(topo),
        AttributeDomain::Detail => Vec::new(),
    }
}

/// Adjacency goes both ways: `a` is a neighbour of `b` exactly when `b` is a
/// neighbour of `a`, for points, corners and polygons alike.
pub proof fn law_adjacency_symmetric(idx: Seq<u32>, faces: Seq<u32>, by_point: bool, n: int, a: int, b: int)
    ensures
        adjacent(idx, faces, by_point, n, a, b) == adjacent(idx, faces, by_point, n, b, a),
        share_edge(idx, faces, a, b) == share_edge(idx, faces, b, a),
{
    if adjacent(idx, faces, by_point, n, a, b) {
        let (p, i) = choose|p: int, i: int| #[trigger] edge_either(idx, faces, by_point, p, i, a, b);
        assert(edge_either(idx, faces, by_point, p, i, b, a));
    }
    if adjacent(idx, faces, by_point, n, b, a) {
        let (p, i) = choose|p: int, i: int| #[trigger] edge_either(idx, faces, by_point, p, i, b, a);
        assert(edge_either(idx, faces, by_point, p, i, a, b));
    }
    if share_edge(idx, faces, a, b) {
        let (x, y, i, j) = choose|x: int, y: int, i: int, j: int| x != y && #[trigger] edge_either(idx, faces, true, a, i, x, y) && #[trigger] edge_either(idx, faces, true, b, j, x, y);
        assert(share_edge(idx, faces, b, a));
    }
    if share_edge(idx, faces, b, a) {
        let (x, y, i, j) = choose|x: int, y: int, i: int, j: int| x != y && #[trigger] edge_either(idx, faces, true, b, i, x, y) && #[trigger] edge_either(idx, faces, true, a, j, x, y);
        assert(share_edge(idx, faces, a, b));
    }
}

/// Growing (or shrinking) `a` times and then `b` times is growing `a + b` times.
pub proof fn law_expand_compose(mask: Seq<bool>, nb: Seq<Seq<usize>>, len: int, mode: ExpandMode, a: nat, b: nat)
    ensures
        expand_iter(expand_iter(mask, nb, len, mode, a), nb, len, mode, b) == expand_iter(mask, nb, len, mode, a + b),
    decreases b,
{
    if b > 0 {
        law_expand_compose(mask, nb, len, mode, a, (b - 1) as nat);
        assert((a + b - 1) as nat == (a + (b - 1)) as nat);
    }
}

/// Expanding never drops a selected element, and contracting never adds one.
pub proof fn law_expand_monotone(mask: Seq<bool>, nb: Seq<Seq<usize>>, len: int, mode: ExpandMode, k: nat, i: int)
    requires
        0 <= i < mask.len(),
    ensures
        expand_iter(mask, nb, len, mode, k).len() == mask.len(),
        mode == ExpandMode::Expand && mask[i] ==> expand_iter(mask, nb, len, mode, k)[i],
        mode == ExpandMode::Contract && !mask[i] ==> !expand_iter(mask, nb, len, mode, k)[i],
    decreases k,
{
    if k > 0 {
        law_expand_monotone(mask, nb, len, mode, (k - 1) as nat, i);
    }
}

/// One more step, compared with the selection before it, for each of the first
/// `len` elements: expanding selects an element that was selected or has a selected
/// neighbour; contracting keeps an element only when it was selected, has at least
/// one neighbour, and every one of its neighbours is a selected element (an element
/// with any unselected or missing neighbour is dropped). The other elements stay.
pub proof fn law_expand_step(mask: Seq<bool>, nb: Seq<Seq<usize>>, len: int, mode: ExpandMode, k: nat)
    requires
        0 <= len <= mask.len(),
        len <= nb.len(),
    ensures
        expand_iter(mask, nb, len, mode, k + 1).len() == expand_iter(mask, nb, len, mode, k).len(),
        forall|i: int| 0 <= i < len && mode == ExpandMode::Contract ==> (#[trigger] expand_iter(mask, nb, len, mode, k + 1)[i]
            <==> (expand_iter(mask, nb, len, mode, k)[i] && nb[i].len() > 0 && forall|j: int| 0 <= j < nb[i].len()
                ==> (nb[i][j] as int) < expand_iter(mask, nb, len, mode, k).len()
                    && expand_iter(mask, nb, len, mode, k)[#[trigger] nb[i][j] as int])),
        forall|i: int| 0 <= i < len && mode == ExpandMode::Expand ==> (#[trigger] expand_iter(mask, nb, len, mode, k + 1)[i]
            <==> (expand_iter(mask, nb, len, mode, k)[i] || exists|j: int| 0 <= j < nb[i].len()
                && (nb[i][j] as int) < expand_iter(mask, nb, len, mode, k).len()
                && expand_iter(mask, nb, len, mode, k)[#[trigger] nb[i][j] as int])),
        forall|i: int| len <= i < mask.len() ==> #[trigger] expand_iter(mask, nb, len, mode, k + 1)[i]
            == expand_iter(mask, nb, len, mode, k)[i],
{
    lemma_expand_iter_len(mask, nb, len, mode, k);
    lemma_expand_iter_len(mask, nb, len, mode, k + 1);
    let prev = expand_iter(mask, nb, len, mode, k);
    let next = expand_iter(mask, nb, len, mode, k + 1);
    assert(next == expand_step(prev, nb, len, mode));
    assert forall|i: int| 0 <= i < len && mode == ExpandMode::Contract implies (#[trigger] next[i]
        <==> (prev[i] && nb[i].len() > 0 && forall|j: int| 0 <= j < nb[i].len()
            ==> (nb[i][j] as int) < prev.len() && prev[#[trigger] nb[i][j] as int])) by {
        if next[i] {
            assert forall|j: int| 0 <= j < nb[i].len() implies (nb[i][j] as int) < prev.len() && prev[#[trigger] nb[i][j] as int] by {
                assert(mask_at(prev, nb[i][j] as int));
            }
        }
        if prev[i] && nb[i].len() > 0 && forall|j: int| 0 <= j < nb[i].len()
            ==> (nb[i][j] as int) < prev.len() && prev[#[trigger] nb[i][j] as int] {
            assert forall|j: int| 0 <= j < nb[i].len() implies mask_at(prev, #[trigger] nb[i][j] as int) by {
                assert((nb[i][j] as int) < prev.len() && prev[nb[i][j] as int]);
            }
        }
    }
    assert forall|i: int| 0 <= i < len && mode == ExpandMode::Expand implies (#[trigger] next[i]
        <==> (prev[i] || exists|j: int| 0 <= j < nb[i].len() && (nb[i][j] as int) < prev.len()
            && prev[#[trigger] nb[i][j] as int])) by {
        if next[i] && !prev[i] {
            let j = choose|j: int| 0 <= j < nb[i].len() && mask_at(prev, #[trigger] nb[i][j] as int);
            assert(prev[nb[i][j] as int]);
        }
        if !prev[i] && exists|j: int| 0 <= j < nb[i].len() && (nb[i][j] as int) < prev.len() && prev[#[trigger] nb[i][j] as int] {
            let j = choose|j: int| 0 <= j < nb[i].len() && (nb[i][j] as int) < prev.len() && prev[#[trigger] nb[i][j] as int];
            assert(mask_at(prev, nb[i][j] as int));
        }
    }
}

} // verus!
