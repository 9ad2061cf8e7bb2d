//! Name patterns: `*` matches any run of bytes, `?` any one byte, and every other
//! byte itself.

use vstd::prelude::*;

verus! {

/// Whether byte pattern `p` matches all of `v`.
pub open spec fn glob(p: Seq<u8>, v: Seq<u8>) -> bool
    decreases p.len(), v.len(), 0int,
{
    if p.len() == 0 {
        v.len() == 0
    } else if p[0] == 42u8 {
        glob_star(p.drop_first(), v)
    } else if p[0] == 63u8 {
        v.len() > 0 && glob(p.drop_first(), v.drop_first())
    } else {
        v.len() > 0 && v[0] == p[0] && glob(p.drop_first(), v.drop_first())
    }
}

/// Whether `p` matches some suffix of `v` (what a leading `*` leaves to match).
pub open spec fn glob_star(p: Seq<u8>, v: Seq<u8>) -> bool
    decreases p.len(), v.len(), 1int,
{
    glob(p, v) || (v.len() > 0 && glob_star(p, v.drop_first()))
}

/// Whether the characters of `pattern` match those of `value`, byte by byte in UTF-8.
pub open spec fn glob_text(pattern: Seq<char>, value: Seq<char>) -> bool {
    glob(vstd::utf8::encode_utf8(pattern), vstd::utf8::encode_utf8(value))
}

proof fn lemma_glob_star(p: Seq<u8>, v: Seq<u8>)
    ensures
        glob_star(p, v) <==> exists|k: int| 0 <= k <= v.len() && #[trigger] glob(p, v.skip(k)),
    decreases v.len(),
{
    assert(v.skip(0) =~= v);
    if glob(p, v) {
        assert(glob(p, v.skip(0)));
    }
    if v.len() > 0 {
        lemma_glob_star(p, v.drop_first());
        if glob_star(p, v.drop_first()) {
            let k = choose|k: int| 0 <= k <= v.drop_first().len() && #[trigger] glob(p, v.drop_first().skip(k));
            assert(v.drop_first().skip(k) =~= v.skip(k + 1));
        }
        if exists|k: int| 0 <= k <= v.len() && #[trigger] glob(p, v.skip(k)) {
            let k = choose|k: int| 0 <= k <= v.len() && #[trigger] glob(p, v.skip(k));
            if k > 0 {
                assert(v.drop_first().skip(k - 1) =~= v.skip(k));
            }
        }
    }
}

/// Whether `p[pi..]` matches all of `v[vi..]`.
fn glob_at(p: &[u8], pi: usize, v: &[u8], vi: usize) -> (r: bool)
    requires
        pi <= p@.len(),
        vi <= v@.len(),
    ensures
        r == glob(p@.skip(pi as int), v@.skip(vi as int)),
    decreases p@.len() - pi, v@.len() - vi,
{
    let ghost ps = p@.skip(pi as int);
    let ghost vs = v@.skip(vi as int);
    if pi == p.len() {
        return vi == v.len();
    }
    assert(ps.drop_first() =~= p@.skip(pi + 1));
    let c = p[pi];
    let plen = p.len();
    if c == 42u8 {
        assert(ps[0] == 42u8);
        assert(glob(ps, vs) == glob_star(p@.skip(pi + 1), vs));
        proof {
            lemma_glob_star(p@.skip(pi + 1), vs);
        }
        let mut idx: usize = vi;
        while idx < v.len()
            invariant
                plen == p@.len(),
                pi < plen,
                vs == v@.skip(vi as int),
                ps == p@.skip(pi as int),
                glob(ps, vs) == glob_star(p@.skip(pi + 1), vs),
                glob_star(p@.skip(pi + 1), vs) <==> exists|k: int| 0 <= k <= vs.len() && #[trigger] glob(p@.skip(pi + 1), vs.skip(k)),
                vi <= idx <= v@.len(),
                forall|k: int| vi <= k < idx ==> !#[trigger] glob(p@.skip(pi + 1), v@.skip(k)),
            decreases v@.len() - idx,
        {
            if glob_at(p, pi + 1, v, idx) {
                assert(vs.skip(idx - vi) =~= v@.skip(idx as int));
                return true;
            }
            idx = idx + 1;
        }
        if glob_at(p, pi + 1, v, v.len()) {
            assert(vs.skip(v@.len() - vi) =~= v@.skip(v@.len() as int));
            return true;
        }
        proof {
            if glob_star(p@.skip(pi + 1), vs) {
                let k = choose|k: int| 0 <= k <= vs.len() && #[trigger] glob(p@.skip(pi + 1), vs.skip(k));
                assert(vs.skip(k) =~= v@.skip(vi + k));
                if vi + k < v@.len() {
                    assert(!glob(p@.skip(pi + 1), v@.skip(vi + k)));
                }
            }
        }
        false
    } else if c == 63u8 {
        if vi == v.len() {
            false
        } else {
            assert(vs.drop_first() =~= v@.skip(vi + 1));
            glob_at(p, pi + 1, v, vi + 1)
        }
    } else {
        if vi < v.len() && v[vi] == c {
            assert(vs.drop_first() =~= v@.skip(vi + 1));
            glob_at(p, pi + 1, v, vi + 1)
        } else {
            false
        }
    }
}

/// Whether `pattern` matches all of `value`, byte by byte.
pub fn glob_match(pattern: &str, value: &str) -> (r: bool)
    ensures
        r == glob_text(pattern@, value@),
{
    let p = pattern.as_bytes();
    let v = value.as_bytes();
    assert(p@.skip(0) =~= p@);
    assert(v@.skip(0) =~= v@);
    glob_at(p, 0, v, 0)
}

} // verus!
