//! The order of strings: character by character, by code point, a proper prefix
//! first. It is the order of `String`'s `Ord`, since UTF-8 keeps the order of
//! code points.

use vstd::prelude::*;
use crate::text::chars_of;

verus! {

/// Whether `a` comes before `b`.
pub open spec fn lex_lt(a: Seq<char>, b: Seq<char>) -> bool
    decreases a.len(),
{
    if b.len() == 0 {
        false
    } else if a.len() == 0 {
        true
    } else if a[0] != b[0] {
        (a[0] as u32) < (b[0] as u32)
    } else {
        lex_lt(a.drop_first(), b.drop_first())
    }
}

/// No string comes before itself.
pub proof fn lemma_lex_irreflexive(a: Seq<char>)
    ensures
        !lex_lt(a, a),
    decreases a.len(),
{
    if a.len() > 0 {
        lemma_lex_irreflexive(a.drop_first());
    }
}

/// The order is transitive.
pub proof fn lemma_lex_transitive(a: Seq<char>, b: Seq<char>, c: Seq<char>)
    requires
        lex_lt(a, b),
        lex_lt(b, c),
    ensures
        lex_lt(a, c),
    decreases a.len(),
{
    if a.len() > 0 && b.len() > 0 && c.len() > 0 && a[0] == b[0] && b[0] == c[0] {
        lemma_lex_transitive(a.drop_first(), b.drop_first(), c.drop_first());
    }
}

/// Of two different strings, one comes before the other.
pub proof fn lemma_lex_total(a: Seq<char>, b: Seq<char>)
    requires
        a != b,
    ensures
        lex_lt(a, b) || lex_lt(b, a),
    decreases a.len(),
{
    if a.len() > 0 && b.len() > 0 && a[0] == b[0] {
        if a.drop_first() == b.drop_first() {
            assert(a =~= seq![a[0]] + a.drop_first());
            assert(b =~= seq![b[0]] + b.drop_first());
        }
        lemma_lex_total(a.drop_first(), b.drop_first());
    } else if a.len() > 0 && b.len() > 0 {
        vstd::utf8::char_u32_cast(a[0], a[0] as u32);
        vstd::utf8::char_u32_cast(b[0], b[0] as u32);
        assert((a[0] as u32) != (b[0] as u32));
    } else if a.len() == 0 && b.len() == 0 {
        assert(a =~= b);
    }
}

proof fn lemma_lex_skip(a: Seq<char>, b: Seq<char>, i: int)
    requires
        0 <= i <= a.len(),
        i <= b.len(),
        a.take(i) == b.take(i),
    ensures
        lex_lt(a, b) == lex_lt(a.skip(i), b.skip(i)),
    decreases i,
{
    if i > 0 {
        assert(a[0] == a.take(i)[0]);
        assert(b[0] == b.take(i)[0]);
        assert(a.drop_first().take(i - 1) =~= a.take(i).drop_first());
        assert(b.drop_first().take(i - 1) =~= b.take(i).drop_first());
        lemma_lex_skip(a.drop_first(), b.drop_first(), i - 1);
        assert(a.drop_first().skip(i - 1) =~= a.skip(i));
        assert(b.drop_first().skip(i - 1) =~= b.skip(i));
    } else {
        assert(a.skip(0) =~= a);
        assert(b.skip(0) =~= b);
    }
}

/// Whether the characters `a` come before the characters `b`.
pub fn chars_lt(a: &[char], b: &[char]) -> (r: bool)
    ensures
        r == lex_lt(a@, b@),
{
    let mut i: usize = 0;
    while i < a.len() && i < b.len() && a[i] == b[i]
        invariant
            0 <= i <= a@.len(),
            i <= b@.len(),
            a@.take(i as int) == b@.take(i as int),
        decreases a@.len() - i,
    {
        assert(a@.take(i + 1) =~= a@.take(i as int).push(a@[i as int]));
        assert(b@.take(i + 1) =~= b@.take(i as int).push(b@[i as int]));
        i = i + 1;
    }
    proof {
        lemma_lex_skip(a@, b@, i as int);
    }
    if i == b.len() {
        false
    } else if i == a.len() {
        true
    } else {
        (a[i] as u32) < (b[i] as u32)
    }
}

/// Whether `a` comes before `b`.
pub fn text_lt(a: &str, b: &str) -> (r: bool)
    ensures
        r == lex_lt(a@, b@),
{
    let ca = chars_of(a);
    let cb = chars_of(b);
    chars_lt(ca.as_slice(), cb.as_slice())
}

/// The strings of a list, as character sequences.
pub open spec fn texts(list: Seq<String>) -> Seq<Seq<char>> {
    list.map_values(|t: String| t@)
}

/// Whether each string of the list comes before the next.
pub open spec fn texts_increasing(s: Seq<Seq<char>>) -> bool {
    forall|i: int, j: int| 0 <= i < j < s.len() ==> lex_lt(s[i], s[j])
}

/// Adds `x` to a list of strings in increasing order, unless it holds `x` already.
pub fn insert_text_sorted(list: &mut Vec<String>, x: String)
    requires
        texts_increasing(texts(old(list)@)),
    ensures
        texts_increasing(texts(final(list)@)),
        forall|y: Seq<char>| #[trigger] texts(final(list)@).contains(y) <==> (texts(old(list)@).contains(y) || y == x@),
{
    let ghost before = texts(list@);
    let xc = chars_of(x.as_str());
    let mut pos: usize = 0;
    let mut found = false;
    let mut stop = false;
    while pos < list.len() && !found && !stop
        invariant
            stop ==> !found && pos < before.len() && lex_lt(x@, before[pos as int]),
            texts(list@) == before,
            texts_increasing(before),
            xc@ == x@,
            0 <= pos <= before.len(),
            !found ==> forall|m: int| 0 <= m < pos ==> lex_lt(before[m], x@),
            found ==> pos > 0 && before[pos - 1] == x@,
        decreases before.len() - pos, if stop { 0int } else { 1int },
    {
        let cur = chars_of(list[pos].as_str());
        assert(cur@ == before[pos as int]);
        if chars_lt(cur.as_slice(), xc.as_slice()) {
            pos = pos + 1;
        } else if chars_lt(xc.as_slice(), cur.as_slice()) {
            stop = true;
        } else {
            proof {
                if cur@ != xc@ {
                    lemma_lex_total(cur@, xc@);
                }
            }
            found = true;
            pos = pos + 1;
        }
    }
    if found {
        assert(before.contains(x@)) by {
            assert(before[pos - 1] == x@);
        }
        return;
    }
    let ghost old_list = list@;
    list.insert(pos, x);
    proof {
        let after = texts(list@);
        assert(after =~= before.insert(pos as int, x@));
        assert(pos < before.len() ==> lex_lt(x@, before[pos as int]));
        assert forall|a: int, b: int| 0 <= a < b < after.len() implies lex_lt(after[a], after[b]) by {
            if b < pos {
            } else if a > pos {
                assert(lex_lt(before[a - 1], before[b - 1]));
            } else if a == pos {
                if b - 1 > pos {
                    lemma_lex_transitive(x@, before[pos as int], before[b - 1]);
                }
            } else if b == pos {
            } else {
                if b - 1 > pos {
                    lemma_lex_transitive(x@, before[pos as int], before[b - 1]);
                }
                lemma_lex_transitive(before[a], x@, before[b - 1]);
            }
        }
        assert forall|y: Seq<char>| #[trigger] after.contains(y) <==> (before.contains(y) || y == x@) by {
            if after.contains(y) {
                let t = choose|t: int| 0 <= t < after.len() && after[t] == y;
                if t < pos {
                    assert(before[t] == y);
                } else if t > pos {
                    assert(before[t - 1] == y);
                }
            }
            if before.contains(y) {
                let t = choose|t: int| 0 <= t < before.len() && before[t] == y;
                if t < pos {
                    assert(after[t] == y);
                } else {
                    assert(after[t + 1] == y);
                }
            }
            if y == x@ {
                assert(after[pos as int] == y);
            }
        }
    }
}

} // verus!
