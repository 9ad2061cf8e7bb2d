//! Group expressions: space- or comma-separated name patterns, each optionally
//! prefixed by `^` or `!` to exclude the groups it matches.

use vstd::prelude::*;
use vstd::seq_lib::lemma_flatten_concat;
use crate::glob::{glob_match, glob_text};
use crate::text::{chars_of, is_space, char_is_space, string_from_chars};
use crate::text_map::{TextMap, lemma_entry_in_map};

verus! {

/// A separator between words: whitespace, and where `commas` holds, a comma too.
pub open spec fn is_word_sep(c: char, commas: bool) -> bool {
    is_space(c) || (commas && c == ',')
}

/// `cur` as a list of at most one word.
pub open spec fn flush(cur: Seq<char>) -> Seq<Seq<char>> {
    if cur.len() > 0 { seq![cur] } else { Seq::empty() }
}

/// The words of `s` after the partial word `cur`, split at separators.
pub open spec fn words_from(s: Seq<char>, cur: Seq<char>, commas: bool) -> Seq<Seq<char>>
    decreases s.len(),
{
    if s.len() == 0 {
        flush(cur)
    } else if is_word_sep(s[0], commas) {
        flush(cur) + words_from(s.drop_first(), Seq::empty(), commas)
    } else {
        words_from(s.drop_first(), cur.push(s[0]), commas)
    }
}

/// The words of a group expression: its maximal runs of characters that are
/// neither whitespace nor commas.
pub open spec fn words(s: Seq<char>) -> Seq<Seq<char>> {
    words_from(s, Seq::empty(), true)
}

/// The maximal runs of non-whitespace characters of `s`, as `str::split_whitespace` gives them.
pub open spec fn space_words(s: Seq<char>) -> Seq<Seq<char>> {
    words_from(s, Seq::empty(), false)
}

/// The token a word stands for: a leading `^` or `!` excludes, and a word that is
/// nothing but that sign stands for no token.
pub open spec fn word_token(w: Seq<char>) -> Option<(bool, Seq<char>)> {
    if w.len() > 0 && (w[0] == '^' || w[0] == '!') {
        if w.len() > 1 { Some((false, w.drop_first())) } else { None }
    } else if w.len() > 0 {
        Some((true, w))
    } else {
        None
    }
}

/// The tokens of a list of words, in order.
pub open spec fn word_tokens(ws: Seq<Seq<char>>) -> Seq<(bool, Seq<char>)>
    decreases ws.len(),
{
    if ws.len() == 0 {
        Seq::empty()
    } else {
        let rest = word_tokens(ws.drop_last());
        match word_token(ws.last()) {
            Some(t) => rest.push(t),
            None => rest,
        }
    }
}

/// Each further word adds at most one token, at the end: a word starting with `^`
/// or `!` and longer than that sign excludes the pattern after the sign; another
/// non-empty word includes itself as the pattern; a lone sign (or an empty word)
/// adds nothing.
pub proof fn law_word_tokens_push(ws: Seq<Seq<char>>, w: Seq<char>)
    ensures
        w.len() > 1 && (w[0] == '^' || w[0] == '!') ==> word_tokens(ws.push(w)) == word_tokens(ws).push((false, w.drop_first())),
        w.len() > 0 && w[0] != '^' && w[0] != '!' ==> word_tokens(ws.push(w)) == word_tokens(ws).push((true, w)),
        (w.len() == 0 || (w.len() == 1 && (w[0] == '^' || w[0] == '!'))) ==> word_tokens(ws.push(w)) == word_tokens(ws),
{
    assert(ws.push(w).drop_last() =~= ws);
    assert(ws.push(w).last() == w);
}

/// The tokens of a group expression: pairs of a flag (true where the token adds
/// groups) and a pattern.
pub open spec fn group_tokens(expr: Seq<char>) -> Seq<(bool, Seq<char>)> {
    word_tokens(words(expr))
}

/// A character that is not a separator.
pub open spec fn keeps_char(commas: bool) -> spec_fn(char) -> bool {
    |c: char| !is_word_sep(c, commas)
}

proof fn lemma_flush_flatten(cur: Seq<char>)
    ensures
        flush(cur).flatten() == cur,
{
    if cur.len() > 0 {
        let f = flush(cur);
        assert(f.drop_first() =~= Seq::<Seq<char>>::empty());
        assert(f.drop_first().flatten() =~= Seq::<char>::empty());
        assert(f.first() == cur);
        assert(f.flatten() =~= cur + Seq::<char>::empty());
        assert(cur + Seq::<char>::empty() =~= cur);
    } else {
        assert(flush(cur).flatten() =~= cur);
    }
}

/// Splitting into words keeps every character that is not a separator, in order,
/// and only those: the words, put back together, are the partial word followed by
/// the text without its separators; and each word is non-empty and holds no
/// separator (when the partial word holds none).
pub proof fn law_words_keep_chars(s: Seq<char>, cur: Seq<char>, commas: bool)
    requires
        forall|i: int| 0 <= i < cur.len() ==> !is_word_sep(#[trigger] cur[i], commas),
    ensures
        words_from(s, cur, commas).flatten() == cur + s.filter(keeps_char(commas)),
        forall|k: int| 0 <= k < words_from(s, cur, commas).len() ==> (#[trigger] words_from(s, cur, commas)[k]).len() > 0,
        forall|k: int, i: int| 0 <= k < words_from(s, cur, commas).len() && 0 <= i < words_from(s, cur, commas)[k].len()
            ==> !is_word_sep(#[trigger] words_from(s, cur, commas)[k][i], commas),
    decreases s.len(),
{
    let p = keeps_char(commas);
    let w = words_from(s, cur, commas);
    s.lemma_filter_eq_filter_alt(p);
    if s.len() == 0 {
        lemma_flush_flatten(cur);
        assert(cur + s.filter(p) =~= cur);
    } else if is_word_sep(s[0], commas) {
        let rest = s.drop_first();
        law_words_keep_chars(rest, Seq::empty(), commas);
        rest.lemma_filter_eq_filter_alt(p);
        lemma_flatten_concat(flush(cur), words_from(rest, Seq::empty(), commas));
        lemma_flush_flatten(cur);
        assert(!p(s[0]));
        assert(s.filter(p) == rest.filter(p));
        assert(Seq::<char>::empty() + rest.filter(p) =~= rest.filter(p));
        let r = words_from(rest, Seq::empty(), commas);
        assert(w == flush(cur) + r);
        assert forall|k: int| 0 <= k < w.len() implies (#[trigger] w[k]).len() > 0 by {
            if k >= flush(cur).len() {
                assert(w[k] == r[k - flush(cur).len()]);
            }
        }
        assert forall|k: int, i: int| 0 <= k < w.len() && 0 <= i < w[k].len() implies !is_word_sep(#[trigger] w[k][i], commas) by {
            if k >= flush(cur).len() {
                assert(w[k] == r[k - flush(cur).len()]);
            }
        }
    } else {
        let rest = s.drop_first();
        let c2 = cur.push(s[0]);
        assert forall|i: int| 0 <= i < c2.len() implies !is_word_sep(#[trigger] c2[i], commas) by {
            if i < cur.len() {
                assert(c2[i] == cur[i]);
            }
        }
        law_words_keep_chars(rest, c2, commas);
        rest.lemma_filter_eq_filter_alt(p);
        assert(p(s[0]));
        assert(s.filter(p) == seq![s[0]] + rest.filter(p));
        assert(c2 + rest.filter(p) =~= cur + (seq![s[0]] + rest.filter(p)));
    }
}

/// The words of `s`, split at whitespace and commas.
pub fn split_words(s: &[char], commas: bool) -> (r: Vec<Vec<char>>)
    ensures
        r@.map_values(|w: Vec<char>| w@) == words_from(s@, Seq::empty(), commas),
{
    let mut acc: Vec<Vec<char>> = Vec::new();
    let mut cur: Vec<char> = Vec::new();
    let mut i: usize = 0;
    assert(s@.skip(0) =~= s@);
    while i < s.len()
        invariant
            0 <= i <= s@.len(),
            acc@.map_values(|w: Vec<char>| w@) + words_from(s@.skip(i as int), cur@, commas) == words_from(s@, Seq::empty(), commas),
        decreases s@.len() - i,
    {
        let c = s[i];
        let ghost rest = s@.skip(i as int);
        assert(rest[0] == c);
        assert(rest.drop_first() =~= s@.skip(i + 1));
        let ghost before = acc@.map_values(|w: Vec<char>| w@);
        if char_is_space(c) || (commas && c == ',') {
            if cur.len() > 0 {
                let mut w: Vec<char> = Vec::new();
                std::mem::swap(&mut w, &mut cur);
                acc.push(w);
                assert(acc@.map_values(|w: Vec<char>| w@) =~= before + flush(w@));
            } else {
                assert(before + flush(cur@) =~= before);
            }
            assert(cur@ =~= Seq::<char>::empty());
        } else {
            cur.push(c);
        }
        i = i + 1;
    }
    proof {
        let before = acc@.map_values(|w: Vec<char>| w@);
        assert(s@.skip(i as int).len() == 0);
    }
    if cur.len() > 0 {
        let ghost before = acc@.map_values(|w: Vec<char>| w@);
        acc.push(cur);
        assert(acc@.map_values(|w: Vec<char>| w@) =~= before + flush(acc@.last()@));
    } else {
        assert(acc@.map_values(|w: Vec<char>| w@) + flush(cur@) =~= acc@.map_values(|w: Vec<char>| w@));
    }
    acc
}

/// The tokens of a group expression, in order.
pub fn parse_group_tokens(expr: &str) -> (r: Vec<(bool, String)>)
    ensures
        r@.map_values(|t: (bool, String)| (t.0, t.1@)) == group_tokens(expr@),
{
    let chars = chars_of(expr);
    let ws = split_words(chars.as_slice(), true);
    let mut out: Vec<(bool, String)> = Vec::new();
    let mut i: usize = 0;
    while i < ws.len()
        invariant
            0 <= i <= ws@.len(),
            ws@.map_values(|w: Vec<char>| w@) == words(expr@),
            out@.map_values(|t: (bool, String)| (t.0, t.1@)) == word_tokens(ws@.map_values(|w: Vec<char>| w@).take(i as int)),
        decreases ws@.len() - i,
    {
        let ghost wsv = ws@.map_values(|w: Vec<char>| w@);
        assert(wsv.take(i + 1).drop_last() =~= wsv.take(i as int));
        assert(wsv.take(i + 1).last() == ws@[i as int]@);
        let ghost before = out@.map_values(|t: (bool, String)| (t.0, t.1@));
        let w = &ws[i];
        if w.len() > 0 && (w[0] == '^' || w[0] == '!') {
            if w.len() > 1 {
                let mut name: Vec<char> = Vec::new();
                let mut k: usize = 1;
                while k < w.len()
                    invariant
                        1 <= k <= w@.len(),
                        name@ == w@.subrange(1, k as int),
                    decreases w@.len() - k,
                {
                    name.push(w[k]);
                    k = k + 1;
                }
                assert(name@ =~= w@.drop_first());
                out.push((false, string_from_chars(name.as_slice())));
                assert(out@.map_values(|t: (bool, String)| (t.0, t.1@)) =~= before.push((false, w@.drop_first())));
            }
        } else if w.len() > 0 {
            out.push((true, string_from_chars(w.as_slice())));
            assert(out@.map_values(|t: (bool, String)| (t.0, t.1@)) =~= before.push((true, w@)));
        }
        i = i + 1;
    }
    assert(ws@.map_values(|w: Vec<char>| w@).take(ws@.len() as int) =~= ws@.map_values(|w: Vec<char>| w@));
    out
}

/// The names selected by a list of tokens from the names `names`: starting from none
/// when some token includes and from all otherwise, each token in turn adds (or
/// removes) the names its pattern matches.
pub open spec fn select_names(names: Set<Seq<char>>, tokens: Seq<(bool, Seq<char>)>, start: Set<Seq<char>>) -> Set<Seq<char>>
    decreases tokens.len(),
{
    if tokens.len() == 0 {
        start
    } else {
        let prev = select_names(names, tokens.drop_last(), start);
        let (adds, pattern) = tokens.last();
        let matched = names.filter(|n: Seq<char>| glob_text(pattern, n));
        if adds { prev.union(matched) } else { prev.difference(matched) }
    }
}

/// Tokens apply in the order they are written: after a further token, every name
/// of `names` that its pattern matches is selected exactly when the token includes,
/// and every other name is selected exactly as before it. With no token the
/// selection is the starting one.
pub proof fn law_tokens_apply_in_order(names: Set<Seq<char>>, tokens: Seq<(bool, Seq<char>)>, start: Set<Seq<char>>,
    adds: bool, pattern: Seq<char>, n: Seq<char>)
    ensures
        select_names(names, Seq::empty(), start) == start,
        names.contains(n) && glob_text(pattern, n)
            ==> select_names(names, tokens.push((adds, pattern)), start).contains(n) == adds,
        !(names.contains(n) && glob_text(pattern, n))
            ==> select_names(names, tokens.push((adds, pattern)), start).contains(n)
                == select_names(names, tokens, start).contains(n),
{
    let t = tokens.push((adds, pattern));
    assert(t.drop_last() =~= tokens);
    assert(t.last() == (adds, pattern));
}

/// Whether some token includes.
pub open spec fn has_positive(tokens: Seq<(bool, Seq<char>)>) -> bool {
    exists|i: int| 0 <= i < tokens.len() && (#[trigger] tokens[i]).0
}

/// The names that a group expression selects among the names of `groups`.
pub open spec fn selected_groups(groups: Map<Seq<char>, Vec<bool>>, expr: Seq<char>) -> Set<Seq<char>> {
    let tokens = group_tokens(expr);
    let start = if has_positive(tokens) { Set::empty() } else { groups.dom() };
    select_names(groups.dom(), tokens, start)
}

/// Element `i` is in some selected group of length `len`.
pub open spec fn mask_bit(groups: Map<Seq<char>, Vec<bool>>, selected: Set<Seq<char>>, len: int, i: int) -> bool {
    exists|n: Seq<char>| #[trigger] selected.contains(n) && groups.contains_key(n) && groups[n]@.len() == len && groups[n]@[i]
}

/// The names of the entries of a map, as a set.
proof fn lemma_entry_names<V>(m: &TextMap<V>)
    requires
        m.wf(),
    ensures
        forall|n: Seq<char>| m@.contains_key(n) <==> exists|k: int| 0 <= k < m.entries_view().len() && #[trigger] m.entries_view()[k].0@ == n,
{
}

/// The mask of the elements that belong to a group selected by `expr`, over groups of
/// `len` elements (groups of another length are skipped); none when `expr` has no token.
pub fn build_group_mask(groups: &TextMap<Vec<bool>>, expr: &str, len: usize) -> (r: Option<Vec<bool>>)
    requires
        groups.wf(),
    ensures
        group_tokens(expr@).len() == 0 ==> r.is_none(),
        group_tokens(expr@).len() > 0 ==> (r matches Some(mask) && mask@.len() == len && forall|i: int| 0 <= i < len
            ==> #[trigger] mask@[i] == mask_bit(groups@, selected_groups(groups@, expr@), len as int, i)),
{
    let tokens = parse_group_tokens(expr);
    let ghost tv = tokens@.map_values(|t: (bool, String)| (t.0, t.1@));
    if tokens.len() == 0 {
        return None;
    }
    let mut has_pos = false;
    let mut t: usize = 0;
    while t < tokens.len()
        invariant
            0 <= t <= tokens@.len(),
            tv == tokens@.map_values(|t: (bool, String)| (t.0, t.1@)),
            has_pos == exists|i: int| 0 <= i < t && (#[trigger] tv[i]).0,
        decreases tokens@.len() - t,
    {
        if tokens[t].0 {
            has_pos = true;
            assert(tv[t as int].0);
        }
        t = t + 1;
    }
    let entries = groups.entries();
    let mut selected: TextMap<()> = TextMap::new();
    if !has_pos {
        let mut k: usize = 0;
        while k < entries.len()
            invariant
                groups.wf(),
                entries@ == groups.entries_view(),
                0 <= k <= entries@.len(),
                selected.wf(),
                forall|n: Seq<char>| selected@.contains_key(n) <==> exists|j: int| 0 <= j < k && #[trigger] entries@[j].0@ == n,
            decreases entries@.len() - k,
        {
            let ghost before = selected@;
            selected.insert(entries[k].0.clone(), ());
            proof {
                assert forall|n: Seq<char>| selected@.contains_key(n) <==> exists|j: int| 0 <= j < k + 1 && #[trigger] entries@[j].0@ == n by {
                    if before.contains_key(n) {
                        let j = choose|j: int| 0 <= j < k && #[trigger] entries@[j].0@ == n;
                        assert(entries@[j].0@ == n);
                    }
                    if exists|j: int| 0 <= j < k + 1 && #[trigger] entries@[j].0@ == n {
                        let j = choose|j: int| 0 <= j < k + 1 && #[trigger] entries@[j].0@ == n;
                        if j < k {
                            assert(before.contains_key(n));
                        }
                    }
                }
            }
            k = k + 1;
        }
    }
    proof {
        lemma_entry_names(groups);
        assert(selected@.dom() =~= (if has_positive(tv) { Set::<Seq<char>>::empty() } else { groups@.dom() })) by {
            if has_positive(tv) {
                let i = choose|i: int| 0 <= i < tv.len() && (#[trigger] tv[i]).0;
                assert(has_pos);
            }
        }
        assert(select_names(groups@.dom(), tv.take(0), selected@.dom()) == selected@.dom()) by {
            assert(tv.take(0).len() == 0);
        }
    }
    let ghost start = selected@.dom();
    let mut t: usize = 0;
    while t < tokens.len()
        invariant
            groups.wf(),
            entries@ == groups.entries_view(),
            0 <= t <= tokens@.len(),
            tv == tokens@.map_values(|t: (bool, String)| (t.0, t.1@)),
            selected.wf(),
            selected@.dom() == select_names(groups@.dom(), tv.take(t as int), start),
        decreases tokens@.len() - t,
    {
        let adds = tokens[t].0;
        let pattern = tokens[t].1.as_str();
        let ghost prev = selected@.dom();
        let ghost matched = groups@.dom().filter(|n: Seq<char>| glob_text(pattern@, n));
        let mut k: usize = 0;
        while k < entries.len()
            invariant
                groups.wf(),
                entries@ == groups.entries_view(),
                0 <= k <= entries@.len(),
                selected.wf(),
                forall|n: Seq<char>| #[trigger] selected@.contains_key(n) <==> (if adds {
                    prev.contains(n) || exists|j: int| 0 <= j < k && #[trigger] entries@[j].0@ == n && glob_text(pattern@, n)
                } else {
                    prev.contains(n) && !exists|j: int| 0 <= j < k && #[trigger] entries@[j].0@ == n && glob_text(pattern@, n)
                }),
            decreases entries@.len() - k,
        {
            let name = &entries[k].0;
            if glob_match(pattern, name.as_str()) {
                if adds {
                    selected.insert(name.clone(), ());
                } else {
                    let _ = selected.remove(name.as_str());
                }
            }
            proof {
                let nk = entries@[k as int].0@;
                assert forall|n: Seq<char>| #[trigger] selected@.contains_key(n) <==> (if adds {
                    prev.contains(n) || exists|j: int| 0 <= j < k + 1 && #[trigger] entries@[j].0@ == n && glob_text(pattern@, n)
                } else {
                    prev.contains(n) && !exists|j: int| 0 <= j < k + 1 && #[trigger] entries@[j].0@ == n && glob_text(pattern@, n)
                }) by {
                    if exists|j: int| 0 <= j < k + 1 && #[trigger] entries@[j].0@ == n && glob_text(pattern@, n) {
                        let j = choose|j: int| 0 <= j < k + 1 && #[trigger] entries@[j].0@ == n && glob_text(pattern@, n);
                        if j < k {
                            assert(exists|j: int| 0 <= j < k && #[trigger] entries@[j].0@ == n && glob_text(pattern@, n));
                        }
                    }
                    if exists|j: int| 0 <= j < k && #[trigger] entries@[j].0@ == n && glob_text(pattern@, n) {
                        let j = choose|j: int| 0 <= j < k && #[trigger] entries@[j].0@ == n && glob_text(pattern@, n);
                        assert(entries@[j].0@ == n && 0 <= j < k + 1);
                    }
                }
            }
            k = k + 1;
        }
        proof {
            lemma_entry_names(groups);
            let tk = tv.take(t + 1);
            assert(tk.drop_last() =~= tv.take(t as int));
            assert(tk.last() == (adds, pattern@));
            assert forall|n: Seq<char>| #[trigger] matched.contains(n) <==> exists|j: int| 0 <= j < entries@.len() && #[trigger] entries@[j].0@ == n && glob_text(pattern@, n) by {}
            assert(selected@.dom() =~= select_names(groups@.dom(), tk, start));
        }
        t = t + 1;
    }
    assert(tv.take(tv.len() as int) =~= tv);
    let sel = selected.entries();
    let mut mask: Vec<bool> = Vec::new();
    let mut i: usize = 0;
    while i < len
        invariant
            0 <= i <= len,
            mask@.len() == i,
            forall|j: int| 0 <= j < i ==> !mask@[j],
        decreases len - i,
    {
        mask.push(false);
        i = i + 1;
    }
    let ghost sel_names = selected@.dom();
    let mut k: usize = 0;
    while k < sel.len()
        invariant
            groups.wf(),
            selected.wf(),
            sel@ == selected.entries_view(),
            sel_names == selected@.dom(),
            0 <= k <= sel@.len(),
            mask@.len() == len,
            forall|i: int| 0 <= i < len ==> #[trigger] mask@[i] == exists|j: int| 0 <= j < k && {
                let n = (#[trigger] sel@[j]).0@;
                groups@.contains_key(n) && groups@[n]@.len() == len && groups@[n]@[i]
            },
        decreases sel@.len() - k,
    {
        let ghost before = mask@;
        match groups.get(sel[k].0.as_str()) {
            Some(values) => {
                if values.len() == len {
                    let mut idx: usize = 0;
                    while idx < values.len()
                        invariant
                            0 <= idx <= values@.len(),
                            values@.len() == len,
                            mask@.len() == len,
                            forall|i: int| 0 <= i < len ==> #[trigger] mask@[i] == (before[i] || (i < idx && values@[i])),
                        decreases values@.len() - idx,
                    {
                        if values[idx] {
                            mask.set(idx, true);
                        }
                        idx = idx + 1;
                    }
                } else {
                    assert(mask@ =~= before);
                }
            },
            None => {
                assert(mask@ =~= before);
            },
        }
        proof {
            let nk = sel@[k as int].0@;
            assert forall|i: int| 0 <= i < len implies #[trigger] mask@[i] == exists|j: int| 0 <= j < k + 1 && {
                let n = (#[trigger] sel@[j]).0@;
                groups@.contains_key(n) && groups@[n]@.len() == len && groups@[n]@[i]
            } by {
                if exists|j: int| 0 <= j < k + 1 && {
                    let n = (#[trigger] sel@[j]).0@;
                    groups@.contains_key(n) && groups@[n]@.len() == len && groups@[n]@[i]
                } {
                    let j = choose|j: int| 0 <= j < k + 1 && {
                        let n = (#[trigger] sel@[j]).0@;
                        groups@.contains_key(n) && groups@[n]@.len() == len && groups@[n]@[i]
                    };
                    if j < k {
                        assert(before[i]);
                    }
                }
                if before[i] {
                    let j = choose|j: int| 0 <= j < k && {
                        let n = (#[trigger] sel@[j]).0@;
                        groups@.contains_key(n) && groups@[n]@.len() == len && groups@[n]@[i]
                    };
                    assert(0 <= j < k + 1);
                }
            }
        }
        k = k + 1;
    }
    proof {
        lemma_entry_names(&selected);
        assert forall|i: int| 0 <= i < len implies #[trigger] mask@[i] == mask_bit(groups@, selected_groups(groups@, expr@), len as int, i) by {
            if mask@[i] {
                let j = choose|j: int| 0 <= j < sel@.len() && {
                    let n = (#[trigger] sel@[j]).0@;
                    groups@.contains_key(n) && groups@[n]@.len() == len && groups@[n]@[i]
                };
                let n = sel@[j].0@;
                assert(sel_names.contains(n));
            }
            if mask_bit(groups@, selected_groups(groups@, expr@), len as int, i) {
                let n = choose|n: Seq<char>| #[trigger] sel_names.contains(n) && groups@.contains_key(n) && groups@[n]@.len() == len && groups@[n]@[i];
                let j = choose|j: int| 0 <= j < sel@.len() && #[trigger] sel@[j].0@ == n;
                assert(sel@[j].0@ == n);
            }
        }
    }
    Some(mask)
}

/// Whether a group expression names any group of `groups`: false without tokens;
/// with no including token, whether there is any group; otherwise whether an
/// including pattern matches some group name.
pub open spec fn expr_names_group(groups: TextMap<Vec<bool>>, expr: Seq<char>) -> bool {
    let tokens = group_tokens(expr);
    if tokens.len() == 0 {
        false
    } else if !has_positive(tokens) {
        groups.entries_view().len() > 0
    } else {
        exists|i: int, n: Seq<char>| 0 <= i < tokens.len() && (#[trigger] tokens[i]).0 && #[trigger] groups@.contains_key(n)
            && glob_text(tokens[i].1, n)
    }
}

/// Whether a group expression names any group of `groups`.
pub fn group_expr_matches(groups: &TextMap<Vec<bool>>, expr: &str) -> (r: bool)
    requires
        groups.wf(),
    ensures
        r == expr_names_group(*groups, expr@),
{
    let tokens = parse_group_tokens(expr);
    let ghost tv = tokens@.map_values(|t: (bool, String)| (t.0, t.1@));
    if tokens.len() == 0 {
        return false;
    }
    let entries = groups.entries();
    proof { lemma_entry_names(groups); }
    let mut any_positive = false;
    let mut found = false;
    let mut t: usize = 0;
    while t < tokens.len()
        invariant
            groups.wf(),
            entries@ == groups.entries_view(),
            0 <= t <= tokens@.len(),
            tv == tokens@.map_values(|t: (bool, String)| (t.0, t.1@)),
            any_positive == exists|i: int| 0 <= i < t && (#[trigger] tv[i]).0,
            found == exists|i: int, n: Seq<char>| 0 <= i < t && (#[trigger] tv[i]).0 && #[trigger] groups@.contains_key(n)
                && glob_text(tv[i].1, n),
        decreases tokens@.len() - t,
    {
        if tokens[t].0 {
            any_positive = true;
            assert(tv[t as int].0);
            let pattern = tokens[t].1.as_str();
            let mut k: usize = 0;
            while k < entries.len()
                invariant
                    groups.wf(),
                    entries@ == groups.entries_view(),
                    0 <= k <= entries@.len(),
                    tv[t as int].1 == pattern@,
                    tv[t as int].0,
                    t < tv.len(),
                    found ==> exists|i: int, n: Seq<char>| 0 <= i < t + 1 && (#[trigger] tv[i]).0 && #[trigger] groups@.contains_key(n)
                        && glob_text(tv[i].1, n),
                    !found ==> (!exists|i: int, n: Seq<char>| 0 <= i < t && (#[trigger] tv[i]).0 && #[trigger] groups@.contains_key(n)
                        && glob_text(tv[i].1, n)) && forall|j: int| 0 <= j < k ==> !glob_text(pattern@, #[trigger] entries@[j].0@),
                decreases entries@.len() - k,
            {
                if glob_match(pattern, entries[k].0.as_str()) {
                    proof {
                        lemma_entry_in_map(entries@, k as int);
                        assert(groups@.contains_key(entries@[k as int].0@));
                    }
                    found = true;
                }
                k = k + 1;
            }
            proof {
                if !found {
                    assert forall|i: int, n: Seq<char>| 0 <= i < t + 1 && (#[trigger] tv[i]).0 && #[trigger] groups@.contains_key(n)
                        implies !glob_text(tv[i].1, n) by {
                        if i == t {
                            let j = choose|j: int| 0 <= j < entries@.len() && #[trigger] entries@[j].0@ == n;
                            assert(!glob_text(pattern@, entries@[j].0@));
                        }
                    }
                }
            }
        }
        t = t + 1;
    }
    assert(tv.take(tv.len() as int) =~= tv);
    if !any_positive {
        proof {
            assert(!has_positive(tv));
        }
        return groups.len() > 0;
    }
    found
}

} // verus!
