//! A map from names to values, the shape in which node parameters and
//! element groups are kept.

use vstd::prelude::*;
use crate::text::{chars_of, chars_eq};
use crate::text_order::{chars_lt, lex_lt, lemma_lex_total, lemma_lex_transitive, texts_increasing};

verus! {

/// Entries keyed by name; no name occurs twice.
#[derive(Debug)]
pub struct TextMap<V> {
    entries: Vec<(String, V)>,
}

/// The names of a sequence of entries.
pub open spec fn entry_names<V>(entries: Seq<(String, V)>) -> Seq<Seq<char>> {
    entries.map_values(|e: (String, V)| e.0@)
}

/// No name occurs twice among the entries.
pub open spec fn names_unique<V>(entries: Seq<(String, V)>) -> bool {
    forall|i: int, j: int|
        0 <= i < entries.len() && 0 <= j < entries.len() && i != j ==> entries[i].0@ != entries[j].0@
}

/// The map that a sequence of entries with distinct names stands for.
pub open spec fn entries_map<V>(entries: Seq<(String, V)>) -> Map<Seq<char>, V> {
    Map::new(
        |k: Seq<char>| exists|i: int| 0 <= i < entries.len() && entries[i].0@ == k,
        |k: Seq<char>| entries[choose|i: int| 0 <= i < entries.len() && entries[i].0@ == k].1,
    )
}

impl<V> TextMap<V> {
    /// The entries, in the order in which their names were first inserted.
    pub closed spec fn entries_view(&self) -> Seq<(String, V)> {
        self.entries@
    }

    /// The names map to their values; no name occurs twice.
    pub open spec fn wf(&self) -> bool {
        names_unique(self.entries_view())
    }

    /// The contents as a map from names to values.
    pub open spec fn view(&self) -> Map<Seq<char>, V> {
        entries_map(self.entries_view())
    }

    /// An empty map.
    pub fn new() -> (r: Self)
        ensures
            r.wf(),
            r.entries_view() == Seq::<(String, V)>::empty(),
            r@ == Map::<Seq<char>, V>::empty(),
    {
        let r = TextMap { entries: Vec::new() };
        assert(r@ =~= Map::<Seq<char>, V>::empty());
        r
    }

    /// Number of entries.
    pub fn len(&self) -> (r: usize)
        ensures
            r == self.entries_view().len(),
    {
        self.entries.len()
    }

    /// Whether the map has no entry.
    pub fn is_empty(&self) -> (r: bool)
        ensures
            r == (self.entries_view().len() == 0),
    {
        self.entries.len() == 0
    }

    /// All entries, in insertion order.
    pub fn entries(&self) -> (r: &[(String, V)])
        ensures
            r@ == self.entries_view(),
    {
        self.entries.as_slice()
    }

    /// The position of the entry named `key`, if there is one.
    pub fn position(&self, key: &str) -> (r: Option<usize>)
        requires
            self.wf(),
        ensures
            match r {
                Some(i) => i < self.entries_view().len() && self.entries_view()[i as int].0@ == key@,
                None => !self@.contains_key(key@),
            },
    {
        let k = chars_of(key);
        let mut i: usize = 0;
        while i < self.entries.len()
            invariant
                0 <= i <= self.entries@.len(),
                k@ == key@,
                forall|j: int| 0 <= j < i ==> self.entries@[j].0@ != key@,
            decreases self.entries@.len() - i,
        {
            let name = chars_of(self.entries[i].0.as_str());
            if chars_eq(name.as_slice(), k.as_slice()) {
                return Some(i);
            }
            i = i + 1;
        }
        None
    }

    /// Whether an entry is named `key`.
    pub fn contains_key(&self, key: &str) -> (r: bool)
        requires
            self.wf(),
        ensures
            r == self@.contains_key(key@),
    {
        match self.position(key) {
            Some(i) => {
                proof { lemma_entry_in_map(self.entries_view(), i as int); }
                true
            },
            None => false,
        }
    }

    /// The value named `key`, if there is one.
    pub fn get(&self, key: &str) -> (r: Option<&V>)
        requires
            self.wf(),
        ensures
            match r {
                Some(v) => self@.contains_key(key@) && self@[key@] == *v,
                None => !self@.contains_key(key@),
            },
    {
        match self.position(key) {
            Some(i) => {
                proof { lemma_entry_in_map(self.entries_view(), i as int); }
                Some(&self.entries[i].1)
            },
            None => None,
        }
    }

    /// Stores `value` under `key`, replacing an earlier value of that name in place
    /// or appending a new entry.
    pub fn insert(&mut self, key: String, value: V)
        requires
            old(self).wf(),
        ensures
            final(self).wf(),
            final(self)@ == old(self)@.insert(key@, value),
            old(self)@.contains_key(key@) ==> final(self).entries_view().len() == old(self).entries_view().len(),
            !old(self)@.contains_key(key@) ==> final(self).entries_view() == old(self).entries_view().push((key, value)),
    {
        let ghost old_entries = self.entries@;
        match self.position(key.as_str()) {
            Some(i) => {
                proof { lemma_entry_in_map(old_entries, i as int); }
                self.entries.set(i, (key, value));
                proof {
                    lemma_map_after_set(old_entries, i as int, self.entries@[i as int]);
                }
            },
            None => {
                self.entries.push((key, value));
                proof {
                    lemma_map_after_push(old_entries, self.entries@.last());
                }
            },
        }
    }

    /// Stores `value` under `key` in a map whose names increase: an earlier value of
    /// that name is replaced in place, a new name goes where the order puts it.
    pub fn insert_in_order(&mut self, key: String, value: V)
        requires
            old(self).wf(),
            texts_increasing(entry_names(old(self).entries_view())),
        ensures
            final(self).wf(),
            texts_increasing(entry_names(final(self).entries_view())),
            final(self)@ == old(self)@.insert(key@, value),
    {
        let ghost old_entries = self.entries@;
        match self.position(key.as_str()) {
            Some(i) => {
                proof { lemma_entry_in_map(old_entries, i as int); }
                self.entries.set(i, (key, value));
                proof {
                    lemma_map_after_set(old_entries, i as int, self.entries@[i as int]);
                    assert(entry_names(self.entries@) =~= entry_names(old_entries));
                }
            },
            None => {
                let kc = chars_of(key.as_str());
                let mut pos: usize = 0;
                let mut stop = false;
                while pos < self.entries.len() && !stop
                    invariant
                        self.entries@ == old_entries,
                        names_unique(old_entries),
                        texts_increasing(entry_names(old_entries)),
                        kc@ == key@,
                        !entries_map(old_entries).contains_key(key@),
                        0 <= pos <= old_entries.len(),
                        forall|m: int| 0 <= m < pos ==> lex_lt(old_entries[m].0@, key@),
                        stop ==> pos < old_entries.len() && lex_lt(key@, old_entries[pos as int].0@),
                    decreases old_entries.len() - pos, if stop { 0int } else { 1int },
                {
                    let name = chars_of(self.entries[pos].0.as_str());
                    if chars_lt(name.as_slice(), kc.as_slice()) {
                        pos = pos + 1;
                    } else {
                        proof {
                            assert(old_entries[pos as int].0@ != key@) by {
                                lemma_entry_in_map(old_entries, pos as int);
                            }
                            lemma_lex_total(name@, kc@);
                        }
                        stop = true;
                    }
                }
                let ghost e = (key, value);
                self.entries.insert(pos, (key, value));
                proof {
                    let n = self.entries@;
                    assert(n == old_entries.insert(pos as int, n[pos as int]));
                    lemma_map_after_insert(old_entries, pos as int, n[pos as int]);
                    let names = entry_names(n);
                    let before = entry_names(old_entries);
                    assert forall|a: int, b: int| 0 <= a < b < names.len() implies lex_lt(names[a], names[b]) by {
                        assert(names[a] == n[a].0@);
                        assert(names[b] == n[b].0@);
                        if b < pos {
                            assert(lex_lt(before[a], before[b]));
                        } else if a > pos {
                            assert(lex_lt(before[a - 1], before[b - 1]));
                        } else if a == pos {
                            if b - 1 > pos {
                                assert(lex_lt(before[pos as int], before[b - 1]));
                                lemma_lex_transitive(key@, before[pos as int], before[b - 1]);
                            }
                        } else if b == pos {
                        } else {
                            if b - 1 > pos {
                                assert(lex_lt(before[pos as int], before[b - 1]));
                                lemma_lex_transitive(key@, before[pos as int], before[b - 1]);
                            }
                            lemma_lex_transitive(before[a], key@, before[b - 1]);
                        }
                    }
                }
            },
        }
    }

    /// Removes the entry named `key` and hands back its value.
    pub fn remove(&mut self, key: &str) -> (r: Option<V>)
        requires
            old(self).wf(),
        ensures
            final(self).wf(),
            final(self)@ == old(self)@.remove(key@),
            match r {
                Some(v) => old(self)@.contains_key(key@) && old(self)@[key@] == v,
                None => !old(self)@.contains_key(key@),
            },
    {
        let ghost old_entries = self.entries@;
        match self.position(key) {
            Some(i) => {
                proof { lemma_entry_in_map(old_entries, i as int); }
                let (_, v) = self.entries.remove(i);
                proof { lemma_map_after_remove(old_entries, i as int); }
                Some(v)
            },
            None => {
                assert(old_entries.len() == self.entries@.len());
                assert(self@ =~= old(self)@.remove(key@));
                None
            },
        }
    }
}

/// The entry at position `i` is what the map holds under its name.
pub proof fn lemma_entry_in_map<V>(entries: Seq<(String, V)>, i: int)
    requires
        names_unique(entries),
        0 <= i < entries.len(),
    ensures
        entries_map(entries).contains_key(entries[i].0@),
        entries_map(entries)[entries[i].0@] == entries[i].1,
{
    let k = entries[i].0@;
    assert(exists|j: int| 0 <= j < entries.len() && entries[j].0@ == k);
    let j = choose|j: int| 0 <= j < entries.len() && entries[j].0@ == k;
    assert(j == i);
}

proof fn lemma_map_after_set<V>(entries: Seq<(String, V)>, i: int, e: (String, V))
    requires
        names_unique(entries),
        0 <= i < entries.len(),
        e.0@ == entries[i].0@,
    ensures
        names_unique(entries.update(i, e)),
        entries_map(entries.update(i, e)) == entries_map(entries).insert(e.0@, e.1),
{
    let n = entries.update(i, e);
    assert(names_unique(n));
    assert forall|k: Seq<char>| #![auto] entries_map(n).contains_key(k) implies
        entries_map(n)[k] == entries_map(entries).insert(e.0@, e.1)[k] by {
        let j = choose|j: int| 0 <= j < n.len() && n[j].0@ == k;
        lemma_entry_in_map(n, j);
        if j != i {
            lemma_entry_in_map(entries, j);
        }
    }
    assert forall|k: Seq<char>| #![auto] entries_map(entries).insert(e.0@, e.1).contains_key(k) implies
        entries_map(n).contains_key(k) by {
        if k != e.0@ {
            let j = choose|j: int| 0 <= j < entries.len() && entries[j].0@ == k;
            assert(n[j].0@ == k);
        } else {
            assert(n[i].0@ == k);
        }
    }
    assert(entries_map(n) =~= entries_map(entries).insert(e.0@, e.1));
}

/// Appending an entry under a new name adds that name to the map.
pub proof fn lemma_map_after_push<V>(entries: Seq<(String, V)>, e: (String, V))
    requires
        names_unique(entries),
        !entries_map(entries).contains_key(e.0@),
    ensures
        names_unique(entries.push(e)),
        entries_map(entries.push(e)) == entries_map(entries).insert(e.0@, e.1),
{
    let n = entries.push(e);
    assert forall|i: int, j: int|
        0 <= i < n.len() && 0 <= j < n.len() && i != j implies n[i].0@ != n[j].0@ by {
        if i == entries.len() as int {
            assert(entries[j].0@ == n[j].0@);
        } else if j == entries.len() as int {
            assert(entries[i].0@ == n[i].0@);
        }
    }
    assert forall|k: Seq<char>| #![auto] entries_map(n).contains_key(k) implies
        entries_map(n)[k] == entries_map(entries).insert(e.0@, e.1)[k] by {
        let j = choose|j: int| 0 <= j < n.len() && n[j].0@ == k;
        lemma_entry_in_map(n, j);
        if j < entries.len() {
            lemma_entry_in_map(entries, j);
        }
    }
    assert forall|k: Seq<char>| #![auto] entries_map(entries).insert(e.0@, e.1).contains_key(k) implies
        entries_map(n).contains_key(k) by {
        if k != e.0@ {
            let j = choose|j: int| 0 <= j < entries.len() && entries[j].0@ == k;
            assert(n[j].0@ == k);
        } else {
            assert(n[entries.len() as int].0@ == k);
        }
    }
    assert(entries_map(n) =~= entries_map(entries).insert(e.0@, e.1));
}

proof fn lemma_map_after_remove<V>(entries: Seq<(String, V)>, i: int)
    requires
        names_unique(entries),
        0 <= i < entries.len(),
    ensures
        names_unique(entries.remove(i)),
        entries_map(entries.remove(i)) == entries_map(entries).remove(entries[i].0@),
{
    let n = entries.remove(i);
    let key = entries[i].0@;
    assert forall|a: int, b: int|
        0 <= a < n.len() && 0 <= b < n.len() && a != b implies n[a].0@ != n[b].0@ by {
        let a2 = if a < i { a } else { a + 1 };
        let b2 = if b < i { b } else { b + 1 };
        assert(n[a] == entries[a2]);
        assert(n[b] == entries[b2]);
    }
    assert forall|k: Seq<char>| #![auto] entries_map(n).contains_key(k) implies
        entries_map(entries).remove(key).contains_key(k)
        && entries_map(n)[k] == entries_map(entries).remove(key)[k] by {
        let j = choose|j: int| 0 <= j < n.len() && n[j].0@ == k;
        lemma_entry_in_map(n, j);
        let j2 = if j < i { j } else { j + 1 };
        assert(n[j] == entries[j2]);
        lemma_entry_in_map(entries, j2);
    }
    assert forall|k: Seq<char>| #![auto] entries_map(entries).remove(key).contains_key(k) implies
        entries_map(n).contains_key(k) by {
        let j = choose|j: int| 0 <= j < entries.len() && entries[j].0@ == k;
        assert(j != i);
        let j2 = if j < i { j } else { j - 1 };
        assert(n[j2] == entries[j]);
    }
    assert(entries_map(n) =~= entries_map(entries).remove(key));
}

proof fn lemma_map_after_insert<V>(entries: Seq<(String, V)>, pos: int, e: (String, V))
    requires
        names_unique(entries),
        0 <= pos <= entries.len(),
        !entries_map(entries).contains_key(e.0@),
    ensures
        names_unique(entries.insert(pos, e)),
        entries_map(entries.insert(pos, e)) == entries_map(entries).insert(e.0@, e.1),
{
    let n = entries.insert(pos, e);
    assert forall|i: int, j: int|
        0 <= i < n.len() && 0 <= j < n.len() && i != j implies n[i].0@ != n[j].0@ by {
        let i2 = if i < pos { i } else { i - 1 };
        let j2 = if j < pos { j } else { j - 1 };
        if i == pos {
            assert(n[j] == entries[j2]);
            assert(entries[j2].0@ != e.0@);
        } else if j == pos {
            assert(n[i] == entries[i2]);
            assert(entries[i2].0@ != e.0@);
        } else {
            assert(n[i] == entries[i2]);
            assert(n[j] == entries[j2]);
        }
    }
    assert forall|k: Seq<char>| #![auto] entries_map(n).contains_key(k) implies
        entries_map(entries).insert(e.0@, e.1).contains_key(k) && entries_map(n)[k] == entries_map(entries).insert(e.0@, e.1)[k] by {
        let j = choose|j: int| 0 <= j < n.len() && n[j].0@ == k;
        lemma_entry_in_map(n, j);
        if j != pos {
            let j2 = if j < pos { j } else { j - 1 };
            assert(n[j] == entries[j2]);
            lemma_entry_in_map(entries, j2);
        }
    }
    assert forall|k: Seq<char>| #![auto] entries_map(entries).insert(e.0@, e.1).contains_key(k) implies
        entries_map(n).contains_key(k) by {
        if k != e.0@ {
            let j = choose|j: int| 0 <= j < entries.len() && entries[j].0@ == k;
            let j2 = if j < pos { j } else { j + 1 };
            assert(n[j2] == entries[j]);
        } else {
            assert(n[pos].0@ == k);
        }
    }
    assert(entries_map(n) =~= entries_map(entries).insert(e.0@, e.1));
}

} // verus!
