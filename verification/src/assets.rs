//! In-memory byte stores with least-recently-used eviction, and the naming of
//! stored assets.

use vstd::prelude::*;
use crate::text::{text_eq, owned, chars_of, trim_chars, trimmed, char_ascii_lower, ascii_lower, has_prefix,
    chars_start_with, string_from_chars};

verus! {

/// One stored blob, with the tick of its last use.
#[derive(Debug)]
pub struct ByteCacheEntry {
    pub key: String,
    pub data: Vec<u8>,
    pub last_access: usize,
}

/// What an entry amounts to: its key, its bytes and the tick of its last use.
pub type CacheItem = (Seq<char>, Seq<u8>, usize);

/// A byte store. Entries are kept in no particular order; `clock` is the tick the
/// next use will get.
#[derive(Debug)]
pub struct ByteCacheState {
    entries: Vec<ByteCacheEntry>,
    total_bytes: usize,
    clock: usize,
}

/// The total size of the items.
pub open spec fn bytes_sum(items: Seq<CacheItem>) -> int
    decreases items.len(),
{
    if items.len() == 0 {
        0
    } else {
        bytes_sum(items.drop_last()) + items.last().1.len()
    }
}

/// Whether the store is over one of its limits while holding more than one item.
pub open spec fn over_limit(items: Seq<CacheItem>, max_entries: int, max_bytes: int) -> bool {
    (items.len() > max_entries || bytes_sum(items) > max_bytes) && items.len() > 1
}

/// Item `i` may be evicted: it is not the protected key.
pub open spec fn evictable(item: CacheItem, protected: Option<Seq<char>>) -> bool {
    protected != Some(item.0)
}

/// Item `i` is the least recently used of the evictable items.
pub open spec fn is_oldest(items: Seq<CacheItem>, i: int, protected: Option<Seq<char>>) -> bool {
    &&& 0 <= i < items.len()
    &&& evictable(items[i], protected)
    &&& forall|j: int| 0 <= j < items.len() && evictable(#[trigger] items[j], protected) ==> items[i].2 <= items[j].2
}

/// The items left after evicting the least recently used evictable item for as long
/// as the store is over a limit and has an evictable item.
pub open spec fn after_trim(items: Seq<CacheItem>, max_entries: int, max_bytes: int, protected: Option<Seq<char>>) -> Seq<CacheItem>
    decreases items.len(),
{
    if over_limit(items, max_entries, max_bytes) && exists|i: int| is_oldest(items, i, protected) {
        let i = choose|i: int| is_oldest(items, i, protected);
        after_trim(items.remove(i), max_entries, max_bytes, protected)
    } else {
        items
    }
}

/// The items without the one whose key is `key`.
pub open spec fn without_key(items: Seq<CacheItem>, key: Seq<char>) -> Seq<CacheItem> {
    items.filter(key_differs(key))
}

/// An item's key differs from `key`.
pub open spec fn key_differs(key: Seq<char>) -> spec_fn(CacheItem) -> bool {
    |it: CacheItem| it.0 != key
}

/// Whether some item has key `key`.
pub open spec fn has_key(items: Seq<CacheItem>, key: Seq<char>) -> bool {
    exists|i: int| 0 <= i < items.len() && (#[trigger] items[i]).0 == key
}

impl ByteCacheState {
    /// The items of the store.
    pub closed spec fn items(&self) -> Seq<CacheItem> {
        self.entries@.map_values(|e: ByteCacheEntry| (e.key@, e.data@, e.last_access))
    }

    /// The tick the next use will get.
    pub closed spec fn clock_view(&self) -> usize {
        self.clock
    }

    /// The recorded total size.
    pub closed spec fn total_view(&self) -> usize {
        self.total_bytes
    }

    /// Keys are distinct, so are ticks, every tick is below the clock, and the total
    /// size is the sum of the item sizes.
    pub open spec fn wf(&self) -> bool {
        let items = self.items();
        &&& forall|i: int, j: int| 0 <= i < items.len() && 0 <= j < items.len() && i != j ==> (#[trigger] items[i]).0
            != (#[trigger] items[j]).0 && items[i].2 != items[j].2
        &&& forall|i: int| 0 <= i < items.len() ==> (#[trigger] items[i]).2 < self.clock_view()
        &&& self.total_view() == bytes_sum(items)
    }

    /// An empty store.
    pub fn new() -> (r: Self)
        ensures
            r.wf(),
            r.items().len() == 0,
            r.clock_view() == 1,
    {
        let r = ByteCacheState { entries: Vec::new(), total_bytes: 0, clock: 1 };
        assert(r.items() =~= Seq::<CacheItem>::empty());
        r
    }

    /// Number of stored items.
    pub fn len(&self) -> (r: usize)
        ensures
            r == self.items().len(),
    {
        self.entries.len()
    }

    /// Total size of the stored items.
    pub fn total_bytes(&self) -> (r: usize)
        ensures
            r == self.total_view(),
    {
        self.total_bytes
    }

    /// Whether the clock leaves room for one more use.
    pub fn has_tick_room(&self) -> (r: bool)
        ensures
            r == (self.clock_view() < usize::MAX),
    {
        self.clock < usize::MAX
    }

    fn find(&self, key: &str) -> (r: Option<usize>)
        ensures
            match r {
                Some(i) => i < self.items().len() && self.items()[i as int].0 == key@,
                None => !has_key(self.items(), key@),
            },
    {
        let mut i: usize = 0;
        while i < self.entries.len()
            invariant
                0 <= i <= self.entries@.len(),
                forall|j: int| 0 <= j < i ==> self.items()[j].0 != key@,
            decreases self.entries@.len() - i,
        {
            if text_eq(self.entries[i].key.as_str(), key) {
                return Some(i);
            }
            i = i + 1;
        }
        None
    }

    /// Whether an item has key `key`.
    pub fn contains_key(&self, key: &str) -> (r: bool)
        ensures
            r == has_key(self.items(), key@),
    {
        self.find(key).is_some()
    }
}

impl Default for ByteCacheState {
    fn default() -> (r: Self)
        ensures
            r.wf(),
            r.items().len() == 0,
            r.clock_view() == 1,
    {
        ByteCacheState::new()
    }
}

proof fn lemma_bytes_sum_remove(items: Seq<CacheItem>, i: int)
    requires
        0 <= i < items.len(),
    ensures
        bytes_sum(items.remove(i)) == bytes_sum(items) - items[i].1.len(),
    decreases items.len(),
{
    if i < items.len() - 1 {
        lemma_bytes_sum_remove(items.drop_last(), i);
        assert(items.remove(i).drop_last() =~= items.drop_last().remove(i));
        assert(items.remove(i).last() == items.last());
    } else {
        assert(items.remove(i) =~= items.drop_last());
    }
}

proof fn lemma_bytes_sum_nonneg(items: Seq<CacheItem>)
    ensures
        bytes_sum(items) >= 0,
        forall|i: int| 0 <= i < items.len() ==> (#[trigger] items[i]).1.len() <= bytes_sum(items),
    decreases items.len(),
{
    if items.len() > 0 {
        lemma_bytes_sum_nonneg(items.drop_last());
        assert forall|i: int| 0 <= i < items.len() implies (#[trigger] items[i]).1.len() <= bytes_sum(items) by {
            if i < items.len() - 1 {
                assert(items.drop_last()[i] == items[i]);
            }
        }
    }
}

/// Trimming never evicts the protected key, and leaves the store within its limits
/// unless only the protected item could be evicted or one item is left.
pub proof fn lemma_after_trim(items: Seq<CacheItem>, max_entries: int, max_bytes: int, protected: Option<Seq<char>>)
    ensures
        forall|k: int| 0 <= k < items.len() && !evictable(items[k], protected) ==> #[trigger] after_trim(items, max_entries,
            max_bytes, protected).contains(items[k]),
        forall|x: CacheItem| #[trigger] after_trim(items, max_entries, max_bytes, protected).contains(x) ==> items.contains(x),
        !over_limit(after_trim(items, max_entries, max_bytes, protected), max_entries, max_bytes)
            || forall|j: int| 0 <= j < after_trim(items, max_entries, max_bytes, protected).len() ==> !evictable(
            #[trigger] after_trim(items, max_entries, max_bytes, protected)[j],
            protected,
        ),
    decreases items.len(),
{
    let t = after_trim(items, max_entries, max_bytes, protected);
    if over_limit(items, max_entries, max_bytes) && exists|i: int| is_oldest(items, i, protected) {
        let i = choose|i: int| is_oldest(items, i, protected);
        let r = items.remove(i);
        lemma_after_trim(r, max_entries, max_bytes, protected);
        assert forall|k: int| 0 <= k < items.len() && !evictable(items[k], protected) implies #[trigger] t.contains(items[k]) by {
            let k2 = if k < i { k } else { k - 1 };
            assert(k != i);
            assert(r[k2] == items[k]);
        }
        assert forall|x: CacheItem| #[trigger] t.contains(x) implies items.contains(x) by {
            let k = choose|k: int| 0 <= k < r.len() && r[k] == x;
            let k2 = if k < i { k } else { k + 1 };
            assert(items[k2] == x);
        }
    } else {
        if over_limit(items, max_entries, max_bytes) {
            assert forall|j: int| 0 <= j < items.len() implies !evictable(#[trigger] items[j], protected) by {
                if evictable(items[j], protected) {
                    let m = min_evictable(items, protected, j);
                    assert(is_oldest(items, m, protected));
                }
            }
        }
    }
}

/// Some evictable item has the least tick among the evictable items, when `j` is evictable.
proof fn min_evictable(items: Seq<CacheItem>, protected: Option<Seq<char>>, j: int) -> (m: int)
    requires
        0 <= j < items.len(),
        evictable(items[j], protected),
    ensures
        is_oldest(items, m, protected),
    decreases items.len(),
{
    if items.len() == 1 {
        assert forall|k: int| 0 <= k < items.len() && evictable(#[trigger] items[k], protected) implies items[j].2 <= items[k].2 by {
            assert(k == j);
        }
        j
    } else {
        let last = items.len() - 1;
        let d = items.drop_last();
        assert forall|k: int| 0 <= k < d.len() implies #[trigger] d[k] == items[k] by {}
        if j == last {
            if exists|k: int| 0 <= k < d.len() && evictable(#[trigger] d[k], protected) {
                let k = choose|k: int| 0 <= k < d.len() && evictable(#[trigger] d[k], protected);
                let m = min_evictable(d, protected, k);
                if d[m].2 <= items[last].2 {
                    assert forall|q: int| 0 <= q < items.len() && evictable(#[trigger] items[q], protected) implies items[m].2 <= items[q].2 by {
                        if q < last {
                            assert(evictable(d[q], protected));
                        }
                    }
                    m
                } else {
                    assert forall|q: int| 0 <= q < items.len() && evictable(#[trigger] items[q], protected) implies items[last].2 <= items[q].2 by {
                        if q < last {
                            assert(evictable(d[q], protected));
                        }
                    }
                    last
                }
            } else {
                assert forall|q: int| 0 <= q < items.len() && evictable(#[trigger] items[q], protected) implies items[last].2 <= items[q].2 by {
                    if q < last {
                        assert(evictable(d[q], protected));
                    }
                }
                last
            }
        } else {
            assert(evictable(d[j], protected));
            let m = min_evictable(d, protected, j);
            if evictable(items[last], protected) && items[last].2 < d[m].2 {
                assert forall|q: int| 0 <= q < items.len() && evictable(#[trigger] items[q], protected) implies items[last].2 <= items[q].2 by {
                    if q < last {
                        assert(evictable(d[q], protected));
                    }
                }
                last
            } else {
                assert forall|q: int| 0 <= q < items.len() && evictable(#[trigger] items[q], protected) implies items[m].2 <= items[q].2 by {
                    if q < last {
                        assert(evictable(d[q], protected));
                    }
                }
                m
            }
        }
    }
}

/// What a trim leaves: only items the store held before; the protected item, where
/// the store held it; a recorded total equal to the size of the items kept; and a
/// store within both limits unless at most one item is left.
pub proof fn law_trim_result(before: ByteCacheState, after: ByteCacheState, max_entries: int, max_bytes: int,
    protected: Option<Seq<char>>)
    requires
        before.wf(),
        after.wf(),
        after.items() == after_trim(before.items(), max_entries, max_bytes, protected),
    ensures
        forall|x: CacheItem| #[trigger] after.items().contains(x) ==> before.items().contains(x),
        forall|k: int| 0 <= k < before.items().len() && protected == Some(before.items()[k].0)
            ==> #[trigger] after.items().contains(before.items()[k]),
        after.total_view() == bytes_sum(after.items()),
        (after.items().len() <= max_entries && bytes_sum(after.items()) <= max_bytes) || after.items().len() <= 1,
{
    let items = before.items();
    lemma_after_trim(items, max_entries, max_bytes, protected);
    let t = after.items();
    assert forall|k: int| 0 <= k < items.len() && protected == Some(items[k].0) implies #[trigger] t.contains(items[k]) by {
        assert(!evictable(items[k], protected));
    }
    if over_limit(t, max_entries, max_bytes) {
        assert(!evictable(t[0], protected));
        assert(!evictable(t[1], protected));
        assert(t[0].0 != t[1].0);
    }
}

/// Removes the least recently used items, other than `protected`, for as long as
/// the store holds more than `max_entries` items or more than `max_bytes` bytes and
/// more than one item.
pub fn trim_cached_bytes(state: &mut ByteCacheState, max_entries: usize, max_bytes: usize, protected: Option<&str>)
    requires
        old(state).wf(),
    ensures
        final(state).wf(),
        final(state).clock_view() == old(state).clock_view(),
        final(state).items() == after_trim(old(state).items(), max_entries as int, max_bytes as int, match protected {
            Some(p) => Some(p@),
            None => None,
        }),
{
    let ghost prot: Option<Seq<char>> = match protected {
        Some(p) => Some(p@),
        None => None,
    };
    let ghost goal = after_trim(state.items(), max_entries as int, max_bytes as int, prot);
    loop
        invariant
            state.wf(),
            state.clock_view() == old(state).clock_view(),
            after_trim(state.items(), max_entries as int, max_bytes as int, prot) == goal,
            prot == (match protected {
                Some(p) => Some(p@),
                None => None::<Seq<char>>,
            }),
        ensures
            state.items() == goal,
        decreases state.entries@.len(),
    {
        let ghost items = state.items();
        if !((state.entries.len() > max_entries || state.total_bytes > max_bytes) && state.entries.len() > 1) {
            assert(!over_limit(state.items(), max_entries as int, max_bytes as int));
            break;
        }
        let mut best: Option<usize> = None;
        let mut i: usize = 0;
        while i < state.entries.len()
            invariant
                0 <= i <= state.entries@.len(),
                state.items() == items,
                state.wf(),
                prot == (match protected {
                    Some(p) => Some(p@),
                    None => None::<Seq<char>>,
                }),
                match best {
                    Some(b) => b < i && evictable(items[b as int], prot) && forall|j: int| 0 <= j < i && evictable(#[trigger] items[j], prot)
                        ==> items[b as int].2 <= items[j].2,
                    None => forall|j: int| 0 <= j < i ==> !evictable(#[trigger] items[j], prot),
                },
            decreases state.entries@.len() - i,
        {
            let is_protected = match protected {
                Some(p) => text_eq(state.entries[i].key.as_str(), p),
                None => false,
            };
            assert(items[i as int].0 == state.entries@[i as int].key@);
            if !is_protected {
                best = match best {
                    Some(b) => if state.entries[i].last_access < state.entries[b].last_access { Some(i) } else { Some(b) },
                    None => Some(i),
                };
            }
            i = i + 1;
        }
        let b = match best {
            Some(b) => b,
            None => {
                proof {
                    assert(!exists|k: int| is_oldest(items, k, prot));
                }
                break;
            },
        };
        proof {
            assert(is_oldest(items, b as int, prot));
            let c = choose|k: int| is_oldest(items, k, prot);
            if c != b {
                assert(items[c].2 <= items[b as int].2);
                assert(items[b as int].2 <= items[c].2);
            }
            assert(c == b);
            lemma_bytes_sum_nonneg(items);
            lemma_bytes_sum_remove(items, b as int);
        }
        let old_entry = state.entries.remove(b);
        state.total_bytes = state.total_bytes.saturating_sub(old_entry.data.len());
        proof {
            assert(state.items() =~= items.remove(b as int));
            let s = state.items();
            assert forall|i: int, j: int| 0 <= i < s.len() && 0 <= j < s.len() && i != j implies (#[trigger] s[i]).0
                != (#[trigger] s[j]).0 && s[i].2 != s[j].2 by {
                let i2 = if i < b { i } else { i + 1 };
                let j2 = if j < b { j } else { j + 1 };
                assert(s[i] == items[i2] && s[j] == items[j2]);
            }
            assert forall|i: int| 0 <= i < s.len() implies (#[trigger] s[i]).2 < state.clock_view() by {
                let i2 = if i < b { i } else { i + 1 };
                assert(s[i] == items[i2]);
            }
        }
    }
}

/// Stores `data` under `key`, replacing an item of that key, as the most recently
/// used item; then trims the store, never evicting `key` itself.
pub fn insert_cached_bytes(state: &mut ByteCacheState, key: String, data: Vec<u8>, max_entries: usize, max_bytes: usize)
    requires
        old(state).wf(),
        old(state).clock_view() < usize::MAX,
        old(state).total_view() + data@.len() <= usize::MAX,
    ensures
        final(state).wf(),
        final(state).clock_view() == old(state).clock_view() + 1,
        final(state).items() == after_trim(
            without_key(old(state).items(), key@).push((key@, data@, old(state).clock_view())),
            max_entries as int,
            max_bytes as int,
            Some(key@),
        ),
        final(state).items().contains((key@, data@, old(state).clock_view())),
{
    let ghost items0 = state.items();
    let last_access = state.clock;
    state.clock = state.clock + 1;
    let ghost pred = |it: CacheItem| it.0 != key@;
    match state.find(key.as_str()) {
        Some(i) => {
            proof {
                lemma_bytes_sum_nonneg(items0);
                lemma_bytes_sum_remove(items0, i as int);
                lemma_without_unique(items0, i as int, key@);
            }
            let old_entry = state.entries.remove(i);
            state.total_bytes = state.total_bytes.saturating_sub(old_entry.data.len());
            assert(state.items() =~= items0.remove(i as int));
        },
        None => {
            proof {
                lemma_without_absent(items0, key@);
            }
        },
    }
    let ghost items1 = state.items();
    assert(items1 == without_key(items0, key@));
    state.total_bytes = state.total_bytes.saturating_add(data.len());
    state.entries.push(ByteCacheEntry { key: owned(key.as_str()), data, last_access });
    proof {
        let s = state.items();
        assert(s =~= items1.push((key@, data@, last_access)));
        assert(bytes_sum(s) == bytes_sum(items1) + data@.len()) by {
            assert(s.drop_last() =~= items1);
        }
        lemma_without_props(items0, key@);
        assert forall|i: int, j: int| 0 <= i < s.len() && 0 <= j < s.len() && i != j implies (#[trigger] s[i]).0
            != (#[trigger] s[j]).0 && s[i].2 != s[j].2 by {
            if i < items1.len() && j < items1.len() {
                assert(s[i] == items1[i] && s[j] == items1[j]);
            } else if i < items1.len() {
                assert(s[i] == items1[i]);
            } else {
                assert(s[j] == items1[j]);
            }
        }
    }
    let k = key;
    trim_cached_bytes(state, max_entries, max_bytes, Some(k.as_str()));
    proof {
        let s = items1.push((k@, data@, last_access));
        lemma_after_trim(s, max_entries as int, max_bytes as int, Some(k@));
        assert(!evictable(s[s.len() - 1], Some(k@)));
    }
}

/// The items without key `key`, when `key` is at position `i` and keys are distinct.
proof fn lemma_without_unique(items: Seq<CacheItem>, i: int, key: Seq<char>)
    requires
        0 <= i < items.len(),
        items[i].0 == key,
        forall|a: int, b: int| 0 <= a < items.len() && 0 <= b < items.len() && a != b ==> (#[trigger] items[a]).0 != (#[trigger] items[b]).0,
    ensures
        without_key(items, key) == items.remove(i),
{
    let pred = key_differs(key);
    assert(items =~= items.take(i) + seq![items[i]] + items.skip(i + 1));
    lemma_filter_keeps(items.take(i), pred);
    lemma_filter_keeps(items.skip(i + 1), pred);
    Seq::<CacheItem>::filter_distributes_over_add(items.take(i) + seq![items[i]], items.skip(i + 1), pred);
    Seq::<CacheItem>::filter_distributes_over_add(items.take(i), seq![items[i]], pred);
    reveal_with_fuel(Seq::<CacheItem>::filter, 2);
    assert(seq![items[i]].filter(pred) =~= Seq::<CacheItem>::empty());
    assert(items.remove(i) =~= items.take(i) + items.skip(i + 1));
}

proof fn lemma_without_absent(items: Seq<CacheItem>, key: Seq<char>)
    requires
        !has_key(items, key),
    ensures
        without_key(items, key) == items,
{
    lemma_filter_keeps(items, key_differs(key));
}

/// What is left without key `key` has distinct keys and ticks, no item of that key, and
/// ticks below any bound the items had.
proof fn lemma_without_props(items: Seq<CacheItem>, key: Seq<char>)
    ensures
        forall|x: CacheItem| #[trigger] without_key(items, key).contains(x) ==> items.contains(x) && x.0 != key,
{
    assert forall|x: CacheItem| #[trigger] without_key(items, key).contains(x) implies items.contains(x) && x.0 != key by {
        let f = without_key(items, key);
        let k = choose|k: int| 0 <= k < f.len() && f[k] == x;
        items.lemma_filter_pred(key_differs(key), k);
        items.lemma_filter_contains_rev(key_differs(key), x);
    }
}

proof fn lemma_filter_keeps(s: Seq<CacheItem>, pred: spec_fn(CacheItem) -> bool)
    requires
        forall|k: int| 0 <= k < s.len() ==> pred(#[trigger] s[k]),
    ensures
        s.filter(pred) == s,
    decreases s.len(),
{
    reveal_with_fuel(Seq::<CacheItem>::filter, 1);
    if s.len() > 0 {
        lemma_filter_keeps(s.drop_last(), pred);
        assert(s.drop_last().push(s.last()) =~= s);
    }
}

/// A copy of the bytes stored under `key`, marking the item as the most recently used.
pub fn get_cached_bytes(state: &mut ByteCacheState, key: &str) -> (r: Option<Vec<u8>>)
    requires
        old(state).wf(),
        old(state).clock_view() < usize::MAX,
    ensures
        final(state).wf(),
        match r {
            Some(data) => exists|i: int| 0 <= i < old(state).items().len() && #[trigger] old(state).items()[i].0 == key@
                && data@ == old(state).items()[i].1 && final(state).items() == old(state).items().update(
                i,
                (key@, data@, old(state).clock_view()),
            ) && final(state).clock_view() == old(state).clock_view() + 1,
            None => !has_key(old(state).items(), key@) && *final(state) == *old(state),
        },
{
    match state.find(key) {
        Some(i) => {
            let ghost items0 = state.items();
            let tick = state.clock;
            state.clock = state.clock + 1;
            let mut entry = ByteCacheEntry { key: String::new(), data: Vec::new(), last_access: 0 };
            state.entries.set_and_swap(i, &mut entry);
            entry.last_access = tick;
            let data = entry.data.clone();
            state.entries.set_and_swap(i, &mut entry);
            proof {
                let s = state.items();
                assert(s =~= items0.update(i as int, (key@, data@, tick)));
                assert(bytes_sum(s) == bytes_sum(items0)) by {
                    lemma_bytes_sum_remove(items0, i as int);
                    lemma_bytes_sum_remove(s, i as int);
                    assert(s.remove(i as int) =~= items0.remove(i as int));
                }
                assert forall|a: int, b: int| 0 <= a < s.len() && 0 <= b < s.len() && a != b implies (#[trigger] s[a]).0
                    != (#[trigger] s[b]).0 && s[a].2 != s[b].2 by {
                    assert(items0[a].2 < tick && items0[b].2 < tick);
                }
            }
            Some(data)
        },
        None => None,
    }
}


/// Largest number of items of the asset store.
pub const MAX_ASSET_STORE_ENTRIES: usize = 256;

/// Largest total size of the asset store.
pub const MAX_ASSET_STORE_BYTES: usize = 256 * 1024 * 1024;

/// Largest number of items of the store of downloaded files.
pub const MAX_URL_STORE_ENTRIES: usize = 128;

/// Largest total size of the store of downloaded files.
pub const MAX_URL_STORE_BYTES: usize = 512 * 1024 * 1024;

/// A read that finds its key marks that item as the most recently used: its tick is
/// above the tick of every other item.
pub proof fn law_read_marks_most_recent(before: ByteCacheState, after: ByteCacheState, i: int, key: Seq<char>, data: Seq<u8>)
    requires
        before.wf(),
        0 <= i < before.items().len(),
        after.items() == before.items().update(i, (key, data, before.clock_view())),
    ensures
        forall|j: int| 0 <= j < after.items().len() && j != i ==> (#[trigger] after.items()[j]).2 < after.items()[i].2,
{
    assert forall|j: int| 0 <= j < after.items().len() && j != i implies (#[trigger] after.items()[j]).2 < after.items()[i].2 by {
        assert(after.items()[j] == before.items()[j]);
    }
}

/// After a store of `data` under `key`, the store holds exactly one item of that key,
/// and it holds `data`: a read of `key` gives back what was written.
pub proof fn law_read_after_write(st: ByteCacheState, key: Seq<char>, data: Seq<u8>, tick: usize)
    requires
        st.wf(),
        st.items().contains((key, data, tick)),
    ensures
        exists|i: int| 0 <= i < st.items().len() && (#[trigger] st.items()[i]).0 == key && st.items()[i].1 == data
            && forall|j: int| 0 <= j < st.items().len() && (#[trigger] st.items()[j]).0 == key ==> j == i,
{
    let i = choose|i: int| 0 <= i < st.items().len() && st.items()[i] == (key, data, tick);
    assert(st.items()[i].0 == key);
}

/// The decimal digits of `n`.
pub open spec fn decimal(n: nat) -> Seq<char>
    decreases n,
{
    if n < 10 {
        seq![digit_char(n)]
    } else {
        decimal(n / 10).push(digit_char(n % 10))
    }
}

/// The character of a decimal digit.
pub open spec fn digit_char(d: nat) -> char {
    (48 + d) as char
}

/// The decimal digits of `n`, most significant first.
pub fn decimal_chars(n: usize) -> (r: Vec<char>)
    ensures
        r@ == decimal(n as nat),
    decreases n,
{
    if n < 10 {
        let mut v: Vec<char> = Vec::new();
        v.push(digit(n as u8));
        v
    } else {
        let mut v = decimal_chars(n / 10);
        v.push(digit((n % 10) as u8));
        v
    }
}

fn digit(d: u8) -> (r: char)
    requires
        d < 10,
    ensures
        r == digit_char(d as nat),
{
    let b: u8 = 48 + d;
    b as char
}

/// The key under which an asset with sequence number `id` and name `name` is stored:
/// `mem://` and the number, then `::` and the name unless the name is blank.
pub open spec fn asset_key(id: nat, name: Seq<char>) -> Seq<char> {
    if trimmed(name).len() == 0 {
        "mem://"@ + decimal(id)
    } else {
        "mem://"@ + decimal(id) + "::"@ + name
    }
}

/// The characters of `a` followed by those of `b`.
fn concat_chars(a: &mut Vec<char>, b: &[char])
    ensures
        final(a)@ == old(a)@ + b@,
{
    let mut i: usize = 0;
    while i < b.len()
        invariant
            0 <= i <= b@.len(),
            a@ == old(a)@ + b@.take(i as int),
        decreases b@.len() - i,
    {
        a.push(b[i]);
        assert(old(a)@ + b@.take(i + 1) =~= (old(a)@ + b@.take(i as int)).push(b@[i as int]));
        i = i + 1;
    }
    assert(b@.take(b@.len() as int) =~= b@);
}

/// Stores `data` in the asset store under the key made from `id` and `name`, and
/// returns the key.
pub fn store_bytes(store: &mut ByteCacheState, id: usize, name: String, data: Vec<u8>) -> (r: String)
    requires
        old(store).wf(),
        old(store).clock_view() < usize::MAX,
        old(store).total_view() + data@.len() <= usize::MAX,
    ensures
        r@ == asset_key(id as nat, name@),
        final(store).wf(),
        final(store).items() == after_trim(
            without_key(old(store).items(), r@).push((r@, data@, old(store).clock_view())),
            MAX_ASSET_STORE_ENTRIES as int,
            MAX_ASSET_STORE_BYTES as int,
            Some(r@),
        ),
        final(store).items().contains((r@, data@, old(store).clock_view())),
{
    let name_chars = chars_of(name.as_str());
    let t = trim_chars(name_chars.as_slice());
    let mut key = chars_of("mem://");
    let digits = decimal_chars(id);
    concat_chars(&mut key, digits.as_slice());
    if t.len() > 0 {
        let sep = chars_of("::");
        concat_chars(&mut key, sep.as_slice());
        concat_chars(&mut key, name_chars.as_slice());
    }
    let key = string_from_chars(key.as_slice());
    insert_cached_bytes(store, owned(key.as_str()), data, MAX_ASSET_STORE_ENTRIES, MAX_ASSET_STORE_BYTES);
    key
}

/// The key under which `store_bytes_with_key` stores: `key` itself when it starts
/// with `mem://`, and `key` behind `mem://` otherwise.
pub open spec fn memory_key(key: Seq<char>) -> Seq<char> {
    if has_prefix(key, "mem://"@) { key } else { "mem://"@ + key }
}

/// Making a key a memory key twice is making it once: a key `store_bytes_with_key`
/// returned is stored under itself when stored again.
pub proof fn law_memory_key_idempotent(key: Seq<char>)
    ensures
        memory_key(memory_key(key)) == memory_key(key),
{
    if !has_prefix(key, "mem://"@) {
        let k = "mem://"@ + key;
        assert(k.subrange(0, "mem://"@.len() as int) =~= "mem://"@);
    }
}

/// Stores `data` in the asset store under `key` (made to start with `mem://`) and
/// returns the key used.
pub fn store_bytes_with_key(store: &mut ByteCacheState, key: String, data: Vec<u8>) -> (r: String)
    requires
        old(store).wf(),
        old(store).clock_view() < usize::MAX,
        old(store).total_view() + data@.len() <= usize::MAX,
    ensures
        r@ == memory_key(key@),
        final(store).wf(),
        final(store).items() == after_trim(
            without_key(old(store).items(), r@).push((r@, data@, old(store).clock_view())),
            MAX_ASSET_STORE_ENTRIES as int,
            MAX_ASSET_STORE_BYTES as int,
            Some(r@),
        ),
        final(store).items().contains((r@, data@, old(store).clock_view())),
{
    let prefix = chars_of("mem://");
    let chars = chars_of(key.as_str());
    let key = if chars_start_with(chars.as_slice(), prefix.as_slice()) {
        key
    } else {
        let mut k = prefix;
        concat_chars(&mut k, chars.as_slice());
        string_from_chars(k.as_slice())
    };
    insert_cached_bytes(store, owned(key.as_str()), data, MAX_ASSET_STORE_ENTRIES, MAX_ASSET_STORE_BYTES);
    key
}

/// Whether `path`, without surrounding whitespace and in ASCII lower case, starts
/// with `http://` or `https://`.
pub open spec fn spec_is_url(path: Seq<char>) -> bool {
    let lower = trimmed(path).map_values(|c: char| ascii_lower(c));
    has_prefix(lower, "http://"@) || has_prefix(lower, "https://"@)
}

/// Whether `path` names a file on the web.
pub fn is_url(path: &str) -> (r: bool)
    ensures
        r == spec_is_url(path@),
{
    let chars = chars_of(path);
    let t = trim_chars(chars.as_slice());
    let mut lower: Vec<char> = Vec::new();
    let mut i: usize = 0;
    while i < t.len()
        invariant
            0 <= i <= t@.len(),
            lower@ == t@.take(i as int).map_values(|c: char| ascii_lower(c)),
        decreases t@.len() - i,
    {
        lower.push(char_ascii_lower(t[i]));
        assert(t@.take(i + 1).map_values(|c: char| ascii_lower(c)) =~= t@.take(i as int).map_values(|c: char| ascii_lower(c)).push(ascii_lower(t@[i as int])));
        i = i + 1;
    }
    assert(t@.take(t@.len() as int) =~= t@);
    let http = chars_of("http://");
    let https = chars_of("https://");
    chars_start_with(lower.as_slice(), http.as_slice()) || chars_start_with(lower.as_slice(), https.as_slice())
}

/// Where the bytes named by a path come from.
#[derive(Debug)]
pub enum AssetLoad {
    /// The asset store held them.
    Found(Vec<u8>),
    /// Nothing is stored under the path, and it is no web address.
    Missing,
    /// The path is a web address: the bytes are to be fetched.
    Remote,
}

/// Looks a path up: `mem://` paths in the asset store (marking the item as used),
/// web addresses for fetching, anything else as missing.
pub fn load_bytes(store: &mut ByteCacheState, path: &str) -> (r: AssetLoad)
    requires
        old(store).wf(),
        old(store).clock_view() < usize::MAX,
    ensures
        final(store).wf(),
        has_prefix(path@, "mem://"@) ==> match r {
            AssetLoad::Found(data) => exists|i: int| 0 <= i < old(store).items().len() && #[trigger] old(store).items()[i].0 == path@
                && data@ == old(store).items()[i].1 && final(store).items() == old(store).items().update(
                i,
                (path@, data@, old(store).clock_view()),
            ),
            AssetLoad::Missing => !has_key(old(store).items(), path@) && *final(store) == *old(store),
            AssetLoad::Remote => false,
        },
        !has_prefix(path@, "mem://"@) ==> *final(store) == *old(store) && (if spec_is_url(path@) {
            r is Remote
        } else {
            r is Missing
        }),
{
    let prefix = chars_of("mem://");
    let chars = chars_of(path);
    if chars_start_with(chars.as_slice(), prefix.as_slice()) {
        return match get_cached_bytes(store, path) {
            Some(data) => AssetLoad::Found(data),
            None => AssetLoad::Missing,
        };
    }
    if is_url(path) {
        return AssetLoad::Remote;
    }
    AssetLoad::Missing
}

} // verus!
