//! A vector of distinct keys with a hash map from each key to its position.
use std::collections::HashMap;
use std::ops::Range;
use vstd::prelude::*;
use vstd::multiset::Multiset;
use crate::keys::{
    Key, copy_key, key_less, key_views, lemma_empty_multiset, lemma_key_lt_total, lemma_multiset_contains,
    lemma_sorted_push, lemma_splice_multiset, lemma_swap_remove_multiset, sorted_keys,
};
use crate::keyset::KeySet;
use crate::keyset::vec_keys::push_keeps_sorted;
use crate::std_collections::{
    key_index_map_clear, key_index_map_contains_key, key_index_map_contents, key_index_map_insert,
    key_index_map_remove, key_index_map_with_capacity, sort_keys,
};

verus! {

/// `m` maps each key of `s` to its position, and nothing else.
pub open spec fn index_map_consistent(m: Map<Seq<u8>, usize>, s: Seq<Seq<u8>>) -> bool {
    &&& forall|i: int| 0 <= i < s.len() ==> m.contains_key(#[trigger] s[i]) && m[s[i]] == i
    &&& forall|k: Seq<u8>| #[trigger] m.contains_key(k) ==> m[k] < s.len() && s[m[k] as int] == k
}

/// Distinct keys with a hash map from each key to its position; pushing a
/// key that is already present does nothing, and removal swaps the last
/// key into the freed position.
pub struct VecHashMapIndexKeySet {
    keys: Vec<Key>,
    key_to_index: HashMap<Key, usize>,
    sorted: bool,
}

impl View for VecHashMapIndexKeySet {
    type V = Seq<Seq<u8>>;

    closed spec fn view(&self) -> Seq<Seq<u8>> {
        key_views(self.keys@)
    }
}

impl VecHashMapIndexKeySet {
    /// An empty key set with room for `capacity` keys.
    pub fn new(capacity: usize) -> (r: Self)
        ensures
            r.wf(),
            r.spec_len() == 0,
            r.contents() == Multiset::<Seq<u8>>::empty(),
            r.in_order(),
            r.order_recorded(),
            r@ == Seq::<Seq<u8>>::empty(),
            r.sorted_flag(),
    {
        let r = Self {
            keys: Vec::with_capacity(capacity),
            key_to_index: key_index_map_with_capacity(capacity),
            sorted: true,
        };
        assert(r@ =~= Seq::<Seq<u8>>::empty());
        proof {
            lemma_empty_multiset(r@);
        }
        r
    }

    /// The map from keys to positions.
    pub closed spec fn index_map(&self) -> Map<Seq<u8>, usize> {
        key_index_map_contents(self.key_to_index)
    }

    /// The flag that `sort` consults before sorting.
    pub closed spec fn sorted_flag(&self) -> bool {
        self.sorted
    }

    /// The map gives every key's position.
    pub closed spec fn inv(&self) -> bool {
        index_map_consistent(self.index_map(), self@)
    }
}

/// A consistent index map means the keys are distinct.
pub proof fn lemma_consistent_no_duplicates(m: Map<Seq<u8>, usize>, s: Seq<Seq<u8>>)
    requires
        index_map_consistent(m, s),
    ensures
        s.no_duplicates(),
{
    assert forall|i: int, j: int| 0 <= i < s.len() && 0 <= j < s.len() && i != j implies s[i]
        != s[j] by {
        assert(m[s[i]] == i);
        assert(m[s[j]] == j);
    }
}

/// The stretch `a..b` holds the element at `a` and the stretch `a + 1..b`.
proof fn lemma_subrange_front_multiset(s: Seq<Seq<u8>>, a: int, b: int)
    requires
        0 <= a < b <= s.len(),
    ensures
        s.subrange(a, b).to_multiset() == s.subrange(a + 1, b).to_multiset().insert(s[a]),
{
    assert(s.subrange(a, b) =~= s.subrange(a + 1, b).insert(0, s[a]));
    vstd::seq_lib::to_multiset_insert(s.subrange(a + 1, b), 0, s[a]);
}

impl KeySet for VecHashMapIndexKeySet {
    open spec fn wf(&self) -> bool {
        self.inv()
    }

    open spec fn spec_len(&self) -> nat {
        self@.len()
    }

    open spec fn spec_is_empty(&self) -> bool {
        self@.len() == 0
    }

    open spec fn spec_contains(&self, key: Seq<u8>) -> bool {
        self@.contains(key)
    }

    open spec fn contains_exact(&self) -> bool {
        true
    }

    open spec fn contents(&self) -> Multiset<Seq<u8>> {
        self@.to_multiset()
    }

    open spec fn unique_keys(&self) -> bool {
        true
    }

    open spec fn range_contents(&self, start: usize, end: usize) -> Multiset<Seq<u8>> {
        self@.subrange(start as int, end as int).to_multiset()
    }

    open spec fn in_order(&self) -> bool {
        sorted_keys(self@)
    }

    open spec fn order_recorded(&self) -> bool {
        self.sorted_flag() ==> sorted_keys(self@)
    }

    open spec fn key_at(&self, idx: usize) -> Seq<u8> {
        self@[idx as int]
    }

    open spec fn removed_at(&self, idx: usize) -> Seq<u8> {
        self@[idx as int]
    }

    open spec fn range_ends(&self, start: usize, end: usize) -> (Seq<u8>, Seq<u8>) {
        (self@[end - 1], self@[start as int])
    }

    open spec fn keeps_keys(&self) -> bool {
        true
    }

    open spec fn push_ok(&self) -> bool {
        true
    }

    open spec fn remove_ok(&self, idx: usize) -> bool {
        idx < self@.len()
    }

    open spec fn remove_range_ok(&self, start: usize, end: usize) -> bool {
        start < end <= self@.len()
    }

    open spec fn get_ok(&self, idx: usize) -> bool {
        idx < self@.len()
    }

    open spec fn contains_ok(&self) -> bool {
        true
    }

    open spec fn sort_ok(&self) -> bool {
        true
    }

    fn len(&self) -> (r: usize) {
        self.keys.len()
    }

    fn is_empty(&self) -> (r: bool) {
        self.keys.len() == 0
    }

    /// Appends the key unless it is already present.
    fn push(&mut self, key: Key)
        ensures
            old(self).order_recorded() ==> final(self).order_recorded(),
            old(self)@.contains(key@) ==> final(self)@ == old(self)@,
            old(self)@.contains(key@) ==> final(self).sorted_flag() == old(self).sorted_flag(),
            !old(self)@.contains(key@) ==> final(self)@ == old(self)@.push(key@),
            !old(self)@.contains(key@) ==> final(self).sorted_flag() == push_keeps_sorted(
                old(self).sorted_flag(),
                old(self)@,
                key@,
            ),
    {
        if !key_index_map_contains_key(&self.key_to_index, &key) {
            proof {
                if old(self)@.contains(key@) {
                    let j = choose|j: int| 0 <= j < old(self)@.len() && old(self)@[j] == key@;
                    assert(self.index_map().contains_key(old(self)@[j]));
                }
            }
            let n = self.keys.len();
            if self.sorted && n > 0 && key_less(&key, &self.keys[n - 1]) {
                self.sorted = false;
            }
            let ghost m0 = self.index_map();
            let ghost kv = key@;
            key_index_map_insert(&mut self.key_to_index, copy_key(&key), n);
            self.keys.push(key);
            assert(self@ =~= old(self)@.push(kv));
            proof {
                vstd::seq_lib::to_multiset_build(old(self)@, kv);
                lemma_multiset_contains(old(self)@, kv);
                if self.sorted && sorted_keys(old(self)@) {
                    if old(self)@.len() > 0 {
                        lemma_key_lt_total(old(self)@.last(), kv);
                    }
                    lemma_sorted_push(old(self)@, kv);
                }
            }
            proof {
                let s = self@;
                let m = self.index_map();
                assert forall|i: int| 0 <= i < s.len() implies m.contains_key(#[trigger] s[i])
                    && m[s[i]] == i by {
                    if i < n {
                        assert(m0.contains_key(s[i]));
                    }
                }
            }
        } else {
            proof {
                let k = key@;
                let m = self.index_map();
                assert(m.contains_key(k));
                assert(self@[m[k] as int] == k);
                lemma_multiset_contains(self@, k);
            }
        }
    }

    /// Moves the last key into position `idx` and returns the key that was
    /// there, updating the positions in the map.
    fn remove(&mut self, idx: usize) -> (r: Key)
        ensures
            r@ == old(self)@[idx as int],
            final(self)@ == old(self)@.update(idx as int, old(self)@.last()).drop_last(),
            final(self).sorted_flag() == old(self).sorted_flag(),
    {
        let ghost s = self@;
        let ghost m0 = self.index_map();
        proof {
            lemma_consistent_no_duplicates(m0, s);
        }
        let removed = self.keys.swap_remove(idx);
        let ghost t = s.update(idx as int, s.last()).drop_last();
        assert(self@ =~= t);
        key_index_map_remove(&mut self.key_to_index, &removed);
        if idx < self.keys.len() {
            let swapped = copy_key(&self.keys[idx]);
            key_index_map_insert(&mut self.key_to_index, swapped, idx);
        }
        proof {
            let m = self.index_map();
            assert forall|i: int| 0 <= i < t.len() implies m.contains_key(#[trigger] t[i]) && m[t[i]]
                == i by {
                if i != idx {
                    assert(t[i] == s[i]);
                    assert(s[i] != s[idx as int]);
                }
            }
            assert forall|k: Seq<u8>| #[trigger] m.contains_key(k) implies m[k] < t.len() && t[m[k] as int]
                == k by {
                if idx < t.len() && k == t[idx as int] {
                } else {
                    assert(m0.contains_key(k));
                    assert(k != s[idx as int]);
                    let p = m0[k] as int;
                    assert(s[p] == k);
                    if p == s.len() - 1 {
                        assert(t[idx as int] == k);
                    }
                }
            }
        }
        assert(s[idx as int] == removed@);
        proof {
            lemma_swap_remove_multiset(s, idx as int);
            lemma_multiset_contains(s, removed@);
        }
        removed
    }

    /// Removes the positions `end - 1` down to `start` one at a time as
    /// `remove` does; returns the key first removed (at `end - 1`) and the
    /// key last removed (at `start`).
    fn remove_range(&mut self, idx_range: Range<usize>) -> (r: (Key, Key))
        ensures
            r.0@ == old(self)@[idx_range.end - 1],
            r.1@ == old(self)@[idx_range.start as int],
            final(self)@.len() == old(self)@.len() - (idx_range.end - idx_range.start),
            final(self)@.to_multiset() == old(self)@.to_multiset().sub(
                old(self)@.subrange(idx_range.start as int, idx_range.end as int).to_multiset(),
            ),
            final(self).sorted_flag() == old(self).sorted_flag(),
    {
        let ghost s = self@;
        let start = idx_range.start;
        let end = idx_range.end;
        proof {
            lemma_consistent_no_duplicates(self.index_map(), s);
        }
        let key1 = self.remove(end - 1);
        let ghost s1 = s.update(end - 1, s.last()).drop_last();
        proof {
            lemma_swap_remove_multiset(s, end - 1);
            lemma_subrange_front_multiset(s, end - 1, end as int);
            lemma_empty_multiset(s.subrange(end as int, end as int));
            broadcast use vstd::multiset::group_multiset_axioms;
            assert(s.to_multiset().sub(s.subrange(end - 1, end as int).to_multiset()) =~= s.to_multiset().remove(
                s[end - 1],
            ));
            assert forall|j: int| 0 <= j < end - 1 implies #[trigger] self@[j] == s[j] by {
                assert(self@[j] == s1[j]);
            }
        }
        let mut key2: Option<Key> = None;
        let mut i = end - 1;
        while i > start
            invariant
                start < end <= s.len(),
                start <= i < end,
                s.no_duplicates(),
                self.inv(),
                self.sorted == old(self).sorted,
                self@.len() == s.len() - (end - i),
                forall|j: int| 0 <= j < i ==> #[trigger] self@[j] == s[j],
                self@.to_multiset() == s.to_multiset().sub(s.subrange(i as int, end as int).to_multiset()),
                key1@ == s[end - 1],
                i < end - 1 ==> key2 is Some && key2->0@ == s[i as int],
                key2 is Some ==> i < end - 1,
            decreases i,
        {
            let ghost cur = self@;
            proof {
                lemma_consistent_no_duplicates(self.index_map(), cur);
                lemma_swap_remove_multiset(cur, i - 1);
            }
            let k = self.remove(i - 1);
            key2 = Some(k);
            proof {
                assert forall|j: int| 0 <= j < i - 1 implies #[trigger] self@[j] == s[j] by {
                    assert(self@[j] == cur[j]);
                }
                lemma_subrange_front_multiset(s, i - 1, end as int);
                broadcast use vstd::multiset::group_multiset_axioms;
                assert(self@.to_multiset() =~= s.to_multiset().sub(
                    s.subrange(i - 1, end as int).to_multiset(),
                ));
            }
            i -= 1;
        }
        let r = match key2 {
            Some(k2) => (key1, k2),
            None => (copy_key(&key1), key1),
        };
        assert(s[end - 1] == r.0@);
        assert(s[start as int] == r.1@);
        proof {
            lemma_splice_multiset(s, start as int, end as int);
            lemma_multiset_contains(s, r.0@);
            lemma_multiset_contains(s, r.1@);
        }
        r
    }

    fn get(&self, idx: usize) -> (r: &Key)
        ensures
            r@ == self@[idx as int],
    {
        let r = &self.keys[idx];
        assert(self@[idx as int] == r@);
        proof {
            lemma_multiset_contains(self@, r@);
        }
        r
    }

    fn contains(&self, key: &Key) -> (r: bool) {
        let r = key_index_map_contains_key(&self.key_to_index, key);
        proof {
            let m = self.index_map();
            if r {
                assert(self@[m[key@] as int] == key@);
            }
            if self@.contains(key@) {
                let j = choose|j: int| 0 <= j < self@.len() && self@[j] == key@;
                assert(m.contains_key(self@[j]));
            }
            lemma_multiset_contains(self@, key@);
        }
        r
    }

    /// Unless the flag says the keys are in order, sorts them and rebuilds
    /// the map of positions.
    fn sort(&mut self)
        ensures
            old(self).sorted_flag() ==> final(self)@ == old(self)@,
            !old(self).sorted_flag() ==> final(self)@.to_multiset() == old(self)@.to_multiset()
                && sorted_keys(final(self)@),
            final(self).sorted_flag(),
    {
        if !self.sorted {
            let ghost s = self@;
            proof {
                lemma_consistent_no_duplicates(self.index_map(), s);
                s.lemma_multiset_has_no_duplicates();
            }
            sort_keys(&mut self.keys);
            let ghost t = self@;
            proof {
                t.lemma_multiset_has_no_duplicates_conv();
            }
            key_index_map_clear(&mut self.key_to_index);
            self.sorted = true;
            let n = self.keys.len();
            let mut i: usize = 0;
            while i < n
                invariant
                    n == self@.len(),
                    self@ == t,
                    self.sorted,
                    t.no_duplicates(),
                    i <= n,
                    forall|j: int| 0 <= j < i ==> self.index_map().contains_key(#[trigger] t[j])
                        && self.index_map()[t[j]] == j,
                    forall|k: Seq<u8>| #[trigger]
                        self.index_map().contains_key(k) ==> self.index_map()[k] < i && t[self.index_map()[k] as int] == k,
                decreases n - i,
            {
                let k = copy_key(&self.keys[i]);
                let ghost old_map = self.index_map();
                key_index_map_insert(&mut self.key_to_index, k, i);
                proof {
                    assert forall|j: int| 0 <= j < i + 1 implies self.index_map().contains_key(
                        #[trigger] t[j],
                    ) && self.index_map()[t[j]] == j by {
                        if j < i {
                            assert(t[j] != t[i as int]);
                        }
                    }
                    assert forall|k: Seq<u8>| #[trigger]
                        self.index_map().contains_key(k) implies self.index_map()[k] < i + 1 && t[self.index_map()[k] as int] == k by {
                        if k != t[i as int] {
                            assert(old_map.contains_key(k));
                        }
                    }
                }
                i += 1;
            }
        }
    }

    fn can_push(&self) -> (r: bool) {
        true
    }

    fn can_remove(&self, idx: usize) -> (r: bool) {
        idx < self.len()
    }

    fn can_remove_range(&self, start: usize, end: usize) -> (r: bool) {
        start < end && end <= self.len()
    }

    fn can_get(&self, idx: usize) -> (r: bool) {
        idx < self.len()
    }

    fn can_contains(&self) -> (r: bool) {
        true
    }

    fn can_sort(&self) -> (r: bool) {
        true
    }
}

} // verus!
