//! A vector of keys with a hash set of the keys that answers `contains`.
use std::collections::HashSet;
use std::ops::Range;
use vstd::prelude::*;
use vstd::multiset::Multiset;
use crate::keys::{
    Key, copy_key, key_less, key_views, lemma_empty_multiset, lemma_key_lt_total, lemma_multiset_contains,
    lemma_sorted_push, lemma_sorted_splice, lemma_splice_multiset, sorted_keys,
};
use crate::keyset::KeySet;
use crate::keyset::vec_keys::push_keeps_sorted;
use crate::std_collections::{
    key_hash_set_contains, key_hash_set_contents, key_hash_set_insert, key_hash_set_remove,
    key_hash_set_with_capacity, sort_keys,
};

verus! {

/// Every key of `set` occurs in `s`.
pub open spec fn keys_within(set: Set<Seq<u8>>, s: Seq<Seq<u8>>) -> bool {
    forall|k: Seq<u8>| #[trigger] set.contains(k) ==> s.contains(k)
}

/// Keys in insertion order together with a hash set of them. Removing one
/// of two equal keys removes the key from the hash set, so the hash set
/// holds a subset of the keys in the vector.
pub struct VecHashSetKeySet {
    keys: Vec<Key>,
    key_set: HashSet<Key>,
    sorted: bool,
}

impl View for VecHashSetKeySet {
    type V = Seq<Seq<u8>>;

    closed spec fn view(&self) -> Seq<Seq<u8>> {
        key_views(self.keys@)
    }
}

impl VecHashSetKeySet {
    /// An empty key set with room for `capacity` keys.
    pub fn new(capacity: usize) -> (r: Self)
        ensures
            r.wf(),
            r.spec_len() == 0,
            r.contents() == Multiset::<Seq<u8>>::empty(),
            r.in_order(),
            r.order_recorded(),
            r@ == Seq::<Seq<u8>>::empty(),
            r.key_set() == Set::<Seq<u8>>::empty(),
            r.sorted_flag(),
    {
        let r = Self {
            keys: Vec::with_capacity(capacity),
            key_set: key_hash_set_with_capacity(capacity),
            sorted: true,
        };
        assert(r@ =~= Seq::<Seq<u8>>::empty());
        proof {
            lemma_empty_multiset(r@);
        }
        r
    }

    /// The keys that `contains` reports.
    pub closed spec fn key_set(&self) -> Set<Seq<u8>> {
        key_hash_set_contents(self.key_set)
    }

    /// The flag that `sort` consults before sorting.
    pub closed spec fn sorted_flag(&self) -> bool {
        self.sorted
    }

    /// Every key of the hash set is in the vector.
    pub closed spec fn inv(&self) -> bool {
        keys_within(self.key_set(), self@)
    }
}

proof fn lemma_within_remove(set: Set<Seq<u8>>, s: Seq<Seq<u8>>, i: int)
    requires
        keys_within(set, s),
        0 <= i < s.len(),
    ensures
        keys_within(set.remove(s[i]), s.remove(i)),
{
    let t = s.remove(i);
    assert forall|x: Seq<u8>| #[trigger] set.remove(s[i]).contains(x) implies t.contains(x) by {
        let j = choose|j: int| 0 <= j < s.len() && s[j] == x;
        if j < i {
            assert(t[j] == x);
        } else {
            assert(t[j - 1] == x);
        }
    }
}

impl KeySet for VecHashSetKeySet {
    open spec fn wf(&self) -> bool {
        self.inv()
    }

    open spec fn spec_len(&self) -> nat {
        self@.len()
    }

    open spec fn spec_is_empty(&self) -> bool {
        self@.len() == 0
    }

    open spec fn spec_contains(&self, key: Seq<u8>) -> bool {
        self.key_set().contains(key)
    }

    /// Exact while the hash set holds every key of the vector; removing one
    /// of two equal keys leaves it short of the other.
    open spec fn contains_exact(&self) -> bool {
        forall|k: Seq<u8>| #[trigger] self@.contains(k) ==> self.key_set().contains(k)
    }

    open spec fn contents(&self) -> Multiset<Seq<u8>> {
        self@.to_multiset()
    }

    open spec fn unique_keys(&self) -> bool {
        false
    }

    open spec fn range_contents(&self, start: usize, end: usize) -> Multiset<Seq<u8>> {
        self@.subrange(start as int, end as int).to_multiset()
    }

    open spec fn in_order(&self) -> bool {
        sorted_keys(self@)
    }

    open spec fn order_recorded(&self) -> bool {
        self.sorted_flag() ==> sorted_keys(self@)
    }

    open spec fn key_at(&self, idx: usize) -> Seq<u8> {
        self@[idx as int]
    }

    open spec fn removed_at(&self, idx: usize) -> Seq<u8> {
        self@[idx as int]
    }

    open spec fn range_ends(&self, start: usize, end: usize) -> (Seq<u8>, Seq<u8>) {
        (self@[start as int], self@[end - 1])
    }

    open spec fn keeps_keys(&self) -> bool {
        true
    }

    open spec fn push_ok(&self) -> bool {
        true
    }

    open spec fn remove_ok(&self, idx: usize) -> bool {
        idx < self@.len()
    }

    open spec fn remove_range_ok(&self, start: usize, end: usize) -> bool {
        start < end <= self@.len()
    }

    open spec fn get_ok(&self, idx: usize) -> bool {
        idx < self@.len()
    }

    open spec fn contains_ok(&self) -> bool {
        true
    }

    open spec fn sort_ok(&self) -> bool {
        true
    }

    fn len(&self) -> (r: usize) {
        self.keys.len()
    }

    fn is_empty(&self) -> (r: bool) {
        self.keys.len() == 0
    }

    fn push(&mut self, key: Key)
        ensures
            old(self).order_recorded() ==> final(self).order_recorded(),
            final(self)@ == old(self)@.push(key@),
            final(self).key_set() == old(self).key_set().insert(key@),
            final(self).sorted_flag() == push_keeps_sorted(old(self).sorted_flag(), old(self)@, key@),
    {
        let n = self.keys.len();
        if self.sorted && n > 0 && key_less(&key, &self.keys[n - 1]) {
            self.sorted = false;
        }
        self.keys.push(copy_key(&key));
        key_hash_set_insert(&mut self.key_set, key);
        assert(self@ =~= old(self)@.push(key@));
        proof {
            assert forall|k: Seq<u8>| #[trigger] self.key_set().contains(k) implies self@.contains(k) by {
                if k == key@ {
                    assert(self@[n as int] == k);
                } else {
                    let j = choose|j: int| 0 <= j < old(self)@.len() && old(self)@[j] == k;
                    assert(self@[j] == k);
                }
            }
            vstd::seq_lib::to_multiset_build(old(self)@, key@);
            if self.sorted && sorted_keys(old(self)@) {
                if old(self)@.len() > 0 {
                    lemma_key_lt_total(old(self)@.last(), key@);
                }
                lemma_sorted_push(old(self)@, key@);
            }
        }
    }

    /// Removes the key at `idx`, shifting the later keys down, and removes
    /// it from the hash set.
    fn remove(&mut self, idx: usize) -> (r: Key)
        ensures
            old(self).order_recorded() ==> final(self).order_recorded(),
            r@ == old(self)@[idx as int],
            final(self)@ == old(self)@.remove(idx as int),
            final(self).key_set() == old(self).key_set().remove(r@),
            final(self).sorted_flag() == old(self).sorted_flag(),
    {
        let ghost s = self@;
        proof {
            lemma_within_remove(self.key_set(), s, idx as int);
        }
        let key = self.keys.remove(idx);
        assert(self@ =~= s.remove(idx as int));
        key_hash_set_remove(&mut self.key_set, &key);
        assert(s[idx as int] == key@);
        proof {
            vstd::seq_lib::to_multiset_remove(s, idx as int);
            if sorted_keys(s) {
                lemma_sorted_splice(s, idx as int, idx + 1);
                assert(s.subrange(0, idx as int) + s.subrange(idx + 1, s.len() as int) =~= s.remove(
                    idx as int,
                ));
            }
            lemma_multiset_contains(s, key@);
        }
        key
    }

    /// Removes the keys at `start..end` from the hash set and from the
    /// vector, and returns the first and the last of them.
    fn remove_range(&mut self, idx_range: Range<usize>) -> (r: (Key, Key))
        ensures
            old(self).order_recorded() ==> final(self).order_recorded(),
            r.0@ == old(self)@[idx_range.start as int],
            r.1@ == old(self)@[idx_range.end - 1],
            final(self)@ == old(self)@.subrange(0, idx_range.start as int) + old(self)@.subrange(
                idx_range.end as int,
                old(self)@.len() as int,
            ),
            final(self).key_set() == old(self).key_set().difference(
                old(self)@.subrange(idx_range.start as int, idx_range.end as int).to_set(),
            ),
            final(self).sorted_flag() == old(self).sorted_flag(),
    {
        let ghost s = self@;
        let ghost set0 = self.key_set();
        let start = idx_range.start;
        let end = idx_range.end;
        let mut i = start;
        while i < end
            invariant
                start <= i <= end,
                end <= s.len(),
                self@ == s,
                self.sorted == old(self).sorted,
                self.key_set() == set0.difference(s.subrange(start as int, i as int).to_set()),
            decreases end - i,
        {
            key_hash_set_remove(&mut self.key_set, &self.keys[i]);
            assert(s.subrange(start as int, i + 1).to_set() =~= s.subrange(
                start as int,
                i as int,
            ).to_set().insert(s[i as int])) by {
                assert(s.subrange(start as int, i + 1) =~= s.subrange(start as int, i as int).push(
                    s[i as int],
                ));
                s.subrange(start as int, i as int).lemma_push_to_set_commute(s[i as int]);
            }
            assert(self.key_set() =~= set0.difference(s.subrange(start as int, i + 1).to_set()));
            i += 1;
        }
        let mut tail = self.keys.split_off(end);
        let mut mid = self.keys.split_off(start);
        self.keys.append(&mut tail);
        let ghost rest = s.subrange(0, start as int) + s.subrange(end as int, s.len() as int);
        assert(self@ =~= rest);
        assert(key_views(mid@) =~= s.subrange(start as int, end as int));
        proof {
            assert forall|k: Seq<u8>| #[trigger] self.key_set().contains(k) implies rest.contains(k) by {
                let j = choose|j: int| 0 <= j < s.len() && s[j] == k;
                if j < start {
                    assert(rest[j] == k);
                } else if j >= end {
                    assert(rest[j - (end - start)] == k);
                } else {
                    assert(s.subrange(start as int, end as int)[j - start] == k);
                    assert(s.subrange(start as int, end as int).to_set().contains(k));
                }
            }
        }
        let last = mid.pop().unwrap();
        let r = if mid.len() == 0 {
            (copy_key(&last), last)
        } else {
            let first = mid.swap_remove(0);
            (first, last)
        };
        assert(s[start as int] == r.0@);
        assert(s[end - 1] == r.1@);
        proof {
            if sorted_keys(s) {
                lemma_sorted_splice(s, start as int, end as int);
            }
            lemma_splice_multiset(s, start as int, end as int);
            lemma_multiset_contains(s, r.0@);
            lemma_multiset_contains(s, r.1@);
        }
        r
    }

    fn get(&self, idx: usize) -> (r: &Key)
        ensures
            r@ == self@[idx as int],
    {
        let r = &self.keys[idx];
        assert(self@[idx as int] == r@);
        proof {
            lemma_multiset_contains(self@, r@);
        }
        r
    }

    fn contains(&self, key: &Key) -> (r: bool) {
        proof {
            lemma_multiset_contains(self@, key@);
        }
        key_hash_set_contains(&self.key_set, key)
    }

    /// Sorts the keys unless the flag says they are already in order.
    fn sort(&mut self)
        ensures
            old(self).sorted_flag() ==> final(self)@ == old(self)@,
            !old(self).sorted_flag() ==> final(self)@.to_multiset() == old(self)@.to_multiset()
                && sorted_keys(final(self)@),
            final(self).key_set() == old(self).key_set(),
            final(self).sorted_flag(),
    {
        if !self.sorted {
            let ghost s = self@;
            sort_keys(&mut self.keys);
            self.sorted = true;
            proof {
                broadcast use vstd::seq_lib::group_to_multiset_ensures;

                assert forall|k: Seq<u8>| #[trigger] self.key_set().contains(k) implies self@.contains(k) by {
                    assert(old(self).key_set().contains(k));
                    assert(s.contains(k));
                    assert(s.to_multiset().count(k) > 0);
                    assert(self@.to_multiset().count(k) > 0);
                }
            }
        }
    }

    fn can_push(&self) -> (r: bool) {
        true
    }

    fn can_remove(&self, idx: usize) -> (r: bool) {
        idx < self.len()
    }

    fn can_remove_range(&self, start: usize, end: usize) -> (r: bool) {
        start < end && end <= self.len()
    }

    fn can_get(&self, idx: usize) -> (r: bool) {
        idx < self.len()
    }

    fn can_contains(&self) -> (r: bool) {
        true
    }

    fn can_sort(&self) -> (r: bool) {
        true
    }
}

} // verus!
