//! A key set backed by a vector of keys.
use std::ops::Range;
use vstd::prelude::*;
use vstd::multiset::Multiset;
use crate::keys::{
    Key, copy_key, key_less, key_lt, key_views, keys_equal, lemma_empty_multiset, lemma_key_lt_total,
    lemma_multiset_contains, lemma_sorted_push, lemma_sorted_splice, lemma_splice_multiset, sorted_keys,
};
use crate::keyset::KeySet;
use crate::std_collections::sort_keys;

verus! {

/// Keys in insertion order, with a flag that records whether no push has
/// put a key after a greater one since the last sort.
pub struct VecKeySet {
    keys: Vec<Key>,
    sorted: bool,
}

impl View for VecKeySet {
    type V = Seq<Seq<u8>>;

    closed spec fn view(&self) -> Seq<Seq<u8>> {
        key_views(self.keys@)
    }
}

impl VecKeySet {
    /// An empty key set with room for `capacity` keys.
    pub fn new(capacity: usize) -> (r: Self)
        ensures
            r.wf(),
            r.spec_len() == 0,
            r.contents() == Multiset::<Seq<u8>>::empty(),
            r.in_order(),
            r.order_recorded(),
            r@ == Seq::<Seq<u8>>::empty(),
            r.sorted_flag(),
    {
        let r = Self { keys: Vec::with_capacity(capacity), sorted: true };
        assert(r@ =~= Seq::<Seq<u8>>::empty());
        proof {
            lemma_empty_multiset(r@);
        }
        r
    }

    /// The flag that `sort` consults before sorting.
    pub closed spec fn sorted_flag(&self) -> bool {
        self.sorted
    }
}

/// The flag after pushing `key` onto `keys`: it drops when the last key is
/// greater than the new one.
pub open spec fn push_keeps_sorted(flag: bool, keys: Seq<Seq<u8>>, key: Seq<u8>) -> bool {
    flag && !(keys.len() > 0 && key_lt(key, keys.last()))
}

/// `keys` with the element at `idx` and the last element swapped, and then
/// the element at `idx` removed.
pub open spec fn swap_last_then_remove(keys: Seq<Seq<u8>>, idx: int) -> Seq<Seq<u8>> {
    keys.update(idx, keys.last()).update(keys.len() - 1, keys[idx]).remove(idx)
}

/// Swapping with the last element and removing takes the last element out
/// of the multiset.
proof fn lemma_swap_last_then_remove_multiset(s: Seq<Seq<u8>>, idx: int)
    requires
        0 <= idx < s.len(),
    ensures
        swap_last_then_remove(s, idx).to_multiset() == s.to_multiset().remove(s.last()),
        s.to_multiset().contains(s.last()),
{
    broadcast use vstd::multiset::group_multiset_axioms;

    let n = s.len() - 1;
    let t = s.update(idx, s.last());
    let u = t.update(n, s[idx]);
    vstd::seq_lib::to_multiset_update(s, idx, s.last());
    vstd::seq_lib::to_multiset_update(t, n, s[idx]);
    vstd::seq_lib::to_multiset_remove(u, idx);
    assert(t[n] == s.last());
    assert(u[idx] == s.last());
    assert(s[n] == s.last());
    lemma_multiset_contains(s, s.last());
    lemma_multiset_contains(s, s[idx]);
    assert(swap_last_then_remove(s, idx).to_multiset() =~= s.to_multiset().remove(s.last()));
}

impl KeySet for VecKeySet {
    open spec fn wf(&self) -> bool {
        true
    }

    open spec fn spec_len(&self) -> nat {
        self@.len()
    }

    open spec fn spec_is_empty(&self) -> bool {
        self@.len() == 0
    }

    open spec fn spec_contains(&self, key: Seq<u8>) -> bool {
        self@.contains(key)
    }

    open spec fn contains_exact(&self) -> bool {
        true
    }

    open spec fn contents(&self) -> Multiset<Seq<u8>> {
        self@.to_multiset()
    }

    open spec fn unique_keys(&self) -> bool {
        false
    }

    open spec fn range_contents(&self, start: usize, end: usize) -> Multiset<Seq<u8>> {
        self@.subrange(start as int, end as int).to_multiset()
    }

    open spec fn in_order(&self) -> bool {
        sorted_keys(self@)
    }

    open spec fn order_recorded(&self) -> bool {
        self.sorted_flag() ==> sorted_keys(self@)
    }

    open spec fn key_at(&self, idx: usize) -> Seq<u8> {
        self@[idx as int]
    }

    open spec fn removed_at(&self, idx: usize) -> Seq<u8> {
        self@.last()
    }

    open spec fn range_ends(&self, start: usize, end: usize) -> (Seq<u8>, Seq<u8>) {
        (self@[start as int], self@[end - 1])
    }

    open spec fn keeps_keys(&self) -> bool {
        true
    }

    open spec fn push_ok(&self) -> bool {
        true
    }

    open spec fn remove_ok(&self, idx: usize) -> bool {
        idx < self@.len()
    }

    open spec fn remove_range_ok(&self, start: usize, end: usize) -> bool {
        start < end <= self@.len()
    }

    open spec fn get_ok(&self, idx: usize) -> bool {
        idx < self@.len()
    }

    open spec fn contains_ok(&self) -> bool {
        true
    }

    open spec fn sort_ok(&self) -> bool {
        true
    }

    fn len(&self) -> (r: usize) {
        self.keys.len()
    }

    fn is_empty(&self) -> (r: bool) {
        self.keys.len() == 0
    }

    fn push(&mut self, key: Key)
        ensures
            old(self).order_recorded() ==> final(self).order_recorded(),
            final(self)@ == old(self)@.push(key@),
            final(self).sorted_flag() == push_keeps_sorted(old(self).sorted_flag(), old(self)@, key@),
    {
        let n = self.keys.len();
        if self.sorted && n > 0 && key_less(&key, &self.keys[n - 1]) {
            self.sorted = false;
        }
        let ghost kv = key@;
        self.keys.push(key);
        assert(self@ =~= old(self)@.push(kv));
        proof {
            vstd::seq_lib::to_multiset_build(old(self)@, kv);
            if self.sorted && sorted_keys(old(self)@) {
                if old(self)@.len() > 0 {
                    lemma_key_lt_total(old(self)@.last(), kv);
                }
                lemma_sorted_push(old(self)@, kv);
            }
        }
    }

    /// Swaps the key at `idx` with the last one and removes position `idx`:
    /// the key returned is the last one, and the key that was at `idx`
    /// moves to the end.
    fn remove(&mut self, idx: usize) -> (r: Key)
        ensures
            r@ == old(self)@.last(),
            final(self)@ == swap_last_then_remove(old(self)@, idx as int),
            final(self).sorted_flag() == old(self).sorted_flag(),
    {
        let len = self.keys.len();
        let last = self.keys.pop().unwrap();
        if idx < len - 1 {
            let moved = self.keys.remove(idx);
            self.keys.push(moved);
            let ghost s = old(self)@;
            assert(self@ =~= swap_last_then_remove(s, idx as int));
        } else {
            assert(self@ =~= swap_last_then_remove(old(self)@, idx as int));
        }
        assert(old(self)@[len - 1] == last@);
        proof {
            lemma_swap_last_then_remove_multiset(old(self)@, idx as int);
        }
        last
    }

    /// Removes the keys at positions `start..end` and returns the first and
    /// the last of them.
    fn remove_range(&mut self, idx_range: Range<usize>) -> (r: (Key, Key))
        ensures
            old(self).order_recorded() ==> final(self).order_recorded(),
            r.0@ == old(self)@[idx_range.start as int],
            r.1@ == old(self)@[idx_range.end - 1],
            final(self)@ == old(self)@.subrange(0, idx_range.start as int) + old(self)@.subrange(
                idx_range.end as int,
                old(self)@.len() as int,
            ),
            final(self).sorted_flag() == old(self).sorted_flag(),
    {
        let start = idx_range.start;
        let end = idx_range.end;
        let ghost s = old(self)@;
        let mut tail = self.keys.split_off(end);
        let mut mid = self.keys.split_off(start);
        self.keys.append(&mut tail);
        assert(self@ =~= s.subrange(0, start as int) + s.subrange(end as int, s.len() as int));
        assert(key_views(mid@) =~= s.subrange(start as int, end as int));
        let last = mid.pop().unwrap();
        let r = if mid.len() == 0 {
            (copy_key(&last), last)
        } else {
            let first = mid.swap_remove(0);
            (first, last)
        };
        assert(s[start as int] == r.0@);
        assert(s[end - 1] == r.1@);
        proof {
            if sorted_keys(s) {
                lemma_sorted_splice(s, start as int, end as int);
            }
            lemma_splice_multiset(s, start as int, end as int);
            lemma_multiset_contains(s, r.0@);
            lemma_multiset_contains(s, r.1@);
        }
        r
    }

    fn get(&self, idx: usize) -> (r: &Key)
        ensures
            r@ == self@[idx as int],
    {
        let r = &self.keys[idx];
        assert(self@[idx as int] == r@);
        proof {
            lemma_multiset_contains(self@, r@);
        }
        r
    }

    fn contains(&self, key: &Key) -> (r: bool) {
        let mut i: usize = 0;
        while i < self.keys.len()
            invariant
                i <= self.keys.len(),
                forall|j: int| 0 <= j < i ==> self@[j] != key@,
            decreases self.keys.len() - i,
        {
            if keys_equal(&self.keys[i], key) {
                assert(self@[i as int] == key@);
                proof {
                    lemma_multiset_contains(self@, key@);
                }
                return true;
            }
            i += 1;
        }
        proof {
            lemma_multiset_contains(self@, key@);
        }
        false
    }

    /// Sorts the keys unless the flag says they are already in order.
    fn sort(&mut self)
        ensures
            old(self).sorted_flag() ==> final(self)@ == old(self)@,
            !old(self).sorted_flag() ==> final(self)@.to_multiset() == old(self)@.to_multiset()
                && sorted_keys(final(self)@),
            final(self).sorted_flag(),
    {
        if !self.sorted {
            let ghost before = self@;
            sort_keys(&mut self.keys);
            self.sorted = true;
        }
    }

    fn can_push(&self) -> (r: bool) {
        true
    }

    fn can_remove(&self, idx: usize) -> (r: bool) {
        idx < self.len()
    }

    fn can_remove_range(&self, start: usize, end: usize) -> (r: bool) {
        start < end && end <= self.len()
    }

    fn can_get(&self, idx: usize) -> (r: bool) {
        idx < self.len()
    }

    fn can_contains(&self) -> (r: bool) {
        true
    }

    fn can_sort(&self) -> (r: bool) {
        true
    }
}

} // verus!
