//! A slot key set with a hash set of its keys that answers `contains`.
use std::collections::HashSet;
use std::ops::Range;
use vstd::prelude::*;
use vstd::multiset::Multiset;
use crate::keys::{Key, copy_key};
use crate::keyset::KeySet;
use crate::keyset::slots::{
    clear_range, first_occupied_in, flattened_if_sparse, keys_held, last_occupied_in,
    lemma_keys_held_flatten, lemma_keys_held_permutation, lemma_keys_held_push,
    lemma_keys_held_remove, lemma_occupied_sorted_clear, lemma_occupied_sorted_flatten,
    lemma_slot_keys_clear_range, lemma_slot_keys_contains,
    lemma_slot_key_set_empty, lemma_slot_key_set_step, lemma_slot_keys_flatten, occupied,
    occupied_sorted, slot_key_set, slot_keys,
};
use crate::keyset::vec_option::{
    VecOptionKeySet, hit_position, lemma_first_implies_last, search_succeeds, slot_push_keeps_sorted,
};
use crate::std_collections::{
    key_hash_set_contains, key_hash_set_contents, key_hash_set_insert, key_hash_set_remove,
    key_hash_set_with_capacity, sorted_opt_keys,
};

verus! {

/// Keys in slots as in [`VecOptionKeySet`], together with a hash set of the
/// keys. Removing one of two equal keys removes the key from the hash set,
/// so the hash set holds a subset of the keys in the slots.
pub struct VecOptionHashSetKeySet {
    keys: VecOptionKeySet,
    set: HashSet<Key>,
}

impl View for VecOptionHashSetKeySet {
    type V = Seq<Option<Seq<u8>>>;

    closed spec fn view(&self) -> Seq<Option<Seq<u8>>> {
        self.keys@
    }
}

impl VecOptionHashSetKeySet {
    /// An empty key set with room for `capacity` keys.
    pub fn new(capacity: usize) -> (r: Self)
        ensures
            r.wf(),
            r.spec_len() == 0,
            r.contents() == Multiset::<Seq<u8>>::empty(),
            r.in_order(),
            r.order_recorded(),
            r@ == Seq::<Option<Seq<u8>>>::empty(),
            r.key_set() == Set::<Seq<u8>>::empty(),
            r.sorted_flag(),
    {
        Self { keys: VecOptionKeySet::new(capacity), set: key_hash_set_with_capacity(capacity) }
    }

    /// The keys that `contains` reports.
    pub closed spec fn key_set(&self) -> Set<Seq<u8>> {
        key_hash_set_contents(self.set)
    }

    /// The flag that `sort` consults before sorting.
    pub closed spec fn sorted_flag(&self) -> bool {
        self.keys.sorted_flag()
    }

    /// The slot counter is right and every key of the hash set is in a slot.
    pub closed spec fn inv(&self) -> bool {
        &&& self.keys.inv()
        &&& keys_held(self.key_set(), self@)
    }

    /// Drops the empty slots once they are at least the threshold share.
    fn maybe_flatten_in_place(&mut self)
        requires
            old(self).inv(),
        ensures
            final(self).inv(),
            final(self)@ == flattened_if_sparse(old(self)@),
            final(self).key_set() == old(self).key_set(),
            final(self).sorted_flag() == old(self).sorted_flag(),
    {
        proof {
            lemma_keys_held_flatten(self.key_set(), self@);
        }
        self.keys.maybe_flatten_in_place();
    }

    /// Empties the slot at `idx` and returns the key it held, if any; the
    /// hash set is left as it is.
    fn maybe_remove(&mut self, idx: usize) -> (r: Option<Key>)
        requires
            old(self).keys.inv(),
            idx < old(self)@.len(),
        ensures
            final(self).keys.inv(),
            final(self).key_set() == old(self).key_set(),
            final(self).sorted_flag() == old(self).sorted_flag(),
            final(self)@ == old(self)@.update(idx as int, None),
            old(self)@[idx as int] is Some ==> r is Some && r->0@ == old(self)@[idx as int]->0,
            old(self)@[idx as int] is None ==> r is None,
    {
        self.keys.maybe_remove(idx)
    }

    /// The key in the slot at `idx`, if the position exists and is occupied.
    fn maybe_get(&self, idx: usize) -> (r: Option<&Key>)
        ensures
            occupied(self@, idx as int) ==> r is Some && r->0@ == self@[idx as int]->0,
            !occupied(self@, idx as int) ==> r is None,
    {
        self.keys.maybe_get(idx)
    }
}

impl KeySet for VecOptionHashSetKeySet {
    open spec fn wf(&self) -> bool {
        self.inv()
    }

    open spec fn spec_len(&self) -> nat {
        self@.len()
    }

    open spec fn spec_is_empty(&self) -> bool {
        self@.len() == 0
    }

    open spec fn spec_contains(&self, key: Seq<u8>) -> bool {
        self.key_set().contains(key)
    }

    /// Exact while the hash set holds every key of the slots; removing one
    /// of two equal keys leaves it short of the other.
    open spec fn contains_exact(&self) -> bool {
        forall|k: Seq<u8>| #[trigger] self@.contains(Some(k)) ==> self.key_set().contains(k)
    }

    open spec fn contents(&self) -> Multiset<Seq<u8>> {
        slot_keys(self@)
    }

    open spec fn unique_keys(&self) -> bool {
        false
    }

    open spec fn range_contents(&self, start: usize, end: usize) -> Multiset<Seq<u8>> {
        slot_keys(self@.subrange(start as int, end as int))
    }

    /// The keys of the occupied slots stand in order.
    open spec fn in_order(&self) -> bool {
        occupied_sorted(self@)
    }

    open spec fn order_recorded(&self) -> bool {
        self.sorted_flag() ==> occupied_sorted(self@)
    }

    open spec fn key_at(&self, idx: usize) -> Seq<u8> {
        self@[hit_position(self@, idx as int)]->0
    }

    open spec fn removed_at(&self, idx: usize) -> Seq<u8> {
        self@[hit_position(self@, idx as int)]->0
    }

    open spec fn range_ends(&self, start: usize, end: usize) -> (Seq<u8>, Seq<u8>) {
        (self@[first_occupied_in(self@, start as int, end as int)]->0, self@[last_occupied_in(self@, start as int, end as int)]->0)
    }

    open spec fn keeps_keys(&self) -> bool {
        true
    }

    open spec fn push_ok(&self) -> bool {
        true
    }

    open spec fn remove_ok(&self, idx: usize) -> bool {
        idx < self@.len() && search_succeeds(self@, idx as int)
    }

    open spec fn remove_range_ok(&self, start: usize, end: usize) -> bool {
        start <= end <= self@.len() && first_occupied_in(self@, start as int, end as int) < end
    }

    open spec fn get_ok(&self, idx: usize) -> bool {
        idx < usize::MAX && search_succeeds(self@, idx as int)
    }

    open spec fn contains_ok(&self) -> bool {
        true
    }

    open spec fn sort_ok(&self) -> bool {
        true
    }

    fn len(&self) -> (r: usize) {
        self.keys.len()
    }

    fn is_empty(&self) -> (r: bool) {
        self.keys.is_empty()
    }

    fn push(&mut self, key: Key)
        ensures
            old(self).order_recorded() && (old(self)@.len() > 0 ==> old(self)@.last() is Some)
                ==> final(self).order_recorded(),
            final(self)@ == old(self)@.push(Some(key@)),
            final(self).key_set() == old(self).key_set().insert(key@),
            final(self).sorted_flag() == slot_push_keeps_sorted(old(self).sorted_flag(), old(self)@, key@),
    {
        proof {
            lemma_keys_held_push(self.key_set(), self@, key@);
        }
        let ghost kv = key@;
        key_hash_set_insert(&mut self.set, copy_key(&key));
        self.keys.push(key);
    }

    /// Removes the key that a cyclic search from `idx` finds, as
    /// [`VecOptionKeySet`] does, and removes it from the hash set.
    fn remove(&mut self, idx: usize) -> (r: Key)
        ensures
            old(self).order_recorded() ==> final(self).order_recorded(),
            r@ == old(self)@[hit_position(old(self)@, idx as int)]->0,
            final(self)@ == flattened_if_sparse(old(self)@.update(hit_position(old(self)@, idx as int), None)),
            final(self).key_set() == old(self).key_set().remove(r@),
            final(self).sorted_flag() == old(self).sorted_flag(),
    {
        let ghost s = self@;
        let ghost p = hit_position(s, idx as int);
        proof {
            crate::keyset::vec_option::lemma_first_hit_occupied(s, idx as int, 0);
        }
        let key = self.keys.remove(idx);
        proof {
            lemma_keys_held_remove(self.key_set(), s, p, key@);
            lemma_keys_held_flatten(self.key_set().remove(key@), s.update(p, None));
        }
        key_hash_set_remove(&mut self.set, &key);
        key
    }

    /// Empties the slots `start..end`, removes their keys from the hash set,
    /// and returns the keys of the first and the last occupied slot among
    /// them; then drops the empty slots if they have become the threshold
    /// share.
    fn remove_range(&mut self, idx_range: Range<usize>) -> (r: (Key, Key))
        ensures
            old(self).order_recorded() ==> final(self).order_recorded(),
            r.0@ == old(self)@[first_occupied_in(old(self)@, idx_range.start as int, idx_range.end as int)]->0,
            r.1@ == old(self)@[last_occupied_in(old(self)@, idx_range.start as int, idx_range.end as int)]->0,
            final(self)@ == flattened_if_sparse(
                clear_range(old(self)@, idx_range.start as int, idx_range.end as int),
            ),
            forall|k: Seq<u8>| #[trigger]
                final(self).key_set().contains(k) ==> old(self).key_set().contains(k),
            forall|i: int|
                idx_range.start <= i < idx_range.end && occupied(old(self)@, i)
                    ==> !final(self).key_set().contains(#[trigger] old(self)@[i]->0),
            final(self).key_set() == old(self).key_set().difference(
                slot_key_set(old(self)@, idx_range.start as int, idx_range.end as int),
            ),
            final(self).sorted_flag() == old(self).sorted_flag(),
    {
        let ghost s = self@;
        let ghost set0 = self.key_set();
        let start = idx_range.start;
        let end = idx_range.end;
        let mut key1: Option<Key> = None;
        let mut key2: Option<Key> = None;
        let mut i = start;
        assert(self@ =~= clear_range(s, start as int, start as int));
        proof {
            lemma_slot_key_set_empty(s, start as int);
            assert(set0.difference(slot_key_set(s, start as int, start as int)) =~= set0);
        }
        while i < end
            invariant
                start <= i <= end,
                end <= s.len(),
                self.inv(),
                self.sorted_flag() == old(self).sorted_flag(),
                self@ == clear_range(s, start as int, i as int),
                forall|k: Seq<u8>| #[trigger] self.key_set().contains(k) ==> set0.contains(k),
                self.key_set() == set0.difference(slot_key_set(s, start as int, i as int)),
                forall|j: int|
                    start <= j < i && occupied(s, j) ==> !self.key_set().contains(#[trigger] s[j]->0),
                key1 is Some <==> first_occupied_in(s, start as int, i as int) < i,
                key1 is Some ==> key1->0@ == s[first_occupied_in(s, start as int, i as int)]->0,
                key2 is Some <==> last_occupied_in(s, start as int, i as int) >= start,
                key2 is Some ==> key2->0@ == s[last_occupied_in(s, start as int, i as int)]->0,
            decreases end - i,
        {
            let ghost before = self@;
            let ghost set_before = self.key_set();
            assert(before[i as int] == s[i as int]);
            proof {
                lemma_slot_key_set_step(s, start as int, i as int);
            }
            let removed = self.maybe_remove(i);
            assert(self@ =~= clear_range(s, start as int, i + 1));
            match removed {
                Some(key) => {
                    proof {
                        lemma_keys_held_remove(self.key_set(), before, i as int, key@);
                    }
                    key_hash_set_remove(&mut self.set, &key);
                    proof {
                        assert(s[i as int] == Some(key@));
                        assert(self.key_set() =~= set0.difference(
                            slot_key_set(s, start as int, i + 1),
                        ));
                    }
                    if key1.is_none() {
                        key1 = Some(copy_key(&key));
                    }
                    key2 = Some(key);
                },
                None => {
                    proof {
                        lemma_keys_held_remove(self.key_set(), before, i as int, Seq::empty());
                        assert(self.key_set().remove(Seq::empty()).subset_of(self.key_set()));
                        assert forall|k: Seq<u8>| #[trigger] self.key_set().contains(k) implies self@.contains(Some(k)) by {
                            let j = choose|j: int| 0 <= j < before.len() && before[j] == Some(k);
                            assert(self@[j] == Some(k));
                        }
                    }
                },
            }
            i += 1;
        }
        proof {
            lemma_first_implies_last(s, start as int, end as int);
        }
        self.maybe_flatten_in_place();
        proof {
            lemma_slot_keys_clear_range(s, start as int, end as int);
            lemma_slot_keys_flatten(clear_range(s, start as int, end as int));
            if occupied_sorted(s) {
                lemma_occupied_sorted_clear(s, start as int, end as int);
                lemma_occupied_sorted_flatten(clear_range(s, start as int, end as int));
            }
        }
        match (key1, key2) {
            (Some(k1), Some(k2)) => {
                proof {
                    assert(s[first_occupied_in(s, start as int, end as int)] == Some(k1@));
                    assert(s[last_occupied_in(s, start as int, end as int)] == Some(k2@));
                    lemma_slot_keys_contains(s, k1@);
                    lemma_slot_keys_contains(s, k2@);
                }
                (k1, k2)
            },
            _ => {
                proof {
                    assert(false);
                }
                (Vec::new(), Vec::new())
            },
        }
    }

    /// The key of the first occupied slot that a cyclic search from `idx`
    /// finds.
    fn get(&self, idx: usize) -> (r: &Key)
        ensures
            r@ == self@[hit_position(self@, idx as int)]->0,
    {
        self.keys.get(idx)
    }

    fn contains(&self, key: &Key) -> (r: bool) {
        proof {
            lemma_slot_keys_contains(self@, key@);
        }
        key_hash_set_contains(&self.set, key)
    }

    /// Sorts as [`VecOptionKeySet`] does; the hash set is left as it is.
    fn sort(&mut self)
        ensures
            old(self).sorted_flag() ==> final(self)@ == old(self)@,
            !old(self).sorted_flag() ==> final(self)@.to_multiset() == flattened_if_sparse(
                old(self)@,
            ).to_multiset() && sorted_opt_keys(final(self)@),
            final(self).key_set() == old(self).key_set(),
            final(self).sorted_flag(),
    {
        let ghost s = self@;
        proof {
            lemma_keys_held_flatten(self.key_set(), s);
        }
        self.keys.sort();
        proof {
            if !old(self).sorted_flag() {
                lemma_keys_held_permutation(self.key_set(), flattened_if_sparse(s), self@);
            }
        }
    }

    fn can_push(&self) -> (r: bool) {
        true
    }

    fn can_remove(&self, idx: usize) -> (r: bool) {
        self.keys.can_remove(idx)
    }

    fn can_remove_range(&self, start: usize, end: usize) -> (r: bool) {
        self.keys.can_remove_range(start, end)
    }

    fn can_get(&self, idx: usize) -> (r: bool) {
        self.keys.can_get(idx)
    }

    fn can_contains(&self) -> (r: bool) {
        true
    }

    fn can_sort(&self) -> (r: bool) {
        true
    }
}

} // verus!
