//! A key set of slots: removing a key empties its slot, and the empty slots
//! are dropped once they make up the threshold share of all slots.
use std::ops::Range;
use vstd::prelude::*;
use vstd::multiset::Multiset;
use crate::keys::{Key, copy_key, key_less, key_lt};
use crate::keyset::KeySet;
use crate::keyset::slots::{
    VEC_OPTION_KEY_SET_FILTER_THRESHOLD_PERCENT, clear_range, count_none, first_hit, first_occupied_in,
    flattened_if_sparse, last_occupied_in, lemma_count_none_le_len, lemma_count_none_multiset,
    lemma_count_none_somes, lemma_count_none_update_none, lemma_count_none_update_some,
    lemma_occupied_sorted_clear, lemma_occupied_sorted_flatten, lemma_occupied_sorted_push,
    lemma_occupied_sorted_update_none, lemma_sorted_slots_occupied_sorted, lemma_slot_keys_clear_range,
    lemma_slot_keys_contains, lemma_slot_keys_flatten,
    lemma_slot_keys_permutation, lemma_slot_keys_push, lemma_slot_keys_update_none, occupied, probe,
    occupied_sorted, slot_keys, somes,
};
use crate::std_collections::{opt_key_views, sort_opt_keys, sorted_opt_keys};

verus! {

/// Keys in slots; `len` counts slots, empty ones included.
pub struct VecOptionKeySet {
    keys: Vec<Option<Key>>,
    sorted: bool,
    none_count: usize,
}

impl View for VecOptionKeySet {
    type V = Seq<Option<Seq<u8>>>;

    closed spec fn view(&self) -> Seq<Option<Seq<u8>>> {
        opt_key_views(self.keys@)
    }
}

/// The flag after pushing `key` behind the slots `s`: it drops when the
/// last slot holds a greater key.
pub open spec fn slot_push_keeps_sorted(flag: bool, s: Seq<Option<Seq<u8>>>, key: Seq<u8>) -> bool {
    flag && !(s.len() > 0 && s.last() is Some && key_lt(key, s.last()->0))
}

/// The slot position where a search from `idx` over `s` stops.
pub open spec fn hit_position(s: Seq<Option<Seq<u8>>>, idx: int) -> int {
    probe(idx, s.len() as int, first_hit(s, idx, 0))
}

/// A search from `idx` finds an occupied slot.
pub open spec fn search_succeeds(s: Seq<Option<Seq<u8>>>, idx: int) -> bool {
    first_hit(s, idx, 0) < s.len()
}

pub proof fn lemma_probe_in_range(idx: int, len: int, j: nat)
    requires
        0 <= idx,
        len > 0,
        j > 0 || idx < len,
    ensures
        0 <= probe(idx, len, j) < len,
    decreases j,
{
    if j > 0 {
        if j > 1 || idx < len {
            lemma_probe_in_range(idx, len, (j - 1) as nat);
        }
    }
}

/// A search that stops at step `j` stops at an occupied slot.
pub proof fn lemma_first_hit_occupied(s: Seq<Option<Seq<u8>>>, idx: int, j: nat)
    requires
        first_hit(s, idx, j) < s.len(),
    ensures
        occupied(s, probe(idx, s.len() as int, first_hit(s, idx, j))),
    decreases s.len() - j,
{
    if j < s.len() && !occupied(s, probe(idx, s.len() as int, j)) {
        lemma_first_hit_occupied(s, idx, j + 1);
    }
}

/// An occupied position in a range is also found searching from its end.
pub proof fn lemma_first_implies_last(s: Seq<Option<Seq<u8>>>, start: int, end: int)
    requires
        start <= end,
        first_occupied_in(s, start, end) < end,
    ensures
        last_occupied_in(s, start, end) >= start,
        start <= first_occupied_in(s, start, end),
        occupied(s, first_occupied_in(s, start, end)),
        occupied(s, last_occupied_in(s, start, end)),
        last_occupied_in(s, start, end) < end,
    decreases end - start,
{
    if start < end {
        if first_occupied_in(s, start, end - 1) < end - 1 {
            lemma_first_implies_last(s, start, end - 1);
        }
    }
}

proof fn lemma_slot_views_update_none(k: Seq<Option<Key>>, i: int)
    requires
        0 <= i < k.len(),
    ensures
        opt_key_views(k.update(i, None)) =~= opt_key_views(k).update(i, None),
{
}

proof fn lemma_somes_prefix(s: Seq<Option<Seq<u8>>>, i: int)
    requires
        0 <= i < s.len(),
    ensures
        somes(s.subrange(0, i + 1)) == if s[i] is Some {
            somes(s.subrange(0, i)).push(s[i])
        } else {
            somes(s.subrange(0, i))
        },
{
    assert(s.subrange(0, i + 1).drop_last() =~= s.subrange(0, i));
}

/// Drops the empty slots of `keys` when they are at least the threshold
/// share; returns the new slot count of empty slots.
fn flatten_slots(keys: &mut Vec<Option<Key>>, none_count: usize) -> (r: usize)
    requires
        none_count == count_none(opt_key_views(old(keys)@)),
    ensures
        opt_key_views(final(keys)@) == flattened_if_sparse(opt_key_views(old(keys)@)),
        r == count_none(opt_key_views(final(keys)@)),
{
    let ghost orig = opt_key_views(keys@);
    if (none_count as u128) * 100 < (keys.len() as u128) * VEC_OPTION_KEY_SET_FILTER_THRESHOLD_PERCENT {
        return none_count;
    }
    let mut taken: Vec<Option<Key>> = Vec::new();
    std::mem::swap(keys, &mut taken);
    let n = taken.len();
    let mut kept: Vec<Option<Key>> = Vec::new();
    let mut i: usize = 0;
    assert(orig.subrange(0, 0) =~= Seq::<Option<Seq<u8>>>::empty());
    while i < n
        invariant
            taken.len() == n,
            n == orig.len(),
            i <= n,
            forall|j: int| i <= j < n ==> opt_key_views(taken@)[j] == #[trigger] orig[j],
            opt_key_views(kept@) == somes(orig.subrange(0, i as int)),
        decreases n - i,
    {
        taken.push(None);
        let slot = taken.swap_remove(i);
        proof {
            lemma_somes_prefix(orig, i as int);
        }
        match slot {
            Some(k) => {
                kept.push(Some(k));
                assert(opt_key_views(kept@) =~= somes(orig.subrange(0, i as int)).push(orig[i as int]));
            },
            None => {
            },
        }
        proof {
            assert forall|j: int| i + 1 <= j < n implies opt_key_views(taken@)[j] == #[trigger] orig[j] by {
            }
        }
        i += 1;
    }
    assert(orig.subrange(0, n as int) =~= orig);
    *keys = kept;
    proof {
        lemma_count_none_somes(orig);
    }
    0
}

/// Once a range holds an occupied slot, extending the range keeps the first
/// one found.
proof fn lemma_first_occupied_stable(s: Seq<Option<Seq<u8>>>, start: int, k: int, k2: int)
    requires
        start <= k <= k2,
        first_occupied_in(s, start, k) < k,
    ensures
        first_occupied_in(s, start, k2) == first_occupied_in(s, start, k),
    decreases k2 - k,
{
    if k2 > k {
        lemma_first_occupied_stable(s, start, k, k2 - 1);
    }
}

impl VecOptionKeySet {
    /// An empty key set with room for `capacity` keys.
    pub fn new(capacity: usize) -> (r: Self)
        ensures
            r.wf(),
            r.spec_len() == 0,
            r.contents() == Multiset::<Seq<u8>>::empty(),
            r.in_order(),
            r.order_recorded(),
            r@ == Seq::<Option<Seq<u8>>>::empty(),
            r.sorted_flag(),
    {
        let r = Self { keys: Vec::with_capacity(capacity), sorted: true, none_count: 0 };
        assert(r@ =~= Seq::<Option<Seq<u8>>>::empty());
        r
    }

    /// The flag that `sort` consults before sorting.
    pub closed spec fn sorted_flag(&self) -> bool {
        self.sorted
    }

    /// The count of empty slots equals the counter.
    pub closed spec fn inv(&self) -> bool {
        self.none_count == count_none(self@)
    }

    /// Drops the empty slots once they are at least the threshold share.
    pub(crate) fn maybe_flatten_in_place(&mut self)
        requires
            old(self).inv(),
        ensures
            final(self).inv(),
            final(self)@ == flattened_if_sparse(old(self)@),
            final(self).sorted_flag() == old(self).sorted_flag(),
    {
        self.none_count = flatten_slots(&mut self.keys, self.none_count);
    }

    /// Empties the slot at `idx` and returns the key it held, if any.
    pub(crate) fn maybe_remove(&mut self, idx: usize) -> (r: Option<Key>)
        requires
            old(self).inv(),
            idx < old(self)@.len(),
        ensures
            final(self).inv(),
            final(self).sorted_flag() == old(self).sorted_flag(),
            final(self)@ == old(self)@.update(idx as int, None),
            old(self)@[idx as int] is Some ==> r is Some && r->0@ == old(self)@[idx as int]->0,
            old(self)@[idx as int] is None ==> r is None,
    {
        let ghost s = self@;
        let ghost k = self.keys@;
        let n = self.keys.len();
        self.keys.push(None);
        let taken = self.keys.swap_remove(idx);
        proof {
            assert(self.keys@ =~= k.update(idx as int, None));
            lemma_slot_views_update_none(k, idx as int);
        }
        match taken {
            Some(key) => {
                proof {
                    lemma_count_none_update_some(s, idx as int);
                    lemma_count_none_le_len(self@);
                    assert(self@.len() == n);
                }
                self.none_count += 1;
                Some(key)
            },
            None => {
                proof {
                    lemma_count_none_update_none(s, idx as int);
                }
                None
            },
        }
    }

    /// Whether a search from `idx` finds an occupied slot.
    pub(crate) fn search_hits(&self, idx: usize) -> (r: bool)
        requires
            idx < usize::MAX,
        ensures
            r == search_succeeds(self@, idx as int),
    {
        let ghost s = self@;
        let len = self.keys.len();
        if len == 0 {
            return false;
        }
        let mut pos = idx;
        let mut j: usize = 0;
        while j < len
            invariant
                self@ == s,
                len == s.len(),
                len > 0,
                j <= len,
                j > 0 ==> pos < len,
                pos < usize::MAX,
                pos == probe(idx as int, len as int, j as nat),
                first_hit(s, idx as int, 0) == first_hit(s, idx as int, j as nat),
            decreases len - j,
        {
            if self.maybe_get(pos).is_some() {
                assert(first_hit(s, idx as int, j as nat) == j);
                return true;
            }
            pos = (pos + 1) % len;
            j += 1;
        }
        false
    }

    /// Whether some slot of `start..end` is occupied.
    pub(crate) fn range_occupied(&self, start: usize, end: usize) -> (r: bool)
        requires
            start <= end <= self@.len(),
        ensures
            r == (first_occupied_in(self@, start as int, end as int) < end),
    {
        let ghost s = self@;
        let mut i = start;
        while i < end
            invariant
                self@ == s,
                start <= i <= end,
                end <= s.len(),
                first_occupied_in(s, start as int, i as int) == i,
            decreases end - i,
        {
            if self.maybe_get(i).is_some() {
                proof {
                    lemma_first_occupied_stable(s, start as int, i + 1, end as int);
                }
                return true;
            }
            i += 1;
        }
        false
    }

    /// The key in the slot at `idx`, if the position exists and is occupied.
    pub(crate) fn maybe_get(&self, idx: usize) -> (r: Option<&Key>)
        ensures
            occupied(self@, idx as int) ==> r is Some && r->0@ == self@[idx as int]->0,
            !occupied(self@, idx as int) ==> r is None,
    {
        if idx < self.keys.len() {
            match &self.keys[idx] {
                Some(k) => Some(k),
                None => None,
            }
        } else {
            None
        }
    }
}

impl KeySet for VecOptionKeySet {
    open spec fn wf(&self) -> bool {
        self.inv()
    }

    open spec fn spec_len(&self) -> nat {
        self@.len()
    }

    open spec fn spec_is_empty(&self) -> bool {
        self@.len() == 0
    }

    open spec fn spec_contains(&self, key: Seq<u8>) -> bool {
        false
    }

    open spec fn contains_exact(&self) -> bool {
        false
    }

    open spec fn contents(&self) -> Multiset<Seq<u8>> {
        slot_keys(self@)
    }

    open spec fn unique_keys(&self) -> bool {
        false
    }

    open spec fn range_contents(&self, start: usize, end: usize) -> Multiset<Seq<u8>> {
        slot_keys(self@.subrange(start as int, end as int))
    }

    /// The keys of the occupied slots stand in order.
    open spec fn in_order(&self) -> bool {
        occupied_sorted(self@)
    }

    open spec fn order_recorded(&self) -> bool {
        self.sorted_flag() ==> occupied_sorted(self@)
    }

    open spec fn key_at(&self, idx: usize) -> Seq<u8> {
        self@[hit_position(self@, idx as int)]->0
    }

    open spec fn removed_at(&self, idx: usize) -> Seq<u8> {
        self@[hit_position(self@, idx as int)]->0
    }

    open spec fn range_ends(&self, start: usize, end: usize) -> (Seq<u8>, Seq<u8>) {
        (self@[first_occupied_in(self@, start as int, end as int)]->0, self@[last_occupied_in(self@, start as int, end as int)]->0)
    }

    open spec fn keeps_keys(&self) -> bool {
        true
    }

    open spec fn push_ok(&self) -> bool {
        true
    }

    open spec fn remove_ok(&self, idx: usize) -> bool {
        idx < self@.len() && search_succeeds(self@, idx as int)
    }

    open spec fn remove_range_ok(&self, start: usize, end: usize) -> bool {
        start <= end <= self@.len() && first_occupied_in(self@, start as int, end as int) < end
    }

    open spec fn get_ok(&self, idx: usize) -> bool {
        idx < usize::MAX && search_succeeds(self@, idx as int)
    }

    open spec fn contains_ok(&self) -> bool {
        false
    }

    open spec fn sort_ok(&self) -> bool {
        true
    }

    fn len(&self) -> (r: usize) {
        self.keys.len()
    }

    fn is_empty(&self) -> (r: bool) {
        self.keys.len() == 0
    }

    fn push(&mut self, key: Key)
        ensures
            old(self).order_recorded() && (old(self)@.len() > 0 ==> old(self)@.last() is Some)
                ==> final(self).order_recorded(),
            final(self)@ == old(self)@.push(Some(key@)),
            final(self).sorted_flag() == slot_push_keeps_sorted(old(self).sorted_flag(), old(self)@, key@),
    {
        let n = self.keys.len();
        if self.sorted && n > 0 {
            match &self.keys[n - 1] {
                Some(last) => {
                    if key_less(&key, last) {
                        self.sorted = false;
                    }
                },
                None => {
                },
            }
        }
        let ghost kv = key@;
        self.keys.push(Some(key));
        assert(self@ =~= old(self)@.push(Some(kv)));
        assert(self@.drop_last() =~= old(self)@);
        proof {
            lemma_slot_keys_push(old(self)@, kv);
            if self.sorted && occupied_sorted(old(self)@) && (old(self)@.len() > 0 ==> old(self)@.last() is Some) {
                lemma_occupied_sorted_push(old(self)@, kv);
            }
        }
    }

    /// Empties the first occupied slot that a cyclic search from `idx`
    /// finds, returns its key, and then drops the empty slots if they have
    /// become the threshold share.
    fn remove(&mut self, idx: usize) -> (r: Key)
        ensures
            old(self).order_recorded() ==> final(self).order_recorded(),
            r@ == old(self)@[hit_position(old(self)@, idx as int)]->0,
            final(self)@ == flattened_if_sparse(old(self)@.update(hit_position(old(self)@, idx as int), None)),
            final(self).sorted_flag() == old(self).sorted_flag(),
    {
        let ghost s = self@;
        let len = self.keys.len();
        let mut pos = idx;
        let mut j: usize = 0;
        while j < len
            invariant
                s == old(self)@,
                self@ == s,
                self.inv(),
                self.sorted == old(self).sorted,
                len == s.len(),
                j <= len,
                pos < len,
                pos == probe(idx as int, len as int, j as nat),
                first_hit(s, idx as int, 0) == first_hit(s, idx as int, j as nat),
                first_hit(s, idx as int, 0) < len,
            decreases len - j,
        {
            match self.maybe_remove(pos) {
                Some(key) => {
                    assert(occupied(s, pos as int));
                    assert(first_hit(s, idx as int, j as nat) == j);
                    self.maybe_flatten_in_place();
                    proof {
                        lemma_slot_keys_update_none(s, pos as int);
                        lemma_slot_keys_flatten(s.update(pos as int, None));
                        assert(s[pos as int] == Some(key@));
                        lemma_slot_keys_contains(s, key@);
                        if occupied_sorted(s) {
                            lemma_occupied_sorted_update_none(s, pos as int);
                            lemma_occupied_sorted_flatten(s.update(pos as int, None));
                        }
                    }
                    return key;
                },
                None => {
                    pos = (pos + 1) % len;
                },
            }
            j += 1;
        }
        proof {
            assert(false);
        }
        Vec::new()
    }

    /// Empties the slots `start..end` and returns the keys of the first and
    /// the last of them that were occupied; then drops the empty slots if
    /// they have become the threshold share.
    fn remove_range(&mut self, idx_range: Range<usize>) -> (r: (Key, Key))
        ensures
            old(self).order_recorded() ==> final(self).order_recorded(),
            r.0@ == old(self)@[first_occupied_in(old(self)@, idx_range.start as int, idx_range.end as int)]->0,
            r.1@ == old(self)@[last_occupied_in(old(self)@, idx_range.start as int, idx_range.end as int)]->0,
            final(self)@ == flattened_if_sparse(
                clear_range(old(self)@, idx_range.start as int, idx_range.end as int),
            ),
            final(self).sorted_flag() == old(self).sorted_flag(),
    {
        let ghost s = self@;
        let start = idx_range.start;
        let end = idx_range.end;
        let mut key1: Option<Key> = None;
        let mut key2: Option<Key> = None;
        let mut i = start;
        assert(self@ =~= clear_range(s, start as int, start as int));
        while i < end
            invariant
                start <= i <= end,
                end <= s.len(),
                self.inv(),
                self.sorted == old(self).sorted,
                self@ == clear_range(s, start as int, i as int),
                key1 is Some <==> first_occupied_in(s, start as int, i as int) < i,
                key1 is Some ==> key1->0@ == s[first_occupied_in(s, start as int, i as int)]->0,
                key2 is Some <==> last_occupied_in(s, start as int, i as int) >= start,
                key2 is Some ==> key2->0@ == s[last_occupied_in(s, start as int, i as int)]->0,
            decreases end - i,
        {
            let ghost before = self@;
            assert(before[i as int] == s[i as int]);
            let removed = self.maybe_remove(i);
            assert(self@ =~= clear_range(s, start as int, i + 1));
            match removed {
                Some(key) => {
                    if key1.is_none() {
                        key1 = Some(copy_key(&key));
                    }
                    key2 = Some(key);
                },
                None => {
                },
            }
            i += 1;
        }
        proof {
            lemma_first_implies_last(s, start as int, end as int);
        }
        self.maybe_flatten_in_place();
        proof {
            lemma_slot_keys_clear_range(s, start as int, end as int);
            lemma_slot_keys_flatten(clear_range(s, start as int, end as int));
            if occupied_sorted(s) {
                lemma_occupied_sorted_clear(s, start as int, end as int);
                lemma_occupied_sorted_flatten(clear_range(s, start as int, end as int));
            }
        }
        match (key1, key2) {
            (Some(k1), Some(k2)) => {
                proof {
                    assert(s[first_occupied_in(s, start as int, end as int)] == Some(k1@));
                    assert(s[last_occupied_in(s, start as int, end as int)] == Some(k2@));
                    lemma_slot_keys_contains(s, k1@);
                    lemma_slot_keys_contains(s, k2@);
                }
                (k1, k2)
            },
            _ => {
                proof {
                    assert(false);
                }
                (Vec::new(), Vec::new())
            },
        }
    }

    /// The key of the first occupied slot that a cyclic search from `idx`
    /// finds; the search starts at `idx` even when it is past the end.
    #[verifier::loop_isolation(false)]
    fn get(&self, idx: usize) -> (r: &Key)
        ensures
            r@ == self@[hit_position(self@, idx as int)]->0,
    {
        let ghost s = self@;
        let len = self.keys.len();
        let mut pos = idx;
        let mut j: usize = 0;
        while j < len
            invariant
                self@ == s,
                len == s.len(),
                j <= len,
                j > 0 ==> pos < len,
                pos < usize::MAX,
                pos == probe(idx as int, len as int, j as nat),
                first_hit(s, idx as int, 0) == first_hit(s, idx as int, j as nat),
                first_hit(s, idx as int, 0) < len,
            decreases len - j,
        {
            match self.maybe_get(pos) {
                Some(key) => {
                    assert(occupied(s, pos as int));
                    assert(first_hit(s, idx as int, j as nat) == j);
                    proof {
                        assert(s[pos as int] == Some(key@));
                        lemma_slot_keys_contains(s, key@);
                    }
                    return key;
                },
                None => {
                    pos = (pos + 1) % len;
                },
            }
            j += 1;
        }
        proof {
            assert(false);
        }
        loop
            decreases 0nat,
        {
        }
    }

    fn contains(&self, _key: &Key) -> (r: bool) {
        false
    }

    /// Unless the flag says the slots are in order, drops the empty slots if
    /// they are the threshold share and sorts the slots, empty ones first.
    fn sort(&mut self)
        ensures
            old(self).sorted_flag() ==> final(self)@ == old(self)@,
            !old(self).sorted_flag() ==> final(self)@.to_multiset() == flattened_if_sparse(
                old(self)@,
            ).to_multiset() && sorted_opt_keys(final(self)@),
            final(self).sorted_flag(),
    {
        if !self.sorted {
            self.maybe_flatten_in_place();
            let ghost before = self@;
            sort_opt_keys(&mut self.keys);
            proof {
                lemma_count_none_multiset(before);
                lemma_count_none_multiset(self@);
                lemma_slot_keys_flatten(old(self)@);
                lemma_slot_keys_permutation(before, self@);
                lemma_sorted_slots_occupied_sorted(self@);
            }
            self.sorted = true;
        }
    }

    fn can_push(&self) -> (r: bool) {
        true
    }

    fn can_remove(&self, idx: usize) -> (r: bool) {
        idx < self.keys.len() && self.search_hits(idx)
    }

    fn can_remove_range(&self, start: usize, end: usize) -> (r: bool) {
        start <= end && end <= self.keys.len() && self.range_occupied(start, end)
    }

    fn can_get(&self, idx: usize) -> (r: bool) {
        idx < usize::MAX && self.search_hits(idx)
    }

    fn can_contains(&self) -> (r: bool) {
        false
    }

    fn can_sort(&self) -> (r: bool) {
        true
    }
}

} // verus!
