//! An ordered set of distinct keys, kept as a strictly increasing vector.
use std::ops::Range;
use vstd::prelude::*;
use vstd::multiset::Multiset;
use crate::keys::{
    Key, copy_key, key_less, key_lt, key_views, keys_equal, lemma_empty_multiset,
    lemma_key_lt_irreflexive, lemma_key_lt_total, lemma_key_lt_transitive, lemma_multiset_contains,
    lemma_splice_multiset, sorted_keys, strictly_sorted_keys,
};
use crate::keyset::KeySet;

verus! {

/// Distinct keys in increasing order; positions count in that order.
/// Pushing a key that is already present does nothing, and sorting does
/// nothing since the keys are always in order.
pub struct BTreeSetKeySet {
    keys: Vec<Key>,
}

impl View for BTreeSetKeySet {
    type V = Seq<Seq<u8>>;

    closed spec fn view(&self) -> Seq<Seq<u8>> {
        key_views(self.keys@)
    }
}

impl BTreeSetKeySet {
    /// An empty key set with room for `capacity` keys.
    pub fn new(_capacity: usize) -> (r: Self)
        ensures
            r.wf(),
            r.spec_len() == 0,
            r.contents() == Multiset::<Seq<u8>>::empty(),
            r.in_order(),
            r.order_recorded(),
            r@ == Seq::<Seq<u8>>::empty(),
    {
        let r = Self { keys: Vec::new() };
        assert(r@ =~= Seq::<Seq<u8>>::empty());
        proof {
            lemma_empty_multiset(r@);
        }
        r
    }

    /// The keys are strictly increasing.
    pub closed spec fn inv(&self) -> bool {
        strictly_sorted_keys(self@)
    }

    /// The number of keys before `key` in the order: where `key` is or
    /// would go.
    fn lower_bound(&self, key: &Key) -> (r: usize)
        requires
            self.inv(),
        ensures
            r <= self@.len(),
            forall|i: int| 0 <= i < r ==> key_lt(#[trigger] self@[i], key@),
            forall|i: int| r <= i < self@.len() ==> !key_lt(#[trigger] self@[i], key@),
    {
        let mut lo: usize = 0;
        let mut hi: usize = self.keys.len();
        while lo < hi
            invariant
                self.inv(),
                lo <= hi <= self@.len(),
                forall|i: int| 0 <= i < lo ==> key_lt(#[trigger] self@[i], key@),
                forall|i: int| hi <= i < self@.len() ==> !key_lt(#[trigger] self@[i], key@),
            decreases hi - lo,
        {
            let mid = lo + (hi - lo) / 2;
            if key_less(&self.keys[mid], key) {
                proof {
                    assert forall|i: int| 0 <= i < mid + 1 implies key_lt(#[trigger] self@[i], key@) by {
                        if i < mid {
                            lemma_key_lt_transitive(self@[i], self@[mid as int], key@);
                        }
                    }
                }
                lo = mid + 1;
            } else {
                proof {
                    assert forall|i: int| mid <= i < self@.len() implies !key_lt(#[trigger] self@[i], key@) by {
                        if i > mid && key_lt(self@[i], key@) {
                            lemma_key_lt_transitive(self@[mid as int], self@[i], key@);
                        }
                    }
                }
                hi = mid;
            }
        }
        lo
    }
}

proof fn lemma_not_found(s: Seq<Seq<u8>>, k: Seq<u8>, pos: int)
    requires
        strictly_sorted_keys(s),
        0 <= pos <= s.len(),
        forall|i: int| 0 <= i < pos ==> key_lt(#[trigger] s[i], k),
        forall|i: int| pos <= i < s.len() ==> !key_lt(#[trigger] s[i], k),
        pos < s.len() ==> s[pos] != k,
    ensures
        !s.contains(k),
{
    if s.contains(k) {
        let j = choose|j: int| 0 <= j < s.len() && s[j] == k;
        if j < pos {
            lemma_key_lt_irreflexive(k);
        } else {
            lemma_key_lt_total(s[pos], k);
            assert(key_lt(k, s[pos]));
            if j > pos {
                lemma_key_lt_transitive(k, s[pos], s[j]);
            }
            lemma_key_lt_irreflexive(k);
        }
    }
}

/// How many keys a range `start..end` takes from `len` keys: up to
/// `end - start`, and no more than there are from `start` on.
pub open spec fn range_taken(len: nat, start: usize, end: usize) -> int {
    if end - start <= len - start {
        end - start
    } else {
        len - start
    }
}

proof fn lemma_strictly_sorted_is_sorted(s: Seq<Seq<u8>>)
    requires
        strictly_sorted_keys(s),
    ensures
        sorted_keys(s),
{
    assert forall|i: int, j: int| 0 <= i < j < s.len() implies crate::keys::key_le(s[i], s[j]) by {
        if key_lt(s[j], s[i]) {
            lemma_key_lt_transitive(s[i], s[j], s[i]);
            lemma_key_lt_irreflexive(s[i]);
        }
    }
}

impl KeySet for BTreeSetKeySet {
    open spec fn wf(&self) -> bool {
        self.inv()
    }

    open spec fn spec_len(&self) -> nat {
        self@.len()
    }

    open spec fn spec_is_empty(&self) -> bool {
        self@.len() == 0
    }

    open spec fn spec_contains(&self, key: Seq<u8>) -> bool {
        self@.contains(key)
    }

    open spec fn contains_exact(&self) -> bool {
        true
    }

    open spec fn contents(&self) -> Multiset<Seq<u8>> {
        self@.to_multiset()
    }

    open spec fn unique_keys(&self) -> bool {
        true
    }

    /// The keys from `start` on, up to `end - start` of them.
    open spec fn range_contents(&self, start: usize, end: usize) -> Multiset<Seq<u8>> {
        self@.subrange(start as int, start + range_taken(self@.len(), start, end)).to_multiset()
    }

    open spec fn in_order(&self) -> bool {
        sorted_keys(self@)
    }

    open spec fn order_recorded(&self) -> bool {
        true
    }

    open spec fn key_at(&self, idx: usize) -> Seq<u8> {
        self@[idx as int]
    }

    open spec fn removed_at(&self, idx: usize) -> Seq<u8> {
        self@[idx as int]
    }

    /// The key at `start`, and the last key that the range takes from the
    /// keys from `start` on (the key at `start` again when it takes none).
    open spec fn range_ends(&self, start: usize, end: usize) -> (Seq<u8>, Seq<u8>) {
        let m = range_taken(self@.len(), start, end);
        (self@[start as int], if m > 0 { self@[start + m - 1] } else { self@[start as int] })
    }

    open spec fn keeps_keys(&self) -> bool {
        true
    }

    open spec fn push_ok(&self) -> bool {
        true
    }

    open spec fn remove_ok(&self, idx: usize) -> bool {
        idx < self@.len()
    }

    open spec fn remove_range_ok(&self, start: usize, end: usize) -> bool {
        start < self@.len() && start <= end
    }

    open spec fn get_ok(&self, idx: usize) -> bool {
        idx < self@.len()
    }

    open spec fn contains_ok(&self) -> bool {
        true
    }

    open spec fn sort_ok(&self) -> bool {
        true
    }

    fn len(&self) -> (r: usize) {
        self.keys.len()
    }

    fn is_empty(&self) -> (r: bool) {
        self.keys.len() == 0
    }

    /// Inserts the key at its place in the order unless it is present.
    fn push(&mut self, key: Key)
        ensures
            final(self)@.to_set() == old(self)@.to_set().insert(key@),
    {
        let pos = self.lower_bound(&key);
        let ghost s = self@;
        if pos < self.keys.len() && keys_equal(&self.keys[pos], &key) {
            assert(s.to_set() =~= s.to_set().insert(key@)) by {
                assert(s[pos as int] == key@);
            }
            assert(s[pos as int] == key@);
            proof {
                lemma_multiset_contains(s, key@);
            }
            return;
        }
        proof {
            lemma_not_found(s, key@, pos as int);
            lemma_multiset_contains(s, key@);
            vstd::seq_lib::to_multiset_insert(s, pos as int, key@);
        }
        self.keys.insert(pos, key);
        let ghost t = s.insert(pos as int, key@);
        assert(self@ =~= t);
        proof {
            assert forall|i: int, j: int| 0 <= i < j < t.len() implies key_lt(t[i], t[j]) by {
                if j == pos {
                    assert(key_lt(s[i], key@));
                } else if i == pos {
                    lemma_key_lt_total(s[j - 1], key@);
                    if j - 1 > pos {
                        assert(!key_lt(s[j - 1], key@));
                    }
                    assert(s[pos as int] != key@);
                    if j - 1 > pos {
                        lemma_key_lt_total(s[pos as int], key@);
                        lemma_key_lt_transitive(key@, s[pos as int], s[j - 1]);
                    }
                } else if i < pos && j > pos {
                    lemma_key_lt_total(s[pos as int], key@);
                    if pos < s.len() {
                        lemma_key_lt_transitive(s[i], key@, s[pos as int]);
                        if j - 1 > pos {
                            lemma_key_lt_transitive(s[i], s[pos as int], s[j - 1]);
                        }
                    }
                }
            }
            assert forall|x: Seq<u8>| t.to_set().contains(x) == s.to_set().insert(key@).contains(x) by {
                if t.contains(x) {
                    let j = choose|j: int| 0 <= j < t.len() && t[j] == x;
                    if j < pos {
                        assert(s[j] == x);
                    } else if j > pos {
                        assert(s[j - 1] == x);
                    }
                }
                if s.contains(x) {
                    let j = choose|j: int| 0 <= j < s.len() && s[j] == x;
                    if j < pos {
                        assert(t[j] == x);
                    } else {
                        assert(t[j + 1] == x);
                    }
                }
                if x == key@ {
                    assert(t[pos as int] == x);
                }
            }
            assert(t.to_set() =~= s.to_set().insert(key@));
            assert(t[pos as int] == key@);
            assert forall|k: Seq<u8>| s.contains(k) implies #[trigger] t.contains(k) by {
                assert(t.to_set().contains(k));
            }
        }
    }

    /// Removes and returns the key at position `idx` of the order.
    fn remove(&mut self, idx: usize) -> (r: Key)
        ensures
            r@ == old(self)@[idx as int],
            final(self)@ == old(self)@.remove(idx as int),
    {
        let ghost s = self@;
        let key = self.keys.remove(idx);
        assert(self@ =~= s.remove(idx as int));
        proof {
            assert forall|i: int, j: int| 0 <= i < j < self@.len() implies key_lt(self@[i], self@[j]) by {
                let i0 = if i < idx { i } else { i + 1 };
                let j0 = if j < idx { j } else { j + 1 };
                assert(self@[i] == s[i0]);
                assert(self@[j] == s[j0]);
            }
        }
        assert(s[idx as int] == key@);
        proof {
            vstd::seq_lib::to_multiset_remove(s, idx as int);
            lemma_multiset_contains(s, key@);
        }
        key
    }

    /// Removes up to `end - start` keys from position `start` on; returns
    /// the key at `start` and the last key removed, or the key at `start`
    /// twice when nothing is removed.
    fn remove_range(&mut self, idx_range: Range<usize>) -> (r: (Key, Key))
        ensures
            ({
                let s = old(self)@;
                let start = idx_range.start as int;
                let m = if idx_range.end - idx_range.start <= s.len() - start {
                    idx_range.end - idx_range.start
                } else {
                    s.len() - start
                };
                &&& r.0@ == s[start]
                &&& m == 0 ==> r.1@ == s[start] && final(self)@ == s
                &&& m > 0 ==> r.1@ == s[start + m - 1] && final(self)@ == s.subrange(0, start)
                    + s.subrange(start + m, s.len() as int)
            }),
    {
        let ghost s = self@;
        let start = idx_range.start;
        let count = idx_range.end - idx_range.start;
        let len = self.keys.len();
        let m = if count <= len - start {
            count
        } else {
            len - start
        };
        if m == 0 {
            let k = copy_key(&self.keys[start]);
            assert(s[start as int] == k@);
            proof {
                lemma_empty_multiset(s.subrange(start as int, start as int));
                lemma_multiset_contains(s, k@);
                broadcast use vstd::multiset::group_multiset_axioms;
                assert(s.to_multiset().sub(s.subrange(start as int, start as int).to_multiset()) =~= s.to_multiset());
            }
            return (copy_key(&k), k);
        }
        let mut tail = self.keys.split_off(start + m);
        let mut mid = self.keys.split_off(start);
        self.keys.append(&mut tail);
        let ghost t = s.subrange(0, start as int) + s.subrange(start + m, s.len() as int);
        assert(self@ =~= t);
        assert(key_views(mid@) =~= s.subrange(start as int, start + m));
        proof {
            assert forall|i: int, j: int| 0 <= i < j < t.len() implies key_lt(t[i], t[j]) by {
                let i0 = if i < start { i } else { i + m };
                let j0 = if j < start { j } else { j + m };
                assert(t[i] == s[i0]);
                assert(t[j] == s[j0]);
            }
        }
        let last = mid.pop().unwrap();
        let r = if mid.len() == 0 {
            (copy_key(&last), last)
        } else {
            let first = mid.swap_remove(0);
            (first, last)
        };
        assert(s[start as int] == r.0@);
        assert(s[start + m - 1] == r.1@);
        proof {
            lemma_splice_multiset(s, start as int, start + m);
            lemma_multiset_contains(s, r.0@);
            lemma_multiset_contains(s, r.1@);
        }
        r
    }

    fn get(&self, idx: usize) -> (r: &Key)
        ensures
            r@ == self@[idx as int],
    {
        let r = &self.keys[idx];
        assert(self@[idx as int] == r@);
        proof {
            lemma_multiset_contains(self@, r@);
        }
        r
    }

    fn contains(&self, key: &Key) -> (r: bool) {
        let pos = self.lower_bound(key);
        if pos < self.keys.len() && keys_equal(&self.keys[pos], key) {
            assert(self@[pos as int] == key@);
            proof {
                lemma_multiset_contains(self@, key@);
            }
            true
        } else {
            proof {
                lemma_not_found(self@, key@, pos as int);
                lemma_multiset_contains(self@, key@);
            }
            false
        }
    }

    /// Nothing to do: the keys are always in order.
    fn sort(&mut self)
        ensures
            final(self)@ == old(self)@,
    {
        proof {
            lemma_strictly_sorted_is_sorted(self@);
        }
    }

    fn can_push(&self) -> (r: bool) {
        true
    }

    fn can_remove(&self, idx: usize) -> (r: bool) {
        idx < self.len()
    }

    fn can_remove_range(&self, start: usize, end: usize) -> (r: bool) {
        start < self.len() && start <= end
    }

    fn can_get(&self, idx: usize) -> (r: bool) {
        idx < self.len()
    }

    fn can_contains(&self) -> (r: bool) {
        true
    }

    fn can_sort(&self) -> (r: bool) {
        true
    }
}

} // verus!
