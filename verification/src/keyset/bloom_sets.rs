//! Key sets that answer `contains` from a bloom filter of the bloom crate:
//! no pushed key is ever reported missing, and a key never pushed may be
//! reported present. The filter is sized by its caller, from a false
//! positive rate, and handed in.
use bloom::{ASMS, BloomFilter};
use std::ops::Range;
use vstd::prelude::*;
use vstd::multiset::Multiset;
use crate::keys::{
    Key, copy_key, key_less, key_views, lemma_empty_multiset, lemma_key_lt_total,
    lemma_multiset_contains, lemma_permutation_holds, lemma_sorted_push, lemma_sorted_splice, lemma_splice_multiset,
    sorted_keys,
};
use crate::keyset::KeySet;
use crate::keyset::vec_keys::push_keeps_sorted;
use crate::std_collections::sort_keys;

verus! {

/// A bloom filter of the bloom crate, with its default hash builders.
#[verifier::external_type_specification]
#[verifier::external_body]
#[verifier::reject_recursive_types(R)]
#[verifier::reject_recursive_types(S)]
pub struct ExBloomFilter<R, S>(BloomFilter<R, S>);

/// The keys for which the filter's `contains` answers true. The answer is
/// computed from the filter's bits, its number of hashes and the two hash
/// builders that the filter holds.
pub uninterp spec fn bloom_reported(filter: BloomFilter) -> Set<Seq<u8>>;

/// The number of bits of the filter, as `num_bits` reports it.
pub uninterp spec fn bloom_bits(filter: BloomFilter) -> usize;

/// `BloomFilter::num_bits`: the length of the filter's bit vector.
#[verifier::external_body]
fn bloom_num_bits(filter: &BloomFilter) -> (r: usize)
    ensures
        r == bloom_bits(*filter),
{
    filter.num_bits()
}

/// `ASMS::insert` on a bloom filter. Its source sets the bit at each of the
/// key's hash positions and changes nothing else: the bit count stays, every
/// key reported before is still reported, and the key is reported after.
/// It takes each hash modulo the bit count, so it needs at least one bit.
#[verifier::external_body]
fn bloom_insert(filter: &mut BloomFilter, key: &Key)
    requires
        bloom_bits(*old(filter)) > 0,
    ensures
        bloom_bits(*final(filter)) == bloom_bits(*old(filter)),
        bloom_reported(*final(filter)).contains(key@),
        forall|k: Seq<u8>| #[trigger]
            bloom_reported(*old(filter)).contains(k) ==> bloom_reported(*final(filter)).contains(k),
{
    filter.insert(key);
}

/// `ASMS::contains` on a bloom filter: whether every bit at the key's hash
/// positions is set. It takes each hash modulo the bit count, so it needs at
/// least one bit.
#[verifier::external_body]
fn bloom_contains(filter: &BloomFilter, key: &Key) -> (r: bool)
    requires
        bloom_bits(*filter) > 0,
    ensures
        r == bloom_reported(*filter).contains(key@),
{
    filter.contains(key)
}

/// Keys in insertion order, as [`crate::keyset::vec_keys::VecKeySet`] keeps
/// them, with a bloom filter of every key pushed; removal shifts the later
/// keys down and leaves the filter as it is.
pub struct VecBloomFilterKeySet {
    keys: Vec<Key>,
    bf: BloomFilter,
    sorted: bool,
}

impl View for VecBloomFilterKeySet {
    type V = Seq<Seq<u8>>;

    closed spec fn view(&self) -> Seq<Seq<u8>> {
        key_views(self.keys@)
    }
}

impl VecBloomFilterKeySet {
    /// An empty key set over `filter`, with room for `capacity` keys, or
    /// `None` for a filter of no bits.
    pub fn with_filter(filter: BloomFilter, capacity: usize) -> (r: Option<Self>)
        ensures
            r is Some <==> bloom_bits(filter) > 0,
            r matches Some(s) ==> s.wf() && s.spec_len() == 0 && s.contents() == Multiset::<
                Seq<u8>,
            >::empty() && s.in_order() && s.order_recorded() && s@ == Seq::<Seq<u8>>::empty()
                && s.filter() == filter && s.sorted_flag(),
    {
        if bloom_num_bits(&filter) == 0 {
            return None;
        }
        let r = Self { keys: Vec::with_capacity(capacity), bf: filter, sorted: true };
        assert(r@ =~= Seq::<Seq<u8>>::empty());
        proof {
            lemma_empty_multiset(r@);
        }
        Some(r)
    }

    /// The bloom filter.
    pub closed spec fn filter(&self) -> BloomFilter {
        self.bf
    }

    /// The flag that `sort` consults before sorting.
    pub closed spec fn sorted_flag(&self) -> bool {
        self.sorted
    }

    /// The filter has bits, and reports every key of the vector.
    pub closed spec fn inv(&self) -> bool {
        &&& bloom_bits(self.bf) > 0
        &&& forall|k: Seq<u8>| #[trigger] self@.contains(k) ==> bloom_reported(self.bf).contains(k)
    }
}

impl KeySet for VecBloomFilterKeySet {
    open spec fn wf(&self) -> bool {
        self.inv()
    }

    open spec fn spec_len(&self) -> nat {
        self@.len()
    }

    open spec fn spec_is_empty(&self) -> bool {
        self@.len() == 0
    }

    open spec fn spec_contains(&self, key: Seq<u8>) -> bool {
        bloom_reported(self.filter()).contains(key)
    }

    /// A bloom filter may report keys that it was never given.
    open spec fn contains_exact(&self) -> bool {
        false
    }

    open spec fn contents(&self) -> Multiset<Seq<u8>> {
        self@.to_multiset()
    }

    open spec fn unique_keys(&self) -> bool {
        false
    }

    open spec fn range_contents(&self, start: usize, end: usize) -> Multiset<Seq<u8>> {
        self@.subrange(start as int, end as int).to_multiset()
    }

    open spec fn in_order(&self) -> bool {
        sorted_keys(self@)
    }

    open spec fn order_recorded(&self) -> bool {
        self.sorted_flag() ==> sorted_keys(self@)
    }

    open spec fn key_at(&self, idx: usize) -> Seq<u8> {
        self@[idx as int]
    }

    open spec fn removed_at(&self, idx: usize) -> Seq<u8> {
        self@[idx as int]
    }

    open spec fn range_ends(&self, start: usize, end: usize) -> (Seq<u8>, Seq<u8>) {
        (self@[start as int], self@[end - 1])
    }

    open spec fn keeps_keys(&self) -> bool {
        true
    }

    open spec fn push_ok(&self) -> bool {
        true
    }

    open spec fn remove_ok(&self, idx: usize) -> bool {
        idx < self@.len()
    }

    open spec fn remove_range_ok(&self, start: usize, end: usize) -> bool {
        start < end <= self@.len()
    }

    open spec fn get_ok(&self, idx: usize) -> bool {
        idx < self@.len()
    }

    open spec fn contains_ok(&self) -> bool {
        true
    }

    open spec fn sort_ok(&self) -> bool {
        true
    }

    fn len(&self) -> (r: usize) {
        self.keys.len()
    }

    fn is_empty(&self) -> (r: bool) {
        self.keys.len() == 0
    }

    /// Appends the key and adds it to the filter.
    fn push(&mut self, key: Key)
        ensures
            old(self).order_recorded() ==> final(self).order_recorded(),
            final(self)@ == old(self)@.push(key@),
            final(self).sorted_flag() == push_keeps_sorted(old(self).sorted_flag(), old(self)@, key@),
            bloom_reported(final(self).filter()).contains(key@),
    {
        let n = self.keys.len();
        if self.sorted && n > 0 && key_less(&key, &self.keys[n - 1]) {
            self.sorted = false;
        }
        bloom_insert(&mut self.bf, &key);
        let ghost kv = key@;
        self.keys.push(key);
        assert(self@ =~= old(self)@.push(kv));
        proof {
            assert forall|k: Seq<u8>| #[trigger] self@.contains(k) implies bloom_reported(
                self.bf,
            ).contains(k) by {
                let j = choose|j: int| 0 <= j < self@.len() && self@[j] == k;
                if j < n {
                    assert(old(self)@[j] == k);
                    assert(old(self)@.contains(k));
                }
            }
            vstd::seq_lib::to_multiset_build(old(self)@, kv);
            if self.sorted && sorted_keys(old(self)@) {
                if old(self)@.len() > 0 {
                    lemma_key_lt_total(old(self)@.last(), kv);
                }
                lemma_sorted_push(old(self)@, kv);
            }
        }
    }

    /// Removes the key at `idx`, shifting the later keys down.
    fn remove(&mut self, idx: usize) -> (r: Key)
        ensures
            old(self).order_recorded() ==> final(self).order_recorded(),
            r@ == old(self)@[idx as int],
            final(self)@ == old(self)@.remove(idx as int),
            final(self).filter() == old(self).filter(),
            final(self).sorted_flag() == old(self).sorted_flag(),
    {
        let ghost s = self@;
        let key = self.keys.remove(idx);
        assert(self@ =~= s.remove(idx as int));
        assert(s[idx as int] == key@);
        proof {
            assert forall|k: Seq<u8>| #[trigger] self@.contains(k) implies bloom_reported(
                self.bf,
            ).contains(k) by {
                let j = choose|j: int| 0 <= j < self@.len() && self@[j] == k;
                if j < idx {
                    assert(s[j] == k);
                } else {
                    assert(s[j + 1] == k);
                }
                assert(s.contains(k));
            }
            vstd::seq_lib::to_multiset_remove(s, idx as int);
            if sorted_keys(s) {
                lemma_sorted_splice(s, idx as int, idx + 1);
                assert(s.subrange(0, idx as int) + s.subrange(idx + 1, s.len() as int) =~= s.remove(
                    idx as int,
                ));
            }
            lemma_multiset_contains(s, key@);
        }
        key
    }

    /// Removes the keys at positions `start..end` and returns the first and
    /// the last of them.
    fn remove_range(&mut self, idx_range: Range<usize>) -> (r: (Key, Key))
        ensures
            old(self).order_recorded() ==> final(self).order_recorded(),
            r.0@ == old(self)@[idx_range.start as int],
            r.1@ == old(self)@[idx_range.end - 1],
            final(self)@ == old(self)@.subrange(0, idx_range.start as int) + old(self)@.subrange(
                idx_range.end as int,
                old(self)@.len() as int,
            ),
            final(self).filter() == old(self).filter(),
            final(self).sorted_flag() == old(self).sorted_flag(),
    {
        let start = idx_range.start;
        let end = idx_range.end;
        let ghost s = old(self)@;
        let mut tail = self.keys.split_off(end);
        let mut mid = self.keys.split_off(start);
        self.keys.append(&mut tail);
        let ghost rest = s.subrange(0, start as int) + s.subrange(end as int, s.len() as int);
        assert(self@ =~= rest);
        assert(key_views(mid@) =~= s.subrange(start as int, end as int));
        proof {
            assert forall|k: Seq<u8>| #[trigger] self@.contains(k) implies bloom_reported(
                self.bf,
            ).contains(k) by {
                let j = choose|j: int| 0 <= j < rest.len() && rest[j] == k;
                if j < start {
                    assert(s[j] == k);
                } else {
                    assert(s[j + (end - start)] == k);
                }
                assert(s.contains(k));
            }
        }
        let last = mid.pop().unwrap();
        let r = if mid.len() == 0 {
            (copy_key(&last), last)
        } else {
            let first = mid.swap_remove(0);
            (first, last)
        };
        assert(s[start as int] == r.0@);
        assert(s[end - 1] == r.1@);
        proof {
            if sorted_keys(s) {
                lemma_sorted_splice(s, start as int, end as int);
            }
            lemma_splice_multiset(s, start as int, end as int);
            lemma_multiset_contains(s, r.0@);
            lemma_multiset_contains(s, r.1@);
        }
        r
    }

    fn get(&self, idx: usize) -> (r: &Key)
        ensures
            r@ == self@[idx as int],
    {
        let r = &self.keys[idx];
        assert(self@[idx as int] == r@);
        proof {
            lemma_multiset_contains(self@, r@);
        }
        r
    }

    fn contains(&self, key: &Key) -> (r: bool) {
        bloom_contains(&self.bf, key)
    }

    /// Sorts the keys unless the flag says they are already in order.
    fn sort(&mut self)
        ensures
            old(self).sorted_flag() ==> final(self)@ == old(self)@,
            !old(self).sorted_flag() ==> final(self)@.to_multiset() == old(self)@.to_multiset()
                && sorted_keys(final(self)@),
            final(self).filter() == old(self).filter(),
            final(self).sorted_flag(),
    {
        if !self.sorted {
            let ghost s = self@;
            sort_keys(&mut self.keys);
            self.sorted = true;
            proof {
                lemma_permutation_holds(s, self@);
                assert forall|k: Seq<u8>| #[trigger] self@.contains(k) implies bloom_reported(
                    self.bf,
                ).contains(k) by {
                    assert(s.contains(k));
                }
            }
        }
    }

    fn can_push(&self) -> (r: bool) {
        true
    }

    fn can_remove(&self, idx: usize) -> (r: bool) {
        idx < self.keys.len()
    }

    fn can_remove_range(&self, start: usize, end: usize) -> (r: bool) {
        start < end && end <= self.keys.len()
    }

    fn can_get(&self, idx: usize) -> (r: bool) {
        idx < self.keys.len()
    }

    fn can_contains(&self) -> (r: bool) {
        true
    }

    fn can_sort(&self) -> (r: bool) {
        true
    }
}

/// A bloom filter of the keys pushed and their count, without the keys: it
/// answers `contains` and supports neither removal, lookup nor sorting.
pub struct BloomFilterKeySet {
    bf: BloomFilter,
    len: usize,
}

impl BloomFilterKeySet {
    /// An empty key set over `filter`, or `None` for a filter of no bits.
    pub fn with_filter(filter: BloomFilter) -> (r: Option<Self>)
        ensures
            r is Some <==> bloom_bits(filter) > 0,
            r matches Some(s) ==> s.wf() && s.spec_len() == 0 && s.contents() == Multiset::<
                Seq<u8>,
            >::empty() && s.in_order() && s.order_recorded() && s.filter() == filter,
    {
        if bloom_num_bits(&filter) == 0 {
            return None;
        }
        Some(Self { bf: filter, len: 0 })
    }

    /// The bloom filter.
    pub closed spec fn filter(&self) -> BloomFilter {
        self.bf
    }

    /// The number of keys pushed so far.
    pub closed spec fn count(&self) -> nat {
        self.len as nat
    }

    /// The filter has bits.
    pub closed spec fn inv(&self) -> bool {
        bloom_bits(self.bf) > 0
    }
}

impl KeySet for BloomFilterKeySet {
    open spec fn wf(&self) -> bool {
        self.inv()
    }

    open spec fn spec_len(&self) -> nat {
        self.count()
    }

    open spec fn spec_is_empty(&self) -> bool {
        self.count() == 0
    }

    open spec fn spec_contains(&self, key: Seq<u8>) -> bool {
        bloom_reported(self.filter()).contains(key)
    }

    /// A bloom filter may report keys that it was never given.
    open spec fn contains_exact(&self) -> bool {
        false
    }

    open spec fn contents(&self) -> Multiset<Seq<u8>> {
        Multiset::empty()
    }

    open spec fn unique_keys(&self) -> bool {
        false
    }

    open spec fn range_contents(&self, start: usize, end: usize) -> Multiset<Seq<u8>> {
        Multiset::empty()
    }

    open spec fn in_order(&self) -> bool {
        true
    }

    open spec fn order_recorded(&self) -> bool {
        true
    }

    open spec fn key_at(&self, idx: usize) -> Seq<u8> {
        Seq::empty()
    }

    open spec fn removed_at(&self, idx: usize) -> Seq<u8> {
        Seq::empty()
    }

    open spec fn range_ends(&self, start: usize, end: usize) -> (Seq<u8>, Seq<u8>) {
        (Seq::empty(), Seq::empty())
    }

    open spec fn keeps_keys(&self) -> bool {
        false
    }

    open spec fn push_ok(&self) -> bool {
        self.count() < usize::MAX
    }

    open spec fn remove_ok(&self, idx: usize) -> bool {
        false
    }

    open spec fn remove_range_ok(&self, start: usize, end: usize) -> bool {
        false
    }

    open spec fn get_ok(&self, idx: usize) -> bool {
        false
    }

    open spec fn contains_ok(&self) -> bool {
        true
    }

    open spec fn sort_ok(&self) -> bool {
        false
    }

    fn len(&self) -> (r: usize) {
        self.len
    }

    fn is_empty(&self) -> (r: bool) {
        self.len == 0
    }

    /// Adds the key to the filter and counts it.
    fn push(&mut self, key: Key)
        ensures
            final(self).count() == old(self).count() + 1,
            bloom_reported(final(self).filter()).contains(key@),
            forall|k: Seq<u8>| #[trigger]
                bloom_reported(old(self).filter()).contains(k) ==> bloom_reported(
                    final(self).filter(),
                ).contains(k),
    {
        bloom_insert(&mut self.bf, &key);
        self.len = self.len + 1;
    }

    fn remove(&mut self, _idx: usize) -> (r: Key) {
        Vec::new()
    }

    fn remove_range(&mut self, _idx_range: Range<usize>) -> (r: (Key, Key)) {
        (Vec::new(), Vec::new())
    }

    #[verifier::loop_isolation(false)]
    fn get(&self, _idx: usize) -> (r: &Key) {
        loop
            decreases 0nat,
        {
        }
    }

    fn contains(&self, key: &Key) -> (r: bool) {
        bloom_contains(&self.bf, key)
    }

    fn sort(&mut self) {
    }

    fn can_push(&self) -> (r: bool) {
        self.len < usize::MAX
    }

    fn can_remove(&self, _idx: usize) -> (r: bool) {
        false
    }

    fn can_remove_range(&self, _start: usize, _end: usize) -> (r: bool) {
        false
    }

    fn can_get(&self, _idx: usize) -> (r: bool) {
        false
    }

    fn can_contains(&self) -> (r: bool) {
        true
    }

    fn can_sort(&self) -> (r: bool) {
        false
    }
}

} // verus!
