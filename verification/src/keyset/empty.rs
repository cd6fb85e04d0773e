//! A key set that stores nothing and only counts insertions.
use std::ops::Range;
use vstd::prelude::*;
use vstd::multiset::Multiset;
use crate::keys::Key;
use crate::keyset::KeySet;

verus! {

/// Counts pushed keys without keeping them. It reports itself as never
/// empty, so that generation skips the initial inserts into it; it never
/// contains a key and supports neither removal, lookup nor sorting.
pub struct EmptyKeySet {
    len: usize,
}

impl EmptyKeySet {
    /// An empty key set with room for `capacity` keys.
    pub fn new(_capacity: usize) -> (r: Self)
        ensures
            r.wf(),
            r.spec_len() == 0,
            r.contents() == Multiset::<Seq<u8>>::empty(),
            r.in_order(),
            r.order_recorded(),
    {
        Self { len: 0 }
    }

    /// The number of keys pushed so far.
    pub closed spec fn count(&self) -> nat {
        self.len as nat
    }
}

impl KeySet for EmptyKeySet {
    open spec fn wf(&self) -> bool {
        true
    }

    open spec fn spec_len(&self) -> nat {
        self.count()
    }

    open spec fn spec_is_empty(&self) -> bool {
        false
    }

    open spec fn spec_contains(&self, key: Seq<u8>) -> bool {
        false
    }

    open spec fn contains_exact(&self) -> bool {
        true
    }

    open spec fn contents(&self) -> Multiset<Seq<u8>> {
        Multiset::empty()
    }

    open spec fn unique_keys(&self) -> bool {
        false
    }

    open spec fn range_contents(&self, start: usize, end: usize) -> Multiset<Seq<u8>> {
        Multiset::empty()
    }

    open spec fn in_order(&self) -> bool {
        true
    }

    open spec fn order_recorded(&self) -> bool {
        true
    }

    open spec fn key_at(&self, idx: usize) -> Seq<u8> {
        Seq::empty()
    }

    open spec fn removed_at(&self, idx: usize) -> Seq<u8> {
        Seq::empty()
    }

    open spec fn range_ends(&self, start: usize, end: usize) -> (Seq<u8>, Seq<u8>) {
        (Seq::empty(), Seq::empty())
    }

    open spec fn keeps_keys(&self) -> bool {
        false
    }

    open spec fn push_ok(&self) -> bool {
        self.count() < usize::MAX
    }

    open spec fn remove_ok(&self, idx: usize) -> bool {
        false
    }

    open spec fn remove_range_ok(&self, start: usize, end: usize) -> bool {
        false
    }

    open spec fn get_ok(&self, idx: usize) -> bool {
        false
    }

    open spec fn contains_ok(&self) -> bool {
        true
    }

    open spec fn sort_ok(&self) -> bool {
        false
    }

    fn len(&self) -> (r: usize) {
        self.len
    }

    fn is_empty(&self) -> (r: bool) {
        false
    }

    fn push(&mut self, _key: Key)
        ensures
            final(self).count() == old(self).count() + 1,
    {
        self.len += 1;
    }

    fn remove(&mut self, _idx: usize) -> (r: Key) {
        Vec::new()
    }

    fn remove_range(&mut self, _idx_range: Range<usize>) -> (r: (Key, Key)) {
        (Vec::new(), Vec::new())
    }

    #[verifier::loop_isolation(false)]
    fn get(&self, _idx: usize) -> (r: &Key) {
        loop
            decreases 0nat,
        {
        }
    }

    fn contains(&self, _key: &Key) -> (r: bool) {
        false
    }

    fn sort(&mut self) {
    }

    fn can_push(&self) -> (r: bool) {
        self.len < usize::MAX
    }

    fn can_remove(&self, _idx: usize) -> (r: bool) {
        false
    }

    fn can_remove_range(&self, _start: usize, _end: usize) -> (r: bool) {
        false
    }

    fn can_get(&self, _idx: usize) -> (r: bool) {
        false
    }

    fn can_contains(&self) -> (r: bool) {
        true
    }

    fn can_sort(&self) -> (r: bool) {
        false
    }
}

} // verus!
