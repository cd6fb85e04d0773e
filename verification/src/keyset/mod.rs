//! Key sets: the collections of valid keys that workload generation draws
//! from. Each implementation supports a different subset of operations;
//! an operation that a key set does not support has a precondition that
//! nothing meets. Each precondition can be tested before the call.
use std::ops::Range;
use vstd::prelude::*;
use vstd::multiset::Multiset;
use crate::keys::Key;

pub mod empty;
pub mod vec_keys;
pub mod slots;
pub mod vec_option;
pub mod vec_option_hash_set;
pub mod vec_hash_set;
pub mod vec_hash_map_index;
pub mod btree_set;
pub mod bloom_sets;

verus! {

/// A collection of valid keys.
pub trait KeySet: Sized {
    /// Well-formedness of the internal state.
    spec fn wf(&self) -> bool;

    /// The number that `len` reports.
    spec fn spec_len(&self) -> nat;

    /// What `is_empty` reports.
    spec fn spec_is_empty(&self) -> bool;

    /// What `contains` reports for a key.
    spec fn spec_contains(&self, key: Seq<u8>) -> bool;

    /// Whether `contains` reports exactly the keys that the set holds.
    spec fn contains_exact(&self) -> bool;

    /// The valid keys that the set holds, each as often as it holds it.
    spec fn contents(&self) -> Multiset<Seq<u8>>;

    /// Whether the set holds each key at most once: pushing a key that it
    /// already holds then changes nothing.
    spec fn unique_keys(&self) -> bool;

    /// The keys that `remove_range` takes out for `start..end`.
    spec fn range_contents(&self, start: usize, end: usize) -> Multiset<Seq<u8>>;

    /// Whether the keys stand in key order by position.
    spec fn in_order(&self) -> bool;

    /// Whether `sort` leaves the keys in order: the set has recorded that
    /// they may be out of order, or they are in order.
    spec fn order_recorded(&self) -> bool;

    /// The key that `get` gives for a position.
    spec fn key_at(&self, idx: usize) -> Seq<u8>;

    /// The key that `remove` gives back for a position.
    spec fn removed_at(&self, idx: usize) -> Seq<u8>;

    /// The two keys that `remove_range` gives back for `start..end`.
    spec fn range_ends(&self, start: usize, end: usize) -> (Seq<u8>, Seq<u8>);

    /// Whether the set keeps the keys pushed into it; a set that only
    /// counts them keeps none.
    spec fn keeps_keys(&self) -> bool;

    /// When `push` may be called.
    spec fn push_ok(&self) -> bool;

    /// When `remove` may be called.
    spec fn remove_ok(&self, idx: usize) -> bool;

    /// When `remove_range` may be called.
    spec fn remove_range_ok(&self, start: usize, end: usize) -> bool;

    /// When `get` may be called.
    spec fn get_ok(&self, idx: usize) -> bool;

    /// When `contains` may be called.
    spec fn contains_ok(&self) -> bool;

    /// When `sort` may be called.
    spec fn sort_ok(&self) -> bool;

    fn len(&self) -> (r: usize)
        requires
            self.wf(),
        ensures
            r == self.spec_len(),
    ;

    fn is_empty(&self) -> (r: bool)
        requires
            self.wf(),
        ensures
            r == self.spec_is_empty(),
    ;

    fn push(&mut self, key: Key)
        requires
            old(self).wf(),
            old(self).push_ok(),
        ensures
            final(self).wf(),
            final(self).keeps_keys() == old(self).keeps_keys(),
            final(self).unique_keys() == old(self).unique_keys(),
            final(self).contents() == if old(self).keeps_keys() && !(old(self).unique_keys() && old(
                self,
            ).contents().contains(key@)) {
                old(self).contents().insert(key@)
            } else {
                old(self).contents()
            },
    ;

    fn remove(&mut self, idx: usize) -> (r: Key)
        requires
            old(self).wf(),
            old(self).remove_ok(idx),
        ensures
            final(self).wf(),
            final(self).keeps_keys() == old(self).keeps_keys(),
            final(self).unique_keys() == old(self).unique_keys(),
            old(self).contents().contains(r@),
            final(self).contents() == old(self).contents().remove(r@),
            r@ == old(self).removed_at(idx),
    ;

    fn remove_range(&mut self, idx_range: Range<usize>) -> (r: (Key, Key))
        requires
            old(self).wf(),
            old(self).remove_range_ok(idx_range.start, idx_range.end),
        ensures
            final(self).wf(),
            final(self).keeps_keys() == old(self).keeps_keys(),
            final(self).unique_keys() == old(self).unique_keys(),
            old(self).contents().contains(r.0@),
            old(self).contents().contains(r.1@),
            old(self).range_contents(idx_range.start, idx_range.end).subset_of(old(self).contents()),
            final(self).contents() == old(self).contents().sub(
                old(self).range_contents(idx_range.start, idx_range.end),
            ),
            (r.0@, r.1@) == old(self).range_ends(idx_range.start, idx_range.end),
    ;

    fn get(&self, idx: usize) -> (r: &Key)
        requires
            self.wf(),
            self.get_ok(idx),
        ensures
            self.contents().contains(r@),
            r@ == self.key_at(idx),
    ;

    fn contains(&self, key: &Key) -> (r: bool)
        requires
            self.wf(),
            self.contains_ok(),
        ensures
            r == self.spec_contains(key@),
            self.contains_exact() ==> r == self.contents().contains(key@),
    ;

    fn sort(&mut self)
        requires
            old(self).wf(),
            old(self).sort_ok(),
        ensures
            final(self).wf(),
            final(self).keeps_keys() == old(self).keeps_keys(),
            final(self).unique_keys() == old(self).unique_keys(),
            final(self).contents() == old(self).contents(),
            old(self).order_recorded() ==> final(self).in_order() && final(self).order_recorded(),
    ;

    /// Whether `push` may be called now.
    fn can_push(&self) -> (r: bool)
        requires
            self.wf(),
        ensures
            r == self.push_ok(),
    ;

    /// Whether `remove` may be called with `idx`.
    fn can_remove(&self, idx: usize) -> (r: bool)
        requires
            self.wf(),
        ensures
            r == self.remove_ok(idx),
    ;

    /// Whether `remove_range` may be called with `start..end`.
    fn can_remove_range(&self, start: usize, end: usize) -> (r: bool)
        requires
            self.wf(),
        ensures
            r == self.remove_range_ok(start, end),
    ;

    /// Whether `get` may be called with `idx`.
    fn can_get(&self, idx: usize) -> (r: bool)
        requires
            self.wf(),
        ensures
            r == self.get_ok(idx),
    ;

    /// Whether `contains` may be called.
    fn can_contains(&self) -> (r: bool)
        requires
            self.wf(),
        ensures
            r == self.contains_ok(),
    ;

    /// Whether `sort` may be called.
    fn can_sort(&self) -> (r: bool)
        requires
            self.wf(),
        ensures
            r == self.sort_ok(),
    ;
}

} // verus!
