//! Contracts for the std collection operations that the key sets use on
//! byte-string keys: sorting, and hash sets and hash maps keyed by keys.
//! vstd specifies `HashSet` and `HashMap` only for key types with a known
//! hashing model, which `Vec<u8>` lacks, so each call used here stands
//! behind a wrapper whose contract follows the std documentation.
use std::collections::{HashMap, HashSet};
use vstd::prelude::*;
use crate::keys::{Key, key_lt, key_views, sorted_keys};

verus! {

/// What a hash set of keys holds, as byte strings.
pub uninterp spec fn key_hash_set_contents(s: HashSet<Key>) -> Set<Seq<u8>>;

/// What a hash map from keys to indices holds, keyed by byte strings.
pub uninterp spec fn key_index_map_contents(m: HashMap<Key, usize>) -> Map<Seq<u8>, usize>;

/// The map with no entries.
pub open spec fn empty_index_map() -> Map<Seq<u8>, usize> {
    Map::empty()
}

/// Order of optional keys as std's `Ord` for `Option` gives it: `None`
/// first, then keys in lexicographic order.
pub open spec fn opt_key_lt(a: Option<Seq<u8>>, b: Option<Seq<u8>>) -> bool {
    match (a, b) {
        (None, Some(_)) => true,
        (Some(x), Some(y)) => key_lt(x, y),
        _ => false,
    }
}

/// The views of a sequence of optional keys.
pub open spec fn opt_key_views(s: Seq<Option<Key>>) -> Seq<Option<Seq<u8>>> {
    s.map_values(|k: Option<Key>| match k {
        Some(k) => Some(k@),
        None => None,
    })
}

/// A sequence of optional keys in non-decreasing order.
pub open spec fn sorted_opt_keys(s: Seq<Option<Seq<u8>>>) -> bool {
    forall|i: int, j: int| 0 <= i < j < s.len() ==> !opt_key_lt(s[j], s[i])
}

/// `slice::sort` on keys: std documents that it sorts the slice in
/// ascending order of `Ord`, which for byte vectors is lexicographic, and
/// only moves elements.
#[verifier::external_body]
pub(crate) fn sort_keys(v: &mut Vec<Key>)
    ensures
        final(v).len() == old(v).len(),
        key_views(final(v)@).to_multiset() == key_views(old(v)@).to_multiset(),
        sorted_keys(key_views(final(v)@)),
{
    v.sort();
}

/// `slice::sort` on optional keys: ascending in the order of `Option`'s
/// `Ord` (`None` before every `Some`), moving elements only.
#[verifier::external_body]
pub(crate) fn sort_opt_keys(v: &mut Vec<Option<Key>>)
    ensures
        final(v).len() == old(v).len(),
        opt_key_views(final(v)@).to_multiset() == opt_key_views(old(v)@).to_multiset(),
        sorted_opt_keys(opt_key_views(final(v)@)),
{
    v.sort();
}

/// `HashSet::with_capacity`: an empty set.
#[verifier::external_body]
pub(crate) fn key_hash_set_with_capacity(capacity: usize) -> (r: HashSet<Key>)
    ensures
        key_hash_set_contents(r) == Set::<Seq<u8>>::empty(),
{
    HashSet::with_capacity(capacity)
}

/// `HashSet::insert`: adds the key; true when it was not present before.
#[verifier::external_body]
pub(crate) fn key_hash_set_insert(s: &mut HashSet<Key>, k: Key) -> (r: bool)
    ensures
        key_hash_set_contents(*final(s)) == key_hash_set_contents(*old(s)).insert(k@),
        r == !key_hash_set_contents(*old(s)).contains(k@),
{
    s.insert(k)
}

/// `HashSet::remove`: removes the key; true when it was present.
#[verifier::external_body]
pub(crate) fn key_hash_set_remove(s: &mut HashSet<Key>, k: &Key) -> (r: bool)
    ensures
        key_hash_set_contents(*final(s)) == key_hash_set_contents(*old(s)).remove(k@),
        r == key_hash_set_contents(*old(s)).contains(k@),
{
    s.remove(k)
}

/// `HashSet::contains`: whether the key is present.
#[verifier::external_body]
pub(crate) fn key_hash_set_contains(s: &HashSet<Key>, k: &Key) -> (r: bool)
    ensures
        r == key_hash_set_contents(*s).contains(k@),
{
    s.contains(k)
}

/// `HashMap::with_capacity`: an empty map.
#[verifier::external_body]
pub(crate) fn key_index_map_with_capacity(capacity: usize) -> (r: HashMap<Key, usize>)
    ensures
        key_index_map_contents(r) == empty_index_map(),
{
    HashMap::with_capacity(capacity)
}

/// `HashMap::insert`: maps the key to the index, replacing any earlier entry.
#[verifier::external_body]
pub(crate) fn key_index_map_insert(m: &mut HashMap<Key, usize>, k: Key, v: usize)
    ensures
        key_index_map_contents(*final(m)) == key_index_map_contents(*old(m)).insert(k@, v),
{
    m.insert(k, v);
}

/// `HashMap::remove`: removes the key's entry.
#[verifier::external_body]
pub(crate) fn key_index_map_remove(m: &mut HashMap<Key, usize>, k: &Key)
    ensures
        key_index_map_contents(*final(m)) == key_index_map_contents(*old(m)).remove(k@),
{
    m.remove(k);
}

/// `HashMap::contains_key`: whether the key has an entry.
#[verifier::external_body]
pub(crate) fn key_index_map_contains_key(m: &HashMap<Key, usize>, k: &Key) -> (r: bool)
    ensures
        r == key_index_map_contents(*m).contains_key(k@),
{
    m.contains_key(k)
}

/// `HashMap::clear`: removes every entry.
#[verifier::external_body]
pub(crate) fn key_index_map_clear(m: &mut HashMap<Key, usize>)
    ensures
        key_index_map_contents(*final(m)) == empty_index_map(),
{
    m.clear();
}

} // verus!
