use tectonic::hashing::{fnv_hash, unbiased_index};
use bloom::BloomFilter;
use tectonic::keyset::KeySet;
use tectonic::markers::Op;
use tectonic::step::{Drawn, Emit, apply_marker};
use tectonic::keyset::bloom_sets::{BloomFilterKeySet, VecBloomFilterKeySet};
use tectonic::keyset::btree_set::BTreeSetKeySet;
use tectonic::keyset::empty::EmptyKeySet;
use tectonic::keyset::vec_hash_map_index::VecHashMapIndexKeySet;
use tectonic::keyset::vec_hash_set::VecHashSetKeySet;
use tectonic::keyset::vec_keys::VecKeySet;
use tectonic::keyset::vec_option::VecOptionKeySet;
use tectonic::keyset::vec_option_hash_set::VecOptionHashSetKeySet;

fn k(s: &str) -> Vec<u8> {
    s.as_bytes().to_vec()
}

#[test]
fn fnv_hash_known_values() {
    assert_eq!(fnv_hash(0), 13380826962402805797);
    assert_eq!(fnv_hash(1), 12328143194273367844);
    assert_eq!(fnv_hash(42), 8668528137264722447);
    assert_eq!(fnv_hash(0xdead_beef), 18281795812943212027);
    assert_eq!(fnv_hash(u64::MAX), 7209287328120516509);
}

#[test]
fn unbiased_index_spreads_within_len() {
    assert_eq!(unbiased_index(0, 10), 7);
    assert_eq!(unbiased_index(1, 10), 4);
    assert_eq!(unbiased_index(42, 7), 0);
    assert_eq!(unbiased_index(1, 7), 5);
    for i in 0..100 {
        assert!(unbiased_index(i, 3) < 3);
    }
}

#[test]
fn empty_key_set_counts_pushes_and_is_never_empty() {
    let mut s = EmptyKeySet::new(10);
    assert_eq!(s.len(), 0);
    assert!(!s.is_empty());
    s.push(k("a"));
    s.push(k("b"));
    assert_eq!(s.len(), 2);
    assert!(!s.contains(&k("a")));
}

#[test]
fn vec_key_set_push_get_contains() {
    let mut s = VecKeySet::new(4);
    assert!(s.is_empty());
    s.push(k("b"));
    s.push(k("a"));
    s.push(k("c"));
    assert_eq!(s.len(), 3);
    assert_eq!(s.get(0), &k("b"));
    assert_eq!(s.get(2), &k("c"));
    assert!(s.contains(&k("a")));
    assert!(!s.contains(&k("d")));
}

#[test]
fn vec_key_set_remove_swaps_with_last_first() {
    let mut s = VecKeySet::new(4);
    s.push(k("a"));
    s.push(k("b"));
    s.push(k("c"));
    // The key at the index is swapped to the end, and the index is removed.
    let r = s.remove(0);
    assert_eq!(r, k("c"));
    assert_eq!(s.len(), 2);
    assert_eq!(s.get(0), &k("b"));
    assert_eq!(s.get(1), &k("a"));
    let r = s.remove(1);
    assert_eq!(r, k("a"));
    assert_eq!(s.len(), 1);
    assert_eq!(s.get(0), &k("b"));
}

#[test]
fn vec_key_set_remove_range_returns_first_and_last() {
    let mut s = VecKeySet::new(5);
    for x in ["a", "b", "c", "d", "e"] {
        s.push(k(x));
    }
    let (first, last) = s.remove_range(1..4);
    assert_eq!(first, k("b"));
    assert_eq!(last, k("d"));
    assert_eq!(s.len(), 2);
    assert_eq!(s.get(0), &k("a"));
    assert_eq!(s.get(1), &k("e"));
    let (first, last) = s.remove_range(0..1);
    assert_eq!(first, k("a"));
    assert_eq!(last, k("a"));
    assert_eq!(s.len(), 1);
}

#[test]
fn vec_key_set_sort_orders_bytes() {
    let mut s = VecKeySet::new(4);
    s.push(k("b"));
    s.push(k("ab"));
    s.push(k("a"));
    s.push(k("c"));
    s.sort();
    assert_eq!(s.get(0), &k("a"));
    assert_eq!(s.get(1), &k("ab"));
    assert_eq!(s.get(2), &k("b"));
    assert_eq!(s.get(3), &k("c"));
}

#[test]
fn vec_option_key_set_remove_and_flatten() {
    let mut s = VecOptionKeySet::new(4);
    s.push(k("a"));
    s.push(k("b"));
    s.push(k("c"));
    // One empty slot out of three is above the threshold share, so the
    // slots are compacted at once.
    let r = s.remove(1);
    assert_eq!(r, k("b"));
    assert_eq!(s.len(), 2);
    assert_eq!(s.get(0), &k("a"));
    assert_eq!(s.get(1), &k("c"));
}

#[test]
fn vec_option_key_set_remove_range() {
    let mut s = VecOptionKeySet::new(4);
    for x in ["a", "b", "c", "d"] {
        s.push(k(x));
    }
    let (first, last) = s.remove_range(1..3);
    assert_eq!(first, k("b"));
    assert_eq!(last, k("c"));
    assert_eq!(s.len(), 2);
    assert_eq!(s.get(0), &k("a"));
    assert_eq!(s.get(1), &k("d"));
}

#[test]
fn vec_option_key_set_keeps_sparse_holes_until_threshold() {
    let mut s = VecOptionKeySet::new(200);
    for i in 0..200u32 {
        s.push(format!("k{:03}", i).into_bytes());
    }
    // One empty slot in two hundred stays below the threshold share.
    let r = s.remove(5);
    assert_eq!(r, k("k005"));
    assert_eq!(s.len(), 200);
    // A lookup at the empty slot moves on to the next key.
    assert_eq!(s.get(5), &k("k006"));
    // A second empty slot reaches the threshold and the slots are compacted.
    let r = s.remove(7);
    assert_eq!(r, k("k007"));
    assert_eq!(s.len(), 198);
}

#[test]
fn vec_option_key_set_sort() {
    let mut s = VecOptionKeySet::new(3);
    s.push(k("c"));
    s.push(k("a"));
    s.push(k("b"));
    s.sort();
    assert_eq!(s.get(0), &k("a"));
    assert_eq!(s.get(1), &k("b"));
    assert_eq!(s.get(2), &k("c"));
}

#[test]
fn vec_option_hash_set_key_set_tracks_membership() {
    let mut s = VecOptionHashSetKeySet::new(4);
    s.push(k("a"));
    s.push(k("b"));
    s.push(k("c"));
    assert!(s.contains(&k("b")));
    let r = s.remove(1);
    assert_eq!(r, k("b"));
    assert!(!s.contains(&k("b")));
    assert!(s.contains(&k("a")));
    let (first, last) = s.remove_range(0..2);
    assert_eq!(first, k("a"));
    assert_eq!(last, k("c"));
    assert!(!s.contains(&k("a")));
    assert!(!s.contains(&k("c")));
}

#[test]
fn vec_hash_set_key_set_remove_keeps_order() {
    let mut s = VecHashSetKeySet::new(4);
    s.push(k("a"));
    s.push(k("b"));
    s.push(k("c"));
    let r = s.remove(0);
    assert_eq!(r, k("a"));
    assert_eq!(s.get(0), &k("b"));
    assert_eq!(s.get(1), &k("c"));
    assert!(!s.contains(&k("a")));
    assert!(s.contains(&k("c")));
    let (first, last) = s.remove_range(0..2);
    assert_eq!(first, k("b"));
    assert_eq!(last, k("c"));
    assert!(s.is_empty());
    assert!(!s.contains(&k("b")));
}

#[test]
fn vec_hash_map_index_key_set_ignores_duplicates_and_swap_removes() {
    let mut s = VecHashMapIndexKeySet::new(4);
    s.push(k("a"));
    s.push(k("b"));
    s.push(k("a"));
    s.push(k("c"));
    assert_eq!(s.len(), 3);
    let r = s.remove(0);
    assert_eq!(r, k("a"));
    assert_eq!(s.get(0), &k("c"));
    assert_eq!(s.get(1), &k("b"));
    assert!(!s.contains(&k("a")));
    assert!(s.contains(&k("c")));
}

#[test]
fn vec_hash_map_index_key_set_remove_range_from_the_end() {
    let mut s = VecHashMapIndexKeySet::new(4);
    for x in ["a", "b", "c", "d"] {
        s.push(k(x));
    }
    // Indices are removed from the last one down, each by swapping with
    // the last key.
    let (first, last) = s.remove_range(1..3);
    assert_eq!(first, k("c"));
    assert_eq!(last, k("b"));
    assert_eq!(s.len(), 2);
    assert_eq!(s.get(0), &k("a"));
    assert_eq!(s.get(1), &k("d"));
    s.sort();
    assert!(s.contains(&k("d")));
}

#[test]
fn btree_set_key_set_keeps_keys_sorted_and_unique() {
    let mut s = BTreeSetKeySet::new(4);
    s.push(k("c"));
    s.push(k("a"));
    s.push(k("b"));
    s.push(k("a"));
    assert_eq!(s.len(), 3);
    assert_eq!(s.get(0), &k("a"));
    assert_eq!(s.get(2), &k("c"));
    assert!(s.contains(&k("b")));
    let r = s.remove(1);
    assert_eq!(r, k("b"));
    assert!(!s.contains(&k("b")));
    s.push(k("d"));
    let (first, last) = s.remove_range(1..10);
    assert_eq!(first, k("c"));
    assert_eq!(last, k("d"));
    assert_eq!(s.len(), 1);
    let (first, last) = s.remove_range(0..0);
    assert_eq!(first, k("a"));
    assert_eq!(last, k("a"));
    assert_eq!(s.len(), 1);
}

#[test]
fn preconditions_can_be_tested_before_calls() {
    let mut e = EmptyKeySet::new(1);
    assert!(e.can_push());
    assert!(!e.can_remove(0));
    assert!(!e.can_get(0));
    assert!(!e.can_sort());
    assert!(e.can_contains());
    e.push(k("x"));
    assert!(!e.can_remove_range(0, 1));

    let mut v = VecKeySet::new(2);
    assert!(!v.can_get(0));
    v.push(k("a"));
    assert!(v.can_get(0));
    assert!(v.can_remove(0));
    assert!(!v.can_remove(1));
    assert!(v.can_remove_range(0, 1));
    assert!(!v.can_remove_range(0, 0));
    assert!(!v.can_remove_range(0, 2));

    let mut o = VecOptionKeySet::new(200);
    assert!(!o.can_contains());
    assert!(!o.can_get(0));
    for i in 0..200u32 {
        o.push(format!("k{:03}", i).into_bytes());
    }
    o.remove(10);
    // The slot at 10 is empty now, but searches move on from it.
    assert!(o.can_get(10));
    assert!(o.can_remove(10));
    assert!(!o.can_remove_range(10, 11));
    assert!(o.can_remove_range(10, 12));
    assert!(o.can_remove_range(12, 12) == false);
    assert!(!o.can_get(usize::MAX));

    let b = BTreeSetKeySet::new(0);
    assert!(!b.can_remove_range(0, 5));
    assert!(b.can_sort());
}

#[test]
fn vec_bloom_filter_key_set_reports_every_pushed_key() {
    let mut s = VecBloomFilterKeySet::with_filter(BloomFilter::with_rate(0.01, 16), 16).unwrap();
    assert!(s.is_empty());
    s.push(k("c"));
    s.push(k("a"));
    s.push(k("b"));
    assert_eq!(s.len(), 3);
    assert!(s.contains(&k("a")));
    assert!(s.contains(&k("b")));
    assert!(s.contains(&k("c")));
    // Removal shifts the later keys down and leaves the filter as it is.
    assert_eq!(s.remove(0), k("c"));
    assert_eq!(s.get(0), &k("a"));
    assert!(s.contains(&k("c")));
    s.sort();
    assert_eq!(s.get(0), &k("a"));
    assert_eq!(s.get(1), &k("b"));
    assert_eq!(s.remove_range(0..2), (k("a"), k("b")));
    assert!(s.is_empty());
}

#[test]
fn bloom_filter_key_set_counts_and_reports_pushed_keys() {
    let mut s = BloomFilterKeySet::with_filter(BloomFilter::with_rate(0.01, 8)).unwrap();
    assert!(s.is_empty());
    s.push(k("x"));
    s.push(k("y"));
    assert_eq!(s.len(), 2);
    assert!(!s.is_empty());
    assert!(s.contains(&k("x")));
    assert!(s.contains(&k("y")));
    assert!(!s.can_get(0));
    assert!(!s.can_sort());
}

#[test]
fn bloom_key_sets_need_a_filter_with_bits() {
    assert!(BloomFilterKeySet::with_filter(BloomFilter::with_size(0, 1)).is_none());
    assert!(VecBloomFilterKeySet::with_filter(BloomFilter::with_size(0, 1), 4).is_none());
    assert!(BloomFilterKeySet::with_filter(BloomFilter::with_size(64, 2)).is_some());
}

#[test]
fn bloom_key_set_generation_redraws_reported_keys() {
    let mut s = VecBloomFilterKeySet::with_filter(BloomFilter::with_rate(0.01, 16), 16).unwrap();
    assert_eq!(
        apply_marker(&mut s, Op::UniqueInsert, Drawn::Key(k("a")), false),
        Emit::Insert(k("a"))
    );
    assert_eq!(apply_marker(&mut s, Op::UniqueInsert, Drawn::Key(k("a")), false), Emit::Redraw);
    assert_eq!(apply_marker(&mut s, Op::EmptyPointQuery, Drawn::Key(k("a")), false), Emit::Redraw);
    assert_eq!(s.len(), 1);
    assert_eq!(apply_marker(&mut s, Op::Update, Drawn::Index(0), false), Emit::Update(k("a")));
}
