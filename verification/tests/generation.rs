use rand_xoshiro::Xoshiro256Plus;
use rand_xoshiro::rand_core::SeedableRng;
use tectonic::generation::{
    GenError, GroupOps, check_marker, displace_key, group_flush_name, plan_group,
    section_flush_name,
};
use tectonic::keyset::KeySet;
use tectonic::keyset::vec_keys::VecKeySet;
use tectonic::keyset::vec_option::VecOptionKeySet;
use tectonic::markers::{MarkerIter, Op, OpCount};
use tectonic::step::{Drawn, Emit, apply_marker, can_apply, prepare_range};
use tectonic::timings::OperationTimings;
use tectonic::workload::{
    CharacterSet, GroupProfile, KeySetKind, RangeFormat, SectionProfile, WorkloadProfile,
    select_keyset_kind,
};

fn no_ops() -> GroupOps {
    GroupOps {
        unique_inserts: None,
        inserts: None,
        updates: None,
        merges: None,
        point_deletes: None,
        empty_point_deletes: None,
        range_deletes: None,
        point_queries: None,
        empty_point_queries: None,
        range_queries: None,
        blind_point_queries: None,
        blind_point_deletes: None,
        blind_range_queries: None,
    }
}

fn no_group() -> GroupProfile {
    GroupProfile {
        unique_inserts: false,
        inserts: false,
        updates: false,
        merges: false,
        point_deletes: false,
        empty_point_deletes: false,
        range_deletes: false,
        point_queries: false,
        empty_point_queries: false,
        range_queries: None,
    }
}

fn section(groups: Vec<GroupProfile>, skip: bool) -> SectionProfile {
    SectionProfile { groups, skip_key_contains_check: skip }
}

fn count_of(entries: &[OpCount], op: Op) -> usize {
    entries.iter().filter(|e| e.op_type == op).map(|e| e.remaining_count).sum()
}

#[test]
fn defaults_of_formats_and_character_sets() {
    assert_eq!(RangeFormat::default_format(), RangeFormat::StartCount);
    assert_eq!(CharacterSet::default_set(), CharacterSet::Alphanumeric);
}

#[test]
fn keyset_selection_follows_the_section() {
    // Only inserts: no key set at all.
    let g = GroupProfile { inserts: true, ..no_group() };
    assert_eq!(select_keyset_kind(&section(vec![g], false)), KeySetKind::Empty);
    // Range queries by start and end, range deletes and unique inserts.
    let g = GroupProfile {
        unique_inserts: true,
        range_deletes: true,
        range_queries: Some(RangeFormat::StartEnd),
        ..no_group()
    };
    assert_eq!(select_keyset_kind(&section(vec![g], false)), KeySetKind::VecOptionHashSet);
    // The same, skipping the contains check.
    assert_eq!(select_keyset_kind(&section(vec![g], true)), KeySetKind::VecOption);
    // Point deletes with empty point queries.
    let g = GroupProfile { point_deletes: true, empty_point_queries: true, ..no_group() };
    assert_eq!(select_keyset_kind(&section(vec![g], false)), KeySetKind::VecHashSet);
    // Point deletes alone.
    let g = GroupProfile { point_deletes: true, ..no_group() };
    assert_eq!(select_keyset_kind(&section(vec![g], false)), KeySetKind::Vec);
    // Unique inserts and updates.
    let g = GroupProfile { unique_inserts: true, updates: true, ..no_group() };
    assert_eq!(select_keyset_kind(&section(vec![g], false)), KeySetKind::VecBloomFilter);
    // Unique inserts alone.
    let g = GroupProfile { unique_inserts: true, ..no_group() };
    assert_eq!(select_keyset_kind(&section(vec![g], false)), KeySetKind::BloomFilter);
    // Updates alone.
    let g = GroupProfile { updates: true, ..no_group() };
    assert_eq!(select_keyset_kind(&section(vec![g], false)), KeySetKind::Vec);
    // Range queries by count count as picking existing keys, not sorting.
    let g = GroupProfile {
        unique_inserts: true,
        range_queries: Some(RangeFormat::StartCount),
        ..no_group()
    };
    assert_eq!(select_keyset_kind(&section(vec![g], false)), KeySetKind::VecBloomFilter);
    // Operations in different groups of one section add up.
    let g1 = GroupProfile { unique_inserts: true, ..no_group() };
    let g2 = GroupProfile { point_deletes: true, ..no_group() };
    assert_eq!(select_keyset_kind(&section(vec![g1, g2], false)), KeySetKind::VecHashSet);
}

#[test]
fn section_and_workload_queries() {
    let g1 = GroupProfile { unique_inserts: true, ..no_group() };
    let g2 = GroupProfile { range_queries: Some(RangeFormat::StartCount), ..no_group() };
    let s = section(vec![g1, g2], true);
    assert!(s.has_unique_insert());
    assert!(!s.has_upsert());
    assert!(s.has_query_range_count());
    assert!(!s.has_query_range());
    assert!(s.skip_contains_check());
    let w = WorkloadProfile { sections: vec![s, section(vec![no_group()], false)] };
    assert!(w.has_unique_insert());
    assert!(!w.has_update());
    assert!(!w.skip_contains_check_all());
}

#[test]
fn plan_with_existing_keys_keeps_every_count() {
    let g = GroupOps {
        unique_inserts: Some(3),
        inserts: Some(2),
        updates: Some(4),
        point_queries: Some(5),
        blind_range_queries: Some(1),
        ..no_ops()
    };
    let p = plan_group(&g, false, 10, false).unwrap();
    assert_eq!(p.first_insert, None);
    let ops: Vec<Op> = p.entries.iter().map(|e| e.op_type).collect();
    assert_eq!(
        ops,
        vec![
            Op::UniqueInsert,
            Op::Upsert,
            Op::Update,
            Op::Merge,
            Op::PointDelete,
            Op::PointDeleteEmpty,
            Op::RangeDelete,
            Op::PointQuery,
            Op::EmptyPointQuery,
            Op::RangeQuery,
            Op::BlindPointQuery,
            Op::BlindPointDelete,
            Op::BlindRangeQuery,
        ]
    );
    assert_eq!(count_of(&p.entries, Op::UniqueInsert), 3);
    assert_eq!(count_of(&p.entries, Op::Upsert), 2);
    assert_eq!(count_of(&p.entries, Op::Update), 4);
    assert_eq!(count_of(&p.entries, Op::PointQuery), 5);
    assert_eq!(count_of(&p.entries, Op::Merge), 0);
}

#[test]
fn plan_without_keys_starts_with_an_insert() {
    let g = GroupOps { unique_inserts: Some(3), inserts: Some(2), ..no_ops() };
    let p = plan_group(&g, false, 0, true).unwrap();
    assert_eq!(p.first_insert, Some(Op::UniqueInsert));
    assert_eq!(count_of(&p.entries, Op::UniqueInsert), 2);
    assert_eq!(count_of(&p.entries, Op::Upsert), 2);

    let g = GroupOps { inserts: Some(4), updates: Some(1), ..no_ops() };
    let p = plan_group(&g, false, 0, true).unwrap();
    assert_eq!(p.first_insert, Some(Op::Upsert));
    assert_eq!(p.entries[0].op_type, Op::Upsert);
    assert_eq!(count_of(&p.entries, Op::Upsert), 3);
    assert_eq!(count_of(&p.entries, Op::UniqueInsert), 0);
    assert_eq!(p.entries.len(), 12);
}

#[test]
fn plan_errors_in_order() {
    let g = GroupOps { point_deletes: Some(3), ..no_ops() };
    assert_eq!(plan_group(&g, true, 2, false).unwrap_err(), GenError::MorePointDeletesThanKeys);
    assert_eq!(plan_group(&g, true, 3, false).unwrap_err(), GenError::SortedWithoutInserts);
    let g = GroupOps { updates: Some(3), ..no_ops() };
    assert_eq!(plan_group(&g, false, 0, true).unwrap_err(), GenError::NoKeysOrInserts);
    let g = GroupOps { unique_inserts: Some(0), inserts: Some(0), ..no_ops() };
    assert_eq!(plan_group(&g, false, 0, true).unwrap_err(), GenError::NoKeysOrInserts);
    assert!(plan_group(&g, true, 0, false).is_ok());
}

#[test]
fn check_marker_order_of_checks() {
    let g = GroupOps { updates: Some(1), point_queries: Some(1), ..no_ops() };
    assert_eq!(check_marker(&g, Op::Update, false), Ok(()));
    assert_eq!(check_marker(&g, Op::Update, true), Err(GenError::NoValidKeys { op: Op::Update }));
    assert_eq!(check_marker(&g, Op::Merge, true), Err(GenError::MissingSpec { op: Op::Merge }));
    // A point query looks for a valid key first.
    assert_eq!(
        check_marker(&g, Op::PointQuery, true),
        Err(GenError::NoValidKeys { op: Op::PointQuery })
    );
    let h = no_ops();
    assert_eq!(
        check_marker(&h, Op::PointQuery, true),
        Err(GenError::NoValidKeys { op: Op::PointQuery })
    );
    assert_eq!(
        check_marker(&h, Op::PointQuery, false),
        Err(GenError::MissingSpec { op: Op::PointQuery })
    );
    // Point deletes and inserts need only their specification.
    let d = GroupOps { point_deletes: Some(2), ..no_ops() };
    assert_eq!(check_marker(&d, Op::PointDelete, true), Ok(()));
    assert_eq!(
        check_marker(&d, Op::UniqueInsert, false),
        Err(GenError::MissingSpec { op: Op::UniqueInsert })
    );
    let b = GroupOps { blind_range_queries: Some(2), ..no_ops() };
    assert_eq!(
        check_marker(&b, Op::BlindRangeQuery, true),
        Err(GenError::NoValidKeys { op: Op::BlindRangeQuery })
    );
}

#[test]
fn flush_names() {
    assert_eq!(section_flush_name(None, 3), b"Section 3".to_vec());
    assert_eq!(section_flush_name(Some(b"load"), 3), b"load".to_vec());
    assert_eq!(group_flush_name(None, 0, 12), b"Section 0 Group 12".to_vec());
    assert_eq!(group_flush_name(Some(b"warmup"), 1, 2), b"warmup".to_vec());
}

#[test]
fn markers_draw_each_kind_as_often_as_counted() {
    let g = GroupOps {
        unique_inserts: Some(5),
        updates: Some(7),
        point_queries: Some(3),
        range_queries: Some(0),
        ..no_ops()
    };
    let p = plan_group(&g, false, 4, false).unwrap();
    let mut m = MarkerIter::new(Xoshiro256Plus::seed_from_u64(11));
    for e in p.entries.iter() {
        m.add_op_count(e.op_type, e.remaining_count);
    }
    m.prepare_iter();
    assert_eq!(m.total(), 15);
    let mut seen: Vec<Op> = Vec::new();
    while let Some(op) = m.next() {
        seen.push(op);
    }
    assert_eq!(seen.len(), 15);
    assert_eq!(m.total(), 0);
    assert_eq!(seen.iter().filter(|o| **o == Op::UniqueInsert).count(), 5);
    assert_eq!(seen.iter().filter(|o| **o == Op::Update).count(), 7);
    assert_eq!(seen.iter().filter(|o| **o == Op::PointQuery).count(), 3);
    assert_eq!(m.next(), None);
}

#[test]
fn markers_with_nothing_to_draw() {
    let mut m = MarkerIter::new(Xoshiro256Plus::seed_from_u64(1));
    m.add_op_count(Op::Merge, 0);
    m.prepare_iter();
    assert_eq!(m.total(), 0);
    assert_eq!(m.next(), None);
}

#[test]
fn timings_accumulate_per_kind() {
    let mut t = OperationTimings::default();
    t.add(Op::Update, 1_500);
    t.add(Op::Update, 500);
    t.add(Op::RangeQuery, 7);
    assert_eq!(t.time(Op::Update), 2_000);
    assert_eq!(t.time(Op::RangeQuery), 7);
    assert_eq!(t.time(Op::UniqueInsert), 0);
}

#[test]
fn displacing_keys_clamps_to_the_pool() {
    let mut pool: Vec<Vec<u8>> = vec![b"a".to_vec(), b"b".to_vec(), b"c".to_vec(), b"d".to_vec()];
    displace_key(&mut pool, 1, 2);
    assert_eq!(pool, vec![b"a".to_vec(), b"d".to_vec(), b"c".to_vec(), b"b".to_vec()]);
    // An offset beyond the end stops at the last key.
    displace_key(&mut pool, 0, 100);
    assert_eq!(pool, vec![b"b".to_vec(), b"d".to_vec(), b"c".to_vec(), b"a".to_vec()]);
    // An offset before the start stops at the first key.
    displace_key(&mut pool, 2, -7);
    assert_eq!(pool, vec![b"c".to_vec(), b"d".to_vec(), b"b".to_vec(), b"a".to_vec()]);
    displace_key(&mut pool, 3, 0);
    assert_eq!(pool, vec![b"c".to_vec(), b"d".to_vec(), b"b".to_vec(), b"a".to_vec()]);
}

fn keys_of(words: &[&str]) -> VecKeySet {
    let mut s = VecKeySet::new(words.len());
    for w in words {
        s.push(w.as_bytes().to_vec());
    }
    s
}

#[test]
fn unique_inserts_and_empty_lookups_redraw_valid_keys() {
    let mut keys = keys_of(&["a", "b"]);
    let drawn = Drawn::Key(b"a".to_vec());
    assert!(can_apply(&keys, Op::UniqueInsert, &drawn, false));
    assert_eq!(apply_marker(&mut keys, Op::UniqueInsert, drawn, false), Emit::Redraw);
    assert_eq!(keys.len(), 2);
    assert_eq!(apply_marker(&mut keys, Op::UniqueInsert, Drawn::Key(b"c".to_vec()), false), Emit::Insert(b"c".to_vec()));
    assert!(keys.contains(&b"c".to_vec()));
    assert_eq!(apply_marker(&mut keys, Op::EmptyPointQuery, Drawn::Key(b"b".to_vec()), false), Emit::Redraw);
    assert_eq!(
        apply_marker(&mut keys, Op::EmptyPointQuery, Drawn::Key(b"z".to_vec()), false),
        Emit::PointQuery(b"z".to_vec())
    );
    assert_eq!(
        apply_marker(&mut keys, Op::PointDeleteEmpty, Drawn::Key(b"y".to_vec()), false),
        Emit::PointDelete(b"y".to_vec())
    );
    // An insert keeps a key that is already valid.
    assert_eq!(apply_marker(&mut keys, Op::Upsert, Drawn::Key(b"a".to_vec()), false), Emit::Insert(b"a".to_vec()));
    assert_eq!(keys.len(), 4);
}

#[test]
fn existing_key_operations_use_valid_keys() {
    let mut keys = keys_of(&["a", "b", "c"]);
    assert_eq!(apply_marker(&mut keys, Op::Update, Drawn::Index(1), false), Emit::Update(b"b".to_vec()));
    assert_eq!(apply_marker(&mut keys, Op::Merge, Drawn::Index(0), false), Emit::Merge(b"a".to_vec()));
    assert_eq!(apply_marker(&mut keys, Op::PointQuery, Drawn::Index(2), false), Emit::PointQuery(b"c".to_vec()));
    // The vector key set removes by swapping with its last key.
    assert_eq!(apply_marker(&mut keys, Op::PointDelete, Drawn::Index(0), false), Emit::PointDelete(b"c".to_vec()));
    assert_eq!(keys.len(), 2);
    assert!(!can_apply(&keys, Op::Update, &Drawn::Index(2), false));
    assert!(!can_apply(&keys, Op::Update, &Drawn::Key(b"a".to_vec()), false));
}

#[test]
fn range_operations_sort_first_and_start_within_bounds() {
    let mut keys = keys_of(&["d", "b", "a", "c"]);
    // A range query by count does not sort.
    assert_eq!(prepare_range(&mut keys, Op::RangeQuery, RangeFormat::StartCount, 3), Some(1));
    assert_eq!(keys.get(0), &b"d".to_vec());
    assert_eq!(prepare_range(&mut keys, Op::RangeQuery, RangeFormat::StartEnd, 2), Some(2));
    assert_eq!(keys.get(0), &b"a".to_vec());
    assert_eq!(prepare_range(&mut keys, Op::RangeDelete, RangeFormat::StartEnd, 5), None);
    let drawn = Drawn::Range { len: 2, index: 1, format: RangeFormat::StartEnd };
    assert_eq!(apply_marker(&mut keys, Op::RangeQuery, drawn, false), Emit::RangeQuery(b"b".to_vec(), b"d".to_vec()));
    let drawn = Drawn::Range { len: 2, index: 1, format: RangeFormat::StartCount };
    assert_eq!(apply_marker(&mut keys, Op::RangeQuery, drawn, false), Emit::RangeQueryCount(b"b".to_vec(), 2));
    let drawn = Drawn::Range { len: 2, index: 1, format: RangeFormat::StartCount };
    assert_eq!(apply_marker(&mut keys, Op::RangeDelete, drawn, false), Emit::RangeDeleteCount(b"b".to_vec(), 2));
    assert_eq!(keys.len(), 2);
    let drawn = Drawn::Range { len: 2, index: 0, format: RangeFormat::StartEnd };
    assert_eq!(apply_marker(&mut keys, Op::RangeDelete, drawn, false), Emit::RangeDelete(b"a".to_vec(), b"d".to_vec()));
    assert!(keys.is_empty());
}

#[test]
fn blind_operations_and_slot_key_sets() {
    let mut keys = keys_of(&["a"]);
    assert_eq!(
        apply_marker(&mut keys, Op::BlindPointDelete, Drawn::Key(b"q".to_vec()), false),
        Emit::PointQuery(b"q".to_vec())
    );
    assert_eq!(
        apply_marker(&mut keys, Op::BlindRangeQuery, Drawn::KeyCount { key: b"q".to_vec(), count: 9 }, false),
        Emit::RangeQueryCount(b"q".to_vec(), 9)
    );
    let mut slots = VecOptionKeySet::new(2);
    slots.push(b"k".to_vec());
    // Slot key sets answer no membership test.
    assert!(!can_apply(&slots, Op::UniqueInsert, &Drawn::Key(b"x".to_vec()), false));
    assert!(can_apply(&slots, Op::Upsert, &Drawn::Key(b"x".to_vec()), false));
}

#[test]
fn skipped_membership_check_uses_generated_keys_as_drawn() {
    let mut keys = keys_of(&["a", "b"]);
    assert_eq!(
        apply_marker(&mut keys, Op::UniqueInsert, Drawn::Key(b"a".to_vec()), true),
        Emit::Insert(b"a".to_vec())
    );
    assert_eq!(keys.len(), 3);
    assert_eq!(
        apply_marker(&mut keys, Op::EmptyPointQuery, Drawn::Key(b"b".to_vec()), true),
        Emit::PointQuery(b"b".to_vec())
    );
    assert_eq!(
        apply_marker(&mut keys, Op::PointDeleteEmpty, Drawn::Key(b"b".to_vec()), true),
        Emit::PointDelete(b"b".to_vec())
    );
    assert_eq!(keys.len(), 3);
    // Slot key sets answer no membership test, which a skipped check does not need.
    let mut slots = VecOptionKeySet::new(2);
    assert!(can_apply(&slots, Op::UniqueInsert, &Drawn::Key(b"x".to_vec()), true));
    assert_eq!(
        apply_marker(&mut slots, Op::UniqueInsert, Drawn::Key(b"x".to_vec()), true),
        Emit::Insert(b"x".to_vec())
    );
    assert_eq!(slots.len(), 1);
}

#[test]
fn point_delete_takes_one_occurrence_out() {
    let mut keys = keys_of(&["a", "b", "a"]);
    // The vector key set gives back its last key, here one of the two "a".
    assert_eq!(apply_marker(&mut keys, Op::PointDelete, Drawn::Index(1), false), Emit::PointDelete(b"a".to_vec()));
    assert_eq!(keys.len(), 2);
    assert!(keys.contains(&b"a".to_vec()));
    assert!(keys.contains(&b"b".to_vec()));
    // The remaining "a" is still valid, so a unique insert of it is drawn again.
    assert_eq!(apply_marker(&mut keys, Op::UniqueInsert, Drawn::Key(b"a".to_vec()), false), Emit::Redraw);
    assert_eq!(apply_marker(&mut keys, Op::PointDelete, Drawn::Index(0), false), Emit::PointDelete(b"b".to_vec()));
    assert_eq!(apply_marker(&mut keys, Op::EmptyPointQuery, Drawn::Key(b"b".to_vec()), false), Emit::PointQuery(b"b".to_vec()));
}
