use std::time::Instant;
use tectonic::db::{DBTranslationLayer, Db, DbError, PrintDB};
use tectonic::op_line::{BenchmarkerType, Command};
use tectonic::stats::{Benchmarker, FlushError, StatKey, Statistics, stat_key};

fn b(s: &str) -> Vec<u8> {
    s.as_bytes().to_vec()
}

#[test]
fn db_new_by_name() {
    let (db, report) = Db::new("printdb", None, None).ok().unwrap();
    assert_eq!(report, b("Initialized"));
    assert!(matches!(db, Db::PrintDB(_)));
    assert_eq!(Db::new("rocksdb", Some("/tmp/x"), None).err(), Some(DbError::RocksdbNotEnabled));
    assert_eq!(Db::new("cassandra", None, None).err(), Some(DbError::CassandraNotEnabled));
    assert_eq!(Db::new("redis", None, None).err(), Some(DbError::RedisNotEnabled));
    assert_eq!(Db::new("scylla", None, None).err(), Some(DbError::ScyllaNotEnabled));
    assert_eq!(Db::new("PrintDB", None, None).err(), Some(DbError::UnsupportedDatabase));
    assert_eq!(Db::new("", None, None).err(), Some(DbError::UnsupportedDatabase));
}

#[test]
fn print_db_reports_each_operation() {
    let (p, _) = PrintDB::new();
    assert_eq!(p.insert(b"k", b"v"), Ok(b("Insert: {key = k, value = v}")));
    assert_eq!(p.update(b"k", b"v"), Ok(b("Update: {key = k, value = v}")));
    assert_eq!(p.merge(b"k", b"v"), Ok(b("Merge: {key = k, value = v}")));
    assert_eq!(p.point_delete(b"k"), Ok(b(" Delete: {key = k}")));
    assert_eq!(p.point_query(b"k"), Ok(b("PointQuery: {key = k}")));
    assert_eq!(
        p.range_query(b"a", b"z"),
        Ok(b("Range Query: {start_key = a, end_key = z}"))
    );
    assert_eq!(p.range_query_count(b"a", 25), Ok(b("Range Query: {key = a, count = 25}")));
    assert_eq!(
        p.range_delete(b"a", b"z"),
        Ok(b("Range Delete: {start_key = a, end_key = z}"))
    );
    assert_eq!(p.range_delete_count(b"a", 3), Ok(b("Range Query: {key = a, count = 3}")));
    assert_eq!(p.cleanup(), b("Done"));
}

#[test]
fn print_db_refuses_bytes_that_are_not_utf8() {
    let (db, _) = Db::new("printdb", None, None).ok().unwrap();
    assert_eq!(db.insert(&[0xff], b"v"), Err(DbError::InvalidUtf8));
    assert_eq!(db.insert(b"k", &[0xc3]), Err(DbError::InvalidUtf8));
    assert_eq!(db.point_query(&[0x80]), Err(DbError::InvalidUtf8));
    assert_eq!(db.range_delete_count(&[0xfe], 1), Err(DbError::InvalidUtf8));
    assert_eq!(db.point_query("ключ".as_bytes()), Ok(b("PointQuery: {key = ключ}")));
}

#[test]
fn statistics_count_sum_and_cap() {
    let mut s = Statistics::default();
    let n = s.add_latency(1_000);
    assert!(!n.capped);
    assert!(!n.refused);
    let n = s.add_latency(250);
    assert!(!n.capped);
    assert_eq!(s.count(), 2);
    assert_eq!(s.sum(), 1_250);
    assert_eq!(s.failed_count(), 0);
    s.add_error();
    assert_eq!(s.failed_count(), 1);
    assert_eq!(s.histogram().samples.len(), 2);
    assert_eq!(s.histogram().samples.count_at(1_000), 1);
    assert_eq!(s.histogram().samples.count_at(250), 1);
    assert_eq!(s.histogram().samples.count_at(40_000), 0);

    let mut big = Statistics::default();
    let n = big.add_latency(u128::from(u64::MAX) + 5);
    assert!(n.capped);
    assert_eq!(big.sum(), u64::MAX);
    assert_eq!(big.count(), 1);
}

#[test]
fn stat_keys_of_commands() {
    assert_eq!(stat_key(&Command::Insert { key: b("k"), value: b("v") }), Some(StatKey::Insert));
    assert_eq!(
        stat_key(&Command::RangeQueryCount { start_key: b("k"), count: 2 }),
        Some(StatKey::RangeQuery)
    );
    assert_eq!(
        stat_key(&Command::RangeDeleteCount { start_key: b("k"), count: 2 }),
        Some(StatKey::RangeDelete)
    );
    assert_eq!(stat_key(&Command::PointDelete { key: b("k") }), Some(StatKey::Delete));
    assert_eq!(stat_key(&Command::StartStatFlush { benchmarker: BenchmarkerType::Group }), None);
    assert_eq!(StatKey::PointQuery.name(), "Point Query");
    assert_eq!(StatKey::RangeDelete.name(), "Range Delete");
}

#[test]
fn benchmarker_records_into_open_scopes() {
    let mut bm = Benchmarker::new();
    assert!(bm.has_room(StatKey::Insert, 10, false));
    let notes = bm.record(StatKey::Insert, 10, false);
    assert_eq!(notes.len(), 1);
    bm.start_stat_flush(BenchmarkerType::Section, Instant::now());
    let notes = bm.record(StatKey::Insert, 20, true);
    assert_eq!(notes.len(), 2);
    bm.start_stat_flush(BenchmarkerType::Group, Instant::now());
    let notes = bm.record(StatKey::Update, 5, false);
    assert_eq!(notes.len(), 3);

    let overall = bm.overall.stats(StatKey::Insert).unwrap();
    assert_eq!(overall.count(), 2);
    assert_eq!(overall.sum(), 30);
    assert_eq!(overall.failed_count(), 1);

    let before_end = Instant::now();
    let section = bm.end_stat_flush(BenchmarkerType::Section, before_end).ok().unwrap();
    assert!(section.start_time().is_some());
    assert_eq!(section.end_time(), Some(before_end));
    assert_eq!(section.stats(StatKey::Insert).unwrap().count(), 1);
    assert_eq!(section.stats(StatKey::Insert).unwrap().sum(), 20);
    assert_eq!(section.stats(StatKey::Update).unwrap().count(), 1);
    assert!(section.stats(StatKey::Merge).is_none());
    // The section scope stays open, empty.
    let again = bm.end_stat_flush(BenchmarkerType::Section, Instant::now()).ok().unwrap();
    // The reset scope has no start time.
    assert!(again.start_time().is_none());
    assert!(again.stats(StatKey::Insert).is_none());

    let group = bm.end_stat_flush(BenchmarkerType::Group, Instant::now()).ok().unwrap();
    assert!(group.stats(StatKey::Insert).is_none());
    assert_eq!(group.stats(StatKey::Update).unwrap().count(), 1);
}

#[test]
fn benchmarker_flush_errors() {
    let mut bm = Benchmarker::new();
    assert_eq!(bm.end_stat_flush(BenchmarkerType::Overall, Instant::now()).err(), Some(FlushError::OverallFlush));
    assert_eq!(
        bm.end_stat_flush(BenchmarkerType::Section, Instant::now()).err(),
        Some(FlushError::NoSectionBenchmarker)
    );
    assert_eq!(bm.end_stat_flush(BenchmarkerType::Group, Instant::now()).err(), Some(FlushError::NoGroupBenchmarker));
}
