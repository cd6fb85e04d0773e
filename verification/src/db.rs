//! The database layers that executed operations are sent to. The layer
//! that this crate provides prints each operation; what it prints is
//! computed here and handed back, and the caller writes it out.
use vstd::prelude::*;
use vstd::string::StringSliceAdditionalSpecFns;
use vstd::utf8::valid_utf8;
use crate::keys::keys_equal;
use crate::op_line::{CommandView, decimal, is_utf8, push_bytes, push_decimal};

verus! {

/// Why a database layer refused an operation or could not be created.
#[derive(Clone, Copy, Debug, PartialEq, Eq, Structural)]
pub enum DbError {
    /// A key or a value that the layer prints is not UTF-8.
    InvalidUtf8,
    /// `rocksdb` was asked for, and this build has no RocksDB layer.
    RocksdbNotEnabled,
    /// `cassandra` was asked for, and this build has no Cassandra layer.
    CassandraNotEnabled,
    /// `redis` was asked for, and this build has no Redis layer.
    RedisNotEnabled,
    /// `scylla` was asked for, and this build has no Scylla layer.
    ScyllaNotEnabled,
    /// The name is not that of a known database.
    UnsupportedDatabase,
}

/// A byte string result seen as a sequence.
pub open spec fn report_view(r: Result<Vec<u8>, DbError>) -> Result<Seq<u8>, DbError> {
    match r {
        Ok(v) => Ok(v@),
        Err(e) => Err(e),
    }
}

/// A database that operations are executed on. Each operation hands back
/// the text that the layer reports for it.
pub trait DBTranslationLayer: Sized {
    /// What the layer reports for an operation, or why it refuses it.
    spec fn report(&self, c: CommandView) -> Result<Seq<u8>, DbError>;

    /// What the layer reports when it is shut down.
    spec fn cleanup_report(&self) -> Seq<u8>;

    fn cleanup(self) -> (r: Vec<u8>)
        ensures
            r@ == self.cleanup_report(),
    ;

    fn insert(&self, key: &[u8], value: &[u8]) -> (r: Result<Vec<u8>, DbError>)
        ensures
            report_view(r) == self.report((CommandView::Insert { key: key@, value: value@ })),
    ;

    fn update(&self, key: &[u8], value: &[u8]) -> (r: Result<Vec<u8>, DbError>)
        ensures
            report_view(r) == self.report((CommandView::Update { key: key@, value: value@ })),
    ;

    fn merge(&self, key: &[u8], value: &[u8]) -> (r: Result<Vec<u8>, DbError>)
        ensures
            report_view(r) == self.report((CommandView::Merge { key: key@, value: value@ })),
    ;

    fn point_delete(&self, key: &[u8]) -> (r: Result<Vec<u8>, DbError>)
        ensures
            report_view(r) == self.report((CommandView::PointDelete { key: key@ })),
    ;

    fn point_query(&self, key: &[u8]) -> (r: Result<Vec<u8>, DbError>)
        ensures
            report_view(r) == self.report((CommandView::PointQuery { key: key@ })),
    ;

    fn range_query(&self, start_key: &[u8], end_key: &[u8]) -> (r: Result<Vec<u8>, DbError>)
        ensures
            report_view(r) == self.report(
                (CommandView::RangeQuery { start_key: start_key@, end_key: end_key@ }),
            ),
    ;

    fn range_query_count(&self, start_key: &[u8], range: usize) -> (r: Result<Vec<u8>, DbError>)
        ensures
            report_view(r) == self.report(
                (CommandView::RangeQueryCount { start_key: start_key@, count: range }),
            ),
    ;

    fn range_delete(&self, start_key: &[u8], end_key: &[u8]) -> (r: Result<Vec<u8>, DbError>)
        ensures
            report_view(r) == self.report(
                (CommandView::RangeDelete { start_key: start_key@, end_key: end_key@ }),
            ),
    ;

    fn range_delete_count(&self, start_key: &[u8], range: usize) -> (r: Result<Vec<u8>, DbError>)
        ensures
            report_view(r) == self.report(
                (CommandView::RangeDeleteCount { start_key: start_key@, count: range }),
            ),
    ;
}

/// A layer that executes nothing and prints every operation.
pub struct PrintDB {}

/// `a`, `x`, `b`, `y` and a closing brace.
pub open spec fn two_fields(a: &str, x: Seq<u8>, b: &str, y: Seq<u8>) -> Seq<u8> {
    a.spec_bytes() + x + b.spec_bytes() + y + "}".spec_bytes()
}

/// `a`, `x` and a closing brace.
pub open spec fn one_field(a: &str, x: Seq<u8>) -> Seq<u8> {
    a.spec_bytes() + x + "}".spec_bytes()
}

/// The report of PrintDB for two UTF-8 fields.
pub open spec fn print_two(a: &str, x: Seq<u8>, b: &str, y: Seq<u8>) -> Result<Seq<u8>, DbError> {
    if !valid_utf8(x) || !valid_utf8(y) {
        Err(DbError::InvalidUtf8)
    } else {
        Ok(two_fields(a, x, b, y))
    }
}

/// The report of PrintDB for one UTF-8 field.
pub open spec fn print_one(a: &str, x: Seq<u8>) -> Result<Seq<u8>, DbError> {
    if !valid_utf8(x) {
        Err(DbError::InvalidUtf8)
    } else {
        Ok(one_field(a, x))
    }
}

/// The report of PrintDB for a UTF-8 key and a count.
pub open spec fn print_count(a: &str, x: Seq<u8>, n: usize) -> Result<Seq<u8>, DbError> {
    if !valid_utf8(x) {
        Err(DbError::InvalidUtf8)
    } else {
        Ok(two_fields(a, x, ", count = ", decimal(n as nat)))
    }
}

fn render_two(a: &str, x: &[u8], b: &str, y: &[u8]) -> (r: Result<Vec<u8>, DbError>)
    ensures
        report_view(r) == print_two(a, x@, b, y@),
{
    if !is_utf8(x) || !is_utf8(y) {
        return Err(DbError::InvalidUtf8);
    }
    let mut out: Vec<u8> = Vec::new();
    push_bytes(&mut out, a.as_bytes());
    push_bytes(&mut out, x);
    push_bytes(&mut out, b.as_bytes());
    push_bytes(&mut out, y);
    push_bytes(&mut out, "}".as_bytes());
    assert(out@ =~= two_fields(a, x@, b, y@));
    Ok(out)
}

fn render_one(a: &str, x: &[u8]) -> (r: Result<Vec<u8>, DbError>)
    ensures
        report_view(r) == print_one(a, x@),
{
    if !is_utf8(x) {
        return Err(DbError::InvalidUtf8);
    }
    let mut out: Vec<u8> = Vec::new();
    push_bytes(&mut out, a.as_bytes());
    push_bytes(&mut out, x);
    push_bytes(&mut out, "}".as_bytes());
    assert(out@ =~= one_field(a, x@));
    Ok(out)
}

fn render_count(a: &str, x: &[u8], n: usize) -> (r: Result<Vec<u8>, DbError>)
    ensures
        report_view(r) == print_count(a, x@, n),
{
    if !is_utf8(x) {
        return Err(DbError::InvalidUtf8);
    }
    let mut out: Vec<u8> = Vec::new();
    push_bytes(&mut out, a.as_bytes());
    push_bytes(&mut out, x);
    push_bytes(&mut out, ", count = ".as_bytes());
    push_decimal(&mut out, n);
    push_bytes(&mut out, "}".as_bytes());
    assert(out@ =~= two_fields(a, x@, ", count = ", decimal(n as nat)));
    Ok(out)
}

impl PrintDB {
    /// A printing layer. Creating it reports `Initialized`.
    pub fn new() -> (r: (Self, Vec<u8>))
        ensures
            r.1@ == "Initialized".spec_bytes(),
    {
        let mut out: Vec<u8> = Vec::new();
        push_bytes(&mut out, "Initialized".as_bytes());
        assert(out@ =~= "Initialized".spec_bytes());
        (PrintDB {  }, out)
    }
}

impl DBTranslationLayer for PrintDB {
    /// The line printed for each operation, after checking that its keys
    /// and values are UTF-8; a count is printed as a decimal number.
    open spec fn report(&self, c: CommandView) -> Result<Seq<u8>, DbError> {
        match c {
            CommandView::Insert { key, value } => print_two(
                "Insert: {key = ",
                key,
                ", value = ",
                value,
            ),
            CommandView::Update { key, value } => print_two(
                "Update: {key = ",
                key,
                ", value = ",
                value,
            ),
            CommandView::Merge { key, value } => print_two(
                "Merge: {key = ",
                key,
                ", value = ",
                value,
            ),
            CommandView::PointDelete { key } => print_one(" Delete: {key = ", key),
            CommandView::PointQuery { key } => print_one("PointQuery: {key = ", key),
            CommandView::RangeQuery { start_key, end_key } => print_two(
                "Range Query: {start_key = ",
                start_key,
                ", end_key = ",
                end_key,
            ),
            CommandView::RangeQueryCount { start_key, count } => print_count(
                "Range Query: {key = ",
                start_key,
                count,
            ),
            CommandView::RangeDelete { start_key, end_key } => print_two(
                "Range Delete: {start_key = ",
                start_key,
                ", end_key = ",
                end_key,
            ),
            CommandView::RangeDeleteCount { start_key, count } => print_count(
                "Range Query: {key = ",
                start_key,
                count,
            ),
            CommandView::StartStatFlush { .. } => Ok(Seq::empty()),
            CommandView::EndStatFlush { .. } => Ok(Seq::empty()),
        }
    }

    open spec fn cleanup_report(&self) -> Seq<u8> {
        "Done".spec_bytes()
    }

    fn cleanup(self) -> (r: Vec<u8>) {
        let mut out: Vec<u8> = Vec::new();
        push_bytes(&mut out, "Done".as_bytes());
        assert(out@ =~= "Done".spec_bytes());
        out
    }

    fn insert(&self, key: &[u8], value: &[u8]) -> (r: Result<Vec<u8>, DbError>) {
        render_two("Insert: {key = ", key, ", value = ", value)
    }

    fn update(&self, key: &[u8], value: &[u8]) -> (r: Result<Vec<u8>, DbError>) {
        render_two("Update: {key = ", key, ", value = ", value)
    }

    fn merge(&self, key: &[u8], value: &[u8]) -> (r: Result<Vec<u8>, DbError>) {
        render_two("Merge: {key = ", key, ", value = ", value)
    }

    fn point_delete(&self, key: &[u8]) -> (r: Result<Vec<u8>, DbError>) {
        render_one(" Delete: {key = ", key)
    }

    fn point_query(&self, key: &[u8]) -> (r: Result<Vec<u8>, DbError>) {
        render_one("PointQuery: {key = ", key)
    }

    fn range_query(&self, start_key: &[u8], end_key: &[u8]) -> (r: Result<Vec<u8>, DbError>) {
        render_two("Range Query: {start_key = ", start_key, ", end_key = ", end_key)
    }

    fn range_query_count(&self, start_key: &[u8], range: usize) -> (r: Result<Vec<u8>, DbError>) {
        render_count("Range Query: {key = ", start_key, range)
    }

    fn range_delete(&self, start_key: &[u8], end_key: &[u8]) -> (r: Result<Vec<u8>, DbError>) {
        render_two("Range Delete: {start_key = ", start_key, ", end_key = ", end_key)
    }

    fn range_delete_count(&self, start_key: &[u8], range: usize) -> (r: Result<Vec<u8>, DbError>) {
        render_count("Range Query: {key = ", start_key, range)
    }
}

/// The database layers of this build.
pub enum Db {
    PrintDB(PrintDB),
}

/// What creating a layer by name gives: the printing layer for `printdb`;
/// the names of layers that this build leaves out, and every other name,
/// are refused.
pub open spec fn spec_db_new(name: Seq<u8>) -> Result<(), DbError> {
    if name == "printdb".spec_bytes() {
        Ok(())
    } else if name == "rocksdb".spec_bytes() {
        Err(DbError::RocksdbNotEnabled)
    } else if name == "cassandra".spec_bytes() {
        Err(DbError::CassandraNotEnabled)
    } else if name == "redis".spec_bytes() {
        Err(DbError::RedisNotEnabled)
    } else if name == "scylla".spec_bytes() {
        Err(DbError::ScyllaNotEnabled)
    } else {
        Err(DbError::UnsupportedDatabase)
    }
}

impl Db {
    /// The layer called `database_name`, and what creating it reports. The
    /// path and the configuration are for layers that this build leaves
    /// out.
    pub fn new(database_name: &str, _db_path: Option<&str>, _config: Option<&str>) -> (r: Result<
        (Db, Vec<u8>),
        DbError,
    >)
        ensures
            match r {
                Ok((db, report)) => spec_db_new(database_name.spec_bytes()) is Ok && db is PrintDB
                    && report@ == "Initialized".spec_bytes(),
                Err(e) => spec_db_new(database_name.spec_bytes()) == Err::<(), DbError>(e),
            },
    {
        let name = database_name.as_bytes();
        if keys_equal(name, "printdb".as_bytes()) {
            let (p, report) = PrintDB::new();
            Ok((Db::PrintDB(p), report))
        } else if keys_equal(name, "rocksdb".as_bytes()) {
            Err(DbError::RocksdbNotEnabled)
        } else if keys_equal(name, "cassandra".as_bytes()) {
            Err(DbError::CassandraNotEnabled)
        } else if keys_equal(name, "redis".as_bytes()) {
            Err(DbError::RedisNotEnabled)
        } else if keys_equal(name, "scylla".as_bytes()) {
            Err(DbError::ScyllaNotEnabled)
        } else {
            Err(DbError::UnsupportedDatabase)
        }
    }
}

impl DBTranslationLayer for Db {
    open spec fn report(&self, c: CommandView) -> Result<Seq<u8>, DbError> {
        match self {
            Db::PrintDB(p) => p.report(c),
        }
    }

    open spec fn cleanup_report(&self) -> Seq<u8> {
        match self {
            Db::PrintDB(p) => p.cleanup_report(),
        }
    }

    fn cleanup(self) -> (r: Vec<u8>) {
        match self {
            Db::PrintDB(p) => p.cleanup(),
        }
    }

    fn insert(&self, key: &[u8], value: &[u8]) -> (r: Result<Vec<u8>, DbError>) {
        match self {
            Db::PrintDB(p) => p.insert(key, value),
        }
    }

    fn update(&self, key: &[u8], value: &[u8]) -> (r: Result<Vec<u8>, DbError>) {
        match self {
            Db::PrintDB(p) => p.update(key, value),
        }
    }

    fn merge(&self, key: &[u8], value: &[u8]) -> (r: Result<Vec<u8>, DbError>) {
        match self {
            Db::PrintDB(p) => p.merge(key, value),
        }
    }

    fn point_delete(&self, key: &[u8]) -> (r: Result<Vec<u8>, DbError>) {
        match self {
            Db::PrintDB(p) => p.point_delete(key),
        }
    }

    fn point_query(&self, key: &[u8]) -> (r: Result<Vec<u8>, DbError>) {
        match self {
            Db::PrintDB(p) => p.point_query(key),
        }
    }

    fn range_query(&self, start_key: &[u8], end_key: &[u8]) -> (r: Result<Vec<u8>, DbError>) {
        match self {
            Db::PrintDB(p) => p.range_query(start_key, end_key),
        }
    }

    fn range_query_count(&self, start_key: &[u8], range: usize) -> (r: Result<Vec<u8>, DbError>) {
        match self {
            Db::PrintDB(p) => p.range_query_count(start_key, range),
        }
    }

    fn range_delete(&self, start_key: &[u8], end_key: &[u8]) -> (r: Result<Vec<u8>, DbError>) {
        match self {
            Db::PrintDB(p) => p.range_delete(start_key, end_key),
        }
    }

    fn range_delete_count(&self, start_key: &[u8], range: usize) -> (r: Result<Vec<u8>, DbError>) {
        match self {
            Db::PrintDB(p) => p.range_delete_count(start_key, range),
        }
    }
}

} // verus!
