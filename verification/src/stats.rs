//! Benchmark bookkeeping: the latencies of executed operations, kept per
//! kind of operation for the whole run and, while a flush is open, for the
//! current section and group, with the times at which each scope started
//! and ended.
use hdrhistogram::Histogram;
use std::time::Instant;
use vstd::prelude::*;
use crate::op_line::{BenchmarkerType, Command, spec_encode};

verus! {

/// A point in time, as `Instant::now` gives it.
#[verifier::external_type_specification]
#[verifier::external_body]
pub struct ExInstant(Instant);

/// A latency histogram of hdrhistogram. The histogram's type is generic over
/// a counter type bound by a trait of hdrhistogram; this struct fixes the
/// counter to `u64` and holds the histogram, which is reached only through
/// the functions below.
#[verifier::external_body]
pub struct LatencyHistogram {
    pub samples: Histogram<u64>,
}

/// The number of samples that a histogram has recorded, as `len` reports it.
pub uninterp spec fn recorded_count(h: LatencyHistogram) -> nat;

/// The number of samples in the bucket that a value falls into, as
/// `count_at` reports it.
pub uninterp spec fn count_at(h: LatencyHistogram, value: u64) -> nat;

/// One more, saturating at `u64::MAX`, as hdrhistogram's counters do.
pub open spec fn sat_inc(n: nat) -> nat {
    if n < u64::MAX {
        n + 1
    } else {
        n
    }
}

/// A histogram that holds no sample.
pub open spec fn fresh_histogram(h: LatencyHistogram) -> bool {
    &&& recorded_count(h) == 0
    &&& forall|v: u64| #[trigger] count_at(h, v) == 0
}

/// `after` is `before` with `value` recorded: one more sample, and one more
/// in the value's bucket; where the histogram first grew to reach the value,
/// the value's bucket is new and holds just this sample.
pub open spec fn recorded_into(before: LatencyHistogram, after: LatencyHistogram, value: u64) -> bool {
    &&& recorded_count(after) == sat_inc(recorded_count(before))
    &&& (count_at(after, value) == sat_inc(count_at(before, value)) || count_at(after, value) == 1)
}

/// `Histogram::new_with_bounds`. Its source checks `1 <= low <= u64::MAX / 2`,
/// `high >= 2 * low` and `sigfig <= 5`; with `low == 1` the precision check
/// passes, and for a highest value up to 60 000 000 the bucket array is far
/// within `usize`, so it succeeds there. A new histogram has all its buckets
/// at zero.
#[verifier::external_body]
fn histogram_with_bounds(low: u64, high: u64, sigfig: u8) -> (r: Option<LatencyHistogram>)
    ensures
        low == 1 && 2 <= high <= 60_000_000 && sigfig <= 5 ==> r is Some,
        r matches Some(h) ==> fresh_histogram(h),
{
    Histogram::new_with_bounds(low, high, sigfig).ok().map(|samples| LatencyHistogram { samples })
}

/// `Histogram::auto`: it only sets the auto-resize flag, so every count
/// stays.
#[verifier::external_body]
fn histogram_auto(h: &mut LatencyHistogram, enabled: bool)
    ensures
        recorded_count(*final(h)) == recorded_count(*old(h)),
        forall|v: u64| #[trigger] count_at(*final(h), v) == count_at(*old(h), v),
{
    h.samples.auto(enabled);
}

/// `Histogram::record`: on `Ok` its source adds one, saturating, to the
/// sample count and to the counter of the value's bucket (a bucket that a
/// resize has just made starts at zero); on `Err` it has changed nothing.
#[verifier::external_body]
fn histogram_record(h: &mut LatencyHistogram, value: u64) -> (r: bool)
    ensures
        r ==> recorded_into(*old(h), *final(h), value),
        !r ==> *final(h) == *old(h),
{
    h.samples.record(value).is_ok()
}

/// What a [`Statistics`] holds.
pub struct StatsView {
    pub count: nat,
    pub failed_count: nat,
    pub sum: nat,
    pub histogram: LatencyHistogram,
}

/// The latency that is recorded for a measured one: at most `u64::MAX`.
pub open spec fn capped_value(latency_nanos: u128) -> u64 {
    if latency_nanos > u64::MAX {
        u64::MAX
    } else {
        latency_nanos as u64
    }
}

/// The recorded latency as a number.
pub open spec fn capped_latency(latency_nanos: u128) -> nat {
    capped_value(latency_nanos) as nat
}

/// What happened to one latency.
#[derive(Clone, Copy, Debug, PartialEq, Eq, Structural)]
pub struct LatencyNote {
    /// The latency did not fit in `u64` and was recorded as `u64::MAX`.
    pub capped: bool,
    /// The histogram refused the latency.
    pub refused: bool,
}

/// The latencies of one kind of operation.
pub struct Statistics {
    histogram: LatencyHistogram,
    failed_count: usize,
    count: usize,
    sum: u64,
}

impl View for Statistics {
    type V = StatsView;

    closed spec fn view(&self) -> StatsView {
        StatsView {
            count: self.count as nat,
            failed_count: self.failed_count as nat,
            sum: self.sum as nat,
            histogram: self.histogram,
        }
    }
}

/// The count that a kind of operation starts from: its own, or zero.
pub open spec fn prior_count(s: Option<StatsView>) -> nat {
    match s {
        Some(v) => v.count,
        None => 0,
    }
}

/// The failures that a kind of operation starts from: its own, or zero.
pub open spec fn prior_failed(s: Option<StatsView>) -> nat {
    match s {
        Some(v) => v.failed_count,
        None => 0,
    }
}

/// The latency sum that a kind of operation starts from: its own, or zero.
pub open spec fn prior_sum(s: Option<StatsView>) -> nat {
    match s {
        Some(v) => v.sum,
        None => 0,
    }
}

/// Whether one more latency, and one more failure where `failed`, fit in
/// the counters; adding beyond them panics.
pub open spec fn room_for(s: Option<StatsView>, latency_nanos: u128, failed: bool) -> bool {
    &&& prior_count(s) + 1 <= usize::MAX
    &&& prior_sum(s) + capped_latency(latency_nanos) <= u64::MAX
    &&& failed ==> prior_failed(s) + 1 <= usize::MAX
}

/// The histogram either refused the value and stayed, or recorded it.
pub open spec fn histogram_step(before: LatencyHistogram, after: LatencyHistogram, value: u64) -> bool {
    after == before || recorded_into(before, after, value)
}

/// `after` holds one more operation than `before` (none where the kind had
/// no statistics yet): its latency counted, summed and put in the
/// histogram, and a failure counted where it failed.
pub open spec fn op_recorded(
    before: Option<StatsView>,
    after: StatsView,
    latency_nanos: u128,
    failed: bool,
) -> bool {
    &&& after.count == prior_count(before) + 1
    &&& after.failed_count == prior_failed(before) + if failed {
        1nat
    } else {
        0nat
    }
    &&& after.sum == prior_sum(before) + capped_latency(latency_nanos)
    &&& match before {
        Some(b) => histogram_step(b.histogram, after.histogram, capped_value(latency_nanos)),
        None => exists|h: LatencyHistogram|
            #[trigger] fresh_histogram(h) && histogram_step(
                h,
                after.histogram,
                capped_value(latency_nanos),
            ),
    }
}

impl Statistics {
    /// Records a measured latency: it is counted and summed, capped at
    /// `u64::MAX` nanoseconds, and the capped latency is put in the
    /// histogram. The note says whether it was capped and whether the
    /// histogram refused it.
    pub fn add_latency(&mut self, latency_nanos: u128) -> (r: LatencyNote)
        requires
            room_for(Some(old(self)@), latency_nanos, false),
        ensures
            r.capped == (latency_nanos > u64::MAX),
            final(self)@.count == old(self)@.count + 1,
            final(self)@.failed_count == old(self)@.failed_count,
            final(self)@.sum == old(self)@.sum + capped_latency(latency_nanos),
            r.refused ==> final(self)@.histogram == old(self)@.histogram,
            !r.refused ==> recorded_into(
                old(self)@.histogram,
                final(self)@.histogram,
                capped_value(latency_nanos),
            ),
    {
        let capped = latency_nanos > 0xffff_ffff_ffff_ffffu128;
        let latency: u64 = if capped {
            0xffff_ffff_ffff_ffffu64
        } else {
            latency_nanos as u64
        };
        self.count = self.count + 1;
        self.sum = self.sum + latency;
        let recorded = histogram_record(&mut self.histogram, latency);
        LatencyNote { capped, refused: !recorded }
    }

    /// Counts one failed operation.
    pub fn add_error(&mut self)
        requires
            old(self)@.failed_count + 1 <= usize::MAX,
        ensures
            final(self)@ == (StatsView { failed_count: old(self)@.failed_count + 1, ..old(self)@ }),
    {
        self.failed_count = self.failed_count + 1;
    }

    /// The number of latencies recorded.
    pub fn count(&self) -> (r: usize)
        ensures
            r == self@.count,
    {
        self.count
    }

    /// The number of failed operations.
    pub fn failed_count(&self) -> (r: usize)
        ensures
            r == self@.failed_count,
    {
        self.failed_count
    }

    /// The sum of the recorded latencies, in nanoseconds.
    pub fn sum(&self) -> (r: u64)
        ensures
            r == self@.sum,
    {
        self.sum
    }

    /// The histogram of the recorded latencies.
    pub fn histogram(&self) -> (r: &LatencyHistogram)
        ensures
            *r == self@.histogram,
    {
        &self.histogram
    }
}

impl Default for Statistics {
    /// Statistics that have seen nothing, over an auto-resizing histogram of
    /// latencies between 1 and 60 000 000 nanoseconds at five significant
    /// digits.
    #[verifier::loop_isolation(false)]
    fn default() -> (r: Self)
        ensures
            r@.count == 0,
            r@.failed_count == 0,
            r@.sum == 0,
            fresh_histogram(r@.histogram),
    {
        let made = histogram_with_bounds(1, 60_000_000, 5);
        let mut histogram = match made {
            Some(h) => h,
            None => {
                proof {
                    assert(false);
                }
                loop
                    decreases 0nat,
                {
                }
            },
        };
        histogram_auto(&mut histogram, true);
        Statistics { histogram, failed_count: 0, count: 0, sum: 0 }
    }
}

/// The kinds of operation that statistics are kept for; a range query by
/// count falls under range queries, and a range delete by count under range
/// deletes.
#[derive(Clone, Copy, Debug, PartialEq, Eq, Structural)]
pub enum StatKey {
    Insert,
    PointQuery,
    Update,
    RangeQuery,
    Delete,
    Merge,
    RangeDelete,
}

/// The kind of statistics an operation is counted under; stat flushes are
/// counted under none.
pub open spec fn spec_stat_key(c: Command) -> Option<StatKey> {
    match c {
        Command::Insert { .. } => Some(StatKey::Insert),
        Command::Update { .. } => Some(StatKey::Update),
        Command::Merge { .. } => Some(StatKey::Merge),
        Command::PointDelete { .. } => Some(StatKey::Delete),
        Command::PointQuery { .. } => Some(StatKey::PointQuery),
        Command::RangeQuery { .. } => Some(StatKey::RangeQuery),
        Command::RangeQueryCount { .. } => Some(StatKey::RangeQuery),
        Command::RangeDelete { .. } => Some(StatKey::RangeDelete),
        Command::RangeDeleteCount { .. } => Some(StatKey::RangeDelete),
        Command::StartStatFlush { .. } => None,
        Command::EndStatFlush { .. } => None,
    }
}

/// The letter under which a kind of statistics is kept: that of the
/// operation lines it counts (a range query by count is counted with range
/// queries, a range delete by count with range deletes).
pub open spec fn stat_letter(k: StatKey) -> u8 {
    match k {
        StatKey::Insert => 73u8,
        StatKey::PointQuery => 80u8,
        StatKey::Update => 85u8,
        StatKey::RangeQuery => 83u8,
        StatKey::Delete => 68u8,
        StatKey::Merge => 77u8,
        StatKey::RangeDelete => 82u8,
    }
}

/// Each operation is counted under the statistics of its own kind: the
/// statistics whose letter begins the operation's line. Stat flushes, whose
/// lines begin with `F`, are counted under none; and no two kinds of
/// statistics share a letter.
pub proof fn lemma_stat_key_follows_line_letter(c: Command)
    ensures
        spec_stat_key(c) is None <==> spec_encode(c@)[0] == 70u8,
        spec_stat_key(c) matches Some(k) ==> stat_letter(k) == spec_encode(c@)[0],
        forall|a: StatKey, b: StatKey| stat_letter(a) == stat_letter(b) ==> a == b,
{
}

/// The kind of statistics an operation is counted under.
pub fn stat_key(c: &Command) -> (r: Option<StatKey>)
    ensures
        r == spec_stat_key(*c),
        r is None <==> spec_encode(c@)[0] == 70u8,
        r matches Some(k) ==> stat_letter(k) == spec_encode(c@)[0],
{
    match c {
        Command::Insert { .. } => Some(StatKey::Insert),
        Command::Update { .. } => Some(StatKey::Update),
        Command::Merge { .. } => Some(StatKey::Merge),
        Command::PointDelete { .. } => Some(StatKey::Delete),
        Command::PointQuery { .. } => Some(StatKey::PointQuery),
        Command::RangeQuery { .. } => Some(StatKey::RangeQuery),
        Command::RangeQueryCount { .. } => Some(StatKey::RangeQuery),
        Command::RangeDelete { .. } => Some(StatKey::RangeDelete),
        Command::RangeDeleteCount { .. } => Some(StatKey::RangeDelete),
        Command::StartStatFlush { .. } => None,
        Command::EndStatFlush { .. } => None,
    }
}

impl StatKey {
    /// The name under which the statistics are printed.
    pub fn name(&self) -> (r: &'static str)
        ensures
            r@ == match *self {
                StatKey::Insert => "Insert"@,
                StatKey::PointQuery => "Point Query"@,
                StatKey::Update => "Update"@,
                StatKey::RangeQuery => "Range Query"@,
                StatKey::Delete => "Delete"@,
                StatKey::Merge => "Merge"@,
                StatKey::RangeDelete => "Range Delete"@,
            },
    {
        match self {
            StatKey::Insert => "Insert",
            StatKey::PointQuery => "Point Query",
            StatKey::Update => "Update",
            StatKey::RangeQuery => "Range Query",
            StatKey::Delete => "Delete",
            StatKey::Merge => "Merge",
            StatKey::RangeDelete => "Range Delete",
        }
    }
}

/// The statistics of one scope, per kind of operation (a kind has none
/// until its first operation), and the times at which the scope started
/// and ended.
pub struct BenchmarkerInner {
    insert: Option<Statistics>,
    point_query: Option<Statistics>,
    update: Option<Statistics>,
    range_query: Option<Statistics>,
    delete: Option<Statistics>,
    merge: Option<Statistics>,
    range_delete: Option<Statistics>,
    start_time: Option<Instant>,
    end_time: Option<Instant>,
}

/// What an optional [`Statistics`] holds.
pub open spec fn opt_view(s: Option<Statistics>) -> Option<StatsView> {
    match s {
        Some(st) => Some(st@),
        None => None,
    }
}

fn record_into(slot: &mut Option<Statistics>, latency_nanos: u128, failed: bool) -> (r: LatencyNote)
    requires
        room_for(opt_view(*old(slot)), latency_nanos, failed),
    ensures
        opt_view(*final(slot)) matches Some(v) && op_recorded(
            opt_view(*old(slot)),
            v,
            latency_nanos,
            failed,
        ),
        r.capped == (latency_nanos > u64::MAX),
{
    let fresh = slot.is_none();
    let mut stats = match slot.take() {
        Some(s) => s,
        None => Statistics::default(),
    };
    let ghost h0 = stats@.histogram;
    let note = stats.add_latency(latency_nanos);
    if failed {
        stats.add_error();
    }
    proof {
        assert(histogram_step(h0, stats@.histogram, capped_value(latency_nanos)));
        if fresh {
            assert(fresh_histogram(h0));
        }
    }
    *slot = Some(stats);
    note
}

impl BenchmarkerInner {
    /// The statistics of one kind of operation.
    pub closed spec fn stats_of(&self, k: StatKey) -> Option<StatsView> {
        match k {
            StatKey::Insert => opt_view(self.insert),
            StatKey::PointQuery => opt_view(self.point_query),
            StatKey::Update => opt_view(self.update),
            StatKey::RangeQuery => opt_view(self.range_query),
            StatKey::Delete => opt_view(self.delete),
            StatKey::Merge => opt_view(self.merge),
            StatKey::RangeDelete => opt_view(self.range_delete),
        }
    }

    /// When the scope started, if it has.
    pub closed spec fn started(&self) -> Option<Instant> {
        self.start_time
    }

    /// When the scope ended, if it has.
    pub closed spec fn ended(&self) -> Option<Instant> {
        self.end_time
    }

    /// Whether no kind of operation has statistics.
    pub open spec fn no_stats(&self) -> bool {
        forall|k: StatKey| #[trigger] self.stats_of(k) is None
    }

    /// Whether the scope holds nothing: no statistics and no times.
    pub open spec fn is_clear(&self) -> bool {
        &&& self.no_stats()
        &&& self.started() is None
        &&& self.ended() is None
    }

    /// Whether two scopes hold the same statistics.
    pub open spec fn same_stats(&self, other: BenchmarkerInner) -> bool {
        forall|k: StatKey| #[trigger] self.stats_of(k) == other.stats_of(k)
    }

    /// Records the start of the scope.
    pub fn start(&mut self, now: Instant)
        ensures
            final(self).started() == Some(now),
            final(self).ended() == old(self).ended(),
            final(self).same_stats(*old(self)),
    {
        self.start_time = Some(now);
    }

    /// Records the end of the scope.
    pub fn end(&mut self, now: Instant)
        ensures
            final(self).ended() == Some(now),
            final(self).started() == old(self).started(),
            final(self).same_stats(*old(self)),
    {
        self.end_time = Some(now);
    }

    /// When the scope started, if it has.
    pub fn start_time(&self) -> (r: Option<Instant>)
        ensures
            r == self.started(),
    {
        self.start_time
    }

    /// When the scope ended, if it has.
    pub fn end_time(&self) -> (r: Option<Instant>)
        ensures
            r == self.ended(),
    {
        self.end_time
    }

    /// Forgets everything recorded, the times included.
    pub fn reset(&mut self)
        ensures
            final(self).is_clear(),
    {
        *self = BenchmarkerInner::default();
    }

    /// The statistics of one kind of operation.
    pub fn stats(&self, k: StatKey) -> (r: Option<&Statistics>)
        ensures
            match r {
                Some(s) => self.stats_of(k) == Some(s@),
                None => self.stats_of(k) is None,
            },
    {
        match k {
            StatKey::Insert => self.insert.as_ref(),
            StatKey::PointQuery => self.point_query.as_ref(),
            StatKey::Update => self.update.as_ref(),
            StatKey::RangeQuery => self.range_query.as_ref(),
            StatKey::Delete => self.delete.as_ref(),
            StatKey::Merge => self.merge.as_ref(),
            StatKey::RangeDelete => self.range_delete.as_ref(),
        }
    }

    /// Whether one more operation of a kind fits in its counters.
    pub fn has_room(&self, k: StatKey, latency_nanos: u128, failed: bool) -> (r: bool)
        ensures
            r == room_for(self.stats_of(k), latency_nanos, failed),
    {
        match self.stats(k) {
            None => true,
            Some(s) => {
                let capped: u64 = if latency_nanos > 0xffff_ffff_ffff_ffffu128 {
                    0xffff_ffff_ffff_ffffu64
                } else {
                    latency_nanos as u64
                };
                s.count() < usize::MAX && s.sum() <= u64::MAX - capped && (!failed
                    || s.failed_count() < usize::MAX)
            },
        }
    }

    /// Records one operation of a kind: its latency, and a failure where it
    /// failed. The other kinds keep their statistics, and the times stay.
    pub fn record(&mut self, k: StatKey, latency_nanos: u128, failed: bool) -> (r: LatencyNote)
        requires
            room_for(old(self).stats_of(k), latency_nanos, failed),
        ensures
            recorded_in(*old(self), *final(self), k, latency_nanos, failed),
            r.capped == (latency_nanos > u64::MAX),
    {
        match k {
            StatKey::Insert => record_into(&mut self.insert, latency_nanos, failed),
            StatKey::PointQuery => record_into(&mut self.point_query, latency_nanos, failed),
            StatKey::Update => record_into(&mut self.update, latency_nanos, failed),
            StatKey::RangeQuery => record_into(&mut self.range_query, latency_nanos, failed),
            StatKey::Delete => record_into(&mut self.delete, latency_nanos, failed),
            StatKey::Merge => record_into(&mut self.merge, latency_nanos, failed),
            StatKey::RangeDelete => record_into(&mut self.range_delete, latency_nanos, failed),
        }
    }
}

impl Default for BenchmarkerInner {
    /// A scope that has seen nothing and has not started.
    fn default() -> (r: Self)
        ensures
            r.is_clear(),
    {
        BenchmarkerInner {
            insert: None,
            point_query: None,
            update: None,
            range_query: None,
            delete: None,
            merge: None,
            range_delete: None,
            start_time: None,
            end_time: None,
        }
    }
}

/// Whether a scope was updated by one operation as
/// [`BenchmarkerInner::record`] does.
pub open spec fn recorded_in(
    before: BenchmarkerInner,
    after: BenchmarkerInner,
    k: StatKey,
    latency_nanos: u128,
    failed: bool,
) -> bool {
    &&& after.stats_of(k) matches Some(v) && op_recorded(before.stats_of(k), v, latency_nanos, failed)
    &&& forall|o: StatKey| o != k ==> #[trigger] after.stats_of(o) == before.stats_of(o)
    &&& after.started() == before.started()
    &&& after.ended() == before.ended()
}

/// Why statistics could not be flushed.
#[derive(Clone, Copy, Debug, PartialEq, Eq, Structural)]
pub enum FlushError {
    /// The overall statistics are never flushed.
    OverallFlush,
    /// No section flush was started.
    NoSectionBenchmarker,
    /// No group flush was started.
    NoGroupBenchmarker,
}

/// The statistics of a run: overall, and for the section and the group
/// whose flush has been started.
pub struct Benchmarker {
    pub overall: BenchmarkerInner,
    pub section: Option<BenchmarkerInner>,
    pub group: Option<BenchmarkerInner>,
}

/// Whether a scope that may be absent has room for one more operation.
pub open spec fn scope_room(s: Option<BenchmarkerInner>, k: StatKey, latency_nanos: u128, failed: bool) -> bool {
    match s {
        Some(b) => room_for(b.stats_of(k), latency_nanos, failed),
        None => true,
    }
}

/// A scope just opened at `now`: no statistics, started at `now`, not
/// ended.
pub open spec fn opened_at(s: Option<BenchmarkerInner>, now: Instant) -> bool {
    &&& s is Some
    &&& s->Some_0.no_stats()
    &&& s->Some_0.started() == Some(now)
    &&& s->Some_0.ended() is None
}

/// What a closed scope hands back: the statistics and the start time that
/// it had, and the end time `now`.
pub open spec fn closed_at(before: BenchmarkerInner, after: BenchmarkerInner, now: Instant) -> bool {
    &&& after.same_stats(before)
    &&& after.started() == before.started()
    &&& after.ended() == Some(now)
}

impl Benchmarker {
    /// A run that has recorded nothing, with no flush started.
    pub fn new() -> (r: Self)
        ensures
            r.overall.is_clear(),
            r.section is None,
            r.group is None,
    {
        Benchmarker { overall: BenchmarkerInner::default(), section: None, group: None }
    }

    /// Records the start of the run.
    pub fn start(&mut self, now: Instant)
        ensures
            final(self).overall.started() == Some(now),
            final(self).overall.ended() == old(self).overall.ended(),
            final(self).overall.same_stats(old(self).overall),
            final(self).section == old(self).section,
            final(self).group == old(self).group,
    {
        self.overall.start(now);
    }

    /// Records the end of the run.
    pub fn end(&mut self, now: Instant)
        ensures
            final(self).overall.ended() == Some(now),
            final(self).overall.started() == old(self).overall.started(),
            final(self).overall.same_stats(old(self).overall),
            final(self).section == old(self).section,
            final(self).group == old(self).group,
    {
        self.overall.end(now);
    }

    /// Whether one more operation fits in the counters of every scope.
    pub open spec fn can_record(&self, k: StatKey, latency_nanos: u128, failed: bool) -> bool {
        &&& room_for(self.overall.stats_of(k), latency_nanos, failed)
        &&& scope_room(self.section, k, latency_nanos, failed)
        &&& scope_room(self.group, k, latency_nanos, failed)
    }

    /// Whether one more operation fits in the counters of every scope.
    pub fn has_room(&self, k: StatKey, latency_nanos: u128, failed: bool) -> (r: bool)
        ensures
            r == self.can_record(k, latency_nanos, failed),
    {
        let section_room = match &self.section {
            Some(b) => b.has_room(k, latency_nanos, failed),
            None => true,
        };
        let group_room = match &self.group {
            Some(b) => b.has_room(k, latency_nanos, failed),
            None => true,
        };
        self.overall.has_room(k, latency_nanos, failed) && section_room && group_room
    }

    /// Records one executed operation in the overall statistics and in
    /// those of the section and the group whose flush is open. The notes
    /// come in that order, one per scope that recorded it.
    pub fn record(&mut self, k: StatKey, latency_nanos: u128, failed: bool) -> (r: Vec<LatencyNote>)
        requires
            old(self).can_record(k, latency_nanos, failed),
        ensures
            recorded_in(old(self).overall, final(self).overall, k, latency_nanos, failed),
            final(self).section is Some == old(self).section is Some,
            final(self).group is Some == old(self).group is Some,
            old(self).section matches Some(b) ==> recorded_in(
                b,
                final(self).section->Some_0,
                k,
                latency_nanos,
                failed,
            ),
            old(self).group matches Some(b) ==> recorded_in(
                b,
                final(self).group->Some_0,
                k,
                latency_nanos,
                failed,
            ),
            r@.len() == 1 + (if old(self).section is Some {
                1int
            } else {
                0int
            }) + (if old(self).group is Some {
                1int
            } else {
                0int
            }),
            forall|i: int| 0 <= i < r@.len() ==> #[trigger] r@[i].capped == (latency_nanos > u64::MAX),
    {
        let mut notes: Vec<LatencyNote> = Vec::new();
        let note = self.overall.record(k, latency_nanos, failed);
        notes.push(note);
        match self.section.take() {
            Some(mut b) => {
                let note = b.record(k, latency_nanos, failed);
                notes.push(note);
                self.section = Some(b);
            },
            None => {},
        }
        match self.group.take() {
            Some(mut b) => {
                let note = b.record(k, latency_nanos, failed);
                notes.push(note);
                self.group = Some(b);
            },
            None => {},
        }
        notes
    }

    /// Opens a fresh section or group scope, started at `now`. The overall
    /// statistics cannot be flushed, and starting a flush of them panics.
    pub fn start_stat_flush(&mut self, benchmarker: BenchmarkerType, now: Instant)
        requires
            benchmarker != BenchmarkerType::Overall,
        ensures
            final(self).overall == old(self).overall,
            benchmarker == BenchmarkerType::Section ==> opened_at(final(self).section, now)
                && final(self).group == old(self).group,
            benchmarker == BenchmarkerType::Group ==> opened_at(final(self).group, now)
                && final(self).section == old(self).section,
    {
        let mut fresh = BenchmarkerInner::default();
        fresh.start(now);
        match benchmarker {
            BenchmarkerType::Overall => {},
            BenchmarkerType::Section => {
                self.section = Some(fresh);
            },
            BenchmarkerType::Group => {
                self.group = Some(fresh);
            },
        }
    }

    /// Closes a flush at `now`: hands back what the section or the group
    /// recorded, with its start time and the end time `now`, and leaves its
    /// scope open, empty and without times. Fails for the overall scope and
    /// for a scope whose flush was never started.
    pub fn end_stat_flush(&mut self, benchmarker: BenchmarkerType, now: Instant) -> (r: Result<
        BenchmarkerInner,
        FlushError,
    >)
        ensures
            final(self).overall == old(self).overall,
            benchmarker == BenchmarkerType::Overall ==> r == Err::<BenchmarkerInner, FlushError>(
                FlushError::OverallFlush,
            ) && final(self).section == old(self).section && final(self).group == old(self).group,
            benchmarker == BenchmarkerType::Section ==> match old(self).section {
                None => r == Err::<BenchmarkerInner, FlushError>(FlushError::NoSectionBenchmarker)
                    && final(self).section is None,
                Some(b) => r is Ok && closed_at(b, r->Ok_0, now) && final(self).section is Some
                    && final(self).section->Some_0.is_clear(),
            } && final(self).group == old(self).group,
            benchmarker == BenchmarkerType::Group ==> match old(self).group {
                None => r == Err::<BenchmarkerInner, FlushError>(FlushError::NoGroupBenchmarker)
                    && final(self).group is None,
                Some(b) => r is Ok && closed_at(b, r->Ok_0, now) && final(self).group is Some
                    && final(self).group->Some_0.is_clear(),
            } && final(self).section == old(self).section,
    {
        match benchmarker {
            BenchmarkerType::Overall => Err(FlushError::OverallFlush),
            BenchmarkerType::Section => match self.section.take() {
                None => Err(FlushError::NoSectionBenchmarker),
                Some(mut b) => {
                    b.end(now);
                    self.section = Some(BenchmarkerInner::default());
                    Ok(b)
                },
            },
            BenchmarkerType::Group => match self.group.take() {
                None => Err(FlushError::NoGroupBenchmarker),
                Some(mut b) => {
                    b.end(now);
                    self.group = Some(BenchmarkerInner::default());
                    Ok(b)
                },
            },
        }
    }
}

} // verus!
