//! The time spent generating each kind of operation.
use vstd::prelude::*;
use crate::markers::Op;

verus! {

/// The largest length of time, in nanoseconds, that `std::time::Duration`
/// holds: `u64::MAX` seconds and 999 999 999 nanoseconds.
pub const MAX_DURATION_NANOS: u128 = 18_446_744_073_709_551_615_999_999_999u128;

/// Accumulated generation time per kind of operation, in nanoseconds.
pub struct OperationTimings {
    time_insert: u128,
    time_upsert: u128,
    time_update: u128,
    time_merge: u128,
    time_delete_point: u128,
    time_delete_point_empty: u128,
    time_delete_range: u128,
    time_query_point: u128,
    time_query_point_empty: u128,
    time_query_range: u128,
    time_blind_point_query: u128,
    time_blind_point_delete: u128,
    time_blind_range_query: u128,
}

impl OperationTimings {
    /// The time accumulated for one kind of operation.
    pub closed spec fn spec_time(&self, op: Op) -> nat {
        match op {
            Op::UniqueInsert => self.time_insert as nat,
            Op::Upsert => self.time_upsert as nat,
            Op::Update => self.time_update as nat,
            Op::Merge => self.time_merge as nat,
            Op::PointDelete => self.time_delete_point as nat,
            Op::PointDeleteEmpty => self.time_delete_point_empty as nat,
            Op::RangeDelete => self.time_delete_range as nat,
            Op::PointQuery => self.time_query_point as nat,
            Op::EmptyPointQuery => self.time_query_point_empty as nat,
            Op::RangeQuery => self.time_query_range as nat,
            Op::BlindPointQuery => self.time_blind_point_query as nat,
            Op::BlindPointDelete => self.time_blind_point_delete as nat,
            Op::BlindRangeQuery => self.time_blind_range_query as nat,
        }
    }

    /// Every accumulated time is a length that a `Duration` can hold.
    pub closed spec fn wf(&self) -> bool {
        &&& self.time_insert <= MAX_DURATION_NANOS
        &&& self.time_upsert <= MAX_DURATION_NANOS
        &&& self.time_update <= MAX_DURATION_NANOS
        &&& self.time_merge <= MAX_DURATION_NANOS
        &&& self.time_delete_point <= MAX_DURATION_NANOS
        &&& self.time_delete_point_empty <= MAX_DURATION_NANOS
        &&& self.time_delete_range <= MAX_DURATION_NANOS
        &&& self.time_query_point <= MAX_DURATION_NANOS
        &&& self.time_query_point_empty <= MAX_DURATION_NANOS
        &&& self.time_query_range <= MAX_DURATION_NANOS
        &&& self.time_blind_point_query <= MAX_DURATION_NANOS
        &&& self.time_blind_point_delete <= MAX_DURATION_NANOS
        &&& self.time_blind_range_query <= MAX_DURATION_NANOS
    }

    /// The time accumulated for one kind of operation.
    pub fn time(&self, op: Op) -> (r: u128)
        ensures
            r == self.spec_time(op),
    {
        match op {
            Op::UniqueInsert => self.time_insert,
            Op::Upsert => self.time_upsert,
            Op::Update => self.time_update,
            Op::Merge => self.time_merge,
            Op::PointDelete => self.time_delete_point,
            Op::PointDeleteEmpty => self.time_delete_point_empty,
            Op::RangeDelete => self.time_delete_range,
            Op::PointQuery => self.time_query_point,
            Op::EmptyPointQuery => self.time_query_point_empty,
            Op::RangeQuery => self.time_query_range,
            Op::BlindPointQuery => self.time_blind_point_query,
            Op::BlindPointDelete => self.time_blind_point_delete,
            Op::BlindRangeQuery => self.time_blind_range_query,
        }
    }

    /// Adds the time that generating one operation took. The sum must stay
    /// within what a `Duration` holds, as adding two durations panics
    /// otherwise.
    pub fn add(&mut self, op: Op, nanos: u128)
        requires
            old(self).wf(),
            old(self).spec_time(op) + nanos <= MAX_DURATION_NANOS,
        ensures
            final(self).wf(),
            final(self).spec_time(op) == old(self).spec_time(op) + nanos,
            forall|o: Op| o != op ==> #[trigger] final(self).spec_time(o) == old(self).spec_time(o),
    {
        match op {
            Op::UniqueInsert => self.time_insert = self.time_insert + nanos,
            Op::Upsert => self.time_upsert = self.time_upsert + nanos,
            Op::Update => self.time_update = self.time_update + nanos,
            Op::Merge => self.time_merge = self.time_merge + nanos,
            Op::PointDelete => self.time_delete_point = self.time_delete_point + nanos,
            Op::PointDeleteEmpty => self.time_delete_point_empty = self.time_delete_point_empty
                + nanos,
            Op::RangeDelete => self.time_delete_range = self.time_delete_range + nanos,
            Op::PointQuery => self.time_query_point = self.time_query_point + nanos,
            Op::EmptyPointQuery => self.time_query_point_empty = self.time_query_point_empty
                + nanos,
            Op::RangeQuery => self.time_query_range = self.time_query_range + nanos,
            Op::BlindPointQuery => self.time_blind_point_query = self.time_blind_point_query
                + nanos,
            Op::BlindPointDelete => self.time_blind_point_delete = self.time_blind_point_delete
                + nanos,
            Op::BlindRangeQuery => self.time_blind_range_query = self.time_blind_range_query
                + nanos,
        }
    }
}

impl Default for OperationTimings {
    /// Nothing accumulated yet.
    fn default() -> (r: Self)
        ensures
            r.wf(),
            forall|op: Op| #[trigger] r.spec_time(op) == 0,
    {
        OperationTimings {
            time_insert: 0,
            time_upsert: 0,
            time_update: 0,
            time_merge: 0,
            time_delete_point: 0,
            time_delete_point_empty: 0,
            time_delete_range: 0,
            time_query_point: 0,
            time_query_point_empty: 0,
            time_query_range: 0,
            time_blind_point_query: 0,
            time_blind_point_delete: 0,
            time_blind_range_query: 0,
        }
    }
}

} // verus!
