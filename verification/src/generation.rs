//! The decisions of workload generation that need no random draw: how the
//! operations of a group are scheduled, when an operation may be generated,
//! and the names under which statistics are flushed.
use vstd::prelude::*;
use vstd::string::StringSliceAdditionalSpecFns;
use crate::keys::{Key, copy_key, key_views};
use crate::markers::{Op, OpCount, count_for, sum_remaining};
use crate::op_line::{decimal, push_bytes, push_decimal};

verus! {

/// The evaluated operation counts of a group, one per kind of operation:
/// `None` where the group has no specification for that kind.
#[derive(Clone, Copy, Debug)]
pub struct GroupOps {
    pub unique_inserts: Option<usize>,
    pub inserts: Option<usize>,
    pub updates: Option<usize>,
    pub merges: Option<usize>,
    pub point_deletes: Option<usize>,
    pub empty_point_deletes: Option<usize>,
    pub range_deletes: Option<usize>,
    pub point_queries: Option<usize>,
    pub empty_point_queries: Option<usize>,
    pub range_queries: Option<usize>,
    pub blind_point_queries: Option<usize>,
    pub blind_point_deletes: Option<usize>,
    pub blind_range_queries: Option<usize>,
}

/// The entry of a group for one kind of operation.
pub open spec fn entry_of(g: GroupOps, op: Op) -> Option<usize> {
    match op {
        Op::UniqueInsert => g.unique_inserts,
        Op::Upsert => g.inserts,
        Op::Update => g.updates,
        Op::Merge => g.merges,
        Op::PointDelete => g.point_deletes,
        Op::PointDeleteEmpty => g.empty_point_deletes,
        Op::RangeDelete => g.range_deletes,
        Op::PointQuery => g.point_queries,
        Op::EmptyPointQuery => g.empty_point_queries,
        Op::RangeQuery => g.range_queries,
        Op::BlindPointQuery => g.blind_point_queries,
        Op::BlindPointDelete => g.blind_point_deletes,
        Op::BlindRangeQuery => g.blind_range_queries,
    }
}

/// How many operations of a kind the group asks for; none without a
/// specification.
pub open spec fn count_of(g: GroupOps, op: Op) -> nat {
    match entry_of(g, op) {
        Some(c) => c as nat,
        None => 0,
    }
}

impl GroupOps {
    /// The entry for one kind of operation.
    pub fn entry(&self, op: Op) -> (r: Option<usize>)
        ensures
            r == entry_of(*self, op),
    {
        match op {
            Op::UniqueInsert => self.unique_inserts,
            Op::Upsert => self.inserts,
            Op::Update => self.updates,
            Op::Merge => self.merges,
            Op::PointDelete => self.point_deletes,
            Op::PointDeleteEmpty => self.empty_point_deletes,
            Op::RangeDelete => self.range_deletes,
            Op::PointQuery => self.point_queries,
            Op::EmptyPointQuery => self.empty_point_queries,
            Op::RangeQuery => self.range_queries,
            Op::BlindPointQuery => self.blind_point_queries,
            Op::BlindPointDelete => self.blind_point_deletes,
            Op::BlindRangeQuery => self.blind_range_queries,
        }
    }

    /// The count for one kind of operation, zero without a specification.
    pub fn count(&self, op: Op) -> (r: usize)
        ensures
            r == count_of(*self, op),
    {
        match self.entry(op) {
            Some(c) => c,
            None => 0,
        }
    }
}

/// Why a group cannot be generated.
#[derive(Clone, Copy, Debug, PartialEq, Eq, Structural)]
pub enum GenError {
    /// The group deletes more keys by point than there are valid keys.
    MorePointDeletesThanKeys,
    /// The group asks for sorted keys but specifies no inserts.
    SortedWithoutInserts,
    /// There are no valid keys and the group inserts none.
    NoKeysOrInserts,
    /// An operation was drawn for which the group has no specification.
    MissingSpec { op: Op },
    /// An operation that reads existing keys was drawn with no valid keys.
    NoValidKeys { op: Op },
}

/// The schedule of a group: the insert that has to come first, if any, and
/// the remaining count of each kind of operation, in the order in which
/// they are handed to the operation drawer.
#[derive(Clone, Debug)]
pub struct GroupPlan {
    pub first_insert: Option<Op>,
    pub entries: Vec<OpCount>,
}

/// The errors that a group's counts give before anything is generated, in
/// the order in which they are checked.
pub open spec fn plan_error(g: GroupOps, sorted: bool, keys_len: nat, keys_empty: bool) -> Option<
    GenError,
> {
    if count_of(g, Op::PointDelete) > keys_len {
        Some(GenError::MorePointDeletesThanKeys)
    } else if sorted && g.unique_inserts is None && g.inserts is None {
        Some(GenError::SortedWithoutInserts)
    } else if keys_empty && count_of(g, Op::UniqueInsert) + count_of(g, Op::Upsert) == 0 {
        Some(GenError::NoKeysOrInserts)
    } else {
        None
    }
}

/// The inputs on which planning overflows: with no valid keys, the two
/// insert counts must add up within `usize`, and a unique insert
/// specification with a count of zero cannot supply the first key.
pub open spec fn plan_overflows(g: GroupOps, sorted: bool, keys_len: nat, keys_empty: bool) -> bool {
    &&& keys_empty
    &&& !(count_of(g, Op::PointDelete) > keys_len)
    &&& !(sorted && g.unique_inserts is None && g.inserts is None)
    &&& (count_of(g, Op::UniqueInsert) + count_of(g, Op::Upsert) > usize::MAX || (
    g.unique_inserts == Some(0usize) && count_of(g, Op::Upsert) > 0))
}

/// The insert that has to come first: with no valid keys, a unique insert
/// where the group specifies them, else an insert.
pub open spec fn first_insert_of(g: GroupOps, keys_empty: bool) -> Option<Op> {
    if !keys_empty {
        None
    } else if g.unique_inserts is Some {
        Some(Op::UniqueInsert)
    } else {
        Some(Op::Upsert)
    }
}

/// One entry of the schedule.
pub open spec fn entry(op: Op, count: nat) -> OpCount {
    OpCount { op_type: op, remaining_count: count as usize }
}

/// The schedule entries for the two kinds of insert.
pub open spec fn plan_head(g: GroupOps, keys_empty: bool) -> Seq<OpCount> {
    if !keys_empty {
        seq![].push(entry(Op::UniqueInsert, count_of(g, Op::UniqueInsert))).push(
            entry(Op::Upsert, count_of(g, Op::Upsert)),
        )
    } else if g.unique_inserts is Some {
        seq![].push(entry(Op::UniqueInsert, (count_of(g, Op::UniqueInsert) - 1) as nat)).push(
            entry(Op::Upsert, count_of(g, Op::Upsert)),
        )
    } else {
        seq![].push(entry(Op::Upsert, (count_of(g, Op::Upsert) - 1) as nat))
    }
}

/// The schedule: the insert entries, then the other kinds in a fixed order.
pub open spec fn plan_entries(g: GroupOps, keys_empty: bool) -> Seq<OpCount> {
    plan_head(g, keys_empty).push(entry(Op::Update, count_of(g, Op::Update))).push(
        entry(Op::Merge, count_of(g, Op::Merge)),
    ).push(entry(Op::PointDelete, count_of(g, Op::PointDelete))).push(
        entry(Op::PointDeleteEmpty, count_of(g, Op::PointDeleteEmpty)),
    ).push(entry(Op::RangeDelete, count_of(g, Op::RangeDelete))).push(
        entry(Op::PointQuery, count_of(g, Op::PointQuery)),
    ).push(entry(Op::EmptyPointQuery, count_of(g, Op::EmptyPointQuery))).push(
        entry(Op::RangeQuery, count_of(g, Op::RangeQuery)),
    ).push(entry(Op::BlindPointQuery, count_of(g, Op::BlindPointQuery))).push(
        entry(Op::BlindPointDelete, count_of(g, Op::BlindPointDelete)),
    ).push(entry(Op::BlindRangeQuery, count_of(g, Op::BlindRangeQuery)))
}

/// One for the insert that comes first, zero for every other kind.
pub open spec fn first_count(first: Option<Op>, op: Op) -> nat {
    if first == Some(op) {
        1
    } else {
        0
    }
}

/// The sum of a group's counts.
pub open spec fn total_count(g: GroupOps) -> nat {
    count_of(g, Op::UniqueInsert) + count_of(g, Op::Upsert) + count_of(g, Op::Update) + count_of(
        g,
        Op::Merge,
    ) + count_of(g, Op::PointDelete) + count_of(g, Op::PointDeleteEmpty) + count_of(
        g,
        Op::RangeDelete,
    ) + count_of(g, Op::PointQuery) + count_of(g, Op::EmptyPointQuery) + count_of(
        g,
        Op::RangeQuery,
    ) + count_of(g, Op::BlindPointQuery) + count_of(g, Op::BlindPointDelete) + count_of(
        g,
        Op::BlindRangeQuery,
    )
}

proof fn lemma_push_counts(s: Seq<OpCount>, x: OpCount)
    ensures
        sum_remaining(s.push(x)) == sum_remaining(s) + x.remaining_count,
        forall|o: Op|
            #[trigger] count_for(s.push(x), o) == count_for(s, o) + if x.op_type == o {
                x.remaining_count as nat
            } else {
                0nat
            },
{
    assert(s.push(x).drop_last() =~= s);
}

proof fn lemma_plan_head_counts(g: GroupOps, keys_empty: bool)
    requires
        keys_empty ==> count_of(g, Op::UniqueInsert) + count_of(g, Op::Upsert) > 0,
        keys_empty ==> !(g.unique_inserts == Some(0usize) && count_of(g, Op::Upsert) > 0),
    ensures
        forall|o: Op|
            #[trigger] count_for(plan_head(g, keys_empty), o) + first_count(
                first_insert_of(g, keys_empty),
                o,
            ) == (if o == Op::UniqueInsert || o == Op::Upsert {
                count_of(g, o)
            } else {
                0
            }),
        sum_remaining(plan_head(g, keys_empty)) + (if keys_empty {
            1nat
        } else {
            0nat
        }) == count_of(g, Op::UniqueInsert) + count_of(g, Op::Upsert),
{
    let e: Seq<OpCount> = seq![];
    if !keys_empty {
        let a = entry(Op::UniqueInsert, count_of(g, Op::UniqueInsert));
        lemma_push_counts(e, a);
        lemma_push_counts(e.push(a), entry(Op::Upsert, count_of(g, Op::Upsert)));
    } else if g.unique_inserts is Some {
        let a = entry(Op::UniqueInsert, (count_of(g, Op::UniqueInsert) - 1) as nat);
        lemma_push_counts(e, a);
        lemma_push_counts(e.push(a), entry(Op::Upsert, count_of(g, Op::Upsert)));
    } else {
        lemma_push_counts(e, entry(Op::Upsert, (count_of(g, Op::Upsert) - 1) as nat));
    }
}

/// What planning gives: an error, or the first insert and the schedule.
pub open spec fn spec_plan_group(g: GroupOps, sorted: bool, keys_len: nat, keys_empty: bool) -> Result<
    (Option<Op>, Seq<OpCount>),
    GenError,
> {
    match plan_error(g, sorted, keys_len, keys_empty) {
        Some(e) => Err(e),
        None => Ok((first_insert_of(g, keys_empty), plan_entries(g, keys_empty))),
    }
}

fn push_entry(entries: &mut Vec<OpCount>, op: Op, count: usize)
    ensures
        final(entries)@ == old(entries)@.push(entry(op, count as nat)),
{
    entries.push(OpCount { op_type: op, remaining_count: count });
}

/// Plans a group from its evaluated counts, whether it asks for sorted
/// keys, and the number of valid keys before it. With no valid keys the
/// group must start with an insert, which is taken out of its count.
pub fn plan_group(g: &GroupOps, sorted: bool, keys_len: usize, keys_empty: bool) -> (r: Result<
    GroupPlan,
    GenError,
>)
    requires
        !plan_overflows(*g, sorted, keys_len as nat, keys_empty),
    ensures
        match r {
            Ok(p) => spec_plan_group(*g, sorted, keys_len as nat, keys_empty) == Ok::<
                (Option<Op>, Seq<OpCount>),
                GenError,
            >((p.first_insert, p.entries@)),
            Err(e) => spec_plan_group(*g, sorted, keys_len as nat, keys_empty) == Err::<
                (Option<Op>, Seq<OpCount>),
                GenError,
            >(e),
        },
        r is Ok ==> keys_empty == r->Ok_0.first_insert is Some,
        r matches Ok(p) ==> forall|o: Op|
            #[trigger] count_for(p.entries@, o) + first_count(p.first_insert, o) == count_of(*g, o),
        r matches Ok(p) ==> sum_remaining(p.entries@) + (if keys_empty {
            1nat
        } else {
            0nat
        }) == total_count(*g),
        (r == Err::<GroupPlan, GenError>(GenError::MorePointDeletesThanKeys)) <==> count_of(
            *g,
            Op::PointDelete,
        ) > keys_len,
        r == Err::<GroupPlan, GenError>(GenError::SortedWithoutInserts) ==> sorted
            && g.unique_inserts is None && g.inserts is None,
        r == Err::<GroupPlan, GenError>(GenError::NoKeysOrInserts) ==> keys_empty && count_of(
            *g,
            Op::UniqueInsert,
        ) + count_of(*g, Op::Upsert) == 0,
        match r {
            Err(GenError::MorePointDeletesThanKeys) => true,
            Err(GenError::SortedWithoutInserts) => true,
            Err(GenError::NoKeysOrInserts) => true,
            Err(_) => false,
            Ok(_) => true,
        },
        r is Ok <==> count_of(*g, Op::PointDelete) <= keys_len && !(sorted && g.unique_inserts is None
            && g.inserts is None) && (keys_empty ==> count_of(*g, Op::UniqueInsert) + count_of(
            *g,
            Op::Upsert,
        ) > 0),
{
    let unique_count = g.count(Op::UniqueInsert);
    let upsert_count = g.count(Op::Upsert);
    if g.count(Op::PointDelete) > keys_len {
        return Err(GenError::MorePointDeletesThanKeys);
    }
    if sorted && g.unique_inserts.is_none() && g.inserts.is_none() {
        return Err(GenError::SortedWithoutInserts);
    }
    let mut entries: Vec<OpCount> = Vec::new();
    let first_insert: Option<Op>;
    if keys_empty {
        if unique_count + upsert_count == 0 {
            return Err(GenError::NoKeysOrInserts);
        }
        if g.unique_inserts.is_some() {
            push_entry(&mut entries, Op::UniqueInsert, unique_count - 1);
            first_insert = Some(Op::UniqueInsert);
        } else {
            first_insert = Some(Op::Upsert);
        }
    } else {
        push_entry(&mut entries, Op::UniqueInsert, unique_count);
        first_insert = None;
    }
    if first_insert == Some(Op::Upsert) {
        push_entry(&mut entries, Op::Upsert, upsert_count - 1);
    } else {
        push_entry(&mut entries, Op::Upsert, upsert_count);
    }
    assert(entries@ == plan_head(*g, keys_empty));
    push_entry(&mut entries, Op::Update, g.count(Op::Update));
    push_entry(&mut entries, Op::Merge, g.count(Op::Merge));
    push_entry(&mut entries, Op::PointDelete, g.count(Op::PointDelete));
    push_entry(&mut entries, Op::PointDeleteEmpty, g.count(Op::PointDeleteEmpty));
    push_entry(&mut entries, Op::RangeDelete, g.count(Op::RangeDelete));
    push_entry(&mut entries, Op::PointQuery, g.count(Op::PointQuery));
    push_entry(&mut entries, Op::EmptyPointQuery, g.count(Op::EmptyPointQuery));
    push_entry(&mut entries, Op::RangeQuery, g.count(Op::RangeQuery));
    push_entry(&mut entries, Op::BlindPointQuery, g.count(Op::BlindPointQuery));
    push_entry(&mut entries, Op::BlindPointDelete, g.count(Op::BlindPointDelete));
    push_entry(&mut entries, Op::BlindRangeQuery, g.count(Op::BlindRangeQuery));
    proof {
        lemma_plan_counts(*g, keys_empty);
    }
    Ok(GroupPlan { first_insert, entries })
}

proof fn lemma_plan_counts(g: GroupOps, keys_empty: bool)
    requires
        keys_empty ==> count_of(g, Op::UniqueInsert) + count_of(g, Op::Upsert) > 0,
        keys_empty ==> !(g.unique_inserts == Some(0usize) && count_of(g, Op::Upsert) > 0),
    ensures
        forall|o: Op|
            #[trigger] count_for(plan_entries(g, keys_empty), o) + first_count(
                first_insert_of(g, keys_empty),
                o,
            ) == count_of(g, o),
        sum_remaining(plan_entries(g, keys_empty)) + (if keys_empty {
            1nat
        } else {
            0nat
        }) == total_count(g),
{
    lemma_plan_head_counts(g, keys_empty);
    let s0 = plan_head(g, keys_empty);
    let x1 = entry(Op::Update, count_of(g, Op::Update));
    let x2 = entry(Op::Merge, count_of(g, Op::Merge));
    let x3 = entry(Op::PointDelete, count_of(g, Op::PointDelete));
    let x4 = entry(Op::PointDeleteEmpty, count_of(g, Op::PointDeleteEmpty));
    let x5 = entry(Op::RangeDelete, count_of(g, Op::RangeDelete));
    let x6 = entry(Op::PointQuery, count_of(g, Op::PointQuery));
    let x7 = entry(Op::EmptyPointQuery, count_of(g, Op::EmptyPointQuery));
    let x8 = entry(Op::RangeQuery, count_of(g, Op::RangeQuery));
    let x9 = entry(Op::BlindPointQuery, count_of(g, Op::BlindPointQuery));
    let x10 = entry(Op::BlindPointDelete, count_of(g, Op::BlindPointDelete));
    let x11 = entry(Op::BlindRangeQuery, count_of(g, Op::BlindRangeQuery));
    let s1 = s0.push(x1);
    let s2 = s1.push(x2);
    let s3 = s2.push(x3);
    let s4 = s3.push(x4);
    let s5 = s4.push(x5);
    let s6 = s5.push(x6);
    let s7 = s6.push(x7);
    let s8 = s7.push(x8);
    let s9 = s8.push(x9);
    let s10 = s9.push(x10);
    let s11 = s10.push(x11);
    lemma_push_counts(s0, x1);
    lemma_push_counts(s1, x2);
    lemma_push_counts(s2, x3);
    lemma_push_counts(s3, x4);
    lemma_push_counts(s4, x5);
    lemma_push_counts(s5, x6);
    lemma_push_counts(s6, x7);
    lemma_push_counts(s7, x8);
    lemma_push_counts(s8, x9);
    lemma_push_counts(s9, x10);
    lemma_push_counts(s10, x11);
    assert(s11 == plan_entries(g, keys_empty));
    assert forall|o: Op|
        #[trigger] count_for(plan_entries(g, keys_empty), o) + first_count(
            first_insert_of(g, keys_empty),
            o,
        ) == count_of(g, o) by {
        assert(count_for(s11, o) == count_for(s10, o) + if o == Op::BlindRangeQuery {
            count_of(g, o)
        } else {
            0
        });
        assert(count_for(s1, o) == count_for(s0, o) + if o == Op::Update {
            count_of(g, o)
        } else {
            0
        });
        assert(count_for(s0, o) + first_count(first_insert_of(g, keys_empty), o) == (if o
            == Op::UniqueInsert || o == Op::Upsert {
            count_of(g, o)
        } else {
            0
        }));
        assert(count_for(s2, o) == count_for(s1, o) + if o == Op::Merge {
            count_of(g, o)
        } else {
            0
        });
        assert(count_for(s3, o) == count_for(s2, o) + if o == Op::PointDelete {
            count_of(g, o)
        } else {
            0
        });
        assert(count_for(s4, o) == count_for(s3, o) + if o == Op::PointDeleteEmpty {
            count_of(g, o)
        } else {
            0
        });
        assert(count_for(s5, o) == count_for(s4, o) + if o == Op::RangeDelete {
            count_of(g, o)
        } else {
            0
        });
        assert(count_for(s6, o) == count_for(s5, o) + if o == Op::PointQuery {
            count_of(g, o)
        } else {
            0
        });
        assert(count_for(s7, o) == count_for(s6, o) + if o == Op::EmptyPointQuery {
            count_of(g, o)
        } else {
            0
        });
        assert(count_for(s8, o) == count_for(s7, o) + if o == Op::RangeQuery {
            count_of(g, o)
        } else {
            0
        });
        assert(count_for(s9, o) == count_for(s8, o) + if o == Op::BlindPointQuery {
            count_of(g, o)
        } else {
            0
        });
        assert(count_for(s10, o) == count_for(s9, o) + if o == Op::BlindPointDelete {
            count_of(g, o)
        } else {
            0
        });
    }
}

/// Whether an operation drawn from the schedule may be generated, given
/// the group's specifications and whether there are valid keys: the
/// specification is looked up first, except for a point query, which first
/// needs a valid key.
pub open spec fn spec_check_marker(g: GroupOps, op: Op, keys_empty: bool) -> Result<(), GenError> {
    let present = entry_of(g, op) is Some;
    match op {
        Op::UniqueInsert | Op::Upsert | Op::PointDelete | Op::PointDeleteEmpty
        | Op::EmptyPointQuery => if !present {
            Err(GenError::MissingSpec { op })
        } else {
            Ok(())
        },
        Op::PointQuery => if keys_empty {
            Err(GenError::NoValidKeys { op })
        } else if !present {
            Err(GenError::MissingSpec { op })
        } else {
            Ok(())
        },
        _ => if !present {
            Err(GenError::MissingSpec { op })
        } else if keys_empty {
            Err(GenError::NoValidKeys { op })
        } else {
            Ok(())
        },
    }
}

/// The operations that need no valid key: inserts, point deletes (whose
/// number the plan has already held to the valid keys), and the operations
/// that use a generated key that is not valid.
pub open spec fn keyless_op(op: Op) -> bool {
    op == Op::UniqueInsert || op == Op::Upsert || op == Op::PointDelete || op == Op::PointDeleteEmpty
        || op == Op::EmptyPointQuery
}

/// What checking a drawn operation answers, stated over the group's entry
/// for that operation: it fails only for a missing entry of that very
/// operation, or for missing valid keys where the operation reads them,
/// and each error names the operation drawn.
pub open spec fn marker_check_law(g: GroupOps, op: Op, keys_empty: bool, r: Result<(), GenError>) -> bool {
    &&& match r {
        Err(GenError::MissingSpec { op: o }) => o == op && entry_of(g, op) is None,
        Err(GenError::NoValidKeys { op: o }) => o == op && keys_empty && !keyless_op(op),
        Err(_) => false,
        Ok(_) => true,
    }
    &&& entry_of(g, op) is Some && (!keys_empty || keyless_op(op)) ==> r is Ok
    &&& entry_of(g, op) is None && !(op == Op::PointQuery && keys_empty) ==> r == Err::<(), GenError>(
        GenError::MissingSpec { op },
    )
    &&& entry_of(g, op) is Some && keys_empty && !keyless_op(op) ==> r == Err::<(), GenError>(
        GenError::NoValidKeys { op },
    )
}

/// Checking a drawn operation answers as [`marker_check_law`] says, for
/// every group, operation and state of the valid keys.
pub proof fn lemma_check_marker_law(g: GroupOps, op: Op, keys_empty: bool)
    ensures
        marker_check_law(g, op, keys_empty, spec_check_marker(g, op, keys_empty)),
{
}

/// Whether a group asks for sorted keys matters only where it specifies
/// neither kind of insert: with an insert specification of either kind,
/// planning a sorted group gives what planning it unsorted gives. Without
/// one, a sorted group that is not refused for its point deletes is refused
/// for having no inserts.
pub proof fn lemma_plan_sorted_needs_an_insert_spec(g: GroupOps, keys_len: nat, keys_empty: bool)
    ensures
        g.unique_inserts is Some || g.inserts is Some ==> spec_plan_group(g, true, keys_len, keys_empty)
            == spec_plan_group(g, false, keys_len, keys_empty),
        g.unique_inserts is None && g.inserts is None && count_of(g, Op::PointDelete) <= keys_len
            ==> spec_plan_group(g, true, keys_len, keys_empty) == Err::<(Option<Op>, Seq<OpCount>), GenError>(
            GenError::SortedWithoutInserts,
        ),
        spec_plan_group(g, false, keys_len, keys_empty) != Err::<(Option<Op>, Seq<OpCount>), GenError>(
            GenError::SortedWithoutInserts,
        ),
{
}

/// Checks whether an operation drawn from the schedule may be generated.
pub fn check_marker(g: &GroupOps, op: Op, keys_empty: bool) -> (r: Result<(), GenError>)
    ensures
        r == spec_check_marker(*g, op, keys_empty),
        marker_check_law(*g, op, keys_empty, r),
{
    proof {
        lemma_check_marker_law(*g, op, keys_empty);
    }
    let present = g.entry(op).is_some();
    match op {
        Op::UniqueInsert | Op::Upsert | Op::PointDelete | Op::PointDeleteEmpty
        | Op::EmptyPointQuery => if !present {
            Err(GenError::MissingSpec { op })
        } else {
            Ok(())
        },
        Op::PointQuery => if keys_empty {
            Err(GenError::NoValidKeys { op })
        } else if !present {
            Err(GenError::MissingSpec { op })
        } else {
            Ok(())
        },
        _ => if !present {
            Err(GenError::MissingSpec { op })
        } else if keys_empty {
            Err(GenError::NoValidKeys { op })
        } else {
            Ok(())
        },
    }
}

/// The name under which a section's statistics are flushed.
pub open spec fn spec_section_flush_name(name: Option<Seq<u8>>, section_num: nat) -> Seq<u8> {
    match name {
        Some(n) => n,
        None => "Section ".spec_bytes() + decimal(section_num),
    }
}

/// The name under which a group's statistics are flushed.
pub open spec fn spec_group_flush_name(
    name: Option<Seq<u8>>,
    section_num: nat,
    group_num: nat,
) -> Seq<u8> {
    match name {
        Some(n) => n,
        None => "Section ".spec_bytes() + decimal(section_num) + " Group ".spec_bytes() + decimal(
            group_num,
        ),
    }
}

/// The name of a section's statistics: its own, else `Section ` and its
/// number.
pub fn section_flush_name(name: Option<&[u8]>, section_num: usize) -> (r: Vec<u8>)
    ensures
        r@ == spec_section_flush_name(
            match name {
                Some(n) => Some(n@),
                None => None,
            },
            section_num as nat,
        ),
{
    let mut out: Vec<u8> = Vec::new();
    match name {
        Some(n) => push_bytes(&mut out, n),
        None => {
            push_bytes(&mut out, "Section ".as_bytes());
            push_decimal(&mut out, section_num);
        },
    }
    assert(out@ =~= spec_section_flush_name(
        match name {
            Some(n) => Some(n@),
            None => None,
        },
        section_num as nat,
    ));
    out
}

/// The name of a group's statistics: its own, else `Section `, the
/// section's number, ` Group ` and the group's number.
pub fn group_flush_name(name: Option<&[u8]>, section_num: usize, group_num: usize) -> (r: Vec<u8>)
    ensures
        r@ == spec_group_flush_name(
            match name {
                Some(n) => Some(n@),
                None => None,
            },
            section_num as nat,
            group_num as nat,
        ),
{
    let mut out: Vec<u8> = Vec::new();
    match name {
        Some(n) => push_bytes(&mut out, n),
        None => {
            push_bytes(&mut out, "Section ".as_bytes());
            push_decimal(&mut out, section_num);
            push_bytes(&mut out, " Group ".as_bytes());
            push_decimal(&mut out, group_num);
        },
    }
    assert(out@ =~= spec_group_flush_name(
        match name {
            Some(n) => Some(n@),
            None => None,
        },
        section_num as nat,
        group_num as nat,
    ));
    out
}

/// Where a key of a sorted pool moves when it is displaced from `idx` by
/// `offset`: the offset is clamped so that the position stays in `0..len`.
pub open spec fn displaced_position(idx: int, offset: int, len: int) -> int {
    let lo = -idx;
    let hi = len - 1 - idx;
    idx + if offset < lo {
        lo
    } else if offset > hi {
        hi
    } else {
        offset
    }
}

/// Swaps the key at `idx` of a pool with the key `offset` positions away,
/// the offset clamped to the pool's bounds; this is how a sorted pool is
/// made nearly sorted.
pub fn displace_key(pool: &mut Vec<Key>, idx: usize, offset: isize)
    requires
        idx < old(pool).len(),
        old(pool).len() <= isize::MAX,
    ensures
        ({
            let t = displaced_position(idx as int, offset as int, old(pool).len() as int);
            &&& 0 <= t < old(pool).len()
            &&& key_views(final(pool)@) == key_views(old(pool)@).update(idx as int, old(pool)@[t]@).update(
                t,
                old(pool)@[idx as int]@,
            )
        }),
{
    let len = pool.len() as isize;
    let i = idx as isize;
    let lo = -i;
    let hi = len - 1 - i;
    let l: isize = if offset < lo {
        lo
    } else if offset > hi {
        hi
    } else {
        offset
    };
    let t = (i + l) as usize;
    let ghost before = key_views(pool@);
    let a = copy_key(&pool[idx]);
    let b = copy_key(&pool[t]);
    pool.set(idx, b);
    pool.set(t, a);
    assert(key_views(pool@) =~= before.update(idx as int, before[t as int]).update(
        t as int,
        before[idx as int],
    ));
}

} // verus!
