//! The order of a group's operations: each kind of operation has a number
//! of remaining operations, and the next operation is drawn at random with
//! weights equal to those numbers.
use rand::seq::{IndexedRandom, SliceRandom};
use rand_xoshiro::Xoshiro256Plus;
use vstd::prelude::*;

verus! {

/// The random number generator that generation uses.
#[verifier::external_type_specification]
#[verifier::external_body]
pub struct ExXoshiro256Plus(Xoshiro256Plus);

/// A kind of generated operation.
#[derive(Clone, Copy, Debug, PartialEq, Eq, Structural)]
pub enum Op {
    UniqueInsert,
    Upsert,
    Update,
    Merge,
    PointDelete,
    PointDeleteEmpty,
    RangeDelete,
    PointQuery,
    EmptyPointQuery,
    RangeQuery,
    BlindPointQuery,
    BlindPointDelete,
    BlindRangeQuery,
}

/// The number of operations of one kind that are still to come.
#[derive(Clone, Copy, Debug, PartialEq, Eq, Structural)]
pub struct OpCount {
    pub op_type: Op,
    pub remaining_count: usize,
}

/// The sum of the remaining counts.
pub open spec fn sum_remaining(s: Seq<OpCount>) -> nat
    decreases s.len(),
{
    if s.len() == 0 {
        0
    } else {
        sum_remaining(s.drop_last()) + s.last().remaining_count as nat
    }
}

/// The remaining count of one kind of operation, over all its entries.
pub open spec fn count_for(s: Seq<OpCount>, op: Op) -> nat
    decreases s.len(),
{
    if s.len() == 0 {
        0
    } else {
        count_for(s.drop_last(), op) + if s.last().op_type == op {
            s.last().remaining_count as nat
        } else {
            0nat
        }
    }
}

proof fn lemma_count_remove(s: Seq<OpCount>, j: int, op: Op)
    requires
        0 <= j < s.len(),
    ensures
        count_for(s, op) == count_for(s.remove(j), op) + if s[j].op_type == op {
            s[j].remaining_count as nat
        } else {
            0nat
        },
        sum_remaining(s) == sum_remaining(s.remove(j)) + s[j].remaining_count,
    decreases s.len(),
{
    if j == s.len() - 1 {
        assert(s.remove(j) =~= s.drop_last());
    } else {
        let t = s.remove(j);
        assert(t.drop_last() =~= s.drop_last().remove(j));
        assert(t.last() == s.last());
        lemma_count_remove(s.drop_last(), j, op);
    }
}

proof fn lemma_sums_remove(s: Seq<OpCount>, j: int)
    requires
        0 <= j < s.len(),
    ensures
        sum_remaining(s) == sum_remaining(s.remove(j)) + s[j].remaining_count,
        forall|op: Op|
            #[trigger] count_for(s, op) == count_for(s.remove(j), op) + if s[j].op_type == op {
                s[j].remaining_count as nat
            } else {
                0nat
            },
{
    lemma_count_remove(s, j, Op::Update);
    assert forall|op: Op|
        #[trigger] count_for(s, op) == count_for(s.remove(j), op) + if s[j].op_type == op {
            s[j].remaining_count as nat
        } else {
            0nat
        } by {
        lemma_count_remove(s, j, op);
    }
}

/// Reordering the entries keeps every sum.
pub proof fn lemma_sums_permutation(s1: Seq<OpCount>, s2: Seq<OpCount>)
    requires
        s1.to_multiset() == s2.to_multiset(),
    ensures
        sum_remaining(s1) == sum_remaining(s2),
        forall|op: Op| #[trigger] count_for(s1, op) == count_for(s2, op),
    decreases s1.len(),
{
    broadcast use vstd::seq_lib::group_to_multiset_ensures;

    if s1.len() == 0 {
        assert(s2.to_multiset().len() == 0);
        assert(s2.len() == 0);
    } else {
        let x = s1.last();
        let r1 = s1.drop_last();
        assert(s1 =~= r1.push(x));
        assert(s1.to_multiset() =~= r1.to_multiset().insert(x));
        assert(s2.to_multiset().count(x) > 0);
        assert(s2.contains(x));
        let j = choose|j: int| 0 <= j < s2.len() && s2[j] == x;
        let r2 = s2.remove(j);
        assert(r2.to_multiset() =~= s2.to_multiset().remove(x));
        assert(r1.to_multiset() =~= r2.to_multiset());
        lemma_sums_permutation(r1, r2);
        lemma_sums_remove(s2, j);
        assert forall|op: Op| #[trigger] count_for(s1, op) == count_for(s2, op) by {
            assert(s1.drop_last() == r1);
            assert(count_for(r1, op) == count_for(r2, op));
            assert(count_for(s2, op) == count_for(r2, op) + if s2[j].op_type == op {
                s2[j].remaining_count as nat
            } else {
                0nat
            });
        }
    }
}

/// The entry at `i` with one fewer remaining operation.
pub open spec fn decremented(s: Seq<OpCount>, i: int) -> Seq<OpCount> {
    s.update(i, OpCount { op_type: s[i].op_type, remaining_count: (s[i].remaining_count - 1) as usize })
}

proof fn lemma_count_decrement(s: Seq<OpCount>, i: int, op: Op)
    requires
        0 <= i < s.len(),
        s[i].remaining_count > 0,
    ensures
        sum_remaining(decremented(s, i)) + 1 == sum_remaining(s),
        count_for(decremented(s, i), op) + (if op == s[i].op_type {
            1nat
        } else {
            0nat
        }) == count_for(s, op),
    decreases s.len(),
{
    let t = decremented(s, i);
    if i == s.len() - 1 {
        assert(t.drop_last() =~= s.drop_last());
    } else {
        assert(t.drop_last() =~= decremented(s.drop_last(), i));
        lemma_count_decrement(s.drop_last(), i, op);
    }
}

proof fn lemma_sums_decrement(s: Seq<OpCount>, i: int)
    requires
        0 <= i < s.len(),
        s[i].remaining_count > 0,
    ensures
        sum_remaining(decremented(s, i)) + 1 == sum_remaining(s),
        forall|op: Op|
            #[trigger] count_for(decremented(s, i), op) + (if op == s[i].op_type {
                1nat
            } else {
                0nat
            }) == count_for(s, op),
{
    lemma_count_decrement(s, i, Op::Update);
    assert forall|op: Op|
        #[trigger] count_for(decremented(s, i), op) + (if op == s[i].op_type {
            1nat
        } else {
            0nat
        }) == count_for(s, op) by {
        lemma_count_decrement(s, i, op);
    }
}

/// Every count is used up exactly when their sum is zero.
pub proof fn lemma_exhausted(s: Seq<OpCount>)
    ensures
        sum_remaining(s) == 0 <==> forall|op: Op| #[trigger] count_for(s, op) == 0,
    decreases s.len(),
{
    if s.len() > 0 {
        lemma_exhausted(s.drop_last());
        if sum_remaining(s) != 0 {
            let op = s.last().op_type;
            if s.last().remaining_count == 0 {
                let o = choose|o: Op| #[trigger] count_for(s.drop_last(), o) != 0;
                assert(count_for(s, o) != 0);
            } else {
                assert(count_for(s, op) != 0);
            }
        } else {
            assert forall|op: Op| #[trigger] count_for(s, op) == 0 by {
                assert(count_for(s.drop_last(), op) == 0);
            }
        }
    }
}

/// `IndexedRandom::choose_weighted` with the remaining counts as weights,
/// giving the kind of the entry drawn. rand's source (`WeightedIndex::new`)
/// fails exactly when the weights are all zero or their sum overflows, and
/// a drawn entry always has a positive weight.
#[verifier::external_body]
fn choose_weighted_op(counts: &Vec<OpCount>, rng: &mut Xoshiro256Plus) -> (r: Option<Op>)
    ensures
        r is Some <==> 0 < sum_remaining(counts@) <= usize::MAX,
        r matches Some(op) ==> exists|i: int|
            0 <= i < counts@.len() && counts@[i].op_type == op && counts@[i].remaining_count > 0,
{
    counts.as_slice().choose_weighted(rng, |c| c.remaining_count).ok().map(|c| c.op_type)
}

/// `SliceRandom::shuffle`: a random permutation of the entries.
#[verifier::external_body]
fn shuffle_op_counts(counts: &mut Vec<OpCount>, rng: &mut Xoshiro256Plus)
    ensures
        final(counts)@.to_multiset() == old(counts)@.to_multiset(),
{
    counts.shuffle(rng);
}

/// Draws the operations of a group in random order, each kind as many
/// times as its count.
pub struct MarkerIter {
    rng: Xoshiro256Plus,
    op_count: Vec<OpCount>,
    total: usize,
}

impl MarkerIter {
    /// The entries, in their current order.
    pub closed spec fn counts(&self) -> Seq<OpCount> {
        self.op_count@
    }

    /// The number of operations still to come.
    pub closed spec fn spec_total(&self) -> nat {
        self.total as nat
    }

    /// The total is the sum of the remaining counts.
    pub open spec fn ready(&self) -> bool {
        self.spec_total() == sum_remaining(self.counts())
    }

    /// The generator that the draws come from.
    pub closed spec fn generator(&self) -> Xoshiro256Plus {
        self.rng
    }

    /// An empty schedule whose draws come from `rng`.
    pub fn new(rng: Xoshiro256Plus) -> (r: Self)
        ensures
            r.counts() == Seq::<OpCount>::empty(),
            r.spec_total() == 0,
            r.generator() == rng,
    {
        Self { rng, op_count: Vec::new(), total: 0 }
    }

    pub fn add_op_count(&mut self, op_type: Op, count: usize)
        ensures
            final(self).counts() == old(self).counts().push(OpCount { op_type, remaining_count: count }),
            final(self).spec_total() == old(self).spec_total(),
    {
        self.op_count.push(OpCount { op_type, remaining_count: count });
    }

    /// Sets the total to the sum of the remaining counts.
    fn calculate_total(&mut self)
        requires
            sum_remaining(old(self).counts()) <= usize::MAX,
        ensures
            final(self).counts() == old(self).counts(),
            final(self).ready(),
    {
        let mut sum: usize = 0;
        let mut i: usize = 0;
        let ghost s = self.op_count@;
        assert(s.take(0) =~= Seq::<OpCount>::empty());
        while i < self.op_count.len()
            invariant
                s == self.op_count@,
                sum_remaining(s) <= usize::MAX,
                i <= s.len(),
                sum == sum_remaining(s.take(i as int)),
            decreases s.len() - i,
        {
            assert(s.take(i + 1).drop_last() =~= s.take(i as int));
            proof {
                lemma_sum_prefix(s, i + 1);
            }
            sum = sum + self.op_count[i].remaining_count;
            i += 1;
        }
        assert(s.take(s.len() as int) =~= s);
        self.total = sum;
    }

    /// Computes the total and shuffles the entries.
    pub fn prepare_iter(&mut self)
        requires
            sum_remaining(old(self).counts()) <= usize::MAX,
        ensures
            final(self).counts().to_multiset() == old(self).counts().to_multiset(),
            final(self).ready(),
            final(self).spec_total() == sum_remaining(old(self).counts()),
            forall|op: Op| #[trigger] count_for(final(self).counts(), op) == count_for(old(self).counts(), op),
    {
        self.calculate_total();
        let ghost before = self.op_count@;
        shuffle_op_counts(&mut self.op_count, &mut self.rng);
        proof {
            lemma_sums_permutation(before, self.op_count@);
        }
    }

    /// The number of operations still to come.
    pub fn total(&self) -> (r: usize)
        ensures
            r == self.spec_total(),
    {
        self.total
    }

    /// Uses up one operation of kind `op`: one fewer remains of that kind,
    /// taken from its first entry with operations left, and as many as
    /// before of every other kind. Gives `None`, and changes nothing, when
    /// no operation of that kind remains.
    pub fn take(&mut self, op: Op) -> (r: Option<Op>)
        requires
            old(self).ready(),
        ensures
            final(self).ready(),
            final(self).generator() == old(self).generator(),
            r is Some <==> count_for(old(self).counts(), op) > 0,
            r is None ==> *final(self) == *old(self),
            r is Some ==> {
                &&& r == Some(op)
                &&& final(self).spec_total() + 1 == old(self).spec_total()
                &&& count_for(final(self).counts(), op) + 1 == count_for(old(self).counts(), op)
                &&& forall|o: Op|
                    o != op ==> #[trigger] count_for(final(self).counts(), o) == count_for(
                        old(self).counts(),
                        o,
                    )
            },
    {
        let ghost s = self.op_count@;
        proof {
            lemma_count_positive(s, op);
        }
        let mut i: usize = 0;
        while i < self.op_count.len()
            invariant
                s == self.op_count@,
                *self == *old(self),
                old(self).ready(),
                i <= s.len(),
                forall|k: int| 0 <= k < i ==> !(s[k].op_type == op && s[k].remaining_count > 0),
            decreases s.len() - i,
        {
            if self.op_count[i].op_type == op && self.op_count[i].remaining_count > 0 {
                let c = self.op_count[i];
                proof {
                    lemma_sums_decrement(s, i as int);
                    lemma_count_positive(s, op);
                }
                self.op_count.set(i, OpCount { op_type: c.op_type, remaining_count: c.remaining_count - 1 });
                self.total -= 1;
                return Some(op);
            }
            i += 1;
        }
        None
    }

    /// Draws the next operation, with each kind weighted by its remaining
    /// count, and uses it up; `None` once nothing remains.
    pub fn next(&mut self) -> (r: Option<Op>)
        requires
            old(self).ready(),
        ensures
            final(self).ready(),
            r is None <==> old(self).spec_total() == 0,
            r is None ==> final(self).counts() == old(self).counts(),
            r matches Some(op) ==> {
                &&& final(self).spec_total() + 1 == old(self).spec_total()
                &&& count_for(final(self).counts(), op) + 1 == count_for(old(self).counts(), op)
                &&& forall|o: Op|
                    o != op ==> #[trigger] count_for(final(self).counts(), o) == count_for(
                        old(self).counts(),
                        o,
                    )
            },
    {
        if self.total == 0 {
            return None;
        }
        let chosen = choose_weighted_op(&self.op_count, &mut self.rng);
        match chosen {
            None => {
                proof {
                    assert(false);
                }
                None
            },
            Some(op) => {
                proof {
                    lemma_count_positive(self.op_count@, op);
                }
                self.take(op)
            },
        }
    }
}

/// A kind has operations left exactly when one of its entries does.
proof fn lemma_count_positive(s: Seq<OpCount>, op: Op)
    ensures
        count_for(s, op) > 0 <==> exists|i: int|
            0 <= i < s.len() && s[i].op_type == op && s[i].remaining_count > 0,
    decreases s.len(),
{
    if s.len() > 0 {
        let d = s.drop_last();
        lemma_count_positive(d, op);
        if exists|i: int| 0 <= i < d.len() && d[i].op_type == op && d[i].remaining_count > 0 {
            let i = choose|i: int| 0 <= i < d.len() && d[i].op_type == op && d[i].remaining_count > 0;
            assert(s[i] == d[i]);
        }
        if exists|i: int| 0 <= i < s.len() && s[i].op_type == op && s[i].remaining_count > 0 {
            let i = choose|i: int| 0 <= i < s.len() && s[i].op_type == op && s[i].remaining_count > 0;
            if i < s.len() - 1 {
                assert(d[i] == s[i]);
            }
        }
    }
}

proof fn lemma_sum_prefix(s: Seq<OpCount>, j: int)
    requires
        0 <= j <= s.len(),
    ensures
        sum_remaining(s.take(j)) <= sum_remaining(s),
    decreases s.len(),
{
    if j < s.len() {
        assert(s.drop_last().take(j) =~= s.take(j));
        lemma_sum_prefix(s.drop_last(), j);
    } else {
        assert(s.take(j) =~= s);
    }
}

} // verus!
