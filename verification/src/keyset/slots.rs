//! Sequences of key slots, where a removed key leaves an empty slot, and
//! the facts about them that the slot-based key sets rely on.
use vstd::prelude::*;
use vstd::multiset::Multiset;
use crate::keys::{key_le, key_lt, lemma_key_le_transitive};
use crate::std_collections::sorted_opt_keys;

verus! {

/// The number of empty slots.
pub open spec fn count_none(s: Seq<Option<Seq<u8>>>) -> nat
    decreases s.len(),
{
    if s.len() == 0 {
        0
    } else {
        count_none(s.drop_last()) + if s.last() is None {
            1nat
        } else {
            0nat
        }
    }
}

/// The occupied slots, in order.
pub open spec fn somes(s: Seq<Option<Seq<u8>>>) -> Seq<Option<Seq<u8>>>
    decreases s.len(),
{
    if s.len() == 0 {
        Seq::empty()
    } else if s.last() is Some {
        somes(s.drop_last()).push(s.last())
    } else {
        somes(s.drop_last())
    }
}

/// Whether position `p` holds a key.
pub open spec fn occupied(s: Seq<Option<Seq<u8>>>, p: int) -> bool {
    0 <= p < s.len() && s[p] is Some
}

/// The `j`-th position visited by a search that starts at `idx` and steps
/// to the next position cyclically.
pub open spec fn probe(idx: int, len: int, j: nat) -> int
    decreases j,
{
    if j == 0 {
        idx
    } else {
        (probe(idx, len, (j - 1) as nat) + 1) % len
    }
}

/// The number of steps, from step `j` on, after which a search from `idx`
/// finds an occupied position, or `s.len()` when none of the remaining
/// steps does.
pub open spec fn first_hit(s: Seq<Option<Seq<u8>>>, idx: int, j: nat) -> nat
    decreases s.len() - j,
{
    if j >= s.len() {
        s.len()
    } else if occupied(s, probe(idx, s.len() as int, j)) {
        j
    } else {
        first_hit(s, idx, j + 1)
    }
}

/// `s` with the slots `start..end` emptied.
pub open spec fn clear_range(s: Seq<Option<Seq<u8>>>, start: int, end: int) -> Seq<Option<Seq<u8>>> {
    Seq::new(s.len(), |i: int| if start <= i < end { None } else { s[i] })
}

/// The first occupied position in `start..end`, or `end` when there is none.
pub open spec fn first_occupied_in(s: Seq<Option<Seq<u8>>>, start: int, end: int) -> int
    decreases end - start,
{
    if start >= end {
        end
    } else if first_occupied_in(s, start, end - 1) < end - 1 {
        first_occupied_in(s, start, end - 1)
    } else if occupied(s, end - 1) {
        end - 1
    } else {
        end
    }
}

/// The percentage of empty slots at which the empty slots are dropped.
pub const VEC_OPTION_KEY_SET_FILTER_THRESHOLD_PERCENT: u128 = 1;

/// Keeps the slots as they are while the empty ones are fewer than the
/// threshold percentage of all slots, and otherwise drops the empty slots.
pub open spec fn flattened_if_sparse(s: Seq<Option<Seq<u8>>>) -> Seq<Option<Seq<u8>>> {
    if count_none(s) * 100 < s.len() * VEC_OPTION_KEY_SET_FILTER_THRESHOLD_PERCENT {
        s
    } else {
        somes(s)
    }
}

/// The last occupied position in `start..end`, or `start - 1` when there is none.
pub open spec fn last_occupied_in(s: Seq<Option<Seq<u8>>>, start: int, end: int) -> int
    decreases end - start,
{
    if start >= end {
        start - 1
    } else if occupied(s, end - 1) {
        end - 1
    } else {
        last_occupied_in(s, start, end - 1)
    }
}

/// Every key of `set` is held by some slot of `s`.
pub open spec fn keys_held(set: Set<Seq<u8>>, s: Seq<Option<Seq<u8>>>) -> bool {
    forall|k: Seq<u8>| #[trigger] set.contains(k) ==> s.contains(Some(k))
}

/// Emptying the slot that holds `k` keeps every other key of a held set held.
pub proof fn lemma_keys_held_remove(set: Set<Seq<u8>>, s: Seq<Option<Seq<u8>>>, i: int, k: Seq<u8>)
    requires
        keys_held(set, s),
        0 <= i < s.len(),
        s[i] == Some(k) || s[i] is None,
    ensures
        keys_held(set.remove(k), s.update(i, None)),
{
    let t = s.update(i, None);
    assert forall|x: Seq<u8>| #[trigger] set.remove(k).contains(x) implies t.contains(Some(x)) by {
        let j = choose|j: int| 0 <= j < s.len() && s[j] == Some(x);
        assert(t[j] == Some(x));
    }
}

/// Emptying an empty slot changes nothing that a held set relies on.
pub proof fn lemma_keys_held_push(set: Set<Seq<u8>>, s: Seq<Option<Seq<u8>>>, k: Seq<u8>)
    requires
        keys_held(set, s),
    ensures
        keys_held(set.insert(k), s.push(Some(k))),
{
    let t = s.push(Some(k));
    assert forall|x: Seq<u8>| #[trigger] set.insert(k).contains(x) implies t.contains(Some(x)) by {
        if x == k {
            assert(t[s.len() as int] == Some(k));
        } else {
            let j = choose|j: int| 0 <= j < s.len() && s[j] == Some(x);
            assert(t[j] == Some(x));
        }
    }
}

/// Dropping the empty slots keeps every key.
pub proof fn lemma_somes_contains(s: Seq<Option<Seq<u8>>>, k: Seq<u8>)
    ensures
        somes(s).contains(Some(k)) == s.contains(Some(k)),
    decreases s.len(),
{
    if s.len() > 0 {
        lemma_somes_contains(s.drop_last(), k);
        let r = somes(s.drop_last());
        if s.contains(Some(k)) {
            let j = choose|j: int| 0 <= j < s.len() && s[j] == Some(k);
            if j < s.len() - 1 {
                assert(s.drop_last()[j] == Some(k));
            }
        }
        if s.drop_last().contains(Some(k)) {
            let j = choose|j: int| 0 <= j < s.drop_last().len() && s.drop_last()[j] == Some(k);
            assert(s[j] == Some(k));
        }
        if s.last() is Some {
            assert(r.push(s.last())[r.len() as int] == s.last());
            if r.push(s.last()).contains(Some(k)) {
                let j = choose|j: int| 0 <= j < r.len() + 1 && r.push(s.last())[j] == Some(k);
                if j < r.len() {
                    assert(r[j] == Some(k));
                }
            }
            if r.contains(Some(k)) {
                let j = choose|j: int| 0 <= j < r.len() && r[j] == Some(k);
                assert(r.push(s.last())[j] == Some(k));
            }
        }
    }
}

/// Dropping the empty slots keeps a held set held.
pub proof fn lemma_keys_held_flatten(set: Set<Seq<u8>>, s: Seq<Option<Seq<u8>>>)
    requires
        keys_held(set, s),
    ensures
        keys_held(set, flattened_if_sparse(s)),
{
    assert forall|x: Seq<u8>| #[trigger] set.contains(x) implies flattened_if_sparse(s).contains(
        Some(x),
    ) by {
        lemma_somes_contains(s, x);
    }
}

/// Reordering the slots keeps a held set held.
pub proof fn lemma_keys_held_permutation(
    set: Set<Seq<u8>>,
    s: Seq<Option<Seq<u8>>>,
    t: Seq<Option<Seq<u8>>>,
)
    requires
        keys_held(set, s),
        s.to_multiset() == t.to_multiset(),
    ensures
        keys_held(set, t),
{
    broadcast use vstd::seq_lib::group_to_multiset_ensures;

    assert forall|x: Seq<u8>| #[trigger] set.contains(x) implies t.contains(Some(x)) by {
        assert(s.to_multiset().count(Some(x)) > 0);
    }
}

pub proof fn lemma_count_none_update_some(s: Seq<Option<Seq<u8>>>, i: int)
    requires
        0 <= i < s.len(),
        s[i] is Some,
    ensures
        count_none(s.update(i, None)) == count_none(s) + 1,
    decreases s.len(),
{
    let t = s.update(i, None);
    if i == s.len() - 1 {
        assert(t.drop_last() =~= s.drop_last());
    } else {
        assert(t.drop_last() =~= s.drop_last().update(i, None));
        lemma_count_none_update_some(s.drop_last(), i);
    }
}

pub proof fn lemma_count_none_update_none(s: Seq<Option<Seq<u8>>>, i: int)
    requires
        0 <= i < s.len(),
        s[i] is None,
    ensures
        s.update(i, None) =~= s,
{
}

pub proof fn lemma_count_none_le_len(s: Seq<Option<Seq<u8>>>)
    ensures
        count_none(s) <= s.len(),
    decreases s.len(),
{
    if s.len() > 0 {
        lemma_count_none_le_len(s.drop_last());
    }
}

pub proof fn lemma_count_none_somes(s: Seq<Option<Seq<u8>>>)
    ensures
        count_none(somes(s)) == 0,
        forall|i: int| 0 <= i < somes(s).len() ==> (#[trigger] somes(s)[i]) is Some,
    decreases s.len(),
{
    if s.len() > 0 {
        lemma_count_none_somes(s.drop_last());
        let r = somes(s.drop_last());
        if s.last() is Some {
            assert(r.push(s.last()).drop_last() =~= r);
        }
    }
}

/// The number of empty slots is what the multiset of slots says.
pub proof fn lemma_count_none_multiset(s: Seq<Option<Seq<u8>>>)
    ensures
        count_none(s) == s.to_multiset().count(None),
    decreases s.len(),
{
    broadcast use vstd::seq_lib::group_to_multiset_ensures;

    if s.len() == 0 {
        assert(s.to_multiset() =~= Multiset::empty());
    } else {
        lemma_count_none_multiset(s.drop_last());
        assert(s =~= s.drop_last().push(s.last()));
        assert(s.to_multiset() =~= s.drop_last().to_multiset().insert(s.last()));
    }
}

/// The keys held by the occupied slots, each as often as it occurs.
pub open spec fn slot_keys(s: Seq<Option<Seq<u8>>>) -> Multiset<Seq<u8>>
    decreases s.len(),
{
    if s.len() == 0 {
        Multiset::empty()
    } else if s.last() is Some {
        slot_keys(s.drop_last()).insert(s.last()->0)
    } else {
        slot_keys(s.drop_last())
    }
}

/// A key occurs among the slot keys as often as a slot holds it.
pub proof fn lemma_slot_keys_count(s: Seq<Option<Seq<u8>>>, k: Seq<u8>)
    ensures
        slot_keys(s).count(k) == s.to_multiset().count(Some(k)),
    decreases s.len(),
{
    broadcast use vstd::seq_lib::group_to_multiset_ensures;
    broadcast use vstd::multiset::group_multiset_axioms;

    if s.len() == 0 {
        assert(s.to_multiset() =~= Multiset::empty());
    } else {
        lemma_slot_keys_count(s.drop_last(), k);
        assert(s =~= s.drop_last().push(s.last()));
        assert(s.to_multiset() =~= s.drop_last().to_multiset().insert(s.last()));
    }
}

/// Slots with the same multiset hold the same keys.
pub proof fn lemma_slot_keys_permutation(s: Seq<Option<Seq<u8>>>, t: Seq<Option<Seq<u8>>>)
    requires
        s.to_multiset() == t.to_multiset(),
    ensures
        slot_keys(s) == slot_keys(t),
{
    broadcast use vstd::multiset::group_multiset_axioms;

    assert forall|k: Seq<u8>| slot_keys(s).count(k) == slot_keys(t).count(k) by {
        lemma_slot_keys_count(s, k);
        lemma_slot_keys_count(t, k);
    }
    assert(slot_keys(s) =~= slot_keys(t));
}

/// A key is among the slot keys exactly when a slot holds it.
pub proof fn lemma_slot_keys_contains(s: Seq<Option<Seq<u8>>>, k: Seq<u8>)
    ensures
        slot_keys(s).contains(k) == s.contains(Some(k)),
{
    broadcast use vstd::seq_lib::group_to_multiset_ensures;

    lemma_slot_keys_count(s, k);
}

/// Slots with none occupied hold no keys.
pub proof fn lemma_slot_keys_empty(s: Seq<Option<Seq<u8>>>)
    requires
        forall|i: int| 0 <= i < s.len() ==> (#[trigger] s[i]) is None,
    ensures
        slot_keys(s) == Multiset::<Seq<u8>>::empty(),
{
    broadcast use vstd::multiset::group_multiset_axioms;
    broadcast use vstd::seq_lib::group_to_multiset_ensures;

    assert forall|k: Seq<u8>| slot_keys(s).count(k) == 0 by {
        lemma_slot_keys_count(s, k);
        if s.contains(Some(k)) {
            let j = choose|j: int| 0 <= j < s.len() && s[j] == Some(k);
            assert(s[j] is None);
        }
    }
    assert(slot_keys(s) =~= Multiset::empty());
}

/// A key pushed in a new slot is one more slot key.
pub proof fn lemma_slot_keys_push(s: Seq<Option<Seq<u8>>>, k: Seq<u8>)
    ensures
        slot_keys(s.push(Some(k))) == slot_keys(s).insert(k),
{
    assert(s.push(Some(k)).drop_last() =~= s);
}

/// Emptying an occupied slot takes its key out once.
pub proof fn lemma_slot_keys_update_none(s: Seq<Option<Seq<u8>>>, p: int)
    requires
        occupied(s, p),
    ensures
        slot_keys(s.update(p, None)) == slot_keys(s).remove(s[p]->0),
{
    broadcast use vstd::multiset::group_multiset_axioms;

    vstd::seq_lib::to_multiset_update(s, p, None);
    assert forall|k: Seq<u8>| slot_keys(s.update(p, None)).count(k) == slot_keys(s).remove(s[p]->0).count(k) by {
        lemma_slot_keys_count(s, k);
        lemma_slot_keys_count(s.update(p, None), k);
    }
    assert(slot_keys(s.update(p, None)) =~= slot_keys(s).remove(s[p]->0));
}

/// Dropping the empty slots keeps the slot keys.
pub proof fn lemma_slot_keys_somes(s: Seq<Option<Seq<u8>>>)
    ensures
        slot_keys(somes(s)) == slot_keys(s),
    decreases s.len(),
{
    if s.len() > 0 {
        lemma_slot_keys_somes(s.drop_last());
        if s.last() is Some {
            lemma_slot_keys_push(somes(s.drop_last()), s.last()->0);
        }
    }
}

/// Dropping the empty slots when they are many keeps the slot keys.
pub proof fn lemma_slot_keys_flatten(s: Seq<Option<Seq<u8>>>)
    ensures
        slot_keys(flattened_if_sparse(s)) == slot_keys(s),
{
    lemma_slot_keys_somes(s);
}

/// Emptying the slots `start..end` takes exactly their keys out.
pub proof fn lemma_slot_keys_clear_range(s: Seq<Option<Seq<u8>>>, start: int, end: int)
    requires
        0 <= start <= end <= s.len(),
    ensures
        slot_keys(s.subrange(start, end)).subset_of(slot_keys(s)),
        slot_keys(clear_range(s, start, end)) == slot_keys(s).sub(slot_keys(s.subrange(start, end))),
{
    broadcast use vstd::multiset::group_multiset_axioms;

    let a = s.subrange(0, start);
    let b = s.subrange(start, end);
    let c = s.subrange(end, s.len() as int);
    let n = Seq::new((end - start) as nat, |i: int| None::<Seq<u8>>);
    let t = clear_range(s, start, end);
    assert(s =~= a + b + c);
    assert(t =~= a + n + c);
    vstd::seq_lib::lemma_multiset_commutative(a + b, c);
    vstd::seq_lib::lemma_multiset_commutative(a, b);
    vstd::seq_lib::lemma_multiset_commutative(a + n, c);
    vstd::seq_lib::lemma_multiset_commutative(a, n);
    lemma_slot_keys_empty(n);
    assert forall|k: Seq<u8>| #[trigger] slot_keys(t).count(k) == slot_keys(s).count(k) - slot_keys(b).count(k)
        && slot_keys(b).count(k) <= slot_keys(s).count(k) by {
        lemma_slot_keys_count(s, k);
        lemma_slot_keys_count(t, k);
        lemma_slot_keys_count(b, k);
        lemma_slot_keys_count(n, k);
    }
    assert(slot_keys(t) =~= slot_keys(s).sub(slot_keys(b)));
    assert forall|k: Seq<u8>| slot_keys(b).count(k) <= #[trigger] slot_keys(s).count(k) by {
        assert(slot_keys(t).count(k) == slot_keys(s).count(k) - slot_keys(b).count(k));
    }
}

/// The keys of the occupied slots stand in key order; empty slots may lie
/// anywhere between them.
pub open spec fn occupied_sorted(s: Seq<Option<Seq<u8>>>) -> bool {
    forall|i: int, j: int|
        0 <= i < j < s.len() && (#[trigger] s[i]) is Some && (#[trigger] s[j]) is Some ==> key_le(
            s[i]->0,
            s[j]->0,
        )
}

/// Slots in order, empty ones first, have their keys in order.
pub proof fn lemma_sorted_slots_occupied_sorted(s: Seq<Option<Seq<u8>>>)
    requires
        sorted_opt_keys(s),
    ensures
        occupied_sorted(s),
{
    assert forall|i: int, j: int|
        0 <= i < j < s.len() && (#[trigger] s[i]) is Some && (#[trigger] s[j]) is Some implies key_le(
        s[i]->0,
        s[j]->0,
    ) by {
        assert(!crate::std_collections::opt_key_lt(s[j], s[i]));
    }
}

/// Emptying slots keeps the keys of the others in order.
pub proof fn lemma_occupied_sorted_clear(s: Seq<Option<Seq<u8>>>, start: int, end: int)
    requires
        occupied_sorted(s),
    ensures
        occupied_sorted(clear_range(s, start, end)),
{
    let t = clear_range(s, start, end);
    assert forall|i: int, j: int|
        0 <= i < j < t.len() && (#[trigger] t[i]) is Some && (#[trigger] t[j]) is Some implies key_le(
        t[i]->0,
        t[j]->0,
    ) by {
        assert(t[i] == s[i] && t[j] == s[j]);
    }
}

/// Emptying one slot keeps the keys of the others in order.
pub proof fn lemma_occupied_sorted_update_none(s: Seq<Option<Seq<u8>>>, p: int)
    requires
        occupied_sorted(s),
        0 <= p < s.len(),
    ensures
        occupied_sorted(s.update(p, None)),
{
    let t = s.update(p, None);
    assert forall|i: int, j: int|
        0 <= i < j < t.len() && (#[trigger] t[i]) is Some && (#[trigger] t[j]) is Some implies key_le(
        t[i]->0,
        t[j]->0,
    ) by {
        assert(t[i] == s[i] && t[j] == s[j]);
    }
}

/// Dropping the empty slots keeps the keys in order.
pub proof fn lemma_occupied_sorted_somes(s: Seq<Option<Seq<u8>>>)
    requires
        occupied_sorted(s),
    ensures
        occupied_sorted(somes(s)),
    decreases s.len(),
{
    if s.len() > 0 {
        let d = s.drop_last();
        assert(occupied_sorted(d)) by {
            assert forall|i: int, j: int|
                0 <= i < j < d.len() && (#[trigger] d[i]) is Some && (#[trigger] d[j]) is Some implies key_le(
                d[i]->0,
                d[j]->0,
            ) by {
                assert(d[i] == s[i] && d[j] == s[j]);
            }
        }
        lemma_occupied_sorted_somes(d);
        if s.last() is Some {
            let r = somes(d);
            let t = r.push(s.last());
            lemma_count_none_somes(d);
            assert forall|i: int, j: int|
                0 <= i < j < t.len() && (#[trigger] t[i]) is Some && (#[trigger] t[j]) is Some implies key_le(
                t[i]->0,
                t[j]->0,
            ) by {
                if j == r.len() {
                    let x = r[i];
                    assert(r.contains(x));
                    lemma_somes_contains(d, x->0);
                    let k = choose|k: int| 0 <= k < d.len() && d[k] == Some(x->0);
                    assert(s[k] == d[k]);
                    assert(s[s.len() - 1] == s.last());
                } else {
                    assert(t[i] == r[i] && t[j] == r[j]);
                }
            }
        }
    }
}

/// Dropping the empty slots when they are many keeps the keys in order.
pub proof fn lemma_occupied_sorted_flatten(s: Seq<Option<Seq<u8>>>)
    requires
        occupied_sorted(s),
    ensures
        occupied_sorted(flattened_if_sparse(s)),
{
    lemma_occupied_sorted_somes(s);
}

/// A key pushed behind an occupied last slot that holds no greater key
/// keeps the keys in order.
pub proof fn lemma_occupied_sorted_push(s: Seq<Option<Seq<u8>>>, k: Seq<u8>)
    requires
        occupied_sorted(s),
        s.len() > 0 ==> s.last() is Some && !key_lt(k, s.last()->0),
    ensures
        occupied_sorted(s.push(Some(k))),
{
    let t = s.push(Some(k));
    assert forall|i: int, j: int|
        0 <= i < j < t.len() && (#[trigger] t[i]) is Some && (#[trigger] t[j]) is Some implies key_le(
        t[i]->0,
        t[j]->0,
    ) by {
        if j == s.len() {
            let last = s[s.len() - 1];
            assert(t[i] == s[i]);
            if i < s.len() - 1 {
                assert(key_le(s[i]->0, last->0));
                lemma_key_le_transitive(s[i]->0, last->0, k);
            }
        } else {
            assert(t[i] == s[i] && t[j] == s[j]);
        }
    }
}

/// The keys held by the occupied slots among `start..end`.
pub open spec fn slot_key_set(s: Seq<Option<Seq<u8>>>, start: int, end: int) -> Set<Seq<u8>> {
    Set::new(|k: Seq<u8>| exists|j: int| start <= j < end && occupied(s, j) && s[j]->0 == k)
}

/// Taking one more slot into the range adds its key, if it holds one.
pub proof fn lemma_slot_key_set_step(s: Seq<Option<Seq<u8>>>, start: int, i: int)
    requires
        start <= i < s.len(),
    ensures
        slot_key_set(s, start, i + 1) == if occupied(s, i) {
            slot_key_set(s, start, i).insert(s[i]->0)
        } else {
            slot_key_set(s, start, i)
        },
{
    let a = slot_key_set(s, start, i + 1);
    let b = slot_key_set(s, start, i);
    assert forall|k: Seq<u8>| #[trigger] a.contains(k) == (if occupied(s, i) {
        b.insert(s[i]->0)
    } else {
        b
    }).contains(k) by {
        if a.contains(k) {
            let j = choose|j: int| start <= j < i + 1 && occupied(s, j) && s[j]->0 == k;
            if j < i {
                assert(b.contains(k));
            }
        }
        if b.contains(k) {
            let j = choose|j: int| start <= j < i && occupied(s, j) && s[j]->0 == k;
            assert(start <= j < i + 1 && occupied(s, j) && s[j]->0 == k);
        }
        if occupied(s, i) && k == s[i]->0 {
            assert(start <= i < i + 1 && occupied(s, i) && s[i]->0 == k);
        }
    }
    if occupied(s, i) {
        assert(a =~= b.insert(s[i]->0));
    } else {
        assert(a =~= b);
    }
}

/// An empty range of slots holds no keys.
pub proof fn lemma_slot_key_set_empty(s: Seq<Option<Seq<u8>>>, start: int)
    ensures
        slot_key_set(s, start, start) == Set::<Seq<u8>>::empty(),
{
    assert(slot_key_set(s, start, start) =~= Set::<Seq<u8>>::empty());
}

} // verus!
