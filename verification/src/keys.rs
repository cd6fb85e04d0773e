//! Keys are byte strings ordered lexicographically, as `Vec<u8>` is in std.
use vstd::prelude::*;
use vstd::multiset::Multiset;

verus! {

/// A key of the workload: an owned byte string.
pub type Key = Vec<u8>;

/// Strict lexicographic order on byte strings (a proper prefix is smaller).
pub open spec fn key_lt(a: Seq<u8>, b: Seq<u8>) -> bool
    decreases a.len(),
{
    if b.len() == 0 {
        false
    } else if a.len() == 0 {
        true
    } else if a[0] != b[0] {
        a[0] < b[0]
    } else {
        key_lt(a.drop_first(), b.drop_first())
    }
}

/// Non-strict lexicographic order.
pub open spec fn key_le(a: Seq<u8>, b: Seq<u8>) -> bool {
    !key_lt(b, a)
}

/// The views of a sequence of keys.
pub open spec fn key_views(s: Seq<Key>) -> Seq<Seq<u8>> {
    s.map_values(|k: Key| k@)
}

/// A sequence of byte strings in non-decreasing order.
pub open spec fn sorted_keys(s: Seq<Seq<u8>>) -> bool {
    forall|i: int, j: int| 0 <= i < j < s.len() ==> key_le(s[i], s[j])
}

/// A sequence of byte strings in strictly increasing order.
pub open spec fn strictly_sorted_keys(s: Seq<Seq<u8>>) -> bool {
    forall|i: int, j: int| 0 <= i < j < s.len() ==> key_lt(s[i], s[j])
}

pub proof fn lemma_key_lt_irreflexive(a: Seq<u8>)
    ensures
        !key_lt(a, a),
    decreases a.len(),
{
    if a.len() > 0 {
        lemma_key_lt_irreflexive(a.drop_first());
    }
}

pub proof fn lemma_key_lt_transitive(a: Seq<u8>, b: Seq<u8>, c: Seq<u8>)
    requires
        key_lt(a, b),
        key_lt(b, c),
    ensures
        key_lt(a, c),
    decreases a.len(),
{
    if a.len() > 0 && b.len() > 0 && c.len() > 0 {
        if a[0] == b[0] && b[0] == c[0] {
            lemma_key_lt_transitive(a.drop_first(), b.drop_first(), c.drop_first());
        }
    }
}

/// Any two byte strings are equal or ordered one way.
pub proof fn lemma_key_lt_total(a: Seq<u8>, b: Seq<u8>)
    ensures
        a =~= b || key_lt(a, b) || key_lt(b, a),
    decreases a.len(),
{
    if a.len() > 0 && b.len() > 0 && a[0] == b[0] {
        lemma_key_lt_total(a.drop_first(), b.drop_first());
        if a.drop_first() =~= b.drop_first() {
            assert(a =~= seq![a[0]] + a.drop_first());
            assert(b =~= seq![b[0]] + b.drop_first());
        }
    }
}

proof fn lemma_key_lt_skip(a: Seq<u8>, b: Seq<u8>, i: int)
    requires
        0 <= i < a.len(),
        i < b.len(),
        a[i] == b[i],
    ensures
        key_lt(a.skip(i), b.skip(i)) == key_lt(a.skip(i + 1), b.skip(i + 1)),
{
    assert(a.skip(i).drop_first() =~= a.skip(i + 1));
    assert(b.skip(i).drop_first() =~= b.skip(i + 1));
}

/// Whether `a` comes strictly before `b` in lexicographic order.
pub fn key_less(a: &[u8], b: &[u8]) -> (r: bool)
    ensures
        r == key_lt(a@, b@),
{
    let mut i: usize = 0;
    assert(a@.skip(0) =~= a@);
    assert(b@.skip(0) =~= b@);
    while i < a.len() && i < b.len()
        invariant
            i <= a.len(),
            i <= b.len(),
            key_lt(a@, b@) == key_lt(a@.skip(i as int), b@.skip(i as int)),
        decreases a.len() - i,
    {
        if a[i] != b[i] {
            return a[i] < b[i];
        }
        proof {
            lemma_key_lt_skip(a@, b@, i as int);
        }
        i = i + 1;
    }
    i < b.len()
}

/// Whether two byte strings are equal.
pub fn keys_equal(a: &[u8], b: &[u8]) -> (r: bool)
    ensures
        r == (a@ == b@),
{
    if a.len() != b.len() {
        return false;
    }
    let mut i: usize = 0;
    while i < a.len()
        invariant
            a.len() == b.len(),
            i <= a.len(),
            a@.subrange(0, i as int) =~= b@.subrange(0, i as int),
        decreases a.len() - i,
    {
        if a[i] != b[i] {
            assert(a@[i as int] != b@[i as int]);
            return false;
        }
        assert(a@.subrange(0, i + 1) =~= a@.subrange(0, i as int).push(a@[i as int]));
        assert(b@.subrange(0, i + 1) =~= b@.subrange(0, i as int).push(b@[i as int]));
        i = i + 1;
    }
    assert(a@ =~= a@.subrange(0, a.len() as int));
    assert(b@ =~= b@.subrange(0, b.len() as int));
    true
}

/// A copy of a key with the same bytes.
pub fn copy_key(k: &Key) -> (r: Key)
    ensures
        r@ == k@,
{
    let r = k.clone();
    assert(r@ =~= k@);
    r
}

/// Reordering a sequence keeps what it holds.
pub proof fn lemma_permutation_holds<A>(s: Seq<A>, t: Seq<A>)
    requires
        s.to_multiset() == t.to_multiset(),
    ensures
        forall|k: A| #[trigger] s.contains(k) == t.contains(k),
{
    assert forall|k: A| #[trigger] s.contains(k) == t.contains(k) by {
        vstd::seq_lib::to_multiset_contains(s, k);
        vstd::seq_lib::to_multiset_contains(t, k);
    }
}

/// Non-strict order is transitive.
pub proof fn lemma_key_le_transitive(a: Seq<u8>, b: Seq<u8>, c: Seq<u8>)
    requires
        key_le(a, b),
        key_le(b, c),
    ensures
        key_le(a, c),
{
    lemma_key_lt_total(a, b);
    lemma_key_lt_total(b, c);
    if key_lt(c, a) {
        if a =~= b {
            assert(key_lt(c, b));
        } else if b =~= c {
            assert(key_lt(b, a));
        } else {
            lemma_key_lt_transitive(a, b, c);
            lemma_key_lt_transitive(a, c, a);
            lemma_key_lt_irreflexive(a);
        }
    }
}

/// A sorted sequence stays sorted with a key pushed that is not below its
/// last key.
pub proof fn lemma_sorted_push(s: Seq<Seq<u8>>, key: Seq<u8>)
    requires
        sorted_keys(s),
        s.len() > 0 ==> key_le(s.last(), key),
    ensures
        sorted_keys(s.push(key)),
{
    let t = s.push(key);
    assert forall|i: int, j: int| 0 <= i < j < t.len() implies key_le(t[i], t[j]) by {
        if j == s.len() {
            if i < s.len() - 1 {
                lemma_key_le_transitive(s[i], s.last(), key);
            }
        }
    }
}

/// A sorted sequence stays sorted with a stretch taken out.
pub proof fn lemma_sorted_splice(s: Seq<Seq<u8>>, start: int, end: int)
    requires
        sorted_keys(s),
        0 <= start <= end <= s.len(),
    ensures
        sorted_keys(s.subrange(0, start) + s.subrange(end, s.len() as int)),
{
    let t = s.subrange(0, start) + s.subrange(end, s.len() as int);
    assert forall|i: int, j: int| 0 <= i < j < t.len() implies key_le(t[i], t[j]) by {
        let i0 = if i < start { i } else { i + end - start };
        let j0 = if j < start { j } else { j + end - start };
        assert(t[i] == s[i0]);
        assert(t[j] == s[j0]);
    }
}

/// Taking the stretch `start..end` out of a sequence takes exactly its
/// elements out of the multiset, and they were all in it.
pub proof fn lemma_splice_multiset<A>(s: Seq<A>, start: int, end: int)
    requires
        0 <= start <= end <= s.len(),
    ensures
        s.subrange(start, end).to_multiset().subset_of(s.to_multiset()),
        (s.subrange(0, start) + s.subrange(end, s.len() as int)).to_multiset() == s.to_multiset().sub(
            s.subrange(start, end).to_multiset(),
        ),
{
    broadcast use vstd::multiset::group_multiset_axioms;

    let a = s.subrange(0, start);
    let b = s.subrange(start, end);
    let c = s.subrange(end, s.len() as int);
    assert(s =~= a + b + c);
    vstd::seq_lib::lemma_multiset_commutative(a + b, c);
    vstd::seq_lib::lemma_multiset_commutative(a, b);
    vstd::seq_lib::lemma_multiset_commutative(a, c);
    assert((a + c).to_multiset() =~= s.to_multiset().sub(b.to_multiset()));
}

/// Moving the last element into position `i` and dropping the last
/// position takes exactly the element at `i` out of the multiset.
pub proof fn lemma_swap_remove_multiset<A>(s: Seq<A>, i: int)
    requires
        0 <= i < s.len(),
    ensures
        s.update(i, s.last()).drop_last().to_multiset() == s.to_multiset().remove(s[i]),
{
    broadcast use vstd::multiset::group_multiset_axioms;

    let u = s.update(i, s.last());
    vstd::seq_lib::to_multiset_update(s, i, s.last());
    assert(u.drop_last() =~= u.remove(u.len() - 1));
    vstd::seq_lib::to_multiset_remove(u, u.len() - 1);
    assert(u[u.len() - 1] == s.last());
    assert(u.drop_last().to_multiset() =~= s.to_multiset().remove(s[i]));
}

/// A sequence holds exactly what its multiset holds.
pub proof fn lemma_multiset_contains<A>(s: Seq<A>, x: A)
    ensures
        s.to_multiset().contains(x) == s.contains(x),
{
    broadcast use vstd::seq_lib::group_to_multiset_ensures;

}

/// A sequence of no elements has no elements in its multiset.
pub proof fn lemma_empty_multiset<A>(s: Seq<A>)
    requires
        s.len() == 0,
    ensures
        s.to_multiset() == Multiset::<A>::empty(),
{
    broadcast use vstd::seq_lib::group_to_multiset_ensures;
    broadcast use vstd::multiset::group_multiset_axioms;

    assert(s.to_multiset().len() == 0);
    vstd::multiset::lemma_multiset_empty_len(s.to_multiset());
}

} // verus!
