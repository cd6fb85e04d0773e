//! One generated operation: from the kind of operation drawn from the
//! schedule and the values drawn for it (a generated key, a position in the
//! valid keys, a range), the operation handed on and the change to the
//! valid keys. Operations on existing keys use valid keys only; a unique
//! insert, an empty point query and an empty point delete use a generated
//! key only when it is not a valid key, and ask for another draw otherwise,
//! unless the section skips that membership check.
use std::ops::Range;
use vstd::prelude::*;
use crate::keys::{Key, copy_key};
use vstd::multiset::Multiset;
use crate::keyset::KeySet;
use crate::markers::Op;
use crate::workload::RangeFormat;

verus! {

/// What was drawn for an operation.
#[derive(Clone, Debug)]
pub enum Drawn {
    /// A generated key.
    Key(Key),
    /// A position in the valid keys.
    Index(usize),
    /// A range of valid keys: its length, the position it starts at, and
    /// how it is written.
    Range { len: usize, index: usize, format: RangeFormat },
    /// A generated key and a count.
    KeyCount { key: Key, count: usize },
}

/// The operation handed on, or a request to draw the key again.
#[derive(Clone, Debug, PartialEq, Eq)]
pub enum Emit {
    Insert(Key),
    Update(Key),
    Merge(Key),
    PointDelete(Key),
    PointQuery(Key),
    RangeQuery(Key, Key),
    RangeQueryCount(Key, usize),
    RangeDelete(Key, Key),
    RangeDeleteCount(Key, usize),
    Redraw,
}

/// Whether the drawn values fit the operation and the key set can serve
/// it: a generated key where one is used (and membership tests and pushes
/// where a new key is checked or kept), a position that the key set can
/// look up or remove, a range whose start (and, written by its ends, its
/// end) the key set can look up, or whose positions it can remove.
pub open spec fn marker_fits<K: KeySet>(keys: K, op: Op, drawn: Drawn, skip_check: bool) -> bool {
    match op {
        Op::UniqueInsert => drawn is Key && (!skip_check ==> keys.contains_ok()) && keys.push_ok(),
        Op::Upsert => drawn is Key && keys.push_ok(),
        Op::PointDeleteEmpty | Op::EmptyPointQuery => drawn is Key && (!skip_check
            ==> keys.contains_ok()),
        Op::Update | Op::Merge | Op::PointQuery => match drawn {
            Drawn::Index(i) => keys.get_ok(i),
            _ => false,
        },
        Op::PointDelete => match drawn {
            Drawn::Index(i) => keys.remove_ok(i),
            _ => false,
        },
        Op::RangeQuery => match drawn {
            Drawn::Range { len, index, format } => keys.get_ok(index) && (format
                == RangeFormat::StartEnd ==> index + len <= usize::MAX && keys.get_ok(
                (index + len) as usize,
            )),
            _ => false,
        },
        Op::RangeDelete => match drawn {
            Drawn::Range { len, index, format } => index + len <= usize::MAX
                && keys.remove_range_ok(index, (index + len) as usize) && (format
                == RangeFormat::StartCount ==> keys.get_ok(index)),
            _ => false,
        },
        Op::BlindPointQuery | Op::BlindPointDelete => drawn is Key,
        Op::BlindRangeQuery => drawn is KeyCount,
    }
}

/// The keys after pushing `key`: one more `key`, unless the set keeps no
/// keys, or holds each key once and already holds this one.
pub open spec fn pushed_contents<K: KeySet>(keys: K, key: Seq<u8>) -> Multiset<Seq<u8>> {
    if keys.keeps_keys() && !(keys.unique_keys() && keys.contents().contains(key)) {
        keys.contents().insert(key)
    } else {
        keys.contents()
    }
}

/// `after` is `before` with `key` pushed: one more `key` among the valid
/// keys, unless the set keeps no keys or holds each key once and already
/// holds this one.
pub open spec fn pushed<K: KeySet>(before: K, after: K, key: Seq<u8>) -> bool {
    &&& after.keeps_keys() == before.keeps_keys()
    &&& after.unique_keys() == before.unique_keys()
    &&& after.contents() == pushed_contents(before, key)
}

/// `after` is `before` with the keys in `taken` taken out, each once.
pub open spec fn taken_out<K: KeySet>(before: K, after: K, taken: Multiset<Seq<u8>>) -> bool {
    &&& after.keeps_keys() == before.keeps_keys()
    &&& after.unique_keys() == before.unique_keys()
    &&& taken.subset_of(before.contents())
    &&& after.contents() == before.contents().sub(taken)
}

/// A generated key that is used only when it is not a valid key: unless
/// the membership check is skipped, a key that the set reports asks for
/// another draw and changes nothing; otherwise `used` holds, and where the
/// set reports exactly its valid keys, the key is not one of them.
pub open spec fn new_key_used<K: KeySet>(
    before: K,
    after: K,
    key: Seq<u8>,
    r: Emit,
    used: bool,
    skip_check: bool,
) -> bool {
    if !skip_check && before.spec_contains(key) {
        r is Redraw && after == before
    } else {
        used && (!skip_check && before.contains_exact() ==> !before.contents().contains(key))
    }
}

/// The key of a one-key operation.
pub open spec fn emitted_key(r: Emit) -> Seq<u8> {
    match r {
        Emit::Insert(k) => k@,
        Emit::Update(k) => k@,
        Emit::Merge(k) => k@,
        Emit::PointDelete(k) => k@,
        Emit::PointQuery(k) => k@,
        Emit::RangeQueryCount(k, _) => k@,
        Emit::RangeDeleteCount(k, _) => k@,
        _ => Seq::empty(),
    }
}

/// The two keys of a range written by its ends.
pub open spec fn emitted_ends(r: Emit) -> (Seq<u8>, Seq<u8>) {
    match r {
        Emit::RangeQuery(a, b) => (a@, b@),
        Emit::RangeDelete(a, b) => (a@, b@),
        _ => (Seq::empty(), Seq::empty()),
    }
}

/// The count of a range written by its start and a count.
pub open spec fn emitted_count(r: Emit) -> usize {
    match r {
        Emit::RangeQueryCount(_, n) => n,
        Emit::RangeDeleteCount(_, n) => n,
        _ => 0,
    }
}

/// What an operation hands on and how it changes the valid keys: a
/// generated key as drawn, or the valid key at the drawn position (the
/// ends of a drawn range) of the set as it stands.
pub open spec fn emitted<K: KeySet>(
    before: K,
    after: K,
    op: Op,
    drawn: Drawn,
    skip_check: bool,
    r: Emit,
) -> bool {
    match drawn {
        Drawn::Key(k) => match op {
            Op::UniqueInsert => new_key_used(
                before,
                after,
                k@,
                r,
                r is Insert && emitted_key(r) == k@ && pushed(before, after, k@),
                skip_check,
            ),
            Op::Upsert => r is Insert && emitted_key(r) == k@ && pushed(before, after, k@),
            Op::EmptyPointQuery => new_key_used(
                before,
                after,
                k@,
                r,
                r is PointQuery && emitted_key(r) == k@ && after == before,
                skip_check,
            ),
            Op::PointDeleteEmpty => new_key_used(
                before,
                after,
                k@,
                r,
                r is PointDelete && emitted_key(r) == k@ && after == before,
                skip_check,
            ),
            Op::BlindPointQuery | Op::BlindPointDelete => r is PointQuery && emitted_key(r) == k@
                && after == before,
            _ => false,
        },
        Drawn::Index(i) => match op {
            Op::Update => r is Update && emitted_key(r) == before.key_at(i) && before.contents().contains(emitted_key(r)) && after == before,
            Op::Merge => r is Merge && emitted_key(r) == before.key_at(i) && before.contents().contains(emitted_key(r)) && after == before,
            Op::PointQuery => r is PointQuery && emitted_key(r) == before.key_at(i) && before.contents().contains(emitted_key(r)) && after == before,
            Op::PointDelete => r is PointDelete && emitted_key(r) == before.removed_at(i)
                && before.contents().contains(emitted_key(r)) && taken_out(
                before,
                after,
                Multiset::singleton(emitted_key(r)),
            ),
            _ => false,
        },
        Drawn::Range { len, index, format } => match op {
            Op::RangeQuery => after == before && if format == RangeFormat::StartCount {
                r is RangeQueryCount && emitted_key(r) == before.key_at(index) && before.contents().contains(emitted_key(r)) && emitted_count(r) == len
            } else {
                r is RangeQuery && emitted_ends(r) == (
                    before.key_at(index),
                    before.key_at((index + len) as usize),
                ) && before.contents().contains(emitted_ends(r).0) && before.contents().contains(emitted_ends(r).1)
            },
            Op::RangeDelete => taken_out(
                before,
                after,
                before.range_contents(index, (index + len) as usize),
            ) && if format
                == RangeFormat::StartCount {
                r is RangeDeleteCount && emitted_key(r) == before.key_at(index) && before.contents().contains(emitted_key(r)) && emitted_count(r) == len
            } else {
                r is RangeDelete && emitted_ends(r) == before.range_ends(
                    index,
                    (index + len) as usize,
                ) && before.contents().contains(emitted_ends(r).0) && before.contents().contains(emitted_ends(r).1)
            },
            _ => false,
        },
        Drawn::KeyCount { key, count } => match op {
            Op::BlindRangeQuery => r is RangeQueryCount && emitted_key(r) == key@ && emitted_count(
                r,
            ) == count && after == before,
            _ => false,
        },
    }
}

/// Whether the drawn values fit the operation and the key set can serve it.
pub fn can_apply<K: KeySet>(keys: &K, op: Op, drawn: &Drawn, skip_check: bool) -> (r: bool)
    requires
        keys.wf(),
    ensures
        r == marker_fits(*keys, op, *drawn, skip_check),
{
    match op {
        Op::UniqueInsert => match drawn {
            Drawn::Key(_) => (skip_check || keys.can_contains()) && keys.can_push(),
            _ => false,
        },
        Op::Upsert => match drawn {
            Drawn::Key(_) => keys.can_push(),
            _ => false,
        },
        Op::PointDeleteEmpty | Op::EmptyPointQuery => match drawn {
            Drawn::Key(_) => skip_check || keys.can_contains(),
            _ => false,
        },
        Op::Update | Op::Merge | Op::PointQuery => match drawn {
            Drawn::Index(i) => keys.can_get(*i),
            _ => false,
        },
        Op::PointDelete => match drawn {
            Drawn::Index(i) => keys.can_remove(*i),
            _ => false,
        },
        Op::RangeQuery => match drawn {
            Drawn::Range { len, index, format } => {
                if !keys.can_get(*index) {
                    false
                } else {
                    match format {
                        RangeFormat::StartCount => true,
                        RangeFormat::StartEnd => *len <= usize::MAX - *index && keys.can_get(
                            *index + *len,
                        ),
                    }
                }
            },
            _ => false,
        },
        Op::RangeDelete => match drawn {
            Drawn::Range { len, index, format } => {
                if *len > usize::MAX - *index {
                    false
                } else if !keys.can_remove_range(*index, *index + *len) {
                    false
                } else {
                    match format {
                        RangeFormat::StartCount => keys.can_get(*index),
                        RangeFormat::StartEnd => true,
                    }
                }
            },
            _ => false,
        },
        Op::BlindPointQuery | Op::BlindPointDelete => match drawn {
            Drawn::Key(_) => true,
            _ => false,
        },
        Op::BlindRangeQuery => match drawn {
            Drawn::KeyCount { .. } => true,
            _ => false,
        },
    }
}

/// Generates one operation of the drawn kind from the drawn values, and
/// applies it to the valid keys. With `skip_check`, a generated key is used
/// without testing whether it is a valid key.
pub fn apply_marker<K: KeySet>(keys: &mut K, op: Op, drawn: Drawn, skip_check: bool) -> (r: Emit)
    requires
        old(keys).wf(),
        marker_fits(*old(keys), op, drawn, skip_check),
    ensures
        final(keys).wf(),
        emitted(*old(keys), *final(keys), op, drawn, skip_check, r),
{
    match drawn {
        Drawn::Key(k) => match op {
            Op::UniqueInsert => {
                if !skip_check && keys.contains(&k) {
                    Emit::Redraw
                } else {
                    let e = copy_key(&k);
                    keys.push(k);
                    Emit::Insert(e)
                }
            },
            Op::Upsert => {
                let e = copy_key(&k);
                keys.push(k);
                Emit::Insert(e)
            },
            Op::EmptyPointQuery => {
                if !skip_check && keys.contains(&k) {
                    Emit::Redraw
                } else {
                    Emit::PointQuery(k)
                }
            },
            Op::PointDeleteEmpty => {
                if !skip_check && keys.contains(&k) {
                    Emit::Redraw
                } else {
                    Emit::PointDelete(k)
                }
            },
            _ => Emit::PointQuery(k),
        },
        Drawn::Index(i) => match op {
            Op::PointDelete => Emit::PointDelete(keys.remove(i)),
            Op::Update => Emit::Update(copy_key(keys.get(i))),
            Op::Merge => Emit::Merge(copy_key(keys.get(i))),
            _ => Emit::PointQuery(copy_key(keys.get(i))),
        },
        Drawn::Range { len, index, format } => match op {
            Op::RangeQuery => match format {
                RangeFormat::StartCount => Emit::RangeQueryCount(copy_key(keys.get(index)), len),
                RangeFormat::StartEnd => {
                    let a = copy_key(keys.get(index));
                    let b = copy_key(keys.get(index + len));
                    Emit::RangeQuery(a, b)
                },
            },
            _ => match format {
                RangeFormat::StartCount => {
                    let e = copy_key(keys.get(index));
                    let _ = keys.remove_range(Range { start: index, end: index + len });
                    Emit::RangeDeleteCount(e, len)
                },
                RangeFormat::StartEnd => {
                    let (a, b) = keys.remove_range(Range { start: index, end: index + len });
                    Emit::RangeDelete(a, b)
                },
            },
        },
        Drawn::KeyCount { key, count } => Emit::RangeQueryCount(key, count),
    }
}

/// Whether a range operation sorts the valid keys first: a range delete
/// always, a range query when it is written by its ends.
pub open spec fn range_sorts(op: Op, format: RangeFormat) -> bool {
    op == Op::RangeDelete || (op == Op::RangeQuery && format == RangeFormat::StartEnd)
}

/// Prepares a range operation: sorts the valid keys where the operation
/// needs them in order, and gives the number of positions that a range of
/// `range_len` keys can start at, or `None` when the range is longer than
/// the valid keys.
pub fn prepare_range<K: KeySet>(keys: &mut K, op: Op, format: RangeFormat, range_len: usize) -> (r:
    Option<usize>)
    requires
        old(keys).wf(),
        range_sorts(op, format) ==> old(keys).sort_ok(),
    ensures
        final(keys).wf(),
        final(keys).keeps_keys() == old(keys).keeps_keys(),
        final(keys).unique_keys() == old(keys).unique_keys(),
        final(keys).contents() == old(keys).contents(),
        range_sorts(op, format) && old(keys).order_recorded() ==> final(keys).in_order(),
        !range_sorts(op, format) ==> *final(keys) == *old(keys),
        r == if range_len <= final(keys).spec_len() {
            Some((final(keys).spec_len() - range_len) as usize)
        } else {
            None::<usize>
        },
{
    let sorts = match op {
        Op::RangeDelete => true,
        Op::RangeQuery => match format {
            RangeFormat::StartEnd => true,
            RangeFormat::StartCount => false,
        },
        _ => false,
    };
    if sorts {
        keys.sort();
    }
    let n = keys.len();
    if range_len <= n {
        Some(n - range_len)
    } else {
        None
    }
}

/// A point delete takes its key out of the valid keys exactly once: the key
/// was valid, occurs once fewer afterwards, and every other key occurs as
/// often as before.
pub proof fn lemma_point_delete_takes_one<K: KeySet>(
    before: K,
    after: K,
    idx: usize,
    skip_check: bool,
    r: Emit,
)
    requires
        emitted(before, after, Op::PointDelete, Drawn::Index(idx), skip_check, r),
    ensures
        before.contents().count(emitted_key(r)) > 0,
        after.contents().count(emitted_key(r)) == before.contents().count(emitted_key(r)) - 1,
        forall|k: Seq<u8>|
            k != emitted_key(r) ==> #[trigger] after.contents().count(k) == before.contents().count(k),
{
    broadcast use vstd::multiset::group_multiset_axioms;

}

/// A unique insert that goes ahead, with the membership check made on a
/// set that reports exactly its valid keys, adds a key that was not valid:
/// afterwards it occurs once, and every other key as often as before.
pub proof fn lemma_unique_insert_adds_new_key<K: KeySet>(before: K, after: K, key: Key, r: Emit)
    requires
        before.keeps_keys(),
        before.contains_exact(),
        emitted(before, after, Op::UniqueInsert, Drawn::Key(key), false, r),
        !(r is Redraw),
    ensures
        !before.contents().contains(key@),
        emitted_key(r) == key@,
        after.contents().count(key@) == 1,
        forall|k: Seq<u8>| k != key@ ==> #[trigger] after.contents().count(k) == before.contents().count(k),
{
    broadcast use vstd::multiset::group_multiset_axioms;

}

/// An empty point query or an empty point delete that goes ahead, with the
/// membership check made on a set that reports exactly its valid keys, uses
/// a key that is not valid and leaves the valid keys as they were.
pub proof fn lemma_empty_operation_misses<K: KeySet>(before: K, after: K, op: Op, key: Key, r: Emit)
    requires
        op == Op::EmptyPointQuery || op == Op::PointDeleteEmpty,
        before.contains_exact(),
        emitted(before, after, op, Drawn::Key(key), false, r),
        !(r is Redraw),
    ensures
        !before.contents().contains(key@),
        emitted_key(r) == key@,
        after == before,
{
}

} // verus!
