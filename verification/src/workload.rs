//! What workload generation decides from a workload specification: which
//! operations a section has, which key set serves it, and how a group of
//! operations starts.
use vstd::prelude::*;

verus! {

/// How a range is written: a start key and a count, or a start and an end key.
#[derive(Clone, Copy, Debug, PartialEq, Eq, Structural)]
pub enum RangeFormat {
    /// The start key and the number of keys to scan
    StartCount,
    /// The start key and end key
    StartEnd,
}

impl RangeFormat {
    /// The format used when a specification names none.
    pub fn default_format() -> (r: RangeFormat)
        ensures
            r == RangeFormat::StartCount,
    {
        RangeFormat::StartCount
    }
}

/// The bytes that generated keys and values are drawn from.
#[derive(Clone, Copy, Debug, PartialEq, Eq, Structural)]
pub enum CharacterSet {
    Alphanumeric,
    Alphabetic,
    Numeric,
}

impl CharacterSet {
    /// The character set used when a specification names none.
    pub fn default_set() -> (r: CharacterSet)
        ensures
            r == CharacterSet::Alphanumeric,
    {
        CharacterSet::Alphanumeric
    }
}

/// What generation reads of one group of a section: for each kind of
/// operation, whether the group specifies it with a positive expected
/// count, and for range queries also their format.
#[derive(Clone, Copy, Debug)]
pub struct GroupProfile {
    pub unique_inserts: bool,
    pub inserts: bool,
    pub updates: bool,
    pub merges: bool,
    pub point_deletes: bool,
    pub empty_point_deletes: bool,
    pub range_deletes: bool,
    pub point_queries: bool,
    pub empty_point_queries: bool,
    pub range_queries: Option<RangeFormat>,
}

/// What generation reads of a section: its groups and whether it skips
/// the check that generated keys are new.
pub struct SectionProfile {
    pub groups: Vec<GroupProfile>,
    pub skip_key_contains_check: bool,
}

/// What generation reads of a workload: its sections.
pub struct WorkloadProfile {
    pub sections: Vec<SectionProfile>,
}

/// The kinds of operation whose presence in a section decides the key set.
#[derive(Clone, Copy, Debug, PartialEq, Eq, Structural)]
pub enum SectionOp {
    UniqueInsert,
    Upsert,
    Update,
    Merge,
    DeletePoint,
    DeletePointEmpty,
    DeleteRange,
    QueryPoint,
    QueryPointEmpty,
    QueryRange,
    QueryRangeCount,
}

/// Whether a group has operations of the kind: specified with a positive
/// expected count, and for range queries in the matching format
/// (start and end key for `QueryRange`, start key and count for
/// `QueryRangeCount`).
pub open spec fn group_has(g: GroupProfile, op: SectionOp) -> bool {
    match op {
        SectionOp::UniqueInsert => g.unique_inserts,
        SectionOp::Upsert => g.inserts,
        SectionOp::Update => g.updates,
        SectionOp::Merge => g.merges,
        SectionOp::DeletePoint => g.point_deletes,
        SectionOp::DeletePointEmpty => g.empty_point_deletes,
        SectionOp::DeleteRange => g.range_deletes,
        SectionOp::QueryPoint => g.point_queries,
        SectionOp::QueryPointEmpty => g.empty_point_queries,
        SectionOp::QueryRange => g.range_queries == Some(RangeFormat::StartEnd),
        SectionOp::QueryRangeCount => g.range_queries == Some(RangeFormat::StartCount),
    }
}

fn group_has_op(g: &GroupProfile, op: SectionOp) -> (r: bool)
    ensures
        r == group_has(*g, op),
{
    match op {
        SectionOp::UniqueInsert => g.unique_inserts,
        SectionOp::Upsert => g.inserts,
        SectionOp::Update => g.updates,
        SectionOp::Merge => g.merges,
        SectionOp::DeletePoint => g.point_deletes,
        SectionOp::DeletePointEmpty => g.empty_point_deletes,
        SectionOp::DeleteRange => g.range_deletes,
        SectionOp::QueryPoint => g.point_queries,
        SectionOp::QueryPointEmpty => g.empty_point_queries,
        SectionOp::QueryRange => match g.range_queries {
            Some(RangeFormat::StartEnd) => true,
            _ => false,
        },
        SectionOp::QueryRangeCount => match g.range_queries {
            Some(RangeFormat::StartCount) => true,
            _ => false,
        },
    }
}

/// Some group of the section has operations of the kind.
pub open spec fn section_has(s: SectionProfile, op: SectionOp) -> bool {
    exists|i: int| 0 <= i < s.groups@.len() && #[trigger] group_has(s.groups@[i], op)
}

impl SectionProfile {
    /// Whether some group has operations of the kind.
    pub fn has_op(&self, op: SectionOp) -> (r: bool)
        ensures
            r == section_has(*self, op),
    {
        let mut i: usize = 0;
        while i < self.groups.len()
            invariant
                i <= self.groups.len(),
                forall|j: int| 0 <= j < i ==> !#[trigger] group_has(self.groups@[j], op),
            decreases self.groups.len() - i,
        {
            if group_has_op(&self.groups[i], op) {
                assert(group_has(self.groups@[i as int], op));
                return true;
            }
            i += 1;
        }
        false
    }

    pub fn has_unique_insert(&self) -> (r: bool)
        ensures
            r == section_has(*self, SectionOp::UniqueInsert),
    {
        self.has_op(SectionOp::UniqueInsert)
    }

    pub fn has_upsert(&self) -> (r: bool)
        ensures
            r == section_has(*self, SectionOp::Upsert),
    {
        self.has_op(SectionOp::Upsert)
    }

    pub fn has_update(&self) -> (r: bool)
        ensures
            r == section_has(*self, SectionOp::Update),
    {
        self.has_op(SectionOp::Update)
    }

    pub fn has_merge(&self) -> (r: bool)
        ensures
            r == section_has(*self, SectionOp::Merge),
    {
        self.has_op(SectionOp::Merge)
    }

    pub fn has_delete_point(&self) -> (r: bool)
        ensures
            r == section_has(*self, SectionOp::DeletePoint),
    {
        self.has_op(SectionOp::DeletePoint)
    }

    pub fn has_delete_point_empty(&self) -> (r: bool)
        ensures
            r == section_has(*self, SectionOp::DeletePointEmpty),
    {
        self.has_op(SectionOp::DeletePointEmpty)
    }

    pub fn has_delete_range(&self) -> (r: bool)
        ensures
            r == section_has(*self, SectionOp::DeleteRange),
    {
        self.has_op(SectionOp::DeleteRange)
    }

    pub fn has_query_point(&self) -> (r: bool)
        ensures
            r == section_has(*self, SectionOp::QueryPoint),
    {
        self.has_op(SectionOp::QueryPoint)
    }

    pub fn has_query_point_empty(&self) -> (r: bool)
        ensures
            r == section_has(*self, SectionOp::QueryPointEmpty),
    {
        self.has_op(SectionOp::QueryPointEmpty)
    }

    /// Range queries written with a start and an end key.
    pub fn has_query_range(&self) -> (r: bool)
        ensures
            r == section_has(*self, SectionOp::QueryRange),
    {
        self.has_op(SectionOp::QueryRange)
    }

    /// Range queries written with a start key and a count.
    pub fn has_query_range_count(&self) -> (r: bool)
        ensures
            r == section_has(*self, SectionOp::QueryRangeCount),
    {
        self.has_op(SectionOp::QueryRangeCount)
    }

    pub fn skip_contains_check(&self) -> (r: bool)
        ensures
            r == self.skip_key_contains_check,
    {
        self.skip_key_contains_check
    }
}

/// Some section of the workload has operations of the kind.
pub open spec fn workload_has(w: WorkloadProfile, op: SectionOp) -> bool {
    exists|i: int| 0 <= i < w.sections@.len() && #[trigger] section_has(w.sections@[i], op)
}

impl WorkloadProfile {
    /// Whether some section has operations of the kind.
    pub fn has_op(&self, op: SectionOp) -> (r: bool)
        ensures
            r == workload_has(*self, op),
    {
        let mut i: usize = 0;
        while i < self.sections.len()
            invariant
                i <= self.sections.len(),
                forall|j: int| 0 <= j < i ==> !#[trigger] section_has(self.sections@[j], op),
            decreases self.sections.len() - i,
        {
            if self.sections[i].has_op(op) {
                return true;
            }
            i += 1;
        }
        false
    }

    pub fn has_unique_insert(&self) -> (r: bool)
        ensures
            r == workload_has(*self, SectionOp::UniqueInsert),
    {
        self.has_op(SectionOp::UniqueInsert)
    }

    pub fn has_update(&self) -> (r: bool)
        ensures
            r == workload_has(*self, SectionOp::Update),
    {
        self.has_op(SectionOp::Update)
    }

    pub fn has_merge(&self) -> (r: bool)
        ensures
            r == workload_has(*self, SectionOp::Merge),
    {
        self.has_op(SectionOp::Merge)
    }

    pub fn has_delete_point(&self) -> (r: bool)
        ensures
            r == workload_has(*self, SectionOp::DeletePoint),
    {
        self.has_op(SectionOp::DeletePoint)
    }

    pub fn has_delete_point_empty(&self) -> (r: bool)
        ensures
            r == workload_has(*self, SectionOp::DeletePointEmpty),
    {
        self.has_op(SectionOp::DeletePointEmpty)
    }

    pub fn has_delete_range(&self) -> (r: bool)
        ensures
            r == workload_has(*self, SectionOp::DeleteRange),
    {
        self.has_op(SectionOp::DeleteRange)
    }

    pub fn has_query_point(&self) -> (r: bool)
        ensures
            r == workload_has(*self, SectionOp::QueryPoint),
    {
        self.has_op(SectionOp::QueryPoint)
    }

    pub fn has_query_point_empty(&self) -> (r: bool)
        ensures
            r == workload_has(*self, SectionOp::QueryPointEmpty),
    {
        self.has_op(SectionOp::QueryPointEmpty)
    }

    pub fn has_query_range(&self) -> (r: bool)
        ensures
            r == workload_has(*self, SectionOp::QueryRange),
    {
        self.has_op(SectionOp::QueryRange)
    }

    /// Whether every section skips the check that generated keys are new.
    pub fn skip_contains_check_all(&self) -> (r: bool)
        ensures
            r == forall|i: int| 0 <= i < self.sections@.len() ==> (#[trigger] self.sections@[i]).skip_key_contains_check,
    {
        let mut i: usize = 0;
        while i < self.sections.len()
            invariant
                i <= self.sections.len(),
                forall|j: int| 0 <= j < i ==> (#[trigger] self.sections@[j]).skip_key_contains_check,
            decreases self.sections.len() - i,
        {
            if !self.sections[i].skip_contains_check() {
                return false;
            }
            i += 1;
        }
        true
    }
}

/// The key set implementations that generation chooses from.
#[derive(Clone, Copy, Debug, PartialEq, Eq, Structural)]
pub enum KeySetKind {
    Empty,
    VecOptionHashSet,
    VecOption,
    VecHashSet,
    Vec,
    VecBloomFilter,
    BloomFilter,
}

/// The section needs no key set at all.
pub open spec fn needs_no_keyset(s: SectionProfile) -> bool {
    !(section_has(s, SectionOp::UniqueInsert) || section_has(s, SectionOp::Update) || section_has(
        s,
        SectionOp::Merge,
    ) || section_has(s, SectionOp::QueryPoint) || section_has(s, SectionOp::QueryPointEmpty)
        || section_has(s, SectionOp::DeletePoint) || section_has(s, SectionOp::DeletePointEmpty)
        || section_has(s, SectionOp::QueryRange) || section_has(s, SectionOp::QueryRangeCount)
        || section_has(s, SectionOp::DeleteRange))
}

/// The section removes keys.
pub open spec fn requires_deletion(s: SectionProfile) -> bool {
    section_has(s, SectionOp::DeletePoint) || section_has(s, SectionOp::DeleteRange)
}

/// The section needs its keys in order.
pub open spec fn requires_sorting(s: SectionProfile) -> bool {
    section_has(s, SectionOp::QueryRange) || section_has(s, SectionOp::DeleteRange)
}

/// The section checks that generated keys are new.
pub open spec fn requires_contains_check(s: SectionProfile) -> bool {
    !s.skip_key_contains_check && (section_has(s, SectionOp::UniqueInsert) || section_has(
        s,
        SectionOp::QueryPointEmpty,
    ) || section_has(s, SectionOp::DeletePointEmpty))
}

/// The section picks existing keys.
pub open spec fn requires_random_element(s: SectionProfile) -> bool {
    section_has(s, SectionOp::Update) || section_has(s, SectionOp::Merge) || section_has(
        s,
        SectionOp::DeletePoint,
    ) || section_has(s, SectionOp::DeleteRange) || section_has(s, SectionOp::QueryPoint)
        || section_has(s, SectionOp::QueryRange) || section_has(s, SectionOp::QueryRangeCount)
}

/// The key set that serves a section.
pub open spec fn spec_keyset_kind(s: SectionProfile) -> KeySetKind {
    let sorting = requires_sorting(s);
    let deletion = requires_deletion(s);
    let contains = requires_contains_check(s);
    if needs_no_keyset(s) {
        KeySetKind::Empty
    } else if sorting && deletion && contains {
        KeySetKind::VecOptionHashSet
    } else if sorting && deletion && !contains {
        KeySetKind::VecOption
    } else if (sorting || deletion) && contains {
        KeySetKind::VecHashSet
    } else if sorting || deletion {
        KeySetKind::Vec
    } else if contains && requires_random_element(s) {
        KeySetKind::VecBloomFilter
    } else if contains {
        KeySetKind::BloomFilter
    } else {
        KeySetKind::Vec
    }
}

/// Chooses the key set for a section from the operations it has.
pub fn select_keyset_kind(section: &SectionProfile) -> (r: KeySetKind)
    ensures
        r == spec_keyset_kind(*section),
{
    let no_keyset = !(section.has_unique_insert() || section.has_update() || section.has_merge()
        || section.has_query_point() || section.has_query_point_empty()
        || section.has_delete_point() || section.has_delete_point_empty()
        || section.has_query_range() || section.has_query_range_count()
        || section.has_delete_range());
    let requires_deletion = section.has_delete_point() || section.has_delete_range();
    let requires_sorting = section.has_query_range() || section.has_delete_range();
    let requires_contains_check = !section.skip_contains_check() && (section.has_unique_insert()
        || section.has_query_point_empty() || section.has_delete_point_empty());
    let requires_random_element = section.has_update() || section.has_merge()
        || section.has_delete_point() || section.has_delete_range() || section.has_query_point()
        || section.has_query_range() || section.has_query_range_count();
    if no_keyset {
        KeySetKind::Empty
    } else if requires_sorting && requires_deletion && requires_contains_check {
        KeySetKind::VecOptionHashSet
    } else if requires_sorting && requires_deletion && !requires_contains_check {
        KeySetKind::VecOption
    } else if (requires_sorting || requires_deletion) && requires_contains_check {
        KeySetKind::VecHashSet
    } else if requires_sorting || requires_deletion {
        KeySetKind::Vec
    } else if requires_contains_check && requires_random_element {
        KeySetKind::VecBloomFilter
    } else if requires_contains_check {
        KeySetKind::BloomFilter
    } else {
        KeySetKind::Vec
    }
}

/// The key set can remove keys.
pub open spec fn supports_removal(k: KeySetKind) -> bool {
    !(k == KeySetKind::Empty || k == KeySetKind::BloomFilter)
}

/// The key set can sort its keys.
pub open spec fn supports_sorting(k: KeySetKind) -> bool {
    !(k == KeySetKind::Empty || k == KeySetKind::BloomFilter)
}

/// The key set can hand out a key by position.
pub open spec fn supports_lookup(k: KeySetKind) -> bool {
    !(k == KeySetKind::Empty || k == KeySetKind::BloomFilter)
}

/// The key set can answer whether it holds a key.
pub open spec fn supports_contains(k: KeySetKind) -> bool {
    k != KeySetKind::VecOption
}

/// The key set chosen for a section supports every operation that the
/// section requires of it: removal when it deletes, sorting when it needs
/// ranges, membership when it checks that keys are new, and lookup by
/// position when it picks existing keys.
pub proof fn lemma_keyset_kind_supports_section(s: SectionProfile)
    ensures
        requires_deletion(s) ==> supports_removal(spec_keyset_kind(s)),
        requires_sorting(s) ==> supports_sorting(spec_keyset_kind(s)),
        requires_contains_check(s) ==> supports_contains(spec_keyset_kind(s)),
        requires_random_element(s) ==> supports_lookup(spec_keyset_kind(s)),
{
}

} // verus!
