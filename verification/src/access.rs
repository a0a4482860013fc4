//! Read and write claims on component ids, kept in bevy's access sets.
//!
//! The three types here hold bevy's `Access<usize>`, `FilteredAccess<usize>` and
//! `FilteredAccessSet<usize>`. Nothing in this file is proved: each function states what
//! the bevy method it calls does. A value of these types is made by `new` alone, so the
//! flag by which bevy's `Access` reads everything is never set in one.
use vstd::prelude::*;

verus! {

/// A set of read and write claims: bevy's `Access<usize>`.
#[verifier::external_body]
pub struct Access {
    inner: bevy::ecs::query::Access<usize>,
}

/// The claims of one query with the component ids it asks for and excludes:
/// bevy's `FilteredAccess<usize>`.
#[verifier::external_body]
pub struct FilteredAccess {
    inner: bevy::ecs::query::FilteredAccess<usize>,
}

/// The claims of the parameters of one system: bevy's `FilteredAccessSet<usize>`.
#[verifier::external_body]
pub struct FilteredAccessSet {
    inner: bevy::ecs::query::FilteredAccessSet<usize>,
}

/// The ids that `access` reads or writes.
pub uninterp spec fn access_reads(access: Access) -> Set<int>;

/// The ids that `access` writes.
pub uninterp spec fn access_writes(access: Access) -> Set<int>;

/// The ids that `access` reads or writes.
pub uninterp spec fn filtered_reads(access: FilteredAccess) -> Set<int>;

/// The ids that `access` writes.
pub uninterp spec fn filtered_writes(access: FilteredAccess) -> Set<int>;

/// The ids that `access` asks to be present.
pub uninterp spec fn filtered_with(access: FilteredAccess) -> Set<int>;

/// The ids that `access` asks to be absent.
pub uninterp spec fn filtered_without(access: FilteredAccess) -> Set<int>;

/// The ids that the set as a whole reads or writes.
pub uninterp spec fn combined_reads(set: FilteredAccessSet) -> Set<int>;

/// The ids that the set as a whole writes.
pub uninterp spec fn combined_writes(set: FilteredAccessSet) -> Set<int>;

/// The filtered accesses that were added to the set, oldest first.
pub uninterp spec fn set_entries(set: FilteredAccessSet) -> Seq<FilteredAccess>;

/// Two claims can stand together: neither writes what the other reads or writes.
pub open spec fn compatible(
    reads_a: Set<int>,
    writes_a: Set<int>,
    reads_b: Set<int>,
    writes_b: Set<int>,
) -> bool {
    writes_a.disjoint(reads_b) && reads_a.disjoint(writes_b)
}

/// The ids on which two claims collide.
pub open spec fn conflict_ids(
    reads_a: Set<int>,
    writes_a: Set<int>,
    reads_b: Set<int>,
    writes_b: Set<int>,
) -> Set<int> {
    writes_a.intersect(reads_b).union(reads_a.intersect(writes_b))
}

/// Two filtered accesses can stand together: their claims are compatible, or one asks
/// for an id that the other excludes, so that no archetype matches both.
pub open spec fn filtered_compatible(a: FilteredAccess, b: FilteredAccess) -> bool {
    ||| compatible(filtered_reads(a), filtered_writes(a), filtered_reads(b), filtered_writes(b))
    ||| !filtered_with(a).disjoint(filtered_without(b))
    ||| !filtered_without(a).disjoint(filtered_with(b))
}

/// The position of the first entry that cannot stand together with `access`, or the
/// number of entries where there is none.
pub open spec fn first_incompatible(entries: Seq<FilteredAccess>, access: FilteredAccess) -> int
    decreases entries.len(),
{
    if entries.len() == 0 {
        0
    } else if !filtered_compatible(entries[0], access) {
        0
    } else {
        1 + first_incompatible(entries.skip(1), access)
    }
}

/// The ids reported when `access` is held against the set: none where its claims are
/// compatible with the combined claims or with every entry, else those on which it
/// collides with the first entry that it cannot stand together with.
pub open spec fn reported_conflicts(set: FilteredAccessSet, access: FilteredAccess) -> Set<int> {
    let entries = set_entries(set);
    let first = first_incompatible(entries, access);
    if compatible(
        filtered_reads(access),
        filtered_writes(access),
        combined_reads(set),
        combined_writes(set),
    ) || first >= entries.len() {
        Set::empty()
    } else {
        conflict_ids(
            filtered_reads(entries[first]),
            filtered_writes(entries[first]),
            filtered_reads(access),
            filtered_writes(access),
        )
    }
}

/// `ids` lists exactly the members of `members`, in rising order.
pub open spec fn lists_in_order(ids: Seq<usize>, members: Set<int>) -> bool {
    &&& forall|i: int, j: int| 0 <= i < j < ids.len() ==> ids[i] < ids[j]
    &&& forall|i: int| 0 <= i < ids.len() ==> members.contains(#[trigger] ids[i] as int)
    &&& forall|id: int| #[trigger]
        members.contains(id) ==> exists|i: int| 0 <= i < ids.len() && ids[i] == id
}

/// What `first_incompatible` names is the first entry that cannot stand together with
/// `access`.
pub proof fn lemma_first_incompatible(entries: Seq<FilteredAccess>, access: FilteredAccess)
    ensures
        0 <= first_incompatible(entries, access) <= entries.len(),
        first_incompatible(entries, access) < entries.len() ==> !filtered_compatible(
            entries[first_incompatible(entries, access)],
            access,
        ),
        forall|i: int|
            0 <= i < first_incompatible(entries, access) ==> filtered_compatible(
                #[trigger] entries[i],
                access,
            ),
    decreases entries.len(),
{
    if entries.len() > 0 && filtered_compatible(entries[0], access) {
        let rest = entries.skip(1);
        lemma_first_incompatible(rest, access);
        assert forall|i: int| 0 <= i < first_incompatible(entries, access) implies filtered_compatible(
            #[trigger] entries[i],
            access,
        ) by {
            if i > 0 {
                assert(entries[i] == rest[i - 1]);
            }
        }
    }
}

impl Access {
    /// `Access::default`: no claim at all.
    #[verifier::external_body]
    pub(crate) fn new() -> (access: Access)
        ensures
            access_reads(access) == Set::<int>::empty(),
            access_writes(access) == Set::<int>::empty(),
    {
        Access { inner: bevy::ecs::query::Access::default() }
    }

    /// `Access::has_read`: whether `index` is read or written.
    #[verifier::external_body]
    pub(crate) fn has_read(&self, index: usize) -> (claimed: bool)
        ensures
            claimed == access_reads(*self).contains(index as int),
    {
        self.inner.has_read(index)
    }

    /// `Access::has_write`: whether `index` is written.
    #[verifier::external_body]
    pub(crate) fn has_write(&self, index: usize) -> (claimed: bool)
        ensures
            claimed == access_writes(*self).contains(index as int),
    {
        self.inner.has_write(index)
    }

    /// `Access::add_read`: adds a read claim on `index`. bevy grows its bit set to
    /// `index + 1` bits, so the largest `usize` is left out.
    #[verifier::external_body]
    pub(crate) fn add_read(&mut self, index: usize)
        requires
            index < usize::MAX,
        ensures
            access_reads(*final(self)) == access_reads(*old(self)).insert(index as int),
            access_writes(*final(self)) == access_writes(*old(self)),
    {
        self.inner.add_read(index)
    }

    /// `Access::add_write`: adds a write claim on `index`, which counts as a read too.
    #[verifier::external_body]
    pub(crate) fn add_write(&mut self, index: usize)
        requires
            index < usize::MAX,
        ensures
            access_reads(*final(self)) == access_reads(*old(self)).insert(index as int),
            access_writes(*final(self)) == access_writes(*old(self)).insert(index as int),
    {
        self.inner.add_write(index)
    }

    /// `Access::extend`: takes over every claim of `other`.
    #[verifier::external_body]
    pub(crate) fn extend(&mut self, other: &Access)
        ensures
            access_reads(*final(self)) == access_reads(*old(self)).union(access_reads(*other)),
            access_writes(*final(self)) == access_writes(*old(self)).union(access_writes(*other)),
    {
        self.inner.extend(&other.inner)
    }
}

impl FilteredAccess {
    /// `FilteredAccess::default`: no claim, nothing asked for, nothing excluded.
    #[verifier::external_body]
    pub(crate) fn new() -> (access: FilteredAccess)
        ensures
            filtered_reads(access) == Set::<int>::empty(),
            filtered_writes(access) == Set::<int>::empty(),
            filtered_with(access) == Set::<int>::empty(),
            filtered_without(access) == Set::<int>::empty(),
    {
        FilteredAccess { inner: bevy::ecs::query::FilteredAccess::default() }
    }

    /// `Access::has_read` on `FilteredAccess::access`.
    #[verifier::external_body]
    pub(crate) fn has_read(&self, index: usize) -> (claimed: bool)
        ensures
            claimed == filtered_reads(*self).contains(index as int),
    {
        self.inner.access().has_read(index)
    }

    /// `FilteredAccess::add_read`: a read claim on `index`, which is also asked for.
    #[verifier::external_body]
    pub(crate) fn add_read(&mut self, index: usize)
        requires
            index < usize::MAX,
        ensures
            filtered_reads(*final(self)) == filtered_reads(*old(self)).insert(index as int),
            filtered_writes(*final(self)) == filtered_writes(*old(self)),
            filtered_with(*final(self)) == filtered_with(*old(self)).insert(index as int),
            filtered_without(*final(self)) == filtered_without(*old(self)),
    {
        self.inner.add_read(index)
    }

    /// `FilteredAccess::add_write`: a write claim on `index`, which is also asked for.
    #[verifier::external_body]
    pub(crate) fn add_write(&mut self, index: usize)
        requires
            index < usize::MAX,
        ensures
            filtered_reads(*final(self)) == filtered_reads(*old(self)).insert(index as int),
            filtered_writes(*final(self)) == filtered_writes(*old(self)).insert(index as int),
            filtered_with(*final(self)) == filtered_with(*old(self)).insert(index as int),
            filtered_without(*final(self)) == filtered_without(*old(self)),
    {
        self.inner.add_write(index)
    }

    /// `FilteredAccess::clone`: a copy with the same claims.
    #[verifier::external_body]
    pub(crate) fn duplicate(&self) -> (copy: FilteredAccess)
        ensures
            filtered_reads(copy) == filtered_reads(*self),
            filtered_writes(copy) == filtered_writes(*self),
            filtered_with(copy) == filtered_with(*self),
            filtered_without(copy) == filtered_without(*self),
    {
        FilteredAccess { inner: self.inner.clone() }
    }
}

impl FilteredAccessSet {
    /// `FilteredAccessSet::default`: no entry and no combined claim.
    #[verifier::external_body]
    pub(crate) fn new() -> (set: FilteredAccessSet)
        ensures
            combined_reads(set) == Set::<int>::empty(),
            combined_writes(set) == Set::<int>::empty(),
            set_entries(set) == Seq::<FilteredAccess>::empty(),
    {
        FilteredAccessSet { inner: bevy::ecs::query::FilteredAccessSet::default() }
    }

    /// `FilteredAccessSet::get_conflicts`: the ids on which `access` collides with the
    /// set, in rising order as bevy reads them off a bit set.
    #[verifier::external_body]
    pub(crate) fn get_conflicts(&self, access: &FilteredAccess) -> (ids: Vec<usize>)
        ensures
            lists_in_order(ids@, reported_conflicts(*self, *access)),
    {
        self.inner.get_conflicts(&access.inner)
    }

    /// `FilteredAccessSet::add`: appends `access` and takes its claims into the
    /// combined ones.
    #[verifier::external_body]
    pub(crate) fn add(&mut self, access: FilteredAccess)
        ensures
            set_entries(*final(self)) == set_entries(*old(self)).push(access),
            combined_reads(*final(self)) == combined_reads(*old(self)).union(
                filtered_reads(access),
            ),
            combined_writes(*final(self)) == combined_writes(*old(self)).union(
                filtered_writes(access),
            ),
    {
        self.inner.add(access.inner)
    }

    /// `Access::has_read` on `FilteredAccessSet::combined_access`.
    #[verifier::external_body]
    pub(crate) fn combined_has_read(&self, index: usize) -> (claimed: bool)
        ensures
            claimed == combined_reads(*self).contains(index as int),
    {
        self.inner.combined_access().has_read(index)
    }

    /// `Access::has_write` on `FilteredAccessSet::combined_access`.
    #[verifier::external_body]
    pub(crate) fn combined_has_write(&self, index: usize) -> (claimed: bool)
        ensures
            claimed == combined_writes(*self).contains(index as int),
    {
        self.inner.combined_access().has_write(index)
    }

    /// `Access::add_read` on `FilteredAccessSet::combined_access_mut`: a claim of the
    /// system that belongs to no entry.
    #[verifier::external_body]
    pub(crate) fn combined_add_read(&mut self, index: usize)
        requires
            index < usize::MAX,
        ensures
            set_entries(*final(self)) == set_entries(*old(self)),
            combined_reads(*final(self)) == combined_reads(*old(self)).insert(index as int),
            combined_writes(*final(self)) == combined_writes(*old(self)),
    {
        self.inner.combined_access_mut().add_read(index)
    }

    /// `Access::add_write` on `FilteredAccessSet::combined_access_mut`.
    #[verifier::external_body]
    pub(crate) fn combined_add_write(&mut self, index: usize)
        requires
            index < usize::MAX,
        ensures
            set_entries(*final(self)) == set_entries(*old(self)),
            combined_reads(*final(self)) == combined_reads(*old(self)).insert(index as int),
            combined_writes(*final(self)) == combined_writes(*old(self)).insert(index as int),
    {
        self.inner.combined_access_mut().add_write(index)
    }
}

} // verus!
