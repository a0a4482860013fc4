//! Which archetypes match a query, and what a scan of the archetypes of a world
//! enters among the matches.
use crate::bitset::bitset_ones;
use crate::other::{FilterState, OtherState};
use crate::rows::rows;
use crate::world::Archetype;
use fixedbitset::FixedBitSet;
use vstd::prelude::*;

verus! {

/// The ids of the archetypes and of the tables that match, each in the order in which
/// it was first met.
pub struct Matched {
    pub archetype_ids: Seq<usize>,
    pub table_ids: Seq<usize>,
}

/// An archetype matches iff every member of the shape matches it and no member of the
/// filter excludes it.
pub open spec fn shape_matches(
    states: Seq<OtherState>,
    filters: Seq<FilterState>,
    archetype: Archetype,
) -> bool {
    &&& forall|k: int| 0 <= k < states.len() ==> (#[trigger] states[k]).matches(archetype)
    &&& forall|k: int| 0 <= k < filters.len() ==> (#[trigger] filters[k]).matches(archetype)
}

/// Shape and filter can both be read from the rows of tables.
pub open spec fn shape_dense(states: Seq<OtherState>, filters: Seq<FilterState>) -> bool {
    &&& forall|k: int| 0 <= k < states.len() ==> (#[trigger] states[k]).dense()
    &&& forall|k: int| 0 <= k < filters.len() ==> (#[trigger] filters[k]).dense()
}

/// `ids` with `id` at its end, unless it holds `id` already.
pub open spec fn push_new(ids: Seq<usize>, id: usize) -> Seq<usize> {
    if ids.contains(id) {
        ids
    } else {
        ids.push(id)
    }
}

/// What is matched once `archetype` was looked at.
pub open spec fn matched_with(
    matched: Matched,
    states: Seq<OtherState>,
    filters: Seq<FilterState>,
    archetype: Archetype,
) -> Matched {
    if shape_matches(states, filters, archetype) {
        Matched {
            archetype_ids: push_new(matched.archetype_ids, archetype.id),
            table_ids: push_new(matched.table_ids, archetype.table_id),
        }
    } else {
        matched
    }
}

/// What is matched once the archetypes from `lo` up to `hi` were looked at, in rising
/// order, starting from `matched`.
pub open spec fn scan(
    matched: Matched,
    states: Seq<OtherState>,
    filters: Seq<FilterState>,
    archetypes: Seq<Archetype>,
    lo: int,
    hi: int,
) -> Matched
    decreases hi - lo,
{
    if hi <= lo {
        matched
    } else {
        matched_with(
            scan(matched, states, filters, archetypes, lo, hi - 1),
            states,
            filters,
            archetypes[hi - 1],
        )
    }
}

/// The ids, within `archetype`, of the components that the first `n` members of the
/// shape read or write; with `writes_only`, of those that they write.
pub open spec fn claims_of(
    states: Seq<OtherState>,
    archetype: Archetype,
    n: int,
    writes_only: bool,
) -> Set<int>
    decreases n,
{
    if n <= 0 {
        Set::empty()
    } else {
        let rest = claims_of(states, archetype, n - 1, writes_only);
        match states[n - 1].archetype_claim(archetype) {
            Some(id) => if writes_only && !states[n - 1].writes() {
                rest
            } else {
                rest.insert(id)
            },
            None => rest,
        }
    }
}

/// `claims` with what the shape claims in `archetype`, where the archetype matches.
pub open spec fn claims_with(
    claims: Set<int>,
    states: Seq<OtherState>,
    filters: Seq<FilterState>,
    archetype: Archetype,
    writes_only: bool,
) -> Set<int> {
    if shape_matches(states, filters, archetype) {
        claims.union(claims_of(states, archetype, states.len() as int, writes_only))
    } else {
        claims
    }
}

/// `claims` with what the shape claims in the matching archetypes from `lo` up to
/// `hi`.
pub open spec fn scan_claims(
    claims: Set<int>,
    states: Seq<OtherState>,
    filters: Seq<FilterState>,
    archetypes: Seq<Archetype>,
    lo: int,
    hi: int,
    writes_only: bool,
) -> Set<int>
    decreases hi - lo,
{
    if hi <= lo {
        claims
    } else {
        claims_with(
            scan_claims(claims, states, filters, archetypes, lo, hi - 1, writes_only),
            states,
            filters,
            archetypes[hi - 1],
            writes_only,
        )
    }
}

/// The bit set holds exactly the ids of the list.
pub open spec fn mirrors(bits: FixedBitSet, ids: Seq<usize>) -> bool {
    forall|id: usize| bitset_ones(bits).contains(id as int) <==> ids.contains(id)
}

/// A bit set that got the bit `id`, beside a list that got `id` at its end, mirrors
/// the list as before.
pub proof fn lemma_mirrors_push(before: FixedBitSet, after: FixedBitSet, ids: Seq<usize>, id: usize)
    requires
        mirrors(before, ids),
        bitset_ones(after) == bitset_ones(before).insert(id as int),
    ensures
        mirrors(after, ids.push(id)),
{
    assert forall|other: usize| bitset_ones(after).contains(other as int) <==> ids.push(
        id,
    ).contains(other) by {
        if other == id {
            assert(ids.push(id)[ids.len() as int] == id);
        } else {
            if ids.contains(other) {
                let k = choose|k: int| 0 <= k < ids.len() && ids[k] == other;
                assert(ids.push(id)[k] == other);
            }
            if ids.push(id).contains(other) {
                let k = choose|k: int| 0 <= k < ids.push(id).len() && ids.push(id)[k] == other;
                assert(ids[k] == other);
            }
        }
    }
}

/// A list holds an id once the id was entered in it.
pub proof fn lemma_push_new_contains(ids: Seq<usize>, id: usize)
    ensures
        push_new(ids, id).contains(id),
        ids.no_duplicates() ==> push_new(ids, id).no_duplicates(),
{
    if !ids.contains(id) {
        assert(ids.push(id)[ids.len() as int] == id);
    }
}

/// A scan adds behind what was matched and takes nothing away.
pub proof fn lemma_scan_extends(
    matched: Matched,
    states: Seq<OtherState>,
    filters: Seq<FilterState>,
    archetypes: Seq<Archetype>,
    lo: int,
    hi: int,
)
    ensures
        matched.archetype_ids.is_prefix_of(
            scan(matched, states, filters, archetypes, lo, hi).archetype_ids,
        ),
        matched.table_ids.is_prefix_of(scan(matched, states, filters, archetypes, lo, hi).table_ids),
    decreases hi - lo,
{
    if lo < hi {
        lemma_scan_extends(matched, states, filters, archetypes, lo, hi - 1);
    }
}

/// After a scan, every archetype of the range that matches is among the matches, and
/// so is its table.
pub proof fn lemma_scan_complete(
    matched: Matched,
    states: Seq<OtherState>,
    filters: Seq<FilterState>,
    archetypes: Seq<Archetype>,
    lo: int,
    hi: int,
    a: int,
)
    requires
        lo <= a < hi,
        shape_matches(states, filters, archetypes[a]),
    ensures
        scan(matched, states, filters, archetypes, lo, hi).archetype_ids.contains(archetypes[a].id),
        scan(matched, states, filters, archetypes, lo, hi).table_ids.contains(
            archetypes[a].table_id,
        ),
    decreases hi - lo,
{
    let before = scan(matched, states, filters, archetypes, lo, hi - 1);
    let after = scan(matched, states, filters, archetypes, lo, hi);
    if a < hi - 1 {
        lemma_scan_complete(matched, states, filters, archetypes, lo, hi - 1, a);
        lemma_scan_extends(before, states, filters, archetypes, hi - 1, hi);
        assert(scan(before, states, filters, archetypes, hi - 1, hi) == after) by {
            assert(scan(before, states, filters, archetypes, hi - 1, hi - 1) == before);
        }
        let i = choose|i: int|
            0 <= i < before.archetype_ids.len() && before.archetype_ids[i] == archetypes[a].id;
        assert(after.archetype_ids[i] == archetypes[a].id);
        let j = choose|j: int|
            0 <= j < before.table_ids.len() && before.table_ids[j] == archetypes[a].table_id;
        assert(after.table_ids[j] == archetypes[a].table_id);
    } else {
        lemma_push_new_contains(before.archetype_ids, archetypes[a].id);
        lemma_push_new_contains(before.table_ids, archetypes[a].table_id);
    }
}

/// A scan enters no archetype and no table twice.
pub proof fn lemma_scan_distinct(
    matched: Matched,
    states: Seq<OtherState>,
    filters: Seq<FilterState>,
    archetypes: Seq<Archetype>,
    lo: int,
    hi: int,
)
    requires
        matched.archetype_ids.no_duplicates(),
        matched.table_ids.no_duplicates(),
    ensures
        scan(matched, states, filters, archetypes, lo, hi).archetype_ids.no_duplicates(),
        scan(matched, states, filters, archetypes, lo, hi).table_ids.no_duplicates(),
    decreases hi - lo,
{
    if lo < hi {
        lemma_scan_distinct(matched, states, filters, archetypes, lo, hi - 1);
        let before = scan(matched, states, filters, archetypes, lo, hi - 1);
        lemma_push_new_contains(before.archetype_ids, archetypes[hi - 1].id);
        lemma_push_new_contains(before.table_ids, archetypes[hi - 1].table_id);
    }
}

/// A table that a scan from nothing has entered is the table of an archetype of the
/// range that matches.
pub proof fn lemma_matched_table_origin(
    states: Seq<OtherState>,
    filters: Seq<FilterState>,
    archetypes: Seq<Archetype>,
    lo: int,
    hi: int,
    table_id: usize,
) -> (a: int)
    requires
        scan(
            Matched { archetype_ids: Seq::empty(), table_ids: Seq::empty() },
            states,
            filters,
            archetypes,
            lo,
            hi,
        ).table_ids.contains(table_id),
    ensures
        lo <= a < hi,
        archetypes[a].table_id == table_id,
        shape_matches(states, filters, archetypes[a]),
    decreases hi - lo,
{
    let nothing = Matched { archetype_ids: Seq::empty(), table_ids: Seq::empty() };
    if hi <= lo {
        assert(!Seq::<usize>::empty().contains(table_id));
        lo
    } else {
        let before = scan(nothing, states, filters, archetypes, lo, hi - 1);
        if before.table_ids.contains(table_id) {
            lemma_matched_table_origin(states, filters, archetypes, lo, hi - 1, table_id)
        } else {
            let after = scan(nothing, states, filters, archetypes, lo, hi);
            let k = choose|k: int| 0 <= k < after.table_ids.len() && after.table_ids[k] == table_id;
            if k < before.table_ids.len() {
                assert(before.table_ids[k] == table_id);
            }
            hi - 1
        }
    }
}

/// An archetype that a scan from nothing has entered is an archetype of the range
/// that matches.
pub proof fn lemma_matched_archetype_origin(
    states: Seq<OtherState>,
    filters: Seq<FilterState>,
    archetypes: Seq<Archetype>,
    lo: int,
    hi: int,
    archetype_id: usize,
) -> (a: int)
    requires
        scan(
            Matched { archetype_ids: Seq::empty(), table_ids: Seq::empty() },
            states,
            filters,
            archetypes,
            lo,
            hi,
        ).archetype_ids.contains(archetype_id),
    ensures
        lo <= a < hi,
        archetypes[a].id == archetype_id,
        shape_matches(states, filters, archetypes[a]),
    decreases hi - lo,
{
    let nothing = Matched { archetype_ids: Seq::empty(), table_ids: Seq::empty() };
    if hi <= lo {
        assert(!Seq::<usize>::empty().contains(archetype_id));
        lo
    } else {
        let before = scan(nothing, states, filters, archetypes, lo, hi - 1);
        if before.archetype_ids.contains(archetype_id) {
            lemma_matched_archetype_origin(states, filters, archetypes, lo, hi - 1, archetype_id)
        } else {
            let after = scan(nothing, states, filters, archetypes, lo, hi);
            let k = choose|k: int|
                0 <= k < after.archetype_ids.len() && after.archetype_ids[k] == archetype_id;
            if k < before.archetype_ids.len() {
                assert(before.archetype_ids[k] == archetype_id);
            }
            hi - 1
        }
    }
}

/// A scan in which no archetype matches enters nothing.
pub proof fn lemma_scan_without_matches(
    matched: Matched,
    states: Seq<OtherState>,
    filters: Seq<FilterState>,
    archetypes: Seq<Archetype>,
    lo: int,
    hi: int,
)
    requires
        forall|a: int| lo <= a < hi ==> !shape_matches(states, filters, #[trigger] archetypes[a]),
    ensures
        scan(matched, states, filters, archetypes, lo, hi) == matched,
    decreases hi - lo,
{
    if lo < hi {
        lemma_scan_without_matches(matched, states, filters, archetypes, lo, hi - 1);
    }
}

/// Two archetypes with the same id, the same table and the same components. An
/// archetype keeps all three for as long as it lives; only its entities come and go.
pub open spec fn same_kind(a: Archetype, b: Archetype) -> bool {
    &&& a.id == b.id
    &&& a.table_id == b.table_id
    &&& a.components@ == b.components@
}

/// A scan depends on the kind of the archetypes of its range alone.
pub proof fn lemma_scan_same_kinds(
    matched: Matched,
    states: Seq<OtherState>,
    filters: Seq<FilterState>,
    before: Seq<Archetype>,
    after: Seq<Archetype>,
    lo: int,
    hi: int,
)
    requires
        0 <= lo,
        hi <= before.len(),
        hi <= after.len(),
        forall|a: int| lo <= a < hi ==> same_kind(#[trigger] before[a], after[a]),
    ensures
        scan(matched, states, filters, before, lo, hi) == scan(
            matched,
            states,
            filters,
            after,
            lo,
            hi,
        ),
    decreases hi - lo,
{
    if lo < hi {
        lemma_scan_same_kinds(matched, states, filters, before, after, lo, hi - 1);
        assert(same_kind(before[hi - 1], after[hi - 1]));
        assert forall|k: int| 0 <= k < states.len() implies (#[trigger] states[k]).matches(
            before[hi - 1],
        ) == states[k].matches(after[hi - 1]) by {}
        assert forall|k: int| 0 <= k < filters.len() implies (#[trigger] filters[k]).matches(
            before[hi - 1],
        ) == filters[k].matches(after[hi - 1]) by {}
    }
}

} // verus!
