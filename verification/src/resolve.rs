//! Resolving a shape and a filter: what becomes of the registries member by member,
//! and which states and claims come of it.
use crate::other::{FilterState, OtherFilter, OtherState};
use crate::other_world::{lemma_other_position, other_position, PrimaryWorld};
use crate::other_world_query::{lemma_same_indices, same_layout, Other, Otherable};
use crate::world::{
    key_position, lemma_key_position, registered, ComponentInfo, StorageType, TypeKey,
};
use vstd::prelude::*;

verus! {

/// The types that resolving a shape and a filter asks the registries for, in order:
/// one for each member of the shape, none for a unit member, then one for each member
/// of the filter.
pub open spec fn requests(members: Seq<Otherable>, filters: Seq<OtherFilter>) -> Seq<Option<u64>> {
    Seq::new(
        members.len() + filters.len(),
        |k: int|
            if k < members.len() {
                OtherState::type_of(members[k])
            } else {
                Some(FilterState::type_of(filters[k - members.len()]))
            },
    )
}

/// The registry of the primary world once the first `n` requests were served.
pub open spec fn outer_after(
    outer: Seq<ComponentInfo>,
    requests: Seq<Option<u64>>,
    world: usize,
    n: int,
) -> Seq<ComponentInfo>
    decreases n,
{
    if n <= 0 {
        outer
    } else {
        let served = outer_after(outer, requests, world, n - 1);
        match requests[n - 1] {
            Some(type_id) => registered(served, TypeKey::Other(type_id, world), StorageType::Table),
            None => served,
        }
    }
}

/// The registry of the nested world once the first `n` requests were served.
pub open spec fn inner_after(
    inner: Seq<ComponentInfo>,
    requests: Seq<Option<u64>>,
    n: int,
) -> Seq<ComponentInfo>
    decreases n,
{
    if n <= 0 {
        inner
    } else {
        let served = inner_after(inner, requests, n - 1);
        match requests[n - 1] {
            Some(type_id) => registered(served, TypeKey::Type(type_id), StorageType::Table),
            None => served,
        }
    }
}

/// `after` is `before` with the first `n` requests served in the registries of the
/// primary world and of the nested world of index `world`; nothing else differs.
pub open spec fn served(
    before: PrimaryWorld,
    after: PrimaryWorld,
    world: usize,
    requests: Seq<Option<u64>>,
    n: int,
) -> bool {
    let at = other_position(before.others@, world);
    &&& same_layout(after.world, before.world)
    &&& after.world.components.infos@ == outer_after(
        before.world.components.infos@,
        requests,
        world,
        n,
    )
    &&& after.others.len() == before.others.len()
    &&& forall|i: int|
        0 <= i < before.others.len() && i != at ==> after.others[i] == before.others[i]
    &&& after.others[at].index == world
    &&& same_layout(after.others[at].world, before.others[at].world)
    &&& after.others[at].world.components.infos@ == inner_after(
        before.others[at].world.components.infos@,
        requests,
        n,
    )
}

/// The states that the members of a shape resolve to, each against the registries as
/// the members before it left them.
pub open spec fn resolved_states(
    members: Seq<Otherable>,
    filters: Seq<OtherFilter>,
    outer: Seq<ComponentInfo>,
    inner: Seq<ComponentInfo>,
    world: usize,
) -> Seq<OtherState> {
    Seq::new(
        members.len(),
        |k: int|
            OtherState::resolved_in(
                members[k],
                outer_after(outer, requests(members, filters), world, k),
                inner_after(inner, requests(members, filters), k),
                world,
            ),
    )
}

/// The states that the members of a filter resolve to, after the shape was resolved.
pub open spec fn resolved_filters(
    members: Seq<Otherable>,
    filters: Seq<OtherFilter>,
    outer: Seq<ComponentInfo>,
    inner: Seq<ComponentInfo>,
    world: usize,
) -> Seq<FilterState> {
    Seq::new(
        filters.len(),
        |k: int|
            FilterState::resolved_in(
                filters[k],
                outer_after(outer, requests(members, filters), world, members.len() + k),
                inner_after(inner, requests(members, filters), members.len() + k),
                world,
            ),
    )
}

/// The ids that the first `n` members of a shape read or write; with `writes_only`,
/// those that they write.
pub open spec fn shape_claims(states: Seq<OtherState>, n: int, writes_only: bool) -> Set<int>
    decreases n,
{
    if n <= 0 {
        Set::empty()
    } else {
        let rest = shape_claims(states, n - 1, writes_only);
        match states[n - 1].claimed() {
            Some(id) => if writes_only && !states[n - 1].writes() {
                rest
            } else {
                rest.insert(id as int)
            },
            None => rest,
        }
    }
}

/// Member `k` asks for exclusive access to a component that a member before it
/// accesses already.
pub open spec fn clashes(states: Seq<OtherState>, k: int) -> bool {
    match states[k] {
        OtherState::Write(state) => shape_claims(states, k, false).contains(
            state.component_id as int,
        ),
        _ => false,
    }
}

/// Serving one more request keeps `served`.
pub proof fn lemma_served_step(
    before: PrimaryWorld,
    middle: PrimaryWorld,
    after: PrimaryWorld,
    world: usize,
    requests: Seq<Option<u64>>,
    n: int,
)
    requires
        before.has_other(world),
        0 <= n < requests.len(),
        served(before, middle, world, requests, n),
        match requests[n] {
            Some(type_id) => (Other { type_id, world }).registered_in(middle, after),
            None => after == middle,
        },
    ensures
        served(before, after, world, requests, n + 1),
{
    lemma_served_position(before, middle, world, requests, n);
}

/// Serving requests leaves the nested world where it stands among the resources.
pub proof fn lemma_served_position(
    before: PrimaryWorld,
    after: PrimaryWorld,
    world: usize,
    requests: Seq<Option<u64>>,
    n: int,
)
    requires
        before.has_other(world),
        served(before, after, world, requests, n),
    ensures
        other_position(after.others@, world) == other_position(before.others@, world),
        after.has_other(world),
{
    lemma_other_position(before.others@, world);
    let at = other_position(before.others@, world);
    assert forall|i: int| 0 <= i < before.others.len() implies before.others[i].index
        == after.others[i].index by {
        if i != at {
            assert(after.others[i] == before.others[i]);
        }
    }
    lemma_same_indices(before.others@, after.others@, world);
}

/// Serving requests only adds to the registry of the nested world.
pub proof fn lemma_inner_grows(
    inner: Seq<ComponentInfo>,
    asked: Seq<Option<u64>>,
    k: int,
    n: int,
)
    requires
        0 <= k <= n,
    ensures
        inner_after(inner, asked, k).is_prefix_of(inner_after(inner, asked, n)),
    decreases n - k,
{
    if k < n {
        lemma_inner_grows(inner, asked, k, n - 1);
    }
}

/// Serving requests only adds to the registry of the primary world.
pub proof fn lemma_outer_grows(
    outer: Seq<ComponentInfo>,
    asked: Seq<Option<u64>>,
    world: usize,
    k: int,
    n: int,
)
    requires
        0 <= k <= n,
    ensures
        outer_after(outer, asked, world, k).is_prefix_of(outer_after(outer, asked, world, n)),
    decreases n - k,
{
    if k < n {
        lemma_outer_grows(outer, asked, world, k, n - 1);
    }
}

/// A key stands in the registry where asking for it says, with the storage that the
/// registry has for it.
pub proof fn lemma_registered_at(infos: Seq<ComponentInfo>, key: TypeKey)
    ensures
        0 <= key_position(infos, key) < registered(infos, key, StorageType::Table).len(),
        registered(infos, key, StorageType::Table)[key_position(infos, key)].key == key,
{
    lemma_key_position(infos, key);
}

/// The type of request `k` stands in the registry `now`, which holds what serving
/// the requests up to `k` has made of `inner`, where asking for it then said, and
/// with the storage that it then had.
pub proof fn lemma_key_known(
    inner: Seq<ComponentInfo>,
    asked: Seq<Option<u64>>,
    now: Seq<ComponentInfo>,
    k: int,
    type_id: u64,
)
    requires
        0 <= k < asked.len(),
        asked[k] == Some(type_id),
        inner_after(inner, asked, k + 1).is_prefix_of(now),
    ensures
        0 <= key_position(inner_after(inner, asked, k), TypeKey::Type(type_id)) < now.len(),
        now[key_position(inner_after(inner, asked, k), TypeKey::Type(type_id))] == registered(
            inner_after(inner, asked, k),
            TypeKey::Type(type_id),
            StorageType::Table,
        )[key_position(inner_after(inner, asked, k), TypeKey::Type(type_id))],
{
    let served = inner_after(inner, asked, k);
    let key = TypeKey::Type(type_id);
    lemma_registered_at(served, key);
    assert(inner_after(inner, asked, k + 1) == registered(served, key, StorageType::Table));
}

/// The states that a shape and a filter resolve to record, for every component, the
/// storage that the registry of the nested world has for it once all requests are
/// served.
pub proof fn lemma_resolved_storage(
    query: Seq<Otherable>,
    filter: Seq<OtherFilter>,
    outer: Seq<ComponentInfo>,
    inner: Seq<ComponentInfo>,
    world: usize,
    now: Seq<ComponentInfo>,
)
    requires
        now == inner_after(inner, requests(query, filter), requests(query, filter).len() as int),
        now.len() <= usize::MAX,
    ensures
        forall|k: int|
            0 <= k < query.len() ==> (#[trigger] resolved_states(
                query,
                filter,
                outer,
                inner,
                world,
            )[k]).storage_known(now),
        forall|k: int|
            0 <= k < filter.len() ==> (#[trigger] resolved_filters(
                query,
                filter,
                outer,
                inner,
                world,
            )[k]).storage_known(now),
{
    let asked = requests(query, filter);
    let n = asked.len() as int;
    let states = resolved_states(query, filter, outer, inner, world);
    let filters = resolved_filters(query, filter, outer, inner, world);
    assert forall|k: int| 0 <= k < query.len() implies (#[trigger] states[k]).storage_known(
        now,
    ) by {
        lemma_inner_grows(inner, asked, k + 1, n);
        match OtherState::type_of(query[k]) {
            Some(type_id) => {
                assert(asked[k] == Some(type_id));
                lemma_key_known(inner, asked, now, k, type_id);
                let served = inner_after(inner, asked, k);
                let at = key_position(served, TypeKey::Type(type_id));
                assert(states[k].required() == Some(at as usize));
            },
            None => {
                assert(states[k] == OtherState::Unit);
            },
        }
    }
    assert forall|k: int| 0 <= k < filter.len() implies (#[trigger] filters[k]).storage_known(
        now,
    ) by {
        let at = query.len() + k;
        let type_id = FilterState::type_of(filter[k]);
        lemma_inner_grows(inner, asked, at + 1, n);
        assert(asked[at] == Some(type_id));
        lemma_key_known(inner, asked, now, at, type_id);
        let served = inner_after(inner, asked, at);
        let id = key_position(served, TypeKey::Type(type_id));
        assert(filters[k].component() == id as usize);
        assert(filters[k].storage() == registered(
            served,
            TypeKey::Type(type_id),
            StorageType::Table,
        )[id].storage_type);
    }
}

/// What a shape claims holds the id of each of its members that is not the unit.
pub proof fn lemma_claims_hold(states: Seq<OtherState>, n: int, k: int)
    requires
        0 <= k < n <= states.len(),
        states[k].claimed().is_some(),
    ensures
        shape_claims(states, n, false).contains(states[k].claimed().unwrap() as int),
    decreases n,
{
    if k < n - 1 {
        lemma_claims_hold(states, n - 1, k);
    }
}

} // verus!
