//! What holds of queries in general, proved from the contracts of the functions.
use crate::access::{
    compatible, conflict_ids, filtered_compatible, filtered_reads, filtered_writes,
    first_incompatible, lemma_first_incompatible, reported_conflicts, Access, FilteredAccess,
};
use crate::batch::{batch_rows, flatten, lemma_batches_partition, Batch};
use crate::items::{
    accepted, filtered, item_of, lemma_filtered_concat, lemma_filtered_origin,
    lemma_filtered_prefix, row_entity, ItemView, QueryEntityError,
};
use crate::matching::{
    lemma_matched_archetype_origin, lemma_matched_table_origin, lemma_scan_complete,
    lemma_scan_distinct, lemma_scan_extends, lemma_scan_same_kinds, lemma_scan_without_matches,
    same_kind, scan, shape_matches, Matched,
};
use crate::other::{FilterState, OtherFilter, OtherState};
use crate::other_query_state::{is_claimed, is_new, OtherQueryState};
use crate::other_world::{lemma_other_position, PrimaryWorld};
use crate::other_world_query::{ConfigurationError, Otherable};
use crate::resolve::{
    lemma_claims_hold, lemma_outer_grows, lemma_registered_at, lemma_served_position, outer_after,
    requests, resolved_states,
};
use crate::rows::{lemma_rows_index, lemma_rows_injective, lemma_rows_member, rows, Row};
use crate::system::{is_proxy, plain_claims, SystemState};
use crate::world::{
    component_position, key_position, lemma_component_position, lemma_key_position,
    lemma_shared_table, registered, Archetype, ComponentInfo, Entity, EntityLocation, StorageType,
    TypeKey, World,
};
use vstd::prelude::*;

verus! {

/// The state holds what a scan of all archetypes of `world` gives, from nothing.
pub open spec fn up_to_date(state: OtherQueryState, world: World) -> bool {
    &&& state.archetype_generation == world.archetypes.len()
    &&& state.matched() == scan(
        Matched { archetype_ids: Seq::empty(), table_ids: Seq::empty() },
        state.fetch_state@,
        state.filter_state@,
        world.archetypes@,
        0,
        world.archetypes.len() as int,
    )
}

/// A state that was just made is ready for its nested world: it can be used with it,
/// and it holds what a scan of all archetypes gives. So what is proved of walks holds
/// of the walks of such a state.
pub proof fn law_new_state_is_ready(
    state: OtherQueryState,
    before: PrimaryWorld,
    after: PrimaryWorld,
    world: usize,
    query: Seq<Otherable>,
    filter: Seq<OtherFilter>,
)
    requires
        before.has_other(world),
        is_new(Ok(state), before, after, world, query, filter),
    ensures
        after.has_other(world),
        state.fits(after.other(world)),
        up_to_date(state, after.other(world)),
{
    let asked = requests(query, filter);
    lemma_served_position(before, after, world, asked, asked.len() as int);
    lemma_other_position(before.others@, world);
    assert(after.other(world).archetypes == before.other(world).archetypes);
}

/// Every entity whose archetype matches, and which the filter lets through, is
/// yielded exactly once, whether the query walks tables or archetypes: the walk yields,
/// at one place and at no other, an item of that entity, and this item is the one that
/// `get` gives for the entity.
pub proof fn law_each_entity_once(
    state: OtherQueryState,
    world: World,
    entity: Entity,
    last_change_tick: u32,
    change_tick: u32,
) -> (at: int)
    requires
        world.wf(),
        state.fits(world),
        up_to_date(state, world),
        world.location(entity).is_some(),
        shape_matches(
            state.fetch_state@,
            state.filter_state@,
            world.archetypes[world.location(entity).unwrap().archetype_id as int],
        ),
        accepted(state.filter_state@, world, entity, last_change_tick, change_tick),
    ensures
        0 <= at < state.items(world, last_change_tick, change_tick).len(),
        state.items(world, last_change_tick, change_tick)[at].entity == entity,
        state.item_for(world, entity, last_change_tick, change_tick) == Ok::<
            ItemView,
            QueryEntityError,
        >(state.items(world, last_change_tick, change_tick)[at]),
        forall|i: int|
            0 <= i < state.items(world, last_change_tick, change_tick).len() && state.items(
                world,
                last_change_tick,
                change_tick,
            )[i].entity == entity ==> i == at,
{
    let location = world.location(entity).unwrap();
    let a = location.archetype_id as int;
    let archetype = world.archetypes[a];
    let states = state.fetch_state@;
    let filters = state.filter_state@;
    let nothing = Matched { archetype_ids: Seq::empty(), table_ids: Seq::empty() };
    let n = world.archetypes.len() as int;
    assert(world.meta_wf(entity.id as int));
    assert(world.archetype_wf(a));
    assert(world.row_wf(a, location.index as int));
    lemma_scan_complete(nothing, states, filters, world.archetypes@, 0, n, a);
    lemma_scan_distinct(nothing, states, filters, world.archetypes@, 0, n);
    let ids = state.sources();
    let lens = state.lens(world);
    let walk = state.walk(world);
    let items = state.items(world, last_change_tick, change_tick);
    let dense = state.dense();
    // The one row of the walk that holds the entity.
    let place = if dense {
        let table = archetype.table_id;
        let row = archetype.entity_table_rows[location.index as int];
        let k = choose|k: int| 0 <= k < ids.len() && ids[k] == table;
        lemma_rows_index(ids, lens, ids.len() as int, k, row as int);
        let place = rows(ids, lens, k).len() + row;
        assert(walk[place] == Row { source: table, index: row });
        assert(item_of(
            states,
            world,
            true,
            walk[place],
            last_change_tick,
            change_tick,
        ).components =~= item_of(
            states,
            world,
            false,
            Row { source: location.archetype_id, index: location.index },
            last_change_tick,
            change_tick,
        ).components) by {
            assert forall|m: int| 0 <= m < states.len() implies states[m].table_fetched(
                world,
                table,
                row,
                last_change_tick,
                change_tick,
            ) == states[m].archetype_fetched(
                world,
                location.archetype_id,
                location.index as int,
                last_change_tick,
                change_tick,
            ) by {
                assert(states[m].dense());
            }
        }
        assert forall|i: int| 0 <= i < walk.len() && row_entity(world, dense, walk[i])
            == entity implies i == place by {
            let found = lemma_rows_member(ids, lens, ids.len() as int, i);
            let t = ids[found.0];
            assert(world.table_row_wf(t as int, found.1));
            assert(walk[i] == walk[place]);
            lemma_rows_injective(ids, lens, ids.len() as int, i, place);
        }
        place
    } else {
        let k = choose|k: int| 0 <= k < ids.len() && ids[k] == archetype.id;
        lemma_rows_index(ids, lens, ids.len() as int, k, location.index as int);
        let place = rows(ids, lens, k).len() + location.index;
        assert(walk[place] == Row { source: location.archetype_id, index: location.index });
        assert forall|i: int| 0 <= i < walk.len() && row_entity(world, dense, walk[i])
            == entity implies i == place by {
            let found = lemma_rows_member(ids, lens, ids.len() as int, i);
            let other = ids[found.0];
            assert(world.archetype_wf(other as int));
            assert(world.row_wf(other as int, found.1));
            assert(walk[i] == walk[place]);
            lemma_rows_injective(ids, lens, ids.len() as int, i, place);
        }
        place
    };
    assert(row_entity(world, dense, walk[place]) == entity);
    let at = state.yielded(world, place, last_change_tick, change_tick).len() as int;
    lemma_filtered_prefix(
        states,
        filters,
        world,
        dense,
        walk,
        place + 1,
        walk.len() as int,
        last_change_tick,
        change_tick,
    );
    assert(state.yielded(world, place + 1, last_change_tick, change_tick)[at] == item_of(
        states,
        world,
        dense,
        walk[place],
        last_change_tick,
        change_tick,
    ));
    assert forall|i: int| 0 <= i < items.len() && items[i].entity == entity implies i == at by {
        let q = lemma_filtered_origin(
            states,
            filters,
            world,
            dense,
            walk,
            walk.len() as int,
            last_change_tick,
            change_tick,
            i,
        );
        assert(row_entity(world, dense, walk[q]) == entity);
    }
    at
}

/// A query yields nothing but what it should: every item of the walk belongs to a
/// live entity whose archetype matches and which the filter lets through, and it is
/// the item that `get` gives for that entity. This holds of a walk over tables as of a
/// walk over archetypes.
pub proof fn law_items_are_matches(
    state: OtherQueryState,
    world: World,
    last_change_tick: u32,
    change_tick: u32,
    i: int,
) -> (location: EntityLocation)
    requires
        world.wf(),
        state.fits(world),
        up_to_date(state, world),
        0 <= i < state.items(world, last_change_tick, change_tick).len(),
    ensures
        world.location(state.items(world, last_change_tick, change_tick)[i].entity) == Some(
            location,
        ),
        shape_matches(
            state.fetch_state@,
            state.filter_state@,
            world.archetypes[location.archetype_id as int],
        ),
        accepted(
            state.filter_state@,
            world,
            state.items(world, last_change_tick, change_tick)[i].entity,
            last_change_tick,
            change_tick,
        ),
        state.item_for(
            world,
            state.items(world, last_change_tick, change_tick)[i].entity,
            last_change_tick,
            change_tick,
        ) == Ok::<ItemView, QueryEntityError>(
            state.items(world, last_change_tick, change_tick)[i],
        ),
{
    let states = state.fetch_state@;
    let filters = state.filter_state@;
    let nothing = Matched { archetype_ids: Seq::empty(), table_ids: Seq::empty() };
    let n = world.archetypes.len() as int;
    let ids = state.sources();
    let lens = state.lens(world);
    let walk = state.walk(world);
    let dense = state.dense();
    let items = state.items(world, last_change_tick, change_tick);
    let q = lemma_filtered_origin(
        states,
        filters,
        world,
        dense,
        walk,
        walk.len() as int,
        last_change_tick,
        change_tick,
        i,
    );
    let found = lemma_rows_member(ids, lens, ids.len() as int, q);
    let source = ids[found.0];
    let entity = items[i].entity;
    if dense {
        assert(world.table_row_wf(source as int, found.1));
        let location = world.location(entity).unwrap();
        let a = location.archetype_id as int;
        let archetype = world.archetypes[a];
        assert(world.archetype_wf(a));
        assert(world.meta_wf(entity.id as int));
        assert(ids.contains(source));
        let first = lemma_matched_table_origin(states, filters, world.archetypes@, 0, n, source);
        assert(world.archetype_wf(first));
        assert forall|k: int| 0 <= k < states.len() implies (#[trigger] states[k]).matches(
            archetype,
        ) by {
            assert(states[k].matches(world.archetypes[first]));
            assert(states[k].dense());
            assert(states[k].storage_known(world.components.infos@));
            match states[k].required() {
                Some(component_id) => {
                    lemma_shared_table(world, first, a, component_id);
                },
                None => {},
            }
        }
        assert forall|k: int| 0 <= k < filters.len() implies (#[trigger] filters[k]).matches(
            archetype,
        ) by {
            assert(filters[k].matches(world.archetypes[first]));
            assert(filters[k].dense());
            assert(filters[k].storage_known(world.components.infos@));
            let component_id = filters[k].component();
            if filters[k] is Without {
                if archetype.has(component_id) {
                    lemma_shared_table(world, a, first, component_id);
                }
            } else {
                lemma_shared_table(world, first, a, component_id);
            }
        }
        lemma_scan_complete(nothing, states, filters, world.archetypes@, 0, n, a);
        assert(items[i].components =~= item_of(
            states,
            world,
            false,
            Row { source: location.archetype_id, index: location.index },
            last_change_tick,
            change_tick,
        ).components) by {
            assert forall|m: int| 0 <= m < states.len() implies states[m].table_fetched(
                world,
                source,
                found.1 as usize,
                last_change_tick,
                change_tick,
            ) == states[m].archetype_fetched(
                world,
                location.archetype_id,
                location.index as int,
                last_change_tick,
                change_tick,
            ) by {
                assert(states[m].dense());
            }
        }
        location
    } else {
        assert(ids.contains(source));
        let a = lemma_matched_archetype_origin(states, filters, world.archetypes@, 0, n, source);
        assert(world.archetype_wf(a));
        assert(world.row_wf(a, found.1));
        EntityLocation { archetype_id: source, index: found.1 as usize }
    }
}

/// A member whose component no archetype holds makes a query that yields nothing.
/// This is what becomes of a shape that names a type which was never registered:
/// the type gets an id that no archetype of the world knows, and this is no error.
pub proof fn law_unknown_component_yields_nothing(
    state: OtherQueryState,
    world: World,
    member: int,
    last_change_tick: u32,
    change_tick: u32,
)
    requires
        world.wf(),
        up_to_date(state, world),
        0 <= member < state.fetch_state.len(),
        state.fetch_state[member].required().is_some(),
        state.fetch_state[member].required().unwrap() >= world.components.infos.len()
            || forall|a: int|
            0 <= a < world.archetypes.len() ==> !(#[trigger] world.archetypes[a]).has(
                state.fetch_state[member].required().unwrap(),
            ),
    ensures
        state.matched_archetype_ids@.len() == 0,
        state.matched_table_ids@.len() == 0,
        state.items(world, last_change_tick, change_tick).len() == 0,
{
    let states = state.fetch_state@;
    let filters = state.filter_state@;
    let component_id = states[member].required().unwrap();
    let nothing = Matched { archetype_ids: Seq::empty(), table_ids: Seq::empty() };
    let n = world.archetypes.len() as int;
    assert forall|a: int| 0 <= a < n implies !shape_matches(
        states,
        filters,
        #[trigger] world.archetypes@[a],
    ) by {
        let archetype = world.archetypes[a];
        if archetype.has(component_id) {
            assert(world.archetype_wf(a));
            lemma_component_position(archetype.components@, component_id);
            assert(world.component_wf(
                a,
                component_position(archetype.components@, component_id),
            ));
        }
        assert(!states[member].matches(archetype));
    }
    lemma_scan_without_matches(nothing, states, filters, world.archetypes@, 0, n);
    assert(state.walk(world) =~= Seq::<Row>::empty());
}

/// Looking at the archetypes in two goes gives what looking at them in one go gives:
/// bringing a cache up to date step by step never differs from a full scan.
pub proof fn law_scan_in_steps(
    matched: Matched,
    states: Seq<OtherState>,
    filters: Seq<FilterState>,
    archetypes: Seq<Archetype>,
    lo: int,
    mid: int,
    hi: int,
)
    requires
        lo <= mid <= hi,
    ensures
        scan(scan(matched, states, filters, archetypes, lo, mid), states, filters, archetypes, mid, hi)
            == scan(matched, states, filters, archetypes, lo, hi),
    decreases hi - mid,
{
    if mid < hi {
        law_scan_in_steps(matched, states, filters, archetypes, lo, mid, hi - 1);
    }
}

/// Bringing a cache up to date never differs from making it anew. Where a state held
/// what a scan of all archetypes of a world gave, and the world has since got new
/// archetypes while those that it had kept their kind, the state brought up to date
/// holds what a scan of all archetypes of the grown world gives.
pub proof fn law_update_is_a_full_scan(
    before: OtherQueryState,
    after: OtherQueryState,
    old_world: World,
    new_world: World,
)
    requires
        up_to_date(before, old_world),
        old_world.archetypes.len() <= new_world.archetypes.len(),
        forall|a: int|
            0 <= a < old_world.archetypes.len() ==> same_kind(
                #[trigger] old_world.archetypes[a],
                new_world.archetypes[a],
            ),
        after.updated(&before, new_world),
    ensures
        up_to_date(after, new_world),
{
    let nothing = Matched { archetype_ids: Seq::empty(), table_ids: Seq::empty() };
    let states = before.fetch_state@;
    let filters = before.filter_state@;
    let seen = old_world.archetypes.len() as int;
    lemma_scan_same_kinds(
        nothing,
        states,
        filters,
        old_world.archetypes@,
        new_world.archetypes@,
        0,
        seen,
    );
    law_scan_in_steps(
        nothing,
        states,
        filters,
        new_world.archetypes@,
        0,
        seen,
        new_world.archetypes.len() as int,
    );
}

/// A match is permanent: what was matched stays matched, at its place in the order,
/// whatever archetypes are looked at later.
pub proof fn law_match_is_permanent(
    matched: Matched,
    states: Seq<OtherState>,
    filters: Seq<FilterState>,
    archetypes: Seq<Archetype>,
    lo: int,
    hi: int,
)
    ensures
        matched.archetype_ids.is_prefix_of(
            scan(matched, states, filters, archetypes, lo, hi).archetype_ids,
        ),
        matched.table_ids.is_prefix_of(scan(matched, states, filters, archetypes, lo, hi).table_ids),
{
    lemma_scan_extends(matched, states, filters, archetypes, lo, hi);
}

/// Bringing a cache up to date twice in a row, with no archetype made in between,
/// leaves it the second time as the first time left it.
pub proof fn law_revalidate_is_idempotent(
    first: OtherQueryState,
    second: OtherQueryState,
    third: OtherQueryState,
    world: World,
)
    requires
        second.updated(&first, world),
        third.updated(&second, world),
    ensures
        third == second,
        third.matched() == second.matched(),
        third.matched_archetypes == second.matched_archetypes,
        third.matched_tables == second.matched_tables,
{
}

/// Exclusive access is unique within a system. Once a query that writes `id` was
/// entered among the claims of a system, a query that reads or writes `id` collides
/// with them; and so does a query that writes `id` once a query that reads it was
/// entered. The collision is reported, so that the later query is refused.
pub proof fn law_exclusive_access_collides(
    before: SystemState,
    after: SystemState,
    first: FilteredAccess,
    first_in_archetypes: Access,
    second: FilteredAccess,
    id: int,
)
    requires
        after.wf(),
        plain_claims(first),
        plain_claims(second),
        after.added(before, first, first_in_archetypes),
        filtered_writes(first).contains(id) && filtered_reads(second).contains(id)
            || filtered_reads(first).contains(id) && filtered_writes(second).contains(id),
    ensures
        reported_conflicts(after.component_access_set, second) != Set::<int>::empty(),
{
    let entries = after.queries();
    let last = entries.len() - 1;
    assert(entries[last] == entries.last());
    assert(!filtered_compatible(entries[last], second));
    lemma_first_incompatible(entries, second);
    let k = first_incompatible(entries, second);
    assert(k <= last);
    assert(plain_claims(entries[k]));
    let reads_a = filtered_reads(entries[k]);
    let writes_a = filtered_writes(entries[k]);
    let reads_b = filtered_reads(second);
    let writes_b = filtered_writes(second);
    assert(!compatible(reads_a, writes_a, reads_b, writes_b));
    if !writes_a.disjoint(reads_b) {
        let x = choose|x: int| writes_a.contains(x) && reads_b.contains(x);
        assert(conflict_ids(reads_a, writes_a, reads_b, writes_b).contains(x));
    } else {
        let x = choose|x: int| reads_a.contains(x) && writes_b.contains(x);
        assert(conflict_ids(reads_a, writes_a, reads_b, writes_b).contains(x));
    }
    assert(after.reads().contains(id));
    assert(!compatible(reads_b, writes_b, after.reads(), after.writes()));
}

/// A query whose claims collide with those of its system is refused when it is set
/// up, and the claims of the system stay as they were.
pub proof fn law_colliding_query_is_refused(
    made: OtherQueryState,
    state: Result<OtherQueryState, ConfigurationError>,
    before: SystemState,
    after: SystemState,
    world_id: Option<usize>,
)
    requires
        is_claimed(Ok(made), state, before, after, world_id),
        reported_conflicts(before.component_access_set, made.component_access) != Set::<
            int,
        >::empty(),
    ensures
        state matches Err(ConfigurationError::ConflictingAccess { .. }),
        after == before,
{
}

/// A query over a nested world is refused when it is set up for a system that reads
/// or writes that world as a resource.
pub proof fn law_borrowed_world_refuses_query(
    made: OtherQueryState,
    state: Result<OtherQueryState, ConfigurationError>,
    before: SystemState,
    after: SystemState,
    world_id: usize,
)
    requires
        is_claimed(Ok(made), state, before, after, Some(world_id)),
        before.reads().contains(world_id as int),
    ensures
        state.is_err(),
        after == before,
{
}

/// A nested world that is queried cannot be borrowed. Once a query with a member
/// that is not the unit was entered among the claims of a system, the system reaches
/// into the nested world of the query: a borrow of that world as a resource is
/// refused.
pub proof fn law_queried_world_refuses_borrow(
    state: OtherQueryState,
    before: PrimaryWorld,
    after: PrimaryWorld,
    world: usize,
    query: Seq<Otherable>,
    filter: Seq<OtherFilter>,
    system_before: SystemState,
    system_after: SystemState,
    member: int,
)
    requires
        before.has_other(world),
        is_new(Ok(state), before, after, world, query, filter),
        system_after.added(
            system_before,
            state.component_access,
            state.archetype_component_access,
        ),
        0 <= member < query.len(),
        query[member] != Otherable::Unit,
    ensures
        system_after.reaches_into(after, world),
{
    let asked = requests(query, filter);
    let n = asked.len() as int;
    let inner = before.other(world).components.infos@;
    let outer = before.world.components.infos@;
    let states = resolved_states(query, filter, outer, inner, world);
    let type_id = OtherState::type_of(query[member]).unwrap();
    let key = TypeKey::Other(type_id, world);
    let served = outer_after(outer, asked, world, member);
    lemma_registered_at(served, key);
    lemma_outer_grows(outer, asked, world, member + 1, n);
    assert(asked[member] == Some(type_id));
    assert(outer_after(outer, asked, world, member + 1) == registered(
        served,
        key,
        StorageType::Table,
    ));
    let id = key_position(served, key);
    assert(after.world.components.infos@ == outer_after(outer, asked, world, n));
    assert(id < after.world.components.infos.len());
    assert(states[member].claimed() == Some(id as usize));
    lemma_claims_hold(states, states.len() as int, member);
    assert(after.world.components.infos@[id].key == key);
    assert(is_proxy(after.world.components.infos[id].key, world));
    assert(system_after.reads().contains(id));
}

/// Ids do not collide across worlds: a registry gives different keys different ids.
/// So a type of one nested world, the same type of another nested world, and the same
/// type of the world that owns the registry are told apart in every lookup.
pub proof fn law_keys_do_not_collide(infos: Seq<ComponentInfo>, a: TypeKey, b: TypeKey)
    requires
        a != b,
        key_position(infos, a) < infos.len(),
        key_position(infos, b) < infos.len(),
    ensures
        key_position(infos, a) != key_position(infos, b),
{
    lemma_key_position(infos, a);
    lemma_key_position(infos, b);
}

/// A parallel run visits every row of the walk exactly once and no row in two tasks:
/// the batches, taken one after the other, hold the rows of the walk, each once and
/// in order. No batch is empty and none is longer than the batch size.
pub proof fn law_batches_partition_walk(state: OtherQueryState, world: World, batch_size: usize)
    requires
        batch_size > 0,
        state.fits(world),
    ensures
        flatten(
            state.batches(world, batch_size),
            state.batches(world, batch_size).len() as int,
        ) == state.walk(world),
        forall|b: int|
            0 <= b < state.batches(world, batch_size).len() ==> 0 < (#[trigger] state.batches(
                world,
                batch_size,
            )[b]).len <= batch_size,
{
    lemma_batches_partition(
        state.sources(),
        state.lens(world),
        batch_size as int,
        state.sources().len() as int,
    );
}

/// What the first `n` tasks of a parallel run yield, task after task.
pub open spec fn gathered(
    state: OtherQueryState,
    world: World,
    cut: Seq<Batch>,
    n: int,
    last_change_tick: u32,
    change_tick: u32,
) -> Seq<ItemView>
    decreases n,
{
    if n <= 0 {
        Seq::empty()
    } else {
        gathered(state, world, cut, n - 1, last_change_tick, change_tick) + state.batch_items(
            world,
            cut[n - 1],
            last_change_tick,
            change_tick,
        )
    }
}

/// The tasks yield, task after task, what a walk over their rows yields.
pub proof fn lemma_gathered(
    state: OtherQueryState,
    world: World,
    cut: Seq<Batch>,
    n: int,
    last_change_tick: u32,
    change_tick: u32,
)
    requires
        0 <= n <= cut.len(),
    ensures
        gathered(state, world, cut, n, last_change_tick, change_tick) == filtered(
            state.fetch_state@,
            state.filter_state@,
            world,
            state.dense(),
            flatten(cut, n),
            flatten(cut, n).len() as int,
            last_change_tick,
            change_tick,
        ),
    decreases n,
{
    if n > 0 {
        lemma_gathered(state, world, cut, n - 1, last_change_tick, change_tick);
        lemma_filtered_concat(
            state.fetch_state@,
            state.filter_state@,
            world,
            state.dense(),
            flatten(cut, n - 1),
            batch_rows(cut[n - 1]),
            cut[n - 1].len as int,
            last_change_tick,
            change_tick,
        );
    }
}

/// A parallel run yields what a serial walk yields: the items of the tasks, task
/// after task, are the items of the query, each once and in order.
pub proof fn law_parallel_run_yields_the_walk(
    state: OtherQueryState,
    world: World,
    batch_size: usize,
    last_change_tick: u32,
    change_tick: u32,
)
    requires
        batch_size > 0,
        state.fits(world),
    ensures
        gathered(
            state,
            world,
            state.batches(world, batch_size),
            state.batches(world, batch_size).len() as int,
            last_change_tick,
            change_tick,
        ) == state.items(world, last_change_tick, change_tick),
{
    let cut = state.batches(world, batch_size);
    law_batches_partition_walk(state, world, batch_size);
    lemma_gathered(state, world, cut, cut.len() as int, last_change_tick, change_tick);
}

} // verus!
