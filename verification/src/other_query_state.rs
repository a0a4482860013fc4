//! The state of a query: the resolved members, the claims, and the cache of the
//! archetypes and tables that match, which grows as the world gets new archetypes.
use crate::access::{
    access_reads, access_writes, filtered_reads, filtered_without, filtered_writes, lists_in_order,
    reported_conflicts, Access, FilteredAccess,
};
use crate::batch::{batch_rows, Batch};
use crate::items::{
    accepted, archetype_lens, filtered, item_of, table_lens, visited, ItemView, QueryEntityError,
    QueryItem,
};
use crate::matching::{
    claims_of, claims_with, lemma_mirrors_push, lemma_push_new_contains, matched_with, mirrors,
    scan, scan_claims, shape_dense, shape_matches, Matched,
};
use crate::other::{FilterState, OtherFetch, OtherFilter, OtherState};
use crate::other_query::OtherQuery;
use crate::other_query_iter::OtherQueryIter;
use crate::other_world::{lemma_other_position, other_position, PrimaryWorld};
use crate::other_world_query::{lemma_claimable, ConfigurationError, Fetched, Otherable};
use crate::resolve::{
    clashes, inner_after, lemma_resolved_storage, lemma_served_position, lemma_served_step,
    outer_after, requests, resolved_filters, resolved_states, served, shape_claims,
};
use crate::rows::{rows, Row};
use crate::system::{assert_component_access_compatibility, plain_claims, SystemState};
use crate::world::{registered, Archetype, Entity, TypeKey, World};
use fixedbitset::FixedBitSet;
use vstd::prelude::*;

verus! {

/// The state of a query over one nested world.
pub struct OtherQueryState {
    /// The index of the nested world that the query runs on.
    pub world_index: usize,
    /// The identity of that world. The state is of use with this world alone.
    pub world_id: u64,
    /// How many archetypes of the world were looked at so far.
    pub archetype_generation: usize,
    pub matched_tables: FixedBitSet,
    pub matched_archetypes: FixedBitSet,
    pub archetype_component_access: Access,
    pub component_access: FilteredAccess,
    /// The matched tables once more, in the order in which they were first met.
    pub matched_table_ids: Vec<usize>,
    /// The matched archetypes once more, in the order in which they were met.
    pub matched_archetype_ids: Vec<usize>,
    pub fetch_state: Vec<OtherState>,
    pub filter_state: Vec<FilterState>,
}

/// `state` is what resolving `query` and `filter` against the nested world of index
/// `world` gives, and `after` is what it makes of `before`.
///
/// Without a nested world of that index nothing happens and the error names the
/// index. Otherwise the types are registered, and the error is that of the first
/// member that asks for exclusive access to a component which a member before it
/// accesses already; without such a member the state holds the resolved members, their
/// claims, and the matches among all archetypes of the nested world.
pub open spec fn is_new(
    state: Result<OtherQueryState, ConfigurationError>,
    before: PrimaryWorld,
    after: PrimaryWorld,
    world: usize,
    query: Seq<Otherable>,
    filter: Seq<OtherFilter>,
) -> bool {
    &&& !before.has_other(world) ==> {
        &&& after == before
        &&& state matches Err(ConfigurationError::MissingResource { world: missing })
        &&& missing == world
    }
    &&& before.has_other(world) ==> {
        let asked = requests(query, filter);
        let outer = before.world.components.infos@;
        let inner = before.other(world).components.infos@;
        let states = resolved_states(query, filter, outer, inner, world);
        let filters = resolved_filters(query, filter, outer, inner, world);
        let nested = before.other(world);
        &&& served(before, after, world, asked, asked.len() as int)
        &&& match state {
            Ok(state) => {
                &&& forall|k: int| 0 <= k < states.len() ==> !clashes(states, k)
                &&& state.wf()
                &&& state.fits(after.other(world))
                &&& state.world_index == world
                &&& state.world_id == nested.id
                &&& state.fetch_state@ == states
                &&& state.filter_state@ == filters
                &&& filtered_reads(state.component_access) == shape_claims(
                    states,
                    states.len() as int,
                    false,
                )
                &&& filtered_writes(state.component_access) == shape_claims(
                    states,
                    states.len() as int,
                    true,
                )
                &&& state.archetype_generation == nested.archetypes.len()
                &&& state.matched() == scan(
                    Matched { archetype_ids: Seq::empty(), table_ids: Seq::empty() },
                    states,
                    filters,
                    nested.archetypes@,
                    0,
                    nested.archetypes.len() as int,
                )
                &&& access_reads(state.archetype_component_access) == scan_claims(
                    Set::empty(),
                    states,
                    filters,
                    nested.archetypes@,
                    0,
                    nested.archetypes.len() as int,
                    false,
                )
                &&& access_writes(state.archetype_component_access) == scan_claims(
                    Set::empty(),
                    states,
                    filters,
                    nested.archetypes@,
                    0,
                    nested.archetypes.len() as int,
                    true,
                )
            },
            Err(error) => exists|k: int|
                {
                    &&& 0 <= k < states.len()
                    &&& #[trigger] clashes(states, k)
                    &&& forall|j: int| 0 <= j < k ==> !clashes(states, j)
                    &&& error matches ConfigurationError::MutableAccessNotUnique {
                        component_id,
                    }
                    &&& states[k].claimed() == Some(component_id)
                },
        }
    }
}

/// `state` is what becomes of the freshly made `made` when it is set up as a
/// parameter of a system, and `after` is what that makes of the claims `before` of the
/// system. `world_id` is the id of the nested world as a resource.
///
/// An error of making the state is passed on. A state whose claims collide with those
/// of a parameter that the system has already is refused, and so is, after that, a
/// state whose nested world the system reads or writes as a resource. A refusal leaves
/// the claims of the system as they were. A state that is admitted is entered among
/// them.
pub open spec fn is_claimed(
    made: Result<OtherQueryState, ConfigurationError>,
    state: Result<OtherQueryState, ConfigurationError>,
    before: SystemState,
    after: SystemState,
    world_id: Option<usize>,
) -> bool {
    match made {
        Err(error) => after == before && state == made,
        Ok(made) => {
            let conflicts = reported_conflicts(before.component_access_set, made.component_access);
            if conflicts != Set::<int>::empty() {
                &&& after == before
                &&& state matches Err(ConfigurationError::ConflictingAccess { components })
                &&& lists_in_order(components@, conflicts)
            } else if world_id.is_some() && before.reads().contains(world_id.unwrap() as int) {
                &&& after == before
                &&& state matches Err(ConfigurationError::OtherWorldBorrowed { world_id: borrowed })
                &&& borrowed == world_id.unwrap()
            } else {
                &&& state == Ok::<OtherQueryState, ConfigurationError>(made)
                &&& after.added(before, made.component_access, made.archetype_component_access)
            }
        },
    }
}

impl OtherQueryState {
    /// What the state has matched.
    pub open spec fn matched(&self) -> Matched {
        Matched { archetype_ids: self.matched_archetype_ids@, table_ids: self.matched_table_ids@ }
    }

    /// The bit sets and the lists agree, and the claims are plain.
    pub open spec fn wf(&self) -> bool {
        &&& mirrors(self.matched_archetypes, self.matched_archetype_ids@)
        &&& mirrors(self.matched_tables, self.matched_table_ids@)
        &&& plain_claims(self.component_access)
    }

    /// Everything but the cache of matches and the claims on archetypes is as in
    /// `before`.
    pub open spec fn same_query(&self, before: &OtherQueryState) -> bool {
        &&& self.world_index == before.world_index
        &&& self.world_id == before.world_id
        &&& self.component_access == before.component_access
        &&& self.fetch_state == before.fetch_state
        &&& self.filter_state == before.filter_state
    }

    /// Whether every member of the shape and of the filter matches `archetype`.
    pub fn matches_archetype(&self, archetype: &Archetype) -> (matches: bool)
        ensures
            matches == shape_matches(self.fetch_state@, self.filter_state@, *archetype),
    {
        let mut k: usize = 0;
        while k < self.fetch_state.len()
            invariant
                k <= self.fetch_state.len(),
                forall|j: int| 0 <= j < k ==> (#[trigger] self.fetch_state[j]).matches(*archetype),
            decreases self.fetch_state.len() - k,
        {
            if !self.fetch_state[k].matches_archetype(archetype) {
                return false;
            }
            k += 1;
        }
        let mut k: usize = 0;
        while k < self.filter_state.len()
            invariant
                k <= self.filter_state.len(),
                forall|j: int| 0 <= j < self.fetch_state.len() ==> (#[trigger] self.fetch_state[j]).matches(*archetype),
                forall|j: int| 0 <= j < k ==> (#[trigger] self.filter_state[j]).matches(*archetype),
            decreases self.filter_state.len() - k,
        {
            if !self.filter_state[k].matches_archetype(archetype) {
                return false;
            }
            k += 1;
        }
        true
    }

    /// Whether shape and filter can both be read from the rows of tables.
    pub fn is_dense(&self) -> (dense: bool)
        ensures
            dense == shape_dense(self.fetch_state@, self.filter_state@),
    {
        let mut k: usize = 0;
        while k < self.fetch_state.len()
            invariant
                k <= self.fetch_state.len(),
                forall|j: int| 0 <= j < k ==> (#[trigger] self.fetch_state[j]).dense(),
            decreases self.fetch_state.len() - k,
        {
            if !self.fetch_state[k].is_dense() {
                return false;
            }
            k += 1;
        }
        let mut k: usize = 0;
        while k < self.filter_state.len()
            invariant
                k <= self.filter_state.len(),
                forall|j: int| 0 <= j < self.fetch_state.len() ==> (#[trigger] self.fetch_state[j]).dense(),
                forall|j: int| 0 <= j < k ==> (#[trigger] self.filter_state[j]).dense(),
            decreases self.filter_state.len() - k,
        {
            if !self.filter_state[k].is_dense() {
                return false;
            }
            k += 1;
        }
        true
    }

    /// Resolves a shape and a filter against the nested world of index `world`, records
    /// the claims of the shape, and looks at every archetype that the nested world has.
    ///
    /// Without a nested world of that index nothing happens and the error names the
    /// index. Otherwise the types are registered; the error is then that of the first
    /// member that asks for exclusive access to a component which a member before it
    /// accesses already.
    pub fn new(
        primary: &mut PrimaryWorld,
        world: usize,
        query: &Vec<Otherable>,
        filter: &Vec<OtherFilter>,
    ) -> (state: Result<OtherQueryState, ConfigurationError>)
        requires
            old(primary).wf(),
        ensures
            final(primary).wf(),
            is_new(state, *old(primary), *final(primary), world, query@, filter@),
    {
        let at = match primary.find_other(world) {
            Some(at) => at,
            None => {
                return Err(ConfigurationError::MissingResource { world });
            },
        };
        let ghost asked = requests(query@, filter@);
        let ghost outer = old(primary).world.components.infos@;
        let ghost inner = old(primary).other(world).components.infos@;
        proof {
            lemma_other_position(old(primary).others@, world);
        }
        let mut fetch_state: Vec<OtherState> = Vec::new();
        let mut k: usize = 0;
        while k < query.len()
            invariant
                k <= query.len(),
                old(primary).has_other(world),
                at == other_position(old(primary).others@, world),
                asked == requests(query@, filter@),
                outer == old(primary).world.components.infos@,
                inner == old(primary).other(world).components.infos@,
                primary.wf(),
                served(*old(primary), *primary, world, asked, k as int),
                fetch_state.len() == k,
                forall|j: int|
                    0 <= j < k ==> #[trigger] fetch_state[j] == OtherState::resolved_in(
                        query[j],
                        outer_after(outer, asked, world, j),
                        inner_after(inner, asked, j),
                        world,
                    ),
                forall|j: int|
                    0 <= j < k ==> match (#[trigger] fetch_state[j]).claimed() {
                        Some(id) => id < primary.world.components.infos.len(),
                        None => true,
                    },
            decreases query.len() - k,
        {
            let ghost middle = *primary;
            proof {
                lemma_served_position(*old(primary), middle, world, asked, k as int);
            }
            match OtherState::init(primary, query[k], world) {
                Ok(state) => {
                    proof {
                        lemma_served_step(*old(primary), middle, *primary, world, asked, k as int);
                    }
                    fetch_state.push(state);
                },
                Err(error) => {
                    return Err(error);
                },
            }
            k += 1;
        }
        let mut filter_state: Vec<FilterState> = Vec::new();
        let mut k: usize = 0;
        while k < filter.len()
            invariant
                k <= filter.len(),
                old(primary).has_other(world),
                at == other_position(old(primary).others@, world),
                asked == requests(query@, filter@),
                outer == old(primary).world.components.infos@,
                inner == old(primary).other(world).components.infos@,
                primary.wf(),
                served(*old(primary), *primary, world, asked, query.len() + k),
                filter_state.len() == k,
                forall|j: int|
                    0 <= j < k ==> #[trigger] filter_state[j] == FilterState::resolved_in(
                        filter[j],
                        outer_after(outer, asked, world, query.len() + j),
                        inner_after(inner, asked, query.len() + j),
                        world,
                    ),
                forall|j: int|
                    0 <= j < fetch_state.len() ==> match (#[trigger] fetch_state[j]).claimed() {
                        Some(id) => id < primary.world.components.infos.len(),
                        None => true,
                    },
            decreases filter.len() - k,
        {
            let ghost middle = *primary;
            proof {
                lemma_served_position(*old(primary), middle, world, asked, query.len() + k);
            }
            match FilterState::init(primary, filter[k], world) {
                Ok(state) => {
                    proof {
                        lemma_served_step(
                            *old(primary),
                            middle,
                            *primary,
                            world,
                            asked,
                            query.len() + k,
                        );
                    }
                    filter_state.push(state);
                },
                Err(error) => {
                    return Err(error);
                },
            }
            k += 1;
        }
        proof {
            assert(fetch_state@ =~= resolved_states(query@, filter@, outer, inner, world));
            assert(filter_state@ =~= resolved_filters(query@, filter@, outer, inner, world));
            lemma_served_position(*old(primary), *primary, world, asked, asked.len() as int);
        }
        let mut component_access = FilteredAccess::new();
        let mut k: usize = 0;
        while k < fetch_state.len()
            invariant
                k <= fetch_state.len(),
                forall|j: int|
                    0 <= j < fetch_state.len() ==> match (#[trigger] fetch_state[j]).claimed() {
                        Some(id) => id < usize::MAX,
                        None => true,
                    },
                primary.wf(),
                old(primary).has_other(world),
                asked == requests(query@, filter@),
                served(*old(primary), *primary, world, asked, asked.len() as int),
                fetch_state@ == resolved_states(
                    query@,
                    filter@,
                    old(primary).world.components.infos@,
                    old(primary).other(world).components.infos@,
                    world,
                ),
                filter_state@ == resolved_filters(
                    query@,
                    filter@,
                    old(primary).world.components.infos@,
                    old(primary).other(world).components.infos@,
                    world,
                ),
                at == other_position(old(primary).others@, world),
                at == other_position(primary.others@, world),
                filtered_without(component_access) == Set::<int>::empty(),
                filtered_reads(component_access) == shape_claims(fetch_state@, k as int, false),
                filtered_writes(component_access) == shape_claims(fetch_state@, k as int, true),
                filtered_writes(component_access).subset_of(filtered_reads(component_access)),
                forall|j: int| 0 <= j < k ==> !clashes(fetch_state@, j),
            decreases fetch_state.len() - k,
        {
            let state = fetch_state[k];
            match state.update_component_access(&mut component_access) {
                Ok(_) => {},
                Err(error) => {
                    proof {
                        assert(clashes(fetch_state@, k as int));
                    }
                    return Err(error);
                },
            }
            k += 1;
        }
        let nested = &primary.others[at].world;
        let mut state = OtherQueryState {
            world_index: world,
            world_id: nested.id,
            archetype_generation: 0,
            matched_tables: FixedBitSet::new(),
            matched_archetypes: FixedBitSet::new(),
            archetype_component_access: Access::new(),
            component_access,
            matched_table_ids: Vec::new(),
            matched_archetype_ids: Vec::new(),
            fetch_state,
            filter_state,
        };
        proof {
            assert(primary.other_wf(at as int));
            assert(state.matched_archetype_ids@ =~= Seq::<usize>::empty());
            assert(state.matched_table_ids@ =~= Seq::<usize>::empty());
            assert(nested.components.infos.len() <= usize::MAX);
            lemma_resolved_storage(
                query@,
                filter@,
                old(primary).world.components.infos@,
                old(primary).other(world).components.infos@,
                world,
                nested.components.infos@,
            );
            assert(state.fits(*nested));
        }
        state.validate_world_and_update_archetypes(nested);
        Ok(state)
    }

    /// Makes the state of a query, as `new` does, and sets it up as a parameter of the
    /// system whose claims are `system_state`.
    pub fn init(
        primary: &mut PrimaryWorld,
        system_state: &mut SystemState,
        world: usize,
        query: &Vec<Otherable>,
        filter: &Vec<OtherFilter>,
    ) -> (state: Result<OtherQueryState, ConfigurationError>)
        requires
            old(primary).wf(),
            old(system_state).wf(),
        ensures
            final(primary).wf(),
            final(system_state).wf(),
            exists|made: Result<OtherQueryState, ConfigurationError>|
                {
                    &&& #[trigger] is_new(
                        made,
                        *old(primary),
                        *final(primary),
                        world,
                        query@,
                        filter@,
                    )
                    &&& is_claimed(
                        made,
                        state,
                        *old(system_state),
                        *final(system_state),
                        final(primary).world.components.id_of(TypeKey::OtherWorld(world)),
                    )
                },
    {
        let made = OtherQueryState::new(primary, world, query, filter);
        let ghost witness = made;
        let state = match made {
            Ok(state) => state,
            Err(error) => {
                let failed = Err(error);
                proof {
                    assert(failed == witness);
                }
                return failed;
            },
        };
        match assert_component_access_compatibility(
            &system_state.component_access_set,
            &state.component_access,
        ) {
            Ok(_) => {},
            Err(error) => {
                proof {
                    assert(is_new(witness, *old(primary), *primary, world, query@, filter@));
                }
                return Err(error);
            },
        }
        if let Some(world_id) = primary.world.components.get_id(TypeKey::OtherWorld(world)) {
            if system_state.has_read(world_id) {
                proof {
                    assert(is_new(witness, *old(primary), *primary, world, query@, filter@));
                }
                return Err(ConfigurationError::OtherWorldBorrowed { world_id });
            }
        }
        system_state.add_query(&state.component_access, &state.archetype_component_access);
        proof {
            assert(is_new(witness, *old(primary), *primary, world, query@, filter@));
        }
        Ok(state)
    }

    /// Looks at one archetype. Where it matches, the claims of the shape on its
    /// components are recorded, and the archetype and its table are entered among the
    /// matches unless they are there already.
    pub fn new_archetype(&mut self, archetype: &Archetype)
        requires
            old(self).wf(),
            archetype.claimable(),
            archetype.id < usize::MAX,
            archetype.table_id < usize::MAX,
        ensures
            final(self).wf(),
            final(self).same_query(old(self)),
            final(self).archetype_generation == old(self).archetype_generation,
            final(self).matched() == matched_with(
                old(self).matched(),
                old(self).fetch_state@,
                old(self).filter_state@,
                *archetype,
            ),
            access_reads(final(self).archetype_component_access) == claims_with(
                access_reads(old(self).archetype_component_access),
                old(self).fetch_state@,
                old(self).filter_state@,
                *archetype,
                false,
            ),
            access_writes(final(self).archetype_component_access) == claims_with(
                access_writes(old(self).archetype_component_access),
                old(self).fetch_state@,
                old(self).filter_state@,
                *archetype,
                true,
            ),
    {
        if self.matches_archetype(archetype) {
            let mut k: usize = 0;
            while k < self.fetch_state.len()
                invariant
                    k <= self.fetch_state.len(),
                    archetype.claimable(),
                    self.wf(),
                    self.same_query(old(self)),
                    self.archetype_generation == old(self).archetype_generation,
                    self.matched() == old(self).matched(),
                    self.matched_archetypes == old(self).matched_archetypes,
                    self.matched_tables == old(self).matched_tables,
                    access_reads(self.archetype_component_access) == access_reads(
                        old(self).archetype_component_access,
                    ).union(claims_of(self.fetch_state@, *archetype, k as int, false)),
                    access_writes(self.archetype_component_access) == access_writes(
                        old(self).archetype_component_access,
                    ).union(claims_of(self.fetch_state@, *archetype, k as int, true)),
                decreases self.fetch_state.len() - k,
            {
                let state = self.fetch_state[k];
                state.update_archetype_component_access(
                    archetype,
                    &mut self.archetype_component_access,
                );
                k += 1;
            }
            let archetype_index = archetype.id;
            if !self.matched_archetypes.contains(archetype_index) {
                self.matched_archetypes.grow(archetype_index + 1);
                self.matched_archetypes.set(archetype_index, true);
                self.matched_archetype_ids.push(archetype_index);
                proof {
                    lemma_mirrors_push(
                        old(self).matched_archetypes,
                        self.matched_archetypes,
                        old(self).matched_archetype_ids@,
                        archetype_index,
                    );
                }
            }
            let table_index = archetype.table_id;
            if !self.matched_tables.contains(table_index) {
                self.matched_tables.grow(table_index + 1);
                self.matched_tables.set(table_index, true);
                self.matched_table_ids.push(table_index);
                proof {
                    lemma_mirrors_push(
                        old(self).matched_tables,
                        self.matched_tables,
                        old(self).matched_table_ids@,
                        table_index,
                    );
                }
            }
        }
    }

    /// Looks at one archetype, as `new_archetype` does, and passes the claims of the
    /// query on components of single archetypes on to the system.
    pub fn new_system_archetype(&mut self, archetype: &Archetype, system_state: &mut SystemState)
        requires
            old(self).wf(),
            archetype.claimable(),
            archetype.id < usize::MAX,
            archetype.table_id < usize::MAX,
        ensures
            final(self).wf(),
            final(self).same_query(old(self)),
            final(self).archetype_generation == old(self).archetype_generation,
            final(self).matched() == matched_with(
                old(self).matched(),
                old(self).fetch_state@,
                old(self).filter_state@,
                *archetype,
            ),
            access_reads(final(self).archetype_component_access) == claims_with(
                access_reads(old(self).archetype_component_access),
                old(self).fetch_state@,
                old(self).filter_state@,
                *archetype,
                false,
            ),
            access_writes(final(self).archetype_component_access) == claims_with(
                access_writes(old(self).archetype_component_access),
                old(self).fetch_state@,
                old(self).filter_state@,
                *archetype,
                true,
            ),
            access_reads(final(system_state).archetype_component_access) == access_reads(
                old(system_state).archetype_component_access,
            ).union(access_reads(final(self).archetype_component_access)),
            access_writes(final(system_state).archetype_component_access) == access_writes(
                old(system_state).archetype_component_access,
            ).union(access_writes(final(self).archetype_component_access)),
            final(system_state).component_access_set == old(system_state).component_access_set,
            final(system_state).last_change_tick == old(system_state).last_change_tick,
    {
        self.new_archetype(archetype);
        system_state.archetype_component_access.extend(&self.archetype_component_access);
    }

    /// Brings the cache up to date with `world`, which must be the world that the
    /// state was made for. Only the archetypes that the world got since the last call
    /// are looked at; their number is returned.
    pub fn validate_world_and_update_archetypes(&mut self, world: &World) -> (visited: usize)
        requires
            old(self).wf(),
            world.wf(),
            world.id == old(self).world_id,
        ensures
            final(self).updated(old(self), *world),
            visited == if old(self).archetype_generation <= world.archetypes.len() {
                world.archetypes.len() - old(self).archetype_generation
            } else {
                0
            },
    {
        let old_generation = self.archetype_generation;
        let len = world.archetypes.len();
        if old_generation == len {
            return 0;
        }
        self.archetype_generation = len;
        proof {
            if old(self).fits(*world) {
                assert forall|k: int| 0 <= k < self.matched_table_ids.len() implies self.table_is_matched(
                    *world,
                    #[trigger] self.matched_table_ids[k],
                ) by {
                    assert(old(self).table_is_matched(*world, old(self).matched_table_ids[k]));
                    let j = choose|j: int|
                        0 <= j < old(self).matched_archetype_ids.len() && world.archetypes[(
                        #[trigger] old(self).matched_archetype_ids[j]) as int].table_id
                            == old(self).matched_table_ids[k];
                    assert(self.matched_archetype_ids[j] == old(self).matched_archetype_ids[j]);
                }
                assert(self.fits(*world));
            }
        }
        let mut visited: usize = 0;
        let mut archetype_index = old_generation;
        while archetype_index < len
            invariant
                len == world.archetypes.len(),
                world.wf(),
                old_generation == old(self).archetype_generation,
                old_generation <= archetype_index,
                old_generation < len ==> archetype_index <= len,
                old_generation > len ==> archetype_index == old_generation,
                visited == archetype_index - old_generation,
                self.wf(),
                self.same_query(old(self)),
                old(self).fits(*world) ==> self.fits(*world),
                self.archetype_generation == len,
                self.matched() == scan(
                    old(self).matched(),
                    old(self).fetch_state@,
                    old(self).filter_state@,
                    world.archetypes@,
                    old_generation as int,
                    archetype_index as int,
                ),
                access_reads(self.archetype_component_access) == scan_claims(
                    access_reads(old(self).archetype_component_access),
                    old(self).fetch_state@,
                    old(self).filter_state@,
                    world.archetypes@,
                    old_generation as int,
                    archetype_index as int,
                    false,
                ),
                access_writes(self.archetype_component_access) == scan_claims(
                    access_writes(old(self).archetype_component_access),
                    old(self).fetch_state@,
                    old(self).filter_state@,
                    world.archetypes@,
                    old_generation as int,
                    archetype_index as int,
                    true,
                ),
            decreases len - archetype_index,
        {
            proof {
                lemma_claimable(*world, archetype_index as int);
                assert(world.archetype_wf(archetype_index as int));
            }
            let ghost before = *self;
            self.new_archetype(&world.archetypes[archetype_index]);
            proof {
                if old(self).fits(*world) {
                    self.lemma_fits_step(before, *world, archetype_index as int);
                }
            }
            archetype_index += 1;
            visited += 1;
        }
        visited
    }

    /// `self` is `before` brought up to date with `world`: the archetypes that
    /// `before` had not looked at were looked at, in rising order, and nothing else
    /// differs. Where there was none, the state is as it was.
    pub open spec fn updated(&self, before: &OtherQueryState, world: World) -> bool {
        &&& self.wf()
        &&& self.same_query(before)
        &&& self.archetype_generation == world.archetypes.len()
        &&& self.matched() == scan(
            before.matched(),
            before.fetch_state@,
            before.filter_state@,
            world.archetypes@,
            before.archetype_generation as int,
            world.archetypes.len() as int,
        )
        &&& access_reads(self.archetype_component_access) == scan_claims(
            access_reads(before.archetype_component_access),
            before.fetch_state@,
            before.filter_state@,
            world.archetypes@,
            before.archetype_generation as int,
            world.archetypes.len() as int,
            false,
        )
        &&& access_writes(self.archetype_component_access) == scan_claims(
            access_writes(before.archetype_component_access),
            before.fetch_state@,
            before.filter_state@,
            world.archetypes@,
            before.archetype_generation as int,
            world.archetypes.len() as int,
            true,
        )
        &&& before.archetype_generation == world.archetypes.len() ==> *self == *before
        &&& before.fits(world) ==> self.fits(world)
    }

    /// Some matched archetype has the table `table_id`.
    pub open spec fn table_is_matched(&self, world: World, table_id: usize) -> bool {
        exists|j: int|
            0 <= j < self.matched_archetype_ids.len() && world.archetypes[(
            #[trigger] self.matched_archetype_ids[j]) as int].table_id == table_id
    }

    /// The state records for every component the storage that the registry of `world`
    /// has for it.
    pub open spec fn knows_storage(&self, world: World) -> bool {
        &&& forall|k: int|
            0 <= k < self.fetch_state.len() ==> (#[trigger] self.fetch_state[k]).storage_known(
                world.components.infos@,
            )
        &&& forall|k: int|
            0 <= k < self.filter_state.len() ==> (#[trigger] self.filter_state[k]).storage_known(
                world.components.infos@,
            )
    }

    /// The state can be used with `world`: it was made for it; every match that it
    /// holds is an archetype of the world that matches, or the table of one; and it
    /// knows how the world stores each component.
    pub open spec fn fits(&self, world: World) -> bool {
        &&& world.id == self.world_id
        &&& forall|k: int|
            0 <= k < self.matched_table_ids.len() ==> {
                &&& (#[trigger] self.matched_table_ids[k]) < world.tables.len()
                &&& self.table_is_matched(world, self.matched_table_ids[k])
            }
        &&& forall|k: int|
            0 <= k < self.matched_archetype_ids.len() ==> {
                &&& (#[trigger] self.matched_archetype_ids[k]) < world.archetypes.len()
                &&& shape_matches(
                    self.fetch_state@,
                    self.filter_state@,
                    world.archetypes[self.matched_archetype_ids[k] as int],
                )
            }
        &&& self.knows_storage(world)
    }

    /// The source `source` is among the matches that the walk goes through.
    pub open spec fn walks(&self, dense: bool, source: usize) -> bool {
        if dense {
            self.dense() && self.matched_table_ids@.contains(source)
        } else {
            self.matched_archetype_ids@.contains(source)
        }
    }

    /// The cursors `fetches` are those of the members, for a run over `world` with
    /// these ticks, and stand on the source `source`.
    pub open spec fn placed(
        &self,
        fetches: Seq<OtherFetch>,
        world: World,
        dense: bool,
        source: usize,
        last_change_tick: u32,
        change_tick: u32,
    ) -> bool {
        &&& fetches.len() == self.fetch_state.len()
        &&& forall|k: int|
            0 <= k < fetches.len() ==> {
                &&& (#[trigger] fetches[k]).is_for(
                    self.fetch_state[k],
                    world,
                    last_change_tick,
                    change_tick,
                )
                &&& dense ==> fetches[k].at_table(source)
                &&& !dense ==> fetches[k].at_archetype(world.archetypes[source as int])
            }
    }

    /// Every entity of a source of the walk holds the components that the members of
    /// the shape need. For a walk over tables this rests on tables holding exactly the
    /// components that their archetypes keep in them.
    pub proof fn lemma_row_holds(&self, world: World, dense: bool, source: usize, index: int)
        requires
            world.wf(),
            self.fits(world),
            self.walks(dense, source),
            dense ==> 0 <= index < world.tables[source as int].entities.len(),
            !dense ==> 0 <= index < world.archetypes[source as int].entities.len(),
        ensures
            forall|k: int|
                0 <= k < self.fetch_state.len() ==> match (
                #[trigger] self.fetch_state[k]).required() {
                    Some(component_id) => if dense {
                        world.ticks_of(
                            world.tables[source as int].entities[index],
                            component_id,
                        ).is_some()
                    } else {
                        world.archetypes[source as int].has(component_id)
                    },
                    None => true,
                },
    {
        if dense {
            let at = choose|at: int|
                0 <= at < self.matched_table_ids.len() && self.matched_table_ids[at] == source;
            assert(self.table_is_matched(world, self.matched_table_ids[at]));
            let j = choose|j: int|
                0 <= j < self.matched_archetype_ids.len() && world.archetypes[(
                #[trigger] self.matched_archetype_ids[j]) as int].table_id == source;
            let first = self.matched_archetype_ids[j] as int;
            assert(world.table_row_wf(source as int, index));
            let entity = world.tables[source as int].entities[index];
            let location = world.location(entity).unwrap();
            let a = location.archetype_id as int;
            assert(world.archetype_wf(a));
            assert forall|k: int| 0 <= k < self.fetch_state.len() implies match (
            #[trigger] self.fetch_state[k]).required() {
                Some(component_id) => world.ticks_of(entity, component_id).is_some(),
                None => true,
            } by {
                assert(self.fetch_state[k].matches(world.archetypes[first]));
                assert(self.fetch_state[k].dense());
                assert(self.fetch_state[k].storage_known(world.components.infos@));
                match self.fetch_state[k].required() {
                    Some(component_id) => {
                        crate::world::lemma_shared_table(world, first, a, component_id);
                    },
                    None => {},
                }
            }
        } else {
            let at = choose|at: int|
                0 <= at < self.matched_archetype_ids.len() && self.matched_archetype_ids[at]
                    == source;
            assert forall|k: int| 0 <= k < self.fetch_state.len() implies match (
            #[trigger] self.fetch_state[k]).required() {
                Some(component_id) => world.archetypes[source as int].has(component_id),
                None => true,
            } by {
                assert(self.fetch_state[k].matches(world.archetypes[source as int]));
            }
        }
    }

    /// A state that fits a world still fits it once one more archetype of the world
    /// was looked at.
    pub proof fn lemma_fits_step(&self, before: OtherQueryState, world: World, a: int)
        requires
            world.wf(),
            before.fits(world),
            0 <= a < world.archetypes.len(),
            self.same_query(&before),
            self.matched() == matched_with(
                before.matched(),
                before.fetch_state@,
                before.filter_state@,
                world.archetypes[a],
            ),
        ensures
            self.fits(world),
    {
        assert(world.archetype_wf(a));
        let archetype = world.archetypes[a];
        let old_ids = before.matched_archetype_ids@;
        let new_ids = self.matched_archetype_ids@;
        assert(old_ids.is_prefix_of(new_ids));
        assert forall|k: int| 0 <= k < new_ids.len() implies {
            &&& (#[trigger] self.matched_archetype_ids[k]) < world.archetypes.len()
            &&& shape_matches(
                self.fetch_state@,
                self.filter_state@,
                world.archetypes[self.matched_archetype_ids[k] as int],
            )
        } by {
            if k < old_ids.len() {
                assert(self.matched_archetype_ids[k] == before.matched_archetype_ids[k]);
            }
        }
        assert forall|k: int| 0 <= k < self.matched_table_ids.len() implies {
            &&& (#[trigger] self.matched_table_ids[k]) < world.tables.len()
            &&& self.table_is_matched(world, self.matched_table_ids[k])
        } by {
            if k < before.matched_table_ids.len() {
                assert(self.matched_table_ids[k] == before.matched_table_ids[k]);
                assert(before.table_is_matched(world, before.matched_table_ids[k]));
                let j = choose|j: int|
                    0 <= j < before.matched_archetype_ids.len() && world.archetypes[(
                    #[trigger] before.matched_archetype_ids[j]) as int].table_id
                        == before.matched_table_ids[k];
                assert(self.matched_archetype_ids[j] == before.matched_archetype_ids[j]);
            } else {
                assert(self.matched_table_ids[k] == archetype.table_id);
                lemma_push_new_contains(old_ids, archetype.id);
                let j = choose|j: int| 0 <= j < new_ids.len() && new_ids[j] == archetype.id;
                assert(world.archetypes[self.matched_archetype_ids[j] as int].table_id
                    == self.matched_table_ids[k]);
            }
        }
    }


    /// Whether the state can be used with `world`.
    pub fn is_valid_for(&self, world: &World) -> (valid: bool)
        ensures
            valid == self.fits(*world),
    {
        if world.id != self.world_id {
            return false;
        }
        let mut k: usize = 0;
        while k < self.matched_archetype_ids.len()
            invariant
                k <= self.matched_archetype_ids.len(),
                forall|j: int|
                    0 <= j < k ==> {
                        &&& (#[trigger] self.matched_archetype_ids[j]) < world.archetypes.len()
                        &&& shape_matches(
                            self.fetch_state@,
                            self.filter_state@,
                            world.archetypes[self.matched_archetype_ids[j] as int],
                        )
                    },
            decreases self.matched_archetype_ids.len() - k,
        {
            let id = self.matched_archetype_ids[k];
            if id >= world.archetypes.len() {
                return false;
            }
            if !self.matches_archetype(&world.archetypes[id]) {
                return false;
            }
            k += 1;
        }
        let mut k: usize = 0;
        while k < self.matched_table_ids.len()
            invariant
                k <= self.matched_table_ids.len(),
                forall|j: int|
                    0 <= j < self.matched_archetype_ids.len() ==> (
                    #[trigger] self.matched_archetype_ids[j]) < world.archetypes.len(),
                forall|j: int|
                    0 <= j < k ==> {
                        &&& (#[trigger] self.matched_table_ids[j]) < world.tables.len()
                        &&& self.table_is_matched(*world, self.matched_table_ids[j])
                    },
            decreases self.matched_table_ids.len() - k,
        {
            let table_id = self.matched_table_ids[k];
            if table_id >= world.tables.len() {
                return false;
            }
            let mut j: usize = 0;
            while j < self.matched_archetype_ids.len()
                && world.archetypes[self.matched_archetype_ids[j]].table_id != table_id
                invariant
                    j <= self.matched_archetype_ids.len(),
                    forall|i: int|
                        0 <= i < self.matched_archetype_ids.len() ==> (
                        #[trigger] self.matched_archetype_ids[i]) < world.archetypes.len(),
                    forall|i: int|
                        0 <= i < j ==> world.archetypes[(
                        #[trigger] self.matched_archetype_ids[i]) as int].table_id != table_id,
                decreases self.matched_archetype_ids.len() - j,
            {
                j += 1;
            }
            if j == self.matched_archetype_ids.len() {
                return false;
            }
            k += 1;
        }
        let mut k: usize = 0;
        while k < self.fetch_state.len()
            invariant
                k <= self.fetch_state.len(),
                forall|j: int|
                    0 <= j < k ==> (#[trigger] self.fetch_state[j]).storage_known(
                        world.components.infos@,
                    ),
            decreases self.fetch_state.len() - k,
        {
            if !self.fetch_state[k].knows_storage(&world.components) {
                return false;
            }
            k += 1;
        }
        let mut k: usize = 0;
        while k < self.filter_state.len()
            invariant
                k <= self.filter_state.len(),
                forall|j: int|
                    0 <= j < self.fetch_state.len() ==> (
                    #[trigger] self.fetch_state[j]).storage_known(world.components.infos@),
                forall|j: int|
                    0 <= j < k ==> (#[trigger] self.filter_state[j]).storage_known(
                        world.components.infos@,
                    ),
            decreases self.filter_state.len() - k,
        {
            if !self.filter_state[k].knows_storage(&world.components) {
                return false;
            }
            k += 1;
        }
        true
    }


    /// The query is read from the rows of tables.
    pub open spec fn dense(&self) -> bool {
        shape_dense(self.fetch_state@, self.filter_state@)
    }

    /// The sources that the query walks: the matched tables where it is read from
    /// tables, else the matched archetypes; each in the order in which it was matched.
    pub open spec fn sources(&self) -> Seq<usize> {
        if self.dense() {
            self.matched_table_ids@
        } else {
            self.matched_archetype_ids@
        }
    }

    /// The number of rows of each source of `world`.
    pub open spec fn lens(&self, world: World) -> Seq<nat> {
        if self.dense() {
            table_lens(world)
        } else {
            archetype_lens(world)
        }
    }

    /// The rows that the query walks in `world`, in order.
    pub open spec fn walk(&self, world: World) -> Seq<Row> {
        rows(self.sources(), self.lens(world), self.sources().len() as int)
    }

    /// What the walk over the first `n` rows yields, for a system that last ran at
    /// `last_change_tick` and runs at `change_tick`.
    pub open spec fn yielded(
        &self,
        world: World,
        n: int,
        last_change_tick: u32,
        change_tick: u32,
    ) -> Seq<ItemView> {
        filtered(
            self.fetch_state@,
            self.filter_state@,
            world,
            self.dense(),
            self.walk(world),
            n,
            last_change_tick,
            change_tick,
        )
    }

    /// What the query yields in `world`, in order: the item of each row of the walk
    /// that the filter lets through.
    pub open spec fn items(&self, world: World, last_change_tick: u32, change_tick: u32) -> Seq<
        ItemView,
    > {
        self.yielded(world, self.walk(world).len() as int, last_change_tick, change_tick)
    }

    /// What a task yields for `batch`: the item of each of its rows that the filter
    /// lets through.
    pub open spec fn batch_items(
        &self,
        world: World,
        batch: Batch,
        last_change_tick: u32,
        change_tick: u32,
    ) -> Seq<ItemView> {
        filtered(
            self.fetch_state@,
            self.filter_state@,
            world,
            self.dense(),
            batch_rows(batch),
            batch.len as int,
            last_change_tick,
            change_tick,
        )
    }

    /// Whether every member of the filter lets `entity` through.
    pub fn accepts(&self, world: &World, entity: Entity, last_change_tick: u32, change_tick: u32) -> (through:
        bool)
        requires
            world.wf(),
        ensures
            through == accepted(
                self.filter_state@,
                *world,
                entity,
                last_change_tick,
                change_tick,
            ),
    {
        let mut k: usize = 0;
        while k < self.filter_state.len()
            invariant
                k <= self.filter_state.len(),
                world.wf(),
                forall|j: int|
                    0 <= j < k ==> (#[trigger] self.filter_state[j]).accepts(
                        world.ticks_of(entity, self.filter_state[j].component()),
                        last_change_tick,
                        change_tick,
                    ),
            decreases self.filter_state.len() - k,
        {
            if !self.filter_state[k].filter_fetch(world, entity, last_change_tick, change_tick) {
                return false;
            }
            k += 1;
        }
        true
    }

    /// The cursors of the members, placed on the source `source`.
    pub(crate) fn place<'w>(
        &self,
        world: &'w World,
        dense: bool,
        source: usize,
        last_change_tick: u32,
        change_tick: u32,
    ) -> (fetches: Vec<OtherFetch<'w>>)
        requires
            !dense ==> source < world.archetypes.len(),
        ensures
            self.placed(fetches@, *world, dense, source, last_change_tick, change_tick),
    {
        let mut fetches: Vec<OtherFetch<'w>> = Vec::new();
        let mut k: usize = 0;
        while k < self.fetch_state.len()
            invariant
                k <= self.fetch_state.len(),
                !dense ==> source < world.archetypes.len(),
                fetches.len() == k,
                forall|j: int|
                    0 <= j < k ==> {
                        &&& (#[trigger] fetches[j]).is_for(
                            self.fetch_state[j],
                            *world,
                            last_change_tick,
                            change_tick,
                        )
                        &&& dense ==> fetches[j].at_table(source)
                        &&& !dense ==> fetches[j].at_archetype(world.archetypes[source as int])
                    },
            decreases self.fetch_state.len() - k,
        {
            let fetch = OtherFetch::init(
                world,
                &self.fetch_state[k],
                last_change_tick,
                change_tick,
            );
            let placed = if dense {
                fetch.set_table(&self.fetch_state[k], source)
            } else {
                fetch.set_archetype(&self.fetch_state[k], &world.archetypes[source])
            };
            fetches.push(placed);
            k += 1;
        }
        fetches
    }


    /// What the shape yields for row `index` of the source that the cursors are on.
    pub(crate) fn item_at(
        &self,
        world: &World,
        dense: bool,
        fetches: &Vec<OtherFetch>,
        source: usize,
        index: usize,
        last_change_tick: u32,
        change_tick: u32,
    ) -> (item: QueryItem)
        requires
            world.wf(),
            self.fits(*world),
            self.walks(dense, source),
            self.placed(fetches@, *world, dense, source, last_change_tick, change_tick),
            dense ==> source < world.tables.len() && index < world.tables[source as int].entities.len(),
            !dense ==> source < world.archetypes.len() && index
                < world.archetypes[source as int].entities.len(),
        ensures
            item@ == item_of(
                self.fetch_state@,
                *world,
                dense,
                Row { source, index },
                last_change_tick,
                change_tick,
            ),
    {
        let entity = if dense {
            world.tables[source].entities[index]
        } else {
            world.archetypes[source].entities[index]
        };
        proof {
            self.lemma_row_holds(*world, dense, source, index as int);
            if !dense {
                assert(world.archetype_wf(source as int));
            }
        }
        let mut components: Vec<Fetched> = Vec::new();
        let mut k: usize = 0;
        while k < fetches.len()
            invariant
                k <= fetches.len(),
                world.wf(),
                self.placed(fetches@, *world, dense, source, last_change_tick, change_tick),
                dense ==> source < world.tables.len() && index
                    < world.tables[source as int].entities.len(),
                !dense ==> source < world.archetypes.len() && index
                    < world.archetypes[source as int].entities.len()
                    && world.archetype_wf(source as int),
                forall|j: int|
                    0 <= j < self.fetch_state.len() ==> match (
                    #[trigger] self.fetch_state[j]).required() {
                        Some(component_id) => if dense {
                            world.ticks_of(
                                world.tables[source as int].entities[index as int],
                                component_id,
                            ).is_some()
                        } else {
                            world.archetypes[source as int].has(component_id)
                        },
                        None => true,
                    },
                components.len() == k,
                forall|j: int|
                    0 <= j < k ==> #[trigger] components[j] == if dense {
                        self.fetch_state[j].table_fetched(
                            *world,
                            source,
                            index,
                            last_change_tick,
                            change_tick,
                        )
                    } else {
                        self.fetch_state[j].archetype_fetched(
                            *world,
                            source,
                            index as int,
                            last_change_tick,
                            change_tick,
                        )
                    },
            decreases fetches.len() - k,
        {
            proof {
                fetches[k as int].lemma_fetched(
                    self.fetch_state[k as int],
                    *world,
                    last_change_tick,
                    change_tick,
                );
                assert(self.fetch_state[k as int].required().is_some()
                    || self.fetch_state[k as int] == OtherState::Unit);
            }
            let fetched = if dense {
                fetches[k].table_fetch(index)
            } else {
                fetches[k].archetype_fetch(index)
            };
            components.push(fetched);
            k += 1;
        }
        let item = QueryItem { entity, components };
        proof {
            assert(item@.components =~= item_of(
                self.fetch_state@,
                *world,
                dense,
                Row { source, index },
                last_change_tick,
                change_tick,
            ).components);
        }
        item
    }


    /// What `get` answers for `entity`: the item at the place where the entity lives,
    /// unless the entity is not alive, lives in an archetype that does not match, or
    /// is held back by the filter.
    pub open spec fn item_for(
        &self,
        world: World,
        entity: Entity,
        last_change_tick: u32,
        change_tick: u32,
    ) -> Result<ItemView, QueryEntityError> {
        match world.location(entity) {
            Some(location) => if self.matched_archetype_ids@.contains(location.archetype_id)
                && accepted(self.filter_state@, world, entity, last_change_tick, change_tick) {
                Ok(
                    item_of(
                        self.fetch_state@,
                        world,
                        false,
                        Row { source: location.archetype_id, index: location.index },
                        last_change_tick,
                        change_tick,
                    ),
                )
            } else {
                Err(QueryEntityError::QueryDoesNotMatch)
            },
            None => Err(QueryEntityError::NoSuchEntity),
        }
    }

    /// The item of `entity`, found through the location of the entity and not by a
    /// walk. The cache of matches is used as it is.
    pub fn get_unchecked_manual(
        &self,
        world: &World,
        entity: Entity,
        last_change_tick: u32,
        change_tick: u32,
    ) -> (item: Result<QueryItem, QueryEntityError>)
        requires
            self.wf(),
            self.fits(*world),
            world.wf(),
        ensures
            match item {
                Ok(item) => self.item_for(*world, entity, last_change_tick, change_tick) == Ok::<
                    ItemView,
                    QueryEntityError,
                >(item@),
                Err(error) => self.item_for(*world, entity, last_change_tick, change_tick) == Err::<
                    ItemView,
                    QueryEntityError,
                >(error),
            },
    {
        let location = match world.get(entity) {
            Some(location) => location,
            None => {
                return Err(QueryEntityError::NoSuchEntity);
            },
        };
        if !self.matched_archetypes.contains(location.archetype_id) {
            return Err(QueryEntityError::QueryDoesNotMatch);
        }
        if !self.accepts(world, entity, last_change_tick, change_tick) {
            return Err(QueryEntityError::QueryDoesNotMatch);
        }
        proof {
            assert(world.meta_wf(entity.id as int));
            assert(world.archetype_wf(location.archetype_id as int));
        }
        let fetches = self.place(
            world,
            false,
            location.archetype_id,
            last_change_tick,
            change_tick,
        );
        Ok(
            self.item_at(
                world,
                false,
                &fetches,
                location.archetype_id,
                location.index,
                last_change_tick,
                change_tick,
            ),
        )
    }

    /// The item of `entity`, after the cache of matches was brought up to date.
    pub fn get_unchecked(&mut self, world: &World, entity: Entity) -> (item: Result<
        QueryItem,
        QueryEntityError,
    >)
        requires
            old(self).wf(),
            old(self).fits(*world),
            world.wf(),
        ensures
            final(self).updated(old(self), *world),
            match item {
                Ok(item) => final(self).item_for(
                    *world,
                    entity,
                    world.last_change_tick,
                    world.change_tick,
                ) == Ok::<ItemView, QueryEntityError>(item@),
                Err(error) => final(self).item_for(
                    *world,
                    entity,
                    world.last_change_tick,
                    world.change_tick,
                ) == Err::<ItemView, QueryEntityError>(error),
            },
    {
        self.validate_world_and_update_archetypes(world);
        self.get_unchecked_manual(world, entity, world.last_change_tick, world.change_tick)
    }

    /// The item of `entity`, for a query that only reads.
    pub fn get(&mut self, world: &World, entity: Entity) -> (item: Result<
        QueryItem,
        QueryEntityError,
    >)
        requires
            old(self).wf(),
            old(self).fits(*world),
            world.wf(),
        ensures
            final(self).updated(old(self), *world),
            match item {
                Ok(item) => final(self).item_for(
                    *world,
                    entity,
                    world.last_change_tick,
                    world.change_tick,
                ) == Ok::<ItemView, QueryEntityError>(item@),
                Err(error) => final(self).item_for(
                    *world,
                    entity,
                    world.last_change_tick,
                    world.change_tick,
                ) == Err::<ItemView, QueryEntityError>(error),
            },
    {
        self.get_unchecked(world, entity)
    }

    /// The item of `entity`, for a query that has the world to itself.
    pub fn get_mut(&mut self, world: &World, entity: Entity) -> (item: Result<
        QueryItem,
        QueryEntityError,
    >)
        requires
            old(self).wf(),
            old(self).fits(*world),
            world.wf(),
        ensures
            final(self).updated(old(self), *world),
            match item {
                Ok(item) => final(self).item_for(
                    *world,
                    entity,
                    world.last_change_tick,
                    world.change_tick,
                ) == Ok::<ItemView, QueryEntityError>(item@),
                Err(error) => final(self).item_for(
                    *world,
                    entity,
                    world.last_change_tick,
                    world.change_tick,
                ) == Err::<ItemView, QueryEntityError>(error),
            },
    {
        self.get_unchecked(world, entity)
    }

    /// A walk over the items of the query in `world`, with the cache of matches as it
    /// is.
    pub fn iter_unchecked_manual<'w, 's>(
        &'s self,
        world: &'w World,
        last_change_tick: u32,
        change_tick: u32,
    ) -> (iter: OtherQueryIter<'w, 's>)
        requires
            self.fits(*world),
            world.wf(),
        ensures
            iter.wf(),
            iter.world == world,
            iter.query_state == self,
            iter.last_change_tick == last_change_tick,
            iter.change_tick == change_tick,
            iter.remaining() == self.items(*world, last_change_tick, change_tick),
    {
        OtherQueryIter::new(world, self, last_change_tick, change_tick)
    }

    /// Brings the cache up to date and starts a walk over the items of the query.
    pub fn iter_unchecked<'w, 's>(&'s mut self, world: &'w World) -> (iter: OtherQueryIter<'w, 's>)
        requires
            old(self).wf(),
            old(self).fits(*world),
            world.wf(),
        ensures
            final(self).updated(old(self), *world),
            iter.wf(),
            iter.world == world,
            *iter.query_state == *final(self),
            iter.remaining() == final(self).items(
                *world,
                world.last_change_tick,
                world.change_tick,
            ),
    {
        self.validate_world_and_update_archetypes(world);
        self.iter_unchecked_manual(world, world.last_change_tick, world.change_tick)
    }

    /// A walk over the items of a query that only reads.
    pub fn iter<'w, 's>(&'s mut self, world: &'w World) -> (iter: OtherQueryIter<'w, 's>)
        requires
            old(self).wf(),
            old(self).fits(*world),
            world.wf(),
        ensures
            final(self).updated(old(self), *world),
            iter.wf(),
            iter.world == world,
            *iter.query_state == *final(self),
            iter.remaining() == final(self).items(
                *world,
                world.last_change_tick,
                world.change_tick,
            ),
    {
        self.iter_unchecked(world)
    }

    /// A walk over the items of a query that has the world to itself.
    pub fn iter_mut<'w, 's>(&'s mut self, world: &'w World) -> (iter: OtherQueryIter<'w, 's>)
        requires
            old(self).wf(),
            old(self).fits(*world),
            world.wf(),
        ensures
            final(self).updated(old(self), *world),
            iter.wf(),
            iter.world == world,
            *iter.query_state == *final(self),
            iter.remaining() == final(self).items(
                *world,
                world.last_change_tick,
                world.change_tick,
            ),
    {
        self.iter_unchecked(world)
    }

    /// The query as a parameter of a system run: the state with the nested world that
    /// it was made for, the tick at which the system last ran, and the current tick.
    /// The cache of matches is brought up to date first.
    pub fn get_param<'w>(
        state: &'w mut OtherQueryState,
        system_state: &SystemState,
        primary: &'w PrimaryWorld,
        change_tick: u32,
    ) -> (query: OtherQuery<'w>)
        requires
            old(state).wf(),
            primary.wf(),
            primary.has_other(old(state).world_index),
            old(state).fits(primary.other(old(state).world_index)),
        ensures
            final(state).updated(old(state), primary.other(old(state).world_index)),
            query.wf(),
            *query.state == *final(state),
            *query.world == primary.other(old(state).world_index),
            query.last_change_tick == system_state.last_change_tick,
            query.change_tick == change_tick,
    {
        proof {
            lemma_other_position(primary.others@, state.world_index);
        }
        let at = primary.find_other(state.world_index).unwrap();
        proof {
            assert(primary.other_wf(at as int));
        }
        let world = &primary.others[at].world;
        state.validate_world_and_update_archetypes(world);
        OtherQuery::new(world, state, system_state.last_change_tick, change_tick)
    }
}

} // verus!
