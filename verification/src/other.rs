//! Shapes put together from members. A shape of several members resolves to as many
//! states and cursors, which are used in lock-step by position.
use crate::access::{
    access_reads, access_writes, filtered_reads, filtered_with, filtered_without, filtered_writes,
    Access, FilteredAccess,
};
use crate::other_world::PrimaryWorld;
use crate::other_world_query::{
    archetype_slot, table_slot, ComponentRef, ConfigurationError, Fetched, Other, OtherMut,
    OtherReadFetch, OtherReadState, OtherWriteFetch, OtherWriteState, Otherable,
};
use crate::ticks::{is_newer, ComponentTicks};
use crate::world::{Archetype, ComponentInfo, Components, Entity, StorageType, World};
use vstd::prelude::*;

verus! {

/// The state of one member of a shape.
#[derive(Clone, Copy, Debug, PartialEq, Eq, Structural)]
pub enum OtherState {
    Unit,
    Read(OtherReadState),
    Write(OtherWriteState),
}

/// The cursor of one member of a shape.
#[derive(Clone, Copy)]
pub enum OtherFetch<'w> {
    Unit,
    Read(OtherReadFetch<'w>),
    Write(OtherWriteFetch<'w>),
}

/// One member of a filter: it narrows what a query yields and claims nothing.
#[derive(Clone, Copy, Debug, PartialEq, Eq, Structural)]
pub enum OtherFilter {
    /// Only entities that hold the component of the given type.
    With(u64),
    /// Only entities that do not hold it.
    Without(u64),
    /// Only entities whose component of the given type was added since the system
    /// last ran.
    Added(u64),
    /// Only entities whose component of the given type was changed since the system
    /// last ran.
    Changed(u64),
}

/// The state of one member of a filter.
#[derive(Clone, Copy, Debug, PartialEq, Eq, Structural)]
pub enum FilterState {
    With { other_component_id: usize, storage_type: StorageType },
    Without { other_component_id: usize, storage_type: StorageType },
    Added { other_component_id: usize, storage_type: StorageType },
    Changed { other_component_id: usize, storage_type: StorageType },
}

impl OtherState {
    /// The state that `member` resolves to against the registry `outer` of the primary
    /// world and the registry `inner` of the nested world of index `world`.
    pub open spec fn resolved_in(
        member: Otherable,
        outer: Seq<ComponentInfo>,
        inner: Seq<ComponentInfo>,
        world: usize,
    ) -> OtherState {
        match member {
            Otherable::Unit => OtherState::Unit,
            Otherable::Read(type_id) => {
                let ids = (Other { type_id, world }).registration_in(outer, inner);
                OtherState::Read(
                    OtherReadState {
                        world_id: ids.world_id,
                        component_id: ids.component_id,
                        other_component_id: ids.other_component_id,
                        storage_type: ids.storage_type,
                    },
                )
            },
            Otherable::Write(type_id) => {
                let ids = (Other { type_id, world }).registration_in(outer, inner);
                OtherState::Write(
                    OtherWriteState {
                        world_id: ids.world_id,
                        component_id: ids.component_id,
                        other_component_id: ids.other_component_id,
                        storage_type: ids.storage_type,
                    },
                )
            },
        }
    }

    /// The state that `member` resolves to against `primary`.
    pub open spec fn resolved(member: Otherable, primary: PrimaryWorld, world: usize) -> OtherState {
        OtherState::resolved_in(
            member,
            primary.world.components.infos@,
            primary.other(world).components.infos@,
            world,
        )
    }

    /// The type that `member` speaks of.
    pub open spec fn type_of(member: Otherable) -> Option<u64> {
        match member {
            Otherable::Unit => None,
            Otherable::Read(type_id) => Some(type_id),
            Otherable::Write(type_id) => Some(type_id),
        }
    }

    /// The component that the member needs an archetype to hold.
    pub open spec fn required(&self) -> Option<usize> {
        match self {
            OtherState::Unit => None,
            OtherState::Read(state) => Some(state.other_component_id),
            OtherState::Write(state) => Some(state.other_component_id),
        }
    }

    /// The id by which the primary world knows the component of the member.
    pub open spec fn claimed(&self) -> Option<usize> {
        match self {
            OtherState::Unit => None,
            OtherState::Read(state) => Some(state.component_id),
            OtherState::Write(state) => Some(state.component_id),
        }
    }

    /// The member matches `archetype`: the archetype holds what the member needs.
    pub open spec fn matches(&self, archetype: Archetype) -> bool {
        match self.required() {
            Some(component_id) => archetype.has(component_id),
            None => true,
        }
    }

    /// The member can be read from the rows of a table.
    pub open spec fn dense(&self) -> bool {
        match self {
            OtherState::Unit => true,
            OtherState::Read(state) => state.storage_type == StorageType::Table,
            OtherState::Write(state) => state.storage_type == StorageType::Table,
        }
    }

    /// How the component of the member is stored.
    pub open spec fn storage(&self) -> StorageType {
        match self {
            OtherState::Unit => StorageType::Table,
            OtherState::Read(state) => state.storage_type,
            OtherState::Write(state) => state.storage_type,
        }
    }

    /// The member records for its component the storage that the registry `infos` has
    /// for it.
    pub open spec fn storage_known(&self, infos: Seq<ComponentInfo>) -> bool {
        match self.required() {
            Some(component_id) => component_id < infos.len() && infos[component_id as int].storage_type
                == self.storage(),
            None => true,
        }
    }

    /// Whether the member records for its component the storage that `components` has
    /// for it.
    pub fn knows_storage(&self, components: &Components) -> (known: bool)
        ensures
            known == self.storage_known(components.infos@),
    {
        let (component_id, storage_type) = match self {
            OtherState::Unit => {
                return true;
            },
            OtherState::Read(state) => (state.other_component_id, state.storage_type),
            OtherState::Write(state) => (state.other_component_id, state.storage_type),
        };
        match components.get_info(component_id) {
            Some(info) => info.storage_type == storage_type,
            None => false,
        }
    }

    /// What the member yields for the slot `target` of a component that has the ticks
    /// `ticks`: nothing, the slot, or exclusive access to the slot with its ticks and
    /// the ticks of the run.
    pub open spec fn fetched(
        &self,
        target: ComponentRef,
        ticks: Option<ComponentTicks>,
        last_change_tick: u32,
        change_tick: u32,
    ) -> Fetched {
        match self {
            OtherState::Unit => Fetched::Unit,
            OtherState::Read(_) => Fetched::Read(target),
            OtherState::Write(_) => Fetched::Write(
                OtherMut {
                    target,
                    component_ticks: ticks.unwrap(),
                    last_change_tick,
                    change_tick,
                },
            ),
        }
    }

    /// What the member yields for row `row` of table `table_id` of `world`.
    pub open spec fn table_fetched(
        &self,
        world: World,
        table_id: usize,
        row: usize,
        last_change_tick: u32,
        change_tick: u32,
    ) -> Fetched {
        match self.required() {
            Some(component_id) => self.fetched(
                table_slot(component_id, table_id, row),
                world.ticks_of(world.tables[table_id as int].entities[row as int], component_id),
                last_change_tick,
                change_tick,
            ),
            None => Fetched::Unit,
        }
    }

    /// What the member yields for the entity at position `index` of the archetype
    /// `archetype_id` of `world`.
    pub open spec fn archetype_fetched(
        &self,
        world: World,
        archetype_id: usize,
        index: int,
        last_change_tick: u32,
        change_tick: u32,
    ) -> Fetched {
        let archetype = world.archetypes[archetype_id as int];
        match self.required() {
            Some(component_id) => self.fetched(
                archetype_slot(component_id, self.storage(), archetype, index),
                archetype.ticks_at(component_id, index),
                last_change_tick,
                change_tick,
            ),
            None => Fetched::Unit,
        }
    }

    /// Resolves `member` against the nested world of index `world`. The unit member
    /// resolves to a state that needs nothing and leaves both worlds as they are.
    pub fn init(primary: &mut PrimaryWorld, member: Otherable, world: usize) -> (state: Result<
        OtherState,
        ConfigurationError,
    >)
        requires
            old(primary).wf(),
        ensures
            final(primary).wf(),
            match state {
                Ok(state) => {
                    &&& state == OtherState::resolved(member, *old(primary), world)
                    &&& match state.claimed() {
                        Some(id) => id < final(primary).world.components.infos.len(),
                        None => true,
                    }
                    &&& match member {
                        Otherable::Unit => *final(primary) == *old(primary),
                        Otherable::Read(type_id) => old(primary).has_other(world) && (Other {
                            type_id,
                            world,
                        }).registered_in(*old(primary), *final(primary)),
                        Otherable::Write(type_id) => old(primary).has_other(world) && (Other {
                            type_id,
                            world,
                        }).registered_in(*old(primary), *final(primary)),
                    }
                },
                Err(error) => {
                    &&& member != Otherable::Unit
                    &&& !old(primary).has_other(world)
                    &&& *final(primary) == *old(primary)
                    &&& error matches ConfigurationError::MissingResource { world: missing }
                    &&& missing == world
                },
            },
    {
        match member {
            Otherable::Unit => Ok(OtherState::Unit),
            Otherable::Read(type_id) => match OtherReadState::init(primary, Other { type_id, world }) {
                Ok(state) => Ok(OtherState::Read(state)),
                Err(error) => Err(error),
            },
            Otherable::Write(type_id) => match OtherWriteState::init(
                primary,
                Other { type_id, world },
            ) {
                Ok(state) => Ok(OtherState::Write(state)),
                Err(error) => Err(error),
            },
        }
    }

    /// Whether the member matches `archetype`.
    pub fn matches_archetype(&self, archetype: &Archetype) -> (matches: bool)
        ensures
            matches == self.matches(*archetype),
    {
        match self {
            OtherState::Unit => true,
            OtherState::Read(state) => state.matches_archetype(archetype),
            OtherState::Write(state) => state.matches_archetype(archetype),
        }
    }

    /// Whether the member can be read from the rows of a table.
    pub fn is_dense(&self) -> (dense: bool)
        ensures
            dense == self.dense(),
    {
        match self {
            OtherState::Unit => true,
            OtherState::Read(state) => match state.storage_type {
                StorageType::Table => true,
                StorageType::SparseSet => false,
            },
            OtherState::Write(state) => match state.storage_type {
                StorageType::Table => true,
                StorageType::SparseSet => false,
            },
        }
    }

    /// Adds the claim of the member to the claims of its query. A write claim on a
    /// component that the query accesses already is refused, and then nothing changes.
    pub fn update_component_access(&self, access: &mut FilteredAccess) -> (added: Result<
        (),
        ConfigurationError,
    >)
        requires
            match self.claimed() {
                Some(component_id) => component_id < usize::MAX,
                None => true,
            },
        ensures
            filtered_without(*final(access)) == filtered_without(*old(access)),
            match *self {
                OtherState::Unit => added.is_ok() && *final(access) == *old(access),
                OtherState::Read(state) => {
                    &&& added.is_ok()
                    &&& filtered_reads(*final(access)) == filtered_reads(*old(access)).insert(
                        state.component_id as int,
                    )
                    &&& filtered_writes(*final(access)) == filtered_writes(*old(access))
                    &&& filtered_with(*final(access)) == filtered_with(*old(access)).insert(
                        state.component_id as int,
                    )
                },
                OtherState::Write(state) => if filtered_reads(*old(access)).contains(
                    state.component_id as int,
                ) {
                    &&& *final(access) == *old(access)
                    &&& added matches Err(
                        ConfigurationError::MutableAccessNotUnique { component_id },
                    )
                    &&& component_id == state.component_id
                } else {
                    &&& added.is_ok()
                    &&& filtered_reads(*final(access)) == filtered_reads(*old(access)).insert(
                        state.component_id as int,
                    )
                    &&& filtered_writes(*final(access)) == filtered_writes(*old(access)).insert(
                        state.component_id as int,
                    )
                    &&& filtered_with(*final(access)) == filtered_with(*old(access)).insert(
                        state.component_id as int,
                    )
                },
            },
    {
        match self {
            OtherState::Unit => Ok(()),
            OtherState::Read(state) => {
                state.update_component_access(access);
                Ok(())
            },
            OtherState::Write(state) => state.update_component_access(access),
        }
    }

    /// The id of the member's component within `archetype`, where the archetype holds
    /// it.
    pub open spec fn archetype_claim(&self, archetype: Archetype) -> Option<int> {
        match self.required() {
            Some(component_id) => match archetype.component(component_id) {
                Some(component) => Some(component.archetype_component_id as int),
                None => None,
            },
            None => None,
        }
    }

    /// Whether the member writes.
    pub open spec fn writes(&self) -> bool {
        self is Write
    }

    /// Adds to `access` the claim of the member on its component as `archetype` holds
    /// it.
    pub fn update_archetype_component_access(&self, archetype: &Archetype, access: &mut Access)
        requires
            archetype.claimable(),
        ensures
            match self.archetype_claim(*archetype) {
                Some(id) => {
                    &&& access_reads(*final(access)) == access_reads(*old(access)).insert(id)
                    &&& access_writes(*final(access)) == if self.writes() {
                        access_writes(*old(access)).insert(id)
                    } else {
                        access_writes(*old(access))
                    }
                },
                None => {
                    &&& access_reads(*final(access)) == access_reads(*old(access))
                    &&& access_writes(*final(access)) == access_writes(*old(access))
                },
            },
    {
        match self {
            OtherState::Unit => {},
            OtherState::Read(state) => state.update_archetype_component_access(archetype, access),
            OtherState::Write(state) => state.update_archetype_component_access(archetype, access),
        }
    }
}

impl<'w> OtherFetch<'w> {
    /// The cursor belongs to `state`, for a run over `world` with these ticks.
    pub open spec fn is_for(
        &self,
        state: OtherState,
        world: World,
        last_change_tick: u32,
        change_tick: u32,
    ) -> bool {
        match (*self, state) {
            (OtherFetch::Unit, OtherState::Unit) => true,
            (OtherFetch::Read(fetch), OtherState::Read(state)) => fetch.storage_type
                == state.storage_type && fetch.component_id == state.other_component_id,
            (OtherFetch::Write(fetch), OtherState::Write(state)) => {
                &&& fetch.storage_type == state.storage_type
                &&& fetch.component_id == state.other_component_id
                &&& *fetch.world == world
                &&& fetch.last_change_tick == last_change_tick
                &&& fetch.change_tick == change_tick
            },
            _ => false,
        }
    }

    /// The cursor is placed on table `table_id`.
    pub open spec fn at_table(&self, table_id: usize) -> bool {
        match *self {
            OtherFetch::Unit => true,
            OtherFetch::Read(fetch) => fetch.table_id == Some(table_id),
            OtherFetch::Write(fetch) => fetch.table_id == Some(table_id),
        }
    }

    /// The cursor is placed on `archetype`.
    pub open spec fn at_archetype(&self, archetype: Archetype) -> bool {
        match *self {
            OtherFetch::Unit => true,
            OtherFetch::Read(fetch) => fetch.archetype == Some(&archetype),
            OtherFetch::Write(fetch) => fetch.archetype == Some(&archetype),
        }
    }

    /// A cursor for `state` over `world` that is placed nowhere yet.
    pub fn init(
        world: &'w World,
        state: &OtherState,
        last_change_tick: u32,
        change_tick: u32,
    ) -> (fetch: Self)
        ensures
            fetch.is_for(*state, *world, last_change_tick, change_tick),
    {
        match state {
            OtherState::Unit => OtherFetch::Unit,
            OtherState::Read(state) => OtherFetch::Read(
                OtherReadFetch::init(state, last_change_tick, change_tick),
            ),
            OtherState::Write(state) => OtherFetch::Write(
                OtherWriteFetch::init(world, state, last_change_tick, change_tick),
            ),
        }
    }

    /// The cursor placed on `archetype`.
    pub fn set_archetype(self, state: &OtherState, archetype: &'w Archetype) -> (placed: Self)
        ensures
            placed.at_archetype(*archetype),
            forall|world: World, last_change_tick: u32, change_tick: u32|
                self.is_for(*state, world, last_change_tick, change_tick) ==> #[trigger] placed.is_for(
                    *state,
                    world,
                    last_change_tick,
                    change_tick,
                ),
    {
        match (self, state) {
            (OtherFetch::Read(fetch), OtherState::Read(state)) => {
                let mut fetch = fetch;
                fetch.set_archetype(state, archetype);
                OtherFetch::Read(fetch)
            },
            (OtherFetch::Write(fetch), OtherState::Write(state)) => {
                let mut fetch = fetch;
                fetch.set_archetype(state, archetype);
                OtherFetch::Write(fetch)
            },
            _ => OtherFetch::Unit,
        }
    }

    /// The cursor placed on table `table_id`.
    pub fn set_table(self, state: &OtherState, table_id: usize) -> (placed: Self)
        ensures
            placed.at_table(table_id),
            forall|world: World, last_change_tick: u32, change_tick: u32|
                self.is_for(*state, world, last_change_tick, change_tick) ==> #[trigger] placed.is_for(
                    *state,
                    world,
                    last_change_tick,
                    change_tick,
                ),
    {
        match (self, state) {
            (OtherFetch::Read(fetch), OtherState::Read(state)) => {
                let mut fetch = fetch;
                fetch.set_table(state, table_id);
                OtherFetch::Read(fetch)
            },
            (OtherFetch::Write(fetch), OtherState::Write(state)) => {
                let mut fetch = fetch;
                fetch.set_table(state, table_id);
                OtherFetch::Write(fetch)
            },
            _ => OtherFetch::Unit,
        }
    }

    /// The cursor can yield for position `index` of the archetype it is on.
    pub open spec fn on_archetype(&self, index: int) -> bool {
        match *self {
            OtherFetch::Unit => true,
            OtherFetch::Read(fetch) => fetch.on_archetype(index),
            OtherFetch::Write(fetch) => fetch.on_archetype(index),
        }
    }

    /// The cursor can yield for row `row` of the table it is on.
    pub open spec fn on_table(&self, row: int) -> bool {
        match *self {
            OtherFetch::Unit => true,
            OtherFetch::Read(fetch) => fetch.table_id.is_some(),
            OtherFetch::Write(fetch) => fetch.on_table(row),
        }
    }

    /// What the cursor yields for position `index` of the archetype it is on.
    pub open spec fn archetype_fetched(&self, index: int) -> Fetched {
        match *self {
            OtherFetch::Unit => Fetched::Unit,
            OtherFetch::Read(fetch) => Fetched::Read(
                archetype_slot(
                    fetch.component_id,
                    fetch.storage_type,
                    *fetch.archetype.unwrap(),
                    index,
                ),
            ),
            OtherFetch::Write(fetch) => Fetched::Write(fetch.archetype_fetched(index)),
        }
    }

    /// What the cursor yields for row `row` of the table it is on.
    pub open spec fn table_fetched(&self, row: usize) -> Fetched {
        match *self {
            OtherFetch::Unit => Fetched::Unit,
            OtherFetch::Read(fetch) => Fetched::Read(
                table_slot(fetch.component_id, fetch.table_id.unwrap(), row),
            ),
            OtherFetch::Write(fetch) => Fetched::Write(fetch.table_fetched(row)),
        }
    }

    /// A cursor yields what its state says of the place it is on.
    pub proof fn lemma_fetched(
        &self,
        state: OtherState,
        world: World,
        last_change_tick: u32,
        change_tick: u32,
    )
        requires
            self.is_for(state, world, last_change_tick, change_tick),
        ensures
            forall|table_id: usize, row: usize|
                self.at_table(table_id) ==> #[trigger] state.table_fetched(
                    world,
                    table_id,
                    row,
                    last_change_tick,
                    change_tick,
                ) == self.table_fetched(row),
            forall|archetype_id: usize, index: int|
                self.at_archetype(world.archetypes[archetype_id as int])
                    ==> #[trigger] state.archetype_fetched(
                    world,
                    archetype_id,
                    index,
                    last_change_tick,
                    change_tick,
                ) == self.archetype_fetched(index),
    {
    }

    /// What the member yields for the entity at position `archetype_index` of the
    /// archetype that the cursor is on.
    pub fn archetype_fetch(&self, archetype_index: usize) -> (item: Fetched)
        requires
            self.on_archetype(archetype_index as int),
        ensures
            item == self.archetype_fetched(archetype_index as int),
    {
        match self {
            OtherFetch::Unit => Fetched::Unit,
            OtherFetch::Read(fetch) => Fetched::Read(fetch.archetype_fetch(archetype_index)),
            OtherFetch::Write(fetch) => Fetched::Write(fetch.archetype_fetch(archetype_index)),
        }
    }

    /// What the member yields for row `table_row` of the table that the cursor is on.
    pub fn table_fetch(&self, table_row: usize) -> (item: Fetched)
        requires
            self.on_table(table_row as int),
        ensures
            item == self.table_fetched(table_row),
    {
        match self {
            OtherFetch::Unit => Fetched::Unit,
            OtherFetch::Read(fetch) => Fetched::Read(fetch.table_fetch(table_row)),
            OtherFetch::Write(fetch) => Fetched::Write(fetch.table_fetch(table_row)),
        }
    }
}

impl FilterState {
    /// The state that `filter` resolves to against the two registries.
    pub open spec fn resolved_in(
        filter: OtherFilter,
        outer: Seq<ComponentInfo>,
        inner: Seq<ComponentInfo>,
        world: usize,
    ) -> FilterState {
        match filter {
            OtherFilter::With(type_id) => {
                let ids = (Other { type_id, world }).registration_in(outer, inner);
                FilterState::With {
                    other_component_id: ids.other_component_id,
                    storage_type: ids.storage_type,
                }
            },
            OtherFilter::Without(type_id) => {
                let ids = (Other { type_id, world }).registration_in(outer, inner);
                FilterState::Without {
                    other_component_id: ids.other_component_id,
                    storage_type: ids.storage_type,
                }
            },
            OtherFilter::Added(type_id) => {
                let ids = (Other { type_id, world }).registration_in(outer, inner);
                FilterState::Added {
                    other_component_id: ids.other_component_id,
                    storage_type: ids.storage_type,
                }
            },
            OtherFilter::Changed(type_id) => {
                let ids = (Other { type_id, world }).registration_in(outer, inner);
                FilterState::Changed {
                    other_component_id: ids.other_component_id,
                    storage_type: ids.storage_type,
                }
            },
        }
    }

    /// The state that `filter` resolves to against `primary`.
    pub open spec fn resolved(filter: OtherFilter, primary: PrimaryWorld, world: usize) -> FilterState {
        FilterState::resolved_in(
            filter,
            primary.world.components.infos@,
            primary.other(world).components.infos@,
            world,
        )
    }

    /// The type that `filter` speaks of.
    pub open spec fn type_of(filter: OtherFilter) -> u64 {
        match filter {
            OtherFilter::With(type_id) => type_id,
            OtherFilter::Without(type_id) => type_id,
            OtherFilter::Added(type_id) => type_id,
            OtherFilter::Changed(type_id) => type_id,
        }
    }

    /// The component that the filter speaks of.
    pub open spec fn component(&self) -> usize {
        match *self {
            FilterState::With { other_component_id, .. } => other_component_id,
            FilterState::Without { other_component_id, .. } => other_component_id,
            FilterState::Added { other_component_id, .. } => other_component_id,
            FilterState::Changed { other_component_id, .. } => other_component_id,
        }
    }

    /// How the component that the filter speaks of is stored.
    pub open spec fn storage(&self) -> StorageType {
        match *self {
            FilterState::With { storage_type, .. } => storage_type,
            FilterState::Without { storage_type, .. } => storage_type,
            FilterState::Added { storage_type, .. } => storage_type,
            FilterState::Changed { storage_type, .. } => storage_type,
        }
    }

    /// The filter records for its component the storage that the registry `infos` has
    /// for it.
    pub open spec fn storage_known(&self, infos: Seq<ComponentInfo>) -> bool {
        self.component() < infos.len() && infos[self.component() as int].storage_type
            == self.storage()
    }

    /// Whether the filter records for its component the storage that `components`
    /// has for it.
    pub fn knows_storage(&self, components: &Components) -> (known: bool)
        ensures
            known == self.storage_known(components.infos@),
    {
        let (component_id, storage_type) = match self {
            FilterState::With { other_component_id, storage_type } => (
                *other_component_id,
                *storage_type,
            ),
            FilterState::Without { other_component_id, storage_type } => (
                *other_component_id,
                *storage_type,
            ),
            FilterState::Added { other_component_id, storage_type } => (
                *other_component_id,
                *storage_type,
            ),
            FilterState::Changed { other_component_id, storage_type } => (
                *other_component_id,
                *storage_type,
            ),
        };
        match components.get_info(component_id) {
            Some(info) => info.storage_type == storage_type,
            None => false,
        }
    }

    /// The filter lets `archetype` through: its entities hold the component, or for
    /// `Without` do not hold it.
    pub open spec fn matches(&self, archetype: Archetype) -> bool {
        match *self {
            FilterState::Without { other_component_id, .. } => !archetype.has(other_component_id),
            _ => archetype.has(self.component()),
        }
    }

    /// The filter can be decided from the rows of a table.
    pub open spec fn dense(&self) -> bool {
        self.storage() == StorageType::Table
    }

    /// The filter lets through an entity of a matching archetype whose component has
    /// the ticks `ticks`. Presence and absence were decided with the archetype; what
    /// is left to decide is whether the component is new enough.
    pub open spec fn accepts(
        &self,
        ticks: Option<ComponentTicks>,
        last_change_tick: u32,
        change_tick: u32,
    ) -> bool {
        match *self {
            FilterState::With { .. } => true,
            FilterState::Without { .. } => true,
            FilterState::Added { .. } => match ticks {
                Some(ticks) => is_newer(ticks.added, last_change_tick, change_tick),
                None => false,
            },
            FilterState::Changed { .. } => match ticks {
                Some(ticks) => is_newer(ticks.changed, last_change_tick, change_tick),
                None => false,
            },
        }
    }

    /// Whether the filter lets `entity` through, seen from a system that last ran at
    /// `last_change_tick` and runs at `change_tick`.
    pub fn filter_fetch(
        &self,
        world: &World,
        entity: Entity,
        last_change_tick: u32,
        change_tick: u32,
    ) -> (accepted: bool)
        requires
            world.wf(),
        ensures
            accepted == self.accepts(
                world.ticks_of(entity, self.component()),
                last_change_tick,
                change_tick,
            ),
    {
        match self {
            FilterState::With { .. } => true,
            FilterState::Without { .. } => true,
            FilterState::Added { other_component_id, .. } => match world.get_ticks(
                entity,
                *other_component_id,
            ) {
                Some(ticks) => ticks.is_added(last_change_tick, change_tick),
                None => false,
            },
            FilterState::Changed { other_component_id, .. } => match world.get_ticks(
                entity,
                *other_component_id,
            ) {
                Some(ticks) => ticks.is_changed(last_change_tick, change_tick),
                None => false,
            },
        }
    }

    /// Resolves `filter` against the nested world of index `world`, as a member of a
    /// shape is resolved.
    pub fn init(primary: &mut PrimaryWorld, filter: OtherFilter, world: usize) -> (state: Result<
        FilterState,
        ConfigurationError,
    >)
        requires
            old(primary).wf(),
        ensures
            final(primary).wf(),
            match state {
                Ok(state) => {
                    &&& old(primary).has_other(world)
                    &&& state == FilterState::resolved(filter, *old(primary), world)
                    &&& (Other { type_id: FilterState::type_of(filter), world }).registered_in(
                        *old(primary),
                        *final(primary),
                    )
                },
                Err(error) => {
                    &&& !old(primary).has_other(world)
                    &&& *final(primary) == *old(primary)
                    &&& error matches ConfigurationError::MissingResource { world: missing }
                    &&& missing == world
                },
            },
    {
        match filter {
            OtherFilter::With(type_id) => match (Other { type_id, world }).register(primary) {
                Some(ids) => Ok(
                    FilterState::With {
                        other_component_id: ids.other_component_id,
                        storage_type: ids.storage_type,
                    },
                ),
                None => Err(ConfigurationError::MissingResource { world }),
            },
            OtherFilter::Without(type_id) => match (Other { type_id, world }).register(primary) {
                Some(ids) => Ok(
                    FilterState::Without {
                        other_component_id: ids.other_component_id,
                        storage_type: ids.storage_type,
                    },
                ),
                None => Err(ConfigurationError::MissingResource { world }),
            },
            OtherFilter::Added(type_id) => match (Other { type_id, world }).register(primary) {
                Some(ids) => Ok(
                    FilterState::Added {
                        other_component_id: ids.other_component_id,
                        storage_type: ids.storage_type,
                    },
                ),
                None => Err(ConfigurationError::MissingResource { world }),
            },
            OtherFilter::Changed(type_id) => match (Other { type_id, world }).register(primary) {
                Some(ids) => Ok(
                    FilterState::Changed {
                        other_component_id: ids.other_component_id,
                        storage_type: ids.storage_type,
                    },
                ),
                None => Err(ConfigurationError::MissingResource { world }),
            },
        }
    }

    /// Whether the filter lets `archetype` through.
    pub fn matches_archetype(&self, archetype: &Archetype) -> (matches: bool)
        ensures
            matches == self.matches(*archetype),
    {
        match self {
            FilterState::With { other_component_id, .. } => archetype.contains(*other_component_id),
            FilterState::Without { other_component_id, .. } => !archetype.contains(
                *other_component_id,
            ),
            FilterState::Added { other_component_id, .. } => archetype.contains(*other_component_id),
            FilterState::Changed { other_component_id, .. } => archetype.contains(
                *other_component_id,
            ),
        }
    }

    /// Whether the filter can be decided for a table as a whole.
    pub fn is_dense(&self) -> (dense: bool)
        ensures
            dense == self.dense(),
    {
        let storage_type = match self {
            FilterState::With { storage_type, .. } => storage_type,
            FilterState::Without { storage_type, .. } => storage_type,
            FilterState::Added { storage_type, .. } => storage_type,
            FilterState::Changed { storage_type, .. } => storage_type,
        };
        match storage_type {
            StorageType::Table => true,
            StorageType::SparseSet => false,
        }
    }
}

} // verus!
