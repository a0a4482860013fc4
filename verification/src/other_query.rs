//! A query as a system sees it while it runs: the state of the query together with
//! the nested world and the ticks of the run.
use crate::access::{access_reads, access_writes};
use crate::other_query_iter::OtherQueryIter;
use crate::items::{visited, ItemView, QueryEntityError, QueryItem};
use crate::other_query_state::OtherQueryState;
use crate::other_world_query::{archetype_slot, ComponentRef};
use crate::world::{Entity, TypeKey, World};
use vstd::prelude::*;

verus! {

/// A query over a nested world, during one run of a system.
pub struct OtherQuery<'w> {
    pub world: &'w World,
    pub state: &'w OtherQueryState,
    pub last_change_tick: u32,
    pub change_tick: u32,
}

/// Why a query that should yield one item did not.
#[derive(Clone, Copy, Debug, PartialEq, Eq, Structural)]
pub enum QuerySingleError {
    /// The query yields no item.
    NoEntities,
    /// The query yields more than one item.
    MultipleEntities,
}

/// Why a query does not give access to a component of an entity.
#[derive(Clone, Copy, Debug, PartialEq, Eq, Structural)]
pub enum QueryComponentError {
    /// The entity is not alive.
    NoSuchEntity,
    /// The type is not registered, or the entity does not hold the component.
    MissingComponent,
    /// The query has not claimed the component of this archetype for reading.
    MissingReadAccess,
    /// The query has not claimed the component of this archetype for writing.
    MissingWriteAccess,
}

impl<'w> OtherQuery<'w> {
    /// State and world are consistent, and the state can be used with the world.
    pub open spec fn wf(&self) -> bool {
        &&& self.state.wf()
        &&& self.state.fits(*self.world)
        &&& self.world.wf()
    }

    /// What the query yields, in order.
    pub open spec fn items(&self) -> Seq<ItemView> {
        self.state.items(*self.world, self.last_change_tick, self.change_tick)
    }

    /// What `get` answers for `entity`.
    pub open spec fn item_for(&self, entity: Entity) -> Result<ItemView, QueryEntityError> {
        self.state.item_for(*self.world, entity, self.last_change_tick, self.change_tick)
    }

    pub fn new(
        world: &'w World,
        state: &'w OtherQueryState,
        last_change_tick: u32,
        change_tick: u32,
    ) -> (query: Self)
        requires
            state.wf(),
            state.fits(*world),
            world.wf(),
        ensures
            query.wf(),
            query.world == world,
            query.state == state,
            query.last_change_tick == last_change_tick,
            query.change_tick == change_tick,
    {
        OtherQuery { world, state, last_change_tick, change_tick }
    }

    /// A walk over the items of a query that only reads.
    pub fn iter(&self) -> (iter: OtherQueryIter<'w, 'w>)
        requires
            self.wf(),
        ensures
            iter.wf(),
            iter.world == self.world,
            iter.query_state == self.state,
            iter.remaining() == self.items(),
    {
        self.state.iter_unchecked_manual(self.world, self.last_change_tick, self.change_tick)
    }

    /// A walk over the items of a query that has the world to itself.
    pub fn iter_mut(&mut self) -> (iter: OtherQueryIter<'w, 'w>)
        requires
            old(self).wf(),
        ensures
            *final(self) == *old(self),
            iter.wf(),
            iter.world == old(self).world,
            iter.query_state == old(self).state,
            iter.remaining() == old(self).items(),
    {
        self.state.iter_unchecked_manual(self.world, self.last_change_tick, self.change_tick)
    }

    /// A walk over the items of the query, whatever it reads or writes. The walk is
    /// the same as that of `iter`; it is for a caller that makes sure by other means
    /// that no slot which it writes through is handed out twice.
    pub fn iter_unsafe(&self) -> (iter: OtherQueryIter<'w, 'w>)
        requires
            self.wf(),
        ensures
            iter.wf(),
            iter.world == self.world,
            iter.query_state == self.state,
            iter.remaining() == self.items(),
    {
        self.state.iter_unchecked_manual(self.world, self.last_change_tick, self.change_tick)
    }

    /// Calls `f` on each item of a query that only reads, in order, and gives what it
    /// returned.
    pub fn for_each<R, F: Fn(QueryItem) -> R>(&self, f: F) -> (results: Vec<R>)
        requires
            self.wf(),
            forall|item: QueryItem| call_requires(f, (item,)),
        ensures
            results.len() == self.items().len(),
            forall|i: int|
                0 <= i < results.len() ==> visited(
                    f,
                    self.items()[i],
                    #[trigger] results[i],
                ),
    {
        self.state.for_each_unchecked_manual(
            self.world,
            f,
            self.last_change_tick,
            self.change_tick,
        )
    }

    /// Calls `f` on each item of a query that has the world to itself.
    pub fn for_each_mut<R, F: Fn(QueryItem) -> R>(&self, f: F) -> (results: Vec<R>)
        requires
            self.wf(),
            forall|item: QueryItem| call_requires(f, (item,)),
        ensures
            results.len() == self.items().len(),
            forall|i: int|
                0 <= i < results.len() ==> visited(
                    f,
                    self.items()[i],
                    #[trigger] results[i],
                ),
    {
        self.state.for_each_unchecked_manual(
            self.world,
            f,
            self.last_change_tick,
            self.change_tick,
        )
    }

    /// Runs `f` over the items of a query that only reads, cut into batches of at most
    /// `batch_size` rows.
    pub fn par_for_each<R, F: Fn(QueryItem) -> R>(&self, batch_size: usize, f: &F) -> (results: Vec<
        Vec<R>,
    >)
        requires
            self.wf(),
            batch_size > 0,
            forall|item: QueryItem| call_requires(*f, (item,)),
        ensures
            self.state.par_visited(
                *self.world,
                batch_size,
                *f,
                results@,
                self.last_change_tick,
                self.change_tick,
            ),
    {
        self.state.par_for_each_unchecked_manual(
            self.world,
            batch_size,
            f,
            self.last_change_tick,
            self.change_tick,
        )
    }

    /// Runs `f` in batches over the items of a query that has the world to itself.
    pub fn par_for_each_mut<R, F: Fn(QueryItem) -> R>(&mut self, batch_size: usize, f: &F) -> (results:
        Vec<Vec<R>>)
        requires
            old(self).wf(),
            batch_size > 0,
            forall|item: QueryItem| call_requires(*f, (item,)),
        ensures
            *final(self) == *old(self),
            old(self).state.par_visited(
                *old(self).world,
                batch_size,
                *f,
                results@,
                old(self).last_change_tick,
                old(self).change_tick,
            ),
    {
        self.state.par_for_each_unchecked_manual(
            self.world,
            batch_size,
            f,
            self.last_change_tick,
            self.change_tick,
        )
    }

    /// The item of `entity`, for a query that only reads.
    pub fn get(&self, entity: Entity) -> (item: Result<QueryItem, QueryEntityError>)
        requires
            self.wf(),
        ensures
            match item {
                Ok(item) => self.item_for(entity) == Ok::<ItemView, QueryEntityError>(item@),
                Err(error) => self.item_for(entity) == Err::<ItemView, QueryEntityError>(error),
            },
    {
        self.state.get_unchecked_manual(
            self.world,
            entity,
            self.last_change_tick,
            self.change_tick,
        )
    }

    /// The item of `entity`, for a query that has the world to itself.
    pub fn get_mut(&mut self, entity: Entity) -> (item: Result<QueryItem, QueryEntityError>)
        requires
            old(self).wf(),
        ensures
            *final(self) == *old(self),
            match item {
                Ok(item) => old(self).item_for(entity) == Ok::<ItemView, QueryEntityError>(item@),
                Err(error) => old(self).item_for(entity) == Err::<ItemView, QueryEntityError>(
                    error,
                ),
            },
    {
        self.state.get_unchecked_manual(
            self.world,
            entity,
            self.last_change_tick,
            self.change_tick,
        )
    }

    /// The item of `entity`, whatever the query reads or writes. The answer is that of
    /// `get`; it is for a caller that makes sure by other means that no slot which it
    /// writes through is handed out twice.
    pub fn get_unchecked(&self, entity: Entity) -> (item: Result<QueryItem, QueryEntityError>)
        requires
            self.wf(),
        ensures
            match item {
                Ok(item) => self.item_for(entity) == Ok::<ItemView, QueryEntityError>(item@),
                Err(error) => self.item_for(entity) == Err::<ItemView, QueryEntityError>(error),
            },
    {
        self.get(entity)
    }

    /// What the query answers when it is asked for the component of type `type_id` of
    /// `entity`, for writing where `write`: the slot of the component, unless the
    /// entity is not alive, the type is not registered, the entity does not hold the
    /// component, or the query has not claimed it.
    pub open spec fn component_for(&self, entity: Entity, type_id: u64, write: bool) -> Result<
        ComponentRef,
        QueryComponentError,
    > {
        match self.world.location(entity) {
            None => Err(QueryComponentError::NoSuchEntity),
            Some(location) => match self.world.components.id_of(TypeKey::Type(type_id)) {
                None => Err(QueryComponentError::MissingComponent),
                Some(component_id) => {
                    let archetype = self.world.archetypes[location.archetype_id as int];
                    match archetype.component(component_id) {
                        None => Err(QueryComponentError::MissingComponent),
                        Some(component) => {
                            let id = component.archetype_component_id as int;
                            if write {
                                if access_writes(self.state.archetype_component_access).contains(
                                    id,
                                ) {
                                    Ok(
                                        archetype_slot(
                                            component_id,
                                            component.storage_type,
                                            archetype,
                                            location.index as int,
                                        ),
                                    )
                                } else {
                                    Err(QueryComponentError::MissingWriteAccess)
                                }
                            } else if access_reads(self.state.archetype_component_access).contains(
                                id,
                            ) {
                                Ok(
                                    archetype_slot(
                                        component_id,
                                        component.storage_type,
                                        archetype,
                                        location.index as int,
                                    ),
                                )
                            } else {
                                Err(QueryComponentError::MissingReadAccess)
                            }
                        },
                    }
                },
            },
        }
    }

    /// The slot of the component of type `type_id` of `entity`, for reading. It is
    /// given where the query has claimed the component of the archetype of the entity,
    /// whatever the shape of the query.
    pub fn get_component(&self, entity: Entity, type_id: u64) -> (component: Result<
        ComponentRef,
        QueryComponentError,
    >)
        requires
            self.wf(),
        ensures
            component == self.component_for(entity, type_id, false),
    {
        let location = match self.world.get(entity) {
            Some(location) => location,
            None => {
                return Err(QueryComponentError::NoSuchEntity);
            },
        };
        let component_id = match self.world.components.get_id(TypeKey::Type(type_id)) {
            Some(component_id) => component_id,
            None => {
                return Err(QueryComponentError::MissingComponent);
            },
        };
        proof {
            assert(self.world.meta_wf(entity.id as int));
            assert(self.world.archetype_wf(location.archetype_id as int));
        }
        let archetype = &self.world.archetypes[location.archetype_id];
        let held = match archetype.get_component(component_id) {
            Some(held) => held,
            None => {
                return Err(QueryComponentError::MissingComponent);
            },
        };
        if self.state.archetype_component_access.has_read(held.archetype_component_id) {
            Ok(slot_of(component_id, held.storage_type, archetype, location.index))
        } else {
            Err(QueryComponentError::MissingReadAccess)
        }
    }

    /// The slot of the component of type `type_id` of `entity`, for writing.
    pub fn get_component_unchecked_mut(&self, entity: Entity, type_id: u64) -> (component: Result<
        ComponentRef,
        QueryComponentError,
    >)
        requires
            self.wf(),
        ensures
            component == self.component_for(entity, type_id, true),
    {
        let location = match self.world.get(entity) {
            Some(location) => location,
            None => {
                return Err(QueryComponentError::NoSuchEntity);
            },
        };
        let component_id = match self.world.components.get_id(TypeKey::Type(type_id)) {
            Some(component_id) => component_id,
            None => {
                return Err(QueryComponentError::MissingComponent);
            },
        };
        proof {
            assert(self.world.meta_wf(entity.id as int));
            assert(self.world.archetype_wf(location.archetype_id as int));
        }
        let archetype = &self.world.archetypes[location.archetype_id];
        let held = match archetype.get_component(component_id) {
            Some(held) => held,
            None => {
                return Err(QueryComponentError::MissingComponent);
            },
        };
        if self.state.archetype_component_access.has_write(held.archetype_component_id) {
            Ok(slot_of(component_id, held.storage_type, archetype, location.index))
        } else {
            Err(QueryComponentError::MissingWriteAccess)
        }
    }

    /// The slot of the component of type `type_id` of `entity`, for writing, for a
    /// query that has the world to itself.
    pub fn get_component_mut(&mut self, entity: Entity, type_id: u64) -> (component: Result<
        ComponentRef,
        QueryComponentError,
    >)
        requires
            old(self).wf(),
        ensures
            *final(self) == *old(self),
            component == old(self).component_for(entity, type_id, true),
    {
        self.get_component_unchecked_mut(entity, type_id)
    }

    /// What `single` answers: the one item of the query, or which of the two ways of
    /// not having exactly one item holds.
    pub open spec fn single_item(&self) -> Result<ItemView, QuerySingleError> {
        if self.items().len() == 0 {
            Err(QuerySingleError::NoEntities)
        } else if self.items().len() == 1 {
            Ok(self.items()[0])
        } else {
            Err(QuerySingleError::MultipleEntities)
        }
    }

    /// The one item of a query that only reads. A query with no item and a query with
    /// several are told apart; no item is picked among several.
    pub fn single(&self) -> (item: Result<QueryItem, QuerySingleError>)
        requires
            self.wf(),
        ensures
            match item {
                Ok(item) => self.single_item() == Ok::<ItemView, QuerySingleError>(item@),
                Err(error) => self.single_item() == Err::<ItemView, QuerySingleError>(error),
            },
    {
        let mut query = self.iter();
        let first = query.next();
        let extra = query.next().is_some();
        match first {
            Some(item) => if extra {
                Err(QuerySingleError::MultipleEntities)
            } else {
                Ok(item)
            },
            None => Err(QuerySingleError::NoEntities),
        }
    }

    /// The one item of a query that has the world to itself.
    pub fn single_mut(&mut self) -> (item: Result<QueryItem, QuerySingleError>)
        requires
            old(self).wf(),
        ensures
            *final(self) == *old(self),
            match item {
                Ok(item) => old(self).single_item() == Ok::<ItemView, QuerySingleError>(item@),
                Err(error) => old(self).single_item() == Err::<ItemView, QuerySingleError>(error),
            },
    {
        self.single()
    }
}

/// The slot of a component for the entity at position `index` of `archetype`.
fn slot_of(
    component_id: usize,
    storage_type: crate::world::StorageType,
    archetype: &crate::world::Archetype,
    index: usize,
) -> (slot: ComponentRef)
    requires
        index < archetype.entities.len(),
        archetype.entity_table_rows.len() == archetype.entities.len(),
    ensures
        slot == archetype_slot(component_id, storage_type, *archetype, index as int),
{
    match storage_type {
        crate::world::StorageType::Table => ComponentRef {
            component_id,
            slot: crate::other_world_query::Slot::Table {
                table_id: archetype.table_id,
                row: archetype.entity_table_rows[index],
            },
        },
        crate::world::StorageType::SparseSet => ComponentRef {
            component_id,
            slot: crate::other_world_query::Slot::SparseSet { entity: archetype.entities[index] },
        },
    }
}

} // verus!
