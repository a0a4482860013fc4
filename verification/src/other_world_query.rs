//! What a query asks of a nested world, member by member: the state that is resolved
//! once for each member, and the cursor that finds the member's slot for a row.
use crate::access::{
    access_reads, access_writes, filtered_reads, filtered_with, filtered_without, filtered_writes,
    Access, FilteredAccess,
};
use crate::other_world::{lemma_other_position, other_position, PrimaryWorld};
use crate::ticks::{is_newer, ComponentTicks};
use crate::world::{
    key_position, lemma_key_position, lemma_registry_extension, lemma_world_registry_extension,
    registered, Archetype, ComponentInfo, Entity, StorageType, TypeKey, World,
};
use vstd::prelude::*;

verus! {

/// A component type of the nested world of index `world`. The primary world knows it
/// under a key of its own, by which claims on it are told apart from claims on the
/// same type in any other world.
#[derive(Clone, Copy, Debug, PartialEq, Eq, Structural)]
pub struct Other {
    pub type_id: u64,
    pub world: usize,
}

/// One member of the shape that a query asks for. A shape is a list of members, read
/// in lock-step by position; the empty list is the unit shape.
#[derive(Clone, Copy, Debug, PartialEq, Eq, Structural)]
pub enum Otherable {
    /// Nothing: matches every archetype and yields nothing.
    Unit,
    /// Shared access to the component of the given type.
    Read(u64),
    /// Exclusive access to the component of the given type.
    Write(u64),
}

/// The ids that one component type of a nested world resolves to.
#[derive(Clone, Copy, Debug, PartialEq, Eq, Structural)]
pub struct Registration {
    /// The id of the nested world, as a resource of the primary world.
    pub world_id: usize,
    /// The id under which the primary world knows the type.
    pub component_id: usize,
    /// The id of the type in the nested world.
    pub other_component_id: usize,
    /// How the nested world stores the type.
    pub storage_type: StorageType,
}

/// The state of a member that reads.
#[derive(Clone, Copy, Debug, PartialEq, Eq, Structural)]
pub struct OtherReadState {
    pub world_id: usize,
    pub component_id: usize,
    pub other_component_id: usize,
    pub storage_type: StorageType,
}

/// The state of a member that writes.
#[derive(Clone, Copy, Debug, PartialEq, Eq, Structural)]
pub struct OtherWriteState {
    pub world_id: usize,
    pub component_id: usize,
    pub other_component_id: usize,
    pub storage_type: StorageType,
}

/// Two worlds that differ in their registries at most.
pub open spec fn same_layout(a: World, b: World) -> bool {
    &&& a.id == b.id
    &&& a.archetypes == b.archetypes
    &&& a.tables == b.tables
    &&& a.entities == b.entities
    &&& a.resources == b.resources
    &&& a.last_change_tick == b.last_change_tick
    &&& a.change_tick == b.change_tick
}

impl Other {
    /// The key of the type in the registry of the primary world.
    pub open spec fn key(&self) -> TypeKey {
        TypeKey::Other(self.type_id, self.world)
    }

    /// The ids that the type has once it is registered in the registry `outer` of the
    /// primary world and in the registry `inner` of its nested world. A type that is
    /// new to a registry gets the next free id, and table storage.
    pub open spec fn registration_in(
        &self,
        outer: Seq<ComponentInfo>,
        inner: Seq<ComponentInfo>,
    ) -> Registration {
        let other_component_id = key_position(inner, TypeKey::Type(self.type_id));
        Registration {
            world_id: key_position(outer, TypeKey::OtherWorld(self.world)) as usize,
            component_id: key_position(outer, self.key()) as usize,
            other_component_id: other_component_id as usize,
            storage_type: registered(inner, TypeKey::Type(self.type_id), StorageType::Table)[other_component_id].storage_type,
        }
    }

    /// The ids that the type has once it is registered in both worlds.
    pub open spec fn registration(&self, primary: PrimaryWorld) -> Registration {
        self.registration_in(
            primary.world.components.infos@,
            primary.other(self.world).components.infos@,
        )
    }

    /// `after` is `before` with the type registered in the nested world and its key
    /// registered in the primary world; nothing else differs.
    pub open spec fn registered_in(&self, before: PrimaryWorld, after: PrimaryWorld) -> bool {
        let at = other_position(before.others@, self.world);
        &&& same_layout(after.world, before.world)
        &&& after.world.components.infos@ == registered(
            before.world.components.infos@,
            self.key(),
            StorageType::Table,
        )
        &&& after.others.len() == before.others.len()
        &&& forall|i: int|
            0 <= i < before.others.len() && i != at ==> after.others[i] == before.others[i]
        &&& after.others[at].index == self.world
        &&& same_layout(after.others[at].world, before.others[at].world)
        &&& after.others[at].world.components.infos@ == registered(
            before.others[at].world.components.infos@,
            TypeKey::Type(self.type_id),
            StorageType::Table,
        )
    }

    /// Registers the type in its nested world and its key in the primary world, and
    /// gives the ids. Without a nested world of that index nothing is registered and
    /// the answer is `None`.
    pub fn register(&self, primary: &mut PrimaryWorld) -> (ids: Option<Registration>)
        requires
            old(primary).wf(),
        ensures
            final(primary).wf(),
            match ids {
                Some(ids) => old(primary).has_other(self.world) && ids == self.registration(
                    *old(primary),
                ) && self.registered_in(*old(primary), *final(primary)) && ids.component_id
                    < final(primary).world.components.infos.len() && ids.world_id
                    < final(primary).world.components.infos.len(),
                None => !old(primary).has_other(self.world) && *final(primary) == *old(primary),
            },
    {
        let at = match primary.find_other(self.world) {
            Some(at) => at,
            None => {
                return None;
            },
        };
        let ghost before = *primary;
        proof {
            lemma_other_position(before.others@, self.world);
            assert(before.other_wf(at as int));
            lemma_key_position(before.world.components.infos@, TypeKey::OtherWorld(self.world));
            lemma_key_position(before.world.components.infos@, self.key());
            lemma_key_position(
                before.others[at as int].world.components.infos@,
                TypeKey::Type(self.type_id),
            );
        }
        let other_component_id = primary.others[at].world.components.get_or_insert(
            TypeKey::Type(self.type_id),
            StorageType::Table,
        );
        let component_id = primary.world.components.get_or_insert(
            TypeKey::Other(self.type_id, self.world),
            StorageType::Table,
        );
        let world_id = match primary.world.components.get_id(TypeKey::OtherWorld(self.world)) {
            Some(id) => id,
            None => {
                proof {
                    lemma_registry_extension(
                        before.world.components.infos@,
                        primary.world.components.infos@,
                        TypeKey::OtherWorld(self.world),
                    );
                }
                return None;
            },
        };
        let storage_type = primary.others[at].world.components.infos[other_component_id].storage_type;
        proof {
            lemma_registry_extension(
                before.world.components.infos@,
                primary.world.components.infos@,
                TypeKey::OtherWorld(self.world),
            );
            lemma_world_registry_extension(before.world, primary.world);
            lemma_world_registry_extension(
                before.others[at as int].world,
                primary.others[at as int].world,
            );
            assert forall|i: int| 0 <= i < primary.others.len() implies #[trigger] primary.other_wf(
                i,
            ) by {
                assert(before.other_wf(i));
                assert(primary.others[i].index == before.others[i].index);
                lemma_same_indices(before.others@, primary.others@, before.others[i].index);
                lemma_registry_extension(
                    before.world.components.infos@,
                    primary.world.components.infos@,
                    TypeKey::OtherWorld(before.others[i].index),
                );
            }
        }
        Some(Registration { world_id, component_id, other_component_id, storage_type })
    }
}

/// Lists of nested worlds with the same indices at the same places name the same
/// place for an index.
pub proof fn lemma_same_indices(
    a: Seq<crate::other_world::OtherWorld>,
    b: Seq<crate::other_world::OtherWorld>,
    index: usize,
)
    requires
        a.len() == b.len(),
        forall|i: int| 0 <= i < a.len() ==> a[i].index == b[i].index,
    ensures
        other_position(a, index) == other_position(b, index),
    decreases a.len(),
{
    if a.len() > 0 {
        assert(a[0].index == b[0].index);
        if a[0].index != index {
            let rest_a = a.skip(1);
            let rest_b = b.skip(1);
            assert forall|i: int| 0 <= i < rest_a.len() implies rest_a[i].index
                == rest_b[i].index by {
                assert(rest_a[i] == a[i + 1]);
                assert(rest_b[i] == b[i + 1]);
            }
            lemma_same_indices(rest_a, rest_b, index);
        }
    }
}


/// Why a parameter of a system could not be set up.
#[derive(Debug)]
pub enum ConfigurationError {
    /// The primary world holds no nested world of this index.
    MissingResource { world: usize },
    /// The nested world, whose resource id this is, is borrowed as a resource by the
    /// same system.
    OtherWorldBorrowed { world_id: usize },
    /// A member asks for exclusive access to a component that the same query
    /// accesses already.
    MutableAccessNotUnique { component_id: usize },
    /// The query collides on these component ids with a parameter that the system
    /// has already.
    ConflictingAccess { components: Vec<usize> },
}

/// Where the value of a component lives.
#[derive(Clone, Copy, Debug, PartialEq, Eq, Structural)]
pub enum Slot {
    /// In the column of the component, at this row of this table.
    Table { table_id: usize, row: usize },
    /// In the sparse set of the component, under this entity.
    SparseSet { entity: Entity },
}

/// One component of one entity: the id of the component in the nested world and the
/// slot that holds the value.
#[derive(Clone, Copy, Debug, PartialEq, Eq, Structural)]
pub struct ComponentRef {
    pub component_id: usize,
    pub slot: Slot,
}

/// What one member of a shape yields for a row: nothing, the slot of a component for
/// reading, or exclusive access to the slot of a component.
#[derive(Clone, Copy, Debug, PartialEq, Eq, Structural)]
pub enum Fetched {
    Unit,
    Read(ComponentRef),
    Write(OtherMut),
}

/// The slot of component `component_id` at row `row` of table `table_id`.
pub open spec fn table_slot(component_id: usize, table_id: usize, row: usize) -> ComponentRef {
    ComponentRef { component_id, slot: Slot::Table { table_id, row } }
}

/// The slot of component `component_id` for the entity at position `index` of
/// `archetype`: the table row that the archetype names for it, or the entity itself
/// as the key into the sparse set.
pub open spec fn archetype_slot(
    component_id: usize,
    storage_type: StorageType,
    archetype: Archetype,
    index: int,
) -> ComponentRef {
    match storage_type {
        StorageType::Table => ComponentRef {
            component_id,
            slot: Slot::Table {
                table_id: archetype.table_id,
                row: archetype.entity_table_rows[index],
            },
        },
        StorageType::SparseSet => ComponentRef {
            component_id,
            slot: Slot::SparseSet { entity: archetype.entities[index] },
        },
    }
}

impl Archetype {
    /// Every component of the archetype can be claimed: none has the largest id.
    pub open spec fn claimable(&self) -> bool {
        forall|j: int|
            0 <= j < self.components.len() ==> (
            #[trigger] self.components[j]).archetype_component_id < usize::MAX
    }
}

pub proof fn lemma_claimable(world: World, a: int)
    requires
        world.wf(),
        0 <= a < world.archetypes.len(),
    ensures
        world.archetypes[a].claimable(),
{
    assert(world.archetype_wf(a));
    assert forall|j: int| 0 <= j < world.archetypes[a].components.len() implies (
    #[trigger] world.archetypes[a].components[j]).archetype_component_id < usize::MAX by {
        assert(world.component_wf(a, j));
    }
}

impl OtherReadState {
    /// Resolves the member against the primary world and the nested world of `other`:
    /// registers the type where it is new, and records its ids. A nested world that
    /// the primary world does not hold is an error, and then nothing is registered.
    pub fn init(primary: &mut PrimaryWorld, other: Other) -> (state: Result<
        OtherReadState,
        ConfigurationError,
    >)
        requires
            old(primary).wf(),
        ensures
            final(primary).wf(),
            match state {
                Ok(state) => {
                    let ids = other.registration(*old(primary));
                    &&& old(primary).has_other(other.world)
                    &&& other.registered_in(*old(primary), *final(primary))
                    &&& state == (OtherReadState {
                        world_id: ids.world_id,
                        component_id: ids.component_id,
                        other_component_id: ids.other_component_id,
                        storage_type: ids.storage_type,
                    })
                    &&& state.component_id < final(primary).world.components.infos.len()
                    &&& state.world_id < final(primary).world.components.infos.len()
                },
                Err(error) => {
                    &&& !old(primary).has_other(other.world)
                    &&& *final(primary) == *old(primary)
                    &&& error matches ConfigurationError::MissingResource { world }
                    &&& world == other.world
                },
            },
    {
        match other.register(primary) {
            Some(ids) => Ok(
                OtherReadState {
                    world_id: ids.world_id,
                    component_id: ids.component_id,
                    other_component_id: ids.other_component_id,
                    storage_type: ids.storage_type,
                },
            ),
            None => Err(ConfigurationError::MissingResource { world: other.world }),
        }
    }

    /// Adds the read claim of the member to the claims of its query, under the id by
    /// which the primary world knows the component.
    pub fn update_component_access(&self, access: &mut FilteredAccess)
        requires
            self.component_id < usize::MAX,
        ensures
            filtered_reads(*final(access)) == filtered_reads(*old(access)).insert(
                self.component_id as int,
            ),
            filtered_writes(*final(access)) == filtered_writes(*old(access)),
            filtered_with(*final(access)) == filtered_with(*old(access)).insert(
                self.component_id as int,
            ),
            filtered_without(*final(access)) == filtered_without(*old(access)),
    {
        access.add_read(self.component_id)
    }

    /// Adds to `access` the read claim on the component as `archetype` holds it;
    /// nothing where the archetype does not hold it.
    pub fn update_archetype_component_access(&self, archetype: &Archetype, access: &mut Access)
        requires
            archetype.claimable(),
        ensures
            access_writes(*final(access)) == access_writes(*old(access)),
            access_reads(*final(access)) == match archetype.component(self.other_component_id) {
                Some(component) => access_reads(*old(access)).insert(
                    component.archetype_component_id as int,
                ),
                None => access_reads(*old(access)),
            },
    {
        if let Some(archetype_component_id) = archetype.get_archetype_component_id(
            self.other_component_id,
        ) {
            proof {
                crate::world::lemma_component_position(
                    archetype.components@,
                    self.other_component_id,
                );
            }
            access.add_read(archetype_component_id);
        }
    }

    /// Whether the entities of `archetype` hold the component.
    pub fn matches_archetype(&self, archetype: &Archetype) -> (matches: bool)
        ensures
            matches == archetype.has(self.other_component_id),
    {
        archetype.contains(self.other_component_id)
    }

    /// Whether `table` has a column for the component.
    pub fn matches_table(&self, table: &crate::world::Table) -> (matches: bool)
        ensures
            matches == table.has(self.other_component_id),
    {
        table.has_column(self.other_component_id)
    }
}

impl OtherWriteState {
    /// Resolves the member as `OtherReadState::init` does.
    pub fn init(primary: &mut PrimaryWorld, other: Other) -> (state: Result<
        OtherWriteState,
        ConfigurationError,
    >)
        requires
            old(primary).wf(),
        ensures
            final(primary).wf(),
            match state {
                Ok(state) => {
                    let ids = other.registration(*old(primary));
                    &&& old(primary).has_other(other.world)
                    &&& other.registered_in(*old(primary), *final(primary))
                    &&& state == (OtherWriteState {
                        world_id: ids.world_id,
                        component_id: ids.component_id,
                        other_component_id: ids.other_component_id,
                        storage_type: ids.storage_type,
                    })
                    &&& state.component_id < final(primary).world.components.infos.len()
                    &&& state.world_id < final(primary).world.components.infos.len()
                },
                Err(error) => {
                    &&& !old(primary).has_other(other.world)
                    &&& *final(primary) == *old(primary)
                    &&& error matches ConfigurationError::MissingResource { world }
                    &&& world == other.world
                },
            },
    {
        match other.register(primary) {
            Some(ids) => Ok(
                OtherWriteState {
                    world_id: ids.world_id,
                    component_id: ids.component_id,
                    other_component_id: ids.other_component_id,
                    storage_type: ids.storage_type,
                },
            ),
            None => Err(ConfigurationError::MissingResource { world: other.world }),
        }
    }

    /// Adds the write claim of the member to the claims of its query. Exclusive access
    /// must be unique: where the query reads or writes the component already, the claim
    /// is refused and nothing changes.
    pub fn update_component_access(&self, access: &mut FilteredAccess) -> (added: Result<
        (),
        ConfigurationError,
    >)
        requires
            self.component_id < usize::MAX,
        ensures
            match added {
                Ok(_) => {
                    &&& !filtered_reads(*old(access)).contains(self.component_id as int)
                    &&& filtered_reads(*final(access)) == filtered_reads(*old(access)).insert(
                        self.component_id as int,
                    )
                    &&& filtered_writes(*final(access)) == filtered_writes(*old(access)).insert(
                        self.component_id as int,
                    )
                    &&& filtered_with(*final(access)) == filtered_with(*old(access)).insert(
                        self.component_id as int,
                    )
                    &&& filtered_without(*final(access)) == filtered_without(*old(access))
                },
                Err(error) => {
                    &&& filtered_reads(*old(access)).contains(self.component_id as int)
                    &&& *final(access) == *old(access)
                    &&& error matches ConfigurationError::MutableAccessNotUnique { component_id }
                    &&& component_id == self.component_id
                },
            },
    {
        if access.has_read(self.component_id) {
            return Err(
                ConfigurationError::MutableAccessNotUnique { component_id: self.component_id },
            );
        }
        access.add_write(self.component_id);
        Ok(())
    }

    /// Adds to `access` the write claim on the component as `archetype` holds it;
    /// nothing where the archetype does not hold it.
    pub fn update_archetype_component_access(&self, archetype: &Archetype, access: &mut Access)
        requires
            archetype.claimable(),
        ensures
            match archetype.component(self.other_component_id) {
                Some(component) => {
                    &&& access_reads(*final(access)) == access_reads(*old(access)).insert(
                        component.archetype_component_id as int,
                    )
                    &&& access_writes(*final(access)) == access_writes(*old(access)).insert(
                        component.archetype_component_id as int,
                    )
                },
                None => {
                    &&& access_reads(*final(access)) == access_reads(*old(access))
                    &&& access_writes(*final(access)) == access_writes(*old(access))
                },
            },
    {
        if let Some(archetype_component_id) = archetype.get_archetype_component_id(
            self.other_component_id,
        ) {
            proof {
                crate::world::lemma_component_position(
                    archetype.components@,
                    self.other_component_id,
                );
            }
            access.add_write(archetype_component_id);
        }
    }

    /// Whether the entities of `archetype` hold the component.
    pub fn matches_archetype(&self, archetype: &Archetype) -> (matches: bool)
        ensures
            matches == archetype.has(self.other_component_id),
    {
        archetype.contains(self.other_component_id)
    }

    /// Whether `table` has a column for the component.
    pub fn matches_table(&self, table: &crate::world::Table) -> (matches: bool)
        ensures
            matches == table.has(self.other_component_id),
    {
        table.has_column(self.other_component_id)
    }
}

/// The cursor of a member that reads. It is placed on a table or on an archetype and
/// then names the slot of the component for a row.
#[derive(Clone, Copy)]
pub struct OtherReadFetch<'w> {
    pub storage_type: StorageType,
    pub component_id: usize,
    pub table_id: Option<usize>,
    pub archetype: Option<&'w Archetype>,
}

/// The cursor of a member that writes. It carries the ticks by which a change that
/// is made through it is stamped, and reads the ticks of the slots that it hands out
/// from the world.
#[derive(Clone, Copy)]
pub struct OtherWriteFetch<'w> {
    pub storage_type: StorageType,
    pub component_id: usize,
    pub table_id: Option<usize>,
    pub archetype: Option<&'w Archetype>,
    pub world: &'w World,
    pub last_change_tick: u32,
    pub change_tick: u32,
}

impl<'w> OtherReadFetch<'w> {
    /// The cursor can name the slot for position `index` of the archetype it is on.
    pub open spec fn on_archetype(&self, index: int) -> bool {
        match self.archetype {
            Some(archetype) => 0 <= index < archetype.entities.len()
                && archetype.entity_table_rows.len() == archetype.entities.len(),
            None => false,
        }
    }

    /// Whether the component lives in tables, so that rows of a table can be read
    /// without going through an archetype.
    pub fn is_dense(&self) -> (dense: bool)
        ensures
            dense == (self.storage_type == StorageType::Table),
    {
        match self.storage_type {
            StorageType::Table => true,
            StorageType::SparseSet => false,
        }
    }

    /// A cursor for `state` that is placed nowhere yet.
    pub fn init(state: &OtherReadState, last_change_tick: u32, change_tick: u32) -> (fetch: Self)
        ensures
            fetch.storage_type == state.storage_type,
            fetch.component_id == state.other_component_id,
            fetch.table_id.is_none(),
            fetch.archetype.is_none(),
    {
        OtherReadFetch {
            storage_type: state.storage_type,
            component_id: state.other_component_id,
            table_id: None,
            archetype: None,
        }
    }

    /// Places the cursor on `archetype`.
    pub fn set_archetype(&mut self, state: &OtherReadState, archetype: &'w Archetype)
        ensures
            final(self).storage_type == old(self).storage_type,
            final(self).component_id == old(self).component_id,
            final(self).archetype == Some(archetype),
            final(self).table_id == Some(archetype.table_id),
    {
        self.archetype = Some(archetype);
        self.table_id = Some(archetype.table_id);
    }

    /// Places the cursor on the table `table_id`.
    pub fn set_table(&mut self, state: &OtherReadState, table_id: usize)
        ensures
            final(self).storage_type == old(self).storage_type,
            final(self).component_id == old(self).component_id,
            final(self).archetype == old(self).archetype,
            final(self).table_id == Some(table_id),
    {
        self.table_id = Some(table_id);
    }

    /// The slot of the component for the entity at position `archetype_index` of the
    /// archetype that the cursor is on.
    pub fn archetype_fetch(&self, archetype_index: usize) -> (item: ComponentRef)
        requires
            self.on_archetype(archetype_index as int),
        ensures
            item == archetype_slot(
                self.component_id,
                self.storage_type,
                *self.archetype.unwrap(),
                archetype_index as int,
            ),
    {
        let archetype = self.archetype.unwrap();
        match self.storage_type {
            StorageType::Table => ComponentRef {
                component_id: self.component_id,
                slot: Slot::Table {
                    table_id: archetype.table_id,
                    row: archetype.entity_table_rows[archetype_index],
                },
            },
            StorageType::SparseSet => ComponentRef {
                component_id: self.component_id,
                slot: Slot::SparseSet { entity: archetype.entities[archetype_index] },
            },
        }
    }

    /// The slot of the component at row `table_row` of the table that the cursor is
    /// on.
    pub fn table_fetch(&self, table_row: usize) -> (item: ComponentRef)
        requires
            self.table_id.is_some(),
        ensures
            item == table_slot(self.component_id, self.table_id.unwrap(), table_row),
    {
        ComponentRef {
            component_id: self.component_id,
            slot: Slot::Table { table_id: self.table_id.unwrap(), row: table_row },
        }
    }
}

impl<'w> OtherWriteFetch<'w> {
    /// The cursor can hand out the slot for position `index` of the archetype it is
    /// on: the archetype has such a position and holds the component.
    pub open spec fn on_archetype(&self, index: int) -> bool {
        match self.archetype {
            Some(archetype) => {
                &&& 0 <= index < archetype.entities.len()
                &&& archetype.entity_table_rows.len() == archetype.entities.len()
                &&& archetype.ticks_wf()
                &&& archetype.has(self.component_id)
            },
            None => false,
        }
    }

    /// The cursor can hand out the slot for row `row` of the table it is on: the
    /// table has such a row, and the entity of the row holds the component.
    pub open spec fn on_table(&self, row: int) -> bool {
        match self.table_id {
            Some(table_id) => {
                &&& self.world.wf()
                &&& table_id < self.world.tables.len()
                &&& 0 <= row < self.world.tables[table_id as int].entities.len()
                &&& self.world.ticks_of(
                    self.world.tables[table_id as int].entities[row],
                    self.component_id,
                ).is_some()
            },
            None => false,
        }
    }

    /// What the cursor hands out for position `index` of the archetype it is on.
    pub open spec fn archetype_fetched(&self, index: int) -> OtherMut {
        let archetype = *self.archetype.unwrap();
        OtherMut {
            target: archetype_slot(self.component_id, self.storage_type, archetype, index),
            component_ticks: archetype.ticks_at(self.component_id, index).unwrap(),
            last_change_tick: self.last_change_tick,
            change_tick: self.change_tick,
        }
    }

    /// What the cursor hands out for row `row` of the table it is on.
    pub open spec fn table_fetched(&self, row: usize) -> OtherMut {
        let table_id = self.table_id.unwrap();
        OtherMut {
            target: table_slot(self.component_id, table_id, row),
            component_ticks: self.world.ticks_of(
                self.world.tables[table_id as int].entities[row as int],
                self.component_id,
            ).unwrap(),
            last_change_tick: self.last_change_tick,
            change_tick: self.change_tick,
        }
    }

    /// Whether the component lives in tables.
    pub fn is_dense(&self) -> (dense: bool)
        ensures
            dense == (self.storage_type == StorageType::Table),
    {
        match self.storage_type {
            StorageType::Table => true,
            StorageType::SparseSet => false,
        }
    }

    /// A cursor for `state` over `world` that is placed nowhere yet.
    pub fn init(
        world: &'w World,
        state: &OtherWriteState,
        last_change_tick: u32,
        change_tick: u32,
    ) -> (fetch: Self)
        ensures
            fetch.storage_type == state.storage_type,
            fetch.component_id == state.other_component_id,
            fetch.table_id.is_none(),
            fetch.archetype.is_none(),
            fetch.world == world,
            fetch.last_change_tick == last_change_tick,
            fetch.change_tick == change_tick,
    {
        OtherWriteFetch {
            storage_type: state.storage_type,
            component_id: state.other_component_id,
            table_id: None,
            archetype: None,
            world,
            last_change_tick,
            change_tick,
        }
    }

    /// Places the cursor on `archetype`.
    pub fn set_archetype(&mut self, state: &OtherWriteState, archetype: &'w Archetype)
        ensures
            final(self).storage_type == old(self).storage_type,
            final(self).component_id == old(self).component_id,
            final(self).world == old(self).world,
            final(self).last_change_tick == old(self).last_change_tick,
            final(self).change_tick == old(self).change_tick,
            final(self).archetype == Some(archetype),
            final(self).table_id == Some(archetype.table_id),
    {
        self.archetype = Some(archetype);
        self.table_id = Some(archetype.table_id);
    }

    /// Places the cursor on the table `table_id`.
    pub fn set_table(&mut self, state: &OtherWriteState, table_id: usize)
        ensures
            final(self).storage_type == old(self).storage_type,
            final(self).component_id == old(self).component_id,
            final(self).world == old(self).world,
            final(self).last_change_tick == old(self).last_change_tick,
            final(self).change_tick == old(self).change_tick,
            final(self).archetype == old(self).archetype,
            final(self).table_id == Some(table_id),
    {
        self.table_id = Some(table_id);
    }

    /// Exclusive access to the component of the entity at position `archetype_index`
    /// of the archetype that the cursor is on: the slot, the ticks that the component
    /// has, and the ticks of the run.
    pub fn archetype_fetch(&self, archetype_index: usize) -> (item: OtherMut)
        requires
            self.on_archetype(archetype_index as int),
        ensures
            item == self.archetype_fetched(archetype_index as int),
    {
        let archetype = self.archetype.unwrap();
        let target = match self.storage_type {
            StorageType::Table => ComponentRef {
                component_id: self.component_id,
                slot: Slot::Table {
                    table_id: archetype.table_id,
                    row: archetype.entity_table_rows[archetype_index],
                },
            },
            StorageType::SparseSet => ComponentRef {
                component_id: self.component_id,
                slot: Slot::SparseSet { entity: archetype.entities[archetype_index] },
            },
        };
        OtherMut {
            target,
            component_ticks: archetype.get_ticks(self.component_id, archetype_index).unwrap(),
            last_change_tick: self.last_change_tick,
            change_tick: self.change_tick,
        }
    }

    /// Exclusive access to the component at row `table_row` of the table that the
    /// cursor is on.
    pub fn table_fetch(&self, table_row: usize) -> (item: OtherMut)
        requires
            self.on_table(table_row as int),
        ensures
            item == self.table_fetched(table_row),
    {
        let table_id = self.table_id.unwrap();
        let entity = self.world.tables[table_id].entities[table_row];
        OtherMut {
            target: ComponentRef {
                component_id: self.component_id,
                slot: Slot::Table { table_id, row: table_row },
            },
            component_ticks: self.world.get_ticks(entity, self.component_id).unwrap(),
            last_change_tick: self.last_change_tick,
            change_tick: self.change_tick,
        }
    }
}

/// Exclusive access to one component slot, with what is needed to tell whether the
/// slot was added or changed since the system last ran, and to stamp a change.
#[derive(Clone, Copy, Debug, PartialEq, Eq, Structural)]
pub struct OtherMut {
    pub target: ComponentRef,
    pub component_ticks: ComponentTicks,
    pub last_change_tick: u32,
    pub change_tick: u32,
}

impl OtherMut {
    /// Exclusive access to the component behind `target`, which belongs to `entity`,
    /// for a system that last ran at `last_change_tick` and runs at `change_tick`.
    /// `None` where the entity does not hold the component.
    pub fn new(
        world: &World,
        entity: Entity,
        target: ComponentRef,
        last_change_tick: u32,
        change_tick: u32,
    ) -> (held: Option<OtherMut>)
        requires
            world.wf(),
        ensures
            held == match world.ticks_of(entity, target.component_id) {
                Some(component_ticks) => Some(
                    OtherMut { target, component_ticks, last_change_tick, change_tick },
                ),
                None => None,
            },
    {
        match world.get_ticks(entity, target.component_id) {
            Some(component_ticks) => Some(
                OtherMut { target, component_ticks, last_change_tick, change_tick },
            ),
            None => None,
        }
    }

    /// Whether the component was added since the system last ran.
    pub fn is_added(&self) -> (added: bool)
        ensures
            added == is_newer(self.component_ticks.added, self.last_change_tick, self.change_tick),
    {
        self.component_ticks.is_added(self.last_change_tick, self.change_tick)
    }

    /// Whether the component was changed since the system last ran.
    pub fn is_changed(&self) -> (changed: bool)
        ensures
            changed == is_newer(
                self.component_ticks.changed,
                self.last_change_tick,
                self.change_tick,
            ),
    {
        self.component_ticks.is_changed(self.last_change_tick, self.change_tick)
    }

    /// Takes the slot for writing, which stamps it as changed at the current tick.
    pub fn deref_mut(&mut self) -> (target: ComponentRef)
        ensures
            target == old(self).target,
            *final(self) == (OtherMut {
                component_ticks: ComponentTicks {
                    added: old(self).component_ticks.added,
                    changed: old(self).change_tick,
                },
                ..*old(self)
            }),
    {
        self.component_ticks.set_changed(self.change_tick);
        self.target
    }

    /// The slot, for reading.
    pub fn deref(&self) -> (target: ComponentRef)
        ensures
            target == self.target,
    {
        self.target
    }
}

} // verus!
