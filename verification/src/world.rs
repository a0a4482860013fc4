//! The layout of an entity store: which archetypes and tables exist, which component
//! ids they hold, and where each entity lives. Component values stay in the store
//! itself; queries need the layout alone and hand back rows of it.
use vstd::prelude::*;

verus! {

/// An entity: a slot of the entity table and the generation that the slot had when the
/// entity was spawned.
#[derive(Clone, Copy, Debug, PartialEq, Eq, Structural)]
pub struct Entity {
    pub id: u32,
    pub generation: u32,
}

/// How the values of one component type are stored.
#[derive(Clone, Copy, Debug, PartialEq, Eq, Structural)]
pub enum StorageType {
    /// In a column of the table of the entity's archetype.
    Table,
    /// In a sparse set of the component, keyed by entity.
    SparseSet,
}

/// Where an entity lives: its archetype and its position among that archetype's
/// entities.
#[derive(Clone, Copy, Debug, PartialEq, Eq, Structural)]
pub struct EntityLocation {
    pub archetype_id: usize,
    pub index: usize,
}

/// What a component id of a registry stands for.
#[derive(Clone, Copy, Debug, PartialEq, Eq, Structural)]
pub enum TypeKey {
    /// A component or resource type of the world that owns the registry.
    Type(u64),
    /// A type that belongs to the nested world of the given index. The outer world
    /// stores nothing under this id; it serves to tell claims apart.
    Other(u64, usize),
    /// The nested world of the given index, held as a resource.
    OtherWorld(usize),
}

/// One registered type.
#[derive(Clone, Copy, Debug)]
pub struct ComponentInfo {
    pub key: TypeKey,
    pub storage_type: StorageType,
}

/// The registry of a world. A component id is a position in it.
pub struct Components {
    pub infos: Vec<ComponentInfo>,
}

/// One component type of an archetype.
#[derive(Clone, Copy, Debug)]
pub struct ArchetypeComponent {
    pub component_id: usize,
    pub storage_type: StorageType,
    /// The id of this component within this archetype, unique in the world.
    pub archetype_component_id: usize,
}

/// The entities that hold exactly one set of component types. Its id is its position
/// among the archetypes of the world, and it never changes its components or table.
pub struct Archetype {
    pub id: usize,
    pub table_id: usize,
    pub components: Vec<ArchetypeComponent>,
    pub entities: Vec<Entity>,
    /// For each entity, in the same order, its row in the table.
    pub entity_table_rows: Vec<usize>,
    /// For each component, in the order of `components`, the ticks of that component
    /// for each entity, in the order of `entities`.
    pub ticks: Vec<Vec<crate::ticks::ComponentTicks>>,
}

/// Columnar storage: a column per component id, a row per entity.
pub struct Table {
    pub columns: Vec<usize>,
    pub entities: Vec<Entity>,
}

/// One slot of the entity table.
#[derive(Clone, Copy, Debug)]
pub struct EntityMeta {
    pub generation: u32,
    pub location: Option<EntityLocation>,
}

/// A resource that a world holds: the id of its type and the ticks of its value.
#[derive(Clone, Copy, Debug)]
pub struct Resource {
    pub component_id: usize,
    pub ticks: crate::ticks::ComponentTicks,
}

/// An entity store.
pub struct World {
    pub id: u64,
    pub components: Components,
    pub resources: Vec<Resource>,
    pub archetypes: Vec<Archetype>,
    pub tables: Vec<Table>,
    pub entities: Vec<EntityMeta>,
    pub last_change_tick: u32,
    pub change_tick: u32,
}

/// The position of the first info with key `key`, or the length where there is none.
pub open spec fn key_position(infos: Seq<ComponentInfo>, key: TypeKey) -> int
    decreases infos.len(),
{
    if infos.len() == 0 {
        0
    } else if infos[0].key == key {
        0
    } else {
        1 + key_position(infos.skip(1), key)
    }
}

pub proof fn lemma_key_position(infos: Seq<ComponentInfo>, key: TypeKey)
    ensures
        0 <= key_position(infos, key) <= infos.len(),
        key_position(infos, key) < infos.len() ==> infos[key_position(infos, key)].key == key,
        forall|i: int| 0 <= i < key_position(infos, key) ==> (#[trigger] infos[i]).key != key,
    decreases infos.len(),
{
    if infos.len() > 0 && infos[0].key != key {
        let rest = infos.skip(1);
        lemma_key_position(rest, key);
        assert forall|i: int| 0 <= i < key_position(infos, key) implies (#[trigger] infos[i]).key
            != key by {
            if i > 0 {
                assert(infos[i] == rest[i - 1]);
            }
        }
    }
}

/// Whatever position is the first to hold `key` is the position that `key_position`
/// names.
pub proof fn lemma_key_position_is(infos: Seq<ComponentInfo>, key: TypeKey, at: int)
    requires
        0 <= at <= infos.len(),
        at < infos.len() ==> infos[at].key == key,
        forall|i: int| 0 <= i < at ==> (#[trigger] infos[i]).key != key,
    ensures
        key_position(infos, key) == at,
{
    lemma_key_position(infos, key);
    let found = key_position(infos, key);
    if found < at {
        assert(infos[found].key != key);
    } else if found > at {
        assert(infos[at].key == key);
    }
}

/// The registry after `key` was asked for: as it was where it held the key, else with
/// the key at its end, stored as `storage_type`.
pub open spec fn registered(
    infos: Seq<ComponentInfo>,
    key: TypeKey,
    storage_type: StorageType,
) -> Seq<ComponentInfo> {
    if key_position(infos, key) < infos.len() {
        infos
    } else {
        infos.push(ComponentInfo { key, storage_type })
    }
}

impl Components {
    /// No key is registered twice.
    pub open spec fn wf(&self) -> bool {
        forall|i: int, j: int|
            0 <= i < j < self.infos.len() ==> (#[trigger] self.infos[i]).key != (
            #[trigger] self.infos[j]).key
    }

    /// The id under which `key` is registered.
    pub open spec fn id_of(&self, key: TypeKey) -> Option<usize> {
        let at = key_position(self.infos@, key);
        if at < self.infos.len() {
            Some(at as usize)
        } else {
            None
        }
    }

    pub fn new() -> (components: Components)
        ensures
            components.infos@.len() == 0,
            components.wf(),
    {
        Components { infos: Vec::new() }
    }

    pub fn len(&self) -> (len: usize)
        ensures
            len == self.infos.len(),
    {
        self.infos.len()
    }

    /// The id of `key`, or `None` where it was never registered.
    pub fn get_id(&self, key: TypeKey) -> (id: Option<usize>)
        ensures
            id == self.id_of(key),
    {
        let mut i: usize = 0;
        while i < self.infos.len()
            invariant
                i <= self.infos.len(),
                forall|k: int| 0 <= k < i ==> (#[trigger] self.infos[k]).key != key,
            decreases self.infos.len() - i,
        {
            if self.infos[i].key == key {
                proof {
                    lemma_key_position_is(self.infos@, key, i as int);
                }
                return Some(i);
            }
            i += 1;
        }
        proof {
            lemma_key_position_is(self.infos@, key, i as int);
        }
        None
    }

    /// The info registered under `id`.
    pub fn get_info(&self, id: usize) -> (info: Option<ComponentInfo>)
        ensures
            info == if id < self.infos.len() {
                Some(self.infos[id as int])
            } else {
                None
            },
    {
        if id < self.infos.len() {
            Some(self.infos[id])
        } else {
            None
        }
    }

    /// The id of `key`, which is registered with `storage_type` first where it was not
    /// registered yet. A key that is registered keeps the storage it has.
    pub fn get_or_insert(&mut self, key: TypeKey, storage_type: StorageType) -> (id: usize)
        requires
            old(self).wf(),
        ensures
            final(self).wf(),
            final(self).id_of(key) == Some(id),
            final(self).infos@ == registered(old(self).infos@, key, storage_type),
            id == key_position(old(self).infos@, key),
    {
        proof {
            lemma_key_position(self.infos@, key);
        }
        match self.get_id(key) {
            Some(known) => known,
            None => {
                let id = self.infos.len();
                proof {
                    lemma_key_position(old(self).infos@, key);
                }
                self.infos.push(ComponentInfo { key, storage_type });
                proof {
                    assert forall|k: int| 0 <= k < id implies (#[trigger] self.infos[k]).key
                        != key by {
                        assert(self.infos[k] == old(self).infos[k]);
                    }
                    lemma_key_position_is(self.infos@, key, id as int);
                }
                id
            },
        }
    }

    /// Whether no key is registered twice.
    pub fn is_valid(&self) -> (valid: bool)
        ensures
            valid == self.wf(),
    {
        let mut j: usize = 0;
        while j < self.infos.len()
            invariant
                j <= self.infos.len(),
                forall|a: int, b: int|
                    0 <= a < b < j ==> (#[trigger] self.infos[a]).key != (
                    #[trigger] self.infos[b]).key,
            decreases self.infos.len() - j,
        {
            let mut i: usize = 0;
            while i < j
                invariant
                    i <= j < self.infos.len(),
                    forall|a: int| 0 <= a < i ==> (#[trigger] self.infos[a]).key != self.infos[j as int].key,
                decreases j - i,
            {
                if self.infos[i].key == self.infos[j].key {
                    return false;
                }
                i += 1;
            }
            j += 1;
        }
        true
    }
}

/// The position of the first component with id `component_id`, or the length where
/// there is none.
pub open spec fn component_position(components: Seq<ArchetypeComponent>, component_id: usize) -> int
    decreases components.len(),
{
    if components.len() == 0 {
        0
    } else if components[0].component_id == component_id {
        0
    } else {
        1 + component_position(components.skip(1), component_id)
    }
}

pub proof fn lemma_component_position(components: Seq<ArchetypeComponent>, component_id: usize)
    ensures
        0 <= component_position(components, component_id) <= components.len(),
        component_position(components, component_id) < components.len()
            ==> components[component_position(components, component_id)].component_id
            == component_id,
        forall|i: int|
            0 <= i < component_position(components, component_id) ==> (
            #[trigger] components[i]).component_id != component_id,
    decreases components.len(),
{
    if components.len() > 0 && components[0].component_id != component_id {
        let rest = components.skip(1);
        lemma_component_position(rest, component_id);
        assert forall|i: int| 0 <= i < component_position(components, component_id) implies (
        #[trigger] components[i]).component_id != component_id by {
            if i > 0 {
                assert(components[i] == rest[i - 1]);
            }
        }
    }
}

pub proof fn lemma_component_position_is(
    components: Seq<ArchetypeComponent>,
    component_id: usize,
    at: int,
)
    requires
        0 <= at <= components.len(),
        at < components.len() ==> components[at].component_id == component_id,
        forall|i: int| 0 <= i < at ==> (#[trigger] components[i]).component_id != component_id,
    ensures
        component_position(components, component_id) == at,
{
    lemma_component_position(components, component_id);
    let found = component_position(components, component_id);
    if found < at {
        assert(components[found].component_id != component_id);
    } else if found > at {
        assert(components[at].component_id == component_id);
    }
}

impl Archetype {
    /// Every component has ticks for every entity.
    pub open spec fn ticks_wf(&self) -> bool {
        &&& self.ticks.len() == self.components.len()
        &&& forall|j: int|
            0 <= j < self.ticks.len() ==> (#[trigger] self.ticks[j]).len() == self.entities.len()
    }

    /// The ticks of the component `component_id` for the entity at position `index`,
    /// where the archetype holds the component.
    pub open spec fn ticks_at(&self, component_id: usize, index: int) -> Option<
        crate::ticks::ComponentTicks,
    > {
        let at = component_position(self.components@, component_id);
        if at < self.components.len() {
            Some(self.ticks[at][index])
        } else {
            None
        }
    }

    /// Where the component `component_id` stands among the components.
    pub fn position(&self, component_id: usize) -> (at: Option<usize>)
        ensures
            at == if self.has(component_id) {
                Some(component_position(self.components@, component_id) as usize)
            } else {
                None
            },
    {
        let mut i: usize = 0;
        while i < self.components.len()
            invariant
                i <= self.components.len(),
                forall|k: int|
                    0 <= k < i ==> (#[trigger] self.components[k]).component_id != component_id,
            decreases self.components.len() - i,
        {
            if self.components[i].component_id == component_id {
                proof {
                    lemma_component_position_is(self.components@, component_id, i as int);
                }
                return Some(i);
            }
            i += 1;
        }
        proof {
            lemma_component_position_is(self.components@, component_id, i as int);
        }
        None
    }

    /// The ticks of the component `component_id` for the entity at position `index`.
    pub fn get_ticks(&self, component_id: usize, index: usize) -> (ticks: Option<
        crate::ticks::ComponentTicks,
    >)
        requires
            self.ticks_wf(),
            index < self.entities.len(),
        ensures
            ticks == self.ticks_at(component_id, index as int),
    {
        proof {
            lemma_component_position(self.components@, component_id);
        }
        match self.position(component_id) {
            Some(at) => Some(self.ticks[at][index]),
            None => None,
        }
    }

    /// Whether every component has ticks for every entity.
    pub fn has_all_ticks(&self) -> (valid: bool)
        ensures
            valid == self.ticks_wf(),
    {
        if self.ticks.len() != self.components.len() {
            return false;
        }
        let mut j: usize = 0;
        while j < self.ticks.len()
            invariant
                j <= self.ticks.len(),
                forall|k: int| 0 <= k < j ==> (#[trigger] self.ticks[k]).len() == self.entities.len(),
            decreases self.ticks.len() - j,
        {
            if self.ticks[j].len() != self.entities.len() {
                return false;
            }
            j += 1;
        }
        true
    }

    /// The archetype holds the component `component_id`.
    pub open spec fn has(&self, component_id: usize) -> bool {
        component_position(self.components@, component_id) < self.components.len()
    }

    /// The component of the archetype with id `component_id`.
    pub open spec fn component(&self, component_id: usize) -> Option<ArchetypeComponent> {
        let at = component_position(self.components@, component_id);
        if at < self.components.len() {
            Some(self.components[at])
        } else {
            None
        }
    }

    /// The number of entities in the archetype.
    pub fn len(&self) -> (len: usize)
        ensures
            len == self.entities.len(),
    {
        self.entities.len()
    }

    /// The component of the archetype with id `component_id`, where it has one.
    pub fn get_component(&self, component_id: usize) -> (found: Option<ArchetypeComponent>)
        ensures
            found == self.component(component_id),
    {
        let mut i: usize = 0;
        while i < self.components.len()
            invariant
                i <= self.components.len(),
                forall|k: int|
                    0 <= k < i ==> (#[trigger] self.components[k]).component_id != component_id,
            decreases self.components.len() - i,
        {
            if self.components[i].component_id == component_id {
                proof {
                    lemma_component_position_is(self.components@, component_id, i as int);
                }
                return Some(self.components[i]);
            }
            i += 1;
        }
        proof {
            lemma_component_position_is(self.components@, component_id, i as int);
        }
        None
    }

    /// Whether the archetype holds the component `component_id`.
    pub fn contains(&self, component_id: usize) -> (held: bool)
        ensures
            held == self.has(component_id),
    {
        self.get_component(component_id).is_some()
    }

    /// The id that `component_id` has within this archetype.
    pub fn get_archetype_component_id(&self, component_id: usize) -> (id: Option<usize>)
        ensures
            id == match self.component(component_id) {
                Some(component) => Some(component.archetype_component_id),
                None => None,
            },
    {
        match self.get_component(component_id) {
            Some(component) => Some(component.archetype_component_id),
            None => None,
        }
    }
}

impl Table {
    /// The table has a column for `component_id`.
    pub open spec fn has(&self, component_id: usize) -> bool {
        self.columns@.contains(component_id)
    }

    /// The number of rows.
    pub fn len(&self) -> (len: usize)
        ensures
            len == self.entities.len(),
    {
        self.entities.len()
    }

    /// Whether the table has a column for `component_id`.
    pub fn has_column(&self, component_id: usize) -> (held: bool)
        ensures
            held == self.has(component_id),
    {
        let mut i: usize = 0;
        while i < self.columns.len()
            invariant
                i <= self.columns.len(),
                forall|k: int| 0 <= k < i ==> self.columns[k] != component_id,
            decreases self.columns.len() - i,
        {
            if self.columns[i] == component_id {
                return true;
            }
            i += 1;
        }
        false
    }
}


/// The position of the first resource of type `component_id`, or the length where
/// there is none.
pub open spec fn resource_position(resources: Seq<Resource>, component_id: usize) -> int
    decreases resources.len(),
{
    if resources.len() == 0 {
        0
    } else if resources[0].component_id == component_id {
        0
    } else {
        1 + resource_position(resources.skip(1), component_id)
    }
}

pub proof fn lemma_resource_position(resources: Seq<Resource>, component_id: usize)
    ensures
        0 <= resource_position(resources, component_id) <= resources.len(),
        resource_position(resources, component_id) < resources.len()
            ==> resources[resource_position(resources, component_id)].component_id
            == component_id,
        forall|i: int|
            0 <= i < resource_position(resources, component_id) ==> (
            #[trigger] resources[i]).component_id != component_id,
    decreases resources.len(),
{
    if resources.len() > 0 && resources[0].component_id != component_id {
        let rest = resources.skip(1);
        lemma_resource_position(rest, component_id);
        assert forall|i: int| 0 <= i < resource_position(resources, component_id) implies (
        #[trigger] resources[i]).component_id != component_id by {
            if i > 0 {
                assert(resources[i] == rest[i - 1]);
            }
        }
    }
}

pub proof fn lemma_resource_position_is(resources: Seq<Resource>, component_id: usize, at: int)
    requires
        0 <= at <= resources.len(),
        at < resources.len() ==> resources[at].component_id == component_id,
        forall|i: int| 0 <= i < at ==> (#[trigger] resources[i]).component_id != component_id,
    ensures
        resource_position(resources, component_id) == at,
{
    lemma_resource_position(resources, component_id);
    let found = resource_position(resources, component_id);
    if found < at {
        assert(resources[found].component_id != component_id);
    } else if found > at {
        assert(resources[at].component_id == component_id);
    }
}

impl World {
    /// The resource of type `component_id` that the world holds.
    pub open spec fn resource(&self, component_id: usize) -> Option<Resource> {
        let at = resource_position(self.resources@, component_id);
        if at < self.resources.len() {
            Some(self.resources[at])
        } else {
            None
        }
    }

    /// The resource of type `component_id`, where the world holds one.
    pub fn get_resource(&self, component_id: usize) -> (resource: Option<Resource>)
        ensures
            resource == self.resource(component_id),
    {
        let mut i: usize = 0;
        while i < self.resources.len()
            invariant
                i <= self.resources.len(),
                forall|k: int|
                    0 <= k < i ==> (#[trigger] self.resources[k]).component_id != component_id,
            decreases self.resources.len() - i,
        {
            if self.resources[i].component_id == component_id {
                proof {
                    lemma_resource_position_is(self.resources@, component_id, i as int);
                }
                return Some(self.resources[i]);
            }
            i += 1;
        }
        proof {
            lemma_resource_position_is(self.resources@, component_id, i as int);
        }
        None
    }

    /// Where `entity` lives: `None` where its slot does not exist, has another
    /// generation, or holds no location.
    pub open spec fn location(&self, entity: Entity) -> Option<EntityLocation> {
        if entity.id < self.entities.len() && self.entities[entity.id as int].generation
            == entity.generation {
            self.entities[entity.id as int].location
        } else {
            None
        }
    }

    /// The entity at position `i` of archetype `a` stands in the table row that the
    /// archetype names for it, and the entity table sends it back to `(a, i)`.
    pub open spec fn row_wf(&self, a: int, i: int) -> bool {
        let archetype = self.archetypes[a];
        let row = archetype.entity_table_rows[i];
        let table = self.tables[archetype.table_id as int];
        &&& row < table.entities.len()
        &&& table.entities[row as int] == archetype.entities[i]
        &&& self.location(archetype.entities[i]) == Some(
            EntityLocation { archetype_id: a as usize, index: i as usize },
        )
    }

    /// Component `j` of archetype `a` is registered with the storage the archetype
    /// gives it, occurs once in the archetype, and has a column where it is stored in
    /// the table.
    pub open spec fn component_wf(&self, a: int, j: int) -> bool {
        let archetype = self.archetypes[a];
        let component = archetype.components[j];
        &&& component.component_id < self.components.infos.len()
        &&& component.archetype_component_id < usize::MAX
        &&& self.components.infos[component.component_id as int].storage_type
            == component.storage_type
        &&& component_position(archetype.components@, component.component_id) == j
        &&& component.storage_type == StorageType::Table ==> self.tables[archetype.table_id as int].has(
            component.component_id,
        )
    }

    /// Column `c` of the table of archetype `a` belongs to a component that the
    /// archetype stores in the table.
    pub open spec fn column_wf(&self, a: int, c: int) -> bool {
        let archetype = self.archetypes[a];
        let column = self.tables[archetype.table_id as int].columns[c];
        match archetype.component(column) {
            Some(component) => component.storage_type == StorageType::Table,
            None => false,
        }
    }

    pub open spec fn archetype_wf(&self, a: int) -> bool {
        let archetype = self.archetypes[a];
        &&& archetype.id == a
        &&& archetype.table_id < self.tables.len()
        &&& archetype.entity_table_rows.len() == archetype.entities.len()
        &&& archetype.ticks_wf()
        &&& forall|i: int| 0 <= i < archetype.entities.len() ==> #[trigger] self.row_wf(a, i)
        &&& forall|j: int| 0 <= j < archetype.components.len() ==> #[trigger] self.component_wf(a, j)
        &&& forall|c: int|
            0 <= c < self.tables[archetype.table_id as int].columns.len()
                ==> #[trigger] self.column_wf(a, c)
    }

    /// Row `r` of table `t` holds a live entity whose archetype names this very row.
    pub open spec fn table_row_wf(&self, t: int, r: int) -> bool {
        match self.location(self.tables[t].entities[r]) {
            Some(location) => {
                &&& location.archetype_id < self.archetypes.len()
                &&& location.index < self.archetypes[location.archetype_id as int].entity_table_rows.len()
                &&& self.archetypes[location.archetype_id as int].table_id == t
                &&& self.archetypes[location.archetype_id as int].entity_table_rows[location.index as int]
                    == r
            },
            None => false,
        }
    }

    /// Slot `k` of the entity table, where it holds a location, names a position at
    /// which the archetype holds the entity of this slot.
    pub open spec fn meta_wf(&self, k: int) -> bool {
        match self.entities[k].location {
            Some(location) => {
                &&& location.archetype_id < self.archetypes.len()
                &&& location.index < self.archetypes[location.archetype_id as int].entities.len()
                &&& self.archetypes[location.archetype_id as int].entities[location.index as int]
                    == Entity { id: k as u32, generation: self.entities[k].generation }
            },
            None => true,
        }
    }

    /// The layout is consistent: every live entity has exactly one location, which its
    /// archetype and its table agree on, and the tables hold the columns that the
    /// archetypes store in them, no others.
    pub open spec fn wf(&self) -> bool {
        &&& self.components.wf()
        &&& self.entities.len() <= u32::MAX
        &&& forall|a: int| 0 <= a < self.archetypes.len() ==> #[trigger] self.archetype_wf(a)
        &&& forall|t: int, r: int|
            0 <= t < self.tables.len() && 0 <= r < self.tables[t].entities.len()
                ==> #[trigger] self.table_row_wf(t, r)
        &&& forall|k: int| 0 <= k < self.entities.len() ==> #[trigger] self.meta_wf(k)
    }

    /// The ticks of the component `component_id` of `entity`: `None` where the entity
    /// is not alive or does not hold the component.
    pub open spec fn ticks_of(&self, entity: Entity, component_id: usize) -> Option<
        crate::ticks::ComponentTicks,
    > {
        match self.location(entity) {
            Some(location) => self.archetypes[location.archetype_id as int].ticks_at(
                component_id,
                location.index as int,
            ),
            None => None,
        }
    }

    /// The ticks of the component `component_id` of `entity`.
    pub fn get_ticks(&self, entity: Entity, component_id: usize) -> (ticks: Option<
        crate::ticks::ComponentTicks,
    >)
        requires
            self.wf(),
        ensures
            ticks == self.ticks_of(entity, component_id),
    {
        match self.get(entity) {
            Some(location) => {
                proof {
                    assert(self.meta_wf(entity.id as int));
                    assert(self.archetype_wf(location.archetype_id as int));
                }
                self.archetypes[location.archetype_id].get_ticks(component_id, location.index)
            },
            None => None,
        }
    }

    /// `self` is `before` with the component `component_id` of `entity` stamped as
    /// changed at `change_tick`; nothing else differs.
    pub open spec fn stamped(
        &self,
        before: World,
        entity: Entity,
        component_id: usize,
        change_tick: u32,
    ) -> bool {
        let location = before.location(entity).unwrap();
        let a = location.archetype_id as int;
        let j = component_position(before.archetypes[a].components@, component_id);
        &&& self.id == before.id
        &&& self.components == before.components
        &&& self.resources == before.resources
        &&& self.tables == before.tables
        &&& self.entities == before.entities
        &&& self.last_change_tick == before.last_change_tick
        &&& self.change_tick == before.change_tick
        &&& self.archetypes.len() == before.archetypes.len()
        &&& forall|b: int|
            0 <= b < before.archetypes.len() && b != a ==> self.archetypes[b]
                == before.archetypes[b]
        &&& self.archetypes[a].id == before.archetypes[a].id
        &&& self.archetypes[a].table_id == before.archetypes[a].table_id
        &&& self.archetypes[a].components == before.archetypes[a].components
        &&& self.archetypes[a].entities == before.archetypes[a].entities
        &&& self.archetypes[a].entity_table_rows == before.archetypes[a].entity_table_rows
        &&& self.archetypes[a].ticks.len() == before.archetypes[a].ticks.len()
        &&& forall|k: int|
            0 <= k < before.archetypes[a].ticks.len() && k != j ==> self.archetypes[a].ticks[k]
                == before.archetypes[a].ticks[k]
        &&& self.archetypes[a].ticks[j]@ == before.archetypes[a].ticks[j]@.update(
            location.index as int,
            crate::ticks::ComponentTicks {
                added: before.archetypes[a].ticks[j][location.index as int].added,
                changed: change_tick,
            },
        )
    }

    /// Stamps the component `component_id` of `entity` as changed at `change_tick`,
    /// as a write through exclusive access does. Where the entity is not alive or does
    /// not hold the component, nothing changes and the answer is `false`.
    pub fn set_changed(&mut self, entity: Entity, component_id: usize, change_tick: u32) -> (stamped:
        bool)
        requires
            old(self).wf(),
        ensures
            final(self).wf(),
            stamped == old(self).ticks_of(entity, component_id).is_some(),
            stamped ==> final(self).stamped(*old(self), entity, component_id, change_tick),
            !stamped ==> *final(self) == *old(self),
    {
        let location = match self.get(entity) {
            Some(location) => location,
            None => {
                return false;
            },
        };
        proof {
            assert(self.meta_wf(entity.id as int));
            assert(self.archetype_wf(location.archetype_id as int));
            lemma_component_position(
                self.archetypes[location.archetype_id as int].components@,
                component_id,
            );
        }
        let at = match self.archetypes[location.archetype_id].position(component_id) {
            Some(at) => at,
            None => {
                return false;
            },
        };
        self.archetypes[location.archetype_id].ticks[at][location.index].set_changed(change_tick);
        proof {
            lemma_world_restamped(*old(self), *self, location.archetype_id as int);
        }
        true
    }

    /// An empty world with the identity `id`.
    pub fn new(id: u64) -> (world: World)
        ensures
            world.wf(),
            world.id == id,
            world.archetypes@.len() == 0,
            world.tables@.len() == 0,
            world.entities@.len() == 0,
            world.components.infos@.len() == 0,
            world.resources@.len() == 0,
            world.last_change_tick == 0,
            world.change_tick == 0,
    {
        World {
            id,
            components: Components::new(),
            resources: Vec::new(),
            archetypes: Vec::new(),
            tables: Vec::new(),
            entities: Vec::new(),
            last_change_tick: 0,
            change_tick: 0,
        }
    }

    /// Where `entity` lives, if it is alive.
    pub fn get(&self, entity: Entity) -> (location: Option<EntityLocation>)
        ensures
            location == self.location(entity),
    {
        let slot = entity.id as usize;
        if slot < self.entities.len() && self.entities[slot].generation == entity.generation {
            self.entities[slot].location
        } else {
            None
        }
    }

    fn row_is_valid(&self, a: usize, i: usize) -> (valid: bool)
        requires
            a < self.archetypes.len(),
            self.archetypes[a as int].table_id < self.tables.len(),
            i < self.archetypes[a as int].entities.len(),
            self.archetypes[a as int].entity_table_rows.len() == self.archetypes[a as int].entities.len(),
        ensures
            valid == self.row_wf(a as int, i as int),
    {
        let archetype = &self.archetypes[a];
        let row = archetype.entity_table_rows[i];
        let table = &self.tables[archetype.table_id];
        if row >= table.entities.len() {
            return false;
        }
        if table.entities[row] != archetype.entities[i] {
            return false;
        }
        match self.get(archetype.entities[i]) {
            Some(location) => location.archetype_id == a && location.index == i,
            None => false,
        }
    }

    fn component_is_valid(&self, a: usize, j: usize) -> (valid: bool)
        requires
            a < self.archetypes.len(),
            self.archetypes[a as int].table_id < self.tables.len(),
            j < self.archetypes[a as int].components.len(),
        ensures
            valid == self.component_wf(a as int, j as int),
    {
        let archetype = &self.archetypes[a];
        let component = archetype.components[j];
        if component.component_id >= self.components.infos.len() {
            return false;
        }
        if component.archetype_component_id == usize::MAX {
            return false;
        }
        if self.components.infos[component.component_id].storage_type != component.storage_type {
            return false;
        }
        let mut k: usize = 0;
        while k < j
            invariant
                k <= j < archetype.components.len(),
                a < self.archetypes.len(),
                archetype == &self.archetypes[a as int],
                component == archetype.components[j as int],
                forall|b: int|
                    0 <= b < k ==> (#[trigger] archetype.components[b]).component_id
                        != component.component_id,
            decreases j - k,
        {
            if archetype.components[k].component_id == component.component_id {
                proof {
                    lemma_component_position_is(
                        archetype.components@,
                        component.component_id,
                        k as int,
                    );
                }
                return false;
            }
            k += 1;
        }
        proof {
            lemma_component_position_is(archetype.components@, component.component_id, j as int);
        }
        match component.storage_type {
            StorageType::Table => self.tables[archetype.table_id].has_column(component.component_id),
            StorageType::SparseSet => true,
        }
    }

    fn column_is_valid(&self, a: usize, c: usize) -> (valid: bool)
        requires
            a < self.archetypes.len(),
            self.archetypes[a as int].table_id < self.tables.len(),
            c < self.tables[self.archetypes[a as int].table_id as int].columns.len(),
        ensures
            valid == self.column_wf(a as int, c as int),
    {
        let archetype = &self.archetypes[a];
        let column = self.tables[archetype.table_id].columns[c];
        match archetype.get_component(column) {
            Some(component) => match component.storage_type {
                StorageType::Table => true,
                StorageType::SparseSet => false,
            },
            None => false,
        }
    }

    fn archetype_is_valid(&self, a: usize) -> (valid: bool)
        requires
            a < self.archetypes.len(),
        ensures
            valid == self.archetype_wf(a as int),
    {
        let archetype = &self.archetypes[a];
        if archetype.id != a {
            return false;
        }
        if archetype.table_id >= self.tables.len() {
            return false;
        }
        if archetype.entity_table_rows.len() != archetype.entities.len() {
            return false;
        }
        if !archetype.has_all_ticks() {
            return false;
        }
        let mut i: usize = 0;
        while i < archetype.entities.len()
            invariant
                a < self.archetypes.len(),
                archetype == &self.archetypes[a as int],
                archetype.table_id < self.tables.len(),
                archetype.entity_table_rows.len() == archetype.entities.len(),
                i <= archetype.entities.len(),
                forall|k: int| 0 <= k < i ==> #[trigger] self.row_wf(a as int, k),
            decreases archetype.entities.len() - i,
        {
            if !self.row_is_valid(a, i) {
                return false;
            }
            i += 1;
        }
        let mut j: usize = 0;
        while j < archetype.components.len()
            invariant
                a < self.archetypes.len(),
                archetype == &self.archetypes[a as int],
                archetype.table_id < self.tables.len(),
                j <= archetype.components.len(),
                forall|k: int| 0 <= k < j ==> #[trigger] self.component_wf(a as int, k),
            decreases archetype.components.len() - j,
        {
            if !self.component_is_valid(a, j) {
                return false;
            }
            j += 1;
        }
        let columns = self.tables[archetype.table_id].columns.len();
        let mut c: usize = 0;
        while c < columns
            invariant
                a < self.archetypes.len(),
                archetype == &self.archetypes[a as int],
                archetype.table_id < self.tables.len(),
                columns == self.tables[archetype.table_id as int].columns.len(),
                c <= columns,
                forall|k: int| 0 <= k < c ==> #[trigger] self.column_wf(a as int, k),
            decreases columns - c,
        {
            if !self.column_is_valid(a, c) {
                return false;
            }
            c += 1;
        }
        true
    }

    fn table_row_is_valid(&self, t: usize, r: usize) -> (valid: bool)
        requires
            t < self.tables.len(),
            r < self.tables[t as int].entities.len(),
        ensures
            valid == self.table_row_wf(t as int, r as int),
    {
        match self.get(self.tables[t].entities[r]) {
            Some(location) => {
                if location.archetype_id >= self.archetypes.len() {
                    return false;
                }
                let archetype = &self.archetypes[location.archetype_id];
                location.index < archetype.entity_table_rows.len() && archetype.table_id == t
                    && archetype.entity_table_rows[location.index] == r
            },
            None => false,
        }
    }

    fn meta_is_valid(&self, k: usize) -> (valid: bool)
        requires
            k < self.entities.len(),
            self.entities.len() <= u32::MAX,
        ensures
            valid == self.meta_wf(k as int),
    {
        let meta = self.entities[k];
        match meta.location {
            Some(location) => {
                if location.archetype_id >= self.archetypes.len() {
                    return false;
                }
                let archetype = &self.archetypes[location.archetype_id];
                if location.index >= archetype.entities.len() {
                    return false;
                }
                let held = archetype.entities[location.index];
                held.id as usize == k && held.generation == meta.generation
            },
            None => true,
        }
    }

    /// Whether the layout is consistent. A world that was put together from outside
    /// values is tested with this before it is handed to a query.
    pub fn is_valid(&self) -> (valid: bool)
        ensures
            valid == self.wf(),
    {
        if !self.components.is_valid() {
            return false;
        }
        if self.entities.len() > u32::MAX as usize {
            return false;
        }
        let mut a: usize = 0;
        while a < self.archetypes.len()
            invariant
                a <= self.archetypes.len(),
                forall|k: int| 0 <= k < a ==> #[trigger] self.archetype_wf(k),
            decreases self.archetypes.len() - a,
        {
            if !self.archetype_is_valid(a) {
                return false;
            }
            a += 1;
        }
        let mut t: usize = 0;
        while t < self.tables.len()
            invariant
                t <= self.tables.len(),
                forall|x: int, r: int|
                    0 <= x < t && 0 <= r < self.tables[x].entities.len()
                        ==> #[trigger] self.table_row_wf(x, r),
            decreases self.tables.len() - t,
        {
            let rows = self.tables[t].entities.len();
            let mut r: usize = 0;
            while r < rows
                invariant
                    t < self.tables.len(),
                    rows == self.tables[t as int].entities.len(),
                    r <= rows,
                    forall|x: int, y: int|
                        0 <= x < t && 0 <= y < self.tables[x].entities.len()
                            ==> #[trigger] self.table_row_wf(x, y),
                    forall|y: int| 0 <= y < r ==> #[trigger] self.table_row_wf(t as int, y),
                decreases rows - r,
            {
                if !self.table_row_is_valid(t, r) {
                    return false;
                }
                r += 1;
            }
            t += 1;
        }
        let mut k: usize = 0;
        while k < self.entities.len()
            invariant
                k <= self.entities.len(),
                self.entities.len() <= u32::MAX,
                forall|x: int| 0 <= x < k ==> #[trigger] self.meta_wf(x),
            decreases self.entities.len() - k,
        {
            if !self.meta_is_valid(k) {
                return false;
            }
            k += 1;
        }
        true
    }
}


/// A registry that grew keeps the id of every key that it held.
pub proof fn lemma_registry_extension(
    before: Seq<ComponentInfo>,
    after: Seq<ComponentInfo>,
    key: TypeKey,
)
    requires
        before.len() <= after.len(),
        forall|i: int| 0 <= i < before.len() ==> before[i] == after[i],
        key_position(before, key) < before.len(),
    ensures
        key_position(after, key) == key_position(before, key),
{
    lemma_key_position(before, key);
    let at = key_position(before, key);
    assert forall|i: int| 0 <= i < at implies (#[trigger] after[i]).key != key by {
        assert(before[i] == after[i]);
    }
    assert(after[at] == before[at]);
    lemma_key_position_is(after, key, at);
}

/// A world whose registry grew, and of which nothing else changed, stays consistent.
pub proof fn lemma_world_registry_extension(before: World, after: World)
    requires
        before.wf(),
        after.components.wf(),
        after.archetypes == before.archetypes,
        after.tables == before.tables,
        after.entities == before.entities,
        before.components.infos.len() <= after.components.infos.len(),
        forall|i: int|
            0 <= i < before.components.infos.len() ==> before.components.infos[i]
                == after.components.infos[i],
    ensures
        after.wf(),
{
    assert forall|a: int| 0 <= a < after.archetypes.len() implies #[trigger] after.archetype_wf(
        a,
    ) by {
        assert(before.archetype_wf(a));
        let archetype = after.archetypes[a];
        assert forall|i: int| 0 <= i < archetype.entities.len() implies #[trigger] after.row_wf(
            a,
            i,
        ) by {
            assert(before.row_wf(a, i));
        }
        assert forall|j: int| 0 <= j < archetype.components.len() implies #[trigger] after.component_wf(
            a,
            j,
        ) by {
            assert(before.component_wf(a, j));
        }
        assert forall|c: int|
            0 <= c < after.tables[archetype.table_id as int].columns.len() implies #[trigger] after.column_wf(
            a,
            c,
        ) by {
            assert(before.column_wf(a, c));
        }
    }
    assert forall|t: int, r: int|
        0 <= t < after.tables.len() && 0 <= r < after.tables[t].entities.len() implies #[trigger] after.table_row_wf(
        t,
        r,
    ) by {
        assert(before.table_row_wf(t, r));
    }
    assert forall|k: int| 0 <= k < after.entities.len() implies #[trigger] after.meta_wf(k) by {
        assert(before.meta_wf(k));
    }
}

/// A world of which only ticks of one archetype changed, and not their number, stays
/// consistent.
pub proof fn lemma_world_restamped(before: World, after: World, a: int)
    requires
        before.wf(),
        0 <= a < before.archetypes.len(),
        after.components == before.components,
        after.tables == before.tables,
        after.entities == before.entities,
        after.archetypes.len() == before.archetypes.len(),
        forall|b: int|
            0 <= b < before.archetypes.len() && b != a ==> after.archetypes[b]
                == before.archetypes[b],
        after.archetypes[a].id == before.archetypes[a].id,
        after.archetypes[a].table_id == before.archetypes[a].table_id,
        after.archetypes[a].components == before.archetypes[a].components,
        after.archetypes[a].entities == before.archetypes[a].entities,
        after.archetypes[a].entity_table_rows == before.archetypes[a].entity_table_rows,
        after.archetypes[a].ticks_wf(),
    ensures
        after.wf(),
{
    assert forall|b: int| 0 <= b < after.archetypes.len() implies #[trigger] after.archetype_wf(
        b,
    ) by {
        assert(before.archetype_wf(b));
        let archetype = after.archetypes[b];
        assert forall|i: int| 0 <= i < archetype.entities.len() implies #[trigger] after.row_wf(
            b,
            i,
        ) by {
            assert(before.row_wf(b, i));
        }
        assert forall|j: int| 0 <= j < archetype.components.len() implies #[trigger] after.component_wf(
            b,
            j,
        ) by {
            assert(before.component_wf(b, j));
        }
        assert forall|c: int|
            0 <= c < after.tables[archetype.table_id as int].columns.len() implies #[trigger] after.column_wf(
            b,
            c,
        ) by {
            assert(before.column_wf(b, c));
        }
    }
    assert forall|t: int, r: int|
        0 <= t < after.tables.len() && 0 <= r < after.tables[t].entities.len() implies #[trigger] after.table_row_wf(
        t,
        r,
    ) by {
        assert(before.table_row_wf(t, r));
        let location = before.location(before.tables[t].entities[r]).unwrap();
        assert(before.archetype_wf(location.archetype_id as int));
    }
    assert forall|k: int| 0 <= k < after.entities.len() implies #[trigger] after.meta_wf(k) by {
        assert(before.meta_wf(k));
    }
}

/// Two archetypes that share a table hold the same components that are kept in
/// tables.
pub proof fn lemma_shared_table(world: World, a: int, b: int, component_id: usize)
    requires
        world.wf(),
        0 <= a < world.archetypes.len(),
        0 <= b < world.archetypes.len(),
        world.archetypes[a].table_id == world.archetypes[b].table_id,
        component_id < world.components.infos.len(),
        world.components.infos[component_id as int].storage_type == StorageType::Table,
        world.archetypes[a].has(component_id),
    ensures
        world.archetypes[b].has(component_id),
{
    assert(world.archetype_wf(a));
    assert(world.archetype_wf(b));
    let first = world.archetypes[a];
    let table = world.tables[first.table_id as int];
    lemma_component_position(first.components@, component_id);
    let j = component_position(first.components@, component_id);
    assert(world.component_wf(a, j));
    assert(table.has(component_id));
    let c = choose|c: int| 0 <= c < table.columns.len() && table.columns[c] == component_id;
    assert(world.column_wf(b, c));
}

} // verus!
