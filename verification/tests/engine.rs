use other_world::batch::Batch;
use other_world::other::{OtherFilter, OtherState};
use other_world::other_query::{OtherQuery, QueryComponentError, QuerySingleError};
use other_world::other_query_state::OtherQueryState;
use other_world::items::{QueryEntityError, QueryItem};
use other_world::other_world::{OtherWorld, PrimaryWorld};
use other_world::other_world_query::{
    ComponentRef, ConfigurationError, Fetched, Otherable, Slot,
};
use other_world::system::SystemState;
use other_world::ticks::ComponentTicks;
use other_world::world::{
    Archetype, ArchetypeComponent, Entity, EntityLocation, EntityMeta, StorageType, Table,
    TypeKey, World,
};

const A: u64 = 1;
const B: u64 = 2;
const S: u64 = 3;

fn register(world: &mut World, type_id: u64, storage_type: StorageType) -> usize {
    world.components.get_or_insert(TypeKey::Type(type_id), storage_type)
}

fn sorted(mut ids: Vec<usize>) -> Vec<usize> {
    ids.sort();
    ids
}

fn spawn(world: &mut World, types: &[u64]) -> Entity {
    let ids = sorted(
        types
            .iter()
            .map(|t| world.components.get_id(TypeKey::Type(*t)).unwrap())
            .collect(),
    );
    let found = world.archetypes.iter().position(|a| {
        sorted(a.components.iter().map(|c| c.component_id).collect()) == ids
    });
    let a = match found {
        Some(a) => a,
        None => {
            let columns: Vec<usize> = ids
                .iter()
                .copied()
                .filter(|c| world.components.infos[*c].storage_type == StorageType::Table)
                .collect();
            let table_id = match world.tables.iter().position(|t| sorted(t.columns.clone()) == columns) {
                Some(t) => t,
                None => {
                    world.tables.push(Table { columns, entities: Vec::new() });
                    world.tables.len() - 1
                }
            };
            let base: usize = world.archetypes.iter().map(|a| a.components.len()).sum();
            let components = ids
                .iter()
                .enumerate()
                .map(|(k, c)| ArchetypeComponent {
                    component_id: *c,
                    storage_type: world.components.infos[*c].storage_type,
                    archetype_component_id: base + k,
                })
                .collect();
            world.archetypes.push(Archetype {
                id: world.archetypes.len(),
                table_id,
                components,
                entities: Vec::new(),
                entity_table_rows: Vec::new(),
                ticks: vec![Vec::new(); ids.len()],
            });
            world.archetypes.len() - 1
        }
    };
    let entity = Entity { id: world.entities.len() as u32, generation: 0 };
    let table_id = world.archetypes[a].table_id;
    let row = world.tables[table_id].entities.len();
    world.tables[table_id].entities.push(entity);
    let index = world.archetypes[a].entities.len();
    world.archetypes[a].entities.push(entity);
    world.archetypes[a].entity_table_rows.push(row);
    let now = ComponentTicks::new(world.change_tick);
    for column in world.archetypes[a].ticks.iter_mut() {
        column.push(now);
    }
    world.entities.push(EntityMeta {
        generation: 0,
        location: Some(EntityLocation { archetype_id: a, index }),
    });
    entity
}

/// Stamps the component of type `type_id` of `entity` as changed at the current tick.
fn touch(world: &mut World, entity: Entity, type_id: u64) {
    let component_id = world.components.get_id(TypeKey::Type(type_id)).unwrap();
    let location = world.get(entity).unwrap();
    let now = world.change_tick;
    let archetype = &mut world.archetypes[location.archetype_id];
    let at = archetype.position(component_id).unwrap();
    archetype.ticks[at][location.index].set_changed(now);
}

fn nested_world() -> World {
    let mut world = World::new(7);
    register(&mut world, A, StorageType::Table);
    register(&mut world, B, StorageType::Table);
    register(&mut world, S, StorageType::SparseSet);
    world
}

fn primary_with(world: World) -> PrimaryWorld {
    let mut primary = PrimaryWorld::new(1);
    assert!(primary.insert_resource(OtherWorld { index: 0, world }));
    assert!(primary.is_valid());
    primary
}

fn entities(items: &[QueryItem]) -> Vec<Entity> {
    items.iter().map(|item| item.entity).collect()
}

fn collect(state: &mut OtherQueryState, world: &World) -> Vec<QueryItem> {
    state.for_each(world, |item| item)
}

#[test]
fn new_state_matches_the_archetypes_that_hold_every_member() {
    let mut world = nested_world();
    let both = spawn(&mut world, &[A, B]);
    let _only_a = spawn(&mut world, &[A]);
    let _only_b = spawn(&mut world, &[B]);
    let mut primary = primary_with(world);
    let mut state = OtherQueryState::new(
        &mut primary,
        0,
        &vec![Otherable::Read(A), Otherable::Read(B)],
        &vec![],
    )
    .unwrap();
    assert_eq!(state.matched_archetype_ids, vec![0]);
    assert_eq!(state.matched_table_ids, vec![0]);
    assert_eq!(state.archetype_generation, 3);
    assert_eq!(state.world_id, 7);
    let world = &primary.others[0].world;
    assert!(state.is_valid_for(world));
    let items = collect(&mut state, world);
    assert_eq!(entities(&items), vec![both]);
    assert_eq!(
        items[0].components,
        vec![
            Fetched::Read(ComponentRef { component_id: 0, slot: Slot::Table { table_id: 0, row: 0 } }),
            Fetched::Read(ComponentRef { component_id: 1, slot: Slot::Table { table_id: 0, row: 0 } }),
        ]
    );
}

#[test]
fn unit_shape_matches_everything_and_yields_nothing() {
    let mut world = nested_world();
    let first = spawn(&mut world, &[A]);
    let second = spawn(&mut world, &[B]);
    let mut primary = primary_with(world);
    let mut state = OtherQueryState::new(&mut primary, 0, &vec![], &vec![]).unwrap();
    let world = &primary.others[0].world;
    let items = collect(&mut state, world);
    assert_eq!(entities(&items), vec![first, second]);
    assert!(items.iter().all(|item| item.components.is_empty()));
    let mut unit = OtherQueryState::new(&mut primary, 0, &vec![Otherable::Unit], &vec![]).unwrap();
    let world = &primary.others[0].world;
    let items = collect(&mut unit, world);
    assert_eq!(items.len(), 2);
    assert_eq!(items[0].components, vec![Fetched::Unit]);
}

#[test]
fn a_type_that_was_never_registered_yields_an_empty_query() {
    let mut world = nested_world();
    spawn(&mut world, &[A]);
    let mut primary = primary_with(world);
    let mut state =
        OtherQueryState::new(&mut primary, 0, &vec![Otherable::Read(99)], &vec![]).unwrap();
    let world = &primary.others[0].world;
    assert_eq!(world.components.get_id(TypeKey::Type(99)), Some(3));
    assert!(collect(&mut state, world).is_empty());
    assert!(state.matched_archetype_ids.is_empty());
}

#[test]
fn missing_nested_world_is_an_error() {
    let mut primary = PrimaryWorld::new(1);
    let made = OtherQueryState::new(&mut primary, 4, &vec![Otherable::Read(A)], &vec![]);
    assert!(matches!(made, Err(ConfigurationError::MissingResource { world: 4 })));
    assert_eq!(primary.world.components.len(), 0);
}

#[test]
fn exclusive_access_within_a_query_must_be_unique() {
    let mut primary = primary_with(nested_world());
    let made = OtherQueryState::new(
        &mut primary,
        0,
        &vec![Otherable::Read(A), Otherable::Write(A)],
        &vec![],
    );
    let proxy = primary.world.components.get_id(TypeKey::Other(A, 0)).unwrap();
    match made {
        Err(ConfigurationError::MutableAccessNotUnique { component_id }) => {
            assert_eq!(component_id, proxy)
        }
        other => panic!("unexpected {:?}", other.map(|_| ())),
    }
    let fine = OtherQueryState::new(
        &mut primary,
        0,
        &vec![Otherable::Write(A), Otherable::Read(B)],
        &vec![],
    );
    assert!(fine.is_ok());
}

#[test]
fn filters_narrow_the_matches() {
    let mut world = nested_world();
    let plain = spawn(&mut world, &[A]);
    let with_b = spawn(&mut world, &[A, B]);
    let mut primary = primary_with(world);
    let mut with = OtherQueryState::new(
        &mut primary,
        0,
        &vec![Otherable::Read(A)],
        &vec![OtherFilter::With(B)],
    )
    .unwrap();
    let mut without = OtherQueryState::new(
        &mut primary,
        0,
        &vec![Otherable::Read(A)],
        &vec![OtherFilter::Without(B)],
    )
    .unwrap();
    let world = &primary.others[0].world;
    assert_eq!(entities(&collect(&mut with, world)), vec![with_b]);
    assert_eq!(entities(&collect(&mut without, world)), vec![plain]);
}

#[test]
fn revalidate_scans_only_new_archetypes() {
    let mut world = nested_world();
    spawn(&mut world, &[A]);
    let mut primary = primary_with(world);
    let mut state =
        OtherQueryState::new(&mut primary, 0, &vec![Otherable::Read(A)], &vec![]).unwrap();
    assert_eq!(state.validate_world_and_update_archetypes(&primary.others[0].world), 0);
    spawn(&mut primary.others[0].world, &[A, B]);
    spawn(&mut primary.others[0].world, &[B]);
    spawn(&mut primary.others[0].world, &[A, S]);
    assert!(primary.is_valid());
    let world = &primary.others[0].world;
    assert_eq!(state.validate_world_and_update_archetypes(world), 3);
    assert_eq!(state.matched_archetype_ids, vec![0, 1, 3]);
    assert_eq!(state.matched_table_ids, vec![0, 1]);
    assert_eq!(state.archetype_generation, 4);
}

#[test]
fn revalidate_twice_changes_nothing() {
    let mut world = nested_world();
    spawn(&mut world, &[A]);
    spawn(&mut world, &[A, B]);
    let mut primary = primary_with(world);
    let mut state =
        OtherQueryState::new(&mut primary, 0, &vec![Otherable::Read(A)], &vec![]).unwrap();
    let world = &primary.others[0].world;
    state.validate_world_and_update_archetypes(world);
    let archetypes = state.matched_archetype_ids.clone();
    let tables = state.matched_table_ids.clone();
    let bits = state.matched_archetypes.clone();
    assert_eq!(state.validate_world_and_update_archetypes(world), 0);
    assert_eq!(state.matched_archetype_ids, archetypes);
    assert_eq!(state.matched_table_ids, tables);
    assert_eq!(state.matched_archetypes, bits);
    assert!(state.matched_archetypes.contains(0) && state.matched_archetypes.contains(1));
    assert!(!state.matched_archetypes.contains(2));
}

#[test]
fn dense_and_sparse_walks_yield_every_entity_once() {
    let mut world = nested_world();
    let e0 = spawn(&mut world, &[A]);
    let e1 = spawn(&mut world, &[A, S]);
    let e2 = spawn(&mut world, &[A]);
    let e3 = spawn(&mut world, &[A, S]);
    let mut primary = primary_with(world);
    let mut dense =
        OtherQueryState::new(&mut primary, 0, &vec![Otherable::Read(A)], &vec![]).unwrap();
    let mut sparse = OtherQueryState::new(
        &mut primary,
        0,
        &vec![Otherable::Read(A), Otherable::Read(S)],
        &vec![],
    )
    .unwrap();
    let world = &primary.others[0].world;
    assert!(dense.is_dense());
    assert!(!sparse.is_dense());
    // Both archetypes share one table: the table is walked row by row.
    assert_eq!(dense.matched_table_ids, vec![0]);
    assert_eq!(entities(&collect(&mut dense, world)), vec![e0, e1, e2, e3]);
    let items = collect(&mut sparse, world);
    assert_eq!(entities(&items), vec![e1, e3]);
    assert_eq!(
        items[1].components,
        vec![
            Fetched::Read(ComponentRef { component_id: 0, slot: Slot::Table { table_id: 0, row: 3 } }),
            Fetched::Read(ComponentRef { component_id: 2, slot: Slot::SparseSet { entity: e3 } }),
        ]
    );
}

#[test]
fn iterator_yields_what_for_each_visits() {
    let mut world = nested_world();
    spawn(&mut world, &[A]);
    spawn(&mut world, &[A, B]);
    spawn(&mut world, &[A]);
    let mut primary = primary_with(world);
    let mut state =
        OtherQueryState::new(&mut primary, 0, &vec![Otherable::Write(A)], &vec![]).unwrap();
    let world = &primary.others[0].world;
    let visited = entities(&collect(&mut state, world));
    let mut iter = state.iter(world);
    assert_eq!(iter.size_hint(), (0, Some(3)));
    assert_eq!(iter.len(), 3);
    let mut walked = Vec::new();
    while let Some(item) = iter.next() {
        match item.components[0] {
            Fetched::Write(held) => assert_eq!(held.component_ticks, ComponentTicks::new(0)),
            other => panic!("unexpected {:?}", other),
        }
        walked.push(item.entity);
    }
    assert!(iter.next().is_none());
    assert_eq!(walked, visited);
    assert_eq!(walked.len(), 3);
}

#[test]
fn single_tells_none_one_and_many_apart() {
    let mut world = nested_world();
    let only = spawn(&mut world, &[A, B]);
    spawn(&mut world, &[A]);
    let mut primary = primary_with(world);
    let none = OtherQueryState::new(&mut primary, 0, &vec![Otherable::Read(S)], &vec![]).unwrap();
    let one = OtherQueryState::new(&mut primary, 0, &vec![Otherable::Read(B)], &vec![]).unwrap();
    let many = OtherQueryState::new(&mut primary, 0, &vec![Otherable::Read(A)], &vec![]).unwrap();
    let world = &primary.others[0].world;
    assert_eq!(
        OtherQuery::new(world, &none, 0, 1).single().map(|i| i.entity),
        Err(QuerySingleError::NoEntities)
    );
    assert_eq!(OtherQuery::new(world, &one, 0, 1).single().map(|i| i.entity), Ok(only));
    assert_eq!(
        OtherQuery::new(world, &many, 0, 1).single_mut().map(|i| i.entity),
        Err(QuerySingleError::MultipleEntities)
    );
}

#[test]
fn get_finds_an_entity_through_its_location() {
    let mut world = nested_world();
    let matching = spawn(&mut world, &[A, B]);
    let other = spawn(&mut world, &[A]);
    let mut primary = primary_with(world);
    let mut state =
        OtherQueryState::new(&mut primary, 0, &vec![Otherable::Read(B)], &vec![]).unwrap();
    let world = &primary.others[0].world;
    let item = state.get(world, matching).unwrap();
    assert_eq!(item.entity, matching);
    assert_eq!(
        item.components,
        vec![Fetched::Read(ComponentRef { component_id: 1, slot: Slot::Table { table_id: 0, row: 0 } })]
    );
    assert_eq!(state.get(world, other).map(|i| i.entity), Err(QueryEntityError::QueryDoesNotMatch));
    let dead = Entity { id: 0, generation: 5 };
    assert_eq!(state.get_mut(world, dead).map(|i| i.entity), Err(QueryEntityError::NoSuchEntity));
    let absent = Entity { id: 40, generation: 0 };
    let query = OtherQuery::new(world, &state, 0, 1);
    assert_eq!(query.get(absent).map(|i| i.entity), Err(QueryEntityError::NoSuchEntity));
}

#[test]
fn get_component_needs_the_claim_of_the_query() {
    let mut world = nested_world();
    let entity = spawn(&mut world, &[A, B]);
    let bare = spawn(&mut world, &[B]);
    let mut primary = primary_with(world);
    let state = OtherQueryState::new(
        &mut primary,
        0,
        &vec![Otherable::Read(A), Otherable::Write(B)],
        &vec![],
    )
    .unwrap();
    let world = &primary.others[0].world;
    let mut query = OtherQuery::new(world, &state, 0, 1);
    let slot = ComponentRef { component_id: 0, slot: Slot::Table { table_id: 0, row: 0 } };
    assert_eq!(query.get_component(entity, A), Ok(slot));
    assert_eq!(
        query.get_component_mut(entity, A),
        Err(QueryComponentError::MissingWriteAccess)
    );
    assert!(query.get_component_unchecked_mut(entity, B).is_ok());
    assert!(query.get_component(entity, B).is_ok());
    assert_eq!(query.get_component(entity, S), Err(QueryComponentError::MissingComponent));
    assert_eq!(query.get_component(entity, 99), Err(QueryComponentError::MissingComponent));
    // `bare` lives in an archetype that the query did not match, so nothing of it is claimed.
    assert_eq!(query.get_component(bare, B), Err(QueryComponentError::MissingReadAccess));
    assert_eq!(
        query.get_component(Entity { id: 9, generation: 0 }, A),
        Err(QueryComponentError::NoSuchEntity)
    );
}

#[test]
fn par_for_each_with_batches_of_two_over_five_rows() {
    let mut world = nested_world();
    let spawned: Vec<Entity> = (0..5).map(|_| spawn(&mut world, &[A])).collect();
    let mut primary = primary_with(world);
    let mut state =
        OtherQueryState::new(&mut primary, 0, &vec![Otherable::Read(A)], &vec![]).unwrap();
    let world = &primary.others[0].world;
    assert_eq!(
        state.par_batches(world, 2),
        vec![
            Batch { source: 0, offset: 0, len: 2 },
            Batch { source: 0, offset: 2, len: 2 },
            Batch { source: 0, offset: 4, len: 1 },
        ]
    );
    let visit = |item: QueryItem| item.entity;
    let tasks = state.par_for_each(world, 2, &visit);
    assert_eq!(tasks.iter().map(|t| t.len()).collect::<Vec<_>>(), vec![2, 2, 1]);
    let all: Vec<Entity> = tasks.into_iter().flatten().collect();
    assert_eq!(all, spawned);
}

#[test]
fn batches_never_span_two_sources() {
    let mut world = nested_world();
    for _ in 0..3 {
        spawn(&mut world, &[A]);
    }
    for _ in 0..4 {
        spawn(&mut world, &[A, B]);
    }
    let mut primary = primary_with(world);
    let state = OtherQueryState::new(&mut primary, 0, &vec![Otherable::Read(A)], &vec![]).unwrap();
    let world = &primary.others[0].world;
    assert_eq!(
        state.par_batches(world, 3),
        vec![
            Batch { source: 0, offset: 0, len: 3 },
            Batch { source: 1, offset: 0, len: 3 },
            Batch { source: 1, offset: 3, len: 1 },
        ]
    );
    let query = OtherQuery::new(world, &state, 0, 1);
    let visit = |item: QueryItem| item.entity.id;
    assert_eq!(query.par_for_each(10, &visit), vec![vec![0, 1, 2], vec![3, 4, 5, 6]]);
}

#[test]
fn two_queries_that_write_one_component_conflict() {
    let mut primary = primary_with(nested_world());
    let mut system = SystemState::new(0);
    let first = OtherQueryState::init(
        &mut primary,
        &mut system,
        0,
        &vec![Otherable::Write(A)],
        &vec![],
    );
    assert!(first.is_ok());
    let proxy = primary.world.components.get_id(TypeKey::Other(A, 0)).unwrap();
    assert!(system.has_write(proxy));
    let second = OtherQueryState::init(
        &mut primary,
        &mut system,
        0,
        &vec![Otherable::Read(B), Otherable::Write(A)],
        &vec![],
    );
    match second {
        Err(ConfigurationError::ConflictingAccess { components }) => {
            assert_eq!(components, vec![proxy])
        }
        other => panic!("unexpected {:?}", other.map(|_| ())),
    }
    // The refused query left no claim behind.
    let b = primary.world.components.get_id(TypeKey::Other(B, 0)).unwrap();
    assert!(!system.has_read(b));
    let reader = OtherQueryState::init(
        &mut primary,
        &mut system,
        0,
        &vec![Otherable::Read(A)],
        &vec![],
    );
    assert!(matches!(reader, Err(ConfigurationError::ConflictingAccess { .. })));
    let apart = OtherQueryState::init(
        &mut primary,
        &mut system,
        0,
        &vec![Otherable::Write(B)],
        &vec![],
    );
    assert!(apart.is_ok());
}

#[test]
fn conflicts_are_listed_in_rising_order() {
    let mut primary = primary_with(nested_world());
    let mut system = SystemState::new(0);
    OtherQueryState::init(
        &mut primary,
        &mut system,
        0,
        &vec![Otherable::Write(B), Otherable::Write(A)],
        &vec![],
    )
    .unwrap();
    let a = primary.world.components.get_id(TypeKey::Other(A, 0)).unwrap();
    let b = primary.world.components.get_id(TypeKey::Other(B, 0)).unwrap();
    assert!(b < a);
    let second = OtherQueryState::init(
        &mut primary,
        &mut system,
        0,
        &vec![Otherable::Read(A), Otherable::Read(B)],
        &vec![],
    );
    match second {
        Err(ConfigurationError::ConflictingAccess { components }) => {
            assert_eq!(components, vec![b, a])
        }
        other => panic!("unexpected {:?}", other.map(|_| ())),
    }
}

#[test]
fn the_same_type_in_two_nested_worlds_does_not_conflict() {
    let mut primary = PrimaryWorld::new(1);
    assert!(primary.insert_resource(OtherWorld { index: 0, world: nested_world() }));
    assert!(primary.insert_resource(OtherWorld::new(1, 8)));
    assert!(!primary.insert_resource(OtherWorld::new(1, 9)));
    let mut system = SystemState::new(0);
    let first =
        OtherQueryState::init(&mut primary, &mut system, 0, &vec![Otherable::Write(A)], &vec![]);
    let second =
        OtherQueryState::init(&mut primary, &mut system, 1, &vec![Otherable::Write(A)], &vec![]);
    assert!(first.is_ok() && second.is_ok());
    assert_eq!(second.unwrap().world_id, 8);
    assert_ne!(
        primary.world.components.get_id(TypeKey::Other(A, 0)),
        primary.world.components.get_id(TypeKey::Other(A, 1))
    );
}

#[test]
fn a_borrowed_nested_world_cannot_be_queried() {
    let mut primary = primary_with(nested_world());
    let world_id = primary.world.components.get_id(TypeKey::OtherWorld(0)).unwrap();
    let mut system = SystemState::new(0);
    assert!(system.borrow_other_world(&primary, 0, true).is_ok());
    assert!(system.has_write(world_id));
    let query =
        OtherQueryState::init(&mut primary, &mut system, 0, &vec![Otherable::Write(A)], &vec![]);
    match query {
        Err(ConfigurationError::OtherWorldBorrowed { world_id: borrowed }) => {
            assert_eq!(borrowed, world_id)
        }
        other => panic!("unexpected {:?}", other.map(|_| ())),
    }
}

#[test]
fn a_queried_nested_world_cannot_be_borrowed() {
    let mut primary = primary_with(nested_world());
    let world_id = primary.world.components.get_id(TypeKey::OtherWorld(0)).unwrap();
    let mut system = SystemState::new(0);
    OtherQueryState::init(&mut primary, &mut system, 0, &vec![Otherable::Read(A)], &vec![])
        .unwrap();
    assert!(matches!(
        system.borrow_other_world(&primary, 0, false),
        Err(ConfigurationError::OtherWorldBorrowed { .. })
    ));
    assert!(!system.has_read(world_id));
    assert!(matches!(
        system.borrow_other_world(&primary, 3, false),
        Err(ConfigurationError::MissingResource { world: 3 })
    ));
    let mut free = SystemState::new(0);
    assert!(free.borrow_other_world(&primary, 0, false).is_ok());
    assert!(free.borrow_other_world(&primary, 0, false).is_ok());
    match free.borrow_other_world(&primary, 0, true) {
        Err(ConfigurationError::ConflictingAccess { components }) => {
            assert_eq!(components, vec![world_id])
        }
        other => panic!("unexpected {:?}", other),
    }
}

#[test]
fn system_learns_the_archetype_claims_of_its_queries() {
    let mut world = nested_world();
    spawn(&mut world, &[A, B]);
    let mut primary = primary_with(world);
    let mut system = SystemState::new(0);
    let mut state = OtherQueryState::init(
        &mut primary,
        &mut system,
        0,
        &vec![Otherable::Read(A), Otherable::Write(B)],
        &vec![],
    )
    .unwrap();
    assert!(system.has_archetype_read(0) && !system.has_archetype_write(0));
    assert!(system.has_archetype_read(1) && system.has_archetype_write(1));
    spawn(&mut primary.others[0].world, &[A, B, S]);
    let added = &primary.others[0].world.archetypes[1];
    assert!(!system.has_archetype_read(2));
    state.new_system_archetype(added, &mut system);
    assert_eq!(state.matched_archetype_ids, vec![0, 1]);
    assert!(system.has_archetype_read(2) && !system.has_archetype_write(2));
    assert!(system.has_archetype_write(3));
    assert!(!system.has_archetype_read(4));
}

#[test]
fn get_param_brings_the_state_up_to_date() {
    let mut world = nested_world();
    spawn(&mut world, &[A]);
    let mut primary = primary_with(world);
    let mut system = SystemState::new(11);
    let mut state =
        OtherQueryState::init(&mut primary, &mut system, 0, &vec![Otherable::Read(A)], &vec![])
            .unwrap();
    let late = spawn(&mut primary.others[0].world, &[A, B]);
    let query = OtherQueryState::get_param(&mut state, &system, &primary, 12);
    assert_eq!(query.last_change_tick, 11);
    assert_eq!(query.change_tick, 12);
    assert_eq!(query.for_each(|item| item.entity).len(), 2);
    assert_eq!(query.get(late).map(|item| item.entity), Ok(late));
    assert_eq!(query.state.archetype_generation, 2);
}

#[test]
fn member_states_resolve_to_the_ids_of_both_worlds() {
    let mut primary = primary_with(nested_world());
    let state = OtherQueryState::new(
        &mut primary,
        0,
        &vec![Otherable::Write(S), Otherable::Unit, Otherable::Read(A)],
        &vec![],
    )
    .unwrap();
    let world_id = primary.world.components.get_id(TypeKey::OtherWorld(0)).unwrap();
    match state.fetch_state[0] {
        OtherState::Write(write) => {
            assert_eq!(write.world_id, world_id);
            assert_eq!(Some(write.component_id), primary.world.components.get_id(TypeKey::Other(S, 0)));
            assert_eq!(write.other_component_id, 2);
            assert_eq!(write.storage_type, StorageType::SparseSet);
        }
        other => panic!("unexpected {:?}", other),
    }
    assert_eq!(state.fetch_state[1], OtherState::Unit);
    match state.fetch_state[2] {
        OtherState::Read(read) => {
            assert_eq!(read.other_component_id, 0);
            assert_eq!(read.storage_type, StorageType::Table);
        }
        other => panic!("unexpected {:?}", other),
    }
}

#[test]
fn added_and_changed_filters_hold_rows_back() {
    let mut world = nested_world();
    world.change_tick = 1;
    let old = spawn(&mut world, &[A]);
    let touched = spawn(&mut world, &[A]);
    let other = spawn(&mut world, &[A, B]);
    world.change_tick = 5;
    let fresh = spawn(&mut world, &[A]);
    touch(&mut world, touched, A);
    touch(&mut world, other, B);
    assert_eq!(world.get_ticks(touched, 0), Some(ComponentTicks { added: 1, changed: 5 }));
    assert_eq!(world.get_ticks(touched, 1), None);
    assert_eq!(world.get_ticks(Entity { id: 50, generation: 0 }, 0), None);
    // The system last ran at tick 3 and runs now at tick 6.
    world.last_change_tick = 3;
    world.change_tick = 6;
    let mut primary = primary_with(world);
    let mut added = OtherQueryState::new(
        &mut primary,
        0,
        &vec![Otherable::Read(A)],
        &vec![OtherFilter::Added(A)],
    )
    .unwrap();
    let mut changed = OtherQueryState::new(
        &mut primary,
        0,
        &vec![Otherable::Read(A)],
        &vec![OtherFilter::Changed(A)],
    )
    .unwrap();
    let mut changed_b = OtherQueryState::new(
        &mut primary,
        0,
        &vec![Otherable::Read(A)],
        &vec![OtherFilter::Changed(B)],
    )
    .unwrap();
    let world = &primary.others[0].world;
    assert_eq!(entities(&collect(&mut added, world)), vec![fresh]);
    assert_eq!(entities(&collect(&mut changed, world)), vec![touched, fresh]);
    // A filter on a component needs the component: only the archetype with B matches.
    assert_eq!(changed_b.matched_archetype_ids, vec![1]);
    assert_eq!(entities(&collect(&mut changed_b, world)), vec![other]);

    // The same through the other ways of reading a query.
    let mut walked = Vec::new();
    let mut iter = changed.iter(world);
    while let Some(item) = iter.next() {
        walked.push(item.entity);
    }
    assert_eq!(walked, vec![touched, fresh]);
    assert_eq!(changed.get(world, touched).map(|i| i.entity), Ok(touched));
    assert_eq!(changed.get(world, old).map(|i| i.entity), Err(QueryEntityError::QueryDoesNotMatch));
    let query = OtherQuery::new(world, &added, 3, 6);
    assert_eq!(query.single().map(|i| i.entity), Ok(fresh));
    let long_ago = OtherQuery::new(world, &added, 0, 6);
    assert_eq!(
        long_ago.single().map(|i| i.entity),
        Err(QuerySingleError::MultipleEntities)
    );
    let just_now = OtherQuery::new(world, &added, 5, 6);
    assert_eq!(just_now.single().map(|i| i.entity), Err(QuerySingleError::NoEntities));
}

#[test]
fn batches_cut_rows_and_tasks_skip_what_the_filter_holds_back() {
    let mut world = nested_world();
    world.change_tick = 1;
    let spawned: Vec<Entity> = (0..5).map(|_| spawn(&mut world, &[A])).collect();
    world.change_tick = 4;
    touch(&mut world, spawned[1], A);
    touch(&mut world, spawned[4], A);
    world.last_change_tick = 2;
    world.change_tick = 5;
    let mut primary = primary_with(world);
    let mut state = OtherQueryState::new(
        &mut primary,
        0,
        &vec![Otherable::Read(A)],
        &vec![OtherFilter::Changed(A)],
    )
    .unwrap();
    let world = &primary.others[0].world;
    assert_eq!(state.par_batches(world, 2).len(), 3);
    let visit = |item: QueryItem| item.entity;
    let tasks = state.par_for_each_mut(world, 2, &visit);
    assert_eq!(tasks, vec![vec![spawned[1]], vec![], vec![spawned[4]]]);
    let one = state.for_each_in_batch(world, Batch { source: 0, offset: 1, len: 3 }, &visit, 0, 5);
    assert_eq!(one, vec![spawned[1], spawned[2], spawned[3]]);
}

#[test]
fn a_state_is_of_use_with_its_own_world_only() {
    let mut world = nested_world();
    spawn(&mut world, &[A]);
    spawn(&mut world, &[A, B]);
    let mut primary = primary_with(world);
    let state = OtherQueryState::new(&mut primary, 0, &vec![Otherable::Read(B)], &vec![]).unwrap();
    let world = &primary.others[0].world;
    assert!(state.is_valid_for(world));

    let mut stranger = nested_world();
    stranger.id = 8;
    spawn(&mut stranger, &[A]);
    spawn(&mut stranger, &[A, B]);
    assert!(!state.is_valid_for(&stranger));
    // A world of the same identity fits only if the matches of the state are matches in it.
    stranger.id = 7;
    assert!(state.is_valid_for(&stranger));
    let mut other_layout = nested_world();
    spawn(&mut other_layout, &[A, B]);
    spawn(&mut other_layout, &[A]);
    assert!(!state.is_valid_for(&other_layout));
    let mut smaller = nested_world();
    spawn(&mut smaller, &[A]);
    assert!(!state.is_valid_for(&smaller));
    let mut stored_otherwise = World::new(7);
    register(&mut stored_otherwise, A, StorageType::Table);
    register(&mut stored_otherwise, B, StorageType::SparseSet);
    spawn(&mut stored_otherwise, &[A]);
    spawn(&mut stored_otherwise, &[A, B]);
    assert!(!state.is_valid_for(&stored_otherwise));
}

#[test]
fn a_world_that_lost_archetypes_is_not_scanned() {
    let mut world = nested_world();
    spawn(&mut world, &[A]);
    spawn(&mut world, &[B]);
    let mut primary = primary_with(world);
    let mut state =
        OtherQueryState::new(&mut primary, 0, &vec![Otherable::Read(A)], &vec![]).unwrap();
    assert_eq!(state.archetype_generation, 2);
    let mut smaller = nested_world();
    spawn(&mut smaller, &[A]);
    assert_eq!(state.validate_world_and_update_archetypes(&smaller), 0);
    assert_eq!(state.archetype_generation, 1);
    assert_eq!(state.matched_archetype_ids, vec![0]);
}

#[test]
fn a_parallel_run_yields_what_a_walk_yields() {
    let mut world = nested_world();
    world.change_tick = 1;
    let mut spawned = Vec::new();
    for round in 0..7 {
        spawned.push(spawn(&mut world, if round % 3 == 0 { &[A, B] } else { &[A] }));
    }
    world.change_tick = 3;
    touch(&mut world, spawned[2], A);
    touch(&mut world, spawned[3], A);
    touch(&mut world, spawned[6], A);
    world.last_change_tick = 2;
    world.change_tick = 4;
    let mut primary = primary_with(world);
    let mut state = OtherQueryState::new(
        &mut primary,
        0,
        &vec![Otherable::Write(A)],
        &vec![OtherFilter::Changed(A)],
    )
    .unwrap();
    let world = &primary.others[0].world;
    let walked = entities(&collect(&mut state, world));
    assert_eq!(walked.len(), 3);
    for batch_size in 1..9 {
        let visit = |item: QueryItem| item.entity;
        let gathered: Vec<Entity> =
            state.par_for_each(world, batch_size, &visit).into_iter().flatten().collect();
        assert_eq!(gathered, walked);
        assert!(state.par_batches(world, batch_size).iter().all(|b| b.len > 0 && b.len <= batch_size));
    }
}

#[test]
fn exclusive_access_comes_with_the_ticks_of_the_component() {
    let mut world = nested_world();
    world.change_tick = 2;
    let entity = spawn(&mut world, &[A, S]);
    world.change_tick = 5;
    touch(&mut world, entity, S);
    let mut primary = primary_with(world);
    let mut state = OtherQueryState::new(
        &mut primary,
        0,
        &vec![Otherable::Write(A), Otherable::Write(S)],
        &vec![],
    )
    .unwrap();
    let world = &primary.others[0].world;
    let query = OtherQuery::new(world, &state, 3, 6);
    let item = query.get_unchecked(entity).unwrap();
    match (item.components[0], item.components[1]) {
        (Fetched::Write(table), Fetched::Write(sparse)) => {
            assert_eq!(table.component_ticks, ComponentTicks { added: 2, changed: 2 });
            assert_eq!(table.target.slot, Slot::Table { table_id: 0, row: 0 });
            assert!(!table.is_changed());
            assert_eq!(sparse.component_ticks, ComponentTicks { added: 2, changed: 5 });
            assert_eq!(sparse.target.slot, Slot::SparseSet { entity });
            assert!(sparse.is_changed() && !sparse.is_added());
            assert_eq!((sparse.last_change_tick, sparse.change_tick), (3, 6));
        }
        other => panic!("unexpected {:?}", other),
    }
    let mut iter = query.iter_unsafe();
    assert_eq!(iter.next().map(|i| i.entity), Some(entity));
    assert!(iter.next().is_none());
    assert_eq!(state.get(world, entity).map(|i| i.entity), Ok(entity));
}
