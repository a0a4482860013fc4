use bevy::app::App;
use bevy::ecs::component::{ComponentDescriptor, ComponentId};
use bevy::ecs::system::{IntoSystem, Res, ResMut};
use other_world::other::OtherFilter;
use other_world::other_query::OtherQuery;
use other_world::other_query_state::OtherQueryState;
use other_world::items::QueryItem;
use other_world::other_world::{OtherWorld, PrimaryWorld};
use other_world::other_world_query::{Fetched, Otherable, Slot};
use other_world::plugin::{sync_other_world, OtherSynced, OtherWorldPlugin};
use other_world::ticks::ComponentTicks;
use other_world::world::{
    Archetype, ArchetypeComponent, Components, ComponentInfo, Entity, EntityLocation, EntityMeta,
    StorageType, Table, TypeKey, World,
};
use std::any::TypeId;

const USIZE: u64 = 1;
const U32: u64 = 2;
const I32: u64 = 3;
const MARK: u64 = 4;

struct Mark;

fn tokens() -> Vec<(TypeId, u64)> {
    vec![
        (TypeId::of::<usize>(), USIZE),
        (TypeId::of::<u32>(), U32),
        (TypeId::of::<i32>(), I32),
        (TypeId::of::<Mark>(), MARK),
    ]
}

fn storage(storage_type: bevy::ecs::component::StorageType) -> StorageType {
    match storage_type {
        bevy::ecs::component::StorageType::Table => StorageType::Table,
        bevy::ecs::component::StorageType::SparseSet => StorageType::SparseSet,
    }
}

fn entity(entity: bevy::ecs::entity::Entity) -> Entity {
    Entity { id: entity.id(), generation: entity.generation() }
}

fn bevy_entity(entity: Entity) -> bevy::ecs::entity::Entity {
    bevy::ecs::entity::Entity::from_bits((entity.generation as u64) << 32 | entity.id as u64)
}

/// The layout of a bevy world, read off its public accessors, with no component
/// ever changed after tick zero.
fn layout(id: u64, world: &bevy::ecs::world::World) -> World {
    layout_with(id, world, &|_| ComponentTicks { added: 0, changed: 0 })
}

/// The layout of a bevy world. bevy does not give the ticks of a component away, so
/// `ticks` tells them for the components of each entity.
fn layout_with(
    id: u64,
    world: &bevy::ecs::world::World,
    ticks: &dyn Fn(bevy::ecs::entity::Entity) -> ComponentTicks,
) -> World {
    let known = tokens();
    let mut infos = Vec::new();
    for index in 0..world.components().len() {
        let info = world.components().get_info(ComponentId::new(index)).unwrap();
        let type_id = info.type_id().unwrap();
        let token = match known.iter().find(|(t, _)| *t == type_id) {
            Some((_, token)) => *token,
            None => 1_000_000 + index as u64,
        };
        let resource = world.components().get_id(type_id) != Some(info.id());
        infos.push(ComponentInfo {
            key: TypeKey::Type(if resource { token + (1 << 32) } else { token }),
            storage_type: storage(info.storage_type()),
        });
    }
    let mut tables: Vec<Table> = world
        .storages()
        .tables
        .iter()
        .map(|table| Table {
            columns: Vec::new(),
            entities: table.entities().iter().map(|e| entity(*e)).collect(),
        })
        .collect();
    let mut archetypes = Vec::new();
    let mut slots = 0;
    for archetype in world.archetypes().iter() {
        tables[archetype.table_id().index()].columns =
            archetype.table_components().iter().map(|c| c.index()).collect();
        for held in archetype.entities() {
            slots = slots.max(held.id() as usize + 1);
        }
        archetypes.push(Archetype {
            id: archetype.id().index(),
            table_id: archetype.table_id().index(),
            components: archetype
                .components()
                .map(|c| ArchetypeComponent {
                    component_id: c.index(),
                    storage_type: storage(archetype.get_storage_type(c).unwrap()),
                    archetype_component_id: archetype.get_archetype_component_id(c).unwrap().index(),
                })
                .collect(),
            entities: archetype.entities().iter().map(|e| entity(*e)).collect(),
            entity_table_rows: archetype.entity_table_rows().to_vec(),
            ticks: archetype
                .components()
                .map(|_| archetype.entities().iter().map(|e| ticks(*e)).collect())
                .collect(),
        });
    }
    let mut entities = vec![EntityMeta { generation: 0, location: None }; slots];
    for archetype in world.archetypes().iter() {
        for held in archetype.entities() {
            let location = world.entities().get(*held).unwrap();
            entities[held.id() as usize] = EntityMeta {
                generation: held.generation(),
                location: Some(EntityLocation {
                    archetype_id: location.archetype_id.index(),
                    index: location.index,
                }),
            };
        }
    }
    World {
        id,
        components: Components { infos },
        resources: Vec::new(),
        archetypes,
        tables,
        entities,
        last_change_tick: world.last_change_tick(),
        change_tick: world.read_change_tick(),
    }
}

fn primary_over(world: &bevy::ecs::world::World) -> PrimaryWorld {
    let mut primary = PrimaryWorld::new(1);
    assert!(primary.insert_resource(OtherWorld { index: 0, world: layout(2, world) }));
    assert!(primary.is_valid());
    primary
}

fn read<T: Send + Sync + Copy + 'static>(
    world: &bevy::ecs::world::World,
    item: &QueryItem,
    member: usize,
) -> T {
    match item.components[member] {
        Fetched::Read(_) | Fetched::Write(_) => *world.get::<T>(bevy_entity(item.entity)).unwrap(),
        Fetched::Unit => panic!("a unit member holds no value"),
    }
}

struct Nested {
    world: bevy::ecs::world::World,
}

struct Outcome {
    found: Vec<usize>,
}

fn add_entities(mut nested: ResMut<Nested>) {
    nested.world.spawn().insert(3usize);
}

fn check_3(nested: Res<Nested>, mut outcome: ResMut<Outcome>) {
    let mut primary = primary_over(&nested.world);
    let state =
        OtherQueryState::new(&mut primary, 0, &vec![Otherable::Read(USIZE)], &vec![]).unwrap();
    let query = OtherQuery::new(&primary.others[0].world, &state, 0, 1);
    let mut iter = query.iter();
    while let Some(item) = iter.next() {
        outcome.found.push(read::<usize>(&nested.world, &item, 0));
    }
}

#[test]
fn create_add() {
    App::build().insert_resource(OtherWorld::new(0, 1)).run();
    let mut primary = PrimaryWorld::new(1);
    assert!(OtherWorldPlugin::new(0).build(&mut primary, 2));
    assert!(primary.is_valid());
    assert_eq!(primary.get_resource(0).unwrap().world().id, 2);
    assert!(primary.get_resource(1).is_none());
}

#[test]
fn create_add_query() {
    let mut builder = App::build();
    builder
        .insert_resource(Nested { world: bevy::ecs::world::World::default() })
        .insert_resource(Outcome { found: Vec::new() })
        .add_startup_system(add_entities.system())
        .add_system(check_3.system());
    let mut app = std::mem::take(&mut builder.app);
    app.update();
    let outcome = app.world.get_resource::<Outcome>().unwrap();
    let mut count = 0;
    for num in outcome.found.iter() {
        assert_eq!(*num, 3usize);
        count += 1;
    }
    assert_eq!(count, 1);
}

#[test]
fn simple_query() {
    let mut world = bevy::ecs::world::World::default();
    world.spawn().insert(20u32).insert(-21i32);
    world.spawn().insert(20u32);
    world.spawn().insert(20u32);
    let mut primary = primary_over(&world);
    let mut state = OtherQueryState::new(
        &mut primary,
        0,
        &vec![Otherable::Read(U32), Otherable::Read(I32)],
        &vec![],
    )
    .unwrap();
    let pairs = state.for_each(&primary.others[0].world, |item| {
        (read::<u32>(&world, &item, 0), read::<i32>(&world, &item, 1))
    });
    assert_eq!(pairs, vec![(20, -21)]);
}

#[test]
fn count_on_the_first_of_three_entities() {
    let mut world = bevy::ecs::world::World::default();
    let first = world.spawn().insert(3usize).id();
    world.spawn();
    world.spawn();
    let mut primary = primary_over(&world);
    let state =
        OtherQueryState::new(&mut primary, 0, &vec![Otherable::Read(USIZE)], &vec![]).unwrap();
    let query = OtherQuery::new(&primary.others[0].world, &state, 0, 1);
    let item = query.single().unwrap();
    assert_eq!(bevy_entity(item.entity), first);
    assert_eq!(read::<usize>(&world, &item, 0), 3);
    assert_eq!(query.for_each(|item| item.entity).len(), 1);
}

#[test]
fn layout_of_a_bevy_world_is_consistent_after_moves_and_despawns() {
    let mut world = bevy::ecs::world::World::default();
    world
        .register_component(ComponentDescriptor::new::<Mark>(
            bevy::ecs::component::StorageType::SparseSet,
        ))
        .unwrap();
    let a = world.spawn().insert(1u32).id();
    let b = world.spawn().insert(2u32).insert(-2i32).id();
    let c = world.spawn().insert(3u32).id();
    world.entity_mut(a).insert(Mark);
    world.entity_mut(c).insert(-3i32);
    assert!(world.despawn(b));
    let d = world.spawn().insert(4u32).insert(Mark).id();
    assert_eq!(d.id(), b.id());
    let model = layout(5, &world);
    assert!(model.is_valid());
    assert_eq!(model.get(entity(b)), None);
    assert!(model.get(entity(d)).is_some());

    let mut primary = primary_over(&world);
    let mut marked = OtherQueryState::new(
        &mut primary,
        0,
        &vec![Otherable::Write(U32)],
        &vec![OtherFilter::With(MARK)],
    )
    .unwrap();
    assert!(!marked.is_dense());
    let nested = &primary.others[0].world;
    let mut values = marked.for_each(nested, |item| read::<u32>(&world, &item, 0));
    values.sort();
    assert_eq!(values, vec![1, 4]);

    let mut all =
        OtherQueryState::new(&mut primary, 0, &vec![Otherable::Read(U32)], &vec![]).unwrap();
    assert!(all.is_dense());
    let nested = &primary.others[0].world;
    let items = all.for_each(nested, |item| item);
    let mut values: Vec<u32> = items.iter().map(|item| read::<u32>(&world, item, 0)).collect();
    values.sort();
    assert_eq!(values, vec![1, 3, 4]);
    // A slot of the walk names the row in which bevy keeps the entity.
    for item in items.iter() {
        match item.components[0] {
            Fetched::Read(slot) => match slot.slot {
                Slot::Table { table_id, row } => {
                    let table = world
                        .storages()
                        .tables
                        .get(bevy::ecs::storage::TableId::new(table_id))
                        .unwrap();
                    assert_eq!(table.entities()[row], bevy_entity(item.entity));
                }
                Slot::SparseSet { .. } => panic!("u32 lives in tables"),
            },
            _ => panic!("the member reads"),
        }
    }
}

#[test]
fn a_tampered_layout_is_not_valid() {
    let mut world = bevy::ecs::world::World::default();
    world.spawn().insert(1u32);
    world.spawn().insert(2u32).insert(-2i32);
    let sound = layout(5, &world);
    assert!(sound.is_valid());

    let mut wrong_row = layout(5, &world);
    let last = wrong_row.archetypes.len() - 1;
    wrong_row.archetypes[last].entity_table_rows[0] = 7;
    assert!(!wrong_row.is_valid());

    let mut wrong_location = layout(5, &world);
    wrong_location.entities[0].location = Some(EntityLocation { archetype_id: 0, index: 0 });
    assert!(!wrong_location.is_valid());

    let mut twice = layout(5, &world);
    let extra = twice.archetypes[last].entities[0];
    twice.archetypes[last].entities.push(extra);
    twice.archetypes[last].entity_table_rows.push(0);
    assert!(!twice.is_valid());

    let mut wrong_id = layout(5, &world);
    wrong_id.archetypes[last].id = 0;
    assert!(!wrong_id.is_valid());

    let mut lost_column = layout(5, &world);
    let table = lost_column.archetypes[last].table_id;
    lost_column.tables[table].columns.pop();
    assert!(!lost_column.is_valid());

    let mut same_key = layout(5, &world);
    let key = same_key.components.infos[0].key;
    same_key.components.infos.push(ComponentInfo { key, storage_type: StorageType::Table });
    assert!(!same_key.is_valid());
}

#[test]
fn sync_despawns_stale_mirrors_and_spawns_missing_ones() {
    let mut world = bevy::ecs::world::World::default();
    let kept = world.spawn().insert(1u32).insert(Mark).id();
    let gone = world.spawn().insert(2u32).insert(Mark).id();
    let fresh = world.spawn().insert(3u32).id();
    assert!(world.despawn(gone));
    let mut primary = primary_over(&world);
    let mut unsynced =
        OtherQueryState::new(&mut primary, 0, &vec![], &vec![OtherFilter::Without(MARK)]).unwrap();
    let mirrors = vec![
        OtherSynced { entity: Entity { id: 10, generation: 0 }, other: entity(kept) },
        OtherSynced { entity: Entity { id: 11, generation: 0 }, other: entity(gone) },
    ];
    let plan = sync_other_world(&mirrors, &mut unsynced, &primary.others[0].world);
    assert_eq!(plan.despawn, vec![Entity { id: 11, generation: 0 }]);
    assert_eq!(plan.spawn, vec![entity(fresh)]);
}

#[test]
fn changed_filter_agrees_with_bevy() {
    let mut world = bevy::ecs::world::World::default();
    let early = world.read_change_tick();
    let a = world.spawn().insert(1u32).id();
    let b = world.spawn().insert(2u32).id();
    world.clear_trackers();
    let late = world.read_change_tick();
    assert_eq!(world.last_change_tick(), early);
    *world.get_mut::<u32>(b).unwrap() = 5;
    let c = world.spawn().insert(3u32).id();
    let mut theirs: Vec<bevy::ecs::entity::Entity> = world
        .query_filtered::<bevy::ecs::entity::Entity, bevy::ecs::query::Changed<u32>>()
        .iter(&world)
        .collect();
    theirs.sort();
    assert_eq!(theirs, vec![b, c]);

    let ticks = |held: bevy::ecs::entity::Entity| {
        if held == a {
            ComponentTicks { added: early, changed: early }
        } else if held == b {
            ComponentTicks { added: early, changed: late }
        } else {
            ComponentTicks { added: late, changed: late }
        }
    };
    let mut primary = PrimaryWorld::new(1);
    assert!(primary.insert_resource(OtherWorld { index: 0, world: layout_with(2, &world, &ticks) }));
    assert!(primary.is_valid());
    let mut changed = OtherQueryState::new(
        &mut primary,
        0,
        &vec![Otherable::Read(U32)],
        &vec![OtherFilter::Changed(U32)],
    )
    .unwrap();
    let mut added = OtherQueryState::new(
        &mut primary,
        0,
        &vec![Otherable::Read(U32)],
        &vec![OtherFilter::Added(U32)],
    )
    .unwrap();
    let nested = &primary.others[0].world;
    assert_eq!((nested.last_change_tick, nested.change_tick), (early, late));
    let mut ours: Vec<_> =
        changed.for_each(nested, |item| bevy_entity(item.entity)).into_iter().collect();
    ours.sort();
    assert_eq!(ours, theirs);
    assert_eq!(added.for_each(nested, |item| bevy_entity(item.entity)), vec![c]);
    let theirs: Vec<bevy::ecs::entity::Entity> = world
        .query_filtered::<bevy::ecs::entity::Entity, bevy::ecs::query::Added<u32>>()
        .iter(&world)
        .collect();
    assert_eq!(theirs, vec![c]);
}
