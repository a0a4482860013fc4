use other_world::other::{FilterState, OtherFetch, OtherFilter, OtherState};
use other_world::other_res::{OtherRes, OtherResState};
use other_world::other_res_mut::{OtherResMut, OtherResMutState};
use other_world::other_world::{OtherWorld, PrimaryWorld};
use other_world::other_world_query::{
    ComponentRef, ConfigurationError, Fetched, Other, OtherMut, OtherReadFetch, OtherReadState,
    OtherWriteFetch, OtherWriteState, Otherable, Slot,
};
use other_world::plugin::OtherWorldPlugin;
use other_world::system::{assert_component_access_compatibility, SystemState};
use other_world::ticks::ComponentTicks;
use other_world::world::{
    Archetype, ArchetypeComponent, Components, Entity, Resource, StorageType, Table, TypeKey, World,
};

#[test]
fn ticks_compare_relative_to_the_current_tick() {
    let ticks = ComponentTicks { added: 5, changed: 9 };
    assert!(ticks.is_added(4, 10));
    assert!(!ticks.is_added(5, 10));
    assert!(!ticks.is_added(7, 10));
    assert!(ticks.is_changed(8, 10));
    assert!(!ticks.is_changed(9, 10));
    assert_eq!(ComponentTicks::new(3), ComponentTicks { added: 3, changed: 3 });
}

#[test]
fn ticks_survive_the_wrap_of_the_counter() {
    // Added at the largest tick, seen from tick 2 after the counter started again.
    let ticks = ComponentTicks { added: u32::MAX, changed: 1 };
    assert!(ticks.is_added(u32::MAX - 1, 2));
    assert!(!ticks.is_added(0, 2));
    assert!(ticks.is_changed(0, 2));
    assert!(!ticks.is_changed(1, 2));
    // Nothing is newer than a system that never ran before the current tick.
    assert!(!ticks.is_added(2, 2));
}

#[test]
fn set_changed_keeps_the_tick_of_adding() {
    let mut ticks = ComponentTicks::new(4);
    ticks.set_changed(8);
    assert_eq!(ticks, ComponentTicks { added: 4, changed: 8 });
}

#[test]
fn writing_through_other_mut_stamps_the_change() {
    let target = ComponentRef { component_id: 2, slot: Slot::Table { table_id: 1, row: 3 } };
    let mut held = OtherMut {
        target,
        component_ticks: ComponentTicks { added: 1, changed: 1 },
        last_change_tick: 5,
        change_tick: 6,
    };
    assert!(!held.is_added());
    assert!(!held.is_changed());
    assert_eq!(held.deref(), target);
    assert!(!held.is_changed());
    assert_eq!(held.deref_mut(), target);
    assert!(held.is_changed());
    assert!(!held.is_added());
    assert_eq!(held.component_ticks, ComponentTicks { added: 1, changed: 6 });
}

#[test]
fn registry_gives_each_key_one_id() {
    let mut components = Components::new();
    assert_eq!(components.get_id(TypeKey::Type(5)), None);
    assert_eq!(components.get_or_insert(TypeKey::Type(5), StorageType::SparseSet), 0);
    assert_eq!(components.get_or_insert(TypeKey::Other(5, 0), StorageType::Table), 1);
    assert_eq!(components.get_or_insert(TypeKey::Other(5, 1), StorageType::Table), 2);
    assert_eq!(components.get_or_insert(TypeKey::OtherWorld(5), StorageType::Table), 3);
    // A key that is known keeps its id and its storage.
    assert_eq!(components.get_or_insert(TypeKey::Type(5), StorageType::Table), 0);
    assert_eq!(components.len(), 4);
    assert_eq!(components.get_info(0).unwrap().storage_type, StorageType::SparseSet);
    assert!(components.get_info(4).is_none());
    assert_eq!(components.get_id(TypeKey::Other(5, 1)), Some(2));
    assert!(components.is_valid());
}

#[test]
fn archetype_and_table_lookups() {
    let archetype = Archetype {
        id: 0,
        table_id: 0,
        components: vec![
            ArchetypeComponent {
                component_id: 4,
                storage_type: StorageType::Table,
                archetype_component_id: 10,
            },
            ArchetypeComponent {
                component_id: 2,
                storage_type: StorageType::SparseSet,
                archetype_component_id: 11,
            },
        ],
        entities: vec![Entity { id: 0, generation: 0 }],
        entity_table_rows: vec![0],
        ticks: vec![vec![ComponentTicks::new(1)], vec![ComponentTicks::new(2)]],
    };
    assert!(archetype.has_all_ticks());
    assert_eq!(archetype.position(2), Some(1));
    assert_eq!(archetype.position(3), None);
    assert_eq!(archetype.get_ticks(2, 0), Some(ComponentTicks::new(2)));
    assert_eq!(archetype.get_ticks(9, 0), None);
    assert!(archetype.contains(2) && archetype.contains(4) && !archetype.contains(3));
    assert_eq!(archetype.get_archetype_component_id(2), Some(11));
    assert_eq!(archetype.get_archetype_component_id(7), None);
    assert_eq!(archetype.get_component(4).unwrap().storage_type, StorageType::Table);
    assert_eq!(archetype.len(), 1);
    let table = Table { columns: vec![4], entities: vec![Entity { id: 0, generation: 0 }] };
    assert!(table.has_column(4) && !table.has_column(2));
    assert_eq!(table.len(), 1);
}

#[test]
fn world_finds_its_resources() {
    let mut world = World::new(1);
    assert_eq!(world.id, 1);
    assert!(world.is_valid());
    world.resources.push(Resource { component_id: 3, ticks: ComponentTicks::new(2) });
    world.resources.push(Resource { component_id: 1, ticks: ComponentTicks::new(7) });
    assert_eq!(world.get_resource(1).unwrap().ticks, ComponentTicks::new(7));
    assert!(world.get_resource(2).is_none());
    assert_eq!(world.get(Entity { id: 0, generation: 0 }), None);
}

#[test]
fn member_states_register_and_claim() {
    let mut primary = PrimaryWorld::new(1);
    primary.insert_resource(OtherWorld::new(3, 2));
    let other = Other { type_id: 8, world: 3 };
    let read = OtherReadState::init(&mut primary, other).unwrap();
    let write = OtherWriteState::init(&mut primary, other).unwrap();
    assert_eq!(read.world_id, 0);
    assert_eq!(read.component_id, 1);
    assert_eq!(read.other_component_id, 0);
    assert_eq!(read.storage_type, StorageType::Table);
    assert_eq!(
        (write.world_id, write.component_id, write.other_component_id),
        (read.world_id, read.component_id, read.other_component_id)
    );
    assert_eq!(primary.others[0].world.components.get_id(TypeKey::Type(8)), Some(0));
    assert_eq!(primary.world.components.get_id(TypeKey::Other(8, 3)), Some(1));
    assert!(matches!(
        OtherReadState::init(&mut primary, Other { type_id: 8, world: 4 }),
        Err(ConfigurationError::MissingResource { world: 4 })
    ));
    assert!(matches!(
        OtherWriteState::init(&mut primary, Other { type_id: 8, world: 4 }),
        Err(ConfigurationError::MissingResource { world: 4 })
    ));
    assert!(primary.is_valid());

    let holder = Archetype {
        id: 0,
        table_id: 0,
        components: vec![ArchetypeComponent {
            component_id: 0,
            storage_type: StorageType::Table,
            archetype_component_id: 6,
        }],
        entities: Vec::new(),
        entity_table_rows: Vec::new(),
        ticks: vec![Vec::new()],
    };
    let table = Table { columns: vec![0], entities: Vec::new() };
    assert!(read.matches_archetype(&holder) && write.matches_archetype(&holder));
    assert!(read.matches_table(&table) && write.matches_table(&table));
    let empty = Table { columns: Vec::new(), entities: Vec::new() };
    assert!(!read.matches_table(&empty) && !write.matches_table(&empty));
}

#[test]
fn fetch_cursors_name_the_slot_of_a_row() {
    let archetype = Archetype {
        id: 2,
        table_id: 5,
        components: Vec::new(),
        entities: vec![Entity { id: 7, generation: 1 }, Entity { id: 8, generation: 0 }],
        entity_table_rows: vec![4, 9],
        ticks: Vec::new(),
    };
    let dense = OtherReadState {
        world_id: 0,
        component_id: 1,
        other_component_id: 3,
        storage_type: StorageType::Table,
    };
    let mut fetch = OtherReadFetch::init(&dense, 0, 1);
    assert!(fetch.is_dense());
    fetch.set_table(&dense, 6);
    assert_eq!(
        fetch.table_fetch(2),
        ComponentRef { component_id: 3, slot: Slot::Table { table_id: 6, row: 2 } }
    );
    fetch.set_archetype(&dense, &archetype);
    assert_eq!(
        fetch.archetype_fetch(1),
        ComponentRef { component_id: 3, slot: Slot::Table { table_id: 5, row: 9 } }
    );

    // A world with one archetype of two entities that hold the sparse component 0.
    let mut world = World::new(1);
    world.components.get_or_insert(TypeKey::Type(4), StorageType::SparseSet);
    world.tables.push(Table { columns: Vec::new(), entities: archetype.entities.clone() });
    world.archetypes.push(Archetype {
        id: 0,
        table_id: 0,
        components: vec![ArchetypeComponent {
            component_id: 0,
            storage_type: StorageType::SparseSet,
            archetype_component_id: 0,
        }],
        entities: archetype.entities.clone(),
        entity_table_rows: vec![0, 1],
        ticks: vec![vec![ComponentTicks::new(2), ComponentTicks { added: 1, changed: 4 }]],
    });
    for (index, held) in archetype.entities.iter().enumerate() {
        while world.entities.len() <= held.id as usize {
            world.entities.push(other_world::world::EntityMeta { generation: 0, location: None });
        }
        world.entities[held.id as usize] = other_world::world::EntityMeta {
            generation: held.generation,
            location: Some(other_world::world::EntityLocation { archetype_id: 0, index }),
        };
    }
    assert!(world.is_valid());
    let sparse = OtherWriteState {
        world_id: 0,
        component_id: 1,
        other_component_id: 0,
        storage_type: StorageType::SparseSet,
    };
    let mut fetch = OtherWriteFetch::init(&world, &sparse, 3, 4);
    assert!(!fetch.is_dense());
    assert_eq!((fetch.last_change_tick, fetch.change_tick), (3, 4));
    fetch.set_archetype(&sparse, &world.archetypes[0]);
    let held = fetch.archetype_fetch(1);
    assert_eq!(
        held,
        OtherMut {
            target: ComponentRef {
                component_id: 0,
                slot: Slot::SparseSet { entity: Entity { id: 8, generation: 0 } }
            },
            component_ticks: ComponentTicks { added: 1, changed: 4 },
            last_change_tick: 3,
            change_tick: 4,
        }
    );
    assert!(held.is_changed() && !held.is_added());
    fetch.set_table(&sparse, 0);
    let first = fetch.table_fetch(0);
    assert_eq!(
        first.target,
        ComponentRef { component_id: 0, slot: Slot::Table { table_id: 0, row: 0 } }
    );
    assert_eq!(first.component_ticks, ComponentTicks::new(2));

    let state = OtherState::Write(sparse);
    assert!(!state.is_dense());
    assert!(state.knows_storage(&world.components));
    assert!(!OtherState::Read(dense).knows_storage(&world.components));
    let placed = OtherFetch::init(&world, &state, 0, 1).set_archetype(&state, &world.archetypes[0]);
    match placed.archetype_fetch(0) {
        Fetched::Write(held) => {
            assert_eq!(held.component_ticks, ComponentTicks::new(2));
            assert_eq!((held.last_change_tick, held.change_tick), (0, 1));
        }
        other => panic!("unexpected {:?}", other),
    }
    let unit = OtherFetch::init(&world, &OtherState::Unit, 0, 1).set_table(&OtherState::Unit, 0);
    assert_eq!(unit.table_fetch(3), Fetched::Unit);
    assert!(OtherState::Unit.is_dense());
    assert!(OtherState::Unit.matches_archetype(&archetype));
}

#[test]
fn filter_states_decide_by_presence() {
    let mut primary = PrimaryWorld::new(1);
    primary.insert_resource(OtherWorld::new(0, 2));
    primary.others[0].world.components.get_or_insert(TypeKey::Type(1), StorageType::SparseSet);
    let with = FilterState::init(&mut primary, OtherFilter::With(1), 0).unwrap();
    let without = FilterState::init(&mut primary, OtherFilter::Without(2), 0).unwrap();
    assert_eq!(
        with,
        FilterState::With { other_component_id: 0, storage_type: StorageType::SparseSet }
    );
    assert_eq!(
        without,
        FilterState::Without { other_component_id: 1, storage_type: StorageType::Table }
    );
    assert!(!with.is_dense() && without.is_dense());
    let holder = Archetype {
        id: 0,
        table_id: 0,
        components: vec![ArchetypeComponent {
            component_id: 0,
            storage_type: StorageType::SparseSet,
            archetype_component_id: 0,
        }],
        entities: Vec::new(),
        entity_table_rows: Vec::new(),
        ticks: vec![Vec::new()],
    };
    assert!(with.matches_archetype(&holder));
    assert!(without.matches_archetype(&holder));
    let state = OtherState::init(&mut primary, Otherable::Unit, 0).unwrap();
    assert_eq!(state, OtherState::Unit);
    let added = FilterState::init(&mut primary, OtherFilter::Added(1), 0).unwrap();
    let changed = FilterState::init(&mut primary, OtherFilter::Changed(2), 0).unwrap();
    assert_eq!(
        added,
        FilterState::Added { other_component_id: 0, storage_type: StorageType::SparseSet }
    );
    assert!(added.matches_archetype(&holder) && !changed.matches_archetype(&holder));
    assert!(!added.is_dense() && changed.is_dense());
    assert!(matches!(
        FilterState::init(&mut primary, OtherFilter::With(1), 9),
        Err(ConfigurationError::MissingResource { world: 9 })
    ));
}

#[test]
fn system_claims_follow_the_rules_of_borrowing() {
    let mut system = SystemState::new(4);
    assert_eq!(system.last_change_tick, 4);
    assert!(system.claim_read(3));
    assert!(system.claim_read(3));
    assert!(system.has_read(3) && !system.has_write(3));
    assert!(!system.claim_write(3));
    assert!(!system.has_write(3));
    assert!(system.claim_write(5));
    assert!(system.has_read(5) && system.has_write(5));
    assert!(!system.claim_read(5));
    assert!(!system.claim_write(5));
    assert!(!system.has_read(4));
}

#[test]
fn compatibility_is_checked_against_earlier_queries() {
    let mut primary = PrimaryWorld::new(1);
    primary.insert_resource(OtherWorld::new(0, 2));
    let mut system = SystemState::new(0);
    let first = other_world::other_query_state::OtherQueryState::new(
        &mut primary,
        0,
        &vec![Otherable::Read(1), Otherable::Write(2)],
        &vec![],
    )
    .unwrap();
    assert!(
        assert_component_access_compatibility(&system.component_access_set, &first.component_access)
            .is_ok()
    );
    system.add_query(&first.component_access, &first.archetype_component_access);
    let reader = other_world::other_query_state::OtherQueryState::new(
        &mut primary,
        0,
        &vec![Otherable::Read(1)],
        &vec![],
    )
    .unwrap();
    assert!(assert_component_access_compatibility(
        &system.component_access_set,
        &reader.component_access
    )
    .is_ok());
    let writer = other_world::other_query_state::OtherQueryState::new(
        &mut primary,
        0,
        &vec![Otherable::Write(1)],
        &vec![],
    )
    .unwrap();
    let proxy = primary.world.components.get_id(TypeKey::Other(1, 0)).unwrap();
    match assert_component_access_compatibility(
        &system.component_access_set,
        &writer.component_access,
    ) {
        Err(ConfigurationError::ConflictingAccess { components }) => {
            assert_eq!(components, vec![proxy])
        }
        other => panic!("unexpected {:?}", other),
    }
}

#[test]
fn resources_of_a_nested_world_are_claimed_under_their_key() {
    let mut primary = PrimaryWorld::new(1);
    primary.insert_resource(OtherWorld::new(0, 2));
    let mut system = SystemState::new(6);
    let score = Other { type_id: 9, world: 0 };
    let first = OtherResState::init(&mut primary, &mut system, score).unwrap();
    let again = OtherResState::init(&mut primary, &mut system, score).unwrap();
    assert_eq!(first, again);
    assert_eq!(first.component_id, 0);
    let proxy = primary.world.components.get_id(TypeKey::Other(9, 0)).unwrap();
    assert!(system.has_read(proxy) && !system.has_write(proxy));
    match OtherResMutState::init(&mut primary, &mut system, score) {
        Err(ConfigurationError::ConflictingAccess { components }) => {
            assert_eq!(components, vec![proxy])
        }
        other => panic!("unexpected {:?}", other),
    }
    let lives = Other { type_id: 10, world: 0 };
    let writer = OtherResMutState::init(&mut primary, &mut system, lives).unwrap();
    assert!(system.has_write(primary.world.components.get_id(TypeKey::Other(10, 0)).unwrap()));
    assert!(matches!(
        OtherResState::init(&mut primary, &mut system, lives),
        Err(ConfigurationError::ConflictingAccess { .. })
    ));
    assert!(matches!(
        OtherResState::init(&mut primary, &mut system, Other { type_id: 9, world: 5 }),
        Err(ConfigurationError::MissingResource { world: 5 })
    ));

    primary.others[0].world.resources.push(Resource {
        component_id: writer.component_id,
        ticks: ComponentTicks { added: 2, changed: 7 },
    });
    primary.others[0].world.resources.push(Resource {
        component_id: first.component_id,
        ticks: ComponentTicks { added: 7, changed: 7 },
    });
    let shared: OtherRes = OtherResState::get_param(&first, &system, &primary, 8);
    assert_eq!(shared.deref(), first.component_id);
    assert!(shared.is_added() && shared.is_changed());
    let mut held: OtherResMut = OtherResMutState::get_param(&writer, &system, &primary, 8);
    assert!(!held.is_added() && held.is_changed());
    assert_eq!(held.deref(), writer.component_id);
    assert_eq!(held.deref_mut(), writer.component_id);
    assert_eq!(held.ticks, ComponentTicks { added: 2, changed: 8 });
}

#[test]
fn resources_of_a_borrowed_nested_world_are_refused() {
    let mut primary = PrimaryWorld::new(1);
    primary.insert_resource(OtherWorld::new(0, 2));
    let world_id = primary.world.components.get_id(TypeKey::OtherWorld(0)).unwrap();
    let mut system = SystemState::new(0);
    assert!(system.borrow_other_world(&primary, 0, false).is_ok());
    let score = Other { type_id: 9, world: 0 };
    assert!(matches!(
        OtherResState::init(&mut primary, &mut system, score),
        Err(ConfigurationError::OtherWorldBorrowed { world_id: id }) if id == world_id
    ));
    assert!(matches!(
        OtherResMutState::init(&mut primary, &mut system, score),
        Err(ConfigurationError::OtherWorldBorrowed { world_id: id }) if id == world_id
    ));
}

#[test]
fn plugin_adds_the_nested_world_once() {
    let mut plugin = OtherWorldPlugin::new(2);
    assert_eq!(plugin.index, 2);
    assert!(plugin.sync_stage.is_none());
    plugin.with_sync("update".to_string());
    assert_eq!(plugin.sync_stage.as_deref(), Some("update"));
    let mut primary = PrimaryWorld::new(1);
    assert!(plugin.build(&mut primary, 30));
    assert!(!plugin.build(&mut primary, 31));
    assert_eq!(primary.get_resource(2).unwrap().world().id, 30);
    assert_eq!(primary.find_other(2), Some(0));
    assert_eq!(primary.find_other(0), None);
    assert!(primary.is_valid());
}

#[test]
fn stamping_a_change_reaches_the_ticks_of_the_world() {
    let entity = Entity { id: 0, generation: 0 };
    let mut world = World::new(1);
    world.components.get_or_insert(TypeKey::Type(1), StorageType::Table);
    world.tables.push(Table { columns: vec![0], entities: vec![entity] });
    world.archetypes.push(Archetype {
        id: 0,
        table_id: 0,
        components: vec![ArchetypeComponent {
            component_id: 0,
            storage_type: StorageType::Table,
            archetype_component_id: 0,
        }],
        entities: vec![entity],
        entity_table_rows: vec![0],
        ticks: vec![vec![ComponentTicks::new(2)]],
    });
    world.entities.push(other_world::world::EntityMeta {
        generation: 0,
        location: Some(other_world::world::EntityLocation { archetype_id: 0, index: 0 }),
    });
    assert!(world.is_valid());
    let target = ComponentRef { component_id: 0, slot: Slot::Table { table_id: 0, row: 0 } };
    let mut held = OtherMut::new(&world, entity, target, 3, 4).unwrap();
    assert_eq!(held.component_ticks, ComponentTicks::new(2));
    assert!(!held.is_changed());
    held.deref_mut();
    assert!(world.set_changed(entity, 0, held.change_tick));
    assert_eq!(world.get_ticks(entity, 0), Some(ComponentTicks { added: 2, changed: 4 }));
    assert!(world.is_valid());
    // Nothing is stamped for a component or an entity that is not there.
    assert!(!world.set_changed(entity, 1, 9));
    assert!(!world.set_changed(Entity { id: 0, generation: 1 }, 0, 9));
    assert_eq!(world.get_ticks(entity, 0), Some(ComponentTicks { added: 2, changed: 4 }));
    let wrong = ComponentRef { component_id: 7, slot: Slot::Table { table_id: 0, row: 0 } };
    assert!(OtherMut::new(&world, entity, wrong, 3, 4).is_none());
    // Ticks that do not cover every entity make the layout inconsistent.
    world.archetypes[0].ticks[0].push(ComponentTicks::new(1));
    assert!(!world.is_valid());
}
