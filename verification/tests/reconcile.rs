use rustiant::data::PrefabData;
use rustiant::field::PrefabField;
use rustiant::num::Number;
use rustiant::prefab::DefaultPrefab;
use rustiant::registry::{register_default_prefabs, PrefabRegistry};
use rustiant::room::{Room, RoomEvent, RoomHandle};
use rustiant::strmap::StrMap;
use rustiant::tracker::{parse_room_system, RoomTracker};
use rustiant::world::{AttrOp, Entity, EntityAllocator, WorldOp};

fn player_data(speed: u64, sprite: &str, position: &str) -> PrefabData {
    let mut fields: StrMap<PrefabField> = StrMap::new();
    fields.insert(
        "speed".to_string(),
        PrefabField::NumberValue(Number::from_parts(false, speed, 0)),
    );
    fields.insert(
        "sprite".to_string(),
        PrefabField::StringValue(sprite.to_string()),
    );
    fields.insert(
        "position".to_string(),
        PrefabField::StringValue(position.to_string()),
    );
    PrefabData {
        prefab_type: "Player".to_string(),
        fields,
    }
}

fn pig_parent_data() -> PrefabData {
    PrefabData {
        prefab_type: "PigParent".to_string(),
        fields: StrMap::new(),
    }
}

fn scenario_room() -> Room {
    let mut room = Room::new();
    room.prefabs.insert(
        "p1".to_string(),
        player_data(300, "sprites/bevy-icon.png", "(0.0, 0.0)"),
    );
    room.prefabs.insert("p2".to_string(), pig_parent_data());
    room
}

fn default_registry() -> PrefabRegistry<DefaultPrefab> {
    let mut registry = PrefabRegistry::new();
    register_default_prefabs(&mut registry);
    registry
}

#[test]
fn created_pass_tracks_every_id_and_spawns_player_attributes() {
    let registry = default_registry();
    let mut tracker = RoomTracker::new();
    let mut alloc = EntityAllocator::new();
    let room = scenario_room();
    let handle = RoomHandle { id: 7 };

    let ops = parse_room_system(
        &mut tracker,
        &mut alloc,
        &registry,
        &RoomEvent::Created { handle },
        Some(&room),
    );

    let record = tracker.rooms.get(7).expect("room is tracked");
    assert_eq!(record.len(), 2);
    assert!(record.contains_key(&"p1".to_string()));
    assert!(record.contains_key(&"p2".to_string()));

    let p1 = record.get(&"p1".to_string()).unwrap();
    let p2 = record.get(&"p2".to_string()).unwrap();
    assert_ne!(p1.entity, p2.entity);

    assert_eq!(ops.len(), 2);
    match &ops[0] {
        WorldOp::Spawn { entity, attrs } => {
            assert_eq!(*entity, p1.entity);
            assert_eq!(
                *attrs,
                vec![
                    AttrOp::SetName("Player".to_string()),
                    AttrOp::SetSpeed(Number::from_parts(false, 300, 0)),
                    AttrOp::SetSprite("sprites/bevy-icon.png".to_string()),
                    AttrOp::SetPosition(
                        Number::from_parts(false, 0, 0),
                        Number::from_parts(false, 0, 0)
                    ),
                ]
            );
        }
        other => panic!("expected a spawn, got {:?}", other),
    }
    match &ops[1] {
        WorldOp::Spawn { entity, attrs } => {
            assert_eq!(*entity, p2.entity);
            assert_eq!(
                *attrs,
                vec![AttrOp::SetName("PigParent".to_string()), AttrOp::MarkPigParent]
            );
        }
        other => panic!("expected a spawn, got {:?}", other),
    }
}

#[test]
fn modified_pass_updates_only_the_changed_field() {
    let registry = default_registry();
    let mut tracker = RoomTracker::new();
    let mut alloc = EntityAllocator::new();
    let handle = RoomHandle { id: 7 };
    let room = scenario_room();
    parse_room_system(
        &mut tracker,
        &mut alloc,
        &registry,
        &RoomEvent::Created { handle },
        Some(&room),
    );
    let p1_entity = tracker.rooms.get(7).unwrap().get(&"p1".to_string()).unwrap().entity;

    let mut reloaded = Room::new();
    reloaded.prefabs.insert(
        "p1".to_string(),
        player_data(450, "sprites/bevy-icon.png", "(0.0, 0.0)"),
    );
    reloaded.prefabs.insert("p2".to_string(), pig_parent_data());

    let ops = parse_room_system(
        &mut tracker,
        &mut alloc,
        &registry,
        &RoomEvent::Modified { handle },
        Some(&reloaded),
    );

    let mut real_updates: Vec<(Entity, Vec<AttrOp>)> = Vec::new();
    for op in &ops {
        match op {
            WorldOp::Update { entity, attrs } => {
                if !attrs.is_empty() {
                    real_updates.push((*entity, attrs.clone()));
                }
            }
            WorldOp::Spawn { .. } => panic!("nothing should be spawned"),
            WorldOp::Despawn { .. } => panic!("nothing should be despawned"),
        }
    }
    assert_eq!(real_updates.len(), 1);
    assert_eq!(real_updates[0].0, p1_entity);
    assert_eq!(
        real_updates[0].1,
        vec![AttrOp::SetSpeed(Number::from_parts(false, 450, 0))]
    );

    let record = tracker.rooms.get(7).unwrap();
    assert_eq!(record.len(), 2);
    assert!(record.contains_key(&"p1".to_string()));
    assert!(record.contains_key(&"p2".to_string()));
}

#[test]
fn modified_pass_despawns_deleted_entries() {
    let registry = default_registry();
    let mut tracker = RoomTracker::new();
    let mut alloc = EntityAllocator::new();
    let handle = RoomHandle { id: 7 };
    parse_room_system(
        &mut tracker,
        &mut alloc,
        &registry,
        &RoomEvent::Created { handle },
        Some(&scenario_room()),
    );
    let p2_entity = tracker.rooms.get(7).unwrap().get(&"p2".to_string()).unwrap().entity;

    let mut reloaded = Room::new();
    reloaded.prefabs.insert(
        "p1".to_string(),
        player_data(450, "sprites/bevy-icon.png", "(0.0, 0.0)"),
    );

    let ops = parse_room_system(
        &mut tracker,
        &mut alloc,
        &registry,
        &RoomEvent::Modified { handle },
        Some(&reloaded),
    );

    assert!(ops.contains(&WorldOp::Despawn { entity: p2_entity }));
    let record = tracker.rooms.get(7).unwrap();
    assert_eq!(record.len(), 1);
    assert!(record.contains_key(&"p1".to_string()));
    assert!(!record.contains_key(&"p2".to_string()));
}

#[test]
fn identical_reload_mutates_no_attribute() {
    let registry = default_registry();
    let mut tracker = RoomTracker::new();
    let mut alloc = EntityAllocator::new();
    let handle = RoomHandle { id: 3 };
    parse_room_system(
        &mut tracker,
        &mut alloc,
        &registry,
        &RoomEvent::Created { handle },
        Some(&scenario_room()),
    );

    let ops = parse_room_system(
        &mut tracker,
        &mut alloc,
        &registry,
        &RoomEvent::Modified { handle },
        Some(&scenario_room()),
    );

    for op in &ops {
        match op {
            WorldOp::Update { attrs, .. } => assert!(attrs.is_empty()),
            other => panic!("only empty updates expected, got {:?}", other),
        }
    }
    assert_eq!(tracker.rooms.get(3).unwrap().len(), 2);
}

#[test]
fn unregistered_type_is_skipped_and_siblings_spawn() {
    let registry = default_registry();
    let mut tracker = RoomTracker::new();
    let mut alloc = EntityAllocator::new();
    let handle = RoomHandle { id: 1 };

    let mut room = Room::new();
    let ghost_data = PrefabData {
        prefab_type: "Ghost".to_string(),
        fields: StrMap::new(),
    };
    room.prefabs.insert("g1".to_string(), ghost_data);
    room.prefabs.insert("p2".to_string(), pig_parent_data());

    let ops = parse_room_system(
        &mut tracker,
        &mut alloc,
        &registry,
        &RoomEvent::Created { handle },
        Some(&room),
    );

    let record = tracker.rooms.get(1).unwrap();
    assert_eq!(record.len(), 1);
    assert!(!record.contains_key(&"g1".to_string()));
    assert!(record.contains_key(&"p2".to_string()));
    assert_eq!(ops.len(), 1);
    assert!(matches!(ops[0], WorldOp::Spawn { .. }));
}

#[test]
fn removed_event_despawns_everything_and_forgets_the_room() {
    let registry = default_registry();
    let mut tracker = RoomTracker::new();
    let mut alloc = EntityAllocator::new();
    let handle = RoomHandle { id: 9 };
    parse_room_system(
        &mut tracker,
        &mut alloc,
        &registry,
        &RoomEvent::Created { handle },
        Some(&scenario_room()),
    );
    let record = tracker.rooms.get(9).unwrap();
    let e1 = record.get(&"p1".to_string()).unwrap().entity;
    let e2 = record.get(&"p2".to_string()).unwrap().entity;

    let ops = parse_room_system(
        &mut tracker,
        &mut alloc,
        &registry,
        &RoomEvent::Removed { handle },
        None,
    );

    assert_eq!(ops.len(), 2);
    assert!(ops.contains(&WorldOp::Despawn { entity: e1 }));
    assert!(ops.contains(&WorldOp::Despawn { entity: e2 }));
    assert!(tracker.rooms.get(9).is_none());
}

#[test]
fn empty_room_tracks_zero_prefabs() {
    let registry = default_registry();
    let mut tracker = RoomTracker::new();
    let mut alloc = EntityAllocator::new();
    let handle = RoomHandle { id: 2 };

    let ops = parse_room_system(
        &mut tracker,
        &mut alloc,
        &registry,
        &RoomEvent::Created { handle },
        Some(&Room::new()),
    );

    assert!(ops.is_empty());
    let record = tracker.rooms.get(2).expect("tracked with zero prefabs");
    assert_eq!(record.len(), 0);
}

#[test]
fn type_change_on_reload_is_skipped_and_keeps_the_old_snapshot() {
    let registry = default_registry();
    let mut tracker = RoomTracker::new();
    let mut alloc = EntityAllocator::new();
    let handle = RoomHandle { id: 4 };
    let mut room = Room::new();
    room.prefabs.insert("p2".to_string(), pig_parent_data());
    parse_room_system(
        &mut tracker,
        &mut alloc,
        &registry,
        &RoomEvent::Created { handle },
        Some(&room),
    );
    let old_entity = tracker.rooms.get(4).unwrap().get(&"p2".to_string()).unwrap().entity;

    let mut reloaded = Room::new();
    reloaded.prefabs.insert(
        "p2".to_string(),
        player_data(10, "sprites/bevy-icon.png", "(1.0, 2.0)"),
    );
    let ops = parse_room_system(
        &mut tracker,
        &mut alloc,
        &registry,
        &RoomEvent::Modified { handle },
        Some(&reloaded),
    );

    assert!(ops.is_empty());
    let record = tracker.rooms.get(4).unwrap();
    let entry = record.get(&"p2".to_string()).unwrap();
    assert_eq!(entry.entity, old_entity);
    assert_eq!(entry.data.prefab_type, "PigParent".to_string());
}
