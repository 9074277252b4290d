//! Tests of the world: entity lifecycle, component storage, masks and query.

use ecs::entity::{Entity, EntityId};
use ecs::error::EcsError;
use ecs::world::World;

const POSITION: u64 = 1;
const VELOCITY: u64 = 2;

#[derive(Debug, Clone, Copy, PartialEq)]
struct Position {
    x: f32,
    y: f32,
}

#[derive(Debug, Clone, Copy, PartialEq)]
struct Velocity {
    x: f32,
    y: f32,
}

#[derive(Debug, Clone, Copy, PartialEq)]
enum TestComp {
    Position(Position),
    Velocity(Velocity),
}

#[test]
fn test_world_entity_creation() {
    let mut world: World<TestComp> = World::new();
    assert_eq!(world.entity_count(), 0);

    let entity = world.create_entity();
    assert_eq!(world.entity_count(), 1);
    assert!(world.entity_exists(entity));
}

#[test]
fn test_world_component_operations() {
    let mut world: World<TestComp> = World::new();
    let entity = world.create_entity();

    let pos = Position { x: 1.0, y: 2.0 };
    world.add_component(entity, POSITION, TestComp::Position(pos)).unwrap();

    assert!(world.has_component(entity, POSITION));
    assert!(!world.has_component(entity, VELOCITY));

    match world.get_component(entity, POSITION).unwrap() {
        TestComp::Position(retrieved_pos) => {
            assert_eq!(retrieved_pos.x, 1.0);
            assert_eq!(retrieved_pos.y, 2.0);
        },
        _ => panic!("expected a position"),
    }
}

#[test]
fn test_world_entity_removal() {
    let mut world: World<TestComp> = World::new();
    let entity = world.create_entity();

    world
        .add_component(entity, POSITION, TestComp::Position(Position { x: 0.0, y: 0.0 }))
        .unwrap();
    assert!(world.has_component(entity, POSITION));

    world.remove_entity(entity).unwrap();
    assert!(!world.entity_exists(entity));
    assert_eq!(world.entity_count(), 0);
}

#[test]
fn removed_entity_loses_all_components() {
    let mut world: World<u32> = World::new();
    let e = world.create_entity();
    world.add_component(e, 10, 111).unwrap();
    world.add_component(e, 20, 222).unwrap();

    world.remove_entity(e).unwrap();
    assert!(!world.entity_exists(e));
    assert!(!world.has_component(e, 10));
    assert!(!world.has_component(e, 20));
    assert!(world.get_component(e, 10).is_none());
    assert!(world.get_component(e, 20).is_none());
}

#[test]
fn add_component_overwrites_previous_value() {
    let mut world: World<u32> = World::new();
    let e = world.create_entity();
    world.add_component(e, 10, 1).unwrap();
    world.add_component(e, 10, 2).unwrap();
    assert_eq!(world.get_component(e, 10), Some(&2));
}

#[test]
fn has_component_tracks_add_and_remove() {
    let mut world: World<u32> = World::new();
    let e = world.create_entity();
    assert!(!world.has_component(e, 10));

    world.add_component(e, 10, 1).unwrap();
    assert!(world.has_component(e, 10));

    assert_eq!(world.remove_component(e, 10), Ok(Some(1)));
    assert!(!world.has_component(e, 10));

    world.add_component(e, 10, 5).unwrap();
    assert!(world.has_component(e, 10));
}

#[test]
fn query_returns_exactly_mask_supersets() {
    let mut world: World<u32> = World::new();
    let both = world.create_entity();
    let only_a = world.create_entity();
    let only_b = world.create_entity();
    let neither = world.create_entity();

    world.add_component(both, 1, 0).unwrap();
    world.add_component(both, 2, 0).unwrap();
    world.add_component(only_a, 1, 0).unwrap();
    world.add_component(only_b, 2, 0).unwrap();

    let ab = world.query_entities(&[1, 2]);
    assert_eq!(ab, vec![both]);

    // insertion order of the required tags does not matter
    let ba = world.query_entities(&[2, 1]);
    assert_eq!(ba, vec![both]);

    let a = world.query_entities(&[1]);
    assert_eq!(a.len(), 2);
    assert!(a.contains(&both) && a.contains(&only_a));

    let all = world.query_entities(&[]);
    assert_eq!(all.len(), 4);
    assert!(all.contains(&neither));
}

#[test]
fn remove_entity_twice_fails() {
    let mut world: World<u32> = World::new();
    let e = world.create_entity();
    assert_eq!(world.remove_entity(e), Ok(()));
    assert_eq!(world.remove_entity(e), Err(EcsError::EntityNotFound(e)));
}

#[test]
fn remove_missing_entity_fails() {
    let mut world: World<u32> = World::new();
    let ghost_handle = Entity::new(EntityId { index: 5, generation: 0 });
    assert_eq!(world.remove_entity(ghost_handle), Err(EcsError::EntityNotFound(ghost_handle)));
}

#[test]
fn stale_handle_never_aliases_new_entity() {
    let mut world: World<u32> = World::new();
    let old = world.create_entity();
    world.add_component(old, 10, 7).unwrap();
    world.remove_entity(old).unwrap();

    // the freed slot is reused, but under a bumped generation
    let fresh = world.create_entity();
    assert_eq!(fresh.id().index, old.id().index);
    assert_ne!(fresh, old);

    assert!(!world.entity_exists(old));
    assert!(!world.has_component(old, 10));
    assert!(world.get_component(old, 10).is_none());
    assert_eq!(world.remove_entity(old), Err(EcsError::EntityNotFound(old)));
}

#[test]
fn add_component_to_missing_entity_fails() {
    let mut world: World<u32> = World::new();
    let e = world.create_entity();
    world.remove_entity(e).unwrap();
    assert_eq!(world.add_component(e, 10, 1), Err(EcsError::EntityNotFound(e)));
}

#[test]
fn remove_component_unregistered_tag_fails() {
    let mut world: World<u32> = World::new();
    let e = world.create_entity();
    assert_eq!(world.remove_component(e, 99), Err(EcsError::ComponentNotRegistered(99)));
}

#[test]
fn remove_component_returns_removed_value() {
    let mut world: World<u32> = World::new();
    let e = world.create_entity();
    world.add_component(e, 10, 77).unwrap();
    assert_eq!(world.remove_component(e, 10), Ok(Some(77)));
    assert_eq!(world.remove_component(e, 10), Ok(None));
}

#[test]
fn register_component_is_idempotent() {
    let mut world: World<u32> = World::new();
    world.register_component(10);
    let e = world.create_entity();
    world.add_component(e, 10, 3).unwrap();
    world.register_component(10);
    assert_eq!(world.get_component(e, 10), Some(&3));
}

#[test]
fn entities_snapshot_lists_live_entities() {
    let mut world: World<u32> = World::new();
    let e1 = world.create_entity();
    let e2 = world.create_entity();
    let snapshot = world.entities();
    assert_eq!(snapshot.len(), 2);
    assert!(snapshot.contains(&e1) && snapshot.contains(&e2));

    world.remove_entity(e1).unwrap();
    let snapshot = world.entities();
    assert_eq!(snapshot, vec![e2]);
}

#[test]
fn component_storage_access() {
    let mut world: World<u32> = World::new();
    assert!(world.get_component_storage(10).is_none());
    let e = world.create_entity();
    world.add_component(e, 10, 4).unwrap();
    let storage = world.get_component_storage(10).unwrap();
    assert_eq!(storage.get(e.id().index), Some(&4));
}

#[test]
fn default_world_is_empty() {
    let world: World<u32> = World::default();
    assert_eq!(world.entity_count(), 0);
}

#[test]
fn get_component_mut_updates_value_in_place() {
    let mut world: World<u32> = World::new();
    let e = world.create_entity();
    world.add_component(e, 10, 1).unwrap();
    match world.get_component_mut(e, 10) {
        Some(v) => *v = 9,
        None => panic!("expected a component"),
    }
    assert_eq!(world.get_component(e, 10), Some(&9));
    // in-place mutation leaves the membership index untouched
    assert!(world.has_component(e, 10));
    // absence semantics match get_component
    assert!(world.get_component_mut(e, 99).is_none());
}
