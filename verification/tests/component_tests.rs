//! Tests of the component interface and the component value types.

use ecs::component::Component;
use ecs::components::{Mass, Name, Position, Rotation, Velocity};
use ecs::entity::{Entity, EntityId};

struct TestComponent {
    value: i32,
}

impl Component for TestComponent {
    fn type_tag() -> u64 {
        42
    }
}

#[test]
fn test_component_trait() {
    let component = TestComponent { value: 42 };
    assert_eq!(component.value, 42);
    assert_eq!(TestComponent::type_tag(), 42);
}

#[test]
fn test_entity_creation() {
    let id = EntityId { index: 0, generation: 0 };
    let entity = Entity::new(id);

    assert_eq!(entity.id(), id);
    assert_eq!(EntityId::from(entity), id);
}

#[test]
fn test_components_basic_functionality() {
    let pos = Position::new(1, 2);
    assert_eq!(pos.x, 1);
    assert_eq!(pos.y, 2);

    let vel = Velocity::new(3, 4);
    assert_eq!(vel.x * vel.x + vel.y * vel.y, 25); // 3-4-5 triangle

    let name = Name::new("test");
    assert_eq!(name.value, "test");
}

#[test]
fn component_types_have_distinct_tags() {
    let tags = vec![
        Position::type_tag(),
        Velocity::type_tag(),
        Rotation::type_tag(),
        Mass::type_tag(),
        Name::type_tag(),
    ];
    for i in 0..tags.len() {
        for j in 0..tags.len() {
            if i != j {
                assert_ne!(tags[i], tags[j]);
            }
        }
    }
}

#[test]
fn entity_conversions_round_trip() {
    let id = EntityId { index: 3, generation: 7 };
    let entity = Entity::from(id);
    assert_eq!(entity.id(), id);
    let back: EntityId = entity.into();
    assert_eq!(back, id);
}

#[test]
fn name_from_string() {
    let name = Name::from(String::from("hello"));
    assert_eq!(name.value, "hello");
}
