//! Tests of the system dispatcher: registration order, fail-fast abort, and
//! removal with cleanup.

use ecs::error::{EcsError, EcsResult};
use ecs::system::{System, SystemDispatcher};
use ecs::world::World;

struct TestSystem {
    name: String,
    run_count: usize,
}

impl TestSystem {
    fn new(name: &str) -> Self {
        Self { name: name.to_string(), run_count: 0 }
    }
}

impl System for TestSystem {
    type C = u32;
    type V = ();

    fn name(&self) -> &str {
        &self.name
    }

    fn initialize(&mut self, _world: &mut World<u32>) -> EcsResult<()> {
        Ok(())
    }

    fn run(&mut self, _world: &mut World<u32>, _dt_ms: u32) -> EcsResult<()> {
        self.run_count += 1;
        Ok(())
    }

    fn cleanup(&mut self, _world: &mut World<u32>) -> EcsResult<()> {
        Ok(())
    }
}

#[test]
fn test_system_dispatcher() {
    let mut world: World<u32> = World::new();
    let mut dispatcher: SystemDispatcher<TestSystem> = SystemDispatcher::new();

    let system = TestSystem::new("test_system");
    dispatcher.add_system(system, &mut world).unwrap();

    assert_eq!(dispatcher.system_count(), 1);

    dispatcher.run_systems(&mut world, 16).unwrap();
}

/// A system whose every hook leaves a visible trace in the world: its run
/// creates one entity (or fails), its initialize and cleanup add a component
/// to entity slot markers, so a test can observe which hooks ran.
struct StepSystem {
    name: String,
    fail: bool,
}

impl System for StepSystem {
    type C = u32;
    type V = ();

    fn name(&self) -> &str {
        &self.name
    }

    fn initialize(&mut self, _world: &mut World<u32>) -> EcsResult<()> {
        Ok(())
    }

    fn run(&mut self, world: &mut World<u32>, _dt_ms: u32) -> EcsResult<()> {
        if self.fail {
            Err(EcsError::SystemError(self.name.clone()))
        } else {
            world.create_entity();
            Ok(())
        }
    }

    fn cleanup(&mut self, world: &mut World<u32>) -> EcsResult<()> {
        world.create_entity();
        Ok(())
    }
}

#[test]
fn dispatcher_aborts_tick_at_first_failure() {
    let mut world: World<u32> = World::new();
    let mut dispatcher: SystemDispatcher<StepSystem> = SystemDispatcher::new();
    dispatcher
        .add_system(StepSystem { name: "one".to_string(), fail: false }, &mut world)
        .unwrap();
    dispatcher
        .add_system(StepSystem { name: "two".to_string(), fail: true }, &mut world)
        .unwrap();
    dispatcher
        .add_system(StepSystem { name: "three".to_string(), fail: false }, &mut world)
        .unwrap();

    let r = dispatcher.run_systems(&mut world, 16);
    // the second system's error is returned unmodified ...
    assert_eq!(r, Err(EcsError::SystemError("two".to_string())));
    // ... the first system's effect is kept, and the third never ran
    assert_eq!(world.entity_count(), 1);
}

#[test]
fn dispatcher_runs_systems_in_registration_order_each_tick() {
    let mut world: World<u32> = World::new();
    let mut dispatcher: SystemDispatcher<StepSystem> = SystemDispatcher::new();
    dispatcher
        .add_system(StepSystem { name: "one".to_string(), fail: false }, &mut world)
        .unwrap();
    dispatcher
        .add_system(StepSystem { name: "two".to_string(), fail: false }, &mut world)
        .unwrap();

    dispatcher.run_systems(&mut world, 16).unwrap();
    assert_eq!(world.entity_count(), 2);
    dispatcher.run_systems(&mut world, 16).unwrap();
    assert_eq!(world.entity_count(), 4);
}

struct FailingInit {
    name: String,
}

impl System for FailingInit {
    type C = u32;
    type V = ();

    fn name(&self) -> &str {
        &self.name
    }

    fn initialize(&mut self, _world: &mut World<u32>) -> EcsResult<()> {
        Err(EcsError::SystemError("init failed".to_string()))
    }

    fn run(&mut self, _world: &mut World<u32>, _dt_ms: u32) -> EcsResult<()> {
        Ok(())
    }

    fn cleanup(&mut self, _world: &mut World<u32>) -> EcsResult<()> {
        Ok(())
    }
}

#[test]
fn failed_initialize_leaves_dispatcher_unchanged() {
    let mut world: World<u32> = World::new();
    let mut dispatcher: SystemDispatcher<FailingInit> = SystemDispatcher::new();
    let r = dispatcher.add_system(FailingInit { name: "bad".to_string() }, &mut world);
    assert_eq!(r, Err(EcsError::SystemError("init failed".to_string())));
    assert_eq!(dispatcher.system_count(), 0);
}

#[test]
fn remove_system_runs_cleanup_and_excludes_system() {
    let mut world: World<u32> = World::new();
    let mut dispatcher: SystemDispatcher<StepSystem> = SystemDispatcher::new();
    dispatcher
        .add_system(StepSystem { name: "one".to_string(), fail: false }, &mut world)
        .unwrap();

    assert_eq!(dispatcher.remove_system(0, &mut world), Ok(()));
    // cleanup ran (it creates one entity) and the system is gone
    assert_eq!(world.entity_count(), 1);
    assert_eq!(dispatcher.system_count(), 0);

    dispatcher.run_systems(&mut world, 16).unwrap();
    assert_eq!(world.entity_count(), 1);
}
