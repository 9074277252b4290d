//! End-to-end tests of the simulation: movement integration, the debug
//! report, and the fixed-step loop.

use ecs::components::{Position, SimComponent, Velocity, POSITION_TAG, VELOCITY_TAG};
use ecs::sim::{SimSystem, SimWorld};
use ecs::system::{System, SystemDispatcher};
use ecs::systems::{DebugSystem, MovementSystem};
use ecs::world::World;

fn position_of(world: &World<SimComponent>, e: ecs::Entity) -> Position {
    match world.get_component(e, POSITION_TAG) {
        Some(SimComponent::Pos(p)) => *p,
        _ => panic!("expected a position"),
    }
}

#[test]
fn movement_integrates_position_over_time() {
    let mut world: World<SimComponent> = World::new();
    let mut dispatcher: SystemDispatcher<SimSystem> = SystemDispatcher::new();
    dispatcher.add_system(SimSystem::Movement(MovementSystem::new()), &mut world).unwrap();

    let e = world.create_entity();
    world.add_component(e, POSITION_TAG, SimComponent::Pos(Position::new(0, 0))).unwrap();
    // ten units per second right, five up
    world
        .add_component(e, VELOCITY_TAG, SimComponent::Vel(Velocity::new(10_000, 5_000)))
        .unwrap();

    // one full second in one tick
    dispatcher.run_systems(&mut world, 1000).unwrap();
    let p = position_of(&world, e);
    assert_eq!(p.x, 10_000_000); // ten units, in millionths
    assert_eq!(p.y, 5_000_000);
}

#[test]
fn movement_half_steps_compose_to_full_step() {
    let mut world: World<SimComponent> = World::new();
    let mut dispatcher: SystemDispatcher<SimSystem> = SystemDispatcher::new();
    dispatcher.add_system(SimSystem::Movement(MovementSystem::new()), &mut world).unwrap();

    let e = world.create_entity();
    world.add_component(e, POSITION_TAG, SimComponent::Pos(Position::new(0, 0))).unwrap();
    world
        .add_component(e, VELOCITY_TAG, SimComponent::Vel(Velocity::new(10_000, 5_000)))
        .unwrap();

    // two half-second ticks accumulate exactly one second of movement
    dispatcher.run_systems(&mut world, 500).unwrap();
    dispatcher.run_systems(&mut world, 500).unwrap();
    let p = position_of(&world, e);
    assert_eq!(p.x, 10_000_000);
    assert_eq!(p.y, 5_000_000);
}

#[test]
fn movement_ignores_entity_without_velocity() {
    let mut world: World<SimComponent> = World::new();
    let mut dispatcher: SystemDispatcher<SimSystem> = SystemDispatcher::new();
    dispatcher.add_system(SimSystem::Movement(MovementSystem::new()), &mut world).unwrap();

    let still = world.create_entity();
    world.add_component(still, POSITION_TAG, SimComponent::Pos(Position::new(7, 9))).unwrap();
    let mover = world.create_entity();
    world.add_component(mover, POSITION_TAG, SimComponent::Pos(Position::new(0, 0))).unwrap();
    world.add_component(mover, VELOCITY_TAG, SimComponent::Vel(Velocity::new(1_000, 0))).unwrap();

    for _ in 0..5 {
        dispatcher.run_systems(&mut world, 16).unwrap();
    }
    // the entity without a velocity is untouched after any number of ticks
    assert_eq!(position_of(&world, still), Position::new(7, 9));
    // while the system demonstrably ran
    assert_eq!(position_of(&world, mover), Position::new(80_000, 0));
}

#[test]
fn debug_system_snapshots_after_interval_keeping_overshoot() {
    let mut world: World<SimComponent> = World::new();
    let e = world.create_entity();
    world.add_component(e, POSITION_TAG, SimComponent::Pos(Position::new(1, 2))).unwrap();

    let mut sys = DebugSystem::new(100);
    sys.run(&mut world, 60).unwrap();
    // interval not reached yet: no report
    assert_eq!(sys.last_report().len(), 0);

    sys.run(&mut world, 60).unwrap();
    // 120 ms accumulated: report taken, 20 ms of overshoot kept
    let report = sys.last_report();
    assert_eq!(report.len(), 1);
    assert_eq!(report[0].entity, e);
    assert_eq!(report[0].position, Some(Position::new(1, 2)));
    assert_eq!(report[0].velocity, None);

    let before = world.create_entity();
    world.add_component(before, POSITION_TAG, SimComponent::Pos(Position::new(3, 4))).unwrap();
    // 20 + 80 reaches the interval again, thanks to the kept overshoot
    sys.run(&mut world, 80).unwrap();
    assert_eq!(sys.last_report().len(), 2);
}

#[test]
fn test_simulator_basic_functionality() {
    let mut sim_world = SimWorld::new();

    assert!(sim_world.initialize().is_ok());
    assert_eq!(sim_world.stats().entity_count, 0);

    assert!(sim_world.populate_with_test_entities().is_ok());
    assert_eq!(sim_world.stats().entity_count, 3);

    assert!(sim_world.step().is_ok());
    assert!(sim_world.stats().total_time_ms > 0);
}

#[test]
fn run_for_takes_one_step_per_full_time_step() {
    let mut sim = SimWorld::new();
    sim.initialize().unwrap();
    sim.run_for(100).unwrap(); // six full 16 ms steps fit in 100 ms
    assert_eq!(sim.stats().total_time_ms, 96);
    assert_eq!(sim.stats().time_step_ms, 16);
    assert_eq!(sim.stats().system_count, 2);
}

#[test]
fn simulation_moves_sample_entities() {
    let mut sim = SimWorld::new();
    sim.initialize().unwrap();
    sim.populate_with_test_entities().unwrap();

    // advance exactly one simulated second: 1000 ms in 16 ms steps is 62
    // steps of motion, 992 ms
    sim.run_for(1000).unwrap();
    assert_eq!(sim.stats().total_time_ms, 992);

    // the moving object started at the origin with velocity (10, 5) units
    // per second
    let entities = sim.world.entities();
    let p = position_of(&sim.world, entities[0]);
    assert_eq!(p.x, 9_920_000);
    assert_eq!(p.y, 4_960_000);
}
