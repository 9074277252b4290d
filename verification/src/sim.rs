//! The demo simulation: a world, a dispatcher with the movement and debug
//! systems, and a fixed-step loop.

use vstd::prelude::*;
use crate::components::{Mass, Name, Position, Rotation, SimComponent, Velocity, MASS_TAG,
    NAME_TAG, POSITION_TAG, ROTATION_TAG, VELOCITY_TAG};
use crate::error::EcsResult;
use crate::model::WorldModel;
use crate::system::{spec_run_all, System, SystemDispatcher};
use crate::systems::{DebugSystem, DebugView, MovementSystem};
use crate::world::World;

verus! {

/// One of the simulation's systems, dispatched by variant.
pub enum SimSystem {
    /// The movement system.
    Movement(MovementSystem),
    /// The debug reporting system.
    Debug(DebugSystem),
}

/// Ghost state of a [`SimSystem`].
pub enum SimSystemView {
    /// State of a movement system.
    Movement(Seq<char>),
    /// State of a debug system.
    Debug(DebugView),
}

impl System for SimSystem {
    type C = SimComponent;

    type V = SimSystemView;

    closed spec fn view(&self) -> SimSystemView {
        match self {
            SimSystem::Movement(s) => SimSystemView::Movement(s.view()),
            SimSystem::Debug(s) => SimSystemView::Debug(s.view()),
        }
    }

    open spec fn spec_name(v: SimSystemView) -> Seq<char> {
        match v {
            SimSystemView::Movement(mv) => <MovementSystem as System>::spec_name(mv),
            SimSystemView::Debug(dv) => <DebugSystem as System>::spec_name(dv),
        }
    }

    open spec fn spec_initialize(v: SimSystemView, m: WorldModel<SimComponent>) -> (
        SimSystemView,
        WorldModel<SimComponent>,
        EcsResult<()>,
    ) {
        match v {
            SimSystemView::Movement(mv) => {
                let (v2, m2, r2) = <MovementSystem as System>::spec_initialize(mv, m);
                (SimSystemView::Movement(v2), m2, r2)
            },
            SimSystemView::Debug(dv) => {
                let (v2, m2, r2) = <DebugSystem as System>::spec_initialize(dv, m);
                (SimSystemView::Debug(v2), m2, r2)
            },
        }
    }

    open spec fn spec_run(v: SimSystemView, m: WorldModel<SimComponent>, dt_ms: u32) -> (
        SimSystemView,
        WorldModel<SimComponent>,
        EcsResult<()>,
    ) {
        match v {
            SimSystemView::Movement(mv) => {
                let (v2, m2, r2) = <MovementSystem as System>::spec_run(mv, m, dt_ms);
                (SimSystemView::Movement(v2), m2, r2)
            },
            SimSystemView::Debug(dv) => {
                let (v2, m2, r2) = <DebugSystem as System>::spec_run(dv, m, dt_ms);
                (SimSystemView::Debug(v2), m2, r2)
            },
        }
    }

    open spec fn spec_cleanup(v: SimSystemView, m: WorldModel<SimComponent>) -> (
        SimSystemView,
        WorldModel<SimComponent>,
        EcsResult<()>,
    ) {
        match v {
            SimSystemView::Movement(mv) => {
                let (v2, m2, r2) = <MovementSystem as System>::spec_cleanup(mv, m);
                (SimSystemView::Movement(v2), m2, r2)
            },
            SimSystemView::Debug(dv) => {
                let (v2, m2, r2) = <DebugSystem as System>::spec_cleanup(dv, m);
                (SimSystemView::Debug(v2), m2, r2)
            },
        }
    }

    fn name(&self) -> (r: &str) {
        match self {
            SimSystem::Movement(s) => s.name(),
            SimSystem::Debug(s) => s.name(),
        }
    }

    fn initialize(&mut self, world: &mut World<SimComponent>) -> (r: EcsResult<()>) {
        match self {
            SimSystem::Movement(s) => s.initialize(world),
            SimSystem::Debug(s) => s.initialize(world),
        }
    }

    fn run(&mut self, world: &mut World<SimComponent>, dt_ms: u32) -> (r: EcsResult<()>) {
        match self {
            SimSystem::Movement(s) => s.run(world, dt_ms),
            SimSystem::Debug(s) => s.run(world, dt_ms),
        }
    }

    fn cleanup(&mut self, world: &mut World<SimComponent>) -> (r: EcsResult<()>) {
        match self {
            SimSystem::Movement(s) => s.cleanup(world),
            SimSystem::Debug(s) => s.cleanup(world),
        }
    }
}

/// The world after the three sample entities have been created: a moving
/// object at the origin, a stationary object, and a fast object, with their
/// names passed in as values.
pub open spec fn spec_populate(
    m: WorldModel<SimComponent>,
    n1: Name,
    n2: Name,
    n3: Name,
) -> WorldModel<SimComponent> {
    let (m1, e1) = m.spec_create();
    let m2 = m1.spec_add(e1, NAME_TAG, SimComponent::Name(n1)).0;
    let m3 = m2.spec_add(e1, POSITION_TAG, SimComponent::Pos(Position { x: 0, y: 0 })).0;
    let m4 = m3.spec_add(e1, VELOCITY_TAG, SimComponent::Vel(Velocity { x: 10_000, y: 5_000 })).0;
    let m5 = m4.spec_add(e1, MASS_TAG, SimComponent::Mass(Mass { value: 1_000 })).0;
    let m6 = m5.spec_add(e1, ROTATION_TAG, SimComponent::Rot(Rotation { angle: 0 })).0;
    let (m7, e2) = m6.spec_create();
    let m8 = m7.spec_add(e2, NAME_TAG, SimComponent::Name(n2)).0;
    let m9 = m8.spec_add(
        e2,
        POSITION_TAG,
        SimComponent::Pos(Position { x: 50_000_000, y: 30_000_000 }),
    ).0;
    let m10 = m9.spec_add(e2, VELOCITY_TAG, SimComponent::Vel(Velocity { x: 0, y: 0 })).0;
    let m11 = m10.spec_add(e2, MASS_TAG, SimComponent::Mass(Mass { value: 2_500 })).0;
    let (m12, e3) = m11.spec_create();
    let m13 = m12.spec_add(e3, NAME_TAG, SimComponent::Name(n3)).0;
    let m14 = m13.spec_add(
        e3,
        POSITION_TAG,
        SimComponent::Pos(Position { x: -20_000_000i64, y: 10_000_000 }),
    ).0;
    let m15 = m14.spec_add(e3, VELOCITY_TAG, SimComponent::Vel(Velocity { x: -15_000i64, y: 8_000 })).0;
    m15.spec_add(e3, MASS_TAG, SimComponent::Mass(Mass { value: 500 })).0
}

/// The simulation state after `k` fixed steps: each step runs one tick and,
/// on success, accumulates the step time (saturating); the first failing
/// tick stops the run.
pub open spec fn spec_step_n(
    vs: Seq<SimSystemView>,
    m: WorldModel<SimComponent>,
    total_ms: u64,
    dt_ms: u32,
    k: nat,
) -> (Seq<SimSystemView>, WorldModel<SimComponent>, u64, EcsResult<()>)
    decreases k,
{
    if k == 0 {
        (vs, m, total_ms, Ok(()))
    } else {
        let (vs1, m1, r1) = spec_run_all::<SimSystem>(vs, m, dt_ms);
        if r1 is Err {
            (vs1, m1, total_ms, r1)
        } else {
            let total1 = if total_ms + dt_ms > u64::MAX {
                u64::MAX
            } else {
                (total_ms + dt_ms) as u64
            };
            spec_step_n(vs1, m1, total1, dt_ms, (k - 1) as nat)
        }
    }
}

/// Simulation statistics.
#[derive(Debug, Clone, Copy, PartialEq, Eq, Structural)]
pub struct SimStats {
    /// Number of live entities.
    pub entity_count: usize,
    /// Number of registered systems.
    pub system_count: usize,
    /// Accumulated simulated time, in milliseconds.
    pub total_time_ms: u64,
    /// The fixed step, in milliseconds.
    pub time_step_ms: u32,
}

/// Wraps the world and the dispatcher and manages the simulation loop.
pub struct SimWorld {
    /// The store of all entities and components.
    pub world: World<SimComponent>,
    /// The dispatcher owning the simulation's systems.
    pub dispatcher: SystemDispatcher<SimSystem>,
    /// The fixed time step, in milliseconds.
    pub time_step_ms: u32,
    /// Accumulated simulated time, in milliseconds.
    pub total_time_ms: u64,
}

impl SimWorld {
    /// Well-formedness of the simulation state.
    pub open spec fn wf(self) -> bool {
        self.world.wf()
    }

    /// A new simulation with an empty world, no systems, and a step of 16
    /// milliseconds (about sixty ticks per simulated second).
    pub fn new() -> (w: SimWorld)
        ensures
            w.wf(),
            w.world@ == WorldModel::<SimComponent>::empty(),
            w.dispatcher@ == Seq::<SimSystemView>::empty(),
            w.time_step_ms == 16,
            w.total_time_ms == 0,
    {
        SimWorld {
            world: World::new(),
            dispatcher: SystemDispatcher::new(),
            time_step_ms: 16,
            total_time_ms: 0,
        }
    }

    /// Add the core systems: movement first, then a debug report every two
    /// seconds of simulated time.
    pub fn initialize(&mut self) -> (r: EcsResult<()>)
        requires
            old(self).wf(),
        ensures
            final(self).wf(),
            r is Ok,
            final(self).world@ == old(self).world@.spec_register(POSITION_TAG).spec_register(
                VELOCITY_TAG,
            ),
            final(self).dispatcher@ == old(self).dispatcher@.push(
                SimSystemView::Movement("MovementSystem"@),
            ).push(
                SimSystemView::Debug(
                    DebugView {
                        name: "DebugSystem"@,
                        print_interval_ms: 2000,
                        elapsed_ms: 0,
                        last_report: Seq::empty(),
                    },
                ),
            ),
            final(self).time_step_ms == old(self).time_step_ms,
            final(self).total_time_ms == old(self).total_time_ms,
    {
        let r1 = self.dispatcher.add_system(
            SimSystem::Movement(MovementSystem::new()),
            &mut self.world,
        );
        proof {
            assert(r1 is Ok);
        }
        let r2 = self.dispatcher.add_system(SimSystem::Debug(DebugSystem::new(2000)), &mut self.world);
        proof {
            assert(r2 is Ok);
        }
        Ok(())
    }

    /// Create the three sample entities.
    pub fn populate_with_test_entities(&mut self) -> (r: EcsResult<()>)
        requires
            old(self).wf(),
        ensures
            final(self).wf(),
            r is Ok,
            final(self).dispatcher@ == old(self).dispatcher@,
            final(self).time_step_ms == old(self).time_step_ms,
            final(self).total_time_ms == old(self).total_time_ms,
            exists|n1: Name, n2: Name, n3: Name|
                n1.value@ == "Moving Object"@ && n2.value@ == "Stationary Object"@ && n3.value@
                    == "Fast Object"@ && final(self).world@ == spec_populate(
                    old(self).world@,
                    n1,
                    n2,
                    n3,
                ),
    {
        let name1 = Name::new("Moving Object");
        let name2 = Name::new("Stationary Object");
        let name3 = Name::new("Fast Object");
        let ghost gn1 = name1;
        let ghost gn2 = name2;
        let ghost gn3 = name3;

        let entity1 = self.world.create_entity();
        self.world.add_component(entity1, NAME_TAG, SimComponent::Name(name1))?;
        self.world.add_component(entity1, POSITION_TAG, SimComponent::Pos(Position::new(0, 0)))?;
        self.world.add_component(
            entity1,
            VELOCITY_TAG,
            SimComponent::Vel(Velocity::new(10_000, 5_000)),
        )?;
        self.world.add_component(entity1, MASS_TAG, SimComponent::Mass(Mass::new(1_000)))?;
        self.world.add_component(entity1, ROTATION_TAG, SimComponent::Rot(Rotation::zero()))?;

        let entity2 = self.world.create_entity();
        self.world.add_component(entity2, NAME_TAG, SimComponent::Name(name2))?;
        self.world.add_component(
            entity2,
            POSITION_TAG,
            SimComponent::Pos(Position::new(50_000_000, 30_000_000)),
        )?;
        self.world.add_component(entity2, VELOCITY_TAG, SimComponent::Vel(Velocity::zero()))?;
        self.world.add_component(entity2, MASS_TAG, SimComponent::Mass(Mass::new(2_500)))?;

        let entity3 = self.world.create_entity();
        self.world.add_component(entity3, NAME_TAG, SimComponent::Name(name3))?;
        self.world.add_component(
            entity3,
            POSITION_TAG,
            SimComponent::Pos(Position::new(-20_000_000, 10_000_000)),
        )?;
        self.world.add_component(
            entity3,
            VELOCITY_TAG,
            SimComponent::Vel(Velocity::new(-15_000, 8_000)),
        )?;
        self.world.add_component(entity3, MASS_TAG, SimComponent::Mass(Mass::new(500)))?;

        proof {
            assert(gn1.value@ == "Moving Object"@ && gn2.value@ == "Stationary Object"@
                && gn3.value@ == "Fast Object"@ && self.world@ == spec_populate(
                old(self).world@,
                gn1,
                gn2,
                gn3,
            ));
        }
        Ok(())
    }

    /// Step the simulation forward by one fixed time step: run every system
    /// in order and, on success, accumulate the step time (saturating).
    pub fn step(&mut self) -> (r: EcsResult<()>)
        requires
            old(self).wf(),
        ensures
            final(self).wf(),
            final(self).time_step_ms == old(self).time_step_ms,
            ({
                let (vs, m2, r2) = spec_run_all::<SimSystem>(
                    old(self).dispatcher@,
                    old(self).world@,
                    old(self).time_step_ms,
                );
                &&& final(self).dispatcher@ == vs
                &&& final(self).world@ == m2
                &&& r == r2
                &&& final(self).total_time_ms == (if r2 is Ok {
                    if old(self).total_time_ms + old(self).time_step_ms > u64::MAX {
                        u64::MAX
                    } else {
                        (old(self).total_time_ms + old(self).time_step_ms) as u64
                    }
                } else {
                    old(self).total_time_ms
                })
            }),
    {
        let r = self.dispatcher.run_systems(&mut self.world, self.time_step_ms);
        if r.is_ok() {
            self.total_time_ms = self.total_time_ms.saturating_add(self.time_step_ms as u64);
        }
        r
    }

    /// Run the simulation for the given duration: one fixed step per full
    /// time step contained in it, stopping at the first failing tick.
    pub fn run_for(&mut self, duration_ms: u64) -> (r: EcsResult<()>)
        requires
            old(self).wf(),
            old(self).time_step_ms > 0,
        ensures
            final(self).wf(),
            final(self).time_step_ms == old(self).time_step_ms,
            (final(self).dispatcher@, final(self).world@, final(self).total_time_ms, r)
                == spec_step_n(
                old(self).dispatcher@,
                old(self).world@,
                old(self).total_time_ms,
                old(self).time_step_ms,
                (duration_ms / (old(self).time_step_ms as u64)) as nat,
            ),
    {
        let steps = duration_ms / (self.time_step_ms as u64);
        let mut s: u64 = 0;
        while s < steps
            invariant
                self.wf(),
                self.time_step_ms == old(self).time_step_ms,
                s <= steps,
                steps == duration_ms / (old(self).time_step_ms as u64),
                spec_step_n(
                    old(self).dispatcher@,
                    old(self).world@,
                    old(self).total_time_ms,
                    old(self).time_step_ms,
                    steps as nat,
                ) == spec_step_n(
                    self.dispatcher@,
                    self.world@,
                    self.total_time_ms,
                    old(self).time_step_ms,
                    (steps - s) as nat,
                ),
            decreases steps - s,
        {
            let ghost pre = *self;
            let r = self.step();
            proof {
                let (vs1, m1, r1) = spec_run_all::<SimSystem>(
                    pre.dispatcher@,
                    pre.world@,
                    pre.time_step_ms,
                );
                assert(spec_step_n(
                    pre.dispatcher@,
                    pre.world@,
                    pre.total_time_ms,
                    old(self).time_step_ms,
                    (steps - s) as nat,
                ) == (if r1 is Err {
                    (vs1, m1, pre.total_time_ms, r1)
                } else {
                    spec_step_n(
                        self.dispatcher@,
                        self.world@,
                        self.total_time_ms,
                        old(self).time_step_ms,
                        (steps - s - 1) as nat,
                    )
                }));
            }
            if r.is_err() {
                return r;
            }
            s = s + 1;
        }
        Ok(())
    }

    /// Current simulation statistics.
    pub fn stats(&self) -> (s: SimStats)
        requires
            self.wf(),
        ensures
            s.entity_count as nat == self.world@.entity_count(),
            s.system_count == self.dispatcher@.len(),
            s.total_time_ms == self.total_time_ms,
            s.time_step_ms == self.time_step_ms,
    {
        SimStats {
            entity_count: self.world.entity_count(),
            system_count: self.dispatcher.system_count(),
            total_time_ms: self.total_time_ms,
            time_step_ms: self.time_step_ms,
        }
    }
}

impl Default for SimWorld {
    /// Same as [`SimWorld::new`].
    fn default() -> (w: SimWorld)
        ensures
            w.wf(),
            w.world@ == WorldModel::<SimComponent>::empty(),
            w.dispatcher@ == Seq::<SimSystemView>::empty(),
            w.time_step_ms == 16,
            w.total_time_ms == 0,
    {
        SimWorld::new()
    }
}

} // verus!
