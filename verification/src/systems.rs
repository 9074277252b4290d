//! The simulation's systems: movement and debug reporting.
//!
//! [`MovementSystem`] moves every entity that carries both a position and a
//! velocity by `velocity * dt` each tick (explicit Euler integration), in
//! exact fixed-point arithmetic, saturating at the ends of the coordinate
//! range. [`DebugSystem`] accumulates tick time and, once its interval is
//! exceeded, snapshots a report of every live entity's position and
//! velocity, keeping any overshoot in its accumulator.

use vstd::prelude::*;
use crate::components::{Position, SimComponent, Velocity, POSITION_TAG, VELOCITY_TAG};
use crate::entity::Entity;
use crate::error::EcsResult;
use crate::laws;
use crate::model::WorldModel;
use crate::system::System;
use crate::world::World;

verus! {

broadcast use vstd::string::group_string_axioms;

/// Clamp a mathematical integer into the `i64` range.
pub open spec fn sat_i64(x: int) -> i64 {
    if x > i64::MAX {
        i64::MAX
    } else if x < i64::MIN {
        i64::MIN
    } else {
        x as i64
    }
}

/// One Euler step: `position + velocity * dt`, exact in fixed point (a
/// thousandth of a unit per second times a millisecond is a millionth of a
/// unit), saturating at the ends of the coordinate range.
pub open spec fn moved_position(p: Position, v: Velocity, dt_ms: u32) -> Position {
    Position {
        x: sat_i64(p.x as int + (v.x as int) * (dt_ms as int)),
        y: sat_i64(p.y as int + (v.y as int) * (dt_ms as int)),
    }
}

/// The velocity value stored for slot `i`, if any.
pub open spec fn vel_of(m: WorldModel<SimComponent>, i: usize) -> Option<SimComponent> {
    if m.comps.dom().contains(VELOCITY_TAG) && m.comps[VELOCITY_TAG].dom().contains(i) {
        Some(m.comps[VELOCITY_TAG][i])
    } else {
        None
    }
}

/// What one movement tick leaves in a position store entry: the entry moves
/// exactly when it holds a position value and the same slot holds a velocity
/// value.
pub open spec fn step_component(pc: SimComponent, vc: Option<SimComponent>, dt_ms: u32) -> SimComponent {
    match (pc, vc) {
        (SimComponent::Pos(p), Some(SimComponent::Vel(v))) => SimComponent::Pos(
            moved_position(p, v, dt_ms),
        ),
        _ => pc,
    }
}

/// One movement tick over the whole world: every entity holding both a
/// position and a velocity moves by `velocity * dt`; every other entity and
/// every other component is untouched.
pub open spec fn spec_move(m: WorldModel<SimComponent>, dt_ms: u32) -> WorldModel<SimComponent> {
    if m.comps.dom().contains(POSITION_TAG) {
        WorldModel {
            comps: m.comps.insert(
                POSITION_TAG,
                Map::new(
                    |i: usize| m.comps[POSITION_TAG].dom().contains(i),
                    |i: usize| step_component(m.comps[POSITION_TAG][i], vel_of(m, i), dt_ms),
                ),
            ),
            ..m
        }
    } else {
        m
    }
}

/// Whether one movement step of `dt_ms` from slot `i` stays inside the
/// coordinate range, so that no saturation happens.
pub open spec fn move_in_range(m: WorldModel<SimComponent>, i: usize, dt_ms: u32) -> bool {
    (m.comps.dom().contains(POSITION_TAG) && m.comps[POSITION_TAG].dom().contains(i))
        ==> match (m.comps[POSITION_TAG][i], vel_of(m, i)) {
        (SimComponent::Pos(p), Some(SimComponent::Vel(v))) => {
            &&& i64::MIN <= p.x as int + (v.x as int) * (dt_ms as int) <= i64::MAX
            &&& i64::MIN <= p.y as int + (v.y as int) * (dt_ms as int) <= i64::MAX
        },
        _ => true,
    }
}

/// `n` movement ticks of `dt_ms` each.
pub open spec fn spec_move_n(m: WorldModel<SimComponent>, dt_ms: u32, n: nat) -> WorldModel<
    SimComponent,
>
    decreases n,
{
    if n == 0 {
        m
    } else {
        spec_move(spec_move_n(m, dt_ms, (n - 1) as nat), dt_ms)
    }
}

/// A movement tick changes nothing but the position store: generations,
/// liveness, masks, reuse queue, tags and every other component stay as they
/// were, and the result is well-formed.
pub proof fn lemma_move_preserves_shape(m: WorldModel<SimComponent>, dt_ms: u32)
    requires
        m.wf(),
    ensures
        ({
            let m2 = spec_move(m, dt_ms);
            &&& m2.wf()
            &&& m2.gens == m.gens
            &&& m2.live == m.live
            &&& m2.masks == m.masks
            &&& m2.free == m.free
            &&& m2.tags == m.tags
            &&& m2.comps.dom() =~= m.comps.dom()
            &&& forall|t: u64|
                #[trigger] m.comps.dom().contains(t) && t != POSITION_TAG ==> m2.comps[t]
                    == m.comps[t]
            &&& m.comps.dom().contains(POSITION_TAG) ==> m2.comps[POSITION_TAG].dom()
                =~= m.comps[POSITION_TAG].dom()
        }),
{
    let m2 = spec_move(m, dt_ms);
    if m.comps.dom().contains(POSITION_TAG) {
        assert(m2.comps.dom() =~= m.comps.dom());
        assert(m2.comps[POSITION_TAG].dom() =~= m.comps[POSITION_TAG].dom());
        assert(m2.comps.dom() =~= m2.tags.to_set());
        assert forall|t: u64, i: usize|
            m2.comps.dom().contains(t) && (#[trigger] m2.comps[t].dom().contains(i)) implies i
            < m2.gens.len() && m2.live[i as int] by {
            assert(m.comps[t].dom().contains(i));
        }
        assert forall|i: int, t: u64|
            0 <= i < m2.gens.len() && m2.live[i] implies ((#[trigger] m2.masks[i].contains(t))
            <==> (m2.comps.dom().contains(t) && m2.comps[t].dom().contains(i as usize))) by {
            assert(m.masks[i].contains(t) <==> (m.comps.dom().contains(t)
                && m.comps[t].dom().contains(i as usize)));
        }
        assert(m2.wf());
    }
}

/// Time-step decomposition invariance for constant velocity: moving by
/// `dt1` and then by `dt2` leaves every component exactly as moving once by
/// `dt1 + dt2`, provided no coordinate saturates along either path.
pub proof fn lemma_move_decomposes(m: WorldModel<SimComponent>, dt1: u32, dt2: u32)
    requires
        m.wf(),
        dt1 + dt2 <= u32::MAX,
        forall|i: usize| #[trigger] move_in_range(m, i, dt1),
        forall|i: usize| #[trigger] move_in_range(m, i, (dt1 + dt2) as u32),
    ensures
        spec_move(spec_move(m, dt1), dt2) == spec_move(m, (dt1 + dt2) as u32),
{
    let m1 = spec_move(m, dt1);
    let m2 = spec_move(m1, dt2);
    let mc = spec_move(m, (dt1 + dt2) as u32);
    lemma_move_preserves_shape(m, dt1);
    if m.comps.dom().contains(POSITION_TAG) {
        assert(m1.comps.dom().contains(POSITION_TAG));
        assert(m1.comps[VELOCITY_TAG] == m.comps[VELOCITY_TAG]);
        assert forall|i: usize|
            #[trigger] m.comps[POSITION_TAG].dom().contains(i) implies m2.comps[POSITION_TAG][i]
            == mc.comps[POSITION_TAG][i] by {
            let pc = m.comps[POSITION_TAG][i];
            let vc = vel_of(m, i);
            assert(vel_of(m1, i) == vc);
            assert(m1.comps[POSITION_TAG][i] == step_component(pc, vc, dt1));
            assert(move_in_range(m, i, dt1));
            assert(move_in_range(m, i, (dt1 + dt2) as u32));
            match (pc, vc) {
                (SimComponent::Pos(p), Some(SimComponent::Vel(v))) => {
                    let x1 = p.x as int + (v.x as int) * (dt1 as int);
                    let y1 = p.y as int + (v.y as int) * (dt1 as int);
                    assert(i64::MIN <= x1 <= i64::MAX && i64::MIN <= y1 <= i64::MAX);
                    let p1 = moved_position(p, v, dt1);
                    assert(p1.x == x1 && p1.y == y1);
                    assert((v.x as int) * (dt1 as int) + (v.x as int) * (dt2 as int) == (v.x as int)
                        * ((dt1 + dt2) as int)) by (nonlinear_arith);
                    assert((v.y as int) * (dt1 as int) + (v.y as int) * (dt2 as int) == (v.y as int)
                        * ((dt1 + dt2) as int)) by (nonlinear_arith);
                    assert(moved_position(p1, v, dt2) == moved_position(p, v, (dt1 + dt2) as u32));
                },
                _ => {
                    assert(step_component(pc, vc, dt1) == pc);
                },
            }
        }
        assert(m2.comps[POSITION_TAG] =~= mc.comps[POSITION_TAG]);
        assert(m2.comps =~= mc.comps);
        assert(m2 == mc);
    } else {
        assert(m2 == mc);
    }
}

/// An entity that has no velocity component is unaffected by a movement
/// tick: its position, and in fact its whole component set, stays as it was.
pub proof fn lemma_move_ignores_without_velocity(
    m: WorldModel<SimComponent>,
    e: Entity,
    dt_ms: u32,
)
    requires
        m.wf(),
        !m.has_at(e, VELOCITY_TAG),
    ensures
        forall|tag: u64| #[trigger]
            spec_move(m, dt_ms).comp_at(e, tag) == m.comp_at(e, tag),
{
    let m2 = spec_move(m, dt_ms);
    lemma_move_preserves_shape(m, dt_ms);
    assert forall|tag: u64| #[trigger] m2.comp_at(e, tag) == m.comp_at(e, tag) by {
        if m.contains_entity(e) && m.comps.dom().contains(POSITION_TAG) && tag == POSITION_TAG {
            let i = e.id().index;
            if m.comps[POSITION_TAG].dom().contains(i) {
                assert(!(m.comps.dom().contains(VELOCITY_TAG) && m.comps[VELOCITY_TAG].dom().contains(
                    i,
                )));
                assert(vel_of(m, i) is None);
                assert(m2.comps[POSITION_TAG][i] == m.comps[POSITION_TAG][i]);
            }
        }
    }
}

/// An entity that has no velocity component is unaffected by any number of
/// movement ticks.
pub proof fn lemma_move_n_ignores_without_velocity(
    m: WorldModel<SimComponent>,
    e: Entity,
    dt_ms: u32,
    n: nat,
)
    requires
        m.wf(),
        !m.has_at(e, VELOCITY_TAG),
    ensures
        forall|tag: u64| #[trigger]
            spec_move_n(m, dt_ms, n).comp_at(e, tag) == m.comp_at(e, tag),
        spec_move_n(m, dt_ms, n).wf(),
        !spec_move_n(m, dt_ms, n).has_at(e, VELOCITY_TAG),
    decreases n,
{
    if n > 0 {
        lemma_move_n_ignores_without_velocity(m, e, dt_ms, (n - 1) as nat);
        let prev = spec_move_n(m, dt_ms, (n - 1) as nat);
        lemma_move_preserves_shape(prev, dt_ms);
        lemma_move_ignores_without_velocity(prev, e, dt_ms);
    }
}

/// Whether one of the first `j` snapshot entries denotes slot `i`.
pub open spec fn processed(ents: Seq<Entity>, j: int, i: usize) -> bool {
    exists|x: int| 0 <= x < j && (#[trigger] ents[x]).id().index == i
}

/// Compute `sat_i64(p + v * dt)` exactly, in wide intermediate arithmetic.
fn sat_add_mul(p: i64, v: i64, dt_ms: u32) -> (r: i64)
    ensures
        r == sat_i64(p as int + (v as int) * (dt_ms as int)),
{
    let vv: i128 = v as i128;
    let dd: i128 = dt_ms as i128;
    proof {
        assert((-0x1_0000_0000_0000_0000_0000_0000i128) <= vv * dd
            <= 0x1_0000_0000_0000_0000_0000_0000i128) by (nonlinear_arith)
            requires
                -0x8000_0000_0000_0000i128 <= vv <= 0x7fff_ffff_ffff_ffffi128,
                0 <= dd <= 0x1_0000_0000i128,
        ;
    }
    let wide: i128 = (p as i128) + vv * dd;
    if wide > i64::MAX as i128 {
        i64::MAX
    } else if wide < i64::MIN as i128 {
        i64::MIN
    } else {
        wide as i64
    }
}

/// Moves every entity that has both a position and a velocity by
/// `velocity * dt` each tick; entities missing either component are left
/// untouched.
pub struct MovementSystem {
    name: String,
}

impl MovementSystem {
    /// A new movement system.
    pub fn new() -> (s: MovementSystem)
        ensures
            s.view() == "MovementSystem"@,
    {
        MovementSystem { name: "MovementSystem".to_string() }
    }
}

impl System for MovementSystem {
    type C = SimComponent;

    type V = Seq<char>;

    closed spec fn view(&self) -> Seq<char> {
        self.name@
    }

    open spec fn spec_name(v: Seq<char>) -> Seq<char> {
        v
    }

    /// Registers the two component types the system reads and writes.
    open spec fn spec_initialize(v: Seq<char>, m: WorldModel<SimComponent>) -> (
        Seq<char>,
        WorldModel<SimComponent>,
        EcsResult<()>,
    ) {
        (v, m.spec_register(POSITION_TAG).spec_register(VELOCITY_TAG), Ok(()))
    }

    /// One tick is exactly [`spec_move`]; the system itself never changes
    /// and never fails.
    open spec fn spec_run(v: Seq<char>, m: WorldModel<SimComponent>, dt_ms: u32) -> (
        Seq<char>,
        WorldModel<SimComponent>,
        EcsResult<()>,
    ) {
        (v, spec_move(m, dt_ms), Ok(()))
    }

    open spec fn spec_cleanup(v: Seq<char>, m: WorldModel<SimComponent>) -> (
        Seq<char>,
        WorldModel<SimComponent>,
        EcsResult<()>,
    ) {
        (v, m, Ok(()))
    }

    fn name(&self) -> (r: &str) {
        self.name.as_str()
    }

    fn initialize(&mut self, world: &mut World<SimComponent>) -> (r: EcsResult<()>) {
        world.register_component(POSITION_TAG);
        world.register_component(VELOCITY_TAG);
        Ok(())
    }

    fn run(&mut self, world: &mut World<SimComponent>, dt_ms: u32) -> (r: EcsResult<()>) {
        let ghost m0 = world@;
        proof {
            world.lemma_wf_model();
        }
        let entities = world.entities();
        let n = entities.len();
        let mut j: usize = 0;
        while j < n
            invariant
                world.wf(),
                m0.wf(),
                n == entities@.len(),
                j <= n,
                entities@ == m0.spec_entities(),
                world@.gens == m0.gens,
                world@.live == m0.live,
                world@.free == m0.free,
                world@.tags == m0.tags,
                world@.masks == m0.masks,
                world@.comps.dom() == m0.comps.dom(),
                forall|t: u64|
                    #[trigger] m0.comps.dom().contains(t) && t != POSITION_TAG
                        ==> world@.comps[t] == m0.comps[t],
                m0.comps.dom().contains(POSITION_TAG) ==> {
                    &&& world@.comps[POSITION_TAG].dom() == m0.comps[POSITION_TAG].dom()
                    &&& forall|i: usize|
                        #[trigger] m0.comps[POSITION_TAG].dom().contains(i)
                            ==> world@.comps[POSITION_TAG][i] == (if processed(
                            entities@,
                            j as int,
                            i,
                        ) {
                            step_component(m0.comps[POSITION_TAG][i], vel_of(m0, i), dt_ms)
                        } else {
                            m0.comps[POSITION_TAG][i]
                        })
                },
            decreases n - j,
        {
            let e = entities[j];
            let ghost i = e.id().index;
            proof {
                laws::lemma_query_up_to_elements(m0, Seq::empty(), m0.gens.len() as int);
                assert(m0.contains_entity(e));
                // this snapshot entry's slot was not touched by any earlier
                // iteration: indices come in strictly increasing order
                assert(!processed(entities@, j as int, i));
            }
            let has_both = world.has_component(e, VELOCITY_TAG) && world.has_component(
                e,
                POSITION_TAG,
            );
            if has_both {
                proof {
                    laws::lemma_mask_matches_store(world@, e, VELOCITY_TAG);
                    laws::lemma_mask_matches_store(world@, e, POSITION_TAG);
                }
                let vel: Option<Velocity> = match world.get_component(e, VELOCITY_TAG) {
                    Some(c) => match c {
                        SimComponent::Vel(v) => Some(*v),
                        _ => None,
                    },
                    None => None,
                };
                let pos: Option<Position> = match world.get_component(e, POSITION_TAG) {
                    Some(c) => match c {
                        SimComponent::Pos(p) => Some(*p),
                        _ => None,
                    },
                    None => None,
                };
                match (pos, vel) {
                    (Some(p), Some(v)) => {
                        let nx = sat_add_mul(p.x, v.x, dt_ms);
                        let ny = sat_add_mul(p.y, v.y, dt_ms);
                        let ghost w_pre = world@;
                        let moved = SimComponent::Pos(Position { x: nx, y: ny });
                        let added = world.add_component(e, POSITION_TAG, moved);
                        proof {
                            assert(added is Ok);
                            let m2 = w_pre.spec_add(e, POSITION_TAG, moved).0;
                            // the position tag was already registered
                            assert(w_pre.tags.contains(POSITION_TAG));
                            assert(w_pre.spec_register(POSITION_TAG) == w_pre);
                            // the mask already held the tag, so it is unchanged
                            assert(w_pre.masks[i as int].insert(POSITION_TAG) =~= w_pre.masks[i as int]);
                            assert(m2.masks =~= w_pre.masks);
                            assert(m2.comps.dom() =~= w_pre.comps.dom());
                            assert(m2.comps[POSITION_TAG].dom() =~= w_pre.comps[POSITION_TAG].dom());
                            // the moved value is exactly the step of the
                            // original component under the original velocity
                            assert(w_pre.comps[POSITION_TAG][i] == m0.comps[POSITION_TAG][i]);
                            assert(m0.comps[POSITION_TAG][i] == SimComponent::Pos(p));
                            assert(w_pre.comps[VELOCITY_TAG] == m0.comps[VELOCITY_TAG]);
                            assert(vel_of(m0, i) == Some(SimComponent::Vel(v)));
                            assert(moved == step_component(
                                m0.comps[POSITION_TAG][i],
                                vel_of(m0, i),
                                dt_ms,
                            ));
                            assert(processed(entities@, j as int + 1, i)) by {
                                assert(entities@[j as int].id().index == i);
                            }
                            assert forall|i2: usize|
                                #[trigger] m0.comps[POSITION_TAG].dom().contains(i2) && i2 != i
                                    implies processed(entities@, j as int + 1, i2) == processed(
                                entities@,
                                j as int,
                                i2,
                            ) by {
                                if processed(entities@, j as int + 1, i2) {
                                    let x = choose|x: int|
                                        0 <= x < j as int + 1 && (#[trigger] entities@[x]).id().index
                                            == i2;
                                    assert(x < j as int);
                                }
                            }
                        }
                    },
                    _ => {
                        proof {
                            // either component is absent or holds another
                            // variant: the step keeps the stored value
                            if m0.comps.dom().contains(POSITION_TAG)
                                && m0.comps[POSITION_TAG].dom().contains(i) {
                                assert(step_component(
                                    m0.comps[POSITION_TAG][i],
                                    vel_of(m0, i),
                                    dt_ms,
                                ) == m0.comps[POSITION_TAG][i]);
                            }
                            assert forall|i2: usize|
                                #[trigger] m0.comps[POSITION_TAG].dom().contains(i2) && i2 != i
                                    implies processed(entities@, j as int + 1, i2) == processed(
                                entities@,
                                j as int,
                                i2,
                            ) by {
                                if processed(entities@, j as int + 1, i2) {
                                    let x = choose|x: int|
                                        0 <= x < j as int + 1 && (#[trigger] entities@[x]).id().index
                                            == i2;
                                    assert(x < j as int);
                                }
                            }
                        }
                    },
                }
            } else {
                proof {
                    // the entity lacks a position or a velocity: nothing to do
                    if m0.comps.dom().contains(POSITION_TAG) && m0.comps[POSITION_TAG].dom().contains(
                        i,
                    ) {
                        assert(world@.has_at(e, POSITION_TAG));
                        assert(!world@.has_at(e, VELOCITY_TAG));
                        assert(vel_of(m0, i) is None);
                        assert(step_component(m0.comps[POSITION_TAG][i], vel_of(m0, i), dt_ms)
                            == m0.comps[POSITION_TAG][i]);
                    }
                    assert forall|i2: usize|
                        #[trigger] m0.comps[POSITION_TAG].dom().contains(i2) && i2 != i implies processed(
                        entities@,
                        j as int + 1,
                        i2,
                    ) == processed(entities@, j as int, i2) by {
                        if processed(entities@, j as int + 1, i2) {
                            let x = choose|x: int|
                                0 <= x < j as int + 1 && (#[trigger] entities@[x]).id().index == i2;
                            assert(x < j as int);
                        }
                    }
                }
            }
            j = j + 1;
        }
        proof {
            let mm = spec_move(m0, dt_ms);
            if m0.comps.dom().contains(POSITION_TAG) {
                // every position entry belongs to a live entity, which is in
                // the snapshot, so every entry was processed
                assert forall|i: usize|
                    #[trigger] m0.comps[POSITION_TAG].dom().contains(i) implies processed(
                    entities@,
                    n as int,
                    i,
                ) by {
                    assert(m0.live[i as int]);
                    let ent = m0.entity_at(i as int);
                    laws::lemma_query_matches_masks(m0, Seq::empty(), ent);
                    assert(m0.contains_entity(ent));
                    assert(m0.spec_entities().contains(ent));
                    let x = choose|x: int|
                        0 <= x < entities@.len() && (#[trigger] entities@[x]) == ent;
                    assert(entities@[x].id().index == i);
                }
                assert(world@.comps[POSITION_TAG] =~= mm.comps[POSITION_TAG]);
                assert(world@.comps =~= mm.comps);
                assert(world@ == mm);
            } else {
                assert(world@.comps =~= m0.comps);
                assert(world@ == mm);
            }
        }
        Ok(())
    }

    fn cleanup(&mut self, _world: &mut World<SimComponent>) -> (r: EcsResult<()>) {
        Ok(())
    }
}

/// One line of a debug report: an entity with its position and velocity
/// values, where present.
#[derive(Debug, Clone, Copy, PartialEq)]
pub struct ReportEntry {
    /// The reported entity.
    pub entity: Entity,
    /// The entity's position, if it has one.
    pub position: Option<Position>,
    /// The entity's velocity, if it has one.
    pub velocity: Option<Velocity>,
}

/// The report line for one entity.
pub open spec fn report_entry(m: WorldModel<SimComponent>, e: Entity) -> ReportEntry {
    ReportEntry {
        entity: e,
        position: match m.comp_at(e, POSITION_TAG) {
            Some(SimComponent::Pos(p)) => Some(p),
            _ => None,
        },
        velocity: match m.comp_at(e, VELOCITY_TAG) {
            Some(SimComponent::Vel(v)) => Some(v),
            _ => None,
        },
    }
}

/// The full report: one line per live entity, in snapshot order.
pub open spec fn spec_report(m: WorldModel<SimComponent>) -> Seq<ReportEntry> {
    m.spec_entities().map_values(|e: Entity| report_entry(m, e))
}

/// Ghost state of a [`DebugSystem`].
pub struct DebugView {
    /// The system's name.
    pub name: Seq<char>,
    /// How much accumulated tick time triggers a report, in milliseconds.
    pub print_interval_ms: u32,
    /// Tick time accumulated since the last report, in milliseconds.
    pub elapsed_ms: u64,
    /// The report snapshot taken when the interval last elapsed.
    pub last_report: Seq<ReportEntry>,
}

/// Accumulates tick time and, once the interval is exceeded, snapshots a
/// report of every live entity's position and velocity, resetting the
/// accumulator without discarding the overshoot.
pub struct DebugSystem {
    name: String,
    print_interval_ms: u32,
    elapsed_ms: u64,
    last_report: Vec<ReportEntry>,
}

impl DebugSystem {
    /// A new debug system that snapshots a report every `print_interval_ms`
    /// milliseconds of accumulated tick time.
    pub fn new(print_interval_ms: u32) -> (s: DebugSystem)
        ensures
            s.view() == (DebugView {
                name: "DebugSystem"@,
                print_interval_ms,
                elapsed_ms: 0,
                last_report: Seq::empty(),
            }),
    {
        DebugSystem {
            name: "DebugSystem".to_string(),
            print_interval_ms,
            elapsed_ms: 0,
            last_report: Vec::new(),
        }
    }

    /// The report snapshot taken the last time the interval elapsed.
    pub fn last_report(&self) -> (r: &Vec<ReportEntry>)
        ensures
            r@ == self.view().last_report,
    {
        &self.last_report
    }
}

impl System for DebugSystem {
    type C = SimComponent;

    type V = DebugView;

    closed spec fn view(&self) -> DebugView {
        DebugView {
            name: self.name@,
            print_interval_ms: self.print_interval_ms,
            elapsed_ms: self.elapsed_ms,
            last_report: self.last_report@,
        }
    }

    open spec fn spec_name(v: DebugView) -> Seq<char> {
        v.name
    }

    open spec fn spec_initialize(v: DebugView, m: WorldModel<SimComponent>) -> (
        DebugView,
        WorldModel<SimComponent>,
        EcsResult<()>,
    ) {
        (v, m, Ok(()))
    }

    /// One tick accumulates the elapsed time (saturating); once the interval
    /// is reached, the report is snapshotted and the accumulator keeps the
    /// overshoot. The world is never changed and the system never fails.
    open spec fn spec_run(v: DebugView, m: WorldModel<SimComponent>, dt_ms: u32) -> (
        DebugView,
        WorldModel<SimComponent>,
        EcsResult<()>,
    ) {
        let elapsed = if v.elapsed_ms + dt_ms > u64::MAX {
            u64::MAX
        } else {
            (v.elapsed_ms + dt_ms) as u64
        };
        if elapsed >= v.print_interval_ms {
            (
                DebugView {
                    elapsed_ms: (elapsed - v.print_interval_ms) as u64,
                    last_report: spec_report(m),
                    ..v
                },
                m,
                Ok(()),
            )
        } else {
            (DebugView { elapsed_ms: elapsed, ..v }, m, Ok(()))
        }
    }

    open spec fn spec_cleanup(v: DebugView, m: WorldModel<SimComponent>) -> (
        DebugView,
        WorldModel<SimComponent>,
        EcsResult<()>,
    ) {
        (v, m, Ok(()))
    }

    fn name(&self) -> (r: &str) {
        self.name.as_str()
    }

    fn initialize(&mut self, _world: &mut World<SimComponent>) -> (r: EcsResult<()>) {
        Ok(())
    }

    fn run(&mut self, world: &mut World<SimComponent>, dt_ms: u32) -> (r: EcsResult<()>) {
        self.elapsed_ms = self.elapsed_ms.saturating_add(dt_ms as u64);
        if self.elapsed_ms >= self.print_interval_ms as u64 {
            self.elapsed_ms = self.elapsed_ms - self.print_interval_ms as u64;
            let entities = world.entities();
            let n = entities.len();
            let mut report: Vec<ReportEntry> = Vec::new();
            let mut j: usize = 0;
            while j < n
                invariant
                    world.wf(),
                    n == entities@.len(),
                    j <= n,
                    entities@ == world@.spec_entities(),
                    report@.len() == j,
                    forall|x: int|
                        0 <= x < j ==> #[trigger] report@[x] == report_entry(
                            world@,
                            entities@[x],
                        ),
                decreases n - j,
            {
                let e = entities[j];
                let position: Option<Position> = match world.get_component(e, POSITION_TAG) {
                    Some(c) => match c {
                        SimComponent::Pos(p) => Some(*p),
                        _ => None,
                    },
                    None => None,
                };
                let velocity: Option<Velocity> = match world.get_component(e, VELOCITY_TAG) {
                    Some(c) => match c {
                        SimComponent::Vel(v) => Some(*v),
                        _ => None,
                    },
                    None => None,
                };
                report.push(ReportEntry { entity: e, position, velocity });
                j = j + 1;
            }
            self.last_report = report;
            proof {
                assert(self.view().last_report =~= spec_report(world@));
            }
        }
        Ok(())
    }

    fn cleanup(&mut self, _world: &mut World<SimComponent>) -> (r: EcsResult<()>) {
        Ok(())
    }
}

} // verus!
