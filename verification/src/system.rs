//! Systems and the dispatcher.
//!
//! A [`System`] is a named, stateful unit of per-tick logic. Each system
//! type carries a functional model of its three hooks (`spec_initialize`,
//! `spec_run`, `spec_cleanup`) over its view and the world model; the
//! executable hooks are bound to the model by their contracts, so the
//! combined effect of a whole tick is the pure fold [`spec_run_all`] over
//! the dispatcher's systems.
//!
//! The [`SystemDispatcher`] owns an ordered sequence of systems. The order
//! is registration order and is the execution order of every tick; the
//! first failing system aborts the tick, and systems already run keep their
//! effects.

use vstd::prelude::*;
use crate::error::EcsResult;
use crate::model::WorldModel;
use crate::world::World;

verus! {

/// A unit of per-tick logic operating on a world through its public
/// operations. The system's observable state is its view (`Self::V`), and
/// each hook is specified as a pure function of that view and the world
/// model.
pub trait System: Sized {
    /// The component value type of the worlds this system runs on.
    type C;

    /// The type of the system's observable state.
    type V;

    /// The system's observable state. The default is a placeholder;
    /// verified systems define their own.
    open spec fn view(&self) -> Self::V {
        vstd::pervasive::arbitrary()
    }

    /// The system's name, in specifications. The default is a placeholder;
    /// verified systems define their own.
    open spec fn spec_name(v: Self::V) -> Seq<char> {
        Seq::empty()
    }

    /// Functional model of `initialize`: the new system view, the new world
    /// model, and the reported result. The default hook model is a no-op
    /// that succeeds; verified systems define their own.
    open spec fn spec_initialize(v: Self::V, m: WorldModel<Self::C>) -> (
        Self::V,
        WorldModel<Self::C>,
        EcsResult<()>,
    ) {
        (v, m, Ok(()))
    }

    /// Functional model of `run`. The default is a no-op model that
    /// succeeds; verified systems define their own.
    open spec fn spec_run(v: Self::V, m: WorldModel<Self::C>, dt_ms: u32) -> (
        Self::V,
        WorldModel<Self::C>,
        EcsResult<()>,
    ) {
        (v, m, Ok(()))
    }

    /// Functional model of `cleanup`. The default is a no-op model that
    /// succeeds; verified systems define their own.
    open spec fn spec_cleanup(v: Self::V, m: WorldModel<Self::C>) -> (
        Self::V,
        WorldModel<Self::C>,
        EcsResult<()>,
    ) {
        (v, m, Ok(()))
    }

    /// The system's name, for identification.
    fn name(&self) -> (r: &str)
        ensures
            r@ == Self::spec_name(self@),
    ;

    /// Hook run once, synchronously, when the system is handed to a
    /// dispatcher.
    fn initialize(&mut self, world: &mut World<Self::C>) -> (r: EcsResult<()>)
        requires
            old(world).wf(),
        ensures
            final(world).wf(),
            (final(self).view(), final(world)@, r) == Self::spec_initialize(old(self).view(), old(world)@),
    ;

    /// One tick of the system's logic; `dt_ms` is the elapsed time in
    /// milliseconds.
    fn run(&mut self, world: &mut World<Self::C>, dt_ms: u32) -> (r: EcsResult<()>)
        requires
            old(world).wf(),
        ensures
            final(world).wf(),
            (final(self).view(), final(world)@, r) == Self::spec_run(old(self).view(), old(world)@, dt_ms),
    ;

    /// Hook run once when the system is removed from a dispatcher.
    fn cleanup(&mut self, world: &mut World<Self::C>) -> (r: EcsResult<()>)
        requires
            old(world).wf(),
        ensures
            final(world).wf(),
            (final(self).view(), final(world)@, r) == Self::spec_cleanup(old(self).view(), old(world)@),
    ;
}

/// The combined effect of one tick: run each system's model in order, stop
/// at the first failure. Returns the final system views (systems after the
/// failing one untouched), the final world model, and the first failure, if
/// any.
pub open spec fn spec_run_all<S: System>(
    views: Seq<<S as System>::V>,
    m: WorldModel<S::C>,
    dt_ms: u32,
) -> (Seq<<S as System>::V>, WorldModel<S::C>, EcsResult<()>)
    decreases views.len(),
{
    if views.len() == 0 {
        (views, m, Ok(()))
    } else {
        let (s1, m1, r1) = S::spec_run(views[0], m, dt_ms);
        if r1 is Err {
            (seq![s1] + views.drop_first(), m1, r1)
        } else {
            let (rest, m2, r2) = spec_run_all::<S>(views.drop_first(), m1, dt_ms);
            (seq![s1] + rest, m2, r2)
        }
    }
}

/// Holds an ordered sequence of systems and runs them against a world, one
/// tick at a time, strictly in registration order.
pub struct SystemDispatcher<S> {
    systems: Vec<S>,
}

impl<S: System> View for SystemDispatcher<S> {
    type V = Seq<<S as System>::V>;

    closed spec fn view(&self) -> Seq<<S as System>::V> {
        self.systems@.map_values(|s: S| s.view())
    }
}

impl<S: System> SystemDispatcher<S> {
    /// Create a dispatcher with no systems.
    pub fn new() -> (d: SystemDispatcher<S>)
        ensures
            d@ == Seq::<<S as System>::V>::empty(),
    {
        let d = SystemDispatcher { systems: Vec::new() };
        proof {
            assert(d@ =~= Seq::<<S as System>::V>::empty());
        }
        d
    }

    /// The number of registered systems.
    pub fn system_count(&self) -> (n: usize)
        ensures
            n == self@.len(),
    {
        self.systems.len()
    }

    /// Add a system: its initialize hook runs synchronously against the
    /// world. On failure the dispatcher is left unchanged and the failure
    /// propagates; on success the system is appended at the end of the
    /// execution order.
    pub fn add_system(&mut self, system: S, world: &mut World<S::C>) -> (r: EcsResult<()>)
        requires
            old(world).wf(),
        ensures
            final(world).wf(),
            ({
                let (s2, m2, r2) = S::spec_initialize(system.view(), old(world)@);
                &&& final(world)@ == m2
                &&& r == r2
                &&& final(self)@ == (if r2 is Ok {
                    old(self)@.push(s2)
                } else {
                    old(self)@
                })
            }),
    {
        let ghost v0 = system.view();
        let mut system = system;
        let r = system.initialize(world);
        if r.is_ok() {
            self.systems.push(system);
            proof {
                assert(self@ =~= old(self)@.push(S::spec_initialize(v0, old(world)@).0));
            }
        } else {
            proof {
                assert(self@ =~= old(self)@);
            }
        }
        r
    }

    /// Run one tick: every system, strictly in registration order,
    /// synchronously, one at a time. The first failure aborts the tick --
    /// no later system runs -- and propagates unmodified; systems already
    /// run keep their effects.
    pub fn run_systems(&mut self, world: &mut World<S::C>, dt_ms: u32) -> (r: EcsResult<()>)
        requires
            old(world).wf(),
        ensures
            final(world).wf(),
            (final(self)@, final(world)@, r) == spec_run_all::<S>(old(self)@, old(world)@, dt_ms),
    {
        let n = self.systems.len();
        proof {
            assert(self@.skip(0) =~= self@);
            assert(self@.take(0) + self@ =~= self@);
        }
        let mut k: usize = 0;
        while k < n
            invariant
                world.wf(),
                n == self.systems@.len(),
                k <= n,
                spec_run_all::<S>(old(self)@, old(world)@, dt_ms) == ({
                    let (rest, m2, r2) = spec_run_all::<S>(self@.skip(k as int), world@, dt_ms);
                    (self@.take(k as int) + rest, m2, r2)
                }),
            decreases n - k,
        {
            let ghost pre_views = self@;
            let ghost pre_world = world@;
            let sysref = &mut self.systems[k];
            let r = sysref.run(world, dt_ms);
            proof {
                let suffix = pre_views.skip(k as int);
                assert(suffix[0] == pre_views[k as int]);
                assert(suffix.drop_first() =~= pre_views.skip(k as int + 1));
                assert(self@ =~= pre_views.update(k as int, self@[k as int]));
                assert(self@.skip(k as int + 1) =~= pre_views.skip(k as int + 1));
                assert(self@.take(k as int + 1) =~= pre_views.take(k as int).push(
                    self@[k as int],
                ));
            }
            match r {
                Err(e) => {
                    proof {
                        let (s1, m1, r1) = S::spec_run(pre_views[k as int], pre_world, dt_ms);
                        assert(self@.take(k as int) + (seq![s1] + pre_views.skip(
                            k as int,
                        ).drop_first()) =~= self@);
                    }
                    return Err(e);
                },
                Ok(()) => {
                    proof {
                        let (s1, m1, r1) = S::spec_run(pre_views[k as int], pre_world, dt_ms);
                        let (rest, m2, r2) = spec_run_all::<S>(
                            self@.skip(k as int + 1),
                            world@,
                            dt_ms,
                        );
                        assert(pre_views.take(k as int) + (seq![s1] + rest) =~= self@.take(
                            k as int + 1,
                        ) + rest);
                    }
                },
            }
            k = k + 1;
        }
        proof {
            assert(self@.skip(n as int) =~= Seq::<<S as System>::V>::empty());
            assert(self@.take(n as int) + Seq::<<S as System>::V>::empty() =~= self@);
        }
        Ok(())
    }

    /// Remove the system at the given position in the execution order,
    /// running its cleanup hook first. A cleanup failure propagates but does
    /// not prevent the removal.
    pub fn remove_system(&mut self, index: usize, world: &mut World<S::C>) -> (r: EcsResult<()>)
        requires
            old(world).wf(),
            index < old(self)@.len(),
        ensures
            final(world).wf(),
            ({
                let (s2, m2, r2) = S::spec_cleanup(old(self)@[index as int], old(world)@);
                &&& final(world)@ == m2
                &&& r == r2
                &&& final(self)@ == old(self)@.remove(index as int)
            }),
    {
        let ghost pre_views = self@;
        let sysref = &mut self.systems[index];
        let r = sysref.cleanup(world);
        self.systems.remove(index);
        proof {
            assert(self@ =~= pre_views.remove(index as int));
        }
        r
    }
}

impl<S: System> Default for SystemDispatcher<S> {
    /// Same as [`SystemDispatcher::new`].
    fn default() -> (d: SystemDispatcher<S>)
        ensures
            d@ == Seq::<<S as System>::V>::empty(),
    {
        SystemDispatcher::new()
    }
}

/// Dispatcher abort law: for systems added in the order first, second,
/// third, where the first succeeds on the given world and the second fails,
/// one tick runs the first and second only -- the third is untouched -- the
/// world is left as the second system left it, and the second system's
/// error is returned.
pub proof fn lemma_run_all_aborts_on_failure<S: System>(
    v1: <S as System>::V,
    v2: <S as System>::V,
    v3: <S as System>::V,
    m: WorldModel<S::C>,
    dt_ms: u32,
)
    requires
        S::spec_run(v1, m, dt_ms).2 is Ok,
        S::spec_run(v2, S::spec_run(v1, m, dt_ms).1, dt_ms).2 is Err,
    ensures
        ({
            let (v1p, m1, r1) = S::spec_run(v1, m, dt_ms);
            let (v2p, m2, r2) = S::spec_run(v2, m1, dt_ms);
            spec_run_all::<S>(seq![v1, v2, v3], m, dt_ms) == (seq![v1p, v2p, v3], m2, r2)
        }),
{
    let (v1p, m1, r1) = S::spec_run(v1, m, dt_ms);
    let (v2p, m2, r2) = S::spec_run(v2, m1, dt_ms);
    let t123 = seq![v1, v2, v3];
    let t23 = seq![v2, v3];
    assert(t123[0] == v1);
    assert(t23[0] == v2);
    assert(t123.drop_first() =~= t23);
    assert(t23.drop_first() =~= seq![v3]);
    assert(spec_run_all::<S>(t23, m1, dt_ms) == (seq![v2p] + seq![v3], m2, r2));
    assert(spec_run_all::<S>(t123, m, dt_ms) == (seq![v1p] + (seq![v2p] + seq![v3]), m2, r2));
    assert(seq![v1p] + (seq![v2p] + seq![v3]) =~= seq![v1p, v2p, v3]);
}

} // verus!
