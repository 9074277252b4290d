//! The world: entity registry, typed component stores, membership index and
//! mask-based query.
//!
//! The world owns every entity and every component. Entities live in a slot
//! table; a freed slot's generation is bumped before the slot is reused, so
//! stale handles are never mistaken for live ones. Component values of each
//! registered type tag live in one typed store, and each slot carries a mask
//! of the tags present for it; the mask and the stores are mutated by the
//! same operations and never diverge.
//!
//! Every operation is specified as the matching transition of the ghost
//! [`WorldModel`].

use vstd::prelude::*;
use std::collections::HashSet;
use crate::entity::{Entity, EntityId};
use crate::error::{EcsError, EcsResult};
use crate::model::{WorldModel, lemma_count_live_le, lemma_count_live_push,
    lemma_count_live_update};
use crate::store::TypedComponentStorage;

verus! {

broadcast use vstd::std_specs::hash::group_hash_axioms;

/// One slot of the entity table.
struct Slot {
    /// Generation stamped into handles issued for this slot.
    generation: u64,
    /// Whether the slot currently holds a live entity.
    live: bool,
    /// The component type tags currently present for the entity in this slot.
    mask: HashSet<u64>,
}

/// The central store of all entities and their components.
pub struct World<V> {
    /// The slot table: one entry per entity slot ever allocated.
    slots: Vec<Slot>,
    /// Indices of freed slots available for reuse, youngest last.
    free: Vec<usize>,
    /// Number of live entities.
    live_count: usize,
    /// Registered component type tags, in registration order.
    tags: Vec<u64>,
    /// One typed store per registered tag, parallel to `tags`.
    stores: Vec<TypedComponentStorage<V>>,
}

impl<V> View for World<V> {
    type V = WorldModel<V>;

    closed spec fn view(&self) -> WorldModel<V> {
        WorldModel {
            gens: self.slots@.map_values(|s: Slot| s.generation),
            live: self.slots@.map_values(|s: Slot| s.live),
            masks: self.slots@.map_values(|s: Slot| s.mask@),
            free: self.free@,
            tags: self.tags@,
            comps: Map::new(
                |t: u64| self.tags@.contains(t),
                |t: u64| self.stores@[self.tags@.index_of(t)]@,
            ),
        }
    }
}

impl<V> World<V> {
    /// Well-formedness: the concrete fields agree with each other and the
    /// model invariants hold.
    pub closed spec fn wf(self) -> bool {
        &&& self.stores@.len() == self.tags@.len()
        &&& self.live_count as nat == self@.entity_count()
        &&& self@.wf()
    }

    /// A well-formed world has a well-formed model.
    pub proof fn lemma_wf_model(&self)
        requires
            self.wf(),
        ensures
            self@.wf(),
    {
    }

    /// The typed store at position `k` is the model's store for tag `k`.
    proof fn lemma_comps_index(self, k: int)
        requires
            self.wf(),
            0 <= k < self.tags@.len(),
        ensures
            self@.comps.dom().contains(self.tags@[k]),
            self@.comps[self.tags@[k]] == self.stores@[k]@,
    {
        let t = self.tags@[k];
        assert(self.tags@.contains(t));
        let j = self.tags@.index_of(t);
        assert(0 <= j < self.tags@.len() && self.tags@[j] == t);
        if j != k {
            assert(false);
        }
    }

    /// Create a new empty world.
    pub fn new() -> (w: World<V>)
        ensures
            w.wf(),
            w@ == WorldModel::<V>::empty(),
    {
        let w = World {
            slots: Vec::new(),
            free: Vec::new(),
            live_count: 0,
            tags: Vec::new(),
            stores: Vec::new(),
        };
        proof {
            assert(w@.gens =~= Seq::<u64>::empty());
            assert(w@.live =~= Seq::<bool>::empty());
            assert(w@.masks =~= Seq::<Set<u64>>::empty());
            assert(w@.comps =~= Map::<u64, Map<usize, V>>::empty());
            assert(w@.comps.dom() =~= w@.tags.to_set());
            assert(w@ == WorldModel::<V>::empty());
        }
        w
    }

    /// Whether the handle denotes a live entity.
    pub fn entity_exists(&self, entity: Entity) -> (r: bool)
        requires
            self.wf(),
        ensures
            r == self@.contains_entity(entity),
    {
        let id = entity.id();
        if id.index < self.slots.len() {
            let slot = &self.slots[id.index];
            slot.live && slot.generation == id.generation
        } else {
            false
        }
    }

    /// The number of live entities.
    pub fn entity_count(&self) -> (r: usize)
        requires
            self.wf(),
        ensures
            r as nat == self@.entity_count(),
    {
        self.live_count
    }

    /// The position of a registered tag in the tag table, if any.
    fn find_tag(&self, tag: u64) -> (r: Option<usize>)
        requires
            self.wf(),
        ensures
            match r {
                Some(k) => k < self.tags@.len() && self.tags@[k as int] == tag,
                None => !self.tags@.contains(tag),
            },
    {
        let n = self.tags.len();
        let mut k: usize = 0;
        while k < n
            invariant
                n == self.tags@.len(),
                k <= n,
                forall|j: int| 0 <= j < k ==> self.tags@[j] != tag,
            decreases n - k,
        {
            if self.tags[k] == tag {
                return Some(k);
            }
            k = k + 1;
        }
        None
    }

    /// Register the tag if it is new and return its position in the tag
    /// table.
    fn ensure_tag(&mut self, tag: u64) -> (k: usize)
        requires
            old(self).wf(),
        ensures
            final(self).wf(),
            final(self)@ == old(self)@.spec_register(tag),
            k < final(self).tags@.len(),
            final(self).tags@[k as int] == tag,
    {
        match self.find_tag(tag) {
            Some(k) => {
                proof {
                    assert(self@ == old(self)@.spec_register(tag));
                }
                k
            },
            None => {
                let k = self.tags.len();
                self.tags.push(tag);
                self.stores.push(TypedComponentStorage::new());
                proof {
                let m0 = old(self)@;
                let m2 = m0.spec_register(tag);
                assert(!m0.tags.contains(tag));
                // every old tag keeps its store; the new tag maps to the
                // fresh empty store
                assert forall|t: u64| self@.comps.dom().contains(t) implies self@.comps[t]
                    == m2.comps[t] by {
                    if t == tag {
                        let j = self.tags@.index_of(t);
                        assert(self.tags@[self.tags@.len() - 1] == t);
                        assert(0 <= j < self.tags@.len() && self.tags@[j] == t);
                        if j != self.tags@.len() - 1 {
                            assert(m0.tags[j] == t);
                            assert(false);
                        }
                        assert(self@.comps[t] =~= Map::<usize, V>::empty());
                    } else {
                        let j = self.tags@.index_of(t);
                        assert(self.tags@.contains(t));
                        assert(0 <= j < self.tags@.len() && self.tags@[j] == t);
                        assert(j < m0.tags.len());
                        assert(m0.tags[j] == t);
                        assert(m0.tags.contains(t));
                        let j0 = m0.tags.index_of(t);
                        assert(0 <= j0 < m0.tags.len() && m0.tags[j0] == t);
                        if j0 != j {
                            assert(false);
                        }
                    }
                }
                assert forall|t: u64| self.tags@.contains(t) <==> (m0.tags.contains(t) || t
                    == tag) by {
                    if self.tags@.contains(t) {
                        let j = choose|j: int| 0 <= j < self.tags@.len() && self.tags@[j] == t;
                        if j < m0.tags.len() {
                            assert(m0.tags[j] == t);
                        }
                    }
                    if m0.tags.contains(t) {
                        let j = choose|j: int| 0 <= j < m0.tags.len() && m0.tags[j] == t;
                        assert(self.tags@[j] == t);
                    }
                    if t == tag {
                        assert(self.tags@[self.tags@.len() - 1] == t);
                    }
                }
                assert(self@.comps.dom() =~= m2.comps.dom());
                assert(self@.comps =~= m2.comps);
                assert(self@ == m2);
                // well-formedness of the new model
                assert(self@.comps.dom() =~= self@.tags.to_set());
                assert forall|i: int, t: u64|
                    0 <= i < self@.gens.len() && self@.live[i] implies ((#[trigger] self@.masks[i].contains(
                    t)) <==> (self@.comps.dom().contains(t) && self@.comps[t].dom().contains(
                    i as usize))) by {
                    if t == tag {
                        assert(!m0.comps.dom().contains(t));
                        assert(!m0.masks[i].contains(t));
                    }
                }
                }
                k
            },
        }
    }

    /// Register a component type tag: idempotently create an empty typed
    /// store for it. An already-registered tag is left untouched.
    pub fn register_component(&mut self, tag: u64)
        requires
            old(self).wf(),
        ensures
            final(self).wf(),
            final(self)@ == old(self)@.spec_register(tag),
    {
        self.ensure_tag(tag);
    }

    /// Attach a component value to an entity under the given tag,
    /// auto-registering the tag and overwriting any existing value for
    /// (entity, tag). Fails with `EntityNotFound` when the handle does not
    /// denote a live entity.
    pub fn add_component(&mut self, entity: Entity, tag: u64, value: V) -> (r: EcsResult<()>)
        requires
            old(self).wf(),
        ensures
            final(self).wf(),
            final(self)@ == old(self)@.spec_add(entity, tag, value).0,
            r == old(self)@.spec_add(entity, tag, value).1,
    {
        let ghost m0 = old(self)@;
        if !self.entity_exists(entity) {
            return Err(EcsError::EntityNotFound(entity));
        }
        let i = entity.id().index;
        let k = self.ensure_tag(tag);
        let ghost m1 = m0.spec_register(tag);
        proof {
            self.lemma_comps_index(k as int);
        }
        let ghost w1 = *self;
        self.stores[k].insert(i, value);
        let slot = &mut self.slots[i];
        slot.mask.insert(tag);
        proof {
            let m2 = m0.spec_add(entity, tag, value).0;
            assert(self@.gens =~= m2.gens);
            assert(self@.live =~= m2.live);
            assert(self@.free == m2.free);
            assert(self@.tags == m2.tags);
            assert(self@.masks =~= m2.masks);
            assert forall|t: u64| #[trigger]
                self@.comps.dom().contains(t) implies self@.comps[t] == m2.comps[t] by {
                assert(self.tags@.contains(t));
                let j = self.tags@.index_of(t);
                assert(0 <= j < self.tags@.len() && self.tags@[j] == t);
                if t == tag {
                    if j != k {
                        assert(false);
                    }
                } else {
                    assert(j != k);
                    assert(self.stores@[j]@ == w1.stores@[j]@);
                    w1.lemma_comps_index(j);
                }
            }
            assert(self@.comps.dom() =~= m2.comps.dom());
            assert(self@.comps =~= m2.comps);
            assert(self@ == m2);
            // the new model is well-formed
            assert(self@.comps.dom() =~= self@.tags.to_set());
            assert forall|t: u64, x: usize|
                self@.comps.dom().contains(t) && (#[trigger] self@.comps[t].dom().contains(
                x)) implies x < self@.gens.len() && self@.live[x as int] by {
                if t == tag && x == i {
                } else {
                    assert(m1.comps[t].dom().contains(x));
                }
            }
            assert forall|x: int, t: u64|
                0 <= x < self@.gens.len() && self@.live[x] implies ((
            #[trigger] self@.masks[x].contains(t)) <==> (self@.comps.dom().contains(t)
                && self@.comps[t].dom().contains(x as usize))) by {
                if x == i as int {
                    if t != tag {
                        assert(self@.masks[x].contains(t) == m1.masks[x].contains(t));
                        assert(self@.comps[t] == m1.comps[t]);
                    }
                } else {
                    assert(self@.masks[x] == m1.masks[x]);
                    if self@.comps.dom().contains(t) {
                        if t == tag {
                            assert(self@.comps[t].dom().contains(x as usize)
                                == m1.comps[t].dom().contains(x as usize));
                        } else {
                            assert(self@.comps[t] == m1.comps[t]);
                        }
                    }
                }
            }
            assert(self@.wf());
        }
        Ok(())
    }

    /// Detach and return the component stored for the entity under the tag,
    /// clearing the tag from the entity's mask. Fails with `EntityNotFound`
    /// when the handle does not denote a live entity and with
    /// `ComponentNotRegistered` when the tag has no typed store.
    pub fn remove_component(&mut self, entity: Entity, tag: u64) -> (r: EcsResult<Option<V>>)
        requires
            old(self).wf(),
        ensures
            final(self).wf(),
            final(self)@ == old(self)@.spec_remove_component(entity, tag).0,
            r == old(self)@.spec_remove_component(entity, tag).1,
    {
        let ghost m0 = old(self)@;
        if !self.entity_exists(entity) {
            return Err(EcsError::EntityNotFound(entity));
        }
        let i = entity.id().index;
        let k = match self.find_tag(tag) {
            None => {
                return Err(EcsError::ComponentNotRegistered(tag));
            },
            Some(k) => k,
        };
        proof {
            self.lemma_comps_index(k as int);
        }
        let ghost w1 = *self;
        let removed = self.stores[k].remove(i);
        let slot = &mut self.slots[i];
        slot.mask.remove(&tag);
        proof {
            let m2 = m0.spec_remove_component(entity, tag).0;
            assert(self@.gens =~= m2.gens);
            assert(self@.live =~= m2.live);
            assert(self@.free == m2.free);
            assert(self@.tags == m2.tags);
            assert(self@.masks =~= m2.masks);
            assert forall|t: u64| #[trigger]
                self@.comps.dom().contains(t) implies self@.comps[t] == m2.comps[t] by {
                assert(self.tags@.contains(t));
                let j = self.tags@.index_of(t);
                assert(0 <= j < self.tags@.len() && self.tags@[j] == t);
                if t == tag {
                    if j != k {
                        assert(false);
                    }
                } else {
                    assert(j != k);
                    assert(self.stores@[j]@ == w1.stores@[j]@);
                    w1.lemma_comps_index(j);
                }
            }
            assert(self@.comps.dom() =~= m2.comps.dom());
            assert(self@.comps =~= m2.comps);
            assert(self@ == m2);
            // the removed value matches the model's answer
            assert(w1.stores@[k as int]@ == m0.comps[tag]);
            // the new model is well-formed
            assert(self@.comps.dom() =~= self@.tags.to_set());
            assert forall|t: u64, x: usize|
                self@.comps.dom().contains(t) && (#[trigger] self@.comps[t].dom().contains(
                x)) implies x < self@.gens.len() && self@.live[x as int] by {
                assert(m0.comps[t].dom().contains(x));
            }
            assert forall|x: int, t: u64|
                0 <= x < self@.gens.len() && self@.live[x] implies ((
            #[trigger] self@.masks[x].contains(t)) <==> (self@.comps.dom().contains(t)
                && self@.comps[t].dom().contains(x as usize))) by {
                if x == i as int {
                    if t != tag {
                        assert(self@.masks[x].contains(t) == m0.masks[x].contains(t));
                        assert(self@.comps[t] == m0.comps[t]);
                    }
                } else {
                    assert(self@.masks[x] == m0.masks[x]);
                    if self@.comps.dom().contains(t) {
                        if t == tag {
                            assert(self@.comps[t].dom().contains(x as usize)
                                == m0.comps[t].dom().contains(x as usize));
                        } else {
                            assert(self@.comps[t] == m0.comps[t]);
                        }
                    }
                }
            }
            assert(self@.wf());
        }
        Ok(removed)
    }

    /// Create a new entity, reusing a freed slot when one is available.
    /// The handle is fresh: it does not denote an entity of the old world,
    /// and it never compares equal to a handle destroyed before this call.
    pub fn create_entity(&mut self) -> (e: Entity)
        requires
            old(self).wf(),
        ensures
            final(self).wf(),
            final(self)@ == old(self)@.spec_create().0,
            e == old(self)@.spec_create().1,
            final(self)@.contains_entity(e),
            !old(self)@.contains_entity(e),
    {
        let ghost m0 = old(self)@;
        match self.free.pop() {
            Some(i) => {
                proof {
                    assert(m0.free.len() > 0);
                    assert(m0.free[m0.free.len() - 1] == i);
                    assert(i < self.slots@.len() && !m0.live[i as int]);
                    lemma_count_live_update(m0.live, i as int, true);
                    lemma_count_live_le(m0.live.update(i as int, true));
                }
                let generation = self.slots[i].generation;
                let slot = &mut self.slots[i];
                slot.live = true;
                let e = Entity { id: EntityId { index: i, generation } };
                self.live_count = self.live_count + 1;
                proof {
                    let (m2, ent) = m0.spec_create();
                    assert(e == ent);
                    assert(self@.gens =~= m2.gens);
                    assert(self@.live =~= m2.live);
                    assert(self@.masks =~= m2.masks);
                    assert(self@.free == m2.free);
                    assert(self@.comps =~~= m2.comps);
                    assert(self@ == m2);
                    // the freed slot had no components, so the mask
                    // equivalence holds for it
                    assert forall|t: u64|
                        self@.comps.dom().contains(t) implies !(#[trigger] self@.comps[t].dom().contains(
                        i)) by {
                        assert(!m0.live[i as int]);
                    }
                    assert(self@.masks[i as int] =~= Set::empty());
                    assert(self@.wf());
                }
                e
            },
            None => {
                let index = self.slots.len();
                self.slots.push(Slot { generation: 0, live: true, mask: HashSet::new() });
                proof {
                    lemma_count_live_push(m0.live, true);
                    lemma_count_live_le(m0.live);
                    vstd::std_specs::vec::axiom_spec_len(&self.slots);
                    assert(self.slots@.len() <= usize::MAX);
                }
                self.live_count = self.live_count + 1;
                proof {
                    let (m2, ent) = m0.spec_create();
                    assert(self@.gens =~= m2.gens);
                    assert(self@.live =~= m2.live);
                    assert(self@.masks =~= m2.masks);
                    assert(self@.free == m2.free);
                    assert(self@.comps =~~= m2.comps);
                    assert(self@ == m2);
                    assert forall|t: u64|
                        self@.comps.dom().contains(t) implies !(#[trigger] self@.comps[t].dom().contains(
                        index)) by {
                        assert(m0.comps.dom().contains(t));
                        if self@.comps[t].dom().contains(index) {
                            assert((index as int) < m0.gens.len());
                        }
                    }
                    assert(self@.masks[index as int] =~= Set::empty());
                    assert forall|x: int, t: u64|
                        0 <= x < self@.gens.len() && self@.live[x] implies ((
                    #[trigger] self@.masks[x].contains(t)) <==> (self@.comps.dom().contains(t)
                        && self@.comps[t].dom().contains(x as usize))) by {
                        if x < m0.gens.len() {
                            assert(self@.masks[x] == m0.masks[x]);
                        } else {
                            assert(x == index as int);
                        }
                    }
                    assert(self@.wf());
                }
                Entity { id: EntityId { index, generation: 0 } }
            },
        }
    }

    /// Remove an entity: purge it from every typed store, clear its mask,
    /// and free its slot for reuse under a bumped generation. Fails with
    /// `EntityNotFound` when the handle does not denote a live entity.
    pub fn remove_entity(&mut self, entity: Entity) -> (r: EcsResult<()>)
        requires
            old(self).wf(),
        ensures
            final(self).wf(),
            final(self)@ == old(self)@.spec_destroy(entity).0,
            r == old(self)@.spec_destroy(entity).1,
    {
        let ghost m0 = old(self)@;
        if !self.entity_exists(entity) {
            return Err(EcsError::EntityNotFound(entity));
        }
        let i = entity.id().index;
        // purge the entity from every typed store
        let n = self.stores.len();
        let mut k: usize = 0;
        while k < n
            invariant
                old(self).wf(),
                n == self.stores@.len(),
                k <= n,
                self.slots == old(self).slots,
                self.free == old(self).free,
                self.live_count == old(self).live_count,
                self.tags == old(self).tags,
                forall|j: int|
                    0 <= j < k ==> #[trigger] self.stores@[j]@ == old(self).stores@[j]@.remove(i),
                forall|j: int| k <= j < n ==> #[trigger] self.stores@[j]@ == old(self).stores@[j]@,
            decreases n - k,
        {
            self.stores[k].remove(i);
            k = k + 1;
        }
        // free the slot under a bumped generation; a slot whose generation
        // is exhausted is retired instead of freed
        let g = self.slots[i].generation;
        let bump = g < u64::MAX;
        let new_gen = if bump {
            g + 1
        } else {
            g
        };
        self.slots[i] = Slot { generation: new_gen, live: false, mask: HashSet::new() };
        if bump {
            self.free.push(i);
        }
        proof {
            lemma_count_live_update(m0.live, i as int, false);
        }
        self.live_count = self.live_count - 1;
        proof {
            let (m2, res) = m0.spec_destroy(entity);
            assert(self@.gens =~= m2.gens);
            assert(self@.live =~= m2.live);
            assert(self@.masks =~= m2.masks);
            assert(self@.free == m2.free);
            assert forall|t: u64| #[trigger]
                self@.comps.dom().contains(t) implies self@.comps[t] == m2.comps[t] by {
                assert(self.tags@.contains(t));
                let j = self.tags@.index_of(t);
                assert(0 <= j < self.tags@.len() && self.tags@[j] == t);
                assert(self.stores@[j]@ == old(self).stores@[j]@.remove(i));
                old(self).lemma_comps_index(j);
            }
            assert(self@.comps.dom() =~= m2.comps.dom());
            assert(self@.comps =~= m2.comps);
            assert(self@ == m2);
            // the new model is well-formed
            assert(self@.comps.dom() =~= self@.tags.to_set());
            assert forall|t: u64, x: usize|
                self@.comps.dom().contains(t) && (#[trigger] self@.comps[t].dom().contains(
                x)) implies x < self@.gens.len() && self@.live[x as int] by {
                assert(m0.comps[t].dom().contains(x));
            }
            assert(self@.masks[i as int] =~= Set::empty());
            assert forall|x: int, t: u64|
                0 <= x < self@.gens.len() && self@.live[x] implies ((
                #[trigger] self@.masks[x].contains(t)) <==> (self@.comps.dom().contains(t)
                && self@.comps[t].dom().contains(x as usize))) by {
                assert(x != i);
                assert(self@.masks[x] == m0.masks[x]);
            }
            assert(self@.wf());
        }
        Ok(())
    }

    /// Whether the given tag is present for the given entity.
    pub fn has_component(&self, entity: Entity, tag: u64) -> (r: bool)
        requires
            self.wf(),
        ensures
            r == self@.has_at(entity, tag),
    {
        let id = entity.id();
        if id.index < self.slots.len() {
            let slot = &self.slots[id.index];
            if slot.live && slot.generation == id.generation {
                slot.mask.contains(&tag)
            } else {
                false
            }
        } else {
            false
        }
    }

    /// Whether every required tag is in the mask.
    fn mask_covers_exec(mask: &HashSet<u64>, required: &[u64]) -> (r: bool)
        ensures
            r == crate::model::mask_covers(mask@, required@),
    {
        let n = required.len();
        let mut k: usize = 0;
        while k < n
            invariant
                n == required@.len(),
                k <= n,
                forall|j: int| 0 <= j < k ==> mask@.contains(#[trigger] required@[j]),
            decreases n - k,
        {
            if !mask.contains(&required[k]) {
                return false;
            }
            k = k + 1;
        }
        true
    }

    /// The live entities whose mask covers every required tag, in slot
    /// order. No non-matching entity is returned, and callers must not
    /// depend on the order.
    pub fn query_entities(&self, required: &[u64]) -> (r: Vec<Entity>)
        requires
            self.wf(),
        ensures
            r@ == self@.spec_query(required@),
    {
        let mut result: Vec<Entity> = Vec::new();
        let n = self.slots.len();
        let mut i: usize = 0;
        while i < n
            invariant
                self.wf(),
                n == self.slots@.len(),
                i <= n,
                result@ == self@.spec_query_up_to(required@, i as int),
            decreases n - i,
        {
            let slot = &self.slots[i];
            let ghost before = result@;
            if slot.live && Self::mask_covers_exec(&slot.mask, required) {
                result.push(Entity { id: EntityId { index: i, generation: slot.generation } });
                proof {
                    assert(result@ =~= before + seq![self@.entity_at(i as int)]);
                }
            } else {
                proof {
                    assert(result@ =~= before + Seq::<Entity>::empty());
                }
            }
            i = i + 1;
        }
        result
    }

    /// A snapshot of every live entity, in slot order.
    pub fn entities(&self) -> (r: Vec<Entity>)
        requires
            self.wf(),
        ensures
            r@ == self@.spec_entities(),
    {
        let required: [u64; 0] = [];
        let r = self.query_entities(&required);
        proof {
            assert(required@ =~= Seq::<u64>::empty());
        }
        r
    }

    /// Two worlds that differ only in one stored component value: the
    /// second is well-formed and is the `spec_add` of that value.
    proof fn lemma_store_value_update(w1: World<V>, w2: World<V>, e: Entity, k: int, fv: V)
        requires
            w1.wf(),
            0 <= k < w1.tags@.len(),
            w1@.contains_entity(e),
            w1@.comps[w1.tags@[k]].dom().contains(e.id().index),
            w2.slots == w1.slots,
            w2.free == w1.free,
            w2.live_count == w1.live_count,
            w2.tags == w1.tags,
            w2.stores@.len() == w1.stores@.len(),
            forall|j: int|
                0 <= j < w1.stores@.len() && j != k ==> #[trigger] w2.stores@[j] == w1.stores@[j],
            w2.stores@[k]@ == w1.stores@[k]@.insert(e.id().index, fv),
        ensures
            w2.wf(),
            w2@ == w1@.spec_add(e, w1.tags@[k], fv).0,
    {
        let tag = w1.tags@[k];
        let i = e.id().index;
        w1.lemma_comps_index(k);
        let m2 = w1@.spec_add(e, tag, fv).0;
        assert(w1@.tags.contains(tag));
        assert(w1@.spec_register(tag) == w1@);
        // the entity already carries the tag, so the mask is unchanged
        assert(w1@.masks[i as int].contains(tag));
        assert(w1@.masks[i as int].insert(tag) =~= w1@.masks[i as int]);
        assert(m2.masks =~= w1@.masks);
        assert forall|t: u64| #[trigger]
            w2@.comps.dom().contains(t) implies w2@.comps[t] == m2.comps[t] by {
            assert(w2.tags@.contains(t));
            let j = w2.tags@.index_of(t);
            assert(0 <= j < w2.tags@.len() && w2.tags@[j] == t);
            if t == tag {
                if j != k {
                    assert(false);
                }
            } else {
                assert(j != k);
                assert(w2.stores@[j]@ == w1.stores@[j]@);
                w1.lemma_comps_index(j);
            }
        }
        assert(w2@.comps.dom() =~= m2.comps.dom());
        assert(w2@.comps =~= m2.comps);
        assert(w2@ == m2);
        // well-formedness: only a stored value changed
        assert(w2@.comps.dom() =~= w2@.tags.to_set());
        assert(w2@.comps[tag].dom() =~= w1@.comps[tag].dom());
        assert forall|t: u64, x: usize|
            w2@.comps.dom().contains(t) && (#[trigger] w2@.comps[t].dom().contains(x)) implies x
            < w2@.gens.len() && w2@.live[x as int] by {
            assert(w1@.comps[t].dom().contains(x));
        }
        assert forall|x: int, t: u64|
            0 <= x < w2@.gens.len() && w2@.live[x] implies ((#[trigger] w2@.masks[x].contains(t))
            <==> (w2@.comps.dom().contains(t) && w2@.comps[t].dom().contains(x as usize))) by {
            if w2@.comps.dom().contains(t) {
                assert(w2@.comps[t].dom().contains(x as usize) == w1@.comps[t].dom().contains(
                    x as usize,
                ));
            }
        }
        assert(w2.wf());
    }

    /// Two worlds whose typed stores agree pointwise on their views are the
    /// same world, as far as the model goes.
    proof fn lemma_same_views_same_model(w1: World<V>, w2: World<V>)
        requires
            w1.wf(),
            w2.slots == w1.slots,
            w2.free == w1.free,
            w2.live_count == w1.live_count,
            w2.tags == w1.tags,
            w2.stores@.len() == w1.stores@.len(),
            forall|j: int| 0 <= j < w1.stores@.len() ==> #[trigger] w2.stores@[j]@ == w1.stores@[j]@,
        ensures
            w2.wf(),
            w2@ == w1@,
    {
        assert forall|t: u64| #[trigger]
            w2@.comps.dom().contains(t) implies w2@.comps[t] == w1@.comps[t] by {
            assert(w2.tags@.contains(t));
            let j = w2.tags@.index_of(t);
            assert(0 <= j < w2.tags@.len() && w2.tags@[j] == t);
        }
        assert(w2@.comps =~= w1@.comps);
        assert(w2@ == w1@);
    }

    /// A mutable reference to the component stored for the entity under the
    /// tag, if any; absence semantics are the same as for `get_component`.
    /// The world afterwards stores whatever value the caller leaves in the
    /// reference, as if by `add_component`.
    pub fn get_component_mut(&mut self, entity: Entity, tag: u64) -> (r: Option<&mut V>)
        requires
            old(self).wf(),
        ensures
            final(self).wf(),
            r is Some <==> old(self)@.comp_at(entity, tag) is Some,
            r matches Some(v) ==> old(self)@.comp_at(entity, tag) == Some(*v),
            r matches Some(v) ==> final(self)@ == old(self)@.spec_add(entity, tag, *final(v)).0,
            r is None ==> final(self)@ == old(self)@,
    {
        if !self.entity_exists(entity) {
            return None;
        }
        let k = match self.find_tag(tag) {
            Some(found) => found,
            None => {
                return None;
            },
        };
        proof {
            self.lemma_comps_index(k as int);
        }
        let i = entity.id().index;
        proof {
            // whatever value the caller leaves in the returned reference,
            // the world stays well-formed and moves by the matching add
            // transition; an untouched store leaves the world unchanged
            assert forall|w2: World<V>|
                (w2.slots == old(self).slots && w2.free == old(self).free && w2.live_count
                    == old(self).live_count && w2.tags == old(self).tags && w2.stores@.len()
                    == old(self).stores@.len() && (forall|j: int|
                    0 <= j < old(self).stores@.len() && j != k as int ==> #[trigger] w2.stores@[j]
                        == old(self).stores@[j]) && (w2.stores@[k as int]@
                    == old(self).stores@[k as int]@ || (old(self)@.comps[tag].dom().contains(i)
                    && exists|fv: V|
                        w2.stores@[k as int]@ == old(self).stores@[k as int]@.insert(i, fv))))
                implies w2.wf() && (w2.stores@[k as int]@
                == old(self).stores@[k as int]@ ==> (#[trigger] w2.view()) == old(self)@) by {
                if w2.stores@[k as int]@ == old(self).stores@[k as int]@ {
                    Self::lemma_same_views_same_model(*old(self), w2);
                } else {
                    let fv0 = choose|fv: V|
                        w2.stores@[k as int]@ == old(self).stores@[k as int]@.insert(i, fv);
                    Self::lemma_store_value_update(*old(self), w2, entity, k as int, fv0);
                }
            }
            assert forall|w2: World<V>, fv: V|
                #![trigger w2.view(), old(self)@.spec_add(entity, tag, fv)]
                (w2.slots == old(self).slots && w2.free == old(self).free && w2.live_count
                    == old(self).live_count && w2.tags == old(self).tags && w2.stores@.len()
                    == old(self).stores@.len() && (forall|j: int|
                    0 <= j < old(self).stores@.len() && j != k as int ==> #[trigger] w2.stores@[j]
                        == old(self).stores@[j]) && old(self)@.comps[tag].dom().contains(i)
                    && w2.stores@[k as int]@ == old(self).stores@[k as int]@.insert(i, fv))
                implies w2.wf() && w2.view() == old(self)@.spec_add(entity, tag, fv).0 by {
                Self::lemma_store_value_update(*old(self), w2, entity, k as int, fv);
            }
        }
        let store = &mut self.stores[k];
        store.get_mut(i)
    }

    /// The typed store registered for the tag, if any.
    pub fn get_component_storage(&self, tag: u64) -> (r: Option<&TypedComponentStorage<V>>)
        requires
            self.wf(),
        ensures
            match r {
                Some(s) => self@.registered(tag) && self@.comps.dom().contains(tag) && s@
                    == self@.comps[tag],
                None => !self@.registered(tag),
            },
    {
        match self.find_tag(tag) {
            Some(k) => {
                proof {
                    self.lemma_comps_index(k as int);
                }
                Some(&self.stores[k])
            },
            None => None,
        }
    }

    /// The component stored for the entity under the tag, if any. An
    /// unregistered tag, a stale handle, or an entity lacking the tag all
    /// yield no value, not an error.
    pub fn get_component(&self, entity: Entity, tag: u64) -> (r: Option<&V>)
        requires
            self.wf(),
        ensures
            match r {
                Some(v) => self@.comp_at(entity, tag) == Some(*v),
                None => self@.comp_at(entity, tag) is None,
            },
    {
        if !self.entity_exists(entity) {
            return None;
        }
        match self.find_tag(tag) {
            None => {
                proof {
                    assert(!self@.comps.dom().contains(tag));
                }
                None
            },
            Some(k) => {
                proof {
                    self.lemma_comps_index(k as int);
                }
                self.stores[k].get(entity.id().index)
            },
        }
    }
}

impl<V> Default for World<V> {
    /// Same as [`World::new`].
    fn default() -> (w: World<V>)
        ensures
            w.wf(),
            w@ == WorldModel::<V>::empty(),
    {
        World::new()
    }
}

} // verus!
