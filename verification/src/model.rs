//! Mathematical model of the world.
//!
//! A [`WorldModel`] is the ghost value of a [`World`](crate::world::World):
//! a slot table (generation, liveness and membership mask per slot), the
//! queue of freed slots available for reuse, the registered component type
//! tags, and one map per tag from slot index to component value. Every
//! executable operation of the world is specified as a pure transition on
//! this model, and the laws of the store are proved about the transitions.

use vstd::prelude::*;
use crate::entity::{Entity, EntityId};
use crate::error::{EcsError, EcsResult};

verus! {

/// Ghost state of a world.
pub struct WorldModel<V> {
    /// Current generation of each slot ever allocated.
    pub gens: Seq<u64>,
    /// Whether each slot currently holds a live entity.
    pub live: Seq<bool>,
    /// Membership mask of each slot: the tags present for the entity in it.
    pub masks: Seq<Set<u64>>,
    /// Indices of freed slots available for reuse, youngest last.
    pub free: Seq<usize>,
    /// Registered component type tags, in registration order.
    pub tags: Seq<u64>,
    /// For each registered tag, the typed store: slot index to value.
    pub comps: Map<u64, Map<usize, V>>,
}

/// How many entries of a liveness sequence are set.
pub open spec fn count_live(s: Seq<bool>) -> nat
    decreases s.len(),
{
    if s.len() == 0 {
        0
    } else {
        count_live(s.drop_last()) + (if s.last() {
            1nat
        } else {
            0nat
        })
    }
}

/// Whether a mask contains every required tag.
pub open spec fn mask_covers(mask: Set<u64>, required: Seq<u64>) -> bool {
    forall|k: int| 0 <= k < required.len() ==> mask.contains(#[trigger] required[k])
}

impl<V> WorldModel<V> {
    /// The model of a freshly created world.
    pub open spec fn empty() -> WorldModel<V> {
        WorldModel {
            gens: Seq::empty(),
            live: Seq::empty(),
            masks: Seq::empty(),
            free: Seq::empty(),
            tags: Seq::empty(),
            comps: Map::empty(),
        }
    }

    /// Number of slots ever allocated.
    pub open spec fn n_slots(self) -> nat {
        self.gens.len()
    }

    /// The three per-slot sequences agree in length, and the slot count
    /// stays addressable.
    pub open spec fn slots_ok(self) -> bool {
        &&& self.live.len() == self.gens.len()
        &&& self.masks.len() == self.gens.len()
        &&& self.gens.len() <= usize::MAX
    }

    /// The reuse queue holds distinct, in-bounds, dead slots.
    pub open spec fn free_ok(self) -> bool {
        &&& forall|k: int|
            0 <= k < self.free.len() ==> (#[trigger] self.free[k]) < self.gens.len()
                && !self.live[self.free[k] as int]
        &&& forall|k1: int, k2: int|
            0 <= k1 < k2 < self.free.len() ==> self.free[k1] != self.free[k2]
    }

    /// Tags are distinct and are exactly the keys of the component maps.
    pub open spec fn tags_ok(self) -> bool {
        &&& forall|k1: int, k2: int|
            0 <= k1 < k2 < self.tags.len() ==> self.tags[k1] != self.tags[k2]
        &&& self.comps.dom() =~= self.tags.to_set()
    }

    /// Typed stores only hold entries for live slots.
    pub open spec fn comps_ok(self) -> bool {
        forall|t: u64, i: usize|
            self.comps.dom().contains(t) && (#[trigger] self.comps[t].dom().contains(i)) ==> i
                < self.gens.len() && self.live[i as int]
    }

    /// The mask is a faithful index of the typed stores: a slot's mask holds
    /// a tag exactly when that tag's store holds the slot, and dead slots
    /// have an empty mask.
    pub open spec fn masks_ok(self) -> bool {
        &&& forall|i: int|
            0 <= i < self.gens.len() && !self.live[i] ==> (#[trigger] self.masks[i])
                =~= Set::empty()
        &&& forall|i: int, t: u64|
            0 <= i < self.gens.len() && self.live[i] ==> ((#[trigger] self.masks[i].contains(t))
                <==> (self.comps.dom().contains(t) && self.comps[t].dom().contains(i as usize)))
    }

    /// Well-formedness of the whole model.
    pub open spec fn wf(self) -> bool {
        &&& self.slots_ok()
        &&& self.free_ok()
        &&& self.tags_ok()
        &&& self.comps_ok()
        &&& self.masks_ok()
    }

    /// The entity handle currently denoted by slot `i`.
    pub open spec fn entity_at(self, i: int) -> Entity {
        Entity { id: EntityId { index: i as usize, generation: self.gens[i] } }
    }

    /// Whether a handle denotes a live entity: its slot is live and still
    /// carries the generation the handle was issued with.
    pub open spec fn contains_entity(self, e: Entity) -> bool {
        &&& (e.id().index as int) < self.gens.len()
        &&& self.live[e.id().index as int]
        &&& self.gens[e.id().index as int] == e.id().generation
    }

    /// The set of tags currently present for an entity; empty for a handle
    /// that does not denote a live entity.
    pub open spec fn mask_of(self, e: Entity) -> Set<u64> {
        if self.contains_entity(e) {
            self.masks[e.id().index as int]
        } else {
            Set::empty()
        }
    }

    /// Whether the given tag is present for the given entity.
    pub open spec fn has_at(self, e: Entity, tag: u64) -> bool {
        self.mask_of(e).contains(tag)
    }

    /// The component value stored for an entity under a tag, if any.
    pub open spec fn comp_at(self, e: Entity, tag: u64) -> Option<V> {
        if self.contains_entity(e) && self.comps.dom().contains(tag)
            && self.comps[tag].dom().contains(e.id().index) {
            Some(self.comps[tag][e.id().index])
        } else {
            None
        }
    }

    /// Whether a tag has been registered.
    pub open spec fn registered(self, tag: u64) -> bool {
        self.tags.contains(tag)
    }

    /// Number of live entities.
    pub open spec fn entity_count(self) -> nat {
        count_live(self.live)
    }

    /// Transition of `create_entity`: reuse the youngest freed slot, or
    /// allocate a fresh one with generation zero.
    pub open spec fn spec_create(self) -> (WorldModel<V>, Entity) {
        if self.free.len() > 0 {
            let i = self.free.last();
            let e = Entity { id: EntityId { index: i, generation: self.gens[i as int] } };
            (
                WorldModel {
                    live: self.live.update(i as int, true),
                    free: self.free.drop_last(),
                    ..self
                },
                e,
            )
        } else {
            let e = Entity {
                id: EntityId { index: self.gens.len() as usize, generation: 0 },
            };
            (
                WorldModel {
                    gens: self.gens.push(0),
                    live: self.live.push(true),
                    masks: self.masks.push(Set::empty()),
                    ..self
                },
                e,
            )
        }
    }

    /// Transition of `remove_entity`: purge the entity from every typed
    /// store, clear its mask, free its slot and bump the slot's generation
    /// so the handle can never be reissued. A slot whose generation is
    /// exhausted is retired instead of freed.
    pub open spec fn spec_destroy(self, e: Entity) -> (WorldModel<V>, EcsResult<()>) {
        if !self.contains_entity(e) {
            (self, Err(EcsError::EntityNotFound(e)))
        } else {
            let i = e.id().index;
            let g = self.gens[i as int];
            let m = WorldModel {
                gens: if g < u64::MAX {
                    self.gens.update(i as int, (g + 1) as u64)
                } else {
                    self.gens
                },
                live: self.live.update(i as int, false),
                masks: self.masks.update(i as int, Set::empty()),
                free: if g < u64::MAX {
                    self.free.push(i)
                } else {
                    self.free
                },
                tags: self.tags,
                comps: self.comps.map_values(|mm: Map<usize, V>| mm.remove(i)),
            };
            (m, Ok(()))
        }
    }

    /// Transition of `register_component`: idempotently create an empty
    /// typed store for the tag.
    pub open spec fn spec_register(self, tag: u64) -> WorldModel<V> {
        if self.tags.contains(tag) {
            self
        } else {
            WorldModel {
                tags: self.tags.push(tag),
                comps: self.comps.insert(tag, Map::empty()),
                ..self
            }
        }
    }

    /// Transition of `add_component`: auto-register the tag, overwrite any
    /// existing value for (entity, tag), and record the tag in the mask.
    pub open spec fn spec_add(self, e: Entity, tag: u64, value: V) -> (WorldModel<V>, EcsResult<()>) {
        if !self.contains_entity(e) {
            (self, Err(EcsError::EntityNotFound(e)))
        } else {
            let m = self.spec_register(tag);
            let i = e.id().index;
            (
                WorldModel {
                    comps: m.comps.insert(tag, m.comps[tag].insert(i, value)),
                    masks: m.masks.update(i as int, m.masks[i as int].insert(tag)),
                    ..m
                },
                Ok(()),
            )
        }
    }

    /// Transition of `remove_component`: drop the (entity, tag) entry if one
    /// exists, clear the tag from the mask, and return the removed value.
    pub open spec fn spec_remove_component(self, e: Entity, tag: u64) -> (
        WorldModel<V>,
        EcsResult<Option<V>>,
    ) {
        if !self.contains_entity(e) {
            (self, Err(EcsError::EntityNotFound(e)))
        } else if !self.tags.contains(tag) {
            (self, Err(EcsError::ComponentNotRegistered(tag)))
        } else {
            let i = e.id().index;
            let removed = if self.comps[tag].dom().contains(i) {
                Some(self.comps[tag][i])
            } else {
                None
            };
            (
                WorldModel {
                    comps: self.comps.insert(tag, self.comps[tag].remove(i)),
                    masks: self.masks.update(i as int, self.masks[i as int].remove(tag)),
                    ..self
                },
                Ok(removed),
            )
        }
    }

    /// The entities of the first `n` slots whose mask covers `required`,
    /// in slot order.
    pub open spec fn spec_query_up_to(self, required: Seq<u64>, n: int) -> Seq<Entity>
        decreases n,
    {
        if n <= 0 {
            Seq::empty()
        } else {
            self.spec_query_up_to(required, n - 1) + (if self.live[n - 1] && mask_covers(
                self.masks[n - 1],
                required,
            ) {
                seq![self.entity_at(n - 1)]
            } else {
                Seq::empty()
            })
        }
    }

    /// Result of `query_entities`: the live entities whose mask covers
    /// every required tag, in slot order.
    pub open spec fn spec_query(self, required: Seq<u64>) -> Seq<Entity> {
        self.spec_query_up_to(required, self.gens.len() as int)
    }

    /// Result of `entities`: every live entity, in slot order.
    pub open spec fn spec_entities(self) -> Seq<Entity> {
        self.spec_query(Seq::empty())
    }
}

/// The live count never exceeds the slot count.
pub proof fn lemma_count_live_le(s: Seq<bool>)
    ensures
        count_live(s) <= s.len(),
    decreases s.len(),
{
    if s.len() > 0 {
        lemma_count_live_le(s.drop_last());
    }
}

/// Updating one entry changes the live count by the difference of the old
/// and new entry.
pub proof fn lemma_count_live_update(s: Seq<bool>, i: int, v: bool)
    requires
        0 <= i < s.len(),
    ensures
        count_live(s.update(i, v)) + (if s[i] {
            1nat
        } else {
            0nat
        }) == count_live(s) + (if v {
            1nat
        } else {
            0nat
        }),
    decreases s.len(),
{
    let s2 = s.update(i, v);
    if i == s.len() - 1 {
        assert(s2.drop_last() =~= s.drop_last());
    } else {
        assert(s2.drop_last() =~= s.drop_last().update(i, v));
        lemma_count_live_update(s.drop_last(), i, v);
        assert(s2.last() == s.last());
    }
}

/// Appending one entry adds its value to the live count.
pub proof fn lemma_count_live_push(s: Seq<bool>, v: bool)
    ensures
        count_live(s.push(v)) == count_live(s) + (if v {
            1nat
        } else {
            0nat
        }),
{
    assert(s.push(v).drop_last() =~= s);
    assert(s.push(v).last() == v);
}

} // verus!
