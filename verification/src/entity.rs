//! Entity handles.
//!
//! An entity is an opaque handle identifying one live record in a
//! [`World`](crate::world::World). A handle pairs a slot index with the
//! generation the slot had when the handle was issued; the world bumps a
//! slot's generation whenever the slot is freed, so a stale handle can never
//! compare equal to a handle issued after the slot was reused.

use vstd::prelude::*;

verus! {

/// The raw identity of an entity: a slot index plus the generation of that
/// slot at the time the entity was created.
#[derive(Debug, Clone, Copy, PartialEq, Eq, Hash, Structural)]
pub struct EntityId {
    /// Index of the slot in the world's slot table.
    pub index: usize,
    /// Generation the slot had when this id was issued.
    pub generation: u64,
}

/// An opaque handle to one entity. Entities carry no data of their own;
/// all entity state lives in the world.
#[derive(Debug, Clone, Copy, PartialEq, Eq, Hash, Structural)]
pub struct Entity {
    /// The raw identity of the entity.
    pub id: EntityId,
}

impl Entity {
    /// Spec view of the raw id.
    pub open spec fn spec_id(&self) -> EntityId {
        self.id
    }

    /// Wrap a raw id in an entity handle.
    pub fn new(id: EntityId) -> (e: Entity)
        ensures
            e.id() == id,
    {
        Entity { id }
    }

    /// The raw id inside this handle.
    #[verifier::when_used_as_spec(spec_id)]
    pub fn id(&self) -> (id: EntityId)
        ensures
            id == self.spec_id(),
    {
        self.id
    }
}

impl vstd::std_specs::convert::FromSpecImpl<EntityId> for Entity {
    open spec fn obeys_from_spec() -> bool {
        true
    }

    open spec fn from_spec(id: EntityId) -> Entity {
        Entity { id }
    }
}

impl From<EntityId> for Entity {
    fn from(id: EntityId) -> (e: Entity) {
        Entity::new(id)
    }
}

impl vstd::std_specs::convert::FromSpecImpl<Entity> for EntityId {
    open spec fn obeys_from_spec() -> bool {
        true
    }

    open spec fn from_spec(entity: Entity) -> EntityId {
        entity.spec_id()
    }
}

impl From<Entity> for EntityId {
    fn from(entity: Entity) -> (id: EntityId) {
        entity.id
    }
}

} // verus!
