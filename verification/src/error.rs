//! Error taxonomy of the store.

use vstd::prelude::*;
use crate::entity::Entity;

verus! {

/// Every failure a world or dispatcher operation can report.
#[derive(Debug, Clone, PartialEq)]
pub enum EcsError {
    /// An entity-targeted mutating operation was handed a handle that does
    /// not currently denote a live entity.
    EntityNotFound(Entity),
    /// An operation that needs an already-registered component type found
    /// none under the given tag.
    ComponentNotRegistered(u64),
    /// An opaque, system-supplied failure from a system hook.
    SystemError(String),
}

/// Result alias used by every fallible operation of the store.
pub type EcsResult<T> = Result<T, EcsError>;

} // verus!
