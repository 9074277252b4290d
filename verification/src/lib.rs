//! A verified entity-component-system (ECS) data store.
//!
//! The crate provides a [`world::World`]: a store of opaque entity handles
//! with reuse-safe identity, typed component values attached to entities
//! under numeric type tags, and a membership index that mirrors the typed
//! stores. On top of it sit a mask-based query, a [`system::System`] trait
//! for units of per-tick logic, and a [`system::SystemDispatcher`] that runs
//! systems in registration order with fail-fast abort.
//!
//! Every operation is specified as a pure transition on the ghost
//! [`model::WorldModel`], and the laws of the store -- what removal purges,
//! what queries return, how handles are kept from aliasing, how a tick
//! aborts -- are proved in [`laws`], [`system`] and [`systems`].

pub mod component;
pub mod components;
pub mod entity;
pub mod error;
pub mod laws;
pub mod model;
pub mod sim;
pub mod store;
pub mod system;
pub mod systems;
pub mod world;

pub use component::Component;
pub use entity::{Entity, EntityId};
pub use error::{EcsError, EcsResult};
pub use system::{System, SystemDispatcher};
pub use world::World;
