//! Typed component storage.
//!
//! A [`TypedComponentStorage`] maps entity slot indices to component values
//! of one type. It is owned exclusively by the world's component store and
//! viewed as a ghost `Map<usize, V>`.

use vstd::prelude::*;
use std::collections::HashMap;

verus! {

broadcast use vstd::std_specs::hash::group_hash_axioms;

/// A mapping from entity slot index to a single component value.
pub struct TypedComponentStorage<V> {
    components: HashMap<usize, V>,
}

impl<V> View for TypedComponentStorage<V> {
    type V = Map<usize, V>;

    closed spec fn view(&self) -> Map<usize, V> {
        self.components@
    }
}

impl<V> TypedComponentStorage<V> {
    /// Create an empty storage.
    pub fn new() -> (s: TypedComponentStorage<V>)
        ensures
            s@ == Map::<usize, V>::empty(),
    {
        TypedComponentStorage { components: HashMap::new() }
    }

    /// Insert a value for an entity slot, overwriting any existing one.
    pub fn insert(&mut self, entity: usize, component: V)
        ensures
            final(self)@ == old(self)@.insert(entity, component),
    {
        self.components.insert(entity, component);
    }

    /// The value stored for an entity slot, if any.
    pub fn get(&self, entity: usize) -> (r: Option<&V>)
        ensures
            match r {
                Some(v) => self@.contains_key(entity) && *v == self@[entity],
                None => !self@.contains_key(entity),
            },
    {
        self.components.get(&entity)
    }

    /// A mutable reference to the value stored for an entity slot, if any.
    /// The storage afterwards holds whatever the caller leaves in the
    /// reference.
    pub fn get_mut(&mut self, entity: usize) -> (r: Option<&mut V>)
        ensures
            match r {
                Some(v) => old(self)@.contains_key(entity) && *v == old(self)@[entity]
                    && final(self)@ == old(self)@.insert(entity, *final(v)),
                None => !old(self)@.contains_key(entity) && final(self)@ == old(self)@,
            },
    {
        let ghost m0 = self.components@;
        match self.components.entry(entity) {
            std::collections::hash_map::Entry::Occupied(oe) => {
                let v = oe.into_mut();
                Some(v)
            },
            std::collections::hash_map::Entry::Vacant(_) => {
                proof {
                    assert(m0.remove(entity) =~= m0);
                }
                None
            },
        }
    }

    /// Remove and return the value stored for an entity slot, if any.
    pub fn remove(&mut self, entity: usize) -> (r: Option<V>)
        ensures
            final(self)@ == old(self)@.remove(entity),
            match r {
                Some(v) => old(self)@.contains_key(entity) && v == old(self)@[entity],
                None => !old(self)@.contains_key(entity),
            },
    {
        self.components.remove(&entity)
    }
}

} // verus!
