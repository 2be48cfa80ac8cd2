//! The registry of GPU-backed resources that the states share: at most one
//! resource of each kind, looked up by the tag of its kind.

use std::collections::HashMap;
use vstd::prelude::*;

verus! {

broadcast use vstd::std_specs::hash::group_hash_axioms;

/// The tag of a kind of resource.
pub type ResourceKind = u32;

/// A store with at most one resource of each kind. A state fetches what it
/// needs at the moment of use, and builds and inserts what is absent. The
/// driver empties the store whenever the GPU surface comes or goes, so
/// that nothing in it outlives the device that made it.
pub struct ResourceRegistry<R> {
    pub slots: HashMap<ResourceKind, R>,
}

impl<R> View for ResourceRegistry<R> {
    type V = Map<ResourceKind, R>;

    open spec fn view(&self) -> Map<ResourceKind, R> {
        self.slots@
    }
}

impl<R> ResourceRegistry<R> {
    /// A registry that holds nothing.
    pub fn new() -> (registry: ResourceRegistry<R>)
        ensures
            registry@ == Map::<ResourceKind, R>::empty(),
    {
        ResourceRegistry { slots: HashMap::new() }
    }

    /// Stores `resource` under `kind`. Returns the resource that it
    /// replaces, if there was one.
    pub fn insert(&mut self, kind: ResourceKind, resource: R) -> (replaced: Option<R>)
        ensures
            final(self)@ == old(self)@.insert(kind, resource),
            replaced == if old(self)@.contains_key(kind) {
                Some(old(self)@[kind])
            } else {
                None
            },
    {
        self.slots.insert(kind, resource)
    }

    /// Whether a resource of this kind is stored.
    pub fn has_value(&self, kind: ResourceKind) -> (present: bool)
        ensures
            present == self@.contains_key(kind),
    {
        self.slots.contains_key(&kind)
    }

    /// The resource of this kind, if one is stored.
    pub fn try_fetch(&self, kind: ResourceKind) -> (found: Option<&R>)
        ensures
            found == if self@.contains_key(kind) {
                Some(&self@[kind])
            } else {
                None
            },
    {
        self.slots.get(&kind)
    }

    /// Takes the resource of this kind out of the registry.
    pub fn remove(&mut self, kind: ResourceKind) -> (removed: Option<R>)
        ensures
            final(self)@ == old(self)@.remove(kind),
            removed == if old(self)@.contains_key(kind) {
                Some(old(self)@[kind])
            } else {
                None
            },
    {
        self.slots.remove(&kind)
    }

    /// Drops every resource.
    pub fn clear(&mut self)
        ensures
            final(self)@ == Map::<ResourceKind, R>::empty(),
    {
        self.slots.clear();
    }
}

} // verus!
