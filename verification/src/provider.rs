//! The per-category identifier registry.

use std::collections::HashMap;
use vstd::prelude::*;

verus! {

broadcast use vstd::std_specs::hash::group_hash_axioms;

/// A store of device instances of one category, addressed by small integer
/// handles. Handles are assigned by a counter that only grows, so a removed
/// handle is never reissued.
pub struct Provider<T> {
    common_counter: u8,
    name: String,
    store: HashMap<u8, T>,
}

impl<T> Provider<T> {
    /// The category label fixed at construction.
    pub closed spec fn name_spec(&self) -> Seq<char> {
        self.name@
    }

    /// The handle the next insertion will receive.
    pub closed spec fn counter_spec(&self) -> u8 {
        self.common_counter
    }

    /// The live entries, as a map from handle to instance.
    pub closed spec fn store_spec(&self) -> Map<u8, T> {
        self.store@
    }

    /// Every live handle was issued before the counter reached its current
    /// value; a fresh handle therefore never collides with a live one.
    pub closed spec fn wf(&self) -> bool {
        forall|h: u8| self.store@.contains_key(h) ==> h < self.common_counter
    }

    /// An empty registry for the category called `name`.
    pub fn new(name: String) -> (registry: Self)
        ensures
            registry.wf(),
            registry.name_spec() == name@,
            registry.counter_spec() == 0,
            registry.store_spec() == Map::<u8, T>::empty(),
    {
        Self { common_counter: 0, name, store: HashMap::new() }
    }

    /// The category label.
    pub fn get_name(&self) -> (name: &str)
        ensures
            name@ == self.name_spec(),
    {
        self.name.as_str()
    }

    /// Stores `item` under the next free handle and returns that handle.
    /// Duplicate items are permitted; every insertion gets its own handle.
    pub fn add(&mut self, item: T) -> (handle: u8)
        requires
            old(self).wf(),
            old(self).counter_spec() < 255,
        ensures
            final(self).wf(),
            handle == old(self).counter_spec(),
            !old(self).store_spec().contains_key(handle),
            final(self).store_spec() == old(self).store_spec().insert(handle, item),
            final(self).counter_spec() == old(self).counter_spec() + 1,
            final(self).name_spec() == old(self).name_spec(),
    {
        let id = self.common_counter;
        self.store.insert(id, item);
        self.common_counter += 1;
        id
    }

    /// Looks a handle up; absent if it was never issued or was removed.
    pub fn get(&self, id: &u8) -> (item: Option<&T>)
        ensures
            match item {
                Some(found) => self.store_spec().contains_key(*id) && *found
                    == self.store_spec()[*id],
                None => !self.store_spec().contains_key(*id),
            },
    {
        self.store.get(id)
    }

    /// Drops a handle's entry; removing an absent handle is a no-op.
    pub fn remove(&mut self, id: &u8)
        requires
            old(self).wf(),
        ensures
            final(self).wf(),
            final(self).store_spec() == old(self).store_spec().remove(*id),
            !final(self).store_spec().contains_key(*id),
            final(self).counter_spec() == old(self).counter_spec(),
            final(self).name_spec() == old(self).name_spec(),
    {
        self.store.remove(id);
    }
}

} // verus!
