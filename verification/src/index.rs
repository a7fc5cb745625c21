//! An ordered index from 64-bit ids to record slots. Each index is a B-tree
//! map of `ic_stable_structures` over a memory of its own.

use ic_stable_structures::{StableBTreeMap, VectorMemory};
use vstd::prelude::*;

verus! {

/// An `ic_stable_structures::StableBTreeMap` from `u64` to `u64` over a
/// `VectorMemory` that belongs to this map alone. What it holds is
/// [`slot_entries`].
#[verifier::external_body]
pub struct SlotIndex {
    map: StableBTreeMap<u64, u64, VectorMemory>,
}

/// The entries of the index.
pub uninterp spec fn slot_entries(index: SlotIndex) -> Map<u64, u64>;

impl View for SlotIndex {
    type V = Map<u64, u64>;

    open spec fn view(&self) -> Map<u64, u64> {
        slot_entries(*self)
    }
}

impl SlotIndex {
    /// `StableBTreeMap::new` over `VectorMemory::default()`, a new and empty
    /// memory that nothing else holds: the map starts empty.
    #[verifier::external_body]
    pub(crate) fn new() -> (r: Self)
        ensures
            slot_entries(r) == (Map::<u64, u64>::empty()),
    {
        SlotIndex { map: StableBTreeMap::new(VectorMemory::default()) }
    }

    /// `StableBTreeMap::get`: the value stored under `key`, if there is one.
    #[verifier::external_body]
    pub(crate) fn get(&self, key: u64) -> (r: Option<u64>)
        ensures
            r == if slot_entries(*self).contains_key(key) {
                Some(slot_entries(*self)[key])
            } else {
                None
            },
    {
        self.map.get(&key)
    }

    /// `StableBTreeMap::contains_key`.
    #[verifier::external_body]
    pub(crate) fn contains_key(&self, key: u64) -> (r: bool)
        ensures
            r == slot_entries(*self).contains_key(key),
    {
        self.map.contains_key(&key)
    }

    /// `StableBTreeMap::insert`: stores `value` under `key`, replacing what
    /// was there, and returns the value that was there.
    #[verifier::external_body]
    pub(crate) fn insert(&mut self, key: u64, value: u64) -> (r: Option<u64>)
        ensures
            slot_entries(*final(self)) == slot_entries(*old(self)).insert(key, value),
            r == if slot_entries(*old(self)).contains_key(key) {
                Some(slot_entries(*old(self))[key])
            } else {
                None
            },
    {
        self.map.insert(key, value)
    }
}

} // verus!
