//! The store of expected tags, as a capability that a host can supply in
//! a form of its own, and one backed by a hash map.

use std::collections::HashMap;
use vstd::prelude::*;

verus! {

broadcast use vstd::std_specs::hash::group_hash_axioms;

/// A finite map from keys to values. What it holds is a mathematical
/// map, so it holds at most one value for a key.
pub trait VulCANStore {
    type K;

    type V;

    /// What the store holds.
    spec fn contents(&self) -> Map<Self::K, Self::V>;

    /// The value stored for a key, if there is one.
    fn get(&self, k: &Self::K) -> (v: Option<&Self::V>)
        ensures
            self.contents().contains_key(*k) ==> v == Some(&self.contents()[*k]),
            !self.contents().contains_key(*k) ==> v is None,
    ;

    /// Stores a value for a key, in place of the one that was there, and
    /// returns that one.
    fn insert(&mut self, k: &Self::K, v: Self::V) -> (previous: Option<Self::V>)
        ensures
            final(self).contents() == old(self).contents().insert(*k, v),
            old(self).contents().contains_key(*k) ==> previous == Some(old(self).contents()[*k]),
            !old(self).contents().contains_key(*k) ==> previous is None,
    ;

    /// Removes the value stored for a key and returns it.
    fn remove(&mut self, k: &Self::K) -> (previous: Option<Self::V>)
        ensures
            final(self).contents() == old(self).contents().remove(*k),
            old(self).contents().contains_key(*k) ==> previous == Some(old(self).contents()[*k]),
            !old(self).contents().contains_key(*k) ==> previous is None,
    ;

    /// Whether a value is stored for a key.
    fn contains_key(&self, k: &Self::K) -> (found: bool)
        ensures
            found == self.contents().contains_key(*k),
    ;

    /// The number of keys for which a value is stored.
    fn len(&self) -> (n: usize)
        ensures
            self.contents().dom().finite(),
            n == self.contents().len(),
    ;
}

/// A store of expected tags: from connection ids to tags of eight bytes.
pub trait LeiAStore: VulCANStore<K = u16, V = [u8; 8]> {

}

impl<T> LeiAStore for T where T: VulCANStore<K = u16, V = [u8; 8]> {

}

/// A store of expected tags in a hash map.
pub struct ExpectedStore(HashMap<u16, [u8; 8]>);

impl ExpectedStore {
    /// The empty store.
    pub fn new() -> (store: Self)
        ensures
            store.contents() == Map::<u16, [u8; 8]>::empty(),
    {
        ExpectedStore(HashMap::new())
    }
}

impl VulCANStore for ExpectedStore {
    type K = u16;

    type V = [u8; 8];

    closed spec fn contents(&self) -> Map<u16, [u8; 8]> {
        self.0@
    }

    fn get(&self, k: &u16) -> (v: Option<&[u8; 8]>) {
        self.0.get(k)
    }

    fn insert(&mut self, k: &u16, v: [u8; 8]) -> (previous: Option<[u8; 8]>) {
        self.0.insert(*k, v)
    }

    fn remove(&mut self, k: &u16) -> (previous: Option<[u8; 8]>) {
        self.0.remove(k)
    }

    fn contains_key(&self, k: &u16) -> (found: bool) {
        self.0.contains_key(k)
    }

    fn len(&self) -> (n: usize) {
        self.0.len()
    }
}

} // verus!
