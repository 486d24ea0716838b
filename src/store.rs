//! The persistent store that finalized snapshots are committed to.

use vstd::prelude::*;
use crate::kv::WriteSet;
use crate::snapshot::Snapshot;

verus! {

/// What the store holds: the committed version counter and the committed
/// values of the authenticated and the auxiliary state.
pub struct StoreModel {
    pub version: u64,
    pub storage: Map<Seq<u8>, Seq<u8>>,
    pub accessory: Map<Seq<u8>, Seq<u8>>,
}

/// Committed state, versioned by the number of snapshots committed to it.
#[derive(Debug)]
pub struct StateStore {
    version: u64,
    storage: WriteSet,
    accessory: WriteSet,
}

impl View for StateStore {
    type V = StoreModel;

    closed spec fn view(&self) -> StoreModel {
        StoreModel { version: self.version, storage: self.storage@, accessory: self.accessory@ }
    }
}

impl StateStore {
    /// An empty store at version zero.
    pub fn new() -> (r: StateStore)
        ensures
            r@.version == 0,
            r@.storage == Map::<Seq<u8>, Seq<u8>>::empty(),
            r@.accessory == Map::<Seq<u8>, Seq<u8>>::empty(),
    {
        StateStore { version: 0, storage: WriteSet::new(), accessory: WriteSet::new() }
    }

    pub fn version(&self) -> (r: u64)
        ensures
            r == self@.version,
    {
        self.version
    }

    /// The committed value of `key` in the authenticated state.
    pub fn get_storage_value(&self, key: &[u8]) -> (r: Option<Vec<u8>>)
        ensures
            match r {
                Some(v) => self@.storage.contains_key(key@) && self@.storage[key@] == v@,
                None => !self@.storage.contains_key(key@),
            },
    {
        self.storage.get(key)
    }

    /// The committed value of `key` in the auxiliary state.
    pub fn get_accessory_value(&self, key: &[u8]) -> (r: Option<Vec<u8>>)
        ensures
            match r {
                Some(v) => self@.accessory.contains_key(key@) && self@.accessory[key@] == v@,
                None => !self@.accessory.contains_key(key@),
            },
    {
        self.accessory.get(key)
    }

    /// Commits a snapshot's writes, both batches in one step, and advances
    /// the version by one.
    pub fn commit(&mut self, snapshot: Snapshot)
        requires
            old(self)@.version < u64::MAX,
        ensures
            final(self)@ == (StoreModel {
                version: (old(self)@.version + 1) as u64,
                storage: old(self)@.storage.union_prefer_right(snapshot@.storage),
                accessory: old(self)@.accessory.union_prefer_right(snapshot@.accessory),
            }),
    {
        let (node_batch, accessory_batch) = snapshot.into_batches();
        self.storage.apply(&node_batch);
        self.accessory.apply(&accessory_batch);
        self.version = self.version + 1;
    }
}

} // verus!
