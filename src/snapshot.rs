//! A snapshot: the writes that executing one pending block produced.

use vstd::prelude::*;
use crate::kv::WriteSet;

verus! {

/// The handle that callers use for a pending block during its execution.
pub type SnapshotId = u64;

/// What a snapshot holds.
pub struct SnapshotModel {
    pub id: SnapshotId,
    /// Writes to the authenticated state.
    pub storage: Map<Seq<u8>, Seq<u8>>,
    /// Writes to the auxiliary, non-authenticated state.
    pub accessory: Map<Seq<u8>, Seq<u8>>,
}

/// The writes of one executed block, tagged with the id its block was given.
/// Lookups answer from these writes alone; following the parent chain is the
/// fork manager's work.
#[derive(Debug)]
pub struct Snapshot {
    id: SnapshotId,
    storage: WriteSet,
    accessory: WriteSet,
}

impl View for Snapshot {
    type V = SnapshotModel;

    closed spec fn view(&self) -> SnapshotModel {
        SnapshotModel { id: self.id, storage: self.storage@, accessory: self.accessory@ }
    }
}

impl Snapshot {
    /// A snapshot with no writes yet.
    pub fn new(id: SnapshotId) -> (r: Snapshot)
        ensures
            r@.id == id,
            r@.storage == Map::<Seq<u8>, Seq<u8>>::empty(),
            r@.accessory == Map::<Seq<u8>, Seq<u8>>::empty(),
    {
        Snapshot { id, storage: WriteSet::new(), accessory: WriteSet::new() }
    }

    pub fn get_id(&self) -> (r: SnapshotId)
        ensures
            r == self@.id,
    {
        self.id
    }

    /// Records a write to the authenticated state.
    pub fn set_storage_value(&mut self, key: Vec<u8>, value: Vec<u8>)
        ensures
            final(self)@ == (SnapshotModel {
                storage: old(self)@.storage.insert(key@, value@),
                ..old(self)@
            }),
    {
        self.storage.set(key, value);
    }

    /// Records a write to the auxiliary state.
    pub fn set_accessory_value(&mut self, key: Vec<u8>, value: Vec<u8>)
        ensures
            final(self)@ == (SnapshotModel {
                accessory: old(self)@.accessory.insert(key@, value@),
                ..old(self)@
            }),
    {
        self.accessory.set(key, value);
    }

    /// The value this snapshot wrote to `key` of the authenticated state.
    pub fn get_storage_value(&self, key: &[u8]) -> (r: Option<Vec<u8>>)
        ensures
            match r {
                Some(v) => self@.storage.contains_key(key@) && self@.storage[key@] == v@,
                None => !self@.storage.contains_key(key@),
            },
    {
        self.storage.get(key)
    }

    /// The value this snapshot wrote to `key` of the auxiliary state.
    pub fn get_accessory_value(&self, key: &[u8]) -> (r: Option<Vec<u8>>)
        ensures
            match r {
                Some(v) => self@.accessory.contains_key(key@) && self@.accessory[key@] == v@,
                None => !self@.accessory.contains_key(key@),
            },
    {
        self.accessory.get(key)
    }

    /// The durable write batch: authenticated writes and auxiliary writes.
    pub fn into_batches(self) -> (r: (WriteSet, WriteSet))
        ensures
            r.0@ == self@.storage,
            r.1@ == self@.accessory,
    {
        (self.storage, self.accessory)
    }
}

} // verus!
