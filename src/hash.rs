//! Block identifiers of the data-availability layer.

use vstd::prelude::*;

verus! {

/// The hash of a data-availability block.
#[derive(Debug, Clone, Copy)]
pub struct SlotHash(pub [u8; 32]);

impl View for SlotHash {
    type V = Seq<u8>;

    open spec fn view(&self) -> Seq<u8> {
        self.0@
    }
}

impl SlotHash {
    /// Whether two hashes hold the same bytes.
    pub fn same(&self, other: &SlotHash) -> (r: bool)
        ensures
            r == (self@ == other@),
    {
        let mut i: usize = 0;
        while i < 32
            invariant
                i <= 32,
                self@.len() == 32,
                other@.len() == 32,
                forall|k: int| 0 <= k < i ==> self@[k] == other@[k],
            decreases 32 - i,
        {
            if self.0[i] != other.0[i] {
                return false;
            }
            i = i + 1;
        }
        assert(self@ =~= other@);
        true
    }
}

/// The header of a data-availability block: its own hash and its parent's.
#[derive(Debug, Clone, Copy)]
pub struct BlockHeader {
    pub hash: SlotHash,
    pub prev_hash: SlotHash,
}

impl BlockHeader {
    pub fn new(hash: SlotHash, prev_hash: SlotHash) -> (r: BlockHeader)
        ensures
            r.hash == hash,
            r.prev_hash == prev_hash,
    {
        BlockHeader { hash, prev_hash }
    }

    pub fn hash(&self) -> (r: SlotHash)
        ensures
            r == self.hash,
    {
        self.hash
    }

    pub fn prev_hash(&self) -> (r: SlotHash)
        ensures
            r == self.prev_hash,
    {
        self.prev_hash
    }
}

} // verus!
