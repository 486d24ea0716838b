//! Execution contexts: who sent a call, and at which height it runs.

use vstd::prelude::*;
use crate::address::Address;

verus! {

/// The context of a call in native execution.
#[derive(Debug, Clone, Copy)]
pub struct DefaultContext {
    pub sender: Address,
    /// The height to report; set by the kernel when the context is made.
    visible_height: u64,
}

impl DefaultContext {
    pub closed spec fn height(&self) -> u64 {
        self.visible_height
    }

    pub closed spec fn caller(&self) -> Seq<u8> {
        self.sender@
    }

    pub fn new(sender: Address, height: u64) -> (r: DefaultContext)
        ensures
            r.caller() == sender@,
            r.height() == height,
    {
        DefaultContext { sender, visible_height: height }
    }

    pub fn sender(&self) -> (r: &Address)
        ensures
            r@ == self.caller(),
    {
        &self.sender
    }

    pub fn slot_height(&self) -> (r: u64)
        ensures
            r == self.height(),
    {
        self.visible_height
    }
}

/// The context of a call in zk execution.
#[derive(Debug, Clone, Copy)]
pub struct ZkDefaultContext {
    pub sender: Address,
    /// The height to report; set by the kernel when the context is made.
    visible_height: u64,
}

impl ZkDefaultContext {
    pub closed spec fn height(&self) -> u64 {
        self.visible_height
    }

    pub closed spec fn caller(&self) -> Seq<u8> {
        self.sender@
    }

    pub fn new(sender: Address, height: u64) -> (r: ZkDefaultContext)
        ensures
            r.caller() == sender@,
            r.height() == height,
    {
        ZkDefaultContext { sender, visible_height: height }
    }

    pub fn sender(&self) -> (r: &Address)
        ensures
            r@ == self.caller(),
    {
        &self.sender
    }

    pub fn slot_height(&self) -> (r: u64)
        ensures
            r == self.height(),
    {
        self.visible_height
    }
}

} // verus!
