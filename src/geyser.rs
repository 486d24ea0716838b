//! Slot bookkeeping of the account-proof geyser plugin: per-slot
//! accumulators move from "raw" to "processed" once the validator reports the
//! slot as processed.

use vstd::prelude::*;
use std::collections::HashMap;

verus! {

broadcast use vstd::std_specs::hash::group_hash_axioms;

/// `processed` after the entry of `slot`, if `raw` has one, is moved into it.
pub open spec fn moved_into<V>(raw: Map<u64, V>, processed: Map<u64, V>, slot: u64) -> Map<u64, V> {
    if raw.contains_key(slot) {
        processed.insert(slot, raw[slot])
    } else {
        processed
    }
}

/// Moves the entry of `slot` from `raw` to `processed`, replacing what
/// `processed` held for it; does nothing when `raw` has no entry.
pub fn transfer_slot<V>(slot: u64, raw: &mut HashMap<u64, V>, processed: &mut HashMap<u64, V>)
    ensures
        final(raw)@ == old(raw)@.remove(slot),
        final(processed)@ == moved_into(old(raw)@, old(processed)@, slot),
{
    if let Some(entry) = raw.remove(&slot) {
        processed.insert(slot, entry);
    }
}

/// Handles a slot reported as processed: its account hashes and its
/// transaction signature counts both move to the processed accumulators.
pub fn handle_processed_slot<A, T>(
    slot: u64,
    raw_slot_account_accumulator: &mut HashMap<u64, A>,
    processed_slot_account_accumulator: &mut HashMap<u64, A>,
    raw_transaction_accumulator: &mut HashMap<u64, T>,
    processed_transaction_accumulator: &mut HashMap<u64, T>,
)
    ensures
        final(raw_slot_account_accumulator)@ == old(raw_slot_account_accumulator)@.remove(slot),
        final(processed_slot_account_accumulator)@ == moved_into(
            old(raw_slot_account_accumulator)@,
            old(processed_slot_account_accumulator)@,
            slot,
        ),
        final(raw_transaction_accumulator)@ == old(raw_transaction_accumulator)@.remove(slot),
        final(processed_transaction_accumulator)@ == moved_into(
            old(raw_transaction_accumulator)@,
            old(processed_transaction_accumulator)@,
            slot,
        ),
{
    transfer_slot(slot, raw_slot_account_accumulator, processed_slot_account_accumulator);
    transfer_slot(slot, raw_transaction_accumulator, processed_transaction_accumulator);
}

/// Why a confirmed slot could not be taken out of the accumulators.
#[derive(Debug, Clone, Copy, PartialEq, Eq, Structural)]
pub enum SlotError {
    /// No block metadata was received for the slot.
    BlockMissing,
    /// No transaction count was accumulated for the slot.
    TransactionsMissing,
    /// No account hashes were accumulated for the slot.
    AccountHashesMissing,
}

/// Takes what a confirmed slot's bank hash is computed from: its block
/// metadata, its processed transaction count and its processed account
/// hashes. All three are removed together; when one is missing, the first
/// missing one (in that order) is reported and nothing is removed.
pub fn take_confirmed_slot<B, A, T>(
    slot: u64,
    block_accumulator: &mut HashMap<u64, B>,
    processed_slot_account_accumulator: &mut HashMap<u64, A>,
    processed_transaction_accumulator: &mut HashMap<u64, T>,
) -> (r: Result<(B, A, T), SlotError>)
    ensures
        r == if !old(block_accumulator)@.contains_key(slot) {
            Err(SlotError::BlockMissing)
        } else if !old(processed_transaction_accumulator)@.contains_key(slot) {
            Err(SlotError::TransactionsMissing)
        } else if !old(processed_slot_account_accumulator)@.contains_key(slot) {
            Err(SlotError::AccountHashesMissing)
        } else {
            Ok(
                (
                    old(block_accumulator)@[slot],
                    old(processed_slot_account_accumulator)@[slot],
                    old(processed_transaction_accumulator)@[slot],
                ),
            )
        },
        r is Ok ==> final(block_accumulator)@ == old(block_accumulator)@.remove(slot),
        r is Ok ==> final(processed_slot_account_accumulator)@
            == old(processed_slot_account_accumulator)@.remove(slot),
        r is Ok ==> final(processed_transaction_accumulator)@
            == old(processed_transaction_accumulator)@.remove(slot),
        r is Err ==> final(block_accumulator)@ == old(block_accumulator)@,
        r is Err ==> final(processed_slot_account_accumulator)@
            == old(processed_slot_account_accumulator)@,
        r is Err ==> final(processed_transaction_accumulator)@
            == old(processed_transaction_accumulator)@,
{
    if !block_accumulator.contains_key(&slot) {
        return Err(SlotError::BlockMissing);
    }
    if !processed_transaction_accumulator.contains_key(&slot) {
        return Err(SlotError::TransactionsMissing);
    }
    if !processed_slot_account_accumulator.contains_key(&slot) {
        return Err(SlotError::AccountHashesMissing);
    }
    let block = match block_accumulator.remove(&slot) {
        Some(b) => b,
        None => return Err(SlotError::BlockMissing),
    };
    let accounts = match processed_slot_account_accumulator.remove(&slot) {
        Some(a) => a,
        None => return Err(SlotError::AccountHashesMissing),
    };
    let transactions = match processed_transaction_accumulator.remove(&slot) {
        Some(t) => t,
        None => return Err(SlotError::TransactionsMissing),
    };
    Ok((block, accounts, transactions))
}

/// Adds a transaction's signature count to its slot's total.
pub fn add_transaction_signatures(raw_transaction_accumulator: &mut HashMap<u64, u64>, slot: u64, num_sigs: u64)
    requires
        old(raw_transaction_accumulator)@.contains_key(slot)
            ==> old(raw_transaction_accumulator)@[slot] + num_sigs <= u64::MAX,
    ensures
        final(raw_transaction_accumulator)@ == old(raw_transaction_accumulator)@.insert(
            slot,
            (if old(raw_transaction_accumulator)@.contains_key(slot) {
                old(raw_transaction_accumulator)@[slot] + num_sigs
            } else {
                num_sigs as int
            }) as u64,
        ),
{
    let current: u64 = match raw_transaction_accumulator.get(&slot) {
        Some(c) => *c,
        None => 0,
    };
    raw_transaction_accumulator.insert(slot, current + num_sigs);
}

/// Startup flag: the end-of-startup notification has arrived.
pub const STARTUP_END_OF_RECEIVED: u8 = 1;

/// Startup flag: a processed slot has arrived after the end of startup.
pub const STARTUP_PROCESSED_RECEIVED: u8 = 2;

/// Whether notifications are forwarded: only once both startup flags are
/// set, since before that no block can be reconstructed in full.
pub fn startup_complete(status: u8) -> (r: bool)
    ensures
        r == (status == 3),
{
    let both = STARTUP_END_OF_RECEIVED | STARTUP_PROCESSED_RECEIVED;
    assert(both == 3) by (bit_vector)
        requires
            both == 1u8 | 2u8,
    ;
    status == both
}

/// The startup status after the end-of-startup notification.
pub fn status_after_end_of_startup(status: u8) -> (r: u8)
    ensures
        r == status | 1,
{
    status | STARTUP_END_OF_RECEIVED
}

/// The startup status after a slot status update: the first processed slot
/// after the end of startup sets the second flag.
pub fn status_after_slot_update(status: u8, processed: bool) -> (r: u8)
    ensures
        r == if status == 1 && processed {
            3
        } else {
            status
        },
{
    if status == STARTUP_END_OF_RECEIVED && processed {
        let r = status | STARTUP_PROCESSED_RECEIVED;
        assert(r == 3) by (bit_vector)
            requires
                status == 1u8,
                r == status | 2u8,
        ;
        r
    } else {
        status
    }
}

} // verus!
