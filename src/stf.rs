//! Outcomes that the state-transition template reports for transactions and
//! batches.

use vstd::prelude::*;

verus! {

/// What became of one transaction.
#[derive(Debug, Clone, Copy, PartialEq, Eq, Structural)]
pub enum TxEffect {
    Reverted,
    Successful,
}

/// Why a sequencer was slashed.
#[derive(Debug, Clone, Copy, PartialEq, Eq, Structural)]
pub enum SlashingReason {
    InvalidBatchEncoding,
    StatelessVerificationFailed,
    InvalidTransactionEncoding,
}

/// What became of the sequencer that submitted a batch.
#[derive(Debug, Clone, Copy, PartialEq, Eq, Structural)]
pub enum SenderOutcome {
    /// Rewarded with this amount; its deposit can be withdrawn.
    Rewarded(u64),
    /// Loses its deposit and receives no reward.
    Slashed(SlashingReason),
    /// The batch was ignored and the deposit left untouched.
    Ignored,
}

/// The outcome for the sequencer of a sync-data blob: ignored when the
/// pre-blob hook rejects it, slashed when its call does not decode, and
/// otherwise rewarded (with nothing, for now).
pub fn sync_blob_outcome(hook_accepted: bool, call_decoded: bool) -> (r: SenderOutcome)
    ensures
        r == if !hook_accepted {
            SenderOutcome::Ignored
        } else if !call_decoded {
            SenderOutcome::Slashed(SlashingReason::InvalidBatchEncoding)
        } else {
            SenderOutcome::Rewarded(0)
        },
{
    if !hook_accepted {
        SenderOutcome::Ignored
    } else if !call_decoded {
        SenderOutcome::Slashed(SlashingReason::InvalidBatchEncoding)
    } else {
        SenderOutcome::Rewarded(0)
    }
}

} // verus!
