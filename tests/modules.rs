use std::collections::HashMap;

use sov_fork_manager::address::{Address, DefaultPublicKey};
use sov_fork_manager::counter::{CounterModule, CounterModuleConfig, Response as CountResponse};
use sov_fork_manager::geyser::{handle_processed_slot, transfer_slot};
use sov_fork_manager::order::{CallMessage, OrderError, OrderModule, OrderModuleConfig, Response, ORDER_ID};
use sov_fork_manager::stf::{SenderOutcome, SlashingReason, TxEffect};

fn market_order() -> CallMessage {
    CallMessage::NewMarketOrder {
        order_asset: String::from("USDC"),
        price_asset: String::from("ETH"),
        side: 2,
        qty: 1,
        ts: 1702012020,
    }
}

#[test]
fn test_submit_order() {
    let admin = Address([1; 32]);
    let config = OrderModuleConfig { admin };
    let mut module = OrderModule::new(Address([9; 32]));
    module.init_module(&config);

    module.call(market_order(), &admin).unwrap();

    let query_response = module.query_order(ORDER_ID).unwrap();
    let call_msg_expected = CallMessage::NewMarketOrder {
        order_asset: String::from("USDC"),
        price_asset: String::from("ETH"),
        side: 2,
        qty: 1,
        ts: 1702012020,
    };
    assert_eq!(Response { order: call_msg_expected }, query_response);
}

#[test]
fn order_from_non_admin_is_refused() {
    let mut module = OrderModule::new(Address([9; 32]));
    assert_eq!(module.call(market_order(), &Address([1; 32])), Err(OrderError::MissingAdmin));
    module.init_module(&OrderModuleConfig { admin: Address([2; 32]) });
    assert_eq!(module.call(market_order(), &Address([1; 32])), Err(OrderError::WrongSender));
    assert!(module.query_order(ORDER_ID).is_none());
}

#[test]
fn counter_query_reports_unset_count() {
    let mut module = CounterModule::new();
    module.init_module(&CounterModuleConfig { admin: Address([1; 32]) });
    assert_eq!(module.query_count(), CountResponse { count: None });
}

#[test]
fn address_is_sha256_of_public_key() {
    let key = DefaultPublicKey { pub_key: [0; 32] };
    let expected: [u8; 32] = [
        0x66, 0x68, 0x7a, 0xad, 0xf8, 0x62, 0xbd, 0x77, 0x6c, 0x8f, 0xc1, 0x8b, 0x8e, 0x9f, 0x8e,
        0x20, 0x08, 0x97, 0x14, 0x85, 0x6e, 0xe2, 0x33, 0xb3, 0x90, 0x2a, 0x59, 0x1d, 0x0d, 0x5f,
        0x29, 0x25,
    ];
    assert_eq!(key.to_address().0, expected);
    assert!(!key.to_address().same(&Address([0; 32])));
}

#[test]
fn transfer_slot_moves_only_that_slot() {
    let mut raw: HashMap<u64, u64> = HashMap::new();
    let mut processed: HashMap<u64, u64> = HashMap::new();
    raw.insert(5, 50);
    raw.insert(6, 60);
    processed.insert(5, 1);
    transfer_slot(5, &mut raw, &mut processed);
    assert_eq!(raw.get(&5), None);
    assert_eq!(raw.get(&6), Some(&60));
    assert_eq!(processed.get(&5), Some(&50));
    transfer_slot(7, &mut raw, &mut processed);
    assert_eq!(raw.len(), 1);
    assert_eq!(processed.len(), 1);
}

#[test]
fn processed_slot_moves_accounts_and_transactions() {
    let mut raw_acc: HashMap<u64, Vec<u8>> = HashMap::new();
    let mut done_acc: HashMap<u64, Vec<u8>> = HashMap::new();
    let mut raw_tx: HashMap<u64, u64> = HashMap::new();
    let mut done_tx: HashMap<u64, u64> = HashMap::new();
    raw_acc.insert(3, vec![1, 2]);
    raw_tx.insert(3, 4);
    raw_tx.insert(4, 1);
    handle_processed_slot(3, &mut raw_acc, &mut done_acc, &mut raw_tx, &mut done_tx);
    assert!(raw_acc.is_empty());
    assert_eq!(done_acc.get(&3), Some(&vec![1, 2]));
    assert_eq!(done_tx.get(&3), Some(&4));
    assert_eq!(raw_tx.get(&4), Some(&1));
}

#[test]
fn outcomes_compare_by_value() {
    assert_eq!(SenderOutcome::Rewarded(0), SenderOutcome::Rewarded(0));
    assert_ne!(
        SenderOutcome::Slashed(SlashingReason::InvalidBatchEncoding),
        SenderOutcome::Slashed(SlashingReason::InvalidTransactionEncoding)
    );
    assert_ne!(TxEffect::Reverted, TxEffect::Successful);
}

use sov_fork_manager::context::{DefaultContext, ZkDefaultContext};
use sov_fork_manager::geyser::{
    add_transaction_signatures, startup_complete, status_after_end_of_startup,
    status_after_slot_update, take_confirmed_slot, SlotError,
};
use sov_fork_manager::stf::sync_blob_outcome;

#[test]
fn confirmed_slot_needs_all_three_accumulators() {
    let mut blocks: HashMap<u64, &str> = HashMap::new();
    let mut accounts: HashMap<u64, u8> = HashMap::new();
    let mut txs: HashMap<u64, u64> = HashMap::new();
    assert_eq!(take_confirmed_slot(1, &mut blocks, &mut accounts, &mut txs), Err(SlotError::BlockMissing));
    blocks.insert(1, "block");
    assert_eq!(take_confirmed_slot(1, &mut blocks, &mut accounts, &mut txs), Err(SlotError::TransactionsMissing));
    txs.insert(1, 12);
    assert_eq!(take_confirmed_slot(1, &mut blocks, &mut accounts, &mut txs), Err(SlotError::AccountHashesMissing));
    assert_eq!(blocks.len(), 1);
    assert_eq!(txs.len(), 1);
    accounts.insert(1, 7);
    assert_eq!(take_confirmed_slot(1, &mut blocks, &mut accounts, &mut txs), Ok(("block", 7, 12)));
    assert!(blocks.is_empty() && accounts.is_empty() && txs.is_empty());
}

#[test]
fn transaction_signatures_accumulate_per_slot() {
    let mut txs: HashMap<u64, u64> = HashMap::new();
    add_transaction_signatures(&mut txs, 4, 2);
    add_transaction_signatures(&mut txs, 4, 3);
    add_transaction_signatures(&mut txs, 5, 1);
    assert_eq!(txs.get(&4), Some(&5));
    assert_eq!(txs.get(&5), Some(&1));
}

#[test]
fn startup_completes_after_end_then_processed() {
    let s = 0u8;
    assert!(!startup_complete(s));
    assert_eq!(status_after_slot_update(s, true), 0);
    let s = status_after_end_of_startup(s);
    assert_eq!(s, 1);
    assert_eq!(status_after_slot_update(s, false), 1);
    let s = status_after_slot_update(s, true);
    assert_eq!(s, 3);
    assert!(startup_complete(s));
    assert_eq!(status_after_end_of_startup(s), 3);
}

#[test]
fn sync_blob_outcomes() {
    assert_eq!(sync_blob_outcome(false, true), SenderOutcome::Ignored);
    assert_eq!(
        sync_blob_outcome(true, false),
        SenderOutcome::Slashed(SlashingReason::InvalidBatchEncoding)
    );
    assert_eq!(sync_blob_outcome(true, true), SenderOutcome::Rewarded(0));
}

#[test]
fn contexts_report_sender_and_height() {
    let c = DefaultContext::new(Address([3; 32]), 17);
    assert_eq!(c.sender().0, [3; 32]);
    assert_eq!(c.slot_height(), 17);
    let z = ZkDefaultContext::new(Address([4; 32]), 18);
    assert_eq!(z.sender().0, [4; 32]);
    assert_eq!(z.slot_height(), 18);
}
