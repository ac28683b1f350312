use glitch_bridge::decoder::DecodedDeposit;
use glitch_bridge::store::{BridgeStore, StoreError, TxState};

fn deposit(amount: &str, addr: &str) -> DecodedDeposit {
    DecodedDeposit {
        tx_eth_hash: "0xaa".to_string(),
        from_eth_address: "0xbb".to_string(),
        amount: amount.to_string(),
        to_glitch_address: addr.to_string(),
    }
}

fn store_with_scanner() -> BridgeStore {
    let mut store = BridgeStore::new();
    let existed = store.exists_network_state("scanner", "mainnet", "0xmonitor");
    assert!(!existed);
    store
}

#[test]
fn registration_is_idempotent() {
    let mut store = BridgeStore::new();
    assert!(!store.exists_network_state("scanner", "mainnet", "0xmonitor"));
    assert!(store.exists_network_state("scanner", "mainnet", "0xmonitor"));
    assert_eq!(store.scanners.len(), 1);
    assert_eq!(store.get_last_block("scanner"), 0);
    assert_eq!(store.get_fee_counter("scanner"), 0);
}

#[test]
fn records_block_and_deposits_together() {
    let mut store = store_with_scanner();
    let logs = vec![deposit("500", "addr-a"), deposit("10", "addr-b")];
    store.update_block_and_insert_txs("scanner", 42, &logs).unwrap();
    assert_eq!(store.get_last_block("scanner"), 42);
    assert_eq!(store.txs.len(), 2);
    assert_eq!(store.txs[0].amount, "500");
    assert_eq!(store.txs[0].state, TxState::ToProcess);
    assert_eq!(store.txs[0].tx_glitch_hash, None);
    assert_eq!(store.txs[1].id, store.txs[0].id + 1);
}

#[test]
fn empty_batch_still_advances_block() {
    let mut store = store_with_scanner();
    store.update_block_and_insert_txs("scanner", 7, &vec![]).unwrap();
    assert_eq!(store.get_last_block("scanner"), 7);
    assert_eq!(store.txs.len(), 0);
}

#[test]
fn failed_insert_leaves_block_unchanged() {
    // fault injection: the second deposit carries a malformed amount
    let mut store = store_with_scanner();
    store.update_block_and_insert_txs("scanner", 5, &vec![deposit("1", "a")]).unwrap();
    let bad = vec![deposit("2", "b"), deposit("00", "c")];
    let r = store.update_block_and_insert_txs("scanner", 9, &bad);
    assert_eq!(r, Err(StoreError::InvalidDeposit));
    assert_eq!(store.get_last_block("scanner"), 5);
    assert_eq!(store.txs.len(), 1);
}

#[test]
fn rejects_block_regression() {
    let mut store = store_with_scanner();
    store.update_block_and_insert_txs("scanner", 5, &vec![]).unwrap();
    let r = store.update_block_and_insert_txs("scanner", 4, &vec![deposit("1", "a")]);
    assert_eq!(r, Err(StoreError::BlockRegression));
    assert_eq!(store.get_last_block("scanner"), 5);
    assert_eq!(store.txs.len(), 0);
}

#[test]
fn rejects_unknown_scanner() {
    let mut store = BridgeStore::new();
    let r = store.update_block_and_insert_txs("nobody", 1, &vec![]);
    assert_eq!(r, Err(StoreError::UnknownScanner));
}

#[test]
fn pending_ordered_by_ascending_amount() {
    let mut store = store_with_scanner();
    let logs = vec![deposit("500", "a"), deposit("10", "b"), deposit("300", "c")];
    store.update_block_and_insert_txs("scanner", 1, &logs).unwrap();
    let pending = store.txs_to_process();
    let amounts: Vec<&str> = pending.iter().map(|t| t.amount.as_str()).collect();
    assert_eq!(amounts, vec!["10", "300", "500"]);
}

#[test]
fn pending_order_is_numeric_not_textual() {
    let mut store = store_with_scanner();
    let logs = vec![deposit("9", "a"), deposit("100", "b"), deposit("25", "c")];
    store.update_block_and_insert_txs("scanner", 1, &logs).unwrap();
    let pending = store.txs_to_process();
    let amounts: Vec<&str> = pending.iter().map(|t| t.amount.as_str()).collect();
    assert_eq!(amounts, vec!["9", "25", "100"]);
}

#[test]
fn errored_request_is_no_longer_pending() {
    let mut store = store_with_scanner();
    store.update_block_and_insert_txs("scanner", 1, &vec![deposit("5", "a")]).unwrap();
    let id = store.txs[0].id;
    store.update_tx_with_error(id, "Error with address: bad".to_string());
    assert_eq!(store.txs[0].error.as_deref(), Some("Error with address: bad"));
    assert_eq!(store.txs[0].state, TxState::ToProcess);
    assert!(store.txs_to_process().is_empty());
}

#[test]
fn processing_is_terminal_and_checked() {
    let mut store = store_with_scanner();
    store.update_block_and_insert_txs("scanner", 1, &vec![deposit("100", "a")]).unwrap();
    let id = store.txs[0].id;
    assert_eq!(
        store.update_tx(id, "0xhash".to_string(), 101, 2),
        Err(StoreError::FeeExceedsAmount)
    );
    store.update_tx(id, "0xhash".to_string(), 2, 2).unwrap();
    assert_eq!(store.txs[0].state, TxState::Processed);
    assert_eq!(store.txs[0].tx_glitch_hash.as_deref(), Some("0xhash"));
    assert_eq!(store.txs[0].business_fee_amount, 2);
    assert_eq!(store.txs[0].business_fee_percentage, 2);
    assert_eq!(
        store.update_tx(id, "0xother".to_string(), 1, 2),
        Err(StoreError::AlreadyProcessed)
    );
    assert_eq!(store.update_tx(id + 1, "0xhash".to_string(), 1, 2), Err(StoreError::UnknownTx));
}

#[test]
fn fee_counter_updates() {
    let mut store = store_with_scanner();
    store.increment_fee_counter("scanner".to_string(), 30);
    store.increment_fee_counter("scanner".to_string(), 12);
    assert_eq!(store.get_fee_counter("scanner"), 42);
    store.modify_fee_counter(0, "scanner");
    assert_eq!(store.get_fee_counter("scanner"), 0);
}

#[test]
fn settlement_links_processed_unlinked_requests() {
    let mut store = store_with_scanner();
    let logs = vec![deposit("10", "a"), deposit("20", "b"), deposit("30", "c")];
    store.update_block_and_insert_txs("scanner", 1, &logs).unwrap();
    let id0 = store.txs[0].id;
    let id1 = store.txs[1].id;
    store.update_tx(id0, "0xh0".to_string(), 1, 10).unwrap();
    store.update_tx(id1, "0xh1".to_string(), 2, 10).unwrap();
    let settlement = store.insert_tx_fee("0xfee".to_string(), 3, 1700000000);
    assert_eq!(store.txs[0].wich_transaction_fee, Some(settlement));
    assert_eq!(store.txs[1].wich_transaction_fee, Some(settlement));
    assert_eq!(store.txs[2].wich_transaction_fee, None);
    // a request processed after the settlement stays unlinked until the next
    let id2 = store.txs[2].id;
    store.update_tx(id2, "0xh2".to_string(), 3, 10).unwrap();
    assert_eq!(store.txs[2].wich_transaction_fee, None);
    let second = store.insert_tx_fee("0xfee2".to_string(), 3, 1700010000);
    assert_eq!(store.txs[0].wich_transaction_fee, Some(settlement));
    assert_eq!(store.txs[2].wich_transaction_fee, Some(second));
}

#[test]
fn last_fee_time_is_the_most_recent() {
    let mut store = store_with_scanner();
    assert_eq!(store.get_fee_last_time(), None);
    store.insert_tx_fee("0xa".to_string(), 1, 100);
    store.insert_tx_fee("0xb".to_string(), 2, 300);
    store.insert_tx_fee("0xc".to_string(), 3, 200);
    assert_eq!(store.get_fee_last_time(), Some(300));
}

#[test]
fn insert_txs_without_block_update() {
    let mut store = store_with_scanner();
    store.update_block_and_insert_txs("scanner", 3, &vec![]).unwrap();
    store.insert_txs(&vec![deposit("7", "a")]).unwrap();
    assert_eq!(store.get_last_block("scanner"), 3);
    assert_eq!(store.txs.len(), 1);
    assert_eq!(store.insert_txs(&vec![deposit("x", "a")]), Err(StoreError::InvalidDeposit));
    assert_eq!(store.txs.len(), 1);
}
