use glitch_bridge::config::{retry_after_failure, Database, DatabaseEngine};
use glitch_bridge::decoder::{decode_deposit, RawLog};
use glitch_bridge::settlement::{is_time_to_pay_fee, should_settle, SETTLEMENT_DAY_SECS};
use glitch_bridge::store::{BridgeStore, TxState};

const ALICE: &str = "5GrwvaEF5zXb26Fz9rcQpDWS57CtERHpNehXCPcNoHGKutQY";

#[test]
fn never_settled_means_always_due() {
    assert!(is_time_to_pay_fee(0, None, 30));
    assert!(is_time_to_pay_fee(i64::MIN, None, 255));
}

#[test]
fn due_after_the_configured_days() {
    let last = 1_700_000_000i64;
    let one_day = SETTLEMENT_DAY_SECS;
    assert!(!is_time_to_pay_fee(last, Some(last), 1));
    assert!(!is_time_to_pay_fee(last + one_day - 1, Some(last), 1));
    assert!(is_time_to_pay_fee(last + one_day, Some(last), 1));
    assert!(is_time_to_pay_fee(last + 30 * one_day, Some(last), 30));
    assert!(!is_time_to_pay_fee(last + 30 * one_day - 1, Some(last), 30));
}

#[test]
fn nothing_is_settled_while_the_counter_is_zero() {
    assert!(!should_settle(1_700_100_000, Some(1_700_000_000), 1, 0));
    assert!(should_settle(1_700_100_000, Some(1_700_000_000), 1, 5));
    assert!(!should_settle(1_700_000_001, Some(1_700_000_000), 1, 5));
}

#[test]
fn database_engine_carries_the_configuration() {
    let engine = DatabaseEngine::new(Database {
        host: "db.example".to_string(),
        username: "bridge".to_string(),
        password: "SECRET-REDACTED".to_string(),
        port: 3306,
        database: "relayer".to_string(),
    });
    assert_eq!(engine.host, "db.example");
    assert_eq!(engine.user, "bridge");
    assert_eq!(engine.password, "SECRET-REDACTED");
    assert_eq!(engine.port, 3306);
    assert_eq!(engine.database, "relayer");
}

#[test]
fn connection_retries_are_bounded() {
    assert!(retry_after_failure(1));
    assert!(retry_after_failure(4));
    assert!(!retry_after_failure(5));
}

#[test]
fn deposit_round_trip_ends_processed_and_linked() {
    // a deposit decoded from a synthetic log, inserted, processed, and
    // settled ends processed, with a destination hash and a settlement link
    let mut data = vec![0u8; 160];
    data[31] = 32;
    data[56..64].copy_from_slice(&2_000u64.to_be_bytes());
    let addr = ALICE.as_bytes();
    data[95] = addr.len() as u8;
    data[96..96 + addr.len()].copy_from_slice(addr);
    let log = RawLog {
        transaction_hash: vec![0x01; 32],
        topics: vec![vec![0u8; 32], vec![0x02; 32]],
        data,
    };
    let dep = decode_deposit(&log).unwrap();
    assert_eq!(dep.amount, "2000");
    assert_eq!(dep.to_glitch_address, ALICE);

    let mut store = BridgeStore::new();
    assert!(!store.exists_network_state("scanner", "net", "0xmon"));
    store.update_block_and_insert_txs("scanner", 10, &vec![dep]).unwrap();

    let pending = store.txs_to_process();
    assert_eq!(pending.len(), 1);
    let tx = &pending[0];
    match glitch_bridge::executor::evaluate_tx(tx, 1_000_000) {
        glitch_bridge::executor::TxAssessment::Submit { amount } => {
            let (att, fee) =
                glitch_bridge::executor::calculate_amount_to_transfer_and_business_fee(
                    amount, 0, 2,
                )
                .unwrap();
            assert_eq!((att, fee), (2000, 40));
            store.increment_fee_counter("scanner".to_string(), fee);
            store.update_tx(tx.id, "0xdesthash".to_string(), fee, 2).unwrap();
        }
        other => panic!("unexpected assessment: {:?}", other),
    }

    let counter = store.get_fee_counter("scanner");
    assert_eq!(counter, 40);
    assert!(should_settle(1_700_200_000, store.get_fee_last_time(), 1, counter));
    store.modify_fee_counter(0, "scanner");
    let settlement = store.insert_tx_fee("0xfeehash".to_string(), counter, 1_700_200_000);

    let row = &store.txs[0];
    assert_eq!(row.state, TxState::Processed);
    assert_eq!(row.tx_glitch_hash.as_deref(), Some("0xdesthash"));
    assert_eq!(row.wich_transaction_fee, Some(settlement));
    assert_eq!(store.get_fee_counter("scanner"), 0);
    assert_eq!(store.get_fee_last_time(), Some(1_700_200_000));
}
