use glitch_bridge::decoder::DecodedDeposit;
use glitch_bridge::executor::{
    assess_tx, calculate_amount_to_transfer_and_business_fee, evaluate_tx, TxAssessment,
};
use glitch_bridge::numeric::{check_canonical_dec, dec_le, parse_u128};
use glitch_bridge::store::{BridgeStore, TxState, TxToProcess};

const ALICE: &str = "5GrwvaEF5zXb26Fz9rcQpDWS57CtERHpNehXCPcNoHGKutQY";

fn item(amount: &str, addr: &str) -> TxToProcess {
    TxToProcess { id: 1, glitch_address: addr.to_string(), amount: amount.to_string() }
}

#[test]
fn fee_computation_example() {
    // amount 1,000,000 with a network fee of 1,000 and two percent retained
    let (att, fee) = calculate_amount_to_transfer_and_business_fee(1_000_000, 1_000, 2).unwrap();
    assert_eq!(att, 999_000);
    assert_eq!(fee, 19_980);
    assert_eq!(att - fee, 979_020);
}

#[test]
fn fee_never_exceeds_amount() {
    for pct in 0..=100u128 {
        for amount in [0u128, 1, 99, 100, 101, 12345, u128::MAX] {
            let (att, fee) =
                calculate_amount_to_transfer_and_business_fee(amount, 0, pct).unwrap();
            assert_eq!(att, amount);
            assert!(fee <= att);
        }
    }
}

#[test]
fn fee_is_floor_of_percentage() {
    let (att, fee) = calculate_amount_to_transfer_and_business_fee(999, 0, 1).unwrap();
    assert_eq!(att, 999);
    assert_eq!(fee, 9);
    let (_, fee0) = calculate_amount_to_transfer_and_business_fee(99, 0, 1).unwrap();
    assert_eq!(fee0, 0);
    let (_, fee100) = calculate_amount_to_transfer_and_business_fee(77, 0, 100).unwrap();
    assert_eq!(fee100, 77);
}

#[test]
fn network_fee_above_amount_yields_nothing() {
    assert_eq!(calculate_amount_to_transfer_and_business_fee(100, 101, 2), None);
    let (att, fee) = calculate_amount_to_transfer_and_business_fee(100, 100, 2).unwrap();
    assert_eq!((att, fee), (0, 0));
}

#[test]
fn balance_gate_halts_before_address_check() {
    // the balance check comes first, even when the address would also be refused
    let t = item("300", "not-an-address");
    assert_eq!(assess_tx(&t, false, 200), TxAssessment::InsufficientBalance);
    assert_eq!(assess_tx(&t, true, 200), TxAssessment::InsufficientBalance);
    assert_eq!(assess_tx(&t, true, 300), TxAssessment::Submit { amount: 300 });
}

#[test]
fn invalid_amount_is_a_request_error() {
    let t = item("12x", "whatever");
    assert_eq!(assess_tx(&t, true, 1000), TxAssessment::InvalidAmount);
    let t2 = item("", "whatever");
    assert_eq!(assess_tx(&t2, true, 1000), TxAssessment::InvalidAmount);
}

#[test]
fn invalid_address_is_a_request_error() {
    let t = item("10", "whatever");
    assert_eq!(assess_tx(&t, false, 1000), TxAssessment::InvalidAddress);
}

#[test]
fn evaluate_accepts_a_real_destination_address() {
    let t = item("10", ALICE);
    assert_eq!(evaluate_tx(&t, 1000), TxAssessment::Submit { amount: 10 });
}

#[test]
fn evaluate_refuses_a_malformed_destination_address() {
    let t = item("10", "not-an-address");
    assert_eq!(evaluate_tx(&t, 1000), TxAssessment::InvalidAddress);
}

#[test]
fn balance_gate_halts_the_cycle() {
    // one executor poll cycle over pending [10, 300, 500] with balance 200:
    // the smallest request is submitted, the halt comes at 300, and nothing
    // is marked errored
    let mut store = BridgeStore::new();
    store.exists_network_state("scanner", "net", "0xmon");
    let logs: Vec<DecodedDeposit> = ["500", "10", "300"]
        .iter()
        .map(|a| DecodedDeposit {
            tx_eth_hash: "0x1".to_string(),
            from_eth_address: "0x2".to_string(),
            amount: a.to_string(),
            to_glitch_address: ALICE.to_string(),
        })
        .collect();
    store.update_block_and_insert_txs("scanner", 1, &logs).unwrap();
    let pending = store.txs_to_process();
    let balance = 200u128;
    let mut submitted = Vec::new();
    for tx in &pending {
        match evaluate_tx(tx, balance) {
            TxAssessment::Submit { amount } => {
                let (att, fee) =
                    calculate_amount_to_transfer_and_business_fee(amount, 0, 2).unwrap();
                store.increment_fee_counter("scanner".to_string(), fee);
                store.update_tx(tx.id, "0xdest".to_string(), fee, 2).unwrap();
                submitted.push(att - fee);
            }
            TxAssessment::InsufficientBalance => break,
            TxAssessment::InvalidAmount | TxAssessment::InvalidAddress => {
                store.update_tx_with_error(tx.id, "validation failed".to_string());
            }
        }
    }
    assert_eq!(submitted, vec![10]);
    // the halted and later requests stay pending, without errors
    let still_pending = store.txs_to_process();
    let amounts: Vec<&str> = still_pending.iter().map(|t| t.amount.as_str()).collect();
    assert_eq!(amounts, vec!["300", "500"]);
    assert!(store.txs.iter().all(|t| t.error.is_none()));
}

#[test]
fn parse_u128_accepts_exactly_the_fitting_decimals() {
    assert_eq!(parse_u128("0"), Some(0));
    assert_eq!(parse_u128("007"), Some(7));
    assert_eq!(parse_u128("340282366920938463463374607431768211455"), Some(u128::MAX));
    assert_eq!(parse_u128("340282366920938463463374607431768211456"), None);
    assert_eq!(parse_u128(""), None);
    assert_eq!(parse_u128("12a"), None);
    assert_eq!(parse_u128("-1"), None);
}

#[test]
fn decimal_comparison_is_numeric() {
    assert!(dec_le("9", "25"));
    assert!(!dec_le("100", "25"));
    assert!(dec_le("25", "25"));
    assert!(dec_le("340282366920938463463374607431768211456", "999999999999999999999999999999999999999"));
}

#[test]
fn canonical_decimal_check() {
    assert!(check_canonical_dec("0"));
    assert!(check_canonical_dec("105"));
    assert!(!check_canonical_dec("00"));
    assert!(!check_canonical_dec("01"));
    assert!(!check_canonical_dec(""));
    assert!(!check_canonical_dec("1x"));
}
