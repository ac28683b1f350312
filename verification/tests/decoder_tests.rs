use glitch_bridge::decoder::{decode_deposit, DecodeError, RawLog};

fn word(fill: &[u8]) -> Vec<u8> {
    // one 32-byte word, content right-aligned (big-endian)
    let mut w = vec![0u8; 32];
    w[32 - fill.len()..].copy_from_slice(fill);
    w
}

fn address_words(addr: &[u8]) -> Vec<u8> {
    // words three and four: the address bytes, left-aligned and right-padded
    let mut w = vec![0u8; 64];
    w[..addr.len()].copy_from_slice(addr);
    w
}

fn sample_log(amount_be: &[u8], len_byte: u64, addr: &[u8]) -> RawLog {
    let mut data = Vec::new();
    data.extend_from_slice(&word(&[32]));
    data.extend_from_slice(&word(amount_be));
    data.extend_from_slice(&word(&len_byte.to_be_bytes()));
    data.extend_from_slice(&address_words(addr));
    let mut tx_hash = vec![0u8; 32];
    tx_hash[31] = 0xab;
    let mut topic0 = vec![0u8; 32];
    topic0[0] = 0x11;
    let mut topic1 = vec![0u8; 32];
    topic1[12] = 0xde;
    topic1[31] = 0x01;
    RawLog { transaction_hash: tx_hash, topics: vec![topic0, topic1], data }
}

#[test]
fn decodes_well_formed_payload() {
    let log = sample_log(&1_000_000u64.to_be_bytes(), 13, b"glitch-addr-1");
    let dep = decode_deposit(&log).unwrap();
    assert_eq!(dep.amount, "1000000");
    assert_eq!(dep.to_glitch_address, "glitch-addr-1");
    assert_eq!(
        dep.tx_eth_hash,
        "0x00000000000000000000000000000000000000000000000000000000000000ab"
    );
    assert_eq!(dep.from_eth_address, "0xde00000000000000000000000000000000000001");
}

#[test]
fn decodes_amount_beyond_u128() {
    // amount = 2^128: one above the largest value the destination chain moves
    let mut amount = vec![0u8; 17];
    amount[0] = 1;
    let log = sample_log(&amount, 4, b"addr");
    let dep = decode_deposit(&log).unwrap();
    assert_eq!(dep.amount, "340282366920938463463374607431768211456");
}

#[test]
fn decodes_zero_amount() {
    let log = sample_log(&[0], 1, b"a");
    let dep = decode_deposit(&log).unwrap();
    assert_eq!(dep.amount, "0");
}

#[test]
fn rejects_short_payload() {
    let mut log = sample_log(&[1], 1, b"a");
    log.data.truncate(159);
    assert_eq!(decode_deposit(&log), Err(DecodeError::MissingWords));
}

#[test]
fn rejects_length_above_sixty_four() {
    let log = sample_log(&[1], 65, b"a");
    assert_eq!(decode_deposit(&log), Err(DecodeError::AddressTooLong));
}

#[test]
fn rejects_length_with_high_byte_set() {
    let mut log = sample_log(&[1], 1, b"a");
    // a high byte in the length word pushes it far above 64
    log.data[70] = 1;
    assert_eq!(decode_deposit(&log), Err(DecodeError::AddressTooLong));
}

#[test]
fn accepts_length_of_exactly_sixty_four() {
    let addr = [b'x'; 64];
    let log = sample_log(&[7], 64, &addr);
    let dep = decode_deposit(&log).unwrap();
    assert_eq!(dep.to_glitch_address.len(), 64);
    assert_eq!(dep.amount, "7");
}

#[test]
fn rejects_invalid_utf8() {
    let log = sample_log(&[1], 2, &[0xff, 0xfe]);
    assert_eq!(decode_deposit(&log), Err(DecodeError::InvalidUtf8));
}

#[test]
fn decodes_multibyte_utf8_address() {
    let addr = "adresse-\u{00e9}".as_bytes();
    let log = sample_log(&[9], addr.len() as u64, addr);
    let dep = decode_deposit(&log).unwrap();
    assert_eq!(dep.to_glitch_address, "adresse-\u{00e9}");
}
