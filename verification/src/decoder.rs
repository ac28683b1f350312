//! Decoding of raw source-chain event logs into deposits.
//!
//! A deposit event carries an ABI-encoded payload of 32-byte words: word one
//! is the big-endian amount, word two the big-endian byte length of the
//! destination address string, and words three and four carry that string's
//! UTF-8 bytes, right-padded.  The sender is the low 20 bytes of the second
//! indexed topic.

use vstd::prelude::*;
use vstd::slice::{slice_subrange, slice_to_vec};
use vstd::utf8::{decode_utf8, valid_utf8};

use crate::hex::{hex_with_prefix, to_hex_string};
use crate::numeric::{
    be_val, dec_of, is_canonical_dec, lemma_be_val_high_byte, lemma_be_val_low_byte,
    lemma_dec_of_val,
};
use crate::trusted::{u256_decimal_string, utf8_to_string};

verus! {

/// A raw event log, reduced to the plain bytes the decoder reads: the source
/// transaction hash, the 32-byte indexed topics, and the payload.
pub struct RawLog {
    pub transaction_hash: Vec<u8>,
    pub topics: Vec<Vec<u8>>,
    pub data: Vec<u8>,
}

/// Why a payload failed to decode.
#[derive(Clone, Copy, Debug, PartialEq, Eq, Structural)]
pub enum DecodeError {
    /// The payload holds fewer than five 32-byte words.
    MissingWords,
    /// The destination-address length field exceeds the 64 bytes that words
    /// three and four can carry.
    AddressTooLong,
    /// The selected destination-address bytes are not valid UTF-8.
    InvalidUtf8,
}

/// A decoded deposit: one detected transfer from the source chain.
#[derive(Debug, PartialEq, Eq)]
pub struct DecodedDeposit {
    pub tx_eth_hash: String,
    pub from_eth_address: String,
    pub amount: String,
    pub to_glitch_address: String,
}

/// The mathematical content of a decoded deposit.
pub struct DepositModel {
    pub tx_eth_hash: Seq<char>,
    pub from_eth_address: Seq<char>,
    pub amount: Seq<char>,
    pub to_glitch_address: Seq<char>,
}

impl View for DecodedDeposit {
    type V = DepositModel;

    open spec fn view(&self) -> DepositModel {
        DepositModel {
            tx_eth_hash: self.tx_eth_hash@,
            from_eth_address: self.from_eth_address@,
            amount: self.amount@,
            to_glitch_address: self.to_glitch_address@,
        }
    }
}

/// The destination-address byte length named by word two of the payload.
pub open spec fn spec_addr_len(data: Seq<u8>) -> nat {
    be_val(data.subrange(64, 96))
}

/// What decoding a raw log yields: the deposit for a well-formed payload, and
/// the reason for each malformed one.
pub open spec fn spec_decode(log: RawLog) -> Result<DepositModel, DecodeError> {
    if log.data@.len() < 160 {
        Err(DecodeError::MissingWords)
    } else if spec_addr_len(log.data@) > 64 {
        Err(DecodeError::AddressTooLong)
    } else if !valid_utf8(log.data@.subrange(96, 96 + spec_addr_len(log.data@) as int)) {
        Err(DecodeError::InvalidUtf8)
    } else {
        Ok(
            DepositModel {
                tx_eth_hash: hex_with_prefix(log.transaction_hash@),
                from_eth_address: hex_with_prefix(log.topics@[1]@.subrange(12, 32)),
                amount: dec_of(be_val(log.data@.subrange(32, 64))),
                to_glitch_address: decode_utf8(
                    log.data@.subrange(96, 96 + spec_addr_len(log.data@) as int),
                ),
            },
        )
    }
}

/// Decoding is total and deterministic: every payload with at least five
/// words, a length field of at most 64, and valid UTF-8 in the selected range
/// decodes to the deposit the payload describes, and every other payload is
/// rejected for exactly one of the three stated reasons.
pub proof fn lemma_decode_total(log: RawLog)
    ensures
        spec_decode(log) is Ok <==> (log.data@.len() >= 160 && spec_addr_len(log.data@) <= 64
            && valid_utf8(log.data@.subrange(96, 96 + spec_addr_len(log.data@) as int))),
        spec_decode(log) == Err::<DepositModel, DecodeError>(DecodeError::MissingWords)
            <==> log.data@.len() < 160,
        spec_decode(log) == Err::<DepositModel, DecodeError>(DecodeError::AddressTooLong) <==> (
        log.data@.len() >= 160 && spec_addr_len(log.data@) > 64),
        spec_decode(log) == Err::<DepositModel, DecodeError>(DecodeError::InvalidUtf8) <==> (
        log.data@.len() >= 160 && spec_addr_len(log.data@) <= 64 && !valid_utf8(
            log.data@.subrange(96, 96 + spec_addr_len(log.data@) as int),
        )),
{
}

/// Decodes a raw event log into a deposit.
///
/// The caller supplies a log whose transaction hash and second topic are
/// 32-byte values, as the source chain produces them; decoding itself fails
/// exactly on the payload conditions of `spec_decode`.
pub fn decode_deposit(log: &RawLog) -> (r: Result<DecodedDeposit, DecodeError>)
    requires
        log.transaction_hash@.len() == 32,
        log.topics@.len() >= 2,
        log.topics@[1]@.len() == 32,
    ensures
        r is Ok <==> spec_decode(*log) is Ok,
        r is Ok ==> r->Ok_0@ == spec_decode(*log)->Ok_0,
        r is Err ==> spec_decode(*log) is Err && r->Err_0 == spec_decode(*log)->Err_0,
        r is Ok ==> is_canonical_dec(r->Ok_0@.amount),
{
    if log.data.len() < 160 {
        return Err(DecodeError::MissingWords);
    }
    let ghost len_word = log.data@.subrange(64, 96);
    let mut j: usize = 64;
    while j < 95
        invariant
            64 <= j <= 95,
            log.data@.len() >= 160,
            len_word == log.data@.subrange(64, 96),
            forall|k: int| 64 <= k < j ==> log.data@[k] == 0,
        decreases 95 - j,
    {
        if log.data[j] != 0 {
            proof {
                assert(len_word[j - 64] == log.data@[j as int]);
                lemma_be_val_high_byte(len_word, j - 64);
            }
            return Err(DecodeError::AddressTooLong);
        }
        j = j + 1;
    }
    let len_byte = log.data[95];
    proof {
        assert(forall|k: int| 0 <= k < 31 ==> len_word[k] == 0);
        lemma_be_val_low_byte(len_word);
        assert(len_word.last() == log.data@[95]);
        assert(spec_addr_len(log.data@) == len_byte);
    }
    if len_byte > 64 {
        return Err(DecodeError::AddressTooLong);
    }
    let addr_len = len_byte as usize;
    let addr_bytes = slice_to_vec(slice_subrange(log.data.as_slice(), 96, 96 + addr_len));
    let to_glitch_address = match utf8_to_string(addr_bytes) {
        Some(a) => a,
        None => {
            return Err(DecodeError::InvalidUtf8);
        },
    };
    let amount = u256_decimal_string(slice_subrange(log.data.as_slice(), 32, 64));
    proof {
        lemma_dec_of_val(be_val(log.data@.subrange(32, 64)));
    }
    let tx_eth_hash = to_hex_string(log.transaction_hash.as_slice());
    let topic: &Vec<u8> = &log.topics[1];
    let from_eth_address = to_hex_string(slice_subrange(topic.as_slice(), 12, 32));
    Ok(DecodedDeposit { tx_eth_hash, from_eth_address, amount, to_glitch_address })
}

} // verus!
