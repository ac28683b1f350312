//! The executor's decisions for pending transfer requests: the balance gate,
//! validation, and fee computation.

use vstd::prelude::*;

use crate::numeric::{all_dec_digits, dec_val, parse_u128};
use crate::store::TxToProcess;
use crate::trusted::destination_address_is_valid;

verus! {

/// What the executor does with one pending request.
#[derive(Clone, Copy, Debug, PartialEq, Eq, Structural)]
pub enum TxAssessment {
    /// The amount string is not a whole number that fits the destination
    /// chain's balance type: record an error on the request and go on with
    /// the next one.
    InvalidAmount,
    /// The amount exceeds the signer's balance: stop this poll cycle without
    /// marking anything errored, and wait for the operator to refill.
    InsufficientBalance,
    /// The destination address was refused by the chain's parser: record an
    /// error on the request and go on with the next one.
    InvalidAddress,
    /// Submit a transfer of this amount.
    Submit { amount: u128 },
}

/// The executor's decision for one request, given the amount string, the
/// outcome of the destination-address check, and the signer's balance.  The
/// balance gate comes before the address check, as the executor's loop reads
/// the balance first.
pub open spec fn spec_assess(amount: Seq<char>, address_ok: bool, balance: u128) -> TxAssessment {
    if !(amount.len() > 0 && all_dec_digits(amount) && dec_val(amount) <= u128::MAX) {
        TxAssessment::InvalidAmount
    } else if dec_val(amount) > balance {
        TxAssessment::InsufficientBalance
    } else if !address_ok {
        TxAssessment::InvalidAddress
    } else {
        TxAssessment::Submit { amount: dec_val(amount) as u128 }
    }
}

/// Assesses one pending request, taking the outcome of the
/// destination-address check as an argument.
pub fn assess_tx(tx: &TxToProcess, address_ok: bool, signer_balance: u128) -> (r: TxAssessment)
    ensures
        r == spec_assess(tx.amount@, address_ok, signer_balance),
{
    match parse_u128(tx.amount.as_str()) {
        None => TxAssessment::InvalidAmount,
        Some(a) => {
            if a > signer_balance {
                TxAssessment::InsufficientBalance
            } else if !address_ok {
                TxAssessment::InvalidAddress
            } else {
                TxAssessment::Submit { amount: a }
            }
        },
    }
}

/// Assesses one pending request, running the destination-address check
/// itself.  Which strings that check accepts depends on the chain parser's
/// process-wide address format, so the result is the assessment for one of
/// the two possible outcomes.
pub fn evaluate_tx(tx: &TxToProcess, signer_balance: u128) -> (r: TxAssessment)
    ensures
        r == spec_assess(tx.amount@, true, signer_balance) || r == spec_assess(
            tx.amount@,
            false,
            signer_balance,
        ),
{
    let address_ok = destination_address_is_valid(tx.glitch_address.as_str());
    assess_tx(tx, address_ok, signer_balance)
}

/// The balance gate: a well-formed amount above the signer's balance halts
/// the poll cycle, whatever the address check would have said, and the
/// request is never marked errored for that reason alone.
pub proof fn lemma_balance_gate(amount: Seq<char>, address_ok: bool, balance: u128)
    requires
        amount.len() > 0,
        all_dec_digits(amount),
        dec_val(amount) <= u128::MAX,
        dec_val(amount) > balance,
    ensures
        spec_assess(amount, address_ok, balance) == TxAssessment::InsufficientBalance,
{
}

/// What the fee computation promises of its result: the amount to transfer
/// is the requested amount less the network fee, and the business fee is the
/// floor of that amount times the percentage over one hundred, never more
/// than the amount itself.
pub open spec fn fee_split_ok(
    amount: u128,
    network_fee: u128,
    business_fee_percent: u128,
    pair: (u128, u128),
) -> bool {
    &&& pair.0 == amount - network_fee
    &&& pair.1 == pair.0 * business_fee_percent / 100
    &&& pair.1 <= pair.0
}

/// Computes the amount to transfer and the business fee retained from it.
///
/// The network fee is subtracted from the requested amount first; the
/// business fee is the floor of `amount_to_transfer * percent / 100`, and
/// never exceeds the amount it is taken from.  A network fee above the
/// requested amount leaves nothing to transfer and yields `None`.
pub fn calculate_amount_to_transfer_and_business_fee(
    amount: u128,
    network_fee: u128,
    business_fee_percent: u128,
) -> (r: Option<(u128, u128)>)
    requires
        business_fee_percent <= 100,
    ensures
        r is Some <==> network_fee <= amount,
        r is Some ==> fee_split_ok(amount, network_fee, business_fee_percent, r->0),
{
    if network_fee > amount {
        return None;
    }
    let att = amount - network_fee;
    let q = att / 100;
    let rm = att % 100;
    proof {
        assert(q * business_fee_percent <= att) by (nonlinear_arith)
            requires
                att == 100 * q + rm,
                0 <= rm,
                0 <= q,
                business_fee_percent <= 100,
        ;
        assert(rm * business_fee_percent <= 9900) by (nonlinear_arith)
            requires
                0 <= rm < 100,
                0 <= business_fee_percent <= 100,
        ;
        assert((100 * (q * business_fee_percent) + rm * business_fee_percent) / 100 == q
            * business_fee_percent + (rm * business_fee_percent) / 100) by (nonlinear_arith)
            requires
                0 <= rm * business_fee_percent,
                0 <= q * business_fee_percent,
        ;
        assert(att * business_fee_percent == 100 * (q * business_fee_percent) + rm
            * business_fee_percent) by (nonlinear_arith)
            requires
                att == 100 * q + rm,
        ;
        assert(att * business_fee_percent / 100 <= att) by (nonlinear_arith)
            requires
                0 <= att,
                0 <= business_fee_percent <= 100,
        ;
    }
    let fee = q * business_fee_percent + (rm * business_fee_percent) / 100;
    Some((att, fee))
}

} // verus!
