//! When accumulated business fees are settled to the treasury address.

use vstd::prelude::*;

verus! {

/// Seconds counted per settlement-interval day by the fee-settlement check.
pub const SETTLEMENT_DAY_SECS: i64 = 86000;

/// Whether a settlement is due: with no settlement on record it always is,
/// and otherwise the configured number of settlement days must have elapsed
/// since the last one.
pub open spec fn spec_due(now: i64, last_payment: Option<i64>, interval_in_days: u8) -> bool {
    match last_payment {
        None => true,
        Some(t) => now - t >= (interval_in_days as int) * (SETTLEMENT_DAY_SECS as int),
    }
}

/// Decides whether the periodic settlement is due, from the current time and
/// the time of the most recent settlement, both in seconds.
pub fn is_time_to_pay_fee(now: i64, last_payment: Option<i64>, interval_in_days: u8) -> (r: bool)
    ensures
        r == spec_due(now, last_payment, interval_in_days),
{
    match last_payment {
        None => true,
        Some(t) => {
            let diff: i128 = (now as i128) - (t as i128);
            let threshold: i128 = (interval_in_days as i128) * 86000;
            proof {
                assert(threshold == (interval_in_days as int) * (SETTLEMENT_DAY_SECS as int));
            }
            diff >= threshold
        },
    }
}

/// Whether a settlement is both due and worth making: nothing is submitted
/// while the accumulated fee counter is zero.
pub open spec fn spec_should_settle(
    now: i64,
    last_payment: Option<i64>,
    interval_in_days: u8,
    fee_counter: u128,
) -> bool {
    spec_due(now, last_payment, interval_in_days) && fee_counter != 0
}

/// Decides whether the settlement loop submits a treasury payment this
/// wake-up.
pub fn should_settle(now: i64, last_payment: Option<i64>, interval_in_days: u8, fee_counter: u128) -> (r:
    bool)
    ensures
        r == spec_should_settle(now, last_payment, interval_in_days, fee_counter),
{
    is_time_to_pay_fee(now, last_payment, interval_in_days) && fee_counter != 0
}

} // verus!
