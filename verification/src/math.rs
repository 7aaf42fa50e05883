use vstd::prelude::*;
use crate::errors::StreamPayError;

verus! {

/// Hundredths of an hour in a duration of `duration` seconds, rounded
/// half away from zero (durations are positive, so a remainder of half
/// a hundredth or more rounds up). One hundredth of an hour is 36
/// seconds, so this is round(duration / 36): the pinned rounding rule
/// for converting worked time into billable centihours.
pub open spec fn centi_hours_of(duration: u64) -> int {
    duration as int / 36 + if duration as int % 36 >= 18 {
        1int
    } else {
        0int
    }
}

/// Amount earned for `centi_hours` hundredths of an hour at
/// `hourly_rate` monetary units per hour: the exact product divided by
/// 100, truncated toward zero. Fractional monetary units are dropped,
/// never paid.
pub open spec fn earnings_of(hourly_rate: u64, centi_hours: u64) -> int {
    (hourly_rate * centi_hours) / 100
}

/// Converts a work duration in seconds to hundredths of an hour under
/// the pinned rounding rule. Cannot overflow: the result never exceeds
/// `duration / 36 + 1`.
pub fn centi_hours(duration: u64) -> (h: u64)
    ensures
        h == centi_hours_of(duration),
{
    let q = duration / 36;
    let r = duration % 36;
    if r >= 18 {
        q + 1
    } else {
        q
    }
}

/// Amount earned at `hourly_rate` for `hours_worked_centihours`
/// hundredths of an hour, computed with 128-bit intermediate precision.
/// Fails with `Overflow` exactly when the result does not fit in a
/// 64-bit monetary amount.
pub fn calculate_earnings(hourly_rate: u64, hours_worked_centihours: u64) -> (r: Result<
    u64,
    StreamPayError,
>)
    ensures
        match r {
            Ok(amount) => amount == earnings_of(hourly_rate, hours_worked_centihours),
            Err(e) => e == StreamPayError::Overflow,
        },
        r is Ok <==> earnings_of(hourly_rate, hours_worked_centihours) <= u64::MAX,
{
    proof {
        assert((hourly_rate as u128) * (hours_worked_centihours as u128) <= u128::MAX) by (nonlinear_arith)
            requires
                hourly_rate <= u64::MAX,
                hours_worked_centihours <= u64::MAX,
        ;
    }
    let product = (hourly_rate as u128) * (hours_worked_centihours as u128);
    let quotient = product / 100;
    if quotient > u64::MAX as u128 {
        Err(StreamPayError::Overflow)
    } else {
        Ok(quotient as u64)
    }
}

} // verus!
