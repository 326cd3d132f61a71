//! The APR engine: the annualized percentage return between two snapshots.
//!
//! The rate is the reward growth between the snapshots, scaled to a year and
//! to percent, relative to the starting snapshot's delegated amount over the
//! elapsed seconds:
//! `(rewards2 - rewards1) * 365*86400 * 100 / (delegated1 * elapsed)`.
//! Of the two observed anchorings of the denominator this engine uses the
//! starting snapshot's delegated amount.
use vstd::prelude::*;

use crate::dec::{Dec, DECIMAL_FRACTIONAL, div_atomics, mul_atomics};
use crate::error::ContractError;
use crate::state::ValidatorMetrics;

verus! {

/// Seconds in a year times 100: scales a per-second rate to an annualized
/// percentage.
pub const SECONDS_PER_YEAR_TIMES_100: u64 = 3_153_600_000;

/// Atomics of the APR numerator: the reward growth, annualized, in percent.
pub open spec fn spec_apr_numerator(r1: Dec, r2: Dec) -> int {
    mul_atomics(
        r2.atomics - r1.atomics,
        SECONDS_PER_YEAR_TIMES_100 * (DECIMAL_FRACTIONAL as int),
    )
}

/// Atomics of the APR denominator: the starting delegated amount times the
/// elapsed seconds.
pub open spec fn spec_apr_denominator(d1: u128, td: u64) -> int {
    mul_atomics(d1 * DECIMAL_FRACTIONAL, td * DECIMAL_FRACTIONAL)
}

/// Atomics of the annualized percentage return.
pub open spec fn spec_apr(r1: Dec, r2: Dec, d1: u128, td: u64) -> int {
    div_atomics(spec_apr_numerator(r1, r2), spec_apr_denominator(d1, td))
}

/// The machine limits of the APR computation: rewards have not shrunk, and
/// every intermediate stays within the decimal range.
pub open spec fn apr_fits(r1: Dec, r2: Dec, d1: u128, td: u64) -> bool {
    &&& r1.atomics <= r2.atomics
    &&& spec_apr_numerator(r1, r2) <= u128::MAX
    &&& d1 * DECIMAL_FRACTIONAL <= u128::MAX
    &&& spec_apr_denominator(d1, td) <= u128::MAX
    &&& spec_apr(r1, r2, d1, td) <= u128::MAX
}

/// Derives the annualized percentage return from two snapshots and the
/// elapsed seconds between them.  A zero starting delegated amount and a
/// zero elapsed time are domain errors: the quotient is undefined.
pub fn compute_apr(h1: &ValidatorMetrics, h2: &ValidatorMetrics, time_diff_in_seconds: u64) -> (r:
    Result<Dec, ContractError>)
    requires
        h1.delegated_amount != 0 && time_diff_in_seconds != 0 ==> apr_fits(
            h1.rewards,
            h2.rewards,
            h1.delegated_amount,
            time_diff_in_seconds,
        ),
    ensures
        h1.delegated_amount == 0 ==> r == Result::<Dec, ContractError>::Err(
            ContractError::ZeroDelegatedAmount {},
        ),
        h1.delegated_amount != 0 && time_diff_in_seconds == 0 ==> r == Result::<
            Dec,
            ContractError,
        >::Err(ContractError::ZeroElapsedTime {}),
        h1.delegated_amount != 0 && time_diff_in_seconds != 0 ==> r == Result::<
            Dec,
            ContractError,
        >::Ok(
            Dec {
                atomics: spec_apr(
                    h1.rewards,
                    h2.rewards,
                    h1.delegated_amount,
                    time_diff_in_seconds,
                ) as u128,
            },
        ),
{
    if h1.delegated_amount == 0 {
        return Err(ContractError::ZeroDelegatedAmount {});
    }
    if time_diff_in_seconds == 0 {
        return Err(ContractError::ZeroElapsedTime {});
    }
    let numerator = crate::dec::decimal_multiplication_in_256(
        crate::dec::decimal_subtraction_in_256(h2.rewards, h1.rewards),
        crate::dec::u64_to_decimal(SECONDS_PER_YEAR_TIMES_100),
    );
    let denominator = crate::dec::decimal_multiplication_in_256(
        crate::dec::uint128_to_decimal(h1.delegated_amount),
        crate::dec::u64_to_decimal(time_diff_in_seconds),
    );
    proof {
        let d1 = h1.delegated_amount;
        let td = time_diff_in_seconds;
        assert((d1 * DECIMAL_FRACTIONAL) * (td * DECIMAL_FRACTIONAL) == (d1 * td
            * DECIMAL_FRACTIONAL) * DECIMAL_FRACTIONAL) by (nonlinear_arith);
        vstd::arithmetic::div_mod::lemma_div_multiples_vanish(
            d1 * td * DECIMAL_FRACTIONAL,
            DECIMAL_FRACTIONAL as int,
        );
        assert(spec_apr_denominator(d1, td) == d1 * td * DECIMAL_FRACTIONAL);
        assert(d1 * td * DECIMAL_FRACTIONAL > 0) by (nonlinear_arith)
            requires
                d1 >= 1 && td >= 1,
        ;
    }
    Ok(crate::dec::decimal_division_in_256(numerator, denominator))
}

} // verus!
