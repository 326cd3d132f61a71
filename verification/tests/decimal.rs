use validator_metrics::apr::compute_apr;
use validator_metrics::dec::{
    decimal_division_in_256, decimal_multiplication_in_256, decimal_subtraction_in_256,
    decimal_summation_in_256, u64_to_decimal, uint128_to_decimal, Dec, DECIMAL_FRACTIONAL,
};
use validator_metrics::error::ContractError;
use validator_metrics::state::ValidatorMetrics;

fn metrics(rewards: Dec, delegated_amount: u128, self_delegated: u128, t: u64) -> ValidatorMetrics {
    ValidatorMetrics {
        operator_addr: String::from("a1"),
        rewards,
        delegated_amount,
        self_delegated_amount: self_delegated,
        slashing_pointer: Dec::one(),
        commission: Dec::one(),
        max_commission: Dec::one(),
        timestamp: t,
        rewards_in_coins: vec![],
    }
}

#[test]
fn test_compute_apr() {
    let h1 = metrics(Dec::one(), 10, 5, 1);
    let h2 = metrics(u64_to_decimal(2), 100, 10, 2);
    assert_eq!(compute_apr(&h1, &h2, 1), Ok(u64_to_decimal(315360000)));
}

#[test]
fn apr_rejects_zero_delegation() {
    let h1 = metrics(Dec::one(), 0, 0, 1);
    let h2 = metrics(u64_to_decimal(2), 100, 0, 2);
    assert_eq!(
        compute_apr(&h1, &h2, 1),
        Err(ContractError::ZeroDelegatedAmount {})
    );
}

#[test]
fn apr_rejects_zero_elapsed_time() {
    let h1 = metrics(Dec::one(), 10, 0, 1);
    let h2 = metrics(u64_to_decimal(2), 100, 0, 1);
    assert_eq!(compute_apr(&h1, &h2, 0), Err(ContractError::ZeroElapsedTime {}));
}

#[test]
fn summation_is_exact() {
    let a = Dec::from_atomics(1_500_000_000_000_000_000); // 1.5
    let b = u64_to_decimal(2); // 2.0
    assert_eq!(decimal_summation_in_256(a, b).atomics, 3_500_000_000_000_000_000);
}

#[test]
fn subtraction_is_exact() {
    let a = u64_to_decimal(2);
    let b = Dec::from_atomics(500_000_000_000_000_000); // 0.5
    assert_eq!(decimal_subtraction_in_256(a, b).atomics, 1_500_000_000_000_000_000);
}

#[test]
fn multiplication_floors_to_atomics() {
    let a = Dec::from_atomics(1_500_000_000_000_000_000); // 1.5
    let b = u64_to_decimal(2);
    // a wrapper that returned an argument unchanged would give 1.5 or 2.0
    assert_eq!(decimal_multiplication_in_256(a, b), u64_to_decimal(3));
    // 1/3 * 3 floors: 0.333333333333333333 * 3 = 0.999999999999999999
    let third = Dec::from_atomics(333_333_333_333_333_333);
    assert_eq!(
        decimal_multiplication_in_256(third, u64_to_decimal(3)).atomics,
        999_999_999_999_999_999
    );
}

#[test]
fn division_floors_to_atomics() {
    let a = u64_to_decimal(1);
    let b = u64_to_decimal(3);
    assert_eq!(decimal_division_in_256(a, b).atomics, 333_333_333_333_333_333);
    assert_eq!(
        decimal_division_in_256(u64_to_decimal(99), u64_to_decimal(90)).atomics,
        1_100_000_000_000_000_000
    );
}

#[test]
fn integral_conversions() {
    assert_eq!(uint128_to_decimal(7).atomics, 7 * DECIMAL_FRACTIONAL);
    assert_eq!(u64_to_decimal(7), uint128_to_decimal(7));
    assert!(Dec::zero().is_zero());
    assert!(!Dec::one().is_zero());
}
