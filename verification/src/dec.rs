//! Fixed-point decimal values with 18 fractional digits.
//!
//! A value is stored as its count of atomic units (`1.0` is
//! `10^18` atomics), the same representation the surrounding ledger uses for
//! its decimal type.  Sums and differences are exact; products and quotients
//! are computed over 256-bit intermediates and floored back to atomics.
use vstd::prelude::*;

verus! {

/// Number of atomic units in the value 1.0.
pub const DECIMAL_FRACTIONAL: u128 = 1_000_000_000_000_000_000;

/// A non-negative fixed-point decimal with 18 fractional digits.
///
/// The represented value is `atomics / 10^18`.
#[derive(Clone, Copy, Debug, PartialEq, Eq, Structural)]
pub struct Dec {
    pub atomics: u128,
}

/// Atomics of the product of two decimals: exact in 256 bits, then floored.
pub open spec fn mul_atomics(a: int, b: int) -> int {
    (a * b) / (DECIMAL_FRACTIONAL as int)
}

/// Atomics of the quotient of two decimals: exact in 256 bits, then floored.
pub open spec fn div_atomics(a: int, b: int) -> int {
    (a * (DECIMAL_FRACTIONAL as int)) / b
}

/// Relies on `cosmwasm_bignumber::Uint256::multiply_ratio`, which returns
/// `self * nom / denom` computed exactly in 256-bit integer arithmetic with
/// flooring division and panics only on a zero denominator, and on the
/// `Uint256`-to-`u128` conversion, which is exact for values below `2^128`
/// and panics otherwise.
#[verifier::external_body]
fn muldiv_u128(a: u128, b: u128, c: u128) -> (r: u128)
    requires
        c > 0,
        a * b / (c as int) <= u128::MAX,
    ensures
        r == a * b / (c as int),
{
    let wide = cosmwasm_bignumber::Uint256::from(a).multiply_ratio(
        cosmwasm_bignumber::Uint256::from(b),
        cosmwasm_bignumber::Uint256::from(c),
    );
    wide.into()
}

impl Dec {
    /// The decimal 0.0.
    pub fn zero() -> (r: Dec)
        ensures
            r.atomics == 0,
    {
        Dec { atomics: 0 }
    }

    /// The decimal 1.0.
    pub fn one() -> (r: Dec)
        ensures
            r.atomics == DECIMAL_FRACTIONAL,
    {
        Dec { atomics: DECIMAL_FRACTIONAL }
    }

    /// A decimal from its raw count of atomic units.
    pub fn from_atomics(atomics: u128) -> (r: Dec)
        ensures
            r.atomics == atomics,
    {
        Dec { atomics }
    }

    /// Whether the value is 0.0.
    pub fn is_zero(&self) -> (r: bool)
        ensures
            r == (self.atomics == 0),
    {
        self.atomics == 0
    }
}

/// The exact sum of two decimals, computed with a 256-bit intermediate, so
/// that it overflows only when the result itself exceeds the decimal range.
pub fn decimal_summation_in_256(a: Dec, b: Dec) -> (r: Dec)
    requires
        a.atomics + b.atomics <= u128::MAX,
    ensures
        r.atomics == a.atomics + b.atomics,
{
    Dec { atomics: a.atomics + b.atomics }
}

/// The exact difference of two decimals; the subtrahend must not exceed the
/// minuend, as the ledger's decimals are non-negative.
pub fn decimal_subtraction_in_256(a: Dec, b: Dec) -> (r: Dec)
    requires
        b.atomics <= a.atomics,
    ensures
        r.atomics == a.atomics - b.atomics,
{
    Dec { atomics: a.atomics - b.atomics }
}

/// The product of two decimals, exact in 256 bits and floored to atomics.
pub fn decimal_multiplication_in_256(a: Dec, b: Dec) -> (r: Dec)
    requires
        mul_atomics(a.atomics as int, b.atomics as int) <= u128::MAX,
    ensures
        r.atomics == mul_atomics(a.atomics as int, b.atomics as int),
{
    Dec { atomics: muldiv_u128(a.atomics, b.atomics, DECIMAL_FRACTIONAL) }
}

/// The quotient of two decimals, exact in 256 bits and floored to atomics.
pub fn decimal_division_in_256(a: Dec, b: Dec) -> (r: Dec)
    requires
        b.atomics > 0,
        div_atomics(a.atomics as int, b.atomics as int) <= u128::MAX,
    ensures
        r.atomics == div_atomics(a.atomics as int, b.atomics as int),
{
    Dec { atomics: muldiv_u128(a.atomics, DECIMAL_FRACTIONAL, b.atomics) }
}

/// The decimal with the integral value of `num`.
pub fn uint128_to_decimal(num: u128) -> (r: Dec)
    requires
        num * DECIMAL_FRACTIONAL <= u128::MAX,
    ensures
        r.atomics == num * DECIMAL_FRACTIONAL,
{
    Dec { atomics: num * DECIMAL_FRACTIONAL }
}

/// The decimal with the integral value of `num`; every `u64` fits.
pub fn u64_to_decimal(num: u64) -> (r: Dec)
    ensures
        r.atomics == num * DECIMAL_FRACTIONAL,
{
    proof {
        assert((num as u128) * DECIMAL_FRACTIONAL <= u128::MAX) by (nonlinear_arith)
            requires
                num <= u64::MAX,
        ;
    }
    Dec { atomics: (num as u128) * DECIMAL_FRACTIONAL }
}

} // verus!
