//! Fixed-point fractions with 18 decimal places.

use vstd::prelude::*;

verus! {

/// The number of atomic units in `1.0`.
pub const DECIMAL_FRACTIONAL: u128 = 1_000_000_000_000_000_000;

/// The number of atomic units in `1%`.
pub const ATOMICS_PER_PERCENT: u128 = 10_000_000_000_000_000;

/// `floor(value * atomics / 10^18)`: an integer scaled by a fixed-point
/// fraction, rounded down.
pub open spec fn floor_mul(value: int, atomics: int) -> int {
    value * atomics / (DECIMAL_FRACTIONAL as int)
}

/// A non-negative fixed-point number with 18 decimal places, held as its
/// count of atomic units (`1.0` is `10^18` units).
#[derive(Clone, Copy, Debug, PartialEq, Eq, Structural)]
pub struct Decimal {
    pub atomics: u128,
}

impl Decimal {
    /// `0.0`.
    pub fn zero() -> (r: Decimal)
        ensures
            r.atomics == 0,
    {
        Decimal { atomics: 0 }
    }

    /// `1.0`.
    pub fn one() -> (r: Decimal)
        ensures
            r.atomics == DECIMAL_FRACTIONAL,
    {
        Decimal { atomics: DECIMAL_FRACTIONAL }
    }

    /// `x / 100`.
    pub fn percent(x: u64) -> (r: Decimal)
        ensures
            r.atomics == x * ATOMICS_PER_PERCENT,
    {
        assert(x * ATOMICS_PER_PERCENT <= u64::MAX * ATOMICS_PER_PERCENT) by (nonlinear_arith);
        Decimal { atomics: (x as u128) * ATOMICS_PER_PERCENT }
    }

    /// The decimal with the given count of atomic units.
    pub fn raw(atomics: u128) -> (r: Decimal)
        ensures
            r.atomics == atomics,
    {
        Decimal { atomics }
    }

    pub fn is_zero(&self) -> (r: bool)
        ensures
            r == (self.atomics == 0),
    {
        self.atomics == 0
    }
}

/// Relies on cosmwasm_std's `Uint128::checked_mul_floor` with a `Decimal`
/// fraction: it computes `value * atomics` over 256 bits, divides by `10^18`
/// rounding down, and fails only when the quotient does not fit in 128 bits.
#[verifier::external_body]
fn checked_mul_floor(value: u128, atomics: u128) -> (r: Option<u128>)
    ensures
        match r {
            Some(v) => v == floor_mul(value as int, atomics as int),
            None => floor_mul(value as int, atomics as int) > u128::MAX,
        },
{
    match cosmwasm_std::Uint128::new(value).checked_mul_floor(cosmwasm_std::Decimal::raw(atomics)) {
        Ok(v) => Some(v.u128()),
        Err(_) => None,
    }
}

/// A fraction of at most one scales a value to at most that value.
pub proof fn lemma_floor_mul_bounds(value: int, atomics: int)
    requires
        0 <= value,
        0 <= atomics <= DECIMAL_FRACTIONAL,
    ensures
        0 <= floor_mul(value, atomics) <= value,
{
    let d = DECIMAL_FRACTIONAL as int;
    assert(0 <= value * atomics <= value * d) by (nonlinear_arith)
        requires
            0 <= value,
            0 <= atomics <= d,
    ;
    assert(value * d / d == value) by (nonlinear_arith)
        requires
            d > 0,
    ;
    assert(value * atomics / d <= value * d / d) by (nonlinear_arith)
        requires
            0 <= value * atomics <= value * d,
            d > 0,
    ;
    assert(0 <= value * atomics / d) by (nonlinear_arith)
        requires
            0 <= value * atomics,
            d > 0,
    ;
}

/// `value` scaled by `fraction`, rounded down, or `None` where the result
/// does not fit in 128 bits.
pub fn checked_scale(value: u128, fraction: Decimal) -> (r: Option<u128>)
    ensures
        match r {
            Some(v) => v == floor_mul(value as int, fraction.atomics as int),
            None => floor_mul(value as int, fraction.atomics as int) > u128::MAX,
        },
{
    checked_mul_floor(value, fraction.atomics)
}

} // verus!
