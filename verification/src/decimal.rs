use vstd::prelude::*;

verus! {

use crate::error::ContractError;

/// Atomic units per whole unit of a [`Decimal`]: the fixed-point scale
/// is 18 decimal places.
pub const DECIMAL_FRACTIONAL: u128 = 1_000_000_000_000_000_000;

/// A non-negative fixed-point rational with 18 decimal places, stored as a
/// count of atomic units: the value represented is `atomics / 10^18`.
///
/// The reward index of a guild is such a rational. All operations are
/// checked: where a result would not fit in the atomic range, the operation
/// reports [`ContractError::ArithmeticOverflow`] instead of wrapping.
#[derive(Clone, Copy, Debug, PartialEq, Eq, Structural)]
pub struct Decimal {
    /// The count of atomic units.
    pub atomics: u128,
}

impl Decimal {
    /// The rational value zero.
    pub fn zero() -> (r: Decimal)
        ensures
            r.atomics == 0,
    {
        Decimal { atomics: 0 }
    }

    /// `numerator / denominator` truncated to 18 decimal places.
    pub fn from_ratio(numerator: u128, denominator: u128) -> (r: Result<
        Decimal,
        ContractError,
    >)
        requires
            denominator > 0,
        ensures
            numerator * DECIMAL_FRACTIONAL <= u128::MAX ==> (r matches Ok(d) && d.atomics
                == numerator * DECIMAL_FRACTIONAL / denominator as int),
            numerator * DECIMAL_FRACTIONAL > u128::MAX ==> (r matches Err(e) && e
                == ContractError::ArithmeticOverflow),
    {
        match numerator.checked_mul(DECIMAL_FRACTIONAL) {
            Some(scaled) => Ok(Decimal { atomics: scaled / denominator }),
            None => Err(ContractError::ArithmeticOverflow),
        }
    }

    /// The sum of two rationals.
    pub fn checked_add(self, other: Decimal) -> (r: Result<Decimal, ContractError>)
        ensures
            self.atomics + other.atomics <= u128::MAX ==> (r matches Ok(d) && d.atomics
                == self.atomics + other.atomics),
            self.atomics + other.atomics > u128::MAX ==> (r matches Err(e) && e
                == ContractError::ArithmeticOverflow),
    {
        match self.atomics.checked_add(other.atomics) {
            Some(sum) => Ok(Decimal { atomics: sum }),
            None => Err(ContractError::ArithmeticOverflow),
        }
    }

    /// `amount * self` truncated toward zero to an integer amount.
    pub fn mul_floor(self, amount: u128) -> (r: Result<u128, ContractError>)
        ensures
            amount * self.atomics <= u128::MAX ==> (r matches Ok(v) && v == amount * self.atomics
                / DECIMAL_FRACTIONAL as int),
            amount * self.atomics > u128::MAX ==> (r matches Err(e) && e
                == ContractError::ArithmeticOverflow),
    {
        match amount.checked_mul(self.atomics) {
            Some(product) => Ok(product / DECIMAL_FRACTIONAL),
            None => Err(ContractError::ArithmeticOverflow),
        }
    }
}

} // verus!
