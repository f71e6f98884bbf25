//! Checked arithmetic that reports failures as exchange errors.

use vstd::prelude::*;

use crate::types::ExchangeError;

verus! {

/// Rejects zero; prices, amounts and durations must be positive.
pub fn positive(value: u64) -> (r: Result<(), ExchangeError>)
    ensures
        value == 0 ==> r == Err::<(), ExchangeError>(ExchangeError::ZeroValue),
        value != 0 ==> r is Ok,
{
    if value == 0 {
        Err(ExchangeError::ZeroValue)
    } else {
        Ok(())
    }
}

/// Addition that fails with `ArithmeticOverflow` instead of wrapping.
pub fn add(left: u64, right: u64) -> (r: Result<u64, ExchangeError>)
    ensures
        left + right <= u64::MAX ==> r == Ok::<u64, ExchangeError>((left + right) as u64),
        left + right > u64::MAX ==> r == Err::<u64, ExchangeError>(ExchangeError::ArithmeticOverflow),
{
    match left.checked_add(right) {
        Some(v) => Ok(v),
        None => Err(ExchangeError::ArithmeticOverflow),
    }
}

/// Multiplication that fails with `ArithmeticOverflow` instead of wrapping.
pub fn multiply(left: u64, right: u64) -> (r: Result<u64, ExchangeError>)
    ensures
        left * right <= u64::MAX ==> r == Ok::<u64, ExchangeError>((left * right) as u64),
        left * right > u64::MAX ==> r == Err::<u64, ExchangeError>(ExchangeError::ArithmeticOverflow),
{
    match left.checked_mul(right) {
        Some(v) => Ok(v),
        None => Err(ExchangeError::ArithmeticOverflow),
    }
}

} // verus!
