//! Linear, utilization-based interest accrual.
use vstd::prelude::*;
use vstd::arithmetic::div_mod::lemma_div_is_ordered;
use crate::error::ContractError;
use crate::math::{fit_u128, multiply_ratio, ratio};

verus! {

/// Seconds in a year, times the basis-point scale.
pub const SECONDS_IN_A_YEAR_10000: u128 = 315569520000;

/// The basis-point scale of interest rates.
pub const BPS_SCALE: u128 = 10000;

/// Yearly rate in basis points: the share of the balance that is lent out.
pub open spec fn rate_of(total_balance: int, total_debt: int) -> int {
    ratio(total_debt, BPS_SCALE as int, total_balance)
}

/// Interest charged over `elapsed` seconds at `rate` basis points per year on `total_debt`.
pub open spec fn interest_of(elapsed: int, rate: int, total_debt: int) -> int {
    ratio(elapsed, rate * total_debt, SECONDS_IN_A_YEAR_10000 as int)
}

/// Total debt after `elapsed` seconds of accrual, or `MathError` where a step
/// leaves the `u128` range.
pub open spec fn accrued_debt(elapsed: int, total_balance: int, total_debt: int) -> Result<
    u128,
    ContractError,
> {
    let rate = rate_of(total_balance, total_debt);
    if rate > u128::MAX || rate * total_debt > u128::MAX {
        Err(ContractError::MathError)
    } else {
        let interest = interest_of(elapsed, rate, total_debt);
        if interest > u128::MAX {
            Err(ContractError::MathError)
        } else {
            fit_u128(total_debt + interest)
        }
    }
}

/// Simple linear interest rate, in basis points.
pub fn calculate_interest_rate(total_balance: u128, total_debt: u128) -> (r: Result<
    u128,
    ContractError,
>)
    requires
        total_balance > 0,
    ensures
        r == fit_u128(rate_of(total_balance as int, total_debt as int)),
{
    multiply_ratio(total_debt, BPS_SCALE, total_balance)
}

/// Applies interest for the time from `last_timestamp` to `now_timestamp`:
/// returns the new total debt and the new accrual timestamp.
pub fn accrue(last_timestamp: u64, now_timestamp: u64, total_balance: u128, total_debt: u128) -> (r:
    Result<(u128, u64), ContractError>)
    requires
        last_timestamp <= now_timestamp,
        total_balance > 0,
    ensures
        match r {
            Ok((debt, ts)) => ts == now_timestamp && accrued_debt(
                now_timestamp - last_timestamp,
                total_balance as int,
                total_debt as int,
            ) == Ok::<u128, ContractError>(debt),
            Err(e) => accrued_debt(
                now_timestamp - last_timestamp,
                total_balance as int,
                total_debt as int,
            ) == Err::<u128, ContractError>(e),
        },
{
    let rate = calculate_interest_rate(total_balance, total_debt)?;
    proof {
        lemma_rate_nonneg(total_balance as int, total_debt as int);
        assert(rate as int * total_debt as int >= 0) by (nonlinear_arith);
    }
    let numerator = match rate.checked_mul(total_debt) {
        Some(n) => n,
        None => return Err(ContractError::MathError),
    };
    let elapsed: u128 = (now_timestamp - last_timestamp) as u128;
    let interest = multiply_ratio(elapsed, numerator, SECONDS_IN_A_YEAR_10000)?;
    match total_debt.checked_add(interest) {
        Some(debt) => Ok((debt, now_timestamp)),
        None => Err(ContractError::MathError),
    }
}

proof fn lemma_rate_nonneg(total_balance: int, total_debt: int)
    requires
        total_balance > 0,
        total_debt >= 0,
    ensures
        rate_of(total_balance, total_debt) >= 0,
{
    assert(total_debt * BPS_SCALE >= 0) by (nonlinear_arith)
        requires
            total_debt >= 0,
    ;
    lemma_div_is_ordered(0, total_debt * BPS_SCALE, total_balance);
}

/// Accrual never lowers the total debt, and accrual over no time changes nothing.
pub proof fn lemma_accrual_monotone(elapsed: int, total_balance: int, total_debt: int)
    requires
        elapsed >= 0,
        total_balance > 0,
        0 <= total_debt <= u128::MAX,
    ensures
        accrued_debt(elapsed, total_balance, total_debt) matches Ok(d) ==> d >= total_debt,
        elapsed == 0 ==> (accrued_debt(elapsed, total_balance, total_debt) matches Ok(d)
            ==> d == total_debt),
{
    let rate = rate_of(total_balance, total_debt);
    lemma_rate_nonneg(total_balance, total_debt);
    assert(rate * total_debt >= 0) by (nonlinear_arith)
        requires
            rate >= 0,
            total_debt >= 0,
    ;
    assert(elapsed * (rate * total_debt) >= 0) by (nonlinear_arith)
        requires
            elapsed >= 0,
            rate * total_debt >= 0,
    ;
    lemma_div_is_ordered(0, elapsed * (rate * total_debt), SECONDS_IN_A_YEAR_10000 as int);
    if elapsed == 0 {
        assert(elapsed * (rate * total_debt) == 0);
    }
}

} // verus!
