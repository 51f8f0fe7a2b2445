//! Conversion between absolute value and proportional shares.
use vstd::prelude::*;
use vstd::arithmetic::div_mod::{lemma_div_is_ordered, lemma_div_by_multiple};
use cosmwasm_std::CheckedMultiplyRatioError;
use crate::error::ContractError;

verus! {

#[verifier::external_type_specification]
#[verifier::external_body]
pub struct ExCheckedMultiplyRatioError(CheckedMultiplyRatioError);

/// `a * num / den`, floored.
pub open spec fn ratio(a: int, num: int, den: int) -> int {
    a * num / den
}

/// An integer as a `u128` result, or `MathError` where it does not fit.
pub open spec fn fit_u128(x: int) -> Result<u128, ContractError> {
    if 0 <= x && x <= u128::MAX {
        Ok(x as u128)
    } else {
        Err(ContractError::MathError)
    }
}

/// Shares that `value` buys in a pool of `total_value` split into `total_share` shares.
pub open spec fn share_of(total_share: int, total_value: int, value: int) -> int {
    if total_share == 0 {
        value
    } else {
        ratio(value, total_share, total_value)
    }
}

/// Value that `share` shares stand for in a pool of `total_value` split into `total_share` shares.
pub open spec fn value_of(total_share: int, total_value: int, share: int) -> int {
    if total_share == 0 {
        0
    } else {
        ratio(share, total_value, total_share)
    }
}

/// Relies on cosmwasm_std::Uint128::checked_multiply_ratio: `a * num / den`, floored,
/// over a 256-bit product; an error where `den` is zero or the quotient exceeds `u128`.
#[verifier::external_body]
fn checked_multiply_ratio(a: u128, num: u128, den: u128) -> (r: Result<u128, CheckedMultiplyRatioError>)
    ensures
        match r {
            Ok(v) => den != 0 && v as int == ratio(a as int, num as int, den as int),
            Err(_) => den == 0 || ratio(a as int, num as int, den as int) > u128::MAX,
        },
{
    match cosmwasm_std::Uint128::new(a).checked_multiply_ratio(num, den) {
        Ok(v) => Ok(v.u128()),
        Err(e) => Err(e),
    }
}

/// `a * num / den`, floored, without intermediate overflow.
pub fn multiply_ratio(a: u128, num: u128, den: u128) -> (r: Result<u128, ContractError>)
    requires
        den > 0,
    ensures
        r == fit_u128(ratio(a as int, num as int, den as int)),
{
    proof {
        lemma_ratio_nonneg(a as int, num as int, den as int);
    }
    match checked_multiply_ratio(a, num, den) {
        Ok(v) => Ok(v),
        Err(_) => Err(ContractError::MathError),
    }
}

proof fn lemma_ratio_nonneg(a: int, num: int, den: int)
    requires
        a >= 0,
        num >= 0,
        den > 0,
    ensures
        ratio(a, num, den) >= 0,
{
    assert(a * num >= 0) by (nonlinear_arith)
        requires
            a >= 0,
            num >= 0,
    ;
    lemma_div_is_ordered(0, a * num, den);
}

/// Shares minted for `value`: one per unit in an empty pool, else
/// `value * total_share / total_value`, floored.
pub fn share_from_value(total_share: u128, total_value: u128, value: u128) -> (r: Result<
    u128,
    ContractError,
>)
    requires
        total_share == 0 || total_value > 0,
    ensures
        r == fit_u128(share_of(total_share as int, total_value as int, value as int)),
{
    if total_share == 0 {
        return Ok(value);
    }
    multiply_ratio(value, total_share, total_value)
}

/// Value of `share` shares: nothing in an empty pool, else
/// `share * total_value / total_share`, floored.
pub fn value_from_share(total_share: u128, total_value: u128, share: u128) -> (r: Result<
    u128,
    ContractError,
>)
    ensures
        r == fit_u128(value_of(total_share as int, total_value as int, share as int)),
{
    if total_share == 0 {
        return Ok(0);
    }
    multiply_ratio(share, total_value, total_share)
}

/// Converting a value to shares and back never yields more than the value:
/// floor rounding always favours the pool.
pub proof fn lemma_round_trip_favors_pool(total_share: int, total_value: int, value: int)
    requires
        total_share >= 0,
        total_value > 0,
        value >= 0,
    ensures
        value_of(total_share, total_value, share_of(total_share, total_value, value)) <= value,
{
    if total_share > 0 {
        let s = ratio(value, total_share, total_value);
        lemma_ratio_nonneg(value, total_share, total_value);
        assert(s * total_value <= value * total_share) by (nonlinear_arith)
            requires
                s == value * total_share / total_value,
                total_value > 0,
        ;
        lemma_div_is_ordered(s * total_value, value * total_share, total_share);
        lemma_div_by_multiple(value, total_share);
    }
}

} // verus!
