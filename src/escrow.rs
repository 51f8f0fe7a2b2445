//! Payment requests: a merchant asks for an asset, a customer pays it in, and the
//! customer settles it to the merchant.
use vstd::prelude::*;
use crate::asset::{Asset, AssetInfo};
use crate::error::ContractError;

verus! {

/// The messages a token contract forwards to the escrow along with tokens.
#[derive(Debug, Clone, Copy, PartialEq, Eq, Structural)]
pub enum Cw20HookMsg {
    PayIntoPaymentRequest { id: u64 },
}

/// Native coins attached to a call.
#[derive(Debug)]
pub struct Coin {
    pub denom: String,
    pub amount: u128,
}

/// A merchant's request for payment of `asset`.
#[derive(Debug)]
pub struct PaymentRequest {
    pub id: u64,
    pub asset: Asset,
    pub order_id: String,
    pub paid_amount: u128,
    pub refund_amount: u128,
    pub merchant: String,
    pub customer: String,
}

/// `i` is the first coin of denomination `denom`.
pub open spec fn is_first_coin(coins: Seq<Coin>, i: int, denom: Seq<char>) -> bool {
    &&& 0 <= i < coins.len()
    &&& coins[i].denom@ == denom
    &&& forall|j: int| 0 <= j < i ==> (#[trigger] coins[j]).denom@ != denom
}

/// The amount paid by attached coins for `asset`: the first coin of its denomination,
/// which must match the amount asked.
pub fn find_matching_fund(coins: &Vec<Coin>, asset: &Asset) -> (r: Result<u128, ContractError>)
    ensures
        asset.info is Token ==> r == Err::<u128, ContractError>(ContractError::WrongToken),
        asset.info matches AssetInfo::NativeToken { denom } ==> {
            &&& (forall|j: int| 0 <= j < coins@.len() ==> (#[trigger] coins@[j]).denom@ != denom@)
                ==> r == Err::<u128, ContractError>(ContractError::WrongToken)
            &&& forall|i: int| #[trigger]
                is_first_coin(coins@, i, denom@) ==> r == (if coins@[i].amount == asset.amount {
                    Ok::<u128, ContractError>(asset.amount)
                } else {
                    Err(ContractError::WrongAmount { amount: coins@[i].amount })
                })
        },
{
    match &asset.info {
        AssetInfo::Token { .. } => Err(ContractError::WrongToken),
        AssetInfo::NativeToken { denom } => {
            let mut i: usize = 0;
            while i < coins.len()
                invariant
                    asset.info == (AssetInfo::NativeToken { denom: *denom }),
                    0 <= i <= coins@.len(),
                    forall|j: int| 0 <= j < i ==> (#[trigger] coins@[j]).denom@ != denom@,
                decreases coins@.len() - i,
            {
                if coins[i].denom.eq(denom) {
                    proof {
                        assert forall|k: int| #[trigger] is_first_coin(coins@, k, denom@) implies k
                            == i by {
                            if k < i {
                            } else if k > i {
                                assert(coins@[i as int].denom@ != denom@);
                            }
                        }
                    }
                    if coins[i].amount != asset.amount {
                        return Err(ContractError::WrongAmount { amount: coins[i].amount });
                    }
                    return Ok(asset.amount);
                }
                i += 1;
            }
            Err(ContractError::WrongToken)
        },
    }
}

/// A payment of `amount` through token contract `token` into `request`.
pub fn check_token_payment(request: &PaymentRequest, token: &String, amount: u128) -> (r: Result<
    (),
    ContractError,
>)
    ensures
        match request.asset.info {
            AssetInfo::NativeToken { .. } => r == Err::<(), ContractError>(ContractError::WrongToken),
            AssetInfo::Token { contract_addr } => r == if contract_addr@ != token@ {
                Err::<(), ContractError>(ContractError::WrongToken)
            } else if request.asset.amount != amount {
                Err(ContractError::WrongAmount { amount })
            } else {
                Ok(())
            },
        },
{
    match &request.asset.info {
        AssetInfo::NativeToken { .. } => Err(ContractError::WrongToken),
        AssetInfo::Token { contract_addr } => {
            if !contract_addr.eq(token) {
                return Err(ContractError::WrongToken);
            }
            if request.asset.amount != amount {
                return Err(ContractError::WrongAmount { amount });
            }
            Ok(())
        },
    }
}

/// Settling `request` on behalf of `customer`: only its customer may, and only once
/// it is paid in full.
pub fn check_settlement(request: &PaymentRequest, customer: &String) -> (r: Result<(), ContractError>)
    ensures
        r == if request.customer@ != customer@ {
            Err::<(), ContractError>(ContractError::Unauthorized)
        } else if request.paid_amount != request.asset.amount {
            Err(ContractError::Unpaid)
        } else {
            Ok(())
        },
{
    if !request.customer.eq(customer) {
        return Err(ContractError::Unauthorized);
    }
    if request.paid_amount != request.asset.amount {
        return Err(ContractError::Unpaid);
    }
    Ok(())
}

} // verus!
