//! The two kinds of asset the contracts move: native coins and token contracts.
use vstd::prelude::*;

verus! {

/// Which asset: a token contract by address, or a native coin by denomination.
#[derive(Debug, Clone)]
pub enum AssetInfo {
    Token { contract_addr: String },
    NativeToken { denom: String },
}

/// An amount of an asset.
#[derive(Debug, Clone)]
pub struct Asset {
    pub info: AssetInfo,
    pub amount: u128,
}

/// The same kind of asset under the same address or denomination.
pub open spec fn same_asset(a: AssetInfo, b: AssetInfo) -> bool {
    match (a, b) {
        (AssetInfo::Token { contract_addr: x }, AssetInfo::Token { contract_addr: y }) => x@ == y@,
        (AssetInfo::NativeToken { denom: x }, AssetInfo::NativeToken { denom: y }) => x@ == y@,
        _ => false,
    }
}

/// The address or denomination that names the asset.
pub open spec fn asset_label(a: AssetInfo) -> Seq<char> {
    match a {
        AssetInfo::Token { contract_addr } => contract_addr@,
        AssetInfo::NativeToken { denom } => denom@,
    }
}

impl AssetInfo {
    pub fn is_native_token(&self) -> (r: bool)
        ensures
            r == (self is NativeToken),
    {
        match self {
            AssetInfo::NativeToken { .. } => true,
            AssetInfo::Token { .. } => false,
        }
    }

    pub fn equal(&self, asset: &AssetInfo) -> (r: bool)
        ensures
            r == same_asset(*self, *asset),
    {
        match self {
            AssetInfo::Token { contract_addr } => {
                let self_contract_addr = contract_addr;
                match asset {
                    AssetInfo::Token { contract_addr } => self_contract_addr.eq(contract_addr),
                    AssetInfo::NativeToken { .. } => false,
                }
            },
            AssetInfo::NativeToken { denom } => {
                let self_denom = denom;
                match asset {
                    AssetInfo::Token { .. } => false,
                    AssetInfo::NativeToken { denom } => self_denom.eq(denom),
                }
            },
        }
    }

    /// The address or denomination, as the asset is written in messages and events.
    pub fn label(&self) -> (r: String)
        ensures
            r@ == asset_label(*self),
    {
        match self {
            AssetInfo::Token { contract_addr } => contract_addr.clone(),
            AssetInfo::NativeToken { denom } => denom.clone(),
        }
    }
}

impl Asset {
    pub fn is_native_token(&self) -> (r: bool)
        ensures
            r == (self.info is NativeToken),
    {
        self.info.is_native_token()
    }
}

} // verus!
