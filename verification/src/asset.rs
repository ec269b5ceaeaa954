//! Asset identifiers and pair records.

use vstd::prelude::*;

verus! {

/// Mathematical value of an asset identifier.
pub enum AssetIdent {
    NativeToken { denom: Seq<char> },
    Token { contract_addr: Seq<u8> },
}

impl AssetIdent {
    /// Canonical byte form: the UTF-8 bytes of a denom, or the raw bytes of
    /// a canonical contract address.
    pub open spec fn encoding(self) -> Seq<u8> {
        match self {
            AssetIdent::NativeToken { denom } => vstd::utf8::encode_utf8(denom),
            AssetIdent::Token { contract_addr } => contract_addr,
        }
    }
}

/// An asset identifier in stored form: a native denom, or the canonical
/// address bytes of a token contract.
#[derive(Debug, Clone, PartialEq, Eq)]
pub enum AssetInfoRaw {
    NativeToken { denom: String },
    Token { contract_addr: Vec<u8> },
}

impl View for AssetInfoRaw {
    type V = AssetIdent;

    open spec fn view(&self) -> AssetIdent {
        match self {
            AssetInfoRaw::NativeToken { denom } => AssetIdent::NativeToken { denom: denom@ },
            AssetInfoRaw::Token { contract_addr } => AssetIdent::Token {
                contract_addr: contract_addr@,
            },
        }
    }
}

impl AssetInfoRaw {
    /// The canonical byte form of this identifier.
    pub fn as_bytes(&self) -> (bytes: &[u8])
        ensures
            bytes@ == self@.encoding(),
    {
        match self {
            AssetInfoRaw::NativeToken { denom } => denom.as_str().as_bytes(),
            AssetInfoRaw::Token { contract_addr } => contract_addr.as_slice(),
        }
    }

    /// An independent copy with the same value.
    pub fn duplicate(&self) -> (copy: AssetInfoRaw)
        ensures
            copy@ == self@,
    {
        match self {
            AssetInfoRaw::NativeToken { denom } => AssetInfoRaw::NativeToken {
                denom: denom.clone(),
            },
            AssetInfoRaw::Token { contract_addr } => AssetInfoRaw::Token {
                contract_addr: crate::byte_order::copy_bytes(contract_addr.as_slice()),
            },
        }
    }
}

/// An asset identifier as callers write it: a native denom, or the
/// readable address of a token contract.
#[derive(Debug, Clone, PartialEq, Eq)]
pub enum AssetInfo {
    Token { contract_addr: String },
    NativeToken { denom: String },
}

/// An amount of one asset.
#[derive(Debug, Clone, PartialEq, Eq)]
pub struct Asset {
    pub info: AssetInfo,
    pub amount: u128,
}

/// What a pool asks of its first liquidity provision.
#[derive(Debug, Clone, PartialEq, Eq)]
pub struct CreatePairRequirements {
    pub whitelist: Vec<String>,
    pub first_asset_minimum: u128,
    pub second_asset_minimum: u128,
}

/// A registered pair in stored form.
#[derive(Debug, Clone, PartialEq, Eq)]
pub struct PairInfoRaw {
    pub asset_infos: [AssetInfoRaw; 2],
    pub contract_addr: Vec<u8>,
    pub liquidity_token: Vec<u8>,
    pub asset_decimals: [u8; 2],
    pub requirements: CreatePairRequirements,
}

/// A registered pair with readable addresses.
#[derive(Debug, Clone, PartialEq, Eq)]
pub struct PairInfo {
    pub asset_infos: [AssetInfo; 2],
    pub contract_addr: String,
    pub liquidity_token: String,
    pub asset_decimals: [u8; 2],
    pub requirements: CreatePairRequirements,
}

} // verus!
