//! Messages of the factory.

use crate::asset::{AssetInfo, CreatePairRequirements, PairInfo};
use vstd::prelude::*;

verus! {

/// Sets up a factory with its two contract templates.
#[derive(Debug, Clone, PartialEq, Eq)]
pub struct InstantiateMsg {
    /// Template of the pool contracts.
    pub pair_code_id: u64,
    /// Template of the liquidity token contracts.
    pub token_code_id: u64,
}

/// What can be asked of the factory to do.
#[derive(Debug, Clone, PartialEq, Eq)]
pub enum ExecuteMsg {
    /// Changes owner or templates; only the fields given change.
    UpdateConfig { owner: Option<String>, token_code_id: Option<u64>, pair_code_id: Option<u64> },
    /// Starts the creation of the pool for a pair.
    CreatePair { asset_infos: [AssetInfo; 2], requirements: CreatePairRequirements },
    /// Sets the precision of a native denom.
    AddNativeTokenDecimals { denom: String, decimals: u8 },
    /// Moves a pool to another template.
    MigratePair { contract: String, code_id: Option<u64> },
}

/// What can be asked of the factory to tell.
#[derive(Debug, Clone, PartialEq, Eq)]
pub enum QueryMsg {
    Config {  },
    Pair { asset_infos: [AssetInfo; 2] },
    Pairs { start_after: Option<[AssetInfo; 2]>, limit: Option<u32> },
    NativeTokenDecimals { denom: String },
}

/// Answer to `QueryMsg::Config`.
#[derive(Debug, Clone, PartialEq, Eq)]
pub struct ConfigResponse {
    pub owner: String,
    pub pair_code_id: u64,
    pub token_code_id: u64,
}

/// A migration of the factory takes no arguments.
#[derive(Debug, Clone, PartialEq, Eq)]
pub struct MigrateMsg {}

/// Answer to `QueryMsg::Pairs`.
#[derive(Debug, Clone, PartialEq, Eq)]
pub struct PairsResponse {
    pub pairs: Vec<PairInfo>,
}

/// Answer to `QueryMsg::NativeTokenDecimals`.
#[derive(Debug, Clone, PartialEq, Eq)]
pub struct NativeTokenDecimalsResponse {
    pub decimals: u8,
}

} // verus!
