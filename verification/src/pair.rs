//! Messages of a pool contract.

use crate::asset::{Asset, AssetInfo, CreatePairRequirements};
use vstd::prelude::*;

verus! {

/// A non-negative decimal with 18 fractional digits, held as the integer
/// that it is a multiple of 10^-18 of.
#[derive(Debug, Clone, Copy, PartialEq, Eq)]
pub struct Decimal {
    pub atomics: u128,
}

/// The message by which a token contract hands tokens over: who sent them,
/// how many, and the hook message in its serialised form.
#[derive(Debug, Clone, PartialEq, Eq)]
pub struct Cw20ReceiveMsg {
    pub sender: String,
    pub amount: u128,
    pub msg: Vec<u8>,
}

/// Sets up the pool of one pair.
#[derive(Debug, Clone, PartialEq, Eq)]
pub struct InstantiateMsg {
    pub asset_infos: [AssetInfo; 2],
    /// Template of the liquidity token contract.
    pub token_code_id: u64,
    pub asset_decimals: [u8; 2],
    /// What the first liquidity provision must meet.
    pub requirements: CreatePairRequirements,
}

/// What can be asked of a pool to do.
#[derive(Debug, Clone, PartialEq, Eq)]
pub enum ExecuteMsg {
    /// Tokens handed over by a token contract, with a hook message.
    Receive(Cw20ReceiveMsg),
    /// A user provides liquidity.
    ProvideLiquidity {
        assets: [Asset; 2],
        slippage_tolerance: Option<Decimal>,
        receiver: Option<String>,
    },
}

/// What can come with tokens handed over.
#[derive(Debug, Clone, PartialEq, Eq)]
pub enum Cw20HookMsg {
    /// Sells the tokens for the other asset.
    Swap {
        belief_price: Option<Decimal>,
        max_spread: Option<Decimal>,
        to: Option<String>,
    },
    WithdrawLiquidity {  },
}

/// What can be asked of a pool to tell.
#[derive(Debug, Clone, PartialEq, Eq)]
pub enum QueryMsg {
    Pair {  },
    Pool {  },
    Simulation { offer_asset: Asset },
    ReverseSimulation { ask_asset: Asset },
}

/// Answer to `QueryMsg::Pool`.
#[derive(Debug, Clone, PartialEq, Eq)]
pub struct PoolResponse {
    pub assets: [Asset; 2],
    pub total_share: u128,
}

/// Answer to `QueryMsg::Simulation`.
#[derive(Debug, Clone, PartialEq, Eq)]
pub struct SimulationResponse {
    pub return_amount: u128,
    pub spread_amount: u128,
    pub commission_amount: u128,
}

/// Answer to `QueryMsg::ReverseSimulation`.
#[derive(Debug, Clone, PartialEq, Eq)]
pub struct ReverseSimulationResponse {
    pub offer_amount: u128,
    pub spread_amount: u128,
    pub commission_amount: u128,
}

/// A migration of a pool takes no arguments.
#[derive(Debug, Clone, PartialEq, Eq)]
pub struct MigrateMsg {}

} // verus!
