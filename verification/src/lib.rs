//! Registry core of a pair factory: canonical keys for unordered asset pairs,
//! an ordered pair registry with paginated listing, a native-asset decimals
//! table, the factory configuration and the two-phase pair creation protocol.

pub mod asset;
pub mod byte_order;
pub mod coordinator;
pub mod decimals;
pub mod error;
pub mod factory;
pub mod listing;
pub mod pair;
pub mod pair_key;
pub mod registry;
pub mod state;
pub mod storage;
