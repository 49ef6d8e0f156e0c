//! Verified state machines for the asset token and the marketplace.

mod address;
mod asset_token;
mod keyed_map;
pub mod ledger_sum;
pub mod market_laws;
pub mod market_model;
mod marketplace;
pub mod token_model;
pub mod token_laws;
mod snapshot;
mod token_types;

pub use asset_token::AssetToken;
pub use marketplace::Marketplace;
pub use snapshot::{MarketSnapshot, TokenSnapshot};
pub use market_model::{Listing, MarketError, MarketEvent, MarketState};
pub use address::{Address, AssetAccount, BridgeId};
pub use token_types::{
    Asset, BridgeConfig, BridgeStatus, DividendSchedule, PendingBridge, PendingBridgeView,
    TargetChain, TokenError, TokenEvent, TokenEventView, ValuationConfig, ValuationRecord,
};
