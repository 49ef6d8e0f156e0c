use vstd::prelude::*;

use crate::address::{Address, AssetAccount};

verus! {

/// An offer to sell an amount of an asset at a price.
#[derive(Clone, Copy, Debug)]
pub struct Listing {
    pub asset_id: u64,
    pub seller: Address,
    pub price: i128,
    pub amount: i128,
    pub active: bool,
}

impl View for Listing {
    type V = Listing;

    open spec fn view(&self) -> Listing {
        *self
    }
}

/// An event that a successful marketplace operation publishes.
#[derive(Clone, Copy, Debug)]
pub enum MarketEvent {
    AssetPrivacyUpdated { asset_id: u64, private: bool },
    UserWhitelisted { asset_id: u64, user: Address },
    UserRemoved { asset_id: u64, user: Address },
}

/// Why a marketplace operation was rejected.
#[derive(Clone, Copy, Debug, PartialEq, Eq, Structural)]
pub enum MarketError {
    Paused,
    NotApprovedByGovernance,
    NotWhitelisted,
    AlreadyInitialized,
    AdminNotSet,
    NotAuthorized,
}

impl MarketError {
    /// The text of the message with which the contract aborts.
    pub open spec fn message_text(&self) -> Seq<char> {
        match self {
            MarketError::Paused => "operation blocked: asset is paused"@,
            MarketError::NotApprovedByGovernance => "asset not approved by governance"@,
            MarketError::NotWhitelisted => "user not whitelisted for private asset"@,
            MarketError::AlreadyInitialized => "already initialized"@,
            MarketError::AdminNotSet => "admin not set"@,
            MarketError::NotAuthorized => "not authorized: admin only"@,
        }
    }

    /// The message with which the contract aborts.
    pub fn message(&self) -> (r: &'static str)
        ensures
            r@ == self.message_text(),
    {
        match self {
            MarketError::Paused => "operation blocked: asset is paused",
            MarketError::NotApprovedByGovernance => "asset not approved by governance",
            MarketError::NotWhitelisted => "user not whitelisted for private asset",
            MarketError::AlreadyInitialized => "already initialized",
            MarketError::AdminNotSet => "admin not set",
            MarketError::NotAuthorized => "not authorized: admin only",
        }
    }
}

/// The identifier every accepted listing receives; a new listing replaces the one stored
/// under it.
pub const LISTING_ID: u64 = 1;

/// The whole state of the marketplace, as mathematical values.
#[verifier::ext_equal]
pub struct MarketState {
    pub admin: Option<Address>,
    pub private_assets: Map<u64, bool>,
    pub whitelist: Map<AssetAccount, bool>,
    pub listings: Map<u64, Listing>,
}

/// Marks every user of `users` as whitelisted for `asset_id`, in order.
pub open spec fn whitelist_all(whitelist: Map<AssetAccount, bool>, asset_id: u64, users: Seq<Address>) -> Map<AssetAccount, bool>
    decreases users.len(),
{
    if users.len() == 0 {
        whitelist
    } else {
        whitelist_all(whitelist, asset_id, users.drop_last()).insert(
            AssetAccount { asset_id, account: users.last() },
            true,
        )
    }
}

impl MarketState {
    /// The marketplace before initialization.
    pub open spec fn empty() -> MarketState {
        MarketState { admin: None, private_assets: Map::empty(), whitelist: Map::empty(), listings: Map::empty() }
    }

    /// Whether an asset is private; assets are public unless marked.
    pub open spec fn is_private(self, asset_id: u64) -> bool {
        self.private_assets.contains_key(asset_id) && self.private_assets[asset_id]
    }

    /// Whether a user is whitelisted for an asset.
    pub open spec fn is_whitelisted(self, asset_id: u64, user: Address) -> bool {
        let key = AssetAccount { asset_id, account: user };
        self.whitelist.contains_key(key) && self.whitelist[key]
    }

    /// Whether a user may trade an asset: it is public, or the user is whitelisted for it.
    pub open spec fn may_trade(self, asset_id: u64, user: Address) -> bool {
        !self.is_private(asset_id) || self.is_whitelisted(asset_id, user)
    }

    /// Listing, where `paused` says whether trading of the asset is paused and `approval` is
    /// the governance verdict on the asset, when a governance contract is consulted; the
    /// listing is stored, active, under the identifier returned.
    pub open spec fn create_listing(self, seller: Address, asset_id: u64, amount: i128, price: i128, paused: bool, approval: Option<bool>) -> Result<(MarketState, u64), MarketError> {
        if paused {
            Err(MarketError::Paused)
        } else if approval == Some(false) {
            Err(MarketError::NotApprovedByGovernance)
        } else if !self.may_trade(asset_id, seller) {
            Err(MarketError::NotWhitelisted)
        } else {
            Ok((
                MarketState {
                    listings: self.listings.insert(LISTING_ID, Listing { asset_id, seller, price, amount, active: true }),
                    ..self
                },
                LISTING_ID,
            ))
        }
    }

    /// Purchase, where `paused` says whether trading of the asset is paused.
    pub open spec fn purchase(self, buyer: Address, asset_id: u64, paused: bool) -> Result<bool, MarketError> {
        if paused {
            Err(MarketError::Paused)
        } else if !self.may_trade(asset_id, buyer) {
            Err(MarketError::NotWhitelisted)
        } else {
            Ok(true)
        }
    }

    /// Cancellation, where `paused` says whether trading of the asset is paused.
    pub open spec fn cancel_listing(self, paused: bool) -> Result<bool, MarketError> {
        if paused {
            Err(MarketError::Paused)
        } else {
            Ok(true)
        }
    }

    /// Initialization: refused once there is an admin.
    pub open spec fn initialize(self, admin: Address) -> Result<MarketState, MarketError> {
        if self.admin is Some {
            Err(MarketError::AlreadyInitialized)
        } else {
            Ok(MarketState { admin: Some(admin), ..self })
        }
    }

    /// Why `caller` may not act as admin, if it may not.
    pub open spec fn admin_refusal(self, caller: Address) -> Option<MarketError> {
        match self.admin {
            None => Some(MarketError::AdminNotSet),
            Some(admin) => if admin != caller {
                Some(MarketError::NotAuthorized)
            } else {
                None
            },
        }
    }

    /// Marking an asset private or public; admin only.
    pub open spec fn set_asset_privacy(self, admin: Address, asset_id: u64, private: bool) -> Result<(MarketState, MarketEvent), MarketError> {
        match self.admin_refusal(admin) {
            Some(e) => Err(e),
            None => Ok((
                MarketState { private_assets: self.private_assets.insert(asset_id, private), ..self },
                MarketEvent::AssetPrivacyUpdated { asset_id, private },
            )),
        }
    }

    /// Whitelisting a user for an asset; admin only.
    pub open spec fn add_to_whitelist(self, admin: Address, asset_id: u64, user: Address) -> Result<(MarketState, MarketEvent), MarketError> {
        match self.admin_refusal(admin) {
            Some(e) => Err(e),
            None => Ok((
                MarketState {
                    whitelist: self.whitelist.insert(AssetAccount { asset_id, account: user }, true),
                    ..self
                },
                MarketEvent::UserWhitelisted { asset_id, user },
            )),
        }
    }

    /// Removing a user from an asset's whitelist; admin only.
    pub open spec fn remove_from_whitelist(self, admin: Address, asset_id: u64, user: Address) -> Result<(MarketState, MarketEvent), MarketError> {
        match self.admin_refusal(admin) {
            Some(e) => Err(e),
            None => Ok((
                MarketState {
                    whitelist: self.whitelist.insert(AssetAccount { asset_id, account: user }, false),
                    ..self
                },
                MarketEvent::UserRemoved { asset_id, user },
            )),
        }
    }

    /// Whitelisting several users at once; one event per user, in order.
    pub open spec fn bulk_add_to_whitelist(self, admin: Address, asset_id: u64, users: Seq<Address>) -> Result<(MarketState, Seq<MarketEvent>), MarketError> {
        match self.admin_refusal(admin) {
            Some(e) => Err(e),
            None => Ok((
                MarketState { whitelist: whitelist_all(self.whitelist, asset_id, users), ..self },
                users.map_values(|user: Address| MarketEvent::UserWhitelisted { asset_id, user }),
            )),
        }
    }
}

} // verus!
