//! Properties of the marketplace that span calls.
use vstd::prelude::*;

use crate::address::{Address, AssetAccount};
use crate::market_model::{whitelist_all, Listing, MarketError, MarketState, LISTING_ID};

verus! {

/// Whitelisting a user is read back as whitelisted, removing one as not; no other pair changes.
pub proof fn lemma_whitelist_read_back(s: MarketState, admin: Address, asset_id: u64, user: Address, other_asset: u64, other_user: Address)
    requires
        s.admin == Some(admin),
        other_asset != asset_id || other_user != user,
    ensures
        s.add_to_whitelist(admin, asset_id, user)->Ok_0.0.is_whitelisted(asset_id, user),
        !s.remove_from_whitelist(admin, asset_id, user)->Ok_0.0.is_whitelisted(asset_id, user),
        s.add_to_whitelist(admin, asset_id, user)->Ok_0.0.is_whitelisted(other_asset, other_user)
            == s.is_whitelisted(other_asset, other_user),
        s.remove_from_whitelist(admin, asset_id, user)->Ok_0.0.is_whitelisted(other_asset, other_user)
            == s.is_whitelisted(other_asset, other_user),
{
}

/// After whitelisting several users at once, each of them is whitelisted, and no other pair
/// changes.
pub proof fn lemma_bulk_whitelists_all(whitelist: Map<AssetAccount, bool>, asset_id: u64, users: Seq<Address>, key: AssetAccount)
    ensures
        key.asset_id == asset_id && users.contains(key.account) ==> {
            &&& whitelist_all(whitelist, asset_id, users).contains_key(key)
            &&& whitelist_all(whitelist, asset_id, users)[key]
        },
        !(key.asset_id == asset_id && users.contains(key.account)) ==> {
            &&& whitelist_all(whitelist, asset_id, users).contains_key(key) == whitelist.contains_key(key)
            &&& whitelist_all(whitelist, asset_id, users)[key] == whitelist[key]
        },
    decreases users.len(),
{
    if users.len() > 0 {
        lemma_bulk_whitelists_all(whitelist, asset_id, users.drop_last(), key);
        if users.contains(key.account) && key.account != users.last() {
            let i = choose|i: int| 0 <= i < users.len() && users[i] == key.account;
            assert(users.drop_last()[i] == key.account);
        }
        if !users.contains(key.account) {
            assert(!users.drop_last().contains(key.account)) by {
                if users.drop_last().contains(key.account) {
                    let i = choose|i: int| 0 <= i < users.drop_last().len() && users.drop_last()[i] == key.account;
                    assert(users[i] == key.account);
                }
            }
            assert(users.last() != key.account) by {
                assert(users[users.len() - 1] == users.last());
            }
        }
    }
}

/// A user not whitelisted for a private asset can neither list nor buy it.
pub proof fn lemma_private_asset_gated(s: MarketState, user: Address, asset_id: u64, amount: i128, price: i128, paused: bool, approval: Option<bool>)
    requires
        s.is_private(asset_id),
        !s.is_whitelisted(asset_id, user),
    ensures
        s.create_listing(user, asset_id, amount, price, paused, approval) is Err,
        s.purchase(user, asset_id, paused) is Err,
{
}

/// On an asset that is not paused and not refused by governance, anyone allowed to trade it
/// can list it and buy it, and the listing is then read back, active, under its identifier.
pub proof fn lemma_open_trading(s: MarketState, user: Address, asset_id: u64, amount: i128, price: i128, approval: Option<bool>)
    requires
        s.may_trade(asset_id, user),
        approval != Some(false),
    ensures
        s.create_listing(user, asset_id, amount, price, false, approval) is Ok,
        s.create_listing(user, asset_id, amount, price, false, approval)->Ok_0.1 == LISTING_ID,
        s.create_listing(user, asset_id, amount, price, false, approval)->Ok_0.0.listings[LISTING_ID]
            == (Listing { asset_id, seller: user, price, amount, active: true }),
        s.purchase(user, asset_id, false) == Ok::<bool, MarketError>(true),
{
}

/// Only the admin may change privacy or whitelists.
pub proof fn lemma_admin_only(s: MarketState, caller: Address, asset_id: u64, user: Address, private: bool, users: Seq<Address>)
    requires
        s.admin != Some(caller),
    ensures
        s.set_asset_privacy(caller, asset_id, private) is Err,
        s.add_to_whitelist(caller, asset_id, user) is Err,
        s.remove_from_whitelist(caller, asset_id, user) is Err,
        s.bulk_add_to_whitelist(caller, asset_id, users) is Err,
{
}

/// The marketplace can be initialized once only.
pub proof fn lemma_market_initialize_once(s: MarketState, admin: Address, admin2: Address)
    requires
        s.initialize(admin) is Ok,
    ensures
        s.initialize(admin)->Ok_0.initialize(admin2) == Err::<MarketState, MarketError>(MarketError::AlreadyInitialized),
{
}

/// Setting an asset's privacy succeeds exactly for the admin; the asset is then read back as
/// private exactly when it was set so, and no other asset's privacy, no whitelist entry and
/// no listing changes.
pub proof fn lemma_privacy_read_back(s: MarketState, caller: Address, asset_id: u64, private: bool, other: u64)
    requires
        other != asset_id,
    ensures
        s.set_asset_privacy(caller, asset_id, private) is Ok <==> s.admin == Some(caller),
        s.set_asset_privacy(caller, asset_id, private) is Ok ==> {
            let t = s.set_asset_privacy(caller, asset_id, private)->Ok_0.0;
            &&& t.is_private(asset_id) == private
            &&& t.is_private(other) == s.is_private(other)
            &&& t.whitelist == s.whitelist
            &&& t.listings == s.listings
            &&& t.admin == s.admin
        },
{
}

/// While trading of an asset is paused, listing, buying and cancelling are all refused as
/// paused, whoever asks and whatever the governance verdict.
pub proof fn lemma_paused_trading_refused(s: MarketState, user: Address, asset_id: u64, amount: i128, price: i128, approval: Option<bool>)
    ensures
        s.create_listing(user, asset_id, amount, price, true, approval) == Err::<(MarketState, u64), MarketError>(MarketError::Paused),
        s.purchase(user, asset_id, true) == Err::<bool, MarketError>(MarketError::Paused),
        s.cancel_listing(true) == Err::<bool, MarketError>(MarketError::Paused),
{
}

} // verus!
