use vstd::prelude::*;

use crate::address::{Address, AssetAccount};
use crate::keyed_map::KeyedMap;
use crate::snapshot::MarketSnapshot;
use crate::market_model::{whitelist_all, Listing, MarketError, MarketEvent, MarketState, LISTING_ID};

verus! {

/// The state of the marketplace: its admin, which assets are private, and who may trade them.
pub struct Marketplace {
    admin: Option<Address>,
    private_assets: KeyedMap<u64, bool>,
    whitelist: KeyedMap<AssetAccount, bool>,
    listings: KeyedMap<u64, Listing>,
}

impl View for Marketplace {
    type V = MarketState;

    closed spec fn view(&self) -> MarketState {
        MarketState {
            admin: self.admin,
            private_assets: self.private_assets@,
            whitelist: self.whitelist@,
            listings: self.listings@,
        }
    }
}

/// A call whose success yields an event: on success the new state and the event are the
/// specified ones; on rejection the error is the specified one and the state is unchanged.
pub open spec fn market_step(pre: MarketState, post: MarketState, r: Result<MarketEvent, MarketError>, spec: Result<(MarketState, MarketEvent), MarketError>) -> bool {
    match r {
        Ok(event) => spec == Ok::<(MarketState, MarketEvent), MarketError>((post, event)),
        Err(e) => spec == Err::<(MarketState, MarketEvent), MarketError>(e) && post == pre,
    }
}

impl Marketplace {
    /// The stored maps are well formed.
    pub closed spec fn wf(&self) -> bool {
        &&& self.private_assets.wf()
        &&& self.whitelist.wf()
        &&& self.listings.wf()
    }

    /// A marketplace that has not been initialized.
    pub fn new() -> (r: Marketplace)
        ensures
            r.wf(),
            r@ == MarketState::empty(),
    {
        let r = Marketplace {
            admin: None,
            private_assets: KeyedMap::new(),
            whitelist: KeyedMap::new(),
            listings: KeyedMap::new(),
        };
        assert(r@ =~= MarketState::empty());
        r
    }

    /// The admin, once initialized.
    pub fn admin(&self) -> (r: Option<Address>)
        ensures
            r == self@.admin,
    {
        self.admin
    }

    /// Whether an asset is private.
    pub fn is_private(&self, asset_id: u64) -> (r: bool)
        requires
            self.wf(),
        ensures
            r == self@.is_private(asset_id),
    {
        match self.private_assets.get(&asset_id) {
            Some(p) => *p,
            None => false,
        }
    }

    /// Whether a user is whitelisted for an asset.
    pub fn is_whitelisted(&self, asset_id: u64, user: Address) -> (r: bool)
        requires
            self.wf(),
        ensures
            r == self@.is_whitelisted(asset_id, user),
    {
        match self.whitelist.get(&AssetAccount { asset_id, account: user }) {
            Some(w) => *w,
            None => false,
        }
    }

    /// Refuses a user who may not trade a private asset.
    fn require_whitelisted_if_private(&self, asset_id: u64, user: Address) -> (r: Result<(), MarketError>)
        requires
            self.wf(),
        ensures
            r is Ok <==> self@.may_trade(asset_id, user),
            r matches Err(e) ==> e == MarketError::NotWhitelisted,
    {
        if self.is_private(asset_id) {
            if !self.is_whitelisted(asset_id, user) {
                return Err(MarketError::NotWhitelisted);
            }
        }
        Ok(())
    }

    /// Refuses a caller who is not the admin.
    fn require_admin(&self, caller: Address) -> (r: Result<(), MarketError>)
        ensures
            match self@.admin_refusal(caller) {
                Some(e) => r == Err::<(), MarketError>(e),
                None => r is Ok,
            },
    {
        match self.admin {
            None => Err(MarketError::AdminNotSet),
            Some(admin) => if admin.same(&caller) {
                Ok(())
            } else {
                Err(MarketError::NotAuthorized)
            },
        }
    }

    /// Lists `amount` of an asset at `price` and stores the listing; `paused` says whether
    /// trading of the asset is paused and `approval` is the governance verdict on it, when
    /// governance is consulted.
    pub fn create_listing(&mut self, seller: Address, asset_id: u64, amount: i128, price: i128, paused: bool, approval: Option<bool>) -> (r: Result<u64, MarketError>)
        requires
            old(self).wf(),
        ensures
            final(self).wf(),
            match r {
                Ok(id) => old(self)@.create_listing(seller, asset_id, amount, price, paused, approval)
                    == Ok::<(MarketState, u64), MarketError>((final(self)@, id)),
                Err(e) => old(self)@.create_listing(seller, asset_id, amount, price, paused, approval)
                    == Err::<(MarketState, u64), MarketError>(e) && final(self)@ == old(self)@,
            },
    {
        if paused {
            return Err(MarketError::Paused);
        }
        match approval {
            Some(false) => {
                return Err(MarketError::NotApprovedByGovernance);
            },
            _ => {},
        }
        self.require_whitelisted_if_private(asset_id, seller)?;
        let ghost pre = self@;
        self.listings.set(LISTING_ID, Listing { asset_id, seller, price, amount, active: true });
        assert(self@ =~= pre.create_listing(seller, asset_id, amount, price, paused, approval)->Ok_0.0);
        Ok(LISTING_ID)
    }

    /// Buys from a listing; `paused` says whether trading of the asset is paused.
    pub fn purchase(&self, buyer: Address, listing_id: u64, amount: i128, asset_id: u64, paused: bool) -> (r: Result<bool, MarketError>)
        requires
            self.wf(),
        ensures
            r == self@.purchase(buyer, asset_id, paused),
    {
        if paused {
            return Err(MarketError::Paused);
        }
        self.require_whitelisted_if_private(asset_id, buyer)?;
        Ok(true)
    }

    /// Cancels a listing; `paused` says whether trading of the asset is paused.
    pub fn cancel_listing(&self, seller: Address, listing_id: u64, asset_id: u64, paused: bool) -> (r: Result<bool, MarketError>)
        ensures
            r == self@.cancel_listing(paused),
    {
        if paused {
            return Err(MarketError::Paused);
        }
        Ok(true)
    }

    /// The listing stored under the given identifier, if any.
    pub fn get_listing(&self, listing_id: u64) -> (r: Option<Listing>)
        requires
            self.wf(),
        ensures
            r == (if self@.listings.contains_key(listing_id) {
                Some(self@.listings[listing_id])
            } else {
                None::<Listing>
            }),
    {
        match self.listings.get(&listing_id) {
            Some(l) => Some(*l),
            None => None,
        }
    }

    /// Sets the admin; refused once it is set.
    pub fn initialize(&mut self, admin: Address) -> (r: Result<(), MarketError>)
        requires
            old(self).wf(),
        ensures
            final(self).wf(),
            match r {
                Ok(_) => old(self)@.initialize(admin) == Ok::<MarketState, MarketError>(final(self)@),
                Err(e) => old(self)@.initialize(admin) == Err::<MarketState, MarketError>(e) && final(self)@ == old(self)@,
            },
    {
        if self.admin.is_some() {
            return Err(MarketError::AlreadyInitialized);
        }
        self.admin = Some(admin);
        Ok(())
    }

    /// Marks an asset private or public; admin only.
    pub fn set_asset_privacy(&mut self, admin: Address, asset_id: u64, private: bool) -> (r: Result<MarketEvent, MarketError>)
        requires
            old(self).wf(),
        ensures
            final(self).wf(),
            market_step(old(self)@, final(self)@, r, old(self)@.set_asset_privacy(admin, asset_id, private)),
    {
        self.require_admin(admin)?;
        let ghost pre = self@;
        self.private_assets.set(asset_id, private);
        assert(self@ =~= pre.set_asset_privacy(admin, asset_id, private)->Ok_0.0);
        Ok(MarketEvent::AssetPrivacyUpdated { asset_id, private })
    }

    /// Whitelists a user for an asset; admin only.
    pub fn add_to_whitelist(&mut self, admin: Address, asset_id: u64, user: Address) -> (r: Result<MarketEvent, MarketError>)
        requires
            old(self).wf(),
        ensures
            final(self).wf(),
            market_step(old(self)@, final(self)@, r, old(self)@.add_to_whitelist(admin, asset_id, user)),
    {
        self.require_admin(admin)?;
        let ghost pre = self@;
        self.whitelist.set(AssetAccount { asset_id, account: user }, true);
        assert(self@ =~= pre.add_to_whitelist(admin, asset_id, user)->Ok_0.0);
        Ok(MarketEvent::UserWhitelisted { asset_id, user })
    }

    /// Removes a user from an asset's whitelist; admin only.
    pub fn remove_from_whitelist(&mut self, admin: Address, asset_id: u64, user: Address) -> (r: Result<MarketEvent, MarketError>)
        requires
            old(self).wf(),
        ensures
            final(self).wf(),
            market_step(old(self)@, final(self)@, r, old(self)@.remove_from_whitelist(admin, asset_id, user)),
    {
        self.require_admin(admin)?;
        let ghost pre = self@;
        self.whitelist.set(AssetAccount { asset_id, account: user }, false);
        assert(self@ =~= pre.remove_from_whitelist(admin, asset_id, user)->Ok_0.0);
        Ok(MarketEvent::UserRemoved { asset_id, user })
    }

    /// Whitelists every user of `users` for an asset; admin only. One event per user.
    pub fn bulk_add_to_whitelist(&mut self, admin: Address, asset_id: u64, users: &Vec<Address>) -> (r: Result<Vec<MarketEvent>, MarketError>)
        requires
            old(self).wf(),
        ensures
            final(self).wf(),
            match r {
                Ok(events) => old(self)@.bulk_add_to_whitelist(admin, asset_id, users@)
                    == Ok::<(MarketState, Seq<MarketEvent>), MarketError>((final(self)@, events@)),
                Err(e) => old(self)@.bulk_add_to_whitelist(admin, asset_id, users@)
                    == Err::<(MarketState, Seq<MarketEvent>), MarketError>(e) && final(self)@ == old(self)@,
            },
    {
        self.require_admin(admin)?;
        let ghost pre = self@;
        let mut events: Vec<MarketEvent> = Vec::new();
        let mut i: usize = 0;
        while i < users.len()
            invariant
                self.wf(),
                i <= users@.len(),
                self@ == (MarketState { whitelist: whitelist_all(pre.whitelist, asset_id, users@.subrange(0, i as int)), ..pre }),
                events@ == users@.subrange(0, i as int).map_values(|user: Address| MarketEvent::UserWhitelisted { asset_id, user }),
            decreases users@.len() - i,
        {
            let user = users[i];
            self.whitelist.set(AssetAccount { asset_id, account: user }, true);
            events.push(MarketEvent::UserWhitelisted { asset_id, user });
            let ghost next = users@.subrange(0, i + 1);
            assert(next.drop_last() =~= users@.subrange(0, i as int));
            assert(self@ =~= MarketState { whitelist: whitelist_all(pre.whitelist, asset_id, next), ..pre });
            assert(events@ =~= next.map_values(|user: Address| MarketEvent::UserWhitelisted { asset_id, user }));
            i = i + 1;
        }
        assert(users@.subrange(0, users@.len() as int) =~= users@);
        Ok(events)
    }
    /// The state as plain data.
    pub fn into_snapshot(self) -> (r: MarketSnapshot)
        requires
            self.wf(),
        ensures
            r.keys_distinct(),
            r.state() == self@,
    {
        let ghost view = self@;
        let r = MarketSnapshot {
            admin: self.admin,
            private_assets: self.private_assets.into_entries(),
            whitelist: self.whitelist.into_entries(),
            listings: self.listings.into_entries(),
        };
        assert(r.state() =~= view);
        r
    }

    /// The marketplace described by a snapshot, or nothing when it holds a key twice.
    pub fn from_snapshot(snapshot: MarketSnapshot) -> (r: Option<Marketplace>)
        ensures
            r is Some <==> snapshot.keys_distinct(),
            r matches Some(m) ==> m.wf() && m@ == snapshot.state(),
    {
        let ghost state = snapshot.state();
        let private_assets = match KeyedMap::from_entries(snapshot.private_assets) {
            Some(m) => m,
            None => {
                return None;
            },
        };
        let whitelist = match KeyedMap::from_entries(snapshot.whitelist) {
            Some(m) => m,
            None => {
                return None;
            },
        };
        let listings = match KeyedMap::from_entries(snapshot.listings) {
            Some(m) => m,
            None => {
                return None;
            },
        };
        let m = Marketplace { admin: snapshot.admin, private_assets, whitelist, listings };
        assert(m@ =~= state);
        Some(m)
    }
}

} // verus!
