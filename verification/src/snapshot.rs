use vstd::prelude::*;

use crate::address::{Address, AssetAccount, BridgeId};
use crate::keyed_map::{entries_map, entry_views, keys_distinct, lemma_entries_map_keys, lemma_entries_map_values};
use crate::market_model::{Listing, MarketState};
use crate::token_model::{
    count_in, counts_agree, lemma_no_pending_entries, lemma_pending_entries, pending_entries, pending_in,
    TokenState,
};
use crate::token_types::{
    Asset, BridgeConfig, BridgeStatus, DividendSchedule, PendingBridge, ValuationConfig, ValuationRecord,
};

verus! {

/// The whole state of a token as plain data, each map given as a list of entries; the form
/// in which the state is stored between calls.
pub struct TokenSnapshot {
    pub admin: Option<Address>,
    pub asset: Option<Asset>,
    pub balances: Vec<(Address, i128)>,
    pub total_supply: i128,
    pub oracle: Option<Address>,
    pub valuation: Option<ValuationRecord>,
    pub history: Vec<ValuationRecord>,
    pub valuation_config: Option<ValuationConfig>,
    pub dividends: Vec<(u64, DividendSchedule)>,
    pub last_claims: Vec<(AssetAccount, u64)>,
    pub bridge_config: Option<BridgeConfig>,
    pub pending: Vec<(BridgeId, PendingBridge)>,
    pub pending_counts: Vec<(Address, u32)>,
    pub bridge_nonce: u64,
}

impl TokenSnapshot {
    /// The token state the snapshot describes.
    pub open spec fn state(&self) -> TokenState {
        TokenState {
            admin: self.admin,
            asset: self.asset,
            balances: entries_map(entry_views(self.balances@)),
            total_supply: self.total_supply,
            oracle: self.oracle,
            valuation: self.valuation,
            history: self.history@,
            valuation_config: self.valuation_config,
            dividends: entries_map(entry_views(self.dividends@)),
            last_claims: entries_map(entry_views(self.last_claims@)),
            bridge_config: self.bridge_config,
            pending: entries_map(entry_views(self.pending@)),
            pending_counts: entries_map(entry_views(self.pending_counts@)),
            bridge_nonce: self.bridge_nonce,
        }
    }

    /// No list of entries holds a key twice.
    pub open spec fn keys_distinct(&self) -> bool {
        &&& keys_distinct(entry_views(self.balances@))
        &&& keys_distinct(entry_views(self.dividends@))
        &&& keys_distinct(entry_views(self.last_claims@))
        &&& keys_distinct(entry_views(self.pending@))
        &&& keys_distinct(entry_views(self.pending_counts@))
    }

    /// Whether each recorded pending count is the number of its address's bridges still
    /// pending, and every address with a pending bridge has a recorded count; with distinct
    /// keys, exactly when the described state's counts agree with its bridge records.
    pub(crate) fn pending_counts_agree(&self) -> (r: bool)
        ensures
            self.keys_distinct() ==> (r == counts_agree(self.state().pending, self.state().pending_counts)),
    {
        let ghost records = entry_views(self.pending@);
        let ghost counts = entry_views(self.pending_counts@);
        let ghost state = self.state();
        // Each recorded count is the number of its address's pending bridges.
        let mut i: usize = 0;
        while i < self.pending_counts.len()
            invariant
                state == self.state(),
                records == entry_views(self.pending@),
                counts == entry_views(self.pending_counts@),
                i <= counts.len(),
                forall|k: int| 0 <= k < i ==> (#[trigger] counts[k]).1 == pending_entries(records, counts[k].0),
            decreases counts.len() - i,
        {
            let owner = self.pending_counts[i].0;
            let recorded = self.pending_counts[i].1;
            let mut found: usize = 0;
            let mut j: usize = 0;
            while j < self.pending.len()
                invariant
                    state == self.state(),
                    records == entry_views(self.pending@),
                    j <= records.len(),
                    found <= j,
                    found == pending_entries(records.take(j as int), owner),
                decreases records.len() - j,
            {
                proof {
                    assert(records.take(j + 1).drop_last() =~= records.take(j as int));
                    assert(records.take(j + 1).last() == records[j as int]);
                }
                if self.pending[j].1.caller.same(&owner) && self.pending[j].1.status == BridgeStatus::Pending {
                    found = found + 1;
                }
                j = j + 1;
            }
            proof {
                assert(records.take(j as int) =~= records);
                assert(counts[i as int] == (owner, recorded));
            }
            if found != recorded as usize {
                proof {
                    if self.keys_distinct() {
                        lemma_entries_map_keys(counts);
                        lemma_entries_map_values(counts);
                        lemma_pending_entries(records, owner);
                        assert(state.pending_counts.contains_key(counts[i as int].0));
                        assert(count_in(state.pending_counts, owner) != pending_in(state.pending, owner).len());
                    }
                }
                return false;
            }
            i = i + 1;
        }
        // Every pending bridge's caller has a recorded count.
        let mut j: usize = 0;
        while j < self.pending.len()
            invariant
                state == self.state(),
                records == entry_views(self.pending@),
                counts == entry_views(self.pending_counts@),
                j <= records.len(),
                forall|l: int| 0 <= l < j && (#[trigger] records[l]).1.status == BridgeStatus::Pending ==> exists|k: int|
                    0 <= k < counts.len() && counts[k].0 == records[l].1.caller,
            decreases records.len() - j,
        {
            proof {
                assert(records[j as int] == (self.pending@[j as int].0@, self.pending@[j as int].1@));
            }
            if self.pending[j].1.status == BridgeStatus::Pending {
                let caller = self.pending[j].1.caller;
                let mut k: usize = 0;
                let mut known = false;
                while k < self.pending_counts.len() && !known
                    invariant
                        state == self.state(),
                        counts == entry_views(self.pending_counts@),
                        k <= counts.len(),
                        known ==> exists|m: int| 0 <= m < counts.len() && counts[m].0 == caller,
                        !known ==> forall|m: int| 0 <= m < k ==> (#[trigger] counts[m]).0 != caller,
                    decreases counts.len() - k,
                {
                    proof {
                        assert(counts[k as int].0 == self.pending_counts@[k as int].0);
                    }
                    if self.pending_counts[k].0.same(&caller) {
                        known = true;
                    }
                    k = k + 1;
                }
                if !known {
                    proof {
                        if self.keys_distinct() {
                            lemma_entries_map_keys(counts);
                            lemma_entries_map_keys(records);
                            lemma_entries_map_values(records);
                            lemma_pending_entries(records, caller);
                            let id = records[j as int].0;
                            assert(state.pending.contains_key(id));
                            assert(pending_in(state.pending, caller).contains(id));
                            assert(!state.pending_counts.contains_key(caller));
                            assert(count_in(state.pending_counts, caller) != pending_in(state.pending, caller).len());
                        }
                    }
                    return false;
                }
            }
            j = j + 1;
        }
        proof {
            if self.keys_distinct() {
                lemma_entries_map_keys(counts);
                lemma_entries_map_values(counts);
                assert forall|u: Address| #[trigger] count_in(state.pending_counts, u) == pending_in(state.pending, u).len() by {
                    lemma_pending_entries(records, u);
                    if state.pending_counts.contains_key(u) {
                        let k = choose|k: int| 0 <= k < counts.len() && counts[k].0 == u;
                        assert(counts[k].1 == pending_entries(records, counts[k].0));
                    } else {
                        assert forall|l: int| 0 <= l < records.len() implies !((#[trigger] records[l]).1.caller == u
                            && records[l].1.status == BridgeStatus::Pending) by {
                            if records[l].1.caller == u && records[l].1.status == BridgeStatus::Pending {
                                let k = choose|k: int| 0 <= k < counts.len() && counts[k].0 == records[l].1.caller;
                                assert(state.pending_counts.contains_key(counts[k].0));
                            }
                        }
                        lemma_no_pending_entries(records, u);
                    }
                }
            }
        }
        true
    }
}

/// The whole state of a marketplace as plain data.
pub struct MarketSnapshot {
    pub admin: Option<Address>,
    pub private_assets: Vec<(u64, bool)>,
    pub whitelist: Vec<(AssetAccount, bool)>,
    pub listings: Vec<(u64, Listing)>,
}

impl MarketSnapshot {
    /// The marketplace state the snapshot describes.
    pub open spec fn state(&self) -> MarketState {
        MarketState {
            admin: self.admin,
            private_assets: entries_map(entry_views(self.private_assets@)),
            whitelist: entries_map(entry_views(self.whitelist@)),
            listings: entries_map(entry_views(self.listings@)),
        }
    }

    /// No list of entries holds a key twice.
    pub open spec fn keys_distinct(&self) -> bool {
        &&& keys_distinct(entry_views(self.private_assets@))
        &&& keys_distinct(entry_views(self.whitelist@))
        &&& keys_distinct(entry_views(self.listings@))
    }
}

} // verus!
