use vstd::prelude::*;

use crate::address::{nonce_id_bytes, Address, AssetAccount, BridgeId};
use crate::keyed_map::{entry_views, lemma_entries_map_keys, lemma_entries_map_values, KeyedMap};
use crate::snapshot::TokenSnapshot;
use crate::ledger_sum::{
    lemma_seq_total_map, lemma_seq_total_prefix, lemma_total_bounds, lemma_total_insert, seq_total,
};
use crate::token_laws::{lemma_empty_books, lemma_open_books, lemma_remark_books, lemma_settle_books};
use crate::token_model::{
    dividend_payout, event_step, plain_step, TokenState, BPS_DENOMINATOR, DIVIDEND_SCALE,
};
use crate::token_types::{
    Asset, BridgeConfig, BridgeStatus, DividendSchedule, PendingBridge, TargetChain, TokenError,
    TokenEvent, TokenEventView, ValuationConfig, ValuationRecord,
};

verus! {

/// The state of a tokenized asset: balances, valuation, dividends and bridging.
pub struct AssetToken {
    admin: Option<Address>,
    asset: Option<Asset>,
    balances: KeyedMap<Address, i128>,
    total_supply: i128,
    oracle: Option<Address>,
    valuation: Option<ValuationRecord>,
    history: Vec<ValuationRecord>,
    valuation_config: Option<ValuationConfig>,
    dividends: KeyedMap<u64, DividendSchedule>,
    last_claims: KeyedMap<AssetAccount, u64>,
    bridge_config: Option<BridgeConfig>,
    pending: KeyedMap<BridgeId, PendingBridge>,
    pending_counts: KeyedMap<Address, u32>,
    bridge_nonce: u64,
}

impl View for AssetToken {
    type V = TokenState;

    closed spec fn view(&self) -> TokenState {
        TokenState {
            admin: self.admin,
            asset: self.asset,
            balances: self.balances@,
            total_supply: self.total_supply,
            oracle: self.oracle,
            valuation: self.valuation,
            history: self.history@,
            valuation_config: self.valuation_config,
            dividends: self.dividends@,
            last_claims: self.last_claims@,
            bridge_config: self.bridge_config,
            pending: self.pending@,
            pending_counts: self.pending_counts@,
            bridge_nonce: self.bridge_nonce,
        }
    }
}

impl AssetToken {
    /// The stored maps are well formed and the state satisfies its invariant.
    pub closed spec fn wf(&self) -> bool {
        &&& self.balances.wf()
        &&& self.dividends.wf()
        &&& self.last_claims.wf()
        &&& self.pending.wf()
        &&& self.pending_counts.wf()
        &&& self@.wf()
    }

    /// The state of a well-formed token satisfies the token invariant.
    pub proof fn lemma_invariant(&self)
        requires
            self.wf(),
        ensures
            self@.wf(),
    {
    }

    /// A token that has not been initialized.
    pub fn new() -> (r: AssetToken)
        ensures
            r.wf(),
            r@ == TokenState::empty(),
    {
        let r = AssetToken {
            admin: None,
            asset: None,
            balances: KeyedMap::new(),
            total_supply: 0,
            oracle: None,
            valuation: None,
            history: Vec::new(),
            valuation_config: None,
            dividends: KeyedMap::new(),
            last_claims: KeyedMap::new(),
            bridge_config: None,
            pending: KeyedMap::new(),
            pending_counts: KeyedMap::new(),
            bridge_nonce: 0,
        };
        assert(r@.balances.dom() =~= Set::empty());
        assert(r@ =~= TokenState::empty());
        proof {
            lemma_empty_books();
        }
        r
    }

    /// The admin, once initialized.
    pub fn admin(&self) -> (r: Option<Address>)
        ensures
            r == self@.admin,
    {
        self.admin
    }

    /// Sets up the token with its admin and descriptive data; refused once it is set up.
    pub fn initialize(&mut self, admin: Address, name: String, symbol: String, decimals: u32) -> (r: Result<(), TokenError>)
        requires
            old(self).wf(),
        ensures
            final(self).wf(),
            plain_step(old(self)@, final(self)@, r, old(self)@.initialize(admin, name, symbol, decimals)),
    {
        if self.asset.is_some() {
            return Err(TokenError::AlreadyInitialized);
        }
        proof {
            assert(self@.balances.dom().len() == 0);
        }
        self.asset = Some(Asset { id: 1, name, symbol, decimals, owner: admin });
        self.admin = Some(admin);
        self.total_supply = 0;
        Ok(())
    }

    /// The balance of an address; zero when it holds nothing.
    pub fn balance(&self, address: &Address) -> (r: i128)
        requires
            self.wf(),
        ensures
            r == self@.balance(*address),
    {
        match self.balances.get(address) {
            Some(b) => *b,
            None => 0,
        }
    }

    /// The total supply of the token.
    pub fn total_supply(&self) -> (r: i128)
        ensures
            r == self@.total_supply,
    {
        self.total_supply
    }

    /// Mints `amount` to `to`; `paused` says whether minting of the asset is paused.
    pub fn mint(&mut self, to: Address, amount: i128, paused: bool) -> (r: Result<TokenEvent, TokenError>)
        requires
            old(self).wf(),
        ensures
            final(self).wf(),
            event_step(old(self)@, final(self)@, r, old(self)@.mint(to, amount, paused)),
    {
        if amount <= 0 {
            return Err(TokenError::AmountNotPositive);
        }
        if self.admin.is_none() {
            return Err(TokenError::AdminNotSet);
        }
        if paused {
            return Err(TokenError::Paused);
        }
        let balance = self.balance(&to);
        if balance > i128::MAX - amount {
            return Err(TokenError::BalanceOverflow);
        }
        if self.total_supply > i128::MAX - amount {
            return Err(TokenError::SupplyOverflow);
        }
        let ghost pre = self@;
        proof {
            lemma_total_insert(pre.balances, to, (balance + amount) as i128);
        }
        self.balances.set(to, balance + amount);
        self.total_supply = self.total_supply + amount;
        assert(self@ =~= pre.mint(to, amount, paused)->Ok_0.0);
        Ok(TokenEvent::Mint { to, amount })
    }

    /// Moves `amount` from `from` to `to`; `paused` says whether transfers of the asset are paused.
    pub fn transfer(&mut self, from: Address, to: Address, amount: i128, paused: bool) -> (r: Result<TokenEvent, TokenError>)
        requires
            old(self).wf(),
        ensures
            final(self).wf(),
            event_step(old(self)@, final(self)@, r, old(self)@.transfer(from, to, amount, paused)),
    {
        if amount <= 0 {
            return Err(TokenError::AmountNotPositive);
        }
        if paused {
            return Err(TokenError::Paused);
        }
        let from_balance = self.balance(&from);
        if from_balance < amount {
            return Err(TokenError::InsufficientBalance);
        }
        let ghost pre = self@;
        let ghost debited = pre.balances.insert(from, (from_balance - amount) as i128);
        let to_balance = if to.same(&from) {
            from_balance - amount
        } else {
            self.balance(&to)
        };
        assert(to_balance == crate::ledger_sum::ledger_balance(debited, to));
        if to_balance > i128::MAX - amount {
            return Err(TokenError::BalanceOverflow);
        }
        proof {
            lemma_total_insert(pre.balances, from, (from_balance - amount) as i128);
            lemma_total_insert(debited, to, (to_balance + amount) as i128);
        }
        self.balances.set(from, from_balance - amount);
        self.balances.set(to, to_balance + amount);
        assert(self@ =~= pre.transfer(from, to, amount, paused)->Ok_0.0);
        Ok(TokenEvent::Transfer { from, to, amount })
    }

    /// The name of the token.
    pub fn name(&self) -> (r: Result<String, TokenError>)
        ensures
            r == self@.name(),
    {
        match &self.asset {
            Some(asset) => Ok(asset.name.clone()),
            None => Err(TokenError::AssetNotInitialized),
        }
    }

    /// The symbol of the token.
    pub fn symbol(&self) -> (r: Result<String, TokenError>)
        ensures
            r == self@.symbol(),
    {
        match &self.asset {
            Some(asset) => Ok(asset.symbol.clone()),
            None => Err(TokenError::AssetNotInitialized),
        }
    }

    /// The number of decimals of the token.
    pub fn decimals(&self) -> (r: Result<u32, TokenError>)
        ensures
            r == self@.decimals(),
    {
        match &self.asset {
            Some(asset) => Ok(asset.decimals),
            None => Err(TokenError::AssetNotInitialized),
        }
    }
    /// Sets the oracle that may update the valuation.
    pub fn set_oracle(&mut self, oracle: Address) -> (r: Result<(), TokenError>)
        requires
            old(self).wf(),
        ensures
            final(self).wf(),
            plain_step(old(self)@, final(self)@, r, old(self)@.set_oracle(oracle)),
    {
        if self.admin.is_none() {
            return Err(TokenError::AdminNotSet);
        }
        self.oracle = Some(oracle);
        Ok(())
    }

    /// Sets the least time between two valuation updates.
    pub fn set_valuation_config(&mut self, min_interval: u64) -> (r: Result<(), TokenError>)
        requires
            old(self).wf(),
        ensures
            final(self).wf(),
            plain_step(old(self)@, final(self)@, r, old(self)@.set_valuation_config(min_interval)),
    {
        if self.admin.is_none() {
            return Err(TokenError::AdminNotSet);
        }
        self.valuation_config = Some(ValuationConfig { min_interval });
        Ok(())
    }

    /// The current valuation, if any.
    pub fn get_valuation(&self) -> (r: Option<ValuationRecord>)
        ensures
            r == self@.valuation,
    {
        self.valuation
    }

    /// Records a new valuation made by `updater` at time `now`; only the admin or the oracle may.
    pub fn update_valuation(&mut self, updater: Address, new_value: i128, now: u64) -> (r: Result<TokenEvent, TokenError>)
        requires
            old(self).wf(),
        ensures
            final(self).wf(),
            event_step(old(self)@, final(self)@, r, old(self)@.update_valuation(updater, new_value, now)),
    {
        let admin = match self.admin {
            Some(a) => a,
            None => {
                return Err(TokenError::AdminNotSet);
            },
        };
        let is_admin = updater.same(&admin);
        let is_oracle = match self.oracle {
            Some(o) => updater.same(&o),
            None => false,
        };
        if !is_admin && !is_oracle {
            return Err(TokenError::NotAuthorized);
        }
        let min_interval = match self.valuation_config {
            Some(c) => c.min_interval,
            None => 0,
        };
        match self.valuation {
            Some(last) => {
                if last.timestamp > u64::MAX - min_interval {
                    return Err(TokenError::ArithmeticOverflow);
                }
                if now < last.timestamp + min_interval {
                    return Err(TokenError::TooFrequentUpdate);
                }
            },
            None => {},
        }
        let ghost pre = self@;
        let record = ValuationRecord { value: new_value, timestamp: now };
        self.valuation = Some(record);
        self.history.push(record);
        assert(self@ =~= pre.update_valuation(updater, new_value, now)->Ok_0.0);
        Ok(TokenEvent::ValuationUpdated { value: new_value })
    }

    /// Schedules a dividend of `total_dividend` for `asset_id`, first payable `interval`
    /// seconds after `now`.
    pub fn schedule_dividend(&mut self, asset_id: u64, total_dividend: i128, payout_asset: Address, interval: u64, now: u64) -> (r: Result<TokenEvent, TokenError>)
        requires
            old(self).wf(),
        ensures
            final(self).wf(),
            event_step(old(self)@, final(self)@, r, old(self)@.schedule_dividend(asset_id, total_dividend, payout_asset, interval, now)),
    {
        if self.admin.is_none() {
            return Err(TokenError::AdminNotSet);
        }
        if total_dividend <= 0 {
            return Err(TokenError::DividendNotPositive);
        }
        if self.total_supply == 0 {
            return Err(TokenError::ZeroSupply);
        }
        let scaled = match total_dividend.checked_mul(DIVIDEND_SCALE) {
            Some(v) => v,
            None => {
                return Err(TokenError::Overflow);
            },
        };
        if now > u64::MAX - interval {
            return Err(TokenError::ArithmeticOverflow);
        }
        proof {
            crate::ledger_sum::lemma_total_nonneg(self@.balances);
        }
        let amount_per_token = scaled / self.total_supply;
        let ghost pre = self@;
        let schedule = DividendSchedule {
            total_dividend,
            payout_asset,
            next_payout_time: now + interval,
            interval,
            amount_per_token,
        };
        self.dividends.set(asset_id, schedule);
        assert(self@ =~= pre.schedule_dividend(asset_id, total_dividend, payout_asset, interval, now)->Ok_0.0);
        Ok(TokenEvent::DividendScheduled { asset_id, total_dividend })
    }

    /// Claims the dividend of `asset_id` due to `claimant` at time `now`; the event carries
    /// the amount paid out.
    pub fn claim_dividend(&mut self, asset_id: u64, claimant: Address, now: u64) -> (r: Result<TokenEvent, TokenError>)
        requires
            old(self).wf(),
        ensures
            final(self).wf(),
            event_step(old(self)@, final(self)@, r, old(self)@.claim_dividend(asset_id, claimant, now)),
    {
        let schedule = match self.dividends.get(&asset_id) {
            Some(s) => *s,
            None => {
                return Err(TokenError::NoDividendSchedule);
            },
        };
        if now < schedule.next_payout_time {
            return Err(TokenError::PayoutNotDue);
        }
        let key = AssetAccount { asset_id, account: claimant };
        match self.last_claims.get(&key) {
            Some(last) => {
                if *last >= schedule.next_payout_time {
                    return Err(TokenError::AlreadyClaimed);
                }
            },
            None => {},
        }
        let balance = self.balance(&claimant);
        if balance == 0 {
            return Err(TokenError::NoTokensHeld);
        }
        let product = match balance.checked_mul(schedule.amount_per_token) {
            Some(p) => p,
            None => {
                return Err(TokenError::Overflow);
            },
        };
        proof {
            crate::ledger_sum::lemma_total_bounds(self@.balances, claimant);
            assert(balance >= 0);
            assert(schedule.amount_per_token >= 0);
            assert(product >= 0) by (nonlinear_arith)
                requires
                    product == balance * schedule.amount_per_token,
                    balance >= 0,
                    schedule.amount_per_token >= 0,
            ;
        }
        let gross = product / DIVIDEND_SCALE;
        let fee = gross * 2 / 100;
        let payout = gross - fee;
        assert(payout == dividend_payout(balance as int, schedule.amount_per_token as int));
        let ghost pre = self@;
        self.last_claims.set(key, now);
        assert(self@ =~= pre.claim_dividend(asset_id, claimant, now)->Ok_0.0);
        Ok(TokenEvent::DividendClaimed { asset_id, claimant, amount: payout })
    }

    /// The dividend scheduled for `asset_id`, if any.
    pub fn get_dividend_info(&self, asset_id: u64) -> (r: Option<DividendSchedule>)
        requires
            self.wf(),
        ensures
            r == (if self@.dividends.contains_key(asset_id) {
                Some(self@.dividends[asset_id])
            } else {
                None::<DividendSchedule>
            }),
    {
        match self.dividends.get(&asset_id) {
            Some(s) => Some(*s),
            None => None,
        }
    }

    /// All valuations recorded, oldest first.
    pub fn get_valuation_history(&self) -> (r: Vec<ValuationRecord>)
        ensures
            r@ == self@.history,
    {
        let mut out: Vec<ValuationRecord> = Vec::new();
        let mut i: usize = 0;
        while i < self.history.len()
            invariant
                i <= self.history@.len(),
                out@ == self.history@.subrange(0, i as int),
            decreases self.history@.len() - i,
        {
            out.push(self.history[i]);
            i = i + 1;
            assert(out@ =~= self.history@.subrange(0, i as int));
        }
        assert(self.history@.subrange(0, self.history@.len() as int) =~= self.history@);
        out
    }
    /// Configures bridging; bridging starts unpaused.
    pub fn set_bridge_config(&mut self, fee_bps: u32, relayer_pool: Address, bridge_timeout: u64, max_pending_per_user: u32, relayer_pubkey: [u8; 32]) -> (r: Result<TokenEvent, TokenError>)
        requires
            old(self).wf(),
        ensures
            final(self).wf(),
            event_step(old(self)@, final(self)@, r, old(self)@.set_bridge_config(fee_bps, relayer_pool, bridge_timeout, max_pending_per_user, relayer_pubkey)),
    {
        if self.admin.is_none() {
            return Err(TokenError::AdminNotSet);
        }
        let ghost pre = self@;
        self.bridge_config = Some(BridgeConfig {
            fee_bps,
            relayer_pool,
            bridge_timeout,
            max_pending_per_user,
            paused: false,
            relayer_pubkey,
        });
        assert(self@ =~= pre.set_bridge_config(fee_bps, relayer_pool, bridge_timeout, max_pending_per_user, relayer_pubkey)->Ok_0.0);
        Ok(TokenEvent::BridgeConfigured { fee_bps })
    }

    /// Pauses or resumes bridging.
    pub fn set_bridge_paused(&mut self, paused: bool) -> (r: Result<TokenEvent, TokenError>)
        requires
            old(self).wf(),
        ensures
            final(self).wf(),
            event_step(old(self)@, final(self)@, r, old(self)@.set_bridge_paused(paused)),
    {
        if self.admin.is_none() {
            return Err(TokenError::AdminNotSet);
        }
        let mut config = match self.bridge_config {
            Some(c) => c,
            None => {
                return Err(TokenError::BridgeNotConfigured);
            },
        };
        let ghost pre = self@;
        config.paused = paused;
        self.bridge_config = Some(config);
        assert(self@ =~= pre.set_bridge_paused(paused)->Ok_0.0);
        Ok(TokenEvent::BridgePaused { paused })
    }

    /// The bridging configuration, if set.
    pub fn get_bridge_config(&self) -> (r: Option<BridgeConfig>)
        ensures
            r == self@.bridge_config,
    {
        self.bridge_config
    }

    /// The bridge operation with the given identifier, if any.
    pub fn get_pending_bridge(&self, bridge_id: &BridgeId) -> (r: Option<PendingBridge>)
        requires
            self.wf(),
        ensures
            match r {
                Some(p) => self@.pending.contains_key(bridge_id@) && p@ == self@.pending[bridge_id@],
                None => !self@.pending.contains_key(bridge_id@),
            },
    {
        match self.pending.get(bridge_id) {
            Some(p) => Some(p.duplicate()),
            None => None,
        }
    }

    /// Starts an outbound bridge of `amount` from `caller` at time `now`: burns the amount,
    /// credits the fee to the relayer pool and records the operation as pending under a
    /// fresh identifier, which is returned with the event.
    pub fn bridge_out(&mut self, caller: Address, asset_id: Address, amount: i128, target_chain: TargetChain, target_address: Vec<u8>, now: u64) -> (r: Result<(BridgeId, TokenEvent), TokenError>)
        requires
            old(self).wf(),
        ensures
            final(self).wf(),
            match r {
                Ok((id, event)) => old(self)@.bridge_out(caller, asset_id, amount, target_chain, target_address@, now)
                    == Ok::<(TokenState, Seq<u8>, TokenEventView), TokenError>((final(self)@, id@, event@)),
                Err(e) => old(self)@.bridge_out(caller, asset_id, amount, target_chain, target_address@, now)
                    == Err::<(TokenState, Seq<u8>, TokenEventView), TokenError>(e) && final(self)@ == old(self)@,
            },
    {
        if amount <= 0 {
            return Err(TokenError::AmountNotPositive);
        }
        let config = match self.bridge_config {
            Some(c) => c,
            None => {
                return Err(TokenError::BridgeNotConfigured);
            },
        };
        if config.paused {
            return Err(TokenError::BridgePaused);
        }
        let count = match self.pending_counts.get(&caller) {
            Some(c) => *c,
            None => 0,
        };
        if count >= config.max_pending_per_user {
            return Err(TokenError::TooManyPendingBridges);
        }
        let balance = self.balance(&caller);
        if balance < amount {
            return Err(TokenError::InsufficientBalance);
        }
        let bps = config.fee_bps as i128;
        assert(amount * bps >= 0) by (nonlinear_arith)
            requires
                amount > 0,
                bps >= 0,
        ;
        let product = match amount.checked_mul(bps) {
            Some(p) => p,
            None => {
                return Err(TokenError::FeeOverflow);
            },
        };
        if self.total_supply < i128::MIN + amount {
            return Err(TokenError::SupplyUnderflow);
        }
        let fee = product / BPS_DENOMINATOR;
        let pool = config.relayer_pool;
        let ghost pre = self@;
        let ghost debited = pre.balances.insert(caller, (balance - amount) as i128);
        let pool_balance = if pool.same(&caller) {
            balance - amount
        } else {
            self.balance(&pool)
        };
        assert(pool_balance == crate::ledger_sum::ledger_balance(debited, pool));
        if pool_balance > i128::MAX - fee {
            return Err(TokenError::PoolBalanceOverflow);
        }
        let reduced = self.total_supply - amount;
        if reduced > i128::MAX - fee {
            return Err(TokenError::SupplyOverflow);
        }
        if self.bridge_nonce == u64::MAX {
            return Err(TokenError::NonceOverflow);
        }
        if now > u64::MAX - config.bridge_timeout {
            return Err(TokenError::ArithmeticOverflow);
        }
        let id = BridgeId::from_nonce(self.bridge_nonce);
        proof {
            lemma_total_insert(pre.balances, caller, (balance - amount) as i128);
            lemma_total_insert(debited, pool, (pool_balance + fee) as i128);
        }
        let ghost target = target_address@;
        let recorded_address = target_address.clone();
        assert(recorded_address@ =~= target);
        let record = PendingBridge {
            caller,
            asset_id,
            amount: amount - fee,
            fee,
            target_chain,
            target_address: recorded_address,
            timeout: now + config.bridge_timeout,
            status: BridgeStatus::Pending,
        };
        let ghost recorded = record@;
        self.balances.set(caller, balance - amount);
        self.balances.set(pool, pool_balance + fee);
        self.total_supply = reduced + fee;
        self.bridge_nonce = self.bridge_nonce + 1;
        self.pending.set(id, record);
        self.pending_counts.set(caller, count + 1);
        assert(self@ =~= pre.bridge_out(caller, asset_id, amount, target_chain, target, now)->Ok_0.0);
        proof {
            lemma_open_books(pre, self@, recorded);
        }
        Ok((id, TokenEvent::BridgeInitiated { caller, target_chain, asset_id, net_amount: amount - fee, target_address }))
    }

    /// Marks a bridge record with `status`; when `release` holds, also lowers its caller's
    /// pending count.
    fn settle(&mut self, bridge_id: BridgeId, status: BridgeStatus, release: bool)
        requires
            old(self).wf(),
            old(self)@.pending.contains_key(bridge_id@),
            status != BridgeStatus::Pending,
            release == (old(self)@.pending[bridge_id@].status == BridgeStatus::Pending),
        ensures
            final(self).wf(),
            final(self)@ == (TokenState {
                pending: old(self)@.pending.insert(
                    bridge_id@,
                    crate::token_types::PendingBridgeView { status, ..old(self)@.pending[bridge_id@] },
                ),
                pending_counts: if release {
                    old(self)@.pending_counts.insert(
                        old(self)@.pending[bridge_id@].caller,
                        old(self)@.settled_count(old(self)@.pending[bridge_id@].caller),
                    )
                } else {
                    old(self)@.pending_counts
                },
                ..old(self)@
            }),
    {
        let mut record = match self.pending.get(&bridge_id) {
            Some(p) => p.duplicate(),
            None => {
                return;
            },
        };
        let ghost pre = self@;
        record.status = status;
        let caller = record.caller;
        self.pending.set(bridge_id, record);
        if release {
            let count = match self.pending_counts.get(&caller) {
                Some(c) => *c,
                None => 1,
            };
            let settled = if count > 0 {
                count - 1
            } else {
                0
            };
            self.pending_counts.set(caller, settled);
        }
        assert(self@.pending =~= pre.pending.insert(
            bridge_id@,
            crate::token_types::PendingBridgeView { status, ..pre.pending[bridge_id@] },
        ));
        proof {
            if release {
                lemma_settle_books(pre, self@, bridge_id@, status);
            } else {
                lemma_remark_books(pre, self@, bridge_id@, status);
            }
        }
    }

    /// Completes an inbound bridge: mints `amount` to `recipient` and, when a bridge record
    /// with the identifier exists, marks it completed, lowering its caller's pending count
    /// only when the record was still pending.
    pub fn bridge_in(&mut self, bridge_id: BridgeId, recipient: Address, asset_id: Address, amount: i128, source_chain: TargetChain) -> (r: Result<TokenEvent, TokenError>)
        requires
            old(self).wf(),
        ensures
            final(self).wf(),
            event_step(old(self)@, final(self)@, r, old(self)@.bridge_in(bridge_id@, recipient, asset_id, amount, source_chain)),
    {
        if amount <= 0 {
            return Err(TokenError::AmountNotPositive);
        }
        let config = match self.bridge_config {
            Some(c) => c,
            None => {
                return Err(TokenError::BridgeNotConfigured);
            },
        };
        if config.paused {
            return Err(TokenError::BridgePaused);
        }
        if self.admin.is_none() {
            return Err(TokenError::AdminNotSet);
        }
        let balance = self.balance(&recipient);
        if balance > i128::MAX - amount {
            return Err(TokenError::BalanceOverflow);
        }
        if self.total_supply > i128::MAX - amount {
            return Err(TokenError::SupplyOverflow);
        }
        let ghost pre = self@;
        proof {
            lemma_total_insert(pre.balances, recipient, (balance + amount) as i128);
        }
        self.balances.set(recipient, balance + amount);
        self.total_supply = self.total_supply + amount;
        let recorded = match self.pending.get(&bridge_id) {
            Some(p) => Some(p.status == BridgeStatus::Pending),
            None => None,
        };
        if let Some(was_pending) = recorded {
            self.settle(bridge_id, BridgeStatus::Completed, was_pending);
        }
        assert(self@ =~= pre.bridge_in(bridge_id@, recipient, asset_id, amount, source_chain)->Ok_0.0);
        Ok(TokenEvent::BridgeCompleted { recipient, source_chain, asset_id, amount })
    }

    /// Marks a pending bridge whose timeout has passed at time `now` as failed.
    pub fn expire_bridge(&mut self, bridge_id: BridgeId, now: u64) -> (r: Result<TokenEvent, TokenError>)
        requires
            old(self).wf(),
        ensures
            final(self).wf(),
            event_step(old(self)@, final(self)@, r, old(self)@.expire_bridge(bridge_id@, now)),
    {
        let (status, timeout, amount) = match self.pending.get(&bridge_id) {
            Some(p) => (p.status, p.timeout, p.amount),
            None => {
                return Err(TokenError::BridgeNotFound);
            },
        };
        if status != BridgeStatus::Pending {
            return Err(TokenError::BridgeNotPending);
        }
        if now < timeout {
            return Err(TokenError::BridgeNotExpired);
        }
        let ghost pre = self@;
        self.settle(bridge_id, BridgeStatus::Failed, true);
        assert(self@ =~= pre.expire_bridge(bridge_id@, now)->Ok_0.0);
        Ok(TokenEvent::BridgeExpired { amount })
    }
    /// The state as plain data.
    pub fn into_snapshot(self) -> (r: TokenSnapshot)
        requires
            self.wf(),
        ensures
            r.keys_distinct(),
            r.state() == self@,
    {
        let ghost view = self@;
        let r = TokenSnapshot {
            admin: self.admin,
            asset: self.asset,
            balances: self.balances.into_entries(),
            total_supply: self.total_supply,
            oracle: self.oracle,
            valuation: self.valuation,
            history: self.history,
            valuation_config: self.valuation_config,
            dividends: self.dividends.into_entries(),
            last_claims: self.last_claims.into_entries(),
            bridge_config: self.bridge_config,
            pending: self.pending.into_entries(),
            pending_counts: self.pending_counts.into_entries(),
            bridge_nonce: self.bridge_nonce,
        };
        assert(r.state() =~= view);
        r
    }

    /// The token described by a snapshot, or nothing when the snapshot holds a key twice
    /// or describes a state that breaks the token invariant.
    pub fn from_snapshot(snapshot: TokenSnapshot) -> (r: Option<AssetToken>)
        ensures
            r is Some <==> snapshot.keys_distinct() && snapshot.state().wf(),
            r matches Some(t) ==> t.wf() && t@ == snapshot.state(),
    {
        let ghost state = snapshot.state();
        let ghost balance_views = entry_views(snapshot.balances@);
        // Balances: none negative, and their sum is the supply.
        if snapshot.total_supply < 0 {
            proof {
                if snapshot.keys_distinct() && state.wf() {
                    crate::ledger_sum::lemma_total_nonneg(state.balances);
                }
            }
            return None;
        }
        let mut sum: i128 = 0;
        let mut i: usize = 0;
        while i < snapshot.balances.len()
            invariant
                state == snapshot.state(),
                balance_views == entry_views(snapshot.balances@),
                i <= snapshot.balances@.len(),
                0 <= sum <= snapshot.total_supply,
                sum == seq_total(balance_views.take(i as int)),
                forall|j: int| 0 <= j < i ==> #[trigger] balance_views[j].1 >= 0,
            decreases snapshot.balances@.len() - i,
        {
            let v = snapshot.balances[i].1;
            proof {
                assert(balance_views[i as int] == (snapshot.balances@[i as int].0, v));
                assert(balance_views.take(i + 1).drop_last() =~= balance_views.take(i as int));
            }
            if v < 0 || v > snapshot.total_supply - sum {
                proof {
                    if snapshot.keys_distinct() && state.wf() {
                        lemma_entries_map_values(balance_views);
                        lemma_entries_map_keys(balance_views);
                        assert(state.balances.contains_key(balance_views[i as int].0));
                        assert(forall|j: int| 0 <= j < balance_views.len() ==> #[trigger] balance_views[j].1 == state.balances[balance_views[j].0]);
                        lemma_seq_total_map(balance_views);
                        assert forall|j: int| 0 <= j < balance_views.len() implies #[trigger] balance_views[j].1 >= 0 by {
                            assert(state.balances.contains_key(balance_views[j].0));
                        }
                        lemma_seq_total_prefix(balance_views, i + 1);
                    }
                }
                return None;
            }
            sum = sum + v;
            i = i + 1;
        }
        proof {
            assert(balance_views.take(i as int) =~= balance_views);
        }
        if sum != snapshot.total_supply {
            proof {
                if snapshot.keys_distinct() && state.wf() {
                    lemma_seq_total_map(balance_views);
                }
            }
            return None;
        }
        // Dividend rates: none negative.
        let ghost dividend_views = entry_views(snapshot.dividends@);
        let mut i: usize = 0;
        while i < snapshot.dividends.len()
            invariant
                state == snapshot.state(),
                dividend_views == entry_views(snapshot.dividends@),
                i <= snapshot.dividends@.len(),
                forall|j: int| 0 <= j < i ==> (#[trigger] dividend_views[j]).1.amount_per_token >= 0,
            decreases snapshot.dividends@.len() - i,
        {
            proof {
                assert(dividend_views[i as int] == (snapshot.dividends@[i as int].0, snapshot.dividends@[i as int].1));
            }
            if snapshot.dividends[i].1.amount_per_token < 0 {
                proof {
                    if snapshot.keys_distinct() && state.wf() {
                        lemma_entries_map_values(dividend_views);
                        lemma_entries_map_keys(dividend_views);
                        assert(state.dividends.contains_key(dividend_views[i as int].0));
                    }
                }
                return None;
            }
            i = i + 1;
        }
        // Bridge records: each filed under the identifier of a nonce already used.
        let ghost pending_views = entry_views(snapshot.pending@);
        let mut i: usize = 0;
        while i < snapshot.pending.len()
            invariant
                state == snapshot.state(),
                pending_views == entry_views(snapshot.pending@),
                i <= snapshot.pending@.len(),
                forall|j: int| 0 <= j < i ==> exists|n: u64|
                    n < snapshot.bridge_nonce && (#[trigger] pending_views[j]).0 == #[trigger] nonce_id_bytes(n),
            decreases snapshot.pending@.len() - i,
        {
            proof {
                assert(pending_views[i as int].0 == snapshot.pending@[i as int].0@);
            }
            let found = snapshot.pending[i].0.nonce();
            let known = match found {
                Some(n) => n < snapshot.bridge_nonce,
                None => false,
            };
            if !known {
                proof {
                    if snapshot.keys_distinct() && state.wf() {
                        lemma_entries_map_keys(pending_views);
                        let key = pending_views[i as int].0;
                        assert(state.pending.contains_key(key));
                        let n = choose|n: u64| n < snapshot.bridge_nonce && key == nonce_id_bytes(n);
                        if let Some(m) = found {
                            crate::address::lemma_nonce_id_injective(n, m);
                        }
                    }
                }
                return None;
            }
            i = i + 1;
        }
        // The rest of the invariant.
        let valuation_ok = if snapshot.history.len() == 0 {
            snapshot.valuation.is_none()
        } else {
            match snapshot.valuation {
                Some(v) => v == snapshot.history[snapshot.history.len() - 1],
                None => false,
            }
        };
        let setup_ok = (snapshot.asset.is_some() || (snapshot.admin.is_none() && snapshot.balances.len() == 0))
            && (snapshot.admin.is_some() || snapshot.bridge_config.is_none());
        proof {
            lemma_entries_map_keys(balance_views);
            if balance_views.len() > 0 {
                assert(state.balances.contains_key(balance_views[0].0));
            } else {
                assert(state.balances.dom() =~= Set::empty());
            }
        }
        if !valuation_ok || !setup_ok {
            return None;
        }
        if !snapshot.pending_counts_agree() {
            return None;
        }
        let balances = match KeyedMap::from_entries(snapshot.balances) {
            Some(m) => m,
            None => {
                return None;
            },
        };
        let dividends = match KeyedMap::from_entries(snapshot.dividends) {
            Some(m) => m,
            None => {
                return None;
            },
        };
        let last_claims = match KeyedMap::from_entries(snapshot.last_claims) {
            Some(m) => m,
            None => {
                return None;
            },
        };
        let pending = match KeyedMap::from_entries(snapshot.pending) {
            Some(m) => m,
            None => {
                return None;
            },
        };
        let pending_counts = match KeyedMap::from_entries(snapshot.pending_counts) {
            Some(m) => m,
            None => {
                return None;
            },
        };
        let t = AssetToken {
            admin: snapshot.admin,
            asset: snapshot.asset,
            balances,
            total_supply: snapshot.total_supply,
            oracle: snapshot.oracle,
            valuation: snapshot.valuation,
            history: snapshot.history,
            valuation_config: snapshot.valuation_config,
            dividends,
            last_claims,
            bridge_config: snapshot.bridge_config,
            pending,
            pending_counts,
            bridge_nonce: snapshot.bridge_nonce,
        };
        proof {
            assert(t@ =~= state);
            lemma_seq_total_map(balance_views);
            lemma_entries_map_values(balance_views);
            lemma_entries_map_values(dividend_views);
            lemma_entries_map_keys(dividend_views);
            lemma_entries_map_keys(pending_views);
            assert forall|a: Address| #[trigger] state.balances.contains_key(a) implies state.balances[a] >= 0 by {
                let j = choose|j: int| 0 <= j < balance_views.len() && balance_views[j].0 == a;
            }
            assert forall|id: u64| #[trigger] state.dividends.contains_key(id) implies state.dividends[id].amount_per_token >= 0 by {
                let j = choose|j: int| 0 <= j < dividend_views.len() && dividend_views[j].0 == id;
            }
            assert forall|id: Seq<u8>| #[trigger] state.pending.contains_key(id) implies exists|n: u64|
                n < state.bridge_nonce && id == #[trigger] nonce_id_bytes(n) by {
                let j = choose|j: int| 0 <= j < pending_views.len() && pending_views[j].0 == id;
            }
        }
        Some(t)
    }
}

} // verus!
