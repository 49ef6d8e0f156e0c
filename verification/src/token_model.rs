use vstd::prelude::*;

use crate::address::{nonce_id_bytes, Address, AssetAccount};
use crate::keyed_map::{entries_map, keys_distinct, lemma_entries_map_keys};
use crate::ledger_sum::{ledger_balance, map_total};
use crate::token_types::{
    Asset, BridgeConfig, BridgeStatus, DividendSchedule, PendingBridgeView, TargetChain, TokenError,
    TokenEvent, TokenEventView, ValuationConfig, ValuationRecord,
};

verus! {

/// Scale of the per-token dividend amount.
pub const DIVIDEND_SCALE: i128 = 10_000_000;

/// Basis points in a whole.
pub const BPS_DENOMINATOR: i128 = 10_000;

/// The whole state of an asset token, as mathematical values.
#[verifier::ext_equal]
pub struct TokenState {
    pub admin: Option<Address>,
    pub asset: Option<Asset>,
    pub balances: Map<Address, i128>,
    pub total_supply: i128,
    pub oracle: Option<Address>,
    pub valuation: Option<ValuationRecord>,
    pub history: Seq<ValuationRecord>,
    pub valuation_config: Option<ValuationConfig>,
    pub dividends: Map<u64, DividendSchedule>,
    pub last_claims: Map<AssetAccount, u64>,
    pub bridge_config: Option<BridgeConfig>,
    pub pending: Map<Seq<u8>, PendingBridgeView>,
    pub pending_counts: Map<Address, u32>,
    pub bridge_nonce: u64,
}

/// The pending count recorded for an address; zero when none is recorded.
pub open spec fn count_in(counts: Map<Address, u32>, a: Address) -> u32 {
    if counts.contains_key(a) {
        counts[a]
    } else {
        0
    }
}

/// Each address's recorded pending count is the number of its bridges still pending.
pub open spec fn counts_agree(pending: Map<Seq<u8>, PendingBridgeView>, counts: Map<Address, u32>) -> bool {
    forall|caller: Address| #[trigger] count_in(counts, caller) == pending_in(pending, caller).len()
}

/// The identifiers of the bridge records of `caller` that are still pending.
pub open spec fn pending_in(pending: Map<Seq<u8>, PendingBridgeView>, caller: Address) -> Set<Seq<u8>> {
    pending.dom().filter(|id: Seq<u8>| pending[id].caller == caller && pending[id].status == BridgeStatus::Pending)
}

/// The number of entries in a list of bridge records that are still pending for `caller`.
pub open spec fn pending_entries(entries: Seq<(Seq<u8>, PendingBridgeView)>, caller: Address) -> nat
    decreases entries.len(),
{
    if entries.len() == 0 {
        0
    } else {
        pending_entries(entries.drop_last(), caller) + if entries.last().1.caller == caller
            && entries.last().1.status == BridgeStatus::Pending {
            1nat
        } else {
            0nat
        }
    }
}

/// Over a list of records with distinct identifiers, the count of pending entries is the
/// number of pending bridges in the map the list describes.
pub proof fn lemma_pending_entries(entries: Seq<(Seq<u8>, PendingBridgeView)>, caller: Address)
    requires
        keys_distinct(entries),
    ensures
        pending_in(entries_map(entries), caller).finite(),
        pending_in(entries_map(entries), caller).len() == pending_entries(entries, caller),
    decreases entries.len(),
{
    lemma_entries_map_keys(entries);
    let m = entries_map(entries);
    m.dom().lemma_len_filter(|id: Seq<u8>| m[id].caller == caller && m[id].status == BridgeStatus::Pending);
    if entries.len() == 0 {
        assert(pending_in(m, caller) =~= Set::empty());
    } else {
        let init = entries.drop_last();
        let (k, v) = entries.last();
        assert(keys_distinct(init));
        lemma_pending_entries(init, caller);
        lemma_entries_map_keys(init);
        assert(!entries_map(init).contains_key(k)) by {
            if entries_map(init).contains_key(k) {
                let j = choose|j: int| 0 <= j < init.len() && init[j].0 == k;
                assert(entries[j].0 == entries[entries.len() - 1].0);
            }
        }
        if v.caller == caller && v.status == BridgeStatus::Pending {
            assert(pending_in(m, caller) =~= pending_in(entries_map(init), caller).insert(k));
        } else {
            assert(pending_in(m, caller) =~= pending_in(entries_map(init), caller));
        }
    }
}

/// A list with no entry pending for `caller` counts none.
pub proof fn lemma_no_pending_entries(entries: Seq<(Seq<u8>, PendingBridgeView)>, caller: Address)
    requires
        forall|j: int| 0 <= j < entries.len() ==> !((#[trigger] entries[j]).1.caller == caller
            && entries[j].1.status == BridgeStatus::Pending),
    ensures
        pending_entries(entries, caller) == 0,
    decreases entries.len(),
{
    if entries.len() > 0 {
        let init = entries.drop_last();
        assert forall|j: int| 0 <= j < init.len() implies !((#[trigger] init[j]).1.caller == caller
            && init[j].1.status == BridgeStatus::Pending) by {
            assert(init[j] == entries[j]);
        }
        lemma_no_pending_entries(init, caller);
        assert(entries.last() == entries[entries.len() - 1]);
    }
}

/// The amount paid out on a claim: the holder's share of the dividend less a fee of 2%.
pub open spec fn dividend_payout(balance: int, amount_per_token: int) -> int {
    let gross = balance * amount_per_token / DIVIDEND_SCALE as int;
    gross - gross * 2 / 100
}

/// The bridging fee charged on an amount.
pub open spec fn bridge_fee(amount: int, fee_bps: u32) -> int {
    amount * fee_bps / BPS_DENOMINATOR as int
}

impl TokenState {
    /// The state of a token before initialization.
    pub open spec fn empty() -> TokenState {
        TokenState {
            admin: None,
            asset: None,
            balances: Map::empty(),
            total_supply: 0,
            oracle: None,
            valuation: None,
            history: Seq::empty(),
            valuation_config: None,
            dividends: Map::empty(),
            last_claims: Map::empty(),
            bridge_config: None,
            pending: Map::empty(),
            pending_counts: Map::empty(),
            bridge_nonce: 0,
        }
    }

    /// The balance of an address; zero when it has none.
    pub open spec fn balance(self, a: Address) -> int {
        ledger_balance(self.balances, a)
    }

    /// The number of pending bridges counted for an address.
    pub open spec fn pending_count(self, a: Address) -> u32 {
        count_in(self.pending_counts, a)
    }

    /// What every reachable state satisfies: no balance is negative, the total supply is
    /// the sum of all balances, nothing is held before initialization, every dividend rate
    /// is non-negative, the current valuation is the last one recorded, and the bridge books
    /// balance: every bridge record is filed under the identifier of a nonce already used,
    /// and each address's pending count is the number of its bridges still pending.
    pub open spec fn wf(self) -> bool {
        &&& self.balances.dom().finite()
        &&& forall|a: Address| #[trigger] self.balances.contains_key(a) ==> self.balances[a] >= 0
        &&& self.total_supply == map_total(self.balances)
        &&& self.asset is None ==> self.admin is None && self.balances.dom().is_empty()
        &&& self.admin is None ==> self.bridge_config is None
        &&& forall|id: u64| #[trigger] self.dividends.contains_key(id) ==> self.dividends[id].amount_per_token >= 0
        &&& self.valuation_is_last()
        &&& self.bridge_books()
    }

    /// The current valuation is the last one recorded, and there is none before the first.
    pub open spec fn valuation_is_last(self) -> bool {
        self.valuation == if self.history.len() == 0 {
            None::<ValuationRecord>
        } else {
            Some(self.history.last())
        }
    }

    /// Every bridge record is filed under the identifier of a nonce already used.
    pub open spec fn ids_fresh(self) -> bool {
        forall|id: Seq<u8>| #[trigger] self.pending.contains_key(id) ==> exists|n: u64|
            n < self.bridge_nonce && id == #[trigger] nonce_id_bytes(n)
    }

    /// The bridges of `caller` that are still pending.
    pub open spec fn pending_of(self, caller: Address) -> Set<Seq<u8>> {
        pending_in(self.pending, caller)
    }

    /// The bridge books balance: the records are finitely many, filed under used nonces, and
    /// each address's pending count is the number of its bridges still pending.
    pub open spec fn bridge_books(self) -> bool {
        &&& self.pending.dom().finite()
        &&& self.ids_fresh()
        &&& counts_agree(self.pending, self.pending_counts)
    }

    /// Initialization: refused once the token has its descriptive data.
    pub open spec fn initialize(self, admin: Address, name: String, symbol: String, decimals: u32) -> Result<TokenState, TokenError> {
        if self.asset is Some {
            Err(TokenError::AlreadyInitialized)
        } else {
            Ok(TokenState {
                asset: Some(Asset { id: 1, name, symbol, decimals, owner: admin }),
                admin: Some(admin),
                total_supply: 0,
                ..self
            })
        }
    }

    /// Minting, where `paused` says whether minting of the asset is paused.
    pub open spec fn mint(self, to: Address, amount: i128, paused: bool) -> Result<(TokenState, TokenEventView), TokenError> {
        if amount <= 0 {
            Err(TokenError::AmountNotPositive)
        } else if self.admin is None {
            Err(TokenError::AdminNotSet)
        } else if paused {
            Err(TokenError::Paused)
        } else if self.balance(to) + amount > i128::MAX {
            Err(TokenError::BalanceOverflow)
        } else if self.total_supply + amount > i128::MAX {
            Err(TokenError::SupplyOverflow)
        } else {
            Ok((
                TokenState {
                    balances: self.balances.insert(to, (self.balance(to) + amount) as i128),
                    total_supply: (self.total_supply + amount) as i128,
                    ..self
                },
                TokenEventView::Mint { to, amount },
            ))
        }
    }

    /// Transfer, where `paused` says whether transfers of the asset are paused.
    pub open spec fn transfer(self, from: Address, to: Address, amount: i128, paused: bool) -> Result<(TokenState, TokenEventView), TokenError> {
        if amount <= 0 {
            Err(TokenError::AmountNotPositive)
        } else if paused {
            Err(TokenError::Paused)
        } else if self.balance(from) < amount {
            Err(TokenError::InsufficientBalance)
        } else {
            let debited = self.balances.insert(from, (self.balance(from) - amount) as i128);
            let to_balance = ledger_balance(debited, to);
            if to_balance + amount > i128::MAX {
                Err(TokenError::BalanceOverflow)
            } else {
                Ok((
                    TokenState { balances: debited.insert(to, (to_balance + amount) as i128), ..self },
                    TokenEventView::Transfer { from, to, amount },
                ))
            }
        }
    }

    /// The token's name, once initialized.
    pub open spec fn name(self) -> Result<String, TokenError> {
        match self.asset {
            Some(asset) => Ok(asset.name),
            None => Err(TokenError::AssetNotInitialized),
        }
    }

    /// The token's symbol, once initialized.
    pub open spec fn symbol(self) -> Result<String, TokenError> {
        match self.asset {
            Some(asset) => Ok(asset.symbol),
            None => Err(TokenError::AssetNotInitialized),
        }
    }

    /// The token's number of decimals, once initialized.
    pub open spec fn decimals(self) -> Result<u32, TokenError> {
        match self.asset {
            Some(asset) => Ok(asset.decimals),
            None => Err(TokenError::AssetNotInitialized),
        }
    }

    /// Setting the oracle; needs an admin.
    pub open spec fn set_oracle(self, oracle: Address) -> Result<TokenState, TokenError> {
        if self.admin is None {
            Err(TokenError::AdminNotSet)
        } else {
            Ok(TokenState { oracle: Some(oracle), ..self })
        }
    }

    /// Setting the least time between valuation updates; needs an admin.
    pub open spec fn set_valuation_config(self, min_interval: u64) -> Result<TokenState, TokenError> {
        if self.admin is None {
            Err(TokenError::AdminNotSet)
        } else {
            Ok(TokenState { valuation_config: Some(ValuationConfig { min_interval }), ..self })
        }
    }

    /// The least time between valuation updates; zero when none is configured.
    pub open spec fn min_interval(self) -> u64 {
        match self.valuation_config {
            Some(c) => c.min_interval,
            None => 0,
        }
    }

    /// A valuation update by `updater` at time `now`: only the admin or the oracle, and no
    /// sooner than the least interval after the last one.
    pub open spec fn update_valuation(self, updater: Address, new_value: i128, now: u64) -> Result<(TokenState, TokenEventView), TokenError> {
        match self.admin {
            None => Err(TokenError::AdminNotSet),
            Some(admin) => {
                if updater != admin && self.oracle != Some(updater) {
                    Err(TokenError::NotAuthorized)
                } else if self.valuation is Some && self.valuation->0.timestamp + self.min_interval() > u64::MAX {
                    Err(TokenError::ArithmeticOverflow)
                } else if self.valuation is Some && now < self.valuation->0.timestamp + self.min_interval() {
                    Err(TokenError::TooFrequentUpdate)
                } else {
                    let record = ValuationRecord { value: new_value, timestamp: now };
                    Ok((
                        TokenState { valuation: Some(record), history: self.history.push(record), ..self },
                        TokenEventView::ValuationUpdated { value: new_value },
                    ))
                }
            },
        }
    }

    /// Scheduling a dividend at time `now`: its per-token amount is scaled by
    /// [`DIVIDEND_SCALE`] and divided by the supply; it is first payable `interval` later.
    pub open spec fn schedule_dividend(self, asset_id: u64, total_dividend: i128, payout_asset: Address, interval: u64, now: u64) -> Result<(TokenState, TokenEventView), TokenError> {
        if self.admin is None {
            Err(TokenError::AdminNotSet)
        } else if total_dividend <= 0 {
            Err(TokenError::DividendNotPositive)
        } else if self.total_supply == 0 {
            Err(TokenError::ZeroSupply)
        } else if total_dividend * DIVIDEND_SCALE > i128::MAX {
            Err(TokenError::Overflow)
        } else if now + interval > u64::MAX {
            Err(TokenError::ArithmeticOverflow)
        } else {
            let schedule = DividendSchedule {
                total_dividend,
                payout_asset,
                next_payout_time: (now + interval) as u64,
                interval,
                amount_per_token: (total_dividend * DIVIDEND_SCALE / self.total_supply as int) as i128,
            };
            Ok((
                TokenState { dividends: self.dividends.insert(asset_id, schedule), ..self },
                TokenEventView::DividendScheduled { asset_id, total_dividend },
            ))
        }
    }

    /// A claim at time `now`: once the payout is due, once per payout time, by a holder.
    pub open spec fn claim_dividend(self, asset_id: u64, claimant: Address, now: u64) -> Result<(TokenState, TokenEventView), TokenError> {
        let key = AssetAccount { asset_id, account: claimant };
        if !self.dividends.contains_key(asset_id) {
            Err(TokenError::NoDividendSchedule)
        } else if now < self.dividends[asset_id].next_payout_time {
            Err(TokenError::PayoutNotDue)
        } else if self.last_claims.contains_key(key) && self.last_claims[key] >= self.dividends[asset_id].next_payout_time {
            Err(TokenError::AlreadyClaimed)
        } else if self.balance(claimant) == 0 {
            Err(TokenError::NoTokensHeld)
        } else if self.balance(claimant) * self.dividends[asset_id].amount_per_token > i128::MAX
            || self.balance(claimant) * self.dividends[asset_id].amount_per_token < i128::MIN {
            Err(TokenError::Overflow)
        } else {
            Ok((
                TokenState { last_claims: self.last_claims.insert(key, now), ..self },
                TokenEventView::DividendClaimed {
                    asset_id,
                    claimant,
                    amount: dividend_payout(self.balance(claimant), self.dividends[asset_id].amount_per_token as int) as i128,
                },
            ))
        }
    }

    /// Configuring bridging; needs an admin; bridging starts unpaused.
    pub open spec fn set_bridge_config(self, fee_bps: u32, relayer_pool: Address, bridge_timeout: u64, max_pending_per_user: u32, relayer_pubkey: [u8; 32]) -> Result<(TokenState, TokenEventView), TokenError> {
        if self.admin is None {
            Err(TokenError::AdminNotSet)
        } else {
            Ok((
                TokenState {
                    bridge_config: Some(BridgeConfig {
                        fee_bps,
                        relayer_pool,
                        bridge_timeout,
                        max_pending_per_user,
                        paused: false,
                        relayer_pubkey,
                    }),
                    ..self
                },
                TokenEventView::BridgeConfigured { fee_bps },
            ))
        }
    }

    /// Pausing or resuming bridging; needs an admin and a configuration.
    pub open spec fn set_bridge_paused(self, paused: bool) -> Result<(TokenState, TokenEventView), TokenError> {
        if self.admin is None {
            Err(TokenError::AdminNotSet)
        } else if self.bridge_config is None {
            Err(TokenError::BridgeNotConfigured)
        } else {
            Ok((
                TokenState { bridge_config: Some(BridgeConfig { paused, ..self.bridge_config->0 }), ..self },
                TokenEventView::BridgePaused { paused },
            ))
        }
    }
    /// The pending count of `caller` after one of its bridges is settled: one less, never
    /// below zero, where a missing count is taken as one.
    pub open spec fn settled_count(self, caller: Address) -> u32 {
        let count = if self.pending_counts.contains_key(caller) {
            self.pending_counts[caller]
        } else {
            1
        };
        if count > 0 {
            (count - 1) as u32
        } else {
            0
        }
    }

    /// An outbound bridge at time `now`: burns the amount from the caller, credits the fee
    /// to the relayer pool, and records the rest as pending under the identifier of the
    /// current nonce, which is returned.
    pub open spec fn bridge_out(self, caller: Address, asset_id: Address, amount: i128, target_chain: TargetChain, target_address: Seq<u8>, now: u64) -> Result<(TokenState, Seq<u8>, TokenEventView), TokenError> {
        if amount <= 0 {
            Err(TokenError::AmountNotPositive)
        } else if self.bridge_config is None {
            Err(TokenError::BridgeNotConfigured)
        } else {
            let config = self.bridge_config->0;
            if config.paused {
                Err(TokenError::BridgePaused)
            } else if self.pending_count(caller) >= config.max_pending_per_user {
                Err(TokenError::TooManyPendingBridges)
            } else if self.balance(caller) < amount {
                Err(TokenError::InsufficientBalance)
            } else if amount * config.fee_bps > i128::MAX {
                Err(TokenError::FeeOverflow)
            } else if self.total_supply - amount < i128::MIN {
                Err(TokenError::SupplyUnderflow)
            } else {
                let fee = bridge_fee(amount as int, config.fee_bps);
                let debited = self.balances.insert(caller, (self.balance(caller) - amount) as i128);
                let pool_balance = ledger_balance(debited, config.relayer_pool);
                if pool_balance + fee > i128::MAX {
                    Err(TokenError::PoolBalanceOverflow)
                } else if self.total_supply - amount + fee > i128::MAX {
                    Err(TokenError::SupplyOverflow)
                } else if self.bridge_nonce + 1 > u64::MAX {
                    Err(TokenError::NonceOverflow)
                } else if now + config.bridge_timeout > u64::MAX {
                    Err(TokenError::ArithmeticOverflow)
                } else {
                    let id = nonce_id_bytes(self.bridge_nonce);
                    let record = PendingBridgeView {
                        caller,
                        asset_id,
                        amount: (amount - fee) as i128,
                        fee: fee as i128,
                        target_chain,
                        target_address,
                        timeout: (now + config.bridge_timeout) as u64,
                        status: BridgeStatus::Pending,
                    };
                    Ok((
                        TokenState {
                            balances: debited.insert(config.relayer_pool, (pool_balance + fee) as i128),
                            total_supply: (self.total_supply - amount + fee) as i128,
                            bridge_nonce: (self.bridge_nonce + 1) as u64,
                            pending: self.pending.insert(id, record),
                            pending_counts: self.pending_counts.insert(caller, (self.pending_count(caller) + 1) as u32),
                            ..self
                        },
                        id,
                        TokenEventView::BridgeInitiated { caller, target_chain, asset_id, net_amount: (amount - fee) as i128, target_address },
                    ))
                }
            }
        }
    }

    /// An inbound bridge: mints the amount to the recipient and, when a bridge record with the
    /// identifier exists, marks it completed; its caller's pending count is lowered only when
    /// the record was still pending.
    pub open spec fn bridge_in(self, bridge_id: Seq<u8>, recipient: Address, asset_id: Address, amount: i128, source_chain: TargetChain) -> Result<(TokenState, TokenEventView), TokenError> {
        if amount <= 0 {
            Err(TokenError::AmountNotPositive)
        } else if self.bridge_config is None {
            Err(TokenError::BridgeNotConfigured)
        } else if self.bridge_config->0.paused {
            Err(TokenError::BridgePaused)
        } else if self.admin is None {
            Err(TokenError::AdminNotSet)
        } else if self.balance(recipient) + amount > i128::MAX {
            Err(TokenError::BalanceOverflow)
        } else if self.total_supply + amount > i128::MAX {
            Err(TokenError::SupplyOverflow)
        } else {
            let credited = TokenState {
                balances: self.balances.insert(recipient, (self.balance(recipient) + amount) as i128),
                total_supply: (self.total_supply + amount) as i128,
                ..self
            };
            let settled = if self.pending.contains_key(bridge_id) {
                let record = self.pending[bridge_id];
                TokenState {
                    pending: self.pending.insert(bridge_id, PendingBridgeView { status: BridgeStatus::Completed, ..record }),
                    pending_counts: if record.status == BridgeStatus::Pending {
                        self.pending_counts.insert(record.caller, self.settled_count(record.caller))
                    } else {
                        self.pending_counts
                    },
                    ..credited
                }
            } else {
                credited
            };
            Ok((settled, TokenEventView::BridgeCompleted { recipient, source_chain, asset_id, amount }))
        }
    }

    /// Expiring a pending bridge whose timeout has passed at time `now`.
    pub open spec fn expire_bridge(self, bridge_id: Seq<u8>, now: u64) -> Result<(TokenState, TokenEventView), TokenError> {
        if !self.pending.contains_key(bridge_id) {
            Err(TokenError::BridgeNotFound)
        } else {
            let record = self.pending[bridge_id];
            if record.status != BridgeStatus::Pending {
                Err(TokenError::BridgeNotPending)
            } else if now < record.timeout {
                Err(TokenError::BridgeNotExpired)
            } else {
                Ok((
                    TokenState {
                        pending: self.pending.insert(bridge_id, PendingBridgeView { status: BridgeStatus::Failed, ..record }),
                        pending_counts: self.pending_counts.insert(record.caller, self.settled_count(record.caller)),
                        ..self
                    },
                    TokenEventView::BridgeExpired { amount: record.amount },
                ))
            }
        }
    }
}

/// A call of a token operation with the inputs its caller supplies.
pub enum TokenCall {
    Initialize { admin: Address, name: String, symbol: String, decimals: u32 },
    Mint { to: Address, amount: i128, paused: bool },
    Transfer { from: Address, to: Address, amount: i128, paused: bool },
    SetOracle { oracle: Address },
    SetValuationConfig { min_interval: u64 },
    UpdateValuation { updater: Address, new_value: i128, now: u64 },
    ScheduleDividend { asset_id: u64, total_dividend: i128, payout_asset: Address, interval: u64, now: u64 },
    ClaimDividend { asset_id: u64, claimant: Address, now: u64 },
    SetBridgeConfig { fee_bps: u32, relayer_pool: Address, bridge_timeout: u64, max_pending_per_user: u32, relayer_pubkey: [u8; 32] },
    SetBridgePaused { paused: bool },
    BridgeOut { caller: Address, asset_id: Address, amount: i128, target_chain: TargetChain, target_address: Seq<u8>, now: u64 },
    BridgeIn { bridge_id: Seq<u8>, recipient: Address, asset_id: Address, amount: i128, source_chain: TargetChain },
    ExpireBridge { bridge_id: Seq<u8>, now: u64 },
}

/// The new state of a step that also yields an event, or the reason it is refused.
pub open spec fn state_of(r: Result<(TokenState, TokenEventView), TokenError>) -> Result<TokenState, TokenError> {
    match r {
        Ok((t, _)) => Ok(t),
        Err(e) => Err(e),
    }
}

impl TokenState {
    /// The state after a call, or the reason the call is refused.
    pub open spec fn step(self, call: TokenCall) -> Result<TokenState, TokenError> {
        match call {
            TokenCall::Initialize { admin, name, symbol, decimals } => self.initialize(admin, name, symbol, decimals),
            TokenCall::Mint { to, amount, paused } => state_of(self.mint(to, amount, paused)),
            TokenCall::Transfer { from, to, amount, paused } => state_of(self.transfer(from, to, amount, paused)),
            TokenCall::SetOracle { oracle } => self.set_oracle(oracle),
            TokenCall::SetValuationConfig { min_interval } => self.set_valuation_config(min_interval),
            TokenCall::UpdateValuation { updater, new_value, now } => state_of(self.update_valuation(updater, new_value, now)),
            TokenCall::ScheduleDividend { asset_id, total_dividend, payout_asset, interval, now } =>
                state_of(self.schedule_dividend(asset_id, total_dividend, payout_asset, interval, now)),
            TokenCall::ClaimDividend { asset_id, claimant, now } => state_of(self.claim_dividend(asset_id, claimant, now)),
            TokenCall::SetBridgeConfig { fee_bps, relayer_pool, bridge_timeout, max_pending_per_user, relayer_pubkey } =>
                state_of(self.set_bridge_config(fee_bps, relayer_pool, bridge_timeout, max_pending_per_user, relayer_pubkey)),
            TokenCall::SetBridgePaused { paused } => state_of(self.set_bridge_paused(paused)),
            TokenCall::BridgeOut { caller, asset_id, amount, target_chain, target_address, now } =>
                match self.bridge_out(caller, asset_id, amount, target_chain, target_address, now) {
                    Ok((t, _, _)) => Ok(t),
                    Err(e) => Err(e),
                },
            TokenCall::BridgeIn { bridge_id, recipient, asset_id, amount, source_chain } =>
                state_of(self.bridge_in(bridge_id, recipient, asset_id, amount, source_chain)),
            TokenCall::ExpireBridge { bridge_id, now } => state_of(self.expire_bridge(bridge_id, now)),
        }
    }

    /// The state after a sequence of calls: a refused call leaves the state as it was.
    pub open spec fn run(self, calls: Seq<TokenCall>) -> TokenState
        decreases calls.len(),
    {
        if calls.len() == 0 {
            self
        } else {
            let before = self.run(calls.drop_last());
            match before.step(calls.last()) {
                Ok(after) => after,
                Err(_) => before,
            }
        }
    }

    /// Whether the last of `calls`, made after the others, succeeds.
    pub open spec fn last_succeeds(self, calls: Seq<TokenCall>) -> bool
        recommends
            calls.len() > 0,
    {
        self.run(calls.drop_last()).step(calls.last()) is Ok
    }
}

/// A call whose success yields an event: on success the new state and the event are the
/// specified ones; on rejection the error is the specified one and the state is unchanged.
pub open spec fn event_step(pre: TokenState, post: TokenState, r: Result<TokenEvent, TokenError>, spec: Result<(TokenState, TokenEventView), TokenError>) -> bool {
    match r {
        Ok(event) => spec == Ok::<(TokenState, TokenEventView), TokenError>((post, event@)),
        Err(e) => spec == Err::<(TokenState, TokenEventView), TokenError>(e) && post == pre,
    }
}

/// A call that yields nothing on success: on success the new state is the specified one; on
/// rejection the error is the specified one and the state is unchanged.
pub open spec fn plain_step(pre: TokenState, post: TokenState, r: Result<(), TokenError>, spec: Result<TokenState, TokenError>) -> bool {
    match r {
        Ok(_) => spec == Ok::<TokenState, TokenError>(post),
        Err(e) => spec == Err::<TokenState, TokenError>(e) && post == pre,
    }
}

} // verus!
