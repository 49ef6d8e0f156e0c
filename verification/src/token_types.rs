use vstd::prelude::*;

use crate::address::Address;

verus! {

/// Descriptive data of the token.
pub struct Asset {
    pub id: u64,
    pub name: String,
    pub symbol: String,
    pub decimals: u32,
    pub owner: Address,
}

/// The least time between two valuation updates.
#[derive(Clone, Copy, Debug, PartialEq, Eq, Structural)]
pub struct ValuationConfig {
    pub min_interval: u64,
}

/// A valuation of the asset and the time it was recorded.
#[derive(Clone, Copy, Debug, PartialEq, Eq, Structural)]
pub struct ValuationRecord {
    pub value: i128,
    pub timestamp: u64,
}

/// A dividend scheduled for an asset.
#[derive(Clone, Copy, Debug)]
pub struct DividendSchedule {
    pub total_dividend: i128,
    pub payout_asset: Address,
    pub next_payout_time: u64,
    pub interval: u64,
    pub amount_per_token: i128,
}

impl View for DividendSchedule {
    type V = DividendSchedule;

    open spec fn view(&self) -> DividendSchedule {
        *self
    }
}

/// Chains that tokens can be bridged to and from.
#[derive(Clone, Copy, Debug, PartialEq, Eq, Structural)]
pub enum TargetChain {
    Ethereum,
    Solana,
}

/// Status of a bridge operation.
#[derive(Clone, Copy, Debug, PartialEq, Eq, Structural)]
pub enum BridgeStatus {
    Pending,
    Completed,
    Failed,
}

/// An outbound bridge operation.
#[derive(Debug)]
pub struct PendingBridge {
    pub caller: Address,
    pub asset_id: Address,
    pub amount: i128,
    pub fee: i128,
    pub target_chain: TargetChain,
    pub target_address: Vec<u8>,
    pub timeout: u64,
    pub status: BridgeStatus,
}

/// The value of a [`PendingBridge`], with its target address as a sequence of bytes.
pub struct PendingBridgeView {
    pub caller: Address,
    pub asset_id: Address,
    pub amount: i128,
    pub fee: i128,
    pub target_chain: TargetChain,
    pub target_address: Seq<u8>,
    pub timeout: u64,
    pub status: BridgeStatus,
}

impl View for PendingBridge {
    type V = PendingBridgeView;

    open spec fn view(&self) -> PendingBridgeView {
        PendingBridgeView {
            caller: self.caller,
            asset_id: self.asset_id,
            amount: self.amount,
            fee: self.fee,
            target_chain: self.target_chain,
            target_address: self.target_address@,
            timeout: self.timeout,
            status: self.status,
        }
    }
}

impl PendingBridge {
    /// A copy of the record.
    pub fn duplicate(&self) -> (r: PendingBridge)
        ensures
            r@ == self@,
    {
        let target_address = self.target_address.clone();
        assert(target_address@ =~= self.target_address@);
        PendingBridge {
            caller: self.caller,
            asset_id: self.asset_id,
            amount: self.amount,
            fee: self.fee,
            target_chain: self.target_chain,
            target_address,
            timeout: self.timeout,
            status: self.status,
        }
    }
}

/// Parameters of bridging, set by the admin.
#[derive(Clone, Copy, Debug)]
pub struct BridgeConfig {
    /// Fee in basis points of the bridged amount.
    pub fee_bps: u32,
    /// Receiver of the bridging fees.
    pub relayer_pool: Address,
    /// Seconds after which a pending bridge may be expired.
    pub bridge_timeout: u64,
    /// Greatest number of pending bridges a caller may have.
    pub max_pending_per_user: u32,
    pub paused: bool,
    /// Public key of the relayer.
    pub relayer_pubkey: [u8; 32],
}

/// An event that a successful token operation publishes.
#[derive(Debug)]
pub enum TokenEvent {
    Mint { to: Address, amount: i128 },
    Transfer { from: Address, to: Address, amount: i128 },
    ValuationUpdated { value: i128 },
    DividendScheduled { asset_id: u64, total_dividend: i128 },
    DividendClaimed { asset_id: u64, claimant: Address, amount: i128 },
    BridgeConfigured { fee_bps: u32 },
    BridgePaused { paused: bool },
    BridgeInitiated { caller: Address, target_chain: TargetChain, asset_id: Address, net_amount: i128, target_address: Vec<u8> },
    BridgeCompleted { recipient: Address, source_chain: TargetChain, asset_id: Address, amount: i128 },
    BridgeExpired { amount: i128 },
}

/// The value of a [`TokenEvent`], with an outbound bridge's target address as a sequence of
/// bytes.
pub enum TokenEventView {
    Mint { to: Address, amount: i128 },
    Transfer { from: Address, to: Address, amount: i128 },
    ValuationUpdated { value: i128 },
    DividendScheduled { asset_id: u64, total_dividend: i128 },
    DividendClaimed { asset_id: u64, claimant: Address, amount: i128 },
    BridgeConfigured { fee_bps: u32 },
    BridgePaused { paused: bool },
    BridgeInitiated { caller: Address, target_chain: TargetChain, asset_id: Address, net_amount: i128, target_address: Seq<u8> },
    BridgeCompleted { recipient: Address, source_chain: TargetChain, asset_id: Address, amount: i128 },
    BridgeExpired { amount: i128 },
}

impl View for TokenEvent {
    type V = TokenEventView;

    open spec fn view(&self) -> TokenEventView {
        match *self {
            TokenEvent::Mint { to, amount } => TokenEventView::Mint { to, amount },
            TokenEvent::Transfer { from, to, amount } => TokenEventView::Transfer { from, to, amount },
            TokenEvent::ValuationUpdated { value } => TokenEventView::ValuationUpdated { value },
            TokenEvent::DividendScheduled { asset_id, total_dividend } => TokenEventView::DividendScheduled { asset_id, total_dividend },
            TokenEvent::DividendClaimed { asset_id, claimant, amount } => TokenEventView::DividendClaimed { asset_id, claimant, amount },
            TokenEvent::BridgeConfigured { fee_bps } => TokenEventView::BridgeConfigured { fee_bps },
            TokenEvent::BridgePaused { paused } => TokenEventView::BridgePaused { paused },
            TokenEvent::BridgeInitiated { caller, target_chain, asset_id, net_amount, target_address } => TokenEventView::BridgeInitiated {
                caller,
                target_chain,
                asset_id,
                net_amount,
                target_address: target_address@,
            },
            TokenEvent::BridgeCompleted { recipient, source_chain, asset_id, amount } => TokenEventView::BridgeCompleted { recipient, source_chain, asset_id, amount },
            TokenEvent::BridgeExpired { amount } => TokenEventView::BridgeExpired { amount },
        }
    }
}

/// Why a token operation was rejected.
#[derive(Clone, Copy, Debug, PartialEq, Eq, Structural)]
pub enum TokenError {
    AlreadyInitialized,
    AmountNotPositive,
    AdminNotSet,
    Paused,
    BalanceOverflow,
    SupplyOverflow,
    InsufficientBalance,
    AssetNotInitialized,
    NotAuthorized,
    TooFrequentUpdate,
    DividendNotPositive,
    ZeroSupply,
    Overflow,
    NoDividendSchedule,
    PayoutNotDue,
    AlreadyClaimed,
    NoTokensHeld,
    BridgeNotConfigured,
    BridgePaused,
    TooManyPendingBridges,
    FeeOverflow,
    SupplyUnderflow,
    PoolBalanceOverflow,
    NonceOverflow,
    BridgeNotFound,
    BridgeNotPending,
    BridgeNotExpired,
    ArithmeticOverflow,
}

impl TokenError {
    /// The text of the message with which the contract aborts.
    pub open spec fn message_text(&self) -> Seq<char> {
        match self {
            TokenError::AlreadyInitialized => "already initialized"@,
            TokenError::AmountNotPositive => "amount must be positive"@,
            TokenError::AdminNotSet => "admin not set"@,
            TokenError::Paused => "operation blocked: asset is paused"@,
            TokenError::BalanceOverflow => "balance overflow"@,
            TokenError::SupplyOverflow => "supply overflow"@,
            TokenError::InsufficientBalance => "insufficient balance"@,
            TokenError::AssetNotInitialized => "asset not initialized"@,
            TokenError::NotAuthorized => "not authorized"@,
            TokenError::TooFrequentUpdate => "too frequent update"@,
            TokenError::DividendNotPositive => "dividend amount must be positive"@,
            TokenError::ZeroSupply => "cannot distribute to zero supply"@,
            TokenError::Overflow => "overflow"@,
            TokenError::NoDividendSchedule => "no dividend schedule found"@,
            TokenError::PayoutNotDue => "payout not yet due"@,
            TokenError::AlreadyClaimed => "already claimed"@,
            TokenError::NoTokensHeld => "no tokens held"@,
            TokenError::BridgeNotConfigured => "bridge not configured"@,
            TokenError::BridgePaused => "bridge is paused"@,
            TokenError::TooManyPendingBridges => "too many pending bridges"@,
            TokenError::FeeOverflow => "fee overflow"@,
            TokenError::SupplyUnderflow => "supply underflow"@,
            TokenError::PoolBalanceOverflow => "pool balance overflow"@,
            TokenError::NonceOverflow => "nonce overflow"@,
            TokenError::BridgeNotFound => "bridge not found"@,
            TokenError::BridgeNotPending => "bridge not pending"@,
            TokenError::BridgeNotExpired => "bridge not expired"@,
            TokenError::ArithmeticOverflow => "attempt to add with overflow"@,
        }
    }

    /// The message with which the contract aborts.
    pub fn message(&self) -> (r: &'static str)
        ensures
            r@ == self.message_text(),
    {
        match self {
            TokenError::AlreadyInitialized => "already initialized",
            TokenError::AmountNotPositive => "amount must be positive",
            TokenError::AdminNotSet => "admin not set",
            TokenError::Paused => "operation blocked: asset is paused",
            TokenError::BalanceOverflow => "balance overflow",
            TokenError::SupplyOverflow => "supply overflow",
            TokenError::InsufficientBalance => "insufficient balance",
            TokenError::AssetNotInitialized => "asset not initialized",
            TokenError::NotAuthorized => "not authorized",
            TokenError::TooFrequentUpdate => "too frequent update",
            TokenError::DividendNotPositive => "dividend amount must be positive",
            TokenError::ZeroSupply => "cannot distribute to zero supply",
            TokenError::Overflow => "overflow",
            TokenError::NoDividendSchedule => "no dividend schedule found",
            TokenError::PayoutNotDue => "payout not yet due",
            TokenError::AlreadyClaimed => "already claimed",
            TokenError::NoTokensHeld => "no tokens held",
            TokenError::BridgeNotConfigured => "bridge not configured",
            TokenError::BridgePaused => "bridge is paused",
            TokenError::TooManyPendingBridges => "too many pending bridges",
            TokenError::FeeOverflow => "fee overflow",
            TokenError::SupplyUnderflow => "supply underflow",
            TokenError::PoolBalanceOverflow => "pool balance overflow",
            TokenError::NonceOverflow => "nonce overflow",
            TokenError::BridgeNotFound => "bridge not found",
            TokenError::BridgeNotPending => "bridge not pending",
            TokenError::BridgeNotExpired => "bridge not expired",
            TokenError::ArithmeticOverflow => "attempt to add with overflow",
        }
    }
}

} // verus!
