//! Properties of the asset token that span calls or hold of every state.
use vstd::prelude::*;

use crate::address::{lemma_nonce_id_injective, nonce_id_bytes, Address, AssetAccount};
use crate::ledger_sum::{
    holdings, lemma_holdings_within_total, lemma_total_bounds, lemma_total_bounds_pair, ledger_balance,
    map_total,
};
use crate::token_model::{bridge_fee, count_in, pending_in, TokenCall, TokenState, DIVIDEND_SCALE};
use crate::token_types::{BridgeStatus, PendingBridgeView, TargetChain, TokenError, TokenEventView, ValuationRecord};

verus! {

/// The total supply is the sum of all balances; no balance is negative or exceeds the supply.
pub proof fn lemma_supply_is_sum_of_balances(s: TokenState, a: Address)
    requires
        s.wf(),
    ensures
        s.total_supply == map_total(s.balances),
        0 <= s.balance(a) <= s.total_supply,
{
    lemma_total_bounds(s.balances, a);
}

/// The current valuation is the last one recorded in the history.
pub proof fn lemma_valuation_is_last_record(s: TokenState)
    requires
        s.wf(),
    ensures
        s.history.len() == 0 ==> s.valuation is None,
        s.history.len() > 0 ==> s.valuation == Some(s.history.last()),
{
}

/// Initialization succeeds once, and every later attempt is refused.
pub proof fn lemma_initialize_once(s: TokenState, admin: Address, name: String, symbol: String, decimals: u32, admin2: Address, name2: String, symbol2: String, decimals2: u32)
    requires
        s.initialize(admin, name, symbol, decimals) is Ok,
    ensures
        s.initialize(admin, name, symbol, decimals)->Ok_0.initialize(admin2, name2, symbol2, decimals2)
            == Err::<TokenState, TokenError>(TokenError::AlreadyInitialized),
{
}

/// Minting a positive amount, when the token is set up and minting is not paused, succeeds
/// unless the recipient's balance or the supply would overflow; it raises both by the amount
/// and leaves every other balance alone.
pub proof fn lemma_mint_adds(s: TokenState, to: Address, amount: i128, other: Address)
    requires
        s.wf(),
        amount > 0,
        s.admin is Some,
        s.total_supply + amount <= i128::MAX,
    ensures
        s.mint(to, amount, false) is Ok,
        ({
            let t = s.mint(to, amount, false)->Ok_0.0;
            &&& t.balance(to) == s.balance(to) + amount
            &&& t.total_supply == s.total_supply + amount
            &&& other != to ==> t.balance(other) == s.balance(other)
        }),
{
    lemma_total_bounds(s.balances, to);
}

/// A transfer of a positive amount within the sender's balance, when transfers are not
/// paused, always succeeds; it moves the amount from sender to receiver, keeps the supply
/// and leaves every other balance alone.
pub proof fn lemma_transfer_moves_amount(s: TokenState, from: Address, to: Address, amount: i128, other: Address)
    requires
        s.wf(),
        0 < amount <= s.balance(from),
    ensures
        s.transfer(from, to, amount, false) is Ok,
        ({
            let t = s.transfer(from, to, amount, false)->Ok_0.0;
            &&& t.total_supply == s.total_supply
            &&& from != to ==> t.balance(from) == s.balance(from) - amount
            &&& from != to ==> t.balance(to) == s.balance(to) + amount
            &&& from == to ==> t.balance(from) == s.balance(from)
            &&& other != from && other != to ==> t.balance(other) == s.balance(other)
        }),
{
    if from != to {
        lemma_total_bounds_pair(s.balances, from, to);
    }
}

/// A successful outbound bridge burns the amount from the caller, credits the fee to the
/// relayer pool, lowers the supply by the amount less the fee, and records the amount less
/// the fee as pending under a fresh identifier.
pub proof fn lemma_bridge_out_accounts(s: TokenState, caller: Address, asset_id: Address, amount: i128, target_chain: TargetChain, target_address: Seq<u8>, now: u64, other: Address)
    requires
        s.wf(),
        s.bridge_out(caller, asset_id, amount, target_chain, target_address, now) is Ok,
    ensures
        ({
            let (t, id, _) = s.bridge_out(caller, asset_id, amount, target_chain, target_address, now)->Ok_0;
            let config = s.bridge_config->0;
            let fee = bridge_fee(amount as int, config.fee_bps);
            &&& !config.paused
            &&& s.pending_count(caller) < config.max_pending_per_user
            &&& amount <= s.balance(caller)
            &&& t.total_supply == s.total_supply - amount + fee
            &&& caller != config.relayer_pool ==> t.balance(caller) == s.balance(caller) - amount
            &&& caller != config.relayer_pool ==> t.balance(config.relayer_pool) == s.balance(config.relayer_pool) + fee
            &&& caller == config.relayer_pool ==> t.balance(caller) == s.balance(caller) - amount + fee
            &&& other != caller && other != config.relayer_pool ==> t.balance(other) == s.balance(other)
            &&& !s.pending.contains_key(id)
            &&& t.pending[id].amount == amount - fee
            &&& t.pending[id].fee == fee
            &&& t.pending[id].status == BridgeStatus::Pending
            &&& t.pending_count(caller) == s.pending_count(caller) + 1
        }),
{
    let id = nonce_id_bytes(s.bridge_nonce);
    if s.pending.contains_key(id) {
        let n = choose|n: u64| n < s.bridge_nonce && id == nonce_id_bytes(n);
        lemma_nonce_id_injective(n, s.bridge_nonce);
    }
}

/// Two outbound bridges started one after the other get different identifiers.
pub proof fn lemma_bridge_ids_distinct(s: TokenState, caller1: Address, asset1: Address, amount1: i128, chain1: TargetChain, target1: Seq<u8>, now1: u64, caller2: Address, asset2: Address, amount2: i128, chain2: TargetChain, target2: Seq<u8>, now2: u64)
    requires
        s.bridge_out(caller1, asset1, amount1, chain1, target1, now1) is Ok,
        s.bridge_out(caller1, asset1, amount1, chain1, target1, now1)->Ok_0.0.bridge_out(caller2, asset2, amount2, chain2, target2, now2) is Ok,
    ensures
        s.bridge_out(caller1, asset1, amount1, chain1, target1, now1)->Ok_0.1
            != s.bridge_out(caller1, asset1, amount1, chain1, target1, now1)->Ok_0.0.bridge_out(caller2, asset2, amount2, chain2, target2, now2)->Ok_0.1,
{
    let t = s.bridge_out(caller1, asset1, amount1, chain1, target1, now1)->Ok_0.0;
    if nonce_id_bytes(s.bridge_nonce) == nonce_id_bytes(t.bridge_nonce) {
        lemma_nonce_id_injective(s.bridge_nonce, t.bridge_nonce);
    }
}

/// A bridge that has been expired or completed cannot be expired again.
pub proof fn lemma_expire_once(s: TokenState, bridge_id: Seq<u8>, now: u64, later: u64)
    requires
        s.expire_bridge(bridge_id, now) is Ok,
    ensures
        s.expire_bridge(bridge_id, now)->Ok_0.0.pending[bridge_id].status == BridgeStatus::Failed,
        s.expire_bridge(bridge_id, now)->Ok_0.0.expire_bridge(bridge_id, later)
            == Err::<(TokenState, crate::token_types::TokenEventView), TokenError>(TokenError::BridgeNotPending),
{
}

/// Completing an inbound bridge for a pending identifier marks the record completed, after
/// which it cannot be expired.
pub proof fn lemma_bridge_in_completes(s: TokenState, bridge_id: Seq<u8>, recipient: Address, asset_id: Address, amount: i128, source_chain: TargetChain, later: u64)
    requires
        s.pending.contains_key(bridge_id),
        s.pending[bridge_id].status == BridgeStatus::Pending,
        s.bridge_in(bridge_id, recipient, asset_id, amount, source_chain) is Ok,
    ensures
        ({
            let t = s.bridge_in(bridge_id, recipient, asset_id, amount, source_chain)->Ok_0.0;
            &&& t.pending[bridge_id].status == BridgeStatus::Completed
            &&& t.expire_bridge(bridge_id, later) == Err::<(TokenState, crate::token_types::TokenEventView), TokenError>(TokenError::BridgeNotPending)
        }),
{
}

/// A holder who has claimed a dividend cannot claim it again until a new one is scheduled.
pub proof fn lemma_no_double_claim(s: TokenState, asset_id: u64, claimant: Address, now: u64, later: u64)
    requires
        s.claim_dividend(asset_id, claimant, now) is Ok,
    ensures
        s.claim_dividend(asset_id, claimant, now)->Ok_0.0.claim_dividend(asset_id, claimant, later) is Err,
{
}

/// Setting the bridge's pause flag is read back, and leaves the other settings unchanged.
pub proof fn lemma_bridge_pause_read_back(s: TokenState, paused: bool)
    requires
        s.set_bridge_paused(paused) is Ok,
    ensures
        ({
            let c = s.set_bridge_paused(paused)->Ok_0.0.bridge_config->0;
            &&& c.paused == paused
            &&& c.fee_bps == s.bridge_config->0.fee_bps
            &&& c.relayer_pool == s.bridge_config->0.relayer_pool
            &&& c.bridge_timeout == s.bridge_config->0.bridge_timeout
            &&& c.max_pending_per_user == s.bridge_config->0.max_pending_per_user
        }),
{
}

/// A recorded valuation becomes the current one and is appended to the history.
pub proof fn lemma_valuation_recorded(s: TokenState, updater: Address, value: i128, now: u64)
    requires
        s.update_valuation(updater, value, now) is Ok,
    ensures
        s.update_valuation(updater, value, now)->Ok_0.0.valuation == Some(ValuationRecord { value, timestamp: now }),
        s.update_valuation(updater, value, now)->Ok_0.0.history == s.history.push(ValuationRecord { value, timestamp: now }),
{
}

/// A successful inbound bridge raises the recipient's balance and the supply by the amount
/// and leaves every other balance alone.
pub proof fn lemma_bridge_in_mints(s: TokenState, bridge_id: Seq<u8>, recipient: Address, asset_id: Address, amount: i128, source_chain: TargetChain, other: Address)
    requires
        s.bridge_in(bridge_id, recipient, asset_id, amount, source_chain) is Ok,
    ensures
        ({
            let t = s.bridge_in(bridge_id, recipient, asset_id, amount, source_chain)->Ok_0.0;
            &&& amount > 0
            &&& t.balance(recipient) == s.balance(recipient) + amount
            &&& t.total_supply == s.total_supply + amount
            &&& other != recipient ==> t.balance(other) == s.balance(other)
        }),
{
}

/// What a successful call changes: only a valuation update touches the valuation and its
/// history, only an outbound bridge moves the nonce (by one), only scheduling touches the
/// dividends, only a claim touches the claim records, and only the three bridge transfers
/// touch the bridge records and pending counts.
pub proof fn lemma_step_frame(s: TokenState, call: TokenCall)
    requires
        s.step(call) is Ok,
    ensures
        ({
            let t = s.step(call)->Ok_0;
            &&& !(call is UpdateValuation) ==> t.valuation == s.valuation && t.history == s.history
            &&& (call matches TokenCall::UpdateValuation { new_value, now, .. } ==> {
                &&& t.history == s.history.push(ValuationRecord { value: new_value, timestamp: now })
                &&& t.valuation == Some(ValuationRecord { value: new_value, timestamp: now })
            })
            &&& !(call is BridgeOut) ==> t.bridge_nonce == s.bridge_nonce
            &&& call is BridgeOut ==> t.bridge_nonce == s.bridge_nonce + 1
            &&& !(call is ScheduleDividend) ==> t.dividends == s.dividends
            &&& !(call is ClaimDividend) ==> t.last_claims == s.last_claims
            &&& !(call is BridgeOut || call is BridgeIn || call is ExpireBridge) ==> {
                &&& t.pending == s.pending
                &&& t.pending_counts == s.pending_counts
            }
        }),
{
}

/// The number of outbound bridges among `calls`, made in turn from `s`, that succeed.
pub open spec fn successful_bridge_outs(s: TokenState, calls: Seq<TokenCall>) -> nat
    decreases calls.len(),
{
    if calls.len() == 0 {
        0
    } else {
        successful_bridge_outs(s, calls.drop_last()) + if calls.last() is BridgeOut && s.last_succeeds(calls) {
            1nat
        } else {
            0nat
        }
    }
}

/// The bridge nonce grows by one with each successful outbound bridge and with nothing else.
pub proof fn lemma_nonce_counts_bridge_outs(s: TokenState, calls: Seq<TokenCall>)
    ensures
        s.run(calls).bridge_nonce == s.bridge_nonce + successful_bridge_outs(s, calls),
    decreases calls.len(),
{
    if calls.len() > 0 {
        lemma_nonce_counts_bridge_outs(s, calls.drop_last());
        let before = s.run(calls.drop_last());
        if before.step(calls.last()) is Ok {
            lemma_step_frame(before, calls.last());
        }
    }
}

/// From a fresh token, the identifier of an outbound bridge encodes the number of outbound
/// bridges that succeeded before it.
pub proof fn lemma_bridge_id_counts(calls: Seq<TokenCall>, caller: Address, asset_id: Address, amount: i128, target_chain: TargetChain, target_address: Seq<u8>, now: u64)
    requires
        TokenState::empty().run(calls).bridge_out(caller, asset_id, amount, target_chain, target_address, now) is Ok,
    ensures
        TokenState::empty().run(calls).bridge_out(caller, asset_id, amount, target_chain, target_address, now)->Ok_0.1
            == nonce_id_bytes(successful_bridge_outs(TokenState::empty(), calls) as u64),
{
    lemma_nonce_counts_bridge_outs(TokenState::empty(), calls);
}

/// The valuations recorded by the successful updates among `calls`, in order.
pub open spec fn recorded_valuations(s: TokenState, calls: Seq<TokenCall>) -> Seq<ValuationRecord>
    decreases calls.len(),
{
    if calls.len() == 0 {
        Seq::empty()
    } else {
        let earlier = recorded_valuations(s, calls.drop_last());
        match calls.last() {
            TokenCall::UpdateValuation { new_value, now, .. } => if s.last_succeeds(calls) {
                earlier.push(ValuationRecord { value: new_value, timestamp: now })
            } else {
                earlier
            },
            _ => earlier,
        }
    }
}

/// Over any calls, the valuation history grows by exactly the records of the successful
/// updates, and the current valuation stays the last record.
pub proof fn lemma_valuation_history_runs(s: TokenState, calls: Seq<TokenCall>)
    requires
        s.valuation_is_last(),
    ensures
        s.run(calls).history == s.history + recorded_valuations(s, calls),
        s.run(calls).valuation_is_last(),
    decreases calls.len(),
{
    if calls.len() == 0 {
        assert(s.history + Seq::<ValuationRecord>::empty() =~= s.history);
    } else {
        lemma_valuation_history_runs(s, calls.drop_last());
        let before = s.run(calls.drop_last());
        if before.step(calls.last()) is Ok {
            lemma_step_frame(before, calls.last());
            if let TokenCall::UpdateValuation { new_value, now, .. } = calls.last() {
                assert(s.history + recorded_valuations(s, calls) =~= (s.history + recorded_valuations(s, calls.drop_last())).push(ValuationRecord { value: new_value, timestamp: now }));
            }
        }
    }
}

/// A holder may not claim an asset's dividend again: the schedule exists and the holder has
/// claimed since its payout time.
pub open spec fn claim_blocked(s: TokenState, asset_id: u64, claimant: Address) -> bool {
    let key = AssetAccount { asset_id, account: claimant };
    &&& s.dividends.contains_key(asset_id)
    &&& s.last_claims.contains_key(key)
    &&& s.last_claims[key] >= s.dividends[asset_id].next_payout_time
}

/// Whether a call schedules a dividend for the asset.
pub open spec fn schedules(call: TokenCall, asset_id: u64) -> bool {
    match call {
        TokenCall::ScheduleDividend { asset_id: a, .. } => a == asset_id,
        _ => false,
    }
}

/// A successful claim blocks the holder from claiming the same dividend again.
pub proof fn lemma_claim_blocks(s: TokenState, asset_id: u64, claimant: Address, now: u64)
    requires
        s.claim_dividend(asset_id, claimant, now) is Ok,
    ensures
        claim_blocked(s.claim_dividend(asset_id, claimant, now)->Ok_0.0, asset_id, claimant),
{
}

/// A blocked holder's claim is refused, and the block outlasts any call that does not
/// schedule a dividend for the asset.
proof fn lemma_claim_block_step(s: TokenState, asset_id: u64, claimant: Address, call: TokenCall, now: u64)
    requires
        claim_blocked(s, asset_id, claimant),
        !schedules(call, asset_id),
    ensures
        s.claim_dividend(asset_id, claimant, now) is Err,
        s.step(call) is Ok ==> claim_blocked(s.step(call)->Ok_0, asset_id, claimant),
{
    if s.step(call) is Ok {
        lemma_step_frame(s, call);
    }
}

/// Once a holder has claimed a dividend, every later claim of it is refused, over any calls
/// that do not schedule a new dividend for the asset.
pub proof fn lemma_claim_stays_blocked(s: TokenState, asset_id: u64, claimant: Address, calls: Seq<TokenCall>, now: u64)
    requires
        claim_blocked(s, asset_id, claimant),
        forall|i: int| 0 <= i < calls.len() ==> !schedules(#[trigger] calls[i], asset_id),
    ensures
        claim_blocked(s.run(calls), asset_id, claimant),
        s.run(calls).claim_dividend(asset_id, claimant, now) is Err,
    decreases calls.len(),
{
    if calls.len() > 0 {
        assert forall|i: int| 0 <= i < calls.drop_last().len() implies !schedules(#[trigger] calls.drop_last()[i], asset_id) by {
            assert(calls.drop_last()[i] == calls[i]);
        }
        lemma_claim_stays_blocked(s, asset_id, claimant, calls.drop_last(), now);
        assert(!schedules(calls[calls.len() - 1], asset_id));
        lemma_claim_block_step(s.run(calls.drop_last()), asset_id, claimant, calls.last(), now);
    }
    lemma_claim_block_step(s.run(calls), asset_id, claimant, TokenCall::SetOracle { oracle: claimant }, now);
}

/// Every successful call keeps each bridge record filed under an already used nonce.
pub proof fn lemma_step_ids_fresh(s: TokenState, call: TokenCall)
    requires
        s.ids_fresh(),
        s.step(call) is Ok,
    ensures
        s.step(call)->Ok_0.ids_fresh(),
{
    let t = s.step(call)->Ok_0;
    lemma_step_frame(s, call);
    assert forall|id: Seq<u8>| #[trigger] t.pending.contains_key(id) implies exists|n: u64|
        n < t.bridge_nonce && id == #[trigger] nonce_id_bytes(n) by {
        if id == nonce_id_bytes(s.bridge_nonce) && call is BridgeOut {
            assert(s.bridge_nonce < t.bridge_nonce);
        } else {
            assert(s.pending.contains_key(id));
            let n = choose|n: u64| n < s.bridge_nonce && id == nonce_id_bytes(n);
            assert(n < t.bridge_nonce);
        }
    }
}

/// Any calls keep each bridge record filed under an already used nonce.
pub proof fn lemma_run_ids_fresh(s: TokenState, calls: Seq<TokenCall>)
    requires
        s.ids_fresh(),
    ensures
        s.run(calls).ids_fresh(),
    decreases calls.len(),
{
    if calls.len() > 0 {
        lemma_run_ids_fresh(s, calls.drop_last());
        if s.run(calls.drop_last()).step(calls.last()) is Ok {
            lemma_step_ids_fresh(s.run(calls.drop_last()), calls.last());
        }
    }
}

/// A bridge is settled: it is recorded and no longer pending.
pub open spec fn settled(s: TokenState, bridge_id: Seq<u8>) -> bool {
    s.pending.contains_key(bridge_id) && s.pending[bridge_id].status != BridgeStatus::Pending
}

/// Whether a call expires the bridge.
pub open spec fn expires(call: TokenCall, bridge_id: Seq<u8>) -> bool {
    match call {
        TokenCall::ExpireBridge { bridge_id: b, .. } => b == bridge_id,
        _ => false,
    }
}

/// The number of expiries of the bridge among `calls`, made in turn from `s`, that succeed.
pub open spec fn successful_expiries(s: TokenState, calls: Seq<TokenCall>, bridge_id: Seq<u8>) -> nat
    decreases calls.len(),
{
    if calls.len() == 0 {
        0
    } else {
        successful_expiries(s, calls.drop_last(), bridge_id) + if expires(calls.last(), bridge_id) && s.last_succeeds(calls) {
            1nat
        } else {
            0nat
        }
    }
}

/// A settled bridge stays settled through any successful call, and cannot be expired.
proof fn lemma_settled_step(s: TokenState, bridge_id: Seq<u8>, call: TokenCall, now: u64)
    requires
        s.ids_fresh(),
        settled(s, bridge_id),
    ensures
        s.expire_bridge(bridge_id, now) is Err,
        s.step(call) is Ok ==> settled(s.step(call)->Ok_0, bridge_id),
{
    if s.step(call) is Ok {
        lemma_step_frame(s, call);
        if call is BridgeOut && nonce_id_bytes(s.bridge_nonce) == bridge_id {
            let n = choose|n: u64| n < s.bridge_nonce && bridge_id == nonce_id_bytes(n);
            lemma_nonce_id_injective(n, s.bridge_nonce);
        }
    }
}

/// Once a bridge is settled, by expiry or completion, it stays settled over any calls and
/// every later expiry of it is refused.
pub proof fn lemma_settled_stays(s: TokenState, bridge_id: Seq<u8>, calls: Seq<TokenCall>, now: u64)
    requires
        s.ids_fresh(),
        settled(s, bridge_id),
    ensures
        settled(s.run(calls), bridge_id),
        s.run(calls).expire_bridge(bridge_id, now) is Err,
        successful_expiries(s, calls, bridge_id) == 0,
    decreases calls.len(),
{
    if calls.len() > 0 {
        lemma_settled_stays(s, bridge_id, calls.drop_last(), now);
        lemma_run_ids_fresh(s, calls.drop_last());
        let last = calls.last();
        match last {
            TokenCall::ExpireBridge { bridge_id: b, now: t } => {
                lemma_settled_step(s.run(calls.drop_last()), bridge_id, last, t);
            },
            _ => {
                lemma_settled_step(s.run(calls.drop_last()), bridge_id, last, now);
            },
        }
    }
    lemma_run_ids_fresh(s, calls);
    lemma_settled_step(s.run(calls), bridge_id, TokenCall::SetBridgePaused { paused: false }, now);
}

/// Over any calls, a bridge is expired successfully at most once, and after the first
/// successful expiry it is settled.
pub proof fn lemma_expire_at_most_once(s: TokenState, bridge_id: Seq<u8>, calls: Seq<TokenCall>)
    requires
        s.ids_fresh(),
    ensures
        successful_expiries(s, calls, bridge_id) <= 1,
        successful_expiries(s, calls, bridge_id) == 1 ==> settled(s.run(calls), bridge_id),
    decreases calls.len(),
{
    if calls.len() > 0 {
        let prefix = calls.drop_last();
        lemma_expire_at_most_once(s, bridge_id, prefix);
        lemma_run_ids_fresh(s, prefix);
        let before = s.run(prefix);
        let last = calls.last();
        if successful_expiries(s, prefix, bridge_id) == 1 {
            match last {
                TokenCall::ExpireBridge { bridge_id: b, now: t } => {
                    lemma_settled_step(before, bridge_id, last, t);
                },
                _ => {
                    lemma_settled_step(before, bridge_id, last, 0);
                },
            }
        }
    }
}

/// Settling a pending bridge (marking it completed or failed and lowering its caller's
/// count) keeps the bridge books balanced.
pub(crate) proof fn lemma_settle_books(s: TokenState, t: TokenState, bridge_id: Seq<u8>, status: BridgeStatus)
    requires
        s.bridge_books(),
        s.pending.contains_key(bridge_id),
        s.pending[bridge_id].status == BridgeStatus::Pending,
        status != BridgeStatus::Pending,
        t.pending == s.pending.insert(bridge_id, PendingBridgeView { status, ..s.pending[bridge_id] }),
        t.pending_counts == s.pending_counts.insert(s.pending[bridge_id].caller, s.settled_count(s.pending[bridge_id].caller)),
        t.bridge_nonce == s.bridge_nonce,
    ensures
        t.bridge_books(),
{
    let c = s.pending[bridge_id].caller;
    assert(t.pending.dom() =~= s.pending.dom());
    assert(s.pending_of(c).contains(bridge_id));
    s.pending.dom().lemma_len_filter(|id: Seq<u8>| s.pending[id].caller == c && s.pending[id].status == BridgeStatus::Pending);
    assert(s.pending_count(c) == s.pending_of(c).len());
    assert(s.pending_count(c) >= 1);
    assert forall|u: Address| #[trigger] count_in(t.pending_counts, u) == pending_in(t.pending, u).len() by {
        if u == c {
            assert(t.pending_of(c) =~= s.pending_of(c).remove(bridge_id));
        } else {
            assert(t.pending_of(u) =~= s.pending_of(u));
            assert(s.pending_count(u) == s.pending_of(u).len());
        }
    }
}

/// Marking a bridge record that is no longer pending with another settled status, with the
/// counts unchanged, keeps the bridge books balanced.
pub(crate) proof fn lemma_remark_books(s: TokenState, t: TokenState, bridge_id: Seq<u8>, status: BridgeStatus)
    requires
        s.bridge_books(),
        s.pending.contains_key(bridge_id),
        s.pending[bridge_id].status != BridgeStatus::Pending,
        status != BridgeStatus::Pending,
        t.pending == s.pending.insert(bridge_id, PendingBridgeView { status, ..s.pending[bridge_id] }),
        t.pending_counts == s.pending_counts,
        t.bridge_nonce == s.bridge_nonce,
    ensures
        t.bridge_books(),
{
    assert(t.pending.dom() =~= s.pending.dom());
    assert forall|u: Address| #[trigger] count_in(t.pending_counts, u) == pending_in(t.pending, u).len() by {
        assert(s.pending_count(u) == s.pending_of(u).len());
        assert(pending_in(t.pending, u) =~= pending_in(s.pending, u));
    }
}

/// Recording a new pending bridge under a fresh identifier and raising its caller's count
/// keeps the bridge books balanced.
pub(crate) proof fn lemma_open_books(s: TokenState, t: TokenState, record: PendingBridgeView)
    requires
        s.bridge_books(),
        s.bridge_nonce < u64::MAX,
        record.status == BridgeStatus::Pending,
        s.pending_count(record.caller) < u32::MAX,
        t.pending == s.pending.insert(nonce_id_bytes(s.bridge_nonce), record),
        t.pending_counts == s.pending_counts.insert(record.caller, (s.pending_count(record.caller) + 1) as u32),
        t.bridge_nonce == s.bridge_nonce + 1,
    ensures
        t.bridge_books(),
{
    let id = nonce_id_bytes(s.bridge_nonce);
    let c = record.caller;
    if s.pending.contains_key(id) {
        let n = choose|n: u64| n < s.bridge_nonce && id == nonce_id_bytes(n);
        lemma_nonce_id_injective(n, s.bridge_nonce);
    }
    assert(t.pending.dom() =~= s.pending.dom().insert(id));
    assert forall|k: Seq<u8>| #[trigger] t.pending.contains_key(k) implies exists|n: u64|
        n < t.bridge_nonce && k == #[trigger] nonce_id_bytes(n) by {
        if k != id {
            let n = choose|n: u64| n < s.bridge_nonce && k == nonce_id_bytes(n);
            assert(n < t.bridge_nonce);
        } else {
            assert(s.bridge_nonce < t.bridge_nonce);
        }
    }
    s.pending.dom().lemma_len_filter(|k: Seq<u8>| s.pending[k].caller == c && s.pending[k].status == BridgeStatus::Pending);
    assert forall|u: Address| #[trigger] count_in(t.pending_counts, u) == pending_in(t.pending, u).len() by {
        assert(s.pending_count(u) == s.pending_of(u).len());
        if u == c {
            assert(t.pending_of(c) =~= s.pending_of(c).insert(id));
        } else {
            assert(t.pending_of(u) =~= s.pending_of(u));
        }
    }
}

/// Every successful call keeps the bridge books balanced: each address's pending count is
/// the number of its bridges still pending.
pub proof fn lemma_step_books(s: TokenState, call: TokenCall)
    requires
        s.bridge_books(),
        s.step(call) is Ok,
    ensures
        s.step(call)->Ok_0.bridge_books(),
{
    let t = s.step(call)->Ok_0;
    lemma_step_frame(s, call);
    match call {
        TokenCall::BridgeOut { caller, asset_id, amount, target_chain, target_address, now } => {
            let config = s.bridge_config->0;
            let fee = bridge_fee(amount as int, config.fee_bps);
            let record = PendingBridgeView {
                caller,
                asset_id,
                amount: (amount - fee) as i128,
                fee: fee as i128,
                target_chain,
                target_address,
                timeout: (now + config.bridge_timeout) as u64,
                status: BridgeStatus::Pending,
            };
            lemma_open_books(s, t, record);
        },
        TokenCall::BridgeIn { bridge_id, .. } => {
            if s.pending.contains_key(bridge_id) && s.pending[bridge_id].status == BridgeStatus::Pending {
                lemma_settle_books(s, t, bridge_id, BridgeStatus::Completed);
            } else if s.pending.contains_key(bridge_id) {
                lemma_remark_books(s, t, bridge_id, BridgeStatus::Completed);
            }
        },
        TokenCall::ExpireBridge { bridge_id, .. } => {
            lemma_settle_books(s, t, bridge_id, BridgeStatus::Failed);
        },
        _ => {
            assert forall|u: Address| #[trigger] count_in(t.pending_counts, u) == pending_in(t.pending, u).len() by {
                assert(s.pending_count(u) == s.pending_of(u).len());
                assert(t.pending_of(u) =~= s.pending_of(u));
            }
        },
    }
}

/// Any calls keep the bridge books balanced; a fresh token starts balanced. So in every
/// state reached from a fresh token, each address's pending count is the number of its
/// bridges still pending, which the per-user limit bounds when each bridge starts.
pub proof fn lemma_run_books(s: TokenState, calls: Seq<TokenCall>)
    requires
        s.bridge_books(),
    ensures
        s.run(calls).bridge_books(),
    decreases calls.len(),
{
    if calls.len() > 0 {
        lemma_run_books(s, calls.drop_last());
        if s.run(calls.drop_last()).step(calls.last()) is Ok {
            lemma_step_books(s.run(calls.drop_last()), calls.last());
        }
    }
}

/// A fresh token's bridge books are balanced.
pub proof fn lemma_empty_books()
    ensures
        TokenState::empty().bridge_books(),
{
    let s = TokenState::empty();
    assert(s.pending.dom() =~= Set::empty());
    assert forall|u: Address| #[trigger] count_in(s.pending_counts, u) == pending_in(s.pending, u).len() by {
        assert(s.pending_of(u) =~= Set::empty());
    }
}

/// The gross dividend payouts, before the fee, that a ledger's holders receive at a rate.
pub open spec fn gross_payouts(m: Map<Address, i128>, holders: Seq<Address>, amount_per_token: int) -> int
    decreases holders.len(),
{
    if holders.len() == 0 {
        0
    } else {
        gross_payouts(m, holders.drop_last(), amount_per_token)
            + ledger_balance(m, holders.last()) * amount_per_token / DIVIDEND_SCALE as int
    }
}

/// Rounding each payout down pays no more than rounding the holders' combined payout down.
proof fn lemma_gross_within_combined(m: Map<Address, i128>, holders: Seq<Address>, amount_per_token: int)
    requires
        amount_per_token >= 0,
        forall|a: Address| m.contains_key(a) ==> m[a] >= 0,
    ensures
        gross_payouts(m, holders, amount_per_token)
            <= holdings(m, holders) * amount_per_token / DIVIDEND_SCALE as int,
    decreases holders.len(),
{
    if holders.len() > 0 {
        let init = holders.drop_last();
        lemma_gross_within_combined(m, init, amount_per_token);
        let h = holdings(m, init);
        let b = ledger_balance(m, holders.last());
        let scale = DIVIDEND_SCALE as int;
        assert(h * amount_per_token / scale + b * amount_per_token / scale <= (h + b) * amount_per_token / scale) by (nonlinear_arith)
            requires
                scale == 10_000_000,
        ;
    }
}

/// Right after a dividend is scheduled, the gross payouts of any distinct holders, each
/// rounded down, add up to no more than the total dividend.
pub proof fn lemma_dividend_within_total(s: TokenState, asset_id: u64, total_dividend: i128, payout_asset: Address, interval: u64, now: u64, holders: Seq<Address>)
    requires
        s.wf(),
        s.schedule_dividend(asset_id, total_dividend, payout_asset, interval, now) is Ok,
        holders.no_duplicates(),
    ensures
        ({
            let t = s.schedule_dividend(asset_id, total_dividend, payout_asset, interval, now)->Ok_0.0;
            gross_payouts(t.balances, holders, t.dividends[asset_id].amount_per_token as int) <= total_dividend
        }),
{
    let t = s.schedule_dividend(asset_id, total_dividend, payout_asset, interval, now)->Ok_0.0;
    let scale = DIVIDEND_SCALE as int;
    let supply = s.total_supply as int;
    let d = total_dividend as int;
    lemma_holdings_within_total(s.balances, holders);
    let h = holdings(s.balances, holders);
    let rate = d * scale / supply;
    assert(supply > 0);
    assert(rate >= 0) by (nonlinear_arith)
        requires
            d > 0,
            scale > 0,
            supply > 0,
            rate == d * scale / supply,
    ;
    assert(t.dividends[asset_id].amount_per_token as int == rate);
    lemma_gross_within_combined(s.balances, holders, rate);
    assert(h * rate / scale <= d) by (nonlinear_arith)
        requires
            0 <= h <= supply,
            supply > 0,
            scale == 10_000_000,
            d > 0,
            rate == d * scale / supply,
            rate >= 0,
    {
        assert(supply * rate <= d * scale);
        assert(h * rate <= supply * rate);
    }
}

/// In every valid state each address's pending count is the number of its bridges still
/// pending, and an outbound bridge starts only while that number is below the per-user
/// limit, so no caller ever has more pending bridges than the limit allows.
pub proof fn lemma_pending_limit(s: TokenState, caller: Address, asset_id: Address, amount: i128, target_chain: TargetChain, target_address: Seq<u8>, now: u64)
    requires
        s.wf(),
    ensures
        s.pending_count(caller) == s.pending_of(caller).len(),
        s.bridge_out(caller, asset_id, amount, target_chain, target_address, now) is Ok ==> {
            let t = s.bridge_out(caller, asset_id, amount, target_chain, target_address, now)->Ok_0.0;
            &&& s.pending_of(caller).len() < s.bridge_config->0.max_pending_per_user
            &&& t.pending_of(caller).len() == s.pending_of(caller).len() + 1
            &&& t.pending_of(caller).len() <= t.bridge_config->0.max_pending_per_user
        },
{
    assert(count_in(s.pending_counts, caller) == pending_in(s.pending, caller).len());
    if s.bridge_out(caller, asset_id, amount, target_chain, target_address, now) is Ok {
        let call = TokenCall::BridgeOut { caller, asset_id, amount, target_chain, target_address, now };
        lemma_step_books(s, call);
        let t = s.step(call)->Ok_0;
        assert(count_in(t.pending_counts, caller) == pending_in(t.pending, caller).len());
    }
}

/// An inbound bridge marks an existing record completed, whatever its status, and lowers a
/// caller's pending count by one exactly when that record was theirs and still pending; every
/// other count stays as it was, and the counts still agree with the records.
pub proof fn lemma_bridge_in_counts(s: TokenState, bridge_id: Seq<u8>, recipient: Address, asset_id: Address, amount: i128, source_chain: TargetChain, u: Address)
    requires
        s.wf(),
        s.bridge_in(bridge_id, recipient, asset_id, amount, source_chain) is Ok,
    ensures
        ({
            let t = s.bridge_in(bridge_id, recipient, asset_id, amount, source_chain)->Ok_0.0;
            let released = s.pending.contains_key(bridge_id) && s.pending[bridge_id].status == BridgeStatus::Pending
                && s.pending[bridge_id].caller == u;
            &&& t.bridge_books()
            &&& t.pending_count(u) == t.pending_of(u).len()
            &&& t.pending_count(u) == s.pending_count(u) - if released { 1int } else { 0int }
            &&& s.pending.contains_key(bridge_id) ==> t.pending[bridge_id] == (PendingBridgeView {
                status: BridgeStatus::Completed,
                ..s.pending[bridge_id]
            })
            &&& !s.pending.contains_key(bridge_id) ==> t.pending == s.pending
        }),
{
    let call = TokenCall::BridgeIn { bridge_id, recipient, asset_id, amount, source_chain };
    lemma_step_books(s, call);
    let t = s.step(call)->Ok_0;
    assert(count_in(t.pending_counts, u) == pending_in(t.pending, u).len());
    if s.pending.contains_key(bridge_id) && s.pending[bridge_id].status == BridgeStatus::Pending {
        let c = s.pending[bridge_id].caller;
        assert(count_in(s.pending_counts, c) == pending_in(s.pending, c).len());
        assert(pending_in(s.pending, c).contains(bridge_id));
        s.pending.dom().lemma_len_filter(|id: Seq<u8>| s.pending[id].caller == c && s.pending[id].status == BridgeStatus::Pending);
    }
}

/// Minting is refused while paused, whatever the amounts: a positive amount on a token with
/// an admin is refused as paused.
pub proof fn lemma_paused_mint_refused(s: TokenState, to: Address, amount: i128)
    ensures
        s.mint(to, amount, true) is Err,
        amount > 0 && s.admin is Some ==> s.mint(to, amount, true) == Err::<(TokenState, TokenEventView), TokenError>(TokenError::Paused),
{
}

/// Transfers are refused while paused, whatever the balances: nothing is moved, and a
/// positive amount is refused as paused.
pub proof fn lemma_paused_transfer_refused(s: TokenState, from: Address, to: Address, amount: i128)
    ensures
        s.transfer(from, to, amount, true) is Err,
        amount > 0 ==> s.transfer(from, to, amount, true) == Err::<(TokenState, TokenEventView), TokenError>(TokenError::Paused),
{
}

/// The least interval counts from the latest valuation: before it has passed since the
/// latest valuation's time, every update is refused, and one by the admin or the oracle is
/// refused as too frequent.
pub proof fn lemma_valuation_rate_limited(s: TokenState, updater: Address, new_value: i128, now: u64)
    requires
        s.valuation is Some,
        s.valuation_config is Some,
        now < s.valuation->0.timestamp + s.valuation_config->0.min_interval,
    ensures
        s.update_valuation(updater, new_value, now) is Err,
        s.admin is Some && (s.admin == Some(updater) || s.oracle == Some(updater))
            && s.valuation->0.timestamp + s.valuation_config->0.min_interval <= u64::MAX
            ==> s.update_valuation(updater, new_value, now)
                == Err::<(TokenState, TokenEventView), TokenError>(TokenError::TooFrequentUpdate),
{
}

/// An update by the admin or the oracle succeeds exactly when there is no valuation yet or
/// the least interval (zero when none is configured) has passed since the latest one; it
/// then records the new value at `now` as the current valuation.
pub proof fn lemma_valuation_update_allowed(s: TokenState, updater: Address, new_value: i128, now: u64)
    requires
        s.admin is Some,
        s.admin == Some(updater) || s.oracle == Some(updater),
    ensures
        ({
            let interval: int = match s.valuation_config {
                Some(c) => c.min_interval as int,
                None => 0,
            };
            let due = match s.valuation {
                Some(v) => v.timestamp + interval <= now,
                None => true,
            };
            &&& s.update_valuation(updater, new_value, now) is Ok <==> due
            &&& due ==> s.update_valuation(updater, new_value, now)->Ok_0.0.valuation
                == Some(ValuationRecord { value: new_value, timestamp: now })
        }),
{
}

/// After a successful update at `now`, any update before `now` plus the configured least
/// interval is refused.
pub proof fn lemma_valuation_waits_after_update(s: TokenState, updater: Address, value: i128, now: u64, updater2: Address, value2: i128, later: u64)
    requires
        s.update_valuation(updater, value, now) is Ok,
        s.valuation_config is Some,
        later < now + s.valuation_config->0.min_interval,
    ensures
        s.update_valuation(updater, value, now)->Ok_0.0.update_valuation(updater2, value2, later) is Err,
{
}

} // verus!
