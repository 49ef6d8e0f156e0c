use kor_assetforge_contracts::{
    Address, AssetToken, BridgeId, BridgeStatus, TargetChain, TokenError, TokenEvent,
};

fn addr(tag: u8) -> Address {
    let mut key = [b'G'; 56];
    key[1] = tag;
    Address::new(key)
}

fn token(admin: Address, name: &str, symbol: &str) -> AssetToken {
    let mut t = AssetToken::new();
    t.initialize(admin, name.to_string(), symbol.to_string(), 7).unwrap();
    t
}

#[test]
fn test_initialize() {
    let mut t = AssetToken::new();
    let admin = addr(1);
    t.initialize(admin, "Real Estate Token".to_string(), "RET".to_string(), 7).unwrap();
    assert_eq!(t.name().unwrap(), "Real Estate Token");
    assert_eq!(t.symbol().unwrap(), "RET");
    assert_eq!(t.decimals().unwrap(), 7);
    assert_eq!(t.total_supply(), 0);
}

#[test]
fn test_initialize_twice_panics() {
    let mut t = AssetToken::new();
    let admin = addr(1);
    t.initialize(admin, "Token".to_string(), "Token".to_string(), 7).unwrap();
    let r = t.initialize(admin, "Token".to_string(), "Token".to_string(), 7);
    assert_eq!(r, Err(TokenError::AlreadyInitialized));
    assert_eq!(r.unwrap_err().message(), "already initialized");
}

#[test]
fn test_mint_success() {
    let admin = addr(1);
    let mut t = token(admin, "T", "T");
    let to = addr(2);
    t.mint(to, 1000, false).unwrap();
    assert_eq!(t.balance(&to), 1000);
    assert_eq!(t.total_supply(), 1000);
}

#[test]
fn test_transfer_success() {
    let mut t = token(addr(1), "T", "T");
    let user1 = addr(2);
    let user2 = addr(3);
    t.mint(user1, 1000, false).unwrap();
    t.transfer(user1, user2, 400, false).unwrap();
    assert_eq!(t.balance(&user1), 600);
    assert_eq!(t.balance(&user2), 400);
    assert_eq!(t.total_supply(), 1000);
}

#[test]
fn test_transfer_insufficient_balance() {
    let mut t = token(addr(1), "T", "T");
    let user1 = addr(2);
    let user2 = addr(3);
    t.mint(user1, 100, false).unwrap();
    let r = t.transfer(user1, user2, 101, false);
    assert_eq!(r.as_ref().unwrap_err(), &TokenError::InsufficientBalance);
    assert_eq!(r.unwrap_err().message(), "insufficient balance");
    assert_eq!(t.balance(&user1), 100);
}

#[test]
fn test_mint_blocked_when_minting_paused() {
    let mut t = token(addr(1), "T", "T");
    let r = t.mint(addr(2), 1000, true);
    assert_eq!(r.unwrap_err().message(), "operation blocked: asset is paused");
    assert_eq!(t.total_supply(), 0);
}

#[test]
fn test_transfer_blocked_when_transfers_paused() {
    let mut t = token(addr(1), "T", "T");
    let r = t.transfer(addr(2), addr(3), 500, true);
    assert_eq!(r.as_ref().unwrap_err(), &TokenError::Paused);
}

#[test]
fn test_transfer_allowed_when_minting_paused() {
    let mut t = token(addr(1), "T", "T");
    let from = addr(2);
    let to = addr(3);
    t.mint(from, 1000, false).unwrap();
    // Minting is paused from here on; transfers are not.
    assert_eq!(t.mint(from, 1, true).unwrap_err(), TokenError::Paused);
    t.transfer(from, to, 500, false).unwrap();
    assert_eq!(t.balance(&to), 500);
}

#[test]
fn test_all_pause_blocks_mint() {
    let mut t = token(addr(1), "T", "T");
    assert_eq!(t.mint(addr(2), 1000, true).unwrap_err(), TokenError::Paused);
}

#[test]
fn test_all_pause_blocks_transfer() {
    let mut t = token(addr(1), "T", "T");
    assert_eq!(t.transfer(addr(2), addr(3), 500, true).unwrap_err(), TokenError::Paused);
}

#[test]
fn test_valuation_flow() {
    let admin = addr(1);
    let oracle = addr(2);
    let mut t = token(admin, "T", "T");
    t.set_oracle(oracle).unwrap();

    t.update_valuation(admin, 1000, 0).unwrap();
    assert_eq!(t.get_valuation().unwrap().value, 1000);

    t.update_valuation(oracle, 1100, 0).unwrap();
    assert_eq!(t.get_valuation().unwrap().value, 1100);

    let history = t.get_valuation_history();
    assert_eq!(history.len(), 2);
    assert_eq!(history[0].value, 1000);
    assert_eq!(history[1].value, 1100);
}

#[test]
fn test_valuation_unauthorized() {
    let admin = addr(1);
    let intruder = addr(9);
    let mut t = token(admin, "T", "T");
    let r = t.update_valuation(intruder, 1000, 0);
    assert_eq!(r.as_ref().unwrap_err(), &TokenError::NotAuthorized);
    assert_eq!(r.unwrap_err().message(), "not authorized");
    assert!(t.get_valuation().is_none());
}

#[test]
fn test_valuation_interval_enforcement() {
    let admin = addr(1);
    let mut t = token(admin, "T", "T");
    t.set_valuation_config(3600).unwrap();
    t.update_valuation(admin, 1000, 0).unwrap();
    let r = t.update_valuation(admin, 1100, 0);
    assert_eq!(r.as_ref().unwrap_err(), &TokenError::TooFrequentUpdate);
    assert_eq!(t.get_valuation().unwrap().value, 1000);
}

#[test]
fn test_valuation_interval_success_after_wait() {
    let admin = addr(1);
    let mut t = token(admin, "T", "T");
    t.set_valuation_config(3600).unwrap();
    t.update_valuation(admin, 1000, 0).unwrap();
    // One full interval later.
    t.update_valuation(admin, 1600, 3600).unwrap();
    assert_eq!(t.get_valuation().unwrap().value, 1600);
}

#[test]
fn test_dividend_lifecycle() {
    let admin = addr(1);
    let user1 = addr(2);
    let user2 = addr(3);
    let payout_asset = addr(4);
    let mut t = token(admin, "Token", "TKN");
    t.mint(user1, 600, false).unwrap();
    t.mint(user2, 400, false).unwrap();

    t.schedule_dividend(1, 100_000_000, payout_asset, 3600, 0).unwrap();

    let now = 3601;
    match t.claim_dividend(1, user1, now).unwrap() {
        TokenEvent::DividendClaimed { amount, .. } => assert_eq!(amount, 58_800_000),
        _ => panic!("unexpected event"),
    }
    match t.claim_dividend(1, user2, now).unwrap() {
        TokenEvent::DividendClaimed { amount, .. } => assert_eq!(amount, 39_200_000),
        _ => panic!("unexpected event"),
    }
    let res = t.claim_dividend(1, user1, now);
    assert!(res.is_err());
    assert_eq!(res.unwrap_err(), TokenError::AlreadyClaimed);
}

#[test]
fn test_claim_too_early() {
    let admin = addr(1);
    let user = addr(2);
    let mut t = token(admin, "Token", "TKN");
    t.mint(user, 100, false).unwrap();
    t.schedule_dividend(1, 1_000_000, addr(4), 3600, 0).unwrap();
    let r = t.claim_dividend(1, user, 0);
    assert_eq!(r.as_ref().unwrap_err(), &TokenError::PayoutNotDue);
    assert_eq!(r.unwrap_err().message(), "payout not yet due");
}

fn bridged(fee_bps: u32, timeout: u64, max_pending: u32) -> (AssetToken, Address, Address) {
    let admin = addr(1);
    let pool = addr(5);
    let mut t = token(admin, "T", "T");
    t.set_bridge_config(fee_bps, pool, timeout, max_pending, [1u8; 32]).unwrap();
    (t, admin, pool)
}

#[test]
fn test_bridge_config_setup() {
    let (t, _, _) = bridged(30, 3600, 5);
    let config = t.get_bridge_config().unwrap();
    assert_eq!(config.fee_bps, 30);
    assert_eq!(config.bridge_timeout, 3600);
    assert_eq!(config.max_pending_per_user, 5);
    assert!(!config.paused);
}

#[test]
fn test_bridge_out_burns_tokens_and_deducts_fee() {
    let admin = addr(1);
    let user = addr(2);
    let pool = addr(5);
    let mut t = token(admin, "T", "T");
    t.mint(user, 10_000, false).unwrap();
    assert_eq!(t.total_supply(), 10_000);
    t.set_bridge_config(30, pool, 3600, 5, [1u8; 32]).unwrap();

    let asset_id = addr(6);
    let target = vec![0xABu8; 20];
    let (bridge_id, _) = t.bridge_out(user, asset_id, 10_000, TargetChain::Ethereum, target, 0).unwrap();

    assert_eq!(t.balance(&user), 0);
    assert_eq!(t.balance(&pool), 30);
    assert_eq!(t.total_supply(), 30);

    let pending = t.get_pending_bridge(&bridge_id).unwrap();
    assert_eq!(pending.amount, 9970);
    assert_eq!(pending.fee, 30);
    assert_eq!(pending.status, BridgeStatus::Pending);
    assert_eq!(pending.target_chain, TargetChain::Ethereum);
}

#[test]
fn test_bridge_in_mints_tokens_with_admin_auth() {
    let (mut t, _, _) = bridged(30, 3600, 5);
    let recipient = addr(7);
    t.bridge_in(BridgeId::new([0u8; 32]), recipient, addr(6), 5000, TargetChain::Solana).unwrap();
    assert_eq!(t.balance(&recipient), 5000);
    assert_eq!(t.total_supply(), 5000);
}

#[test]
fn test_bridge_in_rejects_zero_amount() {
    let (mut t, _, _) = bridged(30, 3600, 5);
    let r = t.bridge_in(BridgeId::new([0u8; 32]), addr(7), addr(6), 0, TargetChain::Ethereum);
    assert_eq!(r.as_ref().unwrap_err(), &TokenError::AmountNotPositive);
    assert_eq!(r.unwrap_err().message(), "amount must be positive");
}

#[test]
fn test_bridge_out_blocked_when_paused() {
    let admin = addr(1);
    let user = addr(2);
    let mut t = token(admin, "T", "T");
    t.mint(user, 10_000, false).unwrap();
    t.set_bridge_config(30, addr(5), 3600, 5, [1u8; 32]).unwrap();
    t.set_bridge_paused(true).unwrap();
    let r = t.bridge_out(user, addr(6), 1000, TargetChain::Ethereum, vec![0xABu8; 20], 0);
    assert_eq!(r.as_ref().unwrap_err(), &TokenError::BridgePaused);
    assert_eq!(t.balance(&user), 10_000);
}

#[test]
fn test_bridge_in_blocked_when_paused() {
    let (mut t, _, _) = bridged(30, 3600, 5);
    t.set_bridge_paused(true).unwrap();
    let r = t.bridge_in(BridgeId::new([0u8; 32]), addr(7), addr(6), 1000, TargetChain::Ethereum);
    assert_eq!(r.as_ref().unwrap_err(), &TokenError::BridgePaused);
    assert_eq!(r.unwrap_err().message(), "bridge is paused");
}

#[test]
fn test_bridge_out_insufficient_balance() {
    let (mut t, _, _) = bridged(30, 3600, 5);
    let r = t.bridge_out(addr(2), addr(6), 1000, TargetChain::Ethereum, vec![0xABu8; 20], 0);
    assert_eq!(r.as_ref().unwrap_err(), &TokenError::InsufficientBalance);
}

#[test]
fn test_bridge_out_zero_amount() {
    let (mut t, _, _) = bridged(30, 3600, 5);
    let r = t.bridge_out(addr(2), addr(6), 0, TargetChain::Solana, vec![0u8; 20], 0);
    assert_eq!(r.as_ref().unwrap_err(), &TokenError::AmountNotPositive);
}

#[test]
fn test_bridge_out_rate_limit() {
    let admin = addr(1);
    let user = addr(2);
    let mut t = token(admin, "T", "T");
    t.mint(user, 1_000_000, false).unwrap();
    t.set_bridge_config(30, addr(5), 3600, 2, [1u8; 32]).unwrap();
    let asset_id = addr(6);
    let target = vec![0xABu8; 20];
    t.bridge_out(user, asset_id, 100, TargetChain::Ethereum, target.clone(), 0).unwrap();
    t.bridge_out(user, asset_id, 100, TargetChain::Solana, target.clone(), 0).unwrap();
    let r = t.bridge_out(user, asset_id, 100, TargetChain::Ethereum, target, 0);
    assert_eq!(r.as_ref().unwrap_err(), &TokenError::TooManyPendingBridges);
    assert_eq!(r.unwrap_err().message(), "too many pending bridges");
}

#[test]
fn test_bridge_expire_after_timeout() {
    let admin = addr(1);
    let user = addr(2);
    let mut t = token(admin, "T", "T");
    t.mint(user, 10_000, false).unwrap();
    t.set_bridge_config(30, addr(5), 100, 5, [1u8; 32]).unwrap();
    let (bridge_id, _) = t.bridge_out(user, addr(6), 1000, TargetChain::Ethereum, vec![0xABu8; 20], 0).unwrap();
    t.expire_bridge(bridge_id, 200).unwrap();
    let bridge = t.get_pending_bridge(&bridge_id).unwrap();
    assert_eq!(bridge.status, BridgeStatus::Failed);
}

#[test]
fn test_bridge_expire_before_timeout_fails() {
    let admin = addr(1);
    let user = addr(2);
    let mut t = token(admin, "T", "T");
    t.mint(user, 10_000, false).unwrap();
    t.set_bridge_config(30, addr(5), 3600, 5, [1u8; 32]).unwrap();
    let (bridge_id, _) = t.bridge_out(user, addr(6), 1000, TargetChain::Ethereum, vec![0xABu8; 20], 0).unwrap();
    let r = t.expire_bridge(bridge_id, 0);
    assert_eq!(r.as_ref().unwrap_err(), &TokenError::BridgeNotExpired);
    assert_eq!(r.unwrap_err().message(), "bridge not expired");
}

#[test]
fn test_bridge_pause_and_unpause() {
    let (mut t, _, _) = bridged(30, 3600, 5);
    assert!(!t.get_bridge_config().unwrap().paused);
    t.set_bridge_paused(true).unwrap();
    assert!(t.get_bridge_config().unwrap().paused);
    t.set_bridge_paused(false).unwrap();
    assert!(!t.get_bridge_config().unwrap().paused);
}

#[test]
fn test_bridge_in_completes_pending_bridge() {
    let admin = addr(1);
    let user = addr(2);
    let mut t = token(admin, "T", "T");
    t.mint(user, 10_000, false).unwrap();
    t.set_bridge_config(0, addr(5), 3600, 5, [1u8; 32]).unwrap();

    let asset_id = addr(6);
    let (bridge_id, _) = t.bridge_out(user, asset_id, 5000, TargetChain::Ethereum, vec![0xABu8; 20], 0).unwrap();
    assert_eq!(t.get_pending_bridge(&bridge_id).unwrap().status, BridgeStatus::Pending);

    let recipient = addr(7);
    t.bridge_in(bridge_id, recipient, asset_id, 5000, TargetChain::Ethereum).unwrap();
    assert_eq!(t.get_pending_bridge(&bridge_id).unwrap().status, BridgeStatus::Completed);
    assert_eq!(t.balance(&recipient), 5000);
}
