use kor_assetforge_contracts::{
    Address, AssetToken, BridgeId, BridgeStatus, MarketError, Marketplace, TargetChain, TokenError,
    TokenEvent,
};

fn addr(tag: u8) -> Address {
    let mut key = [b'G'; 56];
    key[1] = tag;
    Address::new(key)
}

fn setup() -> (AssetToken, Address) {
    let admin = addr(1);
    let mut t = AssetToken::new();
    t.initialize(admin, "Token".to_string(), "TKN".to_string(), 7).unwrap();
    (t, admin)
}

fn sum_of(t: &AssetToken, holders: &[Address]) -> i128 {
    holders.iter().map(|a| t.balance(a)).sum()
}

#[test]
fn supply_stays_the_sum_of_balances() {
    let (mut t, _) = setup();
    let (a, b, c, pool) = (addr(2), addr(3), addr(4), addr(5));
    let all = [a, b, c, pool];
    t.mint(a, 5_000, false).unwrap();
    t.mint(b, 3_000, false).unwrap();
    assert_eq!(t.total_supply(), sum_of(&t, &all));
    t.transfer(a, c, 1_234, false).unwrap();
    assert_eq!(t.total_supply(), sum_of(&t, &all));
    t.set_bridge_config(250, pool, 60, 3, [7u8; 32]).unwrap();
    t.bridge_out(b, addr(9), 2_000, TargetChain::Solana, vec![1, 2, 3], 10).unwrap();
    assert_eq!(t.total_supply(), sum_of(&t, &all));
    t.bridge_in(BridgeId::new([9u8; 32]), c, addr(9), 777, TargetChain::Ethereum).unwrap();
    assert_eq!(t.total_supply(), sum_of(&t, &all));
    assert_eq!(t.total_supply(), 5_000 + 3_000 - 2_000 + 50 + 777);
}

#[test]
fn transfer_to_self_keeps_balance() {
    let (mut t, _) = setup();
    let a = addr(2);
    t.mint(a, 100, false).unwrap();
    t.transfer(a, a, 60, false).unwrap();
    assert_eq!(t.balance(&a), 100);
    assert_eq!(t.total_supply(), 100);
}

#[test]
fn rejected_call_changes_nothing() {
    let (mut t, _) = setup();
    let a = addr(2);
    let b = addr(3);
    t.mint(a, 100, false).unwrap();
    assert_eq!(t.transfer(a, b, 0, false).unwrap_err(), TokenError::AmountNotPositive);
    assert_eq!(t.transfer(a, b, 500, false).unwrap_err(), TokenError::InsufficientBalance);
    assert_eq!(t.balance(&a), 100);
    assert_eq!(t.balance(&b), 0);
    assert_eq!(t.total_supply(), 100);
}

#[test]
fn bridge_fee_is_basis_points_of_amount() {
    let (mut t, _) = setup();
    let user = addr(2);
    let pool = addr(5);
    t.mint(user, 20_000, false).unwrap();
    t.set_bridge_config(125, pool, 60, 5, [0u8; 32]).unwrap();
    let (id, event) = t.bridge_out(user, addr(6), 12_345, TargetChain::Ethereum, vec![0xAB; 20], 0).unwrap();
    // 12345 * 125 / 10000 = 154 (rounded down)
    let record = t.get_pending_bridge(&id).unwrap();
    assert_eq!(record.fee, 154);
    assert_eq!(record.amount, 12_345 - 154);
    assert_eq!(record.timeout, 60);
    assert_eq!(record.target_address, vec![0xAB; 20]);
    assert_eq!(t.balance(&pool), 154);
    assert_eq!(t.balance(&user), 20_000 - 12_345);
    match event {
        TokenEvent::BridgeInitiated { net_amount, target_chain, target_address, caller, .. } => {
            assert_eq!(net_amount, 12_345 - 154);
            assert_eq!(target_chain, TargetChain::Ethereum);
            assert_eq!(target_address, vec![0xAB; 20]);
            assert_eq!(caller, user);
        }
        _ => panic!("unexpected event"),
    }
}

#[test]
fn bridge_ids_are_distinct_and_encode_the_nonce() {
    let (mut t, _) = setup();
    let user = addr(2);
    t.mint(user, 1_000, false).unwrap();
    t.set_bridge_config(0, addr(5), 60, 10, [0u8; 32]).unwrap();
    let mut ids = Vec::new();
    for _ in 0..4 {
        let (id, _) = t.bridge_out(user, addr(6), 10, TargetChain::Solana, vec![], 0).unwrap();
        ids.push(id.bytes());
    }
    assert_eq!(ids[0], [0u8; 32]);
    let mut second = [0u8; 32];
    second[0] = 1;
    assert_eq!(ids[1], second);
    for i in 0..ids.len() {
        for j in (i + 1)..ids.len() {
            assert_ne!(ids[i], ids[j]);
        }
    }
}

#[test]
fn bridge_id_nonce_round_trip() {
    let id = BridgeId::from_nonce(0x0102_0304_0506_0708);
    let bytes = id.bytes();
    assert_eq!(&bytes[..8], &0x0102_0304_0506_0708u64.to_le_bytes());
    assert!(bytes[8..].iter().all(|b| *b == 0));
    assert_eq!(id.nonce(), Some(0x0102_0304_0506_0708));
    assert_eq!(BridgeId::from_nonce(u64::MAX).nonce(), Some(u64::MAX));
    let mut other = [0u8; 32];
    other[31] = 1;
    assert_eq!(BridgeId::new(other).nonce(), None);
}

#[test]
fn expired_bridge_cannot_be_expired_again() {
    let (mut t, _) = setup();
    let user = addr(2);
    t.mint(user, 1_000, false).unwrap();
    t.set_bridge_config(0, addr(5), 10, 1, [0u8; 32]).unwrap();
    let (id, _) = t.bridge_out(user, addr(6), 100, TargetChain::Ethereum, vec![], 5).unwrap();
    // The user's single pending slot is taken.
    assert_eq!(
        t.bridge_out(user, addr(6), 100, TargetChain::Ethereum, vec![], 5).unwrap_err(),
        TokenError::TooManyPendingBridges
    );
    assert_eq!(t.expire_bridge(id, 14).unwrap_err(), TokenError::BridgeNotExpired);
    match t.expire_bridge(id, 15).unwrap() {
        TokenEvent::BridgeExpired { amount } => assert_eq!(amount, 100),
        _ => panic!("unexpected event"),
    }
    assert_eq!(t.expire_bridge(id, 100).unwrap_err(), TokenError::BridgeNotPending);
    assert_eq!(t.expire_bridge(BridgeId::new([3u8; 32]), 100).unwrap_err(), TokenError::BridgeNotFound);
    assert_eq!(t.get_pending_bridge(&id).unwrap().status, BridgeStatus::Failed);
    // The slot is free again.
    t.bridge_out(user, addr(6), 100, TargetChain::Ethereum, vec![], 20).unwrap();
}

#[test]
fn completed_bridge_cannot_be_expired() {
    let (mut t, _) = setup();
    let user = addr(2);
    t.mint(user, 1_000, false).unwrap();
    t.set_bridge_config(0, addr(5), 10, 3, [0u8; 32]).unwrap();
    let (id, _) = t.bridge_out(user, addr(6), 100, TargetChain::Ethereum, vec![], 0).unwrap();
    t.bridge_in(id, user, addr(6), 100, TargetChain::Ethereum).unwrap();
    assert_eq!(t.get_pending_bridge(&id).unwrap().status, BridgeStatus::Completed);
    assert_eq!(t.expire_bridge(id, 1_000).unwrap_err(), TokenError::BridgeNotPending);
}

#[test]
fn dividend_payout_is_share_less_two_percent() {
    let (mut t, _) = setup();
    let a = addr(2);
    let b = addr(3);
    t.mint(a, 3, false).unwrap();
    t.mint(b, 7, false).unwrap();
    t.schedule_dividend(9, 1_000, addr(8), 100, 50).unwrap();
    let info = t.get_dividend_info(9).unwrap();
    assert_eq!(info.amount_per_token, 1_000 * 10_000_000 / 10);
    assert_eq!(info.next_payout_time, 150);
    assert_eq!(t.claim_dividend(9, a, 149).unwrap_err(), TokenError::PayoutNotDue);
    match t.claim_dividend(9, a, 150).unwrap() {
        // gross 300, fee 6
        TokenEvent::DividendClaimed { amount, .. } => assert_eq!(amount, 294),
        _ => panic!("unexpected event"),
    }
    assert_eq!(t.claim_dividend(9, a, 500).unwrap_err(), TokenError::AlreadyClaimed);
    assert_eq!(t.claim_dividend(9, addr(4), 500).unwrap_err(), TokenError::NoTokensHeld);
    assert_eq!(t.claim_dividend(8, a, 500).unwrap_err(), TokenError::NoDividendSchedule);
}

#[test]
fn token_errors_before_setup() {
    let mut t = AssetToken::new();
    assert_eq!(t.mint(addr(2), 10, false).unwrap_err(), TokenError::AdminNotSet);
    assert_eq!(t.name().unwrap_err(), TokenError::AssetNotInitialized);
    assert_eq!(t.symbol().unwrap_err(), TokenError::AssetNotInitialized);
    assert_eq!(t.decimals().unwrap_err(), TokenError::AssetNotInitialized);
    assert_eq!(t.set_oracle(addr(3)).unwrap_err(), TokenError::AdminNotSet);
    assert_eq!(t.set_valuation_config(5).unwrap_err(), TokenError::AdminNotSet);
    assert_eq!(t.update_valuation(addr(3), 5, 0).unwrap_err(), TokenError::AdminNotSet);
    assert_eq!(t.set_bridge_config(0, addr(5), 1, 1, [0u8; 32]).unwrap_err(), TokenError::AdminNotSet);
    assert_eq!(t.set_bridge_paused(true).unwrap_err(), TokenError::AdminNotSet);
    assert_eq!(
        t.bridge_in(BridgeId::new([0u8; 32]), addr(2), addr(6), 5, TargetChain::Ethereum).unwrap_err(),
        TokenError::BridgeNotConfigured
    );
    assert_eq!(t.get_valuation(), None);
    assert!(t.get_bridge_config().is_none());
    assert_eq!(t.admin(), None);
}

#[test]
fn token_errors_on_limits() {
    let (mut t, admin) = setup();
    assert_eq!(t.schedule_dividend(1, 0, addr(8), 1, 0).unwrap_err(), TokenError::DividendNotPositive);
    assert_eq!(t.schedule_dividend(1, 5, addr(8), 1, 0).unwrap_err(), TokenError::ZeroSupply);
    assert_eq!(t.set_bridge_paused(true).unwrap_err(), TokenError::BridgeNotConfigured);
    let a = addr(2);
    t.mint(a, i128::MAX, false).unwrap();
    assert_eq!(t.mint(a, 1, false).unwrap_err(), TokenError::BalanceOverflow);
    assert_eq!(t.mint(addr(3), 1, false).unwrap_err(), TokenError::SupplyOverflow);
    assert_eq!(t.schedule_dividend(1, i128::MAX / 1_000, addr(8), 1, 0).unwrap_err(), TokenError::Overflow);
    assert_eq!(
        t.schedule_dividend(1, 1, addr(8), 1, u64::MAX).unwrap_err(),
        TokenError::ArithmeticOverflow
    );
    t.set_bridge_config(u32::MAX, addr(5), 1, 1, [0u8; 32]).unwrap();
    assert_eq!(
        t.bridge_out(a, addr(6), i128::MAX, TargetChain::Ethereum, vec![], 0).unwrap_err(),
        TokenError::FeeOverflow
    );
    t.set_bridge_config(0, addr(5), 1, 1, [0u8; 32]).unwrap();
    assert_eq!(
        t.bridge_out(a, addr(6), 1, TargetChain::Ethereum, vec![], u64::MAX).unwrap_err(),
        TokenError::ArithmeticOverflow
    );
    t.set_valuation_config(10).unwrap();
    t.update_valuation(admin, 1, u64::MAX - 5).unwrap();
    assert_eq!(t.update_valuation(admin, 2, u64::MAX).unwrap_err(), TokenError::ArithmeticOverflow);
    assert_eq!(TokenError::ArithmeticOverflow.message(), "attempt to add with overflow");
}

#[test]
fn snapshot_round_trip() {
    let (mut t, admin) = setup();
    let a = addr(2);
    t.mint(a, 900, false).unwrap();
    t.set_bridge_config(100, addr(5), 30, 4, [2u8; 32]).unwrap();
    let (id, _) = t.bridge_out(a, addr(6), 300, TargetChain::Solana, vec![5, 6], 1).unwrap();
    t.update_valuation(admin, 42, 2).unwrap();
    t.schedule_dividend(3, 1_000, addr(8), 10, 2).unwrap();

    let restored = AssetToken::from_snapshot(t.into_snapshot()).unwrap();
    assert_eq!(restored.balance(&a), 600);
    assert_eq!(restored.balance(&addr(5)), 3);
    assert_eq!(restored.total_supply(), 603);
    assert_eq!(restored.get_pending_bridge(&id).unwrap().amount, 297);
    assert_eq!(restored.get_valuation().unwrap().value, 42);
    assert_eq!(restored.get_dividend_info(3).unwrap().total_dividend, 1_000);
    assert_eq!(restored.name().unwrap(), "Token");
}

#[test]
fn snapshot_breaking_the_invariant_is_refused() {
    let (mut t, _) = setup();
    t.mint(addr(2), 900, false).unwrap();
    let mut s = t.into_snapshot();
    s.total_supply = 901;
    assert!(AssetToken::from_snapshot(s).is_none());

    let (mut t, _) = setup();
    t.mint(addr(2), 900, false).unwrap();
    let mut s = t.into_snapshot();
    s.balances.push((addr(2), 0));
    assert!(AssetToken::from_snapshot(s).is_none());

    let (t, _) = setup();
    let mut s = t.into_snapshot();
    s.valuation = Some(kor_assetforge_contracts::ValuationRecord { value: 1, timestamp: 1 });
    assert!(AssetToken::from_snapshot(s).is_none());
}

#[test]
fn market_admin_rules() {
    let mut mp = Marketplace::new();
    let admin = addr(1);
    assert_eq!(mp.set_asset_privacy(admin, 1, true).unwrap_err(), MarketError::AdminNotSet);
    mp.initialize(admin).unwrap();
    assert_eq!(mp.initialize(addr(2)).unwrap_err(), MarketError::AlreadyInitialized);
    assert_eq!(mp.admin(), Some(admin));
    let users = vec![addr(3), addr(4), addr(5)];
    assert_eq!(mp.bulk_add_to_whitelist(addr(2), 7, &users).unwrap_err(), MarketError::NotAuthorized);
    let events = mp.bulk_add_to_whitelist(admin, 7, &users).unwrap();
    assert_eq!(events.len(), 3);
    for u in &users {
        assert!(mp.is_whitelisted(7, *u));
        assert!(!mp.is_whitelisted(8, *u));
    }
    assert!(mp.get_listing(1).is_none());
    assert_eq!(mp.create_listing(addr(3), 2, 40, 900, false, None), Ok(1));
    assert_eq!(mp.cancel_listing(addr(3), 1, 7, false), Ok(true));
    assert_eq!(mp.cancel_listing(addr(3), 1, 7, true), Err(MarketError::Paused));

    let restored = Marketplace::from_snapshot(mp.into_snapshot()).unwrap();
    assert!(restored.is_whitelisted(7, addr(4)));
    let kept = restored.get_listing(1).unwrap();
    assert_eq!((kept.asset_id, kept.seller, kept.amount, kept.price, kept.active), (2, addr(3), 40, 900, true));
}

#[test]
fn bridge_out_overflow_checks() {
    let (mut t, _) = setup();
    let user = addr(2);
    let pool = addr(5);
    t.mint(pool, i128::MAX - 1_000_000, false).unwrap();
    t.mint(user, 1_000_000, false).unwrap();
    t.set_bridge_config(u32::MAX, pool, 60, 5, [0u8; 32]).unwrap();
    assert_eq!(
        t.bridge_out(user, addr(6), 1_000_000, TargetChain::Ethereum, vec![], 0).unwrap_err(),
        TokenError::PoolBalanceOverflow
    );

    let (mut t, _) = setup();
    let other = addr(3);
    t.mint(other, i128::MAX - 1_000_000, false).unwrap();
    t.mint(user, 1_000_000, false).unwrap();
    t.set_bridge_config(u32::MAX, pool, 60, 5, [0u8; 32]).unwrap();
    assert_eq!(
        t.bridge_out(user, addr(6), 1_000_000, TargetChain::Ethereum, vec![], 0).unwrap_err(),
        TokenError::SupplyOverflow
    );
    assert_eq!(t.balance(&user), 1_000_000);
}

#[test]
fn bridge_nonce_exhaustion() {
    let (mut t, _) = setup();
    let user = addr(2);
    t.mint(user, 100, false).unwrap();
    t.set_bridge_config(0, addr(5), 60, 5, [0u8; 32]).unwrap();
    let mut s = t.into_snapshot();
    s.bridge_nonce = u64::MAX;
    let mut t = AssetToken::from_snapshot(s).unwrap();
    assert_eq!(
        t.bridge_out(user, addr(6), 10, TargetChain::Ethereum, vec![], 0).unwrap_err(),
        TokenError::NonceOverflow
    );
}

#[test]
fn bridge_in_mints_exactly_the_amount() {
    let (mut t, _) = setup();
    let a = addr(2);
    let b = addr(3);
    t.mint(a, 10, false).unwrap();
    t.set_bridge_config(0, addr(5), 60, 5, [0u8; 32]).unwrap();
    t.bridge_in(BridgeId::new([4u8; 32]), b, addr(6), 90, TargetChain::Solana).unwrap();
    assert_eq!(t.balance(&b), 90);
    assert_eq!(t.balance(&a), 10);
    assert_eq!(t.total_supply(), 100);
    assert!(t.get_pending_bridge(&BridgeId::new([4u8; 32])).is_none());
}

#[test]
fn created_listing_is_read_back() {
    let mut mp = Marketplace::new();
    assert!(mp.get_listing(1).is_none());
    let seller = addr(2);
    assert_eq!(mp.create_listing(seller, 4, 100, 1000, false, None), Ok(1));
    let l = mp.get_listing(1).unwrap();
    assert_eq!((l.asset_id, l.seller, l.amount, l.price, l.active), (4, seller, 100, 1000, true));
    assert!(mp.get_listing(2).is_none());
    // A refused listing leaves the stored one as it was.
    assert!(mp.create_listing(addr(3), 5, 7, 8, true, None).is_err());
    let l = mp.get_listing(1).unwrap();
    assert_eq!((l.asset_id, l.seller, l.amount, l.price), (4, seller, 100, 1000));
    // A later listing takes the same identifier.
    assert_eq!(mp.create_listing(addr(3), 5, 7, 8, false, None), Ok(1));
    let l = mp.get_listing(1).unwrap();
    assert_eq!((l.asset_id, l.seller, l.amount, l.price, l.active), (5, addr(3), 7, 8, true));
}

#[test]
fn completing_a_bridge_twice_keeps_the_pending_limit() {
    let (mut t, _) = setup();
    let user = addr(2);
    t.mint(user, 1_000, false).unwrap();
    t.set_bridge_config(0, addr(5), 10, 2, [0u8; 32]).unwrap();
    let (first, _) = t.bridge_out(user, addr(6), 100, TargetChain::Ethereum, vec![], 0).unwrap();
    let (second, _) = t.bridge_out(user, addr(6), 100, TargetChain::Ethereum, vec![], 0).unwrap();
    t.bridge_in(first, user, addr(6), 100, TargetChain::Ethereum).unwrap();
    // Completing the same bridge again mints but settles nothing more.
    t.bridge_in(first, user, addr(6), 100, TargetChain::Ethereum).unwrap();
    assert_eq!(t.get_pending_bridge(&second).unwrap().status, BridgeStatus::Pending);
    t.bridge_out(user, addr(6), 100, TargetChain::Ethereum, vec![], 0).unwrap();
    assert_eq!(
        t.bridge_out(user, addr(6), 100, TargetChain::Ethereum, vec![], 0).unwrap_err(),
        TokenError::TooManyPendingBridges
    );
}

#[test]
fn claim_stays_blocked_until_rescheduled() {
    let (mut t, _) = setup();
    let a = addr(2);
    t.mint(a, 10, false).unwrap();
    t.schedule_dividend(9, 1_000, addr(8), 100, 50).unwrap();
    t.claim_dividend(9, a, 150).unwrap();
    t.mint(a, 5, false).unwrap();
    t.transfer(a, addr(3), 1, false).unwrap();
    assert_eq!(t.claim_dividend(9, a, 10_000).unwrap_err(), TokenError::AlreadyClaimed);
    t.schedule_dividend(9, 1_000, addr(8), 200, 50).unwrap();
    assert!(t.claim_dividend(9, a, 250).is_ok());
}

#[test]
fn inbound_bridge_completes_an_expired_record() {
    let (mut t, _) = setup();
    let user = addr(2);
    t.mint(user, 1_000, false).unwrap();
    t.set_bridge_config(0, addr(5), 10, 1, [0u8; 32]).unwrap();
    let (id, _) = t.bridge_out(user, addr(6), 100, TargetChain::Ethereum, vec![], 0).unwrap();
    t.expire_bridge(id, 10).unwrap();
    assert_eq!(t.get_pending_bridge(&id).unwrap().status, BridgeStatus::Failed);
    t.bridge_in(id, user, addr(6), 100, TargetChain::Ethereum).unwrap();
    let record = t.get_pending_bridge(&id).unwrap();
    assert_eq!(record.status, BridgeStatus::Completed);
    assert_eq!((record.caller, record.amount), (user, 100));
    // The expiry already released the slot; completing the record does not free another.
    let (second, _) = t.bridge_out(user, addr(6), 100, TargetChain::Ethereum, vec![], 0).unwrap();
    assert_eq!(
        t.bridge_out(user, addr(6), 100, TargetChain::Ethereum, vec![], 0).unwrap_err(),
        TokenError::TooManyPendingBridges
    );
    assert_eq!(t.get_pending_bridge(&second).unwrap().status, BridgeStatus::Pending);
}

#[test]
fn snapshot_with_unbalanced_bridge_books_is_refused() {
    let (mut t, _) = setup();
    let user = addr(2);
    t.mint(user, 1_000, false).unwrap();
    t.set_bridge_config(0, addr(5), 10, 3, [0u8; 32]).unwrap();
    t.bridge_out(user, addr(6), 100, TargetChain::Ethereum, vec![], 0).unwrap();
    let s = t.into_snapshot();
    assert_eq!(s.pending_counts, vec![(user, 1)]);
    let kept = AssetToken::from_snapshot(s).unwrap();

    // A count that is not the number of the address's pending bridges.
    let mut s = kept.into_snapshot();
    s.pending_counts = vec![(user, 0)];
    assert!(AssetToken::from_snapshot(s).is_none());

    // A pending bridge whose caller has no count.
    let (mut t, _) = setup();
    t.mint(user, 1_000, false).unwrap();
    t.set_bridge_config(0, addr(5), 10, 3, [0u8; 32]).unwrap();
    t.bridge_out(user, addr(6), 100, TargetChain::Ethereum, vec![], 0).unwrap();
    let mut s = t.into_snapshot();
    s.pending_counts = vec![];
    assert!(AssetToken::from_snapshot(s).is_none());

    // A count for an address without pending bridges.
    let (t, _) = setup();
    let mut s = t.into_snapshot();
    s.pending_counts = vec![(user, 1)];
    assert!(AssetToken::from_snapshot(s).is_none());
}
