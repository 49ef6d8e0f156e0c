use kor_assetforge_contracts::{Address, AssetToken, Marketplace, TokenError};

fn addr(tag: u8) -> Address {
    let mut key = [b'G'; 56];
    key[1] = tag;
    Address::new(key)
}

fn setup() -> (Marketplace, AssetToken, Address) {
    let admin = addr(1);
    let mut at = AssetToken::new();
    at.initialize(admin, "Token".to_string(), "TKN".to_string(), 7).unwrap();
    (Marketplace::new(), at, admin)
}

#[test]
fn test_full_lifecycle_pause_unpause_resume() {
    let (mut mp, _at, _admin) = setup();
    let seller = addr(2);
    let asset_id: u64 = 1;

    assert_eq!(mp.create_listing(seller, asset_id, 100, 1000, false, None), Ok(1));
    // Trading paused.
    assert!(mp.create_listing(seller, asset_id, 50, 500, true, None).is_err());
    // Trading resumed.
    assert_eq!(mp.create_listing(seller, asset_id, 50, 500, false, None), Ok(1));
}

#[test]
fn test_cross_contract_scope_isolation() {
    let (mut mp, mut at, _admin) = setup();
    let user = addr(2);
    let asset_id: u64 = 1;

    at.mint(user, 100, false).unwrap();
    // Minting is paused from here on; trading and transfers are not.
    assert_eq!(mp.create_listing(user, asset_id, 100, 1000, false, None), Ok(1));
    let to = addr(3);
    at.transfer(user, to, 50, false).unwrap();
    assert!(at.mint(user, 1000, true).is_err());
}

#[test]
fn test_global_pause_blocks_all_operations() {
    let (mut mp, mut at, _admin) = setup();
    let user = addr(2);
    let to = addr(3);
    let asset_id: u64 = 1;
    assert!(mp.create_listing(user, asset_id, 100, 1000, true, None).is_err());
    assert!(at.transfer(user, to, 50, true).is_err());
    assert!(at.mint(user, 1000, true).is_err());
}

#[test]
fn test_multiple_assets_paused_independently() {
    let (mut mp, _at, _admin) = setup();
    let seller = addr(2);
    // Asset 1 is paused for trading, asset 2 is not.
    assert_eq!(mp.create_listing(seller, 2, 100, 500, false, None), Ok(1));
    assert!(mp.create_listing(seller, 1, 100, 500, true, None).is_err());
}

#[test]
fn test_valuation_management() {
    let (_mp, mut at, admin) = setup();
    let oracle = addr(7);
    at.set_oracle(oracle).unwrap();

    at.update_valuation(oracle, 1500, 0).unwrap();
    assert_eq!(at.get_valuation().unwrap().value, 1500);

    let history = at.get_valuation_history();
    assert_eq!(history.len(), 1);
    assert_eq!(history[0].value, 1500);

    at.update_valuation(admin, 1600, 0).unwrap();
    assert_eq!(at.get_valuation().unwrap().value, 1600);
}

#[test]
fn test_asset_dividend_lifecycle() {
    let (_mp, mut at, _admin) = setup();
    let payout_asset = addr(8);
    let user1 = addr(2);
    let user2 = addr(3);

    at.mint(user1, 600, false).unwrap();
    at.mint(user2, 400, false).unwrap();
    at.schedule_dividend(1, 100_000_000, payout_asset, 3600, 0).unwrap();

    let info = at.get_dividend_info(1).expect("dividend not scheduled");
    assert_eq!(info.total_dividend, 100_000_000);

    at.claim_dividend(1, user1, 3601).unwrap();
    at.claim_dividend(1, user2, 3601).unwrap();

    let res = at.claim_dividend(1, user1, 3601);
    assert!(res.is_err());
    assert_eq!(res.unwrap_err(), TokenError::AlreadyClaimed);
}

#[test]
fn test_governance_full_proposal_lifecycle() {
    let (mut mp, mut at, _admin) = setup();
    let proposer = addr(2);
    let voter1 = addr(3);
    let voter2 = addr(4);
    let seller = addr(5);
    let asset_id: u64 = 10;

    at.mint(proposer, 200, false).unwrap();
    at.mint(voter1, 80, false).unwrap();
    at.mint(voter2, 60, false).unwrap();
    assert_eq!(at.total_supply(), 340);

    // The governance contract approved the asset.
    let lid = mp.create_listing(seller, asset_id, 50, 5000, false, Some(true));
    assert_eq!(lid, Ok(1));
}

#[test]
fn test_governance_rejected_proposal_blocks_listing() {
    let (mut mp, mut at, _admin) = setup();
    at.mint(addr(2), 200, false).unwrap();
    at.mint(addr(3), 120, false).unwrap();
    // The governance contract rejected the asset.
    let seller = addr(5);
    assert!(mp.create_listing(seller, 20, 50, 1000, false, Some(false)).is_err());
}

#[test]
fn test_governance_and_pause_combined() {
    let (mut mp, mut at, _admin) = setup();
    at.mint(addr(2), 200, false).unwrap();
    at.mint(addr(3), 150, false).unwrap();
    let seller = addr(5);
    let asset_id: u64 = 30;
    // Approved by governance, but trading is paused.
    assert!(mp.create_listing(seller, asset_id, 50, 1000, true, Some(true)).is_err());
    // Trading resumed.
    assert_eq!(mp.create_listing(seller, asset_id, 50, 1000, false, Some(true)), Ok(1));
}
