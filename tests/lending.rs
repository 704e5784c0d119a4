use lending_pool::ledger::{DebtPosition, PositionLedger};
use lending_pool::metadata::{AggregatorResult, InterestMetadata};
use lending_pool::pool::LiquidityPool;
use lending_pool::rate::{
    compute_borrow_rate, compute_capital_utilisation, compute_debt, compute_deposit_rate,
    PoolParams, SECONDS_PER_YEAR,
};
use lending_pool::router::LendingPool;
use lending_pool::types::{Address, LendingError, TokenIdentifier};

fn params() -> PoolParams {
    PoolParams {
        r_base: 10_000_000,
        r_slope1: 40_000_000,
        r_slope2: 1_000_000_000,
        u_optimal: 800_000_000,
        reserve_factor: 100_000_000,
        liquidation_threshold: 700_000_000,
        health_factor_threshold: 1_000_000_000,
    }
}

fn token(name: &str) -> TokenIdentifier {
    TokenIdentifier::from_bytes(name.as_bytes())
}

fn addr(b: u8) -> Address {
    let mut bytes = [0u8; 32];
    bytes[31] = b;
    Address { bytes }
}

fn pool(name: &str, a: u8) -> LiquidityPool {
    LiquidityPool::init(token(name), addr(a), params())
}

/// A router for ASSET_A at address 1 and ASSET_B at address 2, with B's pool
/// holding `reserve_b`.
fn two_pools(reserve_b: u64) -> (LendingPool, Vec<LiquidityPool>) {
    let mut router = LendingPool::init();
    router.set_pool_address(token("ASSET_A"), addr(1)).unwrap();
    router.set_pool_address(token("ASSET_B"), addr(2)).unwrap();
    let mut b = pool("ASSET_B", 2);
    if reserve_b > 0 {
        b.deposit_asset(reserve_b, 0).unwrap();
    }
    (router, vec![pool("ASSET_A", 1), b])
}

#[test]
fn utilisation_values() {
    assert_eq!(compute_capital_utilisation(0, 0), 0);
    assert_eq!(compute_capital_utilisation(400, 600), 400_000_000);
    assert_eq!(compute_capital_utilisation(1000, 0), 1_000_000_000);
}

#[test]
fn borrow_rate_values() {
    let p = params();
    assert_eq!(compute_borrow_rate(&p, 0), 10_000_000);
    assert_eq!(compute_borrow_rate(&p, 400_000_000), 30_000_000);
    assert_eq!(compute_borrow_rate(&p, 800_000_000), 50_000_000);
    assert_eq!(compute_borrow_rate(&p, 799_999_999), 49_999_999);
    assert_eq!(compute_borrow_rate(&p, 900_000_000), 550_000_000);
    assert_eq!(compute_borrow_rate(&p, 1_000_000_000), 1_050_000_000);
}

#[test]
fn borrow_rate_is_monotonic_and_deposit_rate_below() {
    let p = params();
    let mut prev = 0u64;
    let mut u = 0u64;
    while u <= 1_000_000_000 {
        let b = compute_borrow_rate(&p, u);
        assert!(b >= prev);
        assert!(compute_deposit_rate(&p, u) <= b);
        prev = b;
        u += 12_500_000;
    }
}

#[test]
fn deposit_rate_value() {
    assert_eq!(compute_deposit_rate(&params(), 400_000_000), 10_800_000);
    assert_eq!(compute_deposit_rate(&params(), 0), 0);
}

#[test]
fn interest_values() {
    assert_eq!(compute_debt(1_000_000, SECONDS_PER_YEAR, 100_000_000), 100_000);
    assert_eq!(compute_debt(1_000, 0, 100_000_000), 0);
    assert_eq!(compute_debt(1_000_000, SECONDS_PER_YEAR / 2, 100_000_000), 50_000);
    assert_eq!(compute_debt(1_000_000, SECONDS_PER_YEAR / 2 - 1, 100_000_000), 49_999);
    assert_eq!(
        compute_debt(u64::MAX, u64::MAX, 1_000_000_000_000),
        (u64::MAX as u128 * 1_000_000_000_000u128 / 31_556_926_000_000_000u128) * u64::MAX as u128
            + (u64::MAX as u128 * 1_000_000_000_000u128 % 31_556_926_000_000_000u128)
                * u64::MAX as u128
                / 31_556_926_000_000_000u128
    );
}

#[test]
fn accrue_is_repeatable_and_grows() {
    let mut p = pool("ASSET_B", 2);
    p.deposit_asset(1_000_000, 0).unwrap();
    let (id, _) = p.borrow(400_000, token("ASSET_A"), 500_000, 0, 100, 2, 1).unwrap();
    let a1 = p.accrue(id, 100 + SECONDS_PER_YEAR).unwrap();
    let a2 = p.accrue(id, 100 + SECONDS_PER_YEAR).unwrap();
    assert_eq!(a1, a2);
    // utilisation 0.4 gives a borrow rate of 0.03 per year
    assert_eq!(a1, 412_000);
    assert_eq!(p.accrue(id, 100).unwrap(), 400_000);
    assert!(p.accrue(id, 100 + 2 * SECONDS_PER_YEAR).unwrap() >= a1);
    assert_eq!(p.accrue(id, 99), Err(LendingError::InvalidTimestamp));
    assert_eq!(p.accrue(id + 1, 200), Err(LendingError::PositionNotFound));
    assert_eq!(p.get_debt_position_interest(id, 100 + SECONDS_PER_YEAR).unwrap(), 12_000);
}

#[test]
fn ledger_total_is_sum_of_open_positions() {
    let mut l = PositionLedger::new();
    let a = l.open_position(100, token("A"), 1, 0, 5).unwrap();
    let b = l.open_position(250, token("A"), 1, 0, 6).unwrap();
    let c = l.open_position(30, token("A"), 1, 0, 7).unwrap();
    assert_eq!((a, b, c), (0, 1, 2));
    assert_eq!(l.total_borrow, 380);
    let closed: DebtPosition = l.close_position(b).unwrap();
    assert_eq!(closed.size, 250);
    assert_eq!(l.total_borrow, 130);
    assert_eq!(l.total_borrow, l.positions.iter().map(|p| p.size).sum::<u64>());
    assert_eq!(l.close_position(b), Err(LendingError::PositionNotFound));
    assert_eq!(l.total_borrow, 130);
}

#[test]
fn deposit_then_withdraw_returns_amount() {
    let mut p = pool("ASSET_A", 1);
    p.deposit_asset(500, 0).unwrap();
    let receipt = p.deposit_asset(777, 42).unwrap();
    assert_eq!(receipt, InterestMetadata { timestamp: 42 });
    assert_eq!(p.reserve_amount, 1277);
    assert_eq!(p.withdraw(777, receipt.timestamp, 42), Ok(777));
    assert_eq!(p.reserve_amount, 500);
}

#[test]
fn withdraw_pays_deposit_interest() {
    let mut p = pool("ASSET_B", 2);
    p.deposit_asset(1_000_000, 0).unwrap();
    p.borrow(400_000, token("ASSET_A"), 1, 0, 0, 2, 1).unwrap();
    // deposit rate at utilisation 0.4 is 0.0108 per year
    assert_eq!(p.get_deposit_rate(), 10_800_000);
    assert_eq!(p.withdraw(100_000, 0, SECONDS_PER_YEAR), Ok(101_080));
    assert_eq!(p.reserve_amount, 600_000 - 101_080);
    assert_eq!(p.withdraw(1, 10, 9), Err(LendingError::InvalidTimestamp));
    assert_eq!(p.withdraw(0, 0, 9), Err(LendingError::InvalidAmount));
}

#[test]
fn borrow_within_reserve_then_insufficient() {
    let mut p = pool("ASSET_B", 2);
    p.deposit_asset(1000, 0).unwrap();
    assert_eq!(p.ledger.total_borrow, 0);
    let (id, meta) = p.borrow(400, token("ASSET_A"), 900, 3, 10, 2, 1).unwrap();
    assert_eq!(id, 0);
    assert_eq!(meta.timestamp, 10);
    assert_eq!(meta.collateral_amount, 900);
    assert_eq!(meta.collateral_identifier, token("ASSET_A"));
    assert_eq!(meta.collateral_timestamp, 3);
    assert_eq!(p.reserve_amount, 600);
    assert_eq!(p.ledger.total_borrow, 400);
    assert_eq!(
        p.borrow(700, token("ASSET_A"), 900, 3, 10, 2, 1).map(|r| r.0),
        Err(LendingError::InsufficientReserve)
    );
    assert_eq!(p.reserve_amount, 600);
    assert_eq!(p.ledger.total_borrow, 400);
}

#[test]
fn set_pool_address_is_write_once() {
    let mut router = LendingPool::init();
    assert_eq!(router.set_pool_address(token("ASSET_A"), addr(1)), Ok(()));
    assert_eq!(
        router.set_pool_address(token("ASSET_A"), addr(2)),
        Err(LendingError::AssetNotSupported)
    );
    assert_eq!(router.get_pool_address(&token("ASSET_A")), addr(1));
    assert_eq!(router.get_pool_address(&token("ASSET_C")), Address::zero());
}

#[test]
fn failed_second_borrow_leg_keeps_collateral_credit() {
    let (router, mut pools) = two_pools(100);
    let flow = router
        .borrow(addr(9), &token("ASSET_A"), &token("ASSET_B"), 500, 7, 20, 2, 1, &mut pools)
        .unwrap();
    assert_eq!(flow.collateral_pool, 0);
    assert_eq!(flow.collateral_credited, 500);
    assert_eq!(flow.borrow.map(|r| r.0), Err(LendingError::InsufficientReserve));
    assert_eq!(pools[0].collateral_amount, 500);
    assert_eq!(pools[1].reserve_amount, 100);
    assert_eq!(pools[1].ledger.total_borrow, 0);
}

#[test]
fn repay_exact_accrued_size_releases_collateral() {
    let (router, mut pools) = two_pools(10_000);
    let flow = router
        .borrow(addr(9), &token("ASSET_A"), &token("ASSET_B"), 500, 7, 20, 2, 1, &mut pools)
        .unwrap();
    let (id, _) = flow.borrow.unwrap();
    let due = pools[1].accrue(id, 20 + SECONDS_PER_YEAR).unwrap() as u64;
    assert!(due > 500);
    let repaid = router
        .repay(addr(9), &token("ASSET_B"), id, due, 20 + SECONDS_PER_YEAR, &mut pools)
        .unwrap();
    assert_eq!(repaid.position.collateral_identifier, token("ASSET_A"));
    assert_eq!(repaid.position.collateral_amount, 500);
    assert_eq!(repaid.position.collateral_timestamp, 7);
    assert_eq!(repaid.position.identifier, token("ASSET_B"));
    assert_eq!(repaid.position.amount, due);
    assert_eq!(repaid.position.nonce, id);
    assert_eq!(repaid.release, Ok(InterestMetadata { timestamp: 7 }));
    assert!(pools[1].view_debt_position(id).is_none());
    assert_eq!(pools[1].ledger.total_borrow, 0);
    assert_eq!(pools[1].reserve_amount, 10_000 - 500 + due);
    assert_eq!(pools[0].collateral_amount, 0);
}

#[test]
fn partial_repay_is_rejected() {
    let (router, mut pools) = two_pools(10_000);
    let flow = router
        .borrow(addr(9), &token("ASSET_A"), &token("ASSET_B"), 500, 7, 20, 2, 1, &mut pools)
        .unwrap();
    let (id, _) = flow.borrow.unwrap();
    let r = router.repay(addr(9), &token("ASSET_B"), id, 499, 20, &mut pools);
    assert_eq!(r.map(|f| f.position.nonce), Err(LendingError::Overpayment));
    assert!(pools[1].view_debt_position(id).is_some());
    assert_eq!(pools[1].ledger.total_borrow, 500);
}

#[test]
fn router_validation_errors() {
    let (mut router, mut pools) = two_pools(0);
    let a = token("ASSET_A");
    assert_eq!(router.deposit(addr(9), &a, 0, 0, &mut pools), Err(LendingError::InvalidAmount));
    assert_eq!(
        router.deposit(Address::zero(), &a, 5, 0, &mut pools),
        Err(LendingError::InvalidAddress)
    );
    assert_eq!(
        router.deposit(addr(9), &token("ASSET_C"), 5, 0, &mut pools),
        Err(LendingError::AssetNotSupported)
    );
    router.set_pool_address(token("ASSET_Z"), Address::zero()).unwrap();
    assert_eq!(
        router.deposit(addr(9), &token("ASSET_Z"), 5, 0, &mut pools),
        Err(LendingError::InvalidPoolAddress)
    );
    router.set_pool_address(token("ASSET_Y"), addr(77)).unwrap();
    assert_eq!(
        router.withdraw(addr(9), &token("ASSET_Y"), 5, 0, 0, &mut pools),
        Err(LendingError::InvalidPoolAddress)
    );
    assert_eq!(router.deposit(addr(9), &a, 5, 3, &mut pools), Ok(InterestMetadata { timestamp: 3 }));
    assert_eq!(pools[0].reserve_amount, 5);
    assert_eq!(router.withdraw(addr(9), &a, 6, 3, 3, &mut pools), Err(LendingError::InsufficientReserve));
    assert_eq!(router.withdraw(addr(9), &a, 5, 3, 3, &mut pools), Ok(5));
    assert_eq!(pools[0].reserve_amount, 0);
}

#[test]
fn lock_b_tokens_checks_position() {
    let (router, mut pools) = two_pools(1000);
    let flow = router
        .borrow(addr(9), &token("ASSET_A"), &token("ASSET_B"), 100, 0, 0, 2, 1, &mut pools)
        .unwrap();
    let (id, _) = flow.borrow.unwrap();
    assert_eq!(router.lock_b_tokens(addr(9), &token("ASSET_B"), id, 1, &pools), Ok(addr(2)));
    assert_eq!(
        router.lock_b_tokens(addr(9), &token("ASSET_B"), id + 5, 1, &pools),
        Err(LendingError::PositionNotFound)
    );
}

#[test]
fn overflow_and_health_checks() {
    let mut p = pool("ASSET_A", 1);
    p.deposit_asset(u64::MAX, 0).unwrap();
    assert_eq!(p.deposit_asset(1, 0), Err(LendingError::Overflow));
    assert_eq!(p.deposit_asset(0, 0), Err(LendingError::InvalidAmount));
    assert_eq!(p.compute_health_factor(2000, 1000), 1_400_000_000);
    assert_eq!(p.check_health(2000, 1000), Ok(()));
    assert_eq!(p.check_health(1000, 1000), Err(LendingError::Undercollateralized));
    assert_eq!(p.check_health(0, 0), Ok(()));
    p.set_health_factor_threshold(500_000_000);
    assert_eq!(p.check_health(1000, 1000), Ok(()));
    assert_eq!(p.params.health_factor_threshold, 500_000_000);
}

#[test]
fn release_collateral_limits() {
    let mut p = pool("ASSET_A", 1);
    p.add_collateral(50).unwrap();
    assert_eq!(p.release_collateral(51, 4), Err(LendingError::InsufficientReserve));
    assert_eq!(p.release_collateral(50, 4), Ok(InterestMetadata { timestamp: 4 }));
    assert_eq!(p.collateral_amount, 0);
    assert_eq!(p.add_collateral(0), Err(LendingError::InvalidAmount));
}

#[test]
fn timestamp_diff_and_identifiers() {
    assert_eq!(LiquidityPool::get_timestamp_diff(5, 9), Ok(4));
    assert_eq!(LiquidityPool::get_timestamp_diff(10, 9), Err(LendingError::InvalidTimestamp));
    assert!(token("AB").same_as(&token("AB")));
    assert!(!token("AB").same_as(&token("AC")));
    assert!(!token("AB").same_as(&token("ABC")));
    assert!(Address::zero().is_zero());
    assert!(!addr(3).is_zero());
    assert_eq!(token("AB").duplicate(), token("AB"));
}

#[test]
fn aggregator_result_from_tuple() {
    let r = AggregatorResult::from((7u32, b"EGLD".to_vec(), b"USD".to_vec(), 4200u64, 2u8));
    assert_eq!(r.round_id, 7);
    assert_eq!(r.from_token_name, b"EGLD".to_vec());
    assert_eq!(r.to_token_name, b"USD".to_vec());
    assert_eq!(r.price, 4200);
    assert_eq!(r.decimals, 2);
}

#[test]
fn issue_data_for_receipt_tokens() {
    let mut p = pool("ASSET_A", 1);
    let d = p.prepare_issue_data(b'L', b"EGLD");
    assert_eq!(d.name, b"IntBearingEGLD".to_vec());
    assert_eq!(d.ticker, token("LEGLD"));
    assert!(d.is_empty_ticker);
    let d = p.prepare_issue_data(b'B', b"EGLD");
    assert_eq!(d.name, b"DebtBearingEGLD".to_vec());
    assert_eq!(d.ticker, token("BEGLD"));
    let d = p.prepare_issue_data(b'X', b"EGLD");
    assert_eq!(d.name, Vec::<u8>::new());
    assert_eq!(d.ticker, token("XEGLD"));
    assert!(d.is_empty_ticker);
    assert_eq!(p.set_issued_token(b'L', token("LEGLD-123456")), Ok(()));
    assert!(!p.prepare_issue_data(b'L', b"EGLD").is_empty_ticker);
    assert!(p.prepare_issue_data(b'B', b"EGLD").is_empty_ticker);
    assert_eq!(
        p.set_issued_token(b'L', token("LEGLD-654321")),
        Err(LendingError::TokenAlreadyIssued)
    );
    assert_eq!(p.lend_token, Some(token("LEGLD-123456")));
    assert_eq!(p.set_issued_token(b'X', token("X")), Err(LendingError::TokenAlreadyIssued));
}

#[test]
fn undercollateralized_borrow_is_refused() {
    let mut p = pool("ASSET_B", 2);
    p.deposit_asset(1000, 0).unwrap();
    // health factor 1000 * 0.7 / 1000 = 0.7, below the threshold of 1.0
    assert_eq!(
        p.borrow(400, token("ASSET_A"), 900, 3, 10, 1000, 1000).map(|r| r.0),
        Err(LendingError::Undercollateralized)
    );
    assert_eq!(p.reserve_amount, 1000);
    assert_eq!(p.ledger.total_borrow, 0);
    assert_eq!(p.ledger.positions.len(), 0);
    assert_eq!(p.ledger.next_id, 0);
    // health factor exactly at the threshold passes
    assert_eq!(p.borrow(400, token("ASSET_A"), 900, 3, 10, 1000, 700).map(|r| r.0), Ok(0));
}

#[test]
fn undercollateralized_second_leg_keeps_collateral_credit() {
    let (router, mut pools) = two_pools(10_000);
    let flow = router
        .borrow(addr(9), &token("ASSET_A"), &token("ASSET_B"), 500, 7, 20, 500, 500, &mut pools)
        .unwrap();
    assert_eq!(flow.borrow.map(|r| r.0), Err(LendingError::Undercollateralized));
    assert_eq!(pools[0].collateral_amount, 500);
    assert_eq!(pools[1].reserve_amount, 10_000);
    assert_eq!(pools[1].ledger.total_borrow, 0);
}
