use amm::errors::AmmError;
use amm::liquidity::deposit_liquidity;
use amm::liquidity::withdraw_liquidity;
use amm::pool::initialize;
use amm::pool::Pool;

const POOL_KEY: u64 = 900;
const USER: u64 = 42;

fn fresh_pool() -> Pool {
    let (pool, _event) = initialize(POOL_KEY, 1, 2, 3, 4, 5, 6, 7, 8).unwrap();
    pool
}

#[test]
fn first_deposit_mints_sqrt_of_product() {
    let pool = fresh_pool();
    let ev = deposit_liquidity(&pool, POOL_KEY, USER, 0, 0, 0, 1000, 4000, 0).unwrap();
    assert_eq!(ev.amount_a_in, 1000);
    assert_eq!(ev.amount_b_in, 4000);
    assert_eq!(ev.lp_minted, 2000);
    assert_eq!(ev.user, USER);
    assert_eq!(ev.pool, POOL_KEY);
}

#[test]
fn first_deposit_slippage() {
    let pool = fresh_pool();
    let r = deposit_liquidity(&pool, POOL_KEY, USER, 0, 0, 0, 1000, 4000, 2001);
    assert_eq!(r, Err(AmmError::SlippageExceeded));
}

#[test]
fn first_deposit_near_u64_max() {
    let pool = fresh_pool();
    let ev = deposit_liquidity(&pool, POOL_KEY, USER, 0, 0, 0, u64::MAX, u64::MAX, 0).unwrap();
    assert_eq!(ev.lp_minted, u64::MAX);
}

#[test]
fn deposit_rejects_zero_amounts() {
    let pool = fresh_pool();
    let r = deposit_liquidity(&pool, POOL_KEY, USER, 0, 0, 0, 0, 4000, 0);
    assert_eq!(r, Err(AmmError::InvalidAmount));
    let r = deposit_liquidity(&pool, POOL_KEY, USER, 0, 0, 0, 1000, 0, 0);
    assert_eq!(r, Err(AmmError::InvalidAmount));
}

#[test]
fn deposit_rejects_paused_pool() {
    let mut pool = fresh_pool();
    pool.paused = true;
    let r = deposit_liquidity(&pool, POOL_KEY, USER, 1000, 4000, 2000, 10, 40, 0);
    assert_eq!(r, Err(AmmError::PoolPaused));
}

#[test]
fn deposit_rejects_zero_reserve_with_supply() {
    let pool = fresh_pool();
    let r = deposit_liquidity(&pool, POOL_KEY, USER, 0, 4000, 2000, 10, 40, 0);
    assert_eq!(r, Err(AmmError::InsufficientLiquidity));
    let r = deposit_liquidity(&pool, POOL_KEY, USER, 1000, 0, 2000, 10, 40, 0);
    assert_eq!(r, Err(AmmError::InsufficientLiquidity));
}

#[test]
fn deposit_a_limited_consumes_ideal_counterpart() {
    let pool = fresh_pool();
    // ideal_b = 500 * 4000 / 1000 = 2000 <= 2500, so the excess b stays out
    let ev = deposit_liquidity(&pool, POOL_KEY, USER, 1000, 4000, 2000, 500, 2500, 0).unwrap();
    assert_eq!(ev.amount_a_in, 500);
    assert_eq!(ev.amount_b_in, 2000);
    assert_eq!(ev.lp_minted, 1000);
}

#[test]
fn deposit_b_limited_consumes_ideal_counterpart() {
    let pool = fresh_pool();
    // ideal_b = 2000 > 1000, so b limits: ideal_a = 1000 * 1000 / 4000 = 250
    let ev = deposit_liquidity(&pool, POOL_KEY, USER, 1000, 4000, 2000, 500, 1000, 0).unwrap();
    assert_eq!(ev.amount_a_in, 250);
    assert_eq!(ev.amount_b_in, 1000);
    assert_eq!(ev.lp_minted, 500);
}

#[test]
fn deposit_rounds_shares_down() {
    let pool = fresh_pool();
    // ideal_b = 7 * 4000 / 1000 = 28; minted = 7 * 900 / 1000 = 6 (floored)
    let ev = deposit_liquidity(&pool, POOL_KEY, USER, 1000, 4000, 900, 7, 100, 0).unwrap();
    assert_eq!(ev.amount_a_in, 7);
    assert_eq!(ev.amount_b_in, 28);
    assert_eq!(ev.lp_minted, 6);
}

#[test]
fn deposit_share_overflow() {
    let pool = fresh_pool();
    // minting 2 * u64::MAX / 1 shares cannot be represented
    let r = deposit_liquidity(&pool, POOL_KEY, USER, 1, 1, u64::MAX, 2, u64::MAX, 0);
    assert_eq!(r, Err(AmmError::MathOverflow));
}

#[test]
fn deposit_slippage_on_subsequent_deposit() {
    let pool = fresh_pool();
    let r = deposit_liquidity(&pool, POOL_KEY, USER, 1000, 4000, 2000, 500, 2500, 1001);
    assert_eq!(r, Err(AmmError::SlippageExceeded));
}

#[test]
fn withdraw_pays_proportional_share() {
    let ev = withdraw_liquidity(POOL_KEY, USER, 2000, 8000, 4000, 1000, 0, 0).unwrap();
    assert_eq!(ev.lp_burned, 1000);
    assert_eq!(ev.amount_a_out, 500);
    assert_eq!(ev.amount_b_out, 2000);
}

#[test]
fn withdraw_rejects_zero_shares() {
    let r = withdraw_liquidity(POOL_KEY, USER, 2000, 8000, 4000, 0, 0, 0);
    assert_eq!(r, Err(AmmError::InvalidAmount));
}

#[test]
fn withdraw_rejects_zero_supply() {
    let r = withdraw_liquidity(POOL_KEY, USER, 2000, 8000, 0, 10, 0, 0);
    assert_eq!(r, Err(AmmError::InsufficientLiquidity));
}

#[test]
fn withdraw_slippage() {
    let r = withdraw_liquidity(POOL_KEY, USER, 2000, 8000, 4000, 1000, 501, 0);
    assert_eq!(r, Err(AmmError::SlippageExceeded));
    let r = withdraw_liquidity(POOL_KEY, USER, 2000, 8000, 4000, 1000, 0, 2001);
    assert_eq!(r, Err(AmmError::SlippageExceeded));
}

#[test]
fn withdraw_overflow() {
    let r = withdraw_liquidity(POOL_KEY, USER, u64::MAX, 1, 1, 2, 0, 0);
    assert_eq!(r, Err(AmmError::MathOverflow));
}

#[test]
fn withdraw_near_u64_max() {
    let ev = withdraw_liquidity(POOL_KEY, USER, u64::MAX, u64::MAX, u64::MAX, u64::MAX, 0, 0)
        .unwrap();
    assert_eq!(ev.amount_a_out, u64::MAX);
    assert_eq!(ev.amount_b_out, u64::MAX);
}

#[test]
fn round_trip_returns_exactly_first_deposit() {
    let pool = fresh_pool();
    let dep = deposit_liquidity(&pool, POOL_KEY, USER, 0, 0, 0, 1000, 4000, 0).unwrap();
    let wd = withdraw_liquidity(
        POOL_KEY,
        USER,
        dep.amount_a_in,
        dep.amount_b_in,
        dep.lp_minted,
        dep.lp_minted,
        0,
        0,
    )
    .unwrap();
    assert_eq!(wd.amount_a_out, 1000);
    assert_eq!(wd.amount_b_out, 4000);
}

#[test]
fn round_trip_never_gains() {
    let pool = fresh_pool();
    let (reserve_a, reserve_b, supply) = (1000u64, 4000u64, 900u64);
    let dep = deposit_liquidity(&pool, POOL_KEY, USER, reserve_a, reserve_b, supply, 7, 100, 0)
        .unwrap();
    let wd = withdraw_liquidity(
        POOL_KEY,
        USER,
        reserve_a + dep.amount_a_in,
        reserve_b + dep.amount_b_in,
        supply + dep.lp_minted,
        dep.lp_minted,
        0,
        0,
    )
    .unwrap();
    // rounding loses value to the pool, never creates it
    assert!(wd.amount_a_out <= dep.amount_a_in);
    assert!(wd.amount_b_out <= dep.amount_b_in);
    assert_eq!(wd.amount_a_out, 6);
    assert_eq!(wd.amount_b_out, 26);
}
