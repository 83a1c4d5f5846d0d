use vstd::prelude::*;

verus! {

use vstd::arithmetic::div_mod::lemma_div_pos_is_pos;
use vstd::arithmetic::div_mod::lemma_div_multiples_vanish;
use vstd::arithmetic::div_mod::lemma_multiply_divide_le;
use vstd::arithmetic::div_mod::lemma_multiply_divide_lt;
use vstd::arithmetic::div_mod::lemma_remainder_lower;
use vstd::arithmetic::div_mod::lemma_remainder_upper;
use vstd::arithmetic::mul::lemma_mul_inequality;
use crate::errors::AmmError;
use crate::math;
use crate::pool::AccountId;
use crate::pool::Pool;

/// The counterpart amount implied by `amount` at the current reserve ratio:
/// `floor(amount * reserve_other / reserve_same)`.
pub open spec fn ideal_counterpart(amount: int, reserve_other: int, reserve_same: int) -> int {
    amount * reserve_other / reserve_same
}

/// Shares minted for a deposit of `amount` against the reserve of the same
/// asset: `floor(amount * lp_supply / reserve)`.
pub open spec fn shares_for_deposit(amount: int, lp_supply: int, reserve: int) -> int {
    amount * lp_supply / reserve
}

/// Tokens paid out of one reserve for burning `lp_amount` shares:
/// `floor(lp_amount * reserve / lp_supply)`.
pub open spec fn amount_for_shares(lp_amount: int, reserve: int, lp_supply: int) -> int {
    lp_amount * reserve / lp_supply
}

/// Audit record of a deposit: the amounts actually consumed and the shares
/// minted.
#[derive(Clone, Copy, Debug, PartialEq, Eq, Structural)]
pub struct DepositEvent {
    pub user: AccountId,
    pub pool: AccountId,
    pub amount_a_in: u64,
    pub amount_b_in: u64,
    pub lp_minted: u64,
}

/// Audit record of a withdrawal: the shares burned and the amounts paid out.
#[derive(Clone, Copy, Debug, PartialEq, Eq, Structural)]
pub struct WithdrawEvent {
    pub user: AccountId,
    pub pool: AccountId,
    pub lp_burned: u64,
    pub amount_a_out: u64,
    pub amount_b_out: u64,
}

/// Decides a liquidity deposit: how much of each desired maximum is consumed
/// and how many shares are minted.
///
/// On the first deposit (zero share supply) both full amounts are consumed
/// and `floor(sqrt(amount_a * amount_b))` shares are minted. Afterwards the
/// deposit is made proportional to the current reserves: the limiting side is
/// consumed in full and the other side only up to its ideal counterpart, with
/// shares minted from the limiting side. The caller's slippage floor
/// `min_lp_out` is enforced on the minted shares.
pub fn deposit_liquidity(
    pool: &Pool,
    pool_key: AccountId,
    user: AccountId,
    reserve_a: u64,
    reserve_b: u64,
    lp_supply: u64,
    amount_a: u64,
    amount_b: u64,
    min_lp_out: u64,
) -> (r: Result<DepositEvent, AmmError>)
    ensures
        pool.paused ==> (r matches Err(e) && e == AmmError::PoolPaused),
        match r {
            Ok(ev) => {
                &&& !pool.paused
                &&& 0 < amount_a && 0 < amount_b
                &&& ev.user == user
                &&& ev.pool == pool_key
                &&& min_lp_out <= ev.lp_minted
                &&& if lp_supply == 0 {
                    &&& ev.amount_a_in == amount_a
                    &&& ev.amount_b_in == amount_b
                    &&& ev.lp_minted == math::sqrt_floor((amount_a * amount_b) as nat)
                } else {
                    &&& 0 < reserve_a && 0 < reserve_b
                    &&& if ideal_counterpart(amount_a as int, reserve_b as int, reserve_a as int)
                        <= amount_b {
                        &&& ev.amount_a_in == amount_a
                        &&& ev.amount_b_in == ideal_counterpart(
                            amount_a as int,
                            reserve_b as int,
                            reserve_a as int,
                        )
                        &&& ev.lp_minted == shares_for_deposit(
                            amount_a as int,
                            lp_supply as int,
                            reserve_a as int,
                        )
                    } else {
                        &&& ev.amount_a_in == ideal_counterpart(
                            amount_b as int,
                            reserve_a as int,
                            reserve_b as int,
                        )
                        &&& ev.amount_b_in == amount_b
                        &&& ev.lp_minted == shares_for_deposit(
                            amount_b as int,
                            lp_supply as int,
                            reserve_b as int,
                        )
                    }
                }
            },
            Err(e) => {
                if pool.paused {
                    e == AmmError::PoolPaused
                } else if amount_a == 0 || amount_b == 0 {
                    e == AmmError::InvalidAmount
                } else if lp_supply == 0 {
                    e == AmmError::SlippageExceeded && math::sqrt_floor(
                        (amount_a * amount_b) as nat,
                    ) < min_lp_out
                } else if reserve_a == 0 || reserve_b == 0 {
                    e == AmmError::InsufficientLiquidity
                } else {
                    let minted = if ideal_counterpart(
                        amount_a as int,
                        reserve_b as int,
                        reserve_a as int,
                    ) <= amount_b {
                        shares_for_deposit(amount_a as int, lp_supply as int, reserve_a as int)
                    } else {
                        shares_for_deposit(amount_b as int, lp_supply as int, reserve_b as int)
                    };
                    if u64::MAX < minted {
                        e == AmmError::MathOverflow
                    } else {
                        e == AmmError::SlippageExceeded && minted < min_lp_out
                    }
                }
            },
        },
{
    if pool.paused {
        return Err(AmmError::PoolPaused);
    }
    if amount_a == 0 || amount_b == 0 {
        return Err(AmmError::InvalidAmount);
    }
    let used_a: u64;
    let used_b: u64;
    let lp_to_mint: u64;
    if lp_supply == 0 {
        proof {
            assert(amount_a * amount_b <= u128::MAX) by (nonlinear_arith)
                requires
                    amount_a <= u64::MAX,
                    amount_b <= u64::MAX,
            ;
        }
        let product: u128 = (amount_a as u128) * (amount_b as u128);
        lp_to_mint = math::integer_sqrt(product);
        used_a = amount_a;
        used_b = amount_b;
    } else {
        if reserve_a == 0 || reserve_b == 0 {
            return Err(AmmError::InsufficientLiquidity);
        }
        proof {
            assert(amount_a * reserve_b <= u128::MAX) by (nonlinear_arith)
                requires
                    amount_a <= u64::MAX,
                    reserve_b <= u64::MAX,
            ;
        }
        let ideal_b_wide: u128 = ((amount_a as u128) * (reserve_b as u128)) / (reserve_a as u128);
        if ideal_b_wide <= amount_b as u128 {
            // the deposit is A-limited: all of `amount_a` is consumed
            match math::mul_div_u64(amount_a, lp_supply, reserve_a) {
                Ok(lp) => {
                    lp_to_mint = lp;
                },
                Err(e) => {
                    return Err(e);
                },
            }
            used_a = amount_a;
            used_b = ideal_b_wide as u64;
        } else {
            // the deposit is B-limited: all of `amount_b` is consumed, and
            // its counterpart never exceeds `amount_a`
            proof {
                assert(amount_b * reserve_a <= u128::MAX) by (nonlinear_arith)
                    requires
                        amount_b <= u64::MAX,
                        reserve_a <= u64::MAX,
                ;
                lemma_remainder_lower(amount_a * reserve_b, reserve_a as int);
                lemma_mul_inequality(
                    amount_b + 1,
                    amount_a * reserve_b / (reserve_a as int),
                    reserve_a as int,
                );
                assert((amount_b + 1) * reserve_a <= amount_a * reserve_b);
                assert(amount_b * reserve_a <= reserve_b * amount_a) by (nonlinear_arith)
                    requires
                        (amount_b + 1) * reserve_a <= amount_a * reserve_b,
                        0 <= reserve_a,
                ;
                lemma_multiply_divide_le(amount_b * reserve_a, reserve_b as int, amount_a as int);
            }
            let ideal_a_wide: u128 = ((amount_b as u128) * (reserve_a as u128)) / (
            reserve_b as u128);
            match math::mul_div_u64(amount_b, lp_supply, reserve_b) {
                Ok(lp) => {
                    lp_to_mint = lp;
                },
                Err(e) => {
                    return Err(e);
                },
            }
            used_a = ideal_a_wide as u64;
            used_b = amount_b;
        }
    }
    if lp_to_mint < min_lp_out {
        return Err(AmmError::SlippageExceeded);
    }
    Ok(
        DepositEvent {
            user,
            pool: pool_key,
            amount_a_in: used_a,
            amount_b_in: used_b,
            lp_minted: lp_to_mint,
        },
    )
}

/// Decides a liquidity withdrawal: burning `lp_amount` shares pays out the
/// proportional slice of each reserve, floored toward the pool. Each payout
/// must meet its slippage floor. Withdrawal is deliberately not gated by the
/// pause flag, so providers can exit a paused pool.
pub fn withdraw_liquidity(
    pool_key: AccountId,
    user: AccountId,
    reserve_a: u64,
    reserve_b: u64,
    lp_supply: u64,
    lp_amount: u64,
    min_amount_a: u64,
    min_amount_b: u64,
) -> (r: Result<WithdrawEvent, AmmError>)
    ensures
        match r {
            Ok(ev) => {
                &&& 0 < lp_amount && 0 < lp_supply
                &&& ev.user == user
                &&& ev.pool == pool_key
                &&& ev.lp_burned == lp_amount
                &&& ev.amount_a_out == amount_for_shares(
                    lp_amount as int,
                    reserve_a as int,
                    lp_supply as int,
                )
                &&& ev.amount_b_out == amount_for_shares(
                    lp_amount as int,
                    reserve_b as int,
                    lp_supply as int,
                )
                &&& min_amount_a <= ev.amount_a_out
                &&& min_amount_b <= ev.amount_b_out
            },
            Err(e) => {
                if lp_amount == 0 {
                    e == AmmError::InvalidAmount
                } else if lp_supply == 0 {
                    e == AmmError::InsufficientLiquidity
                } else {
                    let out_a = amount_for_shares(lp_amount as int, reserve_a as int, lp_supply as int);
                    let out_b = amount_for_shares(lp_amount as int, reserve_b as int, lp_supply as int);
                    if u64::MAX < out_a || u64::MAX < out_b {
                        e == AmmError::MathOverflow
                    } else {
                        e == AmmError::SlippageExceeded && (out_a < min_amount_a || out_b
                            < min_amount_b)
                    }
                }
            },
        },
{
    if lp_amount == 0 {
        return Err(AmmError::InvalidAmount);
    }
    if lp_supply == 0 {
        return Err(AmmError::InsufficientLiquidity);
    }
    let amount_a: u64;
    let amount_b: u64;
    match math::mul_div_u64(lp_amount, reserve_a, lp_supply) {
        Ok(v) => {
            amount_a = v;
        },
        Err(e) => {
            return Err(e);
        },
    }
    match math::mul_div_u64(lp_amount, reserve_b, lp_supply) {
        Ok(v) => {
            amount_b = v;
        },
        Err(e) => {
            return Err(e);
        },
    }
    if amount_a < min_amount_a {
        return Err(AmmError::SlippageExceeded);
    }
    if amount_b < min_amount_b {
        return Err(AmmError::SlippageExceeded);
    }
    Ok(
        WithdrawEvent {
            user,
            pool: pool_key,
            lp_burned: lp_amount,
            amount_a_out: amount_a,
            amount_b_out: amount_b,
        },
    )
}

/// Round-trip bound for the first deposit: the shares minted for an empty
/// pool buy back exactly the amounts deposited, never more.
pub proof fn lemma_first_deposit_round_trip(amount_a: u64, amount_b: u64)
    requires
        0 < amount_a,
        0 < amount_b,
    ensures
        ({
            let minted = math::sqrt_floor((amount_a * amount_b) as nat);
            &&& 0 < minted
            &&& amount_for_shares(minted as int, amount_a as int, minted as int) == amount_a
            &&& amount_for_shares(minted as int, amount_b as int, minted as int) == amount_b
        }),
{
    let minted = math::sqrt_floor((amount_a * amount_b) as nat);
    math::lemma_sqrt_floor_bounds((amount_a * amount_b) as nat);
    assert(1 <= amount_a * amount_b) by (nonlinear_arith)
        requires
            1 <= amount_a,
            1 <= amount_b,
    ;
    if minted == 0 {
        assert(((amount_a * amount_b) as nat) < (minted + 1) * (minted + 1));
        assert(false) by (nonlinear_arith)
            requires
                ((amount_a * amount_b) as nat) < (minted + 1) * (minted + 1),
                minted == 0,
                1 <= amount_a * amount_b,
        ;
    }
    lemma_div_multiples_vanish(amount_a as int, minted as int);
    lemma_div_multiples_vanish(amount_b as int, minted as int);
}

/// Round-trip bound for a deposit into a non-empty pool: depositing and then
/// immediately withdrawing the shares just minted never returns more of
/// either asset than the deposit consumed; rounding only ever favors the
/// pool.
///
/// This states the A-limited branch, where all of `amount_a` and the ideal
/// counterpart of it are consumed; the B-limited branch is the same statement
/// with the two assets exchanged.
pub proof fn lemma_deposit_withdraw_round_trip(
    reserve_a: int,
    reserve_b: int,
    lp_supply: int,
    amount_a: int,
)
    requires
        0 < reserve_a,
        0 < reserve_b,
        0 < lp_supply,
        0 <= amount_a,
    ensures
        ({
            let used_b = ideal_counterpart(amount_a, reserve_b, reserve_a);
            let minted = shares_for_deposit(amount_a, lp_supply, reserve_a);
            &&& amount_for_shares(minted, reserve_a + amount_a, lp_supply + minted) <= amount_a
            &&& amount_for_shares(minted, reserve_b + used_b, lp_supply + minted) <= used_b
        }),
{
    let used_b = ideal_counterpart(amount_a, reserve_b, reserve_a);
    let minted = shares_for_deposit(amount_a, lp_supply, reserve_a);
    lemma_div_pos_is_pos(amount_a * reserve_b, reserve_a);
    lemma_div_pos_is_pos(amount_a * lp_supply, reserve_a);
    // the minted shares value the a-leg at no more than what was paid in:
    // minted * reserve_a <= amount_a * lp_supply
    lemma_remainder_lower(amount_a * lp_supply, reserve_a);
    assert(minted * (reserve_a + amount_a) <= (lp_supply + minted) * amount_a) by (nonlinear_arith)
        requires
            minted * reserve_a <= amount_a * lp_supply,
            0 <= minted,
            0 <= amount_a,
    ;
    lemma_multiply_divide_le(minted * (reserve_a + amount_a), lp_supply + minted, amount_a);
    // the b-leg: amount_a * reserve_b sits under (used_b + 1) * reserve_a
    lemma_remainder_upper(amount_a * reserve_b, reserve_a);
    assert(minted * reserve_b < (used_b + 1) * lp_supply) by (nonlinear_arith)
        requires
            minted * reserve_a <= amount_a * lp_supply,
            amount_a * reserve_b - reserve_a < used_b * reserve_a,
            0 < reserve_a,
            0 < reserve_b,
            0 < lp_supply,
            0 <= minted,
            0 <= used_b,
            0 <= amount_a,
    ;
    assert(minted * (reserve_b + used_b) < (lp_supply + minted) * (used_b + 1)) by (nonlinear_arith)
        requires
            minted * reserve_b < (used_b + 1) * lp_supply,
            0 <= minted,
            0 <= used_b,
    ;
    lemma_multiply_divide_lt(minted * (reserve_b + used_b), lp_supply + minted, used_b + 1);
}

} // verus!
