use vstd::prelude::*;

verus! {

use vstd::arithmetic::div_mod::lemma_div_is_ordered;
use vstd::arithmetic::div_mod::lemma_div_is_ordered_by_denominator;
use vstd::arithmetic::div_mod::lemma_div_multiples_vanish;
use vstd::arithmetic::div_mod::lemma_div_pos_is_pos;
use vstd::arithmetic::div_mod::lemma_fundamental_div_mod;
use vstd::arithmetic::div_mod::lemma_mod_division_less_than_divisor;
use vstd::arithmetic::div_mod::lemma_multiply_divide_le;
use vstd::arithmetic::div_mod::lemma_multiply_divide_lt;
use crate::errors::AmmError;
use crate::math;
use crate::pool::AccountId;
use crate::pool::Pool;
use crate::pool::BPS_DENOMINATOR;

/// The two ordered trade directions over the pool's asset pair.
#[derive(Clone, Copy, Debug, PartialEq, Eq, Structural)]
pub enum SwapDirection {
    AtoB,
    BtoA,
}

/// Audit record of a swap: the gross input, the output paid, and the part of
/// the input routed to the protocol fee vault. The amount entering the input
/// reserve is `amount_in - protocol_fee`.
#[derive(Clone, Copy, Debug, PartialEq, Eq, Structural)]
pub struct SwapEvent {
    pub user: AccountId,
    pub pool: AccountId,
    pub amount_in: u64,
    pub amount_out: u64,
    pub direction: SwapDirection,
    pub protocol_fee: u64,
}

/// The reserve the trade pays into, by direction.
pub open spec fn reserve_in_of(direction: SwapDirection, reserve_a: u64, reserve_b: u64) -> u64 {
    match direction {
        SwapDirection::AtoB => reserve_a,
        SwapDirection::BtoA => reserve_b,
    }
}

/// The reserve the trade is paid from, by direction.
pub open spec fn reserve_out_of(direction: SwapDirection, reserve_a: u64, reserve_b: u64) -> u64 {
    match direction {
        SwapDirection::AtoB => reserve_b,
        SwapDirection::BtoA => reserve_a,
    }
}

/// Whether the caller's asserted source and destination assets agree with the
/// requested direction.
pub open spec fn mints_match(
    pool: Pool,
    direction: SwapDirection,
    source_mint: AccountId,
    destination_mint: AccountId,
) -> bool {
    match direction {
        SwapDirection::AtoB => source_mint == pool.mint_a && destination_mint == pool.mint_b,
        SwapDirection::BtoA => source_mint == pool.mint_b && destination_mint == pool.mint_a,
    }
}

/// The protocol's cut of a gross input: `floor(amount_in * bps / 10000)`.
pub open spec fn protocol_fee_of(amount_in: int, protocol_fee_bps: int) -> int {
    amount_in * protocol_fee_bps / (BPS_DENOMINATOR as int)
}

/// The input after the curve-embedded fee discount:
/// `floor(amount_in * (10000 - fee_bps) / 10000)`.
pub open spec fn discounted_in(amount_in: int, fee_bps: int) -> int {
    amount_in * (BPS_DENOMINATOR - fee_bps) / (BPS_DENOMINATOR as int)
}

/// The constant-product quote on the discounted input:
/// `floor(discounted * reserve_out / (reserve_in + discounted))`.
pub open spec fn swap_quote(amount_in: int, reserve_in: int, reserve_out: int, fee_bps: int) -> int {
    discounted_in(amount_in, fee_bps) * reserve_out / (reserve_in + discounted_in(
        amount_in,
        fee_bps,
    ))
}

/// Quotes the output of a constant-product trade after discounting the input
/// by `fee_bps`. The quote never reaches `reserve_out`, and falls strictly
/// below it whenever the input reserve is positive; the one failure is a zero
/// denominator, when both the input reserve and the discounted input are zero.
pub fn quote_swap_out(amount_in: u64, reserve_in: u64, reserve_out: u64, fee_bps: u16) -> (r:
    Result<u64, AmmError>)
    requires
        fee_bps <= BPS_DENOMINATOR,
    ensures
        match r {
            Ok(v) => {
                &&& v == swap_quote(
                    amount_in as int,
                    reserve_in as int,
                    reserve_out as int,
                    fee_bps as int,
                )
                &&& v <= reserve_out
                &&& (0 < reserve_in && 0 < reserve_out) ==> v < reserve_out
            },
            Err(e) => {
                &&& e == AmmError::MathOverflow
                &&& reserve_in == 0
                &&& discounted_in(amount_in as int, fee_bps as int) == 0
            },
        },
{
    let keep_bps: u64 = BPS_DENOMINATOR - (fee_bps as u64);
    proof {
        assert(amount_in * keep_bps <= u128::MAX) by (nonlinear_arith)
            requires
                amount_in <= u64::MAX,
                keep_bps <= u64::MAX,
        ;
        assert(amount_in * keep_bps == amount_in * (BPS_DENOMINATOR - fee_bps)) by (nonlinear_arith)
            requires
                keep_bps == BPS_DENOMINATOR - fee_bps,
        ;
        assert(0 <= amount_in * keep_bps) by (nonlinear_arith)
            requires
                0 <= amount_in,
                0 <= keep_bps,
        ;
        lemma_div_pos_is_pos(amount_in * keep_bps, BPS_DENOMINATOR as int);
    }
    let amount_in_with_fee: u128 = ((amount_in as u128) * (keep_bps as u128)) / (
    BPS_DENOMINATOR as u128);
    let ghost disc: int = discounted_in(amount_in as int, fee_bps as int);
    proof {
        assert(amount_in_with_fee == disc);
        // the discounted input never exceeds the gross input
        assert(amount_in * keep_bps <= BPS_DENOMINATOR * amount_in) by (nonlinear_arith)
            requires
                keep_bps <= BPS_DENOMINATOR,
                0 <= amount_in,
        ;
        lemma_div_is_ordered(
            amount_in * keep_bps,
            BPS_DENOMINATOR * amount_in,
            BPS_DENOMINATOR as int,
        );
        lemma_div_multiples_vanish(amount_in as int, BPS_DENOMINATOR as int);
    }
    let denominator: u128 = (reserve_in as u128) + amount_in_with_fee;
    if denominator == 0 {
        return Err(AmmError::MathOverflow);
    }
    proof {
        assert(amount_in_with_fee * (reserve_out as u128) <= u128::MAX) by (nonlinear_arith)
            requires
                amount_in_with_fee <= u64::MAX,
                reserve_out <= u64::MAX,
        ;
    }
    let numerator: u128 = amount_in_with_fee * (reserve_out as u128);
    let out_wide: u128 = numerator / denominator;
    proof {
        assert(disc * reserve_out <= denominator * reserve_out) by (nonlinear_arith)
            requires
                0 <= disc,
                0 <= reserve_out,
                disc <= denominator,
        ;
        lemma_multiply_divide_le(disc * reserve_out, denominator as int, reserve_out as int);
        if 0 < reserve_in && 0 < reserve_out {
            assert(disc * reserve_out < denominator * reserve_out) by (nonlinear_arith)
                requires
                    0 <= disc,
                    1 <= reserve_out,
                    1 <= reserve_in,
                    denominator == reserve_in + disc,
            ;
            lemma_multiply_divide_lt(disc * reserve_out, denominator as int, reserve_out as int);
        }
    }
    Ok(out_wide as u64)
}

/// Decides a swap: the protocol fee skimmed from the gross input, the net
/// amount entering the input reserve, and the output paid from the output
/// reserve at the constant-product price discounted by the residual
/// liquidity-provider fee. The output always stays strictly below the output
/// reserve, so a swap can never drain the pool.
pub fn swap(
    pool: &Pool,
    pool_key: AccountId,
    user: AccountId,
    reserve_a: u64,
    reserve_b: u64,
    amount_in: u64,
    min_amount_out: u64,
    direction: SwapDirection,
    source_mint: AccountId,
    destination_mint: AccountId,
) -> (r: Result<SwapEvent, AmmError>)
    requires
        pool.fee_bps <= BPS_DENOMINATOR,
    ensures
        pool.paused ==> (r matches Err(e) && e == AmmError::PoolPaused),
        match r {
            Ok(ev) => {
                let ri = reserve_in_of(direction, reserve_a, reserve_b);
                let ro = reserve_out_of(direction, reserve_a, reserve_b);
                let pf = protocol_fee_of(amount_in as int, pool.protocol_fee_bps as int);
                let lp_fee = pool.fee_bps - pool.protocol_fee_bps;
                &&& !pool.paused
                &&& 0 < amount_in
                &&& 0 < ri && 0 < ro
                &&& pool.protocol_fee_bps <= pool.fee_bps
                &&& mints_match(*pool, direction, source_mint, destination_mint)
                &&& ev.user == user
                &&& ev.pool == pool_key
                &&& ev.amount_in == amount_in
                &&& ev.direction == direction
                &&& ev.protocol_fee == pf
                &&& ev.amount_out == swap_quote(amount_in - pf, ri as int, ro as int, lp_fee)
                &&& min_amount_out <= ev.amount_out
                &&& ev.amount_out < ro
            },
            Err(e) => {
                let ri = reserve_in_of(direction, reserve_a, reserve_b);
                let ro = reserve_out_of(direction, reserve_a, reserve_b);
                let pf = protocol_fee_of(amount_in as int, pool.protocol_fee_bps as int);
                let lp_fee = pool.fee_bps - pool.protocol_fee_bps;
                if pool.paused {
                    e == AmmError::PoolPaused
                } else if amount_in == 0 {
                    e == AmmError::InvalidAmount
                } else if ri == 0 || ro == 0 {
                    e == AmmError::InsufficientLiquidity
                } else if pool.fee_bps < pool.protocol_fee_bps {
                    e == AmmError::InvalidFee
                } else if swap_quote(amount_in - pf, ri as int, ro as int, lp_fee)
                    < min_amount_out {
                    e == AmmError::SlippageExceeded
                } else {
                    e == AmmError::InvalidSwapMint && !mints_match(
                        *pool,
                        direction,
                        source_mint,
                        destination_mint,
                    )
                }
            },
        },
{
    if pool.paused {
        return Err(AmmError::PoolPaused);
    }
    if amount_in == 0 {
        return Err(AmmError::InvalidAmount);
    }
    let reserve_in: u64;
    let reserve_out: u64;
    match direction {
        SwapDirection::AtoB => {
            reserve_in = reserve_a;
            reserve_out = reserve_b;
        },
        SwapDirection::BtoA => {
            reserve_in = reserve_b;
            reserve_out = reserve_a;
        },
    }
    if reserve_in == 0 || reserve_out == 0 {
        return Err(AmmError::InsufficientLiquidity);
    }
    if pool.fee_bps < pool.protocol_fee_bps {
        return Err(AmmError::InvalidFee);
    }
    proof {
        // the protocol fee never exceeds the gross input
        assert(amount_in * (pool.protocol_fee_bps as u64) <= BPS_DENOMINATOR * amount_in)
            by (nonlinear_arith)
            requires
                pool.protocol_fee_bps <= BPS_DENOMINATOR,
                0 <= amount_in,
        ;
        lemma_div_is_ordered(
            amount_in * (pool.protocol_fee_bps as u64),
            BPS_DENOMINATOR * amount_in,
            BPS_DENOMINATOR as int,
        );
        lemma_div_multiples_vanish(amount_in as int, BPS_DENOMINATOR as int);
    }
    let protocol_fee: u64;
    match math::mul_div_u64(amount_in, pool.protocol_fee_bps as u64, BPS_DENOMINATOR) {
        Ok(v) => {
            protocol_fee = v;
        },
        Err(e) => {
            return Err(e);
        },
    }
    let amount_in_to_pool: u64 = amount_in - protocol_fee;
    let lp_fee_bps: u16 = pool.fee_bps - pool.protocol_fee_bps;
    let amount_out: u64;
    match quote_swap_out(amount_in_to_pool, reserve_in, reserve_out, lp_fee_bps) {
        Ok(v) => {
            amount_out = v;
        },
        Err(e) => {
            return Err(e);
        },
    }
    if amount_out < min_amount_out {
        return Err(AmmError::SlippageExceeded);
    }
    if amount_out >= reserve_out {
        return Err(AmmError::InsufficientLiquidity);
    }
    match direction {
        SwapDirection::AtoB => {
            if !(source_mint == pool.mint_a && destination_mint == pool.mint_b) {
                return Err(AmmError::InvalidSwapMint);
            }
        },
        SwapDirection::BtoA => {
            if !(source_mint == pool.mint_b && destination_mint == pool.mint_a) {
                return Err(AmmError::InvalidSwapMint);
            }
        },
    }
    Ok(SwapEvent { user, pool: pool_key, amount_in, amount_out, direction, protocol_fee })
}

/// Quotients with possibly different denominators are ordered whenever they
/// are ordered after cross-multiplication.
proof fn lemma_div_cross_ordered(a: int, b: int, c: int, d: int)
    requires
        0 <= a,
        0 < b,
        0 < d,
        a * d <= c * b,
    ensures
        a / b <= c / d,
{
    lemma_fundamental_div_mod(c, d);
    lemma_mod_division_less_than_divisor(c, d);
    assert(a < b * (c / d + 1)) by (nonlinear_arith)
        requires
            a * d <= c * b,
            c == d * (c / d) + c % d,
            c % d < d,
            0 < b,
            0 < d,
            0 <= a,
    ;
    lemma_multiply_divide_lt(a, b, c / d + 1);
}

/// Pricing is monotone in the input: with fixed reserves and fee, a larger
/// gross input never buys less. Floor rounding keeps this from being strict:
/// two nearby inputs can quote the same output.
pub proof fn lemma_quote_monotone_in_amount_in(
    amount_in_1: int,
    amount_in_2: int,
    reserve_in: int,
    reserve_out: int,
    fee_bps: int,
)
    requires
        0 <= amount_in_1 <= amount_in_2,
        0 < reserve_in,
        0 <= reserve_out,
        0 <= fee_bps <= BPS_DENOMINATOR,
    ensures
        swap_quote(amount_in_1, reserve_in, reserve_out, fee_bps) <= swap_quote(
            amount_in_2,
            reserve_in,
            reserve_out,
            fee_bps,
        ),
{
    let k = BPS_DENOMINATOR - fee_bps;
    let f1 = discounted_in(amount_in_1, fee_bps);
    let f2 = discounted_in(amount_in_2, fee_bps);
    assert(0 <= amount_in_1 * k) by (nonlinear_arith)
        requires
            0 <= amount_in_1,
            0 <= k,
    ;
    lemma_div_pos_is_pos(amount_in_1 * k, BPS_DENOMINATOR as int);
    assert(amount_in_1 * k <= amount_in_2 * k) by (nonlinear_arith)
        requires
            amount_in_1 <= amount_in_2,
            0 <= k,
    ;
    lemma_div_is_ordered(amount_in_1 * k, amount_in_2 * k, BPS_DENOMINATOR as int);
    assert(0 <= f1 * reserve_out) by (nonlinear_arith)
        requires
            0 <= f1,
            0 <= reserve_out,
    ;
    assert((f1 * reserve_out) * (reserve_in + f2) <= (f2 * reserve_out) * (reserve_in + f1))
        by (nonlinear_arith)
        requires
            f1 <= f2,
            0 <= f1,
            0 <= reserve_out,
            0 < reserve_in,
    ;
    lemma_div_cross_ordered(
        f1 * reserve_out,
        reserve_in + f1,
        f2 * reserve_out,
        reserve_in + f2,
    );
}

/// Pricing is monotone in the output reserve: with fixed input, input reserve
/// and fee, a deeper output reserve never pays less. Floor rounding keeps
/// this from being strict.
pub proof fn lemma_quote_monotone_in_reserve_out(
    amount_in: int,
    reserve_in: int,
    reserve_out_1: int,
    reserve_out_2: int,
    fee_bps: int,
)
    requires
        0 <= amount_in,
        0 < reserve_in,
        0 <= reserve_out_1 <= reserve_out_2,
        0 <= fee_bps <= BPS_DENOMINATOR,
    ensures
        swap_quote(amount_in, reserve_in, reserve_out_1, fee_bps) <= swap_quote(
            amount_in,
            reserve_in,
            reserve_out_2,
            fee_bps,
        ),
{
    let k = BPS_DENOMINATOR - fee_bps;
    let f = discounted_in(amount_in, fee_bps);
    assert(0 <= amount_in * k) by (nonlinear_arith)
        requires
            0 <= amount_in,
            0 <= k,
    ;
    lemma_div_pos_is_pos(amount_in * k, BPS_DENOMINATOR as int);
    assert(f * reserve_out_1 <= f * reserve_out_2) by (nonlinear_arith)
        requires
            0 <= f,
            reserve_out_1 <= reserve_out_2,
    ;
    lemma_div_is_ordered(f * reserve_out_1, f * reserve_out_2, reserve_in + f);
}

/// Pricing is antitone in the input reserve: with fixed input, output reserve
/// and fee, a deeper input reserve never pays more. Floor rounding keeps this
/// from being strict.
pub proof fn lemma_quote_antitone_in_reserve_in(
    amount_in: int,
    reserve_in_1: int,
    reserve_in_2: int,
    reserve_out: int,
    fee_bps: int,
)
    requires
        0 <= amount_in,
        0 < reserve_in_1 <= reserve_in_2,
        0 <= reserve_out,
        0 <= fee_bps <= BPS_DENOMINATOR,
    ensures
        swap_quote(amount_in, reserve_in_2, reserve_out, fee_bps) <= swap_quote(
            amount_in,
            reserve_in_1,
            reserve_out,
            fee_bps,
        ),
{
    let k = BPS_DENOMINATOR - fee_bps;
    let f = discounted_in(amount_in, fee_bps);
    assert(0 <= amount_in * k) by (nonlinear_arith)
        requires
            0 <= amount_in,
            0 <= k,
    ;
    lemma_div_pos_is_pos(amount_in * k, BPS_DENOMINATOR as int);
    assert(0 <= f * reserve_out) by (nonlinear_arith)
        requires
            0 <= f,
            0 <= reserve_out,
    ;
    lemma_div_is_ordered_by_denominator(f * reserve_out, reserve_in_1 + f, reserve_in_2 + f);
}

} // verus!
