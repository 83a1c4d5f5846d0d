use vstd::prelude::*;

verus! {

use vstd::arithmetic::div_mod::lemma_fundamental_div_mod;
use vstd::arithmetic::div_mod::lemma_div_is_ordered;
use vstd::arithmetic::div_mod::lemma_div_is_ordered_by_denominator;
use vstd::arithmetic::div_mod::lemma_mod_division_less_than_divisor;
use vstd::arithmetic::div_mod::lemma_remainder_upper;
use crate::errors::AmmError;

/// Floor of the square root: the largest `r` with `r * r <= v`.
pub open spec fn sqrt_floor(v: nat) -> nat
    decreases v,
{
    if v == 0 {
        0
    } else {
        let p = sqrt_floor((v - 1) as nat);
        if (p + 1) * (p + 1) <= v {
            (p + 1) as nat
        } else {
            p
        }
    }
}

/// `sqrt_floor(v)` brackets `v` between two consecutive squares.
pub proof fn lemma_sqrt_floor_bounds(v: nat)
    ensures
        sqrt_floor(v) * sqrt_floor(v) <= v,
        v < (sqrt_floor(v) + 1) * (sqrt_floor(v) + 1),
    decreases v,
{
    if v > 0 {
        let p = sqrt_floor((v - 1) as nat);
        lemma_sqrt_floor_bounds((v - 1) as nat);
        if (p + 1) * (p + 1) <= v {
            assert(sqrt_floor(v) == (p + 1) as nat);
            assert(sqrt_floor(v) * sqrt_floor(v) <= v) by (nonlinear_arith)
                requires
                    sqrt_floor(v) == (p + 1) as nat,
                    (p + 1) * (p + 1) <= v,
            ;
            assert(v < (sqrt_floor(v) + 1) * (sqrt_floor(v) + 1)) by (nonlinear_arith)
                requires
                    sqrt_floor(v) == (p + 1) as nat,
                    v - 1 < (p + 1) * (p + 1),
            ;
        } else {
            assert(sqrt_floor(v) == p);
            assert(sqrt_floor(v) * sqrt_floor(v) <= v) by (nonlinear_arith)
                requires
                    sqrt_floor(v) == p,
                    p * p <= v - 1,
            ;
            assert(v < (sqrt_floor(v) + 1) * (sqrt_floor(v) + 1)) by (nonlinear_arith)
                requires
                    sqrt_floor(v) == p,
                    !((p + 1) * (p + 1) <= v),
            ;
        }
    } else {
        assert(sqrt_floor(v) == 0);
        assert(sqrt_floor(v) * sqrt_floor(v) <= v) by (nonlinear_arith)
            requires
                sqrt_floor(v) == 0,
                v == 0,
        ;
        assert(v < (sqrt_floor(v) + 1) * (sqrt_floor(v) + 1)) by (nonlinear_arith)
            requires
                sqrt_floor(v) == 0,
                v == 0,
        ;
    }
}

/// Any `r` bracketed by the two consecutive squares around `v` is `sqrt_floor(v)`.
pub proof fn lemma_sqrt_floor_unique(v: nat, r: nat)
    requires
        r * r <= v,
        v < (r + 1) * (r + 1),
    ensures
        r == sqrt_floor(v),
{
    let s = sqrt_floor(v);
    lemma_sqrt_floor_bounds(v);
    if r < s {
        assert(false) by (nonlinear_arith)
            requires
                r + 1 <= s,
                s * s <= v,
                v < (r + 1) * (r + 1),
                0 <= r,
        ;
    } else if s < r {
        assert(false) by (nonlinear_arith)
            requires
                s + 1 <= r,
                r * r <= v,
                v < (s + 1) * (s + 1),
                0 <= s,
        ;
    }
}

/// One Newton step from any positive `x` lands at or above the floor square
/// root: `(x + v / x) / 2 >= sqrt_floor(v)`.
proof fn lemma_newton_step_above_sqrt(v: nat, x: nat)
    requires
        1 <= x,
    ensures
        (x + v / x) / 2 >= sqrt_floor(v),
{
    let s = sqrt_floor(v);
    lemma_sqrt_floor_bounds(v);
    let q = v / x;
    let y = (x + q) / 2;
    lemma_fundamental_div_mod((x + q) as int, 2);
    lemma_mod_division_less_than_divisor((x + q) as int, 2);
    if y < s {
        lemma_remainder_upper(v as int, x as int);
        // v < x * (q + 1) and, by the arithmetic-geometric mean bound,
        // x * (q + 1) <= s * s whenever x + (q + 1) <= 2 * s
        assert(v < s * s) by (nonlinear_arith)
            requires
                x + (q + 1) <= 2 * s,
                1 <= x,
                0 <= q,
                v - x < q * x,
        ;
        assert(false);
    }
}

/// Overflow-checked multiply-then-divide on 64-bit values: the product is
/// widened to 128 bits, so the only failures are a zero divisor and a quotient
/// that does not fit back into 64 bits; both surface as `MathOverflow`.
pub fn mul_div_u64(a: u64, b: u64, d: u64) -> (r: Result<u64, AmmError>)
    ensures
        match r {
            Ok(v) => d > 0 && v == a * b / (d as int),
            Err(e) => e == AmmError::MathOverflow && (d == 0 || a * b / (d as int) > u64::MAX),
        },
{
    if d == 0 {
        return Err(AmmError::MathOverflow);
    }
    proof {
        assert(a * b <= u128::MAX) by (nonlinear_arith)
            requires
                a <= u64::MAX,
                b <= u64::MAX,
        ;
    }
    let wide: u128 = (a as u128) * (b as u128);
    let q: u128 = wide / (d as u128);
    if q > u64::MAX as u128 {
        Err(AmmError::MathOverflow)
    } else {
        Ok(q as u64)
    }
}

/// Newton's-method integer square root, for share minting on the first
/// deposit: returns the floor of the true square root of `value`.
pub fn integer_sqrt(value: u128) -> (r: u64)
    ensures
        r == sqrt_floor(value as nat),
{
    if value == 0 {
        return 0;
    }
    if value < 4 {
        proof {
            assert((1 as nat) * (1 as nat) <= value as nat) by (nonlinear_arith)
                requires
                    1 <= value,
            ;
            assert((value as nat) < ((1 as nat) + 1) * ((1 as nat) + 1)) by (nonlinear_arith)
                requires
                    value < 4,
            ;
            lemma_sqrt_floor_unique(value as nat, 1 as nat);
        }
        return 1;
    }
    let ghost s: nat = sqrt_floor(value as nat);
    proof {
        lemma_sqrt_floor_bounds(value as nat);
        assert(2 <= s) by (nonlinear_arith)
            requires
                4 <= value,
                (value as nat) < (s + 1) * (s + 1),
                0 <= s,
        ;
        let h = value as int / 2;
        lemma_fundamental_div_mod(value as int, 2);
        lemma_mod_division_less_than_divisor(value as int, 2);
        lemma_div_is_ordered(4, value as int, 2);
        if h + 1 < s {
            assert(false) by (nonlinear_arith)
                requires
                    h + 2 <= s,
                    2 <= h,
                    s * s <= value,
                    value <= 2 * h + 1,
            ;
        }
    }
    let mut z: u128 = value;
    let mut x: u128 = value / 2 + 1;
    while x < z
        invariant
            4 <= value,
            2 <= s,
            s == sqrt_floor(value as nat),
            s * s <= value < (s + 1) * (s + 1),
            s <= x,
            s <= z <= value,
            x <= value / 2 + 1,
            x == (value / z + z) / 2 || (z == value && x == value / 2 + 1),
        decreases z,
    {
        let prev = x;
        proof {
            assert(value / prev + prev <= u128::MAX) by {
                lemma_div_is_ordered_by_denominator(value as int, 2, prev as int);
                lemma_fundamental_div_mod(value as int, 2);
                lemma_mod_division_less_than_divisor(value as int, 2);
                assert(u128::MAX % 2 == 1);
            };
        }
        z = prev;
        x = (value / prev + prev) / 2;
        proof {
            lemma_newton_step_above_sqrt(value as nat, prev as nat);
            assert(x <= value / 2 + 1) by {
                lemma_div_is_ordered_by_denominator(value as int, 2, prev as int);
                lemma_div_is_ordered(
                    (value / prev + prev) as int,
                    (value / 2 + (value / 2 + 1)) as int,
                    2,
                );
                assert((value / 2 + (value / 2 + 1)) / 2 == value / 2) by {
                    lemma_fundamental_div_mod((value / 2 + (value / 2 + 1)) as int, 2);
                    lemma_mod_division_less_than_divisor((value / 2 + (value / 2 + 1)) as int, 2);
                };
            };
        }
    }
    proof {
        if z == value && x == value / 2 + 1 {
            // the loop cannot exit in its starting state when value >= 4
            lemma_fundamental_div_mod(value as int, 2);
            lemma_mod_division_less_than_divisor(value as int, 2);
            assert(false);
        }
        assert(value / z >= z) by {
            lemma_fundamental_div_mod((value / z + z) as int, 2);
            lemma_mod_division_less_than_divisor((value / z + z) as int, 2);
        };
        lemma_fundamental_div_mod(value as int, z as int);
        lemma_mod_division_less_than_divisor(value as int, z as int);
        assert(z * z <= value) by (nonlinear_arith)
            requires
                value / z >= z,
                z >= 1,
                value == z * (value / z) + value % z,
                0 <= value % z,
        ;
        if z > s {
            assert(false) by (nonlinear_arith)
                requires
                    s + 1 <= z,
                    0 <= s,
                    z * z <= value,
                    (value as nat) < (s + 1) * (s + 1),
            ;
        }
        assert(z <= u64::MAX) by (nonlinear_arith)
            requires
                z * z <= u128::MAX,
                0 <= z,
        ;
    }
    z as u64
}

} // verus!
