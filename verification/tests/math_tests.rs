use amm::errors::AmmError;
use amm::math::integer_sqrt;
use amm::math::mul_div_u64;

#[test]
fn sqrt_zero() {
    assert_eq!(integer_sqrt(0), 0);
}

#[test]
fn sqrt_small_values() {
    assert_eq!(integer_sqrt(1), 1);
    assert_eq!(integer_sqrt(2), 1);
    assert_eq!(integer_sqrt(3), 1);
    assert_eq!(integer_sqrt(4), 2);
    assert_eq!(integer_sqrt(15), 3);
    assert_eq!(integer_sqrt(16), 4);
    assert_eq!(integer_sqrt(17), 4);
}

#[test]
fn sqrt_exact_square() {
    assert_eq!(integer_sqrt(4_000_000), 2000);
    assert_eq!(integer_sqrt(3_999_999), 1999);
    assert_eq!(integer_sqrt(4_004_000), 2000);
}

#[test]
fn sqrt_near_u64_max() {
    // floor(sqrt(2^64 - 1)) = 2^32 - 1
    assert_eq!(integer_sqrt(u64::MAX as u128), 4_294_967_295);
    let max = u64::MAX as u128;
    assert_eq!(integer_sqrt(max * max), u64::MAX);
    assert_eq!(integer_sqrt(max * max - 1), u64::MAX - 1);
}

#[test]
fn sqrt_u128_max() {
    // floor(sqrt(2^128 - 1)) = 2^64 - 1
    assert_eq!(integer_sqrt(u128::MAX), u64::MAX);
}

#[test]
fn mul_div_exact() {
    assert_eq!(mul_div_u64(6, 7, 3), Ok(14));
    assert_eq!(mul_div_u64(7, 7, 3), Ok(16));
    assert_eq!(mul_div_u64(0, 7, 3), Ok(0));
}

#[test]
fn mul_div_zero_divisor() {
    assert_eq!(mul_div_u64(1, 1, 0), Err(AmmError::MathOverflow));
}

#[test]
fn mul_div_quotient_overflow() {
    assert_eq!(mul_div_u64(u64::MAX, u64::MAX, 1), Err(AmmError::MathOverflow));
    assert_eq!(mul_div_u64(u64::MAX, 2, 1), Err(AmmError::MathOverflow));
}

#[test]
fn mul_div_near_u64_max() {
    // the product widens to 128 bits, so these stay exact
    assert_eq!(mul_div_u64(u64::MAX, u64::MAX, u64::MAX), Ok(u64::MAX));
    assert_eq!(mul_div_u64(u64::MAX, 2, 4), Ok(u64::MAX / 2));
    assert_eq!(mul_div_u64(u64::MAX, 1, 1), Ok(u64::MAX));
}
