use lending::{amount_for_shares, shares_for_amount, shares_for_amount_ceil, ErrorCode};

#[test]
fn shares_bootstrap_one_to_one() {
    assert_eq!(shares_for_amount(1000, 0, 0), Ok(1000));
    assert_eq!(shares_for_amount_ceil(1000, 0, 0), Ok(1000));
    assert_eq!(amount_for_shares(1000, 0, 0), Ok(1000));
}

#[test]
fn shares_proportional_exact() {
    // pool at rate 2 shares per unit: 10 units -> 20 shares
    assert_eq!(shares_for_amount(10, 100, 200), Ok(20));
    assert_eq!(amount_for_shares(20, 100, 200), Ok(10));
}

#[test]
fn shares_rounding_directions_differ() {
    // 1 * 2 / 3 truncates to 0; the burn-side conversion rounds it up to 1
    assert_eq!(shares_for_amount(1, 3, 2), Ok(0));
    assert_eq!(shares_for_amount_ceil(1, 3, 2), Ok(1));
}

#[test]
fn shares_divide_by_zero_on_assetless_pool() {
    assert_eq!(shares_for_amount(5, 0, 3), Err(ErrorCode::DivideByZero));
    assert_eq!(shares_for_amount_ceil(5, 0, 3), Err(ErrorCode::DivideByZero));
    assert_eq!(amount_for_shares(5, 3, 0), Err(ErrorCode::DivideByZero));
}

#[test]
fn shares_overflow_when_quotient_leaves_u64() {
    // u64::MAX * u64::MAX / 1 cannot come back into a u64
    assert_eq!(
        shares_for_amount(u64::MAX, 1, u64::MAX),
        Err(ErrorCode::ArithmeticOverflow)
    );
    assert_eq!(
        amount_for_shares(u64::MAX, u64::MAX, 1),
        Err(ErrorCode::ArithmeticOverflow)
    );
}

#[test]
fn shares_largest_exact_case() {
    // the widest product that still divides back into range
    assert_eq!(shares_for_amount(u64::MAX, u64::MAX, u64::MAX), Ok(u64::MAX));
}
