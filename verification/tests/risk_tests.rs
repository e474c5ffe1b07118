use lending::{
    borrowed_value, collateral_value, is_liquidatable, is_over_ltv, max_borrowable,
    AssetPosition, Bank, UserPosition,
};

fn bank(td: u64, ts: u64, bt: u64, bs: u64, ltv: u64, lt: u64, bonus: u64) -> Bank {
    Bank {
        total_deposits: td,
        total_deposit_shares: ts,
        total_borrows: bt,
        total_borrow_shares: bs,
        max_ltv_bps: ltv,
        liquidation_threshold_bps: lt,
        liquidation_bonus_bps: bonus,
    }
}

fn holding(da: u64, dsh: u64, ba: u64, bsh: u64) -> AssetPosition {
    AssetPosition {
        deposited_amount: da,
        deposited_shares: dsh,
        borrowed_amount: ba,
        borrowed_shares: bsh,
    }
}

#[test]
fn values_of_a_plain_position() {
    let banks = vec![bank(1000, 1000, 0, 0, 5000, 8000, 500)];
    let mut user = UserPosition::new(1);
    user.assets[0] = holding(1000, 1000, 0, 0);
    let prices = vec![2];
    assert_eq!(collateral_value(&user, &banks, &prices), Ok(2000));
    assert_eq!(borrowed_value(&user, &banks, &prices), Ok(0));
    assert_eq!(is_over_ltv(&user, &banks, &prices), Ok(false));
    assert_eq!(is_liquidatable(&user, &banks, &prices), Ok(false));
    // 2000 of collateral value at LTV 0.5 leaves 1000 of headroom
    assert_eq!(max_borrowable(&user, &banks, &prices), Ok(1000));
}

#[test]
fn over_ltv_and_liquidatable_boundaries() {
    let banks = vec![
        bank(1000, 1000, 0, 0, 5000, 7500, 500),
        bank(2000, 2000, 800, 800, 5000, 7500, 500),
    ];
    let mut user = UserPosition::new(2);
    user.assets[0] = holding(1000, 1000, 0, 0);
    user.assets[1] = holding(0, 0, 800, 800);
    let prices = vec![1, 1];
    // 800 borrowed > 0.5 * 1000 and > 0.75 * 1000
    assert_eq!(is_over_ltv(&user, &banks, &prices), Ok(true));
    assert_eq!(is_liquidatable(&user, &banks, &prices), Ok(true));
    assert_eq!(max_borrowable(&user, &banks, &prices), Ok(0));
    // exactly at the limit is allowed on both counts
    user.assets[1] = holding(0, 0, 500, 500);
    let banks = vec![
        bank(1000, 1000, 0, 0, 5000, 7500, 500),
        bank(2000, 2000, 500, 500, 5000, 7500, 500),
    ];
    assert_eq!(is_over_ltv(&user, &banks, &prices), Ok(false));
    assert_eq!(is_liquidatable(&user, &banks, &prices), Ok(false));
}

#[test]
fn values_shift_with_pool_rate() {
    // 100 shares of a pool holding 300 over 200 shares stand for 150 units
    let banks = vec![bank(300, 200, 0, 0, 5000, 8000, 500)];
    let mut user = UserPosition::new(1);
    user.assets[0] = holding(100, 100, 0, 0);
    let prices = vec![1];
    assert_eq!(collateral_value(&user, &banks, &prices), Ok(150));
}

#[test]
fn max_borrowable_shrinks_with_debt() {
    let banks = vec![bank(1000, 1000, 200, 200, 5000, 8000, 500)];
    let mut user = UserPosition::new(1);
    user.assets[0] = holding(1000, 1000, 200, 200);
    let prices = vec![1];
    // 1000 of collateral at LTV 0.5 supports 500; 200 is already out
    assert_eq!(borrowed_value(&user, &banks, &prices), Ok(200));
    assert_eq!(max_borrowable(&user, &banks, &prices), Ok(300));
}

#[test]
fn empty_position_is_riskless() {
    let banks: Vec<Bank> = vec![];
    let user = UserPosition::new(0);
    let prices: Vec<u64> = vec![];
    assert_eq!(is_over_ltv(&user, &banks, &prices), Ok(false));
    assert_eq!(collateral_value(&user, &banks, &prices), Ok(0));
    assert_eq!(borrowed_value(&user, &banks, &prices), Ok(0));
    assert_eq!(max_borrowable(&user, &banks, &prices), Ok(0));
}
