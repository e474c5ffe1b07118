use lending::{
    process_borrow, process_deposit, process_liquidate, process_repay, process_withdraw,
    AssetPosition, Bank, ErrorCode, UserPosition,
};

fn bank(td: u64, ts: u64, bt: u64, bs: u64, ltv: u64, lt: u64, bonus: u64) -> Bank {
    Bank {
        total_deposits: td,
        total_deposit_shares: ts,
        total_borrows: bt,
        total_borrow_shares: bs,
        max_ltv_bps: ltv,
        liquidation_threshold_bps: lt,
        liquidation_bonus_bps: bonus,
    }
}

fn position(entries: &[(u64, u64, u64, u64)]) -> UserPosition {
    let mut user = UserPosition::new(entries.len());
    for (i, &(da, dsh, ba, bsh)) in entries.iter().enumerate() {
        user.assets[i] = AssetPosition {
            deposited_amount: da,
            deposited_shares: dsh,
            borrowed_amount: ba,
            borrowed_shares: bsh,
        };
    }
    user
}

#[test]
fn deposit_bootstrap_first_deposit() {
    let mut b = Bank::new(5000, 8000, 500);
    let mut user = UserPosition::new(1);
    let r = process_deposit(&mut b, &mut user, 0, 1000, 7);
    assert_eq!(r, Ok(()));
    assert_eq!(b.total_deposits, 1000);
    assert_eq!(b.total_deposit_shares, 1000);
    assert_eq!(user.assets[0].deposited_amount, 1000);
    assert_eq!(user.assets[0].deposited_shares, 1000);
    assert_eq!(user.last_updated, 7);
}

#[test]
fn deposit_proportional_second_user() {
    let mut b = bank(1000, 1000, 0, 0, 5000, 8000, 500);
    let mut second = UserPosition::new(1);
    let r = process_deposit(&mut b, &mut second, 0, 500, 9);
    assert_eq!(r, Ok(()));
    assert_eq!(second.assets[0].deposited_shares, 500);
    assert_eq!(b.total_deposits, 1500);
    assert_eq!(b.total_deposit_shares, 1500);
}

#[test]
fn deposit_overflow_rejected_unchanged() {
    let mut b = bank(u64::MAX, u64::MAX, 0, 0, 5000, 8000, 500);
    let before_bank = b;
    let mut user = UserPosition::new(1);
    let before_user = position(&[(0, 0, 0, 0)]);
    let r = process_deposit(&mut b, &mut user, 0, 1, 3);
    assert_eq!(r, Err(ErrorCode::ArithmeticOverflow));
    assert_eq!(b, before_bank);
    assert_eq!(user, before_user);
}

#[test]
fn borrow_respects_max_ltv() {
    // 1000 collateral value at max LTV 0.5: 600 is over the line, 500 is not
    let mut banks = vec![
        bank(1000, 1000, 0, 0, 5000, 8000, 500),
        bank(10000, 10000, 0, 0, 5000, 8000, 500),
    ];
    let mut user = position(&[(1000, 1000, 0, 0), (0, 0, 0, 0)]);
    let prices = vec![1, 1];
    let r = process_borrow(&mut banks, &mut user, 1, 600, &prices, 4);
    assert_eq!(r, Err(ErrorCode::OverLTV));
    assert_eq!(user.assets[1].borrowed_shares, 0);
    assert_eq!(banks[1].total_borrows, 0);
    let r = process_borrow(&mut banks, &mut user, 1, 500, &prices, 4);
    assert_eq!(r, Ok(()));
    assert_eq!(user.assets[1].borrowed_amount, 500);
    assert_eq!(user.assets[1].borrowed_shares, 500);
    assert_eq!(banks[1].total_borrows, 500);
    assert_eq!(banks[1].total_borrow_shares, 500);
}

#[test]
fn borrow_over_liquidity_rejected() {
    let mut banks = vec![bank(100, 100, 40, 40, 5000, 8000, 500)];
    let mut user = position(&[(1000, 1000, 0, 0)]);
    // the pool has only 60 left to lend
    let prices = vec![1];
    let r = process_borrow(&mut banks, &mut user, 0, 61, &prices, 4);
    assert_eq!(r, Err(ErrorCode::OverBorrowableAmount));
}

#[test]
fn withdraw_insufficient_funds_rejected() {
    let mut banks = vec![bank(1000, 1000, 0, 0, 5000, 8000, 500)];
    let before = banks.clone();
    let mut user = position(&[(300, 300, 0, 0)]);
    let before_user = position(&[(300, 300, 0, 0)]);
    let prices = vec![1];
    let r = process_withdraw(&mut banks, &mut user, 0, 301, &prices, 4);
    assert_eq!(r, Err(ErrorCode::InsufficientFunds));
    assert_eq!(banks, before);
    assert_eq!(user, before_user);
}

#[test]
fn withdraw_that_breaks_ltv_rejected() {
    // collateral 1000 at LTV 0.5 supports the 400 borrowed only while at
    // least 800 of it stays in the pool
    let mut banks = vec![
        bank(1000, 1000, 0, 0, 5000, 8000, 500),
        bank(1000, 1000, 400, 400, 5000, 8000, 500),
    ];
    let mut user = position(&[(1000, 1000, 0, 0), (0, 0, 400, 400)]);
    let prices = vec![1, 1];
    let before_banks = banks.clone();
    let r = process_withdraw(&mut banks, &mut user, 0, 300, &prices, 4);
    assert_eq!(r, Err(ErrorCode::OverLTV));
    assert_eq!(banks, before_banks);
    assert_eq!(user.assets[0].deposited_amount, 1000);
    let r = process_withdraw(&mut banks, &mut user, 0, 100, &prices, 4);
    assert_eq!(r, Ok(()));
    assert_eq!(user.assets[0].deposited_amount, 900);
    assert_eq!(banks[0].total_deposits, 900);
}

#[test]
fn deposit_withdraw_round_trip_exact() {
    let mut banks = vec![bank(1000, 1000, 0, 0, 5000, 8000, 500)];
    let mut user = position(&[(500, 500, 0, 0)]);
    let prices = vec![1];
    assert_eq!(process_deposit(&mut banks[0], &mut user, 0, 250, 5), Ok(()));
    assert_eq!(banks[0].total_deposits, 1250);
    assert_eq!(user.assets[0].deposited_shares, 750);
    assert_eq!(process_withdraw(&mut banks, &mut user, 0, 250, &prices, 6), Ok(()));
    assert_eq!(banks[0], bank(1000, 1000, 0, 0, 5000, 8000, 500));
    assert_eq!(
        user.assets[0],
        AssetPosition {
            deposited_amount: 500,
            deposited_shares: 500,
            borrowed_amount: 0,
            borrowed_shares: 0,
        }
    );
}

#[test]
fn repay_more_than_owed_rejected() {
    let mut b = bank(1000, 1000, 500, 500, 5000, 8000, 500);
    let before = b;
    let mut user = position(&[(0, 0, 500, 500)]);
    let before_user = position(&[(0, 0, 500, 500)]);
    let r = process_repay(&mut b, &mut user, 0, 501, 4);
    assert_eq!(r, Err(ErrorCode::OverRepay));
    assert_eq!(b, before);
    assert_eq!(user, before_user);
}

#[test]
fn repay_clears_debt() {
    let mut b = bank(1000, 1000, 500, 500, 5000, 8000, 500);
    let mut user = position(&[(0, 0, 500, 500)]);
    let r = process_repay(&mut b, &mut user, 0, 500, 4);
    assert_eq!(r, Ok(()));
    assert_eq!(b.total_borrows, 0);
    assert_eq!(b.total_borrow_shares, 0);
    assert_eq!(user.assets[0].borrowed_amount, 0);
    assert_eq!(user.assets[0].borrowed_shares, 0);
    assert_eq!(user.last_updated, 4);
}

#[test]
fn liquidate_under_collateralized_then_healthy() {
    // borrowed value 800 exceeds threshold 0.75 * collateral value 1000
    let mut banks = vec![
        bank(1000, 1000, 0, 0, 5000, 7500, 1000),
        bank(2000, 2000, 800, 800, 5000, 7500, 1000),
    ];
    let mut borrower = position(&[(1000, 1000, 0, 0), (0, 0, 800, 800)]);
    let prices = vec![1, 1];
    let r = process_liquidate(&mut banks, &mut borrower, 1, 0, &prices, 11);
    assert_eq!(r, Ok(()));
    // the whole 800 debt is repaid: the borrow shares go to zero exactly
    assert_eq!(borrower.assets[1].borrowed_shares, 0);
    assert_eq!(borrower.assets[1].borrowed_amount, 0);
    assert_eq!(banks[1].total_borrows, 0);
    assert_eq!(banks[1].total_borrow_shares, 0);
    // the liquidator takes 800 * 1.10 = 880 of the collateral
    assert_eq!(borrower.assets[0].deposited_amount, 120);
    assert_eq!(borrower.assets[0].deposited_shares, 120);
    assert_eq!(banks[0].total_deposits, 120);
    assert_eq!(banks[0].total_deposit_shares, 120);
    assert_eq!(borrower.last_updated, 11);
    // the position is healthy now: liquidating again is refused
    let again = process_liquidate(&mut banks, &mut borrower, 1, 0, &prices, 12);
    assert_eq!(again, Err(ErrorCode::NotUnderCollateralized));
    assert_eq!(borrower.assets[0].deposited_amount, 120);
}

#[test]
fn borrow_mints_at_pool_rate() {
    // borrow pool at half a unit per share: 90 borrowed mints 180 shares
    let mut banks = vec![bank(1000, 1000, 300, 600, 5000, 8000, 500)];
    let mut user = position(&[(1000, 1000, 0, 0)]);
    let prices = vec![1];
    let r = process_borrow(&mut banks, &mut user, 0, 90, &prices, 4);
    assert_eq!(r, Ok(()));
    assert_eq!(user.assets[0].borrowed_shares, 180);
    assert_eq!(banks[0].total_borrows, 390);
    assert_eq!(banks[0].total_borrow_shares, 780);
}

#[test]
fn repay_partial_leaves_remainder() {
    let mut b = bank(1000, 1000, 500, 500, 5000, 8000, 500);
    let mut user = position(&[(0, 0, 500, 500)]);
    assert_eq!(process_repay(&mut b, &mut user, 0, 200, 4), Ok(()));
    assert_eq!(b.total_borrows, 300);
    assert_eq!(b.total_borrow_shares, 300);
    assert_eq!(user.assets[0].borrowed_amount, 300);
    assert_eq!(user.assets[0].borrowed_shares, 300);
}

#[test]
fn liquidate_borrow_and_collateral_in_same_asset() {
    let mut banks = vec![bank(2000, 2000, 800, 800, 5000, 7500, 1000)];
    let mut borrower = position(&[(1000, 1000, 800, 800)]);
    let prices = vec![1];
    let r = process_liquidate(&mut banks, &mut borrower, 0, 0, &prices, 8);
    assert_eq!(r, Ok(()));
    assert_eq!(borrower.assets[0].borrowed_amount, 0);
    assert_eq!(borrower.assets[0].borrowed_shares, 0);
    assert_eq!(borrower.assets[0].deposited_amount, 120);
    assert_eq!(borrower.assets[0].deposited_shares, 120);
    assert_eq!(banks[0], bank(1120, 1120, 0, 0, 5000, 7500, 1000));
}

#[test]
fn liquidate_with_unpriced_collateral_rejected() {
    let mut banks = vec![
        bank(1000, 1000, 0, 0, 5000, 7500, 1000),
        bank(2000, 2000, 800, 800, 5000, 7500, 1000),
    ];
    let mut borrower = position(&[(1000, 1000, 0, 0), (0, 0, 800, 800)]);
    // a zero collateral price also zeroes the collateral value, so the
    // position counts as under-collateralized, but nothing can be seized
    let prices = vec![0, 1];
    let banks_before = banks.clone();
    let borrower_before = position(&[(1000, 1000, 0, 0), (0, 0, 800, 800)]);
    let r = process_liquidate(&mut banks, &mut borrower, 1, 0, &prices, 8);
    assert_eq!(r, Err(ErrorCode::DivideByZero));
    assert_eq!(banks, banks_before);
    assert_eq!(borrower, borrower_before);
}

#[test]
fn rejection_changes_nothing() {
    let mut banks = vec![
        bank(1000, 1000, 0, 0, 5000, 8000, 500),
        bank(100, 100, 0, 0, 5000, 8000, 500),
    ];
    let mut user = position(&[(1000, 1000, 0, 0), (0, 0, 0, 0)]);
    let prices = vec![1, 1];
    let banks_before = banks.clone();
    let user_before = position(&[(1000, 1000, 0, 0), (0, 0, 0, 0)]);
    // every rejected operation leaves both aggregates byte-identical
    assert_eq!(
        process_borrow(&mut banks, &mut user, 1, 101, &prices, 4),
        Err(ErrorCode::OverBorrowableAmount)
    );
    assert_eq!(
        process_withdraw(&mut banks, &mut user, 1, 5, &prices, 4),
        Err(ErrorCode::InsufficientFunds)
    );
    assert_eq!(
        process_repay(&mut banks[1], &mut user, 1, 5, 4),
        Err(ErrorCode::OverRepay)
    );
    assert_eq!(
        process_liquidate(&mut banks, &mut user, 1, 0, &prices, 4),
        Err(ErrorCode::NotUnderCollateralized)
    );
    assert_eq!(banks, banks_before);
    assert_eq!(user, user_before);
    assert_eq!(user.last_updated, 0);
}

#[test]
fn bank_invariant_zero_iff_held_throughout() {
    let mut banks = vec![bank(0, 0, 0, 0, 5000, 8000, 500)];
    let mut alice = UserPosition::new(1);
    let mut bob = UserPosition::new(1);
    let prices = vec![1];
    let zero_iff = |b: &Bank| {
        assert_eq!(b.total_deposits == 0, b.total_deposit_shares == 0);
        assert_eq!(b.total_borrows == 0, b.total_borrow_shares == 0);
    };
    zero_iff(&banks[0]);
    assert_eq!(process_deposit(&mut banks[0], &mut alice, 0, 1000, 1), Ok(()));
    zero_iff(&banks[0]);
    assert_eq!(process_deposit(&mut banks[0], &mut bob, 0, 300, 2), Ok(()));
    zero_iff(&banks[0]);
    assert_eq!(process_borrow(&mut banks, &mut bob, 0, 150, &prices, 3), Ok(()));
    zero_iff(&banks[0]);
    assert_eq!(process_repay(&mut banks[0], &mut bob, 0, 150, 4), Ok(()));
    zero_iff(&banks[0]);
    assert_eq!(process_withdraw(&mut banks, &mut alice, 0, 1000, &prices, 5), Ok(()));
    zero_iff(&banks[0]);
    assert_eq!(process_withdraw(&mut banks, &mut bob, 0, 300, &prices, 6), Ok(()));
    zero_iff(&banks[0]);
    assert_eq!(banks[0], bank(0, 0, 0, 0, 5000, 8000, 500));
}

#[test]
fn global_shares_sum_matches_bank() {
    let mut banks = vec![bank(0, 0, 0, 0, 5000, 8000, 500)];
    let mut alice = UserPosition::new(1);
    let mut bob = UserPosition::new(1);
    let prices = vec![1];
    assert_eq!(process_deposit(&mut banks[0], &mut alice, 0, 1000, 1), Ok(()));
    assert_eq!(process_deposit(&mut banks[0], &mut bob, 0, 500, 2), Ok(()));
    assert_eq!(
        alice.assets[0].deposited_shares + bob.assets[0].deposited_shares,
        banks[0].total_deposit_shares
    );
    assert_eq!(process_withdraw(&mut banks, &mut alice, 0, 300, &prices, 3), Ok(()));
    assert_eq!(
        alice.assets[0].deposited_shares + bob.assets[0].deposited_shares,
        banks[0].total_deposit_shares
    );
    assert_eq!(process_borrow(&mut banks, &mut bob, 0, 200, &prices, 4), Ok(()));
    assert_eq!(
        alice.assets[0].borrowed_shares + bob.assets[0].borrowed_shares,
        banks[0].total_borrow_shares
    );
}
