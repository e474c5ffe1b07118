use vstd::prelude::*;

verus! {

use crate::error::ErrorCode;
use crate::math::{
    amount_of,
    amount_for_shares,
    lemma_u64_mul_fits,
    lemma_ceil_props,
    lemma_floor_props,
    lemma_mint_ge_amount,
    lemma_mint_nonneg,
    shares_for_amount,
    shares_for_amount_ceil,
    shares_of,
    shares_of_ceil,
};
use crate::risk::{checked_mul_u128, liquidatable, over_ltv, over_ltv_with, risk_fits,
    is_liquidatable};
use crate::state::{AssetPosition, Bank, UserPosition, BPS_SCALE};
use vstd::pervasive::VecAdditionalExecFns;

/// `b` with its deposit side replaced.
pub open spec fn with_deposit_side(b: Bank, td: u64, ts: u64) -> Bank {
    Bank {
        total_deposits: td,
        total_deposit_shares: ts,
        total_borrows: b.total_borrows,
        total_borrow_shares: b.total_borrow_shares,
        max_ltv_bps: b.max_ltv_bps,
        liquidation_threshold_bps: b.liquidation_threshold_bps,
        liquidation_bonus_bps: b.liquidation_bonus_bps,
    }
}

/// `b` with its borrow side replaced.
pub open spec fn with_borrow_side(b: Bank, tb: u64, tbs: u64) -> Bank {
    Bank {
        total_deposits: b.total_deposits,
        total_deposit_shares: b.total_deposit_shares,
        total_borrows: tb,
        total_borrow_shares: tbs,
        max_ltv_bps: b.max_ltv_bps,
        liquidation_threshold_bps: b.liquidation_threshold_bps,
        liquidation_bonus_bps: b.liquidation_bonus_bps,
    }
}

/// `p` with its deposit side replaced.
pub open spec fn pos_with_deposit(p: AssetPosition, da: u64, dsh: u64) -> AssetPosition {
    AssetPosition {
        deposited_amount: da,
        deposited_shares: dsh,
        borrowed_amount: p.borrowed_amount,
        borrowed_shares: p.borrowed_shares,
    }
}

/// `p` with its borrow side replaced.
pub open spec fn pos_with_borrow(p: AssetPosition, ba: u64, bsh: u64) -> AssetPosition {
    AssetPosition {
        deposited_amount: p.deposited_amount,
        deposited_shares: p.deposited_shares,
        borrowed_amount: ba,
        borrowed_shares: bsh,
    }
}

/// The whole outcome of a deposit: the result, the bank, the user's holding
/// in the touched asset, and the position's timestamp. A rejection returns
/// the inputs untouched.
pub open spec fn deposit_spec(b: Bank, p: AssetPosition, lu: i64, amount: u64, now: i64) -> (
    Result<(), ErrorCode>,
    Bank,
    AssetPosition,
    i64,
) {
    let s = shares_of(amount as int, b.total_deposits as int, b.total_deposit_shares as int);
    if b.total_deposits == 0 && b.total_deposit_shares != 0 {
        (Err(ErrorCode::DivideByZero), b, p, lu)
    } else if s > u64::MAX || b.total_deposits + amount > u64::MAX || b.total_deposit_shares + s
        > u64::MAX || p.deposited_amount + amount > u64::MAX || p.deposited_shares + s
        > u64::MAX {
        (Err(ErrorCode::ArithmeticOverflow), b, p, lu)
    } else {
        (
            Ok(()),
            with_deposit_side(
                b,
                (b.total_deposits + amount) as u64,
                (b.total_deposit_shares + s) as u64,
            ),
            pos_with_deposit(
                p,
                (p.deposited_amount + amount) as u64,
                (p.deposited_shares + s) as u64,
            ),
            now,
        )
    }
}

/// Deposits `amount` of the bank's asset for the user: the pool grows by the
/// amount, and bank and user gain the shares it converts to at the pool's
/// rate. The asset transfer into the pool is the caller's collaborator and
/// happens, all or nothing, before the accounting. Deposits need no solvency
/// check; only overflow (or an invalid pool) rejects, and a rejection
/// changes nothing.
pub fn process_deposit(
    bank: &mut Bank,
    user: &mut UserPosition,
    asset: usize,
    amount: u64,
    now: i64,
) -> (r: Result<(), ErrorCode>)
    requires
        amount > 0,
        asset < old(user).assets@.len(),
    ensures
        ({
            let (res, nb, np, nlu) = deposit_spec(
                *old(bank),
                old(user).assets@[asset as int],
                old(user).last_updated,
                amount,
                now,
            );
            &&& r == res
            &&& *final(bank) == nb
            &&& final(user).assets@ == old(user).assets@.update(asset as int, np)
            &&& final(user).last_updated == nlu
        }),
        r is Err ==> *final(bank) == *old(bank) && final(user).assets@ == old(user).assets@
            && final(user).last_updated == old(user).last_updated,
        old(bank).wf() ==> final(bank).wf(),
        old(bank).wf() && old(bank).shares_dominate() ==> final(bank).shares_dominate(),
        old(bank).wf() && old(bank).shares_dominate() && old(user).wf() ==> final(user).wf(),
{
    let ghost p0 = user.assets@[asset as int];
    let b = *bank;
    let p = user.assets[asset];
    let minted = match shares_for_amount(amount, b.total_deposits, b.total_deposit_shares) {
        Ok(v) => v,
        Err(e) => {
            proof {
                assert(old(user).assets@.update(asset as int, p0) =~= old(user).assets@);
            }
            return Err(e);
        },
    };
    if amount > u64::MAX - b.total_deposits || minted > u64::MAX - b.total_deposit_shares
        || amount > u64::MAX - p.deposited_amount || minted > u64::MAX - p.deposited_shares {
        proof {
            assert(old(user).assets@.update(asset as int, p0) =~= old(user).assets@);
        }
        return Err(ErrorCode::ArithmeticOverflow);
    }
    let nb = Bank {
        total_deposits: b.total_deposits + amount,
        total_deposit_shares: b.total_deposit_shares + minted,
        total_borrows: b.total_borrows,
        total_borrow_shares: b.total_borrow_shares,
        max_ltv_bps: b.max_ltv_bps,
        liquidation_threshold_bps: b.liquidation_threshold_bps,
        liquidation_bonus_bps: b.liquidation_bonus_bps,
    };
    let np = AssetPosition {
        deposited_amount: p.deposited_amount + amount,
        deposited_shares: p.deposited_shares + minted,
        borrowed_amount: p.borrowed_amount,
        borrowed_shares: p.borrowed_shares,
    };
    proof {
        let td = b.total_deposits as int;
        let ts = b.total_deposit_shares as int;
        if old(bank).wf() && td != 0 {
            lemma_mint_nonneg(amount as int, td, ts);
        }
        if old(bank).wf() && old(bank).shares_dominate() && td != 0 {
            lemma_mint_ge_amount(amount as int, td, ts);
        }
    }
    *bank = nb;
    user.assets.set(asset, np);
    user.last_updated = now;
    proof {
        if old(bank).wf() && old(bank).shares_dominate() && old(user).wf() {
            assert forall|i: int|
                0 <= i < final(user).assets@.len() implies (#[trigger] final(user).assets@[i]).wf()
            by {
                assert(old(user).assets@[i].wf());
            }
        }
    }
    Ok(())
}

/// The whole outcome of a withdrawal over the full bank and position tables
/// (the solvency check reads every asset): the result, the new tables, and
/// the position's timestamp. A rejection returns the inputs untouched.
pub open spec fn withdraw_spec(
    banks: Seq<Bank>,
    assets: Seq<AssetPosition>,
    lu: i64,
    asset: int,
    amount: u64,
    prices: Seq<u64>,
    now: i64,
) -> (Result<(), ErrorCode>, Seq<Bank>, Seq<AssetPosition>, i64) {
    let b = banks[asset];
    let p = assets[asset];
    let burn = shares_of_ceil(
        amount as int,
        b.total_deposits as int,
        b.total_deposit_shares as int,
    );
    if amount > p.deposited_amount {
        (Err(ErrorCode::InsufficientFunds), banks, assets, lu)
    } else if b.total_deposits == 0 && b.total_deposit_shares != 0 {
        (Err(ErrorCode::DivideByZero), banks, assets, lu)
    } else if burn > u64::MAX || amount > b.total_deposits || burn > b.total_deposit_shares
        || burn > p.deposited_shares {
        (Err(ErrorCode::ArithmeticOverflow), banks, assets, lu)
    } else {
        let nb = with_deposit_side(
            b,
            (b.total_deposits - amount) as u64,
            (b.total_deposit_shares - burn) as u64,
        );
        let np = pos_with_deposit(
            p,
            (p.deposited_amount - amount) as u64,
            (p.deposited_shares - burn) as u64,
        );
        let nbanks = banks.update(asset, nb);
        let nassets = assets.update(asset, np);
        if !risk_fits(nassets, nbanks, prices, false) {
            (Err(ErrorCode::ArithmeticOverflow), banks, assets, lu)
        } else if over_ltv(nassets, nbanks, prices) {
            (Err(ErrorCode::OverLTV), banks, assets, lu)
        } else {
            (Ok(()), nbanks, nassets, now)
        }
    }
}

/// Withdraws `amount` of one asset for the user. More than the user's
/// deposited amount is `InsufficientFunds`; the shares burned round up so
/// rounding never leaves the pool short. The withdrawal is simulated first
/// and rejected with `OverLTV` if the remaining collateral would no longer
/// support the user's borrows, so no transient invalid state ever exists;
/// the transfer out of the pool is the caller's collaborator and runs only
/// after success. A rejection changes nothing.
pub fn process_withdraw(
    banks: &mut Vec<Bank>,
    user: &mut UserPosition,
    asset: usize,
    amount: u64,
    prices: &Vec<u64>,
    now: i64,
) -> (r: Result<(), ErrorCode>)
    requires
        amount > 0,
        old(user).assets@.len() == old(banks)@.len(),
        prices@.len() == old(banks)@.len(),
        asset < old(banks)@.len(),
    ensures
        ({
            let (res, nbanks, nassets, nlu) = withdraw_spec(
                old(banks)@,
                old(user).assets@,
                old(user).last_updated,
                asset as int,
                amount,
                prices@,
                now,
            );
            &&& r == res
            &&& final(banks)@ == nbanks
            &&& final(user).assets@ == nassets
            &&& final(user).last_updated == nlu
        }),
        r is Err ==> final(banks)@ == old(banks)@ && final(user).assets@ == old(user).assets@
            && final(user).last_updated == old(user).last_updated,
        old(banks)@[asset as int].wf() && old(banks)@[asset as int].shares_dominate()
            ==> (final(banks)@[asset as int].wf()
                && final(banks)@[asset as int].shares_dominate()),
        forall|i: int|
            0 <= i < old(banks)@.len() && i != asset ==> final(banks)@[i] == old(banks)@[i],
{
    let b: Bank = banks[asset];
    let p: AssetPosition = user.assets[asset];
    if amount > p.deposited_amount {
        return Err(ErrorCode::InsufficientFunds);
    }
    let burn = match shares_for_amount_ceil(amount, b.total_deposits, b.total_deposit_shares) {
        Ok(v) => v,
        Err(e) => {
            return Err(e);
        },
    };
    if amount > b.total_deposits || burn > b.total_deposit_shares || burn > p.deposited_shares {
        return Err(ErrorCode::ArithmeticOverflow);
    }
    let nb = Bank {
        total_deposits: b.total_deposits - amount,
        total_deposit_shares: b.total_deposit_shares - burn,
        total_borrows: b.total_borrows,
        total_borrow_shares: b.total_borrow_shares,
        max_ltv_bps: b.max_ltv_bps,
        liquidation_threshold_bps: b.liquidation_threshold_bps,
        liquidation_bonus_bps: b.liquidation_bonus_bps,
    };
    let np = AssetPosition {
        deposited_amount: p.deposited_amount - amount,
        deposited_shares: p.deposited_shares - burn,
        borrowed_amount: p.borrowed_amount,
        borrowed_shares: p.borrowed_shares,
    };
    let over = match over_ltv_with(&user.assets, banks, prices, asset, np, nb) {
        Ok(o) => o,
        Err(e) => {
            return Err(e);
        },
    };
    if over {
        return Err(ErrorCode::OverLTV);
    }
    proof {
        if old(banks)@[asset as int].wf() && old(banks)@[asset as int].shares_dominate() {
            lemma_ceil_props(
                amount as int,
                b.total_deposits as int,
                b.total_deposit_shares as int,
            );
        }
    }
    banks.set(asset, nb);
    user.assets.set(asset, np);
    user.last_updated = now;
    Ok(())
}

/// The whole outcome of a borrow, in the same shape as `withdraw_spec`.
pub open spec fn borrow_spec(
    banks: Seq<Bank>,
    assets: Seq<AssetPosition>,
    lu: i64,
    asset: int,
    amount: u64,
    prices: Seq<u64>,
    now: i64,
) -> (Result<(), ErrorCode>, Seq<Bank>, Seq<AssetPosition>, i64) {
    let b = banks[asset];
    let p = assets[asset];
    let minted = shares_of(amount as int, b.total_borrows as int, b.total_borrow_shares as int);
    if amount + b.total_borrows > b.total_deposits {
        (Err(ErrorCode::OverBorrowableAmount), banks, assets, lu)
    } else if b.total_borrows == 0 && b.total_borrow_shares != 0 {
        (Err(ErrorCode::DivideByZero), banks, assets, lu)
    } else if minted > u64::MAX || b.total_borrow_shares + minted > u64::MAX || p.borrowed_amount
        + amount > u64::MAX || p.borrowed_shares + minted > u64::MAX {
        (Err(ErrorCode::ArithmeticOverflow), banks, assets, lu)
    } else {
        let nb = with_borrow_side(
            b,
            (b.total_borrows + amount) as u64,
            (b.total_borrow_shares + minted) as u64,
        );
        let np = pos_with_borrow(
            p,
            (p.borrowed_amount + amount) as u64,
            (p.borrowed_shares + minted) as u64,
        );
        let nbanks = banks.update(asset, nb);
        let nassets = assets.update(asset, np);
        if !risk_fits(nassets, nbanks, prices, false) {
            (Err(ErrorCode::ArithmeticOverflow), banks, assets, lu)
        } else if over_ltv(nassets, nbanks, prices) {
            (Err(ErrorCode::OverLTV), banks, assets, lu)
        } else {
            (Ok(()), nbanks, nassets, now)
        }
    }
}

/// Borrows `amount` of one asset against the user's collateral. More than
/// the pool's unborrowed liquidity is `OverBorrowableAmount` (the cheap check
/// comes first); then the borrow is simulated and rejected with `OverLTV` if
/// the borrowed value would exceed what the user's collateral supports at
/// each asset's loan-to-value limit. The transfer to the user is the
/// caller's collaborator and runs only after success. A rejection changes
/// nothing.
pub fn process_borrow(
    banks: &mut Vec<Bank>,
    user: &mut UserPosition,
    asset: usize,
    amount: u64,
    prices: &Vec<u64>,
    now: i64,
) -> (r: Result<(), ErrorCode>)
    requires
        amount > 0,
        old(user).assets@.len() == old(banks)@.len(),
        prices@.len() == old(banks)@.len(),
        asset < old(banks)@.len(),
    ensures
        ({
            let (res, nbanks, nassets, nlu) = borrow_spec(
                old(banks)@,
                old(user).assets@,
                old(user).last_updated,
                asset as int,
                amount,
                prices@,
                now,
            );
            &&& r == res
            &&& final(banks)@ == nbanks
            &&& final(user).assets@ == nassets
            &&& final(user).last_updated == nlu
        }),
        r is Err ==> final(banks)@ == old(banks)@ && final(user).assets@ == old(user).assets@
            && final(user).last_updated == old(user).last_updated,
        old(banks)@[asset as int].wf() ==> final(banks)@[asset as int].wf(),
        old(banks)@[asset as int].wf() && old(banks)@[asset as int].shares_dominate()
            ==> final(banks)@[asset as int].shares_dominate(),
        forall|i: int|
            0 <= i < old(banks)@.len() && i != asset ==> final(banks)@[i] == old(banks)@[i],
        (old(banks)@[asset as int].wf() && old(banks)@[asset as int].shares_dominate()
            && old(user).wf()) ==> final(user).wf(),
{
    let b: Bank = banks[asset];
    let p: AssetPosition = user.assets[asset];
    if b.total_borrows > b.total_deposits || amount > b.total_deposits - b.total_borrows {
        return Err(ErrorCode::OverBorrowableAmount);
    }
    let minted = match shares_for_amount(amount, b.total_borrows, b.total_borrow_shares) {
        Ok(v) => v,
        Err(e) => {
            return Err(e);
        },
    };
    if minted > u64::MAX - b.total_borrow_shares || amount > u64::MAX - p.borrowed_amount
        || minted > u64::MAX - p.borrowed_shares {
        return Err(ErrorCode::ArithmeticOverflow);
    }
    let nb = Bank {
        total_deposits: b.total_deposits,
        total_deposit_shares: b.total_deposit_shares,
        total_borrows: b.total_borrows + amount,
        total_borrow_shares: b.total_borrow_shares + minted,
        max_ltv_bps: b.max_ltv_bps,
        liquidation_threshold_bps: b.liquidation_threshold_bps,
        liquidation_bonus_bps: b.liquidation_bonus_bps,
    };
    let np = AssetPosition {
        deposited_amount: p.deposited_amount,
        deposited_shares: p.deposited_shares,
        borrowed_amount: p.borrowed_amount + amount,
        borrowed_shares: p.borrowed_shares + minted,
    };
    let over = match over_ltv_with(&user.assets, banks, prices, asset, np, nb) {
        Ok(o) => o,
        Err(e) => {
            return Err(e);
        },
    };
    if over {
        return Err(ErrorCode::OverLTV);
    }
    proof {
        let tb = b.total_borrows as int;
        let tbs = b.total_borrow_shares as int;
        if old(banks)@[asset as int].wf() && tb != 0 {
            lemma_mint_nonneg(amount as int, tb, tbs);
        }
        if old(banks)@[asset as int].wf() && old(banks)@[asset as int].shares_dominate() && tb
            != 0 {
            lemma_mint_ge_amount(amount as int, tb, tbs);
        }
    }
    banks.set(asset, nb);
    user.assets.set(asset, np);
    user.last_updated = now;
    proof {
        if old(banks)@[asset as int].wf() && old(banks)@[asset as int].shares_dominate()
            && old(user).wf() {
            assert forall|i: int|
                0 <= i < final(user).assets@.len() implies (#[trigger] final(user).assets@[i]).wf()
            by {
                assert(old(user).assets@[i].wf());
            }
        }
    }
    Ok(())
}

/// The whole outcome of a repayment, in the same shape as `deposit_spec`.
pub open spec fn repay_spec(b: Bank, p: AssetPosition, lu: i64, amount: u64, now: i64) -> (
    Result<(), ErrorCode>,
    Bank,
    AssetPosition,
    i64,
) {
    let owed = amount_of(
        p.borrowed_shares as int,
        b.total_borrows as int,
        b.total_borrow_shares as int,
    );
    if b.total_borrow_shares == 0 && b.total_borrows != 0 {
        (Err(ErrorCode::DivideByZero), b, p, lu)
    } else if owed > u64::MAX {
        (Err(ErrorCode::ArithmeticOverflow), b, p, lu)
    } else if amount > owed {
        (Err(ErrorCode::OverRepay), b, p, lu)
    } else {
        let burn = shares_of(amount as int, b.total_borrows as int, b.total_borrow_shares as int);
        if b.total_borrows == 0 && b.total_borrow_shares != 0 {
            (Err(ErrorCode::DivideByZero), b, p, lu)
        } else if burn > u64::MAX || amount > b.total_borrows || burn > b.total_borrow_shares
            || amount > p.borrowed_amount || burn > p.borrowed_shares {
            (Err(ErrorCode::ArithmeticOverflow), b, p, lu)
        } else {
            (
                Ok(()),
                with_borrow_side(
                    b,
                    (b.total_borrows - amount) as u64,
                    (b.total_borrow_shares - burn) as u64,
                ),
                pos_with_borrow(
                    p,
                    (p.borrowed_amount - amount) as u64,
                    (p.borrowed_shares - burn) as u64,
                ),
                now,
            )
        }
    }
}

/// Repays `amount` of the user's debt in the bank's asset. More than the
/// user currently owes (`amount_for_shares` of their borrow shares) is
/// rejected with `OverRepay`; the shares burned round down so the payment is
/// never under-credited. The transfer from the user into the pool is the
/// caller's collaborator. No solvency check: repaying only improves the
/// position. A rejection changes nothing.
pub fn process_repay(
    bank: &mut Bank,
    user: &mut UserPosition,
    asset: usize,
    amount: u64,
    now: i64,
) -> (r: Result<(), ErrorCode>)
    requires
        amount > 0,
        asset < old(user).assets@.len(),
    ensures
        ({
            let (res, nb, np, nlu) = repay_spec(
                *old(bank),
                old(user).assets@[asset as int],
                old(user).last_updated,
                amount,
                now,
            );
            &&& r == res
            &&& *final(bank) == nb
            &&& final(user).assets@ == old(user).assets@.update(asset as int, np)
            &&& final(user).last_updated == nlu
        }),
        r is Err ==> *final(bank) == *old(bank) && final(user).assets@ == old(user).assets@
            && final(user).last_updated == old(user).last_updated,
        old(bank).wf() ==> final(bank).wf(),
        old(bank).wf() && old(bank).shares_dominate() ==> final(bank).shares_dominate(),
{
    let ghost p0 = user.assets@[asset as int];
    let b = *bank;
    let p = user.assets[asset];
    let owed = match amount_for_shares(p.borrowed_shares, b.total_borrows, b.total_borrow_shares) {
        Ok(v) => v,
        Err(e) => {
            proof {
                assert(old(user).assets@.update(asset as int, p0) =~= old(user).assets@);
            }
            return Err(e);
        },
    };
    if amount > owed {
        proof {
            assert(old(user).assets@.update(asset as int, p0) =~= old(user).assets@);
        }
        return Err(ErrorCode::OverRepay);
    }
    let burn = match shares_for_amount(amount, b.total_borrows, b.total_borrow_shares) {
        Ok(v) => v,
        Err(e) => {
            proof {
                assert(old(user).assets@.update(asset as int, p0) =~= old(user).assets@);
            }
            return Err(e);
        },
    };
    if amount > b.total_borrows || burn > b.total_borrow_shares || amount > p.borrowed_amount
        || burn > p.borrowed_shares {
        proof {
            assert(old(user).assets@.update(asset as int, p0) =~= old(user).assets@);
        }
        return Err(ErrorCode::ArithmeticOverflow);
    }
    let nb = Bank {
        total_deposits: b.total_deposits,
        total_deposit_shares: b.total_deposit_shares,
        total_borrows: b.total_borrows - amount,
        total_borrow_shares: b.total_borrow_shares - burn,
        max_ltv_bps: b.max_ltv_bps,
        liquidation_threshold_bps: b.liquidation_threshold_bps,
        liquidation_bonus_bps: b.liquidation_bonus_bps,
    };
    let np = AssetPosition {
        deposited_amount: p.deposited_amount,
        deposited_shares: p.deposited_shares,
        borrowed_amount: p.borrowed_amount - amount,
        borrowed_shares: p.borrowed_shares - burn,
    };
    proof {
        if old(bank).wf() {
            let tb = b.total_borrows as int;
            let tbs = b.total_borrow_shares as int;
            lemma_floor_props(amount as int, tb, tbs);
        }
    }
    *bank = nb;
    user.assets.set(asset, np);
    user.last_updated = now;
    Ok(())
}

/// The whole outcome of a liquidation over the full tables. The borrower's
/// entire debt in `borrowed_asset` is repaid by the liquidator and the
/// equivalent value of the borrower's `collateral_asset`, grown by that
/// bank's liquidation bonus, is seized for the liquidator; both transfers are
/// the caller's collaborators. A rejection returns the inputs untouched.
pub open spec fn liquidate_spec(
    banks: Seq<Bank>,
    assets: Seq<AssetPosition>,
    lu: i64,
    borrowed_asset: int,
    collateral_asset: int,
    prices: Seq<u64>,
    now: i64,
) -> (Result<(), ErrorCode>, Seq<Bank>, Seq<AssetPosition>, i64) {
    if !risk_fits(assets, banks, prices, true) {
        (Err(ErrorCode::ArithmeticOverflow), banks, assets, lu)
    } else if !liquidatable(assets, banks, prices) {
        (Err(ErrorCode::NotUnderCollateralized), banks, assets, lu)
    } else {
        let bb = banks[borrowed_asset];
        let pb = assets[borrowed_asset];
        let debt = amount_of(
            pb.borrowed_shares as int,
            bb.total_borrows as int,
            bb.total_borrow_shares as int,
        );
        if bb.total_borrow_shares == 0 && bb.total_borrows != 0 {
            (Err(ErrorCode::DivideByZero), banks, assets, lu)
        } else if debt > u64::MAX || debt > bb.total_borrows || pb.borrowed_shares
            > bb.total_borrow_shares || debt > pb.borrowed_amount {
            (Err(ErrorCode::ArithmeticOverflow), banks, assets, lu)
        } else {
            let nbb = with_borrow_side(
                bb,
                (bb.total_borrows - debt) as u64,
                (bb.total_borrow_shares - pb.borrowed_shares) as u64,
            );
            let npb = pos_with_borrow(pb, (pb.borrowed_amount - debt) as u64, 0);
            let banks1 = banks.update(borrowed_asset, nbb);
            let assets1 = assets.update(borrowed_asset, npb);
            let bc = banks1[collateral_asset];
            let pc = assets1[collateral_asset];
            let seize_value = debt * prices[borrowed_asset] * ((BPS_SCALE
                + bc.liquidation_bonus_bps) as int);
            if seize_value > u128::MAX {
                (Err(ErrorCode::ArithmeticOverflow), banks, assets, lu)
            } else if prices[collateral_asset] == 0 {
                (Err(ErrorCode::DivideByZero), banks, assets, lu)
            } else {
                let seize = seize_value / (BPS_SCALE as int) / (prices[collateral_asset] as int);
                if seize > u64::MAX || seize > pc.deposited_amount {
                    (Err(ErrorCode::ArithmeticOverflow), banks, assets, lu)
                } else {
                    let burn = shares_of_ceil(
                        seize,
                        bc.total_deposits as int,
                        bc.total_deposit_shares as int,
                    );
                    if bc.total_deposits == 0 && bc.total_deposit_shares != 0 {
                        (Err(ErrorCode::DivideByZero), banks, assets, lu)
                    } else if burn > u64::MAX || seize > bc.total_deposits || burn
                        > bc.total_deposit_shares || burn > pc.deposited_shares {
                        (Err(ErrorCode::ArithmeticOverflow), banks, assets, lu)
                    } else {
                        let nbc = with_deposit_side(
                            bc,
                            (bc.total_deposits - seize) as u64,
                            (bc.total_deposit_shares - burn) as u64,
                        );
                        let npc = pos_with_deposit(
                            pc,
                            (pc.deposited_amount - seize) as u64,
                            (pc.deposited_shares - burn) as u64,
                        );
                        (
                            Ok(()),
                            banks1.update(collateral_asset, nbc),
                            assets1.update(collateral_asset, npc),
                            now,
                        )
                    }
                }
            }
        }
    }
}

/// Liquidates an under-collateralized borrower: only a position whose
/// borrowed value exceeds what its collateral tolerates at the liquidation
/// thresholds can be closed (`NotUnderCollateralized` otherwise). The
/// liquidator repays the borrower's whole debt in `borrowed_asset` and
/// receives the same value of `collateral_asset` plus that bank's
/// liquidation bonus; seizing more collateral than the borrower holds would
/// drive a balance negative and is rejected as an internal-consistency
/// error. A rejection changes nothing.
pub fn process_liquidate(
    banks: &mut Vec<Bank>,
    borrower: &mut UserPosition,
    borrowed_asset: usize,
    collateral_asset: usize,
    prices: &Vec<u64>,
    now: i64,
) -> (r: Result<(), ErrorCode>)
    requires
        old(borrower).assets@.len() == old(banks)@.len(),
        prices@.len() == old(banks)@.len(),
        borrowed_asset < old(banks)@.len(),
        collateral_asset < old(banks)@.len(),
    ensures
        ({
            let (res, nbanks, nassets, nlu) = liquidate_spec(
                old(banks)@,
                old(borrower).assets@,
                old(borrower).last_updated,
                borrowed_asset as int,
                collateral_asset as int,
                prices@,
                now,
            );
            &&& r == res
            &&& final(banks)@ == nbanks
            &&& final(borrower).assets@ == nassets
            &&& final(borrower).last_updated == nlu
        }),
        r is Err ==> final(banks)@ == old(banks)@
            && final(borrower).assets@ == old(borrower).assets@
            && final(borrower).last_updated == old(borrower).last_updated,
        (old(banks)@[borrowed_asset as int].wf()
            && old(banks)@[borrowed_asset as int].shares_dominate()
            && old(banks)@[collateral_asset as int].wf()
            && old(banks)@[collateral_asset as int].shares_dominate())
            ==> (final(banks)@[borrowed_asset as int].wf()
                && final(banks)@[borrowed_asset as int].shares_dominate()
                && final(banks)@[collateral_asset as int].wf()
                && final(banks)@[collateral_asset as int].shares_dominate()),
        forall|i: int|
            0 <= i < old(banks)@.len() && i != borrowed_asset && i != collateral_asset
                ==> final(banks)@[i] == old(banks)@[i],
{
    let liq = match is_liquidatable(borrower, banks, prices) {
        Ok(l) => l,
        Err(e) => {
            return Err(e);
        },
    };
    if !liq {
        return Err(ErrorCode::NotUnderCollateralized);
    }
    let bb: Bank = banks[borrowed_asset];
    let pb: AssetPosition = borrower.assets[borrowed_asset];
    let debt = match amount_for_shares(
        pb.borrowed_shares,
        bb.total_borrows,
        bb.total_borrow_shares,
    ) {
        Ok(v) => v,
        Err(e) => {
            return Err(e);
        },
    };
    if debt > bb.total_borrows || pb.borrowed_shares > bb.total_borrow_shares || debt
        > pb.borrowed_amount {
        return Err(ErrorCode::ArithmeticOverflow);
    }
    let nbb = Bank {
        total_deposits: bb.total_deposits,
        total_deposit_shares: bb.total_deposit_shares,
        total_borrows: bb.total_borrows - debt,
        total_borrow_shares: bb.total_borrow_shares - pb.borrowed_shares,
        max_ltv_bps: bb.max_ltv_bps,
        liquidation_threshold_bps: bb.liquidation_threshold_bps,
        liquidation_bonus_bps: bb.liquidation_bonus_bps,
    };
    let npb = AssetPosition {
        deposited_amount: pb.deposited_amount,
        deposited_shares: pb.deposited_shares,
        borrowed_amount: pb.borrowed_amount - debt,
        borrowed_shares: 0,
    };
    let bc: Bank = if collateral_asset == borrowed_asset {
        nbb
    } else {
        banks[collateral_asset]
    };
    let pc: AssetPosition = if collateral_asset == borrowed_asset {
        npb
    } else {
        borrower.assets[collateral_asset]
    };
    proof {
        lemma_u64_mul_fits(debt as int, prices@[borrowed_asset as int] as int);
    }
    let num: u128 = (debt as u128) * (prices[borrowed_asset] as u128);
    let factor: u128 = (BPS_SCALE as u128) + (bc.liquidation_bonus_bps as u128);
    let seize_value: u128 = match checked_mul_u128(num, factor) {
        Some(v) => v,
        None => {
            return Err(ErrorCode::ArithmeticOverflow);
        },
    };
    if prices[collateral_asset] == 0 {
        return Err(ErrorCode::DivideByZero);
    }
    let seize128: u128 = seize_value / (BPS_SCALE as u128) / (prices[collateral_asset] as u128);
    if seize128 > u64::MAX as u128 {
        return Err(ErrorCode::ArithmeticOverflow);
    }
    let seize: u64 = seize128 as u64;
    if seize > pc.deposited_amount {
        return Err(ErrorCode::ArithmeticOverflow);
    }
    let burn = match shares_for_amount_ceil(seize, bc.total_deposits, bc.total_deposit_shares) {
        Ok(v) => v,
        Err(e) => {
            return Err(e);
        },
    };
    if seize > bc.total_deposits || burn > bc.total_deposit_shares || burn > pc.deposited_shares {
        return Err(ErrorCode::ArithmeticOverflow);
    }
    let nbc = Bank {
        total_deposits: bc.total_deposits - seize,
        total_deposit_shares: bc.total_deposit_shares - burn,
        total_borrows: bc.total_borrows,
        total_borrow_shares: bc.total_borrow_shares,
        max_ltv_bps: bc.max_ltv_bps,
        liquidation_threshold_bps: bc.liquidation_threshold_bps,
        liquidation_bonus_bps: bc.liquidation_bonus_bps,
    };
    let npc = AssetPosition {
        deposited_amount: pc.deposited_amount - seize,
        deposited_shares: pc.deposited_shares - burn,
        borrowed_amount: pc.borrowed_amount,
        borrowed_shares: pc.borrowed_shares,
    };
    proof {
        let bi = borrowed_asset as int;
        let ci = collateral_asset as int;
        if old(banks)@[bi].wf() && old(banks)@[bi].shares_dominate() && old(banks)@[ci].wf()
            && old(banks)@[ci].shares_dominate() {
            let x = pb.borrowed_shares as int;
            let bt = bb.total_borrows as int;
            let bs = bb.total_borrow_shares as int;
            if bs != 0 {
                lemma_floor_props(x, bs, bt);
                assert(amount_of(x, bt, bs) == shares_of(x, bs, bt));
            }
            assert(nbb.wf());
            assert(nbb.shares_dominate());
            let td = bc.total_deposits as int;
            let ts = bc.total_deposit_shares as int;
            if td != 0 {
                lemma_ceil_props(seize as int, td, ts);
            }
            assert(nbc.wf());
            assert(nbc.shares_dominate());
        }
    }
    banks.set(borrowed_asset, nbb);
    banks.set(collateral_asset, nbc);
    borrower.assets.set(borrowed_asset, npb);
    borrower.assets.set(collateral_asset, npc);
    borrower.last_updated = now;
    Ok(())
}

} // verus!
