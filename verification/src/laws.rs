use vstd::prelude::*;

verus! {

use crate::engine::{borrow_spec, deposit_spec, repay_spec, withdraw_spec};
use crate::math::{shares_of, shares_of_ceil};
use crate::state::{AssetPosition, Bank, UserPosition};
use vstd::arithmetic::div_mod::{lemma_div_by_multiple, lemma_div_multiples_vanish_fancy};

/// Sum over all users of the deposit shares they hold in `asset`.
pub open spec fn total_deposit_shares_of(users: Seq<UserPosition>, asset: int) -> int
    decreases users.len(),
{
    if users.len() == 0 {
        0
    } else {
        total_deposit_shares_of(users.drop_last(), asset)
            + users.last().assets@[asset].deposited_shares
    }
}

/// Sum over all users of the borrow shares they hold in `asset`.
pub open spec fn total_borrow_shares_of(users: Seq<UserPosition>, asset: int) -> int
    decreases users.len(),
{
    if users.len() == 0 {
        0
    } else {
        total_borrow_shares_of(users.drop_last(), asset)
            + users.last().assets@[asset].borrowed_shares
    }
}

/// Replacing one user changes the deposit-share sum by exactly that user's
/// share delta.
pub proof fn lemma_deposit_shares_sum_update(
    users: Seq<UserPosition>,
    i: int,
    u2: UserPosition,
    asset: int,
)
    requires
        0 <= i < users.len(),
    ensures
        total_deposit_shares_of(users.update(i, u2), asset) == total_deposit_shares_of(
            users,
            asset,
        ) - users[i].assets@[asset].deposited_shares + u2.assets@[asset].deposited_shares,
    decreases users.len(),
{
    let upd = users.update(i, u2);
    if i == users.len() - 1 {
        assert(upd.drop_last() =~= users.drop_last());
    } else {
        assert(upd.drop_last() =~= users.drop_last().update(i, u2));
        lemma_deposit_shares_sum_update(users.drop_last(), i, u2, asset);
    }
}

/// Replacing one user changes the borrow-share sum by exactly that user's
/// share delta.
pub proof fn lemma_borrow_shares_sum_update(
    users: Seq<UserPosition>,
    i: int,
    u2: UserPosition,
    asset: int,
)
    requires
        0 <= i < users.len(),
    ensures
        total_borrow_shares_of(users.update(i, u2), asset) == total_borrow_shares_of(users, asset)
            - users[i].assets@[asset].borrowed_shares + u2.assets@[asset].borrowed_shares,
    decreases users.len(),
{
    let upd = users.update(i, u2);
    if i == users.len() - 1 {
        assert(upd.drop_last() =~= users.drop_last());
    } else {
        assert(upd.drop_last() =~= users.drop_last().update(i, u2));
        lemma_borrow_shares_sum_update(users.drop_last(), i, u2, asset);
    }
}

/// Global deposit accounting: when a bank's total deposit shares equal the
/// sum of every user's deposit shares for that asset, any operation that
/// rewrites one user and moves the bank's total by the same delta as that
/// user's shares keeps the sum and the total equal.
pub proof fn lemma_global_deposit_shares(
    users: Seq<UserPosition>,
    i: int,
    u2: UserPosition,
    asset: int,
    ts_old: int,
    ts_new: int,
)
    requires
        0 <= i < users.len(),
        total_deposit_shares_of(users, asset) == ts_old,
        ts_new - ts_old == u2.assets@[asset].deposited_shares
            - users[i].assets@[asset].deposited_shares,
    ensures
        total_deposit_shares_of(users.update(i, u2), asset) == ts_new,
{
    lemma_deposit_shares_sum_update(users, i, u2, asset);
}

/// Global borrow accounting, the borrow-side counterpart of
/// `lemma_global_deposit_shares`.
pub proof fn lemma_global_borrow_shares(
    users: Seq<UserPosition>,
    i: int,
    u2: UserPosition,
    asset: int,
    tbs_old: int,
    tbs_new: int,
)
    requires
        0 <= i < users.len(),
        total_borrow_shares_of(users, asset) == tbs_old,
        tbs_new - tbs_old == u2.assets@[asset].borrowed_shares
            - users[i].assets@[asset].borrowed_shares,
    ensures
        total_borrow_shares_of(users.update(i, u2), asset) == tbs_new,
{
    lemma_borrow_shares_sum_update(users, i, u2, asset);
}

/// A successful deposit keeps the bank's total deposit shares equal to the
/// sum of all users' deposit shares: bank and depositor gain exactly the same
/// newly minted shares.
pub proof fn lemma_deposit_preserves_global_shares(
    users: Seq<UserPosition>,
    i: int,
    u2: UserPosition,
    asset: int,
    b: Bank,
    amount: u64,
    now: i64,
)
    requires
        0 <= i < users.len(),
        0 <= asset < users[i].assets@.len(),
        total_deposit_shares_of(users, asset) == b.total_deposit_shares,
        deposit_spec(b, users[i].assets@[asset], users[i].last_updated, amount, now).0 is Ok,
        u2.assets@ == users[i].assets@.update(
            asset,
            deposit_spec(b, users[i].assets@[asset], users[i].last_updated, amount, now).2,
        ),
    ensures
        total_deposit_shares_of(users.update(i, u2), asset) == deposit_spec(
            b,
            users[i].assets@[asset],
            users[i].last_updated,
            amount,
            now,
        ).1.total_deposit_shares,
{
    let (_res, nb, _np, _nlu) = deposit_spec(
        b,
        users[i].assets@[asset],
        users[i].last_updated,
        amount,
        now,
    );
    lemma_global_deposit_shares(
        users,
        i,
        u2,
        asset,
        b.total_deposit_shares as int,
        nb.total_deposit_shares as int,
    );
}

/// A successful borrow keeps the bank's total borrow shares equal to the sum
/// of all users' borrow shares.
pub proof fn lemma_borrow_preserves_global_shares(
    users: Seq<UserPosition>,
    i: int,
    u2: UserPosition,
    asset: int,
    banks: Seq<Bank>,
    amount: u64,
    prices: Seq<u64>,
    now: i64,
)
    requires
        0 <= i < users.len(),
        0 <= asset < users[i].assets@.len(),
        asset < banks.len(),
        total_borrow_shares_of(users, asset) == banks[asset].total_borrow_shares,
        borrow_spec(
            banks,
            users[i].assets@,
            users[i].last_updated,
            asset,
            amount,
            prices,
            now,
        ).0 is Ok,
        u2.assets@ == borrow_spec(
            banks,
            users[i].assets@,
            users[i].last_updated,
            asset,
            amount,
            prices,
            now,
        ).2,
    ensures
        total_borrow_shares_of(users.update(i, u2), asset) == borrow_spec(
            banks,
            users[i].assets@,
            users[i].last_updated,
            asset,
            amount,
            prices,
            now,
        ).1[asset].total_borrow_shares,
{
    let (_res, nbanks, _nassets, _nlu) = borrow_spec(
        banks,
        users[i].assets@,
        users[i].last_updated,
        asset,
        amount,
        prices,
        now,
    );
    lemma_global_borrow_shares(
        users,
        i,
        u2,
        asset,
        banks[asset].total_borrow_shares as int,
        nbanks[asset].total_borrow_shares as int,
    );
}

/// A successful withdrawal keeps the bank's total deposit shares equal to
/// the sum of all users' deposit shares: bank and withdrawer burn exactly the
/// same shares.
pub proof fn lemma_withdraw_preserves_global_shares(
    users: Seq<UserPosition>,
    i: int,
    u2: UserPosition,
    asset: int,
    banks: Seq<Bank>,
    amount: u64,
    prices: Seq<u64>,
    now: i64,
)
    requires
        0 <= i < users.len(),
        0 <= asset < users[i].assets@.len(),
        asset < banks.len(),
        total_deposit_shares_of(users, asset) == banks[asset].total_deposit_shares,
        withdraw_spec(
            banks,
            users[i].assets@,
            users[i].last_updated,
            asset,
            amount,
            prices,
            now,
        ).0 is Ok,
        u2.assets@ == withdraw_spec(
            banks,
            users[i].assets@,
            users[i].last_updated,
            asset,
            amount,
            prices,
            now,
        ).2,
    ensures
        total_deposit_shares_of(users.update(i, u2), asset) == withdraw_spec(
            banks,
            users[i].assets@,
            users[i].last_updated,
            asset,
            amount,
            prices,
            now,
        ).1[asset].total_deposit_shares,
{
    let (_res, nbanks, _nassets, _nlu) = withdraw_spec(
        banks,
        users[i].assets@,
        users[i].last_updated,
        asset,
        amount,
        prices,
        now,
    );
    lemma_global_deposit_shares(
        users,
        i,
        u2,
        asset,
        banks[asset].total_deposit_shares as int,
        nbanks[asset].total_deposit_shares as int,
    );
}

/// A successful repayment keeps the bank's total borrow shares equal to the
/// sum of all users' borrow shares.
pub proof fn lemma_repay_preserves_global_shares(
    users: Seq<UserPosition>,
    i: int,
    u2: UserPosition,
    asset: int,
    b: Bank,
    amount: u64,
    now: i64,
)
    requires
        0 <= i < users.len(),
        0 <= asset < users[i].assets@.len(),
        total_borrow_shares_of(users, asset) == b.total_borrow_shares,
        repay_spec(
            b,
            users[i].assets@[asset],
            users[i].last_updated,
            amount,
            now,
        ).0 is Ok,
        u2.assets@ == users[i].assets@.update(
            asset,
            repay_spec(
                b,
                users[i].assets@[asset],
                users[i].last_updated,
                amount,
                now,
            ).2,
        ),
    ensures
        total_borrow_shares_of(users.update(i, u2), asset) == repay_spec(
            b,
            users[i].assets@[asset],
            users[i].last_updated,
            amount,
            now,
        ).1.total_borrow_shares,
{
    let (_res, nb, _np, _nlu) = repay_spec(
        b,
        users[i].assets@[asset],
        users[i].last_updated,
        amount,
        now,
    );
    lemma_global_borrow_shares(
        users,
        i,
        u2,
        asset,
        b.total_borrow_shares as int,
        nb.total_borrow_shares as int,
    );
}

/// The rounding directions protect the pool on every round trip, balanced or
/// not: the shares burned to withdraw an amount straight after depositing it
/// are at least the shares that deposit minted, so rounding dust can only
/// ever accrue to the pool, never drain it.
pub proof fn lemma_withdraw_burn_covers_mint(a: int, td: int, ts: int)
    requires
        0 < a,
        0 <= td,
        0 <= ts,
    ensures
        shares_of_ceil(a, td + a, ts + shares_of(a, td, ts)) >= shares_of(a, td, ts),
{
    let s = shares_of(a, td, ts);
    if td == 0 {
        let n = a * (ts + a) + (a - 1);
        assert(a * a <= a * (ts + a)) by (nonlinear_arith)
            requires
                0 < a,
                0 <= ts,
        ;
        lemma_div_by_multiple(a, a);
        vstd::arithmetic::div_mod::lemma_div_is_ordered(a * a, n, a);
    } else {
        crate::math::lemma_mint_nonneg(a, td, ts);
        vstd::arithmetic::div_mod::lemma_fundamental_div_mod(a * ts, td);
        vstd::arithmetic::div_mod::lemma_mod_division_less_than_divisor(a * ts, td);
        assert(td * s <= a * ts);
        let d = td + a;
        let n = a * (ts + s) + (d - 1);
        assert(s * d <= n) by (nonlinear_arith)
            requires
                td * s <= a * ts,
                0 < a,
                0 < td,
                0 <= s,
                d == td + a,
                n == a * (ts + s) + (d - 1),
        ;
        lemma_div_by_multiple(s, d);
        vstd::arithmetic::div_mod::lemma_div_is_ordered(s * d, n, d);
    }
}

/// Round trip: in a pool whose deposit shares and deposits match 1:1 (as
/// every pool reached from creation by these operations does), depositing an
/// amount and then immediately withdrawing it restores the bank table and the
/// user's holdings exactly.
pub proof fn lemma_deposit_withdraw_round_trip(
    banks: Seq<Bank>,
    assets: Seq<AssetPosition>,
    lu: i64,
    asset: int,
    amount: u64,
    prices: Seq<u64>,
    t1: i64,
    t2: i64,
)
    requires
        0 <= asset < banks.len(),
        assets.len() == banks.len(),
        amount > 0,
        banks[asset].total_deposits == banks[asset].total_deposit_shares,
        deposit_spec(banks[asset], assets[asset], lu, amount, t1).0 is Ok,
        ({
            let (r1, b1, p1, l1) = deposit_spec(banks[asset], assets[asset], lu, amount, t1);
            withdraw_spec(
                banks.update(asset, b1),
                assets.update(asset, p1),
                l1,
                asset,
                amount,
                prices,
                t2,
            ).0 is Ok
        }),
    ensures
        ({
            let (r1, b1, p1, l1) = deposit_spec(banks[asset], assets[asset], lu, amount, t1);
            let (r2, banks2, assets2, l2) = withdraw_spec(
                banks.update(asset, b1),
                assets.update(asset, p1),
                l1,
                asset,
                amount,
                prices,
                t2,
            );
            banks2 == banks && assets2 == assets
        }),
{
    let b = banks[asset];
    let p = assets[asset];
    let td = b.total_deposits as int;
    let ts = b.total_deposit_shares as int;
    let a = amount as int;
    if td != 0 {
        lemma_div_by_multiple(a, td);
        assert(a * ts == a * td) by (nonlinear_arith)
            requires
                ts == td,
        ;
        assert(shares_of(a, td, ts) == a);
    }
    let (r1, b1, p1, l1) = deposit_spec(b, p, lu, amount, t1);
    assert(b1.total_deposits == td + a && b1.total_deposit_shares == ts + a);
    let t = td + a;
    lemma_div_multiples_vanish_fancy(a, t - 1, t);
    assert(a * (ts + a) == t * a) by (nonlinear_arith)
        requires
            ts == td,
            t == td + a,
    ;
    assert(shares_of_ceil(a, t, ts + a) == a);
    let (r2, banks2, assets2, l2) = withdraw_spec(
        banks.update(asset, b1),
        assets.update(asset, p1),
        l1,
        asset,
        amount,
        prices,
        t2,
    );
    assert(banks2 =~= banks);
    assert(assets2 =~= assets);
}

} // verus!
