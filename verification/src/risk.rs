use vstd::prelude::*;

verus! {

use crate::error::ErrorCode;
use crate::math::{amount_of, lemma_u64_mul_fits, pool_amount_of};
use crate::state::{AssetPosition, Bank, UserPosition, BPS_SCALE};
use vstd::arithmetic::div_mod::{
    lemma_div_pos_is_pos,
    lemma_fundamental_div_mod,
    lemma_mod_division_less_than_divisor,
};

/// The risk weight the evaluator applies to a bank's collateral: the
/// liquidation threshold when testing liquidation eligibility, the
/// loan-to-value limit when testing new exposure.
pub open spec fn weight_bps(b: Bank, liq: bool) -> int {
    if liq {
        b.liquidation_threshold_bps as int
    } else {
        b.max_ltv_bps as int
    }
}

/// Value (in the common pricing unit) of the user's deposit in asset `i`:
/// the underlying amount the user's shares stand for, times the price.
pub open spec fn deposit_value_at(
    assets: Seq<AssetPosition>,
    banks: Seq<Bank>,
    prices: Seq<u64>,
    i: int,
) -> int {
    amount_of(
        assets[i].deposited_shares as int,
        banks[i].total_deposits as int,
        banks[i].total_deposit_shares as int,
    ) * prices[i]
}

/// Value of the user's borrow in asset `i`.
pub open spec fn borrow_value_at(
    assets: Seq<AssetPosition>,
    banks: Seq<Bank>,
    prices: Seq<u64>,
    i: int,
) -> int {
    amount_of(
        assets[i].borrowed_shares as int,
        banks[i].total_borrows as int,
        banks[i].total_borrow_shares as int,
    ) * prices[i]
}

/// Sum of the user's deposit values over the first `n` assets.
pub open spec fn collateral_value_prefix(
    assets: Seq<AssetPosition>,
    banks: Seq<Bank>,
    prices: Seq<u64>,
    n: int,
) -> int
    decreases n,
{
    if n <= 0 {
        0
    } else {
        collateral_value_prefix(assets, banks, prices, n - 1) + deposit_value_at(
            assets,
            banks,
            prices,
            n - 1,
        )
    }
}

/// Sum of the user's borrow values over the first `n` assets.
pub open spec fn borrowed_value_prefix(
    assets: Seq<AssetPosition>,
    banks: Seq<Bank>,
    prices: Seq<u64>,
    n: int,
) -> int
    decreases n,
{
    if n <= 0 {
        0
    } else {
        borrowed_value_prefix(assets, banks, prices, n - 1) + borrow_value_at(
            assets,
            banks,
            prices,
            n - 1,
        )
    }
}

/// Sum over the first `n` assets of the deposit value weighted by the asset's
/// risk parameter, in `BPS_SCALE`ths of a value unit.
pub open spec fn capacity_prefix(
    assets: Seq<AssetPosition>,
    banks: Seq<Bank>,
    prices: Seq<u64>,
    liq: bool,
    n: int,
) -> int
    decreases n,
{
    if n <= 0 {
        0
    } else {
        capacity_prefix(assets, banks, prices, liq, n - 1) + deposit_value_at(
            assets,
            banks,
            prices,
            n - 1,
        ) * weight_bps(banks[n - 1], liq)
    }
}

/// The user's total collateral value across all assets.
pub open spec fn collateral_value_of(
    assets: Seq<AssetPosition>,
    banks: Seq<Bank>,
    prices: Seq<u64>,
) -> int {
    collateral_value_prefix(assets, banks, prices, assets.len() as int)
}

/// The user's total borrowed value across all assets.
pub open spec fn borrowed_value_of(
    assets: Seq<AssetPosition>,
    banks: Seq<Bank>,
    prices: Seq<u64>,
) -> int {
    borrowed_value_prefix(assets, banks, prices, assets.len() as int)
}

/// The user's weighted borrow capacity, scaled by `BPS_SCALE`.
pub open spec fn capacity_of(
    assets: Seq<AssetPosition>,
    banks: Seq<Bank>,
    prices: Seq<u64>,
    liq: bool,
) -> int {
    capacity_prefix(assets, banks, prices, liq, assets.len() as int)
}

/// The position borrows more value than its asset-weighted loan-to-value
/// limits allow.
pub open spec fn over_ltv(assets: Seq<AssetPosition>, banks: Seq<Bank>, prices: Seq<u64>) -> bool {
    borrowed_value_of(assets, banks, prices) * (BPS_SCALE as int) > capacity_of(
        assets,
        banks,
        prices,
        false,
    )
}

/// The position borrows more value than its asset-weighted liquidation
/// thresholds tolerate, so a liquidator may close it.
pub open spec fn liquidatable(
    assets: Seq<AssetPosition>,
    banks: Seq<Bank>,
    prices: Seq<u64>,
) -> bool {
    borrowed_value_of(assets, banks, prices) * (BPS_SCALE as int) > capacity_of(
        assets,
        banks,
        prices,
        true,
    )
}

/// Every per-asset underlying amount among the first `n` fits in a `u64`.
pub open spec fn amounts_fit_to(assets: Seq<AssetPosition>, banks: Seq<Bank>, n: int) -> bool {
    forall|i: int|
        0 <= i < n ==> {
            &&& amount_of(
                (#[trigger] assets[i]).deposited_shares as int,
                banks[i].total_deposits as int,
                banks[i].total_deposit_shares as int,
            ) <= u64::MAX
            &&& amount_of(
                assets[i].borrowed_shares as int,
                banks[i].total_borrows as int,
                banks[i].total_borrow_shares as int,
            ) <= u64::MAX
        }
}

/// The whole risk evaluation stays within machine bounds: each underlying
/// amount fits a `u64`, and the weighted capacity and the scaled borrowed
/// value fit a `u128`. When this fails, the evaluator reports
/// `ArithmeticOverflow` instead of a verdict.
pub open spec fn risk_fits(
    assets: Seq<AssetPosition>,
    banks: Seq<Bank>,
    prices: Seq<u64>,
    liq: bool,
) -> bool {
    &&& amounts_fit_to(assets, banks, assets.len() as int)
    &&& capacity_of(assets, banks, prices, liq) <= u128::MAX
    &&& borrowed_value_of(assets, banks, prices) * (BPS_SCALE as int) <= u128::MAX
}

/// Bounds for the plain (unweighted) collateral sum.
pub open spec fn collateral_value_fits(
    assets: Seq<AssetPosition>,
    banks: Seq<Bank>,
    prices: Seq<u64>,
) -> bool {
    &&& forall|i: int|
        0 <= i < assets.len() ==> amount_of(
            (#[trigger] assets[i]).deposited_shares as int,
            banks[i].total_deposits as int,
            banks[i].total_deposit_shares as int,
        ) <= u64::MAX
    &&& collateral_value_of(assets, banks, prices) <= u128::MAX
}

/// Bounds for the plain (unweighted) borrowed sum.
pub open spec fn borrowed_value_fits(
    assets: Seq<AssetPosition>,
    banks: Seq<Bank>,
    prices: Seq<u64>,
) -> bool {
    &&& forall|i: int|
        0 <= i < assets.len() ==> amount_of(
            (#[trigger] assets[i]).borrowed_shares as int,
            banks[i].total_borrows as int,
            banks[i].total_borrow_shares as int,
        ) <= u64::MAX
    &&& borrowed_value_of(assets, banks, prices) <= u128::MAX
}

pub proof fn lemma_amount_of_nonneg(shares: int, total_amount: int, total_shares: int)
    requires
        0 <= shares,
        0 <= total_amount,
        0 <= total_shares,
    ensures
        amount_of(shares, total_amount, total_shares) >= 0,
{
    if total_shares != 0 {
        assert(shares * total_amount >= 0) by (nonlinear_arith)
            requires
                0 <= shares,
                0 <= total_amount,
        ;
        lemma_div_pos_is_pos(shares * total_amount, total_shares);
    }
}

pub proof fn lemma_deposit_value_at_nonneg(
    assets: Seq<AssetPosition>,
    banks: Seq<Bank>,
    prices: Seq<u64>,
    i: int,
)
    requires
        0 <= i < assets.len(),
        banks.len() == assets.len(),
        prices.len() == assets.len(),
    ensures
        deposit_value_at(assets, banks, prices, i) >= 0,
        deposit_value_at(assets, banks, prices, i) * weight_bps(banks[i], true) >= 0,
        deposit_value_at(assets, banks, prices, i) * weight_bps(banks[i], false) >= 0,
{
    lemma_amount_of_nonneg(
        assets[i].deposited_shares as int,
        banks[i].total_deposits as int,
        banks[i].total_deposit_shares as int,
    );
    let a = amount_of(
        assets[i].deposited_shares as int,
        banks[i].total_deposits as int,
        banks[i].total_deposit_shares as int,
    );
    assert(a * prices[i] >= 0) by (nonlinear_arith)
        requires
            a >= 0,
            prices[i] >= 0,
    ;
    let v = a * prices[i];
    assert(v * weight_bps(banks[i], true) >= 0 && v * weight_bps(banks[i], false) >= 0)
        by (nonlinear_arith)
        requires
            v >= 0,
            weight_bps(banks[i], true) >= 0,
            weight_bps(banks[i], false) >= 0,
    ;
}

pub proof fn lemma_borrow_value_at_nonneg(
    assets: Seq<AssetPosition>,
    banks: Seq<Bank>,
    prices: Seq<u64>,
    i: int,
)
    requires
        0 <= i < assets.len(),
        banks.len() == assets.len(),
        prices.len() == assets.len(),
    ensures
        borrow_value_at(assets, banks, prices, i) >= 0,
{
    lemma_amount_of_nonneg(
        assets[i].borrowed_shares as int,
        banks[i].total_borrows as int,
        banks[i].total_borrow_shares as int,
    );
    let a = amount_of(
        assets[i].borrowed_shares as int,
        banks[i].total_borrows as int,
        banks[i].total_borrow_shares as int,
    );
    assert(a * prices[i] >= 0) by (nonlinear_arith)
        requires
            a >= 0,
            prices[i] >= 0,
    ;
}

pub proof fn lemma_capacity_prefix_mono(
    assets: Seq<AssetPosition>,
    banks: Seq<Bank>,
    prices: Seq<u64>,
    liq: bool,
    i: int,
    j: int,
)
    requires
        0 <= i <= j,
        j <= assets.len(),
        banks.len() == assets.len(),
        prices.len() == assets.len(),
    ensures
        capacity_prefix(assets, banks, prices, liq, i) <= capacity_prefix(
            assets,
            banks,
            prices,
            liq,
            j,
        ),
    decreases j,
{
    if i < j {
        lemma_capacity_prefix_mono(assets, banks, prices, liq, i, j - 1);
        lemma_deposit_value_at_nonneg(assets, banks, prices, j - 1);
    }
}

pub proof fn lemma_collateral_prefix_mono(
    assets: Seq<AssetPosition>,
    banks: Seq<Bank>,
    prices: Seq<u64>,
    i: int,
    j: int,
)
    requires
        0 <= i <= j,
        j <= assets.len(),
        banks.len() == assets.len(),
        prices.len() == assets.len(),
    ensures
        collateral_value_prefix(assets, banks, prices, i) <= collateral_value_prefix(
            assets,
            banks,
            prices,
            j,
        ),
    decreases j,
{
    if i < j {
        lemma_collateral_prefix_mono(assets, banks, prices, i, j - 1);
        lemma_deposit_value_at_nonneg(assets, banks, prices, j - 1);
    }
}

pub proof fn lemma_borrowed_prefix_mono(
    assets: Seq<AssetPosition>,
    banks: Seq<Bank>,
    prices: Seq<u64>,
    i: int,
    j: int,
)
    requires
        0 <= i <= j,
        j <= assets.len(),
        banks.len() == assets.len(),
        prices.len() == assets.len(),
    ensures
        borrowed_value_prefix(assets, banks, prices, i) <= borrowed_value_prefix(
            assets,
            banks,
            prices,
            j,
        ),
    decreases j,
{
    if i < j {
        lemma_borrowed_prefix_mono(assets, banks, prices, i, j - 1);
        lemma_borrow_value_at_nonneg(assets, banks, prices, j - 1);
    }
}

pub(crate) fn checked_mul_u128(a: u128, b: u128) -> (r: Option<u128>)
    ensures
        match r {
            Some(v) => a * b <= u128::MAX && v as int == a * b,
            None => a * b > u128::MAX,
        },
{
    if a == 0 {
        assert(0int * b == 0) by (nonlinear_arith);
        Some(0)
    } else {
        let q: u128 = u128::MAX / a;
        proof {
            lemma_fundamental_div_mod(u128::MAX as int, a as int);
            lemma_mod_division_less_than_divisor(u128::MAX as int, a as int);
        }
        if b <= q {
            proof {
                assert(a * b <= a * (q as int)) by (nonlinear_arith)
                    requires
                        0 < a,
                        0 <= b <= q,
                ;
                assert(a * (q as int) <= u128::MAX) by {
                    assert(u128::MAX == a * (q as int) + (u128::MAX as int) % (a as int));
                }
            }
            Some(a * b)
        } else {
            proof {
                assert(a * b >= a * (q as int + 1)) by (nonlinear_arith)
                    requires
                        0 < a,
                        b >= q + 1,
                ;
                assert(a * (q as int + 1) == a * (q as int) + a) by (nonlinear_arith);
                assert(a * (q as int) + a > u128::MAX) by {
                    assert(u128::MAX == a * (q as int) + (u128::MAX as int) % (a as int));
                }
            }
            None
        }
    }
}

/// One pass over all assets computing the weighted capacity and the scaled
/// borrowed value, optionally with asset `idx`'s position and bank replaced
/// by a simulated post-state.
fn risk_eval(
    assets: &Vec<AssetPosition>,
    banks: &Vec<Bank>,
    prices: &Vec<u64>,
    liq: bool,
    use_override: bool,
    idx: usize,
    p_o: AssetPosition,
    b_o: Bank,
) -> (r: Result<(u128, u128), ErrorCode>)
    requires
        assets@.len() == banks@.len(),
        prices@.len() == banks@.len(),
        use_override ==> idx < assets@.len(),
    ensures
        ({
            let sa = if use_override {
                assets@.update(idx as int, p_o)
            } else {
                assets@
            };
            let sb = if use_override {
                banks@.update(idx as int, b_o)
            } else {
                banks@
            };
            match r {
                Ok(v) => {
                    &&& risk_fits(sa, sb, prices@, liq)
                    &&& v.0 as int == capacity_of(sa, sb, prices@, liq)
                    &&& v.1 as int == borrowed_value_of(sa, sb, prices@) * (BPS_SCALE as int)
                },
                Err(e) => e == ErrorCode::ArithmeticOverflow && !risk_fits(sa, sb, prices@, liq),
            }
        }),
{
    let ghost sa = if use_override {
        assets@.update(idx as int, p_o)
    } else {
        assets@
    };
    let ghost sb = if use_override {
        banks@.update(idx as int, b_o)
    } else {
        banks@
    };
    let n = assets.len();
    let mut cap: u128 = 0;
    let mut bv: u128 = 0;
    let mut i: usize = 0;
    while i < n
        invariant
            n == assets@.len(),
            assets@.len() == banks@.len(),
            prices@.len() == banks@.len(),
            use_override ==> idx < n,
            sa == (if use_override {
                assets@.update(idx as int, p_o)
            } else {
                assets@
            }),
            sb == (if use_override {
                banks@.update(idx as int, b_o)
            } else {
                banks@
            }),
            0 <= i <= n,
            cap as int == capacity_prefix(sa, sb, prices@, liq, i as int),
            bv as int == borrowed_value_prefix(sa, sb, prices@, i as int),
            amounts_fit_to(sa, sb, i as int),
        decreases n - i,
    {
        let p: AssetPosition = if use_override && i == idx {
            p_o
        } else {
            assets[i]
        };
        let b: Bank = if use_override && i == idx {
            b_o
        } else {
            banks[i]
        };
        proof {
            assert(p == sa[i as int]);
            assert(b == sb[i as int]);
        }
        let damt = match pool_amount_of(
            p.deposited_shares,
            b.total_deposits,
            b.total_deposit_shares,
        ) {
            Ok(v) => v,
            Err(_) => {
                return Err(ErrorCode::ArithmeticOverflow);
            },
        };
        let bamt = match pool_amount_of(p.borrowed_shares, b.total_borrows, b.total_borrow_shares) {
            Ok(v) => v,
            Err(_) => {
                return Err(ErrorCode::ArithmeticOverflow);
            },
        };
        proof {
            lemma_u64_mul_fits(damt as int, prices@[i as int] as int);
            lemma_u64_mul_fits(bamt as int, prices@[i as int] as int);
        }
        let dv: u128 = (damt as u128) * (prices[i] as u128);
        let w: u128 = if liq {
            b.liquidation_threshold_bps as u128
        } else {
            b.max_ltv_bps as u128
        };
        let term: u128 = match checked_mul_u128(dv, w) {
            Some(t) => t,
            None => {
                proof {
                    lemma_capacity_prefix_mono(sa, sb, prices@, liq, i as int + 1, n as int);
                    assert(cap as int >= 0);
                }
                return Err(ErrorCode::ArithmeticOverflow);
            },
        };
        if term > u128::MAX - cap {
            proof {
                lemma_capacity_prefix_mono(sa, sb, prices@, liq, i as int + 1, n as int);
            }
            return Err(ErrorCode::ArithmeticOverflow);
        }
        cap = cap + term;
        let bvt: u128 = (bamt as u128) * (prices[i] as u128);
        if bvt > u128::MAX - bv {
            proof {
                lemma_borrowed_prefix_mono(sa, sb, prices@, i as int + 1, n as int);
                let total = borrowed_value_of(sa, sb, prices@);
                assert(total * (BPS_SCALE as int) >= total * 1) by (nonlinear_arith)
                    requires
                        total > u128::MAX,
                ;
            }
            return Err(ErrorCode::ArithmeticOverflow);
        }
        bv = bv + bvt;
        i = i + 1;
    }
    let scaled = match checked_mul_u128(bv, BPS_SCALE as u128) {
        Some(s) => s,
        None => {
            return Err(ErrorCode::ArithmeticOverflow);
        },
    };
    Ok((cap, scaled))
}

/// Whether the user's borrowed value exceeds what their collateral supports
/// at each asset's loan-to-value limit.
pub fn is_over_ltv(user: &UserPosition, banks: &Vec<Bank>, prices: &Vec<u64>) -> (r: Result<
    bool,
    ErrorCode,
>)
    requires
        user.assets@.len() == banks@.len(),
        prices@.len() == banks@.len(),
    ensures
        match r {
            Ok(o) => risk_fits(user.assets@, banks@, prices@, false) && o == over_ltv(
                user.assets@,
                banks@,
                prices@,
            ),
            Err(e) => e == ErrorCode::ArithmeticOverflow && !risk_fits(
                user.assets@,
                banks@,
                prices@,
                false,
            ),
        },
{
    let dummy_p = AssetPosition::empty();
    let dummy_b = Bank::new(1, 1, 0);
    match risk_eval(&user.assets, banks, prices, false, false, 0, dummy_p, dummy_b) {
        Ok((cap, scaled)) => Ok(scaled > cap),
        Err(e) => Err(e),
    }
}

/// Whether the user's borrowed value exceeds what their collateral tolerates
/// at each asset's liquidation threshold.
pub fn is_liquidatable(user: &UserPosition, banks: &Vec<Bank>, prices: &Vec<u64>) -> (r: Result<
    bool,
    ErrorCode,
>)
    requires
        user.assets@.len() == banks@.len(),
        prices@.len() == banks@.len(),
    ensures
        match r {
            Ok(o) => risk_fits(user.assets@, banks@, prices@, true) && o == liquidatable(
                user.assets@,
                banks@,
                prices@,
            ),
            Err(e) => e == ErrorCode::ArithmeticOverflow && !risk_fits(
                user.assets@,
                banks@,
                prices@,
                true,
            ),
        },
{
    let dummy_p = AssetPosition::empty();
    let dummy_b = Bank::new(1, 1, 0);
    match risk_eval(&user.assets, banks, prices, true, false, 0, dummy_p, dummy_b) {
        Ok((cap, scaled)) => Ok(scaled > cap),
        Err(e) => Err(e),
    }
}

/// The simulated-state check behind withdrawals and borrows: evaluates
/// `over_ltv` as if asset `idx` already held the candidate position and bank.
pub(crate) fn over_ltv_with(
    assets: &Vec<AssetPosition>,
    banks: &Vec<Bank>,
    prices: &Vec<u64>,
    idx: usize,
    p_o: AssetPosition,
    b_o: Bank,
) -> (r: Result<bool, ErrorCode>)
    requires
        assets@.len() == banks@.len(),
        prices@.len() == banks@.len(),
        idx < assets@.len(),
    ensures
        ({
            let sa = assets@.update(idx as int, p_o);
            let sb = banks@.update(idx as int, b_o);
            match r {
                Ok(o) => risk_fits(sa, sb, prices@, false) && o == over_ltv(sa, sb, prices@),
                Err(e) => e == ErrorCode::ArithmeticOverflow && !risk_fits(
                    sa,
                    sb,
                    prices@,
                    false,
                ),
            }
        }),
{
    match risk_eval(assets, banks, prices, false, true, idx, p_o, b_o) {
        Ok((cap, scaled)) => Ok(scaled > cap),
        Err(e) => Err(e),
    }
}

/// The user's total collateral value, summed over every asset at current
/// prices.
pub fn collateral_value(user: &UserPosition, banks: &Vec<Bank>, prices: &Vec<u64>) -> (r: Result<
    u128,
    ErrorCode,
>)
    requires
        user.assets@.len() == banks@.len(),
        prices@.len() == banks@.len(),
    ensures
        match r {
            Ok(v) => collateral_value_fits(user.assets@, banks@, prices@) && v as int
                == collateral_value_of(user.assets@, banks@, prices@),
            Err(e) => e == ErrorCode::ArithmeticOverflow && !collateral_value_fits(
                user.assets@,
                banks@,
                prices@,
            ),
        },
{
    let n = user.assets.len();
    let mut acc: u128 = 0;
    let mut i: usize = 0;
    while i < n
        invariant
            n == user.assets@.len(),
            user.assets@.len() == banks@.len(),
            prices@.len() == banks@.len(),
            0 <= i <= n,
            acc as int == collateral_value_prefix(user.assets@, banks@, prices@, i as int),
            forall|j: int|
                0 <= j < i ==> amount_of(
                    (#[trigger] user.assets@[j]).deposited_shares as int,
                    banks@[j].total_deposits as int,
                    banks@[j].total_deposit_shares as int,
                ) <= u64::MAX,
        decreases n - i,
    {
        let p = user.assets[i];
        let b = banks[i];
        let damt = match pool_amount_of(
            p.deposited_shares,
            b.total_deposits,
            b.total_deposit_shares,
        ) {
            Ok(v) => v,
            Err(_) => {
                return Err(ErrorCode::ArithmeticOverflow);
            },
        };
        proof {
            lemma_u64_mul_fits(damt as int, prices@[i as int] as int);
        }
        let dv: u128 = (damt as u128) * (prices[i] as u128);
        if dv > u128::MAX - acc {
            proof {
                lemma_collateral_prefix_mono(user.assets@, banks@, prices@, i as int + 1, n as int);
            }
            return Err(ErrorCode::ArithmeticOverflow);
        }
        acc = acc + dv;
        i = i + 1;
    }
    Ok(acc)
}

/// The user's total borrowed value, summed over every asset at current
/// prices.
pub fn borrowed_value(user: &UserPosition, banks: &Vec<Bank>, prices: &Vec<u64>) -> (r: Result<
    u128,
    ErrorCode,
>)
    requires
        user.assets@.len() == banks@.len(),
        prices@.len() == banks@.len(),
    ensures
        match r {
            Ok(v) => borrowed_value_fits(user.assets@, banks@, prices@) && v as int
                == borrowed_value_of(user.assets@, banks@, prices@),
            Err(e) => e == ErrorCode::ArithmeticOverflow && !borrowed_value_fits(
                user.assets@,
                banks@,
                prices@,
            ),
        },
{
    let n = user.assets.len();
    let mut acc: u128 = 0;
    let mut i: usize = 0;
    while i < n
        invariant
            n == user.assets@.len(),
            user.assets@.len() == banks@.len(),
            prices@.len() == banks@.len(),
            0 <= i <= n,
            acc as int == borrowed_value_prefix(user.assets@, banks@, prices@, i as int),
            forall|j: int|
                0 <= j < i ==> amount_of(
                    (#[trigger] user.assets@[j]).borrowed_shares as int,
                    banks@[j].total_borrows as int,
                    banks@[j].total_borrow_shares as int,
                ) <= u64::MAX,
        decreases n - i,
    {
        let p = user.assets[i];
        let b = banks[i];
        let bamt = match pool_amount_of(p.borrowed_shares, b.total_borrows, b.total_borrow_shares) {
            Ok(v) => v,
            Err(_) => {
                return Err(ErrorCode::ArithmeticOverflow);
            },
        };
        proof {
            lemma_u64_mul_fits(bamt as int, prices@[i as int] as int);
        }
        let bvt: u128 = (bamt as u128) * (prices[i] as u128);
        if bvt > u128::MAX - acc {
            proof {
                lemma_borrowed_prefix_mono(user.assets@, banks@, prices@, i as int + 1, n as int);
            }
            return Err(ErrorCode::ArithmeticOverflow);
        }
        acc = acc + bvt;
        i = i + 1;
    }
    Ok(acc)
}

/// The largest additional value the user may still borrow: the weighted
/// capacity (brought back to value units, rounded down) less what is already
/// borrowed, floored at zero.
pub open spec fn max_borrowable_of(
    assets: Seq<AssetPosition>,
    banks: Seq<Bank>,
    prices: Seq<u64>,
) -> int {
    let limit = capacity_of(assets, banks, prices, false) / (BPS_SCALE as int);
    let bv = borrowed_value_of(assets, banks, prices);
    if bv >= limit {
        0
    } else {
        limit - bv
    }
}

/// How much more value the user may borrow before `is_over_ltv` would hold.
pub fn max_borrowable(user: &UserPosition, banks: &Vec<Bank>, prices: &Vec<u64>) -> (r: Result<
    u128,
    ErrorCode,
>)
    requires
        user.assets@.len() == banks@.len(),
        prices@.len() == banks@.len(),
    ensures
        match r {
            Ok(v) => risk_fits(user.assets@, banks@, prices@, false) && v as int
                == max_borrowable_of(user.assets@, banks@, prices@),
            Err(e) => e == ErrorCode::ArithmeticOverflow && !risk_fits(
                user.assets@,
                banks@,
                prices@,
                false,
            ),
        },
{
    let dummy_p = AssetPosition::empty();
    let dummy_b = Bank::new(1, 1, 0);
    match risk_eval(&user.assets, banks, prices, false, false, 0, dummy_p, dummy_b) {
        Ok((cap, scaled)) => {
            let limit: u128 = cap / (BPS_SCALE as u128);
            let bvv: u128 = scaled / (BPS_SCALE as u128);
            proof {
                let bv = borrowed_value_of(user.assets@, banks@, prices@);
                vstd::arithmetic::div_mod::lemma_div_multiples_vanish(bv, BPS_SCALE as int);
                assert(bv * (BPS_SCALE as int) == (BPS_SCALE as int) * bv) by (nonlinear_arith);
            }
            if bvv >= limit {
                Ok(0)
            } else {
                Ok(limit - bvv)
            }
        },
        Err(e) => Err(e),
    }
}

} // verus!
