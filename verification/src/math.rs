use vstd::prelude::*;

verus! {

use crate::error::ErrorCode;

/// Shares minted for `amount` against a pool holding `total_amount` units
/// backed by `total_shares` shares, rounded down; 1:1 when the pool is empty.
pub open spec fn shares_of(amount: int, total_amount: int, total_shares: int) -> int {
    if total_amount == 0 {
        amount
    } else {
        amount * total_shares / total_amount
    }
}

/// Shares burned for `amount`, rounded up, so that rounding never lets a
/// withdrawal leave the pool short; 1:1 when the pool is empty.
pub open spec fn shares_of_ceil(amount: int, total_amount: int, total_shares: int) -> int {
    if total_amount == 0 {
        amount
    } else {
        (amount * total_shares + (total_amount - 1)) / total_amount
    }
}

/// Underlying amount represented by `shares`, rounded down; 1:1 when no
/// shares are outstanding.
pub open spec fn amount_of(shares: int, total_amount: int, total_shares: int) -> int {
    if total_shares == 0 {
        shares
    } else {
        shares * total_amount / total_shares
    }
}

/// Minting rounds down, so it never mints negative shares.
pub proof fn lemma_mint_nonneg(a: int, ta: int, ts: int)
    requires
        0 <= a,
        0 < ta,
        0 <= ts,
    ensures
        shares_of(a, ta, ts) >= 0,
{
    assert(a * ts >= 0) by (nonlinear_arith)
        requires
            0 <= a,
            0 <= ts,
    ;
    vstd::arithmetic::div_mod::lemma_div_pos_is_pos(a * ts, ta);
}

/// While the pool's shares dominate its amount, minting grants at least one
/// share per unit deposited.
pub proof fn lemma_mint_ge_amount(a: int, ta: int, ts: int)
    requires
        0 <= a,
        0 < ta <= ts,
    ensures
        shares_of(a, ta, ts) >= a,
{
    assert(a * ta <= a * ts) by (nonlinear_arith)
        requires
            0 <= a,
            ta <= ts,
    ;
    vstd::arithmetic::div_mod::lemma_div_by_multiple(a, ta);
    vstd::arithmetic::div_mod::lemma_div_is_ordered(a * ta, a * ts, ta);
}

/// How a floor-rounded conversion of `a` out of `ta` relates to the `ts`
/// shares issued against `ta`: bounds, exactness at the edges, and the two
/// dominance directions that keep zero amounts and zero shares aligned.
pub proof fn lemma_floor_props(a: int, ta: int, ts: int)
    requires
        0 < ta,
        0 <= a <= ta,
        0 <= ts,
    ensures
        0 <= shares_of(a, ta, ts) <= ts,
        a == ta ==> shares_of(a, ta, ts) == ts,
        a == 0 ==> shares_of(a, ta, ts) == 0,
        (ts > 0 && shares_of(a, ta, ts) == ts) ==> a == ta,
        ts >= ta ==> ts - shares_of(a, ta, ts) >= ta - a,
        ts <= ta ==> shares_of(a, ta, ts) >= a + ts - ta,
{
    lemma_mint_nonneg(a, ta, ts);
    assert(a * ts <= ta * ts) by (nonlinear_arith)
        requires
            a <= ta,
            0 <= ts,
    ;
    vstd::arithmetic::div_mod::lemma_div_by_multiple(ts, ta);
    assert(ts * ta == ta * ts) by (nonlinear_arith);
    vstd::arithmetic::div_mod::lemma_div_is_ordered(a * ts, ta * ts, ta);
    if a == 0 {
        assert(a * ts == 0) by (nonlinear_arith)
            requires
                a == 0,
        ;
        vstd::arithmetic::div_mod::lemma_div_of0(ta);
    }
    if ts > 0 && a < ta {
        // a strictly short of ta converts to strictly fewer than ts shares
        assert(a * ts <= ta * ts - ts) by (nonlinear_arith)
            requires
                a <= ta - 1,
                0 <= ts,
        ;
        assert(ta * ts - ts <= ta * (ts - 1) + (ta - 1)) by (nonlinear_arith)
            requires
                0 < ta,
                0 < ts,
        ;
        vstd::arithmetic::div_mod::lemma_div_multiples_vanish_fancy(ts - 1, ta - 1, ta);
        vstd::arithmetic::div_mod::lemma_div_is_ordered(a * ts, ta * (ts - 1) + (ta - 1), ta);
    }
    if ts >= ta {
        let y = ts - ta + a;
        assert(a * ts <= ta * y) by (nonlinear_arith)
            requires
                a <= ta,
                ts >= ta,
                y == ts - ta + a,
        ;
        assert(0 <= y);
        vstd::arithmetic::div_mod::lemma_div_by_multiple(y, ta);
        assert(y * ta == ta * y) by (nonlinear_arith);
        vstd::arithmetic::div_mod::lemma_div_is_ordered(a * ts, ta * y, ta);
    }
    if ts <= ta {
        let y = a + ts - ta;
        if y > 0 {
            assert(ta * y <= a * ts) by (nonlinear_arith)
                requires
                    a <= ta,
                    ts <= ta,
                    0 <= ts,
                    0 <= a,
                    y == a + ts - ta,
            ;
            vstd::arithmetic::div_mod::lemma_div_multiples_vanish(y, ta);
            vstd::arithmetic::div_mod::lemma_div_is_ordered(ta * y, a * ts, ta);
        }
    }
}

/// The same bounds for the ceiling-rounded conversion used by withdrawals:
/// burning rounds up, never past the pool's shares, exactly to them on a full
/// withdrawal, and never so far that amounts outlive shares.
pub proof fn lemma_ceil_props(a: int, ta: int, ts: int)
    requires
        0 < ta,
        0 <= a <= ta,
        0 <= ts,
    ensures
        0 <= shares_of_ceil(a, ta, ts) <= ts,
        a == ta ==> shares_of_ceil(a, ta, ts) == ts,
        a == 0 ==> shares_of_ceil(a, ta, ts) == 0,
        ts >= ta ==> ts - shares_of_ceil(a, ta, ts) >= ta - a,
{
    let n = a * ts + (ta - 1);
    assert(a * ts >= 0) by (nonlinear_arith)
        requires
            0 <= a,
            0 <= ts,
    ;
    vstd::arithmetic::div_mod::lemma_div_pos_is_pos(n, ta);
    assert(a * ts <= ta * ts) by (nonlinear_arith)
        requires
            a <= ta,
            0 <= ts,
    ;
    vstd::arithmetic::div_mod::lemma_div_multiples_vanish_fancy(ts, ta - 1, ta);
    vstd::arithmetic::div_mod::lemma_div_is_ordered(n, ta * ts + (ta - 1), ta);
    if a == 0 {
        assert(a * ts == 0) by (nonlinear_arith)
            requires
                a == 0,
        ;
        vstd::arithmetic::div_mod::lemma_div_multiples_vanish_fancy(0, ta - 1, ta);
        assert(ta * 0 == 0) by (nonlinear_arith);
    }
    if ts >= ta {
        let y = ts - ta + a;
        assert(a * ts <= ta * y) by (nonlinear_arith)
            requires
                a <= ta,
                ts >= ta,
                y == ts - ta + a,
        ;
        vstd::arithmetic::div_mod::lemma_div_multiples_vanish_fancy(y, ta - 1, ta);
        vstd::arithmetic::div_mod::lemma_div_is_ordered(n, ta * y + (ta - 1), ta);
    }
}

pub proof fn lemma_u64_mul_fits(a: int, b: int)
    requires
        0 <= a <= u64::MAX,
        0 <= b <= u64::MAX,
    ensures
        0 <= a * b,
        a * b <= (u64::MAX as int) * (u64::MAX as int),
        a * b + u64::MAX < u128::MAX,
{
    assert(0 <= a * b && a * b <= (u64::MAX as int) * (u64::MAX as int)) by (nonlinear_arith)
        requires
            0 <= a <= u64::MAX,
            0 <= b <= u64::MAX,
    ;
}

/// Converts `amount` of the pool's asset into shares at the pool's current
/// exchange rate, rounding down (bootstrap 1:1 on an empty pool).
/// `DivideByZero` marks the invalid pool with shares but no assets;
/// `ArithmeticOverflow` a quotient beyond `u64`.
pub fn shares_for_amount(amount: u64, total_amount: u64, total_shares: u64) -> (r: Result<
    u64,
    ErrorCode,
>)
    ensures
        ({
            let s = shares_of(amount as int, total_amount as int, total_shares as int);
            match r {
                Ok(v) => !(total_amount == 0 && total_shares != 0) && s <= u64::MAX && v as int
                    == s,
                Err(e) => if total_amount == 0 && total_shares != 0 {
                    e == ErrorCode::DivideByZero
                } else {
                    s > u64::MAX && e == ErrorCode::ArithmeticOverflow
                },
            }
        }),
{
    if total_amount == 0 {
        if total_shares == 0 {
            Ok(amount)
        } else {
            Err(ErrorCode::DivideByZero)
        }
    } else {
        proof {
            lemma_u64_mul_fits(amount as int, total_shares as int);
        }
        let prod: u128 = (amount as u128) * (total_shares as u128);
        let q: u128 = prod / (total_amount as u128);
        if q <= u64::MAX as u128 {
            Ok(q as u64)
        } else {
            Err(ErrorCode::ArithmeticOverflow)
        }
    }
}

/// Converts `amount` into shares rounding up: the burn-side counterpart of
/// `shares_for_amount`, used by withdrawals and collateral seizure.
pub fn shares_for_amount_ceil(amount: u64, total_amount: u64, total_shares: u64) -> (r: Result<
    u64,
    ErrorCode,
>)
    ensures
        ({
            let s = shares_of_ceil(amount as int, total_amount as int, total_shares as int);
            match r {
                Ok(v) => !(total_amount == 0 && total_shares != 0) && s <= u64::MAX && v as int
                    == s,
                Err(e) => if total_amount == 0 && total_shares != 0 {
                    e == ErrorCode::DivideByZero
                } else {
                    s > u64::MAX && e == ErrorCode::ArithmeticOverflow
                },
            }
        }),
{
    if total_amount == 0 {
        if total_shares == 0 {
            Ok(amount)
        } else {
            Err(ErrorCode::DivideByZero)
        }
    } else {
        proof {
            lemma_u64_mul_fits(amount as int, total_shares as int);
        }
        let prod: u128 = (amount as u128) * (total_shares as u128);
        let num: u128 = prod + (total_amount - 1) as u128;
        let q: u128 = num / (total_amount as u128);
        if q <= u64::MAX as u128 {
            Ok(q as u64)
        } else {
            Err(ErrorCode::ArithmeticOverflow)
        }
    }
}

/// Converts `shares` back into the underlying amount at the pool's current
/// exchange rate, rounding down (bootstrap 1:1 when no shares exist).
pub fn amount_for_shares(shares: u64, total_amount: u64, total_shares: u64) -> (r: Result<
    u64,
    ErrorCode,
>)
    ensures
        ({
            let a = amount_of(shares as int, total_amount as int, total_shares as int);
            match r {
                Ok(v) => !(total_shares == 0 && total_amount != 0) && a <= u64::MAX && v as int
                    == a,
                Err(e) => if total_shares == 0 && total_amount != 0 {
                    e == ErrorCode::DivideByZero
                } else {
                    a > u64::MAX && e == ErrorCode::ArithmeticOverflow
                },
            }
        }),
{
    if total_shares == 0 {
        if total_amount == 0 {
            Ok(shares)
        } else {
            Err(ErrorCode::DivideByZero)
        }
    } else {
        proof {
            lemma_u64_mul_fits(shares as int, total_amount as int);
        }
        let prod: u128 = (shares as u128) * (total_amount as u128);
        let q: u128 = prod / (total_shares as u128);
        if q <= u64::MAX as u128 {
            Ok(q as u64)
        } else {
            Err(ErrorCode::ArithmeticOverflow)
        }
    }
}

/// The valuation-side reading of `amount_of`: total where the pool has no
/// shares (then 1:1 by the bootstrap rate), so risk sums are defined on every
/// pool, including simulated post-states.
pub(crate) fn pool_amount_of(shares: u64, total_amount: u64, total_shares: u64) -> (r: Result<
    u64,
    ErrorCode,
>)
    ensures
        ({
            let a = amount_of(shares as int, total_amount as int, total_shares as int);
            match r {
                Ok(v) => a <= u64::MAX && v as int == a,
                Err(e) => a > u64::MAX && e == ErrorCode::ArithmeticOverflow,
            }
        }),
{
    if total_shares == 0 {
        Ok(shares)
    } else {
        proof {
            lemma_u64_mul_fits(shares as int, total_amount as int);
        }
        let prod: u128 = (shares as u128) * (total_amount as u128);
        let q: u128 = prod / (total_shares as u128);
        if q <= u64::MAX as u128 {
            Ok(q as u64)
        } else {
            Err(ErrorCode::ArithmeticOverflow)
        }
    }
}

} // verus!
