use vstd::prelude::*;

verus! {

/// Risk parameters are fixed-point fractions with this denominator
/// (basis points): 5000 stands for 0.5.
pub const BPS_SCALE: u64 = 10000;

/// Per-asset pool aggregate: the underlying amounts deposited and borrowed,
/// the shares issued against each side, and the asset's risk parameters.
#[derive(Clone, Copy, Debug, PartialEq, Eq)]
pub struct Bank {
    /// Underlying asset currently deposited in the pool.
    pub total_deposits: u64,
    /// Shares issued to all depositors against `total_deposits`.
    pub total_deposit_shares: u64,
    /// Underlying asset currently borrowed out of the pool.
    pub total_borrows: u64,
    /// Shares issued to all borrowers against `total_borrows`.
    pub total_borrow_shares: u64,
    /// Highest borrowed value allowed per unit of collateral value, in
    /// `BPS_SCALE`ths; strictly between 0 and `BPS_SCALE`.
    pub max_ltv_bps: u64,
    /// Borrowed value per collateral value beyond which the position can be
    /// liquidated, in `BPS_SCALE`ths; in (0, `BPS_SCALE`].
    pub liquidation_threshold_bps: u64,
    /// Extra collateral value granted to a liquidator per repaid value, in
    /// `BPS_SCALE`ths.
    pub liquidation_bonus_bps: u64,
}

impl Bank {
    /// The pool invariant: a side holds assets exactly when it has issued
    /// shares, and the risk parameters are in range.
    pub open spec fn wf(self) -> bool {
        &&& (self.total_deposits == 0 <==> self.total_deposit_shares == 0)
        &&& (self.total_borrows == 0 <==> self.total_borrow_shares == 0)
        &&& 0 < self.max_ltv_bps < BPS_SCALE
        &&& 0 < self.liquidation_threshold_bps <= BPS_SCALE
    }

    /// Each side's share count is at least its amount. This holds of every
    /// pool reachable from creation (both sides start at zero and every
    /// operation preserves it) and is what makes the rounding directions
    /// safe: minting rounds down against shares that dominate, burning
    /// rounds up.
    pub open spec fn shares_dominate(self) -> bool {
        &&& self.total_deposit_shares >= self.total_deposits
        &&& self.total_borrow_shares >= self.total_borrows
    }

    /// A fresh pool for one asset: empty on both sides, with the given risk
    /// parameters.
    pub fn new(max_ltv_bps: u64, liquidation_threshold_bps: u64, liquidation_bonus_bps: u64) -> (b:
        Bank)
        requires
            0 < max_ltv_bps < BPS_SCALE,
            0 < liquidation_threshold_bps <= BPS_SCALE,
        ensures
            b == (Bank {
                total_deposits: 0,
                total_deposit_shares: 0,
                total_borrows: 0,
                total_borrow_shares: 0,
                max_ltv_bps,
                liquidation_threshold_bps,
                liquidation_bonus_bps,
            }),
            b.wf(),
            b.shares_dominate(),
    {
        Bank {
            total_deposits: 0,
            total_deposit_shares: 0,
            total_borrows: 0,
            total_borrow_shares: 0,
            max_ltv_bps,
            liquidation_threshold_bps,
            liquidation_bonus_bps,
        }
    }
}

/// One user's holdings in one asset: deposited and borrowed amounts with the
/// shares standing for them.
#[derive(Clone, Copy, Debug, PartialEq, Eq)]
pub struct AssetPosition {
    /// Underlying amount this user has deposited.
    pub deposited_amount: u64,
    /// Deposit shares issued to this user.
    pub deposited_shares: u64,
    /// Underlying amount this user has borrowed.
    pub borrowed_amount: u64,
    /// Borrow shares issued to this user.
    pub borrowed_shares: u64,
}

impl AssetPosition {
    /// A user's side holds an amount exactly when it holds shares.
    pub open spec fn wf(self) -> bool {
        &&& (self.deposited_amount == 0 <==> self.deposited_shares == 0)
        &&& (self.borrowed_amount == 0 <==> self.borrowed_shares == 0)
    }

    /// An empty holding.
    pub fn empty() -> (p: AssetPosition)
        ensures
            p == (AssetPosition {
                deposited_amount: 0,
                deposited_shares: 0,
                borrowed_amount: 0,
                borrowed_shares: 0,
            }),
            p.wf(),
    {
        AssetPosition { deposited_amount: 0, deposited_shares: 0, borrowed_amount: 0, borrowed_shares: 0 }
    }
}

/// One user's state across all supported assets, indexed like the caller's
/// bank and price tables, plus the time of the user's last operation.
#[derive(Debug, PartialEq, Eq)]
pub struct UserPosition {
    /// One entry per supported asset, in the same order as the banks.
    pub assets: Vec<AssetPosition>,
    /// Timestamp of the last committed operation touching this position.
    pub last_updated: i64,
}

impl UserPosition {
    /// Every per-asset holding is well formed.
    pub open spec fn wf(self) -> bool {
        forall|i: int| 0 <= i < self.assets@.len() ==> (#[trigger] self.assets@[i]).wf()
    }

    /// A fresh position with an empty holding for each of `n_assets` assets.
    pub fn new(n_assets: usize) -> (u: UserPosition)
        ensures
            u.assets@.len() == n_assets,
            forall|i: int| 0 <= i < n_assets ==> #[trigger] u.assets@[i] == (AssetPosition {
                deposited_amount: 0,
                deposited_shares: 0,
                borrowed_amount: 0,
                borrowed_shares: 0,
            }),
            u.wf(),
            u.last_updated == 0,
    {
        let mut assets: Vec<AssetPosition> = Vec::new();
        let mut i: usize = 0;
        while i < n_assets
            invariant
                i <= n_assets,
                assets@.len() == i,
                forall|j: int| 0 <= j < i ==> #[trigger] assets@[j] == (AssetPosition {
                    deposited_amount: 0,
                    deposited_shares: 0,
                    borrowed_amount: 0,
                    borrowed_shares: 0,
                }),
            decreases n_assets - i,
        {
            assets.push(AssetPosition::empty());
            i = i + 1;
        }
        UserPosition { assets, last_updated: 0 }
    }
}

} // verus!
