use vstd::prelude::*;

verus! {

/// Why an operation was rejected. Every rejection leaves all state exactly as
/// it was. The first five variants are user-facing: retrying with different
/// parameters can succeed. `ArithmeticOverflow` and `DivideByZero` signal an
/// internal-consistency or configuration problem (an accumulator leaving the
/// representable range, or a pool with shares outstanding but no assets) and
/// are not expected in normal operation.
#[derive(Clone, Copy, Debug, PartialEq, Eq)]
pub enum ErrorCode {
    /// A borrow or withdrawal would leave the user's borrowed value above the
    /// loan-to-value limit of their collateral.
    OverLTV,
    /// A withdrawal asked for more than the user has deposited.
    InsufficientFunds,
    /// A borrow asked for more than the pool's unborrowed liquidity.
    OverBorrowableAmount,
    /// A repayment offered more than the user currently owes.
    OverRepay,
    /// A liquidation was attempted on a position that is still healthy.
    NotUnderCollateralized,
    /// An accumulator or a conversion left the representable range.
    ArithmeticOverflow,
    /// A share conversion met a pool with shares outstanding but nothing
    /// backing them, or a zero collateral price; valid states never produce
    /// this.
    DivideByZero,
}

} // verus!
