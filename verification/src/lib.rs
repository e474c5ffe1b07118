//! Share-based pooled accounting for a collateralized lending protocol.
//!
//! Each `Bank` tracks the pooled deposits and borrows of one asset together
//! with its risk parameters; a `UserPosition` holds one user's proportional
//! shares in every asset. The engine operations (deposit, withdraw, borrow,
//! repay, liquidate) convert raw amounts to shares, enforce solvency limits,
//! and commit atomically: a rejected operation changes nothing.

pub mod engine;
pub mod error;
pub mod laws;
pub mod math;
pub mod risk;
pub mod state;

pub use engine::{process_borrow, process_deposit, process_liquidate, process_repay,
    process_withdraw};
pub use error::ErrorCode;
pub use math::{amount_for_shares, shares_for_amount, shares_for_amount_ceil};
pub use risk::{borrowed_value, collateral_value, is_liquidatable, is_over_ltv, max_borrowable};
pub use state::{AssetPosition, Bank, UserPosition, BPS_SCALE};
