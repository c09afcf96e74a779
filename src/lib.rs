//! Pool valuation and liquidation-price arithmetic for a pooled-liquidity
//! perpetual-futures vault, over exact fixed-point decimals.

use vstd::prelude::*;

pub mod decimal;
pub mod liquidation;
pub mod oracle;
pub mod valuation;

verus! {

/// Decimal places of USD amounts.
pub const USD_DECIMALS: u32 = 6;

/// Decimal places of the pool's share tokens.
pub const LP_DECIMALS: u32 = 6;

/// Decimal places of rate-scaled quantities (prices derived from USD deltas).
pub const RATE_DECIMALS: u32 = 9;

/// One whole unit expressed in basis points.
pub const BPS_POWER: u128 = 10_000;

/// Why a computation was aborted.
#[derive(Clone, Copy, Debug, PartialEq, Eq, Structural)]
pub enum ComputeError {
    /// A checked operation overflowed or underflowed its integer range.
    ArithmeticOverflow,
    /// A checked division had a zero divisor.
    DivisionByZero,
    /// Two decimal values of different exponents were combined.
    ExponentMismatch,
    /// A referenced custody or market is missing or out of order.
    MissingInput,
}

} // verus!
