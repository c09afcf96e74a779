//! The price of the target asset at which a single position becomes liquidatable.

use vstd::prelude::*;

use crate::decimal::{pow10, pow10_u128, DecimalValue};
use crate::valuation::Side;
use crate::{ComputeError, BPS_POWER, RATE_DECIMALS};

verus! {

/// The figures of one open position that its liquidation price depends on.
#[derive(Clone, Copy, Debug, PartialEq, Eq, Structural)]
pub struct PositionSnapshot {
    pub entry_price: DecimalValue,
    /// Size in raw units of the target asset.
    pub size_amount: u64,
    pub size_decimals: u8,
    pub size_usd: u64,
    pub collateral_usd: u64,
    pub unsettled_fees_usd: u64,
}

/// The margin that must remain: the size in USD over the maximum leverage (in
/// basis points).
pub open spec fn maintenance_margin(size_usd: u64, max_leverage: u32) -> nat {
    ((size_usd as nat) * (BPS_POWER as nat)) / (max_leverage as nat)
}

/// Outcome of `liabilities_usd`: close fee plus lock fee, plus unsettled fees
/// plus maintenance margin, each addition checked.
pub open spec fn liabilities_result(
    position: PositionSnapshot,
    max_leverage: u32,
    close_fee_usd: u64,
    lock_fee_usd: u64,
) -> Result<u64, ComputeError> {
    let fees = close_fee_usd + lock_fee_usd;
    let margin = maintenance_margin(position.size_usd, max_leverage);
    if fees > u64::MAX {
        Err(ComputeError::ArithmeticOverflow)
    } else if max_leverage == 0 {
        Err(ComputeError::DivisionByZero)
    } else if margin > u64::MAX || position.unsettled_fees_usd + margin > u64::MAX {
        Err(ComputeError::ArithmeticOverflow)
    } else if fees + position.unsettled_fees_usd + margin > u64::MAX {
        Err(ComputeError::ArithmeticOverflow)
    } else {
        Ok((fees + position.unsettled_fees_usd + margin) as u64)
    }
}

/// What the position owes if closed now: `close_fee_usd` and `lock_fee_usd` are
/// the close-position fee and the lock fee accrued since opening, as the
/// custodies' fee schedules give them.
pub fn liabilities_usd(position: &PositionSnapshot, max_leverage: u32, close_fee_usd: u64, lock_fee_usd: u64) -> (r:
    Result<u64, ComputeError>)
    ensures
        r == liabilities_result(*position, max_leverage, close_fee_usd, lock_fee_usd),
{
    let fees = match close_fee_usd.checked_add(lock_fee_usd) {
        Some(v) => v,
        None => {
            return Err(ComputeError::ArithmeticOverflow);
        },
    };
    if max_leverage == 0 {
        return Err(ComputeError::DivisionByZero);
    }
    proof {
        assert((position.size_usd as nat) * 10000 <= u64::MAX * 10000) by (nonlinear_arith)
            requires
                position.size_usd <= u64::MAX,
        ;
    }
    let margin = (position.size_usd as u128) * BPS_POWER / (max_leverage as u128);
    if margin > u64::MAX as u128 {
        return Err(ComputeError::ArithmeticOverflow);
    }
    let owed = match position.unsettled_fees_usd.checked_add(margin as u64) {
        Some(v) => v,
        None => {
            return Err(ComputeError::ArithmeticOverflow);
        },
    };
    match fees.checked_add(owed) {
        Some(v) => Ok(v),
        None => Err(ComputeError::ArithmeticOverflow),
    }
}

/// Outcome of `price_delta_for_usd`: the price move, in units of
/// `10^-RATE_DECIMALS`, that changes the position's value by `usd` USD.
pub open spec fn price_delta_result(usd: u64, position: PositionSnapshot) -> Result<u64, ComputeError> {
    let k = position.size_decimals + 3;
    let scaled = (usd as nat) * pow10(k as nat);
    if k > 38 || scaled > u128::MAX {
        Err(ComputeError::ArithmeticOverflow)
    } else if position.size_amount == 0 {
        Err(ComputeError::DivisionByZero)
    } else if scaled / (position.size_amount as nat) > u64::MAX {
        Err(ComputeError::ArithmeticOverflow)
    } else {
        Ok((scaled / (position.size_amount as nat)) as u64)
    }
}

/// The price move, in units of `10^-RATE_DECIMALS`, over which the position's
/// value changes by `usd` (in units of `10^-USD_DECIMALS`).
pub fn price_delta_for_usd(usd: u64, position: &PositionSnapshot) -> (r: Result<u64, ComputeError>)
    ensures
        r == price_delta_result(usd, *position),
{
    let k: u32 = position.size_decimals as u32 + 3;
    if k > 38 {
        return Err(ComputeError::ArithmeticOverflow);
    }
    let f = pow10_u128(k);
    let scaled = match (usd as u128).checked_mul(f) {
        Some(v) => v,
        None => {
            return Err(ComputeError::ArithmeticOverflow);
        },
    };
    if position.size_amount == 0 {
        return Err(ComputeError::DivisionByZero);
    }
    let q = scaled / (position.size_amount as u128);
    if q > u64::MAX as u128 {
        return Err(ComputeError::ArithmeticOverflow);
    }
    Ok(q as u64)
}

/// Whether the liquidation price lies below the entry price: a solvent long is
/// liquidated on a drop, an insolvent one on a rise, and shorts the other way.
pub open spec fn liquidated_below_entry(side: Side, solvent: bool) -> bool {
    solvent == (side == Side::Long)
}

/// Outcome of `get_liquidation_price`.
pub open spec fn liquidation_price_result(
    position: PositionSnapshot,
    side: Side,
    max_leverage: u32,
    close_fee_usd: u64,
    lock_fee_usd: u64,
) -> Result<DecimalValue, ComputeError> {
    match liabilities_result(position, max_leverage, close_fee_usd, lock_fee_usd) {
        Err(e) => Err(e),
        Ok(liabilities) => {
            let solvent = position.collateral_usd >= liabilities;
            let gap = if solvent {
                (position.collateral_usd - liabilities) as u64
            } else {
                (liabilities - position.collateral_usd) as u64
            };
            match price_delta_result(gap, position) {
                Err(e) => Err(e),
                Ok(rate_delta) => match (DecimalValue {
                    mantissa: rate_delta,
                    exponent: (-(RATE_DECIMALS as int)) as i32,
                }).rescale_result(position.entry_price.exponent) {
                    Err(e) => Err(e),
                    Ok(delta) => {
                        let entry = position.entry_price.mantissa;
                        Ok(
                            DecimalValue {
                                mantissa: if liquidated_below_entry(side, solvent) {
                                    if entry >= delta.mantissa {
                                        (entry - delta.mantissa) as u64
                                    } else {
                                        0
                                    }
                                } else {
                                    if entry + delta.mantissa <= u64::MAX {
                                        (entry + delta.mantissa) as u64
                                    } else {
                                        u64::MAX
                                    }
                                },
                                exponent: position.entry_price.exponent,
                            },
                        )
                    },
                },
            }
        },
    }
}

/// Everything the liquidation price depends on: the position, its market's
/// side, the target custody's maximum leverage (in basis points), and the
/// close-position fee and accrued lock fee that the custodies' fee schedules
/// give for this position now.
#[derive(Clone, Copy, Debug, PartialEq, Eq, Structural)]
pub struct GetLiquidationPrice {
    pub position: PositionSnapshot,
    pub side: Side,
    pub max_leverage: u32,
    pub close_fee_usd: u64,
    pub lock_fee_usd: u64,
}

/// The target-asset price at which the position's collateral exactly covers its
/// liabilities, at the entry price's exponent. A position whose collateral
/// covers its liabilities is liquidated after a loss of the surplus; one whose
/// collateral falls short becomes liquidatable only after a profit of the
/// shortfall.
pub fn get_liquidation_price(accounts: &GetLiquidationPrice) -> (r: Result<DecimalValue, ComputeError>)
    ensures
        r == liquidation_price_result(
            accounts.position,
            accounts.side,
            accounts.max_leverage,
            accounts.close_fee_usd,
            accounts.lock_fee_usd,
        ),
{
    let position = &accounts.position;
    let side = accounts.side;
    let max_leverage = accounts.max_leverage;
    let close_fee_usd = accounts.close_fee_usd;
    let lock_fee_usd = accounts.lock_fee_usd;
    let liabilities = match liabilities_usd(position, max_leverage, close_fee_usd, lock_fee_usd) {
        Ok(v) => v,
        Err(e) => {
            return Err(e);
        },
    };
    let solvent = position.collateral_usd >= liabilities;
    let gap = if solvent {
        position.collateral_usd - liabilities
    } else {
        liabilities - position.collateral_usd
    };
    let rate_delta = match price_delta_for_usd(gap, position) {
        Ok(v) => v,
        Err(e) => {
            return Err(e);
        },
    };
    let rate_exponent: i32 = -(RATE_DECIMALS as i32);
    let delta = match DecimalValue::new(rate_delta, rate_exponent).scale_to_exponent(position.entry_price.exponent) {
        Ok(d) => d,
        Err(e) => {
            return Err(e);
        },
    };
    let below = match side {
        Side::Long => solvent,
        Side::Short => !solvent,
    };
    let entry = position.entry_price.mantissa;
    let mantissa = if below {
        entry.saturating_sub(delta.mantissa)
    } else {
        entry.saturating_add(delta.mantissa)
    };
    Ok(DecimalValue::new(mantissa, position.entry_price.exponent))
}

/// When the collateral equals the liabilities exactly, the liquidation price is
/// the entry price, for either side.
pub proof fn lemma_break_even_at_entry(
    position: PositionSnapshot,
    side: Side,
    max_leverage: u32,
    close_fee_usd: u64,
    lock_fee_usd: u64,
)
    requires
        liabilities_result(position, max_leverage, close_fee_usd, lock_fee_usd) == Ok::<u64, ComputeError>(
            position.collateral_usd,
        ),
        position.size_amount > 0,
        position.size_decimals + 3 <= 38,
        -20 < position.entry_price.exponent + RATE_DECIMALS < 20,
    ensures
        liquidation_price_result(position, side, max_leverage, close_fee_usd, lock_fee_usd) == Ok::<
            DecimalValue,
            ComputeError,
        >(position.entry_price),
{
    let k = (position.size_decimals + 3) as nat;
    assert(0nat * pow10(k) == 0);
    assert(0int / (position.size_amount as int) == 0);
    let e = position.entry_price.exponent as int;
    let r = -(RATE_DECIMALS as int);
    if e > r {
        assert(0int / (pow10((e - r) as nat) as int) == 0) by {
            crate::decimal::lemma_pow10_positive((e - r) as nat);
        }
    } else if e < r {
        assert(0nat * pow10((r - e) as nat) == 0);
    }
}

} // verus!
