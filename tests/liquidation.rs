use flash_compute::decimal::DecimalValue;
use flash_compute::liquidation::{
    get_liquidation_price, liabilities_usd, price_delta_for_usd, GetLiquidationPrice, PositionSnapshot,
};
use flash_compute::valuation::Side;
use flash_compute::ComputeError;

fn position(collateral_usd: u64) -> PositionSnapshot {
    PositionSnapshot {
        entry_price: DecimalValue::new(100_000_000, -6),
        size_amount: 1_000_000_000,
        size_decimals: 9,
        size_usd: 100_000_000,
        collateral_usd,
        unsettled_fees_usd: 0,
    }
}

fn query(position: PositionSnapshot, side: Side, max_leverage: u32, close_fee_usd: u64, lock_fee_usd: u64) -> GetLiquidationPrice {
    GetLiquidationPrice { position, side, max_leverage, close_fee_usd, lock_fee_usd }
}

#[test]
fn liabilities_sum_fees_and_margin() {
    assert_eq!(liabilities_usd(&position(0), 1_000_000, 100_000, 0), Ok(1_100_000));
    let mut p = position(0);
    p.unsettled_fees_usd = 5;
    assert_eq!(liabilities_usd(&p, 1_000_000, 100_000, 7), Ok(1_100_012));
}

#[test]
fn liabilities_errors() {
    assert_eq!(liabilities_usd(&position(0), 0, 1, 1), Err(ComputeError::DivisionByZero));
    assert_eq!(liabilities_usd(&position(0), 1_000_000, u64::MAX, 1), Err(ComputeError::ArithmeticOverflow));
    assert_eq!(liabilities_usd(&position(0), 1, 0, 0), Ok(1_000_000_000_000));
}

#[test]
fn solvent_long_liquidates_below_entry() {
    assert_eq!(
        get_liquidation_price(&query(position(20_000_000), Side::Long, 1_000_000, 100_000, 0)),
        Ok(DecimalValue::new(81_100_000, -6))
    );
}

#[test]
fn solvent_short_liquidates_above_entry() {
    assert_eq!(
        get_liquidation_price(&query(position(20_000_000), Side::Short, 1_000_000, 100_000, 0)),
        Ok(DecimalValue::new(118_900_000, -6))
    );
}

#[test]
fn insolvent_positions_need_a_profit() {
    assert_eq!(
        get_liquidation_price(&query(position(1_000_000), Side::Long, 1_000_000, 100_000, 0)),
        Ok(DecimalValue::new(100_100_000, -6))
    );
    assert_eq!(
        get_liquidation_price(&query(position(1_000_000), Side::Short, 1_000_000, 100_000, 0)),
        Ok(DecimalValue::new(99_900_000, -6))
    );
}

#[test]
fn break_even_liquidates_at_entry() {
    let p = position(1_100_000);
    assert_eq!(get_liquidation_price(&query(p, Side::Long, 1_000_000, 100_000, 0)), Ok(p.entry_price));
    assert_eq!(get_liquidation_price(&query(p, Side::Short, 1_000_000, 100_000, 0)), Ok(p.entry_price));
}

#[test]
fn long_liquidation_price_saturates_at_zero() {
    assert_eq!(
        get_liquidation_price(&query(position(500_000_000), Side::Long, 1_000_000, 0, 0)),
        Ok(DecimalValue::new(0, -6))
    );
}

#[test]
fn zero_size_fails_as_division() {
    let mut p = position(20_000_000);
    p.size_amount = 0;
    assert_eq!(get_liquidation_price(&query(p, Side::Long, 1_000_000, 100_000, 0)), Err(ComputeError::DivisionByZero));
}

#[test]
fn price_delta_scaling() {
    assert_eq!(price_delta_for_usd(18_900_000, &position(0)), Ok(18_900_000_000));
    let mut p = position(0);
    p.size_decimals = 40;
    assert_eq!(price_delta_for_usd(1, &p), Err(ComputeError::ArithmeticOverflow));
}

#[test]
fn liquidation_rescale_out_of_range_fails() {
    let mut p = position(20_000_000);
    p.entry_price = DecimalValue::new(100, -40);
    assert_eq!(get_liquidation_price(&query(p, Side::Long, 1_000_000, 100_000, 0)), Err(ComputeError::ArithmeticOverflow));
}
