//! Pool equity: raw assets under management, obligations, and the profit or
//! loss of open aggregate positions, leading to the share token prices.

use vstd::prelude::*;

use crate::decimal::{
    checked_decimal_div, checked_decimal_mul, decimal_div_result, decimal_mul_result, usd_value,
    DecimalValue,
};
use crate::oracle::{
    custom_quote, custom_quotes, pyth_quote, pyth_quotes, CustomOraclePrice, PythPriceMessage,
};
use crate::{ComputeError, LP_DECIMALS, USD_DECIMALS};

verus! {

/// A 32-byte account identifier, as four 64-bit words.
#[derive(Clone, Copy, Debug, PartialEq, Eq, Structural)]
pub struct AccountKey {
    pub w0: u64,
    pub w1: u64,
    pub w2: u64,
    pub w3: u64,
}

/// One asset type held by the pool.
#[derive(Clone, Copy, Debug, PartialEq, Eq, Structural)]
pub struct CustodyHolding {
    pub key: AccountKey,
    /// Quantity owned, in raw units.
    pub owned: u64,
    /// Native decimal places of the asset.
    pub decimals: u8,
}

/// Direction of a market.
#[derive(Clone, Copy, Debug, PartialEq, Eq, Structural)]
pub enum Side {
    Long,
    Short,
}

/// The netted open interest of all positions of one market.
#[derive(Clone, Copy, Debug, PartialEq, Eq, Structural)]
pub struct AggregatePosition {
    pub collateral_usd: u64,
    pub entry_price: DecimalValue,
    pub size_amount: u64,
    pub size_decimals: u8,
    pub locked_amount: u64,
    pub locked_decimals: u8,
}

/// One trading pair and its aggregate position.
#[derive(Clone, Copy, Debug, PartialEq, Eq, Structural)]
pub struct MarketSnapshot {
    pub key: AccountKey,
    pub side: Side,
    pub target_custody: AccountKey,
    pub collateral_custody: AccountKey,
    pub position: AggregatePosition,
}

/// The first index below `n` at which `keys` holds `k`.
pub open spec fn key_position(keys: Seq<AccountKey>, k: AccountKey, n: nat) -> Option<nat>
    decreases n,
{
    if n == 0 {
        None
    } else {
        match key_position(keys, k, (n - 1) as nat) {
            Some(i) => Some(i),
            None => if keys[n - 1] == k {
                Some((n - 1) as nat)
            } else {
                None
            },
        }
    }
}

proof fn lemma_key_position_stable(keys: Seq<AccountKey>, k: AccountKey, m: nat, n: nat)
    requires
        m <= n,
        key_position(keys, k, m) is Some,
    ensures
        key_position(keys, k, n) == key_position(keys, k, m),
    decreases n,
{
    if m < n {
        lemma_key_position_stable(keys, k, m, (n - 1) as nat);
    }
}

/// Index of `key` among the pool's custodies, the first one if it repeats.
pub fn get_custody_id(custodies: &Vec<AccountKey>, key: &AccountKey) -> (r: Option<usize>)
    ensures
        r matches Some(i) ==> key_position(custodies@, *key, custodies@.len()) == Some(i as nat) && i
            < custodies@.len() && custodies@[i as int] == *key,
        r is None ==> key_position(custodies@, *key, custodies@.len()) is None,
{
    let mut i: usize = 0;
    while i < custodies.len()
        invariant
            i <= custodies@.len(),
            key_position(custodies@, *key, i as nat) is None,
        decreases custodies@.len() - i,
    {
        if custodies[i] == *key {
            proof {
                lemma_key_position_stable(custodies@, *key, (i + 1) as nat, custodies@.len());
            }
            return Some(i);
        }
        i = i + 1;
    }
    None
}

/// USD value of the first `n` custodies at their prices.
pub open spec fn aum_upto(custodies: Seq<CustodyHolding>, prices: Seq<DecimalValue>, n: nat) -> nat
    decreases n,
{
    if n == 0 {
        0
    } else {
        aum_upto(custodies, prices, (n - 1) as nat) + usd_value(
            prices[n - 1],
            custodies[n - 1].owned,
            custodies[n - 1].decimals,
        )
    }
}

/// Every custody's valuation on its own fits in 64 bits.
pub open spec fn valuations_fit(custodies: Seq<CustodyHolding>, prices: Seq<DecimalValue>) -> bool {
    forall|i: int|
        0 <= i < custodies.len() ==> #[trigger] usd_value(prices[i], custodies[i].owned, custodies[i].decimals)
            <= u64::MAX
}

/// Outcome of `raw_aum`.
pub open spec fn raw_aum_result(custodies: Seq<CustodyHolding>, prices: Seq<DecimalValue>) -> Result<u64, ComputeError> {
    let total = aum_upto(custodies, prices, custodies.len());
    if valuations_fit(custodies, prices) && total <= u64::MAX {
        Ok(total as u64)
    } else {
        Err(ComputeError::ArithmeticOverflow)
    }
}

proof fn lemma_aum_upto_monotone(custodies: Seq<CustodyHolding>, prices: Seq<DecimalValue>, m: nat, n: nat)
    requires
        m <= n,
    ensures
        aum_upto(custodies, prices, m) <= aum_upto(custodies, prices, n),
    decreases n,
{
    if m < n {
        lemma_aum_upto_monotone(custodies, prices, m, (n - 1) as nat);
    }
}

/// Raw assets under management: the sum of every custody's USD valuation,
/// with `prices[i]` the price of `custodies[i]`.
pub fn raw_aum(custodies: &Vec<CustodyHolding>, prices: &Vec<DecimalValue>) -> (r: Result<u64, ComputeError>)
    requires
        custodies@.len() == prices@.len(),
    ensures
        r == raw_aum_result(custodies@, prices@),
{
    let mut total: u64 = 0;
    let mut i: usize = 0;
    while i < custodies.len()
        invariant
            custodies@.len() == prices@.len(),
            i <= custodies@.len(),
            total == aum_upto(custodies@, prices@, i as nat),
            forall|j: int|
                0 <= j < i ==> #[trigger] usd_value(prices@[j], custodies@[j].owned, custodies@[j].decimals)
                    <= u64::MAX,
        decreases custodies@.len() - i,
    {
        let c = custodies[i];
        match prices[i].get_asset_amount_usd(c.owned, c.decimals) {
            Err(e) => {
                return Err(e);
            },
            Ok(v) => {
                match total.checked_add(v) {
                    None => {
                        proof {
                            lemma_aum_upto_monotone(custodies@, prices@, (i + 1) as nat, custodies@.len());
                        }
                        return Err(ComputeError::ArithmeticOverflow);
                    },
                    Some(s) => {
                        total = s;
                    },
                }
            },
        }
        i = i + 1;
    }
    Ok(total)
}

/// Aggregating the custodies gives exactly the sum of each custody valued on its
/// own: it succeeds when every valuation succeeds and their sum fits, and then
/// returns that sum.
pub proof fn lemma_aum_is_sum_of_valuations(custodies: Seq<CustodyHolding>, prices: Seq<DecimalValue>, n: nat)
    requires
        n <= custodies.len(),
        custodies.len() == prices.len(),
        forall|i: int|
            0 <= i < n ==> #[trigger] prices[i].asset_usd_result(custodies[i].owned, custodies[i].decimals) is Ok,
    ensures
        aum_upto(custodies, prices, n) == valuation_sum(custodies, prices, n),
    decreases n,
{
    if n > 0 {
        lemma_aum_is_sum_of_valuations(custodies, prices, (n - 1) as nat);
        let i = n - 1;
        assert(prices[i].asset_usd_result(custodies[i].owned, custodies[i].decimals) is Ok);
    }
}

/// The sum of the first `n` custodies' individual valuations, as `get_asset_amount_usd` returns them.
pub open spec fn valuation_sum(custodies: Seq<CustodyHolding>, prices: Seq<DecimalValue>, n: nat) -> int
    decreases n,
{
    if n == 0 {
        0
    } else {
        valuation_sum(custodies, prices, (n - 1) as nat) + prices[n - 1].asset_usd_result(
            custodies[n - 1].owned,
            custodies[n - 1].decimals,
        )->Ok_0
    }
}

/// When the obligations reach or exceed the raw AUM, the equity is zero rather
/// than negative.
pub proof fn lemma_equity_floors_at_zero(aum: u64, fees: u64, rebates: u64)
    requires
        fees + rebates <= u64::MAX,
        fees + rebates >= aum,
    ensures
        equity_after_obligations_result(aum, fees, rebates) == Ok::<u64, ComputeError>(0),
{
}

/// Outcome of `equity_after_obligations`: the raw AUM less both obligations,
/// never below zero.
pub open spec fn equity_after_obligations_result(aum: u64, fees: u64, rebates: u64) -> Result<u64, ComputeError> {
    if fees + rebates > u64::MAX {
        Err(ComputeError::ArithmeticOverflow)
    } else if aum >= fees + rebates {
        Ok((aum - (fees + rebates)) as u64)
    } else {
        Ok(0)
    }
}

/// Deducts the pool's fee and rebate obligations from its raw AUM, flooring at zero.
pub fn equity_after_obligations(aum: u64, fees: u64, rebates: u64) -> (r: Result<u64, ComputeError>)
    ensures
        r == equity_after_obligations_result(aum, fees, rebates),
        r matches Ok(e) ==> e >= 0 && e <= aum,
{
    match fees.checked_add(rebates) {
        None => Err(ComputeError::ArithmeticOverflow),
        Some(owed) => Ok(aum.saturating_sub(owed)),
    }
}


/// Whether the holders of `side` gain when the price moves from `entry` to `exit`.
/// An unchanged price counts as a loss for both sides.
pub open spec fn holder_in_profit(side: Side, exit: u64, entry: u64) -> bool {
    match side {
        Side::Long => exit > entry,
        Side::Short => exit < entry,
    }
}

/// The distance between two prices, at the entry price's exponent.
pub open spec fn price_delta(exit: DecimalValue, entry: DecimalValue) -> DecimalValue {
    DecimalValue {
        mantissa: if exit.mantissa >= entry.mantissa {
            (exit.mantissa - entry.mantissa) as u64
        } else {
            (entry.mantissa - exit.mantissa) as u64
        },
        exponent: entry.exponent,
    }
}

/// Equity once the position's posted collateral is taken out, never below zero.
pub open spec fn equity_less_collateral(equity: u64, pos: AggregatePosition) -> nat {
    if equity >= pos.collateral_usd {
        (equity - pos.collateral_usd) as nat
    } else {
        0
    }
}

/// The USD value of the price move over the position's size.
pub open spec fn pnl_usd(pos: AggregatePosition, exit: DecimalValue) -> nat {
    usd_value(price_delta(exit, pos.entry_price), pos.size_amount, pos.size_decimals)
}

/// The USD value of the collateral locked against the position.
pub open spec fn locked_usd(pos: AggregatePosition, collateral_price: DecimalValue) -> nat {
    usd_value(collateral_price, pos.locked_amount, pos.locked_decimals)
}

/// Outcome of `net_market_pnl`.
pub open spec fn pnl_result(
    equity: u64,
    market: MarketSnapshot,
    exit: DecimalValue,
    collateral_price: DecimalValue,
) -> Result<u64, ComputeError> {
    let pos = market.position;
    let base = equity_less_collateral(equity, pos);
    let delta = pnl_usd(pos, exit);
    if exit.exponent != pos.entry_price.exponent {
        Err(ComputeError::ExponentMismatch)
    } else if delta > u64::MAX {
        Err(ComputeError::ArithmeticOverflow)
    } else if holder_in_profit(market.side, exit.mantissa, pos.entry_price.mantissa) {
        let locked = locked_usd(pos, collateral_price);
        if locked > u64::MAX {
            Err(ComputeError::ArithmeticOverflow)
        } else {
            let owed = if delta <= locked { delta } else { locked };
            Ok(if base >= owed { (base - owed) as u64 } else { 0 })
        }
    } else {
        let gained = if delta <= pos.collateral_usd { delta } else { pos.collateral_usd as nat };
        if base + gained > u64::MAX {
            Err(ComputeError::ArithmeticOverflow)
        } else {
            Ok((base + gained) as u64)
        }
    }
}

/// Nets one market's aggregate position against the pool equity: its posted
/// collateral leaves the equity, then the holders' profit (capped by the locked
/// collateral) is taken out or their loss (capped by the posted collateral) is
/// added. `exit` is the target custody's price, `collateral_price` the
/// collateral custody's.
pub fn net_market_pnl(
    equity: u64,
    market: &MarketSnapshot,
    exit: &DecimalValue,
    collateral_price: &DecimalValue,
) -> (r: Result<u64, ComputeError>)
    ensures
        r == pnl_result(equity, *market, *exit, *collateral_price),
{
    let pos = &market.position;
    let base = equity.saturating_sub(pos.collateral_usd);
    if exit.exponent != pos.entry_price.exponent {
        return Err(ComputeError::ExponentMismatch);
    }
    let in_profit = match market.side {
        Side::Long => exit.mantissa > pos.entry_price.mantissa,
        Side::Short => exit.mantissa < pos.entry_price.mantissa,
    };
    let delta = if exit.mantissa >= pos.entry_price.mantissa {
        exit.checked_sub(&pos.entry_price)
    } else {
        pos.entry_price.checked_sub(exit)
    };
    let delta = match delta {
        Ok(d) => d,
        Err(e) => {
            return Err(e);
        },
    };
    let delta_usd = match delta.get_asset_amount_usd(pos.size_amount, pos.size_decimals) {
        Ok(v) => v,
        Err(e) => {
            return Err(e);
        },
    };
    if in_profit {
        let locked = match collateral_price.get_asset_amount_usd(pos.locked_amount, pos.locked_decimals) {
            Ok(v) => v,
            Err(e) => {
                return Err(e);
            },
        };
        let owed = if delta_usd <= locked { delta_usd } else { locked };
        Ok(base.saturating_sub(owed))
    } else {
        let gained = if delta_usd <= pos.collateral_usd { delta_usd } else { pos.collateral_usd };
        match base.checked_add(gained) {
            Some(e) => Ok(e),
            None => Err(ComputeError::ArithmeticOverflow),
        }
    }
}

/// When a market's holders are in profit, the equity taken out for them never
/// exceeds the USD value of the collateral locked against their position,
/// however far the price has moved.
pub proof fn lemma_profit_capped_by_locked(
    equity: u64,
    market: MarketSnapshot,
    exit: DecimalValue,
    collateral_price: DecimalValue,
)
    requires
        holder_in_profit(market.side, exit.mantissa, market.position.entry_price.mantissa),
        pnl_result(equity, market, exit, collateral_price) is Ok,
    ensures
        equity_less_collateral(equity, market.position) - pnl_result(equity, market, exit, collateral_price)->Ok_0
            <= locked_usd(market.position, collateral_price),
{
}


/// One market netted against `equity`, its custodies' prices looked up by key
/// among `keys`, with `prices[i]` the price of `keys[i]`.
pub open spec fn market_step(
    keys: Seq<AccountKey>,
    prices: Seq<DecimalValue>,
    market: MarketSnapshot,
    equity: u64,
) -> Result<u64, ComputeError> {
    match (
        key_position(keys, market.target_custody, keys.len()),
        key_position(keys, market.collateral_custody, keys.len()),
    ) {
        (Some(t), Some(c)) => pnl_result(equity, market, prices[t as int], prices[c as int]),
        _ => Err(ComputeError::MissingInput),
    }
}

/// The first `n` markets netted in order against `equity`; the first failure stops it.
pub open spec fn netted_equity(
    keys: Seq<AccountKey>,
    prices: Seq<DecimalValue>,
    markets: Seq<MarketSnapshot>,
    n: nat,
    equity: u64,
) -> Result<u64, ComputeError>
    decreases n,
{
    if n == 0 {
        Ok(equity)
    } else {
        match netted_equity(keys, prices, markets, (n - 1) as nat, equity) {
            Ok(e) => market_step(keys, prices, markets[n - 1], e),
            Err(x) => Err(x),
        }
    }
}

proof fn lemma_netted_error_stays(
    keys: Seq<AccountKey>,
    prices: Seq<DecimalValue>,
    markets: Seq<MarketSnapshot>,
    m: nat,
    n: nat,
    equity: u64,
)
    requires
        m <= n,
        netted_equity(keys, prices, markets, m, equity) is Err,
    ensures
        netted_equity(keys, prices, markets, n, equity) == netted_equity(keys, prices, markets, m, equity),
    decreases n,
{
    if m < n {
        lemma_netted_error_stays(keys, prices, markets, m, (n - 1) as nat, equity);
    }
}

/// Nets every market's aggregate position, in order, against `equity`.
pub fn net_unrealized_pnl(
    keys: &Vec<AccountKey>,
    prices: &Vec<DecimalValue>,
    markets: &Vec<MarketSnapshot>,
    equity: u64,
) -> (r: Result<u64, ComputeError>)
    requires
        keys@.len() == prices@.len(),
    ensures
        r == netted_equity(keys@, prices@, markets@, markets@.len(), equity),
{
    let mut current: u64 = equity;
    let mut i: usize = 0;
    while i < markets.len()
        invariant
            keys@.len() == prices@.len(),
            i <= markets@.len(),
            netted_equity(keys@, prices@, markets@, i as nat, equity) == Ok::<u64, ComputeError>(current),
        decreases markets@.len() - i,
    {
        let market = &markets[i];
        let t = get_custody_id(keys, &market.target_custody);
        let c = get_custody_id(keys, &market.collateral_custody);
        let step = match (t, c) {
            (Some(t), Some(c)) => net_market_pnl(current, market, &prices[t], &prices[c]),
            _ => Err(ComputeError::MissingInput),
        };
        match step {
            Ok(e) => {
                current = e;
            },
            Err(x) => {
                proof {
                    lemma_netted_error_stays(keys@, prices@, markets@, (i + 1) as nat, markets@.len(), equity);
                }
                return Err(x);
            },
        }
        i = i + 1;
    }
    Ok(current)
}

/// Outcome of `token_prices`: the share price, then the compounding share price.
pub open spec fn token_prices_result(
    equity: u64,
    lp_supply: u64,
    active_amount: u64,
    total_supply: u64,
) -> Result<(u64, u64), ComputeError> {
    let usd = (-(USD_DECIMALS as int)) as i32;
    let lp = (-(LP_DECIMALS as int)) as i32;
    match decimal_div_result(equity, usd, lp_supply, lp, usd) {
        Err(e) => Err(e),
        Ok(share) => match decimal_div_result(active_amount, lp, total_supply, lp, lp) {
            Err(e) => Err(e),
            Ok(factor) => match decimal_mul_result(share, usd, factor, lp, usd) {
                Err(e) => Err(e),
                Ok(compounding) => Ok((share, compounding)),
            },
        },
    }
}

/// The share price (equity over LP supply) and the compounding share price (the
/// share price times the active fraction of the compounding supply), both in
/// USD units.
pub fn token_prices(equity: u64, lp_supply: u64, active_amount: u64, total_supply: u64) -> (r: Result<(u64, u64), ComputeError>)
    ensures
        r == token_prices_result(equity, lp_supply, active_amount, total_supply),
{
    let usd = -(USD_DECIMALS as i32);
    let lp = -(LP_DECIMALS as i32);
    let share = match checked_decimal_div(equity, usd, lp_supply, lp, usd) {
        Ok(v) => v,
        Err(e) => {
            return Err(e);
        },
    };
    let factor = match checked_decimal_div(active_amount, lp, total_supply, lp, lp) {
        Ok(v) => v,
        Err(e) => {
            return Err(e);
        },
    };
    match checked_decimal_mul(share, usd, factor, lp, usd) {
        Ok(compounding) => Ok((share, compounding)),
        Err(e) => Err(e),
    }
}

/// The pool's own record.
#[derive(Clone, Debug)]
pub struct PoolSnapshot {
    /// Custody keys, in pool order.
    pub custodies: Vec<AccountKey>,
    /// Market keys, in pool order.
    pub markets: Vec<AccountKey>,
    pub fees_obligation_usd: u64,
    pub rebate_obligation_usd: u64,
    /// Share tokens that are actively compounding.
    pub compounding_active_amount: u64,
    /// All share tokens eligible for compounding.
    pub compounding_total_supply: u64,
}

/// The supplied custodies, prices and markets are the pool's own, in its order.
pub open spec fn inputs_match(
    pool: PoolSnapshot,
    custodies: Seq<CustodyHolding>,
    prices: Seq<DecimalValue>,
    markets: Seq<MarketSnapshot>,
) -> bool {
    &&& custodies.len() == pool.custodies@.len()
    &&& prices.len() == pool.custodies@.len()
    &&& markets.len() == pool.markets@.len()
    &&& forall|i: int| 0 <= i < custodies.len() ==> #[trigger] custodies[i].key == pool.custodies@[i]
    &&& forall|i: int| 0 <= i < markets.len() ==> #[trigger] markets[i].key == pool.markets@[i]
}

/// Outcome of `compute_pool_token_prices`.
pub open spec fn pool_prices_result(
    pool: PoolSnapshot,
    custodies: Seq<CustodyHolding>,
    prices: Seq<DecimalValue>,
    markets: Seq<MarketSnapshot>,
    lp_supply: u64,
) -> Result<(u64, u64), ComputeError> {
    if !inputs_match(pool, custodies, prices, markets) {
        Err(ComputeError::MissingInput)
    } else {
        match raw_aum_result(custodies, prices) {
            Err(e) => Err(e),
            Ok(aum) => match equity_after_obligations_result(aum, pool.fees_obligation_usd, pool.rebate_obligation_usd) {
                Err(e) => Err(e),
                Ok(equity) => match netted_equity(pool.custodies@, prices, markets, markets.len(), equity) {
                    Err(e) => Err(e),
                    Ok(net) => token_prices_result(
                        net,
                        lp_supply,
                        pool.compounding_active_amount,
                        pool.compounding_total_supply,
                    ),
                },
            },
        }
    }
}

/// Values the pool from its custodies (priced by `prices`, aligned with them)
/// and its markets, and returns the share price and the compounding share price.
pub fn compute_pool_token_prices(
    pool: &PoolSnapshot,
    custodies: &Vec<CustodyHolding>,
    prices: &Vec<DecimalValue>,
    markets: &Vec<MarketSnapshot>,
    lp_supply: u64,
) -> (r: Result<(u64, u64), ComputeError>)
    ensures
        r == pool_prices_result(*pool, custodies@, prices@, markets@, lp_supply),
{
    if custodies.len() != pool.custodies.len() || prices.len() != pool.custodies.len() || markets.len()
        != pool.markets.len() {
        return Err(ComputeError::MissingInput);
    }
    let mut i: usize = 0;
    while i < custodies.len()
        invariant
            custodies@.len() == pool.custodies@.len(),
            i <= custodies@.len(),
            forall|j: int| 0 <= j < i ==> #[trigger] custodies@[j].key == pool.custodies@[j],
        decreases custodies@.len() - i,
    {
        if custodies[i].key != pool.custodies[i] {
            return Err(ComputeError::MissingInput);
        }
        i = i + 1;
    }
    let mut i: usize = 0;
    while i < markets.len()
        invariant
            markets@.len() == pool.markets@.len(),
            i <= markets@.len(),
            forall|j: int| 0 <= j < i ==> #[trigger] markets@[j].key == pool.markets@[j],
        decreases markets@.len() - i,
    {
        if markets[i].key != pool.markets[i] {
            return Err(ComputeError::MissingInput);
        }
        i = i + 1;
    }
    let aum = match raw_aum(custodies, prices) {
        Ok(v) => v,
        Err(e) => {
            return Err(e);
        },
    };
    let equity = match equity_after_obligations(aum, pool.fees_obligation_usd, pool.rebate_obligation_usd) {
        Ok(v) => v,
        Err(e) => {
            return Err(e);
        },
    };
    let net = match net_unrealized_pnl(&pool.custodies, prices, markets, equity) {
        Ok(v) => v,
        Err(e) => {
            return Err(e);
        },
    };
    token_prices(net, lp_supply, pool.compounding_active_amount, pool.compounding_total_supply)
}


/// Everything the pull-oracle valuation reads: the pool, its share supply, its
/// custodies with one quote each (`oracles[i]` prices `custodies[i]`), and its
/// markets.
#[derive(Clone, Debug)]
pub struct GetPoolTokenPrices {
    pub pool: PoolSnapshot,
    pub lp_supply: u64,
    pub custodies: Vec<CustodyHolding>,
    pub oracles: Vec<PythPriceMessage>,
    pub markets: Vec<MarketSnapshot>,
}

/// Everything the protocol-oracle valuation reads, laid out as in
/// `GetPoolTokenPrices`.
#[derive(Clone, Debug)]
pub struct GetRealtimePoolTokenPrices {
    pub pool: PoolSnapshot,
    pub lp_supply: u64,
    pub custodies: Vec<CustodyHolding>,
    pub oracles: Vec<CustomOraclePrice>,
    pub markets: Vec<MarketSnapshot>,
}

/// Share price and compounding share price, with custody prices read from the
/// pull-oracle feed.
pub fn get_pool_token_prices(accounts: &GetPoolTokenPrices) -> (r: Result<(u64, u64), ComputeError>)
    ensures
        r == pool_prices_result(
            accounts.pool,
            accounts.custodies@,
            accounts.oracles@.map_values(|q: PythPriceMessage| pyth_quote(q)),
            accounts.markets@,
            accounts.lp_supply,
        ),
{
    let prices = pyth_quotes(&accounts.oracles);
    compute_pool_token_prices(&accounts.pool, &accounts.custodies, &prices, &accounts.markets, accounts.lp_supply)
}

/// Share price and compounding share price, with custody prices read from the
/// protocol's own oracle.
pub fn get_realtime_pool_token_prices(accounts: &GetRealtimePoolTokenPrices) -> (r: Result<(u64, u64), ComputeError>)
    ensures
        r == pool_prices_result(
            accounts.pool,
            accounts.custodies@,
            accounts.oracles@.map_values(|q: CustomOraclePrice| custom_quote(q)),
            accounts.markets@,
            accounts.lp_supply,
        ),
{
    let prices = custom_quotes(&accounts.oracles);
    compute_pool_token_prices(&accounts.pool, &accounts.custodies, &prices, &accounts.markets, accounts.lp_supply)
}

} // verus!
