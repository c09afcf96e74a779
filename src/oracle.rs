//! The two upstream price-feed formats, each normalised to a `DecimalValue`.

use vstd::prelude::*;

use crate::decimal::DecimalValue;

verus! {

/// A quote of the pull-oracle feed: a signed price and its exponent.
#[derive(Clone, Copy, Debug, PartialEq, Eq, Structural)]
pub struct PythPriceMessage {
    pub price: i64,
    pub exponent: i32,
}

/// A quote of the protocol's own oracle: an unsigned price and its exponent.
#[derive(Clone, Copy, Debug, PartialEq, Eq, Structural)]
pub struct CustomOraclePrice {
    pub price: u64,
    pub expo: i32,
}

/// The pull-oracle quote as a decimal value; the signed price is read as its
/// two's-complement 64-bit pattern.
pub open spec fn pyth_quote(q: PythPriceMessage) -> DecimalValue {
    DecimalValue {
        mantissa: if q.price >= 0 {
            q.price as u64
        } else {
            (q.price + 0x1_0000_0000_0000_0000int) as u64
        },
        exponent: q.exponent,
    }
}

/// The protocol-oracle quote as a decimal value.
pub open spec fn custom_quote(q: CustomOraclePrice) -> DecimalValue {
    DecimalValue { mantissa: q.price, exponent: q.expo }
}

impl PythPriceMessage {
    pub fn to_decimal(&self) -> (r: DecimalValue)
        ensures
            r == pyth_quote(*self),
    {
        let mantissa = if self.price >= 0 {
            self.price as u64
        } else {
            let magnitude_less_one = (-(self.price + 1)) as u64;
            u64::MAX - magnitude_less_one
        };
        DecimalValue { mantissa, exponent: self.exponent }
    }
}

impl CustomOraclePrice {
    pub fn to_decimal(&self) -> (r: DecimalValue)
        ensures
            r == custom_quote(*self),
    {
        DecimalValue { mantissa: self.price, exponent: self.expo }
    }
}

/// Every pull-oracle quote, normalised, in order.
pub fn pyth_quotes(feed: &Vec<PythPriceMessage>) -> (r: Vec<DecimalValue>)
    ensures
        r@ == feed@.map_values(|q: PythPriceMessage| pyth_quote(q)),
{
    let mut r: Vec<DecimalValue> = Vec::new();
    let mut i: usize = 0;
    while i < feed.len()
        invariant
            i <= feed@.len(),
            r@ == feed@.subrange(0, i as int).map_values(|q: PythPriceMessage| pyth_quote(q)),
        decreases feed@.len() - i,
    {
        r.push(feed[i].to_decimal());
        proof {
            assert(feed@.subrange(0, i + 1) =~= feed@.subrange(0, i as int).push(feed@[i as int]));
        }
        i = i + 1;
    }
    proof {
        assert(feed@.subrange(0, feed@.len() as int) =~= feed@);
    }
    r
}

/// Every protocol-oracle quote, normalised, in order.
pub fn custom_quotes(feed: &Vec<CustomOraclePrice>) -> (r: Vec<DecimalValue>)
    ensures
        r@ == feed@.map_values(|q: CustomOraclePrice| custom_quote(q)),
{
    let mut r: Vec<DecimalValue> = Vec::new();
    let mut i: usize = 0;
    while i < feed.len()
        invariant
            i <= feed@.len(),
            r@ == feed@.subrange(0, i as int).map_values(|q: CustomOraclePrice| custom_quote(q)),
        decreases feed@.len() - i,
    {
        r.push(feed[i].to_decimal());
        proof {
            assert(feed@.subrange(0, i + 1) =~= feed@.subrange(0, i as int).push(feed@[i as int]));
        }
        i = i + 1;
    }
    proof {
        assert(feed@.subrange(0, feed@.len() as int) =~= feed@);
    }
    r
}

} // verus!
