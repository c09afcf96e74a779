//! Fixed-point decimal values: a mantissa times a power of ten.

use vstd::arithmetic::div_mod::*;
use vstd::prelude::*;

use crate::{ComputeError, USD_DECIMALS};

verus! {

/// `10^n`.
pub open spec fn pow10(n: nat) -> nat
    decreases n,
{
    if n == 0 {
        1
    } else {
        10 * pow10((n - 1) as nat)
    }
}

/// Every power of ten is at least one.
pub proof fn lemma_pow10_positive(n: nat)
    ensures
        pow10(n) >= 1,
    decreases n,
{
    if n > 0 {
        lemma_pow10_positive((n - 1) as nat);
    }
}

/// Powers of ten grow with the exponent.
pub proof fn lemma_pow10_monotone(a: nat, b: nat)
    requires
        a <= b,
    ensures
        pow10(a) <= pow10(b),
    decreases b,
{
    if a < b {
        lemma_pow10_monotone(a, (b - 1) as nat);
        lemma_pow10_positive((b - 1) as nat);
    }
}

/// The powers of ten at the edges of the 64- and 128-bit ranges.
pub proof fn lemma_pow10_limits()
    ensures
        pow10(19) == 10_000_000_000_000_000_000nat,
        pow10(20) == 100_000_000_000_000_000_000nat,
        pow10(38) == 100_000_000_000_000_000_000_000_000_000_000_000_000nat,
        pow10(39) == 1_000_000_000_000_000_000_000_000_000_000_000_000_000nat,
{
    reveal_with_fuel(pow10, 40);
}

/// `10^n` as a 128-bit integer.
pub fn pow10_u128(n: u32) -> (r: u128)
    requires
        n <= 38,
    ensures
        r == pow10(n as nat),
{
    let mut r: u128 = 1;
    let mut i: u32 = 0;
    while i < n
        invariant
            i <= n,
            n <= 38,
            r == pow10(i as nat),
        decreases n - i,
    {
        proof {
            lemma_pow10_monotone((i + 1) as nat, 38);
            lemma_pow10_limits();
        }
        r = r * 10;
        i = i + 1;
    }
    r
}


/// `c1 * 10^e1 * c2 * 10^e2` expressed in units of `10^t`, truncated toward zero.
pub open spec fn scaled_product(c1: nat, e1: int, c2: nat, e2: int, t: int) -> nat {
    let p = e1 + e2 - t;
    if p >= 0 {
        c1 * c2 * pow10(p as nat)
    } else {
        (c1 * c2) / pow10((-p) as nat)
    }
}

/// `(c1 * 10^e1) / (c2 * 10^e2)` expressed in units of `10^t`, truncated toward zero.
pub open spec fn scaled_quotient(c1: nat, e1: int, c2: nat, e2: int, t: int) -> nat {
    let p = e1 - e2 - t;
    if p >= 0 {
        (c1 * pow10(p as nat)) / c2
    } else {
        c1 / (c2 * pow10((-p) as nat))
    }
}

/// Outcome of a fused multiplication: the product if it fits in 64 bits.
pub open spec fn decimal_mul_result(c1: u64, e1: i32, c2: u64, e2: i32, t: i32) -> Result<u64, ComputeError> {
    let v = scaled_product(c1 as nat, e1 as int, c2 as nat, e2 as int, t as int);
    if v <= u64::MAX {
        Ok(v as u64)
    } else {
        Err(ComputeError::ArithmeticOverflow)
    }
}

/// Outcome of a fused division: fails on a zero divisor or a quotient beyond 64 bits.
pub open spec fn decimal_div_result(c1: u64, e1: i32, c2: u64, e2: i32, t: i32) -> Result<u64, ComputeError> {
    let v = scaled_quotient(c1 as nat, e1 as int, c2 as nat, e2 as int, t as int);
    if c2 == 0 {
        Err(ComputeError::DivisionByZero)
    } else if v <= u64::MAX {
        Ok(v as u64)
    } else {
        Err(ComputeError::ArithmeticOverflow)
    }
}

/// A quotient of a number beyond 128 bits by a 64-bit divisor is beyond 64 bits.
proof fn lemma_quotient_too_large(n: int, d: int)
    requires
        n > u128::MAX,
        0 < d <= u64::MAX,
    ensures
        n / d > u64::MAX,
{
    let q = n / d;
    lemma_fundamental_div_mod(n, d);
    lemma_remainder_upper(n, d);
    lemma_remainder_lower(n, d);
    if q <= u64::MAX {
        assert(d * q <= u64::MAX * u64::MAX) by (nonlinear_arith)
            requires
                0 < d <= u64::MAX,
                q <= u64::MAX,
        ;
        if q < 0 {
            assert(d * q < 0) by (nonlinear_arith)
                requires
                    d > 0,
                    q < 0,
            ;
        }
    }
}

/// Multiplies `c1 * 10^e1` by `c2 * 10^e2` and expresses the product in units of
/// `10^t`, truncating toward zero, with a 128-bit intermediate.
pub fn checked_decimal_mul(c1: u64, e1: i32, c2: u64, e2: i32, t: i32) -> (r: Result<u64, ComputeError>)
    ensures
        r == decimal_mul_result(c1, e1, c2, e2, t),
{
    let p: i64 = e1 as i64 + e2 as i64 - t as i64;
    let ghost gp: int = e1 as int + e2 as int - t as int;
    proof {
        assert((c1 as nat) * (c2 as nat) <= u64::MAX * u64::MAX) by (nonlinear_arith)
            requires
                c1 <= u64::MAX,
                c2 <= u64::MAX,
        ;
        lemma_pow10_limits();
    }
    let prod: u128 = c1 as u128 * c2 as u128;
    let ghost gprod: nat = (c1 as nat) * (c2 as nat);
    if prod == 0 {
        proof {
            if gp < 0 {
                lemma_pow10_positive((-gp) as nat);
                lemma_div_of0(pow10((-gp) as nat) as int);
            }
        }
        return Ok(0);
    }
    if p >= 0 {
        if p >= 20 {
            proof {
                lemma_pow10_monotone(20, gp as nat);
                assert(gprod * pow10(gp as nat) >= pow10(gp as nat)) by (nonlinear_arith)
                    requires
                        gprod >= 1,
                ;
            }
            return Err(ComputeError::ArithmeticOverflow);
        }
        let f = pow10_u128(p as u32);
        match prod.checked_mul(f) {
            None => {
                Err(ComputeError::ArithmeticOverflow)
            },
            Some(v) => {
                if v > u64::MAX as u128 {
                    Err(ComputeError::ArithmeticOverflow)
                } else {
                    Ok(v as u64)
                }
            },
        }
    } else {
        let k: i64 = -p;
        if k > 38 {
            proof {
                lemma_pow10_monotone(39, k as nat);
                lemma_basic_div(gprod as int, pow10(k as nat) as int);
            }
            return Ok(0);
        }
        let f = pow10_u128(k as u32);
        proof {
            lemma_pow10_positive(k as nat);
            lemma_div_is_ordered_by_denominator(gprod as int, 1, f as int);
        }
        let v = prod / f;
        if v > u64::MAX as u128 {
            Err(ComputeError::ArithmeticOverflow)
        } else {
            Ok(v as u64)
        }
    }
}


/// Divides `c1 * 10^e1` by `c2 * 10^e2` and expresses the quotient in units of
/// `10^t`, truncating toward zero, with a 128-bit intermediate.
pub fn checked_decimal_div(c1: u64, e1: i32, c2: u64, e2: i32, t: i32) -> (r: Result<u64, ComputeError>)
    ensures
        r == decimal_div_result(c1, e1, c2, e2, t),
{
    if c2 == 0 {
        return Err(ComputeError::DivisionByZero);
    }
    let p: i64 = e1 as i64 - e2 as i64 - t as i64;
    let ghost gp: int = e1 as int - e2 as int - t as int;
    proof {
        lemma_pow10_limits();
    }
    if c1 == 0 {
        proof {
            if gp >= 0 {
                lemma_div_of0(c2 as int);
            } else {
                lemma_pow10_positive((-gp) as nat);
                assert((c2 as nat) * pow10((-gp) as nat) >= 1) by (nonlinear_arith)
                    requires
                        c2 >= 1,
                        pow10((-gp) as nat) >= 1,
                ;
                lemma_div_of0(((c2 as nat) * pow10((-gp) as nat)) as int);
            }
        }
        return Ok(0);
    }
    if p >= 0 {
        if p > 38 {
            proof {
                lemma_pow10_monotone(39, gp as nat);
                assert((c1 as nat) * pow10(gp as nat) >= pow10(gp as nat)) by (nonlinear_arith)
                    requires
                        c1 >= 1,
                ;
                lemma_quotient_too_large((c1 as nat * pow10(gp as nat)) as int, c2 as int);
            }
            return Err(ComputeError::ArithmeticOverflow);
        }
        let f = pow10_u128(p as u32);
        match (c1 as u128).checked_mul(f) {
            None => {
                proof {
                    lemma_quotient_too_large((c1 as nat * pow10(gp as nat)) as int, c2 as int);
                }
                Err(ComputeError::ArithmeticOverflow)
            },
            Some(n) => {
                let q = n / (c2 as u128);
                if q > u64::MAX as u128 {
                    Err(ComputeError::ArithmeticOverflow)
                } else {
                    Ok(q as u64)
                }
            },
        }
    } else {
        let k: i64 = -p;
        if k >= 20 {
            proof {
                lemma_pow10_monotone(20, k as nat);
                assert((c2 as nat) * pow10(k as nat) >= pow10(k as nat)) by (nonlinear_arith)
                    requires
                        c2 >= 1,
                ;
                lemma_basic_div(c1 as int, ((c2 as nat) * pow10(k as nat)) as int);
            }
            return Ok(0);
        }
        let f = pow10_u128(k as u32);
        proof {
            lemma_pow10_monotone(k as nat, 19);
            assert((c2 as nat) * pow10(k as nat) <= u64::MAX * pow10(19)) by (nonlinear_arith)
                requires
                    c2 <= u64::MAX,
                    pow10(k as nat) <= pow10(19),
            ;
            lemma_pow10_positive(k as nat);
            assert((c2 as nat) * pow10(k as nat) >= 1) by (nonlinear_arith)
                requires
                    c2 >= 1,
                    pow10(k as nat) >= 1,
            ;
            lemma_div_is_ordered_by_denominator(c1 as int, 1, ((c2 as nat) * pow10(k as nat)) as int);
        }
        let d: u128 = (c2 as u128) * f;
        let q = (c1 as u128) / d;
        Ok(q as u64)
    }
}


/// The mantissa `m` at exponent `from` re-expressed at exponent `to`: a coarser
/// exponent truncates toward zero, a finer one must stay within 64 bits. A shift
/// of twenty or more decimal places is refused either way.
pub open spec fn rescaled(m: nat, from: int, to: int) -> Option<nat> {
    if to == from {
        Some(m)
    } else if to > from {
        if to - from >= 20 {
            None
        } else {
            Some(m / pow10((to - from) as nat))
        }
    } else {
        if from - to >= 20 || m * pow10((from - to) as nat) > u64::MAX {
            None
        } else {
            Some(m * pow10((from - to) as nat))
        }
    }
}

/// The USD amount, in units of `10^-USD_DECIMALS`, of `amount` raw units of an
/// asset with `decimals` places, priced at `price`.
pub open spec fn usd_value(price: DecimalValue, amount: u64, decimals: u8) -> nat {
    scaled_product(amount as nat, -(decimals as int), price.mantissa as nat, price.exponent as int, -(USD_DECIMALS as int))
}

/// The number `mantissa * 10^exponent`.
#[derive(Clone, Copy, Debug, PartialEq, Eq, Structural)]
pub struct DecimalValue {
    pub mantissa: u64,
    pub exponent: i32,
}

impl DecimalValue {
    pub fn new(mantissa: u64, exponent: i32) -> (r: DecimalValue)
        ensures
            r.mantissa == mantissa,
            r.exponent == exponent,
    {
        DecimalValue { mantissa, exponent }
    }

    /// Outcome of `scale_to_exponent`.
    pub open spec fn rescale_result(self, target: i32) -> Result<DecimalValue, ComputeError> {
        match rescaled(self.mantissa as nat, self.exponent as int, target as int) {
            Some(m) => Ok(DecimalValue { mantissa: m as u64, exponent: target }),
            None => Err(ComputeError::ArithmeticOverflow),
        }
    }

    /// Re-expresses this value at `target` exponent.
    pub fn scale_to_exponent(&self, target: i32) -> (r: Result<DecimalValue, ComputeError>)
        ensures
            r == self.rescale_result(target),
    {
        if target == self.exponent {
            return Ok(*self);
        }
        let delta: i64 = target as i64 - self.exponent as i64;
        proof {
            lemma_pow10_limits();
        }
        if delta > 0 {
            if delta >= 20 {
                return Err(ComputeError::ArithmeticOverflow);
            }
            let f = pow10_u128(delta as u32);
            proof {
                lemma_pow10_positive(delta as nat);
                lemma_div_is_ordered_by_denominator(self.mantissa as int, 1, f as int);
            }
            let m = (self.mantissa as u128) / f;
            Ok(DecimalValue { mantissa: m as u64, exponent: target })
        } else {
            let k: i64 = -delta;
            if k >= 20 {
                return Err(ComputeError::ArithmeticOverflow);
            }
            let f = pow10_u128(k as u32);
            proof {
                lemma_pow10_monotone(k as nat, 19);
                assert((self.mantissa as nat) * pow10(k as nat) <= u64::MAX * pow10(19)) by (nonlinear_arith)
                    requires
                        self.mantissa <= u64::MAX,
                        pow10(k as nat) <= pow10(19),
                ;
            }
            let m = (self.mantissa as u128) * f;
            if m > u64::MAX as u128 {
                Err(ComputeError::ArithmeticOverflow)
            } else {
                Ok(DecimalValue { mantissa: m as u64, exponent: target })
            }
        }
    }

    /// Sum of two values of the same exponent.
    pub fn checked_add(&self, other: &DecimalValue) -> (r: Result<DecimalValue, ComputeError>)
        ensures
            self.exponent != other.exponent ==> r == Err::<DecimalValue, ComputeError>(ComputeError::ExponentMismatch),
            self.exponent == other.exponent && self.mantissa + other.mantissa > u64::MAX
                ==> r == Err::<DecimalValue, ComputeError>(ComputeError::ArithmeticOverflow),
            self.exponent == other.exponent && self.mantissa + other.mantissa <= u64::MAX ==> r == Ok::<
                DecimalValue,
                ComputeError,
            >(DecimalValue { mantissa: (self.mantissa + other.mantissa) as u64, exponent: self.exponent }),
    {
        if self.exponent != other.exponent {
            return Err(ComputeError::ExponentMismatch);
        }
        match self.mantissa.checked_add(other.mantissa) {
            Some(m) => Ok(DecimalValue { mantissa: m, exponent: self.exponent }),
            None => Err(ComputeError::ArithmeticOverflow),
        }
    }

    /// Difference of two values of the same exponent; fails below zero.
    pub fn checked_sub(&self, other: &DecimalValue) -> (r: Result<DecimalValue, ComputeError>)
        ensures
            self.exponent != other.exponent ==> r == Err::<DecimalValue, ComputeError>(ComputeError::ExponentMismatch),
            self.exponent == other.exponent && self.mantissa < other.mantissa
                ==> r == Err::<DecimalValue, ComputeError>(ComputeError::ArithmeticOverflow),
            self.exponent == other.exponent && self.mantissa >= other.mantissa ==> r == Ok::<
                DecimalValue,
                ComputeError,
            >(DecimalValue { mantissa: (self.mantissa - other.mantissa) as u64, exponent: self.exponent }),
    {
        if self.exponent != other.exponent {
            return Err(ComputeError::ExponentMismatch);
        }
        match self.mantissa.checked_sub(other.mantissa) {
            Some(m) => Ok(DecimalValue { mantissa: m, exponent: self.exponent }),
            None => Err(ComputeError::ArithmeticOverflow),
        }
    }

    /// Product of two values of the same exponent, kept at that exponent.
    pub fn checked_mul(&self, other: &DecimalValue) -> (r: Result<DecimalValue, ComputeError>)
        ensures
            self.exponent != other.exponent ==> r == Err::<DecimalValue, ComputeError>(ComputeError::ExponentMismatch),
            self.exponent == other.exponent ==> r == match decimal_mul_result(
                self.mantissa,
                self.exponent,
                other.mantissa,
                other.exponent,
                self.exponent,
            ) {
                Ok(m) => Ok(DecimalValue { mantissa: m, exponent: self.exponent }),
                Err(e) => Err(e),
            },
    {
        if self.exponent != other.exponent {
            return Err(ComputeError::ExponentMismatch);
        }
        match checked_decimal_mul(self.mantissa, self.exponent, other.mantissa, other.exponent, self.exponent) {
            Ok(m) => Ok(DecimalValue { mantissa: m, exponent: self.exponent }),
            Err(e) => Err(e),
        }
    }

    /// Quotient of two values of the same exponent, kept at that exponent.
    pub fn checked_div(&self, other: &DecimalValue) -> (r: Result<DecimalValue, ComputeError>)
        ensures
            self.exponent != other.exponent ==> r == Err::<DecimalValue, ComputeError>(ComputeError::ExponentMismatch),
            self.exponent == other.exponent ==> r == match decimal_div_result(
                self.mantissa,
                self.exponent,
                other.mantissa,
                other.exponent,
                self.exponent,
            ) {
                Ok(m) => Ok(DecimalValue { mantissa: m, exponent: self.exponent }),
                Err(e) => Err(e),
            },
    {
        if self.exponent != other.exponent {
            return Err(ComputeError::ExponentMismatch);
        }
        match checked_decimal_div(self.mantissa, self.exponent, other.mantissa, other.exponent, self.exponent) {
            Ok(m) => Ok(DecimalValue { mantissa: m, exponent: self.exponent }),
            Err(e) => Err(e),
        }
    }

    /// Outcome of `get_asset_amount_usd`.
    pub open spec fn asset_usd_result(self, amount: u64, decimals: u8) -> Result<u64, ComputeError> {
        if usd_value(self, amount, decimals) <= u64::MAX {
            Ok(usd_value(self, amount, decimals) as u64)
        } else {
            Err(ComputeError::ArithmeticOverflow)
        }
    }

    /// USD amount of `amount` raw units of an asset with `decimals` places at this price.
    pub fn get_asset_amount_usd(&self, amount: u64, decimals: u8) -> (r: Result<u64, ComputeError>)
        ensures
            r == self.asset_usd_result(amount, decimals),
    {
        checked_decimal_mul(amount, -(decimals as i32), self.mantissa, self.exponent, -(USD_DECIMALS as i32))
    }
}

/// Rescaling to a finer exponent and back to the starting one gives back the
/// starting mantissa exactly.
pub proof fn lemma_rescale_round_trip(v: DecimalValue, finer: i32)
    requires
        finer < v.exponent,
        v.rescale_result(finer) is Ok,
    ensures
        v.rescale_result(finer)->Ok_0.rescale_result(v.exponent) == Ok::<DecimalValue, ComputeError>(v),
{
    let k = (v.exponent - finer) as nat;
    let w = v.rescale_result(finer)->Ok_0;
    lemma_pow10_positive(k);
    lemma_div_by_multiple(v.mantissa as int, pow10(k) as int);
    assert(w.mantissa == v.mantissa * pow10(k));
}

/// For a fixed quantity, a higher price at the same exponent never gives a lower
/// USD valuation.
pub proof fn lemma_valuation_monotone(low: DecimalValue, high: DecimalValue, amount: u64, decimals: u8)
    requires
        low.exponent == high.exponent,
        low.mantissa <= high.mantissa,
    ensures
        usd_value(low, amount, decimals) <= usd_value(high, amount, decimals),
{
    let p = -(decimals as int) + low.exponent as int + (USD_DECIMALS as int);
    let a = amount as nat;
    let l = low.mantissa as nat;
    let h = high.mantissa as nat;
    assert(a * l <= a * h) by (nonlinear_arith)
        requires
            l <= h,
    ;
    if p >= 0 {
        lemma_pow10_positive(p as nat);
        assert(a * l * pow10(p as nat) <= a * h * pow10(p as nat)) by (nonlinear_arith)
            requires
                a * l <= a * h,
                pow10(p as nat) >= 1,
        ;
    } else {
        lemma_pow10_positive((-p) as nat);
        lemma_div_is_ordered((a * l) as int, (a * h) as int, pow10((-p) as nat) as int);
    }
}

} // verus!
