//! How far the value of a pool's two reserves drifts apart, and what that adds
//! to its spread.
use vstd::prelude::*;

use super::params::PoolParams;
use crate::num::{abs_diff_u128, iabs, signed128, u128_as_i128, wrap128};
use crate::protocols::clmm_math::u256::{two128, two256, U256};
use crate::wide::{checked_add, difference, product, quotient, to_u128};

verus! {

#[derive(Debug, Clone, Copy, PartialEq, Eq, Structural)]
pub struct HumidifiState {
    pub base_amount: u64,
    pub quote_amount: u64,
    pub params: PoolParams,
}

/// A signed number as its magnitude and sign.
pub open spec fn signed(magnitude: int, negative: bool) -> int {
    if negative {
        -magnitude
    } else {
        magnitude
    }
}

/// The sum of two signed numbers.
fn signed_sum(a: U256, a_neg: bool, b: U256, b_neg: bool) -> (r: (U256, bool))
    requires
        a.value() + b.value() < two256(),
    ensures
        signed(r.0.value(), r.1) == signed(a.value(), a_neg) + signed(b.value(), b_neg),
        r.0.value() <= a.value() + b.value(),
{
    proof {
        a.lemma_value_range();
        b.lemma_value_range();
    }
    if a_neg == b_neg {
        let sum = checked_add(a, b);
        (sum.unwrap(), a_neg)
    } else if a.is_less(b) {
        (difference(b, a), b_neg)
    } else {
        (difference(a, b), a_neg)
    }
}

/// A value shifted left by 48 places.
fn shifted_48(x: u128) -> (r: U256)
    ensures
        r.value() == x * 0x1_0000_0000_0000,
{
    product(x, 0x1_0000_0000_0000)
}

/// The quotient of two magnitudes with 47 fractional bits, found with eleven
/// more; nothing where it needs more than 128 bits.
pub open spec fn ratio47(num: int, den: int) -> Option<int> {
    let q = ((num * 0x400_0000_0000_0000) / den) / 0x800;
    if q < two128() {
        Some(q)
    } else {
        None
    }
}

fn get_ratio47(num: U256, den: U256) -> (r: Option<u128>)
    requires
        den.value() > 0,
        num.value() < 0x1_0000_0000_0000_0000_0000_0000_0000_0000_0000_0000_0000int,
        2 * den.value() <= two256(),
    ensures
        r is Some == ratio47(num.value(), den.value()) is Some,
        r is Some ==> r->0 == ratio47(num.value(), den.value())->0,
{
    proof {
        num.lemma_value_range();
        vstd::arithmetic::power2::lemma2_to64();
        vstd::arithmetic::power2::lemma2_to64_rest();
        assert(num.value() * 0x400_0000_0000_0000 < two256());
    }
    let up = num.shl(58);
    assert(up.value() == num.value() * 0x400_0000_0000_0000);
    let divided = quotient(up, den);
    to_u128(divided.shr(11))
}

impl HumidifiState {
    /// An input in quote tokens.
    pub open spec fn input_in_quote(self, input: int) -> int {
        (input * self.params.price_q48) / 0x1_0000_0000_0000
    }

    /// The value of the base reserve after a swap.
    pub open spec fn base_value(self, input: int, is_b2q: bool) -> int {
        (if is_b2q {
            self.base_amount + input
        } else {
            self.base_amount - input
        }) * self.params.price_q48
    }

    /// The value of the quote reserve after a swap, to the same scale.
    pub open spec fn quote_value(self, input: int, is_b2q: bool) -> int {
        (if is_b2q {
            self.quote_amount - self.input_in_quote(input)
        } else {
            self.quote_amount + self.input_in_quote(input)
        }) * 0x1_0000_0000_0000
    }

    /// The difference of the two reserves' values over their sum; zero where
    /// the sum is. Nothing where it leaves 128 bits.
    pub open spec fn raw_imbalance(self, input: int, is_b2q: bool) -> Option<int> {
        let num = self.base_value(input, is_b2q) - self.quote_value(input, is_b2q);
        let den = self.base_value(input, is_b2q) + self.quote_value(input, is_b2q);
        if den == 0 {
            Some(0)
        } else {
            match ratio47(iabs(num), iabs(den)) {
                None => None,
                Some(m) => {
                    let word = signed128(m);
                    if (num < 0) == (den < 0) {
                        Some(word)
                    } else if word == i128::MIN {
                        None
                    } else {
                        Some(-word)
                    }
                },
            }
        }
    }

    pub fn compute_raw_imbalance(&self, input_amount: u64, is_base_to_quote: bool) -> (r: Option<i128>)
        ensures
            r is Some == self.raw_imbalance(input_amount as int, is_base_to_quote) is Some,
            r is Some ==> r->0 == self.raw_imbalance(input_amount as int, is_base_to_quote)->0,
    {
        let price = self.params.price_q48 as u128;
        let input = input_amount as u128;
        let base = self.base_amount as u128;
        let quote = self.quote_amount as u128;
        proof {
            assert(0 <= input * price <= u64::MAX * u64::MAX) by (nonlinear_arith)
                requires
                    0 <= input <= u64::MAX,
                    0 <= price <= u64::MAX,
            ;
        }
        let in_quote: u128 = input * price / 0x1_0000_0000_0000;
        let (new_base, base_neg): (u128, bool) = if is_base_to_quote {
            (base + input, false)
        } else {
            (abs_diff_u128(base, input), base < input)
        };
        let (new_quote, quote_neg): (u128, bool) = if is_base_to_quote {
            (abs_diff_u128(quote, in_quote), quote < in_quote)
        } else {
            (quote + in_quote, false)
        };
        let base_value = product(new_base, price);
        let quote_value = shifted_48(new_quote);
        let ghost bv = self.base_value(input_amount as int, is_base_to_quote);
        let ghost qv = self.quote_value(input_amount as int, is_base_to_quote);
        proof {
            assert(bv == signed(new_base as int, base_neg) * price);
            assert((-new_base) * price == -(new_base * price)) by (nonlinear_arith);
            assert(signed(base_value.value(), base_neg) == bv);
            assert(signed(quote_value.value(), quote_neg) == qv);
            assert(0 <= new_base * price <= 0x2_0000_0000_0000_0000 * 0x1_0000_0000_0000_0000) by (nonlinear_arith)
                requires
                    0 <= new_base <= 0x2_0000_0000_0000_0000,
                    0 <= price <= 0x1_0000_0000_0000_0000,
            ;
        }
        let (num, num_neg) = signed_sum(base_value, base_neg, quote_value, !quote_neg);
        let (den, den_neg) = signed_sum(base_value, base_neg, quote_value, quote_neg);
        proof {
            num.lemma_value_range();
            den.lemma_value_range();
            assert(signed(num.value(), num_neg) == bv - qv);
            assert(signed(den.value(), den_neg) == bv + qv);
        }
        if den.is_zero() {
            return Some(0);
        }
        let m = get_ratio47(num, den)?;
        let word = u128_as_i128(m);
        let flip = !num.is_zero() && num_neg != den_neg || num.is_zero() && den_neg;
        proof {
            assert(num.value() == iabs(bv - qv) && den.value() == iabs(bv + qv));
            assert(flip == !((bv - qv < 0) == (bv + qv < 0)));
            if num.value() == 0 {
                vstd::arithmetic::div_mod::lemma_div_of0(den.value());
                assert(m == 0);
            }
        }
        if flip {
            0i128.checked_sub(word)
        } else {
            Some(word)
        }
    }

    /// A tick as a spread: tenths with 48 fractional bits; the shift loses
    /// what goes above 128 bits.
    pub open spec fn tick_spread(tick: int) -> int {
        wrap128(tick * 0x1_0000_0000_0000) / 10
    }

    fn get_tick_spread(tick: u128) -> (r: i128)
        ensures
            r == Self::tick_spread(tick as int),
    {
        let up = tick % 0x1_0000_0000_0000_0000_0000 * 0x1_0000_0000_0000;
        assert(up == wrap128(tick * 0x1_0000_0000_0000));
        (up / 10) as i128
    }

    /// The point past which the tick no longer grows.
    pub open spec fn last_ratio(self) -> int {
        if self.params.x1 != 0 {
            self.params.x1 as int
        } else {
            2 * self.params.fee_denominator_high - self.params.imbalance_m0
        }
    }

    pub open spec fn top_tick(self) -> int {
        if self.params.max_tick != 0 {
            self.params.max_tick as int
        } else {
            100_000_000
        }
    }

    /// The tick of a ratio: proportional where a rate is given, else a line
    /// through the given points. Nothing where a difference falls below zero.
    pub open spec fn imbalance_tick(self, ratio: int) -> Option<int> {
        let p = self.params;
        let start = p.fee_denominator as int;
        let m0 = p.imbalance_m0 as int;
        let m1 = p.fee_denominator_high as int;
        let t0 = p.tick_offset as int;
        let t1 = p.fee_factor_high as int;
        if start == 0 {
            Some(0)
        } else if p.fee_bps != 0 {
            Some((p.fee_bps * ratio) / start)
        } else if ratio < start {
            Some(0)
        } else if self.last_ratio() < 0 {
            None
        } else if ratio < m0 {
            Some((t0 * (ratio - start)) / (m0 - start))
        } else if ratio < m1 {
            if t1 < t0 {
                None
            } else {
                Some(t0 + ((t1 - t0) * (ratio - m0)) / (m1 - m0))
            }
        } else if ratio < self.last_ratio() {
            if self.top_tick() < t1 {
                None
            } else {
                Some(t1 + ((self.top_tick() - t1) * (ratio - m1)) / (self.last_ratio() - m1))
            }
        } else {
            Some(self.top_tick())
        }
    }

    /// The spread that an imbalance adds.
    pub open spec fn imbalance_spread(self, off: int) -> Option<int> {
        match self.imbalance_tick(off / 0x1_0000_0000_0000) {
            None => None,
            Some(tick) => Some(Self::tick_spread(tick)),
        }
    }

    pub fn compute_imbalance(&self, off: u128) -> (r: Option<i128>)
        ensures
            r is Some == self.imbalance_spread(off as int) is Some,
            r is Some ==> r->0 == self.imbalance_spread(off as int)->0,
    {
        let ratio: u128 = off / 0x1_0000_0000_0000;
        let start = self.params.fee_denominator as u128;
        let fee_bps = self.params.fee_bps as u128;
        if start == 0 {
            return Some(Self::get_tick_spread(0));
        }
        if fee_bps != 0 {
            proof {
                lemma_small_product(fee_bps as int, ratio as int);
            }
            return Some(Self::get_tick_spread(fee_bps * ratio / start));
        }
        if ratio < start {
            return Some(Self::get_tick_spread(0));
        }
        let m0 = self.params.imbalance_m0 as u128;
        let m1 = self.params.fee_denominator_high as u128;
        let t0 = self.params.tick_offset as u128;
        let t1 = self.params.fee_factor_high as u128;
        let top: u128 = if self.params.max_tick != 0 {
            self.params.max_tick as u128
        } else {
            100_000_000
        };
        let last: u128 = if self.params.x1 != 0 {
            self.params.x1 as u128
        } else {
            (2 * m1).checked_sub(m0)?
        };
        let tick = if ratio < m0 {
            proof {
                lemma_small_product(t0 as int, ratio - start);
            }
            t0 * (ratio - start) / (m0 - start)
        } else if ratio < m1 {
            let rise = t1.checked_sub(t0)?;
            proof {
                lemma_small_product(rise as int, ratio - m0);
                lemma_small_quotient(rise * (ratio - m0), m1 - m0);
            }
            t0 + rise * (ratio - m0) / (m1 - m0)
        } else if ratio < last {
            let rise = top.checked_sub(t1)?;
            proof {
                lemma_small_product(rise as int, ratio - m1);
                lemma_small_quotient(rise * (ratio - m1), last - m1);
            }
            t1 + rise * (ratio - m1) / (last - m1)
        } else {
            top
        };
        Some(Self::get_tick_spread(tick))
    }
}

proof fn lemma_small_product(a: int, b: int)
    requires
        0 <= a <= u32::MAX,
        0 <= b <= 0xffff_ffff_ffff_ffff_ffff,
    ensures
        0 <= a * b <= 0xffff_ffff * 0xffff_ffff_ffff_ffff_ffff,
{
    assert(0 <= a * b <= 0xffff_ffff * 0xffff_ffff_ffff_ffff_ffff) by (nonlinear_arith)
        requires
            0 <= a <= 0xffff_ffff,
            0 <= b <= 0xffff_ffff_ffff_ffff_ffff,
    ;
}

proof fn lemma_small_quotient(n: int, d: int)
    requires
        0 <= n,
        0 < d,
    ensures
        0 <= n / d <= n,
{
    vstd::arithmetic::div_mod::lemma_div_pos_is_pos(n, d);
    vstd::arithmetic::div_mod::lemma_div_is_ordered_by_denominator(n, 1, d);
}

proof fn lemma_segment(rise: int, far: int, further: int, span: int)
    requires
        0 <= rise,
        0 <= far <= further <= span,
        0 < span,
    ensures
        0 <= (rise * far) / span <= (rise * further) / span <= rise,
        far == 0 ==> (rise * far) / span == 0,
{
    assert(0 <= rise * far <= rise * further <= rise * span) by (nonlinear_arith)
        requires
            0 <= rise,
            0 <= far <= further <= span,
    ;
    vstd::arithmetic::div_mod::lemma_div_is_ordered(rise * far, rise * further, span);
    vstd::arithmetic::div_mod::lemma_div_is_ordered(rise * further, rise * span, span);
    vstd::arithmetic::div_mod::lemma_div_pos_is_pos(rise * far, span);
    vstd::arithmetic::div_mod::lemma_div_by_multiple(rise, span);
    if far == 0 {
        assert(rise * far == 0) by (nonlinear_arith)
            requires
                far == 0,
        ;
        vstd::arithmetic::div_mod::lemma_basic_div(0, span);
    }
}

/// The charge for an imbalance grows with it: nothing up to where it sets in,
/// then along straight lines through the pool's points, and the highest charge
/// from the last of them on.
pub proof fn law_charge_grows_with_the_imbalance(s: HumidifiState, ratio: int, more: int)
    requires
        s.params.fee_bps == 0,
        0 < s.params.fee_denominator < s.params.imbalance_m0 < s.params.fee_denominator_high < s.last_ratio(),
        s.params.tick_offset <= s.params.fee_factor_high <= s.top_tick(),
        0 <= ratio <= more,
    ensures
        s.imbalance_tick(ratio) is Some,
        s.imbalance_tick(more) is Some,
        0 <= s.imbalance_tick(ratio)->0 <= s.imbalance_tick(more)->0 <= s.top_tick(),
        ratio <= s.params.fee_denominator ==> s.imbalance_tick(ratio)->0 == 0,
        ratio == s.params.imbalance_m0 ==> s.imbalance_tick(ratio)->0 == s.params.tick_offset,
        ratio == s.params.fee_denominator_high ==> s.imbalance_tick(ratio)->0 == s.params.fee_factor_high,
        ratio >= s.last_ratio() ==> s.imbalance_tick(ratio)->0 == s.top_tick(),
{
    let start = s.params.fee_denominator as int;
    let m0 = s.params.imbalance_m0 as int;
    let m1 = s.params.fee_denominator_high as int;
    let m2 = s.last_ratio();
    let t0 = s.params.tick_offset as int;
    let t1 = s.params.fee_factor_high as int;
    let t2 = s.top_tick();
    lemma_in_segment(t0, start, m0, ratio, more);
    lemma_in_segment(t1 - t0, m0, m1, ratio, more);
    lemma_in_segment(t2 - t1, m1, m2, ratio, more);
}

proof fn lemma_in_segment(rise: int, from: int, to: int, ratio: int, more: int)
    requires
        0 <= rise,
        from < to,
        ratio <= more,
    ensures
        from <= ratio <= to ==> 0 <= (rise * (ratio - from)) / (to - from) <= rise,
        from <= more <= to ==> 0 <= (rise * (more - from)) / (to - from) <= rise,
        from <= ratio && more <= to ==> (rise * (ratio - from)) / (to - from) <= (rise * (more - from)) / (to - from),
        ratio == from ==> (rise * (ratio - from)) / (to - from) == 0,
{
    if from <= ratio <= to {
        lemma_segment(rise, ratio - from, ratio - from, to - from);
    }
    if from <= more <= to {
        lemma_segment(rise, more - from, more - from, to - from);
    }
    if from <= ratio && more <= to {
        lemma_segment(rise, ratio - from, more - from, to - from);
    }
}

}
