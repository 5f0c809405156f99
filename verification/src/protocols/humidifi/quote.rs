//! The quote of a Humidifi pool.
use vstd::prelude::*;

use super::imbalance::HumidifiState;
use crate::num::{
    abs_diff_u128, fits_i128, fits_u128, i128_abs, i128_as_u128, iabs, isqrt, isqrt_of, low64, signed128, u128_as_i128,
    wrap128, wrap64,
};
use crate::protocols::clmm_math::u256::{two128, U256};
use crate::wide::{checked_add, checked_mul, distance, fits_u256, product, quotient, to_u128};

verus! {

pub const FP_ONE: u128 = 0x1_0000_0000_0000;

/// What is added before the last division.
pub const DIVIDEND_BASE: i128 = 0x6666_6666_6666;

/// What an imbalance is scaled by.
pub const MUL_PARAM: i128 = 0x86a0_0000_0000_0000;

/// What the spread is taken over.
pub const FINAL_DIVISOR: u128 = 0x2710_0000_0000_0001;

proof fn lemma_u64_product(a: int, b: int)
    requires
        0 <= a <= u64::MAX,
        0 <= b <= u64::MAX,
    ensures
        0 <= a * b <= u64::MAX * u64::MAX,
{
    assert(0 <= a * b <= u64::MAX * u64::MAX) by (nonlinear_arith)
        requires
            0 <= a <= u64::MAX,
            0 <= b <= u64::MAX,
    ;
}

/// A value shifted left by up to 82 places over a divisor.
fn shifted_quotient(x: u128, factor: u128, d: u128) -> (r: Option<u128>)
    requires
        d > 0,
    ensures
        r is Some == ((x * factor) / (d as int) < two128()),
        r is Some ==> r->0 == (x * factor) / d as int,
{
    let n = product(x, factor);
    let q = quotient(n, U256::from_u128(d));
    to_u128(q)
}

impl HumidifiState {
    pub open spec fn valid(self) -> bool {
        self.params.price_q48 != 0 && self.base_amount != 0 && self.quote_amount != 0
    }

    pub fn is_valid(&self) -> (r: bool)
        ensures
            r == self.valid(),
    {
        self.params.price_q48 != 0 && self.base_amount != 0 && self.quote_amount != 0
    }

    pub open spec fn stale(self, slot: int) -> bool {
        slot > crate::num::imin(self.params.valid_thresh + self.params.last_update, u64::MAX as int)
    }

    pub fn is_stale(&self, current_slot: u64) -> (r: bool)
        ensures
            r == self.stale(current_slot as int),
    {
        current_slot > self.params.valid_thresh.saturating_add(self.params.last_update)
    }

    /// The pool's depth, with 50 bits below the whole.
    pub open spec fn depth(self) -> int {
        self.params.l0_upper * 0x4_0000_0000_0000 + self.params.l0_lower as int / 0x4000
    }

    /// The pool's depth as the normalising divisor, cut to 64 bits.
    pub open spec fn norm_divisor(self) -> int {
        wrap64(self.params.l0_upper * 0x1_0000) + self.params.l0_lower as int / 0x1_0000_0000_0000
    }

    fn get_norm_divisor(&self) -> (r: u64)
        ensures
            r == self.norm_divisor(),
    {
        self.params.l0_upper % 0x1_0000_0000_0000 * 0x1_0000 + self.params.l0_lower / 0x1_0000_0000_0000
    }

    /// A reserve's distance from its target over the depth; nothing where it
    /// leaves 128 bits.
    pub open spec fn x_full(self, delta: int, round_up: bool) -> Option<int> {
        let q = (delta * 0x4_0000_0000_0000_0000_0000) / self.depth();
        if self.depth() == 0 {
            Some(0)
        } else if q >= two128() || (round_up && q + 1 >= two128()) {
            None
        } else if round_up {
            Some(q + 1)
        } else {
            Some(q)
        }
    }

    pub fn compute_x_full(&self, delta: u64, round_up: bool) -> (r: Option<u128>)
        ensures
            r is Some == self.x_full(delta as int, round_up) is Some,
            r is Some ==> r->0 == self.x_full(delta as int, round_up)->0,
    {
        let depth: u128 = self.params.l0_upper as u128 * 0x4_0000_0000_0000 + (self.params.l0_lower / 0x4000) as u128;
        if depth == 0 {
            return Some(0);
        }
        let q = shifted_quotient(delta as u128, 0x4_0000_0000_0000_0000_0000, depth)?;
        if round_up {
            q.checked_add(1)
        } else {
            Some(q)
        }
    }

    /// The change of the pool's curve over a trade: the difference of squares,
    /// or of the three-halves powers, of the two distances.
    pub open spec fn curve_change(self, x1: int, x2: int) -> Option<int> {
        if self.params.q2b_scale_factor == 3 {
            Some(iabs(x1 * x1 - x2 * x2) / 0x1_0000_0000_0000)
        } else if x1 == u128::MAX || x2 == u128::MAX {
            None
        } else {
            Some(iabs(x1 * isqrt_of(x1) - x2 * isqrt_of(x2)) / 0x100_0000)
        }
    }

    fn get_curve_change(&self, x1: u128, x2: u128) -> (r: Option<U256>)
        ensures
            r is Some == self.curve_change(x1 as int, x2 as int) is Some,
            r is Some ==> r->0.value() == self.curve_change(x1 as int, x2 as int)->0,
    {
        proof {
            vstd::arithmetic::power2::lemma2_to64();
            vstd::arithmetic::power2::lemma2_to64_rest();
        }
        if self.params.q2b_scale_factor == 3 {
            Some(distance(product(x1, x1), product(x2, x2)).shr(48))
        } else if x1 == u128::MAX || x2 == u128::MAX {
            None
        } else {
            Some(distance(product(x1, isqrt(x1)), product(x2, isqrt(x2))).shr(24))
        }
    }

    /// The curve's change per input token.
    pub open spec fn curve_factor(self, input: int, x1: int, x2: int) -> Option<int> {
        let change = self.curve_change(x1, x2);
        if self.norm_divisor() == 0 || input == 0 {
            Some(1)
        } else if change is None || !fits_u256(change->0 * self.norm_divisor()) {
            None
        } else {
            let q = (change->0 * self.norm_divisor()) / input;
            if q + 1 < two128() {
                Some(q + 1)
            } else {
                None
            }
        }
    }

    pub fn compute_sf_2(&self, input_amount: u64, x1_full: u128, x2_full: u128) -> (r: Option<u128>)
        ensures
            r is Some == self.curve_factor(input_amount as int, x1_full as int, x2_full as int) is Some,
            r is Some ==> r->0 == self.curve_factor(input_amount as int, x1_full as int, x2_full as int)->0,
    {
        let norm = self.get_norm_divisor();
        if norm == 0 || input_amount == 0 {
            return Some(1);
        }
        let change = self.get_curve_change(x1_full, x2_full)?;
        let scaled = checked_mul(change, norm)?;
        let q = quotient(scaled, U256::from_u128(input_amount as u128));
        to_u128(q)?.checked_add(1)
    }

    /// What the size of a trade adds beyond its threshold.
    pub open spec fn impact(self, input: int, quote_equivalent: int, level_2: bool) -> int {
        let multiplier = if level_2 {
            self.params.impact_multiplier_2 as int
        } else {
            self.params.impact_multiplier as int
        };
        let threshold = if level_2 {
            self.params.isqrt_threshold_2 as int
        } else {
            self.params.isqrt_threshold as int
        };
        let diff = iabs((input * 0x1_0000_0000_0000) / self.norm_divisor() - threshold);
        if quote_equivalent <= self.params.activation_output_threshold || self.norm_divisor() == 0 || diff == 0 {
            0
        } else {
            (multiplier * isqrt_of(diff)) / 0x100_0000
        }
    }

    pub fn compute_impact_term(&self, input_amount_base: u64, quote_equivalent: u64, is_impact_level_2: bool) -> (r:
        u128)
        ensures
            r == self.impact(input_amount_base as int, quote_equivalent as int, is_impact_level_2),
    {
        if quote_equivalent <= self.params.activation_output_threshold {
            return 0;
        }
        let norm = self.get_norm_divisor();
        if norm == 0 {
            return 0;
        }
        let normalized: u128 = input_amount_base as u128 * FP_ONE / norm as u128;
        proof {
            vstd::arithmetic::div_mod::lemma_div_is_ordered_by_denominator(input_amount_base * FP_ONE, 1, norm as int);
        }
        let (multiplier, threshold) = if is_impact_level_2 {
            (self.params.impact_multiplier_2, self.params.isqrt_threshold_2)
        } else {
            (self.params.impact_multiplier, self.params.isqrt_threshold)
        };
        let diff = abs_diff_u128(normalized, threshold as u128);
        if diff == 0 {
            return 0;
        }
        let root = isqrt(diff);
        proof {
            assert(root < 0x100_0000_0000_0000) by (nonlinear_arith)
                requires
                    root * root <= diff,
                    diff < 0x1_0000_0000_0000_0000_0000_0000_0000,
                    root >= 0,
            ;
            assert(0 <= multiplier * root <= u64::MAX * 0x100_0000_0000_0000) by (nonlinear_arith)
                requires
                    0 <= multiplier <= u64::MAX,
                    0 <= root <= 0x100_0000_0000_0000,
            ;
        }
        multiplier as u128 * root / 0x100_0000
    }

    /// What a trade below the impact threshold adds.
    pub open spec fn small_trade_term(self, input: int) -> int {
        let norm = self.norm_divisor();
        if norm == 0 {
            0
        } else if self.params.linear_mode != 0 {
            signed128((input * self.params.scaled_pp1) / norm)
        } else {
            (self.params.scaled_pp1 * isqrt_of((input * 0x1_0000_0000_0000) / norm)) / 0x100_0000
        }
    }

    fn get_small_trade_term(&self, input: u64) -> (r: i128)
        ensures
            r == self.small_trade_term(input as int),
    {
        let norm = self.get_norm_divisor();
        if norm == 0 {
            return 0;
        }
        if self.params.linear_mode != 0 {
            proof {
                lemma_u64_product(input as int, self.params.scaled_pp1 as int);
            }
            u128_as_i128(input as u128 * self.params.scaled_pp1 as u128 / norm as u128)
        } else {
            let normalized: u128 = input as u128 * FP_ONE / norm as u128;
            proof {
                vstd::arithmetic::div_mod::lemma_div_is_ordered_by_denominator(input * FP_ONE, 1, norm as int);
            }
            let root = isqrt(normalized);
            let pp1 = self.params.scaled_pp1;
            proof {
                assert(root < 0x100_0000_0000_0000) by (nonlinear_arith)
                    requires
                        root * root <= normalized,
                        normalized < 0x1_0000_0000_0000_0000_0000_0000_0000,
                        root >= 0,
                ;
                assert(0 <= pp1 * root <= u64::MAX * 0x100_0000_0000_0000) by (nonlinear_arith)
                    requires
                        0 <= pp1 <= u64::MAX,
                        0 <= root <= 0x100_0000_0000_0000,
                ;
            }
            (pp1 as u128 * root / 0x100_0000) as i128
        }
    }

    /// The curve's term with the sign of the move.
    pub open spec fn curve_term(self, sf_2: int, pool_param: int, negative: bool) -> Option<int> {
        let up = (sf_2 * pool_param + 0xffff_ffff_ffff) / 0x1_0000_0000_0000;
        let word = signed128(up);
        if up >= two128() {
            None
        } else if !negative {
            Some(word)
        } else if word == i128::MIN {
            None
        } else {
            Some(-word)
        }
    }

    fn get_curve_term(&self, sf_2: u128, pool_param: u64, negative: bool) -> (r: Option<i128>)
        ensures
            r is Some == self.curve_term(sf_2 as int, pool_param as int, negative) is Some,
            r is Some ==> r->0 == self.curve_term(sf_2 as int, pool_param as int, negative)->0,
    {
        proof {
            assert(0 <= sf_2 * pool_param <= u128::MAX * u64::MAX) by (nonlinear_arith)
                requires
                    0 <= sf_2 <= u128::MAX,
                    0 <= pool_param <= u64::MAX,
            ;
            vstd::arithmetic::power2::lemma2_to64();
            vstd::arithmetic::power2::lemma2_to64_rest();
        }
        let sum = checked_add(product(sf_2, pool_param as u128), U256::from_u128(0xffff_ffff_ffff)).unwrap();
        let up = to_u128(sum.shr(48))?;
        let word = u128_as_i128(up);
        if negative {
            0i128.checked_sub(word)
        } else {
            Some(word)
        }
    }

    /// An imbalance to the scale of the spread's points.
    pub open spec fn imbalance_offset(raw: int) -> Option<int> {
        let scaled = raw * MUL_PARAM;
        let sum = scaled + raw;
        let total = sum / 0x1_0000_0000_0000 + signed128(wrap128(raw * 0x1_0000));
        if fits_i128(scaled) && fits_i128(sum) && fits_i128(total) {
            Some(iabs(total))
        } else {
            None
        }
    }

    fn get_imbalance_offset(raw: i128) -> (r: Option<u128>)
        ensures
            r is Some == Self::imbalance_offset(raw as int) is Some,
            r is Some ==> r->0 == Self::imbalance_offset(raw as int)->0,
    {
        let scaled = raw.checked_mul(MUL_PARAM)?;
        let sum = scaled.checked_add(raw)?;
        let shifted: i128 = if sum >= 0 {
            sum / 0x1_0000_0000_0000
        } else {
            -((-(sum + 1)) / 0x1_0000_0000_0000) - 1
        };
        assert(shifted == sum as int / 0x1_0000_0000_0000);
        let word = i128_as_u128(raw);
        let up: u128 = word % 0x1_0000_0000_0000_0000_0000_0000_0000 * 0x1_0000;
        proof {
            lemma_shift_16(raw as int);
        }
        let total = shifted.checked_add(u128_as_i128(up))?;
        Some(i128_abs(total))
    }

    /// What an imbalance that the trade does not help against adds.
    pub open spec fn imbalance_term(self, input: int, is_b2q: bool) -> Option<int> {
        match self.raw_imbalance(input, is_b2q) {
            None => None,
            Some(raw) => match Self::imbalance_offset(raw) {
                None => None,
                Some(off) => if (raw < 0 && !is_b2q) || (raw > 0 && is_b2q) {
                    self.imbalance_spread(off)
                } else {
                    Some(0)
                },
            },
        }
    }

    fn get_imbalance_term(&self, input: u64, is_b2q: bool) -> (r: Option<i128>)
        ensures
            r is Some == self.imbalance_term(input as int, is_b2q) is Some,
            r is Some ==> r->0 == self.imbalance_term(input as int, is_b2q)->0,
    {
        let raw = self.compute_raw_imbalance(input, is_b2q)?;
        let off = Self::get_imbalance_offset(raw)?;
        if (raw < 0 && !is_b2q) || (raw > 0 && is_b2q) {
            self.compute_imbalance(off)
        } else {
            Some(0)
        }
    }

    /// The flat parameter that goes with an impact.
    pub open spec fn flat_param(self, impact: int, level_2: bool) -> int {
        if impact == 0 {
            self.params.pool_param_1 as int
        } else if level_2 {
            self.params.pool_param_1_scaled as int
        } else {
            self.params.pool_param_1_scaled_delta_pos as int
        }
    }

    /// The spread of a trade before the last division.
    pub open spec fn dividend(
        self,
        sf_2: int,
        input: int,
        pool_param: int,
        impact: int,
        negative: bool,
        level_2: bool,
        is_b2q: bool,
    ) -> Option<int> {
        let offset = if impact == 0 {
            self.small_trade_term(input)
        } else {
            0
        };
        match (self.curve_term(sf_2, pool_param, negative), self.imbalance_term(input, is_b2q)) {
            (Some(curve), Some(imbalance)) => {
                let a = curve + imbalance;
                let flat = self.flat_param(impact, level_2) + impact;
                let b = a + signed128(flat);
                let c = b + offset;
                if fits_u128(flat) && fits_i128(a) && fits_i128(b) && fits_i128(c) && fits_i128(c + DIVIDEND_BASE) {
                    Some(c + DIVIDEND_BASE)
                } else {
                    None
                }
            },
            _ => None,
        }
    }

    pub fn compute_sf_dividend_raw(
        &self,
        sf_2: u128,
        effective_input: u64,
        pool_param: u64,
        impact: u128,
        is_delta_negative: bool,
        is_impact_level_2: bool,
        is_base_to_quote: bool,
    ) -> (r: Option<i128>)
        ensures
            r is Some == self.dividend(
                sf_2 as int,
                effective_input as int,
                pool_param as int,
                impact as int,
                is_delta_negative,
                is_impact_level_2,
                is_base_to_quote,
            ) is Some,
            r is Some ==> r->0 == self.dividend(
                sf_2 as int,
                effective_input as int,
                pool_param as int,
                impact as int,
                is_delta_negative,
                is_impact_level_2,
                is_base_to_quote,
            )->0,
    {
        let offset = if impact == 0 {
            self.get_small_trade_term(effective_input)
        } else {
            0
        };
        let curve = self.get_curve_term(sf_2, pool_param, is_delta_negative)?;
        let imbalance = self.get_imbalance_term(effective_input, is_base_to_quote)?;
        let flat: u64 = if impact == 0 {
            self.params.pool_param_1
        } else if is_impact_level_2 {
            self.params.pool_param_1_scaled
        } else {
            self.params.pool_param_1_scaled_delta_pos
        };
        let a = curve.checked_add(imbalance)?;
        let b = a.checked_add(u128_as_i128((flat as u128).checked_add(impact)?))?;
        let c = b.checked_add(offset)?;
        c.checked_add(DIVIDEND_BASE)
    }

    /// One plus the spread, as a denominator; a negative one wraps around.
    pub open spec fn denominator(dividend: int) -> int {
        let q = (iabs(dividend) * 0x1_0000_0000_0000) / FINAL_DIVISOR as int + 1;
        wrap128(
            0x1_0000_0000_0000 + (if dividend >= 0 {
                q
            } else {
                -q
            }),
        )
    }

    /// The amount out for a spread.
    pub open spec fn final_amount(self, dividend: int, amount: int, is_b2q: bool) -> Option<int> {
        let price = self.params.price_q48 as int;
        let den = Self::denominator(dividend);
        if dividend == i128::MIN {
            None
        } else if den == 0 {
            Some(0)
        } else if is_b2q {
            Some(wrap64((price * amount) / den))
        } else if !fits_u128(price * den) {
            None
        } else {
            let combined = (price * den) / 0x1_0000_0000_0000;
            if combined == 0 {
                Some(0)
            } else {
                let out = (amount * 0x1_0000_0000_0000) / combined;
                if out > u64::MAX {
                    Some(0)
                } else {
                    Some(out)
                }
            }
        }
    }

    pub fn compute_final_result(&self, sf_dividend_raw: i128, amount: u64, is_base_to_quote: bool) -> (r: Option<u64>)
        ensures
            r is Some == self.final_amount(sf_dividend_raw as int, amount as int, is_base_to_quote) is Some,
            r is Some ==> r->0 == self.final_amount(sf_dividend_raw as int, amount as int, is_base_to_quote)->0,
    {
        if sf_dividend_raw == i128::MIN {
            return None;
        }
        let magnitude = i128_abs(sf_dividend_raw);
        proof {
            lemma_spread_fits(magnitude as int);
        }
        let ratio = match shifted_quotient(magnitude, FP_ONE, FINAL_DIVISOR) {
            Some(x) => x,
            None => return None,
        };
        let q: i128 = ratio as i128 + 1;
        let den = i128_as_u128(
            0x1_0000_0000_0000 + (if sf_dividend_raw >= 0 {
                q
            } else {
                -q
            }),
        );
        if den == 0 {
            return Some(0);
        }
        let price = self.params.price_q48;
        if is_base_to_quote {
            proof {
                lemma_u64_product(price as int, amount as int);
            }
            Some(low64(price as u128 * amount as u128 / den))
        } else {
            let combined = (price as u128).checked_mul(den)? / 0x1_0000_0000_0000;
            if combined == 0 {
                return Some(0);
            }
            let out: u128 = amount as u128 * 0x1_0000_0000_0000 / combined;
            if out > u64::MAX as u128 {
                return Some(0);
            }
            Some(out as u64)
        }
    }

    /// The base tokens of an amount in, cut to 64 bits.
    pub open spec fn effective_input(self, amount: int, is_b2q: bool) -> int {
        if is_b2q {
            amount
        } else {
            wrap64((amount * 0x1_0000_0000_0000) / self.params.price_q48 as int)
        }
    }

    /// The quote tokens of an amount in, cut to 64 bits.
    pub open spec fn quote_equivalent(self, amount: int, is_b2q: bool) -> int {
        if is_b2q {
            wrap64((amount * self.params.price_q48) / 0x1_0000_0000_0000)
        } else {
            amount
        }
    }

    /// The amount out; nothing where a number leaves its machine type.
    pub open spec fn quote(self, amount: int, is_b2q: bool) -> Option<int> {
        let input = self.effective_input(amount, is_b2q);
        let delta = self.base_amount - self.params.adjust_liq;
        let moved = if is_b2q {
            delta + input
        } else {
            delta - input
        };
        match (self.x_full(wrap64(iabs(moved)), true), self.x_full(wrap64(iabs(delta)), false)) {
            (Some(x1), Some(x2)) => match self.curve_factor(input, x1, x2) {
                None => None,
                Some(sf_2) => {
                    let equivalent = self.quote_equivalent(amount, is_b2q);
                    let level_2 = equivalent >= self.params.impact_activation_threshold_2;
                    let pool_param = if x1 < x2 {
                        self.params.other_param_quote_to_base as int
                    } else {
                        self.params.other_param_base_to_quote as int
                    };
                    match self.dividend(
                        sf_2,
                        input,
                        pool_param,
                        self.impact(input, equivalent, level_2),
                        x1 < x2,
                        level_2,
                        is_b2q,
                    ) {
                        None => None,
                        Some(d) => self.final_amount(d, amount, is_b2q),
                    }
                },
            },
            _ => None,
        }
    }

    pub fn get_quote(&self, input_amount: u64, is_base_to_quote: bool) -> (r: Option<u64>)
        requires
            is_base_to_quote || self.params.price_q48 != 0,
        ensures
            r is Some == self.quote(input_amount as int, is_base_to_quote) is Some,
            r is Some ==> r->0 == self.quote(input_amount as int, is_base_to_quote)->0,
    {
        let price = self.params.price_q48;
        let input = if is_base_to_quote {
            input_amount
        } else {
            low64(input_amount as u128 * FP_ONE / price as u128)
        };
        let delta: i128 = self.base_amount as i128 - self.params.adjust_liq as i128;
        let moved: i128 = if is_base_to_quote {
            delta + input as i128
        } else {
            delta - input as i128
        };
        let x1 = self.compute_x_full(low64(i128_abs(moved)), true)?;
        let x2 = self.compute_x_full(low64(i128_abs(delta)), false)?;
        let sf_2 = self.compute_sf_2(input, x1, x2)?;
        proof {
            lemma_u64_product(input as int, price as int);
        }
        let equivalent = if is_base_to_quote {
            low64(input as u128 * price as u128 / FP_ONE)
        } else {
            input_amount
        };
        let level_2 = equivalent >= self.params.impact_activation_threshold_2;
        let impact = self.compute_impact_term(input, equivalent, level_2);
        let negative = x1 < x2;
        let pool_param = if negative {
            self.params.other_param_quote_to_base
        } else {
            self.params.other_param_base_to_quote
        };
        let dividend = self.compute_sf_dividend_raw(
            sf_2,
            input,
            pool_param,
            impact,
            negative,
            level_2,
            is_base_to_quote,
        )?;
        self.compute_final_result(dividend, input_amount, is_base_to_quote)
    }

    /// The positive amount out of a valid pool that is not stale; the inner
    /// option is empty where there is none.
    pub open spec fn checked_quote(self, amount: int, is_b2q: bool, slot: int) -> Option<Option<u64>> {
        if !self.valid() || self.stale(slot) {
            Some(None)
        } else {
            crate::protocols::quotes::positive(self.quote(amount, is_b2q))
        }
    }

    pub fn get_quote_checked(&self, input_amount: u64, is_base_to_quote: bool, current_slot: u64) -> (r: Option<
        Option<u64>,
    >)
        ensures
            r == self.checked_quote(input_amount as int, is_base_to_quote, current_slot as int),
    {
        if !self.is_valid() {
            return Some(None);
        }
        if self.is_stale(current_slot) {
            return Some(None);
        }
        let result = self.get_quote(input_amount, is_base_to_quote)?;
        if result == 0 {
            return Some(None);
        }
        Some(Some(result))
    }
}

/// A left shift of a signed word by 16 places.
proof fn lemma_shift_16(raw: int)
    requires
        i128::MIN <= raw <= i128::MAX,
    ensures
        (wrap128(raw) % 0x1_0000_0000_0000_0000_0000_0000_0000) * 0x1_0000 == wrap128(raw * 0x1_0000),
{
    let m = 0x1_0000_0000_0000_0000_0000_0000_0000;
    let w = wrap128(raw);
    let k = raw / two128();
    assert(raw == k * two128() + w);
    let a = w / m;
    let b = w % m;
    assert(w == a * m + b && 0 <= b < m);
    assert(raw * 0x1_0000 == (k * 0x1_0000 + a) * two128() + b * 0x1_0000);
    assert(0 <= b * 0x1_0000 < two128());
    vstd::arithmetic::div_mod::lemma_fundamental_div_mod_converse(
        raw * 0x1_0000,
        two128(),
        k * 0x1_0000 + a,
        b * 0x1_0000,
    );
}

/// A spread fits in a signed word.
proof fn lemma_spread_fits(magnitude: int)
    requires
        0 <= magnitude <= i128::MAX,
    ensures
        0 <= (magnitude * 0x1_0000_0000_0000) / (FINAL_DIVISOR as int) < 0x4_0000_0000_0000_0000_0000_0000_0000,
{
    let n = magnitude * 0x1_0000_0000_0000;
    let d = FINAL_DIVISOR as int;
    let q = n / d;
    assert(n == q * d + n % d && 0 <= n % d < d);
}

/// A pool gives no quote once its price is past its time.
pub proof fn law_stale_pool_gives_no_quote(s: HumidifiState, amount: int, b2q: bool, slot: int)
    requires
        slot > s.params.valid_thresh + s.params.last_update,
    ensures
        s.checked_quote(amount, b2q, slot) == Some(None::<u64>),
{
}

/// A spread is never in the trader's favour: with any spread that is not
/// negative, a trade pays out no more than the pool's price gives.
pub proof fn law_spread_is_a_cost(s: HumidifiState, dividend: int, amount: int, out: int)
    requires
        0 <= dividend <= 0x7fff_ffff_ffff_ffff_ffff,
        0 <= amount <= u64::MAX,
        s.params.price_q48 > 0,
    ensures
        s.final_amount(dividend, amount, true) == Some(out) ==> 0 <= out && out * 0x1_0000_0000_0000
            <= s.params.price_q48 * amount,
        s.final_amount(dividend, amount, false) == Some(out) ==> 0 <= out && out * s.params.price_q48 <= amount
            * 0x1_0000_0000_0000,
{
    let price = s.params.price_q48 as int;
    let unit = 0x1_0000_0000_0000int;
    let d = FINAL_DIVISOR as int;
    let n = dividend * unit;
    vstd::arithmetic::div_mod::lemma_div_pos_is_pos(n, d);
    vstd::arithmetic::div_mod::lemma_div_is_ordered_by_denominator(n, 1, d);
    vstd::arithmetic::div_mod::lemma_div_basics(n);
    let q = n / d + 1;
    let den = unit + q;
    assert(HumidifiState::denominator(dividend) == den);
    let x = price * amount;
    assert(x >= 0) by (nonlinear_arith)
        requires
            x == price * amount,
            price > 0,
            amount >= 0,
    ;
    if s.final_amount(dividend, amount, true) == Some(out) {
        vstd::arithmetic::div_mod::lemma_fundamental_div_mod(x, den);
        vstd::arithmetic::div_mod::lemma_div_pos_is_pos(x, den);
        let y = x / den;
        assert(out <= y);
        assert(out * unit <= x) by (nonlinear_arith)
            requires
                0 <= out <= y,
                den * y <= x,
                den >= unit,
                unit > 0,
        ;
    }
    if s.final_amount(dividend, amount, false) == Some(out) {
        let combined = (price * den) / unit;
        assert(price * unit <= price * den) by (nonlinear_arith)
            requires
                price > 0,
                unit <= den,
        ;
        assert(combined >= price);
        let m = amount * unit;
        vstd::arithmetic::div_mod::lemma_fundamental_div_mod(m, combined);
        vstd::arithmetic::div_mod::lemma_div_pos_is_pos(m, combined);
        let y = m / combined;
        assert(0 <= out <= y);
        assert(out * price <= m) by (nonlinear_arith)
            requires
                0 <= out <= y,
                combined * y <= m,
                combined >= price,
                price > 0,
        ;
    }
}

/// A wider spread pays out no more for base tokens.
pub proof fn law_wider_spread_pays_less(s: HumidifiState, narrow: int, wide: int, amount: int, more: int, less: int)
    requires
        0 <= narrow <= wide <= 0x7fff_ffff_ffff_ffff_ffff,
        0 <= amount <= u64::MAX,
        s.params.price_q48 * amount <= u64::MAX * 0x1_0000_0000_0000,
        s.final_amount(narrow, amount, true) == Some(more),
        s.final_amount(wide, amount, true) == Some(less),
    ensures
        less <= more,
{
    let price = s.params.price_q48 as int;
    let unit = 0x1_0000_0000_0000int;
    let d = FINAL_DIVISOR as int;
    let a = narrow * unit;
    let b = wide * unit;
    vstd::arithmetic::div_mod::lemma_div_pos_is_pos(a, d);
    vstd::arithmetic::div_mod::lemma_div_is_ordered(a, b, d);
    vstd::arithmetic::div_mod::lemma_div_is_ordered_by_denominator(b, 1, d);
    vstd::arithmetic::div_mod::lemma_div_basics(b);
    let den_a = unit + a / d + 1;
    let den_b = unit + b / d + 1;
    assert(HumidifiState::denominator(narrow) == den_a);
    assert(HumidifiState::denominator(wide) == den_b);
    let x = price * amount;
    assert(x >= 0) by (nonlinear_arith)
        requires
            x == price * amount,
            price >= 0,
            amount >= 0,
    ;
    vstd::arithmetic::div_mod::lemma_div_is_ordered_by_denominator(x, den_a, den_b);
    vstd::arithmetic::div_mod::lemma_div_is_ordered_by_denominator(x, unit, den_a);
    vstd::arithmetic::div_mod::lemma_div_pos_is_pos(x, den_b);
    assert(x / unit <= u64::MAX);
}

/// A trade is charged for an imbalance only where it adds to it: selling base
/// tokens to a pool that then holds more in base tokens than in quote tokens, or
/// buying them from one that then holds less.
pub proof fn law_only_what_adds_to_the_imbalance_is_charged(s: HumidifiState, input: int, is_b2q: bool)
    requires
        s.base_value(input, is_b2q) + s.quote_value(input, is_b2q) > 0,
        s.imbalance_term(input, is_b2q) is Some,
        ratio_in_range(s, input, is_b2q),
        is_b2q ==> s.base_value(input, is_b2q) <= s.quote_value(input, is_b2q),
        !is_b2q ==> s.base_value(input, is_b2q) >= s.quote_value(input, is_b2q),
    ensures
        s.imbalance_term(input, is_b2q) == Some(0int),
{
    let num = s.base_value(input, is_b2q) - s.quote_value(input, is_b2q);
    let den = s.base_value(input, is_b2q) + s.quote_value(input, is_b2q);
    let n = iabs(num) * 0x400_0000_0000_0000;
    vstd::arithmetic::div_mod::lemma_div_pos_is_pos(n, den);
    if num == 0 {
        vstd::arithmetic::div_mod::lemma_basic_div(0, den);
    }
}

/// Whether an imbalance lies within the range of signed words.
pub open spec fn ratio_in_range(s: HumidifiState, input: int, is_b2q: bool) -> bool {
    let num = s.base_value(input, is_b2q) - s.quote_value(input, is_b2q);
    let den = s.base_value(input, is_b2q) + s.quote_value(input, is_b2q);
    ((iabs(num) * 0x400_0000_0000_0000) / den) / 0x800 <= i128::MAX
}

}
