//! The tiered prices of the later BisonFi version, whose rate carries 56
//! fractional bits.
use vstd::prelude::*;

use super::state::{BisonFiState, TierEntry, Tiers, FEE_DENOM_V3};
use super::tiers::{share, share_of};
use crate::num::{fits_i64, fits_u128, i128_as_u128, low64, monus, signed64, u64_as_i64, wrap128, wrap64};

verus! {

/// The quote tokens, before scaling, for base tokens at a rate of a whole part
/// `lo`, with 24 fractional bits, and 32 further bits `hi`.
pub open spec fn core_quote(amount: int, hi: int, lo: int) -> Option<int> {
    let sum = (amount * hi) / 0x1_0000_0000 + amount * lo;
    if fits_u128(amount * hi) && fits_u128(amount * lo) && fits_u128(sum) {
        Some(sum / 0x100_0000)
    } else {
        None
    }
}

pub fn b2q_v3_core(amount: u128, fp_hi: u128, fp_lo: u128) -> (r: Option<u128>)
    ensures
        r is Some == core_quote(amount as int, fp_hi as int, fp_lo as int) is Some,
        r is Some ==> r->0 == core_quote(amount as int, fp_hi as int, fp_lo as int)->0,
{
    let high = amount.checked_mul(fp_hi)? / 0x1_0000_0000;
    let low = amount.checked_mul(fp_lo)?;
    Some(high.checked_add(low)? / 0x100_0000)
}

/// The base tokens for scaled quote tokens at a rate of which 47 fractional
/// bits are kept; the shift loses what goes above 128 bits.
pub open spec fn core_base(amount: int, lo: int, hi: int) -> Option<int> {
    let rate = lo * 0x80_0000 + hi / 0x200_0000_0000;
    if rate == 0 {
        None
    } else {
        Some(wrap128(amount * 0x8000_0000_0000) / rate)
    }
}

pub fn q2b_v3_core(amount: u128, fp_lo: u64, fp_hi_u64: u64) -> (r: Option<u128>)
    ensures
        r is Some == core_base(amount as int, fp_lo as int, fp_hi_u64 as int) is Some,
        r is Some ==> r->0 == core_base(amount as int, fp_lo as int, fp_hi_u64 as int)->0,
{
    let rate: u128 = fp_lo as u128 * 0x80_0000 + fp_hi_u64 as u128 / 0x200_0000_0000;
    if rate == 0 {
        return None;
    }
    let shifted = amount % 0x2_0000_0000_0000_0000_0000 * 0x8000_0000_0000;
    assert(shifted == wrap128(amount * 0x8000_0000_0000));
    Some(shifted / rate)
}

/// A rate with its tier's adjustment.
pub open spec fn adjusted_rate_v3(rate: int, tier: TierEntry, adj_const: u64) -> Option<int> {
    let product = tier.adj_idx * signed64(adj_const as int);
    let shift = if tier.adj_val != 0 {
        tier.adj_val as int
    } else {
        product
    };
    let factor = wrap128(2_560_000 + shift);
    if fits_i64(shift) && fits_i64(2_560_000 + shift) && fits_u128(rate * factor) {
        Some((rate * factor) / 2_560_000)
    } else {
        None
    }
}

fn try_adjusted_rate_v3(rate: u128, tier: TierEntry, adj_const: u64) -> (r: Option<u128>)
    ensures
        r is Some == adjusted_rate_v3(rate as int, tier, adj_const) is Some,
        r is Some ==> r->0 == adjusted_rate_v3(rate as int, tier, adj_const)->0,
{
    let shift: i64 = if tier.adj_val != 0 {
        tier.adj_val as i64
    } else {
        (tier.adj_idx as i64).checked_mul(u64_as_i64(adj_const))?
    };
    let sum: i64 = 2_560_000i64.checked_add(shift)?;
    let factor = i128_as_u128(sum as i128);
    let product = rate.checked_mul(factor)?;
    Some(product / FEE_DENOM_V3 as u128)
}

/// The base tokens of a tier: its quote tokens, scaled, over its rate; the
/// shift loses what goes above 128 bits. Nothing is served at a rate of zero.
pub open spec fn tier_base(quote: int, scale: int, rate: int) -> Option<int> {
    if !fits_u128(quote * scale) {
        None
    } else if rate > 0 && quote > 0 {
        Some(wrap128((quote * scale) * 0x100_0000_0000_0000) / rate)
    } else {
        Some(0)
    }
}

fn try_tier_base(quote: u128, scale: u64, rate: u128) -> (r: Option<u128>)
    ensures
        r is Some == tier_base(quote as int, scale as int, rate as int) is Some,
        r is Some ==> r->0 == tier_base(quote as int, scale as int, rate as int)->0,
{
    let scaled = quote.checked_mul(scale as u128)?;
    if rate > 0 && quote > 0 {
        let shifted = scaled % 0x100_0000_0000_0000_0000 * 0x100_0000_0000_0000;
        assert(shifted == wrap128(scaled * 0x100_0000_0000_0000));
        Some(shifted / rate)
    } else {
        Some(0)
    }
}

impl BisonFiState {
    pub open spec fn rate_v3(self) -> int {
        self.v3.fp_lo * 0x1_0000_0000 + self.v3.fp_hi_u64 as int / 0x1_0000_0000
    }

    pub open spec fn scale_v3(self) -> int {
        if self.decimal_scale > 0 {
            self.decimal_scale as int
        } else {
            1
        }
    }

    fn get_rate_v3(&self) -> (r: u128)
        ensures
            r == self.rate_v3(),
    {
        self.v3.fp_lo as u128 * 0x1_0000_0000 + (self.v3.fp_hi_u64 / 0x1_0000_0000) as u128
    }

    fn get_scale_v3(&self) -> (r: u64)
        ensures
            r == self.scale_v3(),
            r > 0,
    {
        if self.decimal_scale > 0 {
            self.decimal_scale
        } else {
            1
        }
    }

    /// The undisturbed share and the tiers that a swap meets. A pool that was
    /// updated in this slot but not yet traded in it uses the template. The
    /// first tier takes over what the undisturbed share gives up; nothing
    /// where its share leaves 32 bits.
    pub open spec fn tiers_v3(self, clock_slot: int, is_b2q: bool) -> Option<(int, Tiers)> {
        let untraded = self.pool_slot == clock_slot && self.last_interaction_slot < clock_slot && clock_slot > 0;
        let own = if is_b2q {
            self.v3.mult_0_b2q as int
        } else {
            self.v3.mult_0_q2b as int
        };
        let current = if untraded {
            self.template_mult_0 as int
        } else if is_b2q {
            self.mult_0_b2q as int
        } else {
            self.mult_0_q2b as int
        };
        let tiers = if untraded {
            if is_b2q {
                self.template_b2q_tiers
            } else {
                self.template_q2b_tiers
            }
        } else if is_b2q {
            self.b2q_tiers
        } else {
            self.q2b_tiers
        };
        let capped = own > 0 && (untraded || current > own);
        let share = if capped {
            own
        } else {
            current
        };
        let excess = monus(current, share);
        if tiers.first.mult + excess > u32::MAX {
            None
        } else {
            Some(
                (
                    share,
                    Tiers { first: TierEntry { mult: (tiers.first.mult + excess) as u32, ..tiers.first }, ..tiers },
                ),
            )
        }
    }

    pub fn v3_pre_swap_tiers(&self, clock_slot: u64, is_b2q: bool) -> (r: Option<(u64, Tiers)>)
        ensures
            r is Some == self.tiers_v3(clock_slot as int, is_b2q) is Some,
            r is Some ==> (r->0).0 == (self.tiers_v3(clock_slot as int, is_b2q)->0).0 && (r->0).1 == (self.tiers_v3(
                clock_slot as int,
                is_b2q,
            )->0).1,
    {
        let untraded = self.pool_slot == clock_slot && self.last_interaction_slot < clock_slot && clock_slot > 0;
        let own: u32 = if is_b2q {
            self.v3.mult_0_b2q as u32
        } else {
            self.v3.mult_0_q2b as u32
        };
        let current: u32 = if untraded {
            self.template_mult_0
        } else if is_b2q {
            self.mult_0_b2q
        } else {
            self.mult_0_q2b
        };
        let mut tiers = if untraded {
            if is_b2q {
                self.template_b2q_tiers
            } else {
                self.template_q2b_tiers
            }
        } else if is_b2q {
            self.b2q_tiers
        } else {
            self.q2b_tiers
        };
        let share = if own > 0 && (untraded || current > own) {
            own
        } else {
            current
        };
        let excess = current.saturating_sub(share);
        tiers.first.mult = tiers.first.mult.checked_add(excess)?;
        Some((share as u64, tiers))
    }

    /// Scaled quote tokens for base tokens at a rate.
    pub open spec fn quote_at(self, amount: int, rate: int) -> Option<int> {
        match core_quote(amount, rate % 0x1_0000_0000, rate / 0x1_0000_0000) {
            Some(q) => Some(q / self.scale_v3()),
            None => None,
        }
    }

    fn try_quote_at(&self, amount: u128, rate: u128, scale: u64) -> (r: Option<u128>)
        requires
            scale == self.scale_v3(),
            scale > 0,
        ensures
            r is Some == self.quote_at(amount as int, rate as int) is Some,
            r is Some ==> r->0 == self.quote_at(amount as int, rate as int)->0,
    {
        Some(b2q_v3_core(amount, rate % 0x1_0000_0000, rate / 0x1_0000_0000)? / scale as u128)
    }

    /// What is left for the tiers from `i` on, sold for quote tokens; past the
    /// last tier its rate goes on. Tiers without base tokens are passed over.
    pub open spec fn sell_v3_from(self, tiers: Tiers, i: int, remaining: int, output: int) -> Option<int>
        decreases 4 - i,
    {
        let rate = adjusted_rate_v3(self.rate_v3(), tiers.at(i), self.v3.adj_const);
        if rate is None {
            None
        } else if i >= 4 {
            match self.quote_at(remaining, rate->0) {
                Some(q) if fits_u128(output + q) => Some(wrap64(output + q)),
                _ => None,
            }
        } else {
            match tier_base(share_of(self.quote_reserve as int, tiers.at(i).mult as int), self.scale_v3(), rate->0) {
                None => None,
                Some(span) => if span == 0 {
                    self.sell_v3_from(tiers, i + 1, remaining, output)
                } else if remaining <= span {
                    match self.quote_at(remaining, rate->0) {
                        Some(q) if fits_u128(output + q) => Some(wrap64(output + q)),
                        _ => None,
                    }
                } else {
                    match self.quote_at(span, rate->0) {
                        Some(q) if fits_u128(output + q) => self.sell_v3_from(
                            tiers,
                            i + 1,
                            remaining - span,
                            output + q,
                        ),
                        _ => None,
                    }
                },
            }
        }
    }

    /// The quote tokens for `net` base tokens: first at the undisturbed rate,
    /// then tier by tier.
    pub open spec fn sold_v3(self, net: int, clock_slot: int) -> Option<int> {
        match self.tiers_v3(clock_slot, true) {
            None => None,
            Some((share, tiers)) => match tier_base(
                share_of(self.quote_reserve as int, share),
                self.scale_v3(),
                self.rate_v3(),
            ) {
                None => None,
                Some(span) => if span == 0 {
                    self.sell_v3_from(tiers, 0, net, 0)
                } else if net <= span {
                    match self.quote_at(net, self.rate_v3()) {
                        Some(q) => Some(wrap64(q)),
                        None => None,
                    }
                } else {
                    match self.quote_at(span, self.rate_v3()) {
                        Some(q) => self.sell_v3_from(tiers, 0, net - span, q),
                        None => None,
                    }
                },
            },
        }
    }

    pub fn b2q_tiered_v3(&self, net: u64, clock_slot: u64) -> (r: Option<u64>)
        ensures
            r is Some == self.sold_v3(net as int, clock_slot as int) is Some,
            r is Some ==> r->0 == self.sold_v3(net as int, clock_slot as int)->0,
    {
        let rate = self.get_rate_v3();
        let scale = self.get_scale_v3();
        let (mult_0, tiers) = self.v3_pre_swap_tiers(clock_slot, true)?;
        let mut remaining = net as u128;
        let mut output: u128 = 0;
        let span = try_tier_base(share(self.quote_reserve, mult_0), scale, rate)?;
        if span > 0 {
            if remaining <= span {
                return Some(low64(self.try_quote_at(remaining, rate, scale)?));
            }
            output = self.try_quote_at(span, rate, scale)?;
            remaining = remaining - span;
        }
        assert(self.sold_v3(net as int, clock_slot as int) == self.sell_v3_from(
            tiers,
            0,
            remaining as int,
            output as int,
        ));
        let mut i: usize = 0;
        while i < 4
            invariant
                i <= 4,
                rate == self.rate_v3(),
                scale == self.scale_v3(),
                scale > 0,
                self.sell_v3_from(tiers, i as int, remaining as int, output as int) == self.sold_v3(
                    net as int,
                    clock_slot as int,
                ),
            decreases 4 - i,
        {
            let tier = tiers.get(i);
            let tier_rate = try_adjusted_rate_v3(rate, tier, self.v3.adj_const)?;
            let span = try_tier_base(share(self.quote_reserve, tier.mult as u64), scale, tier_rate)?;
            if span > 0 {
                if remaining <= span {
                    let q = self.try_quote_at(remaining, tier_rate, scale)?;
                    return Some(low64(output.checked_add(q)?));
                }
                let q = self.try_quote_at(span, tier_rate, scale)?;
                output = output.checked_add(q)?;
                remaining = remaining - span;
            }
            i = i + 1;
        }
        let last = try_adjusted_rate_v3(rate, tiers.get(4), self.v3.adj_const)?;
        let q = self.try_quote_at(remaining, last, scale)?;
        Some(low64(output.checked_add(q)?))
    }

    /// Base tokens for scaled quote tokens at a tier's rate.
    pub open spec fn base_at(self, amount: int, rate: int) -> Option<int> {
        core_base(amount, wrap64(rate / 0x1_0000_0000), (rate % 0x1_0000_0000) * 0x1_0000_0000)
    }

    fn try_base_at(&self, amount: u128, rate: u128) -> (r: Option<u128>)
        ensures
            r is Some == self.base_at(amount as int, rate as int) is Some,
            r is Some ==> r->0 == self.base_at(amount as int, rate as int)->0,
    {
        let hi: u64 = (rate % 0x1_0000_0000) as u64 * 0x1_0000_0000;
        q2b_v3_core(amount, low64(rate / 0x1_0000_0000), hi)
    }

    /// What is left for the tiers from `i` on, spent on base tokens; past the
    /// last tier its rate goes on. Tiers without base tokens are passed over.
    pub open spec fn buy_v3_from(self, tiers: Tiers, i: int, remaining: int, output: int) -> Option<int>
        decreases 4 - i,
    {
        let rate = adjusted_rate_v3(self.rate_v3(), tiers.at(i), self.v3.adj_const);
        let pivot = share_of(self.base_reserve as int, tiers.at(i).mult as int);
        if rate is None {
            None
        } else if i >= 4 {
            match self.base_at(remaining, rate->0) {
                Some(b) if fits_u128(output + b) => Some(wrap64(output + b)),
                _ => None,
            }
        } else if pivot == 0 {
            self.buy_v3_from(tiers, i + 1, remaining, output)
        } else {
            match core_quote(pivot, rate->0 % 0x1_0000_0000, rate->0 / 0x1_0000_0000) {
                None => None,
                Some(span) => if remaining <= span {
                    match self.base_at(remaining, rate->0) {
                        Some(b) if fits_u128(output + b) => Some(wrap64(output + b)),
                        _ => None,
                    }
                } else {
                    match self.base_at(span, rate->0) {
                        Some(b) if fits_u128(output + b) => self.buy_v3_from(
                            tiers,
                            i + 1,
                            remaining - span,
                            output + b,
                        ),
                        _ => None,
                    }
                },
            }
        }
    }

    /// The base tokens for `net` quote tokens: first at the undisturbed rate,
    /// then tier by tier.
    pub open spec fn bought_v3(self, net: int, clock_slot: int) -> Option<int> {
        let hi = self.v3.fp_hi_u64 as int;
        let lo = self.v3.fp_lo as int;
        match self.tiers_v3(clock_slot, false) {
            None => None,
            Some((share, tiers)) => {
                let scaled = net * self.scale_v3();
                if !fits_u128(scaled) {
                    None
                } else if share == 0 {
                    self.buy_v3_from(tiers, 0, scaled, 0)
                } else {
                    match core_quote(share_of(self.base_reserve as int, share), hi / 0x1_0000_0000, lo) {
                        None => None,
                        Some(span) => if scaled <= span {
                            match core_base(scaled, lo, hi) {
                                Some(b) => Some(wrap64(b)),
                                None => None,
                            }
                        } else {
                            match core_base(span, lo, hi) {
                                Some(b) => self.buy_v3_from(tiers, 0, scaled - span, b),
                                None => None,
                            }
                        },
                    }
                }
            },
        }
    }

    pub fn q2b_tiered_v3(&self, net: u64, clock_slot: u64) -> (r: Option<u64>)
        ensures
            r is Some == self.bought_v3(net as int, clock_slot as int) is Some,
            r is Some ==> r->0 == self.bought_v3(net as int, clock_slot as int)->0,
    {
        let rate = self.get_rate_v3();
        let scale = self.get_scale_v3();
        let (mult_0, tiers) = self.v3_pre_swap_tiers(clock_slot, false)?;
        let mut remaining = (net as u128).checked_mul(scale as u128)?;
        let mut output: u128 = 0;
        if mult_0 > 0 {
            let pivot = share(self.base_reserve, mult_0);
            let hi = (self.v3.fp_hi_u64 / 0x1_0000_0000) as u128;
            let span = b2q_v3_core(pivot, hi, self.v3.fp_lo as u128)?;
            if remaining <= span {
                return Some(low64(q2b_v3_core(remaining, self.v3.fp_lo, self.v3.fp_hi_u64)?));
            }
            output = q2b_v3_core(span, self.v3.fp_lo, self.v3.fp_hi_u64)?;
            remaining = remaining - span;
        }
        assert(self.bought_v3(net as int, clock_slot as int) == self.buy_v3_from(
            tiers,
            0,
            remaining as int,
            output as int,
        ));
        let mut i: usize = 0;
        while i < 4
            invariant
                i <= 4,
                rate == self.rate_v3(),
                self.buy_v3_from(tiers, i as int, remaining as int, output as int) == self.bought_v3(
                    net as int,
                    clock_slot as int,
                ),
            decreases 4 - i,
        {
            let tier = tiers.get(i);
            let tier_rate = try_adjusted_rate_v3(rate, tier, self.v3.adj_const)?;
            let pivot = share(self.base_reserve, tier.mult as u64);
            if pivot > 0 {
                let span = b2q_v3_core(pivot, tier_rate % 0x1_0000_0000, tier_rate / 0x1_0000_0000)?;
                if remaining <= span {
                    let b = self.try_base_at(remaining, tier_rate)?;
                    return Some(low64(output.checked_add(b)?));
                }
                let b = self.try_base_at(span, tier_rate)?;
                output = output.checked_add(b)?;
                remaining = remaining - span;
            }
            i = i + 1;
        }
        let last = try_adjusted_rate_v3(rate, tiers.get(4), self.v3.adj_const)?;
        let b = self.try_base_at(remaining, last)?;
        Some(low64(output.checked_add(b)?))
    }
}

}
