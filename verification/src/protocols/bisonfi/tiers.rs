//! The tiered prices of a BisonFi pool before the later version.
use vstd::prelude::*;

use super::state::{BisonFiState, Tiers, DIVISOR};
use crate::num::{fits_i64, fits_u128, i128_as_u128, imax, low64, monus, wrap128, wrap64};

verus! {

/// A rate with its tier's adjustment, in ten-thousandths; nothing where a
/// number leaves its machine type. A negative factor wraps around.
pub open spec fn adjusted_rate(fp: int, adj_idx: int, adj_const: int) -> Option<int> {
    let shift = adj_idx * adj_const;
    let factor = wrap128(10_000 + shift);
    if fits_i64(shift) && fits_i64(10_000 + shift) && fits_u128(fp * factor) {
        Some((fp * factor) / 10_000)
    } else {
        None
    }
}

pub fn try_adjusted_rate(fp: u64, adj_idx: i32, adj_const: i64) -> (r: Option<u128>)
    ensures
        r is Some == adjusted_rate(fp as int, adj_idx as int, adj_const as int) is Some,
        r is Some ==> r->0 == adjusted_rate(fp as int, adj_idx as int, adj_const as int)->0,
{
    let shift: i64 = (adj_idx as i64).checked_mul(adj_const)?;
    let sum: i64 = 10_000i64.checked_add(shift)?;
    let factor = i128_as_u128(sum as i128);
    let product = (fp as u128).checked_mul(factor)?;
    Some(product / DIVISOR as u128)
}

/// The quote tokens for an amount of base tokens at a rate.
pub open spec fn quote_for(amount: int, rate: int, scale: int) -> Option<int> {
    if fits_u128(amount * rate) {
        Some((amount * rate) / 0x1_0000_0000_0000 / scale)
    } else {
        None
    }
}

pub fn try_quote_for(amount: u128, rate: u128, scale: u64) -> (r: Option<u128>)
    requires
        scale > 0,
    ensures
        r is Some == quote_for(amount as int, rate as int, scale as int) is Some,
        r is Some ==> r->0 == quote_for(amount as int, rate as int, scale as int)->0,
{
    Some(amount.checked_mul(rate)? / 0x1_0000_0000_0000 / scale as u128)
}

/// The base tokens that an amount of quote tokens is worth at a rate, with the
/// whole product within 128 bits.
pub open spec fn base_span(quote: int, scale: int, rate: int) -> Option<int> {
    if rate == 0 {
        Some(0)
    } else if fits_u128(quote * scale) && fits_u128((quote * scale) * 0x1_0000_0000_0000) {
        Some(((quote * scale) * 0x1_0000_0000_0000) / rate)
    } else {
        None
    }
}

pub fn try_base_span(quote: u128, scale: u64, rate: u128) -> (r: Option<u128>)
    ensures
        r is Some == base_span(quote as int, scale as int, rate as int) is Some,
        r is Some ==> r->0 == base_span(quote as int, scale as int, rate as int)->0,
{
    if rate == 0 {
        return Some(0);
    }
    Some(quote.checked_mul(scale as u128)?.checked_mul(0x1_0000_0000_0000)? / rate)
}

/// The base tokens for an amount of quote tokens at a rate; the shift loses
/// what goes above 128 bits.
pub open spec fn base_for(quote: int, scale: int, rate: int) -> Option<int> {
    if rate != 0 && fits_u128(quote * scale) {
        Some(wrap128((quote * scale) * 0x1_0000_0000_0000) / rate)
    } else {
        None
    }
}

pub fn try_base_for(quote: u128, scale: u64, rate: u128) -> (r: Option<u128>)
    ensures
        r is Some == base_for(quote as int, scale as int, rate as int) is Some,
        r is Some ==> r->0 == base_for(quote as int, scale as int, rate as int)->0,
{
    let scaled = quote.checked_mul(scale as u128)?;
    if rate == 0 {
        return None;
    }
    let shifted = scaled % 0x1_0000_0000_0000_0000_0000 * 0x1_0000_0000_0000;
    assert(shifted == wrap128(scaled * 0x1_0000_0000_0000));
    Some(shifted / rate)
}

/// A share of a reserve, in ten-thousandths.
pub open spec fn share_of(reserve: int, mult: int) -> int {
    (reserve * mult) / 10_000
}

pub fn share(reserve: u64, mult: u64) -> (r: u128)
    ensures
        r == share_of(reserve as int, mult as int),
{
    proof {
        assert(0 <= reserve * mult <= u64::MAX * u64::MAX) by (nonlinear_arith)
            requires
                0 <= reserve <= u64::MAX,
                0 <= mult <= u64::MAX,
        ;
    }
    reserve as u128 * mult as u128 / DIVISOR as u128
}

/// The prices that a swap meets tier by tier.
#[derive(Clone, Copy, Debug)]
pub struct TierWalk {
    pub rate: u64,
    pub scale: u64,
    pub reserve: u64,
    pub adj_const: i64,
    pub tiers: Tiers,
    /// The tiers of the other direction, whose shares raise these.
    pub other: Option<Tiers>,
    /// What the first tier's share gains.
    pub extra: u64,
    /// The first tier.
    pub start: usize,
}

impl TierWalk {
    /// The share of the reserve that a tier serves.
    pub open spec fn tier_share(self, i: int) -> int {
        let own = self.tiers.at(i).mult as int;
        let base = match self.other {
            Some(o) => imax(own, o.at(i).mult as int),
            None => own,
        };
        if i == self.start {
            base + self.extra
        } else {
            base
        }
    }

    fn get_tier_share(&self, i: usize) -> (r: u64)
        requires
            self.extra <= u32::MAX,
        ensures
            r == self.tier_share(i as int),
    {
        let own = self.tiers.get(i).mult as u64;
        let base = match self.other {
            Some(o) => crate::num::max_u64(own, o.get(i).mult as u64),
            None => own,
        };
        if i == self.start {
            base + self.extra
        } else {
            base
        }
    }

    pub open spec fn tier_rate(self, i: int) -> Option<int> {
        adjusted_rate(self.rate as int, self.tiers.at(i).adj_idx as int, self.adj_const as int)
    }

    /// What is left for the tiers from `i` on, sold for quote tokens; past the
    /// last tier its price goes on.
    pub open spec fn sell_from(self, i: int, remaining: int, output: int) -> Option<int>
        decreases 4 - i,
    {
        if i >= 4 {
            match self.tier_rate(3) {
                None => None,
                Some(rate) => match quote_for(remaining, rate, self.scale as int) {
                    Some(q) if fits_u128(output + q) => Some(wrap64(output + q)),
                    _ => None,
                },
            }
        } else {
            match self.tier_rate(i) {
                None => None,
                Some(rate) => match base_span(
                    share_of(self.reserve as int, self.tier_share(i)),
                    self.scale as int,
                    rate,
                ) {
                    None => None,
                    Some(span) => if remaining <= span {
                        match quote_for(remaining, rate, self.scale as int) {
                            Some(q) if fits_u128(output + q) => Some(wrap64(output + q)),
                            _ => None,
                        }
                    } else {
                        match quote_for(span, rate, self.scale as int) {
                            Some(q) if fits_u128(output + q) => self.sell_from(i + 1, remaining - span, output + q),
                            _ => None,
                        }
                    },
                },
            }
        }
    }

    fn sell(&self, amount: u128, so_far: u128) -> (r: Option<u64>)
        requires
            self.scale > 0,
            self.extra <= u32::MAX,
        ensures
            r is Some == self.sell_from(0, amount as int, so_far as int) is Some,
            r is Some ==> r->0 == self.sell_from(0, amount as int, so_far as int)->0,
    {
        let mut remaining = amount;
        let mut output = so_far;
        let mut i: usize = 0;
        while i < 4
            invariant
                i <= 4,
                self.scale > 0,
                self.extra <= u32::MAX,
                self.sell_from(i as int, remaining as int, output as int) == self.sell_from(
                    0,
                    amount as int,
                    so_far as int,
                ),
            decreases 4 - i,
        {
            let rate = try_adjusted_rate(self.rate, self.tiers.get(i).adj_idx, self.adj_const)?;
            let span = try_base_span(share(self.reserve, self.get_tier_share(i)), self.scale, rate)?;
            if remaining <= span {
                let q = try_quote_for(remaining, rate, self.scale)?;
                return Some(low64(output.checked_add(q)?));
            }
            let q = try_quote_for(span, rate, self.scale)?;
            output = output.checked_add(q)?;
            remaining = remaining - span;
            i = i + 1;
        }
        let rate = try_adjusted_rate(self.rate, self.tiers.get(3).adj_idx, self.adj_const)?;
        let q = try_quote_for(remaining, rate, self.scale)?;
        Some(low64(output.checked_add(q)?))
    }

    /// What is left for the tiers from `i` on, spent on base tokens; past the
    /// last tier its price goes on. A price of zero buys nothing.
    pub open spec fn buy_from(self, i: int, remaining: int, output: int) -> Option<int>
        decreases 4 - i,
    {
        if i >= 4 {
            match self.tier_rate(3) {
                None => None,
                Some(rate) => if rate == 0 {
                    Some(wrap64(output))
                } else {
                    match base_for(remaining, self.scale as int, rate) {
                        Some(b) if fits_u128(output + b) => Some(wrap64(output + b)),
                        _ => None,
                    }
                },
            }
        } else {
            match self.tier_rate(i) {
                None => None,
                Some(rate) => match quote_for(
                    share_of(self.reserve as int, self.tier_share(i)),
                    rate,
                    self.scale as int,
                ) {
                    None => None,
                    Some(span) => if rate == 0 {
                        if remaining <= 0 {
                            Some(wrap64(output))
                        } else {
                            self.buy_from(i + 1, remaining, output)
                        }
                    } else if remaining <= span {
                        match base_for(remaining, self.scale as int, rate) {
                            Some(b) if fits_u128(output + b) => Some(wrap64(output + b)),
                            _ => None,
                        }
                    } else {
                        match base_for(span, self.scale as int, rate) {
                            Some(b) if fits_u128(output + b) => self.buy_from(i + 1, remaining - span, output + b),
                            _ => None,
                        }
                    },
                },
            }
        }
    }

    fn buy(&self, amount: u128, so_far: u128) -> (r: Option<u64>)
        requires
            self.scale > 0,
            self.extra <= u32::MAX,
            self.start <= 4,
        ensures
            r is Some == self.buy_from(self.start as int, amount as int, so_far as int) is Some,
            r is Some ==> r->0 == self.buy_from(self.start as int, amount as int, so_far as int)->0,
    {
        let mut remaining = amount;
        let mut output = so_far;
        let mut i: usize = self.start;
        while i < 4
            invariant
                i <= 4,
                self.scale > 0,
                self.extra <= u32::MAX,
                self.buy_from(i as int, remaining as int, output as int) == self.buy_from(
                    self.start as int,
                    amount as int,
                    so_far as int,
                ),
            decreases 4 - i,
        {
            let rate = try_adjusted_rate(self.rate, self.tiers.get(i).adj_idx, self.adj_const)?;
            let pivot = share(self.reserve, self.get_tier_share(i));
            let span = try_quote_for(pivot, rate, self.scale)?;
            if rate == 0 {
                if remaining == 0 {
                    return Some(low64(output));
                }
            } else {
                if remaining <= span {
                    let b = try_base_for(remaining, self.scale, rate)?;
                    return Some(low64(output.checked_add(b)?));
                }
                let b = try_base_for(span, self.scale, rate)?;
                output = output.checked_add(b)?;
                remaining = remaining - span;
            }
            i = i + 1;
        }
        let rate = try_adjusted_rate(self.rate, self.tiers.get(3).adj_idx, self.adj_const)?;
        if rate == 0 {
            return Some(low64(output));
        }
        let b = try_base_for(remaining, self.scale, rate)?;
        Some(low64(output.checked_add(b)?))
    }
}

impl BisonFiState {
    pub open spec fn tier_adjustment(self) -> int {
        if self.adj_double_flag > 0 {
            self.adj_const * 2
        } else {
            self.adj_const as int
        }
    }

    fn get_tier_adjustment(&self) -> (r: i64)
        ensures
            r == self.tier_adjustment(),
    {
        if self.adj_double_flag > 0 {
            self.adj_const as i64 * 2
        } else {
            self.adj_const as i64
        }
    }

    /// Whether a sale meets the template tiers.
    pub open spec fn sells_by_template(self, slot_diff: int) -> bool {
        self.effective_mult_0 < self.mult_0_b2q || self.resets(slot_diff)
    }

    /// The tiers of a sale.
    pub open spec fn sell_walk(self, slot_diff: int) -> TierWalk {
        let template = self.sells_by_template(slot_diff);
        TierWalk {
            rate: self.fp_val,
            scale: self.decimal_scale,
            reserve: self.quote_reserve,
            adj_const: self.tier_adjustment() as i64,
            tiers: if template {
                self.template_b2q_tiers
            } else {
                self.b2q_tiers
            },
            other: if template {
                Some(self.template_q2b_tiers)
            } else {
                None
            },
            extra: if template {
                monus(self.effective_mult_0_q2b as int, self.effective_mult_0 as int) as u64
            } else {
                0
            },
            start: 0,
        }
    }

    /// The share of the reserve that a sale meets at the undisturbed price.
    pub open spec fn sell_share(self, slot_diff: int) -> int {
        if self.effective_mult_0 < self.mult_0_b2q {
            self.effective_mult_0 as int
        } else {
            self.mult_0(true, false, slot_diff)
        }
    }

    /// Whether the pool has a price and a scale.
    pub open spec fn priced(self) -> bool {
        self.fp_val > 0 && self.decimal_scale > 0
    }

    /// The quote tokens for `net` base tokens: first at the undisturbed price,
    /// then tier by tier. A pool without a price pays nothing.
    pub open spec fn sold(self, net: int, slot_diff: int) -> Option<int> {
        if self.priced() {
            self.sold_at_price(net, slot_diff)
        } else {
            Some(0)
        }
    }

    /// What a pool with a price pays for `net` base tokens.
    pub open spec fn sold_at_price(self, net: int, slot_diff: int) -> Option<int> {
        let pivot = share_of(self.quote_reserve as int, self.sell_share(slot_diff));
        match base_span(pivot, self.decimal_scale as int, self.fp_val as int) {
            None => None,
            Some(span) => if net <= span {
                match quote_for(net, self.fp_val as int, self.decimal_scale as int) {
                    Some(q) => Some(wrap64(q)),
                    None => None,
                }
            } else {
                match quote_for(span, self.fp_val as int, self.decimal_scale as int) {
                    Some(q) => self.sell_walk(slot_diff).sell_from(0, net - span, q),
                    None => None,
                }
            },
        }
    }

    pub fn b2q_tiered(&self, net: u64, slot_diff: u64) -> (r: Option<u64>)
        ensures
            r is Some == self.sold(net as int, slot_diff as int) is Some,
            r is Some ==> r->0 == self.sold(net as int, slot_diff as int)->0,
    {
        if self.fp_val == 0 || self.decimal_scale == 0 {
            return Some(0);
        }
        let split = (self.effective_mult_0 as u32) < self.mult_0_b2q;
        let template = split || self.cpi0_resets(slot_diff);
        let mult_0 = if split {
            self.effective_mult_0 as u64
        } else {
            self.resolve_mult_0(true, false, slot_diff)
        };
        let pivot = share(self.quote_reserve, mult_0);
        let span = try_base_span(pivot, self.decimal_scale, self.fp_val as u128)?;
        let remaining = net as u128;
        if remaining <= span {
            return Some(low64(try_quote_for(remaining, self.fp_val as u128, self.decimal_scale)?));
        }
        let output = try_quote_for(span, self.fp_val as u128, self.decimal_scale)?;
        let walk = TierWalk {
            rate: self.fp_val,
            scale: self.decimal_scale,
            reserve: self.quote_reserve,
            adj_const: self.get_tier_adjustment(),
            tiers: if template {
                self.template_b2q_tiers
            } else {
                self.b2q_tiers
            },
            other: if template {
                Some(self.template_q2b_tiers)
            } else {
                None
            },
            extra: if template {
                (self.effective_mult_0_q2b as u64).saturating_sub(self.effective_mult_0 as u64)
            } else {
                0
            },
            start: 0,
        };
        assert(walk == self.sell_walk(slot_diff as int));
        walk.sell(remaining - span, output)
    }

    /// The tiers of a purchase.
    pub open spec fn buy_walk(self, penalty_active: bool, slot_diff: int) -> TierWalk {
        let template = !penalty_active && self.resets(slot_diff);
        TierWalk {
            rate: self.fp_val,
            scale: self.decimal_scale,
            reserve: self.base_reserve,
            adj_const: self.tier_adjustment() as i64,
            tiers: if template {
                self.template_q2b_tiers
            } else {
                self.q2b_tiers
            },
            other: None,
            extra: if template {
                monus(self.effective_mult_0 as int, self.effective_mult_0_q2b as int) as u64
            } else {
                0
            },
            start: if self.effective_mult_0_q2b < self.mult_0(false, penalty_active, slot_diff) {
                1
            } else {
                0
            },
        }
    }

    /// The share of the reserve that a purchase meets at the undisturbed
    /// price.
    pub open spec fn buy_share(self, penalty_active: bool, slot_diff: int) -> int {
        crate::num::imin(self.effective_mult_0_q2b as int, self.mult_0(false, penalty_active, slot_diff))
    }

    /// The quote tokens that the first tier takes when it also covers the gap
    /// between the two undisturbed shares.
    pub open spec fn joined_span(self, walk: TierWalk, mult_0: int, rate: int) -> Option<int> {
        let gap = share_of(self.base_reserve as int, mult_0) - share_of(
            self.base_reserve as int,
            self.effective_mult_0_q2b as int,
        );
        let first = share_of(self.base_reserve as int, walk.tiers.first.mult + walk.extra);
        match (quote_for(gap, rate, self.decimal_scale as int), quote_for(first, rate, self.decimal_scale as int)) {
            (Some(a), Some(b)) if fits_u128(a + b) => Some(a + b),
            _ => None,
        }
    }

    /// The base tokens for `net` quote tokens: first at the undisturbed price,
    /// then, where the effective share is the smaller one, through the joined
    /// first tier, then tier by tier. A pool without a price pays nothing.
    pub open spec fn bought(self, net: int, penalty_active: bool, slot_diff: int) -> Option<int> {
        if self.priced() {
            self.bought_at_price(net, penalty_active, slot_diff)
        } else {
            Some(0)
        }
    }

    /// What a pool with a price pays for `net` quote tokens.
    pub open spec fn bought_at_price(self, net: int, penalty_active: bool, slot_diff: int) -> Option<int> {
        let walk = self.buy_walk(penalty_active, slot_diff);
        let mult_0 = self.mult_0(false, penalty_active, slot_diff);
        let scale = self.decimal_scale as int;
        let pivot = share_of(self.base_reserve as int, self.buy_share(penalty_active, slot_diff));
        match quote_for(pivot, self.fp_val as int, scale) {
            None => None,
            Some(span) => if net <= span {
                match base_for(net, scale, self.fp_val as int) {
                    Some(b) => Some(wrap64(b)),
                    None => None,
                }
            } else {
                match base_for(span, scale, self.fp_val as int) {
                    None => None,
                    Some(b) => if walk.start == 0 {
                        walk.buy_from(0, net - span, b)
                    } else {
                        match walk.tier_rate(0) {
                            None => None,
                            Some(rate) => match self.joined_span(walk, mult_0, rate) {
                                None => None,
                                Some(joined) => if net - span <= joined {
                                    match base_for(net - span, scale, rate) {
                                        Some(c) if fits_u128(b + c) => Some(wrap64(b + c)),
                                        _ => None,
                                    }
                                } else {
                                    match base_for(joined, scale, rate) {
                                        Some(c) if fits_u128(b + c) => walk.buy_from(1, net - span - joined, b + c),
                                        _ => None,
                                    }
                                },
                            },
                        }
                    },
                }
            },
        }
    }

    pub fn q2b_tiered(&self, net: u64, penalty_active: bool, slot_diff: u64) -> (r: Option<u64>)
        ensures
            r is Some == self.bought(net as int, penalty_active, slot_diff as int) is Some,
            r is Some ==> r->0 == self.bought(net as int, penalty_active, slot_diff as int)->0,
    {
        if self.fp_val == 0 || self.decimal_scale == 0 {
            return Some(0);
        }
        let template = !penalty_active && self.cpi0_resets(slot_diff);
        let mult_0 = self.resolve_mult_0(false, penalty_active, slot_diff);
        let effective = self.effective_mult_0_q2b as u64;
        let inner = effective < mult_0;
        let walk = TierWalk {
            rate: self.fp_val,
            scale: self.decimal_scale,
            reserve: self.base_reserve,
            adj_const: self.get_tier_adjustment(),
            tiers: if template {
                self.template_q2b_tiers
            } else {
                self.q2b_tiers
            },
            other: None,
            extra: if template {
                (self.effective_mult_0 as u64).saturating_sub(effective)
            } else {
                0
            },
            start: if inner {
                1
            } else {
                0
            },
        };
        assert(walk == self.buy_walk(penalty_active, slot_diff as int));
        let pivot = share(
            self.base_reserve,
            if inner {
                effective
            } else {
                mult_0
            },
        );
        let span = try_quote_for(pivot, self.fp_val as u128, self.decimal_scale)?;
        let net = net as u128;
        if net <= span {
            return Some(low64(try_base_for(net, self.decimal_scale, self.fp_val as u128)?));
        }
        let bought = try_base_for(span, self.decimal_scale, self.fp_val as u128)?;
        let remaining = net - span;
        if !inner {
            return walk.buy(remaining, bought);
        }
        let rate = try_adjusted_rate(self.fp_val, walk.tiers.first.adj_idx, walk.adj_const)?;
        proof {
            assert(self.base_reserve * effective <= self.base_reserve * mult_0) by (nonlinear_arith)
                requires
                    0 <= self.base_reserve,
                    effective <= mult_0,
            ;
            vstd::arithmetic::div_mod::lemma_div_is_ordered(
                self.base_reserve * effective,
                self.base_reserve * mult_0,
                10_000,
            );
        }
        let gap = share(self.base_reserve, mult_0) - pivot;
        let gap_quote = try_quote_for(gap, rate, self.decimal_scale)?;
        let first = share(self.base_reserve, walk.tiers.first.mult as u64 + walk.extra);
        let first_quote = try_quote_for(first, rate, self.decimal_scale)?;
        let joined = gap_quote.checked_add(first_quote)?;
        if remaining <= joined {
            let more = try_base_for(remaining, self.decimal_scale, rate)?;
            return Some(low64(bought.checked_add(more)?));
        }
        let more = try_base_for(joined, self.decimal_scale, rate)?;
        walk.buy(remaining - joined, bought.checked_add(more)?)
    }
}

/// A share of a reserve is that many ten-thousandths of it, rounded down.
pub proof fn law_share_of_reserve(reserve: int, mult: int)
    requires
        0 <= reserve,
        0 <= mult,
    ensures
        share_of(reserve, mult) * 10_000 <= reserve * mult < (share_of(reserve, mult) + 1) * 10_000,
        mult <= 10_000 ==> share_of(reserve, mult) <= reserve,
{
    assert(0 <= reserve * mult && (mult <= 10_000 ==> reserve * mult <= reserve * 10_000)) by (nonlinear_arith)
        requires
            reserve >= 0,
            mult >= 0,
    ;
}

/// Selling base tokens and buying them back at the same rate brings back no
/// more of them.
pub proof fn law_no_gain_at_one_rate(amount: int, rate: int, scale: int, sold: int, back: int)
    requires
        0 <= amount,
        0 < rate,
        0 < scale,
        quote_for(amount, rate, scale) == Some(sold),
        (sold * scale) * 0x1_0000_0000_0000 <= u128::MAX,
        base_for(sold, scale, rate) == Some(back),
    ensures
        0 <= back <= amount,
{
    let x = amount * rate;
    let unit = 0x1_0000_0000_0000int;
    let y = x / unit;
    assert(x >= 0) by (nonlinear_arith)
        requires
            x == amount * rate,
            amount >= 0,
            rate > 0,
    ;
    vstd::arithmetic::div_mod::lemma_fundamental_div_mod(y, scale);
    vstd::arithmetic::div_mod::lemma_div_pos_is_pos(y, scale);
    assert(sold * scale == scale * sold) by (nonlinear_arith);
    assert(sold >= 0 && sold * scale >= 0) by (nonlinear_arith)
        requires
            sold >= 0,
            scale > 0,
    ;
    let z = (sold * scale) * unit;
    assert(z <= x);
    vstd::arithmetic::div_mod::lemma_fundamental_div_mod(z, rate);
    vstd::arithmetic::div_mod::lemma_div_pos_is_pos(z, rate);
    assert(back == z / rate);
    assert(back <= amount) by (nonlinear_arith)
        requires
            rate * back <= z,
            z <= amount * rate,
            rate > 0,
    ;
}

/// A tier that is shifted up trades at a higher rate, one that is shifted down
/// at a lower one, and one that is not at the pool's own.
pub proof fn law_shift_moves_the_rate(fp: int, adj_idx: int, adj_const: int, rate: int)
    requires
        0 <= fp,
        0 <= adj_const,
        -10_000 <= adj_idx * adj_const,
        adjusted_rate(fp, adj_idx, adj_const) == Some(rate),
    ensures
        adj_idx >= 0 ==> rate >= fp,
        adj_idx <= 0 ==> rate <= fp,
        adj_idx == 0 ==> rate == fp,
{
    let shift = adj_idx * adj_const;
    assert((adj_idx >= 0 ==> shift >= 0) && (adj_idx <= 0 ==> shift <= 0)) by (nonlinear_arith)
        requires
            shift == adj_idx * adj_const,
            adj_const >= 0,
    ;
    let factor = 10_000 + shift;
    assert((shift >= 0 ==> fp * factor >= fp * 10_000) && (shift <= 0 ==> fp * factor <= fp * 10_000))
        by (nonlinear_arith)
        requires
            factor == 10_000 + shift,
            fp >= 0,
    ;
}

}
