//! The quote of a GoonFi pool.
use vstd::prelude::*;

use super::curve::{mul_div, try_mul_div, Curve, SCALE};
use super::state::GoonFiState;
use crate::num::{fits_i128, fits_u64, iabs, imax, low64, wrap64};

verus! {

/// How many slots have passed; many where the clock is unknown or behind.
pub open spec fn slots_since(clock_slot: int, slot: int) -> int {
    if clock_slot == 0 || clock_slot < slot {
        999
    } else {
        clock_slot - slot
    }
}

pub fn staleness(clock_slot: u64, slot: u64) -> (r: u64)
    ensures
        r == slots_since(clock_slot as int, slot as int),
{
    if clock_slot == 0 {
        return 999;
    }
    if clock_slot >= slot {
        clock_slot - slot
    } else {
        999
    }
}

/// How many slots the oracle is late beyond its allowance; at least one for a
/// fresh position or a fresh oracle.
pub open spec fn oracle_lateness(clock_slot: int, oracle_slot: int, allowance: int, fresh: bool) -> int {
    let late = imax(clock_slot - oracle_slot - allowance, 0);
    if fresh || clock_slot == oracle_slot {
        imax(1, late)
    } else {
        late
    }
}

pub fn oracle_adj_stale(clock_slot: u64, oracle_slot: u64, fee_mult: u64, sa_is_zero: bool) -> (r: u64)
    ensures
        r == oracle_lateness(clock_slot as int, oracle_slot as int, fee_mult as int, sa_is_zero),
{
    let raw: i128 = clock_slot as i128 - oracle_slot as i128 - fee_mult as i128;
    let late: u64 = if raw > 0 {
        raw as u64
    } else {
        0
    };
    if (sa_is_zero || clock_slot == oracle_slot) && late == 0 {
        1
    } else {
        late
    }
}

/// Millionths of a distance over a scale, rounded to the nearest.
pub open spec fn millionths(distance: int, scale: int) -> int {
    (distance * 1_000_000 + scale / 2) / scale
}

fn get_millionths(distance: u64, scale: u64) -> (r: i128)
    requires
        scale > 0,
    ensures
        r == millionths(distance as int, scale as int),
        0 <= r <= 0x100_0000_0000_0000_0000_0000,
{
    let n: u128 = distance as u128 * 1_000_000 + scale as u128 / 2;
    proof {
        vstd::arithmetic::div_mod::lemma_div_is_ordered_by_denominator(n as int, 1, scale as int);
        vstd::arithmetic::div_mod::lemma_div_pos_is_pos(n as int, scale as int);
    }
    (n / scale as u128) as i128
}

/// A price with a correction in millionths; never below zero, and cut to 64
/// bits.
pub open spec fn corrected(price: int, correction: int) -> Option<int> {
    let p = price * (1_000_000 + correction);
    if !fits_i128(1_000_000 + correction) || !fits_i128(p) {
        None
    } else if p < 0 {
        Some(0)
    } else {
        Some(wrap64(p / 1_000_000))
    }
}

pub fn adj_price(base_price: u64, correction: i128) -> (r: Option<u64>)
    ensures
        r is Some == corrected(base_price as int, correction as int) is Some,
        r is Some ==> r->0 == corrected(base_price as int, correction as int)->0,
{
    let p = (base_price as i128).checked_mul(SCALE.checked_add(correction)?)?;
    if p < 0 {
        Some(0)
    } else {
        Some(low64((p / SCALE) as u128))
    }
}

impl GoonFiState {
    /// The signed distance of the base vault from its reference.
    pub open spec fn vault_distance(self) -> int {
        if self.vault_scale > 0 && self.base_amount > 0 {
            self.vault_reference - self.base_amount
        } else {
            0
        }
    }

    /// The correction of a fresh market whose two scales agree.
    pub open spec fn plain_correction(self) -> int {
        let d = self.vault_distance();
        if self.vault_scale_pw == 0 {
            0
        } else if d < 0 {
            -millionths(-d, self.vault_scale_pw as int)
        } else {
            millionths(d, self.vault_scale_pw as int)
        }
    }

    /// The scale of the part of a distance beyond the threshold.
    pub open spec fn excess_scale(self, is_q2b: bool) -> int {
        if (self.vault_scale_pw >= self.vault_scale) == is_q2b {
            self.vault_scale_pw as int
        } else {
            self.vault_scale_high as int
        }
    }

    /// The correction in two pieces, up to a threshold and beyond it.
    pub open spec fn correction(self, is_q2b: bool) -> int {
        let d = self.vault_distance();
        let distance = iabs(d);
        let threshold = self.stale_vault_threshold as int;
        let scale = self.excess_scale(is_q2b);
        let total = if distance <= threshold {
            millionths(distance, self.vault_scale as int)
        } else {
            millionths(threshold, self.vault_scale as int) + (if scale > 0 {
                millionths(distance - threshold, scale)
            } else {
                0
            })
        };
        if self.vault_scale == 0 {
            0
        } else if d < 0 {
            -total
        } else {
            total
        }
    }

    fn get_vault_distance(&self) -> (r: (u64, bool))
        ensures
            r.0 == iabs(self.vault_distance()),
            r.1 == (self.vault_distance() < 0),
    {
        if self.vault_scale > 0 && self.base_amount > 0 {
            if self.vault_reference >= self.base_amount {
                (self.vault_reference - self.base_amount, false)
            } else {
                (self.base_amount - self.vault_reference, true)
            }
        } else {
            (0, false)
        }
    }

    pub fn simple_vault_corr(&self) -> (r: i128)
        ensures
            r == self.plain_correction(),
            -0x1000_0000_0000_0000_0000_0000 <= r <= 0x1000_0000_0000_0000_0000_0000,
    {
        let (distance, negative) = self.get_vault_distance();
        if self.vault_scale_pw == 0 {
            return 0;
        }
        let corr = get_millionths(distance, self.vault_scale_pw);
        if negative {
            -corr
        } else {
            corr
        }
    }

    pub fn stale_vault_corr(&self, is_q2b: bool) -> (r: i128)
        ensures
            r == self.correction(is_q2b),
            -0x1000_0000_0000_0000_0000_0000 <= r <= 0x1000_0000_0000_0000_0000_0000,
    {
        let (distance, negative) = self.get_vault_distance();
        if self.vault_scale == 0 {
            return 0;
        }
        let threshold = self.stale_vault_threshold;
        let total = if distance <= threshold {
            get_millionths(distance, self.vault_scale)
        } else {
            let base = get_millionths(threshold, self.vault_scale);
            let scale = if (self.vault_scale_pw >= self.vault_scale) == is_q2b {
                self.vault_scale_pw
            } else {
                self.vault_scale_high
            };
            let excess = if scale > 0 {
                get_millionths(distance - threshold, scale)
            } else {
                0
            };
            base + excess
        };
        if negative {
            -total
        } else {
            total
        }
    }

    /// The prices of a direction at an adjusted price and a fee.
    pub open spec fn curve(self, is_q2b: bool, price: int, fee: int) -> Curve {
        Curve {
            raises: is_q2b,
            price: price as u64,
            spread: if is_q2b {
                self.spread_q2b
            } else {
                self.spread_b2q
            },
            fee: fee as u64,
            width: self.spread_param,
            bounds: if is_q2b {
                self.cum_boundaries_q2b
            } else {
                self.cum_boundaries_b2q
            },
        }
    }

    fn get_curve(&self, is_q2b: bool, price: u64, fee: u64) -> (r: Curve)
        ensures
            r == self.curve(is_q2b, price as int, fee as int),
    {
        Curve {
            raises: is_q2b,
            price,
            spread: if is_q2b {
                self.spread_q2b
            } else {
                self.spread_b2q
            },
            fee,
            width: self.spread_param,
            bounds: if is_q2b {
                self.cum_boundaries_q2b
            } else {
                self.cum_boundaries_b2q
            },
        }
    }

    /// The tier that a sale starts at.
    pub open spec fn first_tier(self) -> int {
        if self.cum_boundaries_b2q[0] == 0 {
            1
        } else {
            0
        }
    }

    /// How late the oracle is.
    pub open spec fn lateness(self, clock_slot: int, fresh: bool) -> int {
        oracle_lateness(clock_slot, self.oracle_slot as int, self.fee_multiplier as int, fresh)
    }

    /// A position after `slots` of decay; nothing where it leaves 128 bits.
    pub open spec fn decayed(self, position: int, slots: int) -> Option<int> {
        if fits_i128(self.vault_threshold * slots) {
            Some(position - self.vault_threshold * slots)
        } else {
            None
        }
    }

    fn get_decayed(&self, position: u64, slots: u64) -> (r: Option<i128>)
        ensures
            r is Some == self.decayed(position as int, slots as int) is Some,
            r is Some ==> r->0 == self.decayed(position as int, slots as int)->0,
    {
        proof {
            assert(self.vault_threshold * slots >= 0) by (nonlinear_arith)
                requires
                    self.vault_threshold >= 0,
                    slots >= 0,
            ;
        }
        let decay = (self.vault_threshold as i128).checked_mul(slots as i128)?;
        Some(position as i128 - decay)
    }

    /// A price less a fee in millionths.
    pub open spec fn less_fee(price: int, fee: int) -> Option<int> {
        if fits_i128(fee) && fits_i128(1_000_000 - fee) {
            mul_div(price, 1_000_000 - fee, 1_000_000)
        } else {
            None
        }
    }

    fn get_less_fee(price: u64, fee: Option<i128>) -> (r: Option<i128>)
        ensures
            fee is None ==> r is None,
            fee is Some ==> r is Some == Self::less_fee(price as int, fee->0 as int) is Some,
            fee is Some && r is Some ==> r->0 == Self::less_fee(price as int, fee->0 as int)->0,
    {
        let factor = SCALE.checked_sub(fee?)?;
        try_mul_div(price as i128, factor, SCALE)
    }

    /// A sale within the first tier of a fresh market without a spread there:
    /// only the fee for lateness counts.
    pub open spec fn sold_flat(self, price: int, old_pos: int, new_pos: int, clock_slot: int) -> Option<int> {
        let late = imax(1, clock_slot - self.oracle_slot - self.fee_multiplier);
        let scale = self.price_scale as int;
        if !fits_i128(self.fee_base * late) {
            None
        } else {
            match Self::less_fee(price, 1 + self.fee_base * late) {
                None => None,
                Some(eff) => match (mul_div(new_pos, eff, scale), mul_div(old_pos, eff, scale)) {
                    (Some(a), Some(b)) if fits_i128(a - b) => Some(a - b),
                    _ => None,
                },
            }
        }
    }

    fn get_sold_flat(&self, price: u64, old_pos: u64, new_pos: u64, clock_slot: u64) -> (r: Option<i128>)
        requires
            self.wf(),
        ensures
            r is Some == self.sold_flat(price as int, old_pos as int, new_pos as int, clock_slot as int) is Some,
            r is Some ==> r->0 == self.sold_flat(
                price as int,
                old_pos as int,
                new_pos as int,
                clock_slot as int,
            )->0,
    {
        let raw: i128 = clock_slot as i128 - self.oracle_slot as i128 - self.fee_multiplier as i128;
        let late: i128 = if raw > 1 {
            raw
        } else {
            1
        };
        let fee = (self.fee_base as i128).checked_mul(late)?;
        let eff = Self::get_less_fee(price, fee.checked_add(1))?;
        let a = try_mul_div(new_pos as i128, eff, self.price_scale as i128)?;
        let b = try_mul_div(old_pos as i128, eff, self.price_scale as i128)?;
        a.checked_sub(b)
    }

    /// A product that fits in 64 bits.
    pub open spec fn fee_for(self, late: int) -> Option<int> {
        if fits_u64(self.fee_base * late) {
            Some(self.fee_base * late)
        } else {
            None
        }
    }

    /// A sale in a market that was traded in this slot.
    pub open spec fn sold_fresh(self, amount: int, clock_slot: int) -> Option<int> {
        let eq = self.vault_scale == self.vault_scale_pw;
        let corr = if eq {
            self.plain_correction()
        } else {
            self.correction(false)
        };
        let old_pos = self.position_b2q as int;
        let new_pos = wrap64(old_pos + amount);
        let start = self.first_tier();
        match corrected(self.bid_price as int, corr) {
            None => None,
            Some(price) => if !eq && self.spread_b2q[0] == 0 && new_pos <= self.cum_boundaries_b2q[start] {
                self.sold_flat(price, old_pos, new_pos, clock_slot)
            } else {
                let fee = if eq {
                    self.fee_for(self.lateness(clock_slot, true))
                } else {
                    Some(self.fee_base as int)
                };
                match fee {
                    None => None,
                    Some(f) => self.curve(false, price, f).integral(
                        old_pos,
                        new_pos,
                        self.price_scale as int,
                        start,
                    ),
                }
            },
        }
    }

    fn get_sold_fresh(&self, amount: u64, clock_slot: u64) -> (r: Option<i128>)
        requires
            self.wf(),
        ensures
            r is Some == self.sold_fresh(amount as int, clock_slot as int) is Some,
            r is Some ==> r->0 == self.sold_fresh(amount as int, clock_slot as int)->0,
    {
        let eq = self.vault_scale == self.vault_scale_pw;
        let corr = if eq {
            self.simple_vault_corr()
        } else {
            self.stale_vault_corr(false)
        };
        let price = adj_price(self.bid_price, corr)?;
        let old_pos = self.position_b2q;
        let new_pos = self.position_b2q.wrapping_add(amount);
        let start: usize = if self.cum_boundaries_b2q[0] == 0 {
            1
        } else {
            0
        };
        if !eq && self.spread_b2q[0] == 0 && new_pos <= self.cum_boundaries_b2q[start] {
            return self.get_sold_flat(price, old_pos, new_pos, clock_slot);
        }
        let fee = if eq {
            let late = oracle_adj_stale(clock_slot, self.oracle_slot, self.fee_multiplier, true);
            self.fee_base.checked_mul(late)?
        } else {
            self.fee_base
        };
        self.get_curve(false, price, fee).get_integral(old_pos, new_pos, self.price_scale, start)
    }

    /// A sale in a market whose other side was traded in this slot.
    pub open spec fn sold_half_fresh(self, amount: int, slots: int) -> Option<int> {
        let scale = self.price_scale as int;
        match corrected(self.bid_price as int, self.correction(false)) {
            None => None,
            Some(price) => {
                let curve = self.curve(false, price, self.fee_base as int);
                match self.decayed(self.position_b2q as int, slots) {
                    None => None,
                    Some(pos) => if pos > 0 {
                        curve.integral(pos, wrap64(pos + amount), scale, 0)
                    } else {
                        curve.weighted(amount, scale, 0)
                    },
                }
            },
        }
    }

    fn get_sold_half_fresh(&self, amount: u64, slots: u64) -> (r: Option<i128>)
        requires
            self.wf(),
        ensures
            r is Some == self.sold_half_fresh(amount as int, slots as int) is Some,
            r is Some ==> r->0 == self.sold_half_fresh(amount as int, slots as int)->0,
    {
        let price = adj_price(self.bid_price, self.stale_vault_corr(false))?;
        let curve = self.get_curve(false, price, self.fee_base);
        let pos = self.get_decayed(self.position_b2q, slots)?;
        proof {
            assert(self.vault_threshold * slots >= 0) by (nonlinear_arith)
                requires
                    self.vault_threshold >= 0,
                    slots >= 0,
            ;
        }
        if pos > 0 {
            let pos_u = pos as u64;
            curve.get_integral(pos_u, pos_u.wrapping_add(amount), self.price_scale, 0)
        } else {
            curve.get_weighted(amount, self.price_scale, 0)
        }
    }

    /// A sale in a stale market: at its tier's price where the two scales
    /// agree, else along the curve.
    pub open spec fn sold_stale(self, amount: int, clock_slot: int) -> Option<int> {
        let scale = self.price_scale as int;
        let late = self.lateness(clock_slot, false);
        match corrected(self.bid_price as int, self.correction(false)) {
            None => None,
            Some(price) => if self.vault_scale == self.vault_scale_pw {
                let tier = self.curve(false, price, 0).tier_from(amount, 0);
                let fee = self.spread_b2q[tier] + self.fee_base * late;
                if !fits_i128(self.fee_base * late) {
                    None
                } else {
                    match Self::less_fee(price, fee) {
                        None => None,
                        Some(eff) => mul_div(amount, eff, scale),
                    }
                }
            } else {
                match self.fee_for(late) {
                    None => None,
                    Some(f) => self.curve(false, price, f).weighted(amount, scale, self.first_tier()),
                }
            },
        }
    }

    fn get_sold_stale(&self, amount: u64, clock_slot: u64) -> (r: Option<i128>)
        requires
            self.wf(),
        ensures
            r is Some == self.sold_stale(amount as int, clock_slot as int) is Some,
            r is Some ==> r->0 == self.sold_stale(amount as int, clock_slot as int)->0,
    {
        let price = adj_price(self.bid_price, self.stale_vault_corr(false))?;
        let late = oracle_adj_stale(clock_slot, self.oracle_slot, self.fee_multiplier, false);
        if self.vault_scale == self.vault_scale_pw {
            let tier = self.get_curve(false, price, 0).find_tier(amount);
            let extra = (self.fee_base as i128).checked_mul(late as i128)?;
            let eff = Self::get_less_fee(price, (self.spread_b2q[tier] as i128).checked_add(extra))?;
            try_mul_div(amount as i128, eff, self.price_scale as i128)
        } else {
            let fee = self.fee_base.checked_mul(late)?;
            let start: usize = if self.cum_boundaries_b2q[0] == 0 {
                1
            } else {
                0
            };
            self.get_curve(false, price, fee).get_weighted(amount, self.price_scale, start)
        }
    }

    /// The quote tokens for base tokens.
    pub open spec fn sold(self, amount: int, clock_slot: int) -> Option<int> {
        let sa = slots_since(clock_slot, self.slot_a as int);
        if sa == 0 {
            self.sold_fresh(amount, clock_slot)
        } else if slots_since(clock_slot, self.slot_b as int) == 0 {
            self.sold_half_fresh(amount, sa)
        } else {
            self.sold_stale(amount, clock_slot)
        }
    }

    pub fn quote_b2q(&self, input_amount: u64, clock_slot: u64) -> (r: Option<i128>)
        requires
            self.wf(),
        ensures
            r is Some == self.sold(input_amount as int, clock_slot as int) is Some,
            r is Some ==> r->0 == self.sold(input_amount as int, clock_slot as int)->0,
    {
        let sa = staleness(clock_slot, self.slot_a);
        if sa == 0 {
            self.get_sold_fresh(input_amount, clock_slot)
        } else if staleness(clock_slot, self.slot_b) == 0 {
            self.get_sold_half_fresh(input_amount, sa)
        } else {
            self.get_sold_stale(input_amount, clock_slot)
        }
    }

    /// The base tokens for quote tokens.
    pub open spec fn bought(self, amount: int, clock_slot: int) -> Option<int> {
        let sa = slots_since(clock_slot, self.slot_a as int);
        let sb = slots_since(clock_slot, self.slot_b as int);
        let scale = self.price_scale as int;
        let old_pos = self.position_q2b as int;
        let fresh_fee = if sa == 0 {
            self.fee_base as int
        } else {
            0
        };
        match corrected(self.ask_price as int, self.correction(true)) {
            None => None,
            Some(price) => if sb == 0 {
                self.curve(true, price, self.fee_base as int).integral(old_pos, wrap64(old_pos + amount), scale, 0)
            } else {
                match self.decayed(old_pos, sb) {
                    None => None,
                    Some(pos) => if pos > 0 {
                        self.curve(true, price, fresh_fee).integral(pos, wrap64(pos + amount), scale, 0)
                    } else if self.vault_scale == self.vault_scale_pw {
                        let curve = self.curve(true, price, 0);
                        let fee = self.spread_q2b[curve.tier_from(amount, 0)] + fresh_fee;
                        match mul_div(price, 1_000_000 + fee, 1_000_000) {
                            None => None,
                            Some(eff) => curve.worth(amount, eff, scale),
                        }
                    } else {
                        match self.fee_for(self.lateness(clock_slot, sa == 0)) {
                            None => None,
                            Some(f) => self.curve(true, price, f).weighted(amount, scale, 0),
                        }
                    },
                }
            },
        }
    }

    pub fn quote_q2b(&self, input_amount: u64, clock_slot: u64) -> (r: Option<i128>)
        requires
            self.wf(),
        ensures
            r is Some == self.bought(input_amount as int, clock_slot as int) is Some,
            r is Some ==> r->0 == self.bought(input_amount as int, clock_slot as int)->0,
    {
        let sa = staleness(clock_slot, self.slot_a);
        let sb = staleness(clock_slot, self.slot_b);
        let price = adj_price(self.ask_price, self.stale_vault_corr(true))?;
        let fresh_fee: u64 = if sa == 0 {
            self.fee_base
        } else {
            0
        };
        if sb == 0 {
            let new_pos = self.position_q2b.wrapping_add(input_amount);
            return self.get_curve(true, price, self.fee_base).get_integral(
                self.position_q2b,
                new_pos,
                self.price_scale,
                0,
            );
        }
        let pos = self.get_decayed(self.position_q2b, sb)?;
        proof {
            assert(self.vault_threshold * sb >= 0) by (nonlinear_arith)
                requires
                    self.vault_threshold >= 0,
                    sb >= 0,
            ;
        }
        if pos > 0 {
            let pos_u = pos as u64;
            self.get_curve(true, price, fresh_fee).get_integral(
                pos_u,
                pos_u.wrapping_add(input_amount),
                self.price_scale,
                0,
            )
        } else if self.vault_scale == self.vault_scale_pw {
            let curve = self.get_curve(true, price, 0);
            let tier = curve.find_tier(input_amount);
            let fee: i128 = self.spread_q2b[tier] as i128 + fresh_fee as i128;
            let eff = try_mul_div(price as i128, SCALE + fee, SCALE)?;
            curve.get_worth(input_amount, eff, self.price_scale)
        } else {
            let late = oracle_adj_stale(clock_slot, self.oracle_slot, self.fee_multiplier, sa == 0);
            let fee = self.fee_base.checked_mul(late)?;
            self.get_curve(true, price, fee).get_weighted(input_amount, self.price_scale, 0)
        }
    }

    /// The amount out; zero where it would be negative, and cut to 64 bits.
    /// Nothing where a number leaves its machine type.
    pub open spec fn quote(self, amount: int, is_b2q: bool, clock_slot: int) -> Option<int> {
        let out = if is_b2q {
            self.sold(amount, clock_slot)
        } else {
            self.bought(amount, clock_slot)
        };
        if amount == 0 {
            Some(0)
        } else {
            match out {
                None => None,
                Some(x) => if x < 0 {
                    Some(0)
                } else {
                    Some(wrap64(x))
                },
            }
        }
    }

    pub fn get_quote(&self, amount_in: u64, is_base_to_quote: bool, clock_slot: u64) -> (r: Option<u64>)
        requires
            self.wf(),
        ensures
            r is Some == self.quote(amount_in as int, is_base_to_quote, clock_slot as int) is Some,
            r is Some ==> r->0 == self.quote(amount_in as int, is_base_to_quote, clock_slot as int)->0,
    {
        if amount_in == 0 {
            return Some(0);
        }
        let output = if is_base_to_quote {
            self.quote_b2q(amount_in, clock_slot)?
        } else {
            self.quote_q2b(amount_in, clock_slot)?
        };
        if output < 0 {
            Some(0)
        } else {
            Some(low64(output as u128))
        }
    }
}

/// Whether `n` is the number of millionths that `distance` is of `scale`, to
/// the nearest, a half going up.
pub open spec fn is_nearest_millionth(n: int, distance: int, scale: int) -> bool {
    n * scale <= distance * 1_000_000 + scale / 2 < (n + 1) * scale
}

proof fn lemma_millionths_nearest(distance: int, scale: int)
    requires
        distance >= 0,
        scale > 0,
    ensures
        is_nearest_millionth(millionths(distance, scale), distance, scale),
        millionths(distance, scale) >= 0,
        distance == 0 ==> millionths(distance, scale) == 0,
{
    let x = distance * 1_000_000 + scale / 2;
    vstd::arithmetic::div_mod::lemma_fundamental_div_mod(x, scale);
    vstd::arithmetic::div_mod::lemma_div_pos_is_pos(x, scale);
    let q = x / scale;
    assert(q * scale <= x < (q + 1) * scale) by (nonlinear_arith)
        requires
            x == scale * q + x % scale,
            0 <= x % scale < scale,
    ;
    if distance == 0 {
        assert(q == 0) by (nonlinear_arith)
            requires
                q * scale <= x,
                q >= 0,
                x < scale,
                scale > 0,
        ;
    }
}

proof fn lemma_nearest_unique(m: int, n: int, distance: int, scale: int)
    requires
        scale > 0,
        is_nearest_millionth(m, distance, scale),
        is_nearest_millionth(n, distance, scale),
    ensures
        m == n,
{
    assert(m == n) by (nonlinear_arith)
        requires
            scale > 0,
            m * scale < (n + 1) * scale,
            n * scale < (m + 1) * scale,
    ;
}

/// The inventory correction has the sign of what the base vault lacks to its
/// reference, in a fresh market and in a stale one, on either side: it never
/// lowers the prices of a pool below its reference, and never raises those of
/// one above it. It is nothing where the vault is empty or at its reference.
pub proof fn law_correction_follows_the_vault(s: GoonFiState, is_q2b: bool)
    ensures
        s.base_amount <= s.vault_reference ==> s.plain_correction() >= 0 && s.correction(is_q2b) >= 0,
        s.base_amount >= s.vault_reference ==> s.plain_correction() <= 0 && s.correction(is_q2b) <= 0,
        s.base_amount == 0 ==> s.plain_correction() == 0 && s.correction(is_q2b) == 0,
{
    let distance = iabs(s.vault_distance());
    let threshold = s.stale_vault_threshold as int;
    if s.vault_scale_pw > 0 {
        lemma_millionths_nearest(distance, s.vault_scale_pw as int);
    }
    if s.vault_scale > 0 {
        lemma_millionths_nearest(distance, s.vault_scale as int);
        lemma_millionths_nearest(threshold, s.vault_scale as int);
        if distance > threshold && s.excess_scale(is_q2b) > 0 {
            lemma_millionths_nearest(distance - threshold, s.excess_scale(is_q2b));
        }
    }
}

/// The correction of a fresh market is the part that the vault's distance is of
/// its scale, with the sign of what the vault lacks.
pub proof fn law_plain_correction_is_proportional(s: GoonFiState, n: int)
    requires
        s.vault_scale > 0,
        s.vault_scale_pw > 0,
        s.base_amount > 0,
        is_nearest_millionth(n, iabs(s.vault_reference - s.base_amount), s.vault_scale_pw as int),
    ensures
        s.base_amount <= s.vault_reference ==> s.plain_correction() == n,
        s.base_amount > s.vault_reference ==> s.plain_correction() == -n,
{
    let distance = iabs(s.vault_reference - s.base_amount);
    lemma_millionths_nearest(distance, s.vault_scale_pw as int);
    lemma_nearest_unique(n, millionths(distance, s.vault_scale_pw as int), distance, s.vault_scale_pw as int);
}

/// The correction of a stale market is proportional up to a threshold. What
/// lies beyond it counts by another scale: by the steeper of the two given for
/// it or not at all, as the side asks.
pub proof fn law_stale_correction_has_two_pieces(s: GoonFiState, is_q2b: bool, near: int, far: int)
    requires
        s.vault_scale > 0,
        s.base_amount > 0,
        ({
            let distance = iabs(s.vault_reference - s.base_amount);
            let threshold = s.stale_vault_threshold as int;
            let scale = if s.vault_scale_pw >= s.vault_scale {
                if is_q2b {
                    s.vault_scale_pw as int
                } else {
                    s.vault_scale_high as int
                }
            } else {
                if is_q2b {
                    s.vault_scale_high as int
                } else {
                    s.vault_scale_pw as int
                }
            };
            let inner = if distance < threshold {
                distance
            } else {
                threshold
            };
            &&& is_nearest_millionth(near, inner, s.vault_scale as int)
            &&& if distance > threshold && scale > 0 {
                is_nearest_millionth(far, distance - threshold, scale)
            } else {
                far == 0
            }
        }),
    ensures
        s.base_amount <= s.vault_reference ==> s.correction(is_q2b) == near + far,
        s.base_amount > s.vault_reference ==> s.correction(is_q2b) == -(near + far),
{
    let distance = iabs(s.vault_reference - s.base_amount);
    let threshold = s.stale_vault_threshold as int;
    let scale = s.excess_scale(is_q2b);
    let inner = if distance < threshold {
        distance
    } else {
        threshold
    };
    lemma_millionths_nearest(inner, s.vault_scale as int);
    lemma_nearest_unique(near, millionths(inner, s.vault_scale as int), inner, s.vault_scale as int);
    if distance > threshold && scale > 0 {
        lemma_millionths_nearest(distance - threshold, scale);
        lemma_nearest_unique(far, millionths(distance - threshold, scale), distance - threshold, scale);
    }
}

/// A correction in millionths moves a price by that part of it, rounded down:
/// up where it is positive and down where it is negative, but not below zero.
pub proof fn law_corrected_price(price: int, correction: int, p: int)
    requires
        0 <= price,
        corrected(price, correction) is Some,
        fits_u64(p),
        if correction <= -1_000_000 {
            p == 0
        } else {
            p * 1_000_000 <= price * 1_000_000 + price * correction < (p + 1) * 1_000_000
        },
    ensures
        corrected(price, correction) == Some(p),
        correction >= 0 ==> p >= price,
        correction <= 0 ==> p <= price,
{
    let x = price * (1_000_000 + correction);
    assert(x == price * 1_000_000 + price * correction) by (nonlinear_arith)
        requires
            x == price * (1_000_000 + correction),
    ;
    assert(correction >= 0 ==> price * correction >= 0) by (nonlinear_arith)
        requires
            price >= 0,
    ;
    assert(correction <= 0 ==> price * correction <= 0) by (nonlinear_arith)
        requires
            price >= 0,
    ;
    assert(correction <= -1_000_000 ==> x <= 0) by (nonlinear_arith)
        requires
            price >= 0,
            x == price * (1_000_000 + correction),
    ;
    assert(correction >= -1_000_000 ==> x >= 0) by (nonlinear_arith)
        requires
            price >= 0,
            x == price * (1_000_000 + correction),
    ;
}

/// A pool below its reference bids and asks no less than its oracle says before
/// fees, and one above it no more, on either side and however stale it is.
pub proof fn law_scarce_pool_prices_up(s: GoonFiState, price: int, p: int, is_q2b: bool)
    requires
        fits_u64(price),
        fits_u64(price * (1_000_000 + s.plain_correction()) / 1_000_000),
        fits_u64(price * (1_000_000 + s.correction(is_q2b)) / 1_000_000),
        corrected(price, s.plain_correction()) == Some(p) || corrected(price, s.correction(is_q2b)) == Some(p),
    ensures
        s.base_amount <= s.vault_reference ==> p >= price,
        s.base_amount >= s.vault_reference ==> p <= price,
{
    law_correction_follows_the_vault(s, is_q2b);
    let c = if corrected(price, s.plain_correction()) == Some(p) {
        s.plain_correction()
    } else {
        s.correction(is_q2b)
    };
    let x = price * (1_000_000 + c);
    assert(x == price * 1_000_000 + price * c) by (nonlinear_arith)
        requires
            x == price * (1_000_000 + c),
    ;
    assert(c >= 0 ==> price * c >= 0) by (nonlinear_arith)
        requires
            price >= 0,
    ;
    assert(c <= 0 ==> price * c <= 0) by (nonlinear_arith)
        requires
            price >= 0,
    ;
}

/// A market that was traded in this slot is of age zero, and an older one as
/// old as the slots that passed. One whose clock is unknown or ahead counts as
/// old.
pub proof fn law_age_counts_slots(clock_slot: int, slot: int)
    requires
        0 <= clock_slot,
        0 <= slot,
    ensures
        0 < clock_slot && slot <= clock_slot ==> slots_since(clock_slot, slot) + slot == clock_slot,
        clock_slot == 0 || clock_slot < slot ==> slots_since(clock_slot, slot) == 999,
        slots_since(clock_slot, slot) == 0 <==> 0 < clock_slot && slot == clock_slot,
{
}

/// An oracle is never less late at a later slot, nor with a smaller allowance,
/// nor for a fresh position.
pub proof fn law_lateness_grows(clock: int, later: int, oracle: int, allowance: int, less: int)
    requires
        oracle < clock <= later,
        0 <= less <= allowance,
    ensures
        0 <= oracle_lateness(clock, oracle, allowance, false) <= oracle_lateness(later, oracle, less, false),
        oracle_lateness(clock, oracle, allowance, false) <= oracle_lateness(clock, oracle, allowance, true),
        oracle_lateness(clock, oracle, allowance, true) >= 1,
        clock - oracle <= allowance ==> oracle_lateness(clock, oracle, allowance, false) == 0,
        clock - oracle >= allowance ==> oracle_lateness(clock, oracle, allowance, false) + allowance == clock - oracle,
{
}

/// A position decays by as much for every slot, so that it is the same however
/// the slots are counted.
pub proof fn law_position_decays_by_the_slot(s: GoonFiState, position: int, first: int, second: int)
    requires
        0 <= first,
        0 <= second,
        s.decayed(position, first + second) is Some,
    ensures
        s.decayed(position, first) is Some,
        s.decayed(s.decayed(position, first)->0, second) == s.decayed(position, first + second),
        s.decayed(position, first + second)->0 <= s.decayed(position, first)->0 <= position,
        s.decayed(position, 0) == Some(position),
{
    let t = s.vault_threshold as int;
    assert(t * (first + second) == t * first + t * second && t * first >= 0 && t * second >= 0 && t * 0 == 0)
        by (nonlinear_arith)
        requires
            t >= 0,
            first >= 0,
            second >= 0,
    ;
}

/// A fee comes off a price, and more of it the higher the fee.
pub proof fn law_fee_lowers_the_price(price: int, fee: int, more: int)
    requires
        0 <= price,
        0 <= fee <= more <= 1_000_000,
        GoonFiState::less_fee(price, fee) is Some,
        GoonFiState::less_fee(price, more) is Some,
    ensures
        0 <= GoonFiState::less_fee(price, more)->0 <= GoonFiState::less_fee(price, fee)->0 <= price,
        GoonFiState::less_fee(price, 0) is Some ==> GoonFiState::less_fee(price, 0) == Some(price),
{
    assert(0 <= price * (1_000_000 - more) <= price * (1_000_000 - fee) <= price * 1_000_000) by (nonlinear_arith)
        requires
            0 <= price,
            0 <= fee <= more <= 1_000_000,
    ;
}

}
