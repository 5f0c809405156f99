//! The price of a trade against a SolFi V2 pool.
use vstd::prelude::*;

use super::float::{f32_add, single_sum};
use super::state::SolFiV2State;
use crate::num::{
    fits_i128, fits_i64, fits_u128, fits_u64, i128_abs, i128_as_u64, i64_abs, iabs, imax, imin, low64,
    max_u64, min_u64, monus, signed64, trunc_div, u64_as_i64, wrap64,
};

verus! {

pub const FEE_SCALE: i64 = 10_000_000;

/// How far the oracle or the pool may lie behind, in slots.
pub const MAX_STALENESS: u64 = 1000;

fn product(a: u64, b: u64) -> (r: u128)
    ensures
        r == a * b,
{
    assert(a * b <= u64::MAX * u64::MAX) by (nonlinear_arith)
        requires
            a <= u64::MAX,
            b <= u64::MAX,
    ;
    a as u128 * b as u128
}

/// A correction of the oracle's price and its magnitude.
#[derive(Clone, Copy, Debug, PartialEq, Eq, Structural)]
pub struct Correction {
    pub signed: i64,
    pub magnitude: u64,
}

impl SolFiV2State {
    /// The quote tokens that the pool holds beyond the worth of its base
    /// tokens.
    pub open spec fn imbalance(self) -> int {
        self.quote_amount - wrap64(self.base_amount * self.oracle_price / self.divisor as int)
    }

    /// The magnitude of the correction, cut to its cap beyond the threshold.
    pub open spec fn correction_magnitude(self) -> int {
        let m = wrap64(iabs(self.imbalance()) * self.vault_adj_mult / (2 * self.divisor2));
        let cap = if self.imbalance() < 0 {
            self.correction_cap_neg
        } else {
            self.correction_cap_pos
        };
        if m > self.oracle_thresh {
            imin(m, cap as int)
        } else {
            m
        }
    }

    /// The correction, with the sign of the imbalance; nothing where it has no
    /// opposite in 64 bits.
    pub open spec fn correction(self) -> Option<Correction> {
        let m = self.correction_magnitude();
        let s = signed64(m);
        if self.divisor2 == 0 || self.divisor == 0 {
            Some(Correction { signed: 0, magnitude: 0 })
        } else if self.imbalance() >= 0 {
            Some(Correction { signed: s as i64, magnitude: m as u64 })
        } else if s == i64::MIN {
            None
        } else {
            Some(Correction { signed: (-s) as i64, magnitude: m as u64 })
        }
    }

    pub fn compute_correction(&self) -> (r: Option<Correction>)
        ensures
            r == self.correction(),
    {
        if self.divisor2 == 0 || self.divisor == 0 {
            return Some(Correction { signed: 0, magnitude: 0 });
        }
        let approx = low64(product(self.base_amount, self.oracle_price) / self.divisor as u128);
        let imbalance: i128 = self.quote_amount as i128 - approx as i128;
        let gap = i128_abs(imbalance) as u64;
        let mut magnitude = low64(product(gap, self.vault_adj_mult) / (2 * self.divisor2 as u128));
        if magnitude > self.oracle_thresh {
            let cap = if imbalance < 0 {
                self.correction_cap_neg
            } else {
                self.correction_cap_pos
            };
            magnitude = min_u64(magnitude, cap);
        }
        let s = u64_as_i64(magnitude);
        if imbalance >= 0 {
            Some(Correction { signed: s, magnitude })
        } else if s == i64::MIN {
            None
        } else {
            Some(Correction { signed: -s, magnitude })
        }
    }

    /// Whether a correction lies within the threshold.
    pub open spec fn negligible(self, c: Correction) -> bool {
        iabs(c.signed as int) <= self.correction_threshold
    }

    /// Whether the oracle is of this slot, and the pool not far behind it.
    pub open spec fn fresh_sync(self, slot: int) -> bool {
        let effective = imax(slot, self.pool_last_slot as int);
        monus(effective, self.oracle_update_slot as int) == 0 && monus(
            self.oracle_update_slot as int,
            self.pool_last_slot as int,
        ) <= self.s4_age_threshold
    }

    /// Whether the pool was written in this slot, before its adjustment.
    pub open spec fn current(self, slot: int) -> bool {
        self.pool_last_slot <= self.pool_adj_slot && imax(slot, self.pool_last_slot as int)
            == self.pool_last_slot
    }

    /// Whether a sale of base tokens takes the oracle's price without its
    /// correction.
    pub open spec fn skips_b2q(self, c: Correction, slot: int) -> bool {
        &&& c.signed > 0
        &&& self.current(slot)
        &&& self.pool_last_slot >= self.oracle_update_slot || self.negligible(c) || self.fresh_sync(slot)
        &&& c.magnitude > self.oracle_thresh || self.s4_flag_raw > 0 || self.fresh_sync(slot)
            || self.pool_last_slot > self.oracle_update_slot
    }

    /// Whether a purchase of base tokens takes the oracle's price without its
    /// correction.
    pub open spec fn skips_q2b(self, c: Correction, slot: int) -> bool {
        &&& c.signed < 0
        &&& self.current(slot)
        &&& self.pool_last_slot > self.oracle_update_slot || (self.effective_level > 0 && monus(
            self.oracle_update_slot as int,
            self.pool_last_slot as int,
        ) <= self.s4_age_threshold) || self.negligible(c) || self.fresh_sync(slot)
    }

    pub fn compute_oracle_skip(&self, c: Correction, cache_slot: u64) -> (r: (bool, bool))
        ensures
            r.0 == self.skips_b2q(c, cache_slot as int),
            r.1 == self.skips_q2b(c, cache_slot as int),
    {
        let negligible = i64_abs(c.signed) <= self.correction_threshold;
        let effective = max_u64(cache_slot, self.pool_last_slot);
        let current = self.pool_last_slot <= self.pool_adj_slot && effective == self.pool_last_slot;
        let ahead = self.pool_last_slot > self.oracle_update_slot;
        let behind = self.pool_last_slot < self.oracle_update_slot;
        let gap = self.oracle_update_slot.saturating_sub(self.pool_last_slot);
        let near = gap <= self.s4_age_threshold;
        let fresh = effective <= self.oracle_update_slot && near;
        let b2q = c.signed > 0 && current && (!behind || negligible || fresh) && (c.magnitude
            > self.oracle_thresh || self.s4_flag_raw > 0 || fresh || ahead);
        let q2b = c.signed < 0 && current && (ahead || (self.effective_level > 0 && near) || negligible
            || fresh);
        (b2q, q2b)
    }

    /// The fee of a level; none where the oracle moved since the pool saw it.
    pub open spec fn level_fee(self, level: int) -> Option<int> {
        if level == 0 || self.pool_last_slot < self.oracle_update_slot || self.pool_stored_oracle
            != self.oracle_current_0x18 {
            Some(0)
        } else {
            self.s4.fee_at(level)
        }
    }

    fn compute_s4(&self, level: u32) -> (r: Option<u64>)
        requires
            self.wf(),
        ensures
            r is Some == self.level_fee(level as int) is Some,
            r is Some ==> r->0 == self.level_fee(level as int)->0,
    {
        if level == 0 || self.pool_last_slot < self.oracle_update_slot || self.pool_stored_oracle
            != self.oracle_current_0x18 {
            return Some(0);
        }
        self.s4.table3_interp(level as u64)
    }

    pub fn compute_q2b_s4(&self) -> (r: Option<u64>)
        requires
            self.wf(),
        ensures
            r is Some == self.level_fee(self.s4_flag_raw as int) is Some,
            r is Some ==> r->0 == self.level_fee(self.s4_flag_raw as int)->0,
    {
        self.compute_s4(self.s4_flag_raw)
    }

    pub fn compute_b2q_s4(&self) -> (r: Option<u64>)
        requires
            self.wf(),
        ensures
            r is Some == self.level_fee(self.effective_level as int) is Some,
            r is Some ==> r->0 == self.level_fee(self.effective_level as int)->0,
    {
        self.compute_s4(self.effective_level)
    }

    /// What size and age add to a fee, beyond the fee of the level.
    pub open spec fn widening(self, tw: int, t3_fee: int, s4: int) -> Option<int> {
        let p = t3_fee * tw * self.base_mult;
        let w = s4 + wrap64(p / 1_000_000);
        if fits_u128(p) && fits_u64(w) {
            Some(w)
        } else {
            None
        }
    }

    pub fn compute_widening(&self, tw: u64, t3_fee: u64, s4_offset: u64) -> (r: Option<u64>)
        ensures
            r is Some == self.widening(tw as int, t3_fee as int, s4_offset as int) is Some,
            r is Some ==> r->0 == self.widening(tw as int, t3_fee as int, s4_offset as int)->0,
    {
        let p = product(t3_fee, tw).checked_mul(self.base_mult as u128)?;
        s4_offset.checked_add(low64(p / 1_000_000))
    }

    /// The fee of a direction: ten percent at most, then the largest fee of
    /// the pool.
    pub open spec fn fee(self, offset: int, widening: int, spread: int) -> Option<int> {
        let before = offset + signed64(widening);
        let fee = if before > 999_999 {
            1_000_000
        } else {
            single_sum(before, spread)
        };
        if fits_i64(before) {
            Some(imin(fee, signed64(self.max_fee as int)))
        } else {
            None
        }
    }

    pub fn compute_fee(&self, direction_offset: u32, widening: u64, eff_base_spread: i64) -> (r: Option<
        i64,
    >)
        ensures
            r is Some == self.fee(direction_offset as int, widening as int, eff_base_spread as int) is Some,
            r is Some ==> r->0 == self.fee(
                direction_offset as int,
                widening as int,
                eff_base_spread as int,
            )->0,
    {
        let before = (direction_offset as i64).checked_add(u64_as_i64(widening))?;
        let fee: i64 = if before > 999_999 {
            1_000_000
        } else {
            f32_add(before, eff_base_spread)
        };
        let most = u64_as_i64(self.max_fee);
        if fee > most {
            Some(most)
        } else {
            Some(fee)
        }
    }

    /// What is left of ten million parts after the fee of a trade.
    pub open spec fn fee_factor(
        self,
        tw: Option<int>,
        t3_fee: int,
        s4: int,
        offset: int,
        spread: int,
    ) -> Option<int> {
        match tw {
            None => None,
            Some(tw) => match self.widening(tw, t3_fee, s4) {
                None => None,
                Some(w) => match self.fee(offset, w, spread) {
                    None => None,
                    Some(fee) => if fits_i64(FEE_SCALE - fee) {
                        Some(FEE_SCALE - fee)
                    } else {
                        None
                    },
                },
            },
        }
    }

    fn compute_fee_factor(
        &self,
        tw: Option<u64>,
        t3_fee: u64,
        s4: u64,
        offset: u32,
        spread: i64,
        Ghost(tw_spec): Ghost<Option<int>>,
    ) -> (r: Option<i64>)
        requires
            tw is Some == tw_spec is Some,
            tw is Some ==> tw->0 == tw_spec->0,
        ensures
            r is Some == self.fee_factor(tw_spec, t3_fee as int, s4 as int, offset as int, spread as int) is Some,
            r is Some ==> r->0 == self.fee_factor(
                tw_spec,
                t3_fee as int,
                s4 as int,
                offset as int,
                spread as int,
            )->0,
    {
        let w = self.compute_widening(tw?, t3_fee, s4)?;
        let fee = self.compute_fee(offset, w, spread)?;
        FEE_SCALE.checked_sub(fee)
    }

    /// An amount after its fee, within a vault.
    pub open spec fn after_fee(raw: int, factor: int, vault: int) -> int {
        if factor <= 0 {
            0
        } else {
            imin(wrap64(raw * factor / (FEE_SCALE as int)), vault)
        }
    }

    fn take_fee(raw: u64, factor: i64, vault: u64) -> (r: u64)
        ensures
            r == Self::after_fee(raw as int, factor as int, vault as int),
    {
        if factor <= 0 {
            return 0;
        }
        min_u64(low64(product(raw, factor as u64) / FEE_SCALE as u128), vault)
    }

    /// The oracle's price after its correction.
    pub open spec fn adjusted_price(self, c: Correction) -> Option<int> {
        let p = self.oracle_price * (FEE_SCALE + c.signed);
        if fits_i128(p) {
            Some(wrap64(trunc_div(p, FEE_SCALE as int)))
        } else {
            None
        }
    }

    fn compute_adjusted_price(&self, c: Correction) -> (r: Option<u64>)
        ensures
            r is Some == self.adjusted_price(c) is Some,
            r is Some ==> r->0 == self.adjusted_price(c)->0,
    {
        let p = (self.oracle_price as i128).checked_mul(FEE_SCALE as i128 + c.signed as i128)?;
        let q: i128 = p / FEE_SCALE as i128;
        Some(i128_as_u64(q))
    }

    /// The spread, dropped for a small correction under a wide threshold.
    pub open spec fn effective_spread(self, c: Correction) -> int {
        if self.negligible(c) && self.correction_threshold > self.oracle_thresh {
            0
        } else {
            self.base_spread as int
        }
    }

    /// Whether the pool has a price at a slot.
    pub open spec fn priced(self, slot: int) -> bool {
        &&& self.oracle_price != 0
        &&& self.divisor != 0
        &&& self.base_amount != 0
        &&& self.quote_amount != 0
        &&& monus(slot, self.pool_last_slot as int) <= MAX_STALENESS
        &&& monus(slot, self.oracle_update_slot as int) <= MAX_STALENESS
    }

    /// The age of the oracle's price in slots.
    pub open spec fn oracle_age(self, slot: int) -> int {
        monus(imax(slot, self.pool_last_slot as int), self.oracle_update_slot as int)
    }

    /// The quote tokens for an amount of base tokens.
    pub open spec fn sold(self, amount: int, price: int, t3_fee: int, s4: int, spread: int) -> Option<int> {
        let raw = wrap64(amount * price / self.divisor as int);
        match self.fee_factor(self.set2.fee_at(raw), t3_fee, s4, self.b2q_offset as int, spread) {
            None => None,
            Some(f) => Some(Self::after_fee(raw, f, self.quote_amount as int)),
        }
    }

    fn sell(&self, amount: u64, price: u64, t3_fee: u64, s4: u64, spread: i64) -> (r: Option<u64>)
        requires
            self.divisor != 0,
        ensures
            r is Some == self.sold(amount as int, price as int, t3_fee as int, s4 as int, spread as int) is Some,
            r is Some ==> r->0 == self.sold(
                amount as int,
                price as int,
                t3_fee as int,
                s4 as int,
                spread as int,
            )->0,
    {
        let raw = low64(product(amount, price) / self.divisor as u128);
        let tw = self.set2.tier_interp(raw);
        let f = self.compute_fee_factor(
            tw,
            t3_fee,
            s4,
            self.b2q_offset,
            spread,
            Ghost(self.set2.fee_at(raw as int)),
        )?;
        Some(Self::take_fee(raw, f, self.quote_amount))
    }

    /// The base tokens for an amount of quote tokens.
    pub open spec fn bought(self, amount: int, price: int, t3_fee: int, s4: int, spread: int) -> Option<
        int,
    > {
        let raw = wrap64(amount * self.divisor / price);
        match self.fee_factor(self.set1.fee_at(amount), t3_fee, s4, self.q2b_offset as int, spread) {
            None => None,
            Some(f) => if price == 0 {
                Some(0)
            } else {
                Some(Self::after_fee(raw, f, self.base_amount as int))
            },
        }
    }

    fn buy(&self, amount: u64, price: u64, t3_fee: u64, s4: u64, spread: i64) -> (r: Option<u64>)
        ensures
            r is Some == self.bought(amount as int, price as int, t3_fee as int, s4 as int, spread as int) is Some,
            r is Some ==> r->0 == self.bought(
                amount as int,
                price as int,
                t3_fee as int,
                s4 as int,
                spread as int,
            )->0,
    {
        let tw = self.set1.tier_interp(amount);
        let f = self.compute_fee_factor(
            tw,
            t3_fee,
            s4,
            self.q2b_offset,
            spread,
            Ghost(self.set1.fee_at(amount as int)),
        )?;
        if price == 0 {
            return Some(0);
        }
        let raw = low64(product(amount, self.divisor) / price as u128);
        Some(Self::take_fee(raw, f, self.base_amount))
    }

    /// The amount out for an amount in; nothing where a number outgrows its
    /// type on the way.
    pub open spec fn quote(self, amount: int, b2q: bool, slot: int) -> Option<int> {
        if !self.priced(slot) {
            Some(0)
        } else {
            match self.correction() {
                None => None,
                Some(c) => {
                    let adjusted = self.adjusted_price(c);
                    let t3 = self.t3.fee_at(self.oracle_age(slot));
                    let s4_q2b = self.level_fee(self.s4_flag_raw as int);
                    let s4_b2q = self.level_fee(self.effective_level as int);
                    let spread = self.effective_spread(c);
                    if adjusted is None || t3 is None || s4_q2b is None || s4_b2q is None {
                        None
                    } else if b2q {
                        let price = if self.skips_b2q(c, slot) {
                            self.oracle_price as int
                        } else {
                            adjusted->0
                        };
                        self.sold(amount, price, t3->0, s4_b2q->0, spread)
                    } else {
                        let price = if self.skips_q2b(c, slot) {
                            self.oracle_price as int
                        } else {
                            adjusted->0
                        };
                        self.bought(amount, price, t3->0, s4_q2b->0, spread)
                    }
                },
            }
        }
    }

    pub fn get_quote(&self, input_amount: u64, is_base_to_quote: bool, cache_slot: u64) -> (r: Option<u64>)
        requires
            self.wf(),
        ensures
            r is Some == self.quote(input_amount as int, is_base_to_quote, cache_slot as int) is Some,
            r is Some ==> r->0 == self.quote(input_amount as int, is_base_to_quote, cache_slot as int)->0,
    {
        if self.oracle_price == 0 || self.divisor == 0 {
            return Some(0);
        }
        if self.base_amount == 0 || self.quote_amount == 0 {
            return Some(0);
        }
        if cache_slot.saturating_sub(self.pool_last_slot) > MAX_STALENESS {
            return Some(0);
        }
        if cache_slot.saturating_sub(self.oracle_update_slot) > MAX_STALENESS {
            return Some(0);
        }
        let c = self.compute_correction()?;
        let adjusted = self.compute_adjusted_price(c)?;
        let wide = self.correction_threshold > self.oracle_thresh;
        let spread = if i64_abs(c.signed) <= self.correction_threshold && wide {
            0
        } else {
            self.base_spread
        };
        let effective = max_u64(cache_slot, self.pool_last_slot);
        let age = effective.saturating_sub(self.oracle_update_slot);
        let t3_fee = self.t3.table3_interp(age)?;
        let (b2q_skip, q2b_skip) = self.compute_oracle_skip(c, cache_slot);
        let q2b_s4 = self.compute_q2b_s4()?;
        let b2q_s4 = self.compute_b2q_s4()?;
        if is_base_to_quote {
            let price = if b2q_skip {
                self.oracle_price
            } else {
                adjusted
            };
            self.sell(input_amount, price, t3_fee, b2q_s4, spread)
        } else {
            let price = if q2b_skip {
                self.oracle_price
            } else {
                adjusted
            };
            self.buy(input_amount, price, t3_fee, q2b_s4, spread)
        }
    }
}

/// A trade never pays out more than the vault that it is paid from.
pub proof fn law_quote_within_vault(s: SolFiV2State, amount: int, b2q: bool, slot: int)
    requires
        s.quote(amount, b2q, slot) is Some,
    ensures
        0 <= s.quote(amount, b2q, slot)->0 <= (if b2q {
            s.quote_amount
        } else {
            s.base_amount
        }),
{
}

/// A pool whose account or oracle lies more than a thousand slots behind pays
/// nothing.
pub proof fn law_stale_pool_pays_nothing(s: SolFiV2State, amount: int, b2q: bool, slot: int)
    requires
        slot > s.pool_last_slot + MAX_STALENESS || slot > s.oracle_update_slot + MAX_STALENESS,
    ensures
        s.quote(amount, b2q, slot) == Some(0int),
{
}

/// A pool that holds more in quote tokens than its base tokens are worth
/// corrects its price upwards, and one that holds less downwards; the correction
/// is within the cap of its side once it is above the threshold.
pub proof fn law_correction_follows_the_imbalance(s: SolFiV2State, worth: int, c: Correction)
    requires
        s.divisor > 0,
        s.divisor2 > 0,
        worth * s.divisor <= s.base_amount * s.oracle_price < (worth + 1) * s.divisor,
        fits_u64(worth),
        s.correction() == Some(c),
        c.magnitude <= i64::MAX,
    ensures
        worth <= s.quote_amount ==> c.signed == c.magnitude,
        worth > s.quote_amount ==> c.signed == -c.magnitude,
        c.magnitude > s.oracle_thresh ==> c.magnitude <= (if worth > s.quote_amount {
            s.correction_cap_neg
        } else {
            s.correction_cap_pos
        }),
{
    let x = s.base_amount * s.oracle_price;
    let d = s.divisor as int;
    vstd::arithmetic::div_mod::lemma_fundamental_div_mod(x, d);
    let q = x / d;
    assert(q == worth) by (nonlinear_arith)
        requires
            x == d * q + x % d,
            0 <= x % d < d,
            worth * d <= x < (worth + 1) * d,
    ;
    let m = wrap64(iabs(s.imbalance()) * s.vault_adj_mult / (2 * s.divisor2));
    assert(0 <= m <= u64::MAX);
}

/// A correction moves the oracle's price its own way.
pub proof fn law_adjusted_price_follows_the_correction(s: SolFiV2State, c: Correction)
    requires
        -10_000_000 <= c.signed <= 10_000_000,
        s.oracle_price <= 0x7fff_ffff_ffff_ffff,
    ensures
        s.adjusted_price(c) is Some,
        c.signed >= 0 ==> s.adjusted_price(c)->0 >= s.oracle_price,
        c.signed <= 0 ==> s.adjusted_price(c)->0 <= s.oracle_price,
        c.signed == 0 ==> s.adjusted_price(c)->0 == s.oracle_price,
{
    let price = s.oracle_price as int;
    let k = c.signed as int;
    let p = price * (10_000_000 + k);
    assert(p == price * 10_000_000 + price * k && 0 <= p <= price * 20_000_000) by (nonlinear_arith)
        requires
            p == price * (10_000_000 + k),
            price >= 0,
            -10_000_000 <= k <= 10_000_000,
    ;
    assert(k >= 0 ==> price * k >= 0) by (nonlinear_arith)
        requires
            price >= 0,
    ;
    assert(k <= 0 ==> price * k <= 0) by (nonlinear_arith)
        requires
            price >= 0,
    ;
}

/// A fee is never more than the pool's largest, and what comes out after a fee
/// is the part of ten million that the fee leaves, never more than the vault
/// holds, and nothing once the fee is the whole.
pub proof fn law_fee_comes_off(s: SolFiV2State, offset: int, widening: int, spread: int, raw: int, vault: int)
    requires
        s.max_fee <= i64::MAX,
        0 <= raw <= u64::MAX,
        0 <= vault <= u64::MAX,
        s.fee(offset, widening, spread) is Some,
    ensures
        ({
            let fee = s.fee(offset, widening, spread)->0;
            let out = SolFiV2State::after_fee(raw, 10_000_000 - fee, vault);
            &&& fee <= s.max_fee
            &&& out <= vault
            &&& fee >= 10_000_000 ==> out == 0
            &&& 0 <= fee < 10_000_000 ==> out <= raw && out * 10_000_000 <= raw * (10_000_000 - fee)
            &&& 0 <= fee < 10_000_000 && out < vault ==> raw * (10_000_000 - fee) < (out + 1) * 10_000_000
        }),
{
    let fee = s.fee(offset, widening, spread)->0;
    let factor = 10_000_000 - fee;
    let x = raw * factor;
    if 0 <= fee < 10_000_000 {
        assert(0 <= x <= raw * 10_000_000) by (nonlinear_arith)
            requires
                x == raw * factor,
                0 <= factor <= 10_000_000,
                raw >= 0,
        ;
    }
}

/// The more of a trade its fee leaves, the more comes out.
pub proof fn law_wider_fee_costs_more(raw: int, vault: int, less: int, more: int)
    requires
        0 <= raw <= u64::MAX,
        0 <= vault,
        0 <= less <= more <= 10_000_000,
    ensures
        SolFiV2State::after_fee(raw, less, vault) <= SolFiV2State::after_fee(raw, more, vault),
{
    assert(0 <= raw * less <= raw * more <= raw * 10_000_000) by (nonlinear_arith)
        requires
            raw >= 0,
            0 <= less <= more <= 10_000_000,
    ;
}

#[verifier::spinoff_prover]
#[verifier::rlimit(40)]
proof fn lemma_sales_apart(s: SolFiV2State, t: SolFiV2State, amount: int, price: int, t3: int, s4: int, spread: int)
    requires
        t == (SolFiV2State { set1: t.set1, q2b_offset: t.q2b_offset, ..s }),
    ensures
        s.sold(amount, price, t3, s4, spread) == t.sold(amount, price, t3, s4, spread),
{
    let raw = wrap64(amount * price / s.divisor as int);
    assert(s.fee_factor(s.set2.fee_at(raw), t3, s4, s.b2q_offset as int, spread) == t.fee_factor(
        t.set2.fee_at(raw),
        t3,
        s4,
        t.b2q_offset as int,
        spread,
    ));
}

#[verifier::spinoff_prover]
#[verifier::rlimit(40)]
proof fn lemma_purchases_apart(s: SolFiV2State, t: SolFiV2State, amount: int, price: int, t3: int, s4: int, spread: int)
    requires
        t == (SolFiV2State { set2: t.set2, b2q_offset: t.b2q_offset, ..s }),
    ensures
        s.bought(amount, price, t3, s4, spread) == t.bought(amount, price, t3, s4, spread),
{
    assert(s.fee_factor(s.set1.fee_at(amount), t3, s4, s.q2b_offset as int, spread) == t.fee_factor(
        t.set1.fee_at(amount),
        t3,
        s4,
        t.q2b_offset as int,
        spread,
    ));
}

/// A sale of base tokens pays by the fees for sales alone, and a purchase by
/// those for purchases.
pub proof fn law_sides_have_their_own_fees(
    s: SolFiV2State,
    t: SolFiV2State,
    amount: int,
    price: int,
    t3: int,
    s4: int,
    spread: int,
)
    ensures
        t == (SolFiV2State { set1: t.set1, q2b_offset: t.q2b_offset, ..s }) ==> s.sold(amount, price, t3, s4, spread)
            == t.sold(amount, price, t3, s4, spread),
        t == (SolFiV2State { set2: t.set2, b2q_offset: t.b2q_offset, ..s }) ==> s.bought(amount, price, t3, s4, spread)
            == t.bought(amount, price, t3, s4, spread),
{
    if t == (SolFiV2State { set1: t.set1, q2b_offset: t.q2b_offset, ..s }) {
        lemma_sales_apart(s, t, amount, price, t3, s4, spread);
    }
    if t == (SolFiV2State { set2: t.set2, b2q_offset: t.b2q_offset, ..s }) {
        lemma_purchases_apart(s, t, amount, price, t3, s4, spread);
    }
}

/// The fee of a level is none where the level is, or where the oracle moved
/// since the pool saw it.
pub proof fn law_level_fee_needs_a_current_oracle(s: SolFiV2State, level: int)
    requires
        level == 0 || s.oracle_update_slot > s.pool_last_slot || s.oracle_current_0x18 != s.pool_stored_oracle,
    ensures
        s.level_fee(level) == Some(0int),
{
}

/// A sale skips the correction only where that would raise its price, and a
/// purchase only where that would lower it: never both, and neither in a pool
/// that was not written in the slot.
pub proof fn law_skips_are_in_the_pools_favour(s: SolFiV2State, c: Correction, slot: int)
    ensures
        s.skips_b2q(c, slot) ==> c.signed > 0,
        s.skips_q2b(c, slot) ==> c.signed < 0,
        slot > s.pool_last_slot || s.pool_last_slot > s.pool_adj_slot ==> !s.skips_b2q(c, slot) && !s.skips_q2b(
            c,
            slot,
        ),
{
}

}
