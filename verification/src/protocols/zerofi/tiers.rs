//! The tiered quote of a ZeroFi pool.
use vstd::prelude::*;

use super::float::{compute_single, single};
use super::state::ZeroFiState;
use crate::num::{fits_i64, fits_u64, imax, imin, min_u64, monus, signed64, u64_as_i64};

verus! {

/// How much a fee has grown after `ss` slots: at one rate up to the end of the
/// onset and at another after it.
pub open spec fn onset_growth(ss: int, low: int, high: int, ft: int, ft2: int) -> Option<int> {
    if high == 0 {
        if fits_u64(ss * ft) {
            Some(ss * ft)
        } else {
            None
        }
    } else {
        let n = monus(high, low);
        let early = imin(ss, n) * ft;
        let late = monus(ss, n) * ft2;
        if fits_u64(early) && fits_u64(late) && fits_u64(early + late) {
            Some(early + late)
        } else {
            None
        }
    }
}

pub fn onset_multiplier(ss: u64, onset_low: u32, onset_high: u32, ft: u64, ft2: u64) -> (r: Option<u64>)
    ensures
        r is Some == onset_growth(ss as int, onset_low as int, onset_high as int, ft as int, ft2 as int) is Some,
        r is Some ==> r->0 == onset_growth(
            ss as int,
            onset_low as int,
            onset_high as int,
            ft as int,
            ft2 as int,
        )->0,
{
    if onset_high == 0 {
        return ss.checked_mul(ft);
    }
    let n = onset_high.saturating_sub(onset_low) as u64;
    let early = min_u64(ss, n).checked_mul(ft)?;
    let late = ss.saturating_sub(n).checked_mul(ft2)?;
    early.checked_add(late)
}

/// A value grown by millionths.
pub open spec fn grown(value: int, growth: int) -> Option<int> {
    if fits_u64(1_000_000 + growth) && fits_u64(value * (1_000_000 + growth)) {
        Some((value * (1_000_000 + growth)) / 1_000_000)
    } else {
        None
    }
}

fn try_grown(value: u64, growth: u64) -> (r: Option<u64>)
    ensures
        r is Some == grown(value as int, growth as int) is Some,
        r is Some ==> r->0 == grown(value as int, growth as int)->0,
{
    let factor = 1_000_000u64.checked_add(growth)?;
    Some(value.checked_mul(factor)? / 1_000_000)
}

/// A product over a divisor; nothing where it leaves 64 bits or the divisor is
/// zero.
pub open spec fn scaled(a: int, b: int, d: int) -> Option<int> {
    if d != 0 && fits_u64(a * b) {
        Some((a * b) / d)
    } else {
        None
    }
}

fn try_scaled(a: u64, b: u64, d: u64) -> (r: Option<u64>)
    ensures
        r is Some == scaled(a as int, b as int, d as int) is Some,
        r is Some ==> r->0 == scaled(a as int, b as int, d as int)->0,
{
    let product = a.checked_mul(b)?;
    if d == 0 {
        return None;
    }
    Some(product / d)
}

/// A fee budget with what is left of it, what it adds to the fee, and whether
/// it still does.
#[derive(Clone, Copy, Debug, PartialEq, Eq, Structural)]
pub struct Budget {
    pub value: i64,
    pub left: i64,
    pub active: bool,
}

/// A swap on its way through the tiers.
#[derive(Clone, Copy, Debug, PartialEq, Eq, Structural)]
pub struct TierState {
    pub remaining: u64,
    pub output: i64,
    pub fee_diff: i64,
    pub a: Budget,
    pub b: Budget,
}

/// What all tiers of a swap share.
#[derive(Clone, Copy, Debug, PartialEq, Eq, Structural)]
pub struct SwapTerms {
    pub oracle_raw: u64,
    pub is_b2q: bool,
    pub slot_diff: u64,
    pub fee_cap: i32,
    pub adj_active: bool,
}

/// A fee difference held within 32 signed bits.
pub open spec fn held(x: int) -> int {
    imin(imax(x, -0x8000_0000), 0x7fff_ffff)
}

fn hold(x: i64) -> (r: i64)
    ensures
        r == held(x as int),
{
    if x < -0x8000_0000 {
        -0x8000_0000
    } else if x > 0x7fff_ffff {
        0x7fff_ffff
    } else {
        x
    }
}

impl SwapTerms {
    /// A budget, and the fee difference, after a segment of a swap: the first
    /// budget counts base tokens and the second quote tokens, so that one of
    /// them is charged the segment and the other its value. A spent budget
    /// no longer adds to the fee.
    pub open spec fn charged(self, budget: Budget, fee_diff: int, segment: int, by_value: bool) -> Option<(Budget, int)> {
        if !budget.active {
            Some((budget, fee_diff))
        } else {
            let cost = if by_value {
                single(segment, self.oracle_raw as int, 0, self.fee_cap as int)
            } else {
                Some(signed64(segment))
            };
            if cost is None || !fits_i64(budget.left - cost->0) {
                None
            } else {
                let left = budget.left - cost->0;
                if left > 0 {
                    Some((Budget { left: left as i64, ..budget }, fee_diff))
                } else if fits_i64(fee_diff - budget.value) {
                    Some(
                        (
                            Budget { left: left as i64, active: false, ..budget },
                            held(fee_diff - budget.value),
                        ),
                    )
                } else {
                    None
                }
            }
        }
    }

    fn charge(&self, budget: Budget, fee_diff: i64, segment: u64, by_value: bool) -> (r: Option<(Budget, i64)>)
        ensures
            r is Some == self.charged(budget, fee_diff as int, segment as int, by_value) is Some,
            r is Some ==> (r->0).0 == (self.charged(budget, fee_diff as int, segment as int, by_value)->0).0
                && (r->0).1 == (self.charged(budget, fee_diff as int, segment as int, by_value)->0).1,
    {
        if !budget.active {
            return Some((budget, fee_diff));
        }
        let cost = if by_value {
            compute_single(segment, self.oracle_raw, 0, self.fee_cap)?
        } else {
            u64_as_i64(segment)
        };
        let left = budget.left.checked_sub(cost)?;
        if left > 0 {
            Some((Budget { value: budget.value, left, active: true }, fee_diff))
        } else {
            let diff = fee_diff.checked_sub(budget.value)?;
            Some((Budget { value: budget.value, left, active: false }, hold(diff)))
        }
    }

    /// Both budgets after a segment.
    pub open spec fn both_charged(self, s: TierState, segment: int) -> Option<TierState> {
        match self.charged(s.a, s.fee_diff as int, segment, !self.is_b2q) {
            None => None,
            Some((a, diff)) => match self.charged(s.b, diff, segment, self.is_b2q) {
                None => None,
                Some((b, fee_diff)) => Some(TierState { a, b, fee_diff: fee_diff as i64, ..s }),
            },
        }
    }

    fn charge_both(&self, s: TierState, segment: u64) -> (r: Option<TierState>)
        ensures
            r == self.both_charged(s, segment as int),
    {
        let (a, diff) = self.charge(s.a, s.fee_diff, segment, !self.is_b2q)?;
        let (b, fee_diff) = self.charge(s.b, diff, segment, self.is_b2q)?;
        Some(TierState { remaining: s.remaining, output: s.output, fee_diff, a, b })
    }

    /// The state after a segment is paid out at its fee.
    pub open spec fn paid(self, s: TierState, segment: int, half: int) -> Option<TierState> {
        let fee = s.fee_diff - signed64(half);
        let out = single(segment, self.oracle_raw as int, fee, self.fee_cap as int);
        if fits_i64(fee) && out is Some && fits_i64(s.output + out->0) {
            Some(TierState { output: (s.output + out->0) as i64, ..s })
        } else {
            None
        }
    }

    fn pay(&self, s: TierState, segment: u64, half: u64) -> (r: Option<TierState>)
        ensures
            r == self.paid(s, segment as int, half as int),
    {
        let fee = s.fee_diff.checked_sub(u64_as_i64(half))?;
        let out = compute_single(segment, self.oracle_raw, fee, self.fee_cap)?;
        let output = s.output.checked_add(out)?;
        Some(TierState { remaining: s.remaining, output, fee_diff: s.fee_diff, a: s.a, b: s.b })
    }
}

impl ZeroFiState {
    /// The onset of a tier; past the last tier, of the first.
    pub open spec fn onset(self, i: int) -> (int, int) {
        if i < self.tier_count {
            (self.tiers[i].onset_low as int, self.tiers[i].onset_high as int)
        } else if self.tier_count > 0 {
            (self.tiers[0].onset_low as int, self.tiers[0].onset_high as int)
        } else {
            (0, 0)
        }
    }

    fn get_onset(&self, i: usize) -> (r: (u32, u32))
        requires
            self.wf(),
        ensures
            r.0 == self.onset(i as int).0,
            r.1 == self.onset(i as int).1,
    {
        if i < self.tier_count {
            (self.tiers[i].onset_low, self.tiers[i].onset_high)
        } else if self.tier_count > 0 {
            (self.tiers[0].onset_low, self.tiers[0].onset_high)
        } else {
            (0, 0)
        }
    }

    /// The half spread of a tier.
    pub open spec fn half_spread(self, param: int, i: int, slot_diff: int) -> Option<int> {
        let bh = scaled(self.fee_denom_b as int, param, 2000);
        let (low, high) = self.onset(i);
        let growth = if low != 0xffff_ffff && slot_diff > low {
            onset_growth(slot_diff - low, low, high, self.fee_threshold as int, self.fee_threshold_2 as int)
        } else {
            Some(0)
        };
        if bh is None || !fits_u64(bh->0 + self.fee_extra_b) || growth is None {
            None
        } else {
            let combined = if growth->0 > 0 {
                grown(bh->0 + self.fee_extra_b, growth->0)
            } else {
                Some(bh->0 + self.fee_extra_b)
            };
            match combined {
                None => None,
                Some(c) => scaled(self.fee_denom as int, c, 1000),
            }
        }
    }

    pub fn tier_half_and_combined(&self, tp: u32, tier_idx: usize, slot_diff: u64) -> (r: Option<u64>)
        requires
            self.wf(),
        ensures
            r is Some == self.half_spread(tp as int, tier_idx as int, slot_diff as int) is Some,
            r is Some ==> r->0 == self.half_spread(tp as int, tier_idx as int, slot_diff as int)->0,
    {
        let bh = try_scaled(self.fee_denom_b, tp as u64, 2000)?;
        let combined = bh.checked_add(self.fee_extra_b)?;
        let (low, high) = self.get_onset(tier_idx);
        let growth = if low != 0xffff_ffff && slot_diff > low as u64 {
            onset_multiplier(slot_diff - low as u64, low, high, self.fee_threshold, self.fee_threshold_2)?
        } else {
            0
        };
        let combined = if growth > 0 {
            try_grown(combined, growth)?
        } else {
            combined
        };
        try_scaled(self.fee_denom, combined, 1000)
    }

    /// The half spread of a first tier whose gate is open.
    pub open spec fn gated_half_spread(self, slot_diff: int) -> Option<int> {
        if self.fee_threshold >= 500_000 {
            match scaled(self.fee_denom as int, self.fee_denom_b as int, 2000) {
                None => None,
                Some(half) => if slot_diff >= 2 {
                    if fits_u64((slot_diff - 1) * self.fee_threshold_2) {
                        grown(half, (slot_diff - 1) * self.fee_threshold_2)
                    } else {
                        None
                    }
                } else {
                    Some(half)
                },
            }
        } else {
            let bh = scaled(self.fee_denom_b as int, self.tier0_param as int, 2000);
            let (low, high) = self.onset(0);
            if bh is None {
                None
            } else if self.tier_count > 0 && slot_diff > low {
                match onset_growth(
                    slot_diff - low,
                    low,
                    high,
                    self.fee_threshold as int,
                    self.fee_threshold_2 as int,
                ) {
                    None => None,
                    Some(growth) => match grown(bh->0, growth) {
                        None => None,
                        Some(staled) => scaled(self.fee_denom as int, staled, self.tier0_param as int),
                    },
                }
            } else {
                scaled(self.fee_denom as int, bh->0, self.tier0_param as int)
            }
        }
    }

    pub fn compute_half_token(&self, slot_diff: u64) -> (r: Option<u64>)
        requires
            self.wf(),
        ensures
            r is Some == self.gated_half_spread(slot_diff as int) is Some,
            r is Some ==> r->0 == self.gated_half_spread(slot_diff as int)->0,
    {
        if self.fee_threshold >= 500_000 {
            let half = try_scaled(self.fee_denom, self.fee_denom_b, 2000)?;
            if slot_diff >= 2 {
                let growth = (slot_diff - 1).checked_mul(self.fee_threshold_2)?;
                return try_grown(half, growth);
            }
            return Some(half);
        }
        let bh = try_scaled(self.fee_denom_b, self.tier0_param as u64, 2000)?;
        let (low, high) = self.get_onset(0);
        if self.tier_count > 0 && slot_diff > low as u64 {
            let growth = onset_multiplier(
                slot_diff - low as u64,
                low,
                high,
                self.fee_threshold,
                self.fee_threshold_2,
            )?;
            let staled = try_grown(bh, growth)?;
            return try_scaled(self.fee_denom, staled, self.tier0_param as u64);
        }
        try_scaled(self.fee_denom, bh, self.tier0_param as u64)
    }

    /// The number of breakpoints of a direction.
    pub open spec fn point_count(self, is_b2q: bool) -> int {
        if is_b2q {
            self.alt_count as int
        } else {
            self.q2b_count as int
        }
    }

    /// A breakpoint of a direction; an open gate lowers it.
    pub open spec fn point(self, terms: SwapTerms, i: int) -> int {
        let p = if terms.is_b2q {
            self.alt[i]
        } else {
            self.q2b[i]
        };
        if terms.adj_active {
            monus(p.amount as int, p.adj as int)
        } else {
            p.amount as int
        }
    }

    fn get_point(&self, terms: &SwapTerms, i: usize) -> (r: u64)
        requires
            i < 10,
        ensures
            r == self.point(*terms, i as int),
    {
        let p = if terms.is_b2q {
            self.alt[i]
        } else {
            self.q2b[i]
        };
        if terms.adj_active {
            p.amount.saturating_sub(p.adj)
        } else {
            p.amount
        }
    }

    /// The half spread that a whole tier pays.
    pub open spec fn tier_half(self, terms: SwapTerms, i: int) -> Option<int> {
        let param: int = if i < self.tier_count {
            self.tiers[i].param as int
        } else {
            0
        };
        let usual = self.half_spread(param, i, terms.slot_diff as int);
        if usual is Some && !terms.is_b2q && i == 0 && terms.adj_active && self.fee_denom != self.fee_denom_b
            && self.fee_threshold < 500_000 && self.fee_extra_b == 0 {
            self.gated_half_spread(terms.slot_diff as int)
        } else {
            usual
        }
    }

    fn get_tier_half(&self, terms: &SwapTerms, i: usize) -> (r: Option<u64>)
        requires
            self.wf(),
        ensures
            r is Some == self.tier_half(*terms, i as int) is Some,
            r is Some ==> r->0 == self.tier_half(*terms, i as int)->0,
    {
        let param: u32 = if i < self.tier_count {
            self.tiers[i].param
        } else {
            0
        };
        let usual = self.tier_half_and_combined(param, i, terms.slot_diff)?;
        if !terms.is_b2q && i == 0 && terms.adj_active && self.fee_denom != self.fee_denom_b && self.fee_threshold
            < 500_000 && self.fee_extra_b == 0 {
            self.compute_half_token(terms.slot_diff)
        } else {
            Some(usual)
        }
    }

    /// The whole tiers from `i` on that an amount fills, and the place of the
    /// tier that takes the rest.
    pub open spec fn filled_from(self, terms: SwapTerms, i: int, s: TierState) -> Option<(int, TierState)>
        decreases self.point_count(terms.is_b2q) - i,
    {
        let bp = self.point(terms, i);
        if i >= self.point_count(terms.is_b2q) {
            Some((i, s))
        } else if bp == 0 {
            self.filled_from(terms, i + 1, s)
        } else if s.remaining <= bp {
            Some((i, s))
        } else {
            let half = self.tier_half(terms, i);
            let charged = terms.both_charged(TierState { remaining: (s.remaining - bp) as u64, ..s }, bp);
            if half is None || charged is None {
                None
            } else {
                match terms.paid(charged->0, bp, half->0) {
                    None => None,
                    Some(t) => self.filled_from(terms, i + 1, t),
                }
            }
        }
    }

    fn fill(&self, terms: &SwapTerms, start: TierState) -> (r: Option<(usize, TierState)>)
        requires
            self.wf(),
        ensures
            r is Some == self.filled_from(*terms, 0, start) is Some,
            r is Some ==> (r->0).0 == (self.filled_from(*terms, 0, start)->0).0 && (r->0).1 == (self.filled_from(
                *terms,
                0,
                start,
            )->0).1,
    {
        let count = if terms.is_b2q {
            self.alt_count
        } else {
            self.q2b_count
        };
        let mut s = start;
        let mut i: usize = 0;
        while i < count
            invariant
                i <= count <= 10,
                count == self.point_count(terms.is_b2q),
                self.wf(),
                self.filled_from(*terms, i as int, s) == self.filled_from(*terms, 0, start),
            decreases count - i,
        {
            let bp = self.get_point(terms, i);
            if bp > 0 {
                if s.remaining <= bp {
                    return Some((i, s));
                }
                let reduced = TierState {
                    remaining: s.remaining - bp,
                    output: s.output,
                    fee_diff: s.fee_diff,
                    a: s.a,
                    b: s.b,
                };
                let half = self.get_tier_half(terms, i)?;
                let charged = terms.charge_both(reduced, bp)?;
                s = terms.pay(charged, bp, half)?;
            }
            i = i + 1;
        }
        Some((i, s))
    }

    /// The half spread that the rest of an amount pays.
    pub open spec fn rest_half(self, terms: SwapTerms, i: int) -> Option<int> {
        let param = self.tiers[i].param as int;
        let sd = terms.slot_diff as int;
        if !terms.is_b2q && self.fee_extra_b > 0 && self.tier0_param > 0 && self.fee_denom != self.fee_denom_b {
            let bh = scaled(self.fee_denom_b as int, param, 2000);
            if bh is None || !fits_u64(bh->0 + self.fee_extra_b) {
                None
            } else {
                let (low, high) = if self.tier_count > 0 {
                    self.onset(0)
                } else {
                    (2, 2)
                };
                let combined = if sd > 2 {
                    match onset_growth(sd - 2, low, high, self.fee_threshold as int, self.fee_threshold_2 as int) {
                        None => None,
                        Some(growth) => grown(bh->0 + self.fee_extra_b, growth),
                    }
                } else {
                    Some(bh->0 + self.fee_extra_b)
                };
                match combined {
                    None => None,
                    Some(c) => scaled(self.fee_denom as int, c, 1000),
                }
            }
        } else {
            self.half_spread(param, i, sd)
        }
    }

    fn get_rest_half(&self, terms: &SwapTerms, i: usize) -> (r: Option<u64>)
        requires
            self.wf(),
            i < self.tier_count,
        ensures
            r is Some == self.rest_half(*terms, i as int) is Some,
            r is Some ==> r->0 == self.rest_half(*terms, i as int)->0,
    {
        let param = self.tiers[i].param;
        if !terms.is_b2q && self.fee_extra_b > 0 && self.tier0_param > 0 && self.fee_denom != self.fee_denom_b {
            let bh = try_scaled(self.fee_denom_b, param as u64, 2000)?;
            let combined = bh.checked_add(self.fee_extra_b)?;
            let combined = if terms.slot_diff > 2 {
                let (low, high) = self.get_onset(0);
                let growth = onset_multiplier(
                    terms.slot_diff - 2,
                    low,
                    high,
                    self.fee_threshold,
                    self.fee_threshold_2,
                )?;
                try_grown(combined, growth)?
            } else {
                combined
            };
            try_scaled(self.fee_denom, combined, 1000)
        } else {
            self.tier_half_and_combined(param, i, terms.slot_diff)
        }
    }

    /// The total output of a swap, before the vault's limit.
    pub open spec fn tier_output(self, terms: SwapTerms, start: TierState) -> Option<int> {
        match self.filled_from(terms, 0, start) {
            None => None,
            Some((i, s)) => if s.remaining > 0 && i < self.tier_count {
                let half = self.rest_half(terms, i);
                let charged = terms.both_charged(s, s.remaining as int);
                if half is None || charged is None {
                    None
                } else {
                    match terms.paid(charged->0, s.remaining as int, half->0) {
                        None => None,
                        Some(t) => Some(t.output as int),
                    }
                }
            } else {
                Some(s.output as int)
            },
        }
    }

    fn get_tier_output(&self, terms: &SwapTerms, start: TierState) -> (r: Option<i64>)
        requires
            self.wf(),
        ensures
            r is Some == self.tier_output(*terms, start) is Some,
            r is Some ==> r->0 == self.tier_output(*terms, start)->0,
    {
        let (i, s) = self.fill(terms, start)?;
        if s.remaining > 0 && i < self.tier_count {
            let half = self.get_rest_half(terms, i)?;
            let charged = terms.charge_both(s, s.remaining)?;
            let t = terms.pay(charged, s.remaining, half)?;
            Some(t.output)
        } else {
            Some(s.output)
        }
    }

    /// The amount that meets the tiers: no more than what the first side
    /// account still lacks.
    pub open spec fn tier_input(self, amount: int, is_b2q: bool) -> int {
        let depth = monus(self.extra_a_tier_total as int, self.base_vault_balance as int);
        if is_b2q && self.extra_a_tier_total > 0 && 0 < depth < amount {
            depth
        } else {
            amount
        }
    }

    /// A difference of two balances that stops at the ends of a signed 64-bit
    /// word and at zero.
    pub open spec fn headroom(a: u64, b: u64) -> int {
        imax(imin(signed64(a as int) - signed64(b as int), i64::MAX as int), 0)
    }

    /// The fee budgets at the start of a swap.
    pub open spec fn budgets(self, is_b2q: bool) -> Option<(Budget, Budget)> {
        let fee_a = self.extra_a_fee as int;
        let fee_b = self.extra_b_fee as int;
        let skip = self.extra_a_skip_amount;
        let base = self.base_vault_balance;
        let quote = self.quote_vault_balance;
        let crossed = is_b2q && fee_a <= 0 && fee_b < 0;
        if crossed && !fits_i64(signed64(quote as int) - signed64(skip as int)) {
            None
        } else {
            let (a_value, a_left, b_value, b_left) = if crossed {
                (-fee_b, imax(signed64(quote as int) - signed64(skip as int), 0), fee_a, 0)
            } else if is_b2q {
                (fee_a, Self::headroom(skip, base), fee_b, signed64(quote as int))
            } else {
                (-fee_a, Self::headroom(base, skip), fee_b, Self::headroom(skip, quote))
            };
            Some(
                (
                    Budget { value: a_value as i64, left: a_left as i64, active: a_value > 0 && a_left > 0 },
                    Budget { value: b_value as i64, left: b_left as i64, active: b_value > 0 && b_left > 0 },
                ),
            )
        }
    }

    fn get_headroom(a: u64, b: u64) -> (r: i64)
        ensures
            r == Self::headroom(a, b),
    {
        let x = u64_as_i64(a);
        let y = u64_as_i64(b);
        match x.checked_sub(y) {
            Some(d) => if d > 0 {
                d
            } else {
                0
            },
            None => if x > y {
                i64::MAX
            } else {
                0
            },
        }
    }

    fn get_budgets(&self, is_b2q: bool) -> (r: Option<(Budget, Budget)>)
        ensures
            r == self.budgets(is_b2q),
    {
        let fee_a = self.extra_a_fee as i64;
        let fee_b = self.extra_b_fee as i64;
        let skip = self.extra_a_skip_amount;
        let (a_value, a_left, b_value, b_left): (i64, i64, i64, i64) = if is_b2q && fee_a <= 0 && fee_b < 0 {
            let d = u64_as_i64(self.quote_vault_balance).checked_sub(u64_as_i64(skip))?;
            (
                -fee_b,
                if d > 0 {
                    d
                } else {
                    0
                },
                fee_a,
                0,
            )
        } else if is_b2q {
            (fee_a, Self::get_headroom(skip, self.base_vault_balance), fee_b, u64_as_i64(self.quote_vault_balance))
        } else {
            (
                -fee_a,
                Self::get_headroom(self.base_vault_balance, skip),
                fee_b,
                Self::get_headroom(skip, self.quote_vault_balance),
            )
        };
        Some(
            (
                Budget { value: a_value, left: a_left, active: a_value > 0 && a_left > 0 },
                Budget { value: b_value, left: b_left, active: b_value > 0 && b_left > 0 },
            ),
        )
    }

    pub open spec fn terms(self, is_b2q: bool, slot_diff: int, clock_slot: int) -> SwapTerms {
        SwapTerms {
            oracle_raw: if is_b2q {
                self.oracle_bid_raw
            } else {
                self.oracle_ask_raw
            },
            is_b2q,
            slot_diff: slot_diff as u64,
            fee_cap: if is_b2q {
                self.fee_cap_b2q
            } else {
                self.fee_cap_q2b
            },
            adj_active: clock_slot > 0 && self.adj_gate_slot == clock_slot,
        }
    }

    /// The quote of an amount through the tiers: never negative and never more
    /// than the vault that pays holds.
    pub open spec fn tiered(self, amount: int, is_b2q: bool, slot_diff: int, clock_slot: int) -> Option<int> {
        let fee_diff = if is_b2q {
            self.extra_a_fee - self.extra_b_fee
        } else {
            self.extra_b_fee - self.extra_a_fee
        };
        let cap = if is_b2q {
            self.quote_vault_balance as int
        } else {
            self.base_vault_balance as int
        };
        match self.budgets(is_b2q) {
            None => None,
            Some((a, b)) => match self.tier_output(
                self.terms(is_b2q, slot_diff, clock_slot),
                TierState {
                    remaining: self.tier_input(amount, is_b2q) as u64,
                    output: 0,
                    fee_diff: fee_diff as i64,
                    a,
                    b,
                },
            ) {
                None => None,
                Some(out) => Some(imin(imax(out, 0), cap)),
            },
        }
    }

    #[verifier::spinoff_prover]
    #[verifier::rlimit(60)]
    pub fn multi_tier_quote(&self, amount_in: u64, is_b2q: bool, slot_diff: u64, clock_slot: u64) -> (r: Option<u64>)
        requires
            self.wf(),
        ensures
            r is Some == self.tiered(amount_in as int, is_b2q, slot_diff as int, clock_slot as int) is Some,
            r is Some ==> r->0 == self.tiered(amount_in as int, is_b2q, slot_diff as int, clock_slot as int)->0,
    {
        let terms = SwapTerms {
            oracle_raw: if is_b2q {
                self.oracle_bid_raw
            } else {
                self.oracle_ask_raw
            },
            is_b2q,
            slot_diff,
            fee_cap: if is_b2q {
                self.fee_cap_b2q
            } else {
                self.fee_cap_q2b
            },
            adj_active: clock_slot > 0 && self.adj_gate_slot == clock_slot,
        };
        let fee_diff: i64 = if is_b2q {
            self.extra_a_fee as i64 - self.extra_b_fee as i64
        } else {
            self.extra_b_fee as i64 - self.extra_a_fee as i64
        };
        let depth = self.extra_a_tier_total.saturating_sub(self.base_vault_balance);
        let tier_input = if is_b2q && self.extra_a_tier_total > 0 && depth > 0 && depth < amount_in {
            depth
        } else {
            amount_in
        };
        let (a, b) = self.get_budgets(is_b2q)?;
        let start = TierState { remaining: tier_input, output: 0, fee_diff, a, b };
        let total = self.get_tier_output(&terms, start)?;
        let cap = if is_b2q {
            self.quote_vault_balance
        } else {
            self.base_vault_balance
        };
        let out: u64 = if total > 0 {
            total as u64
        } else {
            0
        };
        Some(min_u64(out, cap))
    }

    /// How many slots a pool is behind; none where either slot is unknown.
    pub open spec fn slots_behind(self, clock_slot: int) -> int {
        if clock_slot > 0 && self.pool_slot > 0 {
            monus(clock_slot, self.pool_slot as int)
        } else {
            0
        }
    }

    /// The amount out: zero for nothing in and for a pool that is too far
    /// behind. Nothing where a number leaves its machine type.
    pub open spec fn quote(self, amount: int, is_b2q: bool, clock_slot: int) -> Option<int> {
        let behind = self.slots_behind(clock_slot);
        if amount == 0 || (self.max_slot_diff > 0 && behind >= self.max_slot_diff) {
            Some(0)
        } else {
            self.tiered(amount, is_b2q, behind, clock_slot)
        }
    }

    pub fn get_quote(&self, amount_in: u64, is_base_to_quote: bool, clock_slot: u64) -> (r: Option<u64>)
        requires
            self.wf(),
        ensures
            r is Some == self.quote(amount_in as int, is_base_to_quote, clock_slot as int) is Some,
            r is Some ==> r->0 == self.quote(amount_in as int, is_base_to_quote, clock_slot as int)->0,
    {
        if amount_in == 0 {
            return Some(0);
        }
        let slot_diff = if clock_slot > 0 && self.pool_slot > 0 {
            clock_slot.saturating_sub(self.pool_slot)
        } else {
            0
        };
        if self.max_slot_diff > 0 && slot_diff >= self.max_slot_diff as u64 {
            return Some(0);
        }
        self.multi_tier_quote(amount_in, is_base_to_quote, slot_diff, clock_slot)
    }

    /// A pool with an age limit pays nothing once it has reached it.
    pub proof fn law_stale_pool_pays_nothing(self, amount: int, is_b2q: bool, clock_slot: int)
        requires
            self.pool_slot > 0,
            self.max_slot_diff > 0,
            clock_slot >= self.pool_slot + self.max_slot_diff,
        ensures
            self.quote(amount, is_b2q, clock_slot) == Some(0int),
    {
    }

    /// No quote exceeds the balance of the vault that pays it.
    pub proof fn law_quote_within_vault(self, amount: int, is_b2q: bool, clock_slot: int)
        requires
            self.quote(amount, is_b2q, clock_slot) is Some,
        ensures
            0 <= self.quote(amount, is_b2q, clock_slot)->0 <= (if is_b2q {
                self.quote_vault_balance
            } else {
                self.base_vault_balance
            }),
    {
    }
}

/// A pool that grows older widens its spread, or keeps it: the growth is
/// counted slot by slot from where it sets in, at one rate early and at another
/// late.
pub proof fn law_growth_is_counted_by_slots(ss: int, more: int, low: int, high: int, ft: int, ft2: int)
    requires
        0 <= ss <= more,
        0 <= ft,
        0 <= ft2,
        onset_growth(more, low, high, ft, ft2) is Some,
    ensures
        onset_growth(ss, low, high, ft, ft2) is Some,
        0 <= onset_growth(ss, low, high, ft, ft2)->0 <= onset_growth(more, low, high, ft, ft2)->0,
        ss == 0 ==> onset_growth(ss, low, high, ft, ft2)->0 == 0,
        high == 0 || (low <= high && ss <= high - low) ==> onset_growth(ss, low, high, ft, ft2)->0 == ss * ft,
        high != 0 && low <= high && ss >= high - low ==> onset_growth(ss, low, high, ft, ft2)->0 == (high - low) * ft
            + (ss - (high - low)) * ft2,
{
    let n = monus(high, low);
    let a = imin(ss, n);
    let b = imin(more, n);
    let c = monus(ss, n);
    let d = monus(more, n);
    assert(0 <= ss * ft <= more * ft && 0 <= a * ft <= b * ft && 0 <= c * ft2 <= d * ft2) by (nonlinear_arith)
        requires
            0 <= ss <= more,
            0 <= a <= b,
            0 <= c <= d,
            ft >= 0,
            ft2 >= 0,
    ;
    assert(ss == 0 ==> ss * ft == 0) by (nonlinear_arith);
    assert(a == 0 ==> a * ft == 0) by (nonlinear_arith);
    assert(c == 0 ==> c * ft2 == 0) by (nonlinear_arith);
}

proof fn lemma_scaled_order(a: int, b: int, c: int, d: int)
    requires
        0 <= a,
        0 <= b <= c,
        0 < d,
        scaled(a, c, d) is Some,
    ensures
        scaled(a, b, d) is Some,
        0 <= scaled(a, b, d)->0 <= scaled(a, c, d)->0,
{
    assert(0 <= a * b <= a * c) by (nonlinear_arith)
        requires
            0 <= a,
            0 <= b <= c,
    ;
    vstd::arithmetic::div_mod::lemma_div_is_ordered(a * b, a * c, d);
    vstd::arithmetic::div_mod::lemma_div_pos_is_pos(a * b, d);
}

proof fn lemma_grown_order(value: int, g: int, h: int)
    requires
        0 <= value,
        0 <= g <= h,
        grown(value, h) is Some,
    ensures
        grown(value, g) is Some,
        value <= grown(value, g)->0 <= grown(value, h)->0,
        g == 0 ==> grown(value, g)->0 == value,
{
    assert(value * 1_000_000 <= value * (1_000_000 + g) <= value * (1_000_000 + h)) by (nonlinear_arith)
        requires
            0 <= value,
            0 <= g <= h,
    ;
}

/// The spread of a tier never narrows as the pool grows older.
pub proof fn law_spread_widens_with_age(s: ZeroFiState, param: int, i: int, young: int, old: int)
    requires
        0 <= param,
        0 <= i < 10,
        0 <= young <= old,
        s.half_spread(param, i, old) is Some,
    ensures
        s.half_spread(param, i, young) is Some,
        0 <= s.half_spread(param, i, young)->0 <= s.half_spread(param, i, old)->0,
{
    let (low, high) = s.onset(i);
    let ft = s.fee_threshold as int;
    let ft2 = s.fee_threshold_2 as int;
    let bh = scaled(s.fee_denom_b as int, param, 2000)->0;
    lemma_scaled_order(s.fee_denom_b as int, param, param, 2000);
    let value = bh + s.fee_extra_b;
    let late = if low != 0xffff_ffff && old > low {
        onset_growth(old - low, low, high, ft, ft2)->0
    } else {
        0
    };
    let early = if low != 0xffff_ffff && young > low {
        onset_growth(young - low, low, high, ft, ft2)->0
    } else {
        0
    };
    if low != 0xffff_ffff && old > low {
        if young > low {
            law_growth_is_counted_by_slots(young - low, old - low, low, high, ft, ft2);
        } else {
            law_growth_is_counted_by_slots(0, old - low, low, high, ft, ft2);
        }
    }
    assert(0 <= early <= late);
    let wide = if late > 0 {
        grown(value, late)->0
    } else {
        value
    };
    if late > 0 {
        lemma_grown_order(value, early, late);
    }
    let narrow = if early > 0 {
        grown(value, early)->0
    } else {
        value
    };
    assert(0 <= narrow <= wide);
    lemma_scaled_order(s.fee_denom as int, narrow, wide, 1000);
}

/// A sale is never of more than was offered, and where it is cut it is cut to
/// what the pool still has to fill.
pub proof fn law_no_more_is_taken_than_offered(s: ZeroFiState, amount: int)
    requires
        0 <= amount,
    ensures
        s.tier_input(amount, false) == amount,
        0 <= s.tier_input(amount, true) <= amount,
        s.tier_input(amount, true) < amount ==> s.base_vault_balance + s.tier_input(amount, true)
            == s.extra_a_tier_total,
{
}

proof fn lemma_fills_alike(s: ZeroFiState, t: ZeroFiState, terms: SwapTerms, i: int, state: TierState)
    requires
        s.wf(),
        0 <= i,
        terms.is_b2q ==> t == (ZeroFiState {
            oracle_ask_raw: t.oracle_ask_raw,
            fee_cap_q2b: t.fee_cap_q2b,
            q2b: t.q2b,
            q2b_count: t.q2b_count,
            ..s
        }),
        !terms.is_b2q ==> t == (ZeroFiState {
            oracle_bid_raw: t.oracle_bid_raw,
            fee_cap_b2q: t.fee_cap_b2q,
            alt: t.alt,
            alt_count: t.alt_count,
            ..s
        }),
    ensures
        s.filled_from(terms, i, state) == t.filled_from(terms, i, state),
    decreases s.point_count(terms.is_b2q) - i,
{
    let bp = s.point(terms, i);
    assert(s.point_count(terms.is_b2q) == t.point_count(terms.is_b2q));
    assert(bp == t.point(terms, i));
    if i < s.point_count(terms.is_b2q) {
        assert(s.tier_half(terms, i) == t.tier_half(terms, i));
        lemma_fills_alike(s, t, terms, i + 1, state);
        let half = s.tier_half(terms, i);
        let charged = terms.both_charged(TierState { remaining: (state.remaining - bp) as u64, ..state }, bp);
        if half is Some && charged is Some && terms.paid(charged->0, bp, half->0) is Some {
            lemma_fills_alike(s, t, terms, i + 1, terms.paid(charged->0, bp, half->0)->0);
        }
    }
}

/// What a pool pays for base tokens rests on its bid side alone, and what it
/// gives for quote tokens on its ask side alone.
pub proof fn law_sides_are_apart(s: ZeroFiState, t: ZeroFiState, amount: int, slot: int)
    requires
        s.wf(),
    ensures
        t == (ZeroFiState {
            oracle_ask_raw: t.oracle_ask_raw,
            fee_cap_q2b: t.fee_cap_q2b,
            q2b: t.q2b,
            q2b_count: t.q2b_count,
            ..s
        }) ==> s.quote(amount, true, slot) == t.quote(amount, true, slot),
        t == (ZeroFiState {
            oracle_bid_raw: t.oracle_bid_raw,
            fee_cap_b2q: t.fee_cap_b2q,
            alt: t.alt,
            alt_count: t.alt_count,
            ..s
        }) ==> s.quote(amount, false, slot) == t.quote(amount, false, slot),
{
    let behind = s.slots_behind(slot);
    if t == (ZeroFiState {
        oracle_ask_raw: t.oracle_ask_raw,
        fee_cap_q2b: t.fee_cap_q2b,
        q2b: t.q2b,
        q2b_count: t.q2b_count,
        ..s
    }) {
        lemma_side(s, t, amount, true, behind, slot);
    }
    if t == (ZeroFiState {
        oracle_bid_raw: t.oracle_bid_raw,
        fee_cap_b2q: t.fee_cap_b2q,
        alt: t.alt,
        alt_count: t.alt_count,
        ..s
    }) {
        lemma_side(s, t, amount, false, behind, slot);
    }
}

proof fn lemma_side(s: ZeroFiState, t: ZeroFiState, amount: int, is_b2q: bool, behind: int, slot: int)
    requires
        s.wf(),
        is_b2q ==> t == (ZeroFiState {
            oracle_ask_raw: t.oracle_ask_raw,
            fee_cap_q2b: t.fee_cap_q2b,
            q2b: t.q2b,
            q2b_count: t.q2b_count,
            ..s
        }),
        !is_b2q ==> t == (ZeroFiState {
            oracle_bid_raw: t.oracle_bid_raw,
            fee_cap_b2q: t.fee_cap_b2q,
            alt: t.alt,
            alt_count: t.alt_count,
            ..s
        }),
    ensures
        s.tiered(amount, is_b2q, behind, slot) == t.tiered(amount, is_b2q, behind, slot),
{
    let terms = s.terms(is_b2q, behind, slot);
    assert(terms == t.terms(is_b2q, behind, slot));
    assert(s.budgets(is_b2q) == t.budgets(is_b2q));
    assert(s.tier_input(amount, is_b2q) == t.tier_input(amount, is_b2q));
    let fee_diff = if is_b2q {
        s.extra_a_fee - s.extra_b_fee
    } else {
        s.extra_b_fee - s.extra_a_fee
    };
    if let Some((a, b)) = s.budgets(is_b2q) {
        let start = TierState {
            remaining: s.tier_input(amount, is_b2q) as u64,
            output: 0,
            fee_diff: fee_diff as i64,
            a,
            b,
        };
        lemma_fills_alike(s, t, terms, 0, start);
        if let Some((i, rest)) = s.filled_from(terms, 0, start) {
            assert(s.rest_half(terms, i) == t.rest_half(terms, i));
        }
        assert(s.tier_output(terms, start) == t.tier_output(terms, start));
    }
}

}
