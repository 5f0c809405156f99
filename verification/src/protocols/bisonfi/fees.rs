//! The fees of a BisonFi pool.
use vstd::prelude::*;

use super::state::{BisonFiState, FEE_DENOM, FEE_DENOM_V3};
use crate::num::{ceil_div, div_ceil_u128, fits_u64, imax, low64, max_u64, monus, wrap64};

verus! {

/// A fee on an amount, in parts of `denom`, rounded up and cut to 64 bits.
pub open spec fn ceil_fee_of(fee: int, amount: int, denom: int) -> int {
    wrap64(ceil_div(fee * amount, denom))
}

fn ceil_fee_in(fee: u64, amount: u64, denom: u64) -> (r: u64)
    requires
        denom > 0,
    ensures
        r == ceil_fee_of(fee as int, amount as int, denom as int),
{
    proof {
        assert(0 <= fee * amount <= u64::MAX * u64::MAX) by (nonlinear_arith)
            requires
                0 <= fee <= u64::MAX,
                0 <= amount <= u64::MAX,
        ;
    }
    low64(div_ceil_u128(fee as u128 * amount as u128, denom as u128))
}

pub fn ceil_fee(fee_bps: u64, amount: u64) -> (r: u64)
    ensures
        r == ceil_fee_of(fee_bps as int, amount as int, 100_000),
{
    ceil_fee_in(fee_bps, amount, FEE_DENOM)
}

pub fn ceil_fee_v3(fee_bps: u64, amount: u64) -> (r: u64)
    ensures
        r == ceil_fee_of(fee_bps as int, amount as int, 2_560_000),
{
    ceil_fee_in(fee_bps, amount, FEE_DENOM_V3)
}

impl BisonFiState {
    /// Whether the first swap of a slot falls back to the template tiers.
    pub open spec fn resets(self, slot_diff: int) -> bool {
        self.pool_slot > self.last_interaction_slot && slot_diff == 0
    }

    pub fn cpi0_resets(&self, slot_diff: u64) -> (r: bool)
        ensures
            r == self.resets(slot_diff as int),
    {
        self.pool_slot > self.last_interaction_slot && slot_diff == 0
    }

    /// The share of the reserve at the undisturbed price.
    pub open spec fn mult_0(self, is_b2q: bool, penalty_active: bool, slot_diff: int) -> int {
        if !self.resets(slot_diff) {
            if is_b2q {
                self.mult_0_b2q as int
            } else {
                self.mult_0_q2b as int
            }
        } else if !is_b2q && penalty_active {
            self.mult_0_q2b as int
        } else if is_b2q {
            if self.effective_mult_0 > 0 {
                self.effective_mult_0 as int
            } else {
                self.mult_0_b2q as int
            }
        } else {
            self.effective_mult_0_q2b as int
        }
    }

    pub fn resolve_mult_0(&self, is_b2q: bool, penalty_active: bool, slot_diff: u64) -> (r: u64)
        ensures
            r == self.mult_0(is_b2q, penalty_active, slot_diff as int),
            r <= u32::MAX,
    {
        if !self.cpi0_resets(slot_diff) {
            return if is_b2q {
                self.mult_0_b2q as u64
            } else {
                self.mult_0_q2b as u64
            };
        }
        if !is_b2q && penalty_active {
            return self.mult_0_q2b as u64;
        }
        if is_b2q {
            if self.effective_mult_0 > 0 {
                self.effective_mult_0 as u64
            } else {
                self.mult_0_b2q as u64
            }
        } else {
            self.effective_mult_0_q2b as u64
        }
    }

    /// The fee before any penalty.
    pub open spec fn amount_fee(self, is_b2q: bool, slot_diff: int) -> int {
        let base = if is_b2q {
            self.fee_base_b2q as int
        } else {
            self.fee_base_q2b as int
        };
        let dynamic = if is_b2q {
            self.dynamic_fee_b2q as int
        } else {
            self.dynamic_fee_q2b as int
        };
        if self.fee_step_size > 0 && slot_diff > 0 {
            imax(base, dynamic)
        } else {
            base
        }
    }

    /// The fee that a penalty builds on.
    pub open spec fn penalised_fee(self, is_b2q: bool, slot_diff: int) -> int {
        let fee = self.amount_fee(is_b2q, slot_diff);
        if is_b2q && self.effective_mult_0 < self.mult_0_b2q && self.fee_mult_b2q == 0 && self.fee_mult_q2b == 0
            && !self.resets(slot_diff) {
            imax(fee, self.stored_fee_mult_b2q as int)
        } else {
            fee
        }
    }

    /// What a penalty adds for the opposite direction.
    pub open spec fn cross_fee(self, is_b2q: bool, slot_diff: int) -> int {
        if self.fee_penalty_extra > 0 {
            let opposite = if is_b2q {
                self.fee_mult_q2b
            } else {
                self.fee_mult_b2q
            };
            if opposite > 0 {
                1 + self.stored_fee_mult_b2q * self.fee_penalty_extra
            } else {
                0
            }
        } else {
            monus(
                self.stored_fee_mult_b2q as int,
                if is_b2q {
                    self.penalised_fee(is_b2q, slot_diff)
                } else {
                    self.fee_base_b2q as int
                },
            )
        }
    }

    /// The fee of a swap; nothing where it leaves 64 bits.
    pub open spec fn fee_bps(self, is_b2q: bool, clock_slot: int) -> Option<int> {
        let slot_diff = monus(clock_slot, self.pool_slot as int);
        let penalty = self.slot_penalty_mult * slot_diff;
        if !fits_u64(penalty) {
            None
        } else if penalty > 0 {
            let total = self.penalised_fee(is_b2q, slot_diff) + penalty + self.cross_fee(is_b2q, slot_diff);
            if fits_u64(total) {
                Some(total)
            } else {
                None
            }
        } else {
            Some(self.amount_fee(is_b2q, slot_diff))
        }
    }

    pub fn get_fee_bps(&self, is_base_to_quote: bool, clock_slot: u64) -> (r: Option<u64>)
        ensures
            r is Some == self.fee_bps(is_base_to_quote, clock_slot as int) is Some,
            r is Some ==> r->0 == self.fee_bps(is_base_to_quote, clock_slot as int)->0,
    {
        let slot_diff = clock_slot.saturating_sub(self.pool_slot);
        let penalty = self.slot_penalty_mult.checked_mul(slot_diff)?;
        let base_fee = if is_base_to_quote {
            self.fee_base_b2q
        } else {
            self.fee_base_q2b
        };
        let amount_fee = if self.fee_step_size > 0 && slot_diff > 0 {
            let dyn_fee = if is_base_to_quote {
                self.dynamic_fee_b2q
            } else {
                self.dynamic_fee_q2b
            };
            max_u64(base_fee, dyn_fee)
        } else {
            base_fee
        };
        if penalty > 0 {
            let split = (self.effective_mult_0 as u32) < self.mult_0_b2q;
            let both_mults_zero = self.fee_mult_b2q == 0 && self.fee_mult_q2b == 0;
            let fee = if is_base_to_quote && split && both_mults_zero && !self.cpi0_resets(slot_diff) {
                max_u64(amount_fee, self.stored_fee_mult_b2q as u64)
            } else {
                amount_fee
            };
            let opp_mult = if is_base_to_quote {
                self.fee_mult_q2b
            } else {
                self.fee_mult_b2q
            };
            let cross: u64 = if self.fee_penalty_extra > 0 {
                proof {
                    assert(0 <= self.stored_fee_mult_b2q * self.fee_penalty_extra <= 0xffff_ffff * 0xff)
                        by (nonlinear_arith)
                        requires
                            0 <= self.stored_fee_mult_b2q <= 0xffff_ffff,
                            0 <= self.fee_penalty_extra <= 0xff,
                    ;
                }
                let cross_val = 1 + self.stored_fee_mult_b2q as u64 * self.fee_penalty_extra as u64;
                if opp_mult > 0 {
                    cross_val
                } else {
                    0
                }
            } else {
                let cross_ref = if is_base_to_quote {
                    fee
                } else {
                    self.fee_base_b2q
                };
                (self.stored_fee_mult_b2q as u64).saturating_sub(cross_ref)
            };
            fee.checked_add(penalty)?.checked_add(cross)
        } else {
            Some(amount_fee)
        }
    }

    /// The base reserve after a swap, as the later version estimates it.
    pub open spec fn reserve_after(self, amount: int, is_b2q: bool) -> int {
        let fp = self.v3.fp_lo * 0x1_0000_0000_0000_0000 + self.v3.fp_hi_u64;
        if is_b2q {
            crate::num::imin(self.base_reserve + amount, u64::MAX as int)
        } else if fp > 0 {
            monus(self.base_reserve as int, wrap64((amount * 0x100_0000) / fp))
        } else {
            self.base_reserve as int
        }
    }

    /// The step fee of the later version: it grows with the distance of the
    /// reserve from its threshold on the side that the swap makes worse.
    pub open spec fn step_fee(self, amount: int, is_b2q: bool, slot_diff: int) -> Option<int> {
        let v = self.v3;
        let after = self.reserve_after(amount, is_b2q);
        let floor = if is_b2q {
            v.fee_floor_b2q as int
        } else {
            v.fee_floor_q2b as int
        };
        let above = after > v.fee_step_threshold;
        let distance = if above {
            after - v.fee_step_threshold
        } else {
            v.fee_step_threshold - after
        };
        let stepped = floor + (distance / v.fee_step_size as int) * v.fee_adj;
        let fee = if after == v.fee_step_threshold {
            Some(floor)
        } else if above == is_b2q {
            if fits_u64((distance / v.fee_step_size as int) * v.fee_adj) && fits_u64(stepped) {
                Some(stepped)
            } else {
                None
            }
        } else {
            Some(v.fee_q2b_base as int)
        };
        match fee {
            None => None,
            Some(f) => if slot_diff > 0 {
                Some(imax(f, floor))
            } else {
                Some(f)
            },
        }
    }

    pub fn v3_ds1_fee(&self, input_amount: u64, is_base_to_quote: bool, slot_diff: u64) -> (r: Option<u64>)
        requires
            self.v3.fee_step_size > 0 || self.reserve_after(input_amount as int, is_base_to_quote)
                == self.v3.fee_step_threshold,
        ensures
            r is Some == self.step_fee(input_amount as int, is_base_to_quote, slot_diff as int) is Some,
            r is Some ==> r->0 == self.step_fee(input_amount as int, is_base_to_quote, slot_diff as int)->0,
    {
        let fp_128: u128 = self.v3.fp_lo as u128 * 0x1_0000_0000_0000_0000 + self.v3.fp_hi_u64 as u128;
        let threshold = self.v3.fee_step_threshold;
        let new_base = if is_base_to_quote {
            self.base_reserve.saturating_add(input_amount)
        } else {
            let est_output = if fp_128 > 0 {
                low64(input_amount as u128 * 0x100_0000 / fp_128)
            } else {
                0
            };
            self.base_reserve.saturating_sub(est_output)
        };
        assert(new_base == self.reserve_after(input_amount as int, is_base_to_quote));
        let floor_fee = if is_base_to_quote {
            self.v3.fee_floor_b2q
        } else {
            self.v3.fee_floor_q2b
        };
        let fee = if new_base > threshold {
            if is_base_to_quote {
                let steps = (new_base - threshold) / self.v3.fee_step_size;
                floor_fee.checked_add(steps.checked_mul(self.v3.fee_adj)?)?
            } else {
                self.v3.fee_q2b_base
            }
        } else if new_base < threshold {
            if is_base_to_quote {
                self.v3.fee_q2b_base
            } else {
                let steps = (threshold - new_base) / self.v3.fee_step_size;
                floor_fee.checked_add(steps.checked_mul(self.v3.fee_adj)?)?
            }
        } else {
            floor_fee
        };
        if slot_diff > 0 {
            Some(max_u64(fee, floor_fee))
        } else {
            Some(fee)
        }
    }

    /// The fee of the later version; nothing where it leaves 64 bits.
    pub open spec fn fee_v3(self, amount: int, is_b2q: bool, slot_diff: int) -> Option<int> {
        let stored = if is_b2q {
            self.v3.fee_b2q as int
        } else {
            self.v3.fee_q2b as int
        };
        let penalty = if is_b2q {
            self.v3.fee_staleness_pen_b2q as int
        } else {
            self.v3.fee_staleness_pen_q2b as int
        };
        let fee = if self.decimal_scale <= 1 && self.v3.fee_step_size > 0 {
            self.step_fee(amount, is_b2q, slot_diff)
        } else {
            Some(stored)
        };
        match fee {
            None => None,
            Some(f) => if penalty > 0 && slot_diff > 0 {
                if fits_u64(penalty * slot_diff) && fits_u64(f + (penalty * slot_diff) / 24) {
                    Some(f + (penalty * slot_diff) / 24)
                } else {
                    None
                }
            } else {
                Some(f)
            },
        }
    }

    pub fn get_fee_v3(&self, input_amount: u64, is_base_to_quote: bool, slot_diff: u64) -> (r: Option<u64>)
        ensures
            r is Some == self.fee_v3(input_amount as int, is_base_to_quote, slot_diff as int) is Some,
            r is Some ==> r->0 == self.fee_v3(input_amount as int, is_base_to_quote, slot_diff as int)->0,
    {
        let fee = if self.decimal_scale <= 1 && self.v3.fee_step_size > 0 {
            self.v3_ds1_fee(input_amount, is_base_to_quote, slot_diff)?
        } else if is_base_to_quote {
            self.v3.fee_b2q
        } else {
            self.v3.fee_q2b
        };
        let stale_pen = if is_base_to_quote {
            self.v3.fee_staleness_pen_b2q
        } else {
            self.v3.fee_staleness_pen_q2b
        };
        if stale_pen > 0 && slot_diff > 0 {
            fee.checked_add(stale_pen.checked_mul(slot_diff)? / 24)
        } else {
            Some(fee)
        }
    }
}

/// A fee on an amount is its part of the amount, rounded up.
pub proof fn law_fee_is_rounded_up(fee: int, amount: int, denom: int)
    requires
        0 <= fee,
        0 <= amount,
        0 < denom,
        fee * amount <= u64::MAX * denom,
    ensures
        (ceil_fee_of(fee, amount, denom) - 1) * denom < fee * amount <= ceil_fee_of(fee, amount, denom) * denom,
        ceil_fee_of(fee, amount, denom) == 0 <==> fee * amount == 0,
{
    let n = fee * amount;
    assert(n >= 0) by (nonlinear_arith)
        requires
            n == fee * amount,
            fee >= 0,
            amount >= 0,
    ;
    let q = n / denom;
    vstd::arithmetic::div_mod::lemma_fundamental_div_mod(n, denom);
    vstd::arithmetic::div_mod::lemma_div_pos_is_pos(n, denom);
    assert((q - 1) * denom == denom * q - denom && (q + 1) * denom == denom * q + denom && q * denom == denom * q)
        by (nonlinear_arith);
    let c = ceil_div(n, denom);
    assert((c - 1) * denom < n <= c * denom);
    assert(0 <= c <= u64::MAX) by (nonlinear_arith)
        requires
            (c - 1) * denom < n,
            n <= u64::MAX * denom,
            0 <= n <= c * denom,
            denom > 0,
    ;
    if n > 0 {
        assert(c > 0) by (nonlinear_arith)
            requires
                0 < n <= c * denom,
                denom > 0,
        ;
    } else {
        assert(c == 0) by (nonlinear_arith)
            requires
                n == 0,
                (c - 1) * denom < n <= c * denom,
                denom > 0,
        ;
    }
}

/// A pool that grows older never charges less, and never less than the base fee
/// of the direction.
pub proof fn law_fee_grows_with_age(s: BisonFiState, is_b2q: bool, slot: int, later: int)
    requires
        s.pool_slot <= slot <= later,
        s.fee_bps(is_b2q, later) is Some,
    ensures
        s.fee_bps(is_b2q, slot) is Some,
        s.fee_bps(is_b2q, slot)->0 <= s.fee_bps(is_b2q, later)->0,
        s.fee_bps(is_b2q, slot)->0 >= (if is_b2q {
            s.fee_base_b2q
        } else {
            s.fee_base_q2b
        }),
{
    let young = slot - s.pool_slot;
    let old = later - s.pool_slot;
    let m = s.slot_penalty_mult as int;
    assert(0 <= m * young <= m * old) by (nonlinear_arith)
        requires
            m >= 0,
            0 <= young <= old,
    ;
    assert(young == 0 ==> m * young == 0) by (nonlinear_arith);
    assert(s.stored_fee_mult_b2q * s.fee_penalty_extra >= 0) by (nonlinear_arith)
        requires
            s.stored_fee_mult_b2q >= 0,
            s.fee_penalty_extra >= 0,
    ;
    assert(m > 0 && young > 0 ==> m * young > 0) by (nonlinear_arith);
    assert(m == 0 ==> m * old == 0 && m * young == 0) by (nonlinear_arith);
}

/// A pool of a later version that grows older never charges less.
pub proof fn law_later_fee_grows_with_age(s: BisonFiState, amount: int, is_b2q: bool, young: int, old: int)
    requires
        0 <= young <= old,
        s.fee_v3(amount, is_b2q, old) is Some,
    ensures
        s.fee_v3(amount, is_b2q, young) is Some,
        s.fee_v3(amount, is_b2q, young)->0 <= s.fee_v3(amount, is_b2q, old)->0,
{
    let penalty = if is_b2q {
        s.v3.fee_staleness_pen_b2q as int
    } else {
        s.v3.fee_staleness_pen_q2b as int
    };
    assert(0 <= penalty * young <= penalty * old) by (nonlinear_arith)
        requires
            penalty >= 0,
            0 <= young <= old,
    ;
    let after = s.reserve_after(amount, is_b2q);
    let size = s.v3.fee_step_size as int;
    if s.v3.fee_step_size > 0 {
        let distance = if after > s.v3.fee_step_threshold {
            after - s.v3.fee_step_threshold
        } else {
            s.v3.fee_step_threshold - after
        };
        vstd::arithmetic::div_mod::lemma_div_pos_is_pos(distance, size);
        let steps = distance / size;
        assert(steps * s.v3.fee_adj >= 0) by (nonlinear_arith)
            requires
                steps >= 0,
                s.v3.fee_adj >= 0,
        ;
    }
}

}
