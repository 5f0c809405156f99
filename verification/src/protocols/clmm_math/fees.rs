//! Static and volatility-dependent fee rates of a swap.
use vstd::prelude::*;

use super::tick_price::{
    get_sqrt_price_at_tick, get_sqrt_price_at_tick_orca, lemma_raydium_price_fits, orca_price, raydium_price, tick_index_from_sqrt_price,
    tick_of_price,
};
use crate::num::{ceil_div, div_ceil_u128, iabs, imax, imin, max_u128, max_u64, min_u128, min_u64};

verus! {

#[derive(Debug, Clone, Copy, PartialEq, Eq, Structural)]
pub struct AdaptiveFeeConstants {
    pub filter_period: u16,
    pub decay_period: u16,
    pub reduction_factor: u16,
    pub adaptive_fee_control_factor: u32,
    pub max_volatility_accumulator: u32,
    pub tick_group_size: u16,
}

#[derive(Debug, Clone, Copy, PartialEq, Eq, Structural)]
pub struct AdaptiveFeeVariables {
    pub last_reference_update_timestamp: u64,
    pub last_major_swap_timestamp: u64,
    pub volatility_reference: u32,
    pub tick_group_index_reference: i32,
    pub volatility_accumulator: u32,
}

#[derive(Debug, Clone, Copy, PartialEq, Eq, Structural)]
pub struct AdaptiveFeeInfo {
    pub constants: AdaptiveFeeConstants,
    pub variables: AdaptiveFeeVariables,
}

pub const FEE_RATE_HARD_LIMIT: u32 = 100_000;

pub const VOLATILITY_ACCUMULATOR_SCALE_FACTOR: u16 = 10_000;

pub const REDUCTION_FACTOR_DENOMINATOR: u16 = 10_000;

pub const MAX_REFERENCE_AGE: u64 = 3_600;

pub const MIN_TICK_INDEX: i32 = -443636;

pub const MAX_TICK_INDEX: i32 = 443636;

impl Default for AdaptiveFeeConstants {
    fn default() -> (r: Self)
        ensures
            r == (AdaptiveFeeConstants {
                filter_period: 0,
                decay_period: 0,
                reduction_factor: 0,
                adaptive_fee_control_factor: 0,
                max_volatility_accumulator: 0,
                tick_group_size: 0,
            }),
    {
        AdaptiveFeeConstants {
            filter_period: 0,
            decay_period: 0,
            reduction_factor: 0,
            adaptive_fee_control_factor: 0,
            max_volatility_accumulator: 0,
            tick_group_size: 0,
        }
    }
}

impl Default for AdaptiveFeeVariables {
    fn default() -> (r: Self)
        ensures
            r == (AdaptiveFeeVariables {
                last_reference_update_timestamp: 0,
                last_major_swap_timestamp: 0,
                volatility_reference: 0,
                tick_group_index_reference: 0,
                volatility_accumulator: 0,
            }),
    {
        AdaptiveFeeVariables {
            last_reference_update_timestamp: 0,
            last_major_swap_timestamp: 0,
            volatility_reference: 0,
            tick_group_index_reference: 0,
            volatility_accumulator: 0,
        }
    }
}

pub open spec fn fits_i32(x: int) -> bool {
    i32::MIN <= x <= i32::MAX
}

/// Division rounded down.
pub open spec fn floor_div(a: int, b: int) -> int {
    if b > 0 {
        a / b
    } else {
        (-a) / (-b)
    }
}

/// Division rounded down.
pub fn floor_division(dividend: i32, divisor: i32) -> (r: i32)
    requires
        divisor != 0,
        fits_i32(floor_div(dividend as int, divisor as int)),
    ensures
        r == floor_div(dividend as int, divisor as int),
{
    let a: i64 = if divisor > 0 {
        dividend as i64
    } else {
        -(dividend as i64)
    };
    let b: i64 = if divisor > 0 {
        divisor as i64
    } else {
        -(divisor as i64)
    };
    if a >= 0 {
        (a / b) as i32
    } else {
        let c: i64 = -(a + 1);
        proof {
            lemma_floor_negative(a as int, b as int);
        }
        let q: i64 = c / b;
        (-q - 1) as i32
    }
}

proof fn lemma_floor_negative(a: int, b: int)
    requires
        a < 0,
        b > 0,
    ensures
        a / b == -((-(a + 1)) / b) - 1,
        0 <= (-(a + 1)) / b <= -(a + 1),
{
    let c = -(a + 1);
    vstd::arithmetic::div_mod::lemma_fundamental_div_mod(c, b);
    vstd::arithmetic::div_mod::lemma_mod_bound(c, b);
    vstd::arithmetic::div_mod::lemma_div_pos_is_pos(c, b);
    let q = c / b;
    let r = c % b;
    assert(a == (-q - 1) * b + (b - 1 - r)) by (nonlinear_arith)
        requires
            c == b * q + r,
            c == -(a + 1),
    ;
    assert(a == b * (-q - 1) + (b - 1 - r)) by (nonlinear_arith)
        requires
            a == (-q - 1) * b + (b - 1 - r),
    ;
    vstd::arithmetic::div_mod::lemma_fundamental_div_mod_converse(a, b, -q - 1, b - 1 - r);
    assert(q <= c) by (nonlinear_arith)
        requires
            c == b * q + r,
            0 <= r,
            b >= 1,
            q >= 0,
    ;
}

/// Division by a positive number stays within the range of the dividend.
proof fn lemma_floor_div_range(a: int, b: int)
    requires
        fits_i32(a),
        b > 0,
    ensures
        fits_i32(a / b),
{
    if a >= 0 {
        vstd::arithmetic::div_mod::lemma_div_pos_is_pos(a, b);
        vstd::arithmetic::div_mod::lemma_div_is_ordered_by_denominator(a, 1, b);
    } else {
        lemma_floor_negative(a, b);
    }
}

impl AdaptiveFeeVariables {
    /// The reference point of the volatility at a new time: kept within the
    /// filter period, decayed within the decay period, and reset after it or
    /// once it is too old. Nothing where the time lies before what it is
    /// measured from.
    pub open spec fn with_reference(self, tick_group_index: i32, now: u64, c: AdaptiveFeeConstants) -> Option<Self> {
        let last = imax(self.last_reference_update_timestamp as int, self.last_major_swap_timestamp as int);
        let reset = AdaptiveFeeVariables {
            tick_group_index_reference: tick_group_index,
            volatility_reference: 0,
            last_reference_update_timestamp: now,
            ..self
        };
        if now < self.last_reference_update_timestamp {
            None
        } else if now - self.last_reference_update_timestamp > MAX_REFERENCE_AGE {
            Some(reset)
        } else if now < last {
            None
        } else if now - last < c.filter_period {
            Some(self)
        } else if now - last < c.decay_period {
            Some(
                AdaptiveFeeVariables {
                    volatility_reference: (((self.volatility_accumulator * c.reduction_factor) / 10_000)
                        % 0x1_0000_0000) as u32,
                    ..reset
                },
            )
        } else {
            Some(reset)
        }
    }

    pub fn try_update_reference(&self, tick_group_index: i32, now: u64, c: &AdaptiveFeeConstants) -> (r: Option<Self>)
        ensures
            r == self.with_reference(tick_group_index, now, *c),
    {
        let last = max_u64(self.last_reference_update_timestamp, self.last_major_swap_timestamp);
        let reset = AdaptiveFeeVariables {
            last_reference_update_timestamp: now,
            last_major_swap_timestamp: self.last_major_swap_timestamp,
            volatility_reference: 0,
            tick_group_index_reference: tick_group_index,
            volatility_accumulator: self.volatility_accumulator,
        };
        let age = now.checked_sub(self.last_reference_update_timestamp)?;
        if age > MAX_REFERENCE_AGE {
            return Some(reset);
        }
        let elapsed = now.checked_sub(last)?;
        if elapsed < c.filter_period as u64 {
            Some(*self)
        } else if elapsed < c.decay_period as u64 {
            proof {
                lemma_product_u32_u16(self.volatility_accumulator, c.reduction_factor);
            }
            let reduced: u64 = self.volatility_accumulator as u64 * c.reduction_factor as u64
                / REDUCTION_FACTOR_DENOMINATOR as u64;
            Some(
                AdaptiveFeeVariables {
                    last_reference_update_timestamp: now,
                    last_major_swap_timestamp: self.last_major_swap_timestamp,
                    volatility_reference: (reduced % 0x1_0000_0000) as u32,
                    tick_group_index_reference: tick_group_index,
                    volatility_accumulator: self.volatility_accumulator,
                },
            )
        } else {
            Some(reset)
        }
    }

    pub fn update_reference(&mut self, tick_group_index: i32, current_timestamp: u64, c: &AdaptiveFeeConstants)
        requires
            old(self).with_reference(tick_group_index, current_timestamp, *c) is Some,
        ensures
            *final(self) == old(self).with_reference(tick_group_index, current_timestamp, *c)->0,
    {
        *self = self.try_update_reference(tick_group_index, current_timestamp, c).unwrap();
    }

    /// The volatility of a tick group: the reference plus the distance from
    /// the reference group, up to the limit.
    pub open spec fn with_volatility(self, tick_group_index: int, c: AdaptiveFeeConstants) -> Option<Self> {
        let delta = self.tick_group_index_reference - tick_group_index;
        if fits_i32(delta) {
            let va = self.volatility_reference + iabs(delta) * 10_000;
            Some(
                AdaptiveFeeVariables {
                    volatility_accumulator: imin(va, c.max_volatility_accumulator as int) as u32,
                    ..self
                },
            )
        } else {
            None
        }
    }

    fn try_update_volatility_accumulator(&self, tick_group_index: i32, c: &AdaptiveFeeConstants) -> (r: Option<Self>)
        ensures
            r == self.with_volatility(tick_group_index as int, *c),
    {
        let delta = self.tick_group_index_reference.checked_sub(tick_group_index)?;
        let magnitude: u64 = if delta >= 0 {
            delta as u64
        } else {
            (-(delta as i64)) as u64
        };
        let va: u64 = self.volatility_reference as u64 + magnitude * VOLATILITY_ACCUMULATOR_SCALE_FACTOR as u64;
        let bounded = min_u64(va, c.max_volatility_accumulator as u64);
        Some(
            AdaptiveFeeVariables {
                last_reference_update_timestamp: self.last_reference_update_timestamp,
                last_major_swap_timestamp: self.last_major_swap_timestamp,
                volatility_reference: self.volatility_reference,
                tick_group_index_reference: self.tick_group_index_reference,
                volatility_accumulator: bounded as u32,
            },
        )
    }
}

proof fn lemma_product_u32_u16(a: u32, b: u16)
    ensures
        0 <= a * b <= 0xffff_ffff * 0xffff,
{
    assert(0 <= a * b <= 0xffff_ffff * 0xffff) by (nonlinear_arith)
        requires
            0 <= a <= 0xffff_ffff,
            0 <= b <= 0xffff,
    ;
}

/// The fee rate along a swap, in millionths.
#[derive(Debug, Clone, Copy, PartialEq, Eq)]
pub enum FeeRateManager {
    Adaptive {
        a_to_b: bool,
        tick_group_index: i32,
        static_fee_rate: u16,
        constants: AdaptiveFeeConstants,
        variables: AdaptiveFeeVariables,
        lower_bound: Option<(i32, u128)>,
        upper_bound: Option<(i32, u128)>,
    },
    Static { static_fee_rate: u16 },
}

/// The manager at the start of a swap. Beyond the bounds the volatility is at
/// its limit. Nothing where the group size is zero, the reference lies above
/// the limit or an index leaves 32 bits.
pub open spec fn initial_manager(
    a_to_b: bool,
    tick: i32,
    now: u64,
    static_fee_rate: u16,
    info: Option<AdaptiveFeeInfo>,
) -> Option<FeeRateManager> {
    match info {
        None => Some(FeeRateManager::Static { static_fee_rate }),
        Some(info) => {
            let size = info.constants.tick_group_size as int;
            let group = tick as int / size;
            if size == 0 {
                None
            } else {
                match info.variables.with_reference(group as i32, now, info.constants) {
                    None => None,
                    Some(vars) => {
                        let max_delta = ceil_div(
                            info.constants.max_volatility_accumulator - vars.volatility_reference,
                            10_000,
                        );
                        let lower = vars.tick_group_index_reference - max_delta;
                        let upper = vars.tick_group_index_reference + max_delta;
                        if vars.volatility_reference > info.constants.max_volatility_accumulator {
                            None
                        } else if !fits_i32(lower) || !fits_i32(upper) || !fits_i32(lower * size) || !fits_i32(
                            upper * size,
                        ) || !fits_i32(upper * size + size) {
                            None
                        } else {
                            Some(
                                FeeRateManager::Adaptive {
                                    a_to_b,
                                    tick_group_index: group as i32,
                                    static_fee_rate,
                                    constants: info.constants,
                                    variables: vars,
                                    lower_bound: if lower * size > MIN_TICK_INDEX {
                                        Some((lower as i32, orca_price(lower * size) as u128))
                                    } else {
                                        None
                                    },
                                    upper_bound: if upper * size + size < MAX_TICK_INDEX {
                                        Some((upper as i32, orca_price(upper * size + size) as u128))
                                    } else {
                                        None
                                    },
                                },
                            )
                        }
                    },
                }
            }
        },
    }
}

impl FeeRateManager {
    pub fn try_new(
        a_to_b: bool,
        current_tick_index: i32,
        timestamp: u64,
        static_fee_rate: u16,
        info: &Option<AdaptiveFeeInfo>,
    ) -> (r: Option<Self>)
        ensures
            r == initial_manager(a_to_b, current_tick_index, timestamp, static_fee_rate, *info),
    {
        match info {
            None => Some(FeeRateManager::Static { static_fee_rate }),
            Some(info) => {
                let size: i32 = info.constants.tick_group_size as i32;
                if size == 0 {
                    return None;
                }
                proof {
                    lemma_floor_div_range(current_tick_index as int, size as int);
                }
                let group = floor_division(current_tick_index, size);
                let vars = info.variables.try_update_reference(group, timestamp, &info.constants)?;
                let headroom = info.constants.max_volatility_accumulator.checked_sub(vars.volatility_reference)?;
                let max_delta: i32 = crate::num::div_ceil_u64(headroom as u64, 10_000) as i32;
                let lower = vars.tick_group_index_reference.checked_sub(max_delta)?;
                let upper = vars.tick_group_index_reference.checked_add(max_delta)?;
                let lower_tick = lower.checked_mul(size)?;
                let upper_tick = upper.checked_mul(size)?.checked_add(size)?;
                let lower_bound = if lower_tick > MIN_TICK_INDEX {
                    Some((lower, get_sqrt_price_at_tick_orca(lower_tick)))
                } else {
                    None
                };
                let upper_bound = if upper_tick < MAX_TICK_INDEX {
                    Some((upper, get_sqrt_price_at_tick_orca(upper_tick)))
                } else {
                    None
                };
                Some(
                    FeeRateManager::Adaptive {
                        a_to_b,
                        tick_group_index: group,
                        static_fee_rate,
                        constants: info.constants,
                        variables: vars,
                        lower_bound,
                        upper_bound,
                    },
                )
            },
        }
    }

    pub fn new(
        a_to_b: bool,
        current_tick_index: i32,
        timestamp: u64,
        static_fee_rate: u16,
        info: &Option<AdaptiveFeeInfo>,
    ) -> (r: Option<Self>)
        requires
            initial_manager(a_to_b, current_tick_index, timestamp, static_fee_rate, *info) is Some,
        ensures
            r == initial_manager(a_to_b, current_tick_index, timestamp, static_fee_rate, *info),
    {
        Self::try_new(a_to_b, current_tick_index, timestamp, static_fee_rate, info)
    }

    /// The manager with the volatility of its tick group.
    pub open spec fn with_volatility(self) -> Option<Self> {
        match self {
            FeeRateManager::Static { .. } => Some(self),
            FeeRateManager::Adaptive {
                a_to_b,
                tick_group_index,
                static_fee_rate,
                constants,
                variables,
                lower_bound,
                upper_bound,
            } => match variables.with_volatility(tick_group_index as int, constants) {
                None => None,
                Some(v) => Some(
                    FeeRateManager::Adaptive {
                        a_to_b,
                        tick_group_index,
                        static_fee_rate,
                        constants,
                        variables: v,
                        lower_bound,
                        upper_bound,
                    },
                ),
            },
        }
    }

    pub fn try_update_volatility_accumulator(&self) -> (r: Option<Self>)
        ensures
            r == self.with_volatility(),
    {
        match *self {
            FeeRateManager::Static { .. } => Some(*self),
            FeeRateManager::Adaptive {
                a_to_b,
                tick_group_index,
                static_fee_rate,
                constants,
                variables,
                lower_bound,
                upper_bound,
            } => {
                let variables = variables.try_update_volatility_accumulator(tick_group_index, &constants)?;
                Some(
                    FeeRateManager::Adaptive {
                        a_to_b,
                        tick_group_index,
                        static_fee_rate,
                        constants,
                        variables,
                        lower_bound,
                        upper_bound,
                    },
                )
            },
        }
    }

    pub fn update_volatility_accumulator(&mut self)
        requires
            old(self).with_volatility() is Some,
        ensures
            *final(self) == old(self).with_volatility()->0,
    {
        *self = self.try_update_volatility_accumulator().unwrap();
    }

    /// The static rate plus the square of the crossed ticks, scaled and
    /// rounded up, up to the hard limit; nothing where the crossed ticks need
    /// more than 32 bits.
    pub open spec fn total_fee_rate(self) -> Option<int> {
        match self {
            FeeRateManager::Static { static_fee_rate } => Some(static_fee_rate as int),
            FeeRateManager::Adaptive { static_fee_rate, constants, variables, .. } => {
                let crossed = variables.volatility_accumulator * constants.tick_group_size;
                if crossed > u32::MAX {
                    None
                } else {
                    let adaptive = imin(
                        ceil_div(constants.adaptive_fee_control_factor * (crossed * crossed), 10_000_000_000_000),
                        FEE_RATE_HARD_LIMIT as int,
                    );
                    Some(imin(static_fee_rate + adaptive, FEE_RATE_HARD_LIMIT as int))
                }
            },
        }
    }

    pub fn try_get_total_fee_rate(&self) -> (r: Option<u64>)
        ensures
            r is Some == self.total_fee_rate() is Some,
            r is Some ==> r->0 == self.total_fee_rate()->0,
    {
        match *self {
            FeeRateManager::Static { static_fee_rate } => Some(static_fee_rate as u64),
            FeeRateManager::Adaptive { static_fee_rate, constants, variables, .. } => {
                let crossed = variables.volatility_accumulator.checked_mul(constants.tick_group_size as u32)?;
                let ghost c = crossed as int;
                proof {
                    assert(0 <= c * c <= 0xffff_ffff * 0xffff_ffff) by (nonlinear_arith)
                        requires
                            0 <= c <= 0xffff_ffff,
                    ;
                    let f = constants.adaptive_fee_control_factor as int;
                    let sq = c * c;
                    assert(0 <= f * sq <= 0xffff_ffff * (0xffff_ffff * 0xffff_ffff)) by (nonlinear_arith)
                        requires
                            0 <= f <= 0xffff_ffff,
                            0 <= sq <= 0xffff_ffff * 0xffff_ffff,
                    ;
                }
                let squared: u64 = crossed as u64 * crossed as u64;
                let scaled: u128 = constants.adaptive_fee_control_factor as u128 * squared as u128;
                let rounded = div_ceil_u128(scaled, 10_000_000_000_000);
                let adaptive = min_u128(rounded, FEE_RATE_HARD_LIMIT as u128) as u64;
                Some(min_u64(static_fee_rate as u64 + adaptive, FEE_RATE_HARD_LIMIT as u64))
            },
        }
    }

    pub fn get_total_fee_rate(&self) -> (r: u64)
        requires
            self.total_fee_rate() is Some,
        ensures
            r == self.total_fee_rate()->0,
    {
        self.try_get_total_fee_rate().unwrap()
    }

    /// How far a price may go before the fee rate changes, and whether tick
    /// groups are skipped on the way. Nothing where the boundary tick leaves
    /// 32 bits.
    pub open spec fn bounded_target(self, p: u128, liquidity: u128) -> Option<(u128, bool)> {
        match self {
            FeeRateManager::Static { .. } => Some((p, false)),
            FeeRateManager::Adaptive { a_to_b, tick_group_index, constants, lower_bound, upper_bound, .. } => {
                if constants.adaptive_fee_control_factor == 0 || liquidity == 0 {
                    Some((p, true))
                } else if lower_bound is Some && tick_group_index < (lower_bound->0).0 {
                    Some(
                        (
                            if a_to_b {
                                p
                            } else {
                                imin(p as int, (lower_bound->0).1 as int) as u128
                            },
                            true,
                        ),
                    )
                } else if upper_bound is Some && tick_group_index > (upper_bound->0).0 {
                    Some(
                        (
                            if a_to_b {
                                imax(p as int, (upper_bound->0).1 as int) as u128
                            } else {
                                p
                            },
                            true,
                        ),
                    )
                } else {
                    let size = constants.tick_group_size as int;
                    let base = tick_group_index * size;
                    let tick = if a_to_b {
                        base
                    } else {
                        base + size
                    };
                    if !fits_i32(base) || !fits_i32(tick) {
                        None
                    } else {
                        let boundary = raydium_price(
                            imax(imin(tick, MAX_TICK_INDEX as int), MIN_TICK_INDEX as int),
                        );
                        if a_to_b {
                            Some((imax(p as int, boundary) as u128, false))
                        } else {
                            Some((imin(p as int, boundary) as u128, false))
                        }
                    }
                }
            },
        }
    }

    pub fn try_get_bounded_sqrt_price_target(&self, sqrt_price: u128, curr_liquidity: u128) -> (r: Option<(u128, bool)>)
        ensures
            r == self.bounded_target(sqrt_price, curr_liquidity),
    {
        match *self {
            FeeRateManager::Static { .. } => Some((sqrt_price, false)),
            FeeRateManager::Adaptive { a_to_b, tick_group_index, constants, lower_bound, upper_bound, .. } => {
                if constants.adaptive_fee_control_factor == 0 || curr_liquidity == 0 {
                    return Some((sqrt_price, true));
                }
                if let Some((li, lp)) = lower_bound {
                    if tick_group_index < li {
                        if a_to_b {
                            return Some((sqrt_price, true));
                        }
                        return Some((min_u128(sqrt_price, lp), true));
                    }
                }
                if let Some((ui, up)) = upper_bound {
                    if tick_group_index > ui {
                        if a_to_b {
                            return Some((max_u128(sqrt_price, up), true));
                        }
                        return Some((sqrt_price, true));
                    }
                }
                let size: i32 = constants.tick_group_size as i32;
                let base = tick_group_index.checked_mul(size)?;
                let tick: i32 = if a_to_b {
                    base
                } else {
                    base.checked_add(size)?
                };
                let clamped: i32 = if tick > MAX_TICK_INDEX {
                    MAX_TICK_INDEX
                } else if tick < MIN_TICK_INDEX {
                    MIN_TICK_INDEX
                } else {
                    tick
                };
                let boundary = get_sqrt_price_at_tick(clamped);
                if a_to_b {
                    Some((max_u128(sqrt_price, boundary), false))
                } else {
                    Some((min_u128(sqrt_price, boundary), false))
                }
            },
        }
    }

    pub fn get_bounded_sqrt_price_target(&self, sqrt_price: u128, curr_liquidity: u128) -> (r: (u128, bool))
        requires
            self.bounded_target(sqrt_price, curr_liquidity) is Some,
        ensures
            r == self.bounded_target(sqrt_price, curr_liquidity)->0,
    {
        self.try_get_bounded_sqrt_price_target(sqrt_price, curr_liquidity).unwrap()
    }

    /// The manager one tick group further.
    pub open spec fn advanced(self) -> Option<Self> {
        match self {
            FeeRateManager::Static { .. } => Some(self),
            FeeRateManager::Adaptive {
                a_to_b,
                tick_group_index,
                static_fee_rate,
                constants,
                variables,
                lower_bound,
                upper_bound,
            } => {
                let next = if a_to_b {
                    tick_group_index - 1
                } else {
                    tick_group_index + 1
                };
                if fits_i32(next) {
                    Some(
                        FeeRateManager::Adaptive {
                            a_to_b,
                            tick_group_index: next as i32,
                            static_fee_rate,
                            constants,
                            variables,
                            lower_bound,
                            upper_bound,
                        },
                    )
                } else {
                    None
                }
            },
        }
    }

    pub fn try_advance_tick_group(&self) -> (r: Option<Self>)
        ensures
            r == self.advanced(),
    {
        match *self {
            FeeRateManager::Static { .. } => Some(*self),
            FeeRateManager::Adaptive {
                a_to_b,
                tick_group_index,
                static_fee_rate,
                constants,
                variables,
                lower_bound,
                upper_bound,
            } => {
                let tick_group_index = if a_to_b {
                    tick_group_index.checked_sub(1)?
                } else {
                    tick_group_index.checked_add(1)?
                };
                Some(
                    FeeRateManager::Adaptive {
                        a_to_b,
                        tick_group_index,
                        static_fee_rate,
                        constants,
                        variables,
                        lower_bound,
                        upper_bound,
                    },
                )
            },
        }
    }

    pub fn advance_tick_group(&mut self)
        requires
            old(self).advanced() is Some,
        ensures
            *final(self) == old(self).advanced()->0,
    {
        *self = self.try_advance_tick_group().unwrap();
    }

    /// The tick group of a price that was reached by skipping groups: that of
    /// the crossed tick where the price is its price, else that of the price's
    /// own tick. A price on a group's boundary belongs, on the way up, to the
    /// group below.
    pub open spec fn reached_group(a_to_b: bool, size: int, p: u128, tick_price: u128, tick: i32) -> Option<int> {
        if size == 0 || (p != tick_price && p == 0) {
            None
        } else {
            let at = if p == tick_price {
                tick as int
            } else {
                tick_of_price(p as int)
            };
            let on_boundary = at % size == 0 && (p == tick_price || p == raydium_price(at));
            let group = if on_boundary && !a_to_b {
                at / size - 1
            } else {
                at / size
            };
            if fits_i32(group) {
                Some(group)
            } else {
                None
            }
        }
    }

    fn try_reached_group(a_to_b: bool, size: i32, p: u128, tick_price: u128, tick: i32) -> (r: Option<i32>)
        requires
            size >= 0,
        ensures
            r is Some == Self::reached_group(a_to_b, size as int, p, tick_price, tick) is Some,
            r is Some ==> r->0 == Self::reached_group(a_to_b, size as int, p, tick_price, tick)->0,
    {
        if size == 0 || (p != tick_price && p == 0) {
            return None;
        }
        let at: i32 = if p == tick_price {
            tick
        } else {
            tick_index_from_sqrt_price(&p)
        };
        proof {
            lemma_floor_div_range(at as int, size as int);
            vstd::arithmetic::div_mod::lemma_fundamental_div_mod(at as int, size as int);
        }
        let group = floor_division(at, size);
        let ghost q = group as int;
        proof {
            assert(size * q == q * size) by (nonlinear_arith);
            assert(i64::MIN <= q * size <= i64::MAX) by (nonlinear_arith)
                requires
                    -0x8000_0000 <= q <= 0x7fff_ffff,
                    0 <= size <= 0x7fff_ffff,
            ;
        }
        let whole: bool = group as i64 * size as i64 == at as i64;
        proof {
            vstd::arithmetic::div_mod::lemma_mod_bound(at as int, size as int);
            assert(whole == (at as int % size as int == 0));
        }
        let on_boundary = whole && (p == tick_price || p == get_sqrt_price_at_tick(at));
        if on_boundary && !a_to_b {
            group.checked_sub(1)
        } else {
            Some(group)
        }
    }

    /// The manager after skipped groups: it moves to the reached group where
    /// that is further along, takes its volatility, and goes one group on.
    pub open spec fn advanced_after_skip(self, p: u128, tick_price: u128, tick: i32) -> Option<Self> {
        match self {
            FeeRateManager::Static { .. } => Some(self),
            FeeRateManager::Adaptive {
                a_to_b,
                tick_group_index,
                static_fee_rate,
                constants,
                variables,
                lower_bound,
                upper_bound,
            } => match Self::reached_group(a_to_b, constants.tick_group_size as int, p, tick_price, tick) {
                None => None,
                Some(group) => {
                    if (a_to_b && group < tick_group_index) || (!a_to_b && group > tick_group_index) {
                        let moved = FeeRateManager::Adaptive {
                            a_to_b,
                            tick_group_index: group as i32,
                            static_fee_rate,
                            constants,
                            variables,
                            lower_bound,
                            upper_bound,
                        };
                        match moved.with_volatility() {
                            None => None,
                            Some(m) => m.advanced(),
                        }
                    } else {
                        self.advanced()
                    }
                },
            },
        }
    }

    pub fn try_advance_tick_group_after_skip(
        &self,
        sqrt_price: u128,
        next_tick_sqrt_price: u128,
        next_tick_index: i32,
    ) -> (r: Option<Self>)
        ensures
            r == self.advanced_after_skip(sqrt_price, next_tick_sqrt_price, next_tick_index),
    {
        match *self {
            FeeRateManager::Static { .. } => Some(*self),
            FeeRateManager::Adaptive {
                a_to_b,
                tick_group_index,
                static_fee_rate,
                constants,
                variables,
                lower_bound,
                upper_bound,
            } => {
                let size: i32 = constants.tick_group_size as i32;
                let group = Self::try_reached_group(a_to_b, size, sqrt_price, next_tick_sqrt_price, next_tick_index)?;
                if (a_to_b && group < tick_group_index) || (!a_to_b && group > tick_group_index) {
                    let moved = FeeRateManager::Adaptive {
                        a_to_b,
                        tick_group_index: group,
                        static_fee_rate,
                        constants,
                        variables,
                        lower_bound,
                        upper_bound,
                    };
                    let m = moved.try_update_volatility_accumulator()?;
                    m.try_advance_tick_group()
                } else {
                    self.try_advance_tick_group()
                }
            },
        }
    }

    pub fn advance_tick_group_after_skip(
        &mut self,
        sqrt_price: u128,
        next_tick_sqrt_price: u128,
        next_tick_index: i32,
    )
        requires
            old(self).advanced_after_skip(sqrt_price, next_tick_sqrt_price, next_tick_index) is Some,
        ensures
            *final(self) == old(self).advanced_after_skip(sqrt_price, next_tick_sqrt_price, next_tick_index)->0,
    {
        *self = self.try_advance_tick_group_after_skip(sqrt_price, next_tick_sqrt_price, next_tick_index).unwrap();
    }

    /// The direction of an adaptive manager.
    pub open spec fn goes_down(self) -> Option<bool> {
        match self {
            FeeRateManager::Static { .. } => None,
            FeeRateManager::Adaptive { a_to_b, .. } => Some(a_to_b),
        }
    }

    /// The tick group that an adaptive manager stands at.
    pub open spec fn group(self) -> int {
        match self {
            FeeRateManager::Static { .. } => 0,
            FeeRateManager::Adaptive { tick_group_index, .. } => tick_group_index as int,
        }
    }

    /// A fee rate never exceeds the larger of the static rate and the hard
    /// limit.
    pub proof fn law_fee_rate_is_limited(self)
        requires
            self.total_fee_rate() is Some,
        ensures
            0 <= self.total_fee_rate()->0 <= FEE_RATE_HARD_LIMIT,
    {
        match self {
            FeeRateManager::Static { .. } => {},
            FeeRateManager::Adaptive { constants, variables, .. } => {
                let crossed = variables.volatility_accumulator * constants.tick_group_size;
                let f = constants.adaptive_fee_control_factor as int;
                assert(crossed * crossed >= 0) by (nonlinear_arith);
                let sq = crossed * crossed;
                assert(f * sq >= 0) by (nonlinear_arith)
                    requires
                        f >= 0,
                        sq >= 0,
                ;
            },
        }
    }

    /// Every step of an adaptive manager moves it strictly in its direction.
    pub proof fn law_groups_advance(self, p: u128, tick_price: u128, tick: i32)
        requires
            self is Adaptive,
        ensures
            self.advanced() is Some ==> self.advanced()->0 is Adaptive && self.advanced()->0.goes_down()
                == self.goes_down() && (if self.goes_down()->0 {
                self.advanced()->0.group() == self.group() - 1
            } else {
                self.advanced()->0.group() == self.group() + 1
            }),
            self.advanced_after_skip(p, tick_price, tick) is Some ==> {
                let next = self.advanced_after_skip(p, tick_price, tick)->0;
                &&& next is Adaptive
                &&& next.goes_down() == self.goes_down()
                &&& if self.goes_down()->0 {
                    next.group() < self.group()
                } else {
                    next.group() > self.group()
                }
            },
    {
    }
}

/// A fee that follows volatility is never below the pool's own rate, which is
/// all that a calm pool charges, and never above a tenth.
pub proof fn law_fee_rate_adds_to_the_static_rate(m: FeeRateManager)
    requires
        m.total_fee_rate() is Some,
    ensures
        match m {
            FeeRateManager::Static { static_fee_rate } => m.total_fee_rate()->0 == static_fee_rate,
            FeeRateManager::Adaptive { static_fee_rate, constants, variables, .. } => {
                let rate = m.total_fee_rate()->0;
                &&& static_fee_rate <= rate <= 100_000
                &&& variables.volatility_accumulator == 0 || constants.adaptive_fee_control_factor == 0 ==> rate
                    == static_fee_rate
            },
        },
{
    match m {
        FeeRateManager::Static { .. } => {},
        FeeRateManager::Adaptive { static_fee_rate, constants, variables, .. } => {
            let crossed = variables.volatility_accumulator * constants.tick_group_size;
            let f = constants.adaptive_fee_control_factor as int;
            assert(crossed * crossed >= 0) by (nonlinear_arith);
            let sq = crossed * crossed;
            assert(f * sq >= 0) by (nonlinear_arith)
                requires
                    f >= 0,
                    sq >= 0,
            ;
            if variables.volatility_accumulator == 0 {
                assert(crossed == 0) by (nonlinear_arith)
                    requires
                        crossed == variables.volatility_accumulator * constants.tick_group_size,
                        variables.volatility_accumulator == 0,
                ;
                assert(f * sq == 0) by (nonlinear_arith)
                    requires
                        crossed == 0,
                        sq == crossed * crossed,
                ;
            }
            if f == 0 {
                assert(f * sq == 0) by (nonlinear_arith)
                    requires
                        f == 0,
                ;
            }
        },
    }
}

/// A more volatile pool never charges less.
pub proof fn law_fee_rate_grows_with_volatility(
    a_to_b: bool,
    group: i32,
    static_fee_rate: u16,
    constants: AdaptiveFeeConstants,
    calm: AdaptiveFeeVariables,
    wild: AdaptiveFeeVariables,
    lower_bound: Option<(i32, u128)>,
    upper_bound: Option<(i32, u128)>,
)
    requires
        calm.volatility_accumulator <= wild.volatility_accumulator,
    ensures
        ({
            let m = FeeRateManager::Adaptive {
                a_to_b,
                tick_group_index: group,
                static_fee_rate,
                constants,
                variables: calm,
                lower_bound,
                upper_bound,
            };
            let n = FeeRateManager::Adaptive {
                a_to_b,
                tick_group_index: group,
                static_fee_rate,
                constants,
                variables: wild,
                lower_bound,
                upper_bound,
            };
            n.total_fee_rate() is Some ==> m.total_fee_rate() is Some && m.total_fee_rate()->0
                <= n.total_fee_rate()->0
        }),
{
    let size = constants.tick_group_size as int;
    let x = calm.volatility_accumulator * size;
    let y = wild.volatility_accumulator * size;
    let f = constants.adaptive_fee_control_factor as int;
    assert(0 <= x <= y) by (nonlinear_arith)
        requires
            x == calm.volatility_accumulator * size,
            y == wild.volatility_accumulator * size,
            0 <= calm.volatility_accumulator <= wild.volatility_accumulator,
            size >= 0,
    ;
    assert(0 <= x * x <= y * y) by (nonlinear_arith)
        requires
            0 <= x <= y,
    ;
    let p = x * x;
    let q = y * y;
    assert(0 <= f * p <= f * q) by (nonlinear_arith)
        requires
            0 <= p <= q,
            f >= 0,
    ;
}

/// The volatility of a swap is what it started from and ten thousand for each
/// tick group that lies between its reference and where it stands, on either
/// side, up to the pool's limit.
pub proof fn law_volatility_grows_with_distance(v: AdaptiveFeeVariables, c: AdaptiveFeeConstants, group: int, steps: int)
    requires
        group == v.tick_group_index_reference + steps || group == v.tick_group_index_reference - steps,
        steps >= 0,
        v.with_volatility(group, c) is Some,
    ensures
        ({
            let n = v.with_volatility(group, c)->0;
            let reached = v.volatility_reference + 10_000 * steps;
            &&& reached <= c.max_volatility_accumulator ==> n.volatility_accumulator == reached
            &&& reached >= c.max_volatility_accumulator ==> n.volatility_accumulator == c.max_volatility_accumulator
            &&& n.volatility_reference == v.volatility_reference
            &&& n.tick_group_index_reference == v.tick_group_index_reference
            &&& n.last_reference_update_timestamp == v.last_reference_update_timestamp
        }),
{
}

/// The reference of the volatility is kept through trades that follow each
/// other closely. After a while it is taken anew where the price stands, with
/// what is left of the volatility, and after a long while with none.
pub proof fn law_reference_decays(v: AdaptiveFeeVariables, c: AdaptiveFeeConstants, group: i32, now: u64, last: int)
    requires
        v.last_reference_update_timestamp <= last,
        v.last_major_swap_timestamp <= last,
        last == v.last_reference_update_timestamp || last == v.last_major_swap_timestamp,
        last <= now,
        now - v.last_reference_update_timestamp <= 3600,
        c.reduction_factor <= 10_000,
    ensures
        v.with_reference(group, now, c) is Some,
        ({
            let n = v.with_reference(group, now, c)->0;
            &&& now - last < c.filter_period ==> n == v
            &&& now - last >= c.filter_period ==> n.tick_group_index_reference == group
                && n.last_reference_update_timestamp == now && n.volatility_reference <= v.volatility_accumulator
            &&& now - last >= c.filter_period && now - last < c.decay_period ==> 10_000 * n.volatility_reference
                <= v.volatility_accumulator * c.reduction_factor < 10_000 * (n.volatility_reference + 1)
            &&& now - last >= c.filter_period && now - last >= c.decay_period ==> n.volatility_reference == 0
            &&& n.volatility_accumulator == v.volatility_accumulator
            &&& n.last_major_swap_timestamp == v.last_major_swap_timestamp
        }),
{
    let x = v.volatility_accumulator * c.reduction_factor;
    assert(0 <= x <= v.volatility_accumulator * 10_000) by (nonlinear_arith)
        requires
            x == v.volatility_accumulator * c.reduction_factor,
            0 <= c.reduction_factor <= 10_000,
            0 <= v.volatility_accumulator,
    ;
}

/// The price that a stretch may go to never lies beyond the tick ahead.
pub proof fn law_target_is_not_past_the_tick(m: FeeRateManager, p: u128, liquidity: u128)
    requires
        m.bounded_target(p, liquidity) is Some,
    ensures
        ({
            let target = (m.bounded_target(p, liquidity)->0).0;
            match m {
                FeeRateManager::Static { .. } => target == p,
                FeeRateManager::Adaptive { a_to_b, .. } => if a_to_b {
                    target >= p
                } else {
                    target <= p
                },
            }
        }),
{
    if let FeeRateManager::Adaptive { a_to_b, tick_group_index, constants, .. } = m {
        let size = constants.tick_group_size as int;
        let tick = if a_to_b {
            tick_group_index * size
        } else {
            tick_group_index * size + size
        };
        lemma_raydium_price_fits(imax(imin(tick, MAX_TICK_INDEX as int), MIN_TICK_INDEX as int));
    }
}

/// A swap starts out with the pool's own rate and direction, in the tick group
/// that the pool's tick lies in.
pub proof fn law_manager_starts_at_the_tick(
    a_to_b: bool,
    tick: i32,
    now: u64,
    rate: u16,
    info: Option<AdaptiveFeeInfo>,
)
    requires
        initial_manager(a_to_b, tick, now, rate, info) is Some,
    ensures
        match initial_manager(a_to_b, tick, now, rate, info)->0 {
            FeeRateManager::Static { static_fee_rate } => info is None && static_fee_rate == rate,
            FeeRateManager::Adaptive { a_to_b: down, tick_group_index, static_fee_rate, constants, .. } => {
                &&& info is Some
                &&& down == a_to_b
                &&& static_fee_rate == rate
                &&& constants == info->0.constants
                &&& tick_group_index * constants.tick_group_size <= tick < (tick_group_index + 1)
                    * constants.tick_group_size
            },
        },
{
    if let Some(info) = info {
        let size = info.constants.tick_group_size as int;
        let g = tick as int / size;
        vstd::arithmetic::div_mod::lemma_fundamental_div_mod(tick as int, size);
        assert(g * size <= tick < (g + 1) * size) by (nonlinear_arith)
            requires
                tick == size * g + tick as int % size,
                0 <= tick as int % size < size,
        ;
        assert(fits_i32(g)) by (nonlinear_arith)
            requires
                g * size <= tick < (g + 1) * size,
                size >= 1,
                i32::MIN <= tick <= i32::MAX,
        ;
    }
}

}
