//! A swap through the ticks of a concentrated-liquidity pool.
use vstd::prelude::*;

use super::fees::{initial_manager, AdaptiveFeeInfo, FeeRateManager};
use super::price::{
    calculate_update, crossed_liquidity, delta_a, delta_b, fixed_delta, get_amount_fixed_delta, get_amount_unfixed_delta, next_price,
    try_get_next_sqrt_price, unfixed_delta, MAX_SQRT_PRICE_X64, MIN_SQRT_PRICE_X64,
};
use super::tick_price::ClmmPoolType;
use super::ticks::{increasing, is_place, TickArraySequence, TickEntry};
use crate::num::{ceil_div, div_ceil_u64, monus};

verus! {

/// What one stretch between two prices moves.
#[derive(Debug, Clone, Copy, PartialEq, Eq, Structural)]
pub struct SwapStepComputation {
    pub amount_in: u64,
    pub amount_out: u64,
    pub next_price: u128,
    pub fee_amount: u64,
}

pub const FEE_RATE_MUL_VALUE: u64 = 1_000_000;

/// One stretch of a swap towards a target price. The fee comes off first; what
/// is left either reaches the target or moves the price part of the way. The
/// inner option is empty where the stretch is refused, the outer one where a
/// number leaves its machine type.
pub open spec fn swap_step(
    remaining: int,
    liquidity: int,
    price: int,
    target: int,
    fee_rate: int,
    a_to_b: bool,
) -> Option<Option<SwapStepComputation>> {
    let to_target = fixed_delta(price, target, liquidity, a_to_b);
    let calc = monus(remaining, ceil_div(remaining * fee_rate, FEE_RATE_MUL_VALUE as int));
    let reaches = to_target is Some && calc >= to_target->0;
    let next = if reaches {
        Some(target)
    } else {
        next_price(price, liquidity, calc, a_to_b)
    };
    if liquidity == 0 || remaining * fee_rate > u64::MAX {
        Some(None)
    } else if next is None {
        None
    } else if price == 0 || target == 0 {
        Some(None)
    } else {
        let out = unfixed_delta(price, next->0, liquidity, a_to_b);
        let amount_in = if reaches {
            to_target
        } else {
            fixed_delta(price, next->0, liquidity, a_to_b)
        };
        if out is None || amount_in is None || (reaches && fee_rate >= FEE_RATE_MUL_VALUE) {
            Some(None)
        } else if reaches && amount_in->0 * fee_rate > u64::MAX {
            None
        } else {
            let fee = if reaches {
                ceil_div(amount_in->0 * fee_rate, FEE_RATE_MUL_VALUE - fee_rate)
            } else {
                monus(remaining, amount_in->0)
            };
            Some(
                Some(
                    SwapStepComputation {
                        amount_in: amount_in->0 as u64,
                        amount_out: out->0 as u64,
                        next_price: next->0 as u128,
                        fee_amount: fee as u64,
                    },
                ),
            )
        }
    }
}

pub fn try_orca_compute_swap_step(
    amount_remaining: u64,
    liquidity: u128,
    sqrt_price_current: u128,
    sqrt_price_target: u128,
    fee_rate: u64,
    a_to_b: bool,
) -> (r: Option<Option<SwapStepComputation>>)
    ensures
        r == swap_step(
            amount_remaining as int,
            liquidity as int,
            sqrt_price_current as int,
            sqrt_price_target as int,
            fee_rate as int,
            a_to_b,
        ),
{
    if liquidity == 0 {
        return Some(None);
    }
    let to_target = get_amount_fixed_delta(sqrt_price_current, sqrt_price_target, liquidity, a_to_b);
    let product = match amount_remaining.checked_mul(fee_rate) {
        Some(p) => p,
        None => return Some(None),
    };
    let fee = div_ceil_u64(product, FEE_RATE_MUL_VALUE);
    let calc = amount_remaining.saturating_sub(fee);
    let (reaches, target_amount): (bool, u64) = match to_target {
        Some(x) => (calc >= x, x),
        None => (false, 0),
    };
    let next = if reaches {
        sqrt_price_target
    } else {
        try_get_next_sqrt_price(sqrt_price_current, liquidity, calc, a_to_b)?
    };
    if sqrt_price_current == 0 || sqrt_price_target == 0 {
        return Some(None);
    }
    let amount_out = match get_amount_unfixed_delta(sqrt_price_current, next, liquidity, a_to_b) {
        Some(x) => x,
        None => return Some(None),
    };
    let amount_in = if reaches {
        target_amount
    } else {
        match get_amount_fixed_delta(sqrt_price_current, next, liquidity, a_to_b) {
            Some(x) => x,
            None => return Some(None),
        }
    };
    let fee_amount = if reaches {
        if fee_rate >= FEE_RATE_MUL_VALUE {
            return Some(None);
        }
        let product = amount_in.checked_mul(fee_rate)?;
        div_ceil_u64(product, FEE_RATE_MUL_VALUE - fee_rate)
    } else {
        amount_remaining.saturating_sub(amount_in)
    };
    Some(Some(SwapStepComputation { amount_in, amount_out, next_price: next, fee_amount }))
}

pub fn orca_compute_swap_step(
    amount_remaining: u64,
    liquidity: u128,
    sqrt_price_current: u128,
    sqrt_price_target: u128,
    fee_rate: u64,
    a_to_b: bool,
) -> (r: Option<SwapStepComputation>)
    requires
        swap_step(
            amount_remaining as int,
            liquidity as int,
            sqrt_price_current as int,
            sqrt_price_target as int,
            fee_rate as int,
            a_to_b,
        ) is Some,
    ensures
        Some(r) == swap_step(
            amount_remaining as int,
            liquidity as int,
            sqrt_price_current as int,
            sqrt_price_target as int,
            fee_rate as int,
            a_to_b,
        ),
{
    try_orca_compute_swap_step(
        amount_remaining,
        liquidity,
        sqrt_price_current,
        sqrt_price_target,
        fee_rate,
        a_to_b,
    ).unwrap()
}

/// A stretch that does not reach its target uses up the whole amount, unless
/// rounding asks for more than there is.
pub proof fn law_partial_step_is_last(
    remaining: int,
    liquidity: int,
    price: int,
    target: int,
    fee_rate: int,
    a_to_b: bool,
)
    requires
        0 <= remaining <= u64::MAX,
        0 <= fee_rate,
        swap_step(remaining, liquidity, price, target, fee_rate, a_to_b) matches Some(Some(_)),
    ensures
        ({
            let to_target = fixed_delta(price, target, liquidity, a_to_b);
            let calc = monus(remaining, ceil_div(remaining * fee_rate, FEE_RATE_MUL_VALUE as int));
            let reaches = to_target is Some && calc >= to_target->0;
            let c = (swap_step(remaining, liquidity, price, target, fee_rate, a_to_b)->0)->0;
            &&& reaches ==> c.next_price == target as u128
            &&& !reaches ==> c.amount_in + c.fee_amount >= remaining
        }),
{
    lemma_deltas_fit(price, target, liquidity, a_to_b);
    let calc = monus(remaining, ceil_div(remaining * fee_rate, FEE_RATE_MUL_VALUE as int));
    let next = next_price(price, liquidity, calc, a_to_b);
    lemma_deltas_fit(price, next->0, liquidity, a_to_b);
}

/// Token amounts between prices fit in 64 bits.
proof fn lemma_deltas_fit(p0: int, p1: int, liquidity: int, a_to_b: bool)
    ensures
        fixed_delta(p0, p1, liquidity, a_to_b) is Some ==> 0 <= fixed_delta(p0, p1, liquidity, a_to_b)->0 <= u64::MAX,
        unfixed_delta(p0, p1, liquidity, a_to_b) is Some ==> 0 <= unfixed_delta(p0, p1, liquidity, a_to_b)->0
            <= u64::MAX,
{
}

/// Where a swap stands between two stretches.
#[derive(Debug, Clone, Copy)]
pub struct SwapState {
    pub remaining: u64,
    pub calculated: u64,
    pub price: u128,
    pub liquidity: u128,
    pub idx: usize,
    pub manager: FeeRateManager,
}

/// What one round of a swap leads to.
#[derive(Debug, Clone, Copy)]
pub enum SwapRound {
    /// A number left its machine type.
    Overflow,
    /// The swap is refused.
    Refused,
    /// The swap ends with this amount out.
    Done(u64),
    /// The swap goes on.
    Next(SwapState),
}

/// The end of a swap past the last tick: the remaining liquidity is followed
/// to the limit of all prices.
pub open spec fn last_stretch(
    remaining: int,
    calculated: int,
    price: u128,
    liquidity: int,
    net: int,
    a_to_b: bool,
    rate: int,
) -> SwapRound {
    if net != 0 || liquidity == 0 {
        SwapRound::Done(calculated as u64)
    } else {
        let target = if a_to_b {
            MIN_SQRT_PRICE_X64 as int
        } else {
            MAX_SQRT_PRICE_X64 as int
        };
        match swap_step(remaining, liquidity, price as int, target, rate, a_to_b) {
            None => SwapRound::Overflow,
            Some(None) => SwapRound::Done(calculated as u64),
            Some(Some(last)) => if calculated + last.amount_out > u64::MAX {
                SwapRound::Overflow
            } else {
                SwapRound::Done((calculated + last.amount_out) as u64)
            },
        }
    }
}

/// One round of a swap: a stretch to the next tick or to where the fee rate
/// changes; a tick that is reached is crossed.
#[verifier::opaque]
pub open spec fn swap_round(s: SwapState, ticks: Seq<TickEntry>, a_to_b: bool) -> SwapRound {
    match s.manager.with_volatility() {
        None => SwapRound::Overflow,
        Some(manager) => {
            let rate = manager.total_fee_rate();
            let entry = ticks[s.idx as int];
            let bounded = manager.bounded_target(entry.limit, s.liquidity);
            if rate is None || bounded is None {
                SwapRound::Overflow
            } else {
                match swap_step(
                    s.remaining as int,
                    s.liquidity as int,
                    s.price as int,
                    (bounded->0).0 as int,
                    rate->0,
                    a_to_b,
                ) {
                    None => SwapRound::Overflow,
                    Some(None) => SwapRound::Refused,
                    Some(Some(c)) => {
                        let cost = c.amount_in + c.fee_amount;
                        let remaining = s.remaining - cost;
                        let calculated = s.calculated + c.amount_out;
                        if cost > u64::MAX {
                            SwapRound::Overflow
                        } else if remaining < 0 {
                            SwapRound::Refused
                        } else if calculated > u64::MAX {
                            SwapRound::Overflow
                        } else if c.next_price == entry.price && remaining > 0 {
                            if entry.net == i128::MIN {
                                SwapRound::Overflow
                            } else {
                                match crossed_liquidity(a_to_b, entry.net as int, s.liquidity as int) {
                                    None => SwapRound::Refused,
                                    Some(liquidity) => {
                                        if s.idx == (if a_to_b {
                                            0
                                        } else {
                                            ticks.len() - 1
                                        }) {
                                            last_stretch(
                                                remaining,
                                                calculated,
                                                c.next_price,
                                                liquidity,
                                                entry.net as int,
                                                a_to_b,
                                                rate->0,
                                            )
                                        } else {
                                            let idx = if a_to_b {
                                                s.idx - 1
                                            } else {
                                                s.idx + 1
                                            };
                                            go_on(
                                                remaining,
                                                calculated,
                                                c.next_price,
                                                liquidity,
                                                idx,
                                                manager,
                                                entry.price,
                                                (bounded->0).1,
                                                ticks,
                                            )
                                        }
                                    },
                                }
                            }
                        } else {
                            go_on(
                                remaining,
                                calculated,
                                c.next_price,
                                s.liquidity as int,
                                s.idx as int,
                                manager,
                                entry.price,
                                (bounded->0).1,
                                ticks,
                            )
                        }
                    },
                }
            }
        },
    }
}

/// The state with which a swap goes on: the fee manager moves to the next tick
/// group.
pub open spec fn go_on(
    remaining: int,
    calculated: int,
    price: u128,
    liquidity: int,
    idx: int,
    manager: FeeRateManager,
    tick_price: u128,
    skipped: bool,
    ticks: Seq<TickEntry>,
) -> SwapRound {
    let next = if skipped {
        manager.advanced_after_skip(price, tick_price, ticks[idx].tick)
    } else {
        manager.advanced()
    };
    match next {
        None => SwapRound::Overflow,
        Some(m) => SwapRound::Next(
            SwapState {
                remaining: remaining as u64,
                calculated: calculated as u64,
                price,
                liquidity: liquidity as u128,
                idx: idx as usize,
                manager: m,
            },
        ),
    }
}

/// At most `fuel` more rounds after the first.
pub open spec fn swap_rounds(s: SwapState, ticks: Seq<TickEntry>, a_to_b: bool, fuel: nat) -> SwapRound
    decreases fuel,
{
    if s.remaining == 0 {
        SwapRound::Done(s.calculated)
    } else {
        match swap_round(s, ticks, a_to_b) {
            SwapRound::Next(t) => if fuel == 0 {
                SwapRound::Next(t)
            } else {
                swap_rounds(t, ticks, a_to_b, (fuel - 1) as nat)
            },
            other => other,
        }
    }
}

pub open spec fn swap_ends(s: SwapState, ticks: Seq<TickEntry>, a_to_b: bool, fuel: nat) -> bool {
    !(swap_rounds(s, ticks, a_to_b, fuel) is Next)
}

/// How a swap ends: with an amount, refused (an empty inner option), or not at
/// all, because a number left its machine type or the rounds go on forever.
pub open spec fn swap_from(s: SwapState, ticks: Seq<TickEntry>, a_to_b: bool) -> Option<Option<u64>> {
    if exists|fuel: nat| swap_ends(s, ticks, a_to_b, fuel) {
        match swap_rounds(s, ticks, a_to_b, choose|fuel: nat| swap_ends(s, ticks, a_to_b, fuel)) {
            SwapRound::Done(v) => Some(Some(v)),
            SwapRound::Refused => Some(None),
            _ => None,
        }
    } else {
        None
    }
}

proof fn lemma_more_fuel(s: SwapState, ticks: Seq<TickEntry>, a_to_b: bool, fuel: nat, more: nat)
    requires
        swap_ends(s, ticks, a_to_b, fuel),
    ensures
        swap_rounds(s, ticks, a_to_b, fuel + more) == swap_rounds(s, ticks, a_to_b, fuel),
    decreases fuel,
{
    if s.remaining != 0 {
        match swap_round(s, ticks, a_to_b) {
            SwapRound::Next(t) => {
                lemma_more_fuel(t, ticks, a_to_b, (fuel - 1) as nat, more);
            },
            _ => {},
        }
    }
}

/// The amount of fuel does not matter once it is enough.
proof fn lemma_enough(s: SwapState, ticks: Seq<TickEntry>, a_to_b: bool, fuel: nat)
    requires
        swap_ends(s, ticks, a_to_b, fuel),
    ensures
        swap_from(s, ticks, a_to_b) == (match swap_rounds(s, ticks, a_to_b, fuel) {
            SwapRound::Done(v) => Some(Some(v)),
            SwapRound::Refused => Some(None),
            _ => None,
        }),
{
    let other = choose|f: nat| swap_ends(s, ticks, a_to_b, f);
    assert(swap_ends(s, ticks, a_to_b, other));
    if other <= fuel {
        lemma_more_fuel(s, ticks, a_to_b, other, (fuel - other) as nat);
    } else {
        lemma_more_fuel(s, ticks, a_to_b, fuel, (other - fuel) as nat);
    }
}

/// One round decides the end, or hands it to the next state.
proof fn lemma_one_round(s: SwapState, ticks: Seq<TickEntry>, a_to_b: bool)
    ensures
        s.remaining == 0 ==> swap_from(s, ticks, a_to_b) == Some(Some(s.calculated)),
        s.remaining != 0 ==> (match swap_round(s, ticks, a_to_b) {
            SwapRound::Overflow => swap_from(s, ticks, a_to_b) is None,
            SwapRound::Refused => swap_from(s, ticks, a_to_b) == Some(None::<u64>),
            SwapRound::Done(v) => swap_from(s, ticks, a_to_b) == Some(Some(v)),
            SwapRound::Next(t) => swap_from(s, ticks, a_to_b) == swap_from(t, ticks, a_to_b),
        }),
{
    if s.remaining == 0 || !(swap_round(s, ticks, a_to_b) is Next) {
        assert(swap_ends(s, ticks, a_to_b, 0));
        lemma_enough(s, ticks, a_to_b, 0);
    } else {
        let t = swap_round(s, ticks, a_to_b)->Next_0;
        if exists|f: nat| swap_ends(t, ticks, a_to_b, f) {
            let f = choose|f: nat| swap_ends(t, ticks, a_to_b, f);
            assert(swap_rounds(s, ticks, a_to_b, f + 1) == swap_rounds(t, ticks, a_to_b, f));
            assert(swap_ends(s, ticks, a_to_b, f + 1));
            lemma_enough(s, ticks, a_to_b, f + 1);
            lemma_enough(t, ticks, a_to_b, f);
        } else if exists|f: nat| swap_ends(s, ticks, a_to_b, f) {
            let f = choose|f: nat| swap_ends(s, ticks, a_to_b, f);
            assert(f > 0);
            assert(swap_ends(t, ticks, a_to_b, (f - 1) as nat));
            assert(false);
        }
    }
}

/// A round that changes nothing repeats forever.
proof fn lemma_endless(s: SwapState, ticks: Seq<TickEntry>, a_to_b: bool, fuel: nat)
    requires
        s.remaining != 0,
        swap_round(s, ticks, a_to_b) == SwapRound::Next(s),
    ensures
        !swap_ends(s, ticks, a_to_b, fuel),
    decreases fuel,
{
    if fuel > 0 {
        lemma_endless(s, ticks, a_to_b, (fuel - 1) as nat);
    }
}

/// How far a swap is from its end: an adaptive manager runs out of tick
/// groups, a static one out of ticks, with at most one stop before each.
spec fn distance(s: SwapState, ticks: Seq<TickEntry>, a_to_b: bool) -> int {
    if s.remaining == 0 {
        0
    } else if s.manager is Adaptive {
        1 + (if s.manager.goes_down()->0 {
            s.manager.group() - i32::MIN
        } else {
            i32::MAX - s.manager.group()
        })
    } else {
        let ahead = if a_to_b {
            s.idx as int
        } else {
            ticks.len() - 1 - s.idx
        };
        1 + 2 * ahead + (if s.price != ticks[s.idx as int].limit {
            1int
        } else {
            0
        })
    }
}

/// What a round that goes on leaves behind.
proof fn lemma_round_parts(s: SwapState, ticks: Seq<TickEntry>, a_to_b: bool)
    requires
        s.remaining != 0,
        s.idx < ticks.len(),
        ticks.len() <= usize::MAX,
        swap_round(s, ticks, a_to_b) is Next,
    ensures
        s.manager.with_volatility() is Some,
        ({
            let t = swap_round(s, ticks, a_to_b)->Next_0;
            let manager = s.manager.with_volatility()->0;
            let entry = ticks[s.idx as int];
            let bounded = manager.bounded_target(entry.limit, s.liquidity)->0;
            let step = swap_step(
                s.remaining as int,
                s.liquidity as int,
                s.price as int,
                bounded.0 as int,
                manager.total_fee_rate()->0,
                a_to_b,
            );
            let c = (step->0)->0;
            &&& manager.total_fee_rate() is Some
            &&& manager.bounded_target(entry.limit, s.liquidity) is Some
            &&& step matches Some(Some(_))
            &&& t.remaining == s.remaining - c.amount_in - c.fee_amount
            &&& t.calculated == s.calculated + c.amount_out
            &&& t.price == c.next_price
            &&& t.idx < ticks.len()
            &&& t.idx == s.idx || t.idx == (if a_to_b {
                s.idx - 1
            } else {
                s.idx + 1
            })
            &&& t.idx == s.idx ==> t.liquidity == s.liquidity
            &&& Some(t.manager) == (if bounded.1 {
                manager.advanced_after_skip(t.price, entry.price, ticks[t.idx as int].tick)
            } else {
                manager.advanced()
            })
        }),
{
    reveal(swap_round);
}

/// A round with a volatility-dependent fee moves to another tick group.
proof fn lemma_progress_adaptive(s: SwapState, ticks: Seq<TickEntry>, a_to_b: bool)
    requires
        s.remaining != 0,
        s.idx < ticks.len(),
        ticks.len() <= usize::MAX,
        swap_round(s, ticks, a_to_b) is Next,
        s.manager is Adaptive,
    ensures
        ({
            let t = swap_round(s, ticks, a_to_b)->Next_0;
            &&& t.idx < ticks.len()
            &&& 0 <= distance(t, ticks, a_to_b) < distance(s, ticks, a_to_b)
        }),
{
    lemma_round_parts(s, ticks, a_to_b);
    let t = swap_round(s, ticks, a_to_b)->Next_0;
    let manager = s.manager.with_volatility()->0;
    assert(manager is Adaptive && manager.group() == s.manager.group() && manager.goes_down()
        == s.manager.goes_down());
    manager.law_groups_advance(t.price, ticks[s.idx as int].price, ticks[t.idx as int].tick);
}

/// A round with a static fee brings a swap nearer to its end, or changes
/// nothing.
proof fn lemma_progress_static(s: SwapState, ticks: Seq<TickEntry>, a_to_b: bool)
    requires
        s.remaining != 0,
        s.idx < ticks.len(),
        ticks.len() <= usize::MAX,
        swap_round(s, ticks, a_to_b) is Next,
        s.manager is Static,
    ensures
        ({
            let t = swap_round(s, ticks, a_to_b)->Next_0;
            &&& t.idx < ticks.len()
            &&& t.manager == s.manager
            &&& t == s || 0 <= distance(t, ticks, a_to_b) < distance(s, ticks, a_to_b)
        }),
{
    lemma_round_parts(s, ticks, a_to_b);
    let t = swap_round(s, ticks, a_to_b)->Next_0;
    let manager = s.manager.with_volatility()->0;
    let rate = manager.total_fee_rate()->0;
    let entry = ticks[s.idx as int];
    assert(manager == s.manager);
    assert(t.manager == s.manager);
    let step = swap_step(
        s.remaining as int,
        s.liquidity as int,
        s.price as int,
        entry.limit as int,
        rate,
        a_to_b,
    );
    law_partial_step_is_last(
        s.remaining as int,
        s.liquidity as int,
        s.price as int,
        entry.limit as int,
        rate,
        a_to_b,
    );
    assert(t.remaining == 0 || t.price == entry.limit);
    if s.price == entry.limit && t.idx == s.idx {
        lemma_step_in_place(s.remaining as int, s.liquidity as int, s.price as int, rate, a_to_b);
        assert(t == s);
    }
}

/// A stretch of no length moves nothing.
proof fn lemma_step_in_place(remaining: int, liquidity: int, price: int, fee_rate: int, a_to_b: bool)
    requires
        0 <= remaining <= u64::MAX,
        0 < price <= u128::MAX,
        0 <= fee_rate < FEE_RATE_MUL_VALUE,
        liquidity > 0,
        remaining * fee_rate <= u64::MAX,
    ensures
        swap_step(remaining, liquidity, price, price, fee_rate, a_to_b) == Some(
            Some(SwapStepComputation { amount_in: 0, amount_out: 0, next_price: price as u128, fee_amount: 0 }),
        ),
{
    assert(liquidity * 0 == 0);
    assert(fixed_delta(price, price, liquidity, a_to_b) == Some(0int));
    assert(unfixed_delta(price, price, liquidity, a_to_b) == Some(0int));
    assert(0 * fee_rate == 0);
    let d = FEE_RATE_MUL_VALUE - fee_rate;
    vstd::arithmetic::div_mod::lemma_div_of0(d);
    vstd::arithmetic::div_mod::lemma_small_mod(0, d as nat);
}

impl SwapState {
    /// One round of a swap.
    fn round(&self, ticks: &TickArraySequence, a_to_b: bool) -> (r: SwapRound)
        requires
            self.idx < ticks@.len(),
        ensures
            r == swap_round(*self, ticks@, a_to_b),
    {
        proof {
            reveal(swap_round);
        }
        let manager = match self.manager.try_update_volatility_accumulator() {
            Some(m) => m,
            None => return SwapRound::Overflow,
        };
        let rate = match manager.try_get_total_fee_rate() {
            Some(x) => x,
            None => return SwapRound::Overflow,
        };
        let (tick_price, limit) = ticks.get_next_sqrt_prices_at(self.idx);
        let (target, skipped) = match manager.try_get_bounded_sqrt_price_target(limit, self.liquidity) {
            Some(x) => x,
            None => return SwapRound::Overflow,
        };
        let c = match try_orca_compute_swap_step(
            self.remaining,
            self.liquidity,
            self.price,
            target,
            rate,
            a_to_b,
        ) {
            None => return SwapRound::Overflow,
            Some(None) => return SwapRound::Refused,
            Some(Some(c)) => c,
        };
        let cost = match c.amount_in.checked_add(c.fee_amount) {
            Some(x) => x,
            None => return SwapRound::Overflow,
        };
        let remaining = match self.remaining.checked_sub(cost) {
            Some(x) => x,
            None => return SwapRound::Refused,
        };
        let calculated = match self.calculated.checked_add(c.amount_out) {
            Some(x) => x,
            None => return SwapRound::Overflow,
        };
        let price = c.next_price;
        let mut liquidity = self.liquidity;
        let mut idx = self.idx;
        if price == tick_price && remaining > 0 {
            let net = ticks.get_next_liquidity(self.idx);
            if net == i128::MIN {
                return SwapRound::Overflow;
            }
            let crossed = if a_to_b {
                calculate_update::<true>(net, self.liquidity)
            } else {
                calculate_update::<false>(net, self.liquidity)
            };
            liquidity = match crossed {
                Some(x) => x,
                None => return SwapRound::Refused,
            };
            if (a_to_b && self.idx == 0) || (!a_to_b && self.idx == ticks.len() - 1) {
                if net != 0 || liquidity == 0 {
                    return SwapRound::Done(calculated);
                }
                let final_target = if a_to_b {
                    MIN_SQRT_PRICE_X64
                } else {
                    MAX_SQRT_PRICE_X64
                };
                return match try_orca_compute_swap_step(remaining, liquidity, price, final_target, rate, a_to_b) {
                    None => SwapRound::Overflow,
                    Some(None) => SwapRound::Done(calculated),
                    Some(Some(last)) => match calculated.checked_add(last.amount_out) {
                        Some(x) => SwapRound::Done(x),
                        None => SwapRound::Overflow,
                    },
                };
            }
            idx = if a_to_b {
                self.idx - 1
            } else {
                self.idx + 1
            };
        }
        let next = if skipped {
            let tick = match ticks.get_tick_from_internal_index(idx) {
                Some(t) => t,
                None => 0,
            };
            manager.try_advance_tick_group_after_skip(price, tick_price, tick)
        } else {
            manager.try_advance_tick_group()
        };
        match next {
            Some(manager) => SwapRound::Next(SwapState { remaining, calculated, price, liquidity, idx, manager }),
            None => SwapRound::Overflow,
        }
    }

    /// Runs a swap to its end.
    fn run(self, ticks: &TickArraySequence, a_to_b: bool) -> (r: Option<Option<u64>>)
        requires
            self.idx < ticks@.len(),
        ensures
            r == swap_from(self, ticks@, a_to_b),
    {
        let mut s = self;
        let _len = ticks.len();
        while s.remaining > 0
            invariant
                s.idx < ticks@.len(),
                ticks@.len() <= usize::MAX,
                swap_from(s, ticks@, a_to_b) == swap_from(self, ticks@, a_to_b),
            decreases distance(s, ticks@, a_to_b),
        {
            proof {
                lemma_one_round(s, ticks@, a_to_b);
            }
            match s.round(ticks, a_to_b) {
                SwapRound::Overflow => return None,
                SwapRound::Refused => return Some(None),
                SwapRound::Done(v) => return Some(Some(v)),
                SwapRound::Next(t) => {
                    proof {
                        if s.manager is Adaptive {
                            lemma_progress_adaptive(s, ticks@, a_to_b);
                        } else {
                            lemma_progress_static(s, ticks@, a_to_b);
                        }
                    }
                    let fixed = match s.manager {
                        FeeRateManager::Static { .. } => true,
                        FeeRateManager::Adaptive { .. } => false,
                    };
                    if fixed && t.idx == s.idx && t.price == s.price && t.remaining == s.remaining && t.calculated
                        == s.calculated && t.liquidity == s.liquidity {
                        proof {
                            assert(t.manager == s.manager);
                            assert(t == s);
                            assert forall|fuel: nat| !swap_ends(s, ticks@, a_to_b, fuel) by {
                                lemma_endless(s, ticks@, a_to_b, fuel);
                            }
                        }
                        return None;
                    }
                    s = t;
                },
            }
        }
        proof {
            lemma_one_round(s, ticks@, a_to_b);
        }
        Some(Some(s.calculated))
    }
}

/// The first tick from `idx` downwards that changes the liquidity, or the
/// lowest.
pub open spec fn skip_down(ticks: Seq<TickEntry>, idx: int) -> int
    decreases idx,
{
    if idx > 0 && ticks[idx].net == 0 {
        skip_down(ticks, idx - 1)
    } else {
        idx
    }
}

/// The first tick from `idx` upwards that changes the liquidity, or the
/// highest.
pub open spec fn skip_up(ticks: Seq<TickEntry>, idx: int) -> int
    decreases ticks.len() - idx,
{
    if idx < ticks.len() - 1 && ticks[idx].net == 0 {
        skip_up(ticks, idx + 1)
    } else {
        idx
    }
}

/// The tick that a swap first heads for; nothing where there is none.
pub open spec fn first_tick(ticks: Seq<TickEntry>, a_to_b: bool, at: (usize, bool)) -> Option<int> {
    let start = if a_to_b && !at.1 {
        at.0 - 1
    } else if !a_to_b && at.1 {
        at.0 + 1
    } else {
        at.0 as int
    };
    if start < 0 || start >= ticks.len() {
        None
    } else if a_to_b {
        Some(skip_down(ticks, start))
    } else {
        Some(skip_up(ticks, start))
    }
}

/// The amount out of a swap. The inner option is empty where the pool refuses
/// the swap; the outer one where a number leaves its machine type or the swap
/// never ends.
pub open spec fn swap_outcome(
    a_to_b: bool,
    price: u128,
    liquidity: u128,
    ticks: Seq<TickEntry>,
    amount: u64,
    fee_rate: u16,
    at: (usize, bool),
    info: Option<AdaptiveFeeInfo>,
    timestamp: u64,
    tick: i32,
) -> Option<Option<u64>> {
    match first_tick(ticks, a_to_b, at) {
        None => Some(None),
        Some(idx) => match initial_manager(a_to_b, tick, timestamp, fee_rate, info) {
            None => None,
            Some(manager) => swap_from(
                SwapState { remaining: amount, calculated: 0, price, liquidity, idx: idx as usize, manager },
                ticks,
                a_to_b,
            ),
        },
    }
}

fn try_first_tick(ticks: &TickArraySequence, a_to_b: bool, at: (usize, bool)) -> (r: Option<usize>)
    ensures
        r is Some == first_tick(ticks@, a_to_b, at) is Some,
        r is Some ==> r->0 == first_tick(ticks@, a_to_b, at)->0 && r->0 < ticks@.len(),
{
    let len = ticks.len();
    let start: usize = if a_to_b && !at.1 {
        at.0.checked_sub(1)?
    } else if !a_to_b && at.1 {
        at.0.checked_add(1)?
    } else {
        at.0
    };
    if start >= len {
        return None;
    }
    let mut idx: usize = start;
    if a_to_b {
        while idx > 0 && ticks.get_next_liquidity(idx) == 0
            invariant
                idx < ticks@.len(),
                skip_down(ticks@, idx as int) == skip_down(ticks@, start as int),
            decreases idx,
        {
            idx = idx - 1;
        }
    } else {
        while idx < len - 1 && ticks.get_next_liquidity(idx) == 0
            invariant
                idx < ticks@.len(),
                len == ticks@.len(),
                skip_up(ticks@, idx as int) == skip_up(ticks@, start as int),
            decreases len - idx,
        {
            idx = idx + 1;
        }
    }
    Some(idx)
}

pub fn try_clmm_swap(
    a_to_b: bool,
    curr_sqrt_price: u128,
    curr_liquidity: u128,
    tick_sequence: &TickArraySequence,
    token_amount: u64,
    fee_rate: u16,
    init_internal_tick_index: (usize, bool),
    adaptive_fee_info: &Option<AdaptiveFeeInfo>,
    timestamp: u64,
    current_tick_index: i32,
) -> (r: Option<Option<u64>>)
    ensures
        r == swap_outcome(
            a_to_b,
            curr_sqrt_price,
            curr_liquidity,
            tick_sequence@,
            token_amount,
            fee_rate,
            init_internal_tick_index,
            *adaptive_fee_info,
            timestamp,
            current_tick_index,
        ),
{
    let idx = match try_first_tick(tick_sequence, a_to_b, init_internal_tick_index) {
        Some(i) => i,
        None => return Some(None),
    };
    let manager = FeeRateManager::try_new(
        a_to_b,
        current_tick_index,
        timestamp,
        fee_rate,
        adaptive_fee_info,
    )?;
    let state = SwapState {
        remaining: token_amount,
        calculated: 0,
        price: curr_sqrt_price,
        liquidity: curr_liquidity,
        idx,
        manager,
    };
    state.run(tick_sequence, a_to_b)
}

pub fn clmm_swap(
    a_to_b: bool,
    pool_type: ClmmPoolType,
    curr_sqrt_price: u128,
    curr_liquidity: u128,
    tick_sequence: &TickArraySequence,
    token_amount: u64,
    fee_rate: u16,
    init_internal_tick_index: (usize, bool),
    adaptive_fee_info: &Option<AdaptiveFeeInfo>,
    timestamp: u64,
    current_tick_index: i32,
    tick_array_size: i32,
) -> (r: Option<u64>)
    requires
        swap_outcome(
            a_to_b,
            curr_sqrt_price,
            curr_liquidity,
            tick_sequence@,
            token_amount,
            fee_rate,
            init_internal_tick_index,
            *adaptive_fee_info,
            timestamp,
            current_tick_index,
        ) is Some,
    ensures
        Some(r) == swap_outcome(
            a_to_b,
            curr_sqrt_price,
            curr_liquidity,
            tick_sequence@,
            token_amount,
            fee_rate,
            init_internal_tick_index,
            *adaptive_fee_info,
            timestamp,
            current_tick_index,
        ),
{
    try_clmm_swap(
        a_to_b,
        curr_sqrt_price,
        curr_liquidity,
        tick_sequence,
        token_amount,
        fee_rate,
        init_internal_tick_index,
        adaptive_fee_info,
        timestamp,
        current_tick_index,
    ).unwrap()
}

/// A stretch of a swap takes in and pays out what lies between the price before
/// it and the price after it: base tokens in and quote tokens out where it sells
/// base tokens, and the other way round where it buys them. What comes in is
/// rounded up and what goes out is rounded down.
pub proof fn law_step_trades_what_lies_between(
    remaining: int,
    liquidity: int,
    price: int,
    target: int,
    fee_rate: int,
    a_to_b: bool,
)
    requires
        0 <= remaining <= u64::MAX,
        0 <= fee_rate,
        0 <= liquidity <= u128::MAX,
        0 <= price <= u128::MAX,
        0 <= target <= u128::MAX,
        swap_step(remaining, liquidity, price, target, fee_rate, a_to_b) matches Some(Some(_)),
        next_fits(remaining, liquidity, price, fee_rate, a_to_b),
    ensures
        ({
            let c = (swap_step(remaining, liquidity, price, target, fee_rate, a_to_b)->0)->0;
            let next = c.next_price as int;
            &&& a_to_b ==> c.amount_in == delta_a(true, price, next, liquidity) && Some(c.amount_out as int) == delta_b(
                false,
                price,
                next,
                liquidity,
            )
            &&& !a_to_b ==> Some(c.amount_in as int) == delta_b(true, price, next, liquidity) && c.amount_out
                == delta_a(false, price, next, liquidity)
        }),
{
    lemma_deltas_fit(price, target, liquidity, a_to_b);
    let calc = monus(remaining, ceil_div(remaining * fee_rate, FEE_RATE_MUL_VALUE as int));
    let next = next_price(price, liquidity, calc, a_to_b);
    lemma_deltas_fit(price, next->0, liquidity, a_to_b);
}

/// Whether the price that an amount moves to fits in its type.
pub open spec fn next_fits(remaining: int, liquidity: int, price: int, fee_rate: int, a_to_b: bool) -> bool {
    let calc = monus(remaining, ceil_div(remaining * fee_rate, FEE_RATE_MUL_VALUE as int));
    next_price(price, liquidity, calc, a_to_b) matches Some(p) ==> 0 <= p <= u128::MAX
}

/// A stretch that reaches its target charges the fee on top of what it takes
/// in, rounded up, so that the fee is at least the rate's part of the whole. It
/// never takes more than what is left.
pub proof fn law_fee_is_the_rates_part(
    remaining: int,
    liquidity: int,
    price: int,
    target: int,
    fee_rate: int,
    a_to_b: bool,
)
    requires
        0 <= remaining <= u64::MAX,
        0 <= fee_rate < 1_000_000,
        swap_step(remaining, liquidity, price, target, fee_rate, a_to_b) matches Some(Some(_)),
        ({
            let to_target = fixed_delta(price, target, liquidity, a_to_b);
            let after_fee = monus(remaining, ceil_div(remaining * fee_rate, 1_000_000));
            to_target is Some && 0 <= to_target->0 <= after_fee
        }),
    ensures
        ({
            let c = (swap_step(remaining, liquidity, price, target, fee_rate, a_to_b)->0)->0;
            &&& c.amount_in + c.fee_amount <= remaining
            &&& c.fee_amount * 1_000_000 >= (c.amount_in + c.fee_amount) * fee_rate
            &&& c.fee_amount > 0 ==> (c.fee_amount - 1) * 1_000_000 < (c.amount_in + c.fee_amount - 1) * fee_rate
        }),
{
    let a = fixed_delta(price, target, liquidity, a_to_b)->0;
    let rest = 1_000_000 - fee_rate;
    let taken = ceil_div(remaining * fee_rate, 1_000_000);
    assert(remaining * fee_rate >= 0) by (nonlinear_arith)
        requires
            remaining >= 0,
            fee_rate >= 0,
    ;
    assert(a * fee_rate >= 0) by (nonlinear_arith)
        requires
            a >= 0,
            fee_rate >= 0,
    ;
    lemma_ceil(remaining * fee_rate, 1_000_000);
    lemma_ceil(a * fee_rate, rest);
    let fee = ceil_div(a * fee_rate, rest);
    assert(fee * 1_000_000 >= (a + fee) * fee_rate) by (nonlinear_arith)
        requires
            fee * rest >= a * fee_rate,
            rest == 1_000_000 - fee_rate,
    ;
    assert((fee - 1) * 1_000_000 < (a + fee - 1) * fee_rate) by (nonlinear_arith)
        requires
            (fee - 1) * rest < a * fee_rate,
            rest == 1_000_000 - fee_rate,
    ;
    // With a at most remaining - taken, the fee is at most taken.
    assert(remaining >= taken) by {
        if remaining < taken {
            assert(a == 0);
            assert(remaining * fee_rate <= remaining * 1_000_000) by (nonlinear_arith)
                requires
                    0 <= remaining,
                    fee_rate < 1_000_000,
            ;
            assert(taken - 1 < remaining);
        }
    }
    assert(fee <= taken) by (nonlinear_arith)
        requires
            (fee - 1) * rest < a * fee_rate,
            a <= remaining - taken,
            remaining * fee_rate <= taken * 1_000_000,
            rest == 1_000_000 - fee_rate,
            rest > 0,
            fee_rate >= 0,
    {
        assert(a * fee_rate <= (remaining - taken) * fee_rate);
        assert((remaining - taken) * fee_rate <= taken * rest);
        assert((fee - 1) * rest < taken * rest);
    }
}

proof fn lemma_ceil(n: int, d: int)
    requires
        n >= 0,
        d > 0,
    ensures
        ceil_div(n, d) >= 0,
        (ceil_div(n, d) - 1) * d < n <= ceil_div(n, d) * d,
{
    let q = n / d;
    vstd::arithmetic::div_mod::lemma_fundamental_div_mod(n, d);
    vstd::arithmetic::div_mod::lemma_div_pos_is_pos(n, d);
    assert((q - 1) * d == d * q - d && (q + 1) * d == d * q + d && q * d == d * q) by (nonlinear_arith);
}

/// What a round of a swap may leave behind.
pub open spec fn keeps_books(s: SwapState, ticks: Seq<TickEntry>, a_to_b: bool, r: SwapRound) -> bool {
    match r {
        SwapRound::Next(t) => {
            &&& t.remaining <= s.remaining
            &&& t.calculated >= s.calculated
            &&& a_to_b ==> t.idx <= s.idx <= t.idx + 1
            &&& !a_to_b ==> s.idx <= t.idx <= s.idx + 1
            &&& t.idx < ticks.len()
            &&& t.idx == s.idx ==> t.liquidity == s.liquidity
            &&& t.idx != s.idx ==> {
                let net = ticks[s.idx as int].net as int;
                &&& t.price == ticks[s.idx as int].price
                &&& t.liquidity == (if a_to_b {
                    s.liquidity - net
                } else {
                    s.liquidity + net
                })
            }
        },
        SwapRound::Done(v) => v >= s.calculated,
        _ => true,
    }
}

/// A round of a swap keeps the books: what is left does not grow, what was
/// bought does not shrink, and the next tick is the same one or its neighbour on
/// the swap's side. Crossing a tick puts the price at the tick and takes its
/// liquidity along: off where the price falls and on where it rises.
#[verifier::spinoff_prover]
#[verifier::rlimit(40)]
pub proof fn law_round_keeps_the_books(s: SwapState, ticks: Seq<TickEntry>, a_to_b: bool)
    requires
        s.idx < ticks.len() <= usize::MAX,
    ensures
        keeps_books(s, ticks, a_to_b, swap_round(s, ticks, a_to_b)),
{
    reveal(swap_round);
}

proof fn lemma_rounds_grow(s: SwapState, ticks: Seq<TickEntry>, a_to_b: bool, fuel: nat)
    requires
        s.idx < ticks.len() <= usize::MAX,
    ensures
        swap_rounds(s, ticks, a_to_b, fuel) matches SwapRound::Done(v) ==> v >= s.calculated,
    decreases fuel,
{
    if s.remaining > 0 {
        law_round_keeps_the_books(s, ticks, a_to_b);
        if let SwapRound::Next(t) = swap_round(s, ticks, a_to_b) {
            if fuel > 0 {
                lemma_rounds_grow(t, ticks, a_to_b, (fuel - 1) as nat);
            }
        }
    }
}

/// A swap never takes back what it has bought, and one with nothing left to
/// spend has bought exactly that.
pub proof fn law_swap_only_gains(s: SwapState, ticks: Seq<TickEntry>, a_to_b: bool)
    requires
        s.idx < ticks.len() <= usize::MAX,
    ensures
        swap_from(s, ticks, a_to_b) matches Some(Some(v)) ==> v >= s.calculated,
        s.remaining == 0 ==> swap_from(s, ticks, a_to_b) == Some(Some(s.calculated)),
{
    if exists|fuel: nat| swap_ends(s, ticks, a_to_b, fuel) {
        let fuel = choose|fuel: nat| swap_ends(s, ticks, a_to_b, fuel);
        lemma_rounds_grow(s, ticks, a_to_b, fuel);
    }
    if s.remaining == 0 {
        assert(swap_ends(s, ticks, a_to_b, 0));
    }
}

proof fn lemma_skips(ticks: Seq<TickEntry>, idx: int)
    requires
        0 <= idx < ticks.len(),
    ensures
        0 <= skip_down(ticks, idx) <= idx,
        forall|k: int| skip_down(ticks, idx) < k <= idx ==> (#[trigger] ticks[k]).net == 0,
        skip_down(ticks, idx) > 0 ==> ticks[skip_down(ticks, idx)].net != 0,
    decreases idx,
{
    if idx > 0 && ticks[idx].net == 0 {
        lemma_skips(ticks, idx - 1);
    }
}

proof fn lemma_skips_up(ticks: Seq<TickEntry>, idx: int)
    requires
        0 <= idx < ticks.len(),
    ensures
        idx <= skip_up(ticks, idx) < ticks.len(),
        forall|k: int| idx <= k < skip_up(ticks, idx) ==> (#[trigger] ticks[k]).net == 0,
        skip_up(ticks, idx) < ticks.len() - 1 ==> ticks[skip_up(ticks, idx)].net != 0,
    decreases ticks.len() - idx,
{
    if idx < ticks.len() - 1 && ticks[idx].net == 0 {
        lemma_skips_up(ticks, idx + 1);
    }
}

/// A swap that sells base tokens starts towards the next tick at or below the
/// pool's, and one that buys them towards the next tick above it, passing over
/// ticks that hold no liquidity.
pub proof fn law_swap_starts_towards_its_side(ticks: Seq<TickEntry>, tick: i32, a_to_b: bool, at: (usize, bool), idx: int)
    requires
        increasing(ticks),
        is_place(ticks, tick, at),
        first_tick(ticks, a_to_b, at) == Some(idx),
    ensures
        0 <= idx < ticks.len(),
        a_to_b ==> ticks[idx].tick <= tick,
        !a_to_b ==> ticks[idx].tick > tick,
        forall|k: int|
            0 <= k < ticks.len() && (if a_to_b {
                idx < k && ticks[k].tick <= tick
            } else {
                k < idx && ticks[k].tick > tick
            }) ==> (#[trigger] ticks[k]).net == 0,
{
    let start = if a_to_b && !at.1 {
        at.0 - 1
    } else if !a_to_b && at.1 {
        at.0 + 1
    } else {
        at.0 as int
    };
    lemma_skips(ticks, start);
    lemma_skips_up(ticks, start);
    if a_to_b {
        assert(ticks[start].tick <= tick);
        if idx < start {
            assert(ticks[idx].tick < ticks[start].tick);
        }
        assert forall|k: int| 0 <= k < ticks.len() && idx < k && ticks[k].tick <= tick implies (#[trigger] ticks[k]).net
            == 0 by {
            if k > start {
                assert(ticks[k].tick > tick) by {
                    if at.1 {
                        assert(ticks[start].tick < ticks[k].tick);
                    } else if k < at.0 {
                    } else {
                        assert(ticks[k].tick >= tick);
                        if ticks[k].tick == tick {
                            assert(k > at.0 ==> ticks[at.0 as int].tick < ticks[k].tick);
                        }
                    }
                }
            }
        }
    } else {
        assert(ticks[start].tick > tick) by {
            if at.1 {
                assert(ticks[at.0 as int].tick < ticks[start].tick);
            }
        }
        if idx > start {
            assert(ticks[start].tick < ticks[idx].tick);
        }
        assert forall|k: int| 0 <= k < ticks.len() && k < idx && ticks[k].tick > tick implies (#[trigger] ticks[k]).net
            == 0 by {
            if k < start {
                if k < at.0 {
                    assert(ticks[k].tick < tick);
                } else {
                    assert(k == at.0);
                }
            }
        }
    }
}

}
