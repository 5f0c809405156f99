//! Trade sizes priced against concentrated liquidity.
use vstd::prelude::*;

use super::clmm_math::fees::{fits_i32, AdaptiveFeeInfo};
use super::clmm_math::swap::{swap_outcome, try_clmm_swap};
use super::clmm_math::tick_price::ClmmPoolType;
use super::clmm_math::ticks::{
    law_ordered_ticks_unique, ordered_ticks, tick_place, tick_sequence, TickArraySequence, TickEntry,
};
use super::quotes::{Quote, TierInput, TierQuotes};
use super::tick_arrays::{all_ticks, bounded_ticks, right_end, TickArrays};

verus! {

/// A pool at its current price.
#[derive(Clone, Copy, Debug, PartialEq, Eq, Structural)]
pub struct ClmmPool {
    pub pool_type: ClmmPoolType,
    pub sqrt_price: u128,
    pub liquidity: u128,
    pub fee_rate: u16,
    pub tick: i32,
    pub tick_spacing: u16,
    pub adaptive_fee_info: Option<AdaptiveFeeInfo>,
    pub timestamp: u64,
}

/// The quote of a trade that pays out; the outer option is empty where its
/// price leaves the machine's types.
pub open spec fn paid(input: u64, out: Option<Option<u64>>) -> Option<Option<Quote>> {
    if input == 0 {
        Some(None)
    } else {
        match out {
            None => None,
            Some(None) => Some(None),
            Some(Some(output)) => if output > 0 {
                Some(Some(Quote { input, output }))
            } else {
                Some(None)
            },
        }
    }
}

impl ClmmPool {
    /// The amount out for an amount in; nothing in gives nothing out.
    pub open spec fn amount_out(self, ticks: Seq<TickEntry>, amount: u64, a_to_b: bool) -> Option<Option<u64>> {
        if amount == 0 {
            Some(Some(0))
        } else {
            swap_outcome(
                a_to_b,
                self.sqrt_price,
                self.liquidity,
                ticks,
                amount,
                self.fee_rate,
                tick_place(ticks, self.tick),
                self.adaptive_fee_info,
                self.timestamp,
                self.tick,
            )
        }
    }

    pub fn quote_one_direction(&self, amount_in: u64, a_to_b: bool, tick_seq: &TickArraySequence) -> (r: Option<
        Option<u64>,
    >)
        ensures
            r == self.amount_out(tick_seq@, amount_in, a_to_b),
    {
        if amount_in == 0 {
            return Some(Some(0));
        }
        let at = tick_seq.get_internal_bin_index_from_tick_index(self.tick);
        try_clmm_swap(
            a_to_b,
            self.sqrt_price,
            self.liquidity,
            tick_seq,
            amount_in,
            self.fee_rate,
            at,
            &self.adaptive_fee_info,
            self.timestamp,
            self.tick,
        )
    }

    fn try_paid(&self, amount_in: u64, a_to_b: bool, tick_seq: &TickArraySequence) -> (r: Option<Option<Quote>>)
        ensures
            r == paid(amount_in, self.amount_out(tick_seq@, amount_in, a_to_b)),
    {
        if amount_in == 0 {
            return Some(None);
        }
        match self.quote_one_direction(amount_in, a_to_b, tick_seq)? {
            None => Some(None),
            Some(output) => if output > 0 {
                Some(Some(Quote { input: amount_in, output }))
            } else {
                Some(None)
            },
        }
    }

    /// The quotes of a trade size against ordered ticks.
    pub open spec fn quotes_on(self, ticks: Seq<TickEntry>, base: u64, quote: u64) -> Option<TierQuotes> {
        let b2q = paid(base, self.amount_out(ticks, base, true));
        let q2b = paid(quote, self.amount_out(ticks, quote, false));
        match (b2q, q2b) {
            (Some(b2q), Some(q2b)) => Some(TierQuotes { b2q, q2b }),
            _ => None,
        }
    }

    /// The quotes of a trade size against the stored arrays: none without
    /// initialized ticks or without a price.
    pub open spec fn tier_quotes(
        self,
        arrays: Seq<(i32, Seq<(i32, i128)>)>,
        size: int,
        tier: TierInput,
    ) -> Option<TierQuotes> {
        let raw = bounded_ticks(arrays, size, self.tick_spacing as int);
        if all_ticks(arrays).len() == 0 {
            Some(TierQuotes::nothing())
        } else if !fits_i32(right_end(arrays, size, self.tick_spacing as int)) {
            None
        } else if self.sqrt_price == 0 || tier.base_amount is None {
            Some(TierQuotes::nothing())
        } else {
            self.quotes_on(tick_sequence(raw, self.pool_type), tier.base_amount->0, tier.quote_amount())
        }
    }

    pub fn try_tier_quotes(&self, arrays: &TickArrays, size: i32, tier: &TierInput) -> (r: Option<TierQuotes>)
        requires
            0 < size <= 88,
            arrays.wf(),
        ensures
            r == self.tier_quotes(arrays@, size as int, *tier),
    {
        let ticks = match arrays.try_build_tick_sequence(size, self.tick_spacing, self.pool_type)? {
            Some(t) => t,
            None => return Some(TierQuotes::none()),
        };
        proof {
            let raw = bounded_ticks(arrays@, size as int, self.tick_spacing as int);
            assert(ordered_ticks(ticks@, raw, self.pool_type));
            law_ordered_ticks_unique(ticks@, tick_sequence(raw, self.pool_type), raw, self.pool_type);
        }
        if self.sqrt_price == 0 {
            return Some(TierQuotes::none());
        }
        let base = match tier.base_amount {
            Some(b) => b,
            None => return Some(TierQuotes::none()),
        };
        let b2q = self.try_paid(base, true, &ticks)?;
        let q2b = self.try_paid(tier.get_quote_amount(), false, &ticks)?;
        Some(TierQuotes { b2q, q2b })
    }
}

/// A row that spends base tokens is a swap that sells them, and one that spends
/// quote tokens a swap that buys them, each of the size's amount, from the
/// pool's price, liquidity and tick. A row pays something.
pub proof fn law_rows_swap_their_way(p: ClmmPool, ticks: Seq<TickEntry>, base: u64, quote: u64, q: TierQuotes)
    requires
        p.quotes_on(ticks, base, quote) == Some(q),
    ensures
        q.b2q matches Some(x) ==> x.input == base && x.input > 0 && x.output > 0 && swap_outcome(
            true,
            p.sqrt_price,
            p.liquidity,
            ticks,
            base,
            p.fee_rate,
            tick_place(ticks, p.tick),
            p.adaptive_fee_info,
            p.timestamp,
            p.tick,
        ) == Some(Some(x.output)),
        q.q2b matches Some(x) ==> x.input == quote && x.input > 0 && x.output > 0 && swap_outcome(
            false,
            p.sqrt_price,
            p.liquidity,
            ticks,
            quote,
            p.fee_rate,
            tick_place(ticks, p.tick),
            p.adaptive_fee_info,
            p.timestamp,
            p.tick,
        ) == Some(Some(x.output)),
{
}

}
