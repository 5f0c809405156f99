//! The amounts that pools are asked to price, and their answers.
use vstd::prelude::*;

use crate::bytes::str_eq;
use crate::num::imin;

verus! {

/// A trade size in dollars, as the integers that pools price.
#[derive(Clone, Copy, Debug, PartialEq, Eq, Structural)]
pub struct TierInput {
    /// Millionths of a dollar.
    pub micro_usd: u128,
    /// Dollars in parts of ten to the 21st.
    pub usd_e21: u128,
    /// The base tokens that the size is worth at the pool's own mid price;
    /// nothing where that price is not positive.
    pub base_amount: Option<u64>,
}

impl TierInput {
    /// The quote tokens that the size is worth, with six decimals.
    pub open spec fn quote_amount(self) -> u64 {
        imin(self.micro_usd as int, u64::MAX as int) as u64
    }

    pub fn get_quote_amount(&self) -> (r: u64)
        ensures
            r == self.quote_amount(),
    {
        if self.micro_usd <= u64::MAX as u128 {
            self.micro_usd as u64
        } else {
            u64::MAX
        }
    }
}

/// An amount in and the amount that comes out for it.
#[derive(Clone, Copy, Debug, PartialEq, Eq, Structural)]
pub struct Quote {
    pub input: u64,
    pub output: u64,
}

/// The quotes of one trade size, base to quote and back.
#[derive(Clone, Copy, Debug, PartialEq, Eq, Structural)]
pub struct TierQuotes {
    pub b2q: Option<Quote>,
    pub q2b: Option<Quote>,
}

impl TierQuotes {
    pub open spec fn nothing() -> TierQuotes {
        TierQuotes { b2q: None, q2b: None }
    }

    pub fn none() -> (r: TierQuotes)
        ensures
            r == TierQuotes::nothing(),
    {
        TierQuotes { b2q: None, q2b: None }
    }
}

/// Whether a direction's name says base to quote.
pub fn is_b2q(direction: &str) -> (r: bool)
    ensures
        r == (direction@ == "B2Q"@),
{
    str_eq(direction, "B2Q")
}

/// A quote that comes to nothing is none.
pub open spec fn positive(v: Option<int>) -> Option<Option<u64>> {
    match v {
        None => None,
        Some(x) => if x > 0 {
            Some(Some(x as u64))
        } else {
            Some(None)
        },
    }
}

/// A quote of an input that never comes out empty, even when it is zero.
pub open spec fn quoted(input: int, v: Option<int>) -> Option<Quote> {
    match v {
        None => None,
        Some(x) => Some(Quote { input: input as u64, output: x as u64 }),
    }
}

}
