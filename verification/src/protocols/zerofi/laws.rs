//! How a trade uses up the tiers and budgets of a ZeroFi pool.
use vstd::prelude::*;

use super::state::ZeroFiState;
use super::tiers::{Budget, SwapTerms, TierState};

verus! {

/// What the points of a direction from one place up to another hold together.
pub open spec fn points_between(z: ZeroFiState, terms: SwapTerms, i: int, j: int) -> int
    decreases j - i,
{
    if i >= j {
        0
    } else {
        z.point(terms, i) + points_between(z, terms, i + 1, j)
    }
}

/// A trade fills the tiers in order and whole: it takes what each of them holds
/// until what is left fits in the next one, or no tier is left.
pub proof fn law_tiers_fill_in_order(z: ZeroFiState, terms: SwapTerms, i: int, s: TierState, j: int, t: TierState)
    requires
        0 <= i <= z.point_count(terms.is_b2q),
        z.filled_from(terms, i, s) == Some((j, t)),
    ensures
        i <= j <= z.point_count(terms.is_b2q),
        t.remaining + points_between(z, terms, i, j) == s.remaining,
        j < z.point_count(terms.is_b2q) ==> 0 < z.point(terms, j) && t.remaining <= z.point(terms, j),
    decreases z.point_count(terms.is_b2q) - i,
{
    let bp = z.point(terms, i);
    if i < z.point_count(terms.is_b2q) {
        if bp == 0 {
            law_tiers_fill_in_order(z, terms, i + 1, s, j, t);
        } else if s.remaining > bp {
            let half = z.tier_half(terms, i);
            let rest = TierState { remaining: (s.remaining - bp) as u64, ..s };
            let charged = terms.both_charged(rest, bp);
            let next = terms.paid(charged->0, bp, half->0)->0;
            assert(next.remaining == s.remaining - bp);
            law_tiers_fill_in_order(z, terms, i + 1, next, j, t);
        }
    }
}

/// A budget that is in use falls by what is traded. Once nothing is left of it,
/// it is out of use and its part comes off the fee; until then the fee stays,
/// and a budget that is out of use changes nothing.
pub proof fn law_budget_is_used_up(terms: SwapTerms, budget: Budget, fee_diff: int, segment: int)
    requires
        0 <= segment <= i64::MAX,
        -0x4000_0000 <= fee_diff <= 0x4000_0000,
        -0x3fff_ffff <= budget.value <= 0x3fff_ffff,
        budget.left >= 0,
    ensures
        ({
            let r = terms.charged(budget, fee_diff, segment, false);
            &&& r is Some
            &&& !budget.active ==> r->0 == (budget, fee_diff)
            &&& budget.active && segment < budget.left ==> (r->0).0.active && (r->0).0.left + segment == budget.left
                && (r->0).1 == fee_diff
            &&& budget.active && segment >= budget.left ==> !(r->0).0.active && (r->0).1 + budget.value == fee_diff
        }),
{
}

}
