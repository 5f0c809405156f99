//! What holds of every pool that can be replayed.
use vstd::prelude::*;

use super::alphaq::{AlphaQReplay, AlphaQState};
use super::bisonfi::fees::ceil_fee_of;
use super::bisonfi::state::{BisonFiState, Tiers};
use super::bisonfi::tiers::{base_for, base_span, quote_for, share_of, TierWalk};
use super::bisonfi::tiers_v3::{adjusted_rate_v3, core_base, core_quote, tier_base};
use super::bisonfi::BisonFiReplay;
use super::goonfi::state::GoonFiState;
use super::goonfi::GoonFiReplay;
use super::humidifi::HumidifiReplay;
use super::quotes::{positive, quoted, Quote, TierInput, TierQuotes};
use super::solfiv2::SolFiV2Replay;
use super::tesserav::{TesseraVReplay, TesseraVState};
use super::zerofi::ZeroFiReplay;
use super::{fresh_pool, tier_rows, PoolView, QuoteRowView};
use crate::bytes::{u16_at, u32_at, u64_at};
use crate::engine::pool_after;
use crate::num::{fits_u64, monus};
use crate::reader::UpdateView;

verus! {

/// Whether a row's output is what a single quote gives, zero standing for none.
pub open spec fn agrees(row: Option<Quote>, single: Option<Option<u64>>) -> bool {
    row matches Some(q) ==> single == Some(
        if q.output > 0 {
            Some(q.output)
        } else {
            None
        },
    )
}

proof fn lemma_directions_differ()
    ensures
        "B2Q"@ != "Q2B"@,
{
    reveal_strlit("B2Q");
    reveal_strlit("Q2B");
    assert("B2Q"@[0] != "Q2B"@[0]);
}

/// A row of a trade size agrees with the single quote of its own input and
/// direction.
#[verifier::spinoff_prover]
#[verifier::rlimit(40)]
pub proof fn law_solfiv2_rows_agree_with_single_quotes(p: SolFiV2Replay, slot: int, tier: TierInput, q: TierQuotes)
    requires
        p.ready(),
        p.tier_quotes(slot, tier) == Some(q),
    ensures
        agrees(q.b2q, p.single(q.b2q->0.input as int, "B2Q"@, slot)),
        agrees(q.q2b, p.single(q.q2b->0.input as int, "Q2B"@, slot)),
{
    reveal(SolFiV2Replay::single);
    reveal(SolFiV2Replay::tier_quotes);
    lemma_directions_differ();
    assert forall|price: int| price != 0 implies #[trigger] (0int / price) == 0 by {
        assert(0int / price == 0) by (nonlinear_arith)
            requires
                price != 0,
        ;
    }
    if q.b2q is Some {
        super::solfiv2::quote::law_quote_within_vault(p.state, q.b2q->0.input as int, true, slot);
    }
    if q.q2b is Some {
        super::solfiv2::quote::law_quote_within_vault(p.state, q.q2b->0.input as int, false, slot);
    }
}

/// A row of a trade size agrees with the single quote of its own input and
/// direction.
#[verifier::spinoff_prover]
#[verifier::rlimit(40)]
pub proof fn law_goonfi_rows_agree_with_single_quotes(p: GoonFiReplay, slot: int, tier: TierInput, q: TierQuotes)
    requires
        p.ready(),
        p.tier_quotes(slot, tier) == Some(q),
    ensures
        agrees(q.b2q, p.single(q.b2q->0.input as int, "B2Q"@, slot)),
        agrees(q.q2b, p.single(q.q2b->0.input as int, "Q2B"@, slot)),
{
    reveal(GoonFiReplay::single);
    reveal(GoonFiReplay::tier_quotes);
    lemma_directions_differ();
}

/// A row of a trade size agrees with the single quote of its own input and
/// direction.
#[verifier::spinoff_prover]
#[verifier::rlimit(40)]
pub proof fn law_tesserav_rows_agree_with_single_quotes(p: TesseraVReplay, tier: TierInput, q: TierQuotes)
    requires
        p.ready(),
        p.tier_quotes(tier) == Some(q),
    ensures
        agrees(q.b2q, p.single(q.b2q->0.input as int, "B2Q"@)),
        agrees(q.q2b, p.single(q.q2b->0.input as int, "Q2B"@)),
{
    reveal(TesseraVReplay::single);
    reveal(TesseraVReplay::tier_quotes);
    lemma_directions_differ();
}

/// A row of a trade size agrees with the single quote of its own input and
/// direction.
#[verifier::spinoff_prover]
#[verifier::rlimit(40)]
pub proof fn law_zerofi_rows_agree_with_single_quotes(p: ZeroFiReplay, slot: int, tier: TierInput, q: TierQuotes)
    requires
        p.ready(),
        p.tier_quotes(slot, tier) == Some(q),
    ensures
        agrees(q.b2q, p.single(q.b2q->0.input as int, "B2Q"@, slot)),
        agrees(q.q2b, p.single(q.q2b->0.input as int, "Q2B"@, slot)),
{
    reveal(ZeroFiReplay::single);
    reveal(ZeroFiReplay::tier_quotes);
    lemma_directions_differ();
    if q.b2q is Some {
        p.state.law_quote_within_vault(q.b2q->0.input as int, true, slot);
    }
    if q.q2b is Some {
        p.state.law_quote_within_vault(q.q2b->0.input as int, false, slot);
    }
}

/// A row of a trade size agrees with the single quote of its own input and
/// direction.
#[verifier::spinoff_prover]
#[verifier::rlimit(40)]
pub proof fn law_humidifi_rows_agree_with_single_quotes(p: HumidifiReplay, slot: int, tier: TierInput, q: TierQuotes)
    requires
        p.ready(),
        p.tier_quotes(slot, tier) == Some(q),
    ensures
        agrees(q.b2q, p.single(q.b2q->0.input as int, "B2Q"@, slot)),
        agrees(q.q2b, p.single(q.q2b->0.input as int, "Q2B"@, slot)),
{
    reveal(HumidifiReplay::single);
    reveal(HumidifiReplay::tier_quotes);
    lemma_directions_differ();
}

/// A row of a trade size agrees with the single quote of its own input. The
/// pool names its directions by the tokens that it gives, so a row is quoted by
/// the single quote of the other name.
#[verifier::spinoff_prover]
#[verifier::rlimit(40)]
pub proof fn law_alphaq_rows_agree_with_single_quotes(p: AlphaQReplay, tier: TierInput, q: TierQuotes)
    requires
        p.ready(),
        p.tier_quotes(tier) == Some(q),
    ensures
        agrees(q.b2q, p.single(q.b2q->0.input as int, "Q2B"@)),
        agrees(q.q2b, p.single(q.q2b->0.input as int, "B2Q"@)),
{
    reveal(AlphaQReplay::single);
    reveal(AlphaQReplay::tier_quotes);
    lemma_directions_differ();
}

proof fn lemma_sell_fits(w: TierWalk, i: int, remaining: int, output: int)
    ensures
        w.sell_from(i, remaining, output) matches Some(x) ==> fits_u64(x),
    decreases 4 - i,
{
    if i < 4 && w.tier_rate(i) is Some {
        let rate = w.tier_rate(i)->0;
        let span = base_span(share_of(w.reserve as int, w.tier_share(i)), w.scale as int, rate);
        if span is Some && quote_for(span->0, rate, w.scale as int) is Some {
            let q = quote_for(span->0, rate, w.scale as int)->0;
            lemma_sell_fits(w, i + 1, remaining - span->0, output + q);
        }
    }
}

proof fn lemma_buy_fits(w: TierWalk, i: int, remaining: int, output: int)
    ensures
        w.buy_from(i, remaining, output) matches Some(x) ==> fits_u64(x),
    decreases 4 - i,
{
    if i < 4 && w.tier_rate(i) is Some {
        let rate = w.tier_rate(i)->0;
        lemma_buy_fits(w, i + 1, remaining, output);
        let span = quote_for(share_of(w.reserve as int, w.tier_share(i)), rate, w.scale as int);
        if span is Some && base_for(span->0, w.scale as int, rate) is Some {
            let b = base_for(span->0, w.scale as int, rate)->0;
            lemma_buy_fits(w, i + 1, remaining - span->0, output + b);
        }
    }
}

proof fn lemma_sell_v3_fits(s: BisonFiState, tiers: Tiers, i: int, remaining: int, output: int)
    ensures
        s.sell_v3_from(tiers, i, remaining, output) matches Some(x) ==> fits_u64(x),
    decreases 4 - i,
{
    let rate = adjusted_rate_v3(s.rate_v3(), tiers.at(i), s.v3.adj_const);
    if i < 4 && rate is Some {
        lemma_sell_v3_fits(s, tiers, i + 1, remaining, output);
        let span = tier_base(share_of(s.quote_reserve as int, tiers.at(i).mult as int), s.scale_v3(), rate->0);
        if span is Some && s.quote_at(span->0, rate->0) is Some {
            lemma_sell_v3_fits(s, tiers, i + 1, remaining - span->0, output + s.quote_at(span->0, rate->0)->0);
        }
    }
}

proof fn lemma_buy_v3_fits(s: BisonFiState, tiers: Tiers, i: int, remaining: int, output: int)
    ensures
        s.buy_v3_from(tiers, i, remaining, output) matches Some(x) ==> fits_u64(x),
    decreases 4 - i,
{
    let rate = adjusted_rate_v3(s.rate_v3(), tiers.at(i), s.v3.adj_const);
    if i < 4 && rate is Some {
        lemma_buy_v3_fits(s, tiers, i + 1, remaining, output);
        let pivot = share_of(s.base_reserve as int, tiers.at(i).mult as int);
        let span = core_quote(pivot, rate->0 % 0x1_0000_0000, rate->0 / 0x1_0000_0000);
        if span is Some && s.base_at(span->0, rate->0) is Some {
            lemma_buy_v3_fits(s, tiers, i + 1, remaining - span->0, output + s.base_at(span->0, rate->0)->0);
        }
    }
}

#[verifier::spinoff_prover]
proof fn lemma_sold_fits(s: BisonFiState, net: int, slot: int)
    ensures
        s.sold(net, slot) matches Some(x) ==> fits_u64(x),
{
    let pivot = share_of(s.quote_reserve as int, s.sell_share(slot));
    let span = base_span(pivot, s.decimal_scale as int, s.fp_val as int);
    if span is Some && quote_for(span->0, s.fp_val as int, s.decimal_scale as int) is Some {
        let q = quote_for(span->0, s.fp_val as int, s.decimal_scale as int)->0;
        lemma_sell_fits(s.sell_walk(slot), 0, net - span->0, q);
    }
}

#[verifier::spinoff_prover]
proof fn lemma_bought_fits(s: BisonFiState, net: int, active: bool, slot: int)
    ensures
        s.bought(net, active, slot) matches Some(x) ==> fits_u64(x),
{
    let walk = s.buy_walk(active, slot);
    let scale = s.decimal_scale as int;
    let pivot = share_of(s.base_reserve as int, s.buy_share(active, slot));
    let span = quote_for(pivot, s.fp_val as int, scale);
    if span is Some && base_for(span->0, scale, s.fp_val as int) is Some {
        let b = base_for(span->0, scale, s.fp_val as int)->0;
        lemma_buy_fits(walk, 0, net - span->0, b);
        if walk.tier_rate(0) is Some {
            let rate = walk.tier_rate(0)->0;
            let joined = s.joined_span(walk, s.mult_0(false, active, slot), rate);
            if joined is Some && base_for(joined->0, scale, rate) is Some {
                lemma_buy_fits(walk, 1, net - span->0 - joined->0, b + base_for(joined->0, scale, rate)->0);
            }
        }
    }
}

#[verifier::spinoff_prover]
proof fn lemma_sold_v3_fits(s: BisonFiState, net: int, slot: int)
    ensures
        s.sold_v3(net, slot) matches Some(x) ==> fits_u64(x),
{
    if s.tiers_v3(slot, true) is Some {
        let (share, tiers) = s.tiers_v3(slot, true)->0;
        let span = tier_base(share_of(s.quote_reserve as int, share), s.scale_v3(), s.rate_v3());
        lemma_sell_v3_fits(s, tiers, 0, net, 0);
        if span is Some && s.quote_at(span->0, s.rate_v3()) is Some {
            lemma_sell_v3_fits(s, tiers, 0, net - span->0, s.quote_at(span->0, s.rate_v3())->0);
        }
    }
}

#[verifier::spinoff_prover]
proof fn lemma_bought_v3_fits(s: BisonFiState, net: int, slot: int)
    ensures
        s.bought_v3(net, slot) matches Some(x) ==> fits_u64(x),
{
    let hi = s.v3.fp_hi_u64 as int;
    let lo = s.v3.fp_lo as int;
    if s.tiers_v3(slot, false) is Some {
        let (share, tiers) = s.tiers_v3(slot, false)->0;
        let scaled = net * s.scale_v3();
        lemma_buy_v3_fits(s, tiers, 0, scaled, 0);
        let span = core_quote(share_of(s.base_reserve as int, share), hi / 0x1_0000_0000, lo);
        if span is Some && core_base(span->0, lo, hi) is Some {
            lemma_buy_v3_fits(s, tiers, 0, scaled - span->0, core_base(span->0, lo, hi)->0);
        }
    }
}

#[verifier::spinoff_prover]
proof fn lemma_quote_v3_fits(s: BisonFiState, amount: int, b2q: bool, slot: int)
    ensures
        s.quote_v3(amount, b2q, slot) matches Some(x) ==> fits_u64(x) && (amount == 0 ==> x == 0),
{
    let fee = s.fee_v3(amount, b2q, monus(slot, s.pool_slot as int));
    if fee is Some {
        let net = monus(amount, ceil_fee_of(fee->0, amount, 2_560_000));
        lemma_sold_v3_fits(s, net, slot);
        lemma_bought_v3_fits(s, net, slot);
    }
}

#[verifier::spinoff_prover]
proof fn lemma_quote_fits(s: BisonFiState, amount: int, b2q: bool, slot: int)
    ensures
        s.quote(amount, b2q, slot) matches Some(x) ==> fits_u64(x) && (amount == 0 ==> x == 0),
{
    let slot_diff = monus(slot, s.pool_slot as int);
    lemma_quote_v3_fits(s, amount, b2q, slot);
    if s.fee_bps(b2q, slot) is Some {
        let net = monus(amount, ceil_fee_of(s.fee_bps(b2q, slot)->0, amount, 100_000));
        lemma_sold_fits(s, net, slot_diff);
        lemma_bought_fits(s, net, s.slot_penalty_mult * slot_diff > 0, slot_diff);
    }
}

proof fn lemma_agrees(input: int, v: Option<int>)
    requires
        v matches Some(x) ==> fits_u64(x),
    ensures
        v is Some ==> quoted(input, v) is Some && agrees(quoted(input, v), positive(v)),
{
}

/// A row of a trade size agrees with the single quote of its own input and
/// direction. From the third version on a single quote does not ask how old the
/// pool is or whether it is empty, so there the pool has to be current.
#[verifier::spinoff_prover]
#[verifier::rlimit(60)]
pub proof fn law_bisonfi_rows_agree_with_single_quotes(p: BisonFiReplay, slot: int, tier: TierInput, q: TierQuotes)
    requires
        p.ready(),
        p.state.version < 3 || {
            &&& p.state.base_amount > 0
            &&& p.state.quote_amount > 0
            &&& p.state.decimal_scale > 0
            &&& slot <= p.state.pool_slot + 100
        },
        p.tier_quotes(slot, tier) == Some(q),
    ensures
        agrees(q.b2q, p.single(q.b2q->0.input as int, "B2Q"@, slot)),
        agrees(q.q2b, p.single(q.q2b->0.input as int, "Q2B"@, slot)),
{
    reveal(BisonFiReplay::single);
    reveal(BisonFiReplay::tier_quotes);
    lemma_directions_differ();
    let base = p.state.tier_base_amount(tier)->0;
    let quote = tier.quote_amount() as int;
    lemma_quote_fits(p.state, base, true, slot);
    lemma_quote_fits(p.state, quote, false, slot);
    lemma_agrees(base, p.state.quote(base, true, slot));
    lemma_agrees(quote, p.state.quote(quote, false, slot));
    assert(fits_u64(base));
}

proof fn lemma_roles_differ()
    ensures
        "pool"@ != "oracle"@,
        "pool"@ != "orderbook"@,
        "pool"@ != "extra_a"@,
        "pool"@ != "extra_b"@,
        "pool"@ != "base_vault"@,
        "pool"@ != "quote_vault"@,
        "oracle"@ != "orderbook"@,
        "oracle"@ != "base_vault"@,
        "oracle"@ != "quote_vault"@,
        "orderbook"@ != "base_vault"@,
        "orderbook"@ != "quote_vault"@,
        "extra_a"@ != "extra_b"@,
        "extra_a"@ != "base_vault"@,
        "extra_a"@ != "quote_vault"@,
        "extra_b"@ != "base_vault"@,
        "extra_b"@ != "quote_vault"@,
        "base_vault"@ != "quote_vault"@,
{
    reveal_strlit("pool");
    reveal_strlit("oracle");
    reveal_strlit("orderbook");
    reveal_strlit("extra_a");
    reveal_strlit("extra_b");
    reveal_strlit("base_vault");
    reveal_strlit("quote_vault");
    assert("pool"@.len() == 4);
    assert("oracle"@.len() == 6);
    assert("orderbook"@.len() == 9);
    assert("extra_a"@.len() == 7);
    assert("extra_b"@.len() == 7);
    assert("extra_a"@[6] != "extra_b"@[6]);
    assert("base_vault"@.len() == 10);
    assert("quote_vault"@.len() == 11);
}

#[verifier::spinoff_prover]
proof fn lemma_humidifi_updated(p: HumidifiReplay, role: Seq<char>, data: Seq<u8>, slot: u64)
    ensures
        ({
            let n = p.updated(role, data, slot);
            let sets = data.len() >= 72;
            let word = u64_at(data, 64) as u64;
            &&& role == "base_vault"@ && sets ==> n.has_base_vault && n.state.base_amount == word
            &&& role != "base_vault"@ || !sets ==> n.has_base_vault == p.has_base_vault && n.state.base_amount
                == p.state.base_amount
            &&& role == "quote_vault"@ && sets ==> n.has_quote_vault && n.state.quote_amount == word
            &&& role != "quote_vault"@ || !sets ==> n.has_quote_vault == p.has_quote_vault && n.state.quote_amount
                == p.state.quote_amount
            &&& p.has_pool ==> n.has_pool
            &&& role != "pool"@ ==> n.has_pool == p.has_pool
            &&& role != "pool"@ ==> n.state.params == p.state.params
            &&& n.last_slot == slot
        }),
{
    reveal(HumidifiReplay::updated);
    lemma_roles_differ();
}

#[verifier::spinoff_prover]
proof fn lemma_alphaq_updated(p: AlphaQReplay, role: Seq<char>, data: Seq<u8>)
    ensures
        ({
            let n = p.updated(role, data);
            let sets = data.len() >= 72;
            let word = u64_at(data, 64) as u64;
            &&& role == "base_vault"@ && sets ==> n.has_base_vault && n.state.base_amount == word
            &&& role != "base_vault"@ || !sets ==> n.has_base_vault == p.has_base_vault && n.state.base_amount
                == p.state.base_amount
            &&& role == "quote_vault"@ && sets ==> n.has_quote_vault && n.state.quote_amount == word
            &&& role != "quote_vault"@ || !sets ==> n.has_quote_vault == p.has_quote_vault && n.state.quote_amount
                == p.state.quote_amount
            &&& p.has_pool ==> n.has_pool
            &&& role != "pool"@ ==> n.has_pool == p.has_pool
        }),
{
    reveal(AlphaQReplay::updated);
    lemma_roles_differ();
}

#[verifier::spinoff_prover]
proof fn lemma_bisonfi_updated(p: BisonFiReplay, role: Seq<char>, data: Seq<u8>)
    ensures
        ({
            let n = p.updated(role, data);
            let sets = data.len() >= 72;
            let word = u64_at(data, 64) as u64;
            &&& role == "base_vault"@ && sets ==> n.has_base_vault && n.state.base_amount == word
            &&& role != "base_vault"@ || !sets ==> n.has_base_vault == p.has_base_vault && n.state.base_amount
                == p.state.base_amount
            &&& role == "quote_vault"@ && sets ==> n.has_quote_vault && n.state.quote_amount == word
            &&& role != "quote_vault"@ || !sets ==> n.has_quote_vault == p.has_quote_vault && n.state.quote_amount
                == p.state.quote_amount
            &&& p.has_pool ==> n.has_pool
            &&& role != "pool"@ ==> n.has_pool == p.has_pool
        }),
{
    reveal(BisonFiReplay::updated);
    lemma_roles_differ();
}

#[verifier::spinoff_prover]
proof fn lemma_solfiv2_updated(p: SolFiV2Replay, role: Seq<char>, data: Seq<u8>)
    ensures
        ({
            let n = p.updated(role, data);
            let sets = data.len() >= 72;
            let word = u64_at(data, 64) as u64;
            &&& role == "base_vault"@ && sets ==> n.has_base_vault && n.state.base_amount == word
            &&& role != "base_vault"@ || !sets ==> n.has_base_vault == p.has_base_vault && n.state.base_amount
                == p.state.base_amount
            &&& role == "quote_vault"@ && sets ==> n.has_quote_vault && n.state.quote_amount == word
            &&& role != "quote_vault"@ || !sets ==> n.has_quote_vault == p.has_quote_vault && n.state.quote_amount
                == p.state.quote_amount
            &&& p.has_pool ==> n.has_pool
            &&& role != "pool"@ ==> n.has_pool == p.has_pool
            &&& role == "oracle"@ ==> n.has_oracle
            &&& role != "oracle"@ ==> n.has_oracle == p.has_oracle
        }),
{
    reveal(SolFiV2Replay::updated);
    lemma_roles_differ();
}

#[verifier::spinoff_prover]
proof fn lemma_goonfi_updated(p: GoonFiReplay, role: Seq<char>, data: Seq<u8>)
    ensures
        ({
            let n = p.updated(role, data);
            let sets = data.len() >= 72;
            let word = u64_at(data, 64) as u64;
            &&& role == "base_vault"@ && sets ==> n.has_base_vault && n.state.base_amount == word
            &&& role != "base_vault"@ || !sets ==> n.has_base_vault == p.has_base_vault && n.state.base_amount
                == p.state.base_amount
            &&& role == "quote_vault"@ && sets ==> n.has_quote_vault && n.state.quote_amount == word
            &&& role != "quote_vault"@ || !sets ==> n.has_quote_vault == p.has_quote_vault && n.state.quote_amount
                == p.state.quote_amount
            &&& p.has_pool ==> n.has_pool
            &&& role != "pool"@ ==> n.has_pool == p.has_pool
            &&& role == "oracle"@ ==> n.has_oracle
            &&& role != "oracle"@ ==> n.has_oracle == p.has_oracle
        }),
{
    reveal(GoonFiReplay::updated);
    lemma_roles_differ();
}

#[verifier::spinoff_prover]
proof fn lemma_tesserav_updated(p: TesseraVReplay, role: Seq<char>, data: Seq<u8>)
    ensures
        ({
            let n = p.updated(role, data);
            let sets = data.len() >= 72;
            let word = u64_at(data, 64) as u64;
            &&& role == "base_vault"@ && sets ==> n.has_base_vault && n.state.base_amount == word
            &&& role != "base_vault"@ || !sets ==> n.has_base_vault == p.has_base_vault && n.state.base_amount
                == p.state.base_amount
            &&& role == "quote_vault"@ && sets ==> n.has_quote_vault && n.state.quote_amount == word
            &&& role != "quote_vault"@ || !sets ==> n.has_quote_vault == p.has_quote_vault && n.state.quote_amount
                == p.state.quote_amount
            &&& p.has_pool ==> n.has_pool
            &&& role != "pool"@ ==> n.has_pool == p.has_pool
        }),
{
    reveal(TesseraVReplay::updated);
    lemma_roles_differ();
}

#[verifier::spinoff_prover]
proof fn lemma_zerofi_updated(p: ZeroFiReplay, role: Seq<char>, data: Seq<u8>)
    ensures
        ({
            let n = p.updated(role, data);
            let sets = data.len() >= 72;
            let word = u64_at(data, 64) as u64;
            &&& role == "base_vault"@ && sets ==> n.has_base_vault && n.state.base_vault_balance == word
            &&& role != "base_vault"@ || !sets ==> n.has_base_vault == p.has_base_vault && n.state.base_vault_balance
                == p.state.base_vault_balance
            &&& role == "quote_vault"@ && sets ==> n.has_quote_vault && n.state.quote_vault_balance == word
            &&& role != "quote_vault"@ || !sets ==> n.has_quote_vault == p.has_quote_vault && n.state.quote_vault_balance
                == p.state.quote_vault_balance
            &&& p.has_pool ==> n.has_pool
            &&& role != "pool"@ ==> n.has_pool == p.has_pool
        }),
{
    reveal(ZeroFiReplay::updated);
    lemma_roles_differ();
}

proof fn lemma_updated(p: PoolView, role: Seq<char>, data: Seq<u8>, slot: u64)
    ensures
        match (p, p.updated(role, data, slot)) {
            (PoolView::Humidifi(a), PoolView::Humidifi(b)) => b == a.updated(role, data, slot),
            (PoolView::AlphaQ(a), PoolView::AlphaQ(b)) => b == a.updated(role, data),
            (PoolView::BisonFi(a), PoolView::BisonFi(b)) => b == a.updated(role, data),
            (PoolView::SolFiV2(a), PoolView::SolFiV2(b)) => b == a.updated(role, data),
            (PoolView::GoonFi(a), PoolView::GoonFi(b)) => b == a.updated(role, data),
            (PoolView::TesseraV(a), PoolView::TesseraV(b)) => b == a.updated(role, data),
            (PoolView::ZeroFi(a), PoolView::ZeroFi(b)) => b == a.updated(role, data),
            (PoolView::RaydiumClmm(a), PoolView::RaydiumClmm(b)) => b == a.updated(role, data, slot),
            (PoolView::OrcaClmm(a), PoolView::OrcaClmm(b)) => b == a.updated(role, data, slot),
            _ => false,
        },
{
    reveal(PoolView::updated);
}

proof fn lemma_pool_updated(p: PoolView, role: Seq<char>, data: Seq<u8>, slot: u64)
    ensures
        match (p, p.updated(role, data, slot)) {
            (PoolView::Humidifi(a), PoolView::Humidifi(n)) => {
                let sets = data.len() >= 72;
                let word = u64_at(data, 64) as u64;
                &&& role == "base_vault"@ && sets ==> n.has_base_vault && n.state.base_amount == word
                &&& role != "base_vault"@ || !sets ==> n.has_base_vault == a.has_base_vault && n.state.base_amount
                    == a.state.base_amount
                &&& role == "quote_vault"@ && sets ==> n.has_quote_vault && n.state.quote_amount == word
                &&& role != "quote_vault"@ || !sets ==> n.has_quote_vault == a.has_quote_vault && n.state.quote_amount
                    == a.state.quote_amount
            },
            (PoolView::AlphaQ(a), PoolView::AlphaQ(n)) => {
                let sets = data.len() >= 72;
                let word = u64_at(data, 64) as u64;
                &&& role == "base_vault"@ && sets ==> n.has_base_vault && n.state.base_amount == word
                &&& role != "base_vault"@ || !sets ==> n.has_base_vault == a.has_base_vault && n.state.base_amount
                    == a.state.base_amount
                &&& role == "quote_vault"@ && sets ==> n.has_quote_vault && n.state.quote_amount == word
                &&& role != "quote_vault"@ || !sets ==> n.has_quote_vault == a.has_quote_vault && n.state.quote_amount
                    == a.state.quote_amount
            },
            (PoolView::BisonFi(a), PoolView::BisonFi(n)) => {
                let sets = data.len() >= 72;
                let word = u64_at(data, 64) as u64;
                &&& role == "base_vault"@ && sets ==> n.has_base_vault && n.state.base_amount == word
                &&& role != "base_vault"@ || !sets ==> n.has_base_vault == a.has_base_vault && n.state.base_amount
                    == a.state.base_amount
                &&& role == "quote_vault"@ && sets ==> n.has_quote_vault && n.state.quote_amount == word
                &&& role != "quote_vault"@ || !sets ==> n.has_quote_vault == a.has_quote_vault && n.state.quote_amount
                    == a.state.quote_amount
            },
            (PoolView::SolFiV2(a), PoolView::SolFiV2(n)) => {
                let sets = data.len() >= 72;
                let word = u64_at(data, 64) as u64;
                &&& role == "base_vault"@ && sets ==> n.has_base_vault && n.state.base_amount == word
                &&& role != "base_vault"@ || !sets ==> n.has_base_vault == a.has_base_vault && n.state.base_amount
                    == a.state.base_amount
                &&& role == "quote_vault"@ && sets ==> n.has_quote_vault && n.state.quote_amount == word
                &&& role != "quote_vault"@ || !sets ==> n.has_quote_vault == a.has_quote_vault && n.state.quote_amount
                    == a.state.quote_amount
            },
            (PoolView::GoonFi(a), PoolView::GoonFi(n)) => {
                let sets = data.len() >= 72;
                let word = u64_at(data, 64) as u64;
                &&& role == "base_vault"@ && sets ==> n.has_base_vault && n.state.base_amount == word
                &&& role != "base_vault"@ || !sets ==> n.has_base_vault == a.has_base_vault && n.state.base_amount
                    == a.state.base_amount
                &&& role == "quote_vault"@ && sets ==> n.has_quote_vault && n.state.quote_amount == word
                &&& role != "quote_vault"@ || !sets ==> n.has_quote_vault == a.has_quote_vault && n.state.quote_amount
                    == a.state.quote_amount
            },
            (PoolView::TesseraV(a), PoolView::TesseraV(n)) => {
                let sets = data.len() >= 72;
                let word = u64_at(data, 64) as u64;
                &&& role == "base_vault"@ && sets ==> n.has_base_vault && n.state.base_amount == word
                &&& role != "base_vault"@ || !sets ==> n.has_base_vault == a.has_base_vault && n.state.base_amount
                    == a.state.base_amount
                &&& role == "quote_vault"@ && sets ==> n.has_quote_vault && n.state.quote_amount == word
                &&& role != "quote_vault"@ || !sets ==> n.has_quote_vault == a.has_quote_vault && n.state.quote_amount
                    == a.state.quote_amount
            },
            (PoolView::ZeroFi(a), PoolView::ZeroFi(n)) => {
                let sets = data.len() >= 72;
                let word = u64_at(data, 64) as u64;
                &&& role == "base_vault"@ && sets ==> n.has_base_vault && n.state.base_vault_balance == word
                &&& role != "base_vault"@ || !sets ==> n.has_base_vault == a.has_base_vault && n.state.base_vault_balance
                    == a.state.base_vault_balance
                &&& role == "quote_vault"@ && sets ==> n.has_quote_vault && n.state.quote_vault_balance == word
                &&& role != "quote_vault"@ || !sets ==> n.has_quote_vault == a.has_quote_vault && n.state.quote_vault_balance
                    == a.state.quote_vault_balance
            },
            (PoolView::RaydiumClmm(a), PoolView::RaydiumClmm(n)) => true,
            (PoolView::OrcaClmm(a), PoolView::OrcaClmm(n)) => true,
            _ => false,
        },
{
    lemma_updated(p, role, data, slot);
    match p {
        PoolView::Humidifi(x) => lemma_humidifi_updated(x, role, data, slot),
        PoolView::AlphaQ(x) => lemma_alphaq_updated(x, role, data),
        PoolView::BisonFi(x) => lemma_bisonfi_updated(x, role, data),
        PoolView::SolFiV2(x) => lemma_solfiv2_updated(x, role, data),
        PoolView::GoonFi(x) => lemma_goonfi_updated(x, role, data),
        PoolView::TesseraV(x) => lemma_tesserav_updated(x, role, data),
        PoolView::ZeroFi(x) => lemma_zerofi_updated(x, role, data),
        _ => {},
    }
}

/// Whether a pool keeps its tokens in two vaults that are recorded.
pub open spec fn has_vaults(p: PoolView) -> bool {
    !(p is RaydiumClmm) && !(p is OrcaClmm)
}

/// Whether a pool counts its balances as known also where a vault is empty.
pub open spec fn shows_balances(p: PoolView, base: int, quote: int) -> bool {
    p is ZeroFi ==> base > 0 && quote > 0
}

/// The balances of a pool are those of the accounts of its two vaults that were
/// seen last, whatever was known before and whichever came first.
pub proof fn law_balances_are_those_of_the_vaults(
    p: PoolView,
    base: Seq<u8>,
    quote: Seq<u8>,
    slot_1: u64,
    slot_2: u64,
)
    requires
        has_vaults(p),
        base.len() >= 72,
        quote.len() >= 72,
        shows_balances(p, u64_at(base, 64), u64_at(quote, 64)),
    ensures
        p.updated("base_vault"@, base, slot_1).updated("quote_vault"@, quote, slot_2).balances() == Some(
            (u64_at(base, 64) as u64, u64_at(quote, 64) as u64),
        ),
        p.updated("quote_vault"@, quote, slot_1).updated("base_vault"@, base, slot_2).balances() == Some(
            (u64_at(base, 64) as u64, u64_at(quote, 64) as u64),
        ),
{
    lemma_roles_differ();
    let p_1 = p.updated("base_vault"@, base, slot_1);
    let p_2 = p.updated("quote_vault"@, quote, slot_1);
    lemma_pool_updated(p, "base_vault"@, base, slot_1);
    lemma_pool_updated(p_1, "quote_vault"@, quote, slot_2);
    lemma_pool_updated(p, "quote_vault"@, quote, slot_1);
    lemma_pool_updated(p_2, "base_vault"@, base, slot_2);
}

/// An account of one vault sets that vault's balance and leaves the other's.
pub proof fn law_vault_account_sets_its_balance(p: PoolView, b: (u64, u64), data: Seq<u8>, slot: u64)
    requires
        has_vaults(p),
        p.balances() == Some(b),
        data.len() >= 72,
        shows_balances(p, u64_at(data, 64), u64_at(data, 64)),
    ensures
        p.updated("base_vault"@, data, slot).balances() == Some((u64_at(data, 64) as u64, b.1)),
        p.updated("quote_vault"@, data, slot).balances() == Some((b.0, u64_at(data, 64) as u64)),
{
    lemma_roles_differ();
    lemma_pool_updated(p, "base_vault"@, data, slot);
    lemma_pool_updated(p, "quote_vault"@, data, slot);
}

/// No account but those of the vaults touches the balances, and neither does
/// one of a vault that is too short to hold a balance.
pub proof fn law_other_accounts_leave_the_balances(p: PoolView, role: Seq<char>, data: Seq<u8>, slot: u64)
    requires
        role != "base_vault"@ && role != "quote_vault"@ || data.len() < 72,
    ensures
        p.updated(role, data, slot).balances() == p.balances(),
{
    lemma_pool_updated(p, role, data, slot);
}

/// Balances that were known stay known, but where a vault of a pool that does
/// not count empty vaults runs empty.
pub proof fn law_known_balances_stay_known(p: PoolView, role: Seq<char>, data: Seq<u8>, slot: u64)
    requires
        p.balances() is Some,
        !(p is ZeroFi),
    ensures
        p.updated(role, data, slot).balances() is Some,
{
    lemma_pool_updated(p, role, data, slot);
}

/// A pool that was ready stays ready with whatever account comes next, but where
/// readiness rests on what the accounts hold.
pub proof fn law_ready_pool_stays_ready(p: PoolView, role: Seq<char>, data: Seq<u8>, slot: u64)
    requires
        p.ready(),
        has_vaults(p),
        p is Humidifi ==> role != "pool"@ && role != "base_vault"@ && role != "quote_vault"@,
    ensures
        p.updated(role, data, slot).ready(),
{
    lemma_updated(p, role, data, slot);
    match p {
        PoolView::Humidifi(x) => lemma_humidifi_updated(x, role, data, slot),
        PoolView::AlphaQ(x) => lemma_alphaq_updated(x, role, data),
        PoolView::BisonFi(x) => lemma_bisonfi_updated(x, role, data),
        PoolView::SolFiV2(x) => lemma_solfiv2_updated(x, role, data),
        PoolView::GoonFi(x) => lemma_goonfi_updated(x, role, data),
        PoolView::TesseraV(x) => lemma_tesserav_updated(x, role, data),
        PoolView::ZeroFi(x) => lemma_zerofi_updated(x, role, data),
        _ => {},
    }
}

/// The account of a SolFi V2 pool, whatever was known before, sets what it
/// holds and nothing of the oracle, the spread or the vaults.
pub proof fn law_solfiv2_pool_account(p: SolFiV2Replay, d: Seq<u8>)
    requires
        d.len() >= 0x550,
    ensures
        ({
            let s = p.updated("pool"@, d).state;
            &&& p.updated("pool"@, d).has_pool
            &&& s.pool_last_slot == u64_at(d, 0x10)
            &&& s.vault_adj_mult == u64_at(d, 0x510)
            &&& s.divisor2 == u64_at(d, 0x518)
            &&& s.correction_threshold == u64_at(d, 0x508)
            &&& s.oracle_thresh == u64_at(d, 0x538)
            &&& s.correction_cap_neg == u64_at(d, 0x520)
            &&& s.correction_cap_pos == u64_at(d, 0x528)
            &&& s.max_fee == u64_at(d, 0x530)
            &&& s.pool_adj_slot == u64_at(d, 0x548)
            &&& s.pool_stored_oracle == u64_at(d, 0x2d0)
            &&& s.effective_level == u32_at(d, 0x504)
            &&& s.s4_flag_raw == u32_at(d, 0x500)
            &&& s.oracle_price == p.state.oracle_price
            &&& s.oracle_update_slot == p.state.oracle_update_slot
            &&& s.divisor == p.state.divisor
            &&& s.base_spread == p.state.base_spread
        }),
{
    reveal(SolFiV2Replay::updated);
}

/// The oracle's account, whatever was known before, sets the price: the last
/// one seen counts. It touches nothing of the pool's own account.
pub proof fn law_solfiv2_last_oracle_counts(p: SolFiV2Replay, earlier: Seq<u8>, d: Seq<u8>)
    ensures
        p.updated("oracle"@, earlier).updated("oracle"@, d) == p.updated("oracle"@, d),
        p.updated("oracle"@, d).has_oracle,
        p.updated("oracle"@, d).state.max_fee == p.state.max_fee,
        p.updated("oracle"@, d).state.pool_last_slot == p.state.pool_last_slot,
        p.updated("oracle"@, d).state.oracle_current_0x18 == u64_at(d, 0x18),
        p.updated("orderbook"@, earlier).updated("orderbook"@, d) == p.updated("orderbook"@, d),
{
    reveal(SolFiV2Replay::updated);
    lemma_roles_differ();
}

/// Of two accounts of one kind that a GoonFi pool shows, the last counts.
pub proof fn law_goonfi_last_account_counts(p: GoonFiReplay, earlier: Seq<u8>, d: Seq<u8>)
    ensures
        d.len() >= 0x800 ==> p.updated("pool"@, earlier).updated("pool"@, d) == p.updated("pool"@, d),
        d.len() >= 0x18 ==> p.updated("oracle"@, earlier).updated("oracle"@, d) == p.updated("oracle"@, d),
{
    reveal(GoonFiReplay::updated);
    lemma_roles_differ();
}

/// The accounts of a GoonFi pool set what they hold, whatever was known before:
/// the oracle's the prices, the market's the rest, neither touching the other.
pub proof fn law_goonfi_accounts(p: GoonFiReplay, d: Seq<u8>)
    ensures
        d.len() >= 0x800 ==> {
            let s = p.updated("pool"@, d).state;
            &&& p.updated("pool"@, d).has_pool
            &&& s.position_b2q == u64_at(d, 0x10)
            &&& s.position_q2b == u64_at(d, 0x18)
            &&& s.slot_a == u64_at(d, 0x20)
            &&& s.slot_b == u64_at(d, 0x28)
            &&& s.fee_base == u64_at(d, 0x190)
            &&& s.fee_multiplier == d[0x699]
            &&& s.vault_threshold == u64_at(d, 0x660)
            &&& s.vault_scale == u64_at(d, 0x670)
            &&& s.stale_vault_threshold == u64_at(d, 0x678)
            &&& s.vault_scale_high == u64_at(d, 0x680)
            &&& s.vault_scale_pw == u64_at(d, 0x688)
            &&& s.vault_reference == u64_at(d, 0x690)
            &&& s.bid_price == p.state.bid_price
            &&& s.ask_price == p.state.ask_price
            &&& s.oracle_slot == p.state.oracle_slot
            &&& s.spread_param == p.state.spread_param
        },
        d.len() >= 0x18 ==> {
            let s = p.updated("oracle"@, d).state;
            &&& p.updated("oracle"@, d).has_oracle
            &&& s.bid_price == u64_at(d, 0)
            &&& s.ask_price == u64_at(d, 8)
            &&& s.oracle_slot == u32_at(d, 0x10)
            &&& s.spread_param == u32_at(d, 0x14)
            &&& s.fee_base == p.state.fee_base
            &&& s.vault_reference == p.state.vault_reference
            &&& s.position_b2q == p.state.position_b2q
            &&& s.position_q2b == p.state.position_q2b
        },
{
    reveal(GoonFiReplay::updated);
    lemma_roles_differ();
}

/// The market account of an AlphaQ pool sets what it holds, whatever was known
/// before; of two such accounts the last counts.
pub proof fn law_alphaq_market_account(p: AlphaQReplay, earlier: Seq<u8>, d: Seq<u8>)
    requires
        d.len() >= 0x1f0,
    ensures
        p.updated("pool"@, earlier).updated("pool"@, d) == p.updated("pool"@, d),
        ({
            let s = p.updated("pool"@, d).state;
            &&& p.updated("pool"@, d).has_pool
            &&& s.mint_a_decimals == d[0x6a]
            &&& s.mint_b_decimals == d[0x6b]
            &&& s.l == u64_at(d, 0x168)
            &&& s.q_flat == u64_at(d, 0x198)
            &&& s.p == u64_at(d, 0x1a8)
            &&& s.qq == u64_at(d, 0x1b0)
            &&& s.qb == u64_at(d, 0x1b8)
            &&& s.d == u64_at(d, 0x1d0)
            &&& s.f == u64_at(d, 0x1d8)
            &&& s.scale2 == u64_at(d, 0x1e0)
            &&& s.k == u64_at(d, 0x1e8)
        }),
{
    reveal(AlphaQReplay::updated);
}

/// The account of a Tessera V pool sets the prices and the fee, whatever was
/// known before; of two such accounts the last counts.
pub proof fn law_tesserav_pool_account(p: TesseraVReplay, earlier: Seq<u8>, d: Seq<u8>)
    requires
        d.len() >= 0x298,
    ensures
        p.updated("pool"@, earlier).updated("pool"@, d) == p.updated("pool"@, d),
        ({
            let s = p.updated("pool"@, d).state;
            &&& p.updated("pool"@, d).has_pool
            &&& s.fee_bps == u16_at(d, 0x10)
            &&& s.fp_b2q == u64_at(d, 0x80)
            &&& s.fp_q2b == u64_at(d, 0x90)
            &&& u64_at(d, 0) == 0 ==> s.b2q_position == u64_at(d, 8) && s.q2b_position == u64_at(d, 0x278)
        }),
{
    reveal(TesseraVReplay::updated);
    if u64_at(d, 0) == 0 {
        assert(super::tesserav::converted(0, u64_at(d, 0x90)) == 0);
    }
}

/// The account of a Humidifi pool replaces the parameters, whatever was known
/// before; of two such accounts the last counts. Too short an account changes
/// none.
pub proof fn law_humidifi_pool_account(p: HumidifiReplay, earlier: Seq<u8>, d: Seq<u8>, slot_1: u64, slot_2: u64)
    ensures
        d.len() >= 0x6c0 ==> p.updated("pool"@, earlier, slot_1).updated("pool"@, d, slot_2) == p.updated(
            "pool"@,
            d,
            slot_2,
        ) && p.updated("pool"@, d, slot_2).has_pool,
        d.len() < 0x6c0 ==> p.updated("pool"@, d, slot_2).state == p.state,
        p.updated("pool"@, d, slot_2).last_slot == slot_2,
{
    reveal(HumidifiReplay::updated);
}

/// The account of a BisonFi pool sets what it holds, whatever was known before.
/// One without the mark of such an account, or too short, changes nothing.
pub proof fn law_bisonfi_pool_account(p: BisonFiReplay, d: Seq<u8>)
    ensures
        d.len() < 0x347 || d.take(8) != seq![0x50u8, 0x4f, 0x4f, 0x4c, 0x53, 0x54, 0x41, 0x54] ==> p.updated(
            "pool"@,
            d,
        ) == p,
        d.len() >= 0x347 && d.take(8) == seq![0x50u8, 0x4f, 0x4f, 0x4c, 0x53, 0x54, 0x41, 0x54] ==> {
            let s = p.updated("pool"@, d).state;
            &&& p.updated("pool"@, d).has_pool
            &&& s.version == u64_at(d, 8)
            &&& s.base_reserve == u64_at(d, 0x30)
            &&& s.quote_reserve == u64_at(d, 0x38)
            &&& s.fp_val == u64_at(d, 0x40)
            &&& s.pool_slot == u64_at(d, 0x48)
            &&& s.decimal_scale == u64_at(d, 0x1d0)
            &&& s.fee_mult_b2q == u16_at(d, 0x1e0)
            &&& s.fee_mult_q2b == u16_at(d, 0x1e2)
            &&& s.slot_penalty_mult == u16_at(d, 0x20a)
            &&& s.last_interaction_slot == u64_at(d, 0x2b0)
            &&& u64_at(d, 8) >= 3 ==> s.v3.fp_hi_u64 == u64_at(d, 0x340) && s.v3.fp_lo == u64_at(d, 0x348)
                && s.v3.fee_b2q == u16_at(d, 0x354) && s.v3.fee_q2b == u16_at(d, 0x356)
        },
{
    reveal(BisonFiReplay::updated);
}

/// The account of a ZeroFi pool sets the prices and fees, whatever was known
/// before. Too short an account leaves them.
pub proof fn law_zerofi_pool_account(p: ZeroFiReplay, d: Seq<u8>)
    ensures
        p.updated("pool"@, d).has_pool,
        d.len() <= 0xb70 ==> p.updated("pool"@, d).state == p.state,
        d.len() > 0xb70 ==> {
            let s = p.updated("pool"@, d).state;
            &&& s.oracle_bid_raw == u64_at(d, 0xb60)
            &&& s.oracle_ask_raw == u64_at(d, 0xb68)
            &&& s.fee_denom == u64_at(d, 0x388)
            &&& s.fee_threshold == u64_at(d, 0x360)
            &&& s.fee_threshold_2 == u64_at(d, 0x368)
            &&& s.max_slot_diff == u32_at(d, 0x358)
            &&& d.len() > 0xbd0 ==> s.pool_slot == u64_at(d, 0xbc8)
            &&& s.extra_a_fee == p.state.extra_a_fee
            &&& s.extra_b_fee == p.state.extra_b_fee
        },
{
    reveal(ZeroFiReplay::updated);
}

/// Whether an input is the whole number of tokens that `worth` buys at a price.
pub open spec fn is_worth(input: int, worth: int, price: int) -> bool {
    input * price <= worth < (input + 1) * price
}

proof fn lemma_is_worth(worth: int, price: int)
    requires
        0 <= worth,
        0 < price,
    ensures
        is_worth(worth / price, worth, price),
        0 <= worth / price,
{
    vstd::arithmetic::div_mod::lemma_fundamental_div_mod(worth, price);
    vstd::arithmetic::div_mod::lemma_div_pos_is_pos(worth, price);
    let q = worth / price;
    assert(q * price <= worth < (q + 1) * price) by (nonlinear_arith)
        requires
            worth == price * q + worth % price,
            0 <= worth % price < price,
    ;
}

/// Whether a row sells the quote tokens that a size is worth, a millionth of a
/// dollar each.
pub open spec fn spends_the_size(row: Option<Quote>, tier: TierInput) -> bool {
    &&& row is Some
    &&& tier.micro_usd <= u64::MAX ==> row->0.input == tier.micro_usd
    &&& tier.micro_usd > u64::MAX ==> row->0.input == u64::MAX
}

/// The rows of a trade size are of that size: one spends as many quote tokens,
/// and the other as many base tokens as the size is worth at the oracle's
/// price. Without a price there is no row from base tokens.
#[verifier::spinoff_prover]
#[verifier::rlimit(40)]
pub proof fn law_solfiv2_rows_are_of_their_size(p: SolFiV2Replay, slot: int, tier: TierInput, q: TierQuotes)
    requires
        p.ready(),
        p.tier_quotes(slot, tier) == Some(q),
    ensures
        spends_the_size(q.q2b, tier),
        q.b2q is Some <==> p.state.oracle_price > 0 && p.state.divisor > 0,
        q.b2q matches Some(x) ==> fits_u64(tier.micro_usd * p.state.divisor / p.state.oracle_price as int) ==> is_worth(
            x.input as int,
            tier.micro_usd * p.state.divisor,
            p.state.oracle_price as int,
        ),
{
    reveal(SolFiV2Replay::tier_quotes);
    if p.state.oracle_price > 0 {
        assert(tier.micro_usd * p.state.divisor >= 0) by (nonlinear_arith);
        lemma_is_worth(tier.micro_usd * p.state.divisor, p.state.oracle_price as int);
    }
}

/// The rows of a trade size are of that size: one spends as many quote tokens,
/// and the other as many base tokens as the size is worth at the bid. Without a
/// bid there is no row from base tokens.
#[verifier::spinoff_prover]
#[verifier::rlimit(40)]
pub proof fn law_goonfi_rows_are_of_their_size(p: GoonFiReplay, slot: int, tier: TierInput, q: TierQuotes)
    requires
        p.ready(),
        p.tier_quotes(slot, tier) == Some(q),
    ensures
        spends_the_size(q.q2b, tier),
        q.b2q is Some <==> p.state.bid_price > 0,
        q.b2q matches Some(x) ==> fits_u64(tier.micro_usd * p.state.price_scale / p.state.bid_price as int)
            ==> is_worth(x.input as int, tier.micro_usd * p.state.price_scale, p.state.bid_price as int),
{
    reveal(GoonFiReplay::tier_quotes);
    if p.state.bid_price > 0 {
        assert(tier.micro_usd * p.state.price_scale >= 0) by (nonlinear_arith);
        lemma_is_worth(tier.micro_usd * p.state.price_scale, p.state.bid_price as int);
    }
}

/// The rows of a trade size are of that size: one spends as many quote tokens,
/// and the other as many base tokens as the size is worth at the pool's rate,
/// none without a rate.
#[verifier::spinoff_prover]
#[verifier::rlimit(40)]
pub proof fn law_tesserav_rows_are_of_their_size(p: TesseraVReplay, tier: TierInput, q: TierQuotes)
    requires
        p.ready(),
        p.tier_quotes(tier) == Some(q),
    ensures
        spends_the_size(q.q2b, tier),
        q.b2q is Some,
        p.state.fp_b2q == 0 ==> q.b2q->0.input == 0,
        p.state.fp_b2q > 0 && fits_u64(tier.usd_e21 as int / p.state.fp_b2q as int) ==> is_worth(
            q.b2q->0.input as int,
            tier.usd_e21 as int,
            p.state.fp_b2q as int,
        ),
{
    reveal(TesseraVReplay::tier_quotes);
    if p.state.fp_b2q > 0 {
        lemma_is_worth(tier.usd_e21 as int, p.state.fp_b2q as int);
    }
}

/// The rows of a trade size are of that size: one spends as many quote tokens,
/// and the other the base tokens that the size is worth, if any.
#[verifier::spinoff_prover]
#[verifier::rlimit(40)]
pub proof fn law_zerofi_rows_are_of_their_size(p: ZeroFiReplay, slot: int, tier: TierInput, q: TierQuotes)
    requires
        p.ready(),
        p.tier_quotes(slot, tier) == Some(q),
    ensures
        spends_the_size(q.q2b, tier),
        q.b2q is Some <==> tier.base_amount is Some,
        q.b2q matches Some(x) ==> Some(x.input) == tier.base_amount,
{
    reveal(ZeroFiReplay::tier_quotes);
}

/// The rows of a trade size are of that size, where there are any: one spends
/// as many quote tokens, the other the base tokens that the size is worth.
#[verifier::spinoff_prover]
#[verifier::rlimit(40)]
pub proof fn law_humidifi_rows_are_of_their_size(p: HumidifiReplay, slot: int, tier: TierInput, q: TierQuotes)
    requires
        p.ready(),
        p.tier_quotes(slot, tier) == Some(q),
    ensures
        q.q2b is Some ==> spends_the_size(q.q2b, tier),
        q.b2q matches Some(x) ==> Some(x.input) == tier.base_amount,
        tier.base_amount is None ==> q == (TierQuotes { b2q: None, q2b: None }),
        tier.base_amount is Some && tier.micro_usd > 0 ==> (q.q2b is Some <==> p.single(
            (if tier.micro_usd <= u64::MAX {
                tier.micro_usd as int
            } else {
                u64::MAX as int
            }),
            "Q2B"@,
            slot,
        )->0 is Some),
        tier.base_amount is Some && tier.base_amount->0 > 0 ==> (q.b2q is Some <==> p.single(
            tier.base_amount->0 as int,
            "B2Q"@,
            slot,
        )->0 is Some),
{
    reveal(HumidifiReplay::tier_quotes);
    reveal(HumidifiReplay::single);
    lemma_directions_differ();
}

/// The rows of a trade size are of that size: one spends as many quote tokens,
/// and the other the base tokens that the size is worth, at the pool's own rate
/// before the third version.
#[verifier::spinoff_prover]
#[verifier::rlimit(60)]
pub proof fn law_bisonfi_rows_are_of_their_size(p: BisonFiReplay, slot: int, tier: TierInput, q: TierQuotes)
    requires
        p.ready(),
        p.tier_quotes(slot, tier) == Some(q),
    ensures
        spends_the_size(q.q2b, tier),
        q.b2q is Some,
        p.state.version >= 3 ==> q.b2q->0.input == (match tier.base_amount {
            Some(b) => b,
            None => 0,
        }),
        p.state.version < 3 && p.state.fp_val > 0 && fits_u64(
            tier.micro_usd * p.state.decimal_scale * 0x1_0000_0000_0000 / p.state.fp_val as int,
        ) ==> is_worth(
            q.b2q->0.input as int,
            tier.micro_usd * p.state.decimal_scale * 0x1_0000_0000_0000,
            p.state.fp_val as int,
        ),
{
    reveal(BisonFiReplay::tier_quotes);
    if p.state.fp_val > 0 {
        assert(tier.micro_usd * p.state.decimal_scale >= 0) by (nonlinear_arith);
        lemma_is_worth(
            tier.micro_usd * p.state.decimal_scale * 0x1_0000_0000_0000,
            p.state.fp_val as int,
        );
    }
}

/// The rows of a trade size are of that size. The pool prices in the other
/// token: its first row spends as many tokens as the size has millionths of a
/// dollar, and its second as many as these are worth at the pool's price.
#[verifier::spinoff_prover]
#[verifier::rlimit(40)]
pub proof fn law_alphaq_rows_are_of_their_size(p: AlphaQReplay, tier: TierInput, q: TierQuotes, scale: int)
    requires
        p.ready(),
        p.tier_quotes(tier) == Some(q),
        p.state.price_scale() == Some(scale),
    ensures
        spends_the_size(q.b2q, tier),
        q.q2b is Some <==> p.state.p > 0,
        q.q2b matches Some(x) ==> fits_u64(tier.micro_usd * scale / p.state.p as int) ==> is_worth(
            x.input as int,
            tier.micro_usd * scale,
            p.state.p as int,
        ),
{
    reveal(AlphaQReplay::tier_quotes);
    if p.state.p > 0 {
        assert(tier.micro_usd * scale >= 0) by (nonlinear_arith)
            requires
                scale >= 0,
        ;
        lemma_is_worth(tier.micro_usd * scale, p.state.p as int);
    }
}

/// A single quote pays out of the vault of the other token and never more than
/// that holds: quote tokens for base tokens, and base tokens for quote tokens.
pub proof fn law_single_quote_is_paid_from_the_other_vault(p: PoolView, b: (u64, u64), amount: int, slot: int)
    requires
        p is SolFiV2 || p is ZeroFi,
        p.balances() == Some(b),
    ensures
        p.single(amount, "B2Q"@, slot) matches Some(Some(x)) ==> x <= b.1,
        p.single(amount, "Q2B"@, slot) matches Some(Some(x)) ==> x <= b.0,
{
    reveal(PoolView::single);
    reveal(SolFiV2Replay::single);
    reveal(ZeroFiReplay::single);
    lemma_directions_differ();
    match p {
        PoolView::SolFiV2(s) => {
            if s.state.quote(amount, true, slot) is Some {
                super::solfiv2::quote::law_quote_within_vault(s.state, amount, true, slot);
            }
            if s.state.quote(amount, false, slot) is Some {
                super::solfiv2::quote::law_quote_within_vault(s.state, amount, false, slot);
            }
        },
        PoolView::ZeroFi(s) => {
            if s.state.quote(amount, true, slot) is Some {
                s.state.law_quote_within_vault(amount, true, slot);
            }
            if s.state.quote(amount, false, slot) is Some {
                s.state.law_quote_within_vault(amount, false, slot);
            }
        },
        _ => {},
    }
}

/// The name under which a pool's single quotes answer for its rows of a
/// direction: its own, but for a pool that names directions by what it gives.
pub open spec fn asked_as(p: PoolView, direction: Seq<char>) -> Seq<char> {
    if !(p is AlphaQ) {
        direction
    } else if direction == "B2Q"@ {
        "Q2B"@
    } else {
        "B2Q"@
    }
}

/// Whether a pool quotes single trades as it quotes trade sizes: every pool
/// with vaults does, but for a BisonFi pool of a later version that is empty or
/// out of date.
pub open spec fn quotes_alike(p: PoolView, slot: int) -> bool {
    &&& has_vaults(p)
    &&& p matches PoolView::BisonFi(b) ==> b.state.version < 3 || {
        &&& b.state.base_amount > 0
        &&& b.state.quote_amount > 0
        &&& b.state.decimal_scale > 0
        &&& slot <= b.state.pool_slot + 100
    }
}

/// A row of a trade size agrees with the single quote of its own input and
/// direction, whatever the pool.
pub proof fn law_rows_agree_with_single_quotes(p: PoolView, slot: int, tier: TierInput, q: TierQuotes)
    requires
        p.ready(),
        quotes_alike(p, slot),
        p.tier_quotes(slot, tier) == Some(q),
    ensures
        agrees(q.b2q, p.single(q.b2q->0.input as int, asked_as(p, "B2Q"@), slot)),
        agrees(q.q2b, p.single(q.q2b->0.input as int, asked_as(p, "Q2B"@), slot)),
{
    reveal(PoolView::single);
    reveal(PoolView::tier_quotes);
    lemma_directions_differ();
    match p {
        PoolView::Humidifi(x) => law_humidifi_rows_agree_with_single_quotes(x, slot, tier, q),
        PoolView::AlphaQ(x) => law_alphaq_rows_agree_with_single_quotes(x, tier, q),
        PoolView::BisonFi(x) => law_bisonfi_rows_agree_with_single_quotes(x, slot, tier, q),
        PoolView::SolFiV2(x) => law_solfiv2_rows_agree_with_single_quotes(x, slot, tier, q),
        PoolView::GoonFi(x) => law_goonfi_rows_agree_with_single_quotes(x, slot, tier, q),
        PoolView::TesseraV(x) => law_tesserav_rows_agree_with_single_quotes(x, tier, q),
        PoolView::ZeroFi(x) => law_zerofi_rows_agree_with_single_quotes(x, slot, tier, q),
        _ => {},
    }
}

/// A pool with vaults that is not ready gives no rows, and one that is ready
/// gives rows of the size asked for: a row that spends quote tokens spends the
/// size, and one that spends the base tokens of the size spends those.
#[verifier::spinoff_prover]
#[verifier::rlimit(60)]
pub proof fn law_rows_are_of_their_size(p: PoolView, slot: int, tier: TierInput, q: TierQuotes)
    requires
        p.tier_quotes(slot, tier) == Some(q),
    ensures
        has_vaults(p) && !(p is Humidifi) && !p.ready() ==> q == (TierQuotes { b2q: None, q2b: None }),
        p.ready() && !(p is AlphaQ) && q.q2b is Some ==> spends_the_size(q.q2b, tier),
        p.ready() && p is AlphaQ && q.b2q is Some ==> spends_the_size(q.b2q, tier),
        p.ready() && (p is ZeroFi || p is Humidifi || !has_vaults(p)) && q.b2q is Some ==> tier.base_amount == Some(
            q.b2q->0.input,
        ),
        !has_vaults(p) ==> (q.b2q matches Some(x) ==> x.output > 0) && (q.q2b matches Some(x) ==> x.output > 0),
{
    reveal(PoolView::tier_quotes);
    match p {
        PoolView::Humidifi(x) => {
            reveal(HumidifiReplay::tier_quotes);
        },
        PoolView::AlphaQ(x) => {
            reveal(AlphaQReplay::tier_quotes);
        },
        PoolView::BisonFi(x) => {
            if x.ready() {
                law_bisonfi_rows_are_of_their_size(x, slot, tier, q);
            } else {
                lemma_bisonfi_not_ready(x, slot, tier, q);
            }
        },
        PoolView::SolFiV2(x) => {
            reveal(SolFiV2Replay::tier_quotes);
        },
        PoolView::GoonFi(x) => {
            reveal(GoonFiReplay::tier_quotes);
        },
        PoolView::TesseraV(x) => {
            reveal(TesseraVReplay::tier_quotes);
        },
        PoolView::ZeroFi(x) => {
            reveal(ZeroFiReplay::tier_quotes);
        },
        PoolView::RaydiumClmm(x) => {
            reveal(super::raydium_clmm::RaydiumView::tier_quotes);
        },
        PoolView::OrcaClmm(x) => {
            reveal(super::orca_clmm::OrcaView::tier_quotes);
        },
    }
}

#[verifier::spinoff_prover]
proof fn lemma_bisonfi_not_ready(p: BisonFiReplay, slot: int, tier: TierInput, q: TierQuotes)
    requires
        !p.ready(),
        p.tier_quotes(slot, tier) == Some(q),
    ensures
        q == (TierQuotes { b2q: None, q2b: None }),
{
    reveal(BisonFiReplay::tier_quotes);
}

/// A pool that is out of date in a slot pays nothing for a single trade in it.
#[verifier::spinoff_prover]
#[verifier::rlimit(60)]
pub proof fn law_stale_pools_pay_nothing(p: PoolView, amount: int, direction: Seq<char>, slot: int)
    requires
        match p {
            PoolView::SolFiV2(x) => slot > x.state.pool_last_slot + 1000 || slot > x.state.oracle_update_slot + 1000,
            PoolView::BisonFi(x) => x.state.version < 3 && slot > x.state.pool_slot + 100,
            PoolView::ZeroFi(x) => x.state.pool_slot > 0 && x.state.max_slot_diff > 0 && slot >= x.state.pool_slot
                + x.state.max_slot_diff,
            PoolView::Humidifi(x) => slot > x.state.params.valid_thresh + x.state.params.last_update,
            _ => false,
        },
    ensures
        p.single(amount, direction, slot) == Some(None::<u64>),
{
    reveal(PoolView::single);
    match p {
        PoolView::SolFiV2(x) => {
            reveal(SolFiV2Replay::single);
        },
        PoolView::BisonFi(x) => {
            reveal(BisonFiReplay::single);
        },
        PoolView::ZeroFi(x) => {
            reveal(ZeroFiReplay::single);
        },
        PoolView::Humidifi(x) => {
            reveal(HumidifiReplay::single);
        },
        _ => {},
    }
}

/// The accounts that a kind of pool waits for.
pub open spec fn awaits(p: PoolView, role: Seq<char>) -> bool {
    ||| role == "pool"@
    ||| role == "quote_vault"@ && has_vaults(p)
    ||| role == "base_vault"@ && has_vaults(p) && !(p is GoonFi)
    ||| role == "oracle"@ && (p is SolFiV2 || p is GoonFi)
}

proof fn lemma_waits(p: PoolView, updates: Seq<UpdateView>, j: int, role: Seq<char>)
    requires
        0 <= j <= updates.len(),
        awaits(p, role),
        forall|i: int| 0 <= i < j ==> (#[trigger] updates[i]).account_role != role,
        lacks(p, role),
    ensures
        lacks(pool_after(p, updates, 0, j), role),
    decreases j,
{
    if j > 0 {
        lemma_waits(p, updates, j - 1, role);
        let q = pool_after(p, updates, 0, j - 1);
        let u = updates[j - 1];
        lemma_roles_differ();
        lemma_updated(q, u.account_role, u.account_data, u.slot);
        match q {
            PoolView::Humidifi(x) => lemma_humidifi_updated(x, u.account_role, u.account_data, u.slot),
            PoolView::AlphaQ(x) => lemma_alphaq_updated(x, u.account_role, u.account_data),
            PoolView::BisonFi(x) => lemma_bisonfi_updated(x, u.account_role, u.account_data),
            PoolView::SolFiV2(x) => lemma_solfiv2_updated(x, u.account_role, u.account_data),
            PoolView::GoonFi(x) => lemma_goonfi_updated(x, u.account_role, u.account_data),
            PoolView::TesseraV(x) => lemma_tesserav_updated(x, u.account_role, u.account_data),
            PoolView::ZeroFi(x) => lemma_zerofi_updated(x, u.account_role, u.account_data),
            PoolView::RaydiumClmm(x) => {
                reveal(super::raydium_clmm::RaydiumView::updated);
            },
            PoolView::OrcaClmm(x) => {
                reveal(super::orca_clmm::OrcaView::updated);
            },
        }
    }
}

spec fn lacks(p: PoolView, role: Seq<char>) -> bool {
    match p {
        PoolView::Humidifi(x) => role == "pool"@ && !x.has_pool || role == "base_vault"@ && !x.has_base_vault || role
            == "quote_vault"@ && !x.has_quote_vault,
        PoolView::AlphaQ(x) => role == "pool"@ && !x.has_pool || role == "base_vault"@ && !x.has_base_vault || role
            == "quote_vault"@ && !x.has_quote_vault,
        PoolView::BisonFi(x) => role == "pool"@ && !x.has_pool || role == "base_vault"@ && !x.has_base_vault || role
            == "quote_vault"@ && !x.has_quote_vault,
        PoolView::SolFiV2(x) => role == "pool"@ && !x.has_pool || role == "base_vault"@ && !x.has_base_vault || role
            == "quote_vault"@ && !x.has_quote_vault || role == "oracle"@ && !x.has_oracle,
        PoolView::GoonFi(x) => role == "pool"@ && !x.has_pool || role == "quote_vault"@ && !x.has_quote_vault || role
            == "oracle"@ && !x.has_oracle,
        PoolView::TesseraV(x) => role == "pool"@ && !x.has_pool || role == "base_vault"@ && !x.has_base_vault || role
            == "quote_vault"@ && !x.has_quote_vault,
        PoolView::ZeroFi(x) => role == "pool"@ && !x.has_pool || role == "base_vault"@ && !x.has_base_vault || role
            == "quote_vault"@ && !x.has_quote_vault,
        PoolView::RaydiumClmm(x) => role == "pool"@ && !x.has_pool,
        PoolView::OrcaClmm(x) => role == "pool"@ && !x.has_pool,
    }
}

/// A pool is not ready before each of the accounts that it waits for was seen,
/// however many others were.
pub proof fn law_pool_waits_for_its_accounts(amm_type: Seq<char>, updates: Seq<UpdateView>, j: int, role: Seq<char>)
    requires
        0 <= j <= updates.len(),
        fresh_pool(amm_type) is Some,
        awaits(fresh_pool(amm_type)->0, role),
        forall|i: int| 0 <= i < j ==> (#[trigger] updates[i]).account_role != role,
    ensures
        !pool_after(fresh_pool(amm_type)->0, updates, 0, j).ready(),
{
    lemma_roles_differ();
    lemma_waits(fresh_pool(amm_type)->0, updates, j, role);
}

/// Whether a row says what a pool quotes for a trade size.
pub open spec fn row_quotes(p: PoolView, slot: int, tiers: Seq<TierInput>, row: QuoteRowView) -> bool {
    let q = p.tier_quotes(slot, tiers[row.tier]);
    let quote = Quote { input: row.input_amount, output: row.output_amount };
    &&& 0 <= row.tier < tiers.len()
    &&& q is Some
    &&& row.direction == "B2Q"@ && q->0.b2q == Some(quote) || row.direction == "Q2B"@ && q->0.q2b == Some(quote)
}

/// Whether a row comes before another: by its trade size, and within one size
/// base to quote first.
pub open spec fn row_precedes(a: QuoteRowView, b: QuoteRowView) -> bool {
    a.tier < b.tier || a.tier == b.tier && a.direction == "B2Q"@ && b.direction == "Q2B"@
}

/// The rows of a pool are exactly what it quotes for the trade sizes: each row
/// says such a quote, each quote has its row, and they stand in the order of the
/// sizes, none twice.
pub proof fn law_rows_list_every_quote(p: PoolView, slot: int, tiers: Seq<TierInput>, n: nat)
    requires
        n <= tiers.len(),
        p.rows(slot, tiers, n) is Some,
    ensures
        ({
            let rows = p.rows(slot, tiers, n)->0;
            &&& forall|k: int|
                0 <= k < rows.len() ==> row_quotes(p, slot, tiers, #[trigger] rows[k]) && rows[k].tier < n
            &&& forall|j: int, k: int|
                0 <= j < k < rows.len() ==> row_precedes(#[trigger] rows[j], #[trigger] rows[k])
            &&& forall|row: QuoteRowView|
                #[trigger] row_quotes(p, slot, tiers, row) && row.tier < n ==> rows.contains(row)
        }),
    decreases n,
{
    lemma_directions_differ();
    if n > 0 {
        let i = n - 1;
        law_rows_list_every_quote(p, slot, tiers, i as nat);
        let q = p.tier_quotes(slot, tiers[i])->0;
        let rest = p.rows(slot, tiers, i as nat)->0;
        let rows = p.rows(slot, tiers, n)->0;
        let more = tier_rows(q, i);
        assert(rows == rest + more);
        assert forall|k: int| 0 <= k < more.len() implies row_quotes(p, slot, tiers, #[trigger] more[k]) && more[k].tier
            == i by {}
        assert forall|k: int| 0 <= k < rows.len() implies row_quotes(p, slot, tiers, #[trigger] rows[k])
            && rows[k].tier < n by {
            if k < rest.len() {
                assert(rows[k] == rest[k]);
            } else {
                assert(rows[k] == more[k - rest.len()]);
            }
        }
        assert forall|j: int, k: int| 0 <= j < k < rows.len() implies row_precedes(#[trigger] rows[j], #[trigger] rows[k]) by {
            if k < rest.len() {
                assert(rows[j] == rest[j] && rows[k] == rest[k]);
            } else {
                assert(rows[k] == more[k - rest.len()]);
                if j < rest.len() {
                    assert(rows[j] == rest[j]);
                } else {
                    assert(rows[j] == more[j - rest.len()]);
                }
            }
        }
        assert forall|row: QuoteRowView| #[trigger] row_quotes(p, slot, tiers, row) && row.tier < n implies rows.contains(
            row,
        ) by {
            if row.tier < i {
                assert(rest.contains(row));
                let k = choose|k: int| 0 <= k < rest.len() && rest[k] == row;
                assert(rows[k] == row);
            } else {
                let k = if row.direction == "B2Q"@ {
                    0
                } else {
                    more.len() - 1
                };
                assert(more[k] == row);
                assert(rows[rest.len() + k] == row);
            }
        }
    }
}

/// Each name of a kind of pool gives a pool of that kind, and no other name
/// gives one.
pub proof fn law_each_name_has_its_pool(amm_type: Seq<char>)
    ensures
        match fresh_pool(amm_type) {
            None => true,
            Some(p) => match p {
                PoolView::Humidifi(_) => amm_type == "humidifi"@,
                PoolView::RaydiumClmm(_) => amm_type == "raydium_clmm"@,
                PoolView::OrcaClmm(_) => amm_type == "orca_clmm"@,
                PoolView::AlphaQ(_) => amm_type == "alphaq"@,
                PoolView::BisonFi(_) => amm_type == "bisonfi"@,
                PoolView::SolFiV2(_) => amm_type == "solfiv2"@,
                PoolView::GoonFi(_) => amm_type == "goonfi"@,
                PoolView::TesseraV(_) => amm_type == "tesserav"@,
                PoolView::ZeroFi(_) => amm_type == "zerofi"@,
            },
        },
        fresh_pool(amm_type) is Some <==> {
            ||| amm_type == "humidifi"@
            ||| amm_type == "raydium_clmm"@
            ||| amm_type == "orca_clmm"@
            ||| amm_type == "alphaq"@
            ||| amm_type == "bisonfi"@
            ||| amm_type == "solfiv2"@
            ||| amm_type == "goonfi"@
            ||| amm_type == "tesserav"@
            ||| amm_type == "zerofi"@
        },
        fresh_pool(amm_type) is Some ==> fresh_pool(amm_type)->0.balances() is None,
{
}

/// What a GoonFi pool pays for base tokens rests on its bid side alone, and
/// what it gives for quote tokens on its ask side alone.
#[verifier::spinoff_prover]
pub proof fn law_goonfi_sides_are_apart(s: GoonFiState, t: GoonFiState, amount: int, slot: int)
    ensures
        t == (GoonFiState {
            ask_price: t.ask_price,
            position_q2b: t.position_q2b,
            spread_q2b: t.spread_q2b,
            cum_boundaries_q2b: t.cum_boundaries_q2b,
            ..s
        }) ==> t.quote(amount, true, slot) == s.quote(amount, true, slot),
        t == (GoonFiState {
            bid_price: t.bid_price,
            position_b2q: t.position_b2q,
            spread_b2q: t.spread_b2q,
            cum_boundaries_b2q: t.cum_boundaries_b2q,
            ..s
        }) ==> t.quote(amount, false, slot) == s.quote(amount, false, slot),
{
}

/// What a Tessera V pool pays for base tokens rests on its rate, position and
/// tiers for them alone, and likewise for quote tokens.
pub proof fn law_tesserav_sides_are_apart(s: TesseraVState, t: TesseraVState, amount: int)
    ensures
        s.b2q_tiers == t.b2q_tiers && s.fp_b2q == t.fp_b2q && s.b2q_position == t.b2q_position ==> s.quote(amount, true)
            == t.quote(amount, true),
        s.q2b_tiers == t.q2b_tiers && s.fp_q2b == t.fp_q2b && s.q2b_position == t.q2b_position ==> s.quote(amount, false)
            == t.quote(amount, false),
{
}

/// A side of a GoonFi market that was traded in this slot keeps its position:
/// how fast positions decay does not count. One that was not traded for long,
/// on either side, sells by the size of the trade alone, whatever its position.
#[verifier::spinoff_prover]
#[verifier::rlimit(40)]
pub proof fn law_goonfi_fresh_side_does_not_decay(s: GoonFiState, t: GoonFiState, amount: int, slot: int)
    requires
        0 < slot,
    ensures
        s.slot_a == slot && t == (GoonFiState { vault_threshold: t.vault_threshold, ..s }) ==> s.quote(
            amount,
            true,
            slot,
        ) == t.quote(amount, true, slot),
        s.slot_b == slot && t == (GoonFiState { vault_threshold: t.vault_threshold, ..s }) ==> s.quote(
            amount,
            false,
            slot,
        ) == t.quote(amount, false, slot),
        s.slot_a != slot && s.slot_b != slot && t == (GoonFiState { position_b2q: t.position_b2q, ..s }) ==> s.quote(
            amount,
            true,
            slot,
        ) == t.quote(amount, true, slot),
{
}

/// What an AlphaQ pool gives in one direction does not rest on its quote for the
/// other.
#[verifier::spinoff_prover]
#[verifier::rlimit(40)]
pub proof fn law_alphaq_sides_are_apart(s: AlphaQState, t: AlphaQState, amount: int)
    ensures
        t == (AlphaQState { qb: t.qb, ..s }) ==> s.quote(amount, true) == t.quote(amount, true),
        t == (AlphaQState { qq: t.qq, ..s }) ==> s.quote(amount, false) == t.quote(amount, false),
{
    if t == (AlphaQState { qb: t.qb, ..s }) || t == (AlphaQState { qq: t.qq, ..s }) {
        assert(s.price_scale() == t.price_scale());
        assert(s.quad_divisor() == t.quad_divisor());
        if let (Some(scale), Some(divisor)) = (s.price_scale(), s.quad_divisor()) {
            let size = (amount * s.p) / scale;
            assert(s.inventory_premium(scale, divisor) == t.inventory_premium(scale, divisor));
            assert(s.size_premium(size, divisor) == t.size_premium(size, divisor));
            assert(s.size_premium(amount, divisor) == t.size_premium(amount, divisor));
        }
    }
}

#[verifier::spinoff_prover]
#[verifier::rlimit(60)]
proof fn lemma_bisonfi_sale_apart(s: BisonFiState, t: BisonFiState, net: int, slot_diff: int, slot: int)
    requires
        t == (BisonFiState {
            q2b_tiers: t.q2b_tiers,
            fee_base_q2b: t.fee_base_q2b,
            dynamic_fee_q2b: t.dynamic_fee_q2b,
            mult_0_q2b: t.mult_0_q2b,
            base_reserve: t.base_reserve,
            ..s
        }),
    ensures
        s.sold(net, slot_diff) == t.sold(net, slot_diff),
        s.fee_bps(true, slot) == t.fee_bps(true, slot),
{
    assert(s.sell_walk(slot_diff) == t.sell_walk(slot_diff));
    assert(s.sell_share(slot_diff) == t.sell_share(slot_diff));
}

/// What a BisonFi pool pays for base tokens rests on its tiers and fees for
/// them, and on the quote tokens that it holds in reserve, not on those of the
/// other direction.
#[verifier::spinoff_prover]
#[verifier::rlimit(40)]
pub proof fn law_bisonfi_sales_are_apart(s: BisonFiState, t: BisonFiState, amount: int, slot: int)
    requires
        s.version < 3,
        t == (BisonFiState {
            q2b_tiers: t.q2b_tiers,
            fee_base_q2b: t.fee_base_q2b,
            dynamic_fee_q2b: t.dynamic_fee_q2b,
            mult_0_q2b: t.mult_0_q2b,
            base_reserve: t.base_reserve,
            ..s
        }),
    ensures
        s.quote(amount, true, slot) == t.quote(amount, true, slot),
{
    lemma_bisonfi_sale_apart(s, t, amount, 0, slot);
    if let Some(fee) = s.fee_bps(true, slot) {
        let net = monus(amount, ceil_fee_of(fee, amount, 100_000));
        lemma_bisonfi_sale_apart(s, t, net, monus(slot, s.pool_slot as int), slot);
    }
}

#[verifier::spinoff_prover]
#[verifier::rlimit(60)]
proof fn lemma_bisonfi_purchase_apart(s: BisonFiState, t: BisonFiState, net: int, active: bool, slot_diff: int, slot: int)
    requires
        t == (BisonFiState {
            b2q_tiers: t.b2q_tiers,
            template_b2q_tiers: t.template_b2q_tiers,
            dynamic_fee_b2q: t.dynamic_fee_b2q,
            mult_0_b2q: t.mult_0_b2q,
            quote_reserve: t.quote_reserve,
            ..s
        }),
    ensures
        s.bought(net, active, slot_diff) == t.bought(net, active, slot_diff),
        s.fee_bps(false, slot) == t.fee_bps(false, slot),
{
    let walk = s.buy_walk(active, slot_diff);
    assert(walk == t.buy_walk(active, slot_diff));
    assert(s.buy_share(active, slot_diff) == t.buy_share(active, slot_diff));
    let mult_0 = s.mult_0(false, active, slot_diff);
    assert(mult_0 == t.mult_0(false, active, slot_diff));
    if let Some(rate) = walk.tier_rate(0) {
        assert(s.joined_span(walk, mult_0, rate) == t.joined_span(walk, mult_0, rate));
    }
}

/// What a BisonFi pool gives for quote tokens rests on its tiers for them and
/// on the base tokens that it holds in reserve, not on those of the other
/// direction.
#[verifier::spinoff_prover]
#[verifier::rlimit(40)]
pub proof fn law_bisonfi_purchases_are_apart(s: BisonFiState, t: BisonFiState, amount: int, slot: int)
    requires
        s.version < 3,
        t == (BisonFiState {
            b2q_tiers: t.b2q_tiers,
            template_b2q_tiers: t.template_b2q_tiers,
            dynamic_fee_b2q: t.dynamic_fee_b2q,
            mult_0_b2q: t.mult_0_b2q,
            quote_reserve: t.quote_reserve,
            ..s
        }),
    ensures
        s.quote(amount, false, slot) == t.quote(amount, false, slot),
{
    let slot_diff = monus(slot, s.pool_slot as int);
    let active = s.slot_penalty_mult * slot_diff > 0;
    lemma_bisonfi_purchase_apart(s, t, amount, active, slot_diff, slot);
    if let Some(fee) = s.fee_bps(false, slot) {
        let net = monus(amount, ceil_fee_of(fee, amount, 100_000));
        lemma_bisonfi_purchase_apart(s, t, net, active, slot_diff, slot);
    }
}

}
