//! The pools that can be replayed, each behind the same interface.
use vstd::prelude::*;

pub mod account_laws;
pub mod alphaq;
pub mod bisonfi;
pub mod clmm_math;
pub mod clmm_quotes;
pub mod goonfi;
pub mod humidifi;
pub mod laws;
pub mod orca_clmm;
pub mod quotes;
pub mod raydium_clmm;
pub mod solfiv2;
pub mod tesserav;
pub mod tick_arrays;
pub mod zerofi;

use self::alphaq::AlphaQReplay;
use self::bisonfi::BisonFiReplay;
use self::goonfi::GoonFiReplay;
use self::humidifi::HumidifiReplay;
use self::orca_clmm::{OrcaClmmReplay, OrcaView};
use self::quotes::{Quote, TierInput, TierQuotes};
use self::raydium_clmm::{RaydiumClmmReplay, RaydiumView};
use self::solfiv2::SolFiV2Replay;
use self::tesserav::TesseraVReplay;
use self::zerofi::ZeroFiReplay;
use crate::bytes::str_eq;

verus! {

/// A quote of a trade size, named by its place among the sizes.
#[derive(Debug)]
pub struct QuoteRow {
    pub direction: String,
    pub input_amount: u64,
    pub output_amount: u64,
    pub tier: usize,
}

/// What a quote says.
#[verifier::ext_equal]
pub struct QuoteRowView {
    pub direction: Seq<char>,
    pub input_amount: u64,
    pub output_amount: u64,
    pub tier: int,
}

impl View for QuoteRow {
    type V = QuoteRowView;

    open spec fn view(&self) -> QuoteRowView {
        QuoteRowView {
            direction: self.direction@,
            input_amount: self.input_amount,
            output_amount: self.output_amount,
            tier: self.tier as int,
        }
    }
}

/// What the rows of a list say.
pub open spec fn row_views(rows: Seq<QuoteRow>) -> Seq<QuoteRowView> {
    rows.map_values(|r: QuoteRow| r@)
}

/// The row of a quote, if there is one.
pub open spec fn row_of(direction: Seq<char>, quote: Option<Quote>, tier: int) -> Seq<QuoteRowView> {
    match quote {
        None => Seq::empty(),
        Some(q) => seq![
            QuoteRowView { direction, input_amount: q.input, output_amount: q.output, tier },
        ],
    }
}

/// The rows of a trade size: base to quote first.
pub open spec fn tier_rows(q: TierQuotes, tier: int) -> Seq<QuoteRowView> {
    row_of("B2Q"@, q.b2q, tier) + row_of("Q2B"@, q.q2b, tier)
}

fn push_row(rows: &mut Vec<QuoteRow>, direction: &str, quote: Option<Quote>, tier: usize)
    ensures
        row_views(final(rows)@) == row_views(old(rows)@) + row_of(direction@, quote, tier as int),
{
    if let Some(q) = quote {
        rows.push(
            QuoteRow {
                direction: direction.to_owned(),
                input_amount: q.input,
                output_amount: q.output,
                tier,
            },
        );
    }
    assert(row_views(rows@) =~= row_views(old(rows)@) + row_of(direction@, quote, tier as int));
}

/// What is known of a pool.
pub enum PoolView {
    Humidifi(HumidifiReplay),
    RaydiumClmm(RaydiumView),
    OrcaClmm(OrcaView),
    AlphaQ(AlphaQReplay),
    BisonFi(BisonFiReplay),
    SolFiV2(SolFiV2Replay),
    GoonFi(GoonFiReplay),
    TesseraV(TesseraVReplay),
    ZeroFi(ZeroFiReplay),
}

/// A pool under replay.
#[derive(Debug)]
pub enum ProtocolReplay {
    Humidifi(HumidifiReplay),
    RaydiumClmm(RaydiumClmmReplay),
    OrcaClmm(OrcaClmmReplay),
    AlphaQ(AlphaQReplay),
    BisonFi(BisonFiReplay),
    SolFiV2(SolFiV2Replay),
    GoonFi(GoonFiReplay),
    TesseraV(TesseraVReplay),
    ZeroFi(ZeroFiReplay),
}

impl View for ProtocolReplay {
    type V = PoolView;

    open spec fn view(&self) -> PoolView {
        match self {
            ProtocolReplay::Humidifi(p) => PoolView::Humidifi(*p),
            ProtocolReplay::RaydiumClmm(p) => PoolView::RaydiumClmm(p@),
            ProtocolReplay::OrcaClmm(p) => PoolView::OrcaClmm(p@),
            ProtocolReplay::AlphaQ(p) => PoolView::AlphaQ(*p),
            ProtocolReplay::BisonFi(p) => PoolView::BisonFi(*p),
            ProtocolReplay::SolFiV2(p) => PoolView::SolFiV2(*p),
            ProtocolReplay::GoonFi(p) => PoolView::GoonFi(*p),
            ProtocolReplay::TesseraV(p) => PoolView::TesseraV(*p),
            ProtocolReplay::ZeroFi(p) => PoolView::ZeroFi(*p),
        }
    }
}

impl PoolView {
    /// Whether an update of an account can be read.
    pub open spec fn accepts(self, role: Seq<char>, data: Seq<u8>) -> bool {
        match self {
            PoolView::Humidifi(p) => true,
            PoolView::RaydiumClmm(p) => p.accepts(role, data),
            PoolView::OrcaClmm(p) => p.accepts(role, data),
            PoolView::AlphaQ(p) => true,
            PoolView::BisonFi(p) => BisonFiReplay::accepts(role, data),
            PoolView::SolFiV2(p) => SolFiV2Replay::accepts(role, data),
            PoolView::GoonFi(p) => GoonFiReplay::accepts(role, data),
            PoolView::TesseraV(p) => true,
            PoolView::ZeroFi(p) => true,
        }
    }

    /// The pool after an update of an account.
    #[verifier::opaque]
    pub open spec fn updated(self, role: Seq<char>, data: Seq<u8>, slot: u64) -> Self {
        match self {
            PoolView::Humidifi(p) => PoolView::Humidifi(p.updated(role, data, slot)),
            PoolView::RaydiumClmm(p) => PoolView::RaydiumClmm(p.updated(role, data, slot)),
            PoolView::OrcaClmm(p) => PoolView::OrcaClmm(p.updated(role, data, slot)),
            PoolView::AlphaQ(p) => PoolView::AlphaQ(p.updated(role, data)),
            PoolView::BisonFi(p) => PoolView::BisonFi(p.updated(role, data)),
            PoolView::SolFiV2(p) => PoolView::SolFiV2(p.updated(role, data)),
            PoolView::GoonFi(p) => PoolView::GoonFi(p.updated(role, data)),
            PoolView::TesseraV(p) => PoolView::TesseraV(p.updated(role, data)),
            PoolView::ZeroFi(p) => PoolView::ZeroFi(p.updated(role, data)),
        }
    }

    /// Whether enough is known for quotes.
    pub open spec fn ready(self) -> bool {
        match self {
            PoolView::Humidifi(p) => p.ready(),
            PoolView::RaydiumClmm(p) => p.ready(),
            PoolView::OrcaClmm(p) => p.ready(),
            PoolView::AlphaQ(p) => p.ready(),
            PoolView::BisonFi(p) => p.ready(),
            PoolView::SolFiV2(p) => p.ready(),
            PoolView::GoonFi(p) => p.ready(),
            PoolView::TesseraV(p) => p.ready(),
            PoolView::ZeroFi(p) => p.ready(),
        }
    }

    /// The balances of the vaults, once both are known.
    pub open spec fn balances(self) -> Option<(u64, u64)> {
        match self {
            PoolView::Humidifi(p) => p.balances(),
            PoolView::RaydiumClmm(p) => None,
            PoolView::OrcaClmm(p) => None,
            PoolView::AlphaQ(p) => p.balances(),
            PoolView::BisonFi(p) => p.balances(),
            PoolView::SolFiV2(p) => p.balances(),
            PoolView::GoonFi(p) => p.balances(),
            PoolView::TesseraV(p) => p.balances(),
            PoolView::ZeroFi(p) => p.balances(),
        }
    }

    /// The amount out for an amount in. The inner option is empty where there
    /// is no quote; the outer one where a number outgrows its type.
    #[verifier::opaque]
    pub open spec fn single(self, amount: int, direction: Seq<char>, slot: int) -> Option<Option<u64>> {
        match self {
            PoolView::Humidifi(p) => p.single(amount, direction, slot),
            PoolView::RaydiumClmm(p) => Some(None),
            PoolView::OrcaClmm(p) => Some(None),
            PoolView::AlphaQ(p) => p.single(amount, direction),
            PoolView::BisonFi(p) => p.single(amount, direction, slot),
            PoolView::SolFiV2(p) => p.single(amount, direction, slot),
            PoolView::GoonFi(p) => p.single(amount, direction, slot),
            PoolView::TesseraV(p) => p.single(amount, direction),
            PoolView::ZeroFi(p) => p.single(amount, direction, slot),
        }
    }

    /// The quotes of a trade size.
    #[verifier::opaque]
    pub open spec fn tier_quotes(self, slot: int, tier: TierInput) -> Option<TierQuotes> {
        match self {
            PoolView::Humidifi(p) => p.tier_quotes(slot, tier),
            PoolView::RaydiumClmm(p) => p.tier_quotes(tier),
            PoolView::OrcaClmm(p) => p.tier_quotes(tier),
            PoolView::AlphaQ(p) => p.tier_quotes(tier),
            PoolView::BisonFi(p) => p.tier_quotes(slot, tier),
            PoolView::SolFiV2(p) => p.tier_quotes(slot, tier),
            PoolView::GoonFi(p) => p.tier_quotes(slot, tier),
            PoolView::TesseraV(p) => p.tier_quotes(tier),
            PoolView::ZeroFi(p) => p.tier_quotes(slot, tier),
        }
    }

    /// The rows of the first `n` trade sizes.
    pub open spec fn rows(self, slot: int, tiers: Seq<TierInput>, n: nat) -> Option<Seq<QuoteRowView>>
        decreases n,
    {
        if n == 0 {
            Some(Seq::empty())
        } else {
            let i = n - 1;
            match (self.rows(slot, tiers, i as nat), self.tier_quotes(slot, tiers[i])) {
                (Some(rows), Some(q)) => Some(rows + tier_rows(q, i)),
                _ => None,
            }
        }
    }
}

proof fn lemma_rows_stay_none(p: PoolView, slot: int, tiers: Seq<TierInput>, n: nat, m: nat)
    requires
        p.rows(slot, tiers, n) is None,
        n <= m,
    ensures
        p.rows(slot, tiers, m) is None,
    decreases m,
{
    if n < m {
        lemma_rows_stay_none(p, slot, tiers, n, (m - 1) as nat);
    }
}

/// A pool that is not ready quotes no single trade, and neither does any pool
/// for nothing.
pub proof fn law_single_quote_needs_a_ready_pool(p: PoolView, amount: int, direction: Seq<char>, slot: int)
    requires
        !p.ready() || amount == 0,
    ensures
        p.single(amount, direction, slot) == Some(None::<u64>),
{
    reveal(PoolView::single);
    reveal(HumidifiReplay::single);
    reveal(AlphaQReplay::single);
    reveal(BisonFiReplay::single);
    reveal(SolFiV2Replay::single);
    reveal(GoonFiReplay::single);
    reveal(TesseraVReplay::single);
    reveal(ZeroFiReplay::single);
}

impl ProtocolReplay {
    /// What holds of a pool under replay at all times.
    pub open spec fn wf(self) -> bool {
        match self {
            ProtocolReplay::Humidifi(p) => true,
            ProtocolReplay::RaydiumClmm(p) => p.wf(),
            ProtocolReplay::OrcaClmm(p) => p.wf(),
            ProtocolReplay::AlphaQ(p) => true,
            ProtocolReplay::BisonFi(p) => true,
            ProtocolReplay::SolFiV2(p) => p.wf(),
            ProtocolReplay::GoonFi(p) => p.wf(),
            ProtocolReplay::TesseraV(p) => p.wf(),
            ProtocolReplay::ZeroFi(p) => p.wf(),
        }
    }

    pub fn can_apply(&self, role: &str, data: &[u8]) -> (r: bool)
        ensures
            r == self@.accepts(role@, data@),
    {
        match self {
            ProtocolReplay::Humidifi(p) => true,
            ProtocolReplay::RaydiumClmm(p) => p.can_apply(role, data),
            ProtocolReplay::OrcaClmm(p) => p.can_apply(role, data),
            ProtocolReplay::AlphaQ(p) => true,
            ProtocolReplay::BisonFi(p) => BisonFiReplay::can_apply(role, data),
            ProtocolReplay::SolFiV2(p) => SolFiV2Replay::can_apply(role, data),
            ProtocolReplay::GoonFi(p) => GoonFiReplay::can_apply(role, data),
            ProtocolReplay::TesseraV(p) => true,
            ProtocolReplay::ZeroFi(p) => true,
        }
    }

    pub fn apply_update(&mut self, role: &str, data: &[u8], slot: u64)
        requires
            old(self).wf(),
            old(self)@.accepts(role@, data@),
        ensures
            final(self)@ == old(self)@.updated(role@, data@, slot),
            final(self).wf(),
    {
        proof {
            reveal(PoolView::updated);
        }
        match self {
            ProtocolReplay::Humidifi(p) => p.apply_update(role, data, slot),
            ProtocolReplay::RaydiumClmm(p) => p.apply_update(role, data, slot),
            ProtocolReplay::OrcaClmm(p) => p.apply_update(role, data, slot),
            ProtocolReplay::AlphaQ(p) => p.apply_update(role, data),
            ProtocolReplay::BisonFi(p) => p.apply_update(role, data),
            ProtocolReplay::SolFiV2(p) => p.apply_update(role, data),
            ProtocolReplay::GoonFi(p) => p.apply_update(role, data),
            ProtocolReplay::TesseraV(p) => p.apply_update(role, data),
            ProtocolReplay::ZeroFi(p) => p.apply_update(role, data),
        }
    }

    pub fn is_ready(&self) -> (r: bool)
        ensures
            r == self@.ready(),
    {
        match self {
            ProtocolReplay::Humidifi(p) => p.is_ready(),
            ProtocolReplay::RaydiumClmm(p) => p.is_ready(),
            ProtocolReplay::OrcaClmm(p) => p.is_ready(),
            ProtocolReplay::AlphaQ(p) => p.is_ready(),
            ProtocolReplay::BisonFi(p) => p.is_ready(),
            ProtocolReplay::SolFiV2(p) => p.is_ready(),
            ProtocolReplay::GoonFi(p) => p.is_ready(),
            ProtocolReplay::TesseraV(p) => p.is_ready(),
            ProtocolReplay::ZeroFi(p) => p.is_ready(),
        }
    }

    pub fn vault_balances(&self) -> (r: Option<(u64, u64)>)
        ensures
            r == self@.balances(),
    {
        match self {
            ProtocolReplay::Humidifi(p) => p.vault_balances(),
            ProtocolReplay::RaydiumClmm(p) => None,
            ProtocolReplay::OrcaClmm(p) => None,
            ProtocolReplay::AlphaQ(p) => p.vault_balances(),
            ProtocolReplay::BisonFi(p) => p.vault_balances(),
            ProtocolReplay::SolFiV2(p) => p.vault_balances(),
            ProtocolReplay::GoonFi(p) => p.vault_balances(),
            ProtocolReplay::TesseraV(p) => p.vault_balances(),
            ProtocolReplay::ZeroFi(p) => p.vault_balances(),
        }
    }

    pub fn try_quote_single(&self, input_amount: u64, direction: &str, slot: u64) -> (r: Option<Option<u64>>)
        requires
            self.wf(),
        ensures
            r == self@.single(input_amount as int, direction@, slot as int),
    {
        proof {
            reveal(PoolView::single);
        }
        match self {
            ProtocolReplay::Humidifi(p) => p.try_quote_single(input_amount, direction, slot),
            ProtocolReplay::RaydiumClmm(p) => Some(None),
            ProtocolReplay::OrcaClmm(p) => Some(None),
            ProtocolReplay::AlphaQ(p) => p.try_quote_single(input_amount, direction),
            ProtocolReplay::BisonFi(p) => p.try_quote_single(input_amount, direction, slot),
            ProtocolReplay::SolFiV2(p) => p.try_quote_single(input_amount, direction, slot),
            ProtocolReplay::GoonFi(p) => p.try_quote_single(input_amount, direction, slot),
            ProtocolReplay::TesseraV(p) => p.try_quote_single(input_amount, direction),
            ProtocolReplay::ZeroFi(p) => p.try_quote_single(input_amount, direction, slot),
        }
    }

    pub fn quote_single(&self, input_amount: u64, direction: &str, slot: u64) -> (r: Option<u64>)
        requires
            self.wf(),
            self@.single(input_amount as int, direction@, slot as int) is Some,
        ensures
            Some(r) == self@.single(input_amount as int, direction@, slot as int),
    {
        self.try_quote_single(input_amount, direction, slot).unwrap()
    }

    fn try_tier_quotes(&self, slot: u64, tier: &TierInput) -> (r: Option<TierQuotes>)
        requires
            self.wf(),
        ensures
            r == self@.tier_quotes(slot as int, *tier),
    {
        proof {
            reveal(PoolView::tier_quotes);
        }
        match self {
            ProtocolReplay::Humidifi(p) => p.try_tier_quotes(slot, tier),
            ProtocolReplay::RaydiumClmm(p) => p.try_tier_quotes(tier),
            ProtocolReplay::OrcaClmm(p) => p.try_tier_quotes(tier),
            ProtocolReplay::AlphaQ(p) => p.try_tier_quotes(tier),
            ProtocolReplay::BisonFi(p) => p.try_tier_quotes(slot, tier),
            ProtocolReplay::SolFiV2(p) => p.try_tier_quotes(slot, tier),
            ProtocolReplay::GoonFi(p) => p.try_tier_quotes(slot, tier),
            ProtocolReplay::TesseraV(p) => p.try_tier_quotes(tier),
            ProtocolReplay::ZeroFi(p) => p.try_tier_quotes(slot, tier),
        }
    }

    /// The quotes of all trade sizes; nothing where a number outgrows its type
    /// on the way to one of them.
    pub fn try_compute_quotes(&self, slot: u64, tiers: &[TierInput]) -> (r: Option<Vec<QuoteRow>>)
        requires
            self.wf(),
        ensures
            r is Some == self@.rows(slot as int, tiers@, tiers@.len()) is Some,
            r is Some ==> row_views(r->0@) == self@.rows(slot as int, tiers@, tiers@.len())->0,
    {
        let mut rows: Vec<QuoteRow> = Vec::new();
        let mut i: usize = 0;
        assert(row_views(rows@) =~= Seq::empty());
        while i < tiers.len()
            invariant
                self.wf(),
                i <= tiers.len(),
                self@.rows(slot as int, tiers@, i as nat) == Some(row_views(rows@)),
            decreases tiers.len() - i,
        {
            let q = match self.try_tier_quotes(slot, &tiers[i]) {
                Some(q) => q,
                None => {
                    proof {
                        lemma_rows_stay_none(self@, slot as int, tiers@, (i + 1) as nat, tiers@.len());
                    }
                    return None;
                },
            };
            let ghost before = row_views(rows@);
            push_row(&mut rows, "B2Q", q.b2q, i);
            push_row(&mut rows, "Q2B", q.q2b, i);
            assert(row_views(rows@) =~= before + tier_rows(q, i as int));
            i = i + 1;
        }
        Some(rows)
    }

    pub fn compute_quotes(&self, slot: u64, tiers: &[TierInput]) -> (r: Vec<QuoteRow>)
        requires
            self.wf(),
            self@.rows(slot as int, tiers@, tiers@.len()) is Some,
        ensures
            Some(row_views(r@)) == self@.rows(slot as int, tiers@, tiers@.len()),
    {
        self.try_compute_quotes(slot, tiers).unwrap()
    }
}

/// A kind of pool that cannot be replayed.
#[derive(Debug)]
pub struct UnsupportedAmm {
    pub amm_type: String,
}

impl UnsupportedAmm {
    pub fn message(&self) -> (r: String)
        ensures
            r@ == "unsupported amm_type: "@ + self.amm_type@,
    {
        let mut m = "unsupported amm_type: ".to_owned();
        m.append(self.amm_type.as_str());
        m
    }
}

/// A pool of which nothing is known yet.
pub open spec fn fresh_pool(amm_type: Seq<char>) -> Option<PoolView> {
    if amm_type == "humidifi"@ {
        Some(PoolView::Humidifi(HumidifiReplay::fresh()))
    } else if amm_type == "raydium_clmm"@ {
        Some(PoolView::RaydiumClmm(RaydiumView::fresh()))
    } else if amm_type == "orca_clmm"@ {
        Some(PoolView::OrcaClmm(OrcaView::fresh()))
    } else if amm_type == "alphaq"@ {
        Some(PoolView::AlphaQ(AlphaQReplay::fresh()))
    } else if amm_type == "bisonfi"@ {
        Some(PoolView::BisonFi(BisonFiReplay::fresh()))
    } else if amm_type == "solfiv2"@ {
        Some(PoolView::SolFiV2(SolFiV2Replay::fresh()))
    } else if amm_type == "goonfi"@ {
        Some(PoolView::GoonFi(GoonFiReplay::fresh()))
    } else if amm_type == "tesserav"@ {
        Some(PoolView::TesseraV(TesseraVReplay::fresh()))
    } else if amm_type == "zerofi"@ {
        Some(PoolView::ZeroFi(ZeroFiReplay::fresh()))
    } else {
        None
    }
}

pub fn create_protocol(amm_type: &str) -> (r: Result<ProtocolReplay, UnsupportedAmm>)
    ensures
        r is Ok == fresh_pool(amm_type@) is Some,
        r is Ok ==> r->Ok_0.wf() && r->Ok_0@ == fresh_pool(amm_type@)->0,
        r is Err ==> r->Err_0.amm_type@ == amm_type@,
{
    if str_eq(amm_type, "humidifi") {
        Ok(ProtocolReplay::Humidifi(HumidifiReplay::new()))
    } else if str_eq(amm_type, "raydium_clmm") {
        Ok(ProtocolReplay::RaydiumClmm(RaydiumClmmReplay::new()))
    } else if str_eq(amm_type, "orca_clmm") {
        Ok(ProtocolReplay::OrcaClmm(OrcaClmmReplay::new()))
    } else if str_eq(amm_type, "alphaq") {
        Ok(ProtocolReplay::AlphaQ(AlphaQReplay::new()))
    } else if str_eq(amm_type, "bisonfi") {
        Ok(ProtocolReplay::BisonFi(BisonFiReplay::new()))
    } else if str_eq(amm_type, "solfiv2") {
        Ok(ProtocolReplay::SolFiV2(SolFiV2Replay::new()))
    } else if str_eq(amm_type, "goonfi") {
        Ok(ProtocolReplay::GoonFi(GoonFiReplay::new()))
    } else if str_eq(amm_type, "tesserav") {
        Ok(ProtocolReplay::TesseraV(TesseraVReplay::new()))
    } else if str_eq(amm_type, "zerofi") {
        Ok(ProtocolReplay::ZeroFi(ZeroFiReplay::new()))
    } else {
        Err(UnsupportedAmm { amm_type: amm_type.to_owned() })
    }
}

}
