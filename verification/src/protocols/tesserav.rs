//! The Tessera V pool: tiers of liquidity along a position.
use vstd::prelude::*;

use super::quotes::{is_b2q, positive, quoted, Quote, TierInput, TierQuotes};
use crate::bytes::{read_token_balance, read_u16_le, read_u64_le, str_eq, token_balance, u16_at, u64_at};
use crate::num::{fits_u128, imin, low64, monus, wrap64};

verus! {

pub const FP_SCALE: u128 = 1_000_000_000_000_000;

pub const FEE_THING_SCALE: u128 = 1_000_000;

/// The shortest pool account.
pub const MIN_POOL_DATA_SIZE: usize = 0x298;

/// A stretch of the position and its share of the price, in millionths.
#[derive(Debug, Clone, Copy, PartialEq, Eq, Structural)]
pub struct Tier {
    pub width: u64,
    pub fee_thing: u64,
    pub flag: u64,
}

/// Up to ten tiers.
#[derive(Debug, Clone, Copy)]
pub struct TierTable {
    pub tiers: [Tier; 10],
    pub count: usize,
}

#[derive(Debug, Clone, Copy)]
pub struct TesseraVState {
    pub fee_bps: u16,
    pub fp_b2q: u64,
    pub fp_q2b: u64,
    pub b2q_position: u64,
    pub q2b_position: u64,
    pub b2q_tiers: TierTable,
    pub q2b_tiers: TierTable,
    pub base_amount: u64,
    pub quote_amount: u64,
}

/// Pool data that is too short.
#[derive(Clone, Copy, Debug, PartialEq, Eq, Structural)]
pub struct TesseraVTooSmall;

impl TesseraVTooSmall {
    pub fn message(&self) -> (r: &'static str)
        ensures
            r@ == "Tessera V pool data too small"@,
    {
        "Tessera V pool data too small"
    }
}

pub open spec fn no_tier() -> Tier {
    Tier { width: 0, fee_thing: 0, flag: 0 }
}

pub open spec fn no_tiers() -> TierTable {
    let t = no_tier();
    TierTable { tiers: [t, t, t, t, t, t, t, t, t, t], count: 0 }
}

/// The state before any update.
pub open spec fn no_state() -> TesseraVState {
    TesseraVState {
        fee_bps: 0,
        fp_b2q: 0,
        fp_q2b: 0,
        b2q_position: 0,
        q2b_position: 0,
        b2q_tiers: no_tiers(),
        q2b_tiers: no_tiers(),
        base_amount: 0,
        quote_amount: 0,
    }
}

fn empty_tiers() -> (r: [Tier; 10])
    ensures
        forall|k: int| 0 <= k < 10 ==> r@[k] == no_tier(),
{
    let t = Tier { width: 0, fee_thing: 0, flag: 0 };
    [t, t, t, t, t, t, t, t, t, t]
}

impl Default for TesseraVState {
    fn default() -> (r: Self)
        ensures
            r == no_state(),
    {
        let tiers = empty_tiers();
        assert(tiers =~= no_tiers().tiers);
        let table = TierTable { tiers, count: 0 };
        TesseraVState {
            fee_bps: 0,
            fp_b2q: 0,
            fp_q2b: 0,
            b2q_position: 0,
            q2b_position: 0,
            b2q_tiers: table,
            q2b_tiers: table,
            base_amount: 0,
            quote_amount: 0,
        }
    }
}

/// Whether a table has a tier at a place: it lies within the data and is not
/// empty.
pub open spec fn has_tier(d: Seq<u8>, at: int, i: int) -> bool {
    let off = at + i * 24;
    off + 24 <= d.len() && !(u64_at(d, off) == 0 && u64_at(d, off + 8) == 0)
}

/// The number of tiers from `i` on, up to the first that is missing.
pub open spec fn tiers_from(d: Seq<u8>, at: int, i: int) -> int
    decreases 10 - i,
{
    if i < 10 && has_tier(d, at, i) {
        tiers_from(d, at, i + 1)
    } else {
        i
    }
}

pub open spec fn tier_at(d: Seq<u8>, at: int, i: int) -> Tier {
    let off = at + i * 24;
    if i < tiers_from(d, at, 0) {
        Tier {
            width: u64_at(d, off) as u64,
            fee_thing: u64_at(d, off + 8) as u64,
            flag: u64_at(d, off + 16) as u64,
        }
    } else {
        no_tier()
    }
}

#[verifier::opaque]
pub open spec fn table_at(d: Seq<u8>, at: int) -> TierTable {
    TierTable {
        tiers: [
            tier_at(d, at, 0),
            tier_at(d, at, 1),
            tier_at(d, at, 2),
            tier_at(d, at, 3),
            tier_at(d, at, 4),
            tier_at(d, at, 5),
            tier_at(d, at, 6),
            tier_at(d, at, 7),
            tier_at(d, at, 8),
            tier_at(d, at, 9),
        ],
        count: tiers_from(d, at, 0) as usize,
    }
}

proof fn lemma_tiers_from(d: Seq<u8>, at: int, i: int)
    requires
        0 <= i <= 10,
    ensures
        i <= tiers_from(d, at, i) <= 10,
    decreases 10 - i,
{
    if i < 10 && has_tier(d, at, i) {
        lemma_tiers_from(d, at, i + 1);
    }
}

fn read_table(data: &[u8], at: usize) -> (r: TierTable)
    requires
        at <= 0x1000,
    ensures
        r == table_at(data@, at as int),
        r.count <= 10,
{
    let mut tiers = empty_tiers();
    let mut i: usize = 0;
    proof {
        lemma_tiers_from(data@, at as int, 0);
        reveal(table_at);
    }
    while i < 10
        invariant
            i <= 10,
            at <= 0x1000,
            tiers_from(data@, at as int, i as int) == tiers_from(data@, at as int, 0),
            0 <= tiers_from(data@, at as int, 0) <= 10,
            forall|k: int|
                0 <= k < i ==> tiers@[k] == (Tier {
                    width: u64_at(data@, at + k * 24) as u64,
                    fee_thing: u64_at(data@, at + k * 24 + 8) as u64,
                    flag: u64_at(data@, at + k * 24 + 16) as u64,
                }),
            forall|k: int| i <= k < 10 ==> tiers@[k] == no_tier(),
        decreases 10 - i,
    {
        let off = at + i * 24;
        if off + 24 > data.len() {
            proof {
                reveal(table_at);
            }
            assert(tiers =~= table_at(data@, at as int).tiers);
            return TierTable { tiers, count: i };
        }
        let width = read_u64_le(data, off);
        let fee_thing = read_u64_le(data, off + 8);
        if width == 0 && fee_thing == 0 {
            proof {
                reveal(table_at);
            }
            assert(tiers =~= table_at(data@, at as int).tiers);
            return TierTable { tiers, count: i };
        }
        let flag = read_u64_le(data, off + 16);
        tiers[i] = Tier { width, fee_thing, flag };
        i = i + 1;
    }
    assert(tiers =~= table_at(data@, at as int).tiers);
    TierTable { tiers, count: 10 }
}

/// A position's worth at a rate, cut to 64 bits.
pub open spec fn converted(position: int, rate: int) -> int {
    wrap64((position * rate) / 1_000_000_000_000_000)
}

fn convert(position: u64, rate: u64) -> (r: u64)
    ensures
        r == converted(position as int, rate as int),
{
    proof {
        assert(0 <= position * rate <= u64::MAX * u64::MAX) by (nonlinear_arith)
            requires
                0 <= position <= u64::MAX,
                0 <= rate <= u64::MAX,
        ;
    }
    low64(position as u128 * rate as u128 / FP_SCALE)
}

/// A position with a correction that was partly used up, in 64 bits.
fn carried_over(position: u64, correction: u64, used: u64) -> (r: u64)
    ensures
        r == wrap64(wrap64(position + correction) - used),
{
    position.wrapping_add(correction).wrapping_sub(used)
}

impl TesseraVState {
    pub open spec fn wf(self) -> bool {
        self.b2q_tiers.count <= 10 && self.q2b_tiers.count <= 10
    }

    /// The state that pool data leaves behind. The correction comes off the
    /// sale position; where it is larger than that, what is left of it goes
    /// onto the purchase position.
    pub open spec fn with_pool_data(self, d: Seq<u8>) -> Result<Self, TesseraVTooSmall> {
        if d.len() < MIN_POOL_DATA_SIZE {
            Err(TesseraVTooSmall)
        } else {
            let correction = u64_at(d, 0);
            let b2q_raw = u64_at(d, 8);
            let q2b_raw = u64_at(d, 0x278);
            let fp_b2q = u64_at(d, 0x80);
            let fp_q2b = u64_at(d, 0x90);
            let taken = converted(correction, fp_q2b);
            Ok(
                TesseraVState {
                    fee_bps: u16_at(d, 0x10) as u16,
                    fp_b2q: fp_b2q as u64,
                    fp_q2b: fp_q2b as u64,
                    b2q_position: monus(b2q_raw, taken) as u64,
                    q2b_position: (if taken > b2q_raw {
                        wrap64(wrap64(q2b_raw + correction) - converted(b2q_raw, fp_b2q))
                    } else {
                        q2b_raw
                    }) as u64,
                    b2q_tiers: table_at(d, 0xa0),
                    q2b_tiers: table_at(d, 0x280),
                    ..self
                },
            )
        }
    }

    pub fn update_from_pool_data(&mut self, data: &[u8]) -> (r: Result<(), TesseraVTooSmall>)
        requires
            old(self).wf(),
        ensures
            final(self).wf(),
            match old(self).with_pool_data(data@) {
                Ok(s) => r is Ok && *final(self) == s,
                Err(e) => r == Err::<(), TesseraVTooSmall>(e) && *final(self) == *old(self),
            },
    {
        if data.len() < MIN_POOL_DATA_SIZE {
            return Err(TesseraVTooSmall);
        }
        let correction = read_u64_le(data, 0);
        let b2q_raw = read_u64_le(data, 8);
        let q2b_raw = read_u64_le(data, 0x278);
        self.fee_bps = read_u16_le(data, 0x10);
        self.fp_b2q = read_u64_le(data, 0x80);
        self.fp_q2b = read_u64_le(data, 0x90);
        let taken = convert(correction, self.fp_q2b);
        if taken > b2q_raw {
            self.b2q_position = 0;
            self.q2b_position = carried_over(q2b_raw, correction, convert(b2q_raw, self.fp_b2q));
        } else {
            self.b2q_position = b2q_raw - taken;
            self.q2b_position = q2b_raw;
        }
        self.b2q_tiers = read_table(data, 0xa0);
        self.q2b_tiers = read_table(data, 0x280);
        Ok(())
    }

    /// What an amount brings within a tier, cut to 64 bits; nothing where the
    /// product needs more than 128.
    pub open spec fn tier_output(share: int, rate: int, amount: int) -> Option<int> {
        let mid = (share * rate) / 1_000_000;
        if fits_u128(mid * amount) {
            Some(wrap64((mid * amount) / 1_000_000_000_000_000))
        } else {
            None
        }
    }

    pub fn tier_raw(fee_thing: u64, fp: u64, amount: u64) -> (r: Option<u64>)
        ensures
            r is Some == Self::tier_output(fee_thing as int, fp as int, amount as int) is Some,
            r is Some ==> r->0 == Self::tier_output(fee_thing as int, fp as int, amount as int)->0,
    {
        proof {
            assert(0 <= fee_thing * fp <= u64::MAX * u64::MAX) by (nonlinear_arith)
                requires
                    0 <= fee_thing <= u64::MAX,
                    0 <= fp <= u64::MAX,
            ;
        }
        let mid = fee_thing as u128 * fp as u128 / FEE_THING_SCALE;
        Some(low64(mid.checked_mul(amount as u128)? / FP_SCALE))
    }

    /// What an amount brings in the tiers from `i` on: a position that was
    /// passed already takes up tiers first, and what the last tier does not
    /// take brings nothing.
    pub open spec fn output_from(table: TierTable, rate: int, i: int, position: int, remaining: int, total: int) -> Option<
        int,
    >
        decreases table.count - i,
    {
        if i >= table.count || remaining == 0 {
            Some(total)
        } else {
            let width = table.tiers[i].width as int;
            if position >= width {
                Self::output_from(table, rate, i + 1, position - width, remaining, total)
            } else {
                let chunk = imin(remaining, width - position);
                match Self::tier_output(table.tiers[i].fee_thing as int, rate, chunk) {
                    None => None,
                    Some(out) => Self::output_from(table, rate, i + 1, 0, remaining - chunk, total + out),
                }
            }
        }
    }

    /// The amount out, cut to 64 bits; nothing where a number leaves its
    /// machine type.
    pub open spec fn quote(self, amount: int, is_b2q: bool) -> Option<int> {
        let out = if is_b2q {
            Self::output_from(self.b2q_tiers, self.fp_b2q as int, 0, self.b2q_position as int, amount, 0)
        } else {
            Self::output_from(self.q2b_tiers, self.fp_q2b as int, 0, self.q2b_position as int, amount, 0)
        };
        match out {
            None => None,
            Some(x) => Some(wrap64(x)),
        }
    }

    pub fn get_quote(&self, amount_in: u64, is_base_to_quote: bool) -> (r: Option<u64>)
        requires
            self.wf(),
        ensures
            r is Some == self.quote(amount_in as int, is_base_to_quote) is Some,
            r is Some ==> r->0 == self.quote(amount_in as int, is_base_to_quote)->0,
    {
        let fp = if is_base_to_quote {
            self.fp_b2q
        } else {
            self.fp_q2b
        };
        let table = if is_base_to_quote {
            self.b2q_tiers
        } else {
            self.q2b_tiers
        };
        let start = if is_base_to_quote {
            self.b2q_position
        } else {
            self.q2b_position
        };
        let mut remaining = amount_in;
        let mut position = start;
        let mut total: u128 = 0;
        let mut i: usize = 0;
        while i < table.count && remaining > 0
            invariant
                i <= table.count <= 10,
                fp == (if is_base_to_quote {
                    self.fp_b2q
                } else {
                    self.fp_q2b
                }),
                table == (if is_base_to_quote {
                    self.b2q_tiers
                } else {
                    self.q2b_tiers
                }),
                start == (if is_base_to_quote {
                    self.b2q_position
                } else {
                    self.q2b_position
                }),
                total <= i * u64::MAX,
                Self::output_from(table, fp as int, i as int, position as int, remaining as int, total as int)
                    == Self::output_from(table, fp as int, 0, start as int, amount_in as int, 0),
            decreases table.count - i,
        {
            let tier = table.tiers[i];
            let ghost before = Self::output_from(
                table,
                fp as int,
                i as int,
                position as int,
                remaining as int,
                total as int,
            );
            if position >= tier.width {
                position = position - tier.width;
            } else {
                let effective = tier.width - position;
                position = 0;
                let chunk = crate::num::min_u64(remaining, effective);
                assert(before == match Self::tier_output(tier.fee_thing as int, fp as int, chunk as int) {
                    None => None,
                    Some(out) => Self::output_from(table, fp as int, i + 1, 0, remaining - chunk, total + out),
                });
                let out = Self::tier_raw(tier.fee_thing, fp, chunk)?;
                total = total + out as u128;
                remaining = remaining - chunk;
            }
            i = i + 1;
        }
        Some(low64(total))
    }
}

#[derive(Clone, Copy, Debug)]
pub struct TesseraVReplay {
    pub state: TesseraVState,
    pub has_pool: bool,
    pub has_base_vault: bool,
    pub has_quote_vault: bool,
}

impl TesseraVReplay {
    pub open spec fn wf(self) -> bool {
        self.state.wf()
    }

    pub open spec fn fresh() -> Self {
        TesseraVReplay { state: no_state(), has_pool: false, has_base_vault: false, has_quote_vault: false }
    }

    pub fn new() -> (r: Self)
        ensures
            r == Self::fresh(),
            r.wf(),
    {
        TesseraVReplay {
            state: TesseraVState::default(),
            has_pool: false,
            has_base_vault: false,
            has_quote_vault: false,
        }
    }

    /// The replay after an account update; unknown roles and rejected data
    /// leave it as it is.
    #[verifier::opaque]
    pub open spec fn updated(self, role: Seq<char>, data: Seq<u8>) -> Self {
        if role == "pool"@ {
            match self.state.with_pool_data(data) {
                Ok(state) => TesseraVReplay { state, has_pool: true, ..self },
                Err(_) => self,
            }
        } else if role == "base_vault"@ {
            match token_balance(data) {
                Some(b) => TesseraVReplay {
                    state: TesseraVState { base_amount: b, ..self.state },
                    has_base_vault: true,
                    ..self
                },
                None => self,
            }
        } else if role == "quote_vault"@ {
            match token_balance(data) {
                Some(b) => TesseraVReplay {
                    state: TesseraVState { quote_amount: b, ..self.state },
                    has_quote_vault: true,
                    ..self
                },
                None => self,
            }
        } else {
            self
        }
    }

    pub fn apply_update(&mut self, role: &str, data: &[u8])
        requires
            old(self).wf(),
        ensures
            *final(self) == old(self).updated(role@, data@),
            final(self).wf(),
    {
        proof {
            reveal(TesseraVReplay::updated);
        }
        if str_eq(role, "pool") {
            if self.state.update_from_pool_data(data).is_ok() {
                self.has_pool = true;
            }
        } else if str_eq(role, "base_vault") {
            if let Some(b) = read_token_balance(data) {
                self.state.base_amount = b;
                self.has_base_vault = true;
            }
        } else if str_eq(role, "quote_vault") {
            if let Some(b) = read_token_balance(data) {
                self.state.quote_amount = b;
                self.has_quote_vault = true;
            }
        }
    }

    pub open spec fn ready(self) -> bool {
        self.has_pool && self.has_base_vault && self.has_quote_vault
    }

    pub fn is_ready(&self) -> (r: bool)
        ensures
            r == self.ready(),
    {
        self.has_pool && self.has_base_vault && self.has_quote_vault
    }

    pub open spec fn balances(self) -> Option<(u64, u64)> {
        if self.has_base_vault && self.has_quote_vault {
            Some((self.state.base_amount, self.state.quote_amount))
        } else {
            None
        }
    }

    pub fn vault_balances(&self) -> (r: Option<(u64, u64)>)
        ensures
            r == self.balances(),
    {
        if self.has_base_vault && self.has_quote_vault {
            Some((self.state.base_amount, self.state.quote_amount))
        } else {
            None
        }
    }

    /// The positive amount out for an amount in; the inner option is empty
    /// where there is none.
    #[verifier::opaque]
    pub open spec fn single(self, amount: int, direction: Seq<char>) -> Option<Option<u64>> {
        if !self.ready() || amount == 0 {
            Some(None)
        } else {
            positive(self.state.quote(amount, direction == "B2Q"@))
        }
    }

    pub fn try_quote_single(&self, input_amount: u64, direction: &str) -> (r: Option<Option<u64>>)
        requires
            self.wf(),
        ensures
            r == self.single(input_amount as int, direction@),
    {
        proof {
            reveal(TesseraVReplay::single);
        }
        if !self.is_ready() || input_amount == 0 {
            return Some(None);
        }
        let out = self.state.get_quote(input_amount, is_b2q(direction))?;
        if out > 0 {
            Some(Some(out))
        } else {
            Some(None)
        }
    }

    /// The quotes of a trade size.
    #[verifier::opaque]
    pub open spec fn tier_quotes(self, tier: TierInput) -> Option<TierQuotes> {
        let base = if self.state.fp_b2q > 0 {
            wrap64(tier.usd_e21 as int / self.state.fp_b2q as int)
        } else {
            0
        };
        let quote = tier.quote_amount() as int;
        let b2q = quoted(base, self.state.quote(base, true));
        let q2b = quoted(quote, self.state.quote(quote, false));
        if !self.ready() {
            Some(TierQuotes::nothing())
        } else if b2q is Some && q2b is Some {
            Some(TierQuotes { b2q, q2b })
        } else {
            None
        }
    }

    pub fn try_tier_quotes(&self, tier: &TierInput) -> (r: Option<TierQuotes>)
        requires
            self.wf(),
        ensures
            r == self.tier_quotes(*tier),
    {
        proof {
            reveal(TesseraVReplay::tier_quotes);
        }
        if !self.is_ready() {
            return Some(TierQuotes::none());
        }
        let b2q_input = if self.state.fp_b2q > 0 {
            low64(tier.usd_e21 / self.state.fp_b2q as u128)
        } else {
            0
        };
        let b2q_output = self.state.get_quote(b2q_input, true)?;
        let q2b_input = tier.get_quote_amount();
        let q2b_output = self.state.get_quote(q2b_input, false)?;
        Some(
            TierQuotes {
                b2q: Some(Quote { input: b2q_input, output: b2q_output }),
                q2b: Some(Quote { input: q2b_input, output: q2b_output }),
            },
        )
    }
}

/// What an amount brings within a tier is its share of the rate, rounded down,
/// so that more never brings less.
pub proof fn law_tier_pays_its_share(share: int, rate: int, amount: int, more: int)
    requires
        0 <= share <= u64::MAX,
        0 <= rate <= u64::MAX,
        0 <= amount <= more,
        fits_u128((share * rate) / 1_000_000 * more),
        ((share * rate) / 1_000_000 * more) / 1_000_000_000_000_000 <= u64::MAX,
    ensures
        TesseraVState::tier_output(share, rate, amount) is Some,
        TesseraVState::tier_output(share, rate, more) is Some,
        ({
            let out = TesseraVState::tier_output(share, rate, amount)->0;
            let unit = 1_000_000_000_000_000int;
            &&& out <= TesseraVState::tier_output(share, rate, more)->0
            &&& out * unit <= (share * rate) / 1_000_000 * amount < (out + 1) * unit
        }),
{
    assert(share * rate >= 0) by (nonlinear_arith)
        requires
            share >= 0,
            rate >= 0,
    ;
    let mid = (share * rate) / 1_000_000;
    assert(0 <= mid * amount <= mid * more) by (nonlinear_arith)
        requires
            mid >= 0,
            0 <= amount <= more,
    ;
}

/// More in never brings less out, whatever was traded before, and what was
/// bought so far is kept.
pub proof fn law_more_in_brings_no_less(
    table: TierTable,
    rate: int,
    i: int,
    position: int,
    amount: int,
    more: int,
    total: int,
    larger: int,
)
    requires
        0 <= i,
        table.count <= 10,
        0 <= rate <= u64::MAX,
        0 <= position,
        0 <= amount <= more,
        total <= larger,
        forall|k: int| 0 <= k < table.count ==> tier_pays_within(#[trigger] table.tiers[k], rate, more),
    ensures
        TesseraVState::output_from(table, rate, i, position, amount, total) is Some,
        TesseraVState::output_from(table, rate, i, position, more, larger) is Some,
        total <= TesseraVState::output_from(table, rate, i, position, amount, total)->0
            <= TesseraVState::output_from(table, rate, i, position, more, larger)->0,
    decreases table.count - i,
{
    if i < table.count && more > 0 {
        let tier = table.tiers[i];
        let width = tier.width as int;
        assert(tier_pays_within(tier, rate, more));
        if position >= width {
            law_more_in_brings_no_less(table, rate, i + 1, position - width, amount, more, total, larger);
        } else {
            let small = imin(amount, width - position);
            let large = imin(more, width - position);
            let mid = (tier.fee_thing * rate) / 1_000_000;
            lemma_within(mid, large, more, tier.fee_thing as int, rate);
            law_tier_pays_its_share(tier.fee_thing as int, rate, small, large);
            let a = TesseraVState::tier_output(tier.fee_thing as int, rate, small)->0;
            let b = TesseraVState::tier_output(tier.fee_thing as int, rate, large)->0;
            assert forall|k: int| 0 <= k < table.count implies tier_pays_within(
                #[trigger] table.tiers[k],
                rate,
                more - large,
            ) by {
                let t = table.tiers[k];
                assert(tier_pays_within(t, rate, more));
                lemma_within(
                    (t.fee_thing * rate) / 1_000_000,
                    more - large,
                    more,
                    t.fee_thing as int,
                    rate,
                );
            }
            law_more_in_brings_no_less(table, rate, i + 1, 0, amount - small, more - large, total + a, larger + b);
        }
    }
}

/// Whether what a tier pays for an amount fits its type.
pub open spec fn tier_pays_within(t: Tier, rate: int, most: int) -> bool {
    let mid = (t.fee_thing * rate) / 1_000_000;
    fits_u128(mid * most) && (mid * most) / 1_000_000_000_000_000 <= u64::MAX
}

proof fn lemma_within(mid: int, less: int, most: int, share: int, rate: int)
    requires
        0 <= share,
        0 <= rate,
        mid == (share * rate) / 1_000_000,
        0 <= less <= most,
        fits_u128(mid * most),
        (mid * most) / 1_000_000_000_000_000 <= u64::MAX,
    ensures
        fits_u128(mid * less),
        (mid * less) / 1_000_000_000_000_000 <= u64::MAX,
{
    assert(share * rate >= 0) by (nonlinear_arith)
        requires
            share >= 0,
            rate >= 0,
    ;
    assert(0 <= mid * less <= mid * most) by (nonlinear_arith)
        requires
            mid >= 0,
            0 <= less <= most,
    ;
}

/// What was traded before takes up the tiers from the first on: a trade goes on
/// in what is left of the tier that the position lies in, and then in the next
/// tiers from their start.
pub proof fn law_position_takes_up_tiers(table: TierTable, rate: int, i: int, position: int, amount: int, total: int)
    requires
        0 <= i < table.count,
        0 <= position,
        0 < amount,
    ensures
        position >= table.tiers[i].width ==> TesseraVState::output_from(table, rate, i, position, amount, total)
            == TesseraVState::output_from(table, rate, i + 1, position - table.tiers[i].width, amount, total),
        position + amount <= table.tiers[i].width ==> TesseraVState::output_from(
            table,
            rate,
            i,
            position,
            amount,
            total,
        ) == (match TesseraVState::tier_output(table.tiers[i].fee_thing as int, rate, amount) {
            Some(out) => Some(total + out),
            None => None,
        }),
        position < table.tiers[i].width < position + amount ==> TesseraVState::output_from(
            table,
            rate,
            i,
            position,
            amount,
            total,
        ) == (match TesseraVState::tier_output(
            table.tiers[i].fee_thing as int,
            rate,
            table.tiers[i].width - position,
        ) {
            Some(out) => TesseraVState::output_from(
                table,
                rate,
                i + 1,
                0,
                amount - (table.tiers[i].width - position),
                total + out,
            ),
            None => None,
        }),
{
    reveal_with_fuel(TesseraVState::output_from, 2);
}

}
