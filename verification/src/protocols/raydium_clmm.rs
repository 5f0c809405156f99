//! The Raydium pool of concentrated liquidity.
use vstd::prelude::*;

use super::clmm_math::fees::fits_i32;
use super::clmm_math::tick_price::ClmmPoolType;
use super::clmm_quotes::ClmmPool;
use super::quotes::{TierInput, TierQuotes};
use super::tick_arrays::{array_view, stored, TickArrays};
use crate::bytes::{
    i128_at, i32_at, read_bytes_1, read_bytes_32, read_bytes_7, read_i128_le, read_i32_le, read_u128_le,
    read_u16_le, read_u64_le, read_words_16, read_words_24, read_words_32, str_eq, u128_at, u16_at, u64_at,
    words_at,
};

verus! {

pub const RAYDIUM_TICK_ARRAY_SIZE: i32 = 60;

/// The fee rate of every pool, in millionths.
pub const RAYDIUM_FEE_RATE: u16 = 2500;

/// The size of a pool account: its discriminator and its fields.
pub const POOL_SIZE: usize = 1544;

/// The size of a tick array account: its discriminator, its pool, 60 ticks of
/// 116 bytes and its start.
pub const TICK_ARRAY_SIZE: usize = 7004;

#[derive(Copy, Clone, Default)]
pub struct RaydiumPoolState {
    pub bump: [u8; 1],
    pub amm_config: [u8; 32],
    pub owner: [u8; 32],
    pub token_mint_0: [u8; 32],
    pub token_mint_1: [u8; 32],
    pub token_vault_0: [u8; 32],
    pub token_vault_1: [u8; 32],
    pub observation_key: [u8; 32],
    pub mint_decimals_0: u8,
    pub mint_decimals_1: u8,
    pub tick_spacing: u16,
    pub liquidity: u128,
    pub sqrt_price_x64: u128,
    pub tick_current: i32,
    pub padding3: u16,
    pub padding4: u16,
    pub fee_growth_global_0_x64: u128,
    pub fee_growth_global_1_x64: u128,
    pub protocol_fees_token_0: u64,
    pub protocol_fees_token_1: u64,
    pub swap_in_amount_token_0: u128,
    pub swap_out_amount_token_1: u128,
    pub swap_in_amount_token_1: u128,
    pub swap_out_amount_token_0: u128,
    pub status: u8,
    pub padding: [u8; 7],
    pub reward_infos: [RaydiumRewardInfo; 3],
    pub tick_array_bitmap: [u64; 16],
    pub total_fees_token_0: u64,
    pub total_fees_claimed_token_0: u64,
    pub total_fees_token_1: u64,
    pub total_fees_claimed_token_1: u64,
    pub fund_fees_token_0: u64,
    pub fund_fees_token_1: u64,
    pub open_time: u64,
    pub recent_epoch: u64,
    pub padding1: [u64; 24],
    pub padding2: [u64; 32],
}

#[derive(Debug, Copy, Clone, Default, PartialEq, Eq)]
pub struct RaydiumRewardInfo {
    pub reward_state: u8,
    pub open_time: u64,
    pub end_time: u64,
    pub last_update_time: u64,
    pub emissions_per_second_x64: u128,
    pub reward_total_emissioned: u64,
    pub reward_claimed: u64,
    pub token_mint: [u8; 32],
    pub token_vault: [u8; 32],
    pub authority: [u8; 32],
    pub reward_growth_global_x64: u128,
}

impl RaydiumRewardInfo {
    /// Whether the fields are those at a place of the data.
    pub open spec fn lies_at(self, d: Seq<u8>, at: int) -> bool {
        &&& self.reward_state == d[at]
        &&& self.open_time == u64_at(d, at + 1)
        &&& self.end_time == u64_at(d, at + 9)
        &&& self.last_update_time == u64_at(d, at + 17)
        &&& self.emissions_per_second_x64 == u128_at(d, at + 25)
        &&& self.reward_total_emissioned == u64_at(d, at + 41)
        &&& self.reward_claimed == u64_at(d, at + 49)
        &&& self.token_mint@ == d.subrange(at + 57, at + 89)
        &&& self.token_vault@ == d.subrange(at + 89, at + 121)
        &&& self.authority@ == d.subrange(at + 121, at + 153)
        &&& self.reward_growth_global_x64 == u128_at(d, at + 153)
    }

    fn read(data: &[u8], at: usize) -> (r: Self)
        requires
            at + 169 <= data.len(),
        ensures
            r.lies_at(data@, at as int),
    {
        RaydiumRewardInfo {
            reward_state: data[at],
            open_time: read_u64_le(data, at + 1),
            end_time: read_u64_le(data, at + 9),
            last_update_time: read_u64_le(data, at + 17),
            emissions_per_second_x64: read_u128_le(data, at + 25),
            reward_total_emissioned: read_u64_le(data, at + 41),
            reward_claimed: read_u64_le(data, at + 49),
            token_mint: read_bytes_32(data, at + 57),
            token_vault: read_bytes_32(data, at + 89),
            authority: read_bytes_32(data, at + 121),
            reward_growth_global_x64: read_u128_le(data, at + 153),
        }
    }
}

impl RaydiumPoolState {
    /// Whether the fields are those of a pool account.
    pub open spec fn describes(self, d: Seq<u8>) -> bool {
        &&& self.bump@ == d.subrange(8, 9)
        &&& self.amm_config@ == d.subrange(9, 41)
        &&& self.owner@ == d.subrange(41, 73)
        &&& self.token_mint_0@ == d.subrange(73, 105)
        &&& self.token_mint_1@ == d.subrange(105, 137)
        &&& self.token_vault_0@ == d.subrange(137, 169)
        &&& self.token_vault_1@ == d.subrange(169, 201)
        &&& self.observation_key@ == d.subrange(201, 233)
        &&& self.mint_decimals_0 == d[233]
        &&& self.mint_decimals_1 == d[234]
        &&& self.tick_spacing == u16_at(d, 235)
        &&& self.liquidity == u128_at(d, 237)
        &&& self.sqrt_price_x64 == u128_at(d, 253)
        &&& self.tick_current == i32_at(d, 269)
        &&& self.padding3 == u16_at(d, 273)
        &&& self.padding4 == u16_at(d, 275)
        &&& self.fee_growth_global_0_x64 == u128_at(d, 277)
        &&& self.fee_growth_global_1_x64 == u128_at(d, 293)
        &&& self.protocol_fees_token_0 == u64_at(d, 309)
        &&& self.protocol_fees_token_1 == u64_at(d, 317)
        &&& self.swap_in_amount_token_0 == u128_at(d, 325)
        &&& self.swap_out_amount_token_1 == u128_at(d, 341)
        &&& self.swap_in_amount_token_1 == u128_at(d, 357)
        &&& self.swap_out_amount_token_0 == u128_at(d, 373)
        &&& self.status == d[389]
        &&& self.padding@ == d.subrange(390, 397)
        &&& self.reward_infos[0].lies_at(d, 397)
        &&& self.reward_infos[1].lies_at(d, 566)
        &&& self.reward_infos[2].lies_at(d, 735)
        &&& self.tick_array_bitmap@ == words_at(d, 904, 16)
        &&& self.total_fees_token_0 == u64_at(d, 1032)
        &&& self.total_fees_claimed_token_0 == u64_at(d, 1040)
        &&& self.total_fees_token_1 == u64_at(d, 1048)
        &&& self.total_fees_claimed_token_1 == u64_at(d, 1056)
        &&& self.fund_fees_token_0 == u64_at(d, 1064)
        &&& self.fund_fees_token_1 == u64_at(d, 1072)
        &&& self.open_time == u64_at(d, 1080)
        &&& self.recent_epoch == u64_at(d, 1088)
        &&& self.padding1@ == words_at(d, 1096, 24)
        &&& self.padding2@ == words_at(d, 1288, 32)
    }

    /// Reads a pool account; nothing where it is too short.
    pub fn read(data: &[u8]) -> (r: Option<Self>)
        ensures
            r is Some == (data@.len() >= POOL_SIZE),
            r is Some ==> r->0.describes(data@),
    {
        if data.len() < POOL_SIZE {
            return None;
        }
        Some(
            RaydiumPoolState {
                bump: read_bytes_1(data, 8),
                amm_config: read_bytes_32(data, 9),
                owner: read_bytes_32(data, 41),
                token_mint_0: read_bytes_32(data, 73),
                token_mint_1: read_bytes_32(data, 105),
                token_vault_0: read_bytes_32(data, 137),
                token_vault_1: read_bytes_32(data, 169),
                observation_key: read_bytes_32(data, 201),
                mint_decimals_0: data[233],
                mint_decimals_1: data[234],
                tick_spacing: read_u16_le(data, 235),
                liquidity: read_u128_le(data, 237),
                sqrt_price_x64: read_u128_le(data, 253),
                tick_current: read_i32_le(data, 269),
                padding3: read_u16_le(data, 273),
                padding4: read_u16_le(data, 275),
                fee_growth_global_0_x64: read_u128_le(data, 277),
                fee_growth_global_1_x64: read_u128_le(data, 293),
                protocol_fees_token_0: read_u64_le(data, 309),
                protocol_fees_token_1: read_u64_le(data, 317),
                swap_in_amount_token_0: read_u128_le(data, 325),
                swap_out_amount_token_1: read_u128_le(data, 341),
                swap_in_amount_token_1: read_u128_le(data, 357),
                swap_out_amount_token_0: read_u128_le(data, 373),
                status: data[389],
                padding: read_bytes_7(data, 390),
                reward_infos: [RaydiumRewardInfo::read(data, 397), RaydiumRewardInfo::read(data, 566), RaydiumRewardInfo::read(data, 735)],
                tick_array_bitmap: read_words_16(data, 904),
                total_fees_token_0: read_u64_le(data, 1032),
                total_fees_claimed_token_0: read_u64_le(data, 1040),
                total_fees_token_1: read_u64_le(data, 1048),
                total_fees_claimed_token_1: read_u64_le(data, 1056),
                fund_fees_token_0: read_u64_le(data, 1064),
                fund_fees_token_1: read_u64_le(data, 1072),
                open_time: read_u64_le(data, 1080),
                recent_epoch: read_u64_le(data, 1088),
                padding1: read_words_24(data, 1096),
                padding2: read_words_32(data, 1288),
            },
        )
    }
}

/// What a swap needs to know of a pool.
#[derive(Debug, Clone, Copy, PartialEq, Eq, Structural)]
pub struct ParsedRaydiumPool {
    pub liquidity: u128,
    pub sqrt_price_x64: u128,
    pub tick_current: i32,
    pub tick_spacing: u16,
    pub fee_rate: u16,
}

/// The pool of an account; nothing where it is too short.
pub open spec fn pool_at(d: Seq<u8>) -> Option<ParsedRaydiumPool> {
    if d.len() >= POOL_SIZE {
        Some(
            ParsedRaydiumPool {
                liquidity: u128_at(d, 237) as u128,
                sqrt_price_x64: u128_at(d, 253) as u128,
                tick_current: i32_at(d, 269) as i32,
                tick_spacing: u16_at(d, 235) as u16,
                fee_rate: RAYDIUM_FEE_RATE,
            },
        )
    } else {
        None
    }
}

pub fn parse_raydium_pool(data: &[u8]) -> (r: Option<ParsedRaydiumPool>)
    ensures
        r == pool_at(data@),
{
    let pool = RaydiumPoolState::read(data)?;
    Some(
        ParsedRaydiumPool {
            liquidity: pool.liquidity,
            sqrt_price_x64: pool.sqrt_price_x64,
            tick_current: pool.tick_current,
            tick_spacing: pool.tick_spacing,
            fee_rate: RAYDIUM_FEE_RATE,
        },
    )
}

/// Whether a tick of an array holds liquidity.
pub open spec fn initialized(d: Seq<u8>, i: int) -> bool {
    u128_at(d, 60 + 116 * i) > 0
}

/// The index of a tick of an array.
pub open spec fn tick_index(d: Seq<u8>, spacing: int, i: int) -> int {
    i32_at(d, 7000) + i * spacing
}

/// The first `n` ticks of an array, without those that hold no liquidity.
pub open spec fn ticks_up_to(d: Seq<u8>, spacing: int, n: nat) -> Seq<(i32, i128)>
    decreases n,
{
    if n == 0 {
        Seq::empty()
    } else {
        let i = n - 1;
        let rest = ticks_up_to(d, spacing, i as nat);
        if initialized(d, i) {
            rest.push((tick_index(d, spacing, i) as i32, i128_at(d, 44 + 116 * i) as i128))
        } else {
            rest
        }
    }
}

/// The tick array of an account. The inner option is empty where the account
/// is too short; the outer one where an index leaves 32 bits.
pub open spec fn tick_array_at(d: Seq<u8>, spacing: int) -> Option<Option<(i32, Seq<(i32, i128)>)>> {
    if d.len() < TICK_ARRAY_SIZE {
        Some(None)
    } else if forall|i: int|
        0 <= i < RAYDIUM_TICK_ARRAY_SIZE && #[trigger] initialized(d, i) ==> fits_i32(tick_index(d, spacing, i)) {
        Some(Some((i32_at(d, 7000) as i32, ticks_up_to(d, spacing, 60))))
    } else {
        None
    }
}

pub fn try_parse_raydium_tick_array(data: &[u8], tick_spacing: u16) -> (r: Option<
    Option<(i32, Vec<(i32, i128)>)>,
>)
    ensures
        array_view(r) == tick_array_at(data@, tick_spacing as int),
{
    if data.len() < TICK_ARRAY_SIZE {
        return Some(None);
    }
    let start = read_i32_le(data, 7000);
    let mut ticks: Vec<(i32, i128)> = Vec::new();
    let mut i: usize = 0;
    while i < 60
        invariant
            i <= 60,
            data.len() >= TICK_ARRAY_SIZE,
            start == i32_at(data@, 7000),
            ticks@ == ticks_up_to(data@, tick_spacing as int, i as nat),
            forall|k: int|
                0 <= k < i && #[trigger] initialized(data@, k) ==> fits_i32(
                    tick_index(data@, tick_spacing as int, k),
                ),
        decreases 60 - i,
    {
        let offset = 40 + 116 * i;
        let net = read_i128_le(data, offset + 4);
        let gross = read_u128_le(data, offset + 20);
        if gross > 0 {
            assert(initialized(data@, i as int));
            assert(0 <= i * tick_spacing <= 60 * 65535) by (nonlinear_arith)
                requires
                    0 <= i <= 60,
                    0 <= tick_spacing <= 65535,
            ;
            let index = start.checked_add(i as i32 * tick_spacing as i32)?;
            ticks.push((index, net));
        }
        i = i + 1;
    }
    Some(Some((start, ticks)))
}

/// What is known of a Raydium pool.
#[verifier::ext_equal]
pub struct RaydiumView {
    pub pool_state: Option<ParsedRaydiumPool>,
    pub tick_arrays: Seq<(i32, Seq<(i32, i128)>)>,
    pub last_slot: u64,
    pub has_pool: bool,
}

#[derive(Debug)]
pub struct RaydiumClmmReplay {
    pub pool_state: Option<ParsedRaydiumPool>,
    pub tick_arrays: TickArrays,
    pub last_slot: u64,
    pub has_pool: bool,
}

impl View for RaydiumClmmReplay {
    type V = RaydiumView;

    open spec fn view(&self) -> RaydiumView {
        RaydiumView {
            pool_state: self.pool_state,
            tick_arrays: self.tick_arrays@,
            last_slot: self.last_slot,
            has_pool: self.has_pool,
        }
    }
}

impl RaydiumView {
    pub open spec fn fresh() -> Self {
        RaydiumView { pool_state: None, tick_arrays: Seq::empty(), last_slot: 0, has_pool: false }
    }

    /// Whether the indices of a tick array stay within 32 bits.
    pub open spec fn accepts(self, role: Seq<char>, data: Seq<u8>) -> bool {
        role != "pool"@ && self.pool_state is Some ==> tick_array_at(
            data,
            self.pool_state->0.tick_spacing as int,
        ) is Some
    }

    /// The replay after an account update; what is not the pool is a tick
    /// array, and is taken once the pool is known.
    #[verifier::opaque]
    pub open spec fn updated(self, role: Seq<char>, data: Seq<u8>, slot: u64) -> Self {
        let now = RaydiumView { last_slot: slot, ..self };
        if role == "pool"@ {
            match pool_at(data) {
                Some(pool) => RaydiumView { pool_state: Some(pool), has_pool: true, ..now },
                None => now,
            }
        } else {
            match self.pool_state {
                None => now,
                Some(pool) => match tick_array_at(data, pool.tick_spacing as int) {
                    Some(Some(a)) => RaydiumView { tick_arrays: stored(self.tick_arrays, a.0, a.1), ..now },
                    _ => now,
                },
            }
        }
    }

    pub open spec fn ready(self) -> bool {
        self.has_pool && self.pool_state is Some && self.pool_state->0.liquidity > 0
            && self.tick_arrays.len() > 0
    }

    /// The pool at its current price.
    pub open spec fn pool(self) -> ClmmPool {
        let p = self.pool_state->0;
        ClmmPool {
            pool_type: ClmmPoolType::Raydium,
            sqrt_price: p.sqrt_price_x64,
            liquidity: p.liquidity,
            fee_rate: p.fee_rate,
            tick: p.tick_current,
            tick_spacing: p.tick_spacing,
            adaptive_fee_info: None,
            timestamp: 0,
        }
    }

    /// The quotes of a trade size that pay out.
    #[verifier::opaque]
    pub open spec fn tier_quotes(self, tier: TierInput) -> Option<TierQuotes> {
        if self.pool_state is None {
            Some(TierQuotes::nothing())
        } else {
            self.pool().tier_quotes(self.tick_arrays, RAYDIUM_TICK_ARRAY_SIZE as int, tier)
        }
    }
}

impl RaydiumClmmReplay {
    pub open spec fn wf(self) -> bool {
        self.tick_arrays.wf()
    }

    pub fn new() -> (r: Self)
        ensures
            r@ == RaydiumView::fresh(),
            r.wf(),
    {
        RaydiumClmmReplay {
            pool_state: None,
            tick_arrays: TickArrays::new(),
            last_slot: 0,
            has_pool: false,
        }
    }

    pub fn can_apply(&self, role: &str, data: &[u8]) -> (r: bool)
        ensures
            r == self@.accepts(role@, data@),
    {
        if str_eq(role, "pool") {
            return true;
        }
        match self.pool_state {
            None => true,
            Some(pool) => try_parse_raydium_tick_array(data, pool.tick_spacing).is_some(),
        }
    }

    pub fn apply_update(&mut self, role: &str, data: &[u8], slot: u64)
        requires
            old(self).wf(),
            old(self)@.accepts(role@, data@),
        ensures
            final(self)@ == old(self)@.updated(role@, data@, slot),
            final(self).wf(),
    {
        proof {
            reveal(RaydiumView::updated);
        }
        self.last_slot = slot;
        if str_eq(role, "pool") {
            if let Some(pool) = parse_raydium_pool(data) {
                self.pool_state = Some(pool);
                self.has_pool = true;
            }
        } else if let Some(pool) = self.pool_state {
            if let Some(Some((start, ticks))) = try_parse_raydium_tick_array(data, pool.tick_spacing) {
                self.tick_arrays.store(start, ticks);
            }
        }
    }

    pub fn is_ready(&self) -> (r: bool)
        ensures
            r == self@.ready(),
    {
        match self.pool_state {
            Some(pool) => self.has_pool && pool.liquidity > 0 && !self.tick_arrays.is_empty(),
            None => false,
        }
    }

    pub fn try_tier_quotes(&self, tier: &TierInput) -> (r: Option<TierQuotes>)
        requires
            self.wf(),
        ensures
            r == self@.tier_quotes(*tier),
    {
        proof {
            reveal(RaydiumView::tier_quotes);
        }
        let state = match self.pool_state {
            Some(p) => p,
            None => return Some(TierQuotes::none()),
        };
        let pool = ClmmPool {
            pool_type: ClmmPoolType::Raydium,
            sqrt_price: state.sqrt_price_x64,
            liquidity: state.liquidity,
            fee_rate: state.fee_rate,
            tick: state.tick_current,
            tick_spacing: state.tick_spacing,
            adaptive_fee_info: None,
            timestamp: 0,
        };
        pool.try_tier_quotes(&self.tick_arrays, RAYDIUM_TICK_ARRAY_SIZE, tier)
    }
}

/// The account of a pool replaces what was known of the pool, whatever that
/// was: the price, the tick, the liquidity and the spacing that quotes use are
/// those of the account. The ticks stay.
pub proof fn law_pool_account_replaces_the_pool(v: RaydiumView, d: Seq<u8>, slot: u64)
    requires
        d.len() >= 1544,
    ensures
        ({
            let n = v.updated("pool"@, d, slot);
            &&& pool_at(d) is Some && n.pool_state == pool_at(d)
            &&& n.has_pool
            &&& n.pool().sqrt_price == u128_at(d, 253)
            &&& n.pool().liquidity == u128_at(d, 237)
            &&& n.pool().tick == i32_at(d, 269)
            &&& n.pool().tick_spacing == u16_at(d, 235)
            &&& n.pool().fee_rate == 2500
            &&& n.pool().adaptive_fee_info is None
            &&& n.tick_arrays == v.tick_arrays
            &&& n.last_slot == slot
        }),
{
    reveal(RaydiumView::updated);
    lemma_wide_word_fits(d, 253);
    lemma_wide_word_fits(d, 237);
}

/// An account that is too short for a pool leaves the pool as it was.
pub proof fn law_other_account_leaves_the_pool(v: RaydiumView, d: Seq<u8>, slot: u64)
    requires
        d.len() < 1544,
    ensures
        v.updated("pool"@, d, slot) == (RaydiumView { last_slot: slot, ..v }),
{
    reveal(RaydiumView::updated);
}

proof fn lemma_wide_word_fits(d: Seq<u8>, at: int)
    ensures
        0 <= u128_at(d, at) <= u128::MAX,
{
}

proof fn lemma_ticks_listed(d: Seq<u8>, spacing: int, n: nat) -> (at: Seq<int>)
    requires
        n <= 60,
        forall|i: int|
            0 <= i < 60 && #[trigger] initialized(d, i) ==> fits_i32(tick_index(d, spacing, i)),
    ensures
        lists_ticks(d, spacing, n as int, at, ticks_up_to(d, spacing, n)),
    decreases n,
{
    if n == 0 {
        Seq::empty()
    } else {
        let i = n - 1;
        let rest_at = lemma_ticks_listed(d, spacing, i as nat);
        let rest = ticks_up_to(d, spacing, i as nat);
        let ticks = ticks_up_to(d, spacing, n);
        if initialized(d, i) {
            let at = rest_at.push(i);
            assert forall|k: int| 0 <= k < n && #[trigger] holds_tick(d, k) implies at.contains(k) by {
                if k == i {
                    assert(at[rest_at.len() as int] == k);
                } else {
                    assert(rest_at.contains(k));
                    let j = choose|j: int| 0 <= j < rest_at.len() && rest_at[j] == k;
                    assert(at[j] == k);
                }
            }
            at
        } else {
            rest_at
        }
    }
}

/// Whether an array's account holds a tick at a place.
pub open spec fn holds_tick(d: Seq<u8>, i: int) -> bool {
    u128_at(d, 60 + 116 * i) > 0
}

/// Whether ticks are those that an array's account holds among its first `n`
/// places, each once and in order, with the places that they stand at.
pub open spec fn lists_ticks(d: Seq<u8>, spacing: int, n: int, at: Seq<int>, ticks: Seq<(i32, i128)>) -> bool {
    &&& at.len() == ticks.len()
    &&& forall|k: int|
        #![trigger at[k]]
        #![trigger ticks[k]]
        0 <= k < at.len() ==> 0 <= at[k] < n && holds_tick(d, at[k]) && ticks[k].0 == i32_at(d, 7000) + at[k]
            * spacing && ticks[k].1 == i128_at(d, 44 + 116 * at[k])
    &&& forall|j: int, k: int| 0 <= j < k < at.len() ==> #[trigger] at[j] < #[trigger] at[k]
    &&& forall|i: int| 0 <= i < n && #[trigger] holds_tick(d, i) ==> at.contains(i)
}

/// An array's account is stored where it says that the array starts, with every
/// tick that it holds and no other. It touches nothing else of the pool, and
/// the pool's own spacing tells the ticks apart.
pub proof fn law_array_account_holds_its_ticks(v: RaydiumView, role: Seq<char>, d: Seq<u8>, slot: u64) -> (at: Seq<int>)
    requires
        role != "pool"@,
        v.pool_state is Some,
        d.len() >= 7004,
        v.accepts(role, d),
    ensures
        ({
            let n = v.updated(role, d, slot);
            let start = i32_at(d, 7000) as i32;
            &&& n.pool_state == v.pool_state
            &&& n.has_pool == v.has_pool
            &&& n.last_slot == slot
            &&& exists|ticks: Seq<(i32, i128)>|
                n.tick_arrays == stored(v.tick_arrays, start, ticks) && #[trigger] lists_ticks(
                    d,
                    v.pool_state->0.tick_spacing as int,
                    60,
                    at,
                    ticks,
                )
        }),
{
    reveal(RaydiumView::updated);
    let spacing = v.pool_state->0.tick_spacing as int;
    let at = lemma_ticks_listed(d, spacing, 60);
    assert(lists_ticks(d, spacing, 60, at, ticks_up_to(d, spacing, 60)));
    at
}

}
