//! The Orca Whirlpool: concentrated liquidity with a fee that may follow the
//! volatility of the price.
use vstd::prelude::*;

use super::clmm_math::fees::{fits_i32, AdaptiveFeeConstants, AdaptiveFeeInfo, AdaptiveFeeVariables};
use super::clmm_math::tick_price::{tick_index_from_sqrt_price, tick_of_price, ClmmPoolType};
use super::clmm_quotes::ClmmPool;
use super::quotes::{TierInput, TierQuotes};
use super::tick_arrays::{array_view, stored, TickArrays};
use crate::bytes::{
    i128_at, i32_at, read_bytes_128, read_bytes_16, read_bytes_32, read_i128_le, read_i32_le, read_u128_le,
    read_u16_le, read_u32_le, read_u64_le, str_eq, u128_at, u16_at, u32_at, u64_at,
};

verus! {

pub const ORCA_CLMM_TICK_ARR_SIZE: i32 = 88;

pub const WHIRLPOOL_DISCRIMINATOR: [u8; 8] = [63, 149, 209, 12, 225, 0, 85, 169];

pub const MIN_POOL_SIZE: usize = 86;

/// The size of an oracle account: its discriminator and its fields.
pub const ORACLE_SIZE: usize = 254;

/// The size of a tick array account: its discriminator, its start and 88
/// ticks of 113 bytes.
pub const TICK_ARRAY_SIZE: usize = 9956;

#[derive(Debug, Copy, Clone, Default)]
pub struct OrcaCLMMAdaptiveFeeConstants {
    pub filter_period: u16,
    pub decay_period: u16,
    pub reduction_factor: u16,
    pub adaptive_fee_control_factor: u32,
    pub max_volatility_accumulator: u32,
    pub tick_group_size: u16,
    pub major_swap_threshold_ticks: u16,
    pub reserved: [u8; 16],
}

#[derive(Debug, Copy, Clone, Default)]
pub struct OrcaCLMMAdaptiveFeeVariables {
    pub last_reference_update_timestamp: u64,
    pub last_major_swap_timestamp: u64,
    pub volatility_reference: u32,
    pub tick_group_index_reference: i32,
    pub volatility_accumulator: u32,
    pub reserved: [u8; 16],
}

#[derive(Copy, Clone)]
pub struct OrcaCLMMOracle {
    pub whirlpool: [u8; 32],
    pub trade_enable_timestamp: u64,
    pub adaptive_fee_constants: OrcaCLMMAdaptiveFeeConstants,
    pub adaptive_fee_variables: OrcaCLMMAdaptiveFeeVariables,
    pub reserved: [u8; 128],
}

impl OrcaCLMMAdaptiveFeeConstants {
    /// Whether the fields are those at a place of the data.
    pub open spec fn lies_at(self, d: Seq<u8>, at: int) -> bool {
        &&& self.filter_period == u16_at(d, at)
        &&& self.decay_period == u16_at(d, at + 2)
        &&& self.reduction_factor == u16_at(d, at + 4)
        &&& self.adaptive_fee_control_factor == u32_at(d, at + 6)
        &&& self.max_volatility_accumulator == u32_at(d, at + 10)
        &&& self.tick_group_size == u16_at(d, at + 14)
        &&& self.major_swap_threshold_ticks == u16_at(d, at + 16)
        &&& self.reserved@ == d.subrange(at + 18, at + 34)
    }

    fn read(data: &[u8], at: usize) -> (r: Self)
        requires
            at + 34 <= data.len(),
        ensures
            r.lies_at(data@, at as int),
    {
        OrcaCLMMAdaptiveFeeConstants {
            filter_period: read_u16_le(data, at),
            decay_period: read_u16_le(data, at + 2),
            reduction_factor: read_u16_le(data, at + 4),
            adaptive_fee_control_factor: read_u32_le(data, at + 6),
            max_volatility_accumulator: read_u32_le(data, at + 10),
            tick_group_size: read_u16_le(data, at + 14),
            major_swap_threshold_ticks: read_u16_le(data, at + 16),
            reserved: read_bytes_16(data, at + 18),
        }
    }
}

impl OrcaCLMMAdaptiveFeeVariables {
    /// Whether the fields are those at a place of the data.
    pub open spec fn lies_at(self, d: Seq<u8>, at: int) -> bool {
        &&& self.last_reference_update_timestamp == u64_at(d, at)
        &&& self.last_major_swap_timestamp == u64_at(d, at + 8)
        &&& self.volatility_reference == u32_at(d, at + 16)
        &&& self.tick_group_index_reference == i32_at(d, at + 20)
        &&& self.volatility_accumulator == u32_at(d, at + 24)
        &&& self.reserved@ == d.subrange(at + 28, at + 44)
    }

    fn read(data: &[u8], at: usize) -> (r: Self)
        requires
            at + 44 <= data.len(),
        ensures
            r.lies_at(data@, at as int),
    {
        OrcaCLMMAdaptiveFeeVariables {
            last_reference_update_timestamp: read_u64_le(data, at),
            last_major_swap_timestamp: read_u64_le(data, at + 8),
            volatility_reference: read_u32_le(data, at + 16),
            tick_group_index_reference: read_i32_le(data, at + 20),
            volatility_accumulator: read_u32_le(data, at + 24),
            reserved: read_bytes_16(data, at + 28),
        }
    }
}

impl OrcaCLMMOracle {
    /// Whether the fields are those of an oracle account.
    pub open spec fn describes(self, d: Seq<u8>) -> bool {
        &&& self.whirlpool@ == d.subrange(8, 40)
        &&& self.trade_enable_timestamp == u64_at(d, 40)
        &&& self.adaptive_fee_constants.lies_at(d, 48)
        &&& self.adaptive_fee_variables.lies_at(d, 82)
        &&& self.reserved@ == d.subrange(126, 254)
    }

    /// Reads an oracle account; nothing where it is too short.
    pub fn read(data: &[u8]) -> (r: Option<Self>)
        ensures
            r is Some == (data@.len() >= ORACLE_SIZE),
            r is Some ==> r->0.describes(data@),
    {
        if data.len() < ORACLE_SIZE {
            return None;
        }
        Some(
            OrcaCLMMOracle {
                whirlpool: read_bytes_32(data, 8),
                trade_enable_timestamp: read_u64_le(data, 40),
                adaptive_fee_constants: OrcaCLMMAdaptiveFeeConstants::read(data, 48),
                adaptive_fee_variables: OrcaCLMMAdaptiveFeeVariables::read(data, 82),
                reserved: read_bytes_128(data, 126),
            },
        )
    }

    /// What a swap needs to know of the oracle.
    pub open spec fn fee_info(self) -> AdaptiveFeeInfo {
        let c = self.adaptive_fee_constants;
        let v = self.adaptive_fee_variables;
        AdaptiveFeeInfo {
            constants: AdaptiveFeeConstants {
                filter_period: c.filter_period,
                decay_period: c.decay_period,
                reduction_factor: c.reduction_factor,
                adaptive_fee_control_factor: c.adaptive_fee_control_factor,
                max_volatility_accumulator: c.max_volatility_accumulator,
                tick_group_size: c.tick_group_size,
            },
            variables: AdaptiveFeeVariables {
                last_reference_update_timestamp: v.last_reference_update_timestamp,
                last_major_swap_timestamp: v.last_major_swap_timestamp,
                volatility_reference: v.volatility_reference,
                tick_group_index_reference: v.tick_group_index_reference,
                volatility_accumulator: v.volatility_accumulator,
            },
        }
    }

    pub fn to_adaptive_fee_info(&self) -> (r: AdaptiveFeeInfo)
        ensures
            r == self.fee_info(),
    {
        let c = self.adaptive_fee_constants;
        let v = self.adaptive_fee_variables;
        AdaptiveFeeInfo {
            constants: AdaptiveFeeConstants {
                filter_period: c.filter_period,
                decay_period: c.decay_period,
                reduction_factor: c.reduction_factor,
                adaptive_fee_control_factor: c.adaptive_fee_control_factor,
                max_volatility_accumulator: c.max_volatility_accumulator,
                tick_group_size: c.tick_group_size,
            },
            variables: AdaptiveFeeVariables {
                last_reference_update_timestamp: v.last_reference_update_timestamp,
                last_major_swap_timestamp: v.last_major_swap_timestamp,
                volatility_reference: v.volatility_reference,
                tick_group_index_reference: v.tick_group_index_reference,
                volatility_accumulator: v.volatility_accumulator,
            },
        }
    }
}

/// What a swap needs to know of an oracle account.
pub open spec fn fee_info_at(d: Seq<u8>) -> AdaptiveFeeInfo {
    AdaptiveFeeInfo {
        constants: AdaptiveFeeConstants {
            filter_period: u16_at(d, 48) as u16,
            decay_period: u16_at(d, 50) as u16,
            reduction_factor: u16_at(d, 52) as u16,
            adaptive_fee_control_factor: u32_at(d, 54) as u32,
            max_volatility_accumulator: u32_at(d, 58) as u32,
            tick_group_size: u16_at(d, 62) as u16,
        },
        variables: AdaptiveFeeVariables {
            last_reference_update_timestamp: u64_at(d, 82) as u64,
            last_major_swap_timestamp: u64_at(d, 90) as u64,
            volatility_reference: u32_at(d, 98) as u32,
            tick_group_index_reference: i32_at(d, 102) as i32,
            volatility_accumulator: u32_at(d, 106) as u32,
        },
    }
}

#[derive(Debug, Clone, Copy, PartialEq, Eq, Structural)]
pub struct OrcaPoolState {
    pub liquidity: u128,
    pub sqrt_price: u128,
    pub tick_spacing: u16,
    pub fee_rate: u16,
}

/// The pool of an account; nothing where it is too short or of another kind.
pub open spec fn pool_at(d: Seq<u8>) -> Option<OrcaPoolState> {
    if d.len() >= MIN_POOL_SIZE && d.take(8) == WHIRLPOOL_DISCRIMINATOR@ {
        Some(
            OrcaPoolState {
                liquidity: u128_at(d, 50) as u128,
                sqrt_price: u128_at(d, 66) as u128,
                tick_spacing: u16_at(d, 42) as u16,
                fee_rate: u16_at(d, 46) as u16,
            },
        )
    } else {
        None
    }
}

pub fn parse_orca_pool(data: &[u8]) -> (r: Option<OrcaPoolState>)
    ensures
        r == pool_at(data@),
{
    if data.len() < MIN_POOL_SIZE {
        return None;
    }
    let mut i: usize = 0;
    while i < 8
        invariant
            i <= 8,
            data@.len() >= 86,
            forall|k: int| 0 <= k < i ==> data@[k] == WHIRLPOOL_DISCRIMINATOR@[k],
        decreases 8 - i,
    {
        if data[i] != WHIRLPOOL_DISCRIMINATOR[i] {
            assert(data@.take(8)[i as int] != WHIRLPOOL_DISCRIMINATOR@[i as int]);
            return None;
        }
        i = i + 1;
    }
    assert(data@.take(8) =~= WHIRLPOOL_DISCRIMINATOR@);
    Some(
        OrcaPoolState {
            liquidity: read_u128_le(data, 50),
            sqrt_price: read_u128_le(data, 66),
            tick_spacing: read_u16_le(data, 42),
            fee_rate: read_u16_le(data, 46),
        },
    )
}

/// Whether a tick of an array is initialized.
pub open spec fn initialized(d: Seq<u8>, i: int) -> bool {
    d[12 + 113 * i] != 0
}

/// The index of a tick of an array.
pub open spec fn tick_index(d: Seq<u8>, spacing: int, i: int) -> int {
    i32_at(d, 8) + i * spacing
}

/// The first `n` ticks of an array, without those that are not initialized.
pub open spec fn ticks_up_to(d: Seq<u8>, spacing: int, n: nat) -> Seq<(i32, i128)>
    decreases n,
{
    if n == 0 {
        Seq::empty()
    } else {
        let i = n - 1;
        let rest = ticks_up_to(d, spacing, i as nat);
        if initialized(d, i) {
            rest.push((tick_index(d, spacing, i) as i32, i128_at(d, 13 + 113 * i) as i128))
        } else {
            rest
        }
    }
}

/// The tick array of an account. The inner option is empty where the account
/// is too short; the outer one where an index leaves 32 bits.
pub open spec fn tick_array_at(d: Seq<u8>, spacing: int) -> Option<Option<(i32, Seq<(i32, i128)>)>> {
    if d.len() < TICK_ARRAY_SIZE {
        Some(None)
    } else if forall|i: int|
        0 <= i < ORCA_CLMM_TICK_ARR_SIZE && #[trigger] initialized(d, i) ==> fits_i32(tick_index(d, spacing, i)) {
        Some(Some((i32_at(d, 8) as i32, ticks_up_to(d, spacing, 88))))
    } else {
        None
    }
}

pub fn try_parse_orca_tick_array(data: &[u8], tick_spacing: u16) -> (r: Option<Option<(i32, Vec<(i32, i128)>)>>)
    ensures
        array_view(r) == tick_array_at(data@, tick_spacing as int),
{
    if data.len() < TICK_ARRAY_SIZE {
        return Some(None);
    }
    let start = read_i32_le(data, 8);
    let mut ticks: Vec<(i32, i128)> = Vec::new();
    let mut i: usize = 0;
    while i < 88
        invariant
            i <= 88,
            data.len() >= TICK_ARRAY_SIZE,
            start == i32_at(data@, 8),
            ticks@ == ticks_up_to(data@, tick_spacing as int, i as nat),
            forall|k: int|
                0 <= k < i && #[trigger] initialized(data@, k) ==> fits_i32(
                    tick_index(data@, tick_spacing as int, k),
                ),
        decreases 88 - i,
    {
        let offset = 12 + 113 * i;
        if data[offset] != 0 {
            let net = read_i128_le(data, offset + 1);
            assert(initialized(data@, i as int));
            assert(0 <= i * tick_spacing <= 88 * 65535) by (nonlinear_arith)
                requires
                    0 <= i <= 88,
                    0 <= tick_spacing <= 65535,
            ;
            let index = start.checked_add(i as i32 * tick_spacing as i32)?;
            ticks.push((index, net));
        }
        i = i + 1;
    }
    Some(Some((start, ticks)))
}

/// What is known of a Whirlpool.
#[verifier::ext_equal]
pub struct OrcaView {
    pub pool_state: Option<OrcaPoolState>,
    pub adaptive_fee_info: Option<AdaptiveFeeInfo>,
    pub tick_arrays: Seq<(i32, Seq<(i32, i128)>)>,
    pub last_slot: u64,
    pub has_pool: bool,
}

#[derive(Debug)]
pub struct OrcaClmmReplay {
    pub pool_state: Option<OrcaPoolState>,
    pub adaptive_fee_info: Option<AdaptiveFeeInfo>,
    pub tick_arrays: TickArrays,
    pub last_slot: u64,
    pub has_pool: bool,
}

impl View for OrcaClmmReplay {
    type V = OrcaView;

    open spec fn view(&self) -> OrcaView {
        OrcaView {
            pool_state: self.pool_state,
            adaptive_fee_info: self.adaptive_fee_info,
            tick_arrays: self.tick_arrays@,
            last_slot: self.last_slot,
            has_pool: self.has_pool,
        }
    }
}

impl OrcaView {
    pub open spec fn fresh() -> Self {
        OrcaView {
            pool_state: None,
            adaptive_fee_info: None,
            tick_arrays: Seq::empty(),
            last_slot: 0,
            has_pool: false,
        }
    }

    /// Whether the indices of a tick array stay within 32 bits.
    pub open spec fn accepts(self, role: Seq<char>, data: Seq<u8>) -> bool {
        role != "pool"@ && role != "oracle"@ && self.pool_state is Some ==> tick_array_at(
            data,
            self.pool_state->0.tick_spacing as int,
        ) is Some
    }

    /// The replay after an account update; what is neither the pool nor its
    /// oracle is a tick array, and is taken once the pool is known.
    #[verifier::opaque]
    pub open spec fn updated(self, role: Seq<char>, data: Seq<u8>, slot: u64) -> Self {
        let now = OrcaView { last_slot: slot, ..self };
        if role == "pool"@ {
            match pool_at(data) {
                Some(pool) => OrcaView { pool_state: Some(pool), has_pool: true, ..now },
                None => now,
            }
        } else if role == "oracle"@ {
            if data.len() >= ORACLE_SIZE {
                OrcaView { adaptive_fee_info: Some(fee_info_at(data)), ..now }
            } else {
                now
            }
        } else {
            match self.pool_state {
                None => now,
                Some(pool) => match tick_array_at(data, pool.tick_spacing as int) {
                    Some(Some(a)) => OrcaView { tick_arrays: stored(self.tick_arrays, a.0, a.1), ..now },
                    _ => now,
                },
            }
        }
    }

    pub open spec fn ready(self) -> bool {
        self.has_pool && self.pool_state is Some && self.pool_state->0.liquidity > 0
            && self.tick_arrays.len() > 0
    }

    /// The pool at its current price.
    pub open spec fn pool(self) -> ClmmPool {
        let p = self.pool_state->0;
        ClmmPool {
            pool_type: ClmmPoolType::Orca,
            sqrt_price: p.sqrt_price,
            liquidity: p.liquidity,
            fee_rate: p.fee_rate,
            tick: if p.sqrt_price > 0 {
                tick_of_price(p.sqrt_price as int) as i32
            } else {
                0
            },
            tick_spacing: p.tick_spacing,
            adaptive_fee_info: self.adaptive_fee_info,
            timestamp: self.last_slot,
        }
    }

    /// The quotes of a trade size that pay out.
    #[verifier::opaque]
    pub open spec fn tier_quotes(self, tier: TierInput) -> Option<TierQuotes> {
        if self.pool_state is None {
            Some(TierQuotes::nothing())
        } else {
            self.pool().tier_quotes(self.tick_arrays, ORCA_CLMM_TICK_ARR_SIZE as int, tier)
        }
    }
}

impl OrcaClmmReplay {
    pub open spec fn wf(self) -> bool {
        self.tick_arrays.wf()
    }

    pub fn new() -> (r: Self)
        ensures
            r@ == OrcaView::fresh(),
            r.wf(),
    {
        OrcaClmmReplay {
            pool_state: None,
            adaptive_fee_info: None,
            tick_arrays: TickArrays::new(),
            last_slot: 0,
            has_pool: false,
        }
    }

    pub fn can_apply(&self, role: &str, data: &[u8]) -> (r: bool)
        ensures
            r == self@.accepts(role@, data@),
    {
        if str_eq(role, "pool") || str_eq(role, "oracle") {
            return true;
        }
        match self.pool_state {
            None => true,
            Some(pool) => try_parse_orca_tick_array(data, pool.tick_spacing).is_some(),
        }
    }

    pub fn apply_update(&mut self, role: &str, data: &[u8], slot: u64)
        requires
            old(self).wf(),
            old(self)@.accepts(role@, data@),
        ensures
            final(self)@ == old(self)@.updated(role@, data@, slot),
            final(self).wf(),
    {
        proof {
            reveal(OrcaView::updated);
        }
        self.last_slot = slot;
        if str_eq(role, "pool") {
            if let Some(pool) = parse_orca_pool(data) {
                self.pool_state = Some(pool);
                self.has_pool = true;
            }
        } else if str_eq(role, "oracle") {
            if let Some(oracle) = OrcaCLMMOracle::read(data) {
                self.adaptive_fee_info = Some(oracle.to_adaptive_fee_info());
            }
        } else if let Some(pool) = self.pool_state {
            if let Some(Some((start, ticks))) = try_parse_orca_tick_array(data, pool.tick_spacing) {
                self.tick_arrays.store(start, ticks);
            }
        }
    }

    pub fn is_ready(&self) -> (r: bool)
        ensures
            r == self@.ready(),
    {
        match self.pool_state {
            Some(pool) => self.has_pool && pool.liquidity > 0 && !self.tick_arrays.is_empty(),
            None => false,
        }
    }

    pub fn try_tier_quotes(&self, tier: &TierInput) -> (r: Option<TierQuotes>)
        requires
            self.wf(),
        ensures
            r == self@.tier_quotes(*tier),
    {
        proof {
            reveal(OrcaView::tier_quotes);
        }
        let state = match self.pool_state {
            Some(p) => p,
            None => return Some(TierQuotes::none()),
        };
        let tick: i32 = if state.sqrt_price > 0 {
            tick_index_from_sqrt_price(&state.sqrt_price)
        } else {
            0
        };
        let pool = ClmmPool {
            pool_type: ClmmPoolType::Orca,
            sqrt_price: state.sqrt_price,
            liquidity: state.liquidity,
            fee_rate: state.fee_rate,
            tick,
            tick_spacing: state.tick_spacing,
            adaptive_fee_info: self.adaptive_fee_info,
            timestamp: self.last_slot,
        };
        pool.try_tier_quotes(&self.tick_arrays, ORCA_CLMM_TICK_ARR_SIZE, tier)
    }
}

/// The account of a pool replaces what was known of the pool, whatever that
/// was: the price, the liquidity, the spacing and the fee rate that quotes use
/// are those of the account. The ticks and the fee's state stay.
pub proof fn law_pool_account_replaces_the_pool(v: OrcaView, d: Seq<u8>, slot: u64)
    requires
        d.len() >= 86,
        d.take(8) == seq![63u8, 149, 209, 12, 225, 0, 85, 169],
    ensures
        ({
            let n = v.updated("pool"@, d, slot);
            &&& pool_at(d) is Some && n.pool_state == pool_at(d)
            &&& n.has_pool
            &&& n.pool().sqrt_price == u128_at(d, 66)
            &&& n.pool().liquidity == u128_at(d, 50)
            &&& n.pool().tick_spacing == u16_at(d, 42)
            &&& n.pool().fee_rate == u16_at(d, 46)
            &&& n.pool().timestamp == slot
            &&& n.pool().adaptive_fee_info == v.adaptive_fee_info
            &&& n.tick_arrays == v.tick_arrays
            &&& n.adaptive_fee_info == v.adaptive_fee_info
            &&& n.last_slot == slot
        }),
{
    reveal(OrcaView::updated);
    assert(WHIRLPOOL_DISCRIMINATOR@ =~= seq![63u8, 149, 209, 12, 225, 0, 85, 169]);
    lemma_wide_word_fits(d, 66);
    lemma_wide_word_fits(d, 50);
}

/// An account that is too short, or without the mark of a pool, leaves the pool
/// as it was.
pub proof fn law_other_account_leaves_the_pool(v: OrcaView, d: Seq<u8>, slot: u64)
    requires
        d.len() < 86 || d.take(8) != seq![63u8, 149, 209, 12, 225, 0, 85, 169],
    ensures
        v.updated("pool"@, d, slot) == (OrcaView { last_slot: slot, ..v }),
{
    reveal(OrcaView::updated);
    assert(WHIRLPOOL_DISCRIMINATOR@ =~= seq![63u8, 149, 209, 12, 225, 0, 85, 169]);
}

/// The oracle's account replaces the state of the fee, whatever that was, and
/// touches nothing else of the pool.
pub proof fn law_oracle_account_replaces_the_fee(v: OrcaView, earlier: Seq<u8>, d: Seq<u8>, slot_1: u64, slot_2: u64)
    requires
        d.len() >= 254,
    ensures
        ({
            let n = v.updated("oracle"@, d, slot_2);
            let f = n.adaptive_fee_info->0;
            &&& v.updated("oracle"@, earlier, slot_1).updated("oracle"@, d, slot_2) == n
            &&& n.adaptive_fee_info is Some
            &&& f.constants.filter_period == u16_at(d, 48)
            &&& f.constants.decay_period == u16_at(d, 50)
            &&& f.constants.reduction_factor == u16_at(d, 52)
            &&& f.constants.adaptive_fee_control_factor == u32_at(d, 54)
            &&& f.constants.max_volatility_accumulator == u32_at(d, 58)
            &&& f.constants.tick_group_size == u16_at(d, 62)
            &&& f.variables.last_reference_update_timestamp == u64_at(d, 82)
            &&& f.variables.last_major_swap_timestamp == u64_at(d, 90)
            &&& f.variables.volatility_reference == u32_at(d, 98)
            &&& f.variables.tick_group_index_reference == i32_at(d, 102)
            &&& f.variables.volatility_accumulator == u32_at(d, 106)
            &&& n.pool_state == v.pool_state
            &&& n.has_pool == v.has_pool
            &&& n.tick_arrays == v.tick_arrays
        }),
{
    reveal(OrcaView::updated);
    reveal_strlit("pool");
    reveal_strlit("oracle");
    assert("pool"@.len() != "oracle"@.len());
}

proof fn lemma_wide_word_fits(d: Seq<u8>, at: int)
    ensures
        0 <= u128_at(d, at) <= u128::MAX,
{
}

proof fn lemma_ticks_listed(d: Seq<u8>, spacing: int, n: nat) -> (at: Seq<int>)
    requires
        n <= 88,
        forall|i: int|
            0 <= i < 88 && #[trigger] initialized(d, i) ==> fits_i32(tick_index(d, spacing, i)),
    ensures
        lists_ticks(d, spacing, n as int, at, ticks_up_to(d, spacing, n)),
    decreases n,
{
    if n == 0 {
        Seq::empty()
    } else {
        let i = n - 1;
        let rest_at = lemma_ticks_listed(d, spacing, i as nat);
        let rest = ticks_up_to(d, spacing, i as nat);
        let ticks = ticks_up_to(d, spacing, n);
        if initialized(d, i) {
            let at = rest_at.push(i);
            assert forall|k: int| 0 <= k < n && #[trigger] holds_tick(d, k) implies at.contains(k) by {
                if k == i {
                    assert(at[rest_at.len() as int] == k);
                } else {
                    assert(rest_at.contains(k));
                    let j = choose|j: int| 0 <= j < rest_at.len() && rest_at[j] == k;
                    assert(at[j] == k);
                }
            }
            at
        } else {
            rest_at
        }
    }
}

/// Whether an array's account holds a tick at a place.
pub open spec fn holds_tick(d: Seq<u8>, i: int) -> bool {
    d[12 + 113 * i] != 0
}

/// Whether ticks are those that an array's account holds among its first `n`
/// places, each once and in order, with the places that they stand at.
pub open spec fn lists_ticks(d: Seq<u8>, spacing: int, n: int, at: Seq<int>, ticks: Seq<(i32, i128)>) -> bool {
    &&& at.len() == ticks.len()
    &&& forall|k: int|
        #![trigger at[k]]
        #![trigger ticks[k]]
        0 <= k < at.len() ==> 0 <= at[k] < n && holds_tick(d, at[k]) && ticks[k].0 == i32_at(d, 8) + at[k]
            * spacing && ticks[k].1 == i128_at(d, 13 + 113 * at[k])
    &&& forall|j: int, k: int| 0 <= j < k < at.len() ==> #[trigger] at[j] < #[trigger] at[k]
    &&& forall|i: int| 0 <= i < n && #[trigger] holds_tick(d, i) ==> at.contains(i)
}

/// An array's account is stored where it says that the array starts, with every
/// tick that it holds and no other. It touches nothing else of the pool, and
/// the pool's own spacing tells the ticks apart.
pub proof fn law_array_account_holds_its_ticks(v: OrcaView, role: Seq<char>, d: Seq<u8>, slot: u64) -> (at: Seq<int>)
    requires
        role != "pool"@,
        role != "oracle"@,
        v.pool_state is Some,
        d.len() >= 9956,
        v.accepts(role, d),
    ensures
        ({
            let n = v.updated(role, d, slot);
            let start = i32_at(d, 8) as i32;
            &&& n.pool_state == v.pool_state
            &&& n.has_pool == v.has_pool
            &&& n.last_slot == slot
            &&& exists|ticks: Seq<(i32, i128)>|
                n.tick_arrays == stored(v.tick_arrays, start, ticks) && #[trigger] lists_ticks(
                    d,
                    v.pool_state->0.tick_spacing as int,
                    88,
                    at,
                    ticks,
                )
        }),
{
    reveal(OrcaView::updated);
    let spacing = v.pool_state->0.tick_spacing as int;
    let at = lemma_ticks_listed(d, spacing, 88);
    assert(lists_ticks(d, spacing, 88, at, ticks_up_to(d, spacing, 88)));
    at
}

}
