//! The account data of a BisonFi pool.
use vstd::prelude::*;

use crate::bytes::{i32_at, read_i32_le, read_u16_le, read_u32_le, read_u64_le, u16_at, u32_at, u64_at};

verus! {

pub const FEE_DENOM: u64 = 100_000;

pub const FEE_DENOM_V3: u64 = 2_560_000;

pub const DIVISOR: u64 = 10_000;

/// The shortest pool account.
pub const MIN_POOL_DATA_SIZE: usize = 0x347;

/// The shortest pool account with the later fee fields.
pub const MIN_POOL_DATA_SIZE_V3: usize = 0x382;

/// The shortest pool account of a later version that can be read at all.
pub const READABLE_POOL_DATA_SIZE_V3: usize = 0x37c;

/// A price tier: its share of the reserve and its price adjustment.
#[derive(Clone, Copy, Debug, PartialEq, Eq, Structural)]
pub struct TierEntry {
    pub mult: u32,
    pub adj_idx: i32,
    pub adj_val: i32,
}

/// The four tiers of a table.
#[derive(Clone, Copy, Debug, PartialEq, Eq, Structural)]
pub struct Tiers {
    pub first: TierEntry,
    pub second: TierEntry,
    pub third: TierEntry,
    pub fourth: TierEntry,
}

impl Tiers {
    /// The tier at a place from 0 to 3; past the end, the last.
    pub open spec fn at(self, i: int) -> TierEntry {
        if i <= 0 {
            self.first
        } else if i == 1 {
            self.second
        } else if i == 2 {
            self.third
        } else {
            self.fourth
        }
    }

    pub fn get(&self, i: usize) -> (r: TierEntry)
        ensures
            r == self.at(i as int),
    {
        if i == 0 {
            self.first
        } else if i == 1 {
            self.second
        } else if i == 2 {
            self.third
        } else {
            self.fourth
        }
    }
}

/// The fields of the later pool version.
#[derive(Clone, Copy, Debug, PartialEq, Eq, Structural)]
pub struct V3Params {
    pub fp_hi_u64: u64,
    pub fp_lo: u64,
    pub fee_b2q: u64,
    pub fee_q2b: u64,
    pub fee_b2q_base: u64,
    pub fee_q2b_base: u64,
    pub fee_floor_b2q: u64,
    pub fee_floor_q2b: u64,
    pub fee_staleness_pen_b2q: u64,
    pub fee_staleness_pen_q2b: u64,
    pub mult_0_b2q: u16,
    pub mult_0_q2b: u16,
    pub adj_const: u64,
    pub fee_step_threshold: u64,
    pub fee_step_size: u64,
    pub fee_adj: u64,
}

#[derive(Clone, Copy, Debug, PartialEq, Eq, Structural)]
pub struct BisonFiState {
    pub base_amount: u64,
    pub quote_amount: u64,
    pub fp_val: u64,
    pub decimal_scale: u64,
    pub pool_slot: u64,
    pub version: u64,
    pub fee_base_b2q: u64,
    pub fee_base_q2b: u64,
    pub fee_mult_b2q: u16,
    pub fee_mult_q2b: u16,
    pub fee_penalty_extra: u8,
    pub stored_fee_mult_b2q: u32,
    pub slot_penalty_mult: u64,
    pub mult_0_b2q: u32,
    pub mult_0_q2b: u32,
    pub adj_const: u32,
    pub b2q_tiers: Tiers,
    pub q2b_tiers: Tiers,
    pub template_mult_0: u32,
    pub template_b2q_tiers: Tiers,
    pub template_q2b_tiers: Tiers,
    pub effective_mult_0: u16,
    pub effective_mult_0_q2b: u16,
    pub base_reserve: u64,
    pub quote_reserve: u64,
    pub last_interaction_slot: u64,
    pub fee_step_threshold: u64,
    pub fee_step_size: u64,
    pub fee_adj: u8,
    pub dynamic_fee_b2q: u64,
    pub dynamic_fee_q2b: u64,
    pub adj_double_flag: u16,
    pub v3: V3Params,
}

/// Why pool data is rejected.
#[derive(Clone, Copy, Debug, PartialEq, Eq, Structural)]
pub enum BisonFiError {
    TooSmall,
    InvalidMagic,
}

impl BisonFiError {
    pub fn message(&self) -> (r: &'static str)
        ensures
            r@ == (match *self {
                BisonFiError::TooSmall => "BisonFi pool data too small"@,
                BisonFiError::InvalidMagic => "Invalid BisonFi pool magic"@,
            }),
    {
        match self {
            BisonFiError::TooSmall => "BisonFi pool data too small",
            BisonFiError::InvalidMagic => "Invalid BisonFi pool magic",
        }
    }
}

pub open spec fn no_tier() -> TierEntry {
    TierEntry { mult: 0, adj_idx: 0, adj_val: 0 }
}

pub open spec fn no_tiers() -> Tiers {
    Tiers { first: no_tier(), second: no_tier(), third: no_tier(), fourth: no_tier() }
}

pub open spec fn no_v3() -> V3Params {
    V3Params {
        fp_hi_u64: 0,
        fp_lo: 0,
        fee_b2q: 0,
        fee_q2b: 0,
        fee_b2q_base: 0,
        fee_q2b_base: 0,
        fee_floor_b2q: 0,
        fee_floor_q2b: 0,
        fee_staleness_pen_b2q: 0,
        fee_staleness_pen_q2b: 0,
        mult_0_b2q: 0,
        mult_0_q2b: 0,
        adj_const: 0,
        fee_step_threshold: 0,
        fee_step_size: 0,
        fee_adj: 0,
    }
}

/// The state before any update.
pub open spec fn no_state() -> BisonFiState {
    BisonFiState {
        base_amount: 0,
        quote_amount: 0,
        fp_val: 0,
        decimal_scale: 0,
        pool_slot: 0,
        version: 0,
        fee_base_b2q: 0,
        fee_base_q2b: 0,
        fee_mult_b2q: 0,
        fee_mult_q2b: 0,
        fee_penalty_extra: 0,
        stored_fee_mult_b2q: 0,
        slot_penalty_mult: 0,
        mult_0_b2q: 0,
        mult_0_q2b: 0,
        adj_const: 0,
        b2q_tiers: no_tiers(),
        q2b_tiers: no_tiers(),
        template_mult_0: 0,
        template_b2q_tiers: no_tiers(),
        template_q2b_tiers: no_tiers(),
        effective_mult_0: 0,
        effective_mult_0_q2b: 0,
        base_reserve: 0,
        quote_reserve: 0,
        last_interaction_slot: 0,
        fee_step_threshold: 0,
        fee_step_size: 0,
        fee_adj: 0,
        dynamic_fee_b2q: 0,
        dynamic_fee_q2b: 0,
        adj_double_flag: 0,
        v3: no_v3(),
    }
}

impl Default for BisonFiState {
    fn default() -> (r: Self)
        ensures
            r == no_state(),
    {
        let tier = TierEntry { mult: 0, adj_idx: 0, adj_val: 0 };
        let tiers = Tiers { first: tier, second: tier, third: tier, fourth: tier };
        BisonFiState {
            base_amount: 0,
            quote_amount: 0,
            fp_val: 0,
            decimal_scale: 0,
            pool_slot: 0,
            version: 0,
            fee_base_b2q: 0,
            fee_base_q2b: 0,
            fee_mult_b2q: 0,
            fee_mult_q2b: 0,
            fee_penalty_extra: 0,
            stored_fee_mult_b2q: 0,
            slot_penalty_mult: 0,
            mult_0_b2q: 0,
            mult_0_q2b: 0,
            adj_const: 0,
            b2q_tiers: tiers,
            q2b_tiers: tiers,
            template_mult_0: 0,
            template_b2q_tiers: tiers,
            template_q2b_tiers: tiers,
            effective_mult_0: 0,
            effective_mult_0_q2b: 0,
            base_reserve: 0,
            quote_reserve: 0,
            last_interaction_slot: 0,
            fee_step_threshold: 0,
            fee_step_size: 0,
            fee_adj: 0,
            dynamic_fee_b2q: 0,
            dynamic_fee_q2b: 0,
            adj_double_flag: 0,
            v3: V3Params {
                fp_hi_u64: 0,
                fp_lo: 0,
                fee_b2q: 0,
                fee_q2b: 0,
                fee_b2q_base: 0,
                fee_q2b_base: 0,
                fee_floor_b2q: 0,
                fee_floor_q2b: 0,
                fee_staleness_pen_b2q: 0,
                fee_staleness_pen_q2b: 0,
                mult_0_b2q: 0,
                mult_0_q2b: 0,
                adj_const: 0,
                fee_step_threshold: 0,
                fee_step_size: 0,
                fee_adj: 0,
            },
        }
    }
}

/// A tier whose share stands at `share` and whose entry starts at `at`.
pub open spec fn tier_at(d: Seq<u8>, at: int, share: int) -> TierEntry {
    TierEntry {
        mult: u32_at(d, at + share) as u32,
        adj_idx: i32_at(d, at + 8) as i32,
        adj_val: i32_at(d, at + 12) as i32,
    }
}

/// A table of four tiers, sixteen bytes each.
pub open spec fn tiers_at(d: Seq<u8>, at: int, share: int) -> Tiers {
    Tiers {
        first: tier_at(d, at, share),
        second: tier_at(d, at + 16, share),
        third: tier_at(d, at + 32, share),
        fourth: tier_at(d, at + 48, share),
    }
}

fn read_tier(data: &[u8], at: usize, share: usize) -> (r: TierEntry)
    requires
        share <= 4,
        at + 16 <= data.len(),
    ensures
        r == tier_at(data@, at as int, share as int),
{
    TierEntry {
        mult: read_u32_le(data, at + share),
        adj_idx: read_i32_le(data, at + 8),
        adj_val: read_i32_le(data, at + 12),
    }
}

fn read_tiers(data: &[u8], at: usize, share: usize) -> (r: Tiers)
    requires
        share <= 4,
        at + 64 <= data.len(),
    ensures
        r == tiers_at(data@, at as int, share as int),
{
    Tiers {
        first: read_tier(data, at, share),
        second: read_tier(data, at + 16, share),
        third: read_tier(data, at + 32, share),
        fourth: read_tier(data, at + 48, share),
    }
}

/// The first eight bytes of every pool account.
pub open spec fn has_magic(d: Seq<u8>) -> bool {
    d.take(8) == seq![0x50u8, 0x4f, 0x4f, 0x4c, 0x53, 0x54, 0x41, 0x54]
}

fn check_magic(data: &[u8]) -> (r: bool)
    requires
        data.len() >= 8,
    ensures
        r == has_magic(data@),
{
    let r = data[0] == 0x50 && data[1] == 0x4f && data[2] == 0x4f && data[3] == 0x4c && data[4] == 0x53 && data[5]
        == 0x54 && data[6] == 0x41 && data[7] == 0x54;
    proof {
        let head = data@.take(8);
        let magic = seq![0x50u8, 0x4f, 0x4f, 0x4c, 0x53, 0x54, 0x41, 0x54];
        if r {
            assert(head =~= magic);
        } else if head == magic {
            assert(head[0] == magic[0] && head[1] == magic[1] && head[2] == magic[2] && head[3] == magic[3] && head[4]
                == magic[4] && head[5] == magic[5] && head[6] == magic[6] && head[7] == magic[7]);
            assert(false);
        }
    }
    r
}

/// The later fields of a pool account; a shorter account keeps what it lacks.
pub open spec fn v3_at(old: V3Params, d: Seq<u8>) -> V3Params {
    let read = V3Params {
        fp_hi_u64: u64_at(d, 0x340) as u64,
        fp_lo: u64_at(d, 0x348) as u64,
        adj_const: u16_at(d, 0x352) as u64,
        fee_b2q: u16_at(d, 0x354) as u64,
        fee_q2b: u16_at(d, 0x356) as u64,
        fee_adj: d[0x35c] as u64,
        fee_step_threshold: u64_at(d, 0x360) as u64,
        fee_step_size: u64_at(d, 0x368) as u64,
        mult_0_q2b: u16_at(d, 0x378) as u16,
        mult_0_b2q: u16_at(d, 0x37a) as u16,
        ..old
    };
    if d.len() >= MIN_POOL_DATA_SIZE_V3 {
        V3Params {
            fee_b2q_base: u16_at(d, 0x358) as u64,
            fee_q2b_base: u16_at(d, 0x35a) as u64,
            fee_staleness_pen_b2q: u16_at(d, 0x372) as u64,
            fee_staleness_pen_q2b: u16_at(d, 0x374) as u64,
            fee_floor_b2q: u16_at(d, 0x37e) as u64,
            fee_floor_q2b: u16_at(d, 0x380) as u64,
            ..read
        }
    } else {
        read
    }
}

fn read_v3(old_v3: V3Params, data: &[u8]) -> (r: V3Params)
    requires
        data.len() >= READABLE_POOL_DATA_SIZE_V3,
    ensures
        r == v3_at(old_v3, data@),
{
    let mut v = old_v3;
    v.fp_hi_u64 = read_u64_le(data, 0x340);
    v.fp_lo = read_u64_le(data, 0x348);
    v.adj_const = read_u16_le(data, 0x352) as u64;
    v.fee_b2q = read_u16_le(data, 0x354) as u64;
    v.fee_q2b = read_u16_le(data, 0x356) as u64;
    v.fee_adj = data[0x35c] as u64;
    v.fee_step_threshold = read_u64_le(data, 0x360);
    v.fee_step_size = read_u64_le(data, 0x368);
    v.mult_0_q2b = read_u16_le(data, 0x378);
    v.mult_0_b2q = read_u16_le(data, 0x37a);
    if data.len() >= MIN_POOL_DATA_SIZE_V3 {
        v.fee_b2q_base = read_u16_le(data, 0x358) as u64;
        v.fee_q2b_base = read_u16_le(data, 0x35a) as u64;
        v.fee_staleness_pen_b2q = read_u16_le(data, 0x372) as u64;
        v.fee_staleness_pen_q2b = read_u16_le(data, 0x374) as u64;
        v.fee_floor_b2q = read_u16_le(data, 0x37e) as u64;
        v.fee_floor_q2b = read_u16_le(data, 0x380) as u64;
    }
    v
}

/// Whether pool data can be read without running past its end.
pub open spec fn readable(d: Seq<u8>) -> bool {
    d.len() >= MIN_POOL_DATA_SIZE && has_magic(d) && u64_at(d, 8) >= 3 ==> d.len() >= READABLE_POOL_DATA_SIZE_V3
}

pub fn is_readable(data: &[u8]) -> (r: bool)
    ensures
        r == readable(data@),
{
    if data.len() >= MIN_POOL_DATA_SIZE && check_magic(data) && read_u64_le(data, 8) >= 3 {
        data.len() >= READABLE_POOL_DATA_SIZE_V3
    } else {
        true
    }
}

impl BisonFiState {
    /// The state that pool data leaves behind.
    pub open spec fn with_pool_data(self, d: Seq<u8>) -> Result<Self, BisonFiError> {
        if d.len() < MIN_POOL_DATA_SIZE {
            Err(BisonFiError::TooSmall)
        } else if !has_magic(d) {
            Err(BisonFiError::InvalidMagic)
        } else {
            let later = u64_at(d, 8) >= 3;
            Ok(
                BisonFiState {
                    base_amount: self.base_amount,
                    quote_amount: self.quote_amount,
                    version: u64_at(d, 8) as u64,
                    base_reserve: u64_at(d, 0x30) as u64,
                    quote_reserve: u64_at(d, 0x38) as u64,
                    fp_val: u64_at(d, 0x40) as u64,
                    pool_slot: u64_at(d, 0x48) as u64,
                    decimal_scale: u64_at(d, 0x1d0) as u64,
                    fee_mult_b2q: u16_at(d, 0x1e0) as u16,
                    fee_mult_q2b: u16_at(d, 0x1e2) as u16,
                    fee_base_b2q: (d[0x1e4] + u16_at(d, 0x1e0) * 10) as u64,
                    fee_base_q2b: (d[0x1e5] + u16_at(d, 0x1e2) * 10) as u64,
                    fee_penalty_extra: d[0x1e6],
                    stored_fee_mult_b2q: u32_at(d, 0x1e8) as u32,
                    slot_penalty_mult: u16_at(d, 0x20a) as u64,
                    mult_0_b2q: u32_at(d, 0x1a4) as u32,
                    mult_0_q2b: u32_at(d, 0x1a0) as u32,
                    adj_const: u32_at(d, 0x288) as u32,
                    last_interaction_slot: u64_at(d, 0x2b0) as u64,
                    b2q_tiers: tiers_at(d, 0x120, 4),
                    q2b_tiers: tiers_at(d, 0x160, 0),
                    template_b2q_tiers: tiers_at(d, 0x210, 4),
                    template_q2b_tiers: tiers_at(d, 0x250, 0),
                    template_mult_0: u32_at(d, 0x290) as u32,
                    effective_mult_0: u16_at(d, 0x33c) as u16,
                    effective_mult_0_q2b: u16_at(d, 0x33a) as u16,
                    fee_step_threshold: u64_at(d, 0x1f0) as u64,
                    fee_step_size: u64_at(d, 0x1f8) as u64,
                    fee_adj: d[0x202],
                    dynamic_fee_b2q: if later {
                        0
                    } else {
                        (u16_at(d, 0x340) * 10 + d[0x342]) as u64
                    },
                    dynamic_fee_q2b: if later {
                        0
                    } else {
                        (u16_at(d, 0x344) * 10 + d[0x346]) as u64
                    },
                    adj_double_flag: u16_at(d, 0x338) as u16,
                    v3: if later {
                        v3_at(self.v3, d)
                    } else {
                        self.v3
                    },
                },
            )
        }
    }

    /// Takes over the pool data, or keeps the state where it is rejected.
    pub fn update_from_pool_data(&mut self, data: &[u8]) -> (r: Result<(), BisonFiError>)
        requires
            readable(data@),
        ensures
            match old(self).with_pool_data(data@) {
                Ok(s) => r is Ok && *final(self) == s,
                Err(e) => r == Err::<(), BisonFiError>(e) && *final(self) == *old(self),
            },
    {
        if data.len() < MIN_POOL_DATA_SIZE {
            return Err(BisonFiError::TooSmall);
        }
        if !check_magic(data) {
            return Err(BisonFiError::InvalidMagic);
        }
        self.version = read_u64_le(data, 0x08);
        self.base_reserve = read_u64_le(data, 0x30);
        self.quote_reserve = read_u64_le(data, 0x38);
        self.fp_val = read_u64_le(data, 0x40);
        self.pool_slot = read_u64_le(data, 0x48);
        self.decimal_scale = read_u64_le(data, 0x1d0);

        self.fee_mult_b2q = read_u16_le(data, 0x1e0);
        self.fee_mult_q2b = read_u16_le(data, 0x1e2);
        self.fee_base_b2q = data[0x1e4] as u64 + self.fee_mult_b2q as u64 * 10;
        self.fee_base_q2b = data[0x1e5] as u64 + self.fee_mult_q2b as u64 * 10;
        self.fee_penalty_extra = data[0x1e6];
        self.stored_fee_mult_b2q = read_u32_le(data, 0x1e8);
        self.slot_penalty_mult = read_u16_le(data, 0x20a) as u64;

        self.mult_0_b2q = read_u32_le(data, 0x1a4);
        self.mult_0_q2b = read_u32_le(data, 0x1a0);
        self.adj_const = read_u32_le(data, 0x288);
        self.last_interaction_slot = read_u64_le(data, 0x2b0);

        self.b2q_tiers = read_tiers(data, 0x120, 4);
        self.q2b_tiers = read_tiers(data, 0x160, 0);
        self.template_b2q_tiers = read_tiers(data, 0x210, 4);
        self.template_q2b_tiers = read_tiers(data, 0x250, 0);

        self.template_mult_0 = read_u32_le(data, 0x290);
        self.effective_mult_0 = read_u16_le(data, 0x33c);
        self.effective_mult_0_q2b = read_u16_le(data, 0x33a);
        self.fee_step_threshold = read_u64_le(data, 0x1f0);
        self.fee_step_size = read_u64_le(data, 0x1f8);
        self.fee_adj = data[0x202];

        if self.version >= 3 {
            self.v3 = read_v3(self.v3, data);
            self.dynamic_fee_b2q = 0;
            self.dynamic_fee_q2b = 0;
        } else {
            self.dynamic_fee_b2q = read_u16_le(data, 0x340) as u64 * 10 + data[0x342] as u64;
            self.dynamic_fee_q2b = read_u16_le(data, 0x344) as u64 * 10 + data[0x346] as u64;
        }
        self.adj_double_flag = read_u16_le(data, 0x338);
        Ok(())
    }
}

}
