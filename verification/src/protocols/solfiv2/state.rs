//! What a SolFi V2 pool publishes: its oracle, its fee tables and its book.
use vstd::prelude::*;

use super::float::{f32_bits_to_i64, whole_part};
use super::tables::{
    no_size_table, no_table, read_table, read_tier_table, size_table_at, table_at, SizeTable, Table,
};
use crate::bytes::{read_u32_le, read_u64_le, u32_at, u64_at};
use crate::protocols::goonfi::state::{pow10, scale_of};

verus! {

/// The mask over the oracle's fields.
pub const ORACLE_XOR_KEY: [u8; 168] = [
    0xFF, 0xAA, 0x55, 0xCC, 0x33, 0xF0, 0x0F, 0x99, 0x66, 0x11, 0xEE, 0x77, 0x88, 0x22, 0xDD, 0x44,
    0xBB, 0x55, 0xAA, 0xFF, 0x00, 0x33, 0xCC, 0x66, 0x00, 0x00, 0x00, 0x00, 0x00, 0x00, 0x00, 0x00,
    0x99, 0x77, 0x11, 0xEE, 0x22, 0xDD, 0x88, 0x44, 0x55, 0xAA, 0xFF, 0x00, 0xCC, 0x33, 0x66, 0x99,
    0x00, 0x00, 0x11, 0x22, 0x33, 0x44, 0x55, 0x66, 0x77, 0x88, 0x99, 0xAA, 0xBB, 0xCC, 0xDD, 0xEE,
    0xFF, 0x00, 0xAA, 0x55, 0x33, 0xCC, 0x66, 0x99, 0x12, 0x34, 0x56, 0x78, 0x9A, 0xBC, 0xDE, 0xF0,
    0x12, 0x34, 0x56, 0x78, 0x9A, 0xBC, 0xDE, 0xF0, 0x12, 0x34, 0x56, 0x78, 0x9A, 0xBC, 0xDE, 0xF0,
    0x12, 0x34, 0x56, 0x78, 0x9A, 0xBC, 0xDE, 0xF0, 0x12, 0x34, 0x56, 0x78, 0x9A, 0xBC, 0xDE, 0xF0,
    0x12, 0x34, 0x56, 0x78, 0x9A, 0xBC, 0xDE, 0xF0, 0x12, 0x34, 0x56, 0x78, 0x9A, 0xBC, 0xDE, 0xF0,
    0x12, 0x34, 0x56, 0x78, 0x9A, 0xBC, 0xDE, 0xF0, 0x12, 0x34, 0x56, 0x78, 0x9A, 0xBC, 0xDE, 0xF0,
    0x12, 0x34, 0x56, 0x78, 0x9A, 0xBC, 0xDE, 0xF0, 0x00, 0x00, 0x00, 0x00, 0x00, 0x00, 0x00, 0x00,
    0x00, 0x00, 0x00, 0x00, 0x00, 0x00, 0x00, 0x00,
];

pub const MIN_POOL_DATA_SIZE: usize = 0x550;

/// The spread of a pool whose book was not seen.
pub const DEFAULT_SPREAD: i64 = 1932;

/// Why pool data is not taken.
#[derive(Clone, Copy, Debug, PartialEq, Eq, Structural)]
pub enum SolFiV2Error {
    PoolTooSmall,
}

impl SolFiV2Error {
    pub fn message(&self) -> (r: &'static str)
        ensures
            r@ == "SolFi V2 pool data too small"@,
    {
        "SolFi V2 pool data too small"
    }
}

/// An oracle's bytes without their mask; what is missing counts as zero.
pub open spec fn decrypted(d: Seq<u8>) -> Seq<u8> {
    Seq::new(
        168,
        |i: int| (if i < d.len() { d[i] } else { 0u8 }) ^ ORACLE_XOR_KEY[i],
    )
}

pub fn decrypt_oracle(data: &[u8]) -> (r: Vec<u8>)
    ensures
        r@ == decrypted(data@),
{
    let mut dec: Vec<u8> = Vec::new();
    let mut i: usize = 0;
    while i < 168
        invariant
            i <= 168,
            dec@ =~= decrypted(data@).take(i as int),
        decreases 168 - i,
    {
        let byte: u8 = if i < data.len() {
            data[i]
        } else {
            0
        };
        dec.push(byte ^ ORACLE_XOR_KEY[i]);
        i = i + 1;
    }
    assert(dec@ =~= decrypted(data@));
    dec
}

/// The spread that a book keeps behind its nodes; zero where it is cut short.
pub open spec fn base_spread_of(d: Seq<u8>) -> int {
    let offset = 92 + 21 * u32_at(d, 88) + 4303;
    if d.len() < 92 || offset + 4 > d.len() {
        0
    } else {
        whole_part(u32_at(d, offset))
    }
}

pub fn decode_base_spread(orderbook_data: &[u8]) -> (r: i64)
    ensures
        r == base_spread_of(orderbook_data@),
{
    if orderbook_data.len() < 92 {
        return 0;
    }
    let node_count = read_u32_le(orderbook_data, 88) as u64;
    let offset: u64 = 92 + 21 * node_count + 4303;
    if offset + 4 > orderbook_data.len() as u64 {
        return 0;
    }
    f32_bits_to_i64(read_u32_le(orderbook_data, offset as usize))
}

#[derive(Debug, Clone, Copy)]
pub struct SolFiV2State {
    pub base_amount: u64,
    pub quote_amount: u64,
    pub oracle_price: u64,
    pub divisor: u64,
    pub base_mult: u64,
    pub q2b_offset: u32,
    pub b2q_offset: u32,
    pub oracle_update_slot: u64,
    pub oracle_current_0x18: u64,
    pub base_spread: i64,
    pub pool_last_slot: u64,
    pub vault_adj_mult: u64,
    pub divisor2: u64,
    pub correction_threshold: u64,
    pub oracle_thresh: u64,
    pub correction_cap_neg: u64,
    pub correction_cap_pos: u64,
    pub max_fee: u64,
    pub effective_level: u32,
    pub s4_flag_raw: u32,
    pub pool_adj_slot: u64,
    pub pool_stored_oracle: u64,
    pub s4_age_threshold: u64,
    /// Fees by level.
    pub s4: Table,
    /// Fees by the oracle's age.
    pub t3: Table,
    /// Fees by the quote amount that comes in.
    pub set1: SizeTable,
    /// Fees by the quote amount that goes out.
    pub set2: SizeTable,
}

/// A pool of which nothing is known.
pub open spec fn no_state() -> SolFiV2State {
    SolFiV2State {
        base_amount: 0,
        quote_amount: 0,
        oracle_price: 0,
        divisor: 0,
        base_mult: 0,
        q2b_offset: 0,
        b2q_offset: 0,
        oracle_update_slot: 0,
        oracle_current_0x18: 0,
        base_spread: DEFAULT_SPREAD,
        pool_last_slot: 0,
        vault_adj_mult: 0,
        divisor2: 0,
        correction_threshold: 0,
        oracle_thresh: 0,
        correction_cap_neg: 0,
        correction_cap_pos: 0,
        max_fee: 0,
        effective_level: 0,
        s4_flag_raw: 0,
        pool_adj_slot: 0,
        pool_stored_oracle: 0,
        s4_age_threshold: 0,
        s4: no_table(),
        t3: no_table(),
        set1: no_size_table(),
        set2: no_size_table(),
    }
}

/// Whether an oracle's bytes hold its fields and a scale of at most 64 bits.
pub open spec fn oracle_readable(d: Seq<u8>) -> bool {
    d.len() >= 0x20 && d[0] <= 18
}

pub fn is_oracle_readable(data: &[u8]) -> (r: bool)
    ensures
        r == oracle_readable(data@),
{
    data.len() >= 0x20 && data[0] <= 18
}

impl SolFiV2State {
    pub open spec fn wf(self) -> bool {
        self.s4.count <= 8 && self.t3.count <= 8
    }

    pub fn empty() -> (r: Self)
        ensures
            r == no_state(),
            r.wf(),
    {
        SolFiV2State {
            base_amount: 0,
            quote_amount: 0,
            oracle_price: 0,
            divisor: 0,
            base_mult: 0,
            q2b_offset: 0,
            b2q_offset: 0,
            oracle_update_slot: 0,
            oracle_current_0x18: 0,
            base_spread: DEFAULT_SPREAD,
            pool_last_slot: 0,
            vault_adj_mult: 0,
            divisor2: 0,
            correction_threshold: 0,
            oracle_thresh: 0,
            correction_cap_neg: 0,
            correction_cap_pos: 0,
            max_fee: 0,
            effective_level: 0,
            s4_flag_raw: 0,
            pool_adj_slot: 0,
            pool_stored_oracle: 0,
            s4_age_threshold: 0,
            s4: Table::empty(),
            t3: Table::empty(),
            set1: SizeTable::empty(),
            set2: SizeTable::empty(),
        }
    }

    /// The state that pool data leaves behind.
    pub open spec fn with_pool_data(self, d: Seq<u8>) -> Result<Self, SolFiV2Error> {
        let s4 = table_at(d, 0x470, 0x4b0, 0x4f0, self.s4);
        if d.len() < MIN_POOL_DATA_SIZE {
            Err(SolFiV2Error::PoolTooSmall)
        } else {
            Ok(
                SolFiV2State {
                    pool_last_slot: u64_at(d, 0x10) as u64,
                    vault_adj_mult: u64_at(d, 0x510) as u64,
                    divisor2: u64_at(d, 0x518) as u64,
                    correction_threshold: u64_at(d, 0x508) as u64,
                    oracle_thresh: u64_at(d, 0x538) as u64,
                    correction_cap_neg: u64_at(d, 0x520) as u64,
                    correction_cap_pos: u64_at(d, 0x528) as u64,
                    max_fee: u64_at(d, 0x530) as u64,
                    pool_adj_slot: u64_at(d, 0x548) as u64,
                    effective_level: u32_at(d, 0x504) as u32,
                    s4_flag_raw: u32_at(d, 0x500) as u32,
                    pool_stored_oracle: u64_at(d, 0x2d0) as u64,
                    set1: size_table_at(d, 0x2e0),
                    set2: size_table_at(d, 0x368),
                    t3: table_at(d, 0x3e8, 0x428, 0x468, self.t3),
                    s4,
                    s4_age_threshold: if s4.count >= 2 {
                        s4.bounds[1]
                    } else {
                        0
                    },
                    ..self
                },
            )
        }
    }

    pub fn update_from_pool_data(&mut self, data: &[u8]) -> (r: Result<(), SolFiV2Error>)
        requires
            old(self).wf(),
        ensures
            final(self).wf(),
            r is Ok == old(self).with_pool_data(data@) is Ok,
            r is Ok ==> *final(self) == old(self).with_pool_data(data@)->Ok_0,
            r is Err ==> *final(self) == *old(self) && r->Err_0 == old(self).with_pool_data(data@)->Err_0,
    {
        if data.len() < MIN_POOL_DATA_SIZE {
            return Err(SolFiV2Error::PoolTooSmall);
        }
        self.pool_last_slot = read_u64_le(data, 0x10);
        self.vault_adj_mult = read_u64_le(data, 0x510);
        self.divisor2 = read_u64_le(data, 0x518);
        self.correction_threshold = read_u64_le(data, 0x508);
        self.oracle_thresh = read_u64_le(data, 0x538);
        self.correction_cap_neg = read_u64_le(data, 0x520);
        self.correction_cap_pos = read_u64_le(data, 0x528);
        self.max_fee = read_u64_le(data, 0x530);
        self.pool_adj_slot = read_u64_le(data, 0x548);
        self.effective_level = read_u32_le(data, 0x504);
        self.s4_flag_raw = read_u32_le(data, 0x500);
        self.pool_stored_oracle = read_u64_le(data, 0x2d0);
        self.set1 = read_tier_table(data, 0x2e0);
        self.set2 = read_tier_table(data, 0x368);
        self.t3 = read_table(data, 0x3e8, 0x428, 0x468, self.t3);
        self.s4 = read_table(data, 0x470, 0x4b0, 0x4f0, self.s4);
        self.s4_age_threshold = if self.s4.count >= 2 {
            self.s4.bounds[1]
        } else {
            0
        };
        Ok(())
    }

    /// The state that oracle data leaves behind.
    pub open spec fn with_oracle_data(self, d: Seq<u8>) -> Self {
        let dec = decrypted(d);
        SolFiV2State {
            oracle_price: u64_at(dec, 0x08) as u64,
            oracle_update_slot: u64_at(dec, 0x10) as u64,
            base_mult: u64_at(dec, 0x20) as u64,
            q2b_offset: u32_at(dec, 0x38) as u32,
            b2q_offset: u32_at(dec, 0x3c) as u32,
            divisor: pow10((d[0] + 1) as nat) as u64,
            oracle_current_0x18: u64_at(d, 0x18) as u64,
            ..self
        }
    }

    pub fn update_from_oracle_data(&mut self, oracle_data: &[u8])
        requires
            oracle_readable(oracle_data@),
        ensures
            *final(self) == old(self).with_oracle_data(oracle_data@),
            final(self).wf() == old(self).wf(),
    {
        let dec = decrypt_oracle(oracle_data);
        self.oracle_price = read_u64_le(dec.as_slice(), 0x08);
        self.oracle_update_slot = read_u64_le(dec.as_slice(), 0x10);
        self.base_mult = read_u64_le(dec.as_slice(), 0x20);
        self.q2b_offset = read_u32_le(dec.as_slice(), 0x38);
        self.b2q_offset = read_u32_le(dec.as_slice(), 0x3c);
        self.divisor = scale_of(oracle_data[0] + 1);
        self.oracle_current_0x18 = read_u64_le(oracle_data, 0x18);
    }

    pub fn update_from_orderbook_data(&mut self, orderbook_data: &[u8])
        ensures
            *final(self) == (SolFiV2State {
                base_spread: base_spread_of(orderbook_data@) as i64,
                ..*old(self)
            }),
    {
        self.base_spread = decode_base_spread(orderbook_data);
    }
}

}
