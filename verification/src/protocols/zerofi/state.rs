//! The account data of a ZeroFi pool and of its two side accounts.
use vstd::prelude::*;

use crate::bytes::{i32_at, read_i32_le, read_u32_le, read_u64_le, u32_at, u64_at};

verus! {

/// A tier's fee parameter, and the slots from which and to which its fee
/// grows.
#[derive(Clone, Copy, Debug, PartialEq, Eq, Structural)]
pub struct FeeTier {
    pub param: u32,
    pub onset_low: u32,
    pub onset_high: u32,
}

/// An amount up to which a tier serves, and what its gate takes off.
#[derive(Clone, Copy, Debug, PartialEq, Eq, Structural)]
pub struct Breakpoint {
    pub amount: u64,
    pub adj: u64,
}

#[derive(Debug, Clone, Copy)]
pub struct ZeroFiState {
    pub oracle_ask_raw: u64,
    pub oracle_bid_raw: u64,
    pub fee_denom: u64,
    pub fee_denom_b: u64,
    pub fee_extra_b: u64,
    pub fee_threshold: u64,
    pub fee_threshold_2: u64,
    pub max_slot_diff: u32,
    pub tier0_param: u32,
    pub tiers: [FeeTier; 10],
    pub tier_count: usize,
    pub alt: [Breakpoint; 10],
    pub alt_count: usize,
    pub q2b: [Breakpoint; 10],
    pub q2b_count: usize,
    pub fee_cap_b2q: i32,
    pub fee_cap_q2b: i32,
    pub pool_slot: u64,
    pub adj_gate_slot: u64,
    pub extra_a_fee: i32,
    pub extra_a_tier_total: u64,
    pub extra_a_skip_amount: u64,
    pub extra_b_fee: i32,
    pub base_vault_balance: u64,
    pub quote_vault_balance: u64,
}

pub open spec fn no_fee_tier() -> FeeTier {
    FeeTier { param: 0, onset_low: 0, onset_high: 0 }
}

pub open spec fn no_breakpoint() -> Breakpoint {
    Breakpoint { amount: 0, adj: 0 }
}

pub open spec fn no_breakpoints() -> [Breakpoint; 10] {
    let b = no_breakpoint();
    [b, b, b, b, b, b, b, b, b, b]
}

/// The state before any update.
pub open spec fn no_state() -> ZeroFiState {
    let t = no_fee_tier();
    ZeroFiState {
        oracle_ask_raw: 0,
        oracle_bid_raw: 0,
        fee_denom: 0,
        fee_denom_b: 0,
        fee_extra_b: 0,
        fee_threshold: 0,
        fee_threshold_2: 0,
        max_slot_diff: 0,
        tier0_param: 0,
        tiers: [t, t, t, t, t, t, t, t, t, t],
        tier_count: 0,
        alt: no_breakpoints(),
        alt_count: 0,
        q2b: no_breakpoints(),
        q2b_count: 0,
        fee_cap_b2q: 0,
        fee_cap_q2b: 0,
        pool_slot: 0,
        adj_gate_slot: 0,
        extra_a_fee: 0,
        extra_a_tier_total: 0,
        extra_a_skip_amount: 0,
        extra_b_fee: 0,
        base_vault_balance: 0,
        quote_vault_balance: 0,
    }
}

impl Default for ZeroFiState {
    fn default() -> (r: Self)
        ensures
            r == no_state(),
    {
        let t = FeeTier { param: 0, onset_low: 0, onset_high: 0 };
        let b = Breakpoint { amount: 0, adj: 0 };
        let tiers = [t, t, t, t, t, t, t, t, t, t];
        let breakpoints = [b, b, b, b, b, b, b, b, b, b];
        proof {
            let u = no_fee_tier();
            assert(tiers =~= [u, u, u, u, u, u, u, u, u, u]);
            assert(breakpoints =~= no_breakpoints());
        }
        ZeroFiState {
            oracle_ask_raw: 0,
            oracle_bid_raw: 0,
            fee_denom: 0,
            fee_denom_b: 0,
            fee_extra_b: 0,
            fee_threshold: 0,
            fee_threshold_2: 0,
            max_slot_diff: 0,
            tier0_param: 0,
            tiers,
            tier_count: 0,
            alt: breakpoints,
            alt_count: 0,
            q2b: breakpoints,
            q2b_count: 0,
            fee_cap_b2q: 0,
            fee_cap_q2b: 0,
            pool_slot: 0,
            adj_gate_slot: 0,
            extra_a_fee: 0,
            extra_a_tier_total: 0,
            extra_a_skip_amount: 0,
            extra_b_fee: 0,
            base_vault_balance: 0,
            quote_vault_balance: 0,
        }
    }
}

/// The number of fee tiers from `i` on, up to the first whose amount is zero.
pub open spec fn fee_tiers_from(d: Seq<u8>, i: int) -> int
    decreases 10 - i,
{
    if i < 10 && u64_at(d, 0x110 + i * 0x38) != 0 {
        fee_tiers_from(d, i + 1)
    } else {
        i
    }
}

pub open spec fn fee_tier_at(d: Seq<u8>, i: int) -> FeeTier {
    FeeTier {
        param: u32_at(d, 0x120 + i * 0x38) as u32,
        onset_low: u32_at(d, 0x118 + i * 0x38) as u32,
        onset_high: u32_at(d, 0x11c + i * 0x38) as u32,
    }
}

/// A fee tier after an update: that of the data up to its last one.
pub open spec fn new_fee_tier(was: [FeeTier; 10], d: Seq<u8>, i: int) -> FeeTier {
    if i < fee_tiers_from(d, 0) {
        fee_tier_at(d, i)
    } else {
        was[i]
    }
}

pub open spec fn new_fee_tiers(was: [FeeTier; 10], d: Seq<u8>) -> [FeeTier; 10] {
    [
        new_fee_tier(was, d, 0),
        new_fee_tier(was, d, 1),
        new_fee_tier(was, d, 2),
        new_fee_tier(was, d, 3),
        new_fee_tier(was, d, 4),
        new_fee_tier(was, d, 5),
        new_fee_tier(was, d, 6),
        new_fee_tier(was, d, 7),
        new_fee_tier(was, d, 8),
        new_fee_tier(was, d, 9),
    ]
}

proof fn lemma_fee_tiers_from(d: Seq<u8>, i: int)
    requires
        0 <= i <= 10,
    ensures
        i <= fee_tiers_from(d, i) <= 10,
    decreases 10 - i,
{
    if i < 10 && u64_at(d, 0x110 + i * 0x38) != 0 {
        lemma_fee_tiers_from(d, i + 1);
    }
}

fn read_fee_tiers(was: [FeeTier; 10], data: &[u8]) -> (r: ([FeeTier; 10], usize))
    requires
        data.len() > 0xb70,
    ensures
        r.0 == new_fee_tiers(was, data@),
        r.1 == fee_tiers_from(data@, 0),
        r.1 <= 10,
{
    let mut tiers = was;
    let mut i: usize = 0;
    proof {
        lemma_fee_tiers_from(data@, 0);
    }
    while i < 10 && read_u64_le(data, 0x110 + i * 0x38) != 0
        invariant
            i <= 10,
            data.len() > 0xb70,
            fee_tiers_from(data@, i as int) == fee_tiers_from(data@, 0),
            forall|k: int| 0 <= k < i ==> tiers@[k] == fee_tier_at(data@, k),
            forall|k: int| i <= k < 10 ==> tiers@[k] == was@[k],
        decreases 10 - i,
    {
        let tier = FeeTier {
            param: read_u32_le(data, 0x120 + i * 0x38),
            onset_low: read_u32_le(data, 0x118 + i * 0x38),
            onset_high: read_u32_le(data, 0x11c + i * 0x38),
        };
        tiers[i] = tier;
        i = i + 1;
    }
    assert(tiers =~= new_fee_tiers(was, data@));
    (tiers, i)
}

/// A breakpoint of the sale table after an update: a shorter account keeps
/// what it lacks.
pub open spec fn new_alt_point(was: [Breakpoint; 10], d: Seq<u8>, i: int) -> Breakpoint {
    Breakpoint {
        amount: if d.len() > 0xfb0 + i * 0x40 {
            u64_at(d, 0xfa8 + i * 0x40) as u64
        } else {
            was[i].amount
        },
        adj: if d.len() > 0xfb8 + i * 0x40 {
            u64_at(d, 0xfb0 + i * 0x40) as u64
        } else {
            was[i].adj
        },
    }
}

pub open spec fn new_alt(was: [Breakpoint; 10], d: Seq<u8>) -> [Breakpoint; 10] {
    [
        new_alt_point(was, d, 0),
        new_alt_point(was, d, 1),
        new_alt_point(was, d, 2),
        new_alt_point(was, d, 3),
        new_alt_point(was, d, 4),
        new_alt_point(was, d, 5),
        new_alt_point(was, d, 6),
        new_alt_point(was, d, 7),
        new_alt_point(was, d, 8),
        new_alt_point(was, d, 9),
    ]
}

/// The number of breakpoints that fit in the data, of at most ten from `i` on.
pub open spec fn alt_from(d: Seq<u8>, i: int) -> int
    decreases 10 - i,
{
    if i < 10 && d.len() > 0xfb0 + i * 0x40 {
        alt_from(d, i + 1)
    } else {
        i
    }
}

fn read_alt(was: [Breakpoint; 10], data: &[u8]) -> (r: ([Breakpoint; 10], usize))
    ensures
        r.0 == new_alt(was, data@),
        r.1 == alt_from(data@, 0),
        r.1 <= 10,
{
    let mut points = was;
    let mut count: usize = 0;
    let mut i: usize = 0;
    while i < 10
        invariant
            i <= 10,
            count <= i,
            count == i ==> alt_from(data@, i as int) == alt_from(data@, 0),
            count < i ==> count == alt_from(data@, 0) && data@.len() <= 0xfb0 + count * 0x40,
            forall|k: int| 0 <= k < i ==> points@[k] == new_alt_point(was, data@, k),
            forall|k: int| i <= k < 10 ==> points@[k] == was@[k],
        decreases 10 - i,
    {
        let mut point = points[i];
        if data.len() > 0xfb0 + i * 0x40 {
            point.amount = read_u64_le(data, 0xfa8 + i * 0x40);
            count = i + 1;
        }
        if data.len() > 0xfb8 + i * 0x40 {
            point.adj = read_u64_le(data, 0xfb0 + i * 0x40);
        }
        points[i] = point;
        i = i + 1;
    }
    assert(points =~= new_alt(was, data@));
    (points, count)
}

/// The number of breakpoints of the purchase table from `i` on, up to the
/// first that is zero or past the end.
pub open spec fn q2b_from(d: Seq<u8>, i: int) -> int
    decreases 10 - i,
{
    if i < 10 && d.len() > 0x1230 + i * 0x40 && u64_at(d, 0x1228 + i * 0x40) != 0 {
        q2b_from(d, i + 1)
    } else {
        i
    }
}

pub open spec fn new_q2b_point(was: [Breakpoint; 10], d: Seq<u8>, i: int) -> Breakpoint {
    if i < q2b_from(d, 0) {
        Breakpoint {
            amount: u64_at(d, 0x1228 + i * 0x40) as u64,
            adj: if d.len() > 0x1238 + i * 0x40 {
                u64_at(d, 0x1230 + i * 0x40) as u64
            } else {
                was[i].adj
            },
        }
    } else {
        was[i]
    }
}

pub open spec fn new_q2b(was: [Breakpoint; 10], d: Seq<u8>) -> [Breakpoint; 10] {
    [
        new_q2b_point(was, d, 0),
        new_q2b_point(was, d, 1),
        new_q2b_point(was, d, 2),
        new_q2b_point(was, d, 3),
        new_q2b_point(was, d, 4),
        new_q2b_point(was, d, 5),
        new_q2b_point(was, d, 6),
        new_q2b_point(was, d, 7),
        new_q2b_point(was, d, 8),
        new_q2b_point(was, d, 9),
    ]
}

proof fn lemma_q2b_from(d: Seq<u8>, i: int)
    requires
        0 <= i <= 10,
    ensures
        i <= q2b_from(d, i) <= 10,
    decreases 10 - i,
{
    if i < 10 && d.len() > 0x1230 + i * 0x40 && u64_at(d, 0x1228 + i * 0x40) != 0 {
        lemma_q2b_from(d, i + 1);
    }
}

fn read_q2b(was: [Breakpoint; 10], data: &[u8]) -> (r: ([Breakpoint; 10], usize))
    ensures
        r.0 == new_q2b(was, data@),
        r.1 == q2b_from(data@, 0),
        r.1 <= 10,
{
    let mut points = was;
    let mut i: usize = 0;
    proof {
        lemma_q2b_from(data@, 0);
    }
    while i < 10 && data.len() > 0x1230 + i * 0x40 && read_u64_le(data, 0x1228 + i * 0x40) != 0
        invariant
            i <= 10,
            q2b_from(data@, i as int) == q2b_from(data@, 0),
            forall|k: int|
                0 <= k < i ==> points@[k] == (Breakpoint {
                    amount: u64_at(data@, 0x1228 + k * 0x40) as u64,
                    adj: if data@.len() > 0x1238 + k * 0x40 {
                        u64_at(data@, 0x1230 + k * 0x40) as u64
                    } else {
                        was@[k].adj
                    },
                }),
            forall|k: int| i <= k < 10 ==> points@[k] == was@[k],
        decreases 10 - i,
    {
        let mut point = points[i];
        point.amount = read_u64_le(data, 0x1228 + i * 0x40);
        if data.len() > 0x1238 + i * 0x40 {
            point.adj = read_u64_le(data, 0x1230 + i * 0x40);
        }
        points[i] = point;
        i = i + 1;
    }
    assert(points =~= new_q2b(was, data@));
    (points, i)
}

impl ZeroFiState {
    pub open spec fn wf(self) -> bool {
        self.tier_count <= 10 && self.alt_count <= 10 && self.q2b_count <= 10
    }

    /// The state that pool data leaves behind; a shorter account keeps what
    /// it lacks.
    pub open spec fn with_pool_data(self, d: Seq<u8>) -> Self {
        if d.len() <= 0xb70 {
            self
        } else {
            ZeroFiState {
                oracle_bid_raw: u64_at(d, 0xb60) as u64,
                oracle_ask_raw: u64_at(d, 0xb68) as u64,
                fee_denom: u64_at(d, 0x388) as u64,
                fee_denom_b: if d.len() > 0xb98 {
                    u64_at(d, 0xb90) as u64
                } else {
                    self.fee_denom_b
                },
                fee_extra_b: if d.len() > 0xbb0 {
                    u64_at(d, 0xba8) as u64
                } else {
                    self.fee_extra_b
                },
                fee_threshold: u64_at(d, 0x360) as u64,
                fee_threshold_2: u64_at(d, 0x368) as u64,
                max_slot_diff: u32_at(d, 0x358) as u32,
                tier0_param: u32_at(d, 0x120) as u32,
                tiers: new_fee_tiers(self.tiers, d),
                tier_count: fee_tiers_from(d, 0) as usize,
                alt: new_alt(self.alt, d),
                alt_count: alt_from(d, 0) as usize,
                q2b: new_q2b(self.q2b, d),
                q2b_count: q2b_from(d, 0) as usize,
                fee_cap_b2q: if d.len() > 0x14cc {
                    i32_at(d, 0x14c8) as i32
                } else {
                    self.fee_cap_b2q
                },
                fee_cap_q2b: if d.len() > 0x14d0 {
                    i32_at(d, 0x14cc) as i32
                } else {
                    self.fee_cap_q2b
                },
                pool_slot: if d.len() > 0xbd0 {
                    u64_at(d, 0xbc8) as u64
                } else {
                    self.pool_slot
                },
                adj_gate_slot: if d.len() > 0x1920 {
                    u64_at(d, 0x1918) as u64
                } else {
                    self.adj_gate_slot
                },
                ..self
            }
        }
    }

    pub fn update_from_pool_data(&mut self, data: &[u8])
        requires
            old(self).wf(),
        ensures
            *final(self) == old(self).with_pool_data(data@),
            final(self).wf(),
    {
        if data.len() <= 0xb70 {
            return;
        }
        self.oracle_bid_raw = read_u64_le(data, 0xb60);
        self.oracle_ask_raw = read_u64_le(data, 0xb68);
        self.fee_denom = read_u64_le(data, 0x388);
        if data.len() > 0xb98 {
            self.fee_denom_b = read_u64_le(data, 0xb90);
        }
        if data.len() > 0xbb0 {
            self.fee_extra_b = read_u64_le(data, 0xba8);
        }
        self.fee_threshold = read_u64_le(data, 0x360);
        self.fee_threshold_2 = read_u64_le(data, 0x368);
        self.max_slot_diff = read_u32_le(data, 0x358);
        self.tier0_param = read_u32_le(data, 0x120);
        let (tiers, tier_count) = read_fee_tiers(self.tiers, data);
        self.tiers = tiers;
        self.tier_count = tier_count;
        let (alt, alt_count) = read_alt(self.alt, data);
        self.alt = alt;
        self.alt_count = alt_count;
        let (q2b, q2b_count) = read_q2b(self.q2b, data);
        self.q2b = q2b;
        self.q2b_count = q2b_count;
        if data.len() > 0x14cc {
            self.fee_cap_b2q = read_i32_le(data, 0x14c8);
        }
        if data.len() > 0x14d0 {
            self.fee_cap_q2b = read_i32_le(data, 0x14cc);
        }
        if data.len() > 0xbd0 {
            self.pool_slot = read_u64_le(data, 0xbc8);
        }
        if data.len() > 0x1920 {
            self.adj_gate_slot = read_u64_le(data, 0x1918);
        }
    }

    pub open spec fn with_extra_a(self, d: Seq<u8>) -> Self {
        ZeroFiState {
            extra_a_fee: if d.len() > 0x35c {
                i32_at(d, 0x358) as i32
            } else {
                self.extra_a_fee
            },
            extra_a_tier_total: if d.len() > 0x1e0 {
                u64_at(d, 0x1d8) as u64
            } else {
                self.extra_a_tier_total
            },
            extra_a_skip_amount: if d.len() > 0x1e8 {
                u64_at(d, 0x1e0) as u64
            } else {
                self.extra_a_skip_amount
            },
            ..self
        }
    }

    pub fn update_from_extra_a(&mut self, data: &[u8])
        ensures
            *final(self) == old(self).with_extra_a(data@),
    {
        if data.len() > 0x35c {
            self.extra_a_fee = read_i32_le(data, 0x358);
        }
        if data.len() > 0x1e0 {
            self.extra_a_tier_total = read_u64_le(data, 0x1d8);
        }
        if data.len() > 0x1e8 {
            self.extra_a_skip_amount = read_u64_le(data, 0x1e0);
        }
    }

    pub open spec fn with_extra_b(self, d: Seq<u8>) -> Self {
        ZeroFiState {
            extra_b_fee: if d.len() > 0x35c {
                i32_at(d, 0x358) as i32
            } else {
                self.extra_b_fee
            },
            ..self
        }
    }

    pub fn update_from_extra_b(&mut self, data: &[u8])
        ensures
            *final(self) == old(self).with_extra_b(data@),
    {
        if data.len() > 0x35c {
            self.extra_b_fee = read_i32_le(data, 0x358);
        }
    }
}

}
