//! The account data of a GoonFi market and of its oracle.
use vstd::prelude::*;

use crate::bytes::{read_u32_le, read_u64_le, u32_at, u64_at};

verus! {

/// The shortest market account.
pub const MIN_MARKET_DATA_SIZE: usize = 0x800;

/// The shortest oracle account.
pub const MIN_ORACLE_DATA_SIZE: usize = 0x18;

/// The most decimals whose scale fits in 64 bits.
pub const MAX_DECIMALS: u8 = 19;

#[derive(Debug, Clone, Copy)]
pub struct GoonFiState {
    pub mint_a_decimals: u8,
    pub mint_b_decimals: u8,
    pub price_scale: u64,
    pub position_b2q: u64,
    pub position_q2b: u64,
    pub slot_a: u64,
    pub slot_b: u64,
    pub fee_multiplier: u64,
    pub fee_base: u64,
    pub spread_b2q: [u64; 10],
    pub spread_q2b: [u64; 10],
    pub cum_boundaries_b2q: [u64; 10],
    pub cum_boundaries_q2b: [u64; 10],
    pub vault_threshold: u64,
    pub vault_scale: u64,
    pub stale_vault_threshold: u64,
    pub vault_scale_high: u64,
    pub vault_scale_pw: u64,
    pub vault_reference: u64,
    pub vault_a_balance: u64,
    pub bid_price: u64,
    pub ask_price: u64,
    pub oracle_slot: u64,
    pub spread_param: u64,
    pub base_amount: u64,
    pub quote_amount: u64,
}

/// Why account data is rejected.
#[derive(Clone, Copy, Debug, PartialEq, Eq, Structural)]
pub enum GoonFiError {
    MarketTooSmall,
    OracleTooSmall,
}

impl GoonFiError {
    pub fn message(&self) -> (r: &'static str)
        ensures
            r@ == (match *self {
                GoonFiError::MarketTooSmall => "GoonFi market data too small"@,
                GoonFiError::OracleTooSmall => "GoonFi oracle data too small"@,
            }),
    {
        match self {
            GoonFiError::MarketTooSmall => "GoonFi market data too small",
            GoonFiError::OracleTooSmall => "GoonFi oracle data too small",
        }
    }
}

pub open spec fn zeros() -> [u64; 10] {
    [0, 0, 0, 0, 0, 0, 0, 0, 0, 0]
}

/// The state before any update.
pub open spec fn no_state() -> GoonFiState {
    GoonFiState {
        mint_a_decimals: 0,
        mint_b_decimals: 0,
        price_scale: 1,
        position_b2q: 0,
        position_q2b: 0,
        slot_a: 0,
        slot_b: 0,
        fee_multiplier: 0,
        fee_base: 0,
        spread_b2q: zeros(),
        spread_q2b: zeros(),
        cum_boundaries_b2q: zeros(),
        cum_boundaries_q2b: zeros(),
        vault_threshold: 0,
        vault_scale: 0,
        stale_vault_threshold: 0,
        vault_scale_high: 0,
        vault_scale_pw: 0,
        vault_reference: 0,
        vault_a_balance: 0,
        bid_price: 0,
        ask_price: 0,
        oracle_slot: 0,
        spread_param: 0,
        base_amount: 0,
        quote_amount: 0,
    }
}

impl Default for GoonFiState {
    fn default() -> (r: Self)
        ensures
            r == no_state(),
    {
        let none: [u64; 10] = [0, 0, 0, 0, 0, 0, 0, 0, 0, 0];
        assert(none =~= zeros());
        GoonFiState {
            mint_a_decimals: 0,
            mint_b_decimals: 0,
            price_scale: 1,
            position_b2q: 0,
            position_q2b: 0,
            slot_a: 0,
            slot_b: 0,
            fee_multiplier: 0,
            fee_base: 0,
            spread_b2q: none,
            spread_q2b: none,
            cum_boundaries_b2q: none,
            cum_boundaries_q2b: none,
            vault_threshold: 0,
            vault_scale: 0,
            stale_vault_threshold: 0,
            vault_scale_high: 0,
            vault_scale_pw: 0,
            vault_reference: 0,
            vault_a_balance: 0,
            bid_price: 0,
            ask_price: 0,
            oracle_slot: 0,
            spread_param: 0,
            base_amount: 0,
            quote_amount: 0,
        }
    }
}

/// Ten words in a row.
pub open spec fn words_at(d: Seq<u8>, at: int) -> [u64; 10] {
    [
        u64_at(d, at) as u64,
        u64_at(d, at + 8) as u64,
        u64_at(d, at + 16) as u64,
        u64_at(d, at + 24) as u64,
        u64_at(d, at + 32) as u64,
        u64_at(d, at + 40) as u64,
        u64_at(d, at + 48) as u64,
        u64_at(d, at + 56) as u64,
        u64_at(d, at + 64) as u64,
        u64_at(d, at + 72) as u64,
    ]
}

fn read_words(data: &[u8], at: usize) -> (r: [u64; 10])
    requires
        at + 80 <= data.len(),
    ensures
        r == words_at(data@, at as int),
{
    let words = [
        read_u64_le(data, at),
        read_u64_le(data, at + 8),
        read_u64_le(data, at + 16),
        read_u64_le(data, at + 24),
        read_u64_le(data, at + 32),
        read_u64_le(data, at + 40),
        read_u64_le(data, at + 48),
        read_u64_le(data, at + 56),
        read_u64_le(data, at + 64),
        read_u64_le(data, at + 72),
    ];
    assert(words =~= words_at(data@, at as int));
    words
}

/// Ten to the `n`.
pub open spec fn pow10(n: nat) -> int
    decreases n,
{
    if n == 0 {
        1
    } else {
        10 * pow10((n - 1) as nat)
    }
}

/// The scale of a token's decimals.
pub fn scale_of(decimals: u8) -> (r: u64)
    requires
        decimals <= MAX_DECIMALS,
    ensures
        r == pow10(decimals as nat),
        r > 0,
{
    let mut r: u64 = 1;
    let mut i: u8 = 0;
    proof {
        reveal_with_fuel(pow10, 21);
        assert(pow10(19) == 10_000_000_000_000_000_000);
    }
    while i < decimals
        invariant
            i <= decimals <= 19,
            0 < r == pow10(i as nat),
            pow10(19) == 10_000_000_000_000_000_000,
        decreases decimals - i,
    {
        proof {
            lemma_pow10_grows((i + 1) as nat, 19);
        }
        r = r * 10;
        i = i + 1;
    }
    r
}

pub proof fn lemma_pow10_grows(a: nat, b: nat)
    requires
        a <= b,
    ensures
        0 < pow10(a) <= pow10(b),
    decreases b,
{
    if b == 0 {
    } else if a == b {
        lemma_pow10_grows((a - 1) as nat, (b - 1) as nat);
    } else {
        lemma_pow10_grows(a, (b - 1) as nat);
    }
}

/// Whether the scale of a market's base token fits in 64 bits.
pub open spec fn readable(d: Seq<u8>) -> bool {
    d.len() >= MIN_MARKET_DATA_SIZE ==> d[0x7bc] <= MAX_DECIMALS
}

pub fn is_readable(data: &[u8]) -> (r: bool)
    ensures
        r == readable(data@),
{
    if data.len() >= MIN_MARKET_DATA_SIZE {
        data[0x7bc] <= MAX_DECIMALS
    } else {
        true
    }
}

impl GoonFiState {
    pub open spec fn wf(self) -> bool {
        self.price_scale > 0
    }

    /// The state that market data leaves behind.
    pub open spec fn with_market_data(self, d: Seq<u8>) -> Result<Self, GoonFiError> {
        if d.len() < MIN_MARKET_DATA_SIZE {
            Err(GoonFiError::MarketTooSmall)
        } else {
            Ok(
                GoonFiState {
                    mint_a_decimals: d[0x7bc],
                    mint_b_decimals: d[0x7bd],
                    price_scale: pow10(d[0x7bc] as nat) as u64,
                    position_b2q: u64_at(d, 0x10) as u64,
                    position_q2b: u64_at(d, 0x18) as u64,
                    slot_a: u64_at(d, 0x20) as u64,
                    slot_b: u64_at(d, 0x28) as u64,
                    fee_multiplier: d[0x699] as u64,
                    fee_base: u64_at(d, 0x190) as u64,
                    spread_b2q: words_at(d, 0xf0),
                    spread_q2b: words_at(d, 0x140),
                    cum_boundaries_b2q: words_at(d, 0x5c0),
                    cum_boundaries_q2b: words_at(d, 0x610),
                    vault_threshold: u64_at(d, 0x660) as u64,
                    vault_scale: u64_at(d, 0x670) as u64,
                    stale_vault_threshold: u64_at(d, 0x678) as u64,
                    vault_scale_high: u64_at(d, 0x680) as u64,
                    vault_scale_pw: u64_at(d, 0x688) as u64,
                    vault_reference: u64_at(d, 0x690) as u64,
                    vault_a_balance: u64_at(d, 0x40) as u64,
                    ..self
                },
            )
        }
    }

    pub fn update_from_market_data(&mut self, data: &[u8]) -> (r: Result<(), GoonFiError>)
        requires
            old(self).wf(),
            readable(data@),
        ensures
            final(self).wf(),
            match old(self).with_market_data(data@) {
                Ok(s) => r is Ok && *final(self) == s,
                Err(e) => r == Err::<(), GoonFiError>(e) && *final(self) == *old(self),
            },
    {
        if data.len() < MIN_MARKET_DATA_SIZE {
            return Err(GoonFiError::MarketTooSmall);
        }
        self.mint_a_decimals = data[0x7bc];
        self.mint_b_decimals = data[0x7bd];
        self.price_scale = scale_of(data[0x7bc]);
        self.position_b2q = read_u64_le(data, 0x10);
        self.position_q2b = read_u64_le(data, 0x18);
        self.slot_a = read_u64_le(data, 0x20);
        self.slot_b = read_u64_le(data, 0x28);
        self.fee_multiplier = data[0x699] as u64;
        self.fee_base = read_u64_le(data, 0x190);
        self.spread_b2q = read_words(data, 0xf0);
        self.spread_q2b = read_words(data, 0x140);
        self.cum_boundaries_b2q = read_words(data, 0x5c0);
        self.cum_boundaries_q2b = read_words(data, 0x610);
        self.vault_threshold = read_u64_le(data, 0x660);
        self.vault_scale = read_u64_le(data, 0x670);
        self.stale_vault_threshold = read_u64_le(data, 0x678);
        self.vault_scale_high = read_u64_le(data, 0x680);
        self.vault_scale_pw = read_u64_le(data, 0x688);
        self.vault_reference = read_u64_le(data, 0x690);
        self.vault_a_balance = read_u64_le(data, 0x40);
        Ok(())
    }

    /// The state that oracle data leaves behind.
    pub open spec fn with_oracle_data(self, d: Seq<u8>) -> Result<Self, GoonFiError> {
        if d.len() < MIN_ORACLE_DATA_SIZE {
            Err(GoonFiError::OracleTooSmall)
        } else {
            Ok(
                GoonFiState {
                    bid_price: u64_at(d, 0) as u64,
                    ask_price: u64_at(d, 8) as u64,
                    oracle_slot: u32_at(d, 0x10) as u64,
                    spread_param: u32_at(d, 0x14) as u64,
                    ..self
                },
            )
        }
    }

    pub fn update_from_oracle_data(&mut self, data: &[u8]) -> (r: Result<(), GoonFiError>)
        ensures
            match old(self).with_oracle_data(data@) {
                Ok(s) => r is Ok && *final(self) == s,
                Err(e) => r == Err::<(), GoonFiError>(e) && *final(self) == *old(self),
            },
    {
        if data.len() < MIN_ORACLE_DATA_SIZE {
            return Err(GoonFiError::OracleTooSmall);
        }
        self.bid_price = read_u64_le(data, 0);
        self.ask_price = read_u64_le(data, 8);
        self.oracle_slot = read_u32_le(data, 0x10) as u64;
        self.spread_param = read_u32_le(data, 0x14) as u64;
        Ok(())
    }
}

}
