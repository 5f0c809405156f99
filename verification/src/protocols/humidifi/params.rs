//! The masked parameters of a Humidifi pool account.
use vstd::prelude::*;

use crate::bytes::{read_u64_le, u64_at};

verus! {

pub const L0_COEFF: u64 = 0xb957ed15dc877c26;

pub const L0_COEFF_HIGH: u64 = 0x46a912eb237873d9;

pub const L1_VIRTUAL: u64 = 0xb957ed15dc877426;

pub const RESERVE_ADJ_V0_3: u64 = 0x6e9de2b30b19f1ea;

pub const RESERVE_ADJ_V4: u64 = 0x6e9de2b30b19f9ea;

pub const FEE_STRUCTURE_KEY: u64 = 0x47d26c2e77aa1400;

pub const FIELD_0X30: u64 = 0x96286f3f7c145a29;

pub const FIELD_0X90: u64 = 0xbf03b62bffacf846;

pub const FIELD_0XB0: u64 = 0x40f849d0005707ba;

pub const OTHER_UNKNOWN_POOL_PARAM_QUOTE_TO_BASE: u64 = 0x69d190c683eda5d3;

pub const Q2B_SCALE_FACTOR_KEY: u64 = 0x96246f337c185a25;

pub const ACTIVATION_THRESHOLD_KEY: u64 = 0x40fb49d3005407bf;

pub const ISQRT_THRESHOLD_KEY: u64 = 0x40f049d8005f07b2;

pub const IMPACT_MULTIPLIER_KEY: u64 = 0x40f649de005907b0;

pub const POOL_PARAM_1_SCALED_DELTA_POS_KEY: u64 = 0x40f249da005d07b4;

pub const POOL_PARAM_1_SCALED_KEY: u64 = 0x40e449cc004b07ae;

pub const IMPACT_ACTIVATION_THRESHOLD_2_KEY: u64 = 0x40ed49c5004207a9;

pub const IMPACT_MULTIPLIER_2_KEY: u64 = 0x40e849c0004707aa;

pub const ISQRT_THRESHOLD_2_KEY: u64 = 0x40ea49c2004507ac;

pub const FEE_TIER_BOUNDARY_KEY: u64 = 0x47d16c2d77a91401;

pub const FEE_FACTOR_HIGH_KEY: u64 = 0x47d06c2c77a81402;

pub const FIELD_0XD0: u64 = 0x40f449dc005b07be;

pub const TIER_3_4_BOUNDARY_KEY: u64 = 0x47d76c2b77af1403;

/// The shortest pool account.
pub const MIN_POOL_DATA_SIZE: usize = 0x6c0;

#[derive(Debug, Clone, Copy, PartialEq, Eq, Structural)]
pub struct PoolParams {
    pub l0_lower: u64,
    pub l0_upper: u64,
    pub price_q48: u64,
    pub adjust_liq: u64,
    pub other_param_base_to_quote: u64,
    pub other_param_quote_to_base: u64,
    pub pool_param_1: u64,
    pub scaled_pp1: u64,
    pub fee_bps: u32,
    pub fee_denominator: u32,
    pub imbalance_m0: u32,
    pub tick_offset: u32,
    pub fee_factor_high: u32,
    pub fee_denominator_high: u32,
    pub q2b_scale_factor: u64,
    pub activation_output_threshold: u64,
    pub isqrt_threshold: u64,
    pub impact_multiplier: u64,
    pub pool_param_1_scaled_delta_pos: u64,
    pub pool_param_1_scaled: u64,
    pub impact_activation_threshold_2: u64,
    pub impact_multiplier_2: u64,
    pub isqrt_threshold_2: u64,
    pub linear_mode: u8,
    pub max_tick: u32,
    pub x1: u32,
    pub valid_thresh: u64,
    pub last_update: u64,
}

/// The parameters before any update.
pub open spec fn no_params() -> PoolParams {
    PoolParams {
        l0_lower: 0,
        l0_upper: 0,
        price_q48: 0,
        adjust_liq: 0,
        other_param_base_to_quote: 0,
        other_param_quote_to_base: 0,
        pool_param_1: 0,
        scaled_pp1: 0,
        fee_bps: 0,
        fee_denominator: 0,
        imbalance_m0: 0,
        tick_offset: 0,
        fee_factor_high: 0,
        fee_denominator_high: 0,
        q2b_scale_factor: 0,
        activation_output_threshold: 0,
        isqrt_threshold: 0,
        impact_multiplier: 0,
        pool_param_1_scaled_delta_pos: 0,
        pool_param_1_scaled: 0,
        impact_activation_threshold_2: 0,
        impact_multiplier_2: 0,
        isqrt_threshold_2: 0,
        linear_mode: 0,
        max_tick: 0,
        x1: 0,
        valid_thresh: 0,
        last_update: 0,
    }
}

impl Default for PoolParams {
    fn default() -> (r: Self)
        ensures
            r == no_params(),
    {
        PoolParams {
            l0_lower: 0,
            l0_upper: 0,
            price_q48: 0,
            adjust_liq: 0,
            other_param_base_to_quote: 0,
            other_param_quote_to_base: 0,
            pool_param_1: 0,
            scaled_pp1: 0,
            fee_bps: 0,
            fee_denominator: 0,
            imbalance_m0: 0,
            tick_offset: 0,
            fee_factor_high: 0,
            fee_denominator_high: 0,
            q2b_scale_factor: 0,
            activation_output_threshold: 0,
            isqrt_threshold: 0,
            impact_multiplier: 0,
            pool_param_1_scaled_delta_pos: 0,
            pool_param_1_scaled: 0,
            impact_activation_threshold_2: 0,
            impact_multiplier_2: 0,
            isqrt_threshold_2: 0,
            linear_mode: 0,
            max_tick: 0,
            x1: 0,
            valid_thresh: 0,
            last_update: 0,
        }
    }
}

/// A word unmasked with its key; zero past the end of the data.
pub open spec fn unmasked(d: Seq<u8>, at: int, key: u64) -> u64 {
    if d.len() < at + 8 {
        0
    } else {
        (u64_at(d, at) as u64) ^ key
    }
}

pub fn xor_decode_u64(data: &[u8], offset: usize, key: u64) -> (r: u64)
    requires
        offset + 8 <= usize::MAX,
    ensures
        r == unmasked(data@, offset as int, key),
{
    if data.len() < offset + 8 {
        return 0;
    }
    read_u64_le(data, offset) ^ key
}

/// Masking a word twice with one key gives it back.
pub proof fn law_masking_is_an_involution(word: u64, key: u64)
    ensures
        (word ^ key) ^ key == word,
{
    assert((word ^ key) ^ key == word) by (bit_vector);
}

pub open spec fn low_word(x: u64) -> u32 {
    (x as int % 0x1_0000_0000) as u32
}

pub open spec fn high_word(x: u64) -> u32 {
    (x as int / 0x1_0000_0000) as u32
}

/// The parameters of a pool account; nothing where it is too short.
pub open spec fn pool_params(d: Seq<u8>) -> Option<PoolParams> {
    if d.len() < MIN_POOL_DATA_SIZE {
        None
    } else {
        let fees = unmasked(d, 0x2d8, FEE_STRUCTURE_KEY);
        let boundary = unmasked(d, 0x2e0, FEE_TIER_BOUNDARY_KEY);
        let factors = unmasked(d, 0x2e8, FEE_FACTOR_HIGH_KEY);
        let last_boundary = unmasked(d, 0x2f0, TIER_3_4_BOUNDARY_KEY);
        Some(
            PoolParams {
                l0_lower: unmasked(d, 0x220, L0_COEFF),
                l0_upper: unmasked(d, 0x228, L0_COEFF_HIGH),
                price_q48: unmasked(d, 0x240, L1_VIRTUAL),
                adjust_liq: unmasked(
                    d,
                    0x250,
                    if u64_at(d, 0x6b8) <= 3 {
                        RESERVE_ADJ_V0_3
                    } else {
                        RESERVE_ADJ_V4
                    },
                ),
                other_param_base_to_quote: unmasked(d, 0x30, FIELD_0X30),
                other_param_quote_to_base: unmasked(d, 0, OTHER_UNKNOWN_POOL_PARAM_QUOTE_TO_BASE),
                pool_param_1: unmasked(d, 0xb0, FIELD_0XB0),
                scaled_pp1: unmasked(d, 0x90, FIELD_0X90),
                fee_bps: high_word(fees),
                fee_denominator: low_word(fees),
                imbalance_m0: low_word(boundary),
                tick_offset: high_word(boundary),
                fee_factor_high: high_word(factors),
                fee_denominator_high: low_word(factors),
                q2b_scale_factor: unmasked(d, 0x50, Q2B_SCALE_FACTOR_KEY),
                activation_output_threshold: unmasked(d, 0xc8, ACTIVATION_THRESHOLD_KEY),
                isqrt_threshold: unmasked(d, 0xf0, ISQRT_THRESHOLD_KEY),
                impact_multiplier: unmasked(d, 0xe0, IMPACT_MULTIPLIER_KEY),
                pool_param_1_scaled_delta_pos: unmasked(d, 0x100, POOL_PARAM_1_SCALED_DELTA_POS_KEY),
                pool_param_1_scaled: unmasked(d, 0x150, POOL_PARAM_1_SCALED_KEY),
                impact_activation_threshold_2: unmasked(d, 0x118, IMPACT_ACTIVATION_THRESHOLD_2_KEY),
                impact_multiplier_2: unmasked(d, 0x130, IMPACT_MULTIPLIER_2_KEY),
                isqrt_threshold_2: unmasked(d, 0x140, ISQRT_THRESHOLD_2_KEY),
                linear_mode: (unmasked(d, 0xd0, FIELD_0XD0) as int % 0x100) as u8,
                max_tick: high_word(last_boundary),
                x1: low_word(last_boundary),
                valid_thresh: unmasked(d, 0x260, RESERVE_ADJ_V0_3),
                last_update: unmasked(d, 0x268, RESERVE_ADJ_V0_3),
            },
        )
    }
}

fn low32(x: u64) -> (r: u32)
    ensures
        r == low_word(x),
{
    (x % 0x1_0000_0000) as u32
}

fn high32(x: u64) -> (r: u32)
    ensures
        r == high_word(x),
{
    (x / 0x1_0000_0000) as u32
}

pub fn decrypt_pool_params(pool_data: &[u8]) -> (r: Option<PoolParams>)
    ensures
        r == pool_params(pool_data@),
{
    if pool_data.len() < MIN_POOL_DATA_SIZE {
        return None;
    }
    let tier = read_u64_le(pool_data, 0x6b8);
    let reserve_adj_key = if tier <= 3 {
        RESERVE_ADJ_V0_3
    } else {
        RESERVE_ADJ_V4
    };
    let fees = xor_decode_u64(pool_data, 0x2d8, FEE_STRUCTURE_KEY);
    let boundary = xor_decode_u64(pool_data, 0x2e0, FEE_TIER_BOUNDARY_KEY);
    let factors = xor_decode_u64(pool_data, 0x2e8, FEE_FACTOR_HIGH_KEY);
    let last_boundary = xor_decode_u64(pool_data, 0x2f0, TIER_3_4_BOUNDARY_KEY);
    let mode = xor_decode_u64(pool_data, 0xd0, FIELD_0XD0);
    Some(
        PoolParams {
            l0_lower: xor_decode_u64(pool_data, 0x220, L0_COEFF),
            l0_upper: xor_decode_u64(pool_data, 0x228, L0_COEFF_HIGH),
            price_q48: xor_decode_u64(pool_data, 0x240, L1_VIRTUAL),
            adjust_liq: xor_decode_u64(pool_data, 0x250, reserve_adj_key),
            other_param_base_to_quote: xor_decode_u64(pool_data, 0x30, FIELD_0X30),
            other_param_quote_to_base: xor_decode_u64(pool_data, 0, OTHER_UNKNOWN_POOL_PARAM_QUOTE_TO_BASE),
            pool_param_1: xor_decode_u64(pool_data, 0xb0, FIELD_0XB0),
            scaled_pp1: xor_decode_u64(pool_data, 0x90, FIELD_0X90),
            fee_bps: high32(fees),
            fee_denominator: low32(fees),
            imbalance_m0: low32(boundary),
            tick_offset: high32(boundary),
            fee_factor_high: high32(factors),
            fee_denominator_high: low32(factors),
            q2b_scale_factor: xor_decode_u64(pool_data, 0x50, Q2B_SCALE_FACTOR_KEY),
            activation_output_threshold: xor_decode_u64(pool_data, 0xc8, ACTIVATION_THRESHOLD_KEY),
            isqrt_threshold: xor_decode_u64(pool_data, 0xf0, ISQRT_THRESHOLD_KEY),
            impact_multiplier: xor_decode_u64(pool_data, 0xe0, IMPACT_MULTIPLIER_KEY),
            pool_param_1_scaled_delta_pos: xor_decode_u64(pool_data, 0x100, POOL_PARAM_1_SCALED_DELTA_POS_KEY),
            pool_param_1_scaled: xor_decode_u64(pool_data, 0x150, POOL_PARAM_1_SCALED_KEY),
            impact_activation_threshold_2: xor_decode_u64(pool_data, 0x118, IMPACT_ACTIVATION_THRESHOLD_2_KEY),
            impact_multiplier_2: xor_decode_u64(pool_data, 0x130, IMPACT_MULTIPLIER_2_KEY),
            isqrt_threshold_2: xor_decode_u64(pool_data, 0x140, ISQRT_THRESHOLD_2_KEY),
            linear_mode: (mode % 0x100) as u8,
            max_tick: high32(last_boundary),
            x1: low32(last_boundary),
            valid_thresh: xor_decode_u64(pool_data, 0x260, RESERVE_ADJ_V0_3),
            last_update: xor_decode_u64(pool_data, 0x268, RESERVE_ADJ_V0_3),
        },
    )
}

}
