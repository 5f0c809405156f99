//! Square-root prices of tick indices, and the tick index of a price.
use vstd::prelude::*;

use super::price::{optimized_mul_shift, MAX_SQRT_PRICE_X64, MIN_SQRT_PRICE_X64};
use super::u256::{lemma_mul_exact, two64, U256};
use crate::num::{bit_len, bit_len_u128, iabs, wrap128};

verus! {

/// The Raydium price factor of tick -1.
pub const U1_RATIO: u128 = 0xfffcb933bd6fb800;

/// One, as a price.
pub const U2_RATIO: u128 = 0x1_0000_0000_0000_0000;

/// The Raydium price factors of the ticks -2, -4, -8 and so on.
pub const RAYDIUM_RATIOS: [u64; 19] = [
    0xfff97272373d4000,
    0xfff2e50f5f657000,
    0xffe5caca7e10f000,
    0xffcb9843d60f7000,
    0xff973b41fa98e800,
    0xff2ea16466c9b000,
    0xfe5dee046a9a3800,
    0xfcbe86c7900bb000,
    0xf987a7253ac65800,
    0xf3392b0822bb6000,
    0xe7159475a2caf000,
    0xd097f3bdfd2f2000,
    0xa9f746462d9f8000,
    0x70d869a156f31c00,
    0x31be135f97ed3200,
    0x09aa508b5b85a500,
    0x005d6af8dedc582c,
    0x00002216e584f5fa,
    0,
];

/// The Orca price factor of tick -1.
pub const ORCA_U1_NEG_RATIO: u128 = 18445821805675392311;

/// One, as an Orca price.
pub const ORCA_U2_NEG_RATIO: u128 = 18446744073709551616;

/// The Orca price factors of the ticks -1, -2, -4 and so on; the first is
/// unused.
pub const ORCA_NEGATIVE_RATIOS: [u64; 19] = [
    0,
    18444899583751176498,
    18443055278223354162,
    18439367220385604838,
    18431993317065449817,
    18417254355718160513,
    18387811781193591352,
    18329067761203520168,
    18212142134806087854,
    17980523815641551639,
    17526086738831147013,
    16651378430235024244,
    15030750278693429944,
    12247334978882834399,
    8131365268884726200,
    3584323654723342297,
    696457651847595233,
    26294789957452057,
    37481735321082,
];

/// The Orca price factor of tick 1, with 96 fractional bits.
pub const ORCA_U1_POS_RATIO_Q96: u128 = 79232123823359799118286999567;

/// One, with 96 fractional bits.
pub const ORCA_U2_POS_RATIO_Q96: u128 = 79228162514264337593543950336;

/// The Orca price factors of the ticks 1, 2, 4 and so on, with 96 fractional
/// bits; the first is unused.
pub const ORCA_POSITIVE_RATIOS_Q96: [u128; 19] = [
    0,
    79236085330515764027303304731,
    79244008939048815603706035061,
    79259858533276714757314932305,
    79291567232598584799939703904,
    79355022692464371645785046466,
    79482085999252804386437311141,
    79736823300114093921829183326,
    80248749790819932309965073892,
    81282483887344747381513967011,
    83390072131320151908154831281,
    87770609709833776024991924138,
    97234110755111693312479820773,
    119332217159966728226237229890,
    179736315981702064433883588727,
    407748233172238350107850275304,
    2098478828474011932436660412517,
    55581415166113811149459800483533,
    38992368544603139932233054999993551,
];

/// Whether the bit of weight two to the `k` is set.
pub open spec fn has_bit(n: int, k: nat) -> bool {
    (n / vstd::arithmetic::power2::pow2(k) as int) % 2 == 1
}

/// The product of the Raydium factors of the lowest `k` bits above the first.
pub open spec fn raydium_ratio(n: int, k: nat) -> int
    decreases k,
{
    if k == 0 {
        if n % 2 == 1 {
            U1_RATIO as int
        } else {
            U2_RATIO as int
        }
    } else {
        let r = raydium_ratio(n, (k - 1) as nat);
        if has_bit(n, k) {
            (r * RAYDIUM_RATIOS[k - 1]) / two64()
        } else {
            r
        }
    }
}

/// The Raydium square-root price of a tick.
pub open spec fn raydium_price(tick: int) -> int {
    let r = raydium_ratio(iabs(tick), 18);
    if tick > 0 {
        u128::MAX as int / r
    } else {
        r
    }
}

/// The product of the Orca factors above one of the lowest `k` bits above the
/// first, with 96 fractional bits.
pub open spec fn orca_positive_ratio(n: int, k: nat) -> int
    decreases k,
{
    if k == 0 {
        if n % 2 == 1 {
            ORCA_U1_POS_RATIO_Q96 as int
        } else {
            ORCA_U2_POS_RATIO_Q96 as int
        }
    } else {
        let r = orca_positive_ratio(n, (k - 1) as nat);
        if has_bit(n, k) {
            wrap128((r * ORCA_POSITIVE_RATIOS_Q96[k as int]) / 0x1_0000_0000_0000_0000_0000_0000)
        } else {
            r
        }
    }
}

/// The product of the Orca factors below one of the lowest `k` bits above the
/// first.
pub open spec fn orca_negative_ratio(n: int, k: nat) -> int
    decreases k,
{
    if k == 0 {
        if n % 2 == 1 {
            ORCA_U1_NEG_RATIO as int
        } else {
            ORCA_U2_NEG_RATIO as int
        }
    } else {
        let r = orca_negative_ratio(n, (k - 1) as nat);
        if has_bit(n, k) {
            (r * ORCA_NEGATIVE_RATIOS[k as int]) / two64()
        } else {
            r
        }
    }
}

/// The Orca square-root price of a tick.
pub open spec fn orca_price(tick: int) -> int {
    if tick >= 0 {
        orca_positive_ratio(iabs(tick), 18) / 0x1_0000_0000
    } else {
        orca_negative_ratio(iabs(tick), 18)
    }
}

/// Dropping one more bit.
proof fn lemma_next_bit(n: int, k: nat)
    requires
        n >= 0,
    ensures
        (n / vstd::arithmetic::power2::pow2(k) as int) / 2 == n / vstd::arithmetic::power2::pow2(k + 1) as int,
{
    vstd::arithmetic::power2::lemma_pow2_pos(k);
    vstd::arithmetic::power2::lemma_pow2_unfold(k + 1);
    vstd::arithmetic::div_mod::lemma_div_denominator(n, vstd::arithmetic::power2::pow2(k) as int, 2);
    vstd::arithmetic::mul::lemma_mul_is_commutative(2, vstd::arithmetic::power2::pow2(k) as int);
}

/// A lower bound of the factor of the `k`-th bit.
spec fn factor_floor(k: nat) -> int {
    if k <= 13 {
        0x8000_0000_0000_0000
    } else if k == 14 {
        0x4000_0000_0000_0000
    } else if k == 15 {
        0x2000_0000_0000_0000
    } else if k == 16 {
        0x800_0000_0000_0000
    } else if k == 17 {
        0x40_0000_0000_0000
    } else {
        0x2000_0000_0000
    }
}

/// A lower bound of the product of the factors of the first `k` bits.
spec fn ratio_floor(k: nat) -> int
    decreases k,
{
    if k == 0 {
        0x8000_0000_0000_0000
    } else if k <= 13 {
        ratio_floor((k - 1) as nat) / 2
    } else if k == 14 {
        0x1_0000_0000_0000
    } else if k == 15 {
        0x2000_0000_0000
    } else if k == 16 {
        0x100_0000_0000
    } else if k == 17 {
        0x4000_0000
    } else {
        0x800
    }
}

proof fn lemma_ratio_floors()
    ensures
        ratio_floor(1) == 0x4000_0000_0000_0000,
        ratio_floor(2) == 0x2000_0000_0000_0000,
        ratio_floor(3) == 0x1000_0000_0000_0000,
        ratio_floor(4) == 0x800_0000_0000_0000,
        ratio_floor(5) == 0x400_0000_0000_0000,
        ratio_floor(6) == 0x200_0000_0000_0000,
        ratio_floor(7) == 0x100_0000_0000_0000,
        ratio_floor(8) == 0x80_0000_0000_0000,
        ratio_floor(9) == 0x40_0000_0000_0000,
        ratio_floor(10) == 0x20_0000_0000_0000,
        ratio_floor(11) == 0x10_0000_0000_0000,
        ratio_floor(12) == 0x8_0000_0000_0000,
        ratio_floor(13) == 0x4_0000_0000_0000,
{
    reveal_with_fuel(ratio_floor, 14);
}

proof fn lemma_scaled_floor(r: int, m: int, lo: int, factor: int, out: int)
    requires
        r >= lo >= 0,
        m >= factor >= 0,
        lo * factor >= out * two64(),
    ensures
        (r * m) / two64() >= out,
{
    assert(r * m >= lo * factor) by (nonlinear_arith)
        requires
            r >= lo >= 0,
            m >= factor >= 0,
    ;
}

/// No Raydium price factor product vanishes.
proof fn lemma_raydium_ratio_floor(n: int, k: nat)
    requires
        n >= 0,
        k <= 18,
    ensures
        raydium_ratio(n, k) >= ratio_floor(k) >= 0x800,
    decreases k,
{
    lemma_ratio_floors();
    if k > 0 {
        lemma_raydium_ratio_floor(n, (k - 1) as nat);
        let r = raydium_ratio(n, (k - 1) as nat);
        let m = RAYDIUM_RATIOS[k - 1] as int;
        let lo = ratio_floor((k - 1) as nat);
        assert(m >= factor_floor(k) && lo * factor_floor(k) >= ratio_floor(k) * two64() && lo >= ratio_floor(k)) by {
            if k <= 9 {
                assert(k == 1 || k == 2 || k == 3 || k == 4 || k == 5 || k == 6 || k == 7 || k == 8 || k == 9);
            } else {
                assert(k == 10 || k == 11 || k == 12 || k == 13 || k == 14 || k == 15 || k == 16 || k == 17 || k == 18);
            }
        }
        lemma_scaled_floor(r, m, lo, factor_floor(k), ratio_floor(k));
    }
}

fn tick_magnitude(tick: i32) -> (r: u32)
    ensures
        r == iabs(tick as int),
{
    if tick >= 0 {
        tick as u32
    } else {
        (-(tick as i64)) as u32
    }
}

/// The Raydium square-root price of a tick.
pub fn get_sqrt_price_at_tick(tick: i32) -> (r: u128)
    ensures
        r == raydium_price(tick as int),
{
    let abs_tick = tick_magnitude(tick);
    let mut ratio: u128 = if abs_tick % 2 == 1 {
        U1_RATIO
    } else {
        U2_RATIO
    };
    let mut rest: u32 = abs_tick / 2;
    let mut bit: usize = 1;
    proof {
        vstd::arithmetic::power2::lemma2_to64();
    }
    while bit <= 18
        invariant
            1 <= bit <= 19,
            rest == abs_tick as int / vstd::arithmetic::power2::pow2(bit as nat) as int,
            ratio == raydium_ratio(abs_tick as int, (bit - 1) as nat),
        decreases 19 - bit,
    {
        if rest % 2 == 1 {
            ratio = optimized_mul_shift(ratio, RAYDIUM_RATIOS[bit - 1]);
        }
        proof {
            lemma_next_bit(abs_tick as int, bit as nat);
        }
        rest = rest / 2;
        bit = bit + 1;
    }
    proof {
        lemma_raydium_ratio_floor(abs_tick as int, 18);
    }
    if tick > 0 {
        u128::MAX / ratio
    } else {
        ratio
    }
}

/// A product with 96 fractional bits, cut to 128 bits.
fn mul_shift_96(ratio: u128, multiplier: u128) -> (r: u128)
    ensures
        r == wrap128((ratio * multiplier) / 0x1_0000_0000_0000_0000_0000_0000),
{
    proof {
        lemma_mul_exact(ratio as int, multiplier as int);
        vstd::arithmetic::power2::lemma2_to64();
        vstd::arithmetic::power2::lemma_pow2_adds(64, 32);
    }
    U256::from_u128(ratio).mul(U256::from_u128(multiplier)).shr(96).low_u128()
}

/// The Orca square-root price of a tick.
pub fn get_sqrt_price_at_tick_orca(tick: i32) -> (r: u128)
    ensures
        r == orca_price(tick as int),
{
    let abs_tick = tick_magnitude(tick);
    let mut rest: u32 = abs_tick / 2;
    let mut bit: usize = 1;
    proof {
        vstd::arithmetic::power2::lemma2_to64();
    }
    if tick >= 0 {
        let mut ratio: u128 = if abs_tick % 2 == 1 {
            ORCA_U1_POS_RATIO_Q96
        } else {
            ORCA_U2_POS_RATIO_Q96
        };
        while bit <= 18
            invariant
                1 <= bit <= 19,
                rest == abs_tick as int / vstd::arithmetic::power2::pow2(bit as nat) as int,
                ratio == orca_positive_ratio(abs_tick as int, (bit - 1) as nat),
            decreases 19 - bit,
        {
            if rest % 2 == 1 {
                ratio = mul_shift_96(ratio, ORCA_POSITIVE_RATIOS_Q96[bit]);
            }
            proof {
                lemma_next_bit(abs_tick as int, bit as nat);
            }
            rest = rest / 2;
            bit = bit + 1;
        }
        ratio / 0x1_0000_0000
    } else {
        let mut ratio: u128 = if abs_tick % 2 == 1 {
            ORCA_U1_NEG_RATIO
        } else {
            ORCA_U2_NEG_RATIO
        };
        while bit <= 18
            invariant
                1 <= bit <= 19,
                rest == abs_tick as int / vstd::arithmetic::power2::pow2(bit as nat) as int,
                ratio == orca_negative_ratio(abs_tick as int, (bit - 1) as nat),
            decreases 19 - bit,
        {
            if rest % 2 == 1 {
                ratio = optimized_mul_shift(ratio, ORCA_NEGATIVE_RATIOS[bit]);
            }
            proof {
                lemma_next_bit(abs_tick as int, bit as nat);
            }
            rest = rest / 2;
            bit = bit + 1;
        }
        ratio
    }
}

pub const LOG_B_2_X32: i128 = 59543866431248;

pub const BIT_PRECISION: u32 = 14;

pub const LOG_B_P_ERR_MARGIN_LOWER_X64: i128 = 184467440737095516;

pub const LOG_B_P_ERR_MARGIN_UPPER_X64: i128 = 15793534762490258745;

/// A price scaled by a power of two into the range from 2^63 to 2^64.
pub open spec fn normalized(p: int) -> int {
    let msb = bit_len(p as nat) - 1;
    if msb >= 64 {
        p / vstd::arithmetic::power2::pow2((msb - 63) as nat) as int
    } else {
        p * vstd::arithmetic::power2::pow2((63 - msb) as nat)
    }
}

/// The next `n` binary digits of the logarithm of `r`, found by squaring; the
/// first of them weighs `bit`.
pub open spec fn log2_fraction(r: int, bit: int, n: nat) -> int
    decreases n,
{
    if n == 0 {
        0
    } else {
        let square = r * r;
        if square >= 0x8000_0000_0000_0000_0000_0000_0000_0000 {
            bit + log2_fraction(square / 0x1_0000_0000_0000_0000, bit / 2, (n - 1) as nat)
        } else {
            log2_fraction(square / 0x8000_0000_0000_0000, bit / 2, (n - 1) as nat)
        }
    }
}

/// The logarithm of a price to the base of one tick's price step, with 64
/// fractional bits, from fourteen binary digits.
pub open spec fn log_base_tick(p: int) -> int {
    let whole = (bit_len(p as nat) - 1 - 64) * 0x1_0000_0000;
    let fraction = log2_fraction(normalized(p), 0x8000_0000_0000_0000, 14) / 0x1_0000_0000;
    (whole + fraction) * LOG_B_2_X32
}

/// The tick of a price: the one tick within the error margins of the
/// logarithm, or of two the upper one where its Orca price is not above.
pub open spec fn tick_of_price(p: int) -> int {
    let low = (log_base_tick(p) - LOG_B_P_ERR_MARGIN_LOWER_X64) / two64();
    let high = (log_base_tick(p) + LOG_B_P_ERR_MARGIN_UPPER_X64) / two64();
    if low == high {
        low
    } else if orca_price(high) <= p {
        high
    } else {
        low
    }
}

/// Right shift of a signed number by 64 places.
fn floor_shift_64(x: i128) -> (r: i128)
    ensures
        r == x as int / two64(),
{
    if x >= 0 {
        x / 0x1_0000_0000_0000_0000
    } else {
        -((-(x + 1)) / 0x1_0000_0000_0000_0000) - 1
    }
}

pub(super) proof fn lemma_normalized_range(p: u128)
    requires
        p > 0,
    ensures
        0x8000_0000_0000_0000 <= normalized(p as int) < two64(),
        bit_len(p as nat) >= 1,
{
    let msb = (bit_len(p as nat) - 1) as nat;
    crate::num::lemma_bit_len_bounds(p as nat);
    vstd::arithmetic::power2::lemma2_to64();
    if msb >= 64 {
        let k = (msb - 63) as nat;
        let d = vstd::arithmetic::power2::pow2(k) as int;
        vstd::arithmetic::power2::lemma_pow2_pos(k);
        vstd::arithmetic::power2::lemma_pow2_adds(63, k);
        vstd::arithmetic::power2::lemma_pow2_adds(64, k);
        vstd::arithmetic::power2::lemma2_to64_rest();
        let q = p as int / d;
        vstd::arithmetic::div_mod::lemma_fundamental_div_mod(p as int, d);
        vstd::arithmetic::div_mod::lemma_mod_bound(p as int, d);
        assert(0x8000_0000_0000_0000 <= q < two64()) by (nonlinear_arith)
            requires
                0x8000_0000_0000_0000 * d <= p < two64() * d,
                p == d * q + p as int % d,
                0 <= p as int % d < d,
        ;
    } else {
        let k = (63 - msb) as nat;
        vstd::arithmetic::power2::lemma_pow2_adds(msb, k);
        vstd::arithmetic::power2::lemma_pow2_adds(msb + 1, k);
        vstd::arithmetic::power2::lemma_pow2_pos(k);
        let d = vstd::arithmetic::power2::pow2(k) as int;
        let lo = vstd::arithmetic::power2::pow2(msb) as int;
        let hi = vstd::arithmetic::power2::pow2(msb + 1) as int;
        vstd::arithmetic::power2::lemma2_to64_rest();
        assert(lo * d <= p * d < hi * d) by (nonlinear_arith)
            requires
                lo <= p < hi,
                d > 0,
        ;
    }
}

/// A price scaled by a power of two into the range from 2^63 to 2^64.
fn normalize(p: u128, msb: u32) -> (r: u128)
    requires
        p > 0,
        msb == bit_len(p as nat) - 1,
        msb < 128,
    ensures
        r == normalized(p as int),
{
    proof {
        lemma_normalized_range(p);
    }
    if msb >= 64 {
        proof {
            vstd::bits::lemma_u128_shr_is_div(p, (msb - 63) as u128);
        }
        p >> (msb - 63)
    } else {
        proof {
            super::u256::lemma_shl128(p, (63 - msb) as u32);
        }
        p << (63 - msb)
    }
}

/// The first fourteen binary digits of a logarithm, with 64 fractional bits.
fn log2_digits(start: u128) -> (r: i128)
    requires
        0x8000_0000_0000_0000 <= start < 0x1_0000_0000_0000_0000,
    ensures
        r == log2_fraction(start as int, 0x8000_0000_0000_0000, 14),
        0 <= r <= 0x1_0000_0000_0000_0000,
{
    let mut r: u128 = start;
    let mut bit: i128 = 0x8000_0000_0000_0000;
    let mut fraction: i128 = 0;
    let mut precision: u32 = 0;
    while precision < BIT_PRECISION
        invariant
            precision <= 14,
            0x8000_0000_0000_0000 <= r < 0x1_0000_0000_0000_0000,
            0 <= bit,
            0 <= fraction,
            fraction + 2 * bit <= 0x1_0000_0000_0000_0000,
            fraction + log2_fraction(r as int, bit as int, (14 - precision) as nat) == log2_fraction(
                start as int,
                0x8000_0000_0000_0000,
                14,
            ),
        decreases 14 - precision,
    {
        proof {
            assert(0x4000_0000_0000_0000_0000_0000_0000_0000 <= r * r < 0x1_0000_0000_0000_0000_0000_0000_0000_0000int)
                by (nonlinear_arith)
                requires
                    0x8000_0000_0000_0000 <= r < 0x1_0000_0000_0000_0000,
            ;
        }
        let square = r * r;
        if square >= 0x8000_0000_0000_0000_0000_0000_0000_0000 {
            r = square / 0x1_0000_0000_0000_0000;
            fraction = fraction + bit;
        } else {
            r = square / 0x8000_0000_0000_0000;
        }
        bit = bit / 2;
        precision = precision + 1;
    }
    fraction
}

/// The tick of a price.
pub fn tick_index_from_sqrt_price(sqrt_price_x64: &u128) -> (r: i32)
    requires
        *sqrt_price_x64 > 0,
    ensures
        r == tick_of_price(*sqrt_price_x64 as int),
{
    let p: u128 = *sqrt_price_x64;
    proof {
        lemma_normalized_range(p);
    }
    let msb: u32 = bit_len_u128(p) - 1;
    let whole: i128 = (msb as i128 - 64) * 0x1_0000_0000;
    let r = normalize(p, msb);
    let fraction: i128 = log2_digits(r) / 0x1_0000_0000;
    let log2p: i128 = whole + fraction;
    let logbp: i128 = log2p * LOG_B_2_X32;
    let tick_low: i32 = floor_shift_64(logbp - LOG_B_P_ERR_MARGIN_LOWER_X64) as i32;
    let tick_high: i32 = floor_shift_64(logbp + LOG_B_P_ERR_MARGIN_UPPER_X64) as i32;
    if tick_low == tick_high {
        tick_low
    } else {
        let actual = get_sqrt_price_at_tick_orca(tick_high);
        if actual <= p {
            tick_high
        } else {
            tick_low
        }
    }
}

#[derive(Debug, PartialEq, Eq, Clone, Copy, Structural)]
pub enum ClmmPoolType {
    Raydium,
    Orca,
}

/// The price of a tick as the pool computes it.
pub open spec fn pool_price(pool_type: ClmmPoolType, tick: int) -> int {
    match pool_type {
        ClmmPoolType::Orca => orca_price(tick),
        ClmmPoolType::Raydium => raydium_price(tick),
    }
}

/// A price held between the lowest and the highest one that pools allow.
pub open spec fn clamped_price(p: int) -> int {
    if p < MIN_SQRT_PRICE_X64 {
        MIN_SQRT_PRICE_X64 as int
    } else if p > MAX_SQRT_PRICE_X64 {
        MAX_SQRT_PRICE_X64 as int
    } else {
        p
    }
}

/// The price of a tick, and that price within the pools' limits.
pub fn get_next_sqrt_prices(pool_type: ClmmPoolType, next_tick: i32) -> (r: (u128, u128))
    ensures
        r.0 == pool_price(pool_type, next_tick as int),
        r.1 == clamped_price(r.0 as int),
{
    let price = match pool_type {
        ClmmPoolType::Orca => get_sqrt_price_at_tick_orca(next_tick),
        ClmmPoolType::Raydium => get_sqrt_price_at_tick(next_tick),
    };
    let limit = if price < MIN_SQRT_PRICE_X64 {
        MIN_SQRT_PRICE_X64
    } else if price > MAX_SQRT_PRICE_X64 {
        MAX_SQRT_PRICE_X64
    } else {
        price
    };
    (price, limit)
}

proof fn lemma_raydium_ratio_ceiling(n: int, k: nat)
    requires
        n >= 0,
        k <= 18,
    ensures
        0 <= raydium_ratio(n, k) <= two64(),
    decreases k,
{
    if k > 0 {
        lemma_raydium_ratio_ceiling(n, (k - 1) as nat);
        let r = raydium_ratio(n, (k - 1) as nat);
        let m = RAYDIUM_RATIOS[k - 1] as int;
        assert(0 <= r * m <= r * two64()) by (nonlinear_arith)
            requires
                r >= 0,
                0 <= m <= two64(),
        ;
    }
}

/// The Raydium price of a tick fits in 128 bits.
pub(super) proof fn lemma_raydium_price_fits(tick: int)
    ensures
        0 <= raydium_price(tick) <= u128::MAX,
{
    lemma_raydium_ratio_ceiling(iabs(tick), 18);
    lemma_raydium_ratio_floor(iabs(tick), 18);
    let r = raydium_ratio(iabs(tick), 18);
    vstd::arithmetic::div_mod::lemma_div_pos_is_pos(u128::MAX as int, r);
    vstd::arithmetic::div_mod::lemma_div_is_ordered_by_denominator(u128::MAX as int, 1, r);
}

}
