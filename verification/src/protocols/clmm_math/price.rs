//! Token amounts between square-root prices, and the price steps that token
//! amounts cause. Prices carry 64 fractional bits.
use vstd::prelude::*;

use super::u256::{
    div_ceil_value, div_value, keeps_digits, lemma_div_exact, lemma_mul_exact, lemma_pow2_128, two128, two256, two64, U256,
};
use crate::num::{
    abs_diff_u128, bit_len, bit_len_u128, ceil_div, div_ceil_u128, fits_u128, iabs, imin, low64, saturating_add_u128,
    saturating_mul_u128, shl64, wrap128, wrap64,
};

verus! {

pub const Q64_RESOLUTION: u8 = 64;

pub const MIN_SQRT_PRICE_X64: u128 = 4295048016;

pub const MAX_SQRT_PRICE_X64: u128 = 79226673521066979257578248091;

/// A product of a price and a 64-bit factor, without its 64 lowest bits.
pub fn optimized_mul_shift(a: u128, b: u64) -> (r: u128)
    ensures
        r == (a * b) / two64(),
{
    let a_low = a % 0x1_0000_0000_0000_0000;
    let a_high = a / 0x1_0000_0000_0000_0000;
    proof {
        lemma_mul_shift(a as int, b as int);
    }
    a_low * (b as u128) / 0x1_0000_0000_0000_0000 + a_high * (b as u128)
}

proof fn lemma_mul_shift(a: int, b: int)
    requires
        0 <= a < two128(),
        0 <= b < two64(),
    ensures
        ({
            let low = (a % two64()) * b;
            let high = (a / two64()) * b;
            &&& 0 <= low < two128()
            &&& 0 <= high
            &&& low / two64() + high < two128()
            &&& low / two64() + high == (a * b) / two64()
        }),
{
    let a0 = a % two64();
    let a1 = a / two64();
    let low = a0 * b;
    let high = a1 * b;
    assert(0 <= low <= (two64() - 1) * (two64() - 1)) by (nonlinear_arith)
        requires
            low == a0 * b,
            0 <= a0 <= two64() - 1,
            0 <= b <= two64() - 1,
    ;
    assert(0 <= high <= (two64() - 1) * (two64() - 1)) by (nonlinear_arith)
        requires
            high == a1 * b,
            0 <= a1 <= two64() - 1,
            0 <= b <= two64() - 1,
    ;
    assert((two64() - 1) * (two64() - 1) + two64() < two128());
    assert(a == a1 * two64() + a0);
    vstd::arithmetic::mul::lemma_mul_is_distributive_add_other_way(b, a1 * two64(), a0);
    assert((a1 * two64()) * b == high * two64()) by (nonlinear_arith)
        requires
            high == a1 * b,
    ;
    assert(low == (low / two64()) * two64() + low % two64());
    vstd::arithmetic::div_mod::lemma_fundamental_div_mod_converse(
        a * b,
        two64(),
        high + low / two64(),
        low % two64(),
    );
}

/// A product without its 64 lowest bits, rounded up on request and cut to 64
/// bits; nothing where the product needs more than 128 bits.
pub open spec fn mul_shift_round(round_up: bool, n0: int, n1: int) -> Option<int> {
    let p = n0 * n1;
    if fits_u128(p) {
        if round_up && p % two64() != 0 {
            Some(wrap64(p / two64() + 1))
        } else {
            Some(p / two64())
        }
    } else {
        None
    }
}

pub fn checked_mul_shift_right_round_up_if<const ROUND_UP: bool>(n0: u128, n1: u128) -> (r: Option<u64>)
    ensures
        r is Some == mul_shift_round(ROUND_UP, n0 as int, n1 as int) is Some,
        r is Some ==> r->0 == mul_shift_round(ROUND_UP, n0 as int, n1 as int)->0,
{
    if n0 == 0 || n1 == 0 {
        assert(n0 * n1 == 0) by (nonlinear_arith)
            requires
                n0 == 0 || n1 == 0,
        ;
        return Some(0);
    }
    let p = n0.checked_mul(n1)?;
    let result = p / 0x1_0000_0000_0000_0000;
    if ROUND_UP && p % 0x1_0000_0000_0000_0000 > 0 {
        Some(low64(result + 1))
    } else {
        Some(low64(result))
    }
}

/// Whether both products of the amount of token A are short enough for plain
/// 128-bit arithmetic.
pub open spec fn delta_a_is_short(p0: int, p1: int, liquidity: int) -> bool {
    &&& bit_len(liquidity as nat) + bit_len(iabs(p0 - p1) as nat) <= 64
    &&& bit_len(p0 as nat) + bit_len(p1 as nat) <= 128
}

/// The amount of token A between two prices: the liquidity times the distance
/// of the prices over their product, with the wide quotient of `U256` beyond
/// 128 bits, cut to 64 bits.
pub open spec fn delta_a(round_up: bool, p0: int, p1: int, liquidity: int) -> int {
    let diff = iabs(p0 - p1);
    if diff == 0 || liquidity == 0 || p0 == 0 || p1 == 0 {
        0
    } else if delta_a_is_short(p0, p1, liquidity) {
        let num = (liquidity * diff) * two64();
        wrap64(
            if round_up {
                ceil_div(num, p0 * p1)
            } else {
                num / (p0 * p1)
            },
        )
    } else {
        let num = ((liquidity * diff) * two64()) % two256();
        wrap64(
            if round_up {
                div_ceil_value(div_ceil_value(num, p0), p1)
            } else {
                div_value(div_value(num, p0), p1)
            },
        )
    }
}

/// Lengths bound a product.
proof fn lemma_product_of_lengths(a: u128, b: u128, k: nat)
    requires
        bit_len(a as nat) + bit_len(b as nat) <= k,
    ensures
        0 <= a * b < vstd::arithmetic::power2::pow2(k),
{
    use_lengths(a, b);
    let la = bit_len(a as nat);
    let lb = bit_len(b as nat);
    vstd::arithmetic::power2::lemma_pow2_adds(la, lb);
    if la + lb < k {
        vstd::arithmetic::power2::lemma_pow2_strictly_increases(la + lb, k);
    }
    let x = vstd::arithmetic::power2::pow2(la) as int;
    let y = vstd::arithmetic::power2::pow2(lb) as int;
    assert(0 <= a * b < x * y) by (nonlinear_arith)
        requires
            0 <= a < x,
            0 <= b < y,
    ;
}

proof fn use_lengths(a: u128, b: u128)
    ensures
        a < vstd::arithmetic::power2::pow2(bit_len(a as nat)),
        b < vstd::arithmetic::power2::pow2(bit_len(b as nat)),
{
    crate::num::lemma_bit_len_le(a as nat, bit_len(a as nat));
    crate::num::lemma_bit_len_le(b as nat, bit_len(b as nat));
}

/// The wide path of the amount of token A.
#[verifier::spinoff_prover]
fn wide_delta_a(round_up: bool, sqrt_price_0: u128, sqrt_price_1: u128, liquidity: u128, diff: u128) -> (r: u64)
    requires
        sqrt_price_0 > 0,
        sqrt_price_1 > 0,
    ensures
        ({
            let num = ((liquidity * diff) * two64()) % two256();
            r == wrap64(
                if round_up {
                    div_ceil_value(div_ceil_value(num, sqrt_price_0 as int), sqrt_price_1 as int)
                } else {
                    div_value(div_value(num, sqrt_price_0 as int), sqrt_price_1 as int)
                },
            )
        }),
{
    proof {
        lemma_mul_exact(liquidity as int, diff as int);
        lemma_pow2_128();
    }
    let product = U256::from_u128(liquidity).mul(U256::from_u128(diff));
    let numerator = product.shl(64);
    if round_up {
        numerator.div_ceil_u128(sqrt_price_0).div_ceil_u128(sqrt_price_1).low_u64()
    } else {
        numerator.div_u128(sqrt_price_0).div_u128(sqrt_price_1).low_u64()
    }
}

#[verifier::spinoff_prover]
pub fn get_amount_delta_a<const ROUND_UP: bool>(sqrt_price_0: u128, sqrt_price_1: u128, liquidity: u128) -> (r: u64)
    ensures
        r == delta_a(ROUND_UP, sqrt_price_0 as int, sqrt_price_1 as int, liquidity as int),
{
    let diff = abs_diff_u128(sqrt_price_0, sqrt_price_1);
    if diff == 0 || liquidity == 0 || sqrt_price_0 == 0 || sqrt_price_1 == 0 {
        return 0;
    }
    let num_bits = bit_len_u128(liquidity) + bit_len_u128(diff);
    let den_bits = bit_len_u128(sqrt_price_0) + bit_len_u128(sqrt_price_1);
    if num_bits <= 64 && den_bits <= 128 {
        proof {
            lemma_product_of_lengths(liquidity, diff, 64);
            lemma_product_of_lengths(sqrt_price_0, sqrt_price_1, 128);
            lemma_pow2_128();
            assert(sqrt_price_0 * sqrt_price_1 > 0) by (nonlinear_arith)
                requires
                    sqrt_price_0 > 0,
                    sqrt_price_1 > 0,
            ;
        }
        let num = liquidity * diff * 0x1_0000_0000_0000_0000;
        let denom = sqrt_price_0 * sqrt_price_1;
        if ROUND_UP {
            low64(div_ceil_u128(num, denom))
        } else {
            low64(num / denom)
        }
    } else {
        wide_delta_a(ROUND_UP, sqrt_price_0, sqrt_price_1, liquidity, diff)
    }
}

/// What rounding up means.
proof fn lemma_ceil_bounds(n: int, d: int)
    requires
        n >= 0,
        d > 0,
    ensures
        ceil_div(n, d) >= 0,
        (ceil_div(n, d) - 1) * d < n <= ceil_div(n, d) * d,
{
    let q = n / d;
    vstd::arithmetic::div_mod::lemma_fundamental_div_mod(n, d);
    vstd::arithmetic::div_mod::lemma_mod_bound(n, d);
    vstd::arithmetic::div_mod::lemma_div_pos_is_pos(n, d);
    assert((q - 1) * d == d * q - d && (q + 1) * d == d * q + d && q * d == d * q) by (nonlinear_arith);
}

/// Rounding up twice is rounding up once by the product.
proof fn lemma_ceil_twice(n: int, a: int, b: int)
    requires
        n >= 0,
        a > 0,
        b > 0,
    ensures
        ceil_div(ceil_div(n, a), b) == ceil_div(n, a * b),
{
    let c1 = ceil_div(n, a);
    let c2 = ceil_div(c1, b);
    let c = ceil_div(n, a * b);
    lemma_ceil_bounds(n, a);
    lemma_ceil_bounds(c1, b);
    assert(a * b > 0) by (nonlinear_arith)
        requires
            a > 0,
            b > 0,
    ;
    lemma_ceil_bounds(n, a * b);
    assert(n <= c2 * (a * b)) by (nonlinear_arith)
        requires
            n <= c1 * a,
            c1 <= c2 * b,
            a > 0,
    ;
    assert((c2 - 1) * (a * b) < n) by (nonlinear_arith)
        requires
            (c1 - 1) * a < n,
            (c2 - 1) * b <= c1 - 1,
            a > 0,
    ;
    let w = a * b;
    assert(c == c2) by (nonlinear_arith)
        requires
            (c - 1) * w < n <= c * w,
            (c2 - 1) * w < n <= c2 * w,
            w > 0,
    ;
}

/// Where the numerator stays within 256 bits and no division loses a digit,
/// which holds of all prices up to one, the amount of token A is the exact
/// quotient, rounded either way and cut to 64 bits.
pub proof fn law_delta_a_exact(p0: int, p1: int, liquidity: int)
    requires
        0 < p0 < two128(),
        0 < p1 < two128(),
        0 <= liquidity < two128(),
        (liquidity * iabs(p0 - p1)) * two64() < two256(),
        keeps_digits((liquidity * iabs(p0 - p1)) * two64(), p0),
        keeps_digits(ceil_div((liquidity * iabs(p0 - p1)) * two64(), p0), p1),
    ensures
        delta_a(false, p0, p1, liquidity) == wrap64(((liquidity * iabs(p0 - p1)) * two64()) / (p0 * p1)),
        delta_a(true, p0, p1, liquidity) == wrap64(ceil_div((liquidity * iabs(p0 - p1)) * two64(), p0 * p1)),
{
    let diff = iabs(p0 - p1);
    let num = (liquidity * diff) * two64();
    assert(p0 * p1 > 0) by (nonlinear_arith)
        requires
            p0 > 0,
            p1 > 0,
    ;
    assert(liquidity * diff >= 0) by (nonlinear_arith)
        requires
            liquidity >= 0,
            diff >= 0,
    ;
    if diff == 0 || liquidity == 0 {
        assert(liquidity * diff == 0) by (nonlinear_arith)
            requires
                diff == 0 || liquidity == 0,
        ;
        vstd::arithmetic::div_mod::lemma_basic_div(0, p0 * p1);
        vstd::arithmetic::div_mod::lemma_small_mod(0, (p0 * p1) as nat);
    } else if delta_a_is_short(p0, p1, liquidity) {
    } else {
        assert(num % two256() == num);
        lemma_div_exact(num, p0);
        lemma_ceil_bounds(num, p0);
        vstd::arithmetic::div_mod::lemma_div_pos_is_pos(num, p0);
        vstd::arithmetic::div_mod::lemma_div_is_ordered_by_denominator(num, 1, p0);
        vstd::arithmetic::div_mod::lemma_div_basics(num);
        let up = ceil_div(num, p0);
        assert(up <= num) by (nonlinear_arith)
            requires
                (up - 1) * p0 < num,
                p0 >= 1,
                num >= 0,
        ;
        lemma_div_exact(num / p0, p1);
        lemma_div_exact(up, p1);
        vstd::arithmetic::div_mod::lemma_div_denominator(num, p0, p1);
        lemma_ceil_twice(num, p0, p1);
    }
}

/// Prices up to one lose no digit, whatever the liquidity.
pub proof fn law_low_prices_are_exact(p0: int, p1: int, liquidity: int)
    requires
        0 < p0 <= two64(),
        0 < p1 <= two64(),
        0 <= liquidity < two128(),
    ensures
        delta_a(false, p0, p1, liquidity) == wrap64(((liquidity * iabs(p0 - p1)) * two64()) / (p0 * p1)),
        delta_a(true, p0, p1, liquidity) == wrap64(ceil_div((liquidity * iabs(p0 - p1)) * two64(), p0 * p1)),
{
    let diff = iabs(p0 - p1);
    assert(0 <= liquidity * diff < two128() * two64()) by (nonlinear_arith)
        requires
            0 <= liquidity < two128(),
            0 <= diff < two64(),
    ;
    assert(two128() * two64() * two64() == two256());
    law_delta_a_exact(p0, p1, liquidity);
}

/// The amount of token B between two prices: the liquidity times their
/// distance.
pub open spec fn delta_b(round_up: bool, p0: int, p1: int, liquidity: int) -> Option<int> {
    mul_shift_round(round_up, liquidity, iabs(p0 - p1))
}

pub fn get_amount_delta_b<const ROUND_UP: bool>(sqrt_price_0: u128, sqrt_price_1: u128, liquidity: u128) -> (r: Option<
    u64,
>)
    ensures
        r is Some == delta_b(ROUND_UP, sqrt_price_0 as int, sqrt_price_1 as int, liquidity as int) is Some,
        r is Some ==> r->0 == delta_b(ROUND_UP, sqrt_price_0 as int, sqrt_price_1 as int, liquidity as int)->0,
{
    let diff = abs_diff_u128(sqrt_price_0, sqrt_price_1);
    checked_mul_shift_right_round_up_if::<ROUND_UP>(liquidity, diff)
}

/// The price after an amount of token A goes in: the price times the liquidity
/// over the liquidity plus the amount times the price, each product stopping
/// at 128 bits and each shift losing what goes above them.
pub open spec fn next_price_from_a(p: int, liquidity: int, amount: int) -> int {
    if amount == 0 || liquidity == 0 {
        p
    } else {
        let product = imin(p * amount, u128::MAX as int);
        let num = wrap128(imin(p * liquidity, u128::MAX as int) * two64());
        let den = imin(wrap128(liquidity * two64()) + product, u128::MAX as int);
        if den == 0 {
            p
        } else {
            ceil_div(num, den)
        }
    }
}

pub fn get_next_sqrt_price_from_a_round_up(sqrt_price: u128, liquidity: u128, amount: u64) -> (r: u128)
    ensures
        r == next_price_from_a(sqrt_price as int, liquidity as int, amount as int),
{
    if amount == 0 || liquidity == 0 {
        return sqrt_price;
    }
    let product = saturating_mul_u128(sqrt_price, amount as u128);
    let numerator = shl64(saturating_mul_u128(sqrt_price, liquidity));
    let denominator = saturating_add_u128(shl64(liquidity), product);
    if denominator == 0 {
        return sqrt_price;
    }
    div_ceil_u128(numerator, denominator)
}

/// The price after an amount of token B goes in; it is defined for a positive
/// liquidity and a sum within 128 bits.
pub open spec fn next_price_from_b(p: int, liquidity: int, amount: int) -> Option<int> {
    if liquidity <= 0 {
        None
    } else {
        let next = p + (amount * two64()) / liquidity;
        if fits_u128(next) {
            Some(next)
        } else {
            None
        }
    }
}

pub fn try_get_next_sqrt_price_from_b_round_down(sqrt_price: u128, liquidity: u128, amount: u64) -> (r: Option<u128>)
    ensures
        r is Some == next_price_from_b(sqrt_price as int, liquidity as int, amount as int) is Some,
        r is Some ==> r->0 == next_price_from_b(sqrt_price as int, liquidity as int, amount as int)->0,
{
    if liquidity == 0 {
        return None;
    }
    let amount_x64 = amount as u128 * 0x1_0000_0000_0000_0000;
    let delta = amount_x64 / liquidity;
    proof {
        vstd::arithmetic::div_mod::lemma_div_pos_is_pos(amount_x64 as int, liquidity as int);
    }
    sqrt_price.checked_add(delta)
}

pub fn get_next_sqrt_price_from_b_round_down(sqrt_price: u128, liquidity: u128, amount: u64) -> (r: u128)
    requires
        next_price_from_b(sqrt_price as int, liquidity as int, amount as int) is Some,
    ensures
        r == next_price_from_b(sqrt_price as int, liquidity as int, amount as int)->0,
{
    try_get_next_sqrt_price_from_b_round_down(sqrt_price, liquidity, amount).unwrap()
}

/// The price after an amount of the token that goes in.
pub open spec fn next_price(p: int, liquidity: int, amount: int, a_to_b: bool) -> Option<int> {
    if a_to_b {
        Some(next_price_from_a(p, liquidity, amount))
    } else {
        next_price_from_b(p, liquidity, amount)
    }
}

pub fn try_get_next_sqrt_price(sqrt_price: u128, liquidity: u128, amount: u64, a_to_b: bool) -> (r: Option<u128>)
    ensures
        r is Some == next_price(sqrt_price as int, liquidity as int, amount as int, a_to_b) is Some,
        r is Some ==> r->0 == next_price(sqrt_price as int, liquidity as int, amount as int, a_to_b)->0,
{
    if a_to_b {
        Some(get_next_sqrt_price_from_a_round_up(sqrt_price, liquidity, amount))
    } else {
        try_get_next_sqrt_price_from_b_round_down(sqrt_price, liquidity, amount)
    }
}

pub fn get_next_sqrt_price(sqrt_price: u128, liquidity: u128, amount: u64, a_to_b: bool) -> (r: u128)
    requires
        next_price(sqrt_price as int, liquidity as int, amount as int, a_to_b) is Some,
    ensures
        r == next_price(sqrt_price as int, liquidity as int, amount as int, a_to_b)->0,
{
    try_get_next_sqrt_price(sqrt_price, liquidity, amount, a_to_b).unwrap()
}

/// The amount of the token that goes in between two prices, rounded up.
pub open spec fn fixed_delta(p0: int, p1: int, liquidity: int, a_to_b: bool) -> Option<int> {
    if a_to_b {
        Some(delta_a(true, p0, p1, liquidity))
    } else {
        delta_b(true, p0, p1, liquidity)
    }
}

pub fn get_amount_fixed_delta(
    sqrt_price_current: u128,
    sqrt_price_target: u128,
    liquidity: u128,
    a_to_b: bool,
) -> (r: Option<u64>)
    ensures
        r is Some == fixed_delta(sqrt_price_current as int, sqrt_price_target as int, liquidity as int, a_to_b) is Some,
        r is Some ==> r->0 == fixed_delta(
            sqrt_price_current as int,
            sqrt_price_target as int,
            liquidity as int,
            a_to_b,
        )->0,
{
    if a_to_b {
        Some(get_amount_delta_a::<true>(sqrt_price_current, sqrt_price_target, liquidity))
    } else {
        get_amount_delta_b::<true>(sqrt_price_current, sqrt_price_target, liquidity)
    }
}

/// The amount of the token that comes out between two prices, rounded down.
pub open spec fn unfixed_delta(p0: int, p1: int, liquidity: int, a_to_b: bool) -> Option<int> {
    if a_to_b {
        delta_b(false, p0, p1, liquidity)
    } else {
        Some(delta_a(false, p0, p1, liquidity))
    }
}

pub fn get_amount_unfixed_delta(
    sqrt_price_current: u128,
    sqrt_price_target: u128,
    liquidity: u128,
    a_to_b: bool,
) -> (r: Option<u64>)
    ensures
        r is Some == unfixed_delta(sqrt_price_current as int, sqrt_price_target as int, liquidity as int, a_to_b) is Some,
        r is Some ==> r->0 == unfixed_delta(
            sqrt_price_current as int,
            sqrt_price_target as int,
            liquidity as int,
            a_to_b,
        )->0,
{
    if a_to_b {
        get_amount_delta_b::<false>(sqrt_price_current, sqrt_price_target, liquidity)
    } else {
        Some(get_amount_delta_a::<false>(sqrt_price_current, sqrt_price_target, liquidity))
    }
}

/// Liquidity after a signed change; nothing where it leaves 128 bits.
pub fn add_liquidity_delta(liquidity: u128, delta: i128) -> (r: Option<u128>)
    requires
        delta > i128::MIN,
    ensures
        r is Some == fits_u128(liquidity + delta),
        r is Some ==> r->0 == liquidity + delta,
{
    if delta > 0 {
        liquidity.checked_add(delta as u128)
    } else {
        liquidity.checked_sub((-delta) as u128)
    }
}

/// Liquidity after a tick is crossed: its net liquidity is taken off on the
/// way down and put on on the way up.
pub open spec fn crossed_liquidity(a_to_b: bool, net: int, liquidity: int) -> Option<int> {
    let next = if a_to_b {
        liquidity - net
    } else {
        liquidity + net
    };
    if fits_u128(next) {
        Some(next)
    } else {
        None
    }
}

pub fn calculate_update<const A_TO_B: bool>(tick_liquidity_net: i128, liquidity: u128) -> (r: Option<u128>)
    requires
        tick_liquidity_net > i128::MIN,
    ensures
        r is Some == crossed_liquidity(A_TO_B, tick_liquidity_net as int, liquidity as int) is Some,
        r is Some ==> r->0 == crossed_liquidity(A_TO_B, tick_liquidity_net as int, liquidity as int)->0,
{
    let signed = if A_TO_B {
        -tick_liquidity_net
    } else {
        tick_liquidity_net
    };
    add_liquidity_delta(liquidity, signed)
}

/// Crossing a tick one way and back restores the liquidity.
pub proof fn law_crossing_back_restores(net: int, liquidity: int, a_to_b: bool)
    requires
        fits_u128(liquidity),
        crossed_liquidity(a_to_b, net, liquidity) is Some,
    ensures
        crossed_liquidity(!a_to_b, net, crossed_liquidity(a_to_b, net, liquidity)->0) == Some(liquidity),
{
}

/// The quote tokens between two prices are the liquidity times their distance,
/// in parts of two to the 64th, rounded as asked, whichever price comes first.
pub proof fn law_delta_b_is_exact(p0: int, p1: int, liquidity: int)
    requires
        0 <= liquidity,
        liquidity * iabs(p0 - p1) < two128() - two64(),
    ensures
        delta_b(false, p0, p1, liquidity) is Some,
        delta_b(true, p0, p1, liquidity) is Some,
        ({
            let down = delta_b(false, p0, p1, liquidity)->0;
            let up = delta_b(true, p0, p1, liquidity)->0;
            let worth = liquidity * iabs(p0 - p1);
            &&& down * two64() <= worth < (down + 1) * two64()
            &&& (up - 1) * two64() < worth <= up * two64()
            &&& down <= up
        }),
        delta_b(false, p0, p1, liquidity) == delta_b(false, p1, p0, liquidity),
        delta_b(true, p0, p1, liquidity) == delta_b(true, p1, p0, liquidity),
{
    let worth = liquidity * iabs(p0 - p1);
    assert(worth >= 0) by (nonlinear_arith)
        requires
            worth == liquidity * iabs(p0 - p1),
            liquidity >= 0,
            iabs(p0 - p1) >= 0,
    ;
}

/// Buying base tokens moves the price up by the quote tokens' share of the
/// liquidity, rounded down.
pub proof fn law_buying_raises_the_price(p: int, liquidity: int, amount: int)
    requires
        0 <= p,
        0 < liquidity,
        0 <= amount,
        next_price(p, liquidity, amount, false) is Some,
    ensures
        ({
            let moved = next_price(p, liquidity, amount, false)->0 - p;
            &&& moved >= 0
            &&& moved * liquidity <= amount * two64() < (moved + 1) * liquidity
        }),
{
    let x = amount * two64();
    vstd::arithmetic::div_mod::lemma_fundamental_div_mod(x, liquidity);
    vstd::arithmetic::div_mod::lemma_div_pos_is_pos(x, liquidity);
    let q = x / liquidity;
    assert(q * liquidity <= x < (q + 1) * liquidity) by (nonlinear_arith)
        requires
            x == liquidity * q + x % liquidity,
            0 <= x % liquidity < liquidity,
    ;
}

/// Selling base tokens moves the price down, to where the liquidity meets the
/// tokens that came in, rounded up, as long as the products fit.
pub proof fn law_selling_lowers_the_price(p: int, liquidity: int, amount: int)
    requires
        0 <= p,
        0 < liquidity,
        0 <= amount,
        p * liquidity * two64() < two128(),
        liquidity * two64() + p * amount < two128(),
    ensures
        next_price(p, liquidity, amount, true) is Some,
        ({
            let next = next_price(p, liquidity, amount, true)->0;
            let held = liquidity * two64() + p * amount;
            &&& next <= p
            &&& (next - 1) * held < p * liquidity * two64() <= next * held
        }),
{
    let held = liquidity * two64() + p * amount;
    let num = p * liquidity * two64();
    assert(p * amount >= 0 && p * liquidity >= 0) by (nonlinear_arith)
        requires
            p >= 0,
            amount >= 0,
            liquidity >= 0,
    ;
    assert(held > 0);
    if amount == 0 {
        assert(p * amount == 0) by (nonlinear_arith)
            requires
                amount == 0,
        ;
        assert((p - 1) * (liquidity * two64()) < p * (liquidity * two64())) by (nonlinear_arith)
            requires
                liquidity > 0,
        ;
        assert(p * liquidity * two64() == p * (liquidity * two64())) by (nonlinear_arith);
        assert((p - 1) * held < num <= p * held);
    } else {
        assert(p * liquidity <= p * liquidity * two64());
        lemma_ceil_bounds(num, held);
        let next = ceil_div(num, held);
        assert(num <= p * held) by (nonlinear_arith)
            requires
                num == p * liquidity * two64(),
                held == liquidity * two64() + p * amount,
                p >= 0,
                amount >= 0,
        ;
        assert(next <= p) by (nonlinear_arith)
            requires
                (next - 1) * held < num,
                num <= p * held,
                held > 0,
        ;
        assert(liquidity * two64() < two128());
        assert(next_price(p, liquidity, amount, true)->0 == next);
    }
}

}
