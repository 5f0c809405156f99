//! Sums of integers that pass through 32-bit floating point, and the whole
//! part of such a number.
use vstd::arithmetic::power2::pow2;
use vstd::prelude::*;

use crate::num::{bit_len, bit_len_u128, i128_abs, iabs, rounded};
use crate::protocols::clmm_math::u256::lemma_shl128;

verus! {

/// The integer that a 32-bit floating-point number holds in place of `x`: the
/// nearest one of 24 significant bits, ties to even.
pub open spec fn single_precision(x: int) -> int {
    let m = iabs(x);
    let n = bit_len(m as nat);
    let kept = if n <= 24 {
        m
    } else {
        rounded(m, pow2((n - 24) as nat) as int) * pow2((n - 24) as nat)
    };
    if x < 0 {
        -kept
    } else {
        kept
    }
}

/// A number held within 64 signed bits.
pub open spec fn saturated(x: int) -> int {
    if x > i64::MAX {
        i64::MAX as int
    } else if x < i64::MIN {
        i64::MIN as int
    } else {
        x
    }
}

/// A sum in single precision.
pub open spec fn single_sum(a: int, b: int) -> int {
    saturated(single_precision(single_precision(a) + single_precision(b)))
}

fn keep_24(m: u128) -> (r: u128)
    requires
        m <= 0x8_0000_0000_0000_0000,
    ensures
        r == single_precision(m as int),
        r <= 0x10_0000_0000_0000_0000,
{
    let n = bit_len_u128(m);
    if n <= 24 {
        return m;
    }
    let k: u32 = n - 24;
    let ghost u = pow2(k as nat) as int;
    proof {
        crate::num::lemma_bit_len_bounds(m as nat);
        vstd::arithmetic::power2::lemma2_to64();
        vstd::arithmetic::power2::lemma2_to64_rest();
        vstd::arithmetic::power2::lemma_pow2_adds(64, 4);
        crate::num::lemma_bit_len_le(m as nat, 68);
        vstd::arithmetic::power2::lemma_pow2_strictly_increases(k as nat, 45);
        vstd::arithmetic::power2::lemma_pow2_pos(k as nat);
        vstd::arithmetic::power2::lemma_pow2_adds(23, k as nat);
        vstd::arithmetic::power2::lemma_pow2_adds(24, k as nat);
        lemma_shl128(1, k);
        assert(1 * pow2(k as nat) == u);
    }
    let unit: u128 = 1u128 << k;
    assert(unit == u);
    let q: u128 = m / unit;
    let rest: u128 = m % unit;
    proof {
        vstd::arithmetic::div_mod::lemma_fundamental_div_mod(m as int, u);
        vstd::arithmetic::div_mod::lemma_mod_bound(m as int, u);
        assert(q < 0x100_0000) by (nonlinear_arith)
            requires
                m == u * q + rest,
                rest >= 0,
                m < 0x100_0000 * u,
                u > 0,
        ;
        assert(q * u <= m && (q + 1) * u <= m + u) by (nonlinear_arith)
            requires
                m == u * q + rest,
                rest >= 0,
        ;
        assert(q * u >= 0 && (q + 1) * u >= 0) by (nonlinear_arith)
            requires
                q >= 0,
                u > 0,
        ;
    }
    if 2 * rest > unit || (2 * rest == unit && q % 2 == 1) {
        (q + 1) * unit
    } else {
        q * unit
    }
}

fn to_single(x: i128) -> (r: i128)
    requires
        -0x8_0000_0000_0000_0000 <= x <= 0x8_0000_0000_0000_0000,
    ensures
        r == single_precision(x as int),
        -0x10_0000_0000_0000_0000 <= r <= 0x10_0000_0000_0000_0000,
{
    let kept = keep_24(i128_abs(x)) as i128;
    if x < 0 {
        -kept
    } else {
        kept
    }
}

proof fn lemma_single_bound(x: int)
    requires
        -0x8000_0000_0000_0000 <= x <= 0x8000_0000_0000_0000,
    ensures
        -0x1_0000_0000_0000_0000 <= single_precision(x) <= 0x1_0000_0000_0000_0000,
{
    let m = iabs(x);
    let n = bit_len(m as nat);
    if n > 24 {
        let k = (n - 24) as nat;
        let u = pow2(k) as int;
        crate::num::lemma_bit_len_bounds(m as nat);
        vstd::arithmetic::power2::lemma2_to64();
        vstd::arithmetic::power2::lemma_pow2_pos(k);
        vstd::arithmetic::power2::lemma_pow2_adds(23, k);
        vstd::arithmetic::div_mod::lemma_fundamental_div_mod(m, u);
        vstd::arithmetic::div_mod::lemma_mod_bound(m, u);
        let q = m / u;
        assert(q * u <= m && (q + 1) * u <= m + u && u <= m) by (nonlinear_arith)
            requires
                m == u * q + m % u,
                m % u >= 0,
                m >= 0x80_0000 * u,
                u > 0,
        ;
        assert(0 <= q * u) by (nonlinear_arith)
            requires
                m == u * q + m % u,
                m % u < u,
                m >= 0,
                u > 0,
        ;
    }
}

/// The sum of two integers in single precision.
pub fn f32_add(a: i64, b: i64) -> (r: i64)
    ensures
        r == single_sum(a as int, b as int),
{
    proof {
        lemma_single_bound(a as int);
        lemma_single_bound(b as int);
    }
    let sum = to_single(to_single(a as i128) + to_single(b as i128));
    if sum > 0x7fff_ffff_ffff_ffff {
        i64::MAX
    } else if sum < -0x8000_0000_0000_0000 {
        i64::MIN
    } else {
        sum as i64
    }
}

/// The whole part of a 32-bit floating-point number, held within 64 signed
/// bits; zero where it is not a number.
pub open spec fn whole_part(bits: int) -> int {
    let negative = bits >= 0x8000_0000;
    let exp = (bits / 0x80_0000) % 0x100 - 127;
    let fraction = bits % 0x80_0000;
    let mant = fraction + 0x80_0000;
    if exp == 128 && fraction != 0 {
        0
    } else if exp < 0 {
        0
    } else if exp >= 63 {
        if negative {
            i64::MIN as int
        } else {
            i64::MAX as int
        }
    } else {
        let m = if exp >= 23 {
            mant * pow2((exp - 23) as nat)
        } else {
            mant / pow2((23 - exp) as nat) as int
        };
        if negative {
            -m
        } else {
            m
        }
    }
}

/// The whole part of a 32-bit floating-point number.
pub fn f32_bits_to_i64(bits: u32) -> (r: i64)
    ensures
        r == whole_part(bits as int),
{
    let negative = bits >= 0x8000_0000;
    let field: u32 = bits / 0x80_0000 % 0x100;
    let fraction: u32 = bits % 0x80_0000;
    if field == 255 && fraction != 0 {
        return 0;
    }
    if field < 127 {
        return 0;
    }
    let exp: u32 = field - 127;
    if exp >= 63 {
        return if negative {
            i64::MIN
        } else {
            i64::MAX
        };
    }
    let mant: u128 = (fraction + 0x80_0000) as u128;
    let m: u128 = if exp >= 23 {
        proof {
            lemma_shl128(mant, (exp - 23) as u32);
            vstd::arithmetic::power2::lemma2_to64();
            vstd::arithmetic::power2::lemma2_to64_rest();
            if exp - 23 < 39 {
                vstd::arithmetic::power2::lemma_pow2_strictly_increases((exp - 23) as nat, 39);
            }
            let p = pow2((exp - 23) as nat) as int;
            vstd::arithmetic::power2::lemma_pow2_pos((exp - 23) as nat);
            assert(0 <= mant * p < 0x8000_0000_0000_0000) by (nonlinear_arith)
                requires
                    0 <= mant < 0x100_0000,
                    0 < p <= 0x80_0000_0000,
            ;
        }
        mant << (exp - 23)
    } else {
        proof {
            vstd::bits::lemma_u128_shr_is_div(mant, (23 - exp) as u128);
            vstd::arithmetic::power2::lemma_pow2_pos((23 - exp) as nat);
            vstd::arithmetic::div_mod::lemma_div_is_ordered_by_denominator(
                mant as int,
                1,
                pow2((23 - exp) as nat) as int,
            );
        }
        mant >> (23 - exp)
    };
    if negative {
        -(m as i64)
    } else {
        m as i64
    }
}

}
