//! The bit patterns of 64-bit floating-point numbers, multiplied and converted
//! the way the pool program does it.
use vstd::arithmetic::power2::pow2;
use vstd::prelude::*;

use crate::num::{bit_len, bit_len_u128, bit_len_u64, iabs, low64, rounded, signed64, u64_as_i64, wrap128, wrap64};
use crate::protocols::clmm_math::u256::lemma_shl128;

verus! {

/// One ten-millionth.
pub const CONST_1E7_RAW: u64 = 0x3e7ad7f29abcaf48;

/// One.
pub const CONST_ONE_RAW: u64 = 0x3ff0000000000000;

/// The exponent field.
pub open spec fn exponent(raw: int) -> int {
    (raw / 0x10_0000_0000_0000) % 0x800
}

/// The fraction field.
pub open spec fn fraction(raw: int) -> int {
    raw % 0x10_0000_0000_0000
}

/// The bits of a sign, an exponent and a fraction. An exponent that does not
/// fit its field runs into the sign.
pub open spec fn assembled(sign: int, exp: int, fraction: int) -> int {
    (if sign == 1 || exp % 0x1000 >= 0x800 {
        0x8000_0000_0000_0000int
    } else {
        0
    }) + (exp % 0x800) * 0x10_0000_0000_0000 + fraction
}

/// The product of a 53-bit and a 64-bit mantissa, rounded up where the next
/// three bits are above one half; nothing where rounding leaves 64 bits.
pub open spec fn soft_mul(a: int, b: int, sign: int, exp: int) -> Option<int> {
    let full = a * b;
    let long = full >= 0x10_0000_0000_0000_0000_0000_0000_0000;
    let unit: int = if long {
        0x1_0000_0000_0000_0000
    } else {
        0x8000_0000_0000_0000
    };
    let raw = assembled(
        sign,
        if long {
            exp + 1
        } else {
            exp
        },
        (full / unit) % 0x10_0000_0000_0000,
    );
    let rounding = (full / (unit / 8)) % 8;
    if rounding > 4 {
        if raw == u64::MAX {
            None
        } else {
            Some(raw + 1)
        }
    } else {
        Some(raw)
    }
}

fn assemble(sign: u64, exp: u64, fraction_bits: u64) -> (r: u64)
    requires
        sign <= 1,
        fraction_bits < 0x10_0000_0000_0000,
    ensures
        r == assembled(sign as int, exp as int, fraction_bits as int),
{
    let top: u64 = if sign == 1 || exp % 0x1000 >= 0x800 {
        0x8000_0000_0000_0000
    } else {
        0
    };
    top + exp % 0x800 * 0x10_0000_0000_0000 + fraction_bits
}

pub fn bpf_soft_mul(a_mant_53: u128, b_mant_64: u128, sign: u64, result_exp: u64) -> (r: Option<u64>)
    requires
        a_mant_53 < 0x20_0000_0000_0000,
        b_mant_64 < 0x1_0000_0000_0000_0000,
        sign <= 1,
        result_exp < 0x10_0000,
    ensures
        r is Some == soft_mul(a_mant_53 as int, b_mant_64 as int, sign as int, result_exp as int) is Some,
        r is Some ==> r->0 == soft_mul(a_mant_53 as int, b_mant_64 as int, sign as int, result_exp as int)->0,
{
    proof {
        assert(0 <= a_mant_53 * b_mant_64 <= 0x20_0000_0000_0000 * 0x1_0000_0000_0000_0000) by (nonlinear_arith)
            requires
                0 <= a_mant_53 <= 0x20_0000_0000_0000,
                0 <= b_mant_64 <= 0x1_0000_0000_0000_0000,
        ;
    }
    let full: u128 = a_mant_53 * b_mant_64;
    let long = full >= 0x10_0000_0000_0000_0000_0000_0000_0000;
    let (mant, rounding, exp): (u128, u128, u64) = if long {
        (
            full / 0x1_0000_0000_0000_0000 % 0x10_0000_0000_0000,
            full / 0x2000_0000_0000_0000 % 8,
            result_exp + 1,
        )
    } else {
        (full / 0x8000_0000_0000_0000 % 0x10_0000_0000_0000, full / 0x1000_0000_0000_0000 % 8, result_exp)
    };
    let raw = assemble(sign, exp, mant as u64);
    if rounding > 4 {
        raw.checked_add(1)
    } else {
        Some(raw)
    }
}

/// The product of two bit patterns; nothing where the exponents fall below
/// the field.
pub open spec fn correction_mul(corr: int, oracle: int) -> Option<int> {
    let exp = exponent(corr) + exponent(oracle) - 1023;
    if exp < 0 {
        None
    } else {
        soft_mul(
            fraction(corr) + 0x10_0000_0000_0000,
            fraction(oracle) * 0x800 + 0x8000_0000_0000_0000,
            oracle / 0x8000_0000_0000_0000,
            exp,
        )
    }
}

pub fn bpf_correction_mul(corr_raw: u64, oracle_raw: u64) -> (r: Option<u64>)
    ensures
        r is Some == correction_mul(corr_raw as int, oracle_raw as int) is Some,
        r is Some ==> r->0 == correction_mul(corr_raw as int, oracle_raw as int)->0,
{
    let c_exp = corr_raw / 0x10_0000_0000_0000 % 0x800;
    let c_mant = corr_raw % 0x10_0000_0000_0000 + 0x10_0000_0000_0000;
    let o_exp = oracle_raw / 0x10_0000_0000_0000 % 0x800;
    let o_sign = oracle_raw / 0x8000_0000_0000_0000;
    let o64 = oracle_raw % 0x10_0000_0000_0000 * 0x800 + 0x8000_0000_0000_0000;
    let exp = (c_exp + o_exp).checked_sub(1023)?;
    bpf_soft_mul(c_mant as u128, o64 as u128, o_sign, exp)
}

/// The product of a bit pattern and an integer.
pub open spec fn int_mul(factor: int, value: int) -> Option<int> {
    if value == 0 {
        Some(0)
    } else {
        let bits = bit_len(value as nat);
        soft_mul(
            fraction(factor) + 0x10_0000_0000_0000,
            value * pow2((64 - bits) as nat),
            0,
            exponent(factor) + bits - 1,
        )
    }
}

/// A positive number shifted up to the top of a word of `k` bits.
proof fn lemma_shift_to_top(v: nat, k: nat)
    requires
        v > 0,
        bit_len(v) <= k <= 64,
    ensures
        bit_len(v) >= 1,
        pow2((k - 1) as nat) <= v * pow2((k - bit_len(v)) as nat) < pow2(k),
{
    let n = bit_len(v);
    crate::num::lemma_bit_len_bounds(v);
    let p = pow2((k - n) as nat) as int;
    vstd::arithmetic::power2::lemma_pow2_pos((k - n) as nat);
    vstd::arithmetic::power2::lemma_pow2_adds((n - 1) as nat, (k - n) as nat);
    vstd::arithmetic::power2::lemma_pow2_adds(n, (k - n) as nat);
    let lo = pow2((n - 1) as nat) as int;
    let hi = pow2(n) as int;
    assert(lo * p <= v * p < hi * p) by (nonlinear_arith)
        requires
            lo <= v < hi,
            p > 0,
    ;
}

fn shift_to_top(value: u64, k: u32) -> (r: u128)
    requires
        value > 0,
        bit_len(value as nat) <= k <= 64,
    ensures
        r == value * pow2((k - bit_len(value as nat)) as nat),
        pow2((k - 1) as nat) <= r < pow2(k as nat),
{
    let bits = bit_len_u64(value);
    proof {
        lemma_shift_to_top(value as nat, k as nat);
        lemma_shl128(value as u128, (k - bits) as u32);
        vstd::arithmetic::power2::lemma2_to64();
        vstd::arithmetic::power2::lemma2_to64_rest();
        if k < 64 {
            vstd::arithmetic::power2::lemma_pow2_strictly_increases(k as nat, 64);
        }
    }
    (value as u128) << (k - bits)
}

pub fn bpf_int_mul(factor_raw: u64, int_val: u64) -> (r: Option<u64>)
    ensures
        r is Some == int_mul(factor_raw as int, int_val as int) is Some,
        r is Some ==> r->0 == int_mul(factor_raw as int, int_val as int)->0,
{
    if int_val == 0 {
        return Some(0);
    }
    let f_exp = factor_raw / 0x10_0000_0000_0000 % 0x800;
    let f_mant = factor_raw % 0x10_0000_0000_0000 + 0x10_0000_0000_0000;
    let bits = bit_len_u64(int_val);
    proof {
        lemma_shift_to_top(int_val as nat, 64);
        vstd::arithmetic::power2::lemma2_to64();
    }
    let int64 = shift_to_top(int_val, 64);
    bpf_soft_mul(f_mant as u128, int64, 0, f_exp + bits as u64 - 1)
}

/// The whole part of a bit pattern, cut to a signed 64-bit word; nothing where
/// it is shifted by a whole 128-bit word or its negation leaves 64 bits.
pub open spec fn to_int(raw: int) -> Option<int> {
    let exp = exponent(raw) - 1023;
    let mant = fraction(raw) + 0x10_0000_0000_0000;
    let negative = raw >= 0x8000_0000_0000_0000;
    if raw == 0 || exp < 0 {
        Some(0)
    } else if exp - 52 >= 128 {
        None
    } else {
        let magnitude = if exp >= 52 {
            wrap128(mant * pow2((exp - 52) as nat))
        } else {
            mant / pow2((52 - exp) as nat) as int
        };
        let word = signed64(wrap64(magnitude));
        if !negative {
            Some(word)
        } else if word == i64::MIN {
            None
        } else {
            Some(-word)
        }
    }
}

pub fn bpf_f64_to_int(raw: u64) -> (r: Option<i64>)
    ensures
        r is Some == to_int(raw as int) is Some,
        r is Some ==> r->0 == to_int(raw as int)->0,
{
    if raw == 0 {
        return Some(0);
    }
    let field: u64 = raw / 0x10_0000_0000_0000 % 0x800;
    let mant: u64 = raw % 0x10_0000_0000_0000 + 0x10_0000_0000_0000;
    if field < 1023 {
        return Some(0);
    }
    let exp: u32 = (field - 1023) as u32;
    if exp >= 180 {
        return None;
    }
    let magnitude: u128 = if exp >= 52 {
        proof {
            lemma_shl128(mant as u128, (exp - 52) as u32);
        }
        (mant as u128) << (exp - 52)
    } else {
        proof {
            vstd::bits::lemma_u128_shr_is_div(mant as u128, (52 - exp) as u128);
        }
        (mant as u128) >> (52 - exp)
    };
    let word = u64_as_i64(low64(magnitude));
    if raw < 0x8000_0000_0000_0000 {
        Some(word)
    } else if word == i64::MIN {
        None
    } else {
        Some(-word)
    }
}

/// The bit pattern of an integer; bits that do not fit the fraction are lost.
pub open spec fn from_u64(v: int) -> int {
    if v == 0 {
        0
    } else {
        let bits = bit_len(v as nat);
        let mant = if bits <= 53 {
            v * pow2((53 - bits) as nat)
        } else {
            v / pow2((bits - 53) as nat) as int
        };
        (1022 + bits) * 0x10_0000_0000_0000 + fraction(mant)
    }
}

pub fn u64_to_f64_raw(val: u64) -> (r: u64)
    ensures
        r == from_u64(val as int),
{
    if val == 0 {
        return 0;
    }
    let bits = bit_len_u64(val);
    let mant: u128 = if bits <= 53 {
        shift_to_top(val, 53)
    } else {
        proof {
            vstd::bits::lemma_u128_shr_is_div(val as u128, (bits - 53) as u128);
        }
        (val as u128) >> (bits - 53)
    };
    (1022 + bits as u64) * 0x10_0000_0000_0000 + (mant % 0x10_0000_0000_0000) as u64
}

/// The bit pattern nearest to a number with 76 fractional bits, ties to even.
pub open spec fn nearest(s: int) -> int {
    let n = bit_len(s as nat);
    if s == 0 {
        0
    } else {
        let mant = if n <= 53 {
            s * pow2((53 - n) as nat)
        } else {
            rounded(s, pow2((n - 53) as nat) as int)
        };
        (1023 + n - 1 - 76) * 0x10_0000_0000_0000 + (mant - 0x10_0000_0000_0000)
    }
}

fn round_mantissa(s: u128, n: u32) -> (r: u128)
    requires
        n == bit_len(s as nat),
        53 < n <= 120,
    ensures
        r == rounded(s as int, pow2((n - 53) as nat) as int),
        0x10_0000_0000_0000 <= r <= 0x20_0000_0000_0000,
{
    let k: u32 = n - 53;
    proof {
        crate::num::lemma_bit_len_bounds(s as nat);
        vstd::bits::lemma_u128_shr_is_div(s, k as u128);
        lemma_shl128(1, k);
        vstd::arithmetic::power2::lemma2_to64();
        vstd::arithmetic::power2::lemma2_to64_rest();
        vstd::arithmetic::power2::lemma_pow2_adds(52, k as nat);
        vstd::arithmetic::power2::lemma_pow2_adds(53, k as nat);
        vstd::arithmetic::power2::lemma_pow2_strictly_increases(k as nat, 68);
        vstd::arithmetic::power2::lemma_pow2_adds(64, 4);
        vstd::arithmetic::power2::lemma_pow2_pos(k as nat);
    }
    let unit: u128 = 1u128 << k;
    let ghost u = pow2(k as nat) as int;
    assert(unit == u) by {
        assert(1 * pow2(k as nat) == u);
        assert(wrap128(u) == u);
    }
    let q: u128 = s / unit;
    let rest: u128 = s % unit;
    proof {
        vstd::arithmetic::div_mod::lemma_fundamental_div_mod(s as int, u);
        vstd::arithmetic::div_mod::lemma_mod_bound(s as int, u);
        assert(0x10_0000_0000_0000 <= q < 0x20_0000_0000_0000) by (nonlinear_arith)
            requires
                s == u * q + rest,
                0 <= rest < u,
                0x10_0000_0000_0000 * u <= s,
                s < 0x20_0000_0000_0000 * u,
        ;
    }
    if 2 * rest > unit || (2 * rest == unit && q % 2 == 1) {
        q + 1
    } else {
        q
    }
}

/// The bit pattern nearest to a number with 76 fractional bits.
fn nearest_bits(s: u128) -> (r: u64)
    requires
        s < 0x100_0000_0000_0000_0000_0000_0000_0000,
    ensures
        r == nearest(s as int),
        r < 0x8000_0000_0000_0000,
{
    if s == 0 {
        return 0;
    }
    let n = bit_len_u128(s);
    proof {
        crate::num::lemma_bit_len_bounds(s as nat);
        vstd::arithmetic::power2::lemma2_to64();
        vstd::arithmetic::power2::lemma2_to64_rest();
        vstd::arithmetic::power2::lemma_pow2_adds(64, 56);
        crate::num::lemma_bit_len_le(s as nat, 120);
    }
    let mant: u128 = if n <= 53 {
        proof {
            crate::num::lemma_bit_len_le(s as nat, 53);
        }
        let m = shift_to_top(s as u64, 53);
        m
    } else {
        round_mantissa(s, n)
    };
    let exp: u64 = 1023 + n as u64 - 1 - 76;
    exp * 0x10_0000_0000_0000 + (mant - 0x10_0000_0000_0000) as u64
}

/// A positive bit pattern as a number with 76 fractional bits; its exponent
/// field lies between 999 and 1064.
pub open spec fn fixed76(raw: int) -> int {
    (fraction(raw) + 0x10_0000_0000_0000) * pow2((exponent(raw) - 999) as nat)
}

fn to_fixed76(raw: u64) -> (r: u128)
    requires
        999 <= exponent(raw as int) <= 1064,
    ensures
        r == fixed76(raw as int),
        r < 0x80_0000_0000_0000_0000_0000_0000_0000,
{
    let k: u32 = (raw / 0x10_0000_0000_0000 % 0x800 - 999) as u32;
    let mant: u64 = raw % 0x10_0000_0000_0000 + 0x10_0000_0000_0000;
    proof {
        lemma_shl128(mant as u128, k);
        vstd::arithmetic::power2::lemma2_to64();
        vstd::arithmetic::power2::lemma_pow2_adds(64, 2);
        vstd::arithmetic::power2::lemma_pow2_strictly_increases(k as nat, 66);
        vstd::arithmetic::power2::lemma_pow2_pos(k as nat);
        let p = pow2(k as nat) as int;
        assert(0 <= mant * p < 0x20_0000_0000_0000 * 0x4_0000_0000_0000_0000) by (nonlinear_arith)
            requires
                0 <= mant < 0x20_0000_0000_0000,
                0 < p < 0x4_0000_0000_0000_0000,
        ;
    }
    (mant as u128) << k
}

/// The bits of one plus or minus a fee in ten-millionths.
pub open spec fn fee_correction(fee: int, is_subtract: bool) -> Option<int> {
    if fee == 0 {
        Some(CONST_ONE_RAW as int)
    } else {
        match correction_mul(from_u64(iabs(fee)), CONST_1E7_RAW as int) {
            None => None,
            Some(rate) => {
                let x = fixed76(rate);
                let one = 0x1000_0000_0000_0000_0000int;
                if !is_subtract {
                    Some(nearest(one + x))
                } else if x <= one {
                    Some(nearest(one - x))
                } else {
                    Some(0x8000_0000_0000_0000 + nearest(x - one))
                }
            },
        }
    }
}

/// A fee's rate lies within the range of `fixed76`.
proof fn lemma_fee_rate_exponent(fee: u64)
    requires
        fee > 0,
    ensures
        correction_mul(from_u64(fee as int), CONST_1E7_RAW as int) is Some,
        ({
            let rate = correction_mul(from_u64(fee as int), CONST_1E7_RAW as int)->0;
            &&& 0 <= rate < 0x8000_0000_0000_0000
            &&& 999 <= exponent(rate) <= 1064
        }),
{
    let raw = from_u64(fee as int);
    let bits = bit_len(fee as nat);
    crate::num::lemma_bit_len_bounds(fee as nat);
    vstd::arithmetic::power2::lemma2_to64();
    crate::num::lemma_bit_len_le(fee as nat, 64);
    assert(exponent(raw) == 1022 + bits);
    assert(exponent(CONST_1E7_RAW as int) == 999);
    let exp = 1022 + bits + 999 - 1023;
    let a = fraction(raw) + 0x10_0000_0000_0000;
    let b = fraction(CONST_1E7_RAW as int) * 0x800 + 0x8000_0000_0000_0000;
    let full = a * b;
    let long = full >= 0x10_0000_0000_0000_0000_0000_0000_0000;
    let unit: int = if long {
        0x1_0000_0000_0000_0000
    } else {
        0x8000_0000_0000_0000
    };
    let e = if long {
        exp + 1
    } else {
        exp
    };
    let base = assembled(0, e, (full / unit) % 0x10_0000_0000_0000);
    assert(base == e * 0x10_0000_0000_0000 + (full / unit) % 0x10_0000_0000_0000);
    assert(999 <= e <= 1063);
}

pub fn bpf_fee_to_correction(fee_val: i64, is_subtract: bool) -> (r: Option<u64>)
    ensures
        r is Some == fee_correction(fee_val as int, is_subtract) is Some,
        r is Some ==> r->0 == fee_correction(fee_val as int, is_subtract)->0,
        r is Some,
{
    let abs_fee = crate::num::i64_abs(fee_val);
    if abs_fee == 0 {
        return Some(CONST_ONE_RAW);
    }
    let fee_raw = u64_to_f64_raw(abs_fee);
    proof {
        lemma_fee_rate_exponent(abs_fee);
    }
    let rate_raw = bpf_correction_mul(fee_raw, CONST_1E7_RAW)?;
    let x = to_fixed76(rate_raw);
    let one: u128 = 0x1000_0000_0000_0000_0000;
    if !is_subtract {
        Some(nearest_bits(one + x))
    } else if x <= one {
        Some(nearest_bits(one - x))
    } else {
        Some(0x8000_0000_0000_0000 + nearest_bits(x - one))
    }
}

/// An amount at an oracle's price and a fee up to its cap.
pub open spec fn single(amount: int, oracle: int, fee: int, cap: int) -> Option<int> {
    let clamped = crate::num::imin(fee, cap);
    if clamped == i64::MIN {
        None
    } else {
        match fee_correction(iabs(clamped), clamped < 0) {
            None => None,
            Some(corr) => match correction_mul(corr, oracle) {
                None => None,
                Some(adj) => match int_mul(adj, amount) {
                    None => None,
                    Some(raw) => to_int(raw),
                },
            },
        }
    }
}

pub fn compute_single(amount_in: u64, oracle_raw: u64, fee_val: i64, fee_cap: i32) -> (r: Option<i64>)
    ensures
        r is Some == single(amount_in as int, oracle_raw as int, fee_val as int, fee_cap as int) is Some,
        r is Some ==> r->0 == single(amount_in as int, oracle_raw as int, fee_val as int, fee_cap as int)->0,
{
    let cap = fee_cap as i64;
    let clamped = if fee_val <= cap {
        fee_val
    } else {
        cap
    };
    if clamped == i64::MIN {
        return None;
    }
    let corr_raw = if clamped >= 0 {
        bpf_fee_to_correction(clamped, false)?
    } else {
        bpf_fee_to_correction(-clamped, true)?
    };
    let adj_raw = bpf_correction_mul(corr_raw, oracle_raw)?;
    let result_raw = bpf_int_mul(adj_raw, amount_in)?;
    bpf_f64_to_int(result_raw)
}

}
