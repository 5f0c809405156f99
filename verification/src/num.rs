//! Integer arithmetic shared by the pricing models: two's complement views,
//! rounding division, bit lengths, integer square roots and powers of ten.
use vstd::arithmetic::power2::{lemma2_to64, lemma_pow2_adds, lemma_pow2_pos, lemma_pow2_unfold, pow2};
use vstd::prelude::*;

verus! {

/// The value an integer keeps when it is cut to 64 bits.
pub open spec fn wrap64(x: int) -> int {
    x % 0x1_0000_0000_0000_0000
}

/// The value an integer keeps when it is cut to 128 bits.
pub open spec fn wrap128(x: int) -> int {
    x % 0x1_0000_0000_0000_0000_0000_0000_0000_0000int
}

/// The two's complement reading of a 64-bit word.
pub open spec fn signed64(x: int) -> int {
    if x < 0x8000_0000_0000_0000 {
        x
    } else {
        x - 0x1_0000_0000_0000_0000
    }
}

/// The two's complement reading of a 128-bit word.
pub open spec fn signed128(x: int) -> int {
    if x < 0x8000_0000_0000_0000_0000_0000_0000_0000 {
        x
    } else {
        x - 0x1_0000_0000_0000_0000_0000_0000_0000_0000int
    }
}

/// Whether a value is representable in 64 unsigned bits.
pub open spec fn fits_u64(x: int) -> bool {
    0 <= x <= u64::MAX
}

/// Whether a value is representable in 128 unsigned bits.
pub open spec fn fits_u128(x: int) -> bool {
    0 <= x <= u128::MAX
}

/// Whether a value is representable in 64 signed bits.
pub open spec fn fits_i64(x: int) -> bool {
    i64::MIN <= x <= i64::MAX
}

/// Whether a value is representable in 128 signed bits.
pub open spec fn fits_i128(x: int) -> bool {
    i128::MIN <= x <= i128::MAX
}

pub open spec fn imin(a: int, b: int) -> int {
    if a <= b {
        a
    } else {
        b
    }
}

pub open spec fn imax(a: int, b: int) -> int {
    if a >= b {
        a
    } else {
        b
    }
}

pub open spec fn iabs(a: int) -> int {
    if a < 0 {
        -a
    } else {
        a
    }
}

/// Subtraction that stops at zero.
pub open spec fn monus(a: int, b: int) -> int {
    if a >= b {
        a - b
    } else {
        0
    }
}

/// Division rounded towards zero.
pub open spec fn trunc_div(a: int, b: int) -> int {
    if a >= 0 {
        a / b
    } else {
        -((-a) / b)
    }
}

/// Division of naturals rounded up.
pub open spec fn ceil_div(a: int, b: int) -> int {
    if a % b == 0 {
        a / b
    } else {
        a / b + 1
    }
}

/// The low 64 bits of a 128-bit word.
pub fn low64(x: u128) -> (r: u64)
    ensures
        r == wrap64(x as int),
{
    (x % 0x1_0000_0000_0000_0000) as u64
}

/// The two's complement reading of a 128-bit word.
pub fn u128_as_i128(x: u128) -> (r: i128)
    ensures
        r == signed128(x as int),
{
    if x <= 0x7fff_ffff_ffff_ffff_ffff_ffff_ffff_ffff {
        x as i128
    } else {
        -((u128::MAX - x) as i128) - 1
    }
}

/// The two's complement reading of a 64-bit word.
pub fn u64_as_i64(x: u64) -> (r: i64)
    ensures
        r == signed64(x as int),
{
    if x <= 0x7fff_ffff_ffff_ffff {
        x as i64
    } else {
        -((u64::MAX - x) as i64) - 1
    }
}

/// The 128-bit word of a signed value.
pub fn i128_as_u128(x: i128) -> (r: u128)
    ensures
        r == wrap128(x as int),
{
    if x >= 0 {
        x as u128
    } else {
        u128::MAX - ((-(x + 1)) as u128)
    }
}

/// The low 64 bits of the two's complement word of a signed value.
pub fn i128_as_u64(x: i128) -> (r: u64)
    ensures
        r == wrap64(x as int),
{
    low64(i128_as_u128(x))
}

/// The magnitude of a signed value.
pub fn i128_abs(x: i128) -> (r: u128)
    ensures
        r == iabs(x as int),
{
    if x >= 0 {
        x as u128
    } else {
        ((-(x + 1)) as u128) + 1
    }
}

/// The magnitude of a signed value.
pub fn i64_abs(x: i64) -> (r: u64)
    ensures
        r == iabs(x as int),
{
    if x >= 0 {
        x as u64
    } else {
        ((-(x + 1)) as u64) + 1
    }
}

pub fn min_u64(a: u64, b: u64) -> (r: u64)
    ensures
        r == imin(a as int, b as int),
{
    if a <= b {
        a
    } else {
        b
    }
}

pub fn max_u64(a: u64, b: u64) -> (r: u64)
    ensures
        r == imax(a as int, b as int),
{
    if a >= b {
        a
    } else {
        b
    }
}

pub fn min_u128(a: u128, b: u128) -> (r: u128)
    ensures
        r == imin(a as int, b as int),
{
    if a <= b {
        a
    } else {
        b
    }
}

pub fn max_u128(a: u128, b: u128) -> (r: u128)
    ensures
        r == imax(a as int, b as int),
{
    if a >= b {
        a
    } else {
        b
    }
}

pub fn abs_diff_u128(a: u128, b: u128) -> (r: u128)
    ensures
        r == iabs(a - b),
{
    if a >= b {
        a - b
    } else {
        b - a
    }
}

/// Quotient of unsigned values rounded up.
pub fn div_ceil_u128(a: u128, b: u128) -> (r: u128)
    requires
        b > 0,
    ensures
        r == ceil_div(a as int, b as int),
{
    let q = a / b;
    if a % b == 0 {
        q
    } else {
        assert(q < u128::MAX) by (nonlinear_arith)
            requires
                q == a / b,
                a % b != 0,
                b > 0,
                a <= u128::MAX,
        ;
        q + 1
    }
}

/// Quotient of unsigned values rounded up.
pub fn div_ceil_u64(a: u64, b: u64) -> (r: u64)
    requires
        b > 0,
    ensures
        r == ceil_div(a as int, b as int),
{
    let q = a / b;
    if a % b == 0 {
        q
    } else {
        assert(q < u64::MAX) by (nonlinear_arith)
            requires
                q == a / b,
                a % b != 0,
                b > 0,
                a <= u64::MAX,
        ;
        q + 1
    }
}

/// The number of binary digits of a natural number; zero has none.
pub open spec fn bit_len(x: nat) -> nat
    decreases x,
{
    if x == 0 {
        0
    } else {
        1 + bit_len(x / 2)
    }
}

/// A positive number lies between the powers of two that its length names.
pub proof fn lemma_bit_len_bounds(x: nat)
    requires
        x > 0,
    ensures
        bit_len(x) >= 1,
        pow2((bit_len(x) - 1) as nat) <= x < pow2(bit_len(x)),
    decreases x,
{
    if x == 1 {
        lemma2_to64();
        assert(bit_len(0) == 0);
        assert(bit_len(1) == 1 + bit_len(0));
    } else {
        lemma_bit_len_bounds(x / 2);
        let k = bit_len(x / 2);
        lemma_pow2_unfold(k);
        lemma_pow2_unfold(k + 1);
    }
}

/// A number below a power of two has at most that many digits, and conversely.
pub proof fn lemma_bit_len_le(x: nat, k: nat)
    ensures
        bit_len(x) <= k <==> x < pow2(k),
    decreases k,
{
    lemma_pow2_pos(k);
    if k == 0 {
        lemma2_to64();
    } else {
        lemma_pow2_unfold(k);
        if x > 0 {
            lemma_bit_len_le(x / 2, (k - 1) as nat);
        }
    }
}

/// The number of binary digits of a 128-bit word.
pub fn bit_len_u128(x: u128) -> (r: u32)
    ensures
        r == bit_len(x as nat),
        r <= 128,
{
    let mut v = x;
    let mut n: u32 = 0;
    proof {
        lemma2_to64();
        lemma_pow2_adds(64, 64);
        lemma_bit_len_le(x as nat, 128);
    }
    while v > 0
        invariant
            n + bit_len(v as nat) == bit_len(x as nat),
            bit_len(x as nat) <= 128,
        decreases v,
    {
        v = v / 2;
        n = n + 1;
    }
    n
}

/// The number of binary digits of a 64-bit word.
pub fn bit_len_u64(x: u64) -> (r: u32)
    ensures
        r == bit_len(x as nat),
        r <= 64,
{
    proof {
        lemma2_to64();
        lemma_bit_len_le(x as nat, 64);
    }
    bit_len_u128(x as u128)
}

/// The integer square root: the largest `r` whose square does not exceed `n`.
pub open spec fn is_isqrt(n: int, r: int) -> bool {
    0 <= r && r * r <= n < (r + 1) * (r + 1)
}

/// The largest integer whose square does not exceed `n`.
pub open spec fn isqrt_of(n: int) -> int {
    choose|r: int| is_isqrt(n, r)
}

/// Two numbers that both satisfy the definition of the square root are equal.
pub proof fn lemma_isqrt_unique(n: int, r: int)
    requires
        is_isqrt(n, r),
    ensures
        isqrt_of(n) == r,
{
    let s = isqrt_of(n);
    assert(is_isqrt(n, s));
    assert(s == r) by (nonlinear_arith)
        requires
            0 <= r,
            0 <= s,
            r * r <= n < (r + 1) * (r + 1),
            s * s <= n < (s + 1) * (s + 1),
    ;
}

/// One Newton step from above the root never falls below it.
proof fn lemma_newton_above(n: int, x: int)
    requires
        n >= 1,
        x >= 1,
    ensures
        n < ((x + n / x) / 2 + 1) * ((x + n / x) / 2 + 1),
{
    let q = n / x;
    let y = (x + q) / 2;
    assert(n < x * (q + 1)) by (nonlinear_arith)
        requires
            q == n / x,
            x >= 1,
            n >= 1,
    ;
    assert(2 * y + 1 >= x + q);
    assert(4 * (x * (q + 1)) <= (x + q + 1) * (x + q + 1)) by (nonlinear_arith);
    assert((x + q + 1) * (x + q + 1) <= (2 * y + 2) * (2 * y + 2)) by (nonlinear_arith)
        requires
            0 <= x + q + 1 <= 2 * y + 2,
    ;
    assert((2 * y + 2) * (2 * y + 2) == 4 * ((y + 1) * (y + 1))) by (nonlinear_arith);
}

/// Newton's iteration for the integer square root, from above.
pub fn isqrt(n: u128) -> (r: u128)
    ensures
        r == isqrt_of(n as int),
        is_isqrt(n as int, r as int),
{
    if n == 0 {
        proof {
            lemma_isqrt_unique(0, 0);
        }
        return 0;
    }
    let mut x = n;
    let mut y = x / 2 + x % 2;
    proof {
        assert(n < (x + 1) * (x + 1)) by (nonlinear_arith)
            requires
                x == n,
        ;
        if n == 1 {
        } else {
            lemma_newton_above(n as int, n as int);
            assert(n as int / n as int == 1) by (nonlinear_arith)
                requires
                    n >= 1,
            ;
            assert(y == (x + 1) / 2);
        }
    }
    while y < x
        invariant
            n >= 1,
            x >= 1,
            y >= 1,
            n < (x + 1) * (x + 1),
            n < (y + 1) * (y + 1),
            y >= x ==> x * x <= n,
            y <= n / 2 + 1,
        decreases x,
    {
        x = y;
        let q = n / x;
        proof {
            if x >= 4 {
                assert(q <= n as int / 4) by (nonlinear_arith)
                    requires
                        q == n as int / x as int,
                        x >= 4,
                ;
            } else {
                assert(n < 16) by (nonlinear_arith)
                    requires
                        n < (x + 1) * (x + 1),
                        1 <= x < 4,
                ;
                assert(x == 1 || x == 2 || x == 3);
                assert(x == 1 ==> q == n);
                assert(x == 2 ==> q == n / 2);
                assert(x == 3 ==> q == n / 3);
            }
        }
        y = (x + q) / 2;
        proof {
            lemma_newton_above(n as int, x as int);
            if y >= x {
                assert(x * x <= n) by (nonlinear_arith)
                    requires
                        q == n as int / x as int,
                        q >= x,
                        x >= 1,
                        n >= 1,
                ;
            }
        }
    }
    proof {
        lemma_isqrt_unique(n as int, x as int);
    }
    x
}

/// Multiplication that stops at the largest 128-bit value.
pub fn saturating_mul_u128(a: u128, b: u128) -> (r: u128)
    ensures
        r == imin(a * b, u128::MAX as int),
{
    match a.checked_mul(b) {
        Some(p) => p,
        None => u128::MAX,
    }
}

/// Addition that stops at the largest 128-bit value.
pub fn saturating_add_u128(a: u128, b: u128) -> (r: u128)
    ensures
        r == imin(a + b, u128::MAX as int),
{
    match a.checked_add(b) {
        Some(p) => p,
        None => u128::MAX,
    }
}

/// Left shift by 64 places; bits above the 128th are lost.
pub fn shl64(x: u128) -> (r: u128)
    ensures
        r == wrap128(x * 0x1_0000_0000_0000_0000),
{
    x % 0x1_0000_0000_0000_0000 * 0x1_0000_0000_0000_0000
}

/// A quotient rounded to the nearest integer, ties to even.
pub open spec fn rounded(s: int, unit: int) -> int {
    let q = s / unit;
    let r = s % unit;
    if 2 * r > unit || (2 * r == unit && q % 2 == 1) {
        q + 1
    } else {
        q
    }
}

/// How divisions round: up, or towards zero.
pub proof fn law_divisions_round(a: int, b: int)
    requires
        b > 0,
    ensures
        (ceil_div(a, b) - 1) * b < a <= ceil_div(a, b) * b,
        a >= 0 ==> trunc_div(a, b) * b <= a < (trunc_div(a, b) + 1) * b,
        a <= 0 ==> (trunc_div(a, b) - 1) * b < a <= trunc_div(a, b) * b,
{
    lemma_quotient(a, b);
    lemma_quotient(-a, b);
    let n = (-a) / b;
    assert((-n) * b == -(n * b) && (-n - 1) * b == -((n + 1) * b)) by (nonlinear_arith);
    let q = a / b;
    assert((q - 1) * b == q * b - b && (q + 1) * b == q * b + b) by (nonlinear_arith);
    if a == 0 {
        vstd::arithmetic::div_mod::lemma_basic_div(0, b);
        assert((0 - 1) * b < 0) by (nonlinear_arith)
            requires
                b > 0,
        ;
    }
}

proof fn lemma_quotient(a: int, b: int)
    requires
        b > 0,
    ensures
        (a / b) * b <= a < (a / b + 1) * b,
        a % b == 0 <==> (a / b) * b == a,
{
    vstd::arithmetic::div_mod::lemma_fundamental_div_mod(a, b);
    let q = a / b;
    assert(q * b == b * q && (q + 1) * b == b * q + b) by (nonlinear_arith);
}

/// The integer square root is the one number whose square does not exceed
/// another while the next square does.
pub proof fn law_square_root(n: int, r: int)
    requires
        0 <= r,
        r * r <= n < (r + 1) * (r + 1),
    ensures
        isqrt_of(n) == r,
{
    assert(is_isqrt(n, r));
    lemma_isqrt_unique(n, r);
}

/// Cutting a number to 64 bits takes whole turns off it and leaves one that
/// fits. Read as signed, a word is the same below half the range and a turn lower
/// above it.
pub proof fn law_cut_to_a_word(x: int, turns: int)
    ensures
        0 <= wrap64(x) <= u64::MAX,
        wrap64(x + turns * 0x1_0000_0000_0000_0000) == wrap64(x),
        0 <= x <= u64::MAX ==> wrap64(x) == x,
        0 <= x <= i64::MAX ==> signed64(x) == x,
        i64::MAX < x <= u64::MAX ==> signed64(x) == x - 0x1_0000_0000_0000_0000,
{
}

}
