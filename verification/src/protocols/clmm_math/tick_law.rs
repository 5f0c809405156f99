//! The tick of a price is the greatest one whose price is not above it.
//!
//! Logarithms are bounds on powers: a number has a logarithm of at least
//! `a / SPAN` where its power to `SPAN` is at least two to the `a`. One tick
//! is two to the 64th on that scale, as it is in `log_base_tick`.
use vstd::arithmetic::power::{
    lemma_pow0, lemma_pow1, lemma_pow_adds, lemma_pow_distributes, lemma_pow_increases,
    lemma_pow_increases_converse, lemma_pow_multiplies, lemma_pow_positive, pow,
};
use vstd::prelude::*;

use super::fees::{MAX_TICK_INDEX, MIN_TICK_INDEX};
use super::tick_price::{
    has_bit, log2_fraction, log_base_tick, normalized, orca_negative_ratio, orca_positive_ratio, orca_price,
    tick_of_price, LOG_B_P_ERR_MARGIN_LOWER_X64, LOG_B_P_ERR_MARGIN_UPPER_X64, ORCA_NEGATIVE_RATIOS,
    ORCA_POSITIVE_RATIOS_Q96, ORCA_U1_NEG_RATIO, ORCA_U1_POS_RATIO_Q96,
};
use super::u256::two64;
use crate::num::{bit_len, iabs, wrap128};

verus! {

/// The power that logarithms are bounded by: `LOG_B_2_X32` times two to the
/// 32nd.
spec fn span() -> nat {
    255738958999602392465408
}

/// What rounding a number of 31 bits or more can change of its logarithm.
spec fn rounding() -> int {
    238175465724992
}

/// A power of two.
spec fn two(e: int) -> int {
    pow(2, e as nat)
}

proof fn lemma_pow_base_order(a: int, b: int, e: nat)
    requires
        0 <= a <= b,
    ensures
        0 <= pow(a, e) <= pow(b, e),
    decreases e,
{
    reveal(pow);
    if e > 0 {
        lemma_pow_base_order(a, b, (e - 1) as nat);
        let x = pow(a, (e - 1) as nat);
        let y = pow(b, (e - 1) as nat);
        assert(0 <= a * x <= b * y) by (nonlinear_arith)
            requires
                0 <= a <= b,
                0 <= x <= y,
        ;
    }
}

/// Taking a little off a base takes at most as many times as much off its
/// power.
proof fn lemma_small_loss(a: int, n: int, q: nat)
    requires
        0 <= n <= a,
        n * q <= a,
        a > 0,
    ensures
        pow(a - n, q) * a >= pow(a, q) * (a - n * q),
    decreases q,
{
    if q == 0 {
        lemma_pow0(a - n);
        lemma_pow0(a);
        assert(a - n * 0 == a);
    } else {
        let m = (q - 1) as nat;
        assert(n * m <= n * q && n * q == n * m + n) by (nonlinear_arith)
            requires
                m == q - 1,
                n >= 0,
        ;
        lemma_small_loss(a, n, m);
        reveal(pow);
        let x = pow(a - n, m);
        let y = pow(a, m);
        lemma_pow_positive(a, m);
        let w = n * m;
        assert(((a - n) * x) * a >= (a * y) * (a - n * q)) by (nonlinear_arith)
            requires
                x * a >= y * (a - w),
                n * q == w + n,
                0 <= n <= a,
                w >= 0,
                y > 0,
                a > 0,
        {
            assert(((a - n) * x) * a == (a - n) * (x * a));
            assert((a - n) * (x * a) >= (a - n) * (y * (a - w)));
            assert((a - n) * (y * (a - w)) == y * ((a - n) * (a - w)));
            assert((a - n) * (a - w) == a * (a - (w + n)) + n * w);
            assert(n * w >= 0);
            assert(y * ((a - n) * (a - w)) >= y * (a * (a - (w + n))));
            assert(y * (a * (a - (w + n))) == (a * y) * (a - (w + n)));
        }
        assert(w >= 0) by (nonlinear_arith)
            requires
                w == n * m,
                n >= 0,
                m >= 0,
        ;
    }
}

proof fn lemma_two_adds(a: int, b: int)
    requires
        a >= 0,
        b >= 0,
    ensures
        two(a) * two(b) == two(a + b),
        two(a) > 0,
        two(b) > 0,
{
    lemma_pow_adds(2, a as nat, b as nat);
    lemma_pow_positive(2, a as nat);
    lemma_pow_positive(2, b as nat);
}

proof fn lemma_two_multiplies(a: int, q: nat)
    requires
        a >= 0,
    ensures
        pow(two(a), q) == two(a * q),
        a * q >= 0,
{
    lemma_pow_multiplies(2, a as nat, q);
}

proof fn lemma_two_order(a: int, b: int)
    requires
        0 <= a <= b,
    ensures
        0 < two(a) <= two(b),
{
    lemma_pow_positive(2, a as nat);
    lemma_pow_increases(2, a as nat, b as nat);
}

proof fn lemma_two_order_back(a: int, b: int)
    requires
        a >= 0,
        b >= 0,
        two(a) <= two(b),
    ensures
        a <= b,
{
    lemma_pow_increases_converse(2, a as nat, b as nat);
}

proof fn lemma_two_small()
    ensures
        two(0) == 1,
        two(1) == 2,
        two(31) == 0x8000_0000,
        two(32) == 0x1_0000_0000,
        two(62) == 0x4000_0000_0000_0000,
        two(63) == 0x8000_0000_0000_0000,
        two(64) == two64(),
        two(96) == 0x1_0000_0000_0000_0000_0000_0000,
        two(128) == 0x1_0000_0000_0000_0000_0000_0000_0000_0000,
{
    lemma_pow0(2);
    lemma_pow1(2);
    vstd::arithmetic::power2::lemma2_to64();
    vstd::arithmetic::power2::lemma2_to64_rest();
    vstd::arithmetic::power2::lemma_pow2(31);
    vstd::arithmetic::power2::lemma_pow2(32);
    vstd::arithmetic::power2::lemma_pow2(62);
    vstd::arithmetic::power2::lemma_pow2(63);
    vstd::arithmetic::power2::lemma_pow2(64);
    lemma_two_adds(32, 64);
    assert(two(96) == 0x1_0000_0000 * two64());
    assert(two(96) == 0x1_0000_0000 * two64());
    assert(two(96) == 0x1_0000_0000 * two64());
    assert(two(96) == 0x1_0000_0000 * two64());
    assert(two(96) == 0x1_0000_0000 * two64());
    assert(two(96) == 0x1_0000_0000 * two64());
    assert(two(96) == 0x1_0000_0000 * two64());
    assert(two(96) == 0x1_0000_0000 * two64());
    assert(two(96) == 0x1_0000_0000 * two64());
    assert(two(96) == 0x1_0000_0000 * two64());
    lemma_two_adds(64, 64);
}

/// The step between two neighbours of 32 bits.
proof fn lemma_neighbours()
    ensures
        pow(0x8000_0001, span()) <= pow(0x8000_0000, span()) * two(rounding()),
        two(rounding()) > 0,
{
    let q: nat = 0x4000_0000;
    let g: nat = 238175465724992;
    lemma_two_small();
    lemma_small_loss(0x8000_0001, 1, q);
    let x = pow(0x8000_0000, q);
    let y = pow(0x8000_0001, q);
    lemma_pow_positive(0x8000_0001, q);
    assert(y <= 2 * x) by (nonlinear_arith)
        requires
            x * 0x8000_0001 >= y * (0x8000_0001 - 0x4000_0000),
            y > 0,
    ;
    lemma_pow_base_order(y, 2 * x, g);
    lemma_pow_distributes(2, x, g);
    lemma_pow_multiplies(0x8000_0000, q, g);
    lemma_pow_multiplies(0x8000_0001, q, g);
    assert(q * g == span()) by (nonlinear_arith)
        requires
            q == 0x4000_0000,
            g == 238175465724992,
    ;
    lemma_pow_positive(2, g);
    vstd::arithmetic::mul::lemma_mul_is_commutative(pow(2, g), pow(x, g));
}

/// Numbers that agree to 31 bits have logarithms that agree to a rounding.
proof fn lemma_close(x: int, y: int)
    requires
        0 <= y,
        0 < x,
        y * 0x8000_0000 <= x * 0x8000_0001,
    ensures
        pow(y, span()) <= pow(x, span()) * two(rounding()),
{
    let w = span();
    lemma_neighbours();
    lemma_pow_base_order(y * 0x8000_0000, x * 0x8000_0001, w);
    lemma_pow_distributes(y, 0x8000_0000, w);
    lemma_pow_distributes(x, 0x8000_0001, w);
    lemma_pow_positive(0x8000_0000, w);
    lemma_pow_positive(x, w);
    let a = pow(y, w);
    let b = pow(x, w);
    let s = pow(0x8000_0000, w);
    let t = pow(0x8000_0001, w);
    let e = two(rounding());
    assert(a <= b * e) by (nonlinear_arith)
        requires
            a * s <= b * t,
            t <= s * e,
            s > 0,
            b > 0,
            e > 0,
    {
        assert(b * t <= b * (s * e));
        assert(b * (s * e) == (b * e) * s);
    }
}

/// Whether the logarithm of a number with `s` fractional bits is at least
/// `a`.
spec fn at_least(x: int, s: int, a: int) -> bool {
    x > 0 && s * span() + a >= 0 && pow(x, span()) >= two(s * span() + a)
}

/// Whether the logarithm of a number with `s` fractional bits is at most `a`.
spec fn at_most(x: int, s: int, a: int) -> bool {
    x >= 0 && s * span() + a >= 0 && pow(x, span()) <= two(s * span() + a)
}

/// Rounding a product down keeps the sum of the logarithms to a rounding.
proof fn lemma_rounded_product(x: int, y: int, s: int, a: int, b: int, c: int, d: int)
    requires
        at_least(x, s, a),
        at_most(x, s, b),
        at_least(y, s, c),
        at_most(y, s, d),
        s >= 0,
        s * span() + a + c - rounding() >= 31 * span(),
    ensures
        at_least((x * y) / two(s), s, a + c - rounding()),
        at_most((x * y) / two(s), s, b + d),
        (x * y) / two(s) >= 0x8000_0000,
{
    let w = span() as int;
    let sw = s * w;
    assert(sw >= 0) by (nonlinear_arith)
        requires
            sw == s * w,
            s >= 0,
            w >= 0,
    ;
    let m = two(s);
    let z = (x * y) / m;
    lemma_two_small();
    lemma_two_order(s, s);
    lemma_two_multiplies(s, span());
    lemma_two_order_back(sw + a, sw + b);
    lemma_two_order_back(sw + c, sw + d);
    assert(x * y >= 0) by (nonlinear_arith)
        requires
            x >= 0,
            y >= 0,
    ;
    vstd::arithmetic::div_mod::lemma_fundamental_div_mod(x * y, m);
    vstd::arithmetic::div_mod::lemma_mod_bound(x * y, m);
    vstd::arithmetic::div_mod::lemma_div_pos_is_pos(x * y, m);
    assert(z * m == m * z && (z + 1) * m == m * z + m) by (nonlinear_arith);
    lemma_pow_distributes(x, y, span());
    lemma_pow_distributes(z, m, span());
    lemma_pow_distributes(z + 1, m, span());
    lemma_pow_base_order(z * m, x * y, span());
    lemma_pow_base_order(x * y, (z + 1) * m, span());
    let px = pow(x, span());
    let py = pow(y, span());
    lemma_two_adds(sw + a, sw + c);
    lemma_two_adds(sw + b, sw + d);
    lemma_pow_positive(x, span());
    assert(two(sw + a) * two(sw + c) <= px * py <= two(sw + b) * two(sw + d)) by (nonlinear_arith)
        requires
            0 < two(sw + a) <= px <= two(sw + b),
            0 < two(sw + c) <= py <= two(sw + d),
    ;
    lemma_cancel_most(pow(z, span()), sw, sw + b + (sw + d));
    lemma_cancel_least(pow(z + 1, span()), sw, sw + a + (sw + c));
    // The rounded product still has 31 bits.
    lemma_two_multiplies(31, span());
    lemma_two_order(31 * w, sw + a + c);
    if z + 1 <= 0x8000_0000 {
        lemma_pow_base_order(z + 1, 0x8000_0000, span());
        lemma_two_order_back(sw + a + c, 31 * w);
    }
    lemma_close(z, z + 1);
    lemma_cancel_least(pow(z, span()), rounding(), sw + a + c);
}

proof fn lemma_cancel_most(x: int, e: int, f: int)
    requires
        0 <= e <= f,
        x * two(e) <= two(f),
    ensures
        x <= two(f - e),
{
    lemma_two_adds(e, f - e);
    let p = two(e);
    let q = two(f - e);
    assert(x <= q) by (nonlinear_arith)
        requires
            x * p <= p * q,
            p > 0,
    ;
}

proof fn lemma_cancel_least(x: int, e: int, f: int)
    requires
        0 <= e <= f,
        x * two(e) >= two(f),
    ensures
        x >= two(f - e),
{
    lemma_two_adds(e, f - e);
    let p = two(e);
    let q = two(f - e);
    assert(x >= q) by (nonlinear_arith)
        requires
            x * p >= p * q,
            p > 0,
    ;
}

/// The first `n` binary digits of the logarithm of a number between two to
/// the 63rd and two to the 64th, found by squaring.
spec fn leading_digits(r: int, n: nat) -> int
    decreases n,
{
    if n == 0 {
        0
    } else {
        let square = r * r;
        if square >= 0x8000_0000_0000_0000_0000_0000_0000_0000 {
            two(n - 1) + leading_digits(square / 0x1_0000_0000_0000_0000, (n - 1) as nat)
        } else {
            leading_digits(square / 0x8000_0000_0000_0000, (n - 1) as nat)
        }
    }
}

/// What is lost above the digits in one squaring.
proof fn lemma_digit_loss(x: int, m: nat, t: int)
    requires
        0x8000_0000_0000_0000 <= x,
        0 < m <= 0x1_0000_0000_0000,
        pow(x, m) * (0x8000_0000_0000_0000 - (m - 1)) <= t * 0x8000_0000_0000_0000,
    ensures
        pow(x + 1, m) * (0x8000_0000_0000_0000 - (2 * m - 1)) <= t * 0x8000_0000_0000_0000,
{
    let a = x + 1;
    let h: int = 0x8000_0000_0000_0000;
    lemma_small_loss(a, 1, m);
    lemma_pow_positive(a, m);
    lemma_pow_positive(x, m);
    let p = pow(x, m);
    let q = pow(a, m);
    let c = m - 1;
    assert(q * (h - m) <= p * h) by (nonlinear_arith)
        requires
            p * a >= q * (a - m),
            a >= h > m,
            m > 0,
            q > 0,
    {
        assert((p * a) * h >= (q * (a - m)) * h);
        assert((q * (a - m)) * h == q * ((a - m) * h));
        assert((a - m) * h >= a * (h - m)) by {
            assert((a - m) * h == a * h - m * h);
            assert(a * (h - m) == a * h - m * a);
        }
        assert(q * ((a - m) * h) >= q * (a * (h - m)));
        assert((p * a) * h == a * (p * h));
        assert(q * (a * (h - m)) == a * (q * (h - m)));
    }
    assert(q * (h - 2 * m + 1) <= t * h) by (nonlinear_arith)
        requires
            q * (h - m) <= p * h,
            p * (h - c) <= t * h,
            c == m - 1,
            0 < m,
            h > 2 * m,
            q > 0,
    {
        assert((q * (h - m)) * (h - c) <= (p * h) * (h - c));
        assert((p * h) * (h - c) == (p * (h - c)) * h);
        assert((p * (h - c)) * h <= (t * h) * h);
        assert((h - m) * (h - c) >= h * (h - 2 * m + 1)) by {
            assert((h - m) * (h - c) == h * (h - m - c) + m * c);
            assert(m * c >= 0);
        }
        assert((q * (h - m)) * (h - c) == q * ((h - m) * (h - c)));
        assert(q * ((h - m) * (h - c)) >= q * (h * (h - 2 * m + 1)));
        assert(q * (h * (h - 2 * m + 1)) == (q * (h - 2 * m + 1)) * h);
    }
}

/// What the digits of a logarithm say of a power.
proof fn lemma_digits(r: int, n: nat)
    requires
        0x8000_0000_0000_0000 <= r < two64(),
        n <= 40,
    ensures
        0 < two(n as int) <= 0x1_0000_0000_0000,
        0 <= leading_digits(r, n),
        pow(r, two(n as int) as nat) >= two(63 * two(n as int) + leading_digits(r, n)),
        pow(r, two(n as int) as nat) * (0x8000_0000_0000_0000 - (two(n as int) - 1)) <= two(
            63 * two(n as int) + leading_digits(r, n) + 1,
        ) * 0x8000_0000_0000_0000,
    decreases n,
{
    lemma_two_small();
    lemma_two_adds(8, 40);
    vstd::arithmetic::power2::lemma2_to64_rest();
    vstd::arithmetic::power2::lemma2_to64();
    vstd::arithmetic::power2::lemma_pow2(40);
    lemma_two_order(n as int, 40);
    if n == 0 {
        lemma_pow1(r);
        assert(two(63 * two(0) + leading_digits(r, 0) + 1) == two64());
        assert(pow(r, two(0) as nat) == r);
        assert(r * (0x8000_0000_0000_0000 - (two(0) - 1)) == r * 0x8000_0000_0000_0000);
    } else {
        let m = two(n - 1) as nat;
        lemma_two_order(n - 1, 40);
        lemma_two_adds(1, n - 1);
        let k = two(n as int);
        assert(k == 2 * m);
        let square = r * r;
        assert(0x4000_0000_0000_0000_0000_0000_0000_0000 <= square
            < 0x1_0000_0000_0000_0000_0000_0000_0000_0000) by (nonlinear_arith)
            requires
                square == r * r,
                0x8000_0000_0000_0000 <= r < 0x1_0000_0000_0000_0000,
        ;
        let big = square >= 0x8000_0000_0000_0000_0000_0000_0000_0000;
        let b: int = if big {
            1
        } else {
            0
        };
        let unit: int = if big {
            0x1_0000_0000_0000_0000
        } else {
            0x8000_0000_0000_0000
        };
        assert(unit == two(63 + b));
        let x = if big {
            square / 0x1_0000_0000_0000_0000
        } else {
            square / 0x8000_0000_0000_0000
        };
        assert(0x8000_0000_0000_0000 <= x < two64());
        lemma_digits(x, (n - 1) as nat);
        let d = leading_digits(x, (n - 1) as nat);
        assert(leading_digits(r, n) == b * m + d);
        let e = (63 + b) * m;
        lemma_two_multiplies(63 + b, m);
        assert(x * unit <= square <= (x + 1) * unit);
        lemma_pow_base_order(x * unit, square, m);
        lemma_pow_base_order(square, (x + 1) * unit, m);
        lemma_pow_distributes(x, unit, m);
        lemma_pow_distributes(x + 1, unit, m);
        lemma_pow_multiplies(r, 2, m);
        vstd::arithmetic::power::lemma_square_is_pow2(r);
        lemma_two_adds(e, 63 * m + d);
        lemma_two_adds(e, 63 * m + d + 1);
        assert(e == 63 * m + b * m) by (nonlinear_arith)
            requires
                e == (63 + b) * m,
        ;
        assert(b * m >= 0) by (nonlinear_arith)
            requires
                b >= 0,
                m >= 0,
        ;
        let full = pow(r, k as nat);
        let p = pow(x, m);
        let q = pow(x + 1, m);
        let u = two(e);
        let lo = two(63 * m + d);
        let hi = two(63 * m + d + 1);
        lemma_digit_loss(x, m, hi);
        assert(full >= u * lo) by (nonlinear_arith)
            requires
                full >= p * u,
                p >= lo,
                u > 0,
        ;
        let rest = 0x8000_0000_0000_0000 - (2 * m - 1);
        assert(full * rest <= (u * hi) * 0x8000_0000_0000_0000) by (nonlinear_arith)
            requires
                full <= q * u,
                q * rest <= hi * 0x8000_0000_0000_0000,
                u > 0,
                rest >= 0,
        {
            assert(full * rest <= (q * u) * rest);
            assert((q * u) * rest == (q * rest) * u);
            assert((q * rest) * u <= (hi * 0x8000_0000_0000_0000) * u);
        }
        assert(u * hi == two(63 * k + leading_digits(r, n) + 1));
        assert(u * lo == two(63 * k + leading_digits(r, n)));
    }
}

/// What the digits of a logarithm say of a power of any price.
proof fn lemma_price_digits(p: u128, n: nat)
    requires
        p > 0,
        n <= 40,
    ensures
        ({
            let k = two(n as int);
            let e = (bit_len(p as nat) - 1) * k + leading_digits(normalized(p as int), n);
            &&& 0 < k <= 0x1_0000_0000_0000
            &&& e >= 0
            &&& pow(p as int, k as nat) >= two(e)
            &&& pow(p as int, k as nat) * (0x8000_0000_0000_0000 - (2 * k - 1)) <= two(e + 1) * 0x8000_0000_0000_0000
        }),
{
    let r = normalized(p as int);
    let k = two(n as int);
    let d = leading_digits(r, n);
    let msb = bit_len(p as nat) - 1;
    super::tick_price::lemma_normalized_range(p);
    lemma_digits(r, n);
    lemma_two_small();
    let pk = pow(p as int, k as nat);
    let rk = pow(r, k as nat);
    lemma_pow_positive(p as int, k as nat);
    let e = msb * k + d;
    assert(e >= 0) by (nonlinear_arith)
        requires
            e == msb * k + d,
            msb >= 0,
            k > 0,
            d >= 0,
    ;
    if msb >= 64 {
        let s = msb - 63;
        let unit = two(s);
        lemma_two_order(s, s);
        lemma_two_multiplies(s, k as nat);
        vstd::arithmetic::power2::lemma_pow2(s as nat);
        vstd::arithmetic::div_mod::lemma_fundamental_div_mod(p as int, unit);
        vstd::arithmetic::div_mod::lemma_mod_bound(p as int, unit);
        assert(r * unit == unit * r && (r + 1) * unit == unit * r + unit) by (nonlinear_arith);
        lemma_pow_base_order(r * unit, p as int, k as nat);
        lemma_pow_base_order(p as int, (r + 1) * unit, k as nat);
        lemma_pow_distributes(r, unit, k as nat);
        lemma_pow_distributes(r + 1, unit, k as nat);
        lemma_digit_loss(r, k as nat, two(63 * k + d + 1));
        assert(s * k + 63 * k == msb * k) by (nonlinear_arith)
            requires
                s == msb - 63,
        ;
        lemma_two_adds(s * k, 63 * k + d);
        lemma_two_adds(s * k, 63 * k + d + 1);
        let u = two(s * k);
        let lo = two(63 * k + d);
        let hi = two(63 * k + d + 1);
        let q = pow(r + 1, k as nat);
        let rest = 0x8000_0000_0000_0000 - (2 * k - 1);
        assert(pk >= u * lo) by (nonlinear_arith)
            requires
                pk >= rk * u,
                rk >= lo,
                u > 0,
        ;
        assert(pk * rest <= (u * hi) * 0x8000_0000_0000_0000) by (nonlinear_arith)
            requires
                pk <= q * u,
                q * rest <= hi * 0x8000_0000_0000_0000,
                u > 0,
                rest >= 0,
        {
            assert(pk * rest <= (q * u) * rest);
            assert((q * u) * rest == (q * rest) * u);
            assert((q * rest) * u <= (hi * 0x8000_0000_0000_0000) * u);
        }
        assert(u * hi == two(e + 1));
        assert(u * lo == two(e));
    } else {
        let j = 63 - msb;
        let unit = two(j);
        lemma_two_multiplies(j, k as nat);
        vstd::arithmetic::power2::lemma_pow2(j as nat);
        lemma_pow_distributes(p as int, unit, k as nat);
        assert(j * k + msb * k == 63 * k) by (nonlinear_arith)
            requires
                j == 63 - msb,
        ;
        lemma_cancel_least(pk, j * k, 63 * k + d);
        lemma_two_adds(j * k, e + 1);
        let u = two(j * k);
        let hi = two(e + 1);
        let rest = 0x8000_0000_0000_0000 - (k - 1);
        assert(u * hi == two(63 * k + d + 1));
        assert(pk * (rest - k) <= hi * 0x8000_0000_0000_0000) by (nonlinear_arith)
            requires
                (pk * u) * rest <= (u * hi) * 0x8000_0000_0000_0000,
                u > 0,
                pk > 0,
                k > 0,
        {
            assert((pk * u) * rest == (pk * rest) * u);
            assert((u * hi) * 0x8000_0000_0000_0000 == (hi * 0x8000_0000_0000_0000) * u);
            assert(pk * rest <= hi * 0x8000_0000_0000_0000);
            assert(pk * (rest - k) == pk * rest - pk * k);
            assert(pk * k > 0);
        }
    }
}

/// Digits of another weight.
proof fn lemma_weighted_digits(r: int, w: int, n: nat)
    requires
        n > 0,
        w > 0,
    ensures
        log2_fraction(r, w * two(n - 1), n) == w * leading_digits(r, n),
    decreases n,
{
    lemma_two_small();
    let square = r * r;
    let next = if square >= 0x8000_0000_0000_0000_0000_0000_0000_0000 {
        square / 0x1_0000_0000_0000_0000
    } else {
        square / 0x8000_0000_0000_0000
    };
    let rest = leading_digits(next, (n - 1) as nat);
    let t = two(n - 1);
    assert(w * (t + rest) == w * t + w * rest) by (nonlinear_arith);
    reveal_with_fuel(log2_fraction, 2);
    reveal_with_fuel(leading_digits, 2);
    if n == 1 {
        assert(rest == 0);
        assert(w * 0 == 0);
    } else {
        lemma_two_adds(1, n - 2);
        let u = two(n - 2);
        assert((w * t) / 2 == w * u) by (nonlinear_arith)
            requires
                t == 2 * u,
        ;
        lemma_weighted_digits(next, w, (n - 1) as nat);
    }
}

/// The logarithm that a price's digits stand for: it is at least
/// `log_base_tick`, and less than one digit above it.
proof fn lemma_price_log(p: u128)
    requires
        p > 0,
    ensures
        at_least(p as int, 64, log_base_tick(p as int)),
        at_most(p as int, 64, log_base_tick(p as int) + 15609067321753075712 + rounding()),
{
    let r = normalized(p as int);
    let d = leading_digits(r, 14);
    let msb = bit_len(p as nat) - 1;
    lemma_two_small();
    lemma_two_fourteen();
    lemma_price_digits(p, 14);
    lemma_weighted_digits(r, 0x4_0000_0000_0000, 14);
    let l = log_base_tick(p as int);
    assert(l == ((msb - 64) * 0x4000 + d) * 15609067321753075712) by {
        assert(log2_fraction(r, 0x8000_0000_0000_0000, 14) == 0x4_0000_0000_0000 * d);
    }
    let g: nat = 15609067321753075712;
    let k: int = 0x4000;
    let e = msb * k + d;
    let pk = pow(p as int, k as nat);
    lemma_pow_positive(p as int, k as nat);
    lemma_pow_multiplies(p as int, k as nat, g);
    // From below.
    lemma_two_order(e, e);
    lemma_pow_base_order(two(e), pk, g);
    lemma_two_multiplies(e, g);
    assert(e * g == 64 * span() + l);
    // From above.
    let q: nat = 0x40_0000;
    let v: nat = 3721491651953;
    let h: int = 0x8000_0000_0000_0000;
    let rest: int = h - 0x7fff;
    let t = two(e + 1);
    lemma_two_order(e + 1, e + 1);
    lemma_small_loss(h, 0x7fff, q);
    assert(pk * rest >= 0) by (nonlinear_arith)
        requires
            pk > 0,
            rest > 0,
    ;
    lemma_pow_base_order(pk * rest, t * h, q);
    lemma_pow_distributes(pk, rest, q);
    lemma_pow_distributes(t, h, q);
    lemma_pow_positive(pk, q);
    lemma_pow_positive(t, q);
    lemma_pow_positive(h, q);
    let pq = pow(pk, q);
    let rq = pow(rest, q);
    let tq = pow(t, q);
    let hq = pow(h, q);
    assert(2 * rq >= hq) by (nonlinear_arith)
        requires
            rq * h >= hq * (h - 0x7fff * q),
            q == 0x40_0000,
            h == 0x8000_0000_0000_0000,
            hq > 0,
    ;
    assert(pq <= 2 * tq) by (nonlinear_arith)
        requires
            pq * rq <= tq * hq,
            2 * rq >= hq,
            hq > 0,
            pq > 0,
    {
        assert(pq * hq <= pq * (2 * rq));
        assert(pq * (2 * rq) == 2 * (pq * rq));
        assert(2 * (tq * hq) == (2 * tq) * hq);
    }
    lemma_two_multiplies(e + 1, q);
    lemma_two_adds(1, (e + 1) * q);
    lemma_pow_base_order(pq, two(1 + (e + 1) * q), v);
    lemma_pow_multiplies(pk, q, v);
    lemma_two_multiplies(1 + (e + 1) * q, v);
    assert(q * v == g) by (nonlinear_arith)
        requires
            q == 0x40_0000,
            v == 3721491651953,
            g == 15609067321753075712,
    ;
    assert((1 + (e + 1) * q) * v == 64 * span() + l + g + v);
    lemma_two_order(64 * span() + l + g + v, 64 * span() + l + g + rounding());
}

proof fn lemma_two_fourteen()
    ensures
        two(14) == 0x4000,
        two(13) == 0x2000,
{
    vstd::arithmetic::power2::lemma2_to64();
    vstd::arithmetic::power2::lemma_pow2(14);
    vstd::arithmetic::power2::lemma_pow2(13);
}

/// The Orca factor of the tick that is two to the `k`, with 96 fractional bits.
spec fn rise(k: nat) -> int {
    if k == 0 {
        ORCA_U1_POS_RATIO_Q96 as int
    } else {
        ORCA_POSITIVE_RATIOS_Q96[k as int] as int
    }
}

/// The Orca factor of the tick that is minus two to the `k`.
spec fn fall(k: nat) -> int {
    if k == 0 {
        ORCA_U1_NEG_RATIO as int
    } else {
        ORCA_NEGATIVE_RATIOS[k as int] as int
    }
}

/// The digits of the logarithm of the largest factor, square by square.
proof fn lemma_largest_digits()
    ensures
        leading_digits(17316090137155244447, 28) == 243939920,
        two(28) == 0x1000_0000,
{
    vstd::arithmetic::power2::lemma2_to64();
    vstd::arithmetic::power2::lemma_pow2(0);
    vstd::arithmetic::power2::lemma_pow2(1);
    vstd::arithmetic::power2::lemma_pow2(2);
    vstd::arithmetic::power2::lemma_pow2(3);
    vstd::arithmetic::power2::lemma_pow2(4);
    vstd::arithmetic::power2::lemma_pow2(5);
    vstd::arithmetic::power2::lemma_pow2(6);
    vstd::arithmetic::power2::lemma_pow2(7);
    vstd::arithmetic::power2::lemma_pow2(8);
    vstd::arithmetic::power2::lemma_pow2(9);
    vstd::arithmetic::power2::lemma_pow2(10);
    vstd::arithmetic::power2::lemma_pow2(11);
    vstd::arithmetic::power2::lemma_pow2(12);
    vstd::arithmetic::power2::lemma_pow2(13);
    vstd::arithmetic::power2::lemma_pow2(14);
    vstd::arithmetic::power2::lemma_pow2(15);
    vstd::arithmetic::power2::lemma_pow2(16);
    vstd::arithmetic::power2::lemma_pow2(17);
    vstd::arithmetic::power2::lemma_pow2(18);
    vstd::arithmetic::power2::lemma_pow2(19);
    vstd::arithmetic::power2::lemma_pow2(20);
    vstd::arithmetic::power2::lemma_pow2(21);
    vstd::arithmetic::power2::lemma_pow2(22);
    vstd::arithmetic::power2::lemma_pow2(23);
    vstd::arithmetic::power2::lemma_pow2(24);
    vstd::arithmetic::power2::lemma_pow2(25);
    vstd::arithmetic::power2::lemma_pow2(26);
    vstd::arithmetic::power2::lemma_pow2(27);
    vstd::arithmetic::power2::lemma_pow2(28);
    assert(leading_digits(11030937638018810778, 0) == 0);
    assert(leading_digits(10086745845454398501, 1) == 0);
    assert(leading_digits(9645403546447664477, 2) == 0);
    assert(leading_digits(9432027637495835566, 3) == 0);
    assert(leading_digits(9327116379810027002, 4) == 0);
    assert(leading_digits(13116971022460174017, 5) == 16);
    assert(leading_digits(10999213778120396477, 6) == 16);
    assert(leading_digits(14244285927241381752, 7) == 80);
    assert(leading_digits(11462126700847542197, 8) == 80);
    assert(leading_digits(10281996834053378895, 9) == 80);
    assert(leading_digits(13772050107535716455, 10) == 592);
    assert(leading_digits(11270525358296645760, 11) == 592);
    assert(leading_digits(14418893746080240501, 12) == 2640);
    assert(leading_digits(16308943643288286034, 13) == 6736);
    assert(leading_digits(17344939016908974245, 14) == 14928);
    assert(leading_digits(12648273617751538762, 15) == 14928);
    assert(leading_digits(10800913535458819426, 16) == 14928);
    assert(leading_digits(9981024189703035136, 17) == 14928);
    assert(leading_digits(13568986654166778378, 18) == 146000);
    assert(leading_digits(11187127069739464978, 19) == 146000);
    assert(leading_digits(14365447085822013404, 20) == 670288);
    assert(leading_digits(11510771605252520479, 21) == 670288);
    assert(leading_digits(10303791969294996263, 22) == 670288);
    assert(leading_digits(9748625888973495288, 23) == 670288);
    assert(leading_digits(13410086011813396774, 24) == 9058896);
    assert(leading_digits(11121430318676508552, 25) == 9058896);
    assert(leading_digits(14323204209331779760, 26) == 42613328);
    assert(leading_digits(16254737228421218384, 27) == 109722192);
    assert(leading_digits(17316090137155244447, 28) == 243939920);
}

/// The logarithm of the largest factor.
proof fn lemma_largest_rise()
    ensures
        at_least(rise(18), 96, 0x4_0000_0000_0000_0000_0000 - 8 * rounding()),
        at_most(rise(18), 96, 0x4_0000_0000_0000_0000_0000 + 8 * rounding()),
{
    let c = ORCA_POSITIVE_RATIOS_Q96[18];
    let p = c as int;
    assert(c == 38992368544603139932233054999993551);
    let len = bit_len(c as nat);
    crate::num::lemma_bit_len_bounds(c as nat);
    lemma_two_small();
    lemma_largest_digits();
    vstd::arithmetic::power2::lemma2_to64();
    vstd::arithmetic::power2::lemma_pow2(51);
    vstd::arithmetic::power2::lemma2_to64_rest();
    lemma_two_adds(50, 64);
    lemma_two_adds(51, 64);
    vstd::arithmetic::power2::lemma_pow2(50);
    vstd::arithmetic::power2::lemma_pow2(51);
    vstd::arithmetic::power2::lemma_pow2(len);
    vstd::arithmetic::power2::lemma_pow2((len - 1) as nat);
    assert(len == 115) by {
        if len <= 114 {
            lemma_two_order(len as int, 114);
        }
        if len >= 116 {
            lemma_two_order(115, len - 1);
        }
    }
    assert(vstd::arithmetic::power2::pow2(51) == 0x8_0000_0000_0000);
    assert(normalized(p) == p / 0x8_0000_0000_0000);
    assert(normalized(p) == 17316090137155244447);
    lemma_price_digits(c, 28);
    let k: int = 0x1000_0000;
    let e = 114 * k + 243939920;
    let g: nat = 952701862899968;
    let pk = pow(p, k as nat);
    lemma_pow_positive(p, k as nat);
    lemma_pow_multiplies(p, k as nat, g);
    lemma_two_order(e, e);
    lemma_pow_base_order(two(e), pk, g);
    lemma_two_multiplies(e, g);
    lemma_two_adds(1, e + 1);
    let t = two(e + 1);
    assert(pk <= 2 * t) by (nonlinear_arith)
        requires
            pk * (0x8000_0000_0000_0000 - (2 * k - 1)) <= t * 0x8000_0000_0000_0000,
            k == 0x1000_0000,
            pk > 0,
    ;
    lemma_pow_base_order(pk, two(e + 2), g);
    lemma_two_multiplies(e + 2, g);
    assert(k * g == span()) by (nonlinear_arith)
        requires
            k == 0x1000_0000,
            g == 952701862899968,
    ;
    lemma_two_order(96 * span() + 0x4_0000_0000_0000_0000_0000 - 8 * rounding(), e * g);
    lemma_two_order((e + 2) * g, 96 * span() + 0x4_0000_0000_0000_0000_0000 + 8 * rounding());
}

/// Whether a number is close to the square of another with 96 fractional bits.
spec fn near_square(c: int, d: int) -> bool {
    &&& (c * c) * 0x8000_0000 <= (d * 0x1_0000_0000_0000_0000_0000_0000) * 0x8000_0001
    &&& (d * 0x1_0000_0000_0000_0000_0000_0000) * 0x8000_0000 <= (c * c) * 0x8000_0001
}

/// Whether two numbers with 64 and 96 fractional bits multiply to nearly one.
spec fn near_inverse(c: int, d: int) -> bool {
    &&& (c * d) * 0x8000_0000 <= 0x1_0000_0000_0000_0000_0000_0000_0000_0000_0000_0000 * 0x8000_0001
    &&& 0x1_0000_0000_0000_0000_0000_0000_0000_0000_0000_0000 * 0x8000_0000 <= (c * d) * 0x8000_0001
}

/// Each factor is close to the square of the one before.
proof fn lemma_rise_squares(k: nat)
    requires
        k < 18,
    ensures
        near_square(rise(k), rise(k + 1)),
        rise(k) > 0,
        rise(k + 1) > 0,
{
    if k == 0 {
        assert(near_square(rise(0), rise(1)));
    } else if k == 1 {
        assert(near_square(rise(1), rise(2)));
    } else if k == 2 {
        assert(near_square(rise(2), rise(3)));
    } else if k == 3 {
        assert(near_square(rise(3), rise(4)));
    } else if k == 4 {
        assert(near_square(rise(4), rise(5)));
    } else if k == 5 {
        assert(near_square(rise(5), rise(6)));
    } else if k == 6 {
        assert(near_square(rise(6), rise(7)));
    } else if k == 7 {
        assert(near_square(rise(7), rise(8)));
    } else if k == 8 {
        assert(near_square(rise(8), rise(9)));
    } else if k == 9 {
        assert(near_square(rise(9), rise(10)));
    } else if k == 10 {
        assert(near_square(rise(10), rise(11)));
    } else if k == 11 {
        assert(near_square(rise(11), rise(12)));
    } else if k == 12 {
        assert(near_square(rise(12), rise(13)));
    } else if k == 13 {
        assert(near_square(rise(13), rise(14)));
    } else if k == 14 {
        assert(near_square(rise(14), rise(15)));
    } else if k == 15 {
        assert(near_square(rise(15), rise(16)));
    } else if k == 16 {
        assert(near_square(rise(16), rise(17)));
    } else {
        assert(near_square(rise(17), rise(18)));
    }
}

/// A factor and its counterpart multiply to nearly one.
proof fn lemma_fall_inverts(k: nat)
    requires
        k <= 18,
    ensures
        near_inverse(fall(k), rise(k)),
        fall(k) > 0,
        rise(k) > 0,
{
    if k == 0 {
        assert(near_inverse(fall(0), rise(0)));
    } else if k == 1 {
        assert(near_inverse(fall(1), rise(1)));
    } else if k == 2 {
        assert(near_inverse(fall(2), rise(2)));
    } else if k == 3 {
        assert(near_inverse(fall(3), rise(3)));
    } else if k == 4 {
        assert(near_inverse(fall(4), rise(4)));
    } else if k == 5 {
        assert(near_inverse(fall(5), rise(5)));
    } else if k == 6 {
        assert(near_inverse(fall(6), rise(6)));
    } else if k == 7 {
        assert(near_inverse(fall(7), rise(7)));
    } else if k == 8 {
        assert(near_inverse(fall(8), rise(8)));
    } else if k == 9 {
        assert(near_inverse(fall(9), rise(9)));
    } else if k == 10 {
        assert(near_inverse(fall(10), rise(10)));
    } else if k == 11 {
        assert(near_inverse(fall(11), rise(11)));
    } else if k == 12 {
        assert(near_inverse(fall(12), rise(12)));
    } else if k == 13 {
        assert(near_inverse(fall(13), rise(13)));
    } else if k == 14 {
        assert(near_inverse(fall(14), rise(14)));
    } else if k == 15 {
        assert(near_inverse(fall(15), rise(15)));
    } else if k == 16 {
        assert(near_inverse(fall(16), rise(16)));
    } else if k == 17 {
        assert(near_inverse(fall(17), rise(17)));
    } else {
        assert(near_inverse(fall(18), rise(18)));
    }
}

/// Roots keep the order.
proof fn lemma_roots_at_most(x: int, e: int)
    requires
        x >= 0,
        e >= 0,
        x * x <= two(2 * e),
    ensures
        x <= two(e),
{
    lemma_two_adds(e, e);
    let y = two(e);
    assert(x <= y) by (nonlinear_arith)
        requires
            x * x <= y * y,
            x >= 0,
            y > 0,
    ;
}

proof fn lemma_roots_at_least(x: int, e: int)
    requires
        x >= 0,
        e >= 0,
        x * x >= two(2 * e),
    ensures
        x >= two(e),
{
    lemma_two_adds(e, e);
    let y = two(e);
    assert(x >= y) by (nonlinear_arith)
        requires
            x * x >= y * y,
            x >= 0,
            y > 0,
    ;
}

/// The logarithm of two to the `k` ticks.
spec fn steps(k: nat) -> int {
    two(k as int) * two64()
}

proof fn lemma_steps(k: nat)
    requires
        k <= 18,
    ensures
        0 < steps(k) <= 0x4_0000_0000_0000_0000_0000,
        k < 18 ==> steps(k + 1) == 2 * steps(k),
        steps(18) == 0x4_0000_0000_0000_0000_0000,
{
    vstd::arithmetic::power2::lemma2_to64();
    vstd::arithmetic::power2::lemma_pow2(18);
    lemma_two_order(k as int, 18);
    lemma_two_adds(1, k as int);
    lemma_two_small();
}

/// The logarithms of the factors above one.
proof fn lemma_rise_log(k: nat)
    requires
        k <= 18,
    ensures
        at_least(rise(k), 96, steps(k) - 8 * rounding()),
        at_most(rise(k), 96, steps(k) + 8 * rounding()),
    decreases 18 - k,
{
    lemma_steps(k);
    if k == 18 {
        lemma_largest_rise();
    } else {
        let w = span() as int;
        let r = rounding();
        let a = steps(k);
        lemma_rise_log(k + 1);
        lemma_rise_squares(k);
        lemma_two_small();
        let c = rise(k);
        let d = rise(k + 1);
        let m: int = 0x1_0000_0000_0000_0000_0000_0000;
        assert(c * c > 0 && d * m > 0) by (nonlinear_arith)
            requires
                c > 0,
                d > 0,
                m > 0,
        ;
        lemma_close(d * m, c * c);
        lemma_close(c * c, d * m);
        lemma_pow_distributes(c, c, span());
        lemma_pow_distributes(d, m, span());
        lemma_two_multiplies(96, span());
        lemma_pow_positive(c, span());
        let x = pow(c, span());
        let y = pow(d, span());
        let u = two(96 * w);
        let e = two(r);
        // From above.
        lemma_two_adds(96 * w + 2 * a + 8 * r, 96 * w);
        lemma_two_adds(192 * w + 2 * a + 8 * r, r);
        assert(x * x <= (two(96 * w + 2 * a + 8 * r) * u) * e) by (nonlinear_arith)
            requires
                x * x <= (y * u) * e,
                y <= two(96 * w + 2 * a + 8 * r),
                u > 0,
                e > 0,
        {
            assert(y * u <= two(96 * w + 2 * a + 8 * r) * u);
        }
        lemma_two_order(192 * w + 2 * a + 9 * r, 2 * (96 * w + a + 8 * r));
        lemma_roots_at_most(x, 96 * w + a + 8 * r);
        // From below.
        lemma_two_adds(96 * w + 2 * a - 8 * r, 96 * w);
        assert((x * x) * e >= two(96 * w + 2 * a - 8 * r) * u) by (nonlinear_arith)
            requires
                y * u <= (x * x) * e,
                y >= two(96 * w + 2 * a - 8 * r),
                u > 0,
        ;
        lemma_cancel_least(x * x, r, 192 * w + 2 * a - 8 * r);
        lemma_two_order(2 * (96 * w + a - 8 * r), 192 * w + 2 * a - 9 * r);
        lemma_roots_at_least(x, 96 * w + a - 8 * r);
    }
}

/// The logarithms of the factors below one.
proof fn lemma_fall_log(k: nat)
    requires
        k <= 18,
    ensures
        at_least(fall(k), 64, -steps(k) - 9 * rounding()),
        at_most(fall(k), 64, -steps(k) + 9 * rounding()),
{
    let w = span() as int;
    let r = rounding();
    let a = steps(k);
    lemma_steps(k);
    lemma_rise_log(k);
    lemma_fall_inverts(k);
    lemma_two_small();
    lemma_two_adds(64, 96);
    let c = fall(k);
    let d = rise(k);
    let m = two(160);
    assert(m == 0x1_0000_0000_0000_0000_0000_0000_0000_0000_0000_0000);
    assert(c * d > 0) by (nonlinear_arith)
        requires
            c > 0,
            d > 0,
    ;
    lemma_close(m, c * d);
    lemma_close(c * d, m);
    lemma_pow_distributes(c, d, span());
    lemma_two_multiplies(160, span());
    lemma_pow_positive(c, span());
    lemma_pow_positive(d, span());
    let x = pow(c, span());
    let y = pow(d, span());
    let e = two(r);
    // From above.
    lemma_two_adds(160 * w, r);
    let lo = two(96 * w + a - 8 * r);
    assert(x * lo <= two(160 * w) * e) by (nonlinear_arith)
        requires
            x * y <= two(160 * w) * e,
            y >= lo,
            x > 0,
    ;
    lemma_cancel_most(x, 96 * w + a - 8 * r, 160 * w + r);
    // From below.
    lemma_two_adds(96 * w + a + 8 * r, r);
    let hi = two(96 * w + a + 8 * r);
    assert(x * (hi * e) >= two(160 * w)) by (nonlinear_arith)
        requires
            two(160 * w) <= (x * y) * e,
            y <= hi,
            x > 0,
            e > 0,
    {
        assert(x * y <= x * hi);
        assert((x * y) * e <= (x * hi) * e);
        assert((x * hi) * e == x * (hi * e));
    }
    lemma_cancel_least(x, 96 * w + a + 9 * r, 160 * w);
}

/// The lowest bits of a number, with one more.
proof fn lemma_low_bits(n: int, k: nat)
    requires
        n >= 0,
    ensures
        n % two((k + 1) as int) == n % two(k as int) + (if has_bit(n, k) {
            two(k as int)
        } else {
            0
        }),
        0 <= n % two(k as int) <= n,
        0 <= n % two((k + 1) as int) <= n,
{
    let m = two(k as int);
    lemma_two_adds(k as int, 1);
    lemma_two_small();
    vstd::arithmetic::power2::lemma_pow2(k);
    let q = n / m;
    vstd::arithmetic::div_mod::lemma_fundamental_div_mod(n, m);
    vstd::arithmetic::div_mod::lemma_mod_bound(n, m);
    vstd::arithmetic::div_mod::lemma_div_denominator(n, m, 2);
    vstd::arithmetic::div_mod::lemma_fundamental_div_mod(n, m * 2);
    vstd::arithmetic::div_mod::lemma_mod_bound(n, m * 2);
    vstd::arithmetic::div_mod::lemma_mod_decreases(n as nat, m as nat);
    vstd::arithmetic::div_mod::lemma_mod_decreases(n as nat, (m * 2) as nat);
    let h = q / 2;
    assert((m * 2) * h == m * q - m * (q % 2)) by (nonlinear_arith)
        requires
            q == 2 * h + q % 2,
    ;
    if q % 2 == 1 {
        assert(m * (q % 2) == m);
    } else {
        assert(m * (q % 2) == 0);
    }
}

/// How far the product of `k + 1` factors can be off.
spec fn drift(k: nat) -> int {
    (10 * (k + 1)) * rounding()
}

/// The logarithms of the products of factors above one.
proof fn lemma_positive_log(n: int, k: nat)
    requires
        0 <= n <= 443636,
        k <= 18,
    ensures
        at_least(orca_positive_ratio(n, k), 96, (n % two((k + 1) as int)) * two64() - drift(k)),
        at_most(orca_positive_ratio(n, k), 96, (n % two((k + 1) as int)) * two64() + drift(k)),
    decreases k,
{
    lemma_two_small();
    lemma_low_bits(n, k);
    lemma_steps(k);
    lemma_rise_log(k);
    let w = span() as int;
    let r = rounding();
    if k == 0 {
        lemma_two_multiplies(96, span());
        vstd::arithmetic::power2::lemma_pow2(0);
        assert(has_bit(n, 0) == (n % 2 == 1));
        let p = orca_positive_ratio(n, 0);
        let a = (n % 2) * two64();
        lemma_two_order(96 * w + a - 10 * r, 96 * w + a - 8 * r);
        lemma_two_order(96 * w + a - 10 * r, 96 * w + a);
        lemma_two_order(96 * w + a, 96 * w + a + 10 * r);
        lemma_two_order(96 * w + a + 8 * r, 96 * w + a + 10 * r);
    } else {
        let j = (k - 1) as nat;
        lemma_positive_log(n, j);
        let x = orca_positive_ratio(n, j);
        let a = (n % two(k as int)) * two64();
        let e = drift(j);
        if has_bit(n, k) {
            let c = steps(k);
            lemma_rounded_product(x, rise(k), 96, a - e, a + e, c - 8 * r, c + 8 * r);
            let z = (x * rise(k)) / 0x1_0000_0000_0000_0000_0000_0000;
            // The product stays within 128 bits.
            lemma_two_multiplies(128, span());
            if z >= two(128) {
                lemma_pow_base_order(two(128), z, span());
                lemma_two_order_back(128 * w, 96 * w + a + e + (c + 8 * r));
            }
            assert(wrap128(z) == z);
            assert((n % two((k + 1) as int)) * two64() == a + c);
            lemma_two_order(96 * w + a + c - drift(k), 96 * w + (a - e + (c - 8 * r) - r));
            lemma_two_order(96 * w + (a + e + (c + 8 * r)), 96 * w + a + c + drift(k));
        } else {
            lemma_two_order(96 * w + a - drift(k), 96 * w + a - e);
            lemma_two_order(96 * w + a + e, 96 * w + a + drift(k));
        }
    }
}

/// The logarithms of the products of factors below one.
proof fn lemma_negative_log(n: int, k: nat)
    requires
        0 <= n <= 443640,
        k <= 18,
    ensures
        at_least(orca_negative_ratio(n, k), 64, -((n % two((k + 1) as int)) * two64()) - drift(k)),
        at_most(orca_negative_ratio(n, k), 64, -((n % two((k + 1) as int)) * two64()) + drift(k)),
    decreases k,
{
    lemma_two_small();
    lemma_low_bits(n, k);
    lemma_steps(k);
    lemma_fall_log(k);
    let w = span() as int;
    let r = rounding();
    if k == 0 {
        lemma_two_multiplies(64, span());
        vstd::arithmetic::power2::lemma_pow2(0);
        assert(has_bit(n, 0) == (n % 2 == 1));
        let a = (n % 2) * two64();
        lemma_two_order(64 * w - a - 10 * r, 64 * w - a - 9 * r);
        lemma_two_order(64 * w - a - 10 * r, 64 * w - a);
        lemma_two_order(64 * w - a, 64 * w - a + 10 * r);
        lemma_two_order(64 * w - a + 9 * r, 64 * w - a + 10 * r);
    } else {
        let j = (k - 1) as nat;
        lemma_negative_log(n, j);
        let x = orca_negative_ratio(n, j);
        let a = (n % two(k as int)) * two64();
        let e = drift(j);
        if has_bit(n, k) {
            let c = steps(k);
            assert((n % two((k + 1) as int)) * two64() == a + c);
            lemma_rounded_product(x, fall(k), 64, -a - e, -a + e, -c - 9 * r, -c + 9 * r);
            lemma_two_order(64 * w - (a + c) - drift(k), 64 * w + (-a - e + (-c - 9 * r) - r));
            lemma_two_order(64 * w + (-a + e + (-c + 9 * r)), 64 * w - (a + c) + drift(k));
        } else {
            lemma_two_order(64 * w - a - drift(k), 64 * w - a - e);
            lemma_two_order(64 * w - a + e, 64 * w - a + drift(k));
        }
    }
}

/// Dropping 32 fractional bits keeps the logarithm to a rounding.
proof fn lemma_shifted_log(x: int, a: int, b: int)
    requires
        at_least(x, 96, a),
        at_most(x, 96, b),
        a >= -span(),
    ensures
        at_least(x / 0x1_0000_0000, 64, a - rounding()),
        at_most(x / 0x1_0000_0000, 64, b),
{
    let w = span() as int;
    let z = x / 0x1_0000_0000;
    lemma_two_small();
    lemma_two_multiplies(32, span());
    lemma_two_multiplies(96, span());
    lemma_pow_distributes(z, 0x1_0000_0000, span());
    lemma_pow_distributes(z + 1, 0x1_0000_0000, span());
    lemma_pow_base_order(z * 0x1_0000_0000, x, span());
    lemma_pow_base_order(x, (z + 1) * 0x1_0000_0000, span());
    lemma_two_order_back(96 * w + a, 96 * w + b);
    lemma_cancel_most(pow(z, span()), 32 * w, 96 * w + b);
    lemma_cancel_least(pow(z + 1, span()), 32 * w, 96 * w + a);
    lemma_two_multiplies(31, span());
    if z + 1 <= 0x8000_0000 {
        lemma_pow_base_order(z + 1, 0x8000_0000, span());
        lemma_two_order_back(64 * w + a, 31 * w);
    }
    lemma_close(z, z + 1);
    lemma_cancel_least(pow(z, span()), rounding(), 64 * w + a);
}

/// The logarithm of the price of a tick.
proof fn lemma_tick_log(t: int)
    requires
        -443640 <= t <= 443636,
    ensures
        at_least(orca_price(t), 64, t * two64() - 200 * rounding()),
        at_most(orca_price(t), 64, t * two64() + 200 * rounding()),
{
    let n = iabs(t);
    let w = span() as int;
    let r = rounding();
    vstd::arithmetic::power2::lemma2_to64();
    vstd::arithmetic::power2::lemma_pow2(19);
    assert(two(19) == 0x8_0000);
    vstd::arithmetic::div_mod::lemma_small_mod(n as nat, 0x8_0000);
    if t >= 0 {
        lemma_positive_log(n, 18);
        lemma_shifted_log(orca_positive_ratio(n, 18), t * two64() - 190 * r, t * two64() + 190 * r);
        lemma_two_order(64 * w + t * two64() - 200 * r, 64 * w + t * two64() - 191 * r);
        lemma_two_order(64 * w + t * two64() + 190 * r, 64 * w + t * two64() + 200 * r);
    } else {
        lemma_negative_log(n, 18);
        lemma_two_order(64 * w + t * two64() - 200 * r, 64 * w + t * two64() - 190 * r);
        lemma_two_order(64 * w + t * two64() + 190 * r, 64 * w + t * two64() + 200 * r);
    }
}

/// A price below that of a tick has a logarithm below the upper margin of the
/// tick.
proof fn lemma_below_tick(p: u128, t: int)
    requires
        p > 0,
        -443640 <= t <= 443636,
        p <= orca_price(t),
    ensures
        log_base_tick(p as int) < t * two64() + LOG_B_P_ERR_MARGIN_LOWER_X64,
{
    lemma_price_log(p);
    lemma_tick_log(t);
    lemma_pow_base_order(p as int, orca_price(t), span());
    lemma_two_order_back(
        64 * span() + log_base_tick(p as int),
        64 * span() + (t * two64() + 200 * rounding()),
    );
}

/// A price not below that of a tick has a logarithm above the lower margin of
/// the tick.
proof fn lemma_above_tick(p: u128, t: int)
    requires
        p > 0,
        -443640 <= t <= 443636,
        p >= orca_price(t),
    ensures
        log_base_tick(p as int) + LOG_B_P_ERR_MARGIN_UPPER_X64 >= t * two64(),
{
    lemma_price_log(p);
    lemma_tick_log(t);
    lemma_pow_base_order(orca_price(t), p as int, span());
    lemma_two_order_back(
        64 * span() + (t * two64() - 200 * rounding()),
        64 * span() + (log_base_tick(p as int) + 15609067321753075712 + rounding()),
    );
}

/// Between the prices of the lowest and the highest tick, the tick of a price
/// is the greatest one whose Orca price is not above it. Beyond the highest
/// tick Orca prices leave their 128 bits, so that nothing is said of a price
/// there.
pub proof fn law_tick_is_greatest_below(p: u128)
    requires
        orca_price(MIN_TICK_INDEX as int) <= p <= orca_price(MAX_TICK_INDEX as int),
    ensures
        MIN_TICK_INDEX <= tick_of_price(p as int) <= MAX_TICK_INDEX,
        orca_price(tick_of_price(p as int)) <= p,
        tick_of_price(p as int) < MAX_TICK_INDEX ==> p < orca_price(tick_of_price(p as int) + 1),
{
    lemma_tick_log(-443636);
    let l = log_base_tick(p as int);
    let low = (l - LOG_B_P_ERR_MARGIN_LOWER_X64) / two64();
    let high = (l + LOG_B_P_ERR_MARGIN_UPPER_X64) / two64();
    lemma_above_tick(p, -443636);
    lemma_below_tick(p, 443636);
    assert(-443637 <= low <= high <= low + 1 && -443636 <= high <= 443636);
    // The lower candidate is not above the price.
    if p < orca_price(low) {
        lemma_below_tick(p, low);
        assert(false);
    }
    // The tick behind the upper candidate is above it.
    if high < 443636 && p >= orca_price(high + 1) {
        lemma_above_tick(p, high + 1);
        assert(false);
    }
}

/// The Orca price of a higher tick is higher.
pub proof fn law_tick_prices_increase(s: int, t: int)
    requires
        MIN_TICK_INDEX <= s < t <= MAX_TICK_INDEX,
    ensures
        0 < orca_price(s) < orca_price(t) <= u128::MAX,
{
    let w = span() as int;
    let r = rounding();
    lemma_tick_log(s);
    lemma_tick_log(t);
    lemma_two_small();
    if orca_price(t) <= orca_price(s) {
        lemma_pow_base_order(orca_price(t), orca_price(s), span());
        lemma_two_order_back(64 * w + (t * two64() - 200 * r), 64 * w + (s * two64() + 200 * r));
    }
    lemma_two_multiplies(128, span());
    if orca_price(t) >= two(128) {
        lemma_pow_base_order(two(128), orca_price(t), span());
        lemma_two_order_back(128 * w, 64 * w + (t * two64() + 200 * r));
    }
}

/// The tick of a tick's own price is that tick.
pub proof fn law_tick_of_its_price(t: int)
    requires
        MIN_TICK_INDEX <= t <= MAX_TICK_INDEX,
    ensures
        tick_of_price(orca_price(t)) == t,
{
    if t > MIN_TICK_INDEX {
        law_tick_prices_increase(MIN_TICK_INDEX as int, t);
    }
    if t < MAX_TICK_INDEX {
        law_tick_prices_increase(t, MAX_TICK_INDEX as int);
    }
    law_tick_is_greatest_below(orca_price(t) as u128);
    let found = tick_of_price(orca_price(t));
    if found > t {
        law_tick_prices_increase(t, found);
    } else if found < t {
        if found + 1 < t {
            law_tick_prices_increase(found + 1, t);
        }
    }
}

}
