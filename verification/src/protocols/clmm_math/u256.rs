//! The two-limb 256-bit integer of the liquidity formulas.
use vstd::arithmetic::power2::{lemma2_to64, lemma_pow2_adds, lemma_pow2_pos, lemma_pow2_unfold, pow2};
use vstd::prelude::*;

use crate::num::{wrap128, wrap64};

verus! {

/// Two to the 64th power.
pub open spec fn two64() -> int {
    0x1_0000_0000_0000_0000
}

/// Two to the 128th power.
pub open spec fn two128() -> int {
    0x1_0000_0000_0000_0000_0000_0000_0000_0000int
}

/// Two to the 256th power.
pub open spec fn two256() -> int {
    0x1_0000_0000_0000_0000_0000_0000_0000_0000_0000_0000_0000_0000_0000_0000_0000_0000int
}

pub proof fn lemma_pow2_128()
    ensures
        pow2(64) == two64(),
        pow2(128) == two128(),
        pow2(256) == two256(),
{
    lemma2_to64();
    lemma_pow2_adds(64, 64);
    lemma_pow2_adds(128, 128);
    assert(pow2(128) * pow2(128) == two128() * two128());
    assert(two128() * two128() == two256()) by (nonlinear_arith);
}

/// An unsigned 256-bit integer, ordered by its high half first.
#[derive(Clone, Copy, Debug, PartialEq, Eq, PartialOrd, Ord, Structural)]
pub struct U256 {
    hi: u128,
    lo: u128,
}

/// A left shift of a machine word keeps the low 128 bits of the product.
pub proof fn lemma_shl128(x: u128, n: u32)
    requires
        n < 128,
    ensures
        (x << n) == wrap128(x * pow2(n as nat)),
    decreases n,
{
    if n == 0 {
        assert(x << 0u32 == x) by (bit_vector);
        lemma2_to64();
        assert(x * pow2(0) == x) by (nonlinear_arith)
            requires
                pow2(0) == 1,
        ;
    } else {
        let m = (n - 1) as u32;
        lemma_shl128(x, m);
        let y = x << m;
        assert(x << n == (y % 0x8000_0000_0000_0000_0000_0000_0000_0000u128) * 2) by (bit_vector)
            requires
                y == x << m,
                m + 1 == n,
                0 < n < 128,
        ;
        lemma_pow2_unfold(n as nat);
        let p = pow2(m as nat) as int;
        assert(x * pow2(n as nat) == x * (2 * p));
        assert(x * (2 * p) == (x * p) * 2) by (nonlinear_arith);
        let z = x * p;
        assert(((z % two128()) % 0x8000_0000_0000_0000_0000_0000_0000_0000) * 2 == (z * 2) % two128());
    }
}

/// Taking a number of two halves apart again.
pub proof fn lemma_halves(hi: int, lo: int)
    requires
        0 <= lo < two128(),
    ensures
        (hi * two128() + lo) / two128() == hi,
        (hi * two128() + lo) % two128() == lo,
        (hi * two128() + lo) % two64() == lo % two64(),
{
    vstd::arithmetic::div_mod::lemma_fundamental_div_mod_converse(hi * two128() + lo, two128(), hi, lo);
    assert(hi * two128() == two64() * (hi * two64()));
    vstd::arithmetic::div_mod::lemma_mod_multiples_vanish(hi * two64(), lo, two64());
}

/// A right shift of a machine word divides it.
proof fn lemma_shr128(x: u128, n: u32)
    requires
        n < 128,
    ensures
        (x >> n) == x as int / pow2(n as nat) as int,
{
    vstd::bits::lemma_u128_shr_is_div(x, n as u128);
}

impl U256 {
    /// The number that the two halves stand for.
    #[verifier::opaque]
    pub closed spec fn value(self) -> int {
        self.hi * two128() + self.lo
    }

    /// Every value fits in 256 bits.
    pub proof fn lemma_value_range(self)
        ensures
            0 <= self.value() < two256(),
    {
        reveal(U256::value);
    }

    pub fn zero() -> (r: Self)
        ensures
            r.value() == 0,
    {
        proof {
            reveal(U256::value);
        }
        U256 { hi: 0, lo: 0 }
    }

    pub fn from_u128(v: u128) -> (r: Self)
        ensures
            r.value() == v,
    {
        proof {
            reveal(U256::value);
        }
        U256 { hi: 0, lo: v }
    }

    #[verifier::spinoff_prover]
    pub fn low_u64(self) -> (r: u64)
        ensures
            r == wrap64(self.value()),
    {
        proof {
            reveal(U256::value);
        }
        proof {
            lemma_halves(self.hi as int, self.lo as int);
        }
        (self.lo % 0x1_0000_0000_0000_0000) as u64
    }

    pub fn from_halves(hi: u128, lo: u128) -> (r: Self)
        ensures
            r.value() == hi * two128() + lo,
    {
        proof {
            reveal(U256::value);
        }
        U256 { hi, lo }
    }

    /// The high half.
    pub fn high_u128(self) -> (r: u128)
        ensures
            r == self.value() / two128(),
    {
        proof {
            reveal(U256::value);
            lemma_halves(self.hi as int, self.lo as int);
        }
        self.hi
    }

    /// The low half.
    pub fn low_u128(self) -> (r: u128)
        ensures
            r == wrap128(self.value()),
    {
        proof {
            reveal(U256::value);
            lemma_halves(self.hi as int, self.lo as int);
        }
        self.lo
    }

    pub fn is_zero(self) -> (r: bool)
        ensures
            r == (self.value() == 0),
    {
        proof {
            reveal(U256::value);
        }
        self.lo == 0 && self.hi == 0
    }

    /// Left shift; bits above the 256th are lost.
    #[verifier::spinoff_prover]
    pub fn shl(self, n: u32) -> (r: Self)
        ensures
            r.value() == (self.value() * pow2(n as nat)) % two256(),
    {
        proof {
            reveal(U256::value);
        }
        if n >= 256 {
            proof {
                lemma_shl_all_lost(self.value(), n as nat);
            }
            return U256::zero();
        }
        if n >= 128 {
            let hi = self.lo << (n - 128);
            proof {
                lemma_shl128(self.lo, (n - 128) as u32);
                lemma_shl_wide(self.hi as int, self.lo as int, n as nat);
            }
            U256 { hi, lo: 0 }
        } else if n == 0 {
            proof {
                lemma2_to64();
                self.lemma_value_range();
                assert(self.value() * pow2(0) == self.value()) by (nonlinear_arith)
                    requires
                        pow2(0) == 1,
                ;
            }
            self
        } else {
            let lo = self.lo << n;
            let up = self.hi << n;
            let over = self.lo >> (128 - n);
            proof {
                lemma_shl128(self.lo, n);
                lemma_shl128(self.hi, n);
                lemma_shr128(self.lo, (128 - n) as u32);
                lemma_shl_narrow(self.hi as int, self.lo as int, n as nat);
                lemma_or_low(self.hi, n, over);
            }
            U256 { hi: up | over, lo }
        }
    }

    /// Right shift.
    #[verifier::spinoff_prover]
    pub fn shr(self, n: u32) -> (r: Self)
        ensures
            r.value() == self.value() / pow2(n as nat) as int,
    {
        proof {
            reveal(U256::value);
        }
        if n >= 256 {
            proof {
                lemma_shr_all_lost(self.value(), n as nat);
            }
            return U256::zero();
        }
        if n >= 128 {
            proof {
                lemma_shr128(self.hi, (n - 128) as u32);
                lemma_shr_wide(self.hi as int, self.lo as int, n as nat);
            }
            U256 { hi: 0, lo: self.hi >> (n - 128) }
        } else if n == 0 {
            proof {
                lemma2_to64();
            }
            self
        } else {
            let down = self.lo >> n;
            let over = self.hi << (128 - n);
            let hi = self.hi >> n;
            proof {
                lemma_shr128(self.lo, n);
                lemma_shr128(self.hi, n);
                lemma_shl128(self.hi, (128 - n) as u32);
                lemma_shr_narrow(self.hi as int, self.lo as int, n as nat);
                lemma_or_low(self.hi, (128 - n) as u32, down);
            }
            U256 { hi, lo: down | over }
        }
    }
}

/// The `i`-th 64-bit digit of a number, counted from the lowest.
pub open spec fn digit(v: int, i: nat) -> int {
    if i == 0 {
        v % two64()
    } else if i == 1 {
        (v / two64()) % two64()
    } else if i == 2 {
        (v / two128()) % two64()
    } else {
        ((v / two128()) / two64()) % two64()
    }
}

/// The four digits of a number of 256 bits.
pub struct Digits {
    pub d0: int,
    pub d1: int,
    pub d2: int,
    pub d3: int,
}

pub open spec fn digits(v: int) -> Digits {
    Digits { d0: digit(v, 0), d1: digit(v, 1), d2: digit(v, 2), d3: digit(v, 3) }
}

/// The partial products of the two lowest digits, at their places.
pub open spec fn mul_low(a: Digits, b: Digits) -> int {
    a.d0 * b.d0 + (a.d0 * b.d1 + a.d1 * b.d0) * two64()
}

/// What `mul` gathers at the third digit before the cross terms.
pub open spec fn mul_middle(a: Digits, b: Digits) -> int {
    mul_low(a, b) / two128() + wrap64(a.d0 * b.d2) + wrap64(a.d1 * b.d1) + wrap64(a.d2 * b.d0)
}

/// What `mul` writes, cut to 64 bits, at the third digit.
pub open spec fn mul_third(a: Digits, b: Digits) -> int {
    mul_middle(a, b) + (a.d3 * b.d0 + a.d2 * b.d1 + a.d1 * b.d2)
}

/// What `mul` writes, cut to 64 bits, at the fourth digit.
pub open spec fn mul_fourth(a: Digits, b: Digits) -> int {
    mul_middle(a, b) / two64() + (a.d0 * b.d2) / two64() + (a.d1 * b.d1) / two64() + (a.d2 * b.d0) / two64() + (
    a.d3 * b.d1 + a.d2 * b.d2)
}

pub open spec fn mul_digits(a: Digits, b: Digits) -> int {
    wrap128(mul_low(a, b)) + (wrap64(mul_third(a, b)) + wrap64(mul_fourth(a, b)) * two64()) * two128()
}

/// The result of `mul` on two numbers of 256 bits.
pub open spec fn mul_value(a: int, b: int) -> int {
    mul_digits(digits(a), digits(b))
}

/// Whether the sums inside `mul` stay within 128 bits.
pub open spec fn mul_fits(a: int, b: int) -> bool {
    &&& mul_third(digits(a), digits(b)) < two128()
    &&& mul_fourth(digits(a), digits(b)) < two128()
}

/// On factors of 128 bits `mul` stays within its limits and gives the exact
/// product.
pub proof fn lemma_mul_exact(a: int, b: int)
    requires
        0 <= a < two128(),
        0 <= b < two128(),
    ensures
        mul_fits(a, b),
        mul_value(a, b) == a * b,
{
    let x = digits(a);
    let y = digits(b);
    lemma_short_digits(a);
    lemma_short_digits(b);
    lemma_product_of_pairs(x.d1, x.d0, y.d1, y.d0, two64());
    lemma_product_bound(a, two128(), b, two128());
    assert(two64() * two64() == two128() && two128() * two128() == two256());
    lemma_mul_short(x, y, a * b);
}

proof fn lemma_digits(hi: int, lo: int)
    requires
        0 <= hi < two128(),
        0 <= lo < two128(),
    ensures
        ({
            let x = digits(hi * two128() + lo);
            &&& x.d0 == lo % two64()
            &&& x.d1 == lo / two64()
            &&& x.d2 == hi % two64()
            &&& x.d3 == hi / two64()
        }),
{
    let v = hi * two128() + lo;
    lemma_halves(hi, lo);
    let q = lo / two64();
    let r = lo % two64();
    assert(lo == q * two64() + r && 0 <= q < two64());
    assert(v == (hi * two64() + q) * two64() + r);
    vstd::arithmetic::div_mod::lemma_fundamental_div_mod_converse(v, two64(), hi * two64() + q, r);
    assert(hi * two64() + q == two64() * hi + q);
    vstd::arithmetic::div_mod::lemma_mod_multiples_vanish(hi, q, two64());
    assert(0 <= hi / two64() < two64());
}

proof fn lemma_short_digits(a: int)
    requires
        0 <= a < two128(),
    ensures
        digits(a).d2 == 0,
        digits(a).d3 == 0,
        0 <= digits(a).d0 < two64(),
        0 <= digits(a).d1 < two64(),
        a == digits(a).d1 * two64() + digits(a).d0,
{
    assert(a / two128() == 0);
    assert(a / two64() < two64());
}

proof fn lemma_mul_short(x: Digits, y: Digits, product: int)
    requires
        x.d2 == 0,
        x.d3 == 0,
        y.d2 == 0,
        0 <= x.d0 < two64(),
        0 <= x.d1 < two64(),
        0 <= y.d0 < two64(),
        0 <= y.d1 < two64(),
        product == (x.d1 * y.d1) * two128() + mul_low(x, y),
        product < two256(),
    ensures
        mul_third(x, y) < two128(),
        mul_fourth(x, y) < two128(),
        mul_digits(x, y) == product,
{
    let p11 = x.d1 * y.d1;
    let low = mul_low(x, y);
    lemma_digit_product(x.d0, y.d0);
    lemma_digit_product(x.d0, y.d1);
    lemma_digit_product(x.d1, y.d0);
    lemma_digit_product(x.d1, y.d1);
    lemma_times_zero(x.d0);
    lemma_times_zero(x.d1);
    lemma_times_zero(y.d0);
    lemma_times_zero(y.d1);
    lemma_times_zero(0);
    let mid = mul_middle(x, y);
    assert(mid == low / two128() + p11 % two64());
    assert(mul_third(x, y) == mid);
    assert(mul_fourth(x, y) == mid / two64() + p11 / two64());
    lemma_upper_half(low, p11);
}

proof fn lemma_upper_half(low: int, p11: int)
    requires
        0 <= low,
        0 <= p11,
        p11 * two128() + low < two256(),
    ensures
        ({
            let mid = low / two128() + p11 % two64();
            let fourth = mid / two64() + p11 / two64();
            &&& 0 <= fourth < two64()
            &&& 0 <= mid < two128()
            &&& low % two128() + (mid % two64() + fourth * two64()) * two128() == p11 * two128() + low
        }),
{
    let c = low / two128();
    assert(low == c * two128() + low % two128());
    assert(c + p11 < two128());
    let mid = c + p11 % two64();
    assert(p11 == (p11 / two64()) * two64() + p11 % two64());
    assert(mid == (mid / two64()) * two64() + mid % two64());
    let fourth = mid / two64() + p11 / two64();
    assert(mid % two64() + fourth * two64() == c + p11);
}

proof fn lemma_times_zero(x: int)
    ensures
        x * 0 == 0,
        0 * x == 0,
{
}

proof fn lemma_product_of_pairs(a1: int, a0: int, b1: int, b0: int, t: int)
    ensures
        (a1 * t + a0) * (b1 * t + b0) == (a1 * b1) * (t * t) + (a0 * b0 + (a0 * b1 + a1 * b0) * t),
{
    let x = a1 * t + a0;
    vstd::arithmetic::mul::lemma_mul_is_distributive_add(x, b1 * t, b0);
    vstd::arithmetic::mul::lemma_mul_is_associative(x, b1, t);
    vstd::arithmetic::mul::lemma_mul_is_distributive_add_other_way(b1, a1 * t, a0);
    vstd::arithmetic::mul::lemma_mul_is_distributive_add_other_way(b0, a1 * t, a0);
    assert((a1 * t) * b1 == (a1 * b1) * t) by (nonlinear_arith);
    assert((a1 * t) * b0 == (a1 * b0) * t) by (nonlinear_arith);
    vstd::arithmetic::mul::lemma_mul_is_distributive_add_other_way(t, (a1 * b1) * t, a0 * b1);
    vstd::arithmetic::mul::lemma_mul_is_associative(a1 * b1, t, t);
    vstd::arithmetic::mul::lemma_mul_is_distributive_add_other_way(t, a0 * b1, a1 * b0);
}

proof fn lemma_product_bound(a: int, a_end: int, b: int, b_end: int)
    requires
        0 <= a < a_end,
        0 <= b < b_end,
    ensures
        0 <= a * b < a_end * b_end,
        a * b <= (a_end - 1) * (b_end - 1),
{
    assert(0 <= a * b < a_end * b_end && a * b <= (a_end - 1) * (b_end - 1)) by (nonlinear_arith)
        requires
            0 <= a < a_end,
            0 <= b < b_end,
    ;
}

proof fn lemma_three_times(d: int, x: int, s: int, y: int, t: int, z: int)
    ensures
        (x * s + y * t + z) * d == (d * x) * s + (d * y) * t + d * z,
{
    vstd::arithmetic::mul::lemma_mul_is_distributive_add(d, x * s + y * t, z);
    vstd::arithmetic::mul::lemma_mul_is_distributive_add(d, x * s, y * t);
    vstd::arithmetic::mul::lemma_mul_is_associative(d, x, s);
    vstd::arithmetic::mul::lemma_mul_is_associative(d, y, t);
    vstd::arithmetic::mul::lemma_mul_is_commutative(x * s + y * t + z, d);
}

/// Adding three partial products column by column.
proof fn lemma_columns(p0: int, p1: int, p2: int)
    requires
        0 <= p0 < two128(),
        0 <= p1 < two128(),
        0 <= p2 < two128(),
    ensures
        ({
            let c1 = p0 / two64() + p1 % two64() + p2 % two64();
            let sum = p0 + (p1 + p2) * two64();
            &&& sum / two128() == c1 / two64() + p1 / two64() + p2 / two64()
            &&& sum % two128() == p0 % two64() + (c1 % two64()) * two64()
        }),
{
    let c1 = p0 / two64() + p1 % two64() + p2 % two64();
    let sum = p0 + (p1 + p2) * two64();
    let q = c1 / two64() + p1 / two64() + p2 / two64();
    let r = p0 % two64() + (c1 % two64()) * two64();
    assert(p0 == (p0 / two64()) * two64() + p0 % two64());
    assert(p1 == (p1 / two64()) * two64() + p1 % two64());
    assert(p2 == (p2 / two64()) * two64() + p2 % two64());
    assert(c1 == (c1 / two64()) * two64() + c1 % two64());
    assert(0 <= r < two128());
    assert(sum == q * two128() + r);
    vstd::arithmetic::div_mod::lemma_fundamental_div_mod_converse(sum, two128(), q, r);
}

/// The two halves of a product of 128-bit factors, column by column.
proof fn lemma_split_product(a: int, b: int)
    requires
        0 <= a < two128(),
        0 <= b < two128(),
    ensures
        ({
            let p0 = (a % two64()) * (b % two64());
            let p1 = (a % two64()) * (b / two64());
            let p2 = (a / two64()) * (b % two64());
            let p3 = (a / two64()) * (b / two64());
            let c1 = p0 / two64() + p1 % two64() + p2 % two64();
            &&& (a * b) / two128() == c1 / two64() + p1 / two64() + p2 / two64() + p3
            &&& (a * b) % two128() == p0 % two64() + (c1 % two64()) * two64()
        }),
{
    let a0 = a % two64();
    let a1 = a / two64();
    let b0 = b % two64();
    let b1 = b / two64();
    assert(a == a1 * two64() + a0 && b == b1 * two64() + b0);
    lemma_digit_product(a0, b0);
    lemma_digit_product(a0, b1);
    lemma_digit_product(a1, b0);
    lemma_digit_product(a1, b1);
    lemma_product_of_pairs(a1, a0, b1, b0, two64());
    let p3 = a1 * b1;
    assert(two64() * two64() == two128());
    lemma_columns(a0 * b0, a0 * b1, a1 * b0);
    let sum = a0 * b0 + (a0 * b1 + a1 * b0) * two64();
    assert(a * b == sum + p3 * two128());
    assert(sum == (sum / two128()) * two128() + sum % two128());
    vstd::arithmetic::div_mod::lemma_fundamental_div_mod_converse(
        a * b,
        two128(),
        sum / two128() + p3,
        sum % two128(),
    );
}

/// A factor times a number of two halves.
proof fn lemma_mul_halves(hi: int, lo: int, b: int)
    requires
        0 <= hi,
        0 <= lo,
        0 <= b,
        (hi * two128() + lo) * b < two256(),
    ensures
        0 <= hi * b,
        hi * b + (lo * b) / two128() < two128(),
        (hi * b + (lo * b) / two128()) * two128() + (lo * b) % two128() == (hi * two128() + lo) * b,
{
    vstd::arithmetic::mul::lemma_mul_is_distributive_add_other_way(b, hi * two128(), lo);
    assert((hi * two128()) * b == (hi * b) * two128()) by (nonlinear_arith);
    assert(0 <= hi * b) by (nonlinear_arith)
        requires
            0 <= hi,
            0 <= b,
    ;
    let z = lo * b;
    assert(z == (z / two128()) * two128() + z % two128());
}

/// Two digits multiply to less than two digits' worth.
proof fn lemma_digit_product(a: int, b: int)
    requires
        0 <= a < two64(),
        0 <= b < two64(),
    ensures
        0 <= a * b <= 0xffff_ffff_ffff_fffe_0000_0000_0000_0001,
{
    lemma_product_bound(a, two64(), b, two64());
    assert((two64() - 1) * (two64() - 1) == 0xffff_ffff_ffff_fffe_0000_0000_0000_0001);
}

/// The remainder carried one digit down by `div_u128`; it keeps 128 bits.
pub open spec fn carried(rem: int, next: int) -> int {
    wrap128(rem * two64()) + next
}

/// The result of `div_u128`: schoolbook division by 64-bit digits of the low
/// half, with the carried remainder cut to 128 bits.
pub open spec fn div_value(v: int, d: int) -> int {
    let hi = v / two128();
    let lo = v % two128();
    if hi == 0 {
        lo / d
    } else {
        let first = carried(hi % d, lo / two64());
        let second = carried(first % d, lo % two64());
        (hi / d) * two128() + (first / d) * two64() + second / d
    }
}

/// The result of `div_ceil_u128`: one more than `div_u128` where that falls
/// short of the dividend.
pub open spec fn div_ceil_value(v: int, d: int) -> int {
    let q = div_value(v, d);
    if q * d < v {
        q + 1
    } else {
        q
    }
}

/// The digits that `div_u128` finds, and that its quotient never exceeds the
/// true one.
pub proof fn lemma_div_value(v: int, d: int)
    requires
        0 <= v < two256(),
        0 < d < two128(),
    ensures
        0 <= div_value(v, d),
        div_value(v, d) * d <= v,
        v / two128() != 0 ==> {
            let hi = v / two128();
            let lo = v % two128();
            let first = carried(hi % d, lo / two64());
            let second = carried(first % d, lo % two64());
            &&& 0 <= first < two128()
            &&& 0 <= second < two128()
            &&& 0 <= first / d < two64()
            &&& 0 <= second / d < two64()
        },
{
    let hi = v / two128();
    let lo = v % two128();
    if hi == 0 {
        vstd::arithmetic::div_mod::lemma_fundamental_div_mod(lo, d);
        vstd::arithmetic::div_mod::lemma_mod_bound(lo, d);
        vstd::arithmetic::div_mod::lemma_div_pos_is_pos(lo, d);
        vstd::arithmetic::mul::lemma_mul_is_commutative(lo / d, d);
    } else {
        let r0 = hi % d;
        vstd::arithmetic::div_mod::lemma_fundamental_div_mod(hi, d);
        vstd::arithmetic::div_mod::lemma_mod_bound(hi, d);
        vstd::arithmetic::div_mod::lemma_div_pos_is_pos(hi, d);
        let first = carried(r0, lo / two64());
        lemma_carried_digit(r0, lo / two64(), d);
        let r1 = first % d;
        vstd::arithmetic::div_mod::lemma_fundamental_div_mod(first, d);
        vstd::arithmetic::div_mod::lemma_mod_bound(first, d);
        let second = carried(r1, lo % two64());
        lemma_carried_digit(r1, lo % two64(), d);
        vstd::arithmetic::div_mod::lemma_fundamental_div_mod(second, d);
        vstd::arithmetic::div_mod::lemma_mod_bound(second, d);
        let qh = hi / d;
        let q1 = first / d;
        let q2 = second / d;
        lemma_three_times(d, qh, two128(), q1, two64(), q2);
        assert(d * q2 <= second);
        assert(second <= r1 * two64() + lo % two64());
        assert(d * q1 == first - r1);
        assert(first <= r0 * two64() + lo / two64());
        assert(d * qh == hi - r0);
    }
}

proof fn lemma_carried_digit(rem: int, next: int, d: int)
    requires
        0 <= rem < d < two128(),
        0 <= next < two64(),
    ensures
        0 <= carried(rem, next) < two128(),
        carried(rem, next) == (rem % two64()) * two64() + next,
        carried(rem, next) <= rem * two64() + next,
        0 <= carried(rem, next) / d < two64(),
{
    let z = rem * two64();
    assert(z % two128() <= z);
    assert(z % two128() == (rem % two64()) * two64());
    let c = carried(rem, next);
    assert(c < two128());
    vstd::arithmetic::div_mod::lemma_div_pos_is_pos(c, d);
    vstd::arithmetic::div_mod::lemma_fundamental_div_mod(c, d);
    vstd::arithmetic::div_mod::lemma_mod_bound(c, d);
    let q = c / d;
    if d < two64() {
        assert(c < d * two64());
        assert(q < two64()) by (nonlinear_arith)
            requires
                d * q <= c,
                c < d * two64(),
                d > 0,
        ;
    } else {
        assert(q < two64()) by (nonlinear_arith)
            requires
                d * q <= c,
                c < two128(),
                d >= two64(),
                q >= 0,
        ;
    }
}

/// Whether `div_u128` loses no carried bit.
pub open spec fn keeps_digits(v: int, d: int) -> bool {
    d <= two64() || v < two128()
}

/// A divisor of at most 64 bits, or a dividend of at most 128, loses no
/// carried bit: `div_u128` is floor division and `div_ceil_u128` rounds it up.
pub proof fn lemma_div_exact(v: int, d: int)
    requires
        0 <= v < two256(),
        0 < d < two128(),
        keeps_digits(v, d),
    ensures
        div_value(v, d) == v / d,
        div_ceil_value(v, d) == crate::num::ceil_div(v, d),
{
    lemma_div_value(v, d);
    let hi = v / two128();
    let lo = v % two128();
    let q = div_value(v, d);
    if hi == 0 {
    } else {
        let r0 = hi % d;
        vstd::arithmetic::div_mod::lemma_fundamental_div_mod(hi, d);
        vstd::arithmetic::div_mod::lemma_mod_bound(hi, d);
        let first = carried(r0, lo / two64());
        assert(first == r0 * two64() + lo / two64());
        let r1 = first % d;
        vstd::arithmetic::div_mod::lemma_fundamental_div_mod(first, d);
        vstd::arithmetic::div_mod::lemma_mod_bound(first, d);
        let second = carried(r1, lo % two64());
        assert(second == r1 * two64() + lo % two64());
        vstd::arithmetic::div_mod::lemma_fundamental_div_mod(second, d);
        vstd::arithmetic::div_mod::lemma_mod_bound(second, d);
        let qh = hi / d;
        let q1 = first / d;
        let q2 = second / d;
        lemma_three_times(d, qh, two128(), q1, two64(), q2);
        assert(v == q * d + second % d);
        vstd::arithmetic::div_mod::lemma_fundamental_div_mod_converse(v, d, q, second % d);
    }
    vstd::arithmetic::div_mod::lemma_fundamental_div_mod(v, d);
    vstd::arithmetic::div_mod::lemma_mod_bound(v, d);
    vstd::arithmetic::mul::lemma_mul_is_commutative(q, d);
}

impl U256 {
    /// Sum; a carry out of the 256 bits is lost.
    #[verifier::spinoff_prover]
    pub fn add(self, rhs: Self) -> (r: Self)
        ensures
            r.value() == (self.value() + rhs.value()) % two256(),
    {
        proof {
            reveal(U256::value);
        }
        let lo = self.lo.wrapping_add(rhs.lo);
        let carry: u128 = if lo < self.lo {
            1
        } else {
            0
        };
        let hi = self.hi.wrapping_add(rhs.hi).wrapping_add(carry);
        U256 { hi, lo }
    }

    /// Product of the lower digits. It is exact on factors of 128 bits; beyond
    /// them it is what `mul_value` says.
    #[verifier::spinoff_prover]
    pub fn mul(self, rhs: Self) -> (r: Self)
        requires
            mul_fits(self.value(), rhs.value()),
        ensures
            r.value() == mul_value(self.value(), rhs.value()),
    {
        proof {
            reveal(U256::value);
        }
        let a0 = self.lo % 0x1_0000_0000_0000_0000;
        let a1 = self.lo / 0x1_0000_0000_0000_0000;
        let a2 = self.hi % 0x1_0000_0000_0000_0000;
        let a3 = self.hi / 0x1_0000_0000_0000_0000;
        let b0 = rhs.lo % 0x1_0000_0000_0000_0000;
        let b1 = rhs.lo / 0x1_0000_0000_0000_0000;
        let b2 = rhs.hi % 0x1_0000_0000_0000_0000;
        let ghost a = self.value();
        let ghost b = rhs.value();
        proof {
            lemma_digits(self.hi as int, self.lo as int);
            lemma_digits(rhs.hi as int, rhs.lo as int);
            lemma_digit_product(a0 as int, b0 as int);
            lemma_digit_product(a0 as int, b1 as int);
            lemma_digit_product(a1 as int, b0 as int);
            lemma_digit_product(a0 as int, b2 as int);
            lemma_digit_product(a1 as int, b1 as int);
            lemma_digit_product(a2 as int, b0 as int);
            lemma_digit_product(a3 as int, b0 as int);
            lemma_digit_product(a2 as int, b1 as int);
            lemma_digit_product(a1 as int, b2 as int);
            lemma_digit_product(a3 as int, b1 as int);
            lemma_digit_product(a2 as int, b2 as int);
        }
        let p00 = a0 * b0;
        let p01 = a0 * b1;
        let p10 = a1 * b0;
        let p02 = a0 * b2;
        let p11 = a1 * b1;
        let p20 = a2 * b0;

        let lo_lo = p00 % 0x1_0000_0000_0000_0000;
        let carry1 = p00 / 0x1_0000_0000_0000_0000 + p01 % 0x1_0000_0000_0000_0000 + p10
            % 0x1_0000_0000_0000_0000;
        let lo = lo_lo + carry1 % 0x1_0000_0000_0000_0000 * 0x1_0000_0000_0000_0000;
        let carry2 = carry1 / 0x1_0000_0000_0000_0000 + p01 / 0x1_0000_0000_0000_0000 + p10
            / 0x1_0000_0000_0000_0000 + p02 % 0x1_0000_0000_0000_0000 + p11 % 0x1_0000_0000_0000_0000 + p20
            % 0x1_0000_0000_0000_0000;
        proof {
            lemma_columns(p00 as int, p01 as int, p10 as int);
        }
        assert(carry2 == mul_middle(digits(a), digits(b)));
        assert(lo == wrap128(mul_low(digits(a), digits(b))));
        assert(a3 * b0 + a2 * b1 + a1 * b2 + carry2 == mul_third(digits(a), digits(b)));
        let third = carry2 + (a3 * b0 + a2 * b1 + a1 * b2);
        let fourth = carry2 / 0x1_0000_0000_0000_0000 + p02 / 0x1_0000_0000_0000_0000 + p11
            / 0x1_0000_0000_0000_0000 + p20 / 0x1_0000_0000_0000_0000 + (a3 * b1 + a2 * b2);
        let hi = third % 0x1_0000_0000_0000_0000 + fourth % 0x1_0000_0000_0000_0000 * 0x1_0000_0000_0000_0000;
        U256 { hi, lo }
    }

    /// Quotient by a 128-bit divisor. It is exact for divisors of at most 64
    /// bits; beyond them it is what `div_value` says.
    #[verifier::spinoff_prover]
    pub fn div_u128(self, d: u128) -> (r: Self)
        requires
            d > 0,
        ensures
            r.value() == div_value(self.value(), d as int),
    {
        proof {
            reveal(U256::value);
        }
        proof {
            lemma_halves(self.hi as int, self.lo as int);
            lemma_div_value(self.value(), d as int);
        }
        if self.hi == 0 {
            return U256 { hi: 0, lo: self.lo / d };
        }
        let hi_q = self.hi / d;
        let hi_r = self.hi % d;
        let first = hi_r % 0x1_0000_0000_0000_0000 * 0x1_0000_0000_0000_0000 + self.lo / 0x1_0000_0000_0000_0000;
        proof {
            lemma_carried_digit(hi_r as int, self.lo as int / two64(), d as int);
        }
        let q_hi = first / d;
        let rem = first % d;
        let second = rem % 0x1_0000_0000_0000_0000 * 0x1_0000_0000_0000_0000 + self.lo % 0x1_0000_0000_0000_0000;
        proof {
            lemma_carried_digit(rem as int, self.lo as int % two64(), d as int);
        }
        let q_lo = second / d;
        U256 { hi: hi_q, lo: q_hi * 0x1_0000_0000_0000_0000 + q_lo }
    }

    /// `div_u128`, one more where the quotient falls short.
    pub fn div_ceil_u128(self, d: u128) -> (r: Self)
        requires
            d > 0,
        ensures
            r.value() == div_ceil_value(self.value(), d as int),
    {
        let q = self.div_u128(d);
        proof {
            self.lemma_value_range();
            lemma_div_value(self.value(), d as int);
            if q.value() * d < self.value() {
                if q.value() != 0 {
                    vstd::arithmetic::mul::lemma_mul_ordering(q.value(), d as int);
                }
            }
        }
        let product = q.mul_u128(d);
        if product.is_less(self) {
            q.add(U256::from_u128(1))
        } else {
            q
        }
    }

    /// Whether the value is below another.
    pub fn is_less(self, other: Self) -> (r: bool)
        ensures
            r == (self.value() < other.value()),
    {
        proof {
            lemma_order(self, other);
        }
        self.hi < other.hi || (self.hi == other.hi && self.lo < other.lo)
    }

    /// Product with a 128-bit factor.
    #[verifier::spinoff_prover]
    fn mul_u128(self, b: u128) -> (r: Self)
        requires
            self.value() * b < two256(),
        ensures
            r.value() == self.value() * b,
    {
        proof {
            reveal(U256::value);
        }
        let a0 = self.lo % 0x1_0000_0000_0000_0000;
        let a1 = self.lo / 0x1_0000_0000_0000_0000;
        let b0 = b % 0x1_0000_0000_0000_0000;
        let b1 = b / 0x1_0000_0000_0000_0000;
        proof {
            lemma_digit_product(a0 as int, b0 as int);
            lemma_digit_product(a0 as int, b1 as int);
            lemma_digit_product(a1 as int, b0 as int);
            lemma_digit_product(a1 as int, b1 as int);
        }
        let p0 = a0 * b0;
        let p1 = a0 * b1;
        let p2 = a1 * b0;
        let p3 = a1 * b1;
        let c1 = p0 / 0x1_0000_0000_0000_0000 + p1 % 0x1_0000_0000_0000_0000 + p2 % 0x1_0000_0000_0000_0000;
        let r_lo = p0 % 0x1_0000_0000_0000_0000 + c1 % 0x1_0000_0000_0000_0000 * 0x1_0000_0000_0000_0000;
        let c2 = c1 / 0x1_0000_0000_0000_0000 + p1 / 0x1_0000_0000_0000_0000 + p2 / 0x1_0000_0000_0000_0000 + p3;
        proof {
            lemma_split_product(self.lo as int, b as int);
            lemma_mul_halves(self.hi as int, self.lo as int, b as int);
        }
        let r_hi = c2 + self.hi * b;
        U256 { hi: r_hi, lo: r_lo }
    }
}

/// The high halves decide the order, and the low ones between equal high ones.
proof fn lemma_order(a: U256, b: U256)
    ensures
        a.value() < b.value() <==> a.hi < b.hi || (a.hi == b.hi && a.lo < b.lo),
        a.value() == b.value() <==> a.hi == b.hi && a.lo == b.lo,
{
    reveal(U256::value);
    if a.hi < b.hi {
        assert(a.hi * two128() + two128() <= b.hi * two128());
    } else if a.hi > b.hi {
        assert(b.hi * two128() + two128() <= a.hi * two128());
    }
}

proof fn lemma_shl_all_lost(v: int, n: nat)
    requires
        n >= 256,
    ensures
        (v * pow2(n)) % two256() == 0,
{
    lemma_pow2_128();
    lemma_pow2_adds(256, (n - 256) as nat);
    let k = pow2((n - 256) as nat) as int;
    assert(v * (two256() * k) == (v * k) * two256()) by (nonlinear_arith);
    vstd::arithmetic::div_mod::lemma_mod_multiples_basic(v * k, two256());
}

proof fn lemma_shr_all_lost(v: int, n: nat)
    requires
        n >= 256,
        0 <= v < two256(),
    ensures
        v / pow2(n) as int == 0,
{
    lemma_pow2_128();
    lemma_pow2_adds(256, (n - 256) as nat);
    lemma_pow2_pos((n - 256) as nat);
    let k = pow2((n - 256) as nat) as int;
    assert(two256() * k >= two256()) by (nonlinear_arith)
        requires
            k >= 1,
    ;
    vstd::arithmetic::div_mod::lemma_basic_div(v, pow2(n) as int);
}

proof fn lemma_shl_wide(hi: int, lo: int, n: nat)
    requires
        128 <= n < 256,
        0 <= hi,
        0 <= lo,
    ensures
        ((hi * two128() + lo) * pow2(n)) % two256() == wrap128(lo * pow2((n - 128) as nat)) * two128(),
{
    lemma_pow2_128();
    lemma_pow2_adds(128, (n - 128) as nat);
    let k = pow2((n - 128) as nat) as int;
    let z = lo * k;
    assert((hi * two128() + lo) * (two128() * k) == (hi * k) * two256() + (lo * k) * two128()) by (nonlinear_arith);
    vstd::arithmetic::div_mod::lemma_mod_multiples_vanish(hi * k, z * two128(), two256());
    assert((z * two128()) % two256() == (z % two128()) * two128());
}

proof fn lemma_shl_narrow(hi: int, lo: int, n: nat)
    requires
        0 < n < 128,
        0 <= hi < two128(),
        0 <= lo < two128(),
    ensures
        ((hi * two128() + lo) * pow2(n)) % two256() == (wrap128(hi * pow2(n)) + lo / pow2((128 - n) as nat) as int)
            * two128() + wrap128(lo * pow2(n)),
        0 <= lo / pow2((128 - n) as nat) as int,
        lo / (pow2((128 - n) as nat) as int) < pow2(n),
{
    lemma_pow2_128();
    lemma_pow2_pos(n);
    lemma_pow2_pos((128 - n) as nat);
    lemma_pow2_adds(n, (128 - n) as nat);
    let p = pow2(n) as int;
    let q = pow2((128 - n) as nat) as int;
    let a = lo / q;
    let b = lo % q;
    assert(lo == q * a + b && 0 <= b < q) by {
        vstd::arithmetic::div_mod::lemma_fundamental_div_mod(lo, q);
        vstd::arithmetic::div_mod::lemma_mod_bound(lo, q);
    }
    assert(lo * p == a * two128() + b * p) by (nonlinear_arith)
        requires
            lo == q * a + b,
            p * q == two128(),
    ;
    assert(0 <= b * p < two128()) by (nonlinear_arith)
        requires
            0 <= b < q,
            p * q == two128(),
            p > 0,
    ;
    assert(0 <= a < p) by (nonlinear_arith)
        requires
            lo == q * a + b,
            0 <= lo < two128(),
            p * q == two128(),
            0 <= b < q,
            q > 0,
            p > 0,
    ;
    assert(wrap128(lo * p) == b * p);
    let z = hi * p;
    assert((hi * two128() + lo) * p == (z + a) * two128() + b * p) by (nonlinear_arith)
        requires
            lo * p == a * two128() + b * p,
            z == hi * p,
    ;
    let c = z / two128();
    let d = z % two128();
    assert(z == c * two128() + d);
    // the multiple of the high half leaves a gap of `p` below it
    assert(d % p == 0) by {
        assert(z % p == 0) by {
            vstd::arithmetic::div_mod::lemma_mod_multiples_basic(hi, p);
        }
        assert(d == p * (hi - c * q)) by (nonlinear_arith)
            requires
                z == hi * p,
                z == c * two128() + d,
                p * q == two128(),
        ;
        vstd::arithmetic::div_mod::lemma_mod_multiples_basic(hi - c * q, p);
        assert(p * (hi - c * q) == (hi - c * q) * p) by (nonlinear_arith);
    }
    assert(d + a < two128()) by {
        let e = d / p;
        vstd::arithmetic::div_mod::lemma_fundamental_div_mod(d, p);
        assert(p * e + a < two128()) by (nonlinear_arith)
            requires
                p * e < two128(),
                p * q == two128(),
                0 <= a < p,
                p > 0,
        ;
    }
    assert((z + a) * two128() + b * p == c * two256() + (d + a) * two128() + b * p);
}

proof fn lemma_or_low(x: u128, n: u32, low: u128)
    requires
        0 < n < 128,
        low < pow2(n as nat),
    ensures
        (x << n) | low == (x << n) + low,
        low | (x << n) == (x << n) + low,
{
    lemma_pow2_128();
    lemma_pow2_pos(n as nat);
    assert(1u128 << n == pow2(n as nat)) by {
        lemma_shl128(1, n);
        vstd::arithmetic::power2::lemma_pow2_strictly_increases(n as nat, 128);
    }
    let one = 1u128 << n;
    let y = x << n;
    assert(y & low == 0) by (bit_vector)
        requires
            y == x << n,
            low < one,
            one == 1u128 << n,
            0 < n < 128,
    ;
    assert((y | low) == y + low && (low | y) == y + low) by (bit_vector)
        requires
            y & low == 0u128,
    ;
}

proof fn lemma_shr_wide(hi: int, lo: int, n: nat)
    requires
        128 <= n < 256,
        0 <= hi < two128(),
        0 <= lo < two128(),
    ensures
        (hi * two128() + lo) / pow2(n) as int == hi / pow2((n - 128) as nat) as int,
{
    lemma_pow2_128();
    lemma_pow2_adds(128, (n - 128) as nat);
    lemma_pow2_pos((n - 128) as nat);
    let k = pow2((n - 128) as nat) as int;
    vstd::arithmetic::div_mod::lemma_div_denominator(hi * two128() + lo, two128(), k);
    assert((hi * two128() + lo) / two128() == hi);
}

proof fn lemma_shr_narrow(hi: int, lo: int, n: nat)
    requires
        0 < n < 128,
        0 <= hi < two128(),
        0 <= lo < two128(),
    ensures
        (hi * two128() + lo) / pow2(n) as int == (hi / pow2(n) as int) * two128() + wrap128(
            hi * pow2((128 - n) as nat),
        ) + lo / pow2(n) as int,
        0 <= lo / pow2(n) as int,
        lo / (pow2(n) as int) < pow2((128 - n) as nat),
{
    lemma_pow2_128();
    lemma_pow2_pos(n);
    lemma_pow2_pos((128 - n) as nat);
    lemma_pow2_adds(n, (128 - n) as nat);
    let p = pow2(n) as int;
    let q = pow2((128 - n) as nat) as int;
    let a = hi / p;
    let b = hi % p;
    let c = lo / p;
    let d = lo % p;
    vstd::arithmetic::div_mod::lemma_fundamental_div_mod(hi, p);
    vstd::arithmetic::div_mod::lemma_mod_bound(hi, p);
    vstd::arithmetic::div_mod::lemma_fundamental_div_mod(lo, p);
    vstd::arithmetic::div_mod::lemma_mod_bound(lo, p);
    assert(0 <= c < q) by (nonlinear_arith)
        requires
            lo == p * c + d,
            0 <= lo < two128(),
            p * q == two128(),
            0 <= d < p,
            q > 0,
    ;
    assert(hi * q == a * two128() + b * q) by (nonlinear_arith)
        requires
            hi == p * a + b,
            p * q == two128(),
    ;
    assert(0 <= b * q < two128()) by (nonlinear_arith)
        requires
            0 <= b < p,
            p * q == two128(),
            q > 0,
    ;
    assert(wrap128(hi * q) == b * q);
    let w = a * two128() + b * q + c;
    assert(hi * two128() + lo == w * p + d) by (nonlinear_arith)
        requires
            hi == p * a + b,
            lo == p * c + d,
            p * q == two128(),
            w == a * two128() + b * q + c,
    ;
    vstd::arithmetic::div_mod::lemma_fundamental_div_mod_converse(hi * two128() + lo, p, w, d);
}

}
