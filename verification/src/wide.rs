//! Exact 256-bit arithmetic that reports what does not fit.
use vstd::arithmetic::power2::pow2;
use vstd::prelude::*;

use crate::protocols::clmm_math::u256::{lemma_mul_exact, lemma_pow2_128, two128, two256, U256};

verus! {

/// Whether a value is representable in 256 bits.
pub open spec fn fits_u256(x: int) -> bool {
    0 <= x < two256()
}

/// The exact product of two 128-bit factors.
pub fn product(a: u128, b: u128) -> (r: U256)
    ensures
        r.value() == a * b,
{
    proof {
        lemma_mul_exact(a as int, b as int);
    }
    U256::from_u128(a).mul(U256::from_u128(b))
}

/// A value as a 128-bit number.
pub fn to_u128(x: U256) -> (r: Option<u128>)
    ensures
        r is Some == (x.value() < two128()),
        r is Some ==> r->0 == x.value(),
{
    proof {
        x.lemma_value_range();
        lemma_halves_of(x);
    }
    if x.high_u128() == 0 {
        Some(x.low_u128())
    } else {
        None
    }
}

/// A value and its two halves.
proof fn lemma_halves_of(x: U256)
    ensures
        x.value() == (x.value() / two128()) * two128() + x.value() % two128(),
        0 <= x.value() / two128() < two128(),
        0 <= x.value() % two128() < two128(),
{
    x.lemma_value_range();
    let v = x.value();
    vstd::arithmetic::div_mod::lemma_fundamental_div_mod(v, two128());
    vstd::arithmetic::mul::lemma_mul_is_commutative(two128(), v / two128());
}

/// Sum; nothing where it needs more than 256 bits.
#[verifier::spinoff_prover]
pub fn checked_add(a: U256, b: U256) -> (r: Option<U256>)
    ensures
        r is Some == fits_u256(a.value() + b.value()),
        r is Some ==> r->0.value() == a.value() + b.value(),
{
    proof {
        lemma_halves_of(a);
        lemma_halves_of(b);
    }
    let (ah, al) = (a.high_u128(), a.low_u128());
    let (bh, bl) = (b.high_u128(), b.low_u128());
    let lo = al.wrapping_add(bl);
    let carry: u128 = if lo < al {
        1
    } else {
        0
    };
    assert(al + bl == carry * two128() + lo);
    proof {
        lemma_sum_of_halves(ah as int, al as int, bh as int, bl as int, carry as int, lo as int);
    }
    let hi = match ah.checked_add(bh) {
        Some(h) => h,
        None => return None,
    };
    match hi.checked_add(carry) {
        Some(h) => Some(U256::from_halves(h, lo)),
        None => None,
    }
}

proof fn lemma_sum_of_halves(ah: int, al: int, bh: int, bl: int, carry: int, lo: int)
    requires
        al + bl == carry * two128() + lo,
        0 <= lo < two128(),
    ensures
        (ah * two128() + al) + (bh * two128() + bl) == (ah + bh + carry) * two128() + lo,
        (ah + bh + carry) * two128() + lo < two256() <==> ah + bh + carry < two128(),
{
}

/// Difference of a value and one that is not above it.
#[verifier::spinoff_prover]
pub fn difference(a: U256, b: U256) -> (r: U256)
    requires
        b.value() <= a.value(),
    ensures
        r.value() == a.value() - b.value(),
{
    proof {
        lemma_halves_of(a);
        lemma_halves_of(b);
    }
    let (ah, al) = (a.high_u128(), a.low_u128());
    let (bh, bl) = (b.high_u128(), b.low_u128());
    proof {
        lemma_order_of_halves(ah as int, al as int, bh as int, bl as int);
    }
    if al >= bl {
        U256::from_halves(ah - bh, al - bl)
    } else {
        let lo: u128 = (u128::MAX - bl) + al + 1;
        U256::from_halves(ah - bh - 1, lo)
    }
}

proof fn lemma_order_of_halves(ah: int, al: int, bh: int, bl: int)
    requires
        0 <= al < two128(),
        0 <= bl < two128(),
        bh * two128() + bl <= ah * two128() + al,
    ensures
        bh <= ah,
        al < bl ==> bh < ah,
        (ah * two128() + al) - (bh * two128() + bl) == (ah - bh) * two128() + (al - bl),
        (ah - bh) * two128() + (al - bl) == (ah - bh - 1) * two128() + (al - bl + two128()),
{
}

/// The distance of two values.
pub fn distance(a: U256, b: U256) -> (r: U256)
    ensures
        r.value() == crate::num::iabs(a.value() - b.value()),
{
    if a.is_less(b) {
        difference(b, a)
    } else {
        difference(a, b)
    }
}

/// Product with a 64-bit factor; nothing where it needs more than 256 bits.
#[verifier::spinoff_prover]
pub fn checked_mul(a: U256, m: u64) -> (r: Option<U256>)
    ensures
        r is Some == fits_u256(a.value() * m),
        r is Some ==> r->0.value() == a.value() * m,
{
    proof {
        lemma_halves_of(a);
        a.lemma_value_range();
    }
    let (ah, al) = (a.high_u128(), a.low_u128());
    let low = product(al, m as u128);
    let high = product(ah, m as u128);
    let ghost v = a.value();
    proof {
        vstd::arithmetic::mul::lemma_mul_is_distributive_add_other_way(m as int, ah * two128(), al as int);
        assert((ah * two128()) * m == (ah * m) * two128()) by (nonlinear_arith);
        assert(ah * m >= 0 && al * m >= 0) by (nonlinear_arith);
        assert(v * m == (ah * m) * two128() + al * m);
        low.lemma_value_range();
        lemma_halves_of(low);
    }
    let carry = low.high_u128();
    match to_u128(high) {
        None => None,
        Some(h) => match h.checked_add(carry) {
            None => None,
            Some(hi) => Some(U256::from_halves(hi, low.low_u128())),
        },
    }
}

/// Twice a value plus a bit.
#[verifier::spinoff_prover]
fn double_plus(x: U256, bit: u128) -> (r: U256)
    requires
        bit <= 1,
        2 * x.value() + bit < two256(),
    ensures
        r.value() == 2 * x.value() + bit,
{
    proof {
        lemma_halves_of(x);
    }
    let (h, l) = (x.high_u128(), x.low_u128());
    let carry: u128 = if l >= 0x8000_0000_0000_0000_0000_0000_0000_0000 {
        1
    } else {
        0
    };
    let lo: u128 = l % 0x8000_0000_0000_0000_0000_0000_0000_0000 * 2 + bit;
    assert(2 * l + bit == carry * two128() + lo);
    proof {
        lemma_double_halves(h as int, l as int, bit as int, carry as int, lo as int);
    }
    U256::from_halves(2 * h + carry, lo)
}

proof fn lemma_double_halves(h: int, l: int, bit: int, carry: int, lo: int)
    requires
        2 * l + bit == carry * two128() + lo,
        0 <= lo < two128(),
        2 * (h * two128() + l) + bit < two256(),
    ensures
        2 * (h * two128() + l) + bit == (2 * h + carry) * two128() + lo,
        2 * h + carry < two128(),
{
}

/// Quotient rounded down.
#[verifier::spinoff_prover]
pub fn quotient(n: U256, d: U256) -> (r: U256)
    requires
        0 < d.value(),
        2 * d.value() <= two256(),
    ensures
        r.value() == n.value() / d.value(),
{
    let hi = n.high_u128();
    let lo = n.low_u128();
    let ghost v = n.value();
    let ghost dv = d.value();
    proof {
        n.lemma_value_range();
        lemma_halves_of(n);
        lemma_halves_of(d);
        lemma_pow2_128();
    }
    let (q0, r0) = if d.high_u128() == 0 {
        (hi / d.low_u128(), hi % d.low_u128())
    } else {
        (0, hi)
    };
    proof {
        if dv >= two128() {
            assert(q0 == 0 && r0 == hi);
        }
        vstd::arithmetic::div_mod::lemma_fundamental_div_mod(hi as int, dv);
        assert(q0 * dv + r0 == hi && 0 <= r0 < dv) by {
            if dv < two128() {
                vstd::arithmetic::mul::lemma_mul_is_commutative(dv, q0 as int);
                vstd::arithmetic::div_mod::lemma_mod_bound(hi as int, dv);
            }
        }
    }
    let mut q = U256::from_u128(q0);
    let mut rem = U256::from_u128(r0);
    let mut k: u32 = 128;
    let ghost mut top: int = hi as int;
    proof {
        assert(lo as int % pow2(128) as int == lo) by {
            vstd::arithmetic::div_mod::lemma_small_mod(lo as nat, pow2(128));
        }
        assert(top * pow2(128) == hi * two128());
    }
    while k > 0
        invariant
            k <= 128,
            dv == d.value(),
            0 < dv,
            2 * dv <= two256(),
            v < two256(),
            0 <= top,
            q.value() * dv + rem.value() == top,
            0 <= rem.value() < dv,
            top * pow2(k as nat) + lo as int % pow2(k as nat) as int == v,
        decreases k,
    {
        k = k - 1;
        let word: u128 = lo >> k;
        let bit: u128 = word % 2;
        proof {
            q.lemma_value_range();
            vstd::bits::lemma_u128_shr_is_div(lo, k as u128);
            lemma_next_digit(lo as int, k as nat, bit as int);
            lemma_division_step(q.value(), rem.value(), top, bit as int, dv, v, pow2(k as nat) as int, lo as int
                % pow2(k as nat) as int);
        }
        let doubled = double_plus(rem, bit);
        let ghost old_top = top;
        if doubled.is_less(d) {
            q = double_plus(q, 0);
            rem = doubled;
        } else {
            q = double_plus(q, 1);
            rem = difference(doubled, d);
        }
        proof {
            top = 2 * old_top + bit;
        }
    }
    proof {
        vstd::arithmetic::power2::lemma2_to64();
        assert(top == v) by {
            assert(top * pow2(0) == top) by (nonlinear_arith)
                requires
                    pow2(0) == 1,
            ;
            assert(lo as int % 1 == 0);
        }
        vstd::arithmetic::mul::lemma_mul_is_commutative(q.value(), dv);
        vstd::arithmetic::div_mod::lemma_fundamental_div_mod_converse(v, dv, q.value(), rem.value());
    }
    q
}

/// Splitting the next digit off the low part of a number.
proof fn lemma_next_digit(lo: int, k: nat, bit: int)
    requires
        lo >= 0,
        bit == (lo / pow2(k) as int) % 2,
    ensures
        lo % pow2(k + 1) as int == bit * pow2(k) + lo % pow2(k) as int,
        pow2(k + 1) == 2 * pow2(k),
        0 <= lo % pow2(k) as int,
        lo % (pow2(k) as int) < pow2(k),
{
    let p = pow2(k) as int;
    vstd::arithmetic::power2::lemma_pow2_pos(k);
    vstd::arithmetic::power2::lemma_pow2_unfold(k + 1);
    vstd::arithmetic::div_mod::lemma_fundamental_div_mod(lo, p);
    vstd::arithmetic::div_mod::lemma_mod_bound(lo, p);
    let q = lo / p;
    let r = lo % p;
    let h = q / 2;
    assert(q == 2 * h + bit);
    assert(lo == (2 * p) * h + (bit * p + r)) by (nonlinear_arith)
        requires
            lo == p * q + r,
            q == 2 * h + bit,
    ;
    assert(0 <= bit * p + r < 2 * p) by (nonlinear_arith)
        requires
            0 <= bit <= 1,
            0 <= r < p,
    ;
    vstd::arithmetic::div_mod::lemma_fundamental_div_mod_converse(lo, 2 * p, h, bit * p + r);
}

/// One digit of a long division.
proof fn lemma_division_step(q: int, rem: int, top: int, bit: int, d: int, v: int, p: int, rest: int)
    requires
        0 <= q,
        0 <= rem < d,
        0 < d,
        0 <= bit <= 1,
        0 < p,
        0 <= rest < p,
        0 <= top,
        q * d + rem == top,
        top * (2 * p) + (bit * p + rest) == v,
    ensures
        (2 * top + bit) * p + rest == v,
        (2 * q) * d + (2 * rem + bit) == 2 * top + bit,
        (2 * q + 1) * d + (2 * rem + bit - d) == 2 * top + bit,
        2 * rem + bit < 2 * d,
        2 * q <= v,
        2 * rem + bit >= d ==> 2 * q + 1 <= v,
{
    assert((2 * top + bit) * p + rest == v) by (nonlinear_arith)
        requires
            top * (2 * p) + (bit * p + rest) == v,
    ;
    assert((2 * q) * d + (2 * rem + bit) == 2 * top + bit) by (nonlinear_arith)
        requires
            q * d + rem == top,
    ;
    assert((2 * q + 1) * d == (2 * q) * d + d) by (nonlinear_arith);
    assert(2 * top + bit <= v) by (nonlinear_arith)
        requires
            (2 * top + bit) * p + rest == v,
            p >= 1,
            rest >= 0,
            2 * top + bit >= 0,
    ;
    assert(2 * q <= (2 * q) * d) by (nonlinear_arith)
        requires
            d >= 1,
            q >= 0,
    ;
    assert(2 * q + 1 <= (2 * q + 1) * d) by (nonlinear_arith)
        requires
            d >= 1,
            q >= 0,
    ;
}

}
