//! Prices along a position that is cut into tiers.
use vstd::prelude::*;

use crate::num::{fits_i128, fits_u64, trunc_div};

verus! {

pub const SCALE: i128 = 1_000_000;

/// A product over a positive divisor, rounded towards zero.
pub open spec fn mul_div(a: int, b: int, d: int) -> Option<int> {
    if fits_i128(a * b) {
        Some(trunc_div(a * b, d))
    } else {
        None
    }
}

pub fn try_mul_div(a: i128, b: i128, d: i128) -> (r: Option<i128>)
    requires
        d > 0,
    ensures
        r is Some == mul_div(a as int, b as int, d as int) is Some,
        r is Some ==> r->0 == mul_div(a as int, b as int, d as int)->0,
        r is Some && a >= 0 && b >= 0 ==> r->0 >= 0,
{
    let p = a.checked_mul(b)?;
    proof {
        if p >= 0 {
            vstd::arithmetic::div_mod::lemma_div_pos_is_pos(p as int, d as int);
        }
        if a >= 0 && b >= 0 {
            assert(a * b >= 0) by (nonlinear_arith)
                requires
                    a >= 0,
                    b >= 0,
            ;
        }
    }
    Some(p / d)
}

/// The prices of a direction: the adjusted oracle price with each tier's
/// spread and a fee, widened by the oracle's own parameter.
#[derive(Clone, Copy, Debug)]
pub struct Curve {
    /// Whether spreads raise the price.
    pub raises: bool,
    pub price: u64,
    pub spread: [u64; 10],
    pub fee: u64,
    pub width: u64,
    pub bounds: [u64; 10],
}

impl Curve {
    /// The price of a tier.
    pub open spec fn tier_price(self, i: int) -> Option<int> {
        let spread = self.spread[i] + self.fee;
        let wide = (spread * self.width) / 1_000_000;
        if !fits_u64(spread) {
            None
        } else if self.raises {
            mul_div(self.price as int, 1_000_000 + wide, 1_000_000)
        } else {
            mul_div(self.price as int, 1_000_000 - wide, 1_000_000)
        }
    }

    pub fn get_tier_price(&self, i: usize) -> (r: Option<i128>)
        requires
            i < 10,
        ensures
            r is Some == self.tier_price(i as int) is Some,
            r is Some ==> r->0 == self.tier_price(i as int)->0,
            r is Some && self.raises ==> r->0 >= 0,
    {
        let spread = self.spread[i].checked_add(self.fee)?;
        let width = self.width;
        proof {
            assert(0 <= spread * width <= u64::MAX * u64::MAX) by (nonlinear_arith)
                requires
                    0 <= spread <= u64::MAX,
                    0 <= width <= u64::MAX,
            ;
        }
        let wide: i128 = (spread as u128 * width as u128 / 1_000_000) as i128;
        if self.raises {
            try_mul_div(self.price as i128, SCALE + wide, SCALE)
        } else {
            try_mul_div(self.price as i128, SCALE - wide, SCALE)
        }
    }

    /// The price between two tiers, weighted by the distance from each; a
    /// raised price is rounded up.
    pub open spec fn between(self, pos: int, k: int) -> Option<int> {
        let width = self.bounds[k + 1] - self.bounds[k];
        let far = pos - self.bounds[k];
        let near = width - far;
        match (self.tier_price(k + 1), self.tier_price(k)) {
            (Some(hi), Some(lo)) => {
                let a = far * hi;
                let b = near * lo;
                if !fits_i128(a) || !fits_i128(b) || !fits_i128(a + b) {
                    None
                } else if self.raises {
                    if fits_i128(a + b + width) {
                        Some(trunc_div(a + b + width - 1, width))
                    } else {
                        None
                    }
                } else {
                    Some(trunc_div(a + b, width))
                }
            },
            _ => None,
        }
    }

    fn get_between(&self, pos: u64, k: usize) -> (r: Option<i128>)
        requires
            k < 9,
            self.bounds[k as int] < pos <= self.bounds[k + 1],
        ensures
            r is Some == self.between(pos as int, k as int) is Some,
            r is Some ==> r->0 == self.between(pos as int, k as int)->0,
            r is Some && self.raises ==> r->0 >= 0,
    {
        let width = (self.bounds[k + 1] - self.bounds[k]) as i128;
        let far = (pos - self.bounds[k]) as i128;
        let near = width - far;
        let hi = self.get_tier_price(k + 1)?;
        let lo = self.get_tier_price(k)?;
        let a = far.checked_mul(hi)?;
        let b = near.checked_mul(lo)?;
        let sum = a.checked_add(b)?;
        proof {
            if self.raises {
                assert(far * hi >= 0 && near * lo >= 0) by (nonlinear_arith)
                    requires
                        far >= 0,
                        near >= 0,
                        hi >= 0,
                        lo >= 0,
                ;
            }
        }
        if self.raises {
            let up = sum.checked_add(width)? - 1;
            proof {
                vstd::arithmetic::div_mod::lemma_div_pos_is_pos(up as int, width as int);
            }
            Some(up / width)
        } else {
            Some(sum / width)
        }
    }

    /// The price at a position, from the tier `start` on: flat within it and
    /// past the last one, a line in between.
    pub open spec fn price_from(self, pos: int, k: int) -> Option<int>
        decreases 10 - k,
    {
        if k >= 9 {
            self.tier_price(9)
        } else if pos <= self.bounds[k + 1] {
            self.between(pos, k)
        } else {
            self.price_from(pos, k + 1)
        }
    }

    pub open spec fn price_at(self, pos: int, start: int) -> Option<int> {
        if pos <= self.bounds[start] {
            self.tier_price(start)
        } else {
            self.price_from(pos, start)
        }
    }

    pub fn get_price_at(&self, pos: u64, start: usize) -> (r: Option<i128>)
        requires
            start < 10,
        ensures
            r is Some == self.price_at(pos as int, start as int) is Some,
            r is Some ==> r->0 == self.price_at(pos as int, start as int)->0,
            r is Some && self.raises ==> r->0 >= 0,
    {
        if pos <= self.bounds[start] {
            return self.get_tier_price(start);
        }
        let mut k: usize = start;
        while k < 9
            invariant
                start < 10,
                k < 10,
                self.bounds[k as int] < pos,
                self.price_from(pos as int, k as int) == self.price_at(pos as int, start as int),
            decreases 10 - k,
        {
            if pos <= self.bounds[k + 1] {
                return self.get_between(pos, k);
            }
            k = k + 1;
        }
        self.get_tier_price(9)
    }

    /// The first tier whose bound an amount does not exceed, or the last.
    pub open spec fn tier_from(self, amount: int, k: int) -> int
        decreases 10 - k,
    {
        if k >= 9 || amount <= self.bounds[k] {
            k
        } else {
            self.tier_from(amount, k + 1)
        }
    }

    pub fn find_tier(&self, amount: u64) -> (r: usize)
        ensures
            r == self.tier_from(amount as int, 0),
            r < 10,
    {
        let mut k: usize = 0;
        while k < 9 && amount > self.bounds[k]
            invariant
                k < 10,
                self.tier_from(amount as int, k as int) == self.tier_from(amount as int, 0),
            decreases 10 - k,
        {
            k = k + 1;
        }
        k
    }

    /// The worth of an amount at a price in quote tokens, or its worth in base
    /// tokens where spreads raise the price; a price of zero buys nothing.
    pub open spec fn worth(self, amount: int, price: int, scale: int) -> Option<int> {
        if self.raises {
            if price == 0 {
                Some(0)
            } else {
                mul_div(scale, amount, price)
            }
        } else {
            mul_div(amount, price, scale)
        }
    }

    pub fn get_worth(&self, amount: u64, price: i128, scale: u64) -> (r: Option<i128>)
        requires
            scale > 0,
            self.raises ==> price >= 0,
        ensures
            r is Some == self.worth(amount as int, price as int, scale as int) is Some,
            r is Some ==> r->0 == self.worth(amount as int, price as int, scale as int)->0,
    {
        if self.raises {
            if price == 0 {
                Some(0)
            } else {
                try_mul_div(scale as i128, amount as i128, price)
            }
        } else {
            try_mul_div(amount as i128, price, scale as i128)
        }
    }

    /// The worth of an amount at the price that its own size reaches.
    pub open spec fn weighted(self, amount: int, scale: int, start: int) -> Option<int> {
        match self.price_at(amount, start) {
            None => None,
            Some(p) => self.worth(amount, p, scale),
        }
    }

    pub fn get_weighted(&self, amount: u64, scale: u64, start: usize) -> (r: Option<i128>)
        requires
            scale > 0,
            start < 10,
        ensures
            r is Some == self.weighted(amount as int, scale as int, start as int) is Some,
            r is Some ==> r->0 == self.weighted(amount as int, scale as int, start as int)->0,
    {
        let p = self.get_price_at(amount, start)?;
        self.get_worth(amount, p, scale)
    }

    /// The worth of a move along the position: that of the new position less
    /// that of the old one. Where spreads raise the price and either price is
    /// zero, it is nothing.
    pub open spec fn integral(self, old_pos: int, new_pos: int, scale: int, start: int) -> Option<int> {
        match (self.price_at(new_pos, start), self.price_at(old_pos, start)) {
            (Some(p_new), Some(p_old)) => if self.raises && (p_new == 0 || p_old == 0) {
                Some(0)
            } else {
                match (self.worth(new_pos, p_new, scale), self.worth(old_pos, p_old, scale)) {
                    (Some(a), Some(b)) if fits_i128(a - b) => Some(a - b),
                    _ => None,
                }
            },
            _ => None,
        }
    }

    pub fn get_integral(&self, old_pos: u64, new_pos: u64, scale: u64, start: usize) -> (r: Option<i128>)
        requires
            scale > 0,
            start < 10,
        ensures
            r is Some == self.integral(old_pos as int, new_pos as int, scale as int, start as int) is Some,
            r is Some ==> r->0 == self.integral(old_pos as int, new_pos as int, scale as int, start as int)->0,
    {
        let p_new = self.get_price_at(new_pos, start)?;
        let p_old = self.get_price_at(old_pos, start)?;
        if self.raises && (p_new == 0 || p_old == 0) {
            return Some(0);
        }
        let a = self.get_worth(new_pos, p_new, scale)?;
        let b = self.get_worth(old_pos, p_old, scale)?;
        a.checked_sub(b)
    }
}

/// A spread is never in the trader's favour: it raises the price that is paid
/// for base tokens and lowers the price that they are bought at.
pub proof fn law_spread_is_a_cost(c: Curve, i: int)
    requires
        0 <= i < 10,
        c.tier_price(i) is Some,
    ensures
        c.raises ==> c.tier_price(i)->0 >= c.price,
        !c.raises ==> c.tier_price(i)->0 <= c.price,
        c.spread[i] == 0 && c.fee == 0 ==> c.tier_price(i)->0 == c.price,
{
    let spread = c.spread[i] + c.fee;
    let width = c.width as int;
    let price = c.price as int;
    assert(spread * width >= 0) by (nonlinear_arith)
        requires
            spread >= 0,
            width >= 0,
    ;
    if spread == 0 {
        assert(spread * width == 0) by (nonlinear_arith)
            requires
                spread == 0,
        ;
    }
    let wide = (spread * width) / 1_000_000;
    assert(price * (1_000_000 + wide) >= price * 1_000_000) by (nonlinear_arith)
        requires
            price >= 0,
            wide >= 0,
    ;
    assert(price * (1_000_000 - wide) <= price * 1_000_000) by (nonlinear_arith)
        requires
            price >= 0,
            wide >= 0,
    ;
}

proof fn lemma_exact_quotient(q: int, d: int)
    requires
        q >= 0,
        d > 0,
    ensures
        trunc_div(d * q, d) == q,
        trunc_div(d * q + d - 1, d) == q,
{
    assert(d * q >= 0) by (nonlinear_arith)
        requires
            q >= 0,
            d > 0,
    ;
    assert(d * q == q * d) by (nonlinear_arith);
    vstd::arithmetic::div_mod::lemma_fundamental_div_mod_converse(d * q, d, q, 0);
    vstd::arithmetic::div_mod::lemma_fundamental_div_mod_converse(d * q + d - 1, d, q, d - 1);
}

proof fn lemma_price_from(c: Curve, k: int, j: int)
    requires
        0 <= k < j < 10,
        forall|a: int, b: int| 0 <= a < b < 10 ==> c.bounds[a] < c.bounds[b],
    ensures
        c.price_from(c.bounds[j] as int, k) == c.between(c.bounds[j] as int, j - 1),
    decreases j - k,
{
    if k + 1 < j {
        assert(c.bounds[k + 1] < c.bounds[j]);
        lemma_price_from(c, k + 1, j);
    }
}

/// At the bound of a tier the price is that tier's, on a curve whose bounds
/// increase: up to the first bound it is the first tier's.
pub proof fn law_curve_goes_through_its_tiers(c: Curve, start: int, j: int, pos: int)
    requires
        0 <= start <= j < 10,
        forall|a: int, b: int| 0 <= a < b < 10 ==> c.bounds[a] < c.bounds[b],
        c.price_at(c.bounds[j] as int, start) is Some,
        c.tier_price(j) is Some,
        c.tier_price(j)->0 >= 0,
    ensures
        c.price_at(c.bounds[j] as int, start) == c.tier_price(j),
        pos <= c.bounds[start] ==> c.price_at(pos, start) == c.tier_price(start),
{
    if start < j {
        assert(c.bounds[start] < c.bounds[j]);
        lemma_price_from(c, start, j);
        let d = c.bounds[j] - c.bounds[j - 1];
        let hi = c.tier_price(j)->0;
        assert(c.bounds[j - 1] < c.bounds[j]);
        lemma_exact_quotient(hi, d);
        if c.tier_price(j - 1) is Some {
            assert(0 * c.tier_price(j - 1)->0 == 0);
        }
    }
}

/// The tier of an amount is the first whose bound it does not exceed, or else
/// the last.
pub proof fn law_tier_is_the_first_that_holds(c: Curve, amount: int, k: int)
    requires
        0 <= k < 10,
    ensures
        k <= c.tier_from(amount, k) < 10,
        c.tier_from(amount, k) < 9 ==> amount <= c.bounds[c.tier_from(amount, k)],
        forall|i: int| k <= i < c.tier_from(amount, k) ==> c.bounds[i] < amount,
    decreases 10 - k,
{
    if k < 9 && amount > c.bounds[k] {
        law_tier_is_the_first_that_holds(c, amount, k + 1);
    }
}

/// Base tokens are worth more at a higher price, and quote tokens buy fewer of
/// them; in both cases the trader gets the whole tokens only.
pub proof fn law_worth_at_a_price(c: Curve, amount: int, price: int, scale: int)
    requires
        0 <= amount,
        0 < price,
        0 < scale,
        c.worth(amount, price, scale) is Some,
    ensures
        ({
            let w = c.worth(amount, price, scale)->0;
            &&& !c.raises ==> w * scale <= amount * price < (w + 1) * scale
            &&& c.raises ==> w * price <= amount * scale < (w + 1) * price
        }),
{
    let (n, d) = if c.raises {
        (scale * amount, price)
    } else {
        (amount * price, scale)
    };
    assert(n >= 0) by (nonlinear_arith)
        requires
            n == scale * amount || n == amount * price,
            amount >= 0,
            price > 0,
            scale > 0,
    ;
    assert(scale * amount == amount * scale) by (nonlinear_arith);
    vstd::arithmetic::div_mod::lemma_fundamental_div_mod(n, d);
    let q = n / d;
    assert(q * d <= n < (q + 1) * d) by (nonlinear_arith)
        requires
            n == d * q + n % d,
            0 <= n % d < d,
    ;
}

/// A trade along the curve is worth what lies between its two positions: one
/// from the start of the curve is worth its whole amount, one that goes nowhere
/// is worth nothing, and two that follow each other are worth what one over both
/// is.
pub proof fn law_trades_join_along_the_curve(c: Curve, a: int, b: int, d: int, scale: int, start: int)
    requires
        0 < scale,
        c.price_at(0, start) matches Some(p) && p > 0,
        c.price_at(a, start) matches Some(p) && p > 0,
        c.price_at(b, start) matches Some(p) && p > 0,
        c.price_at(d, start) matches Some(p) && p > 0,
        c.integral(a, b, scale, start) is Some,
        c.integral(b, d, scale, start) is Some,
        c.integral(a, d, scale, start) is Some,
    ensures
        c.integral(a, b, scale, start)->0 + c.integral(b, d, scale, start)->0 == c.integral(a, d, scale, start)->0,
        c.integral(a, a, scale, start) == Some(0int),
        c.integral(0, b, scale, start) == c.weighted(b, scale, start),
{
    let p = c.price_at(0, start)->0;
    assert(0 * p == 0 && scale * 0 == 0) by (nonlinear_arith);
    vstd::arithmetic::div_mod::lemma_basic_div(0, p);
    vstd::arithmetic::div_mod::lemma_basic_div(0, scale);
}

}
