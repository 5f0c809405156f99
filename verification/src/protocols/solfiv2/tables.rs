//! Fees interpolated between the points of a table.
use vstd::prelude::*;

use crate::bytes::{read_u64_le, u64_at};
use crate::num::{fits_i128, iabs, imax, imin, low64, trunc_div, wrap64};

verus! {

/// Up to eight points of a fee.
#[derive(Debug, Clone, Copy)]
pub struct Table {
    pub bounds: [u64; 8],
    pub fees: [u64; 8],
    pub count: usize,
}

/// Seven bounds and the fees around them.
#[derive(Debug, Clone, Copy)]
pub struct SizeTable {
    pub bounds: [u64; 7],
    pub fees: [u64; 8],
}

pub open spec fn no_table() -> Table {
    Table { bounds: [0, 0, 0, 0, 0, 0, 0, 0], fees: [0, 0, 0, 0, 0, 0, 0, 0], count: 0 }
}

pub open spec fn no_size_table() -> SizeTable {
    SizeTable { bounds: [0, 0, 0, 0, 0, 0, 0], fees: [0, 0, 0, 0, 0, 0, 0, 0] }
}

impl Table {
    pub fn empty() -> (r: Self)
        ensures
            r == no_table(),
    {
        let z: [u64; 8] = [0, 0, 0, 0, 0, 0, 0, 0];
        assert(z =~= no_table().bounds);
        assert(z =~= no_table().fees);
        Table { bounds: z, fees: z, count: 0 }
    }
}

impl SizeTable {
    pub fn empty() -> (r: Self)
        ensures
            r == no_size_table(),
    {
        let bounds: [u64; 7] = [0, 0, 0, 0, 0, 0, 0];
        let fees: [u64; 8] = [0, 0, 0, 0, 0, 0, 0, 0];
        assert(bounds =~= no_size_table().bounds);
        assert(fees =~= no_size_table().fees);
        SizeTable { bounds, fees }
    }
}

/// A word after an update: that of the data up to the count.
pub open spec fn word_or(d: Seq<u8>, at: int, i: int, count: int, was: [u64; 8]) -> u64 {
    if i < count {
        u64_at(d, at + i * 8) as u64
    } else {
        was[i]
    }
}

pub open spec fn words_or(d: Seq<u8>, at: int, count: int, was: [u64; 8]) -> [u64; 8] {
    [
        word_or(d, at, 0, count, was),
        word_or(d, at, 1, count, was),
        word_or(d, at, 2, count, was),
        word_or(d, at, 3, count, was),
        word_or(d, at, 4, count, was),
        word_or(d, at, 5, count, was),
        word_or(d, at, 6, count, was),
        word_or(d, at, 7, count, was),
    ]
}

fn read_words_or(data: &[u8], at: usize, count: usize, was: [u64; 8]) -> (r: [u64; 8])
    requires
        at + 64 <= data.len(),
        count <= 8,
    ensures
        r == words_or(data@, at as int, count as int, was),
{
    let mut words = was;
    let mut i: usize = 0;
    while i < count
        invariant
            i <= count <= 8,
            at + 64 <= data.len(),
            forall|k: int| 0 <= k < i ==> words@[k] == word_or(data@, at as int, k, count as int, was),
            forall|k: int| i <= k < 8 ==> words@[k] == was@[k],
        decreases count - i,
    {
        words[i] = read_u64_le(data, at + i * 8);
        i = i + 1;
    }
    assert(words =~= words_or(data@, at as int, count as int, was));
    words
}

/// A table of the data: its count, then as many bounds and fees; what lies
/// beyond stays.
pub open spec fn table_at(d: Seq<u8>, bounds: int, fees: int, count: int, was: Table) -> Table {
    let n = imin(u64_at(d, count), 8);
    Table {
        bounds: words_or(d, bounds, n, was.bounds),
        fees: words_or(d, fees, n, was.fees),
        count: n as usize,
    }
}

pub fn read_table(data: &[u8], bounds: usize, fees: usize, count: usize, was: Table) -> (r: Table)
    requires
        bounds + 64 <= data.len(),
        fees + 64 <= data.len(),
        count + 8 <= data.len(),
    ensures
        r == table_at(data@, bounds as int, fees as int, count as int, was),
        r.count <= 8,
{
    let stored = read_u64_le(data, count);
    let n: usize = if stored < 8 {
        stored as usize
    } else {
        8
    };
    Table {
        bounds: read_words_or(data, bounds, n, was.bounds),
        fees: read_words_or(data, fees, n, was.fees),
        count: n,
    }
}

pub open spec fn size_table_at(d: Seq<u8>, at: int) -> SizeTable {
    SizeTable {
        bounds: [
            u64_at(d, at) as u64,
            u64_at(d, at + 8) as u64,
            u64_at(d, at + 16) as u64,
            u64_at(d, at + 24) as u64,
            u64_at(d, at + 32) as u64,
            u64_at(d, at + 40) as u64,
            u64_at(d, at + 48) as u64,
        ],
        fees: [
            u64_at(d, at + 56) as u64,
            u64_at(d, at + 64) as u64,
            u64_at(d, at + 72) as u64,
            u64_at(d, at + 80) as u64,
            u64_at(d, at + 88) as u64,
            u64_at(d, at + 96) as u64,
            u64_at(d, at + 104) as u64,
            u64_at(d, at + 112) as u64,
        ],
    }
}

pub fn read_tier_table(data: &[u8], base_offset: usize) -> (r: SizeTable)
    requires
        base_offset + 120 <= data.len(),
    ensures
        r == size_table_at(data@, base_offset as int),
{
    let at = base_offset;
    let bounds = [
        read_u64_le(data, at),
        read_u64_le(data, at + 8),
        read_u64_le(data, at + 16),
        read_u64_le(data, at + 24),
        read_u64_le(data, at + 32),
        read_u64_le(data, at + 40),
        read_u64_le(data, at + 48),
    ];
    let fees = [
        read_u64_le(data, at + 56),
        read_u64_le(data, at + 64),
        read_u64_le(data, at + 72),
        read_u64_le(data, at + 80),
        read_u64_le(data, at + 88),
        read_u64_le(data, at + 96),
        read_u64_le(data, at + 104),
        read_u64_le(data, at + 112),
    ];
    assert(bounds =~= size_table_at(data@, at as int).bounds);
    assert(fees =~= size_table_at(data@, at as int).fees);
    SizeTable { bounds, fees }
}

/// A fee between two points, rounded to the nearest and never below zero;
/// nothing where a product needs more than 128 bits.
pub open spec fn fee_between(low: int, high: int, far: int, span: int) -> Option<int> {
    let p = (high - low) * far;
    let fee = trunc_div(p + span / 2, span) + low;
    if fits_i128(p) && fits_i128(p + span / 2) && fits_i128(fee) {
        Some(wrap64(imax(fee, 0)))
    } else {
        None
    }
}

fn try_fee_between(low: u64, high: u64, far: u64, span: u64) -> (r: Option<u64>)
    requires
        span > 0,
    ensures
        r is Some == fee_between(low as int, high as int, far as int, span as int) is Some,
        r is Some ==> r->0 == fee_between(low as int, high as int, far as int, span as int)->0,
{
    let rise: i128 = high as i128 - low as i128;
    let p = rise.checked_mul(far as i128)?;
    let n = p.checked_add((span / 2) as i128)?;
    let s = span as i128;
    proof {
        let m = iabs(n as int);
        vstd::arithmetic::div_mod::lemma_div_pos_is_pos(m, s as int);
        vstd::arithmetic::div_mod::lemma_div_is_ordered_by_denominator(m, 1, s as int);
    }
    let q: i128 = n / s;
    let result = q.checked_add(low as i128)?;
    if result > 0 {
        Some(low64(result as u128))
    } else {
        Some(0)
    }
}

impl Table {
    /// The fee from the point `i` on, with `lower` the bound before it.
    pub open spec fn fee_from(self, value: int, lower: int, i: int) -> Option<int>
        decreases self.count - i,
    {
        let n = self.count - 1;
        if i >= self.count {
            Some(self.fees[n] as int)
        } else if self.bounds[i] <= value {
            if i == n {
                Some(self.fees[n] as int)
            } else {
                self.fee_from(value, self.bounds[i] as int, i + 1)
            }
        } else {
            fee_between(
                self.fees[i - 1] as int,
                self.fees[i] as int,
                value - lower,
                self.bounds[i] - lower,
            )
        }
    }

    /// The fee at a value: flat before the first point and after the last.
    pub open spec fn fee_at(self, value: int) -> Option<int> {
        if self.count == 0 {
            Some(0)
        } else if self.count == 1 || self.bounds[0] >= value {
            Some(self.fees[0] as int)
        } else {
            self.fee_from(value, self.bounds[0] as int, 1)
        }
    }

    pub fn table3_interp(&self, value: u64) -> (r: Option<u64>)
        requires
            self.count <= 8,
        ensures
            r is Some == self.fee_at(value as int) is Some,
            r is Some ==> r->0 == self.fee_at(value as int)->0,
    {
        if self.count == 0 {
            return Some(0);
        }
        if self.count == 1 || self.bounds[0] >= value {
            return Some(self.fees[0]);
        }
        let mut lower = self.bounds[0];
        let mut i: usize = 1;
        while i < self.count
            invariant
                1 <= i <= self.count <= 8,
                lower <= value,
                self.fee_from(value as int, lower as int, i as int) == self.fee_at(value as int),
            decreases self.count - i,
        {
            let upper = self.bounds[i];
            if upper > value {
                return try_fee_between(self.fees[i - 1], self.fees[i], value - lower, upper - lower);
            }
            if i == self.count - 1 {
                return Some(self.fees[i]);
            }
            lower = upper;
            i = i + 1;
        }
        Some(self.fees[self.count - 1])
    }
}

impl SizeTable {
    /// The fee from the bound `i` on, with `lower` the bound before it; a
    /// bound of zero ends the table.
    pub open spec fn fee_from(self, amount: int, lower: int, i: int) -> Option<int>
        decreases 7 - i,
    {
        if i >= 7 {
            Some(self.fees[7] as int)
        } else if self.bounds[i] == 0 {
            Some(self.fees[i] as int)
        } else if amount <= self.bounds[i] {
            fee_between(
                self.fees[i] as int,
                self.fees[i + 1] as int,
                amount - lower,
                self.bounds[i] - lower,
            )
        } else {
            self.fee_from(amount, self.bounds[i] as int, i + 1)
        }
    }

    /// The fee of an amount.
    pub open spec fn fee_at(self, amount: int) -> Option<int> {
        if amount == 0 {
            Some(self.fees[0] as int)
        } else {
            self.fee_from(amount, 0, 0)
        }
    }

    pub fn tier_interp(&self, amount: u64) -> (r: Option<u64>)
        ensures
            r is Some == self.fee_at(amount as int) is Some,
            r is Some ==> r->0 == self.fee_at(amount as int)->0,
    {
        if amount == 0 {
            return Some(self.fees[0]);
        }
        let mut lower: u64 = 0;
        let mut i: usize = 0;
        while i < 7
            invariant
                i <= 7,
                lower < amount,
                self.fee_from(amount as int, lower as int, i as int) == self.fee_at(amount as int),
            decreases 7 - i,
        {
            let upper = self.bounds[i];
            if upper == 0 {
                return Some(self.fees[i]);
            }
            if amount <= upper {
                return try_fee_between(self.fees[i], self.fees[i + 1], amount - lower, upper - lower);
            }
            lower = upper;
            i = i + 1;
        }
        Some(self.fees[7])
    }
}

/// A fee between two points lies between their fees, on the straight line from
/// one to the other: at the first point it is the first fee. Where fees rise it
/// is the nearest to the line and ends in the second fee, and where they fall
/// it is rounded up, by less than two.
pub proof fn law_fee_between_its_points(low: int, high: int, far: int, span: int)
    requires
        0 <= low <= u64::MAX,
        0 <= high <= u64::MAX,
        0 <= far <= span,
        0 < span <= u64::MAX,
        fee_between(low, high, far, span) is Some,
    ensures
        imin(low, high) <= fee_between(low, high, far, span)->0 <= imax(low, high),
        far == 0 ==> fee_between(low, high, far, span)->0 == low,
        far == span && low <= high ==> fee_between(low, high, far, span)->0 == high,
        ({
            let off = span * (fee_between(low, high, far, span)->0 - low) - (high - low) * far;
            -span <= 2 * off < 3 * span && (low <= high ==> 2 * off <= span)
        }),
{
    let rise = high - low;
    let p = rise * far;
    let n = p + span / 2;
    let t = trunc_div(n, span);
    let fee = fee_between(low, high, far, span)->0;
    if rise >= 0 {
        assert(0 <= p <= rise * span) by (nonlinear_arith)
            requires
                p == rise * far,
                rise >= 0,
                0 <= far <= span,
        ;
        vstd::arithmetic::div_mod::lemma_fundamental_div_mod(n, span);
        vstd::arithmetic::div_mod::lemma_div_pos_is_pos(n, span);
        assert(0 <= t <= rise) by (nonlinear_arith)
            requires
                0 <= t,
                span * t <= n,
                n <= rise * span + span / 2,
                span > 0,
        ;
        if far == span {
            assert(t == rise) by (nonlinear_arith)
                requires
                    n == rise * span + span / 2,
                    n == span * t + n % span,
                    0 <= n % span < span,
                    span > 0,
                    0 <= t <= rise,
            ;
        }
    } else {
        assert(rise * span <= p <= 0) by (nonlinear_arith)
            requires
                p == rise * far,
                rise <= 0,
                0 <= far <= span,
        ;
        if n >= 0 {
            vstd::arithmetic::div_mod::lemma_fundamental_div_mod(n, span);
            vstd::arithmetic::div_mod::lemma_div_pos_is_pos(n, span);
            assert(t == 0) by (nonlinear_arith)
                requires
                    0 <= t,
                    n == span * t + n % span,
                    0 <= n % span,
                    n < span,
                    span > 0,
            ;
        } else {
            let m = -n;
            vstd::arithmetic::div_mod::lemma_fundamental_div_mod(m, span);
            vstd::arithmetic::div_mod::lemma_div_pos_is_pos(m, span);
            let q = m / span;
            assert((-rise) * span == -(rise * span)) by (nonlinear_arith);
            assert(0 <= q <= -rise) by (nonlinear_arith)
                requires
                    0 <= q,
                    span * q <= m,
                    m <= (-rise) * span,
                    span > 0,
            ;
            assert(t == -q);
            assert(span * t == -(span * q)) by (nonlinear_arith)
                requires
                    t == -q,
            ;
        }
    }
    if far == 0 {
        assert(p == 0) by (nonlinear_arith)
            requires
                p == rise * far,
                far == 0,
        ;
        assert(t == 0) by {
            vstd::arithmetic::div_mod::lemma_small_div_converse(span / 2, span);
            vstd::arithmetic::div_mod::lemma_basic_div(span / 2, span);
        }
    }
    assert(low + t == fee) by {
        assert(0 <= low + t <= u64::MAX);
    }
    assert(span * (fee - low) == span * t);
}

proof fn lemma_fee_from(t: Table, value: int, i: int, k: int)
    requires
        0 < i <= k < t.count <= 8,
        forall|a: int, b: int| 0 <= a < b < t.count ==> t.bounds[a] < t.bounds[b],
        t.bounds[k] <= value,
        k + 1 < t.count ==> value < t.bounds[k + 1],
    ensures
        t.fee_from(value, t.bounds[i - 1] as int, i) == (if k + 1 == t.count {
            Some(t.fees[k] as int)
        } else {
            fee_between(
                t.fees[k] as int,
                t.fees[k + 1] as int,
                value - t.bounds[k],
                t.bounds[k + 1] - t.bounds[k],
            )
        }),
    decreases k - i,
{
    assert(i < k ==> t.bounds[i] < t.bounds[k]);
    if i < k {
        lemma_fee_from(t, value, i + 1, k);
    } else if k + 1 < t.count {
        assert(t.fee_from(value, t.bounds[k] as int, k + 1) == fee_between(
            t.fees[k] as int,
            t.fees[k + 1] as int,
            value - t.bounds[k],
            t.bounds[k + 1] - t.bounds[k],
        ));
    }
}

/// The fee of a table with increasing bounds: at each of its points it is that
/// point's fee, and between two of them it lies between theirs. It is flat
/// before the first and after the last, and an empty table charges nothing.
pub proof fn law_table_goes_through_its_points(t: Table, k: int, value: int)
    requires
        0 <= k < t.count <= 8,
        forall|a: int, b: int| 0 <= a < b < t.count ==> t.bounds[a] < t.bounds[b],
        0 <= value <= u64::MAX,
        t.fee_at(value) is Some,
    ensures
        value == t.bounds[k] ==> t.fee_at(value)->0 == t.fees[k],
        value <= t.bounds[0] ==> t.fee_at(value)->0 == t.fees[0],
        value >= t.bounds[t.count - 1] ==> t.fee_at(value)->0 == t.fees[t.count - 1],
        k + 1 < t.count && t.bounds[k] <= value <= t.bounds[k + 1] ==> imin(t.fees[k] as int, t.fees[k + 1] as int)
            <= t.fee_at(value)->0 <= imax(t.fees[k] as int, t.fees[k + 1] as int),
{
    let last = t.count - 1;
    assert(last > 0 ==> t.bounds[0] < t.bounds[last]);
    assert(k > 0 ==> t.bounds[0] < t.bounds[k]);
    if t.count > 1 && value > t.bounds[0] {
        if value >= t.bounds[last] {
            lemma_fee_from(t, value, 1, last);
            assert(k < last ==> t.bounds[k] < t.bounds[last]);
            assert(k + 1 < last ==> t.bounds[k + 1] < t.bounds[last]);
        } else if t.bounds[k] <= value && value < t.bounds[k + 1] {
            if k > 0 {
                lemma_fee_from(t, value, 1, k);
            }
            assert(t.fee_at(value) == fee_between(
                t.fees[k] as int,
                t.fees[k + 1] as int,
                value - t.bounds[k],
                t.bounds[k + 1] - t.bounds[k],
            ));
            law_fee_between_its_points(
                t.fees[k] as int,
                t.fees[k + 1] as int,
                value - t.bounds[k],
                t.bounds[k + 1] - t.bounds[k],
            );
        } else if k + 1 < t.count && value == t.bounds[k + 1] {
            lemma_fee_from(t, value, 1, k + 1);
            if k + 2 < t.count {
                assert(t.bounds[k + 1] < t.bounds[k + 2]);
                law_fee_between_its_points(
                    t.fees[k + 1] as int,
                    t.fees[k + 2] as int,
                    0,
                    t.bounds[k + 2] - t.bounds[k + 1],
                );
            }
        }
    }
}

proof fn lemma_size_fee_from(t: SizeTable, amount: int, i: int, k: int)
    requires
        0 <= i <= k < 7,
        forall|a: int| 0 <= a <= k ==> t.bounds[a] > 0,
        forall|a: int| 0 <= a < k ==> t.bounds[a] < amount,
        amount <= t.bounds[k],
    ensures
        t.fee_from(
            amount,
            if i == 0 {
                0
            } else {
                t.bounds[i - 1] as int
            },
            i,
        ) == fee_between(
            t.fees[k] as int,
            t.fees[k + 1] as int,
            amount - (if k == 0 {
                0
            } else {
                t.bounds[k - 1] as int
            }),
            t.bounds[k] - (if k == 0 {
                0
            } else {
                t.bounds[k - 1] as int
            }),
        ),
    decreases k - i,
{
    if i < k {
        lemma_size_fee_from(t, amount, i + 1, k);
    }
}

/// The fee of a trade's size: the first fee for nothing, and between two bounds
/// between their fees, reaching the second at its bound where fees rise.
pub proof fn law_size_table_goes_through_its_points(t: SizeTable, k: int, amount: int)
    requires
        0 <= k < 7,
        forall|a: int| 0 <= a <= k ==> t.bounds[a] > 0,
        forall|a: int| 0 <= a < k ==> t.bounds[a] < amount,
        0 < amount <= t.bounds[k],
        t.fee_at(amount) is Some,
    ensures
        t.fee_at(0) == Some(t.fees[0] as int),
        imin(t.fees[k] as int, t.fees[k + 1] as int) <= t.fee_at(amount)->0 <= imax(
            t.fees[k] as int,
            t.fees[k + 1] as int,
        ),
        amount == t.bounds[k] && t.fees[k] <= t.fees[k + 1] ==> t.fee_at(amount)->0 == t.fees[k + 1],
{
    lemma_size_fee_from(t, amount, 0, k);
    let lower = if k == 0 {
        0
    } else {
        t.bounds[k - 1] as int
    };
    law_fee_between_its_points(t.fees[k] as int, t.fees[k + 1] as int, amount - lower, t.bounds[k] - lower);
}

}
