//! The tick arrays that a pool keeps, ordered by where they start.
use vstd::prelude::*;

use super::clmm_math::fees::fits_i32;
use super::clmm_math::tick_price::ClmmPoolType;
use super::clmm_math::ticks::{ordered_ticks, with_boundaries, TickArraySequence};

verus! {

/// A tick array: where it starts, and its initialized ticks with their net
/// liquidity.
#[derive(Debug)]
pub struct StoredTickArray {
    pub start_tick_index: i32,
    pub ticks: Vec<(i32, i128)>,
}

impl View for StoredTickArray {
    type V = (i32, Seq<(i32, i128)>);

    open spec fn view(&self) -> (i32, Seq<(i32, i128)>) {
        (self.start_tick_index, self.ticks@)
    }
}

/// The contents of a tick array that may be missing.
pub open spec fn array_view(a: Option<Option<(i32, Vec<(i32, i128)>)>>) -> Option<
    Option<(i32, Seq<(i32, i128)>)>,
> {
    match a {
        None => None,
        Some(None) => Some(None),
        Some(Some(a)) => Some(Some((a.0, a.1@))),
    }
}

#[derive(Debug)]
pub struct TickArrays {
    pub arrays: Vec<StoredTickArray>,
}

impl View for TickArrays {
    type V = Seq<(i32, Seq<(i32, i128)>)>;

    open spec fn view(&self) -> Seq<(i32, Seq<(i32, i128)>)> {
        self.arrays@.map_values(|a: StoredTickArray| a@)
    }
}

/// Whether the arrays are ordered by where they start, none twice.
pub open spec fn starts_increase(s: Seq<(i32, Seq<(i32, i128)>)>) -> bool {
    forall|i: int, j: int| 0 <= i < j < s.len() ==> (#[trigger] s[i]).0 < (#[trigger] s[j]).0
}

/// The first array from `i` on that does not start below `start`.
pub open spec fn place_from(s: Seq<(i32, Seq<(i32, i128)>)>, start: i32, i: int) -> int
    decreases s.len() - i,
{
    if i >= s.len() || s[i].0 >= start {
        i
    } else {
        place_from(s, start, i + 1)
    }
}

/// The arrays after one is stored: it replaces the one that starts where it
/// does, or takes its place in the order.
pub open spec fn stored(s: Seq<(i32, Seq<(i32, i128)>)>, start: i32, ticks: Seq<(i32, i128)>) -> Seq<
    (i32, Seq<(i32, i128)>),
> {
    let p = place_from(s, start, 0);
    if p < s.len() && s[p].0 == start {
        s.update(p, (start, ticks))
    } else {
        s.insert(p, (start, ticks))
    }
}

/// The ticks of all arrays, one array after the other.
pub open spec fn all_ticks(s: Seq<(i32, Seq<(i32, i128)>)>) -> Seq<(i32, i128)>
    decreases s.len(),
{
    if s.len() == 0 {
        Seq::empty()
    } else {
        all_ticks(s.drop_last()) + s.last().1
    }
}

/// The end of the last array of a pool.
pub open spec fn right_end(s: Seq<(i32, Seq<(i32, i128)>)>, size: int, spacing: int) -> int {
    s.last().0 + size * spacing
}

/// The ticks of all arrays between the start of the first and the end of the
/// last.
pub open spec fn bounded_ticks(s: Seq<(i32, Seq<(i32, i128)>)>, size: int, spacing: int) -> Seq<(i32, i128)> {
    with_boundaries(all_ticks(s), s[0].0, right_end(s, size, spacing) as i32)
}

proof fn lemma_place(s: Seq<(i32, Seq<(i32, i128)>)>, start: i32, i: int)
    requires
        0 <= i <= s.len(),
        forall|k: int| 0 <= k < i ==> (#[trigger] s[k]).0 < start,
    ensures
        i <= place_from(s, start, i) <= s.len(),
        forall|k: int| 0 <= k < place_from(s, start, i) ==> (#[trigger] s[k]).0 < start,
        place_from(s, start, i) < s.len() ==> s[place_from(s, start, i)].0 >= start,
    decreases s.len() - i,
{
    if i < s.len() && s[i].0 < start {
        lemma_place(s, start, i + 1);
    }
}

proof fn lemma_stored_in_order(s: Seq<(i32, Seq<(i32, i128)>)>, start: i32, ticks: Seq<(i32, i128)>)
    requires
        starts_increase(s),
    ensures
        starts_increase(stored(s, start, ticks)),
{
    lemma_place(s, start, 0);
}

/// Storing an array keeps the arrays in order, puts its ticks where it starts
/// and leaves every other array as it is.
pub proof fn law_storing_updates_one_array(
    s: Seq<(i32, Seq<(i32, i128)>)>,
    start: i32,
    ticks: Seq<(i32, i128)>,
    other: (i32, Seq<(i32, i128)>),
)
    requires
        starts_increase(s),
        other.0 != start,
    ensures
        starts_increase(stored(s, start, ticks)),
        stored(s, start, ticks).contains((start, ticks)),
        stored(s, start, ticks).contains(other) == s.contains(other),
{
    lemma_place(s, start, 0);
    lemma_stored_in_order(s, start, ticks);
    let p = place_from(s, start, 0);
    let t = stored(s, start, ticks);
    assert(t[p] == (start, ticks));
    if p < s.len() && s[p].0 == start {
        if s.contains(other) {
            let i = choose|i: int| 0 <= i < s.len() && s[i] == other;
            assert(t[i] == other);
        }
        if t.contains(other) {
            let i = choose|i: int| 0 <= i < t.len() && t[i] == other;
            assert(s[i] == other);
        }
    } else {
        if s.contains(other) {
            let i = choose|i: int| 0 <= i < s.len() && s[i] == other;
            if i < p {
                assert(t[i] == other);
            } else {
                assert(t[i + 1] == other);
            }
        }
        if t.contains(other) {
            let i = choose|i: int| 0 <= i < t.len() && t[i] == other;
            if i < p {
                assert(s[i] == other);
            } else {
                assert(s[i - 1] == other);
            }
        }
    }
}

impl TickArrays {
    pub open spec fn wf(self) -> bool {
        starts_increase(self@)
    }

    pub fn new() -> (r: Self)
        ensures
            r@ == Seq::<(i32, Seq<(i32, i128)>)>::empty(),
            r.wf(),
    {
        let r = TickArrays { arrays: Vec::new() };
        assert(r@ =~= Seq::empty());
        r
    }

    pub fn is_empty(&self) -> (r: bool)
        ensures
            r == (self@.len() == 0),
    {
        self.arrays.len() == 0
    }

    /// Stores a tick array under its start.
    pub fn store(&mut self, start_tick_index: i32, ticks: Vec<(i32, i128)>)
        requires
            old(self).wf(),
        ensures
            final(self)@ == stored(old(self)@, start_tick_index, ticks@),
            final(self).wf(),
    {
        let ghost s = self@;
        let mut p: usize = 0;
        while p < self.arrays.len() && self.arrays[p].start_tick_index < start_tick_index
            invariant
                p <= self.arrays.len(),
                s == self@,
                *self == *old(self),
                place_from(s, start_tick_index, p as int) == place_from(s, start_tick_index, 0),
            decreases self.arrays.len() - p,
        {
            assert(s[p as int].0 == self.arrays@[p as int].start_tick_index);
            p = p + 1;
        }
        let known = p < self.arrays.len() && self.arrays[p].start_tick_index == start_tick_index;
        let array = StoredTickArray { start_tick_index, ticks };
        proof {
            if p < self.arrays.len() {
                assert(s[p as int].0 == self.arrays@[p as int].start_tick_index);
            }
            lemma_stored_in_order(s, start_tick_index, ticks@);
        }
        if known {
            self.arrays.set(p, array);
            assert(self@ =~= s.update(p as int, (start_tick_index, ticks@)));
        } else {
            self.arrays.insert(p, array);
            assert(self@ =~= s.insert(p as int, (start_tick_index, ticks@)));
        }
    }

    fn collect_ticks(&self) -> (r: Vec<(i32, i128)>)
        ensures
            r@ == all_ticks(self@),
    {
        let mut all: Vec<(i32, i128)> = Vec::new();
        let mut i: usize = 0;
        while i < self.arrays.len()
            invariant
                i <= self.arrays.len(),
                all@ == all_ticks(self@.take(i as int)),
            decreases self.arrays.len() - i,
        {
            let ghost before = all@;
            let mut k: usize = 0;
            while k < self.arrays[i].ticks.len()
                invariant
                    i < self.arrays.len(),
                    k <= self.arrays@[i as int].ticks@.len(),
                    all@ =~= before + self.arrays@[i as int].ticks@.take(k as int),
                decreases self.arrays@[i as int].ticks@.len() - k,
            {
                all.push(self.arrays[i].ticks[k]);
                k = k + 1;
            }
            proof {
                let longer = self@.take(i + 1);
                assert(longer.drop_last() =~= self@.take(i as int));
                assert(longer.last() == self.arrays@[i as int]@);
                assert(self.arrays@[i as int].ticks@.take(k as int) =~= self.arrays@[i as int].ticks@);
            }
            i = i + 1;
        }
        assert(self@.take(i as int) =~= self@);
        all
    }

    /// The ticks of the pool in order. The inner option is empty where no tick
    /// is initialized; the outer one where the end of the last array leaves 32
    /// bits.
    pub fn try_build_tick_sequence(&self, size: i32, tick_spacing: u16, pool_type: ClmmPoolType) -> (r: Option<
        Option<TickArraySequence>,
    >)
        requires
            0 < size <= 88,
            self.wf(),
        ensures
            all_ticks(self@).len() == 0 ==> r == Some(None::<TickArraySequence>),
            all_ticks(self@).len() > 0 ==> (r is Some == fits_i32(
                right_end(self@, size as int, tick_spacing as int),
            )),
            all_ticks(self@).len() > 0 && r is Some ==> r->0 is Some && ordered_ticks(
                (r->0)->0@,
                bounded_ticks(self@, size as int, tick_spacing as int),
                pool_type,
            ),
    {
        let all = self.collect_ticks();
        if all.len() == 0 {
            return Some(None);
        }
        let n = self.arrays.len();
        proof {
            assert(self@.len() > 0);
            assert(0 <= size * tick_spacing <= 88 * 65535) by (nonlinear_arith)
                requires
                    0 < size <= 88,
                    0 <= tick_spacing <= 65535,
            ;
        }
        let left = self.arrays[0].start_tick_index;
        let right = self.arrays[n - 1].start_tick_index.checked_add(size * tick_spacing as i32)?;
        Some(Some(TickArraySequence::from_raw_ticks(all.as_slice(), pool_type, left, right)))
    }
}

/// The ticks of a pool's arrays are those of each of its arrays, and no others,
/// between the start of the first array and the end of the last.
pub proof fn law_all_ticks_of_the_arrays(s: Seq<(i32, Seq<(i32, i128)>)>, k: int, t: (i32, i128))
    requires
        0 <= k < s.len(),
    ensures
        s[k].1.contains(t) ==> all_ticks(s).contains(t),
        all_ticks(s).contains(t) ==> exists|i: int| 0 <= i < s.len() && (#[trigger] s[i]).1.contains(t),
    decreases s.len(),
{
    let rest = s.drop_last();
    let head = all_ticks(rest);
    let last = s.last().1;
    if k < rest.len() {
        law_all_ticks_of_the_arrays(rest, k, t);
    } else if rest.len() > 0 {
        law_all_ticks_of_the_arrays(rest, 0, t);
    }
    if s[k].1.contains(t) {
        if k < rest.len() {
            assert(rest[k] == s[k]);
            let j = choose|j: int| 0 <= j < head.len() && head[j] == t;
            assert(all_ticks(s)[j] == t);
        } else {
            let j = choose|j: int| 0 <= j < last.len() && last[j] == t;
            assert(all_ticks(s)[head.len() + j] == t);
        }
    }
    if all_ticks(s).contains(t) {
        let j = choose|j: int| 0 <= j < all_ticks(s).len() && all_ticks(s)[j] == t;
        if j < head.len() {
            assert(head[j] == t);
            assert(rest.len() > 0);
            let i = choose|i: int| 0 <= i < rest.len() && (#[trigger] rest[i]).1.contains(t);
            assert(s[i].1.contains(t));
        } else {
            assert(last[j - head.len()] == t);
            assert(s[s.len() - 1].1.contains(t));
        }
    }
}

/// A pool's ticks lie between two that hold no liquidity: where its first array
/// starts and where its last one ends.
pub proof fn law_ticks_are_bounded(s: Seq<(i32, Seq<(i32, i128)>)>, size: int, spacing: int)
    requires
        s.len() > 0,
        i32::MIN <= s.last().0 + size * spacing <= i32::MAX,
    ensures
        ({
            let b = bounded_ticks(s, size, spacing);
            &&& b.len() == all_ticks(s).len() + 2
            &&& b[0] == (s[0].0, 0i128)
            &&& b.last().0 == s.last().0 + size * spacing && b.last().1 == 0
            &&& b.subrange(1, b.len() - 1) == all_ticks(s)
        }),
{
    let b = bounded_ticks(s, size, spacing);
    assert(b.subrange(1, b.len() - 1) =~= all_ticks(s));
}

}
