//! The ordered ticks of a pool, each with its net liquidity and its price.
use vstd::prelude::*;

use super::tick_price::{clamped_price, get_next_sqrt_prices, pool_price, ClmmPoolType};

verus! {

/// A tick with its net liquidity, its price and its price within the limits.
#[derive(Debug, Clone, Copy, PartialEq, Eq, Structural)]
pub struct TickEntry {
    pub tick: i32,
    pub net: i128,
    pub price: u128,
    pub limit: u128,
}

/// Ticks in increasing order, none twice.
#[derive(Debug)]
pub struct TickArraySequence {
    entries: Vec<TickEntry>,
}

impl View for TickArraySequence {
    type V = Seq<TickEntry>;

    closed spec fn view(&self) -> Seq<TickEntry> {
        self.entries@
    }
}

/// Whether the ticks strictly increase.
pub open spec fn increasing(s: Seq<TickEntry>) -> bool {
    forall|i: int, j: int| 0 <= i < j < s.len() ==> (#[trigger] s[i]).tick < (#[trigger] s[j]).tick
}

/// Whether `entry` is the first of `raw` with its tick, with its price.
pub open spec fn comes_first(raw: Seq<(i32, i128)>, pool_type: ClmmPoolType, entry: TickEntry, j: int) -> bool {
    &&& 0 <= j < raw.len()
    &&& raw[j] == (entry.tick, entry.net)
    &&& forall|k: int| 0 <= k < j ==> (#[trigger] raw[k]).0 != entry.tick
    &&& entry.price == pool_price(pool_type, entry.tick as int)
    &&& entry.limit == clamped_price(entry.price as int)
}

/// Whether an entry is the first of `raw` with its tick.
pub open spec fn is_first(raw: Seq<(i32, i128)>, pool_type: ClmmPoolType, entry: TickEntry) -> bool {
    exists|j: int| comes_first(raw, pool_type, entry, j)
}

/// Whether a tick is among the entries.
pub open spec fn has_tick(s: Seq<TickEntry>, tick: i32) -> bool {
    exists|i: int| 0 <= i < s.len() && (#[trigger] s[i]).tick == tick
}

/// Whether `s` holds exactly the ticks of `raw`, in order, each as it first
/// occurs.
pub open spec fn ordered_ticks(s: Seq<TickEntry>, raw: Seq<(i32, i128)>, pool_type: ClmmPoolType) -> bool {
    &&& increasing(s)
    &&& forall|i: int| 0 <= i < s.len() ==> is_first(raw, pool_type, #[trigger] s[i])
    &&& forall|j: int| 0 <= j < raw.len() ==> has_tick(s, (#[trigger] raw[j]).0)
}

/// The boundaries around the raw ticks.
pub open spec fn with_boundaries(ticks: Seq<(i32, i128)>, left: i32, right: i32) -> Seq<(i32, i128)> {
    seq![(left, 0i128)] + ticks + seq![(right, 0i128)]
}

/// The ticks of `raw` in order.
pub open spec fn tick_sequence(raw: Seq<(i32, i128)>, pool_type: ClmmPoolType) -> Seq<TickEntry> {
    choose|s: Seq<TickEntry>| ordered_ticks(s, raw, pool_type)
}

/// Whether a place parts the ticks below `tick` from the others, and whether
/// it holds `tick` itself.
pub open spec fn is_place(s: Seq<TickEntry>, tick: i32, at: (usize, bool)) -> bool {
    &&& at.0 <= s.len()
    &&& at.1 == (at.0 < s.len() && s[at.0 as int].tick == tick)
    &&& forall|i: int| 0 <= i < at.0 ==> (#[trigger] s[i]).tick < tick
    &&& forall|i: int| at.0 <= i < s.len() ==> (#[trigger] s[i]).tick >= tick
}

/// The place of a tick among the ordered ones.
pub open spec fn tick_place(s: Seq<TickEntry>, tick: i32) -> (usize, bool) {
    choose|at: (usize, bool)| is_place(s, tick, at)
}

/// A tick has one place.
pub proof fn lemma_place_unique(s: Seq<TickEntry>, tick: i32, at: (usize, bool))
    requires
        is_place(s, tick, at),
    ensures
        tick_place(s, tick) == at,
{
    let other = tick_place(s, tick);
    assert(is_place(s, tick, other));
    if other.0 < at.0 {
        assert(s[other.0 as int].tick < tick);
    }
    if at.0 < other.0 {
        assert(s[at.0 as int].tick < tick);
    }
}

/// The raw ticks fix the ordered ones.
pub proof fn law_ordered_ticks_unique(
    s: Seq<TickEntry>,
    t: Seq<TickEntry>,
    raw: Seq<(i32, i128)>,
    pool_type: ClmmPoolType,
)
    requires
        ordered_ticks(s, raw, pool_type),
        ordered_ticks(t, raw, pool_type),
    ensures
        s == t,
{
    lemma_same_ticks(s, t, raw, pool_type);
    lemma_same_ticks(t, s, raw, pool_type);
    lemma_equal_prefix(s, t, s.len());
    if t.len() > s.len() {
        let extra = t[s.len() as int];
        assert(s.contains(extra));
        let i = choose|i: int| 0 <= i < s.len() && s[i] == extra;
        assert(t[i] == extra);
        assert(false);
    }
    assert(s =~= t);
}

proof fn lemma_same_ticks(s: Seq<TickEntry>, t: Seq<TickEntry>, raw: Seq<(i32, i128)>, pool_type: ClmmPoolType)
    requires
        ordered_ticks(s, raw, pool_type),
        ordered_ticks(t, raw, pool_type),
    ensures
        forall|i: int| 0 <= i < s.len() ==> t.contains(#[trigger] s[i]),
{
    assert forall|i: int| 0 <= i < s.len() implies t.contains(#[trigger] s[i]) by {
        let j = choose|j: int| comes_first(raw, pool_type, s[i], j);
        assert(has_tick(t, raw[j].0));
        let k = choose|k: int| 0 <= k < t.len() && (#[trigger] t[k]).tick == raw[j].0;
        assert(is_first(raw, pool_type, t[k]));
        let m = choose|m: int| comes_first(raw, pool_type, t[k], m);
        if m < j {
            assert(raw[m].0 == s[i].tick);
        }
        if j < m {
            assert(raw[j].0 == t[k].tick);
        }
        assert(t[k] == s[i]);
    }
}

proof fn lemma_equal_prefix(s: Seq<TickEntry>, t: Seq<TickEntry>, n: nat)
    requires
        increasing(s),
        increasing(t),
        n <= s.len(),
        forall|i: int| 0 <= i < s.len() ==> t.contains(#[trigger] s[i]),
        forall|i: int| 0 <= i < t.len() ==> s.contains(#[trigger] t[i]),
    ensures
        n <= t.len(),
        forall|i: int| 0 <= i < n ==> s[i] == t[i],
    decreases n,
{
    if n > 0 {
        let m = (n - 1) as nat;
        lemma_equal_prefix(s, t, m);
        assert(t.contains(s[m as int]));
        let k = choose|k: int| 0 <= k < t.len() && t[k] == s[m as int];
        if k < m {
            assert(s[k] == t[k]);
            assert(false);
        }
        if m < k {
            assert(s.contains(t[m as int]));
            let l = choose|l: int| 0 <= l < s.len() && s[l] == t[m as int];
            if l < m {
                assert(t[l] == s[l]);
            }
            if l > m {
                assert(s[m as int].tick < s[l].tick);
                assert(t[m as int].tick < t[k].tick);
            }
            assert(false);
        }
    }
}

impl TickArraySequence {
    #[verifier::type_invariant]
    closed spec fn inv(self) -> bool {
        increasing(self.entries@)
    }

    pub fn new() -> (r: Self)
        ensures
            r@ == Seq::<TickEntry>::empty(),
    {
        TickArraySequence { entries: Vec::new() }
    }

    /// The raw ticks and the two boundaries in order; of several with one tick
    /// the first stays.
    pub fn from_raw_ticks(
        ticks: &[(i32, i128)],
        pool_type: ClmmPoolType,
        left_boundary: i32,
        right_boundary: i32,
    ) -> (r: Self)
        ensures
            ordered_ticks(r@, with_boundaries(ticks@, left_boundary, right_boundary), pool_type),
    {
        let ghost raw = with_boundaries(ticks@, left_boundary, right_boundary);
        let mut entries: Vec<TickEntry> = Vec::new();
        proof {
            assert(raw.take(0) =~= Seq::<(i32, i128)>::empty());
        }
        insert_tick(&mut entries, left_boundary, 0, pool_type, Ghost(raw.take(0)));
        proof {
            assert(raw.take(0).push((left_boundary, 0i128)) =~= raw.take(1));
        }
        let mut i: usize = 0;
        while i < ticks.len()
            invariant
                i <= ticks.len(),
                raw == with_boundaries(ticks@, left_boundary, right_boundary),
                ordered_ticks(entries@, raw.take(i + 1), pool_type),
            decreases ticks.len() - i,
        {
            let (tick, net) = ticks[i];
            insert_tick(&mut entries, tick, net, pool_type, Ghost(raw.take(i + 1)));
            proof {
                assert(raw.take(i + 1).push((tick, net)) =~= raw.take(i + 2));
            }
            i = i + 1;
        }
        insert_tick(&mut entries, right_boundary, 0, pool_type, Ghost(raw.take(i + 1)));
        proof {
            assert(raw.take(i + 1).push((right_boundary, 0i128)) =~= raw);
        }
        TickArraySequence { entries }
    }

    /// The place of a tick, and whether it is there; where it is not, the
    /// place before which it would stand.
    pub fn get_internal_bin_index_from_tick_index(&self, tick_index: i32) -> (r: (usize, bool))
        ensures
            is_place(self@, tick_index, r),
            r == tick_place(self@, tick_index),
    {
        proof {
            use_type_invariant(&*self);
        }
        let at = lower_bound(&self.entries, tick_index);
        let r = (at, at < self.entries.len() && self.entries[at].tick == tick_index);
        proof {
            lemma_place_unique(self@, tick_index, r);
        }
        r
    }

    pub fn get_next_liquidity(&self, idx: usize) -> (r: i128)
        requires
            idx < self@.len(),
        ensures
            r == self@[idx as int].net,
    {
        self.entries[idx].net
    }

    pub fn get_next_sqrt_prices_at(&self, idx: usize) -> (r: (u128, u128))
        requires
            idx < self@.len(),
        ensures
            r == (self@[idx as int].price, self@[idx as int].limit),
    {
        (self.entries[idx].price, self.entries[idx].limit)
    }

    pub fn get_tick_from_internal_index(&self, idx: usize) -> (r: Option<i32>)
        ensures
            r == if idx < self@.len() {
                Some(self@[idx as int].tick)
            } else {
                None
            },
    {
        if idx < self.entries.len() {
            Some(self.entries[idx].tick)
        } else {
            None
        }
    }

    pub fn len(&self) -> (r: usize)
        ensures
            r == self@.len(),
    {
        self.entries.len()
    }
}

impl Clone for TickArraySequence {
    fn clone(&self) -> (r: Self)
        ensures
            r@ == self@,
    {
        proof {
            use_type_invariant(self);
        }
        let entries = self.entries.clone();
        assert(entries@ =~= self.entries@);
        TickArraySequence { entries }
    }
}

impl Default for TickArraySequence {
    fn default() -> (r: Self)
        ensures
            r@ == Seq::<TickEntry>::empty(),
    {
        TickArraySequence::new()
    }
}

/// The place of the first tick that is not below `tick`.
fn lower_bound(entries: &Vec<TickEntry>, tick: i32) -> (r: usize)
    requires
        increasing(entries@),
    ensures
        r <= entries@.len(),
        forall|i: int| 0 <= i < r ==> (#[trigger] entries@[i]).tick < tick,
        forall|i: int| r <= i < entries@.len() ==> (#[trigger] entries@[i]).tick >= tick,
{
    let mut lo: usize = 0;
    let mut hi: usize = entries.len();
    while lo < hi
        invariant
            lo <= hi <= entries@.len(),
            increasing(entries@),
            forall|i: int| 0 <= i < lo ==> (#[trigger] entries@[i]).tick < tick,
            forall|i: int| hi <= i < entries@.len() ==> (#[trigger] entries@[i]).tick >= tick,
        decreases hi - lo,
    {
        let mid = lo + (hi - lo) / 2;
        if entries[mid].tick < tick {
            lo = mid + 1;
        } else {
            hi = mid;
        }
    }
    lo
}

/// Puts a tick in its place unless it is there already.
fn insert_tick(entries: &mut Vec<TickEntry>, tick: i32, net: i128, pool_type: ClmmPoolType, raw: Ghost<Seq<(i32, i128)>>)
    requires
        ordered_ticks(old(entries)@, raw@, pool_type),
    ensures
        ordered_ticks(final(entries)@, raw@.push((tick, net)), pool_type),
{
    let at = lower_bound(entries, tick);
    let ghost before = entries@;
    if at < entries.len() && entries[at].tick == tick {
        proof {
            lemma_tick_known(before, raw@, tick, net, pool_type, at as int);
        }
        return;
    }
    let (price, limit) = get_next_sqrt_prices(pool_type, tick);
    let entry = TickEntry { tick, net, price, limit };
    entries.insert(at, entry);
    proof {
        assert(entries@ =~= before.insert(at as int, entry));
        lemma_tick_new(before, raw@, entry, pool_type, at as int);
    }
}

/// A later raw tick leaves the first occurrences as they are.
proof fn lemma_first_stays(raw: Seq<(i32, i128)>, more: (i32, i128), pool_type: ClmmPoolType, entry: TickEntry)
    requires
        is_first(raw, pool_type, entry),
    ensures
        is_first(raw.push(more), pool_type, entry),
{
    let longer = raw.push(more);
    let j = choose|j: int| comes_first(raw, pool_type, entry, j);
    assert(longer[j] == raw[j]);
    assert forall|k: int| 0 <= k < j implies (#[trigger] longer[k]).0 != entry.tick by {
        assert(longer[k] == raw[k]);
    }
    assert(comes_first(longer, pool_type, entry, j));
}

proof fn lemma_tick_known(
    before: Seq<TickEntry>,
    raw: Seq<(i32, i128)>,
    tick: i32,
    net: i128,
    pool_type: ClmmPoolType,
    at: int,
)
    requires
        ordered_ticks(before, raw, pool_type),
        0 <= at < before.len(),
        before[at].tick == tick,
    ensures
        ordered_ticks(before, raw.push((tick, net)), pool_type),
{
    let longer = raw.push((tick, net));
    assert forall|i: int| 0 <= i < before.len() implies is_first(longer, pool_type, #[trigger] before[i]) by {
        lemma_first_stays(raw, (tick, net), pool_type, before[i]);
    }
    assert forall|j: int| 0 <= j < longer.len() implies has_tick(before, (#[trigger] longer[j]).0) by {
        if j < raw.len() {
            assert(longer[j] == raw[j]);
        } else {
            assert(before[at].tick == longer[j].0);
        }
    }
}

proof fn lemma_tick_new(
    before: Seq<TickEntry>,
    raw: Seq<(i32, i128)>,
    entry: TickEntry,
    pool_type: ClmmPoolType,
    at: int,
)
    requires
        ordered_ticks(before, raw, pool_type),
        0 <= at <= before.len(),
        forall|i: int| 0 <= i < at ==> (#[trigger] before[i]).tick < entry.tick,
        forall|i: int| at <= i < before.len() ==> (#[trigger] before[i]).tick > entry.tick,
        entry.price == pool_price(pool_type, entry.tick as int),
        entry.limit == clamped_price(entry.price as int),
    ensures
        ordered_ticks(before.insert(at, entry), raw.push((entry.tick, entry.net)), pool_type),
{
    let more = (entry.tick, entry.net);
    let longer = raw.push(more);
    let after = before.insert(at, entry);
    let n = raw.len() as int;
    assert(is_first(longer, pool_type, entry)) by {
        assert forall|k: int| 0 <= k < n implies (#[trigger] longer[k]).0 != entry.tick by {
            assert(longer[k] == raw[k]);
            assert(has_tick(before, raw[k].0));
        }
        assert(comes_first(longer, pool_type, entry, n));
    }
    assert forall|i: int| 0 <= i < after.len() implies is_first(longer, pool_type, #[trigger] after[i]) by {
        if i < at {
            assert(after[i] == before[i]);
            lemma_first_stays(raw, more, pool_type, before[i]);
        } else if i > at {
            assert(after[i] == before[i - 1]);
            lemma_first_stays(raw, more, pool_type, before[i - 1]);
        }
    }
    assert forall|j: int| 0 <= j < longer.len() implies has_tick(after, (#[trigger] longer[j]).0) by {
        if j < n {
            assert(longer[j] == raw[j]);
            assert(has_tick(before, raw[j].0));
            let i = choose|i: int| 0 <= i < before.len() && (#[trigger] before[i]).tick == raw[j].0;
            if i < at {
                assert(after[i] == before[i]);
            } else {
                assert(after[i + 1] == before[i]);
            }
        } else {
            assert(after[at] == entry);
        }
    }
    assert forall|i: int, j: int| 0 <= i < j < after.len() implies (#[trigger] after[i]).tick < (
    #[trigger] after[j]).tick by {
        let a = if i < at {
            before[i]
        } else if i == at {
            entry
        } else {
            before[i - 1]
        };
        let b = if j < at {
            before[j]
        } else if j == at {
            entry
        } else {
            before[j - 1]
        };
        assert(after[i] == a && after[j] == b);
    }
}

}
