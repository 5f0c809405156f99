//! Recorded updates in the order in which the chain wrote them.
use vstd::prelude::*;

verus! {

/// Whether one place comes before another: by its slot, then by its version,
/// then as recorded.
pub open spec fn precedes(keys: Seq<(u64, u64)>, a: int, b: int) -> bool {
    ||| keys[a].0 < keys[b].0
    ||| keys[a].0 == keys[b].0 && keys[a].1 < keys[b].1
    ||| keys[a] == keys[b] && a < b
}

/// Whether each place precedes those after it.
pub open spec fn in_order(keys: Seq<(u64, u64)>, p: Seq<usize>) -> bool {
    forall|i: int, j: int| 0 <= i < j < p.len() ==> #[trigger] precedes(keys, p[i] as int, p[j] as int)
}

/// Whether `p` lists the places from `lo` to `hi`, and no others.
pub open spec fn lists(p: Seq<usize>, lo: int, hi: int) -> bool {
    &&& p.len() == hi - lo
    &&& forall|i: int| 0 <= i < p.len() ==> lo <= #[trigger] p[i] < hi
    &&& forall|k: usize| lo <= k < hi ==> #[trigger] p.contains(k)
}

/// Whether `p` lists all places in order.
pub open spec fn is_order(keys: Seq<(u64, u64)>, p: Seq<usize>) -> bool {
    in_order(keys, p) && lists(p, 0, keys.len() as int)
}

/// The places in order.
pub open spec fn order_of(keys: Seq<(u64, u64)>) -> Seq<usize> {
    choose|p: Seq<usize>| is_order(keys, p)
}

/// The order is fixed by the keys.
pub proof fn law_order_unique(keys: Seq<(u64, u64)>, p: Seq<usize>, q: Seq<usize>)
    requires
        is_order(keys, p),
        is_order(keys, q),
    ensures
        p == q,
{
    lemma_same_prefix(keys, p, q, p.len());
    assert(p =~= q);
}

proof fn lemma_same_prefix(keys: Seq<(u64, u64)>, p: Seq<usize>, q: Seq<usize>, n: nat)
    requires
        is_order(keys, p),
        is_order(keys, q),
        n <= p.len(),
    ensures
        forall|i: int| 0 <= i < n ==> p[i] == q[i],
    decreases n,
{
    if n > 0 {
        let m = n - 1;
        lemma_same_prefix(keys, p, q, m as nat);
        if p[m] != q[m] {
            assert(q.contains(p[m]));
            let j = choose|j: int| 0 <= j < q.len() && q[j] == p[m];
            if j < m {
                assert(precedes(keys, p[j] as int, p[m] as int));
                assert(false);
            }
            assert(precedes(keys, q[m] as int, q[j] as int));
            assert(p.contains(q[m]));
            let i = choose|i: int| 0 <= i < p.len() && p[i] == q[m];
            if i < m {
                assert(precedes(keys, q[i] as int, q[m] as int));
                assert(false);
            }
            if i > m {
                assert(precedes(keys, p[m] as int, p[i] as int));
                assert(false);
            }
        }
    }
}

/// The first place of `p` from `i` on that comes after `x`.
spec fn first_after(keys: Seq<(u64, u64)>, p: Seq<usize>, x: usize, i: int) -> int
    decreases p.len() - i,
{
    if i >= p.len() || precedes(keys, x as int, p[i] as int) {
        i
    } else {
        first_after(keys, p, x, i + 1)
    }
}

proof fn lemma_first_after(keys: Seq<(u64, u64)>, p: Seq<usize>, x: usize, i: int)
    requires
        0 <= i <= p.len(),
        forall|k: int| 0 <= k < i ==> !precedes(keys, x as int, #[trigger] p[k] as int),
    ensures
        ({
            let m = first_after(keys, p, x, i);
            &&& i <= m <= p.len()
            &&& forall|k: int| 0 <= k < m ==> !precedes(keys, x as int, #[trigger] p[k] as int)
            &&& m < p.len() ==> precedes(keys, x as int, p[m] as int)
        }),
    decreases p.len() - i,
{
    if i < p.len() && !precedes(keys, x as int, p[i] as int) {
        lemma_first_after(keys, p, x, i + 1);
    }
}

proof fn lemma_prefix_order(keys: Seq<(u64, u64)>, n: nat) -> (p: Seq<usize>)
    requires
        n <= keys.len() <= usize::MAX,
    ensures
        in_order(keys, p),
        lists(p, 0, n as int),
    decreases n,
{
    if n == 0 {
        Seq::empty()
    } else {
        let q = lemma_prefix_order(keys, (n - 1) as nat);
        let x = (n - 1) as usize;
        lemma_first_after(keys, q, x, 0);
        let m = first_after(keys, q, x, 0);
        let p = q.insert(m, x);
        assert forall|i: int, j: int| 0 <= i < j < p.len() implies #[trigger] precedes(
            keys,
            p[i] as int,
            p[j] as int,
        ) by {
            let a = if i < m {
                q[i]
            } else if i == m {
                x
            } else {
                q[i - 1]
            };
            let b = if j < m {
                q[j]
            } else if j == m {
                x
            } else {
                q[j - 1]
            };
            assert(p[i] == a && p[j] == b);
            if i == m {
                if j - 1 > m {
                    assert(precedes(keys, q[m] as int, q[j - 1] as int));
                }
            } else if j == m {
                assert(!precedes(keys, x as int, q[i] as int));
            } else {
                let i0 = if i < m {
                    i
                } else {
                    i - 1
                };
                let j0 = if j < m {
                    j
                } else {
                    j - 1
                };
                assert(precedes(keys, q[i0] as int, q[j0] as int));
            }
        }
        assert forall|k: usize| 0 <= k < n implies #[trigger] p.contains(k) by {
            if k == x {
                assert(p[m] == x);
            } else {
                assert(q.contains(k));
                let i = choose|i: int| 0 <= i < q.len() && q[i] == k;
                if i < m {
                    assert(p[i] == k);
                } else {
                    assert(p[i + 1] == k);
                }
            }
        }
        p
    }
}

/// There is an order of any keys that fit in memory.
pub proof fn lemma_order_exists(keys: Seq<(u64, u64)>)
    requires
        keys.len() <= usize::MAX,
    ensures
        is_order(keys, order_of(keys)),
{
    let p = lemma_prefix_order(keys, keys.len());
    assert(is_order(keys, p));
}

/// Places in order name no place twice.
pub proof fn lemma_places_distinct(keys: Seq<(u64, u64)>, p: Seq<usize>, i: int, j: int)
    requires
        in_order(keys, p),
        0 <= i < p.len(),
        0 <= j < p.len(),
        p[i] == p[j],
    ensures
        i == j,
{
    if i < j {
        assert(precedes(keys, p[i] as int, p[j] as int));
    }
    if j < i {
        assert(precedes(keys, p[j] as int, p[i] as int));
    }
}

fn before(keys: &Vec<(u64, u64)>, a: usize, b: usize) -> (r: bool)
    requires
        a < keys.len(),
        b < keys.len(),
    ensures
        r == precedes(keys@, a as int, b as int),
{
    let (sa, va) = keys[a];
    let (sb, vb) = keys[b];
    if sa != sb {
        sa < sb
    } else if va != vb {
        va < vb
    } else {
        a < b
    }
}

/// Whether all places of `p` from `i` on come after `x`.
spec fn all_after(keys: Seq<(u64, u64)>, x: usize, p: Seq<usize>, i: int) -> bool {
    forall|k: int| i <= k < p.len() ==> #[trigger] precedes(keys, x as int, p[k] as int)
}

/// Merges the places below `mid` with those from `mid` on.
fn merge(keys: &Vec<(u64, u64)>, a: Vec<usize>, b: Vec<usize>, lo: Ghost<int>, mid: Ghost<int>, hi: Ghost<int>) -> (r: Vec<usize>)
    requires
        0 <= lo@ <= mid@ <= hi@ <= keys@.len(),
        in_order(keys@, a@),
        in_order(keys@, b@),
        lists(a@, lo@, mid@),
        lists(b@, mid@, hi@),
    ensures
        in_order(keys@, r@),
        lists(r@, lo@, hi@),
{
    let mut out: Vec<usize> = Vec::new();
    let mut i: usize = 0;
    let mut j: usize = 0;
    while i < a.len() || j < b.len()
        invariant
            0 <= lo@ <= mid@ <= hi@ <= keys@.len(),
            in_order(keys@, a@),
            in_order(keys@, b@),
            lists(a@, lo@, mid@),
            lists(b@, mid@, hi@),
            i <= a@.len(),
            j <= b@.len(),
            out@.len() == i + j,
            in_order(keys@, out@),
            forall|k: int| 0 <= k < out@.len() ==> all_after(keys@, #[trigger] out@[k], a@, i as int),
            forall|k: int| 0 <= k < out@.len() ==> all_after(keys@, #[trigger] out@[k], b@, j as int),
            forall|k: int| 0 <= k < out@.len() ==> lo@ <= #[trigger] out@[k] < hi@,
            forall|k: int| 0 <= k < i ==> out@.contains(#[trigger] a@[k]),
            forall|k: int| 0 <= k < j ==> out@.contains(#[trigger] b@[k]),
        decreases a@.len() - i + b@.len() - j,
    {
        let from_a = j >= b.len() || (i < a.len() && before(keys, a[i], b[j]));
        let ghost old_out = out@;
        let next = if from_a {
            a[i]
        } else {
            b[j]
        };
        proof {
            lemma_next_is_least(keys@, a@, b@, i as int, j as int, from_a, lo@, mid@, hi@);
            if from_a {
                assert forall|k: int| 0 <= k < old_out.len() implies precedes(
                    keys@,
                    #[trigger] old_out[k] as int,
                    next as int,
                ) by {
                    assert(all_after(keys@, old_out[k], a@, i as int));
                    assert(precedes(keys@, old_out[k] as int, a@[i as int] as int));
                }
            } else {
                assert forall|k: int| 0 <= k < old_out.len() implies precedes(
                    keys@,
                    #[trigger] old_out[k] as int,
                    next as int,
                ) by {
                    assert(all_after(keys@, old_out[k], b@, j as int));
                    assert(precedes(keys@, old_out[k] as int, b@[j as int] as int));
                }
            }
        }
        out.push(next);
        if from_a {
            i = i + 1;
        } else {
            j = j + 1;
        }
        proof {
            assert(out@[old_out.len() as int] == next);
            assert forall|k: int, m: int| 0 <= k < m < out@.len() implies #[trigger] precedes(
                keys@,
                out@[k] as int,
                out@[m] as int,
            ) by {
                assert(out@[k] == old_out[k]);
                if m < old_out.len() {
                    assert(out@[m] == old_out[m]);
                    assert(precedes(keys@, old_out[k] as int, old_out[m] as int));
                }
            }
            assert forall|k: int| 0 <= k < out@.len() implies all_after(
                keys@,
                #[trigger] out@[k],
                a@,
                i as int,
            ) && all_after(keys@, out@[k], b@, j as int) by {
                if k < old_out.len() {
                    assert(out@[k] == old_out[k]);
                    assert(all_after(keys@, old_out[k], a@, i as int));
                    assert(all_after(keys@, old_out[k], b@, j as int));
                }
            }
            assert forall|k: int| 0 <= k < i implies out@.contains(#[trigger] a@[k]) by {
                lemma_push_keeps(old_out, next, a@[k]);
            }
            assert forall|k: int| 0 <= k < j implies out@.contains(#[trigger] b@[k]) by {
                lemma_push_keeps(old_out, next, b@[k]);
            }
        }
    }
    proof {
        assert forall|k: usize| lo@ <= k < hi@ implies #[trigger] out@.contains(k) by {
            if k < mid@ {
                assert(a@.contains(k));
            } else {
                assert(b@.contains(k));
            }
        }
    }
    out
}

proof fn lemma_push_keeps(s: Seq<usize>, x: usize, y: usize)
    requires
        s.contains(y) || x == y,
    ensures
        s.push(x).contains(y),
{
    if x == y {
        assert(s.push(x)[s.len() as int] == y);
    } else {
        let i = choose|i: int| 0 <= i < s.len() && s[i] == y;
        assert(s.push(x)[i] == y);
    }
}

/// The place that a merge takes next precedes all that are left.
proof fn lemma_next_is_least(
    keys: Seq<(u64, u64)>,
    a: Seq<usize>,
    b: Seq<usize>,
    i: int,
    j: int,
    from_a: bool,
    lo: int,
    mid: int,
    hi: int,
)
    requires
        0 <= lo <= mid <= hi <= keys.len(),
        in_order(keys, a),
        in_order(keys, b),
        lists(a, lo, mid),
        lists(b, mid, hi),
        0 <= i <= a.len(),
        0 <= j <= b.len(),
        from_a ==> i < a.len() && (j < b.len() ==> precedes(keys, a[i] as int, b[j] as int)),
        !from_a ==> j < b.len() && (i < a.len() ==> !precedes(keys, a[i] as int, b[j] as int)),
    ensures
        from_a ==> all_after(keys, a[i], a, i + 1) && all_after(keys, a[i], b, j),
        !from_a ==> all_after(keys, b[j], a, i) && all_after(keys, b[j], b, j + 1),
{
    if from_a {
        assert forall|k: int| j <= k < b.len() implies #[trigger] precedes(keys, a[i] as int, b[k] as int) by {
            if j < k {
                assert(precedes(keys, b[j] as int, b[k] as int));
            }
        }
    } else {
        assert forall|k: int| i <= k < a.len() implies #[trigger] precedes(keys, b[j] as int, a[k] as int) by {
            assert(a[i] < mid <= b[j]);
            assert(precedes(keys, b[j] as int, a[i] as int));
            if i < k {
                assert(precedes(keys, a[i] as int, a[k] as int));
            }
        }
    }
}

fn sort_range(keys: &Vec<(u64, u64)>, lo: usize, hi: usize) -> (r: Vec<usize>)
    requires
        lo <= hi <= keys.len(),
    ensures
        in_order(keys@, r@),
        lists(r@, lo as int, hi as int),
    decreases hi - lo,
{
    if hi - lo <= 1 {
        let mut r: Vec<usize> = Vec::new();
        if lo < hi {
            r.push(lo);
            assert(r@[0] == lo);
            assert forall|k: usize| lo <= k < hi implies #[trigger] r@.contains(k) by {
                assert(r@[0] == k);
            }
        }
        return r;
    }
    let mid = lo + (hi - lo) / 2;
    let a = sort_range(keys, lo, mid);
    let b = sort_range(keys, mid, hi);
    merge(keys, a, b, Ghost(lo as int), Ghost(mid as int), Ghost(hi as int))
}

/// The places of the keys in order.
pub fn order_by_key(keys: &Vec<(u64, u64)>) -> (r: Vec<usize>)
    ensures
        is_order(keys@, r@),
        r@ == order_of(keys@),
{
    let r = sort_range(keys, 0, keys.len());
    proof {
        assert(is_order(keys@, r@));
        law_order_unique(keys@, r@, order_of(keys@));
    }
    r
}

/// Items in an order.
pub open spec fn arranged<T>(items: Seq<T>, order: Seq<usize>) -> Seq<T> {
    Seq::new(order.len(), |i: int| items[order[i] as int])
}

/// Puts items in the order of their keys.
pub fn arrange<T>(items: Vec<T>, keys: &Vec<(u64, u64)>) -> (r: Vec<T>)
    requires
        items@.len() == keys@.len(),
    ensures
        r@ == arranged(items@, order_of(keys@)),
{
    let order = order_by_key(keys);
    let ghost all = items@;
    let mut rest = items;
    let mut reversed: Vec<T> = Vec::new();
    while rest.len() > 0
        invariant
            rest@.len() + reversed@.len() == all.len(),
            rest@ =~= all.take(rest@.len() as int),
            forall|k: int| 0 <= k < reversed@.len() ==> reversed@[k] == all[all.len() - 1 - k],
        decreases rest@.len(),
    {
        let x = rest.pop().unwrap();
        reversed.push(x);
    }
    let mut slots: Vec<Option<T>> = Vec::new();
    while reversed.len() > 0
        invariant
            reversed@.len() + slots@.len() == all.len(),
            forall|k: int| 0 <= k < reversed@.len() ==> reversed@[k] == all[all.len() - 1 - k],
            forall|k: int| 0 <= k < slots@.len() ==> slots@[k] == Some(all[k]),
        decreases reversed@.len(),
    {
        let x = reversed.pop().unwrap();
        slots.push(Some(x));
    }
    let mut out: Vec<T> = Vec::new();
    let mut i: usize = 0;
    while i < order.len()
        invariant
            i <= order@.len(),
            is_order(keys@, order@),
            keys@.len() == all.len(),
            slots@.len() == all.len(),
            out@ =~= arranged(all, order@).take(i as int),
            forall|k: int|
                0 <= k < all.len() && !order@.take(i as int).contains(k as usize) ==> #[trigger] slots@[k] == Some(
                    all[k],
                ),
        decreases order@.len() - i,
    {
        let k = order[i];
        let mut taken: Option<T> = None;
        proof {
            if order@.take(i as int).contains(k) {
                let m = choose|m: int| 0 <= m < i && order@.take(i as int)[m] == k;
                lemma_places_distinct(keys@, order@, m, i as int);
            }
            assert(slots@[k as int] == Some(all[k as int]));
        }
        let ghost before = slots@;
        std::mem::swap(&mut slots[k], &mut taken);
        out.push(taken.unwrap());
        proof {
            let longer = order@.take(i + 1);
            assert(longer[i as int] == k);
            assert forall|m: int| 0 <= m < all.len() && !longer.contains(m as usize) implies #[trigger] slots@[m]
                == Some(all[m]) by {
                if order@.take(i as int).contains(m as usize) {
                    let n = choose|n: int| 0 <= n < i && order@.take(i as int)[n] == m as usize;
                    assert(longer[n] == m as usize);
                }
                assert(m != k);
                assert(slots@[m] == before[m]);
            }
        }
        i = i + 1;
    }
    assert(arranged(all, order@).take(i as int) =~= arranged(all, order@));
    out
}

}
