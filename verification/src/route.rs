//! What other pools would have paid for the swaps that a session saw.
use vstd::prelude::*;

use crate::bytes::str_eq;
use crate::engine::{ends_slot, starts_slot};
use crate::num::{fits_i64, signed64, u64_as_i64};
use crate::order::{arrange, arranged, lemma_order_exists, order_of, precedes};
use crate::protocols::{create_protocol, fresh_pool, PoolView, ProtocolReplay, UnsupportedAmm};
use crate::reader::{AccountUpdateRow, UpdateView};
use crate::session::PoolInfo;
use crate::text::{contains_part, decimal, decimal_text, holds_part, occurs_at, text_views};

verus! {

/// Whether a kind of pool quotes on its own and takes part in routes.
pub open spec fn is_propamm(amm_type: Seq<char>) -> bool {
    ||| amm_type == "humidifi"@
    ||| amm_type == "bisonfi"@
    ||| amm_type == "solfiv2"@
    ||| amm_type == "goonfi"@
    ||| amm_type == "tesserav"@
    ||| amm_type == "zerofi"@
}

/// Whether a pool's own balances do not show its swaps.
pub open spec fn hides_swaps(amm_type: Seq<char>) -> bool {
    amm_type == "tesserav"@
}

/// Whether a pool takes part in routes: of a kind that does, and of a symbol
/// that names both tokens.
pub open spec fn on_route(p: PoolInfo) -> bool {
    &&& is_propamm(p.amm_type@)
    &&& p.symbol is Some
    &&& holds_part(p.symbol->0@, "SOL"@)
    &&& holds_part(p.symbol->0@, "USDC"@)
}

fn is_on_route(p: &PoolInfo) -> (r: bool)
    ensures
        r == on_route(*p),
{
    let t = p.amm_type.as_str();
    let propamm = str_eq(t, "humidifi") || str_eq(t, "bisonfi") || str_eq(t, "solfiv2") || str_eq(t, "goonfi")
        || str_eq(t, "tesserav") || str_eq(t, "zerofi");
    match &p.symbol {
        Some(s) => propamm && contains_part(s.as_str(), "SOL") && contains_part(s.as_str(), "USDC"),
        None => false,
    }
}

/// The places of the pools on a route among the first `n`.
pub open spec fn route_places(pools: Seq<PoolInfo>, n: nat) -> Seq<usize>
    decreases n,
{
    if n == 0 {
        Seq::empty()
    } else {
        let rest = route_places(pools, (n - 1) as nat);
        if on_route(pools[n - 1]) {
            rest.push((n - 1) as usize)
        } else {
            rest
        }
    }
}

/// The pools of a session that take part in routes.
pub fn route_pools(pools: &Vec<PoolInfo>) -> (r: Vec<usize>)
    ensures
        r@ == route_places(pools@, pools@.len()),
{
    let mut places: Vec<usize> = Vec::new();
    let mut i: usize = 0;
    while i < pools.len()
        invariant
            i <= pools@.len(),
            places@ == route_places(pools@, i as nat),
        decreases pools@.len() - i,
    {
        if is_on_route(&pools[i]) {
            places.push(i);
        }
        i = i + 1;
    }
    places
}

/// An update of one of the pools.
#[derive(Debug)]
pub struct TaggedUpdate {
    pub pool_idx: usize,
    pub timestamp_ms: u64,
    pub slot: u64,
    pub write_version: u64,
    pub account_role: String,
    pub account_data: Vec<u8>,
}

/// What an update of one of the pools says.
#[verifier::ext_equal]
pub struct TaggedView {
    pub pool_idx: int,
    pub timestamp_ms: u64,
    pub slot: u64,
    pub write_version: u64,
    pub account_role: Seq<char>,
    pub account_data: Seq<u8>,
}

impl View for TaggedUpdate {
    type V = TaggedView;

    open spec fn view(&self) -> TaggedView {
        TaggedView {
            pool_idx: self.pool_idx as int,
            timestamp_ms: self.timestamp_ms,
            slot: self.slot,
            write_version: self.write_version,
            account_role: self.account_role@,
            account_data: self.account_data@,
        }
    }
}

/// What the updates of a list say.
pub open spec fn tagged_views(rows: Seq<TaggedUpdate>) -> Seq<TaggedView> {
    rows.map_values(|u: TaggedUpdate| u@)
}

/// A swap of a pool, and what another pool would have paid for it.
#[derive(Debug)]
pub struct RouteRow {
    pub swap_ts_ms: u64,
    pub swap_slot: u64,
    pub swap_pool_id: String,
    pub swap_amm_type: String,
    pub direction: String,
    pub input_amount: u64,
    pub actual_output: u64,
    pub candidate_pool_id: String,
    pub candidate_amm_type: String,
    pub candidate_output: u64,
}

/// What a row of a route says.
#[verifier::ext_equal]
pub struct RouteRowView {
    pub swap_ts_ms: u64,
    pub swap_slot: u64,
    pub swap_pool_id: Seq<char>,
    pub swap_amm_type: Seq<char>,
    pub direction: Seq<char>,
    pub input_amount: u64,
    pub actual_output: u64,
    pub candidate_pool_id: Seq<char>,
    pub candidate_amm_type: Seq<char>,
    pub candidate_output: u64,
}

impl View for RouteRow {
    type V = RouteRowView;

    open spec fn view(&self) -> RouteRowView {
        RouteRowView {
            swap_ts_ms: self.swap_ts_ms,
            swap_slot: self.swap_slot,
            swap_pool_id: self.swap_pool_id@,
            swap_amm_type: self.swap_amm_type@,
            direction: self.direction@,
            input_amount: self.input_amount,
            actual_output: self.actual_output,
            candidate_pool_id: self.candidate_pool_id@,
            candidate_amm_type: self.candidate_amm_type@,
            candidate_output: self.candidate_output,
        }
    }
}

/// What the rows of a list say.
pub open spec fn route_views(rows: Seq<RouteRow>) -> Seq<RouteRowView> {
    rows.map_values(|r: RouteRow| r@)
}

/// A swap that a pool's balances show: what came in and what went out.
#[derive(Clone, Copy, Debug, PartialEq, Eq, Structural)]
pub struct Swap {
    pub b2q: bool,
    pub input: u64,
    pub output: u64,
}

/// The swap between two pairs of balances: one grew and the other fell. The
/// inner option is empty where there is none; the outer one where a difference
/// does not fit in 64 signed bits.
pub open spec fn swap_between(before: (u64, u64), after: (u64, u64)) -> Option<Option<Swap>> {
    let bd = signed64(after.0 as int) - signed64(before.0 as int);
    let qd = signed64(after.1 as int) - signed64(before.1 as int);
    if !fits_i64(bd) || !fits_i64(qd) {
        None
    } else if bd > 0 && qd < 0 {
        if fits_i64(-qd) {
            Some(Some(Swap { b2q: true, input: bd as u64, output: (-qd) as u64 }))
        } else {
            None
        }
    } else if qd > 0 && bd < 0 {
        if fits_i64(-bd) {
            Some(Some(Swap { b2q: false, input: qd as u64, output: (-bd) as u64 }))
        } else {
            None
        }
    } else {
        Some(None)
    }
}

/// A swap between balances below half of the 64-bit range takes in what one
/// vault gained and pays out what the other lost.
pub proof fn law_swap_balances(before: (u64, u64), after: (u64, u64))
    requires
        before.0 <= i64::MAX,
        before.1 <= i64::MAX,
        after.0 <= i64::MAX,
        after.1 <= i64::MAX,
    ensures
        swap_between(before, after) is Some,
        swap_between(before, after)->0 matches Some(s) ==> (if s.b2q {
            after.0 == before.0 + s.input && after.1 == before.1 - s.output
        } else {
            after.1 == before.1 + s.input && after.0 == before.0 - s.output
        }) && s.input > 0 && s.output > 0,
        swap_between(before, after)->0 is None <==> !(before.0 < after.0 && after.1 < before.1 || after.0
            < before.0 && before.1 < after.1),
{
}

pub fn detect_swap(before: (u64, u64), after: (u64, u64)) -> (r: Option<Option<Swap>>)
    ensures
        r == swap_between(before, after),
{
    let bd = u64_as_i64(after.0).checked_sub(u64_as_i64(before.0))?;
    let qd = u64_as_i64(after.1).checked_sub(u64_as_i64(before.1))?;
    if bd > 0 && qd < 0 {
        if qd == i64::MIN {
            return None;
        }
        Some(Some(Swap { b2q: true, input: bd as u64, output: (-qd) as u64 }))
    } else if qd > 0 && bd < 0 {
        if bd == i64::MIN {
            return None;
        }
        Some(Some(Swap { b2q: false, input: qd as u64, output: (-bd) as u64 }))
    } else {
        Some(None)
    }
}

/// The name of a swap's direction.
pub open spec fn direction_name(b2q: bool) -> Seq<char> {
    if b2q {
        "B2Q"@
    } else {
        "Q2B"@
    }
}

/// An analysis between two updates.
#[verifier::ext_equal]
pub struct RouteView {
    pub pools: Seq<PoolView>,
    pub pool_ids: Seq<Seq<char>>,
    pub amm_types: Seq<Seq<char>>,
    pub start_vaults: Seq<Option<(u64, u64)>>,
    pub end_ts: Seq<u64>,
    pub rows: Seq<RouteRowView>,
}

/// What the slots of the updates say of where a slot starts and ends.
pub open spec fn slot_views(updates: Seq<TaggedView>) -> Seq<UpdateView> {
    updates.map_values(
        |u: TaggedView|
            UpdateView {
                timestamp_ms: u.timestamp_ms,
                slot: u.slot,
                write_version: u.write_version,
                txn_signature: Seq::empty(),
                account_role: u.account_role,
                account_data: u.account_data,
            },
    )
}

impl RouteView {
    pub open spec fn wf(self) -> bool {
        let n = self.pools.len();
        self.pool_ids.len() == n && self.amm_types.len() == n && self.start_vaults.len() == n
            && self.end_ts.len() == n
    }

    /// The analysis with an update of a pool. Slot zero only sets the balances
    /// that the first slot starts from.
    pub open spec fn applied(self, u: TaggedView) -> Option<Self> {
        let p = self.pools[u.pool_idx];
        let next = p.updated(u.account_role, u.account_data, u.slot);
        let pools = self.pools.update(u.pool_idx, next);
        if !p.accepts(u.account_role, u.account_data) {
            None
        } else if u.slot != 0 {
            Some(RouteView { pools, end_ts: self.end_ts.update(u.pool_idx, u.timestamp_ms), ..self })
        } else if next.balances() is Some {
            Some(
                RouteView {
                    pools,
                    start_vaults: self.start_vaults.update(u.pool_idx, next.balances()),
                    ..self
                },
            )
        } else {
            Some(RouteView { pools, ..self })
        }
    }

    /// The analysis with the balances of the pools of which none were known.
    pub open spec fn filled(self) -> Self {
        RouteView {
            start_vaults: Seq::new(
                self.pools.len(),
                |k: int|
                    if self.start_vaults[k] is None {
                        self.pools[k].balances()
                    } else {
                        self.start_vaults[k]
                    },
            ),
            ..self
        }
    }

    /// The rows of a swap with the first `n` pools.
    pub open spec fn candidates(self, idx: int, slot: u64, s: Swap, n: nat) -> Option<Seq<RouteRowView>>
        decreases n,
    {
        if n == 0 {
            Some(Seq::empty())
        } else {
            let other = n - 1;
            match self.candidates(idx, slot, s, other as nat) {
                None => None,
                Some(rest) => if other == idx || !self.pools[other].ready() {
                    Some(rest)
                } else {
                    match self.pools[other].single(s.input as int, direction_name(s.b2q), slot as int) {
                        None => None,
                        Some(None) => Some(rest),
                        Some(Some(c)) => if c > 0 {
                            Some(
                                rest.push(
                                    RouteRowView {
                                        swap_ts_ms: self.end_ts[idx],
                                        swap_slot: slot,
                                        swap_pool_id: self.pool_ids[idx],
                                        swap_amm_type: self.amm_types[idx],
                                        direction: direction_name(s.b2q),
                                        input_amount: s.input,
                                        actual_output: s.output,
                                        candidate_pool_id: self.pool_ids[other],
                                        candidate_amm_type: self.amm_types[other],
                                        candidate_output: c,
                                    },
                                ),
                            )
                        } else {
                            Some(rest)
                        },
                    }
                },
            }
        }
    }

    /// Whether a row compares a swap of a pool with another pool.
    pub open spec fn compares(self, idx: int, slot: u64, s: Swap, other: int, row: RouteRowView) -> bool {
        &&& 0 <= other < self.pools.len() && other != idx
        &&& self.pools[other].ready()
        &&& self.pools[other].single(s.input as int, direction_name(s.b2q), slot as int) == Some(
            Some(row.candidate_output),
        )
        &&& row.candidate_output > 0
        &&& row.candidate_pool_id == self.pool_ids[other]
        &&& row.candidate_amm_type == self.amm_types[other]
        &&& row.swap_pool_id == self.pool_ids[idx]
        &&& row.swap_slot == slot
        &&& row.input_amount == s.input
        &&& row.actual_output == s.output
    }

    /// The analysis after the swap of a pool in a slot, if there was one.
    pub open spec fn swapped(self, idx: int, slot: u64) -> Option<Self> {
        match self.pools[idx].balances() {
            None => Some(self),
            Some(now) => {
                let moved = RouteView { start_vaults: self.start_vaults.update(idx, Some(now)), ..self };
                match self.start_vaults[idx] {
                    None => Some(moved),
                    Some(then) => match swap_between(then, now) {
                        None => None,
                        Some(None) => Some(moved),
                        Some(Some(s)) => if hides_swaps(self.amm_types[idx]) {
                            Some(moved)
                        } else {
                            match self.candidates(idx, slot, s, self.pools.len()) {
                                None => None,
                                Some(rows) => Some(RouteView { rows: self.rows + rows, ..moved }),
                            }
                        },
                    },
                }
            },
        }
    }

    /// The analysis after the swaps of the first `n` pools in a slot.
    pub open spec fn slot_closed(self, slot: u64, n: nat) -> Option<Self>
        decreases n,
    {
        if n == 0 {
            Some(self)
        } else {
            match self.slot_closed(slot, (n - 1) as nat) {
                None => None,
                Some(s) => s.swapped(n - 1, slot),
            }
        }
    }

    /// The analysis after an update: a slot other than zero opens with its
    /// first update, and its swaps are looked for after its last.
    pub open spec fn stepped(self, u: TaggedView, starts: bool, ends: bool) -> Option<Self> {
        let opened = if starts && u.slot != 0 {
            self.filled()
        } else {
            self
        };
        match opened.applied(u) {
            None => None,
            Some(s) => if ends && u.slot != 0 {
                s.slot_closed(u.slot, s.pools.len())
            } else {
                Some(s)
            },
        }
    }

    /// The analysis after the first `n` updates; nothing where one of them
    /// cannot be read, or a number outgrows its type.
    pub open spec fn analysed(self, updates: Seq<TaggedView>, n: nat) -> Option<Self>
        decreases n,
    {
        if n == 0 {
            Some(self)
        } else {
            let i = n - 1;
            match self.analysed(updates, i as nat) {
                None => None,
                Some(s) => s.stepped(
                    updates[i],
                    starts_slot(slot_views(updates), i),
                    ends_slot(slot_views(updates), i),
                ),
            }
        }
    }
}

proof fn lemma_analysed_stays_none(s: RouteView, updates: Seq<TaggedView>, n: nat, m: nat)
    requires
        s.analysed(updates, n) is None,
        n <= m,
    ensures
        s.analysed(updates, m) is None,
    decreases m,
{
    if n < m {
        lemma_analysed_stays_none(s, updates, n, (m - 1) as nat);
    }
}

proof fn lemma_closed_stays_none(s: RouteView, slot: u64, n: nat, m: nat)
    requires
        s.slot_closed(slot, n) is None,
        n <= m,
    ensures
        s.slot_closed(slot, m) is None,
    decreases m,
{
    if n < m {
        lemma_closed_stays_none(s, slot, n, (m - 1) as nat);
    }
}

proof fn lemma_candidates_stay_none(s: RouteView, idx: int, slot: u64, swap: Swap, n: nat, m: nat)
    requires
        s.candidates(idx, slot, swap, n) is None,
        n <= m,
    ensures
        s.candidates(idx, slot, swap, m) is None,
    decreases m,
{
    if n < m {
        lemma_candidates_stay_none(s, idx, slot, swap, n, (m - 1) as nat);
    }
}

/// A swap is compared with other pools only, each of them ready and paying
/// something for the same input.
pub proof fn law_candidates_are_other_pools(a: RouteView, idx: int, slot: u64, s: Swap, n: nat, k: int)
    requires
        n <= a.pools.len(),
        a.candidates(idx, slot, s, n) is Some,
        0 <= k < a.candidates(idx, slot, s, n)->0.len(),
    ensures
        exists|other: int| a.compares(idx, slot, s, other, a.candidates(idx, slot, s, n)->0[k]),
    decreases n,
{
    let other = n - 1;
    let rest = a.candidates(idx, slot, s, other as nat)->0;
    let rows = a.candidates(idx, slot, s, n)->0;
    if k < rest.len() {
        law_candidates_are_other_pools(a, idx, slot, s, other as nat, k);
        assert(rows[k] == rest[k]);
    } else {
        assert(a.compares(idx, slot, s, other, rows[k]));
    }
}

/// Closing a slot moves on the balances that swaps are measured from: each
/// pool's next swap starts from the pool's balances at the end of the slot. The
/// pools and what is known of them stay, and no row is taken back.
pub proof fn law_next_swap_starts_from_the_slots_end(a: RouteView, slot: u64, n: nat)
    requires
        a.wf(),
        n <= a.pools.len(),
        a.slot_closed(slot, n) is Some,
    ensures
        ({
            let s = a.slot_closed(slot, n)->0;
            &&& s.wf()
            &&& s.pools == a.pools
            &&& s.pool_ids == a.pool_ids
            &&& s.amm_types == a.amm_types
            &&& s.end_ts == a.end_ts
            &&& a.rows.is_prefix_of(s.rows)
            &&& forall|k: int|
                0 <= k < n && (#[trigger] s.pools[k]).balances() is Some ==> s.start_vaults[k] == s.pools[k].balances()
            &&& forall|k: int|
                0 <= k < n && (#[trigger] s.pools[k]).balances() is None ==> s.start_vaults[k] == a.start_vaults[k]
            &&& forall|k: int| n <= k < a.pools.len() ==> #[trigger] s.start_vaults[k] == a.start_vaults[k]
        }),
    decreases n,
{
    if n > 0 {
        law_next_swap_starts_from_the_slots_end(a, slot, (n - 1) as nat);
    }
}

/// A step of an analysis applies its update to the one pool that it names, and
/// takes back no row. An update of slot zero finds no swap; it only sets the
/// balances that its own pool's first swap is measured from.
pub proof fn law_step_updates_one_pool(a: RouteView, u: TaggedView, starts: bool, ends: bool)
    requires
        a.wf(),
        0 <= u.pool_idx < a.pools.len(),
        a.stepped(u, starts, ends) is Some,
    ensures
        ({
            let s = a.stepped(u, starts, ends)->0;
            let i = u.pool_idx;
            &&& s.wf()
            &&& s.pools.len() == a.pools.len()
            &&& s.pools[i] == a.pools[i].updated(u.account_role, u.account_data, u.slot)
            &&& forall|k: int| 0 <= k < a.pools.len() && k != i ==> #[trigger] s.pools[k] == a.pools[k]
            &&& s.pool_ids == a.pool_ids
            &&& s.amm_types == a.amm_types
            &&& u.slot != 0 ==> s.end_ts[i] == u.timestamp_ms
            &&& forall|k: int|
                0 <= k < a.pools.len() && (k != i || u.slot == 0) ==> #[trigger] s.end_ts[k] == a.end_ts[k]
            &&& a.rows.is_prefix_of(s.rows)
            &&& u.slot == 0 || !ends ==> s.rows == a.rows
            &&& u.slot == 0 && s.pools[i].balances() is Some ==> s.start_vaults[i] == s.pools[i].balances()
            &&& u.slot == 0 && s.pools[i].balances() is None ==> s.start_vaults[i] == a.start_vaults[i]
            &&& u.slot == 0 ==> forall|k: int|
                0 <= k < a.pools.len() && k != i ==> #[trigger] s.start_vaults[k] == a.start_vaults[k]
        }),
{
    let opened = if starts && u.slot != 0 {
        a.filled()
    } else {
        a
    };
    let b = opened.applied(u)->0;
    if ends && u.slot != 0 {
        law_next_swap_starts_from_the_slots_end(b, u.slot, b.pools.len());
    }
}

/// In a slot other than zero, a pool's swap is measured from the balances that
/// were known when the slot opened, or else from those that the pool had then.
/// No update within the slot moves them; the slot's end does.
pub proof fn law_swap_is_measured_over_the_slot(a: RouteView, u: TaggedView, starts: bool, ends: bool, k: int)
    requires
        a.wf(),
        0 <= u.pool_idx < a.pools.len(),
        u.slot != 0,
        a.stepped(u, starts, ends) is Some,
        0 <= k < a.pools.len(),
    ensures
        ({
            let s = a.stepped(u, starts, ends)->0;
            &&& !ends && a.start_vaults[k] is Some ==> s.start_vaults[k] == a.start_vaults[k]
            &&& !ends && a.start_vaults[k] is None && starts ==> s.start_vaults[k] == a.pools[k].balances()
            &&& !ends && a.start_vaults[k] is None && !starts ==> s.start_vaults[k] is None
            &&& ends && s.pools[k].balances() is Some ==> s.start_vaults[k] == s.pools[k].balances()
        }),
{
    let opened = if starts {
        a.filled()
    } else {
        a
    };
    let b = opened.applied(u)->0;
    if ends {
        law_next_swap_starts_from_the_slots_end(b, u.slot, b.pools.len());
    }
}

proof fn lemma_analysed_keeps_shape(a: RouteView, updates: Seq<TaggedView>, n: nat)
    requires
        a.wf(),
        n <= updates.len(),
        forall|i: int| 0 <= i < updates.len() ==> 0 <= (#[trigger] updates[i]).pool_idx < a.pools.len(),
        a.analysed(updates, n) is Some,
    ensures
        a.analysed(updates, n)->0.wf(),
        a.analysed(updates, n)->0.pools.len() == a.pools.len(),
    decreases n,
{
    if n > 0 {
        lemma_analysed_keeps_shape(a, updates, (n - 1) as nat);
        law_step_updates_one_pool(
            a.analysed(updates, (n - 1) as nat)->0,
            updates[n - 1],
            starts_slot(slot_views(updates), n - 1),
            ends_slot(slot_views(updates), n - 1),
        );
    }
}

/// After the last update of a slot, and while the next slot is open, each
/// pool's swap is measured from the balances that the pool had at the end of
/// that slot. So nothing that a pool gains between two slots goes unseen, and
/// nothing is counted twice.
pub proof fn law_slots_join(a: RouteView, updates: Seq<TaggedView>, m: nat, n: nat, k: int)
    requires
        a.wf(),
        0 < m <= n <= updates.len(),
        forall|i: int| 0 <= i < updates.len() ==> 0 <= (#[trigger] updates[i]).pool_idx < a.pools.len(),
        updates[m - 1].slot != 0,
        m == updates.len() || updates[m as int].slot != updates[m - 1].slot,
        forall|i: int|
            m <= i < n ==> (#[trigger] updates[i]).slot != 0 && i + 1 < updates.len() && updates[i + 1].slot
                == updates[i].slot,
        0 <= k < a.pools.len(),
        a.analysed(updates, n) is Some,
        a.analysed(updates, m) is Some,
        a.analysed(updates, m)->0.pools[k].balances() is Some,
    ensures
        a.analysed(updates, n)->0.start_vaults[k] == a.analysed(updates, m)->0.pools[k].balances(),
        a.analysed(updates, n)->0.rows == a.analysed(updates, m)->0.rows,
    decreases n,
{
    let slots = slot_views(updates);
    let before = a.analysed(updates, (n - 1) as nat)->0;
    assert(slots[n - 1].slot == updates[n - 1].slot);
    assert(n < updates.len() ==> slots[n as int].slot == updates[n as int].slot);
    lemma_analysed_keeps_shape(a, updates, (n - 1) as nat);
    law_swap_is_measured_over_the_slot(
        before,
        updates[n - 1],
        starts_slot(slots, n - 1),
        ends_slot(slots, n - 1),
        k,
    );
    law_step_updates_one_pool(before, updates[n - 1], starts_slot(slots, n - 1), ends_slot(slots, n - 1));
    if m < n {
        law_slots_join(a, updates, m, (n - 1) as nat, k);
    }
}

/// Whether balances lie below half of the 64-bit range.
pub open spec fn in_half_range(b: (u64, u64)) -> bool {
    b.0 <= i64::MAX && b.1 <= i64::MAX
}

/// Whether a row compares the swap of a pool, seen in how its balances moved
/// over a slot, with what another pool would have paid for the same input.
pub open spec fn row_shows(a: RouteView, idx: int, other: int, slot: u64, row: RouteRowView) -> bool {
    let then = a.start_vaults[idx]->0;
    let now = a.pools[idx].balances()->0;
    &&& 0 <= idx < a.pools.len() && 0 <= other < a.pools.len() && other != idx
    &&& a.start_vaults[idx] is Some && a.pools[idx].balances() is Some
    &&& a.amm_types[idx] != "tesserav"@
    &&& row.input_amount > 0 && row.actual_output > 0
    &&& {
        ||| row.direction == "B2Q"@ && now.0 == then.0 + row.input_amount && now.1 == then.1 - row.actual_output
        ||| row.direction == "Q2B"@ && now.1 == then.1 + row.input_amount && now.0 == then.0 - row.actual_output
    }
    &&& row.swap_slot == slot
    &&& row.swap_ts_ms == a.end_ts[idx]
    &&& row.swap_pool_id == a.pool_ids[idx]
    &&& row.swap_amm_type == a.amm_types[idx]
    &&& a.pools[other].ready()
    &&& row.candidate_output > 0
    &&& a.pools[other].single(row.input_amount as int, row.direction, slot as int) == Some(
        Some(row.candidate_output),
    )
    &&& row.candidate_pool_id == a.pool_ids[other]
    &&& row.candidate_amm_type == a.amm_types[other]
}

/// Whether another pool would have paid something for the swap of a pool.
pub open spec fn would_pay(a: RouteView, idx: int, other: int, slot: u64) -> bool {
    let then = a.start_vaults[idx]->0;
    let now = a.pools[idx].balances()->0;
    let p = a.pools[other];
    &&& 0 <= idx < a.pools.len() && 0 <= other < a.pools.len() && other != idx
    &&& a.start_vaults[idx] is Some && a.pools[idx].balances() is Some
    &&& a.amm_types[idx] != "tesserav"@
    &&& p.ready()
    &&& {
        ||| then.0 < now.0 && now.1 < then.1 && pays(p.single(now.0 - then.0, "B2Q"@, slot as int))
        ||| then.1 < now.1 && now.0 < then.0 && pays(p.single(now.1 - then.1, "Q2B"@, slot as int))
    }
}

/// Whether a quote pays something.
pub open spec fn pays(q: Option<Option<u64>>) -> bool {
    q is Some && q->0 is Some && q->0->0 > 0
}

/// Whether rows are those of the swaps of the first `n` pools in a slot, with
/// the pools that each row compares.
pub open spec fn lists_swaps(a: RouteView, slot: u64, n: int, at: Seq<(int, int)>, rows: Seq<RouteRowView>) -> bool {
    &&& at.len() == rows.len()
    &&& forall|k: int|
        #![trigger rows[k]]
        #![trigger at[k]]
        0 <= k < rows.len() ==> at[k].0 < n && row_shows(a, at[k].0, at[k].1, slot, rows[k])
    &&& forall|j: int, k: int|
        0 <= j < k < at.len() ==> (#[trigger] at[j]).0 < (#[trigger] at[k]).0 || at[j].0 == at[k].0 && at[j].1
            < at[k].1
    &&& forall|idx: int, other: int|
        idx < n && #[trigger] would_pay(a, idx, other, slot) ==> at.contains((idx, other))
}

spec fn paying(a: RouteView, idx: int, slot: u64, s: Swap, n: nat) -> Seq<(int, int)>
    decreases n,
{
    if n == 0 {
        Seq::empty()
    } else {
        let rest = paying(a, idx, slot, s, (n - 1) as nat);
        let p = a.pools[n - 1];
        if n - 1 != idx && p.ready() && pays(p.single(s.input as int, direction_name(s.b2q), slot as int)) {
            rest.push((idx, n - 1))
        } else {
            rest
        }
    }
}

proof fn lemma_paying(a: RouteView, idx: int, slot: u64, s: Swap, n: nat)
    requires
        a.wf(),
        0 <= idx < a.pools.len(),
        n <= a.pools.len(),
        a.start_vaults[idx] is Some,
        a.pools[idx].balances() is Some,
        in_half_range(a.start_vaults[idx]->0),
        in_half_range(a.pools[idx].balances()->0),
        !hides_swaps(a.amm_types[idx]),
        swap_between(a.start_vaults[idx]->0, a.pools[idx].balances()->0) == Some(Some(s)),
        a.candidates(idx, slot, s, n) is Some,
    ensures
        ({
            let rows = a.candidates(idx, slot, s, n)->0;
            let at = paying(a, idx, slot, s, n);
            &&& at.len() == rows.len()
            &&& forall|k: int|
                #![trigger rows[k]]
                #![trigger at[k]]
                0 <= k < rows.len() ==> at[k].0 == idx && at[k].1 < n && row_shows(a, idx, at[k].1, slot, rows[k])
            &&& forall|j: int, k: int| 0 <= j < k < at.len() ==> (#[trigger] at[j]).1 < (#[trigger] at[k]).1
            &&& forall|other: int|
                other < n && #[trigger] would_pay(a, idx, other, slot) ==> at.contains((idx, other))
        }),
    decreases n,
{
    if n > 0 {
        lemma_paying(a, idx, slot, s, (n - 1) as nat);
        law_swap_balances(a.start_vaults[idx]->0, a.pools[idx].balances()->0);
        let rest = a.candidates(idx, slot, s, (n - 1) as nat)->0;
        let rest_at = paying(a, idx, slot, s, (n - 1) as nat);
        let rows = a.candidates(idx, slot, s, n)->0;
        let at = paying(a, idx, slot, s, n);
        assert forall|k: int|
            #![trigger rows[k]]
            #![trigger at[k]]
            0 <= k < rows.len() implies at[k].0 == idx && at[k].1 < n && row_shows(a, idx, at[k].1, slot, rows[k]) by {
            if k < rest.len() {
                assert(rows[k] == rest[k]);
                assert(at[k] == rest_at[k]);
            }
        }
        assert forall|j: int, k: int| 0 <= j < k < at.len() implies (#[trigger] at[j]).1 < (#[trigger] at[k]).1 by {
            assert(at[j] == rest_at[j]);
            assert(0 <= j < rest.len());
            assert(row_shows(a, idx, rest_at[j].1, slot, rest[j]));
            if k < rest.len() {
                assert(at[k] == rest_at[k]);
            }
        }
        assert forall|other: int| other < n && #[trigger] would_pay(a, idx, other, slot) implies at.contains(
            (idx, other),
        ) by {
            if other == n - 1 {
                assert(at.last() == (idx, other));
                assert(at[at.len() - 1] == (idx, other));
            } else {
                assert(rest_at.contains((idx, other)));
                let k = choose|k: int| 0 <= k < rest_at.len() && rest_at[k] == (idx, other);
                assert(at[k] == (idx, other));
            }
        }
    }
}

proof fn lemma_candidates_of_same_pools(a: RouteView, b: RouteView, idx: int, slot: u64, s: Swap, n: nat)
    requires
        a.pools == b.pools,
        a.pool_ids == b.pool_ids,
        a.amm_types == b.amm_types,
        a.end_ts == b.end_ts,
    ensures
        a.candidates(idx, slot, s, n) == b.candidates(idx, slot, s, n),
    decreases n,
{
    if n > 0 {
        lemma_candidates_of_same_pools(a, b, idx, slot, s, (n - 1) as nat);
    }
}

proof fn lemma_rows_join(
    a: RouteView,
    slot: u64,
    n: int,
    at: Seq<(int, int)>,
    rows: Seq<RouteRowView>,
    more_at: Seq<(int, int)>,
    more: Seq<RouteRowView>,
)
    requires
        lists_swaps(a, slot, n, at, rows),
        more_at.len() == more.len(),
        forall|k: int|
            #![trigger more[k]]
            #![trigger more_at[k]]
            0 <= k < more.len() ==> more_at[k].0 == n && row_shows(a, n, more_at[k].1, slot, more[k]),
        forall|j: int, k: int|
            0 <= j < k < more_at.len() ==> (#[trigger] more_at[j]).1 < (#[trigger] more_at[k]).1,
        forall|other: int| #[trigger] would_pay(a, n, other, slot) ==> more_at.contains((n, other)),
    ensures
        lists_swaps(a, slot, n + 1, at + more_at, rows + more),
{
    let all_at = at + more_at;
    let all = rows + more;
    assert forall|k: int|
        #![trigger all[k]]
        #![trigger all_at[k]]
        0 <= k < all.len() implies all_at[k].0 < n + 1 && row_shows(a, all_at[k].0, all_at[k].1, slot, all[k]) by {
        if k < rows.len() {
            assert(all[k] == rows[k]);
        } else {
            assert(all[k] == more[k - rows.len()]);
        }
    }
    assert forall|j: int, k: int| 0 <= j < k < all_at.len() implies (#[trigger] all_at[j]).0 < (
    #[trigger] all_at[k]).0 || all_at[j].0 == all_at[k].0 && all_at[j].1 < all_at[k].1 by {
        if k < at.len() {
            assert(all_at[j] == at[j] && all_at[k] == at[k]);
        } else {
            assert(all_at[k] == more_at[k - at.len()]);
            assert(row_shows(a, n, more_at[k - at.len()].1, slot, more[k - at.len()]));
            if j < at.len() {
                assert(all_at[j] == at[j]);
                assert(row_shows(a, at[j].0, at[j].1, slot, rows[j]));
            } else {
                assert(all_at[j] == more_at[j - at.len()]);
                assert(row_shows(a, n, more_at[j - at.len()].1, slot, more[j - at.len()]));
            }
        }
    }
    assert forall|idx: int, other: int| idx < n + 1 && #[trigger] would_pay(a, idx, other, slot) implies all_at.contains(
        (idx, other),
    ) by {
        if idx < n {
            assert(at.contains((idx, other)));
            let k = choose|k: int| 0 <= k < at.len() && at[k] == (idx, other);
            assert(all_at[k] == (idx, other));
        } else {
            assert(more_at.contains((idx, other)));
            let k = choose|k: int| 0 <= k < more_at.len() && more_at[k] == (idx, other);
            assert(all_at[at.len() + k] == (idx, other));
        }
    }
}

/// Closing a slot adds one row for each pool whose balances moved against each
/// other over the slot and each other pool that would have paid for the input,
/// and no other row: first by the pool that swapped, then by the other pool.
pub proof fn law_rows_of_a_slot(a: RouteView, slot: u64, n: nat) -> (at: Seq<(int, int)>)
    requires
        a.wf(),
        n <= a.pools.len(),
        forall|k: int|
            0 <= k < a.pools.len() && (#[trigger] a.pools[k]).balances() is Some ==> in_half_range(
                a.pools[k].balances()->0,
            ),
        forall|k: int|
            0 <= k < a.pools.len() && #[trigger] a.start_vaults[k] is Some ==> in_half_range(a.start_vaults[k]->0),
        a.slot_closed(slot, n) is Some,
    ensures
        a.rows.is_prefix_of(a.slot_closed(slot, n)->0.rows),
        lists_swaps(a, slot, n as int, at, a.slot_closed(slot, n)->0.rows.skip(a.rows.len() as int)),
    decreases n,
{
    if n == 0 {
        assert(a.rows.skip(a.rows.len() as int) =~= Seq::empty());
        Seq::empty()
    } else {
        let i = n - 1;
        let at = law_rows_of_a_slot(a, slot, i as nat);
        law_next_swap_starts_from_the_slots_end(a, slot, i as nat);
        let before = a.slot_closed(slot, i as nat)->0;
        let s = a.slot_closed(slot, n)->0;
        let rows = before.rows.skip(a.rows.len() as int);
        let old_rows = a.rows;
        assert(before.start_vaults[i] == a.start_vaults[i]);
        assert(before.rows.len() >= a.rows.len());
        if before.start_vaults[i] is Some && before.pools[i].balances() is Some && !hides_swaps(a.amm_types[i])
            && swap_between(before.start_vaults[i]->0, before.pools[i].balances()->0)->0 is Some {
            let swap = swap_between(before.start_vaults[i]->0, before.pools[i].balances()->0)->0->0;
            lemma_candidates_of_same_pools(a, before, i, slot, swap, a.pools.len());
            lemma_paying(a, i, slot, swap, a.pools.len());
            let more = a.candidates(i, slot, swap, a.pools.len())->0;
            let more_at = paying(a, i, slot, swap, a.pools.len());
            lemma_rows_join(a, slot, i, at, rows, more_at, more);
            assert(s.rows.skip(a.rows.len() as int) =~= rows + more);
            assert(a.rows.is_prefix_of(s.rows)) by {
                assert(a.rows =~= s.rows.take(a.rows.len() as int));
            }
            at + more_at
        } else {
            if a.start_vaults[i] is Some && a.pools[i].balances() is Some {
                law_swap_balances(a.start_vaults[i]->0, a.pools[i].balances()->0);
            }
            lemma_rows_join(a, slot, i, at, rows, Seq::empty(), Seq::empty());
            assert(s.rows.skip(a.rows.len() as int) =~= rows + Seq::<RouteRowView>::empty());
            at + Seq::<(int, int)>::empty()
        }
    }
}

/// What the swaps between consecutive balances take in, added up.
pub open spec fn total_input(balances: Seq<(u64, u64)>) -> int
    decreases balances.len(),
{
    if balances.len() < 2 {
        0
    } else {
        let rest = balances.drop_last();
        total_input(rest) + match swap_between(rest.last(), balances.last()) {
            Some(Some(s)) => s.input as int,
            _ => 0,
        }
    }
}

/// What a pool takes in over swaps that all sell base tokens, each measured
/// from where the one before ended, is what its base vault gained.
pub proof fn law_inputs_add_up(balances: Seq<(u64, u64)>)
    requires
        balances.len() > 0,
        forall|k: int| 0 <= k < balances.len() ==> in_half_range(#[trigger] balances[k]),
        forall|k: int|
            0 < k < balances.len() ==> balances[k - 1].0 < (#[trigger] balances[k]).0 && balances[k].1 < balances[k
                - 1].1,
    ensures
        total_input(balances) == balances.last().0 - balances[0].0,
    decreases balances.len(),
{
    if balances.len() >= 2 {
        let rest = balances.drop_last();
        assert forall|k: int| 0 < k < rest.len() implies rest[k - 1].0 < (#[trigger] rest[k]).0 && rest[k].1 < rest[k
            - 1].1 by {
            assert(rest[k] == balances[k]);
        }
        law_inputs_add_up(rest);
        let k = balances.len() - 1;
        assert(in_half_range(balances[k]) && in_half_range(balances[k - 1]));
        law_swap_balances(rest.last(), balances.last());
    }
}

/// A slot can be closed wherever the balances lie below half of the 64-bit
/// range and no pool's quote outgrows its type.
pub proof fn law_slot_closes(a: RouteView, slot: u64, n: nat)
    requires
        a.wf(),
        n <= a.pools.len(),
        forall|k: int|
            0 <= k < a.pools.len() && (#[trigger] a.pools[k]).balances() is Some ==> in_half_range(
                a.pools[k].balances()->0,
            ),
        forall|k: int|
            0 <= k < a.pools.len() && #[trigger] a.start_vaults[k] is Some ==> in_half_range(a.start_vaults[k]->0),
        forall|k: int, x: int, d: Seq<char>|
            0 <= k < a.pools.len() ==> #[trigger] a.pools[k].single(x, d, slot as int) is Some,
    ensures
        a.slot_closed(slot, n) is Some,
    decreases n,
{
    if n > 0 {
        let i = n - 1;
        law_slot_closes(a, slot, i as nat);
        law_next_swap_starts_from_the_slots_end(a, slot, i as nat);
        let before = a.slot_closed(slot, i as nat)->0;
        if a.start_vaults[i] is Some && a.pools[i].balances() is Some {
            law_swap_balances(a.start_vaults[i]->0, a.pools[i].balances()->0);
            if swap_between(a.start_vaults[i]->0, a.pools[i].balances()->0)->0 is Some {
                let swap = swap_between(a.start_vaults[i]->0, a.pools[i].balances()->0)->0->0;
                lemma_candidates_of_same_pools(a, before, i, slot, swap, a.pools.len());
                lemma_candidates_found(a, i, slot, swap, a.pools.len());
            }
        }
    }
}

proof fn lemma_candidates_found(a: RouteView, idx: int, slot: u64, s: Swap, n: nat)
    requires
        n <= a.pools.len(),
        forall|k: int, x: int, d: Seq<char>|
            0 <= k < a.pools.len() ==> #[trigger] a.pools[k].single(x, d, slot as int) is Some,
    ensures
        a.candidates(idx, slot, s, n) is Some,
    decreases n,
{
    if n > 0 {
        lemma_candidates_found(a, idx, slot, s, (n - 1) as nat);
    }
}

/// The pools of a route with the rows found so far.
#[derive(Debug)]
pub struct RouteAnalysis {
    pub protos: Vec<ProtocolReplay>,
    pub pool_ids: Vec<String>,
    pub amm_types: Vec<String>,
    pub slot_start_vaults: Vec<Option<(u64, u64)>>,
    pub slot_end_ts: Vec<u64>,
    pub results: Vec<RouteRow>,
}

impl View for RouteAnalysis {
    type V = RouteView;

    open spec fn view(&self) -> RouteView {
        RouteView {
            pools: self.protos@.map_values(|p: ProtocolReplay| p@),
            pool_ids: text_views(self.pool_ids@),
            amm_types: text_views(self.amm_types@),
            start_vaults: self.slot_start_vaults@,
            end_ts: self.slot_end_ts@,
            rows: route_views(self.results@),
        }
    }
}

/// The analysis of some pools before their first update.
pub open spec fn fresh_route(pools: Seq<PoolInfo>) -> RouteView {
    RouteView {
        pools: pools.map_values(|p: PoolInfo| fresh_pool(p.amm_type@)->0),
        pool_ids: pools.map_values(|p: PoolInfo| p.pool_id@),
        amm_types: pools.map_values(|p: PoolInfo| p.amm_type@),
        start_vaults: Seq::new(pools.len(), |i: int| None),
        end_ts: Seq::new(pools.len(), |i: int| 0),
        rows: Seq::empty(),
    }
}

/// Whether a pool can be replayed.
pub open spec fn supported(p: PoolInfo) -> bool {
    fresh_pool(p.amm_type@) is Some
}

/// Whether a pool is the first that cannot be replayed, and `e` names its kind.
pub open spec fn fails_at(pools: Seq<PoolInfo>, i: int, e: UnsupportedAmm) -> bool {
    &&& 0 <= i < pools.len()
    &&& forall|k: int| 0 <= k < i ==> supported(#[trigger] pools[k])
    &&& !supported(pools[i])
    &&& e.amm_type@ == pools[i].amm_type@
}

/// Whether `e` names the kind of the first pool that cannot be replayed.
pub open spec fn is_first_unsupported(pools: Seq<PoolInfo>, e: UnsupportedAmm) -> bool {
    exists|i: int| fails_at(pools, i, e)
}

impl RouteAnalysis {
    pub open spec fn wf(self) -> bool {
        self@.wf() && forall|i: int| 0 <= i < self.protos@.len() ==> (#[trigger] self.protos@[i]).wf()
    }

    pub fn new(pools: &Vec<PoolInfo>) -> (r: Result<Self, UnsupportedAmm>)
        ensures
            r is Ok == (forall|i: int| 0 <= i < pools@.len() ==> supported(#[trigger] pools@[i])),
            r is Ok ==> r->Ok_0.wf() && r->Ok_0@ == fresh_route(pools@),
            r is Err ==> is_first_unsupported(pools@, r->Err_0),
    {
        let mut a = RouteAnalysis {
            protos: Vec::new(),
            pool_ids: Vec::new(),
            amm_types: Vec::new(),
            slot_start_vaults: Vec::new(),
            slot_end_ts: Vec::new(),
            results: Vec::new(),
        };
        let mut i: usize = 0;
        assert(a@ =~= fresh_route(pools@.take(0)));
        while i < pools.len()
            invariant
                i <= pools@.len(),
                a.wf(),
                a@ == fresh_route(pools@.take(i as int)),
                forall|k: int| 0 <= k < i ==> supported(#[trigger] pools@[k]),
            decreases pools@.len() - i,
        {
            let proto = match create_protocol(pools[i].amm_type.as_str()) {
                Ok(p) => p,
                Err(e) => {
                    assert(!supported(pools@[i as int]));
                    assert(fails_at(pools@, i as int, e));
                    return Err(e);
                },
            };
            let ghost before = a@;
            a.protos.push(proto);
            a.pool_ids.push(pools[i].pool_id.clone());
            a.amm_types.push(pools[i].amm_type.clone());
            a.slot_start_vaults.push(None);
            a.slot_end_ts.push(0);
            proof {
                let p = pools@[i as int];
                assert(pools@.take(i + 1) =~= pools@.take(i as int).push(p));
                assert(a@.pools =~= before.pools.push(fresh_pool(p.amm_type@)->0));
                assert(a@.pool_ids =~= before.pool_ids.push(p.pool_id@));
                assert(a@.amm_types =~= before.amm_types.push(p.amm_type@));
                assert(a@ =~= fresh_route(pools@.take(i + 1)));
            }
            i = i + 1;
        }
        assert(pools@.take(i as int) =~= pools@);
        Ok(a)
    }

    fn fill(&mut self)
        requires
            old(self).wf(),
        ensures
            final(self).wf(),
            final(self)@ == old(self)@.filled(),
    {
        let n = self.protos.len();
        let mut k: usize = 0;
        while k < n
            invariant
                k <= n,
                n == self.protos@.len(),
                self.wf(),
                old(self).wf(),
                self@ =~= (RouteView { start_vaults: self.slot_start_vaults@, ..old(self)@ }),
                self.slot_start_vaults@.len() == n,
                forall|i: int|
                    0 <= i < k ==> self.slot_start_vaults@[i] == #[trigger] old(self)@.filled().start_vaults[i],
                forall|i: int| k <= i < n ==> #[trigger] self.slot_start_vaults@[i] == old(self)@.start_vaults[i],
            decreases n - k,
        {
            if self.slot_start_vaults[k].is_none() {
                let v = self.protos[k].vault_balances();
                assert(self@.pools[k as int] == self.protos@[k as int]@);
                self.slot_start_vaults.set(k, v);
            }
            k = k + 1;
        }
        assert(self@ =~= old(self)@.filled());
    }

    fn apply(&mut self, u: &TaggedUpdate) -> (r: bool)
        requires
            old(self).wf(),
            u.pool_idx < old(self)@.pools.len(),
        ensures
            final(self).wf(),
            r == old(self)@.applied(u@) is Some,
            r ==> final(self)@ == old(self)@.applied(u@)->0,
    {
        let idx = u.pool_idx;
        assert(self@.pools[idx as int] == self.protos@[idx as int]@);
        if !self.protos[idx].can_apply(u.account_role.as_str(), u.account_data.as_slice()) {
            return false;
        }
        self.protos[idx].apply_update(u.account_role.as_str(), u.account_data.as_slice(), u.slot);
        assert(self@.pools =~= old(self)@.pools.update(
            idx as int,
            old(self)@.pools[idx as int].updated(u@.account_role, u@.account_data, u.slot),
        ));
        if u.slot == 0 {
            let v = self.protos[idx].vault_balances();
            if v.is_some() {
                self.slot_start_vaults.set(idx, v);
            }
        } else {
            self.slot_end_ts.set(idx, u.timestamp_ms);
        }
        assert(self@ =~= old(self)@.applied(u@)->0);
        true
    }

    fn push_candidates(&mut self, idx: usize, slot: u64, s: Swap) -> (r: bool)
        requires
            old(self).wf(),
            idx < old(self)@.pools.len(),
        ensures
            final(self).wf(),
            r == old(self)@.candidates(idx as int, slot, s, old(self)@.pools.len()) is Some,
            r ==> final(self)@ == (RouteView {
                rows: old(self)@.rows + old(self)@.candidates(idx as int, slot, s, old(self)@.pools.len())->0,
                ..old(self)@
            }),
    {
        let direction = if s.b2q {
            "B2Q"
        } else {
            "Q2B"
        };
        let n = self.protos.len();
        let ghost start = self@;
        let mut other: usize = 0;
        assert(self@.rows =~= start.rows + Seq::<RouteRowView>::empty());
        while other < n
            invariant
                other <= n,
                idx < n,
                n == self.protos@.len(),
                n == start.pools.len(),
                self.wf(),
                start == old(self)@,
                direction@ == direction_name(s.b2q),
                start.candidates(idx as int, slot, s, other as nat) is Some,
                self@ =~= (RouteView {
                    rows: start.rows + start.candidates(idx as int, slot, s, other as nat)->0,
                    ..start
                }),
            decreases n - other,
        {
            assert(start.pools[other as int] == self.protos@[other as int]@);
            if other != idx && self.protos[other].is_ready() {
                match self.protos[other].try_quote_single(s.input, direction, slot) {
                    None => {
                        proof {
                            lemma_candidates_stay_none(start, idx as int, slot, s, (other + 1) as nat, n as nat);
                        }
                        return false;
                    },
                    Some(None) => {},
                    Some(Some(candidate_output)) => {
                        if candidate_output > 0 {
                            let row = RouteRow {
                                swap_ts_ms: self.slot_end_ts[idx],
                                swap_slot: slot,
                                swap_pool_id: self.pool_ids[idx].clone(),
                                swap_amm_type: self.amm_types[idx].clone(),
                                direction: direction.to_owned(),
                                input_amount: s.input,
                                actual_output: s.output,
                                candidate_pool_id: self.pool_ids[other].clone(),
                                candidate_amm_type: self.amm_types[other].clone(),
                                candidate_output,
                            };
                            let ghost before = self.results@;
                            self.results.push(row);
                            proof {
                                assert(route_views(self.results@) =~= route_views(before).push(row@));
                                assert(start.pool_ids[idx as int] == self.pool_ids@[idx as int]@);
                                assert(start.amm_types[idx as int] == self.amm_types@[idx as int]@);
                                assert(start.pool_ids[other as int] == self.pool_ids@[other as int]@);
                                assert(start.amm_types[other as int] == self.amm_types@[other as int]@);
                                assert(self@.rows =~= start.rows + start.candidates(
                                    idx as int,
                                    slot,
                                    s,
                                    (other + 1) as nat,
                                )->0);
                            }
                        }
                    },
                }
            }
            other = other + 1;
        }
        true
    }

    fn find_swap(&mut self, idx: usize, slot: u64) -> (r: bool)
        requires
            old(self).wf(),
            idx < old(self)@.pools.len(),
        ensures
            final(self).wf(),
            r ==> final(self)@.pools.len() == old(self)@.pools.len(),
            r == old(self)@.swapped(idx as int, slot) is Some,
            r ==> final(self)@ == old(self)@.swapped(idx as int, slot)->0,
    {
        assert(self@.pools[idx as int] == self.protos@[idx as int]@);
        assert(self@.amm_types[idx as int] == self.amm_types@[idx as int]@);
        let now = match self.protos[idx].vault_balances() {
            Some(b) => b,
            None => return true,
        };
        if let Some(before) = self.slot_start_vaults[idx] {
            let swap = match detect_swap(before, now) {
                Some(s) => s,
                None => return false,
            };
            if let Some(s) = swap {
                if !str_eq(self.amm_types[idx].as_str(), "tesserav") {
                    if !self.push_candidates(idx, slot, s) {
                        return false;
                    }
                }
            }
        }
        self.slot_start_vaults.set(idx, Some(now));
        assert(self@ =~= old(self)@.swapped(idx as int, slot)->0);
        true
    }

    fn close_slot(&mut self, slot: u64) -> (r: bool)
        requires
            old(self).wf(),
        ensures
            final(self).wf(),
            r == old(self)@.slot_closed(slot, old(self)@.pools.len()) is Some,
            r ==> final(self)@ == old(self)@.slot_closed(slot, old(self)@.pools.len())->0,
    {
        let n = self.protos.len();
        let ghost start = self@;
        let mut idx: usize = 0;
        while idx < n
            invariant
                idx <= n,
                n == start.pools.len(),
                n == self@.pools.len(),
                self.wf(),
                start == old(self)@,
                start.slot_closed(slot, idx as nat) == Some(self@),
            decreases n - idx,
        {
            if !self.find_swap(idx, slot) {
                proof {
                    lemma_closed_stays_none(start, slot, (idx + 1) as nat, n as nat);
                }
                return false;
            }
            idx = idx + 1;
        }
        true
    }

    fn step(&mut self, u: &TaggedUpdate, starts: bool, ends: bool) -> (r: bool)
        requires
            old(self).wf(),
            u.pool_idx < old(self)@.pools.len(),
        ensures
            final(self).wf(),
            r == old(self)@.stepped(u@, starts, ends) is Some,
            r ==> final(self)@ == old(self)@.stepped(u@, starts, ends)->0,
    {
        if starts && u.slot != 0 {
            self.fill();
        }
        if !self.apply(u) {
            return false;
        }
        if ends && u.slot != 0 {
            self.close_slot(u.slot)
        } else {
            true
        }
    }

    /// Replays the updates of all pools slot by slot. The answer is no where
    /// an update cannot be read, or a number outgrows its type.
    pub fn analyse(&mut self, updates: &Vec<TaggedUpdate>) -> (r: bool)
        requires
            old(self).wf(),
            forall|i: int| 0 <= i < updates@.len() ==> (#[trigger] updates@[i]).pool_idx < old(self)@.pools.len(),
        ensures
            final(self).wf(),
            r == old(self)@.analysed(tagged_views(updates@), updates@.len()) is Some,
            r ==> final(self)@ == old(self)@.analysed(tagged_views(updates@), updates@.len())->0,
    {
        let ghost start = self@;
        let ghost views = tagged_views(updates@);
        let mut i: usize = 0;
        while i < updates.len()
            invariant
                i <= updates@.len(),
                self.wf(),
                start == old(self)@,
                views == tagged_views(updates@),
                start.analysed(views, i as nat) == Some(self@),
                self@.pools.len() == start.pools.len(),
                forall|k: int| 0 <= k < updates@.len() ==> (#[trigger] updates@[k]).pool_idx < start.pools.len(),
            decreases updates@.len() - i,
        {
            let u = &updates[i];
            let starts = i == 0 || updates[i - 1].slot != u.slot;
            let ends = updates.len() - i <= 1 || updates[i + 1].slot != u.slot;
            proof {
                let slots = slot_views(views);
                assert(views[i as int] == u@);
                assert(slots[i as int].slot == u.slot);
                if i > 0 {
                    assert(slots[i - 1].slot == updates@[i - 1].slot);
                }
                if i + 1 < updates@.len() {
                    assert(slots[i + 1].slot == updates@[i + 1].slot);
                }
                lemma_pools_kept(self@, u@, starts, ends);
            }
            if !self.step(u, starts, ends) {
                proof {
                    lemma_analysed_stays_none(start, views, (i + 1) as nat, views.len());
                }
                return false;
            }
            i = i + 1;
        }
        true
    }
}

proof fn lemma_closed_keeps_pools(s: RouteView, slot: u64, n: nat)
    requires
        s.slot_closed(slot, n) is Some,
    ensures
        s.slot_closed(slot, n)->0.pools == s.pools,
    decreases n,
{
    if n > 0 {
        lemma_closed_keeps_pools(s, slot, (n - 1) as nat);
    }
}

proof fn lemma_pools_kept(s: RouteView, u: TaggedView, starts: bool, ends: bool)
    requires
        0 <= u.pool_idx < s.pools.len(),
    ensures
        s.stepped(u, starts, ends) is Some ==> s.stepped(u, starts, ends)->0.pools.len() == s.pools.len(),
{
    if s.stepped(u, starts, ends) is Some && ends && u.slot != 0 {
        let opened = if starts && u.slot != 0 {
            s.filled()
        } else {
            s
        };
        let a = opened.applied(u)->0;
        lemma_closed_keeps_pools(a, u.slot, a.pools.len());
    }
}

/// The updates of a pool's recording.
pub open spec fn tagged(idx: int, rows: Seq<UpdateView>) -> Seq<TaggedView> {
    rows.map_values(
        |r: UpdateView|
            TaggedView {
                pool_idx: idx,
                timestamp_ms: r.timestamp_ms,
                slot: r.slot,
                write_version: r.write_version,
                account_role: r.account_role,
                account_data: r.account_data,
            },
    )
}

/// The updates of the first `n` recordings, one recording after the other.
pub open spec fn all_tagged(recordings: Seq<Seq<UpdateView>>, n: nat) -> Seq<TaggedView>
    decreases n,
{
    if n == 0 {
        Seq::empty()
    } else {
        all_tagged(recordings, (n - 1) as nat) + tagged(n - 1, recordings[n - 1])
    }
}

/// Where the updates of a list stand in the chain.
pub open spec fn tagged_keys(rows: Seq<TaggedView>) -> Seq<(u64, u64)> {
    rows.map_values(|r: TaggedView| (r.slot, r.write_version))
}

/// The updates of a list in the order of the chain.
pub open spec fn tagged_in_order(rows: Seq<TaggedView>) -> Seq<TaggedView> {
    arranged(rows, order_of(tagged_keys(rows)))
}

/// What the recordings of some pools say.
pub open spec fn recording_views(recordings: Seq<Vec<AccountUpdateRow>>) -> Seq<Seq<UpdateView>> {
    recordings.map_values(|r: Vec<AccountUpdateRow>| crate::reader::update_views(r@))
}

fn tag_recording(idx: usize, rows: Vec<AccountUpdateRow>, out: &mut Vec<TaggedUpdate>)
    ensures
        tagged_views(final(out)@) == tagged_views(old(out)@) + tagged(
            idx as int,
            crate::reader::update_views(rows@),
        ),
{
    let ghost views = crate::reader::update_views(rows@);
    let ghost start = tagged_views(out@);
    let ghost all = tagged(idx as int, views);
    assert(tagged_views(out@) =~= start + all.take(0));
    for row in it: rows
        invariant
            it.seq() == rows@,
            views == crate::reader::update_views(rows@),
            all == tagged(idx as int, views),
            tagged_views(out@) == start + all.take(it.index()),
            start == tagged_views(old(out)@),
    {
        let ghost k = it.index();
        let ghost before = out@;
        assert(views[k] == row@);
        let u = TaggedUpdate {
            pool_idx: idx,
            timestamp_ms: row.timestamp_ms,
            slot: row.slot,
            write_version: row.write_version,
            account_role: row.account_role,
            account_data: row.account_data,
        };
        assert(all[k] == u@);
        out.push(u);
        proof {
            assert(tagged_views(out@) =~= tagged_views(before).push(u@));
            assert(tagged_views(out@) =~= start + all.take(k + 1));
        }
    }
    assert(all.take(all.len() as int) =~= all);
}

fn sort_tagged(rows: Vec<TaggedUpdate>) -> (r: Vec<TaggedUpdate>)
    ensures
        tagged_views(r@) == tagged_in_order(tagged_views(rows@)),
{
    let ghost views = tagged_views(rows@);
    let mut keys: Vec<(u64, u64)> = Vec::new();
    let mut i: usize = 0;
    while i < rows.len()
        invariant
            i <= rows@.len(),
            views == tagged_views(rows@),
            keys@ =~= tagged_keys(views).take(i as int),
        decreases rows@.len() - i,
    {
        keys.push((rows[i].slot, rows[i].write_version));
        i = i + 1;
    }
    assert(keys@ =~= tagged_keys(views));
    let r = arrange(rows, &keys);
    proof {
        lemma_order_exists(keys@);
        assert(tagged_views(r@) =~= tagged_in_order(views));
    }
    r
}

proof fn lemma_tags_below(recordings: Seq<Seq<UpdateView>>, n: nat)
    ensures
        forall|i: int| 0 <= i < all_tagged(recordings, n).len() ==> 0 <= (#[trigger] all_tagged(recordings, n)[i]).pool_idx < n,
    decreases n,
{
    if n > 0 {
        lemma_tags_below(recordings, (n - 1) as nat);
        let rest = all_tagged(recordings, (n - 1) as nat);
        let all = all_tagged(recordings, n);
        assert forall|i: int| 0 <= i < all.len() implies 0 <= (#[trigger] all[i]).pool_idx < n by {
            if i < rest.len() {
                assert(all[i] == rest[i]);
            } else {
                assert(all[i] == tagged(n - 1, recordings[n - 1])[i - rest.len()]);
            }
        }
    }
}

/// Why there is no analysis.
#[derive(Debug)]
pub enum RouteError {
    /// A pool cannot be replayed.
    Unsupported(UnsupportedAmm),
    /// An update cannot be read, or a number outgrows its type.
    Overflow,
}

/// What the pools of a route would have paid for each other's swaps.
pub open spec fn route_outcome(pools: Seq<PoolInfo>, recordings: Seq<Seq<UpdateView>>) -> Option<RouteView> {
    let updates = tagged_in_order(all_tagged(recordings, recordings.len()));
    fresh_route(pools).analysed(updates, updates.len())
}

/// Compares each swap of a pool with what the other pools would have paid.
pub fn run_route_analysis(pools: &Vec<PoolInfo>, recordings: Vec<Vec<AccountUpdateRow>>) -> (r: Result<
    Vec<RouteRow>,
    RouteError,
>)
    requires
        pools@.len() == recordings@.len(),
    ensures
        r matches Err(RouteError::Unsupported(_)) <==> !(forall|i: int|
            0 <= i < pools@.len() ==> supported(#[trigger] pools@[i])),
        r matches Err(RouteError::Unsupported(e)) ==> is_first_unsupported(pools@, e),
        r matches Err(RouteError::Overflow) <==> (forall|i: int|
            0 <= i < pools@.len() ==> supported(#[trigger] pools@[i])) && route_outcome(
            pools@,
            recording_views(recordings@),
        ) is None,
        r is Ok ==> route_views(r->Ok_0@) == route_outcome(pools@, recording_views(recordings@))->0.rows,
{
    let mut analysis = match RouteAnalysis::new(pools) {
        Ok(a) => a,
        Err(e) => return Err(RouteError::Unsupported(e)),
    };
    let ghost views = recording_views(recordings@);
    let n = recordings.len();
    let mut updates: Vec<TaggedUpdate> = Vec::new();
    let mut idx: usize = 0;
    assert(tagged_views(updates@) =~= all_tagged(views, 0));
    for rows in it: recordings
        invariant
            it.seq() == recordings@,
            idx == it.index(),
            n == recordings@.len(),
            views == recording_views(recordings@),
            tagged_views(updates@) == all_tagged(views, idx as nat),
    {
        assert(views[idx as int] == crate::reader::update_views(rows@));
        tag_recording(idx, rows, &mut updates);
        idx = idx + 1;
    }
    let ghost unsorted = tagged_views(updates@);
    assert(unsorted.len() == updates.len());
    let updates = sort_tagged(updates);
    proof {
        lemma_tags_below(views, views.len());
        lemma_order_exists(tagged_keys(unsorted));
        assert forall|i: int| 0 <= i < updates@.len() implies (#[trigger] updates@[i]).pool_idx < pools@.len() by {
            assert(tagged_views(updates@)[i] == updates@[i]@);
            let p = order_of(tagged_keys(unsorted));
            assert(tagged_in_order(unsorted)[i] == unsorted[p[i] as int]);
        }
    }
    if analysis.analyse(&updates) {
        Ok(analysis.results)
    } else {
        Err(RouteError::Overflow)
    }
}

/// The first line of a written analysis.
pub fn csv_header() -> (r: &'static str)
    ensures
        r@
            == "swap_ts_ms,swap_slot,swap_pool_id,swap_amm_type,direction,input_amount,actual_output,candidate_pool_id,candidate_amm_type,candidate_output"@,
{
    "swap_ts_ms,swap_slot,swap_pool_id,swap_amm_type,direction,input_amount,actual_output,candidate_pool_id,candidate_amm_type,candidate_output"
}

/// The fields of a row with commas between them.
pub open spec fn csv_fields(r: RouteRowView) -> Seq<char> {
    decimal(r.swap_ts_ms as nat) + ","@ + decimal(r.swap_slot as nat) + ","@ + r.swap_pool_id + ","@
        + r.swap_amm_type + ","@ + r.direction + ","@ + decimal(r.input_amount as nat) + ","@ + decimal(
        r.actual_output as nat,
    ) + ","@ + r.candidate_pool_id + ","@ + r.candidate_amm_type + ","@ + decimal(r.candidate_output as nat)
}

impl RouteRow {
    /// The line of a written row.
    pub fn csv_line(&self) -> (r: String)
        ensures
            r@ == csv_fields(self@),
    {
        let mut m = decimal_text(self.swap_ts_ms);
        m.append(",");
        m.append(decimal_text(self.swap_slot).as_str());
        m.append(",");
        m.append(self.swap_pool_id.as_str());
        m.append(",");
        m.append(self.swap_amm_type.as_str());
        m.append(",");
        m.append(self.direction.as_str());
        m.append(",");
        m.append(decimal_text(self.input_amount).as_str());
        m.append(",");
        m.append(decimal_text(self.actual_output).as_str());
        m.append(",");
        m.append(self.candidate_pool_id.as_str());
        m.append(",");
        m.append(self.candidate_amm_type.as_str());
        m.append(",");
        m.append(decimal_text(self.candidate_output).as_str());
        m
    }
}

/// The updates of a route's recordings: each recording's stand behind those of
/// the recordings before it, in their own order, and say what was recorded, with
/// the place of their pool.
pub proof fn law_updates_are_tagged_with_their_pool(recordings: Seq<Seq<UpdateView>>, n: nat, r: int, i: int)
    requires
        0 <= r < n <= recordings.len(),
        0 <= i < recordings[r].len(),
    ensures
        ({
            let all = all_tagged(recordings, n);
            let at = all_tagged(recordings, r as nat).len() + i;
            let u = recordings[r][i];
            &&& 0 <= at < all.len()
            &&& all[at].pool_idx == r
            &&& all[at].timestamp_ms == u.timestamp_ms
            &&& all[at].slot == u.slot
            &&& all[at].write_version == u.write_version
            &&& all[at].account_role == u.account_role
            &&& all[at].account_data == u.account_data
        }),
    decreases n,
{
    if r < n - 1 {
        law_updates_are_tagged_with_their_pool(recordings, (n - 1) as nat, r, i);
    }
}

/// A route replays the updates of all its pools by slot and write version, none
/// lost and none twice; those that agree in both stay in the order in which they
/// came.
pub proof fn law_route_goes_by_the_chain(rows: Seq<TaggedView>, i: int, j: int)
    requires
        rows.len() <= usize::MAX,
        0 <= i < j < rows.len(),
    ensures
        ({
            let sorted = tagged_in_order(rows);
            &&& sorted.len() == rows.len()
            &&& sorted[i].slot <= sorted[j].slot
            &&& sorted[i].slot == sorted[j].slot ==> sorted[i].write_version <= sorted[j].write_version
            &&& rows.contains(sorted[i])
            &&& sorted.contains(rows[i])
            &&& rows[i].slot == rows[j].slot && rows[i].write_version == rows[j].write_version
                ==> exists|a: int, b: int|
                0 <= a < b < sorted.len() && #[trigger] sorted[a] == rows[i] && #[trigger] sorted[b] == rows[j]
        }),
{
    let keys = tagged_keys(rows);
    let p = order_of(keys);
    let sorted = tagged_in_order(rows);
    lemma_order_exists(keys);
    assert(precedes(keys, p[i] as int, p[j] as int));
    assert(rows[p[i] as int] == sorted[i]);
    assert(rows[p[j] as int] == sorted[j]);
    assert(p.contains(i as usize) && p.contains(j as usize));
    let a = choose|k: int| 0 <= k < p.len() && p[k] == i as usize;
    let b = choose|k: int| 0 <= k < p.len() && p[k] == j as usize;
    assert(sorted[a] == rows[i]);
    assert(sorted[b] == rows[j]);
    if rows[i].slot == rows[j].slot && rows[i].write_version == rows[j].write_version {
        assert(keys[i] == keys[j]);
        if b < a {
            assert(precedes(keys, p[b] as int, p[a] as int));
        }
    }
}

/// The pools of a route are those of a session that take part, each once and in
/// the session's order.
pub proof fn law_route_takes_every_pool_once(pools: Seq<PoolInfo>, n: nat)
    requires
        n <= pools.len() <= usize::MAX,
    ensures
        ({
            let places = route_places(pools, n);
            &&& forall|k: int| 0 <= k < places.len() ==> #[trigger] places[k] < n && on_route(pools[places[k] as int])
            &&& forall|j: int, k: int| 0 <= j < k < places.len() ==> #[trigger] places[j] < #[trigger] places[k]
            &&& forall|i: int| 0 <= i < n && on_route(#[trigger] pools[i]) ==> places.contains(i as usize)
        }),
    decreases n,
{
    if n > 0 {
        let m = (n - 1) as nat;
        law_route_takes_every_pool_once(pools, m);
        let rest = route_places(pools, m);
        let places = route_places(pools, n);
        assert forall|i: int| 0 <= i < n && on_route(#[trigger] pools[i]) implies places.contains(i as usize) by {
            if i == m {
                assert(places[rest.len() as int] == i as usize);
            } else {
                assert(rest.contains(i as usize));
                let k = choose|k: int| 0 <= k < rest.len() && rest[k] == i as usize;
                assert(places[k] == i as usize);
            }
        }
    }
}

/// A pool takes part in a route only where it quotes from its own vaults and
/// its symbol names both tokens.
pub proof fn law_routes_are_between_two_tokens(p: PoolInfo)
    requires
        on_route(p),
    ensures
        supported(p),
        p.symbol matches Some(s) && exists|i: int| occurs_at(s@, "SOL"@, i),
        p.symbol matches Some(s) && exists|i: int| occurs_at(s@, "USDC"@, i),
        !(fresh_pool(p.amm_type@)->0 is RaydiumClmm),
        !(fresh_pool(p.amm_type@)->0 is OrcaClmm),
        !(fresh_pool(p.amm_type@)->0 is AlphaQ),
{
    reveal_strlit("humidifi");
    reveal_strlit("bisonfi");
    reveal_strlit("solfiv2");
    reveal_strlit("goonfi");
    reveal_strlit("tesserav");
    reveal_strlit("zerofi");
    reveal_strlit("raydium_clmm");
    reveal_strlit("orca_clmm");
    reveal_strlit("alphaq");
    assert("raydium_clmm"@.len() == 12 && "orca_clmm"@.len() == 9 && "alphaq"@.len() == 6 && "humidifi"@.len() == 8
        && "bisonfi"@.len() == 7 && "solfiv2"@.len() == 7 && "goonfi"@.len() == 6 && "tesserav"@.len() == 8
        && "zerofi"@.len() == 6);
    assert("alphaq"@[0] != "goonfi"@[0] && "alphaq"@[0] != "zerofi"@[0]);
}

/// The swaps of a slot are looked for at its last update and nowhere else. They
/// are measured from the balances that were known when the slot opened, or else
/// from those that the pools had before its first update, to those that the
/// pools have after its last.
pub proof fn law_slot_is_compared_at_its_end(a: RouteView, updates: Seq<TaggedView>, i: int) -> (r: (
    RouteView,
    Seq<(int, int)>,
))
    requires
        a.wf(),
        0 <= i < updates.len(),
        forall|k: int| 0 <= k < updates.len() ==> 0 <= (#[trigger] updates[k]).pool_idx < a.pools.len(),
        a.analysed(updates, (i + 1) as nat) is Some,
        forall|k: int|
            0 <= k < a.pools.len() && (#[trigger] a.analysed(updates, (i + 1) as nat)->0.pools[k]).balances() is Some
                ==> in_half_range(a.analysed(updates, (i + 1) as nat)->0.pools[k].balances()->0),
        forall|k: int|
            0 <= k < a.pools.len() && (#[trigger] a.analysed(updates, i as nat)->0.pools[k]).balances() is Some
                ==> in_half_range(a.analysed(updates, i as nat)->0.pools[k].balances()->0),
        forall|k: int|
            0 <= k < a.pools.len() && #[trigger] a.analysed(updates, i as nat)->0.start_vaults[k] is Some
                ==> in_half_range(a.analysed(updates, i as nat)->0.start_vaults[k]->0),
    ensures
        ({
            let before = a.analysed(updates, i as nat)->0;
            let after = a.analysed(updates, (i + 1) as nat)->0;
            let slot = updates[i].slot;
            let starts = i == 0 || updates[i - 1].slot != slot;
            let ends = i + 1 == updates.len() || updates[i + 1].slot != slot;
            &&& a.analysed(updates, i as nat) is Some
            &&& before.rows.is_prefix_of(after.rows)
            &&& slot == 0 || !ends ==> after.rows == before.rows
            &&& slot != 0 && starts && !ends ==> forall|k: int|
                0 <= k < a.pools.len() && before.start_vaults[k] is None ==> #[trigger] after.start_vaults[k]
                    == before.pools[k].balances()
            &&& slot != 0 && ends ==> {
                &&& r.0.pools == after.pools
                &&& r.0.pool_ids == before.pool_ids
                &&& r.0.amm_types == before.amm_types
                &&& r.0.end_ts == after.end_ts
                &&& forall|k: int|
                    0 <= k < a.pools.len() ==> #[trigger] r.0.start_vaults[k] == (if before.start_vaults[k] is Some
                        || !starts {
                        before.start_vaults[k]
                    } else {
                        before.pools[k].balances()
                    })
                &&& lists_swaps(
                    r.0,
                    slot,
                    a.pools.len() as int,
                    r.1,
                    after.rows.skip(before.rows.len() as int),
                )
            }
        }),
{
    let slots = slot_views(updates);
    let u = updates[i];
    let before = a.analysed(updates, i as nat)->0;
    let after = a.analysed(updates, (i + 1) as nat)->0;
    let starts = starts_slot(slots, i);
    let ends = ends_slot(slots, i);
    assert(slots[i].slot == u.slot);
    assert(i > 0 ==> slots[i - 1].slot == updates[i - 1].slot);
    assert(i + 1 < updates.len() ==> slots[i + 1].slot == updates[i + 1].slot);
    lemma_analysed_keeps_shape(a, updates, i as nat);
    law_step_updates_one_pool(before, u, starts, ends);
    assert forall|k: int| u.slot != 0 && starts && !ends && 0 <= k < a.pools.len() && before.start_vaults[k]
        is None implies #[trigger] after.start_vaults[k] == before.pools[k].balances() by {
        law_swap_is_measured_over_the_slot(before, u, starts, ends, k);
    }
    if u.slot != 0 && ends {
        let opened = if starts {
            before.filled()
        } else {
            before
        };
        let b = opened.applied(u)->0;
        law_next_swap_starts_from_the_slots_end(b, u.slot, b.pools.len());
        assert forall|k: int| 0 <= k < b.pools.len() && (#[trigger] b.pools[k]).balances() is Some implies in_half_range(
            b.pools[k].balances()->0,
        ) by {
            assert(b.pools[k] == after.pools[k]);
        }
        assert forall|k: int| 0 <= k < b.pools.len() && #[trigger] b.start_vaults[k] is Some implies in_half_range(
            b.start_vaults[k]->0,
        ) by {
            assert(b.start_vaults[k] == opened.start_vaults[k]);
            if before.start_vaults[k] is None {
                assert(opened.start_vaults[k] == before.pools[k].balances());
                assert(before.pools[k].balances() is Some);
            }
        }
        let at = law_rows_of_a_slot(b, u.slot, b.pools.len());
        (b, at)
    } else {
        (before, Seq::empty())
    }
}

}
