//! The replay of a recorded pool: every update is applied, and the pool is
//! quoted once in each slot.
use vstd::prelude::*;

use crate::protocols::quotes::TierInput;
use crate::protocols::{create_protocol, fresh_pool, row_views, PoolView, ProtocolReplay, QuoteRow, QuoteRowView, UnsupportedAmm};
use crate::reader::{update_views, AccountUpdateRow, UpdateView};
use crate::session::PoolInfo;

verus! {

/// A quote of a pool in a slot, with the trade size named by its place among
/// the sizes.
#[derive(Debug)]
pub struct EngineQuoteRow {
    pub timestamp_ms: u64,
    pub slot: u64,
    pub pool_id: String,
    pub amm_type: String,
    pub direction: String,
    pub input_amount: u64,
    pub output_amount: u64,
    pub tier: usize,
}

/// What a quote in a slot says.
#[verifier::ext_equal]
pub struct EngineQuoteView {
    pub timestamp_ms: u64,
    pub slot: u64,
    pub pool_id: Seq<char>,
    pub amm_type: Seq<char>,
    pub quote: QuoteRowView,
}

impl View for EngineQuoteRow {
    type V = EngineQuoteView;

    open spec fn view(&self) -> EngineQuoteView {
        EngineQuoteView {
            timestamp_ms: self.timestamp_ms,
            slot: self.slot,
            pool_id: self.pool_id@,
            amm_type: self.amm_type@,
            quote: QuoteRowView {
                direction: self.direction@,
                input_amount: self.input_amount,
                output_amount: self.output_amount,
                tier: self.tier as int,
            },
        }
    }
}

/// The balances of a pool's vaults in a slot, with the update that last
/// changed them.
#[derive(Debug)]
pub struct EngineDerivedRow {
    pub timestamp_ms: u64,
    pub slot: u64,
    pub write_version: u64,
    pub txn_signature: String,
    pub pool_id: String,
    pub amm_type: String,
    pub base_vault_balance: u64,
    pub quote_vault_balance: u64,
}

/// What a row of balances says.
#[verifier::ext_equal]
pub struct DerivedView {
    pub timestamp_ms: u64,
    pub slot: u64,
    pub write_version: u64,
    pub txn_signature: Seq<char>,
    pub pool_id: Seq<char>,
    pub amm_type: Seq<char>,
    pub base_vault_balance: u64,
    pub quote_vault_balance: u64,
}

impl View for EngineDerivedRow {
    type V = DerivedView;

    open spec fn view(&self) -> DerivedView {
        DerivedView {
            timestamp_ms: self.timestamp_ms,
            slot: self.slot,
            write_version: self.write_version,
            txn_signature: self.txn_signature@,
            pool_id: self.pool_id@,
            amm_type: self.amm_type@,
            base_vault_balance: self.base_vault_balance,
            quote_vault_balance: self.quote_vault_balance,
        }
    }
}

/// The update that changed the vaults in a slot.
#[derive(Debug)]
pub struct VaultChange {
    pub txn_signature: String,
    pub write_version: u64,
    pub timestamp_ms: u64,
}

/// What is known of an update that changed the vaults.
#[verifier::ext_equal]
pub struct ChangeView {
    pub txn_signature: Seq<char>,
    pub write_version: u64,
    pub timestamp_ms: u64,
}

impl View for VaultChange {
    type V = ChangeView;

    open spec fn view(&self) -> ChangeView {
        ChangeView {
            txn_signature: self.txn_signature@,
            write_version: self.write_version,
            timestamp_ms: self.timestamp_ms,
        }
    }
}

/// What the replay of a pool has come to.
#[derive(Debug)]
pub struct PoolResult {
    pub pool_id: String,
    pub amm_type: String,
    pub symbol: Option<String>,
    pub quotes: Vec<EngineQuoteRow>,
    pub derived: Vec<EngineDerivedRow>,
    pub updates_processed: usize,
    pub quotes_emitted: usize,
}

/// What the quotes of a list say.
pub open spec fn quote_views(rows: Seq<EngineQuoteRow>) -> Seq<EngineQuoteView> {
    rows.map_values(|r: EngineQuoteRow| r@)
}

/// What the rows of balances of a list say.
pub open spec fn derived_views(rows: Seq<EngineDerivedRow>) -> Seq<DerivedView> {
    rows.map_values(|r: EngineDerivedRow| r@)
}

/// A replay between two updates.
#[verifier::ext_equal]
pub struct RunView {
    pub pool: PoolView,
    pub pool_id: Seq<char>,
    pub amm_type: Seq<char>,
    pub last_quote_slot: Option<u64>,
    pub prev_vaults: Option<(u64, u64)>,
    pub change: Option<ChangeView>,
    pub quotes: Seq<EngineQuoteView>,
    pub derived: Seq<DerivedView>,
}

/// How far a replay went.
#[derive(Clone, Copy, Debug, PartialEq, Eq, Structural)]
pub enum Advance {
    /// The pool is to be quoted after the update at this place.
    Due(usize),
    /// The update at this place cannot be read.
    Refused(usize),
    /// No update is left.
    Done,
}

/// Whether an update is the first of its slot.
pub open spec fn starts_slot(updates: Seq<UpdateView>, i: int) -> bool {
    i == 0 || updates[i - 1].slot != updates[i].slot
}

/// Whether an update is the last of its slot.
pub open spec fn ends_slot(updates: Seq<UpdateView>, i: int) -> bool {
    i + 1 >= updates.len() || updates[i + 1].slot != updates[i].slot
}

/// The quotes of a pool after an update.
pub open spec fn slot_quotes(run: RunView, u: UpdateView, rows: Seq<QuoteRowView>) -> Seq<EngineQuoteView> {
    rows.map_values(
        |q: QuoteRowView|
            EngineQuoteView {
                timestamp_ms: u.timestamp_ms,
                slot: u.slot,
                pool_id: run.pool_id,
                amm_type: run.amm_type,
                quote: q,
            },
    )
}

impl RunView {
    /// A replay before its first update.
    pub open spec fn fresh(pool: PoolView, pool_id: Seq<char>, amm_type: Seq<char>) -> Self {
        RunView {
            pool,
            pool_id,
            amm_type,
            last_quote_slot: None,
            prev_vaults: None,
            change: None,
            quotes: Seq::empty(),
            derived: Seq::empty(),
        }
    }

    /// The replay after an update. What changed the vaults is remembered until
    /// the slot ends.
    pub open spec fn after_update(self, u: UpdateView, new_slot: bool) -> Self {
        let pool = self.pool.updated(u.account_role, u.account_data, u.slot);
        let change = if new_slot {
            None
        } else {
            self.change
        };
        if pool.balances() is Some && self.prev_vaults != pool.balances() {
            RunView {
                pool,
                prev_vaults: pool.balances(),
                change: Some(
                    ChangeView {
                        txn_signature: u.txn_signature,
                        write_version: u.write_version,
                        timestamp_ms: u.timestamp_ms,
                    },
                ),
                ..self
            }
        } else {
            RunView { pool, change, ..self }
        }
    }

    /// Whether the pool is to be quoted after an update.
    pub open spec fn due(self, u: UpdateView, last_in_slot: bool) -> bool {
        self.pool.ready() && last_in_slot && self.last_quote_slot != Some(u.slot)
    }

    /// The update that a row of balances is dated by.
    pub open spec fn dated_by(self, u: UpdateView) -> ChangeView {
        match self.change {
            Some(c) => c,
            None => ChangeView {
                txn_signature: u.txn_signature,
                write_version: u.write_version,
                timestamp_ms: u.timestamp_ms,
            },
        }
    }

    /// The replay after the quotes of a slot.
    pub open spec fn with_quotes(self, u: UpdateView, rows: Seq<QuoteRowView>) -> Self {
        let c = self.dated_by(u);
        RunView {
            last_quote_slot: Some(u.slot),
            quotes: self.quotes + slot_quotes(self, u, rows),
            derived: match self.pool.balances() {
                Some(b) => self.derived.push(
                    DerivedView {
                        timestamp_ms: c.timestamp_ms,
                        slot: u.slot,
                        write_version: c.write_version,
                        txn_signature: c.txn_signature,
                        pool_id: self.pool_id,
                        amm_type: self.amm_type,
                        base_vault_balance: b.0,
                        quote_vault_balance: b.1,
                    },
                ),
                None => self.derived,
            },
            ..self
        }
    }

    /// The replay after the updates from a place on, up to the next that is
    /// due or cannot be read.
    pub open spec fn advanced(self, updates: Seq<UpdateView>, i: int) -> (Self, Advance)
        decreases updates.len() - i,
    {
        if i >= updates.len() {
            (self, Advance::Done)
        } else if !self.pool.accepts(updates[i].account_role, updates[i].account_data) {
            (self, Advance::Refused(i as usize))
        } else {
            let next = self.after_update(updates[i], starts_slot(updates, i));
            if next.due(updates[i], ends_slot(updates, i)) {
                (next, Advance::Due(i as usize))
            } else {
                next.advanced(updates, i + 1)
            }
        }
    }
}

proof fn lemma_due_in_another_slot(run: RunView, updates: Seq<UpdateView>, i: int)
    requires
        0 <= i <= updates.len() <= usize::MAX,
        run.last_quote_slot is Some,
    ensures
        run.advanced(updates, i).1 matches Advance::Due(k) ==> updates[k as int].slot != run.last_quote_slot->0,
    decreases updates.len() - i,
{
    if i < updates.len() {
        lemma_due_in_another_slot(
            run.after_update(updates[i], starts_slot(updates, i)),
            updates,
            i + 1,
        );
    }
}

/// A pool that was quoted in a slot is next due in another slot, whatever
/// updates follow.
pub proof fn law_slot_is_quoted_once(
    run: RunView,
    u: UpdateView,
    rows: Seq<QuoteRowView>,
    updates: Seq<UpdateView>,
    i: int,
)
    requires
        0 <= i <= updates.len() <= usize::MAX,
    ensures
        run.with_quotes(u, rows).advanced(updates, i).1 matches Advance::Due(k) ==> updates[k as int].slot
            != u.slot,
{
    lemma_due_in_another_slot(run.with_quotes(u, rows), updates, i);
}

/// A replay never takes back a row.
pub proof fn law_rows_stay(run: RunView, updates: Seq<UpdateView>, i: int, u: UpdateView, rows: Seq<QuoteRowView>)
    requires
        0 <= i <= updates.len(),
    ensures
        run.advanced(updates, i).0.quotes == run.quotes,
        run.advanced(updates, i).0.derived == run.derived,
        run.quotes.is_prefix_of(run.with_quotes(u, rows).quotes),
        run.derived.is_prefix_of(run.with_quotes(u, rows).derived),
    decreases updates.len() - i,
{
    if i < updates.len() {
        let next = run.after_update(updates[i], starts_slot(updates, i));
        law_rows_stay(next, updates, i + 1, u, rows);
    }
}

/// Where a replay stops, at or behind the place it went on from: a pool that is
/// due is ready and has seen the last update of a slot, and one that stops
/// before an update cannot read it.
pub proof fn law_due_pool_is_ready(run: RunView, updates: Seq<UpdateView>, i: int)
    requires
        0 <= i <= updates.len() <= usize::MAX,
    ensures
        run.advanced(updates, i).1 matches Advance::Due(k) ==> i <= k < updates.len() && ends_slot(
            updates,
            k as int,
        ) && run.advanced(updates, i).0.pool.ready(),
        run.advanced(updates, i).1 matches Advance::Refused(k) ==> i <= k < updates.len()
            && !run.advanced(updates, i).0.pool.accepts(
            updates[k as int].account_role,
            updates[k as int].account_data,
        ),
    decreases updates.len() - i,
{
    if i < updates.len() {
        law_due_pool_is_ready(run.after_update(updates[i], starts_slot(updates, i)), updates, i + 1);
    }
}

/// A pool after the updates from one place up to another.
pub open spec fn pool_after(pool: PoolView, updates: Seq<UpdateView>, i: int, j: int) -> PoolView
    decreases j - i,
{
    if j <= i {
        pool
    } else {
        pool_after(pool, updates, i, j - 1).updated(
            updates[j - 1].account_role,
            updates[j - 1].account_data,
            updates[j - 1].slot,
        )
    }
}

/// The place before which a replay has read every update.
pub open spec fn read_up_to(how: Advance, len: int) -> int {
    match how {
        Advance::Due(k) => k + 1,
        Advance::Refused(k) => k as int,
        Advance::Done => len,
    }
}

proof fn lemma_pool_after_first(pool: PoolView, updates: Seq<UpdateView>, i: int, j: int)
    requires
        i < j,
    ensures
        pool_after(
            pool.updated(updates[i].account_role, updates[i].account_data, updates[i].slot),
            updates,
            i + 1,
            j,
        ) == pool_after(pool, updates, i, j),
    decreases j - i,
{
    if i + 1 < j {
        lemma_pool_after_first(pool, updates, i, j - 1);
    } else {
        assert(pool_after(pool, updates, i, i) == pool);
    }
}

/// A replay applies every update up to where it stops, in order and once, and
/// nothing else; each of them could be read. Quoted slots and rows stay.
pub proof fn law_every_update_is_applied(run: RunView, updates: Seq<UpdateView>, i: int)
    requires
        0 <= i <= updates.len() <= usize::MAX,
    ensures
        ({
            let (end, how) = run.advanced(updates, i);
            let stop = read_up_to(how, updates.len() as int);
            &&& i <= stop <= updates.len()
            &&& end.pool == pool_after(run.pool, updates, i, stop)
            &&& end.last_quote_slot == run.last_quote_slot
            &&& end.pool_id == run.pool_id
            &&& end.amm_type == run.amm_type
            &&& forall|j: int| #![trigger updates[j]]
                i <= j < stop ==> pool_after(run.pool, updates, i, j).accepts(
                    updates[j].account_role,
                    updates[j].account_data,
                )
        }),
    decreases updates.len() - i,
{
    if i < updates.len() && run.pool.accepts(updates[i].account_role, updates[i].account_data) {
        let next = run.after_update(updates[i], starts_slot(updates, i));
        let (end, how) = run.advanced(updates, i);
        let stop = read_up_to(how, updates.len() as int);
        lemma_pool_after_first(run.pool, updates, i, i + 1);
        if !next.due(updates[i], ends_slot(updates, i)) {
            law_every_update_is_applied(next, updates, i + 1);
            lemma_pool_after_first(run.pool, updates, i, stop);
        }
        assert forall|j: int| #![trigger updates[j]] i <= j < stop implies pool_after(
            run.pool,
            updates,
            i,
            j,
        ).accepts(updates[j].account_role, updates[j].account_data) by {
            if i < j {
                lemma_pool_after_first(run.pool, updates, i, j);
            } else {
                assert(pool_after(run.pool, updates, i, i) == run.pool);
            }
        }
    }
}

/// Every slot is quoted. Wherever an update is the last of its slot, leaves the
/// pool ready and belongs to another slot than the one that was quoted last, a
/// replay that comes to it stops there. It stops nowhere else to be quoted.
pub proof fn law_every_slot_is_quoted(run: RunView, updates: Seq<UpdateView>, i: int, j: int)
    requires
        0 <= i <= j < updates.len() <= usize::MAX,
        read_up_to(run.advanced(updates, i).1, updates.len() as int) > j,
    ensures
        (run.advanced(updates, i).1 == Advance::Due(j as usize)) <==> {
            &&& j + 1 == updates.len() || updates[j + 1].slot != updates[j].slot
            &&& pool_after(run.pool, updates, i, j + 1).ready()
            &&& run.last_quote_slot != Some(updates[j].slot)
        },
    decreases updates.len() - i,
{
    let next = run.after_update(updates[i], starts_slot(updates, i));
    lemma_pool_after_first(run.pool, updates, i, i + 1);
    lemma_pool_after_first(run.pool, updates, i, j + 1);
    if j > i {
        law_every_slot_is_quoted(next, updates, i + 1, j);
    } else if !next.due(updates[i], ends_slot(updates, i)) {
        law_due_pool_is_ready(next, updates, i + 1);
    }
}

spec fn run_after(run: RunView, updates: Seq<UpdateView>, i: int, j: int) -> RunView
    decreases j - i,
{
    if j <= i {
        run
    } else {
        run_after(run, updates, i, j - 1).after_update(updates[j - 1], starts_slot(updates, j - 1))
    }
}

proof fn lemma_run_after_first(run: RunView, updates: Seq<UpdateView>, i: int, j: int)
    requires
        i < j,
    ensures
        run_after(run.after_update(updates[i], starts_slot(updates, i)), updates, i + 1, j) == run_after(
            run,
            updates,
            i,
            j,
        ),
    decreases j - i,
{
    if i + 1 < j {
        lemma_run_after_first(run, updates, i, j - 1);
    } else {
        assert(run_after(run, updates, i, i) == run);
    }
}

proof fn lemma_advanced_is_run_after(run: RunView, updates: Seq<UpdateView>, i: int)
    requires
        0 <= i <= updates.len() <= usize::MAX,
    ensures
        run.advanced(updates, i).0 == run_after(
            run,
            updates,
            i,
            read_up_to(run.advanced(updates, i).1, updates.len() as int),
        ),
    decreases updates.len() - i,
{
    if i < updates.len() && run.pool.accepts(updates[i].account_role, updates[i].account_data) {
        let next = run.after_update(updates[i], starts_slot(updates, i));
        lemma_run_after_first(run, updates, i, i + 1);
        if !next.due(updates[i], ends_slot(updates, i)) {
            lemma_advanced_is_run_after(next, updates, i + 1);
            law_every_update_is_applied(next, updates, i + 1);
            lemma_run_after_first(
                run,
                updates,
                i,
                read_up_to(run.advanced(updates, i).1, updates.len() as int),
            );
        }
    }
}

/// Whether balances of a pool that were known stay known over some updates.
pub open spec fn stays_known(pool: PoolView, updates: Seq<UpdateView>, i: int, j: int) -> bool {
    forall|m: int|
        #![trigger pool_after(pool, updates, i, m)]
        i <= m < j && pool_after(pool, updates, i, m).balances() is Some ==> pool_after(
            pool,
            updates,
            i,
            m + 1,
        ).balances() is Some
}

proof fn lemma_run_knows_balances(run: RunView, updates: Seq<UpdateView>, i: int, j: int)
    requires
        i <= j,
        run.prev_vaults == run.pool.balances(),
        stays_known(run.pool, updates, i, j),
    ensures
        run_after(run, updates, i, j).pool == pool_after(run.pool, updates, i, j),
        run_after(run, updates, i, j).prev_vaults == pool_after(run.pool, updates, i, j).balances(),
        run_after(run, updates, i, j).derived == run.derived,
        run_after(run, updates, i, j).pool_id == run.pool_id,
        run_after(run, updates, i, j).amm_type == run.amm_type,
    decreases j - i,
{
    if i < j {
        assert(stays_known(run.pool, updates, i, j - 1));
        lemma_run_knows_balances(run, updates, i, j - 1);
        let before = pool_after(run.pool, updates, i, j - 1);
        assert(before.balances() is Some ==> pool_after(run.pool, updates, i, (j - 1) + 1).balances() is Some);
    }
}

proof fn lemma_change_is_kept(run: RunView, updates: Seq<UpdateView>, i: int, k: int, j: int)
    requires
        0 <= i <= k <= j <= updates.len(),
        run.prev_vaults == run.pool.balances(),
        stays_known(run.pool, updates, i, j),
        forall|m: int| k <= m < j ==> !starts_slot(updates, m),
        forall|m: int|
            k <= m <= j ==> #[trigger] pool_after(run.pool, updates, i, m).balances() == pool_after(
                run.pool,
                updates,
                i,
                k,
            ).balances(),
    ensures
        run_after(run, updates, i, j).change == run_after(run, updates, i, k).change,
    decreases j - k,
{
    if k < j {
        assert(stays_known(run.pool, updates, i, j - 1));
        lemma_change_is_kept(run, updates, i, k, j - 1);
        lemma_run_knows_balances(run, updates, i, j - 1);
        lemma_run_knows_balances(run, updates, i, j);
        assert(pool_after(run.pool, updates, i, j - 1).balances() == pool_after(run.pool, updates, i, j).balances());
        assert(!starts_slot(updates, j - 1));
    }
}

/// Whether a row of balances says that `b` was left by the update `u` in a
/// slot.
pub open spec fn dates(d: DerivedView, u: UpdateView, slot: u64, b: (u64, u64)) -> bool {
    &&& d.timestamp_ms == u.timestamp_ms
    &&& d.write_version == u.write_version
    &&& d.txn_signature == u.txn_signature
    &&& d.slot == slot
    &&& d.base_vault_balance == b.0
    &&& d.quote_vault_balance == b.1
}

/// The row of a slot's balances holds the pool's balances at the end of the
/// slot and is dated by the slot's update that brought them about: the last
/// after which they were others than before.
pub proof fn law_balances_are_dated_by_their_change(
    run: RunView,
    updates: Seq<UpdateView>,
    i: int,
    k: int,
    j: int,
    rows: Seq<QuoteRowView>,
)
    requires
        0 <= i <= k <= j < updates.len() <= usize::MAX,
        forall|m: int| i <= m <= j ==> (#[trigger] updates[m]).slot == updates[j].slot,
        run.prev_vaults == run.pool.balances(),
        stays_known(run.pool, updates, i, j + 1),
        run.advanced(updates, i).1 == Advance::Due(j as usize),
        pool_after(run.pool, updates, i, k).balances() != pool_after(run.pool, updates, i, k + 1).balances(),
        forall|m: int|
            k < m <= j + 1 ==> #[trigger] pool_after(run.pool, updates, i, m).balances() == pool_after(
                run.pool,
                updates,
                i,
                k + 1,
            ).balances(),
    ensures
        ({
            let end = run.advanced(updates, i).0;
            let derived = end.with_quotes(updates[j], rows).derived;
            &&& end.pool.balances() is Some
            &&& derived.len() == run.derived.len() + 1
            &&& dates(derived.last(), updates[k], updates[j].slot, end.pool.balances()->0)
            &&& derived.last().pool_id == run.pool_id
            &&& derived.last().amm_type == run.amm_type
        }),
{
    lemma_advanced_is_run_after(run, updates, i);
    lemma_run_knows_balances(run, updates, i, j + 1);
    assert(stays_known(run.pool, updates, i, k));
    lemma_run_knows_balances(run, updates, i, k);
    assert(pool_after(run.pool, updates, i, k).balances() is Some ==> pool_after(
        run.pool,
        updates,
        i,
        k + 1,
    ).balances() is Some);
    assert forall|m: int| k + 1 <= m < j + 1 implies !starts_slot(updates, m) by {
        assert(updates[m - 1].slot == updates[m].slot);
    }
    lemma_change_is_kept(run, updates, i, k + 1, j + 1);
}

/// Where no update of a slot changed a pool's balances, the row of that slot
/// is dated by the slot's last update, not by a change in an earlier slot.
pub proof fn law_unchanged_balances_are_dated_by_the_slots_end(
    run: RunView,
    updates: Seq<UpdateView>,
    i: int,
    j: int,
    rows: Seq<QuoteRowView>,
)
    requires
        0 <= i <= j < updates.len() <= usize::MAX,
        i == 0 || updates[i - 1].slot != updates[i].slot,
        forall|m: int| i <= m <= j ==> (#[trigger] updates[m]).slot == updates[j].slot,
        run.prev_vaults == run.pool.balances(),
        run.pool.balances() is Some,
        run.advanced(updates, i).1 == Advance::Due(j as usize),
        forall|m: int|
            i <= m <= j + 1 ==> #[trigger] pool_after(run.pool, updates, i, m).balances() == run.pool.balances(),
    ensures
        ({
            let derived = run.advanced(updates, i).0.with_quotes(updates[j], rows).derived;
            &&& derived.len() == run.derived.len() + 1
            &&& dates(derived.last(), updates[j], updates[j].slot, run.pool.balances()->0)
            &&& derived.last().pool_id == run.pool_id
            &&& derived.last().amm_type == run.amm_type
        }),
{
    lemma_advanced_is_run_after(run, updates, i);
    assert(stays_known(run.pool, updates, i, j + 1));
    assert(stays_known(run.pool, updates, i, i + 1));
    lemma_run_knows_balances(run, updates, i, j + 1);
    assert(pool_after(run.pool, updates, i, i) == run.pool);
    assert(run_after(run, updates, i, i) == run);
    assert(pool_after(run.pool, updates, i, i + 1).balances() == run.pool.balances());
    assert forall|m: int| i + 1 <= m < j + 1 implies !starts_slot(updates, m) by {
        assert(updates[m - 1].slot == updates[m].slot);
    }
    assert forall|m: int| i + 1 <= m <= j + 1 implies #[trigger] pool_after(run.pool, updates, i, m).balances()
        == pool_after(run.pool, updates, i, i + 1).balances() by {}
    lemma_change_is_kept(run, updates, i, i + 1, j + 1);
}

/// Quoting a slot appends one row for each quote, in the order of the quotes,
/// each of that slot, time and pool, and marks the slot as quoted.
pub proof fn law_quotes_of_a_slot(run: RunView, u: UpdateView, rows: Seq<QuoteRowView>, k: int)
    requires
        0 <= k < rows.len(),
    ensures
        run.with_quotes(u, rows).last_quote_slot == Some(u.slot),
        run.with_quotes(u, rows).pool == run.pool,
        run.with_quotes(u, rows).quotes.len() == run.quotes.len() + rows.len(),
        ({
            let q = run.with_quotes(u, rows).quotes[run.quotes.len() + k];
            &&& q.quote == rows[k]
            &&& q.slot == u.slot
            &&& q.timestamp_ms == u.timestamp_ms
            &&& q.pool_id == run.pool_id
            &&& q.amm_type == run.amm_type
        }),
{
}

/// A pool under replay with the rows that it gave so far.
#[derive(Debug)]
pub struct PoolRun {
    pub protocol: ProtocolReplay,
    pub pool_id: String,
    pub amm_type: String,
    pub last_quote_slot: Option<u64>,
    pub prev_vaults: Option<(u64, u64)>,
    pub slot_vault_sig: Option<VaultChange>,
    pub quotes: Vec<EngineQuoteRow>,
    pub derived: Vec<EngineDerivedRow>,
}

impl View for PoolRun {
    type V = RunView;

    open spec fn view(&self) -> RunView {
        RunView {
            pool: self.protocol@,
            pool_id: self.pool_id@,
            amm_type: self.amm_type@,
            last_quote_slot: self.last_quote_slot,
            prev_vaults: self.prev_vaults,
            change: match self.slot_vault_sig {
                Some(c) => Some(c@),
                None => None,
            },
            quotes: quote_views(self.quotes@),
            derived: derived_views(self.derived@),
        }
    }
}

impl PoolRun {
    pub open spec fn wf(self) -> bool {
        self.protocol.wf()
    }

    pub fn new(pool: &PoolInfo) -> (r: Result<Self, UnsupportedAmm>)
        ensures
            r is Ok == fresh_pool(pool.amm_type@) is Some,
            r is Ok ==> r->Ok_0.wf() && r->Ok_0@ == RunView::fresh(
                fresh_pool(pool.amm_type@)->0,
                pool.pool_id@,
                pool.amm_type@,
            ),
            r is Err ==> r->Err_0.amm_type@ == pool.amm_type@,
    {
        let protocol = match create_protocol(pool.amm_type.as_str()) {
            Ok(p) => p,
            Err(e) => return Err(e),
        };
        let run = PoolRun {
            protocol,
            pool_id: pool.pool_id.clone(),
            amm_type: pool.amm_type.clone(),
            last_quote_slot: None,
            prev_vaults: None,
            slot_vault_sig: None,
            quotes: Vec::new(),
            derived: Vec::new(),
        };
        assert(run@ =~= RunView::fresh(fresh_pool(pool.amm_type@)->0, pool.pool_id@, pool.amm_type@));
        Ok(run)
    }

    fn step(&mut self, u: &AccountUpdateRow, new_slot: bool)
        requires
            old(self).wf(),
            old(self)@.pool.accepts(u@.account_role, u@.account_data),
        ensures
            final(self).wf(),
            final(self)@ == old(self)@.after_update(u@, new_slot),
    {
        if new_slot {
            self.slot_vault_sig = None;
        }
        self.protocol.apply_update(u.account_role.as_str(), u.account_data.as_slice(), u.slot);
        if let Some((base, quote)) = self.protocol.vault_balances() {
            let changed = match self.prev_vaults {
                None => true,
                Some((pb, pq)) => pb != base || pq != quote,
            };
            if changed {
                self.slot_vault_sig = Some(
                    VaultChange {
                        txn_signature: u.txn_signature.clone(),
                        write_version: u.write_version,
                        timestamp_ms: u.timestamp_ms,
                    },
                );
                self.prev_vaults = Some((base, quote));
            }
        }
        assert(self@ =~= old(self)@.after_update(u@, new_slot));
    }

    /// Applies the updates from a place on, up to the next after which the
    /// pool is to be quoted.
    pub fn advance(&mut self, updates: &Vec<AccountUpdateRow>, from: usize) -> (r: Advance)
        requires
            old(self).wf(),
            from <= updates@.len(),
        ensures
            final(self).wf(),
            (final(self)@, r) == old(self)@.advanced(update_views(updates@), from as int),
    {
        let ghost views = update_views(updates@);
        let ghost end = self@.advanced(views, from as int);
        let mut i = from;
        while i < updates.len()
            invariant
                self.wf(),
                from <= i <= updates@.len(),
                views == update_views(updates@),
                self@.advanced(views, i as int) == end,
                end == old(self)@.advanced(views, from as int),
            decreases updates@.len() - i,
        {
            let u = &updates[i];
            assert(views[i as int] == u@);
            if !self.protocol.can_apply(u.account_role.as_str(), u.account_data.as_slice()) {
                return Advance::Refused(i);
            }
            let new_slot = i == 0 || updates[i - 1].slot != u.slot;
            let last_in_slot = updates.len() - i <= 1 || updates[i + 1].slot != u.slot;
            proof {
                if i > 0 {
                    assert(views[i - 1] == updates@[i - 1]@);
                }
                if i + 1 < updates@.len() {
                    assert(views[i + 1] == updates@[i + 1]@);
                }
            }
            self.step(u, new_slot);
            let quoted = match self.last_quote_slot {
                Some(s) => s == u.slot,
                None => false,
            };
            if self.protocol.is_ready() && last_in_slot && !quoted {
                return Advance::Due(i);
            }
            i = i + 1;
        }
        Advance::Done
    }

    fn push_quotes(&mut self, u: &AccountUpdateRow, rows: Vec<QuoteRow>)
        requires
            old(self).wf(),
        ensures
            final(self).wf(),
            final(self)@ == (RunView {
                quotes: old(self)@.quotes + slot_quotes(old(self)@, u@, row_views(rows@)),
                ..old(self)@
            }),
    {
        let ghost before = self@;
        let ghost views = row_views(rows@);
        let mut i: usize = 0;
        assert(self@.quotes =~= before.quotes + slot_quotes(before, u@, views.take(0)));
        while i < rows.len()
            invariant
                self.wf(),
                i <= rows@.len(),
                views == row_views(rows@),
                self@ =~= (RunView {
                    quotes: before.quotes + slot_quotes(before, u@, views.take(i as int)),
                    ..before
                }),
            decreases rows@.len() - i,
        {
            let q = &rows[i];
            let ghost old_quotes = self.quotes@;
            let row = EngineQuoteRow {
                timestamp_ms: u.timestamp_ms,
                slot: u.slot,
                pool_id: self.pool_id.clone(),
                amm_type: self.amm_type.clone(),
                direction: q.direction.clone(),
                input_amount: q.input_amount,
                output_amount: q.output_amount,
                tier: q.tier,
            };
            self.quotes.push(row);
            proof {
                assert(views[i as int] == q@);
                assert(quote_views(self.quotes@) =~= quote_views(old_quotes).push(row@));
                assert(slot_quotes(before, u@, views.take(i + 1)) =~= slot_quotes(
                    before,
                    u@,
                    views.take(i as int),
                ).push(row@));
                assert(self@.quotes =~= before.quotes + slot_quotes(before, u@, views.take(i + 1)));
            }
            i = i + 1;
        }
        assert(views.take(i as int) =~= views);
    }

    /// Quotes the pool after an update for trade sizes. Where a number
    /// outgrows its type, nothing changes and the answer is no.
    pub fn emit(&mut self, u: &AccountUpdateRow, tiers: &[TierInput]) -> (r: bool)
        requires
            old(self).wf(),
        ensures
            final(self).wf(),
            r == old(self)@.pool.rows(u@.slot as int, tiers@, tiers@.len()) is Some,
            !r ==> final(self)@ == old(self)@,
            r ==> final(self)@ == old(self)@.with_quotes(
                u@,
                old(self)@.pool.rows(u@.slot as int, tiers@, tiers@.len())->0,
            ),
    {
        let rows = match self.protocol.try_compute_quotes(u.slot, tiers) {
            Some(rows) => rows,
            None => return false,
        };
        let ghost views = row_views(rows@);
        self.push_quotes(u, rows);
        if let Some((base, quote)) = self.protocol.vault_balances() {
            let (signature, write_version, timestamp_ms) = match &self.slot_vault_sig {
                Some(c) => (c.txn_signature.clone(), c.write_version, c.timestamp_ms),
                None => (u.txn_signature.clone(), u.write_version, u.timestamp_ms),
            };
            let ghost before = self.derived@;
            let row = EngineDerivedRow {
                timestamp_ms,
                slot: u.slot,
                write_version,
                txn_signature: signature,
                pool_id: self.pool_id.clone(),
                amm_type: self.amm_type.clone(),
                base_vault_balance: base,
                quote_vault_balance: quote,
            };
            self.derived.push(row);
            assert(derived_views(self.derived@) =~= derived_views(before).push(row@));
        }
        self.last_quote_slot = Some(u.slot);
        assert(self@ =~= old(self)@.with_quotes(u@, views));
        true
    }

    /// What the replay has come to.
    pub fn finish(self, symbol: Option<String>, updates_processed: usize) -> (r: PoolResult)
        ensures
            r.pool_id@ == self@.pool_id,
            r.amm_type@ == self@.amm_type,
            r.symbol == symbol,
            quote_views(r.quotes@) == self@.quotes,
            derived_views(r.derived@) == self@.derived,
            r.updates_processed == updates_processed,
            r.quotes_emitted == self@.quotes.len(),
    {
        let quotes_emitted = self.quotes.len();
        PoolResult {
            pool_id: self.pool_id,
            amm_type: self.amm_type,
            symbol,
            quotes: self.quotes,
            derived: self.derived,
            updates_processed,
            quotes_emitted,
        }
    }
}

}
