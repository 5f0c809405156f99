//! The rows of a recording, kept per pool until they are written.
use vstd::prelude::*;

use crate::bytes::str_eq;
use crate::text::{four_digits, joined, padded, text_views};

verus! {

/// A row of a recording.
#[derive(Debug)]
pub struct StateRow {
    pub timestamp_ms: u64,
    pub slot: u64,
    pub write_version: u64,
    pub txn_signature: String,
    pub pool_id: String,
    pub account_pubkey: String,
    pub account_role: String,
    pub account_data_b64: String,
    pub is_heartbeat: bool,
}

/// What a row says.
#[verifier::ext_equal]
pub struct StateView {
    pub timestamp_ms: u64,
    pub slot: u64,
    pub write_version: u64,
    pub txn_signature: Seq<char>,
    pub pool_id: Seq<char>,
    pub account_pubkey: Seq<char>,
    pub account_role: Seq<char>,
    pub account_data_b64: Seq<char>,
    pub is_heartbeat: bool,
}

impl View for StateRow {
    type V = StateView;

    open spec fn view(&self) -> StateView {
        StateView {
            timestamp_ms: self.timestamp_ms,
            slot: self.slot,
            write_version: self.write_version,
            txn_signature: self.txn_signature@,
            pool_id: self.pool_id@,
            account_pubkey: self.account_pubkey@,
            account_role: self.account_role@,
            account_data_b64: self.account_data_b64@,
            is_heartbeat: self.is_heartbeat,
        }
    }
}

/// What the rows of a list say.
pub open spec fn state_views(rows: Seq<StateRow>) -> Seq<StateView> {
    rows.map_values(|r: StateRow| r@)
}

/// The rows of a pool.
#[derive(Debug)]
pub struct PoolBuffer {
    pub pool_id: String,
    pub rows: Vec<StateRow>,
}

impl View for PoolBuffer {
    type V = (Seq<char>, Seq<StateView>);

    open spec fn view(&self) -> (Seq<char>, Seq<StateView>) {
        (self.pool_id@, state_views(self.rows@))
    }
}

/// What the buffers of a list hold.
pub open spec fn buffer_views(buffers: Seq<PoolBuffer>) -> Seq<(Seq<char>, Seq<StateView>)> {
    buffers.map_values(|b: PoolBuffer| b@)
}

/// Seconds between two writes of the buffers.
pub const FLUSH_INTERVAL_SECS: u64 = 300;

/// The rows to write, and what their files' names end in.
#[derive(Debug)]
pub struct Flush {
    pub suffix: String,
    pub batches: Vec<PoolBuffer>,
}

/// The place of a pool's buffer from `i` on, or the end.
pub open spec fn buffer_place(buffers: Seq<(Seq<char>, Seq<StateView>)>, pool_id: Seq<char>, i: int) -> int
    decreases buffers.len() - i,
{
    if i >= buffers.len() || buffers[i].0 == pool_id {
        i
    } else {
        buffer_place(buffers, pool_id, i + 1)
    }
}

/// One empty buffer for each of the first `n` pools; a pool that is named
/// again has its buffer already.
pub open spec fn opened(pool_ids: Seq<Seq<char>>, n: nat) -> Seq<(Seq<char>, Seq<StateView>)>
    decreases n,
{
    if n == 0 {
        Seq::empty()
    } else {
        let rest = opened(pool_ids, (n - 1) as nat);
        if buffer_place(rest, pool_ids[n - 1], 0) < rest.len() {
            rest
        } else {
            rest.push((pool_ids[n - 1], Seq::empty()))
        }
    }
}

/// The buffers with a row of a pool; a row of an unknown pool is dropped.
pub open spec fn pushed(buffers: Seq<(Seq<char>, Seq<StateView>)>, pool_id: Seq<char>, row: StateView) -> Seq<
    (Seq<char>, Seq<StateView>),
> {
    let i = buffer_place(buffers, pool_id, 0);
    if i < buffers.len() {
        buffers.update(i, (pool_id, buffers[i].1.push(row)))
    } else {
        buffers
    }
}

/// The first `n` buffers that hold rows.
pub open spec fn filled(buffers: Seq<(Seq<char>, Seq<StateView>)>, n: nat) -> Seq<(Seq<char>, Seq<StateView>)>
    decreases n,
{
    if n == 0 {
        Seq::empty()
    } else {
        let rest = filled(buffers, (n - 1) as nat);
        if buffers[n - 1].1.len() > 0 {
            rest.push(buffers[n - 1])
        } else {
            rest
        }
    }
}

/// The buffers without their rows.
pub open spec fn emptied(buffers: Seq<(Seq<char>, Seq<StateView>)>) -> Seq<(Seq<char>, Seq<StateView>)> {
    buffers.map_values(|b: (Seq<char>, Seq<StateView>)| (b.0, Seq::<StateView>::empty()))
}

proof fn lemma_filled(buffers: Seq<(Seq<char>, Seq<StateView>)>, n: nat)
    requires
        n <= buffers.len(),
    ensures
        forall|i: int| 0 <= i < n && (#[trigger] buffers[i]).1.len() > 0 ==> filled(buffers, n).contains(buffers[i]),
        forall|k: int|
            0 <= k < filled(buffers, n).len() ==> buffers.contains(#[trigger] filled(buffers, n)[k]) && filled(
                buffers,
                n,
            )[k].1.len() > 0,
    decreases n,
{
    if n > 0 {
        let m = (n - 1) as nat;
        lemma_filled(buffers, m);
        let rest = filled(buffers, m);
        let all = filled(buffers, n);
        assert forall|i: int| 0 <= i < n && (#[trigger] buffers[i]).1.len() > 0 implies all.contains(buffers[i]) by {
            if i < m {
                assert(rest.contains(buffers[i]));
                let k = choose|k: int| 0 <= k < rest.len() && rest[k] == buffers[i];
                assert(all[k] == buffers[i]);
            } else {
                assert(all[rest.len() as int] == buffers[i]);
            }
        }
        assert forall|k: int| 0 <= k < all.len() implies buffers.contains(#[trigger] all[k]) && all[k].1.len() > 0 by {
            if k < rest.len() {
                assert(all[k] == rest[k]);
            }
        }
    }
}

/// A write hands out every row that is kept, under its pool and in the order
/// in which it came, and nothing else.
pub proof fn law_flush_hands_out_every_row(
    buffers: Seq<(Seq<char>, Seq<StateView>)>,
    b: (Seq<char>, Seq<StateView>),
)
    requires
        b.1.len() > 0,
    ensures
        filled(buffers, buffers.len()).contains(b) <==> buffers.contains(b),
        !emptied(buffers).contains(b),
{
    lemma_filled(buffers, buffers.len());
    if buffers.contains(b) {
        let i = choose|i: int| 0 <= i < buffers.len() && buffers[i] == b;
        assert(filled(buffers, buffers.len()).contains(buffers[i]));
    }
    if filled(buffers, buffers.len()).contains(b) {
        let k = choose|k: int|
            0 <= k < filled(buffers, buffers.len()).len() && filled(buffers, buffers.len())[k] == b;
        assert(buffers.contains(filled(buffers, buffers.len())[k]));
    }
}

/// The rows that wait for a write.
#[derive(Debug)]
pub struct SessionWriter {
    pub buffers: Vec<PoolBuffer>,
    pub flush_epoch: u32,
}

/// What the names of a write's files end in.
pub open spec fn epoch_suffix(epoch: int) -> Seq<char> {
    "_"@ + four_digits(epoch as nat)
}

pub fn suffix_of(epoch: u32) -> (r: String)
    ensures
        r@ == epoch_suffix(epoch as int),
{
    joined("_", padded(epoch as u64).as_str())
}

/// The name of a file of recorded state.
pub fn state_file(suffix: &str) -> (r: String)
    ensures
        r@ == "state"@ + suffix@ + ".parquet"@,
{
    let mut m = joined("state", suffix);
    m.append(".parquet");
    m
}

fn place_of(buffers: &Vec<PoolBuffer>, pool_id: &str) -> (r: usize)
    ensures
        r == buffer_place(buffer_views(buffers@), pool_id@, 0),
        r <= buffers@.len(),
{
    let ghost views = buffer_views(buffers@);
    let mut i: usize = 0;
    while i < buffers.len()
        invariant
            i <= buffers@.len(),
            views == buffer_views(buffers@),
            buffer_place(views, pool_id@, i as int) == buffer_place(views, pool_id@, 0),
        decreases buffers@.len() - i,
    {
        assert(views[i as int] == buffers@[i as int]@);
        if str_eq(buffers[i].pool_id.as_str(), pool_id) {
            return i;
        }
        i = i + 1;
    }
    i
}

impl SessionWriter {
    pub fn new(pool_ids: &Vec<String>) -> (r: Self)
        ensures
            buffer_views(r.buffers@) == opened(text_views(pool_ids@), pool_ids@.len()),
            r.flush_epoch == 0,
    {
        let ghost ids = text_views(pool_ids@);
        let mut buffers: Vec<PoolBuffer> = Vec::new();
        let mut i: usize = 0;
        assert(buffer_views(buffers@) =~= opened(ids, 0));
        while i < pool_ids.len()
            invariant
                i <= pool_ids@.len(),
                ids == text_views(pool_ids@),
                buffer_views(buffers@) == opened(ids, i as nat),
            decreases pool_ids@.len() - i,
        {
            assert(ids[i as int] == pool_ids@[i as int]@);
            if place_of(&buffers, pool_ids[i].as_str()) >= buffers.len() {
                let ghost before = buffers@;
                let b = PoolBuffer { pool_id: pool_ids[i].clone(), rows: Vec::new() };
                buffers.push(b);
                proof {
                    assert(state_views(b.rows@) =~= Seq::empty());
                    assert(buffer_views(buffers@) =~= buffer_views(before).push(b@));
                }
            }
            i = i + 1;
        }
        SessionWriter { buffers, flush_epoch: 0 }
    }

    /// Keeps a row of a pool.
    pub fn push(&mut self, pool_id: &str, row: StateRow)
        ensures
            buffer_views(final(self).buffers@) == pushed(buffer_views(old(self).buffers@), pool_id@, row@),
            final(self).flush_epoch == old(self).flush_epoch,
    {
        let ghost views = buffer_views(self.buffers@);
        let i = place_of(&self.buffers, pool_id);
        if i < self.buffers.len() {
            let ghost b = self.buffers@[i as int];
            proof {
                lemma_place_holds(views, pool_id@, 0);
                assert(views[i as int] == b@);
            }
            self.buffers[i].rows.push(row);
            proof {
                assert(state_views(self.buffers@[i as int].rows@) =~= state_views(b.rows@).push(row@));
                assert(buffer_views(self.buffers@) =~= pushed(views, pool_id@, row@));
            }
        }
    }

    fn take_all(&mut self) -> (r: Vec<PoolBuffer>)
        ensures
            buffer_views(r@) == filled(buffer_views(old(self).buffers@), old(self).buffers@.len()),
            buffer_views(final(self).buffers@) == emptied(buffer_views(old(self).buffers@)),
            final(self).flush_epoch == old(self).flush_epoch,
    {
        let ghost views = buffer_views(self.buffers@);
        let mut batches: Vec<PoolBuffer> = Vec::new();
        let n = self.buffers.len();
        let mut i: usize = 0;
        assert(buffer_views(batches@) =~= filled(views, 0));
        while i < n
            invariant
                i <= n,
                n == self.buffers@.len(),
                n == views.len(),
                views == buffer_views(old(self).buffers@),
                self.flush_epoch == old(self).flush_epoch,
                buffer_views(batches@) == filled(views, i as nat),
                forall|k: int| 0 <= k < i ==> (#[trigger] self.buffers@[k])@ == emptied(views)[k],
                forall|k: int| i <= k < n ==> (#[trigger] self.buffers@[k])@ == views[k],
            decreases n - i,
        {
            let ghost before = self.buffers@;
            let mut rows: Vec<StateRow> = Vec::new();
            std::mem::swap(&mut self.buffers[i].rows, &mut rows);
            proof {
                assert(state_views(self.buffers@[i as int].rows@) =~= Seq::empty());
                assert(before[i as int]@ == views[i as int]);
                assert(emptied(views)[i as int] == (views[i as int].0, Seq::<StateView>::empty()));
                assert forall|k: int| 0 <= k < n && k != i implies (#[trigger] self.buffers@[k]) == before[k] by {}
            }
            if rows.len() > 0 {
                let ghost old_batches = batches@;
                let b = PoolBuffer { pool_id: self.buffers[i].pool_id.clone(), rows };
                batches.push(b);
                assert(buffer_views(batches@) =~= buffer_views(old_batches).push(b@));
            }
            i = i + 1;
        }
        assert(buffer_views(self.buffers@) =~= emptied(views));
        batches
    }

    /// The rows to write once the interval has passed since the last write.
    pub fn maybe_flush(&mut self, elapsed_secs: u64) -> (r: Option<Flush>)
        requires
            old(self).flush_epoch < u32::MAX,
        ensures
            r is Some == (elapsed_secs >= FLUSH_INTERVAL_SECS),
            r is None ==> *final(self) == *old(self),
            r matches Some(f) ==> {
                &&& final(self).flush_epoch == old(self).flush_epoch + 1
                &&& f.suffix@ == epoch_suffix(old(self).flush_epoch + 1)
                &&& buffer_views(f.batches@) == filled(
                    buffer_views(old(self).buffers@),
                    old(self).buffers@.len(),
                )
                &&& buffer_views(final(self).buffers@) == emptied(buffer_views(old(self).buffers@))
            },
    {
        if elapsed_secs < FLUSH_INTERVAL_SECS {
            return None;
        }
        self.flush_epoch = self.flush_epoch + 1;
        let suffix = suffix_of(self.flush_epoch);
        let batches = self.take_all();
        Some(Flush { suffix, batches })
    }

    /// The rows that are left at the end; their files' names end in nothing
    /// where no others were written before.
    pub fn finish_all(self) -> (r: Flush)
        requires
            self.flush_epoch < u32::MAX,
        ensures
            r.suffix@ == (if self.flush_epoch > 0 {
                epoch_suffix(self.flush_epoch + 1)
            } else {
                Seq::empty()
            }),
            buffer_views(r.batches@) == filled(buffer_views(self.buffers@), self.buffers@.len()),
    {
        let mut writer = self;
        let suffix = if writer.flush_epoch > 0 {
            suffix_of(writer.flush_epoch + 1)
        } else {
            String::new()
        };
        let batches = writer.take_all();
        Flush { suffix, batches }
    }
}

proof fn lemma_place_holds(buffers: Seq<(Seq<char>, Seq<StateView>)>, pool_id: Seq<char>, i: int)
    requires
        0 <= i <= buffers.len(),
    ensures
        i <= buffer_place(buffers, pool_id, i) <= buffers.len(),
        buffer_place(buffers, pool_id, i) < buffers.len() ==> buffers[buffer_place(buffers, pool_id, i)].0 == pool_id,
    decreases buffers.len() - i,
{
    if i < buffers.len() && buffers[i].0 != pool_id {
        lemma_place_holds(buffers, pool_id, i + 1);
    }
}

/// A row that comes in is kept behind the rows of its pool, and the rows of
/// the other pools stay.
pub proof fn law_push_keeps_order(
    buffers: Seq<(Seq<char>, Seq<StateView>)>,
    pool_id: Seq<char>,
    row: StateView,
    i: int,
)
    requires
        0 <= i < buffers.len(),
    ensures
        pushed(buffers, pool_id, row).len() == buffers.len(),
        pushed(buffers, pool_id, row)[i].0 == buffers[i].0,
        pushed(buffers, pool_id, row)[i].1 == (if i == buffer_place(buffers, pool_id, 0) {
            buffers[i].1.push(row)
        } else {
            buffers[i].1
        }),
{
    lemma_place_holds(buffers, pool_id, 0);
}

proof fn lemma_place_is_first(buffers: Seq<(Seq<char>, Seq<StateView>)>, pool_id: Seq<char>, i: int)
    requires
        0 <= i <= buffers.len(),
    ensures
        i <= buffer_place(buffers, pool_id, i) <= buffers.len(),
        buffer_place(buffers, pool_id, i) < buffers.len() ==> buffers[buffer_place(buffers, pool_id, i)].0 == pool_id,
        forall|k: int| i <= k < buffer_place(buffers, pool_id, i) ==> (#[trigger] buffers[k]).0 != pool_id,
    decreases buffers.len() - i,
{
    if i < buffers.len() && buffers[i].0 != pool_id {
        lemma_place_is_first(buffers, pool_id, i + 1);
    }
}

/// Whether no two buffers are of one pool.
pub open spec fn one_each(buffers: Seq<(Seq<char>, Seq<StateView>)>) -> bool {
    forall|i: int, j: int| 0 <= i < j < buffers.len() ==> (#[trigger] buffers[i]).0 != (#[trigger] buffers[j]).0
}

/// A row of a pool goes to the end of that pool's buffer, and no other buffer
/// changes. A row of a pool without a buffer is dropped.
pub proof fn law_row_reaches_its_pool(
    buffers: Seq<(Seq<char>, Seq<StateView>)>,
    pool_id: Seq<char>,
    row: StateView,
    i: int,
)
    requires
        one_each(buffers),
        0 <= i < buffers.len(),
    ensures
        one_each(pushed(buffers, pool_id, row)),
        pushed(buffers, pool_id, row).len() == buffers.len(),
        pushed(buffers, pool_id, row)[i].0 == buffers[i].0,
        buffers[i].0 == pool_id ==> pushed(buffers, pool_id, row)[i].1 == buffers[i].1.push(row),
        buffers[i].0 != pool_id ==> pushed(buffers, pool_id, row)[i].1 == buffers[i].1,
{
    lemma_place_is_first(buffers, pool_id, 0);
    let p = buffer_place(buffers, pool_id, 0);
    if buffers[i].0 == pool_id && i > p {
        assert(buffers[p].0 != buffers[i].0);
    }
}

/// The buffers of a session: one for each pool, however often it is named, and
/// all of them empty.
pub proof fn law_every_pool_has_one_buffer(pool_ids: Seq<Seq<char>>, n: nat)
    requires
        n <= pool_ids.len(),
    ensures
        one_each(opened(pool_ids, n)),
        opened(pool_ids, n).len() <= n,
        forall|i: int|
            0 <= i < opened(pool_ids, n).len() ==> (#[trigger] opened(pool_ids, n)[i]).1.len() == 0
                && pool_ids.contains(opened(pool_ids, n)[i].0),
        forall|k: int| 0 <= k < n ==> has_buffer(opened(pool_ids, n), #[trigger] pool_ids[k]),
    decreases n,
{
    if n > 0 {
        law_every_pool_has_one_buffer(pool_ids, (n - 1) as nat);
        let rest = opened(pool_ids, (n - 1) as nat);
        let all = opened(pool_ids, n);
        let id = pool_ids[n - 1];
        lemma_place_is_first(rest, id, 0);
        assert(pool_ids.contains(id));
        assert forall|k: int| 0 <= k < n implies has_buffer(all, #[trigger] pool_ids[k]) by {
            if k < n - 1 {
                assert(has_buffer(rest, pool_ids[k]));
                let i = choose|i: int| 0 <= i < rest.len() && (#[trigger] rest[i]).0 == pool_ids[k];
                assert(all[i] == rest[i]);
            } else if buffer_place(rest, id, 0) < rest.len() {
                assert(all[buffer_place(rest, id, 0)].0 == id);
            } else {
                assert(all[rest.len() as int].0 == id);
            }
        }
    }
}

/// Whether a pool has a buffer.
pub open spec fn has_buffer(buffers: Seq<(Seq<char>, Seq<StateView>)>, pool_id: Seq<char>) -> bool {
    exists|i: int| 0 <= i < buffers.len() && (#[trigger] buffers[i]).0 == pool_id
}

/// A flush hands out the buffers that hold rows, each once and in the order in
/// which they stand, and leaves all of them empty under their pools' names.
pub proof fn law_flush_keeps_order(buffers: Seq<(Seq<char>, Seq<StateView>)>, n: nat) -> (at: Seq<int>)
    requires
        n <= buffers.len(),
    ensures
        at.len() == filled(buffers, n).len(),
        forall|k: int| #![trigger at[k]]
            0 <= k < at.len() ==> 0 <= at[k] < n && filled(buffers, n)[k] == buffers[at[k]],
        forall|j: int, k: int| 0 <= j < k < at.len() ==> #[trigger] at[j] < #[trigger] at[k],
        forall|i: int| 0 <= i < n ==> ((#[trigger] buffers[i]).1.len() > 0 <==> at.contains(i)),
        emptied(buffers).len() == buffers.len(),
        forall|i: int|
            0 <= i < buffers.len() ==> (#[trigger] emptied(buffers)[i]).0 == buffers[i].0 && emptied(buffers)[i].1.len()
                == 0,
    decreases n,
{
    if n == 0 {
        Seq::empty()
    } else {
        let i = n - 1;
        let rest = law_flush_keeps_order(buffers, i as nat);
        if buffers[i].1.len() > 0 {
            let at = rest.push(i);
            assert forall|k: int| 0 <= k < n implies ((#[trigger] buffers[k]).1.len() > 0 <==> at.contains(k)) by {
                if k == i {
                    assert(at[rest.len() as int] == k);
                } else {
                    if rest.contains(k) {
                        let j = choose|j: int| 0 <= j < rest.len() && rest[j] == k;
                        assert(at[j] == k);
                    }
                    if at.contains(k) {
                        let j = choose|j: int| 0 <= j < at.len() && at[j] == k;
                        assert(rest[j] == k);
                    }
                }
            }
            at
        } else {
            assert forall|k: int| 0 <= k < n implies ((#[trigger] buffers[k]).1.len() > 0 <==> rest.contains(k)) by {
                if k == i && rest.contains(k) {
                    let j = choose|j: int| 0 <= j < rest.len() && rest[j] == k;
                    assert(0 <= rest[j] < i);
                }
            }
            rest
        }
    }
}

}
