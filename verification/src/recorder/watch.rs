//! The accounts under watch, and the rows that their updates give.
use vstd::prelude::*;

use super::buffers::{buffer_views, law_row_reaches_its_pool, one_each, pushed, SessionWriter, StateRow, StateView};
use super::config::{entry_views, EntryView, PoolConfig};
use crate::codec::{
    address_text, address_to_text, base58_text, base64_bytes, base64_text, decode_base64, encode_base58, encode_base64,
    Base64Error,
};
use crate::reader::{readable, update_of, StoredView, UpdateView};

verus! {

/// Seconds between two snapshots of all accounts.
pub const HEARTBEAT_SECS: u64 = 30;

/// Whether an address comes before another, from a byte on.
pub open spec fn key_less(a: Seq<u8>, b: Seq<u8>, i: int) -> bool
    decreases 32 - i,
{
    if i >= 32 {
        false
    } else if a[i] != b[i] {
        a[i] < b[i]
    } else {
        key_less(a, b, i + 1)
    }
}

proof fn lemma_key_less_transitive(a: Seq<u8>, b: Seq<u8>, c: Seq<u8>, i: int)
    requires
        key_less(a, b, i),
        key_less(b, c, i),
    ensures
        key_less(a, c, i),
    decreases 32 - i,
{
    if i < 32 && a[i] == b[i] && b[i] == c[i] {
        lemma_key_less_transitive(a, b, c, i + 1);
    }
}

proof fn lemma_key_less_total(a: Seq<u8>, b: Seq<u8>, i: int)
    requires
        a.len() == 32,
        b.len() == 32,
        0 <= i,
        !key_less(a, b, i),
        !key_less(b, a, i),
    ensures
        forall|k: int| i <= k < 32 ==> a[k] == b[k],
    decreases 32 - i,
{
    if i < 32 {
        lemma_key_less_total(a, b, i + 1);
    }
}

fn key_before(a: &[u8; 32], b: &[u8; 32]) -> (r: bool)
    ensures
        r == key_less(a@, b@, 0),
{
    let mut i: usize = 0;
    while i < 32
        invariant
            i <= 32,
            key_less(a@, b@, i as int) == key_less(a@, b@, 0),
        decreases 32 - i,
    {
        if a[i] != b[i] {
            return a[i] < b[i];
        }
        i = i + 1;
    }
    false
}

fn same_key(a: &[u8; 32], b: &[u8; 32]) -> (r: bool)
    ensures
        r == (a@ == b@),
{
    let mut i: usize = 0;
    while i < 32
        invariant
            i <= 32,
            forall|k: int| 0 <= k < i ==> a@[k] == b@[k],
        decreases 32 - i,
    {
        if a[i] != b[i] {
            return false;
        }
        i = i + 1;
    }
    assert(a@ =~= b@);
    true
}

/// An account under watch: its pool, its part in it, and its latest data.
#[derive(Debug)]
pub struct Watched {
    pub pubkey: [u8; 32],
    pub pool_id: String,
    pub role: String,
    pub last_data: Option<Vec<u8>>,
}

/// What is known of an account under watch.
#[verifier::ext_equal]
pub struct WatchedView {
    pub pubkey: Seq<u8>,
    pub pool_id: Seq<char>,
    pub role: Seq<char>,
    pub last_data: Option<Seq<u8>>,
}

impl View for Watched {
    type V = WatchedView;

    open spec fn view(&self) -> WatchedView {
        WatchedView {
            pubkey: self.pubkey@,
            pool_id: self.pool_id@,
            role: self.role@,
            last_data: match self.last_data {
                Some(d) => Some(d@),
                None => None,
            },
        }
    }
}

/// What is known of the accounts of a list.
pub open spec fn watched_views(accounts: Seq<Watched>) -> Seq<WatchedView> {
    accounts.map_values(|w: Watched| w@)
}

/// Whether the accounts are ordered by their addresses, none twice.
pub open spec fn keys_increase(accounts: Seq<WatchedView>) -> bool {
    &&& forall|i: int| 0 <= i < accounts.len() ==> (#[trigger] accounts[i]).pubkey.len() == 32
    &&& forall|i: int, j: int|
        0 <= i < j < accounts.len() ==> key_less((#[trigger] accounts[i]).pubkey, (#[trigger] accounts[j]).pubkey, 0)
}

/// The first account from `i` on that does not come before an address.
pub open spec fn account_place(accounts: Seq<WatchedView>, key: Seq<u8>, i: int) -> int
    decreases accounts.len() - i,
{
    if i >= accounts.len() || !key_less(accounts[i].pubkey, key, 0) {
        i
    } else {
        account_place(accounts, key, i + 1)
    }
}

/// Whether an address is under watch.
pub open spec fn is_watched(accounts: Seq<WatchedView>, key: Seq<u8>) -> bool {
    let p = account_place(accounts, key, 0);
    p < accounts.len() && accounts[p].pubkey == key
}

/// The accounts with one more under watch; what was said of it before is
/// replaced.
pub open spec fn watching(accounts: Seq<WatchedView>, key: Seq<u8>, pool_id: Seq<char>, role: Seq<char>) -> Seq<
    WatchedView,
> {
    let p = account_place(accounts, key, 0);
    if is_watched(accounts, key) {
        accounts.update(p, WatchedView { pool_id, role, ..accounts[p] })
    } else {
        accounts.insert(p, WatchedView { pubkey: key, pool_id, role, last_data: None })
    }
}

proof fn lemma_account_place(accounts: Seq<WatchedView>, key: Seq<u8>, i: int)
    requires
        0 <= i <= accounts.len(),
        forall|k: int| 0 <= k < i ==> key_less((#[trigger] accounts[k]).pubkey, key, 0),
    ensures
        i <= account_place(accounts, key, i) <= accounts.len(),
        forall|k: int| 0 <= k < account_place(accounts, key, i) ==> key_less((#[trigger] accounts[k]).pubkey, key, 0),
        account_place(accounts, key, i) < accounts.len() ==> !key_less(
            accounts[account_place(accounts, key, i)].pubkey,
            key,
            0,
        ),
    decreases accounts.len() - i,
{
    if i < accounts.len() && key_less(accounts[i].pubkey, key, 0) {
        lemma_account_place(accounts, key, i + 1);
    }
}

/// One more account under watch leaves the accounts in order, each once.
pub proof fn law_watching_keeps_order(
    accounts: Seq<WatchedView>,
    key: Seq<u8>,
    pool_id: Seq<char>,
    role: Seq<char>,
)
    requires
        keys_increase(accounts),
        key.len() == 32,
    ensures
        keys_increase(watching(accounts, key, pool_id, role)),
        is_watched(watching(accounts, key, pool_id, role), key),
{
    lemma_account_place(accounts, key, 0);
    let p = account_place(accounts, key, 0);
    let after = watching(accounts, key, pool_id, role);
    if !is_watched(accounts, key) {
        assert forall|k: int| p <= k < accounts.len() implies key_less(key, (#[trigger] accounts[k]).pubkey, 0) by {
            if !key_less(key, accounts[p].pubkey, 0) {
                lemma_key_less_total(accounts[p].pubkey, key, 0);
                assert(accounts[p].pubkey =~= key);
            }
            if k > p {
                lemma_key_less_transitive(key, accounts[p].pubkey, accounts[k].pubkey, 0);
            }
        }
        assert forall|i: int, j: int| 0 <= i < j < after.len() implies key_less(
            (#[trigger] after[i]).pubkey,
            (#[trigger] after[j]).pubkey,
            0,
        ) by {
            let a = if i < p {
                accounts[i].pubkey
            } else if i == p {
                key
            } else {
                accounts[i - 1].pubkey
            };
            let b = if j < p {
                accounts[j].pubkey
            } else if j == p {
                key
            } else {
                accounts[j - 1].pubkey
            };
            assert(after[i].pubkey == a && after[j].pubkey == b);
        }
        assert forall|i: int| 0 <= i < after.len() implies (#[trigger] after[i]).pubkey.len() == 32 by {
            if i < p {
                assert(after[i] == accounts[i]);
            } else if i > p {
                assert(after[i] == accounts[i - 1]);
            }
        }
    }
    lemma_place_unique(after, key, p, 0);
}

proof fn lemma_key_not_below_itself(key: Seq<u8>, i: int)
    ensures
        !key_less(key, key, i),
    decreases 32 - i,
{
    if i < 32 {
        lemma_key_not_below_itself(key, i + 1);
    }
}

proof fn lemma_place_unique(accounts: Seq<WatchedView>, key: Seq<u8>, p: int, i: int)
    requires
        0 <= i <= p < accounts.len(),
        keys_increase(accounts),
        accounts[p].pubkey == key,
    ensures
        account_place(accounts, key, i) == p,
    decreases p - i,
{
    lemma_key_not_below_itself(key, 0);
    if i < p {
        assert(key_less(accounts[i].pubkey, accounts[p].pubkey, 0));
        lemma_place_unique(accounts, key, p, i + 1);
    }
}

/// The accounts with the first `n` entries of a pool under watch.
pub open spec fn watching_entries(
    accounts: Seq<WatchedView>,
    entries: Seq<EntryView>,
    pool_id: Seq<char>,
    n: nat,
) -> Seq<WatchedView>
    decreases n,
{
    if n == 0 {
        accounts
    } else {
        let rest = watching_entries(accounts, entries, pool_id, (n - 1) as nat);
        watching(rest, entries[n - 1].pubkey, pool_id, entries[n - 1].role)
    }
}

/// The accounts of the first `n` configured pools.
pub open spec fn watching_pools(configs: Seq<PoolConfig>, n: nat) -> Seq<WatchedView>
    decreases n,
{
    if n == 0 {
        Seq::empty()
    } else {
        let c = configs[n - 1];
        watching_entries(
            watching_pools(configs, (n - 1) as nat),
            entry_views(c.accounts@),
            address_text(c.pool_id@),
            c.accounts@.len(),
        )
    }
}

/// An update of an account as it comes in.
#[derive(Debug)]
pub struct AccountUpdate {
    pub pubkey: [u8; 32],
    pub data: Vec<u8>,
    pub slot: u64,
    pub write_version: u64,
    pub txn_signature: Option<Vec<u8>>,
}

/// The text of a signature; none where the update has none.
pub open spec fn signature_text(sig: Option<Vec<u8>>) -> Seq<char> {
    match sig {
        Some(s) => base58_text(s@),
        None => Seq::empty(),
    }
}

/// Whether the texts of an update have room in memory.
pub open spec fn has_room(u: AccountUpdate) -> bool {
    u.data@.len() <= usize::MAX / 4 && (u.txn_signature is Some ==> u.txn_signature->0@.len() <= usize::MAX / 4)
}

/// The row of an update.
pub open spec fn update_row(w: WatchedView, u: AccountUpdate, timestamp_ms: u64) -> StateView {
    StateView {
        timestamp_ms,
        slot: u.slot,
        write_version: u.write_version,
        txn_signature: signature_text(u.txn_signature),
        pool_id: w.pool_id,
        account_pubkey: address_text(w.pubkey),
        account_role: w.role,
        account_data_b64: base64_text(u.data@),
        is_heartbeat: false,
    }
}

/// The row of an account in a snapshot.
pub open spec fn heartbeat_row(w: WatchedView, timestamp_ms: u64) -> StateView {
    StateView {
        timestamp_ms,
        slot: 0,
        write_version: 0,
        txn_signature: Seq::empty(),
        pool_id: w.pool_id,
        account_pubkey: address_text(w.pubkey),
        account_role: w.role,
        account_data_b64: base64_text(w.last_data->0),
        is_heartbeat: true,
    }
}

/// The buffers with a snapshot of the first `n` accounts; those without data
/// are left out.
pub open spec fn snapshot(
    buffers: Seq<(Seq<char>, Seq<StateView>)>,
    accounts: Seq<WatchedView>,
    timestamp_ms: u64,
    n: nat,
) -> Seq<(Seq<char>, Seq<StateView>)>
    decreases n,
{
    if n == 0 {
        buffers
    } else {
        let rest = snapshot(buffers, accounts, timestamp_ms, (n - 1) as nat);
        let w = accounts[n - 1];
        if w.last_data is Some {
            pushed(rest, w.pool_id, heartbeat_row(w, timestamp_ms))
        } else {
            rest
        }
    }
}

/// What a recorded row reads back as.
pub open spec fn stored_row(r: StateView) -> StoredView {
    StoredView {
        timestamp_ms: r.timestamp_ms,
        slot: r.slot,
        write_version: r.write_version,
        txn_signature: r.txn_signature,
        account_role: r.account_role,
        account_data_b64: r.account_data_b64,
    }
}

/// Whether a recorded row reads back as an update with some data.
pub open spec fn reads_back(r: StateView, data: Seq<u8>) -> bool {
    readable(stored_row(r)) && update_of(stored_row(r)) == (UpdateView {
        timestamp_ms: r.timestamp_ms,
        slot: r.slot,
        write_version: r.write_version,
        txn_signature: r.txn_signature,
        account_role: r.account_role,
        account_data: data,
    })
}

/// The accounts of a session with the rows that wait for a write.
#[derive(Debug)]
pub struct Recorder {
    pub accounts: Vec<Watched>,
    pub writer: SessionWriter,
    pub update_count: u64,
}

fn place_in(accounts: &Vec<Watched>, key: &[u8; 32]) -> (r: usize)
    ensures
        r == account_place(watched_views(accounts@), key@, 0),
        r <= accounts@.len(),
{
    let ghost views = watched_views(accounts@);
    let mut i: usize = 0;
    while i < accounts.len()
        invariant
            i <= accounts@.len(),
            views == watched_views(accounts@),
            account_place(views, key@, i as int) == account_place(views, key@, 0),
        decreases accounts@.len() - i,
    {
        assert(views[i as int] == accounts@[i as int]@);
        if !key_before(&accounts[i].pubkey, key) {
            return i;
        }
        i = i + 1;
    }
    i
}

fn watch(accounts: &mut Vec<Watched>, key: [u8; 32], pool_id: String, role: String)
    requires
        keys_increase(watched_views(old(accounts)@)),
    ensures
        watched_views(final(accounts)@) == watching(watched_views(old(accounts)@), key@, pool_id@, role@),
        keys_increase(watched_views(final(accounts)@)),
{
    let ghost views = watched_views(accounts@);
    proof {
        law_watching_keeps_order(views, key@, pool_id@, role@);
    }
    let p = place_in(accounts, &key);
    if p < accounts.len() && same_key(&accounts[p].pubkey, &key) {
        let ghost w = accounts@[p as int];
        assert(views[p as int] == w@);
        accounts[p].pool_id = pool_id;
        accounts[p].role = role;
        assert(watched_views(accounts@) =~= watching(views, key@, pool_id@, role@));
    } else {
        proof {
            if p < accounts@.len() {
                assert(views[p as int] == accounts@[p as int]@);
            }
        }
        accounts.insert(p, Watched { pubkey: key, pool_id, role, last_data: None });
        assert(watched_views(accounts@) =~= watching(views, key@, pool_id@, role@));
    }
}

/// The accounts of configured pools.
pub fn watch_pools(configs: &Vec<PoolConfig>) -> (r: Vec<Watched>)
    ensures
        watched_views(r@) == watching_pools(configs@, configs@.len()),
        keys_increase(watched_views(r@)),
{
    let mut accounts: Vec<Watched> = Vec::new();
    let mut i: usize = 0;
    assert(watched_views(accounts@) =~= Seq::empty());
    while i < configs.len()
        invariant
            i <= configs@.len(),
            watched_views(accounts@) == watching_pools(configs@, i as nat),
            keys_increase(watched_views(accounts@)),
        decreases configs@.len() - i,
    {
        let c = &configs[i];
        let pool_id = address_to_text(&c.pool_id);
        let ghost start = watched_views(accounts@);
        let ghost entries = entry_views(c.accounts@);
        let mut k: usize = 0;
        while k < c.accounts.len()
            invariant
                k <= c.accounts@.len(),
                entries == entry_views(c.accounts@),
                watched_views(accounts@) == watching_entries(start, entries, pool_id@, k as nat),
                keys_increase(watched_views(accounts@)),
            decreases c.accounts@.len() - k,
        {
            assert(entries[k as int] == c.accounts@[k as int]@);
            watch(&mut accounts, c.accounts[k].pubkey, pool_id.clone(), c.accounts[k].role.clone());
            k = k + 1;
        }
        i = i + 1;
    }
    accounts
}

/// Whether recording ends before the next update.
pub fn should_stop(shutdown: bool, elapsed_secs: u64, duration_secs: Option<u64>) -> (r: bool)
    ensures
        r == (shutdown || (duration_secs is Some && elapsed_secs >= duration_secs->0)),
{
    match duration_secs {
        Some(d) => shutdown || elapsed_secs >= d,
        None => shutdown,
    }
}

/// The bytes of an account's data as a node sends it.
pub fn decode_account_data(text: &str) -> (r: Result<Vec<u8>, Base64Error>)
    ensures
        r is Ok == base64_bytes(text@) is Ok,
        r is Ok ==> r->Ok_0@ == base64_bytes(text@)->Ok_0,
        r is Err ==> r->Err_0 == base64_bytes(text@)->Err_0,
{
    decode_base64(text)
}

/// The address of some bytes; nothing unless there are 32.
pub fn address_of(bytes: &[u8]) -> (r: Option<[u8; 32]>)
    ensures
        r is Some == (bytes@.len() == 32),
        r is Some ==> r->0@ == bytes@,
{
    if bytes.len() != 32 {
        return None;
    }
    let key = crate::bytes::read_bytes_32(bytes, 0);
    assert(bytes@.subrange(0, 32) =~= bytes@);
    Some(key)
}

impl Recorder {
    pub open spec fn wf(self) -> bool {
        &&& keys_increase(watched_views(self.accounts@))
        &&& forall|i: int|
            0 <= i < self.accounts@.len() && (#[trigger] self.accounts@[i]).last_data is Some
                ==> self.accounts@[i].last_data->0@.len() <= usize::MAX / 4
    }

    pub fn new(configs: &Vec<PoolConfig>, writer: SessionWriter) -> (r: Self)
        ensures
            r.wf(),
            watched_views(r.accounts@) == watching_pools(configs@, configs@.len()),
            r.writer == writer,
            r.update_count == 0,
    {
        let accounts = watch_pools(configs);
        proof {
            lemma_fresh_without_data(configs@, configs@.len());
            assert forall|i: int| 0 <= i < accounts@.len() implies (#[trigger] accounts@[i]).last_data is None by {
                assert(watched_views(accounts@)[i] == accounts@[i]@);
            }
        }
        Recorder { accounts, writer, update_count: 0 }
    }

    /// The addresses to subscribe to, in order and each once.
    pub fn all_pubkeys(&self) -> (r: Vec<[u8; 32]>)
        ensures
            r@ == self.accounts@.map_values(|w: Watched| w.pubkey),
    {
        let mut keys: Vec<[u8; 32]> = Vec::new();
        let mut i: usize = 0;
        while i < self.accounts.len()
            invariant
                i <= self.accounts@.len(),
                keys@ =~= self.accounts@.map_values(|w: Watched| w.pubkey).take(i as int),
            decreases self.accounts@.len() - i,
        {
            keys.push(self.accounts[i].pubkey);
            i = i + 1;
        }
        assert(self.accounts@.map_values(|w: Watched| w.pubkey).take(i as int) =~= self.accounts@.map_values(
            |w: Watched| w.pubkey,
        ));
        keys
    }

    /// Sets the data of an account as it stood before the first update.
    pub fn set_data(&mut self, pubkey: &[u8; 32], data: Vec<u8>) -> (r: bool)
        requires
            old(self).wf(),
            data@.len() <= usize::MAX / 4,
        ensures
            final(self).wf(),
            r == is_watched(watched_views(old(self).accounts@), pubkey@),
            final(self).writer == old(self).writer,
            final(self).update_count == old(self).update_count,
            watched_views(final(self).accounts@) == with_data(
                watched_views(old(self).accounts@),
                pubkey@,
                data@,
            ),
    {
        let ghost views = watched_views(self.accounts@);
        let p = place_in(&self.accounts, pubkey);
        if p < self.accounts.len() && same_key(&self.accounts[p].pubkey, pubkey) {
            let ghost before = self.accounts@;
            assert(views[p as int] == before[p as int]@);
            self.accounts[p].last_data = Some(data);
            proof {
                lemma_data_kept(before, self.accounts@, p as int);
                assert(watched_views(self.accounts@) =~= with_data(views, pubkey@, data@));
                lemma_with_data_keeps_keys(views, pubkey@, data@);
            }
            true
        } else {
            proof {
                if p < self.accounts@.len() {
                    assert(views[p as int] == self.accounts@[p as int]@);
                }
            }
            false
        }
    }

    /// Records an update of an account; no where it is not under watch. The
    /// row that is kept reads back as the update.
    pub fn record(&mut self, u: AccountUpdate, timestamp_ms: u64) -> (r: bool)
        requires
            old(self).wf(),
            has_room(u),
            old(self).update_count < u64::MAX,
        ensures
            final(self).wf(),
            final(self).writer.flush_epoch == old(self).writer.flush_epoch,
            r == is_watched(watched_views(old(self).accounts@), u.pubkey@),
            !r ==> *final(self) == *old(self),
            r ==> {
                let accounts = watched_views(old(self).accounts@);
                let w = accounts[account_place(accounts, u.pubkey@, 0)];
                &&& final(self).update_count == old(self).update_count + 1
                &&& watched_views(final(self).accounts@) == with_data(accounts, u.pubkey@, u.data@)
                &&& buffer_views(final(self).writer.buffers@) == pushed(
                    buffer_views(old(self).writer.buffers@),
                    w.pool_id,
                    update_row(w, u, timestamp_ms),
                )
                &&& reads_back(update_row(w, u, timestamp_ms), u.data@)
            },
    {
        let p = place_in(&self.accounts, &u.pubkey);
        proof {
            if p < self.accounts@.len() {
                assert(watched_views(self.accounts@)[p as int] == self.accounts@[p as int]@);
            }
        }
        if p >= self.accounts.len() || !same_key(&self.accounts[p].pubkey, &u.pubkey) {
            return false;
        }
        let txn_signature = match &u.txn_signature {
            Some(sig) => encode_base58(sig.as_slice()),
            None => String::new(),
        };
        let row = StateRow {
            timestamp_ms,
            slot: u.slot,
            write_version: u.write_version,
            txn_signature,
            pool_id: self.accounts[p].pool_id.clone(),
            account_pubkey: address_to_text(&u.pubkey),
            account_role: self.accounts[p].role.clone(),
            account_data_b64: encode_base64(u.data.as_slice()),
            is_heartbeat: false,
        };
        let pool_id = self.accounts[p].pool_id.clone();
        self.writer.push(pool_id.as_str(), row);
        self.update_count = self.update_count + 1;
        self.set_data(&u.pubkey, u.data)
    }

    /// Records a snapshot of all accounts once the interval has passed since
    /// the last one. Each row of it reads back as the latest data of its
    /// account.
    pub fn maybe_heartbeat(&mut self, elapsed_secs: u64, timestamp_ms: u64) -> (r: bool)
        requires
            old(self).wf(),
        ensures
            final(self).wf(),
            r == (elapsed_secs >= HEARTBEAT_SECS),
            !r ==> *final(self) == *old(self),
            final(self).accounts == old(self).accounts,
            final(self).update_count == old(self).update_count,
            final(self).writer.flush_epoch == old(self).writer.flush_epoch,
            r ==> buffer_views(final(self).writer.buffers@) == snapshot(
                buffer_views(old(self).writer.buffers@),
                watched_views(old(self).accounts@),
                timestamp_ms,
                old(self).accounts@.len(),
            ),
            r ==> forall|i: int|
                0 <= i < old(self).accounts@.len() && (#[trigger] old(self).accounts@[i]).last_data is Some
                    ==> reads_back(
                    heartbeat_row(old(self).accounts@[i]@, timestamp_ms),
                    old(self).accounts@[i].last_data->0@,
                ),
    {
        if elapsed_secs < HEARTBEAT_SECS {
            return false;
        }
        let ghost accounts = watched_views(self.accounts@);
        let ghost start = buffer_views(self.writer.buffers@);
        let n = self.accounts.len();
        let mut i: usize = 0;
        while i < n
            invariant
                i <= n,
                n == self.accounts@.len(),
                self.accounts == old(self).accounts,
                self.update_count == old(self).update_count,
                self.writer.flush_epoch == old(self).writer.flush_epoch,
                old(self).wf(),
                accounts == watched_views(self.accounts@),
                buffer_views(self.writer.buffers@) == snapshot(start, accounts, timestamp_ms, i as nat),
                forall|k: int|
                    0 <= k < i && (#[trigger] self.accounts@[k]).last_data is Some ==> reads_back(
                        heartbeat_row(self.accounts@[k]@, timestamp_ms),
                        self.accounts@[k].last_data->0@,
                    ),
            decreases n - i,
        {
            assert(accounts[i as int] == self.accounts@[i as int]@);
            if let Some(data) = &self.accounts[i].last_data {
                let row = StateRow {
                    timestamp_ms,
                    slot: 0,
                    write_version: 0,
                    txn_signature: String::new(),
                    pool_id: self.accounts[i].pool_id.clone(),
                    account_pubkey: address_to_text(&self.accounts[i].pubkey),
                    account_role: self.accounts[i].role.clone(),
                    account_data_b64: encode_base64(data.as_slice()),
                    is_heartbeat: true,
                };
                let pool_id = self.accounts[i].pool_id.clone();
                self.writer.push(pool_id.as_str(), row);
            }
            i = i + 1;
        }
        true
    }
}

/// The accounts with the latest data of one of them.
pub open spec fn with_data(accounts: Seq<WatchedView>, key: Seq<u8>, data: Seq<u8>) -> Seq<WatchedView> {
    let p = account_place(accounts, key, 0);
    if is_watched(accounts, key) {
        accounts.update(p, WatchedView { last_data: Some(data), ..accounts[p] })
    } else {
        accounts
    }
}

proof fn lemma_with_data_keeps_keys(accounts: Seq<WatchedView>, key: Seq<u8>, data: Seq<u8>)
    requires
        keys_increase(accounts),
    ensures
        keys_increase(with_data(accounts, key, data)),
{
    let after = with_data(accounts, key, data);
    lemma_account_place(accounts, key, 0);
    assert forall|i: int| 0 <= i < after.len() implies (#[trigger] after[i]).pubkey == accounts[i].pubkey by {}
}

proof fn lemma_data_kept(before: Seq<Watched>, after: Seq<Watched>, p: int)
    requires
        0 <= p < before.len(),
        after.len() == before.len(),
        forall|i: int| 0 <= i < before.len() && i != p ==> after[i] == before[i],
        forall|i: int|
            0 <= i < before.len() && (#[trigger] before[i]).last_data is Some ==> before[i].last_data->0@.len()
                <= usize::MAX / 4,
        after[p].last_data is Some ==> after[p].last_data->0@.len() <= usize::MAX / 4,
    ensures
        forall|i: int|
            0 <= i < after.len() && (#[trigger] after[i]).last_data is Some ==> after[i].last_data->0@.len()
                <= usize::MAX / 4,
{
    assert forall|i: int| 0 <= i < after.len() && (#[trigger] after[i]).last_data is Some implies after[i].last_data->0@.len()
        <= usize::MAX / 4 by {
        if i != p {
            assert(after[i] == before[i]);
        }
    }
}

proof fn lemma_entries_without_data(accounts: Seq<WatchedView>, entries: Seq<EntryView>, pool_id: Seq<char>, n: nat)
    requires
        forall|i: int| 0 <= i < accounts.len() ==> (#[trigger] accounts[i]).last_data is None,
    ensures
        forall|i: int|
            0 <= i < watching_entries(accounts, entries, pool_id, n).len() ==> (#[trigger] watching_entries(
                accounts,
                entries,
                pool_id,
                n,
            )[i]).last_data is None,
    decreases n,
{
    if n > 0 {
        lemma_entries_without_data(accounts, entries, pool_id, (n - 1) as nat);
        let rest = watching_entries(accounts, entries, pool_id, (n - 1) as nat);
        lemma_place_in_range(rest, entries[n - 1].pubkey, 0);
    }
}

proof fn lemma_place_in_range(accounts: Seq<WatchedView>, key: Seq<u8>, i: int)
    requires
        0 <= i <= accounts.len(),
    ensures
        i <= account_place(accounts, key, i) <= accounts.len(),
    decreases accounts.len() - i,
{
    if i < accounts.len() && key_less(accounts[i].pubkey, key, 0) {
        lemma_place_in_range(accounts, key, i + 1);
    }
}

proof fn lemma_fresh_without_data(configs: Seq<PoolConfig>, n: nat)
    ensures
        forall|i: int| 0 <= i < watching_pools(configs, n).len() ==> (#[trigger] watching_pools(configs, n)[i]).last_data is None,
    decreases n,
{
    if n > 0 {
        lemma_fresh_without_data(configs, (n - 1) as nat);
        let c = configs[n - 1];
        lemma_entries_without_data(
            watching_pools(configs, (n - 1) as nat),
            entry_views(c.accounts@),
            address_text(c.pool_id@),
            c.accounts@.len(),
        );
    }
}

/// Watching an account puts it under watch for that pool and role, keeping what
/// was last seen of it, and leaves every other account as it was.
pub proof fn law_watching_adds_one_account(
    accounts: Seq<WatchedView>,
    key: Seq<u8>,
    pool_id: Seq<char>,
    role: Seq<char>,
    w: WatchedView,
)
    requires
        keys_increase(accounts),
        key.len() == 32,
    ensures
        w.pubkey != key ==> (watching(accounts, key, pool_id, role).contains(w) <==> accounts.contains(w)),
        w.pubkey == key ==> (watching(accounts, key, pool_id, role).contains(w) <==> {
            &&& w.pool_id == pool_id
            &&& w.role == role
            &&& forall|i: int| 0 <= i < accounts.len() && (#[trigger] accounts[i]).pubkey == key ==> w.last_data
                == accounts[i].last_data
            &&& (forall|i: int| 0 <= i < accounts.len() ==> (#[trigger] accounts[i]).pubkey != key) ==> w.last_data
                is None
        }),
{
    lemma_account_place(accounts, key, 0);
    let p = account_place(accounts, key, 0);
    let after = watching(accounts, key, pool_id, role);
    law_watching_keeps_order(accounts, key, pool_id, role);
    assert forall|i: int| 0 <= i < accounts.len() && (#[trigger] accounts[i]).pubkey == key implies i == p by {
        lemma_place_unique(accounts, key, i, 0);
    }
    assert forall|i: int| 0 <= i < after.len() && (#[trigger] after[i]).pubkey == key implies i == p by {
        if is_watched(accounts, key) {
            if i != p {
                assert(after[i] == accounts[i]);
            }
        } else if i < p {
            assert(after[i] == accounts[i]);
        } else if i > p {
            assert(after[i] == accounts[i - 1]);
        }
    }
    if accounts.contains(w) && w.pubkey != key {
        let i = choose|i: int| 0 <= i < accounts.len() && accounts[i] == w;
        if is_watched(accounts, key) || i < p {
            assert(after[i] == w);
        } else {
            assert(after[i + 1] == w);
        }
    }
    if after.contains(w) && w.pubkey != key {
        let i = choose|i: int| 0 <= i < after.len() && after[i] == w;
        if is_watched(accounts, key) || i < p {
            assert(accounts[i] == w);
        } else {
            assert(accounts[i - 1] == w);
        }
    }
    if w.pubkey == key {
        assert(after[p].pubkey == key);
        if is_watched(accounts, key) {
            assert(accounts[p].pubkey == key);
        } else {
            assert(forall|i: int| 0 <= i < accounts.len() ==> (#[trigger] accounts[i]).pubkey != key);
        }
    }
}

/// New data of an account under watch replaces what was last seen of it, and
/// leaves its pool and role and every other account as they were. Of an account
/// that is not under watch nothing is kept.
pub proof fn law_new_data_replaces_the_last(accounts: Seq<WatchedView>, key: Seq<u8>, data: Seq<u8>, i: int)
    requires
        keys_increase(accounts),
        0 <= i < accounts.len(),
    ensures
        with_data(accounts, key, data).len() == accounts.len(),
        accounts[i].pubkey == key ==> with_data(accounts, key, data)[i] == (WatchedView {
            last_data: Some(data),
            ..accounts[i]
        }),
        accounts[i].pubkey != key ==> with_data(accounts, key, data)[i] == accounts[i],
{
    lemma_place_in_range(accounts, key, 0);
    if accounts[i].pubkey == key {
        lemma_place_unique(accounts, key, i, 0);
    }
}

/// An account is under watch if and only if one of the accounts has its key.
pub proof fn law_watched_accounts_are_found(accounts: Seq<WatchedView>, key: Seq<u8>)
    requires
        keys_increase(accounts),
        key.len() == 32,
    ensures
        is_watched(accounts, key) <==> exists|i: int| 0 <= i < accounts.len() && (#[trigger] accounts[i]).pubkey == key,
        is_watched(accounts, key) ==> accounts[account_place(accounts, key, 0)].pubkey == key,
{
    lemma_place_in_range(accounts, key, 0);
    if exists|i: int| 0 <= i < accounts.len() && (#[trigger] accounts[i]).pubkey == key {
        let i = choose|i: int| 0 <= i < accounts.len() && (#[trigger] accounts[i]).pubkey == key;
        lemma_place_unique(accounts, key, i, 0);
    }
}

/// The rows of a snapshot that go to one pool.
pub open spec fn snapshot_rows(accounts: Seq<WatchedView>, pool_id: Seq<char>, timestamp_ms: u64, n: nat) -> Seq<
    StateView,
>
    decreases n,
{
    if n == 0 {
        Seq::empty()
    } else {
        let rest = snapshot_rows(accounts, pool_id, timestamp_ms, (n - 1) as nat);
        let w = accounts[n - 1];
        if w.pool_id == pool_id && w.last_data is Some {
            rest.push(heartbeat_row(w, timestamp_ms))
        } else {
            rest
        }
    }
}

/// A snapshot adds to each pool's buffer a row for each of the pool's accounts
/// of which something was seen, and nothing else.
pub proof fn law_snapshot_adds_every_account(
    buffers: Seq<(Seq<char>, Seq<StateView>)>,
    accounts: Seq<WatchedView>,
    timestamp_ms: u64,
    n: nat,
    i: int,
)
    requires
        one_each(buffers),
        n <= accounts.len(),
        0 <= i < buffers.len(),
    ensures
        one_each(snapshot(buffers, accounts, timestamp_ms, n)),
        snapshot(buffers, accounts, timestamp_ms, n).len() == buffers.len(),
        snapshot(buffers, accounts, timestamp_ms, n)[i].0 == buffers[i].0,
        snapshot(buffers, accounts, timestamp_ms, n)[i].1 == buffers[i].1 + snapshot_rows(
            accounts,
            buffers[i].0,
            timestamp_ms,
            n,
        ),
    decreases n,
{
    if n == 0 {
        assert(buffers[i].1 =~= buffers[i].1 + Seq::<StateView>::empty());
    } else {
        law_snapshot_adds_every_account(buffers, accounts, timestamp_ms, (n - 1) as nat, i);
        let rest = snapshot(buffers, accounts, timestamp_ms, (n - 1) as nat);
        let w = accounts[n - 1];
        law_row_reaches_its_pool(rest, w.pool_id, heartbeat_row(w, timestamp_ms), i);
        assert(snapshot(buffers, accounts, timestamp_ms, n)[i].1 =~= buffers[i].1 + snapshot_rows(
            accounts,
            buffers[i].0,
            timestamp_ms,
            n,
        ));
    }
}

/// A row of a snapshot tells itself apart from an update's: it is marked, and
/// belongs to slot zero, which no update counts as its own. It names the account,
/// the pool and the role that are under watch, as an update's row does.
pub proof fn law_snapshot_rows_are_marked(w: WatchedView, u: AccountUpdate, timestamp_ms: u64)
    ensures
        ({
            let h = heartbeat_row(w, timestamp_ms);
            let r = update_row(w, u, timestamp_ms);
            &&& h.is_heartbeat && !r.is_heartbeat
            &&& h.slot == 0 && h.write_version == 0 && h.txn_signature.len() == 0
            &&& r.slot == u.slot && r.write_version == u.write_version
            &&& h.pool_id == w.pool_id && r.pool_id == w.pool_id
            &&& h.account_role == w.role && r.account_role == w.role
            &&& h.account_pubkey == r.account_pubkey
            &&& h.timestamp_ms == timestamp_ms && r.timestamp_ms == timestamp_ms
            &&& w.last_data == Some(u.data@) ==> h.account_data_b64 == r.account_data_b64
        }),
{
}

/// Whether an account is under watch for a pool and a role.
pub open spec fn watches(accounts: Seq<WatchedView>, key: Seq<u8>, pool_id: Seq<char>, role: Seq<char>) -> bool {
    exists|i: int|
        0 <= i < accounts.len() && (#[trigger] accounts[i]).pubkey == key && accounts[i].pool_id == pool_id
            && accounts[i].role == role
}

/// Every account that a pool names is under watch for that pool, under the role
/// of its last entry.
pub proof fn law_every_entry_is_watched(
    accounts: Seq<WatchedView>,
    entries: Seq<EntryView>,
    pool_id: Seq<char>,
    n: nat,
    k: int,
)
    requires
        keys_increase(accounts),
        n <= entries.len(),
        forall|i: int| 0 <= i < entries.len() ==> (#[trigger] entries[i]).pubkey.len() == 32,
        0 <= k < n,
        forall|j: int| k < j < n ==> (#[trigger] entries[j]).pubkey != entries[k].pubkey,
    ensures
        keys_increase(watching_entries(accounts, entries, pool_id, n)),
        watches(watching_entries(accounts, entries, pool_id, n), entries[k].pubkey, pool_id, entries[k].role),
    decreases n,
{
    let rest = watching_entries(accounts, entries, pool_id, (n - 1) as nat);
    lemma_entries_in_order(accounts, entries, pool_id, (n - 1) as nat);
    let e = entries[n - 1];
    law_watching_keeps_order(rest, e.pubkey, pool_id, e.role);
    let after = watching_entries(accounts, entries, pool_id, n);
    lemma_account_place(rest, e.pubkey, 0);
    if k == n - 1 {
        let p = account_place(rest, e.pubkey, 0);
        assert(after[p].pubkey == e.pubkey && after[p].pool_id == pool_id && after[p].role == e.role);
    } else {
        law_every_entry_is_watched(accounts, entries, pool_id, (n - 1) as nat, k);
        let i = choose|i: int|
            0 <= i < rest.len() && (#[trigger] rest[i]).pubkey == entries[k].pubkey && rest[i].pool_id == pool_id
                && rest[i].role == entries[k].role;
        law_watching_adds_one_account(rest, e.pubkey, pool_id, e.role, rest[i]);
        assert(rest.contains(rest[i]));
        let j = choose|j: int| 0 <= j < after.len() && after[j] == rest[i];
        assert(after[j].pubkey == entries[k].pubkey);
    }
}

proof fn lemma_entries_in_order(accounts: Seq<WatchedView>, entries: Seq<EntryView>, pool_id: Seq<char>, n: nat)
    requires
        keys_increase(accounts),
        n <= entries.len(),
        forall|i: int| 0 <= i < entries.len() ==> (#[trigger] entries[i]).pubkey.len() == 32,
    ensures
        keys_increase(watching_entries(accounts, entries, pool_id, n)),
    decreases n,
{
    if n > 0 {
        lemma_entries_in_order(accounts, entries, pool_id, (n - 1) as nat);
        law_watching_keeps_order(
            watching_entries(accounts, entries, pool_id, (n - 1) as nat),
            entries[n - 1].pubkey,
            pool_id,
            entries[n - 1].role,
        );
    }
}

}
