//! Recorded account updates as they are read back.
use vstd::prelude::*;

use crate::codec::{base64_bytes, decode_base64, Base64Error};
use crate::order::{arrange, arranged, lemma_order_exists, order_of, precedes};
use crate::text::{decimal, decimal_text, joined};

verus! {

/// A row of a recording: an account update with its data in base64.
#[derive(Debug)]
pub struct StoredRow {
    pub timestamp_ms: u64,
    pub slot: u64,
    pub write_version: u64,
    pub txn_signature: String,
    pub account_role: String,
    pub account_data_b64: String,
}

/// What a row of a recording holds.
#[verifier::ext_equal]
pub struct StoredView {
    pub timestamp_ms: u64,
    pub slot: u64,
    pub write_version: u64,
    pub txn_signature: Seq<char>,
    pub account_role: Seq<char>,
    pub account_data_b64: Seq<char>,
}

impl View for StoredRow {
    type V = StoredView;

    open spec fn view(&self) -> StoredView {
        StoredView {
            timestamp_ms: self.timestamp_ms,
            slot: self.slot,
            write_version: self.write_version,
            txn_signature: self.txn_signature@,
            account_role: self.account_role@,
            account_data_b64: self.account_data_b64@,
        }
    }
}

/// An account update.
#[derive(Debug, Clone)]
pub struct AccountUpdateRow {
    pub timestamp_ms: u64,
    pub slot: u64,
    pub write_version: u64,
    pub txn_signature: String,
    pub account_role: String,
    pub account_data: Vec<u8>,
}

/// What an account update says.
#[verifier::ext_equal]
pub struct UpdateView {
    pub timestamp_ms: u64,
    pub slot: u64,
    pub write_version: u64,
    pub txn_signature: Seq<char>,
    pub account_role: Seq<char>,
    pub account_data: Seq<u8>,
}

impl View for AccountUpdateRow {
    type V = UpdateView;

    open spec fn view(&self) -> UpdateView {
        UpdateView {
            timestamp_ms: self.timestamp_ms,
            slot: self.slot,
            write_version: self.write_version,
            txn_signature: self.txn_signature@,
            account_role: self.account_role@,
            account_data: self.account_data@,
        }
    }
}

/// What the updates of a list say.
pub open spec fn update_views(rows: Seq<AccountUpdateRow>) -> Seq<UpdateView> {
    rows.map_values(|r: AccountUpdateRow| r@)
}

/// What the rows of a list hold.
pub open spec fn stored_views(rows: Seq<StoredRow>) -> Seq<StoredView> {
    rows.map_values(|r: StoredRow| r@)
}

/// Why a row cannot be read.
#[derive(Clone, Copy, Debug, PartialEq, Eq, Structural)]
pub struct RowError {
    pub row: usize,
    pub error: Base64Error,
}

impl RowError {
    pub fn message(&self) -> (r: String)
        ensures
            r@ == "row "@ + decimal(self.row as nat) + ": base64 decode failed: "@ + self.error.words(),
    {
        let mut m = joined("row ", decimal_text(self.row as u64).as_str());
        m.append(": base64 decode failed: ");
        m.append(self.error.message().as_str());
        m
    }
}

/// Whether a row's data is base64.
pub open spec fn readable(r: StoredView) -> bool {
    base64_bytes(r.account_data_b64) is Ok
}

/// The update of a row.
pub open spec fn update_of(r: StoredView) -> UpdateView {
    UpdateView {
        timestamp_ms: r.timestamp_ms,
        slot: r.slot,
        write_version: r.write_version,
        txn_signature: r.txn_signature,
        account_role: r.account_role,
        account_data: base64_bytes(r.account_data_b64)->Ok_0,
    }
}

/// The updates of the rows of a list.
pub open spec fn updates_of(rows: Seq<StoredView>) -> Seq<UpdateView> {
    rows.map_values(|r: StoredView| update_of(r))
}

/// Whether `error` names the first row that cannot be read.
pub open spec fn is_first_error(rows: Seq<StoredView>, error: RowError) -> bool {
    &&& error.row < rows.len()
    &&& forall|i: int| 0 <= i < error.row ==> readable(#[trigger] rows[i])
    &&& base64_bytes(rows[error.row as int].account_data_b64) == Err::<Seq<u8>, Base64Error>(error.error)
}

/// Reads the update of a row, given what its data decodes to.
pub fn read_row(row: StoredRow, account_data: Vec<u8>) -> (r: AccountUpdateRow)
    ensures
        r@ == (UpdateView {
            timestamp_ms: row.timestamp_ms,
            slot: row.slot,
            write_version: row.write_version,
            txn_signature: row.txn_signature@,
            account_role: row.account_role@,
            account_data: account_data@,
        }),
{
    AccountUpdateRow {
        timestamp_ms: row.timestamp_ms,
        slot: row.slot,
        write_version: row.write_version,
        txn_signature: row.txn_signature,
        account_role: row.account_role,
        account_data,
    }
}

/// Reads the rows of a batch behind those that are there. It stops at the
/// first row whose data is not base64; the rows before it stay.
pub fn parse_state_batch(batch: Vec<StoredRow>, out: &mut Vec<AccountUpdateRow>) -> (r: Result<(), RowError>)
    ensures
        r is Ok == (forall|i: int|
            0 <= i < batch@.len() ==> readable(#[trigger] stored_views(batch@)[i])),
        r is Ok ==> update_views(final(out)@) == update_views(old(out)@) + updates_of(stored_views(batch@)),
        r is Err ==> is_first_error(stored_views(batch@), r->Err_0) && update_views(final(out)@) == update_views(
            old(out)@,
        ) + updates_of(stored_views(batch@).take(r->Err_0.row as int)),
{
    let ghost rows = stored_views(batch@);
    let ghost start = update_views(out@);
    let n = batch.len();
    let mut i: usize = 0;
    assert(update_views(out@) =~= start + updates_of(rows.take(0)));
    for row in it: batch
        invariant
            it.seq() == batch@,
            i == it.index(),
            n == batch@.len(),
            rows == stored_views(batch@),
            start == update_views(old(out)@),
            update_views(out@) == start + updates_of(rows.take(i as int)),
            forall|k: int| 0 <= k < i ==> readable(#[trigger] rows[k]),
    {
        assert(rows[i as int] == row@);
        match decode_base64(row.account_data_b64.as_str()) {
            Ok(data) => {
                let ghost before = out@;
                out.push(read_row(row, data));
                proof {
                    assert(update_views(out@) =~= update_views(before).push(update_of(rows[i as int])));
                    assert(updates_of(rows.take(i + 1)) =~= updates_of(rows.take(i as int)).push(
                        update_of(rows[i as int]),
                    ));
                    assert(update_views(out@) =~= start + updates_of(rows.take(i + 1)));
                }
            },
            Err(error) => {
                assert(!readable(rows[i as int]));
                return Err(RowError { row: i, error });
            },
        }
        i = i + 1;
    }
    assert(rows.take(i as int) =~= rows);
    Ok(())
}

/// Where an update stands in the chain: its slot and its version.
pub open spec fn chain_keys(rows: Seq<UpdateView>) -> Seq<(u64, u64)> {
    rows.map_values(|r: UpdateView| (r.slot, r.write_version))
}

/// Updates in the order of the chain; those of one version stay as they are.
pub open spec fn in_chain_order(rows: Seq<UpdateView>) -> Seq<UpdateView> {
    arranged(rows, order_of(chain_keys(rows)))
}

/// Puts updates in the order of the chain.
pub fn sort_updates(rows: Vec<AccountUpdateRow>) -> (r: Vec<AccountUpdateRow>)
    ensures
        update_views(r@) == in_chain_order(update_views(rows@)),
        r@.len() == rows@.len(),
{
    let ghost views = update_views(rows@);
    let mut keys: Vec<(u64, u64)> = Vec::new();
    let mut i: usize = 0;
    while i < rows.len()
        invariant
            i <= rows@.len(),
            views == update_views(rows@),
            keys@ =~= chain_keys(views).take(i as int),
        decreases rows@.len() - i,
    {
        keys.push((rows[i].slot, rows[i].write_version));
        i = i + 1;
    }
    assert(keys@ =~= chain_keys(views));
    let r = arrange(rows, &keys);
    proof {
        lemma_order_exists(keys@);
        assert(update_views(r@) =~= in_chain_order(views));
    }
    r
}

/// The order of the chain holds the same updates, no slot after a later one,
/// and within a slot no version after a later one.
pub proof fn law_chain_order(rows: Seq<UpdateView>, i: int, j: int)
    requires
        rows.len() <= usize::MAX,
        0 <= i < j < rows.len(),
    ensures
        in_chain_order(rows).len() == rows.len(),
        in_chain_order(rows)[i].slot <= in_chain_order(rows)[j].slot,
        in_chain_order(rows)[i].slot == in_chain_order(rows)[j].slot ==> in_chain_order(rows)[i].write_version
            <= in_chain_order(rows)[j].write_version,
        rows.contains(in_chain_order(rows)[i]),
        in_chain_order(rows).contains(rows[i]),
{
    let keys = chain_keys(rows);
    let p = order_of(keys);
    lemma_order_exists(keys);
    assert(precedes(keys, p[i] as int, p[j] as int));
    assert(rows[p[i] as int] == in_chain_order(rows)[i]);
    assert(rows[p[j] as int] == in_chain_order(rows)[j]);
    assert(keys[p[i] as int] == (in_chain_order(rows)[i].slot, in_chain_order(rows)[i].write_version));
    assert(keys[p[j] as int] == (in_chain_order(rows)[j].slot, in_chain_order(rows)[j].write_version));
    assert(p.contains(i as usize));
    let k = choose|k: int| 0 <= k < p.len() && p[k] == i as usize;
    assert(in_chain_order(rows)[k] == rows[i]);
}

/// Updates of one slot and write version stay in the order in which they were
/// recorded.
pub proof fn law_equal_updates_keep_their_order(rows: Seq<UpdateView>, i: int, j: int) -> (at: (int, int))
    requires
        rows.len() <= usize::MAX,
        0 <= i < j < rows.len(),
        rows[i].slot == rows[j].slot,
        rows[i].write_version == rows[j].write_version,
    ensures
        0 <= at.0 < at.1 < in_chain_order(rows).len(),
        in_chain_order(rows)[at.0] == rows[i],
        in_chain_order(rows)[at.1] == rows[j],
{
    let keys = chain_keys(rows);
    let p = order_of(keys);
    lemma_order_exists(keys);
    assert(p.contains(i as usize) && p.contains(j as usize));
    let a = choose|k: int| 0 <= k < p.len() && p[k] == i as usize;
    let b = choose|k: int| 0 <= k < p.len() && p[k] == j as usize;
    assert(keys[i] == keys[j]);
    if b < a {
        assert(precedes(keys, p[b] as int, p[a] as int));
    }
    (a, b)
}

/// A stored row that can be read gives an update that says the same, with the
/// bytes that its text stands for.
pub proof fn law_update_says_what_was_stored(rows: Seq<StoredView>, i: int)
    requires
        0 <= i < rows.len(),
        readable(rows[i]),
    ensures
        updates_of(rows).len() == rows.len(),
        ({
            let u = updates_of(rows)[i];
            &&& u.timestamp_ms == rows[i].timestamp_ms
            &&& u.slot == rows[i].slot
            &&& u.write_version == rows[i].write_version
            &&& u.txn_signature == rows[i].txn_signature
            &&& u.account_role == rows[i].account_role
            &&& base64_bytes(rows[i].account_data_b64) == Ok::<Seq<u8>, Base64Error>(u.account_data)
        }),
{
}

}
