//! How the rows of a replay are divided among files and pairs.
use vstd::prelude::*;

use crate::engine::{derived_views, quote_views, DerivedView, EngineDerivedRow, EngineQuoteRow, EngineQuoteView, PoolResult};
use crate::num::{ceil_div, imin};
use crate::session::{pair_key, pair_name, symbol_view};
use crate::text::{four_digits, joined, padded};

verus! {

pub const MAX_ROWS_PER_FILE: usize = 5_000_000;

/// The rows of one file: where they start, and where they end.
pub open spec fn chunk(total: int, k: int) -> (int, int) {
    (k * MAX_ROWS_PER_FILE, imin((k + 1) * MAX_ROWS_PER_FILE, total))
}

/// The number of files that rows fill.
pub open spec fn chunk_count(total: int) -> int {
    ceil_div(total, MAX_ROWS_PER_FILE as int)
}

/// The files divide the rows: each starts where the one before it ends, none
/// is empty or too long, and the last ends with the rows.
pub proof fn law_chunks_divide_rows(total: int, k: int)
    requires
        0 <= k < chunk_count(total),
    ensures
        chunk(total, 0).0 == 0,
        chunk(total, k).0 < chunk(total, k).1 <= chunk(total, k).0 + MAX_ROWS_PER_FILE,
        k + 1 < chunk_count(total) ==> chunk(total, k).1 == chunk(total, k + 1).0,
        k + 1 == chunk_count(total) ==> chunk(total, k).1 == total,
{
}

/// Divides rows among files.
pub fn chunk_bounds(total: usize) -> (r: Vec<(usize, usize)>)
    ensures
        r@.len() == chunk_count(total as int),
        forall|k: int| 0 <= k < r@.len() ==> (#[trigger] r@[k]).0 == chunk(total as int, k).0 && r@[k].1 == chunk(
            total as int,
            k,
        ).1,
{
    let mut bounds: Vec<(usize, usize)> = Vec::new();
    let mut start: usize = 0;
    while start < total
        invariant
            start == imin(bounds@.len() * MAX_ROWS_PER_FILE, total as int),
            bounds@.len() <= chunk_count(total as int),
            start < total ==> bounds@.len() < chunk_count(total as int),
            start == total ==> bounds@.len() == chunk_count(total as int),
            forall|k: int|
                0 <= k < bounds@.len() ==> (#[trigger] bounds@[k]).0 == chunk(total as int, k).0 && bounds@[k].1
                    == chunk(total as int, k).1,
        decreases total - start,
    {
        let end = if total - start > MAX_ROWS_PER_FILE {
            start + MAX_ROWS_PER_FILE
        } else {
            total
        };
        bounds.push((start, end));
        start = end;
    }
    bounds
}

/// The name of a file of quotes.
pub fn quotes_file(chunk_idx: usize) -> (r: String)
    ensures
        r@ == "quotes_"@ + four_digits(chunk_idx as nat) + ".parquet"@,
{
    let mut m = joined("quotes_", padded(chunk_idx as u64).as_str());
    m.append(".parquet");
    m
}

/// The name of a file of balances.
pub fn derived_file(chunk_idx: usize) -> (r: String)
    ensures
        r@ == "derived_"@ + four_digits(chunk_idx as nat) + ".parquet"@,
{
    let mut m = joined("derived_", padded(chunk_idx as u64).as_str());
    m.append(".parquet");
    m
}

/// The rows of a pair of tokens.
#[derive(Debug)]
pub struct PairOutput {
    pub pair: String,
    pub quotes: Vec<EngineQuoteRow>,
    pub derived: Vec<EngineDerivedRow>,
}

/// What the rows of a pair say.
#[verifier::ext_equal]
pub struct PairView {
    pub pair: Seq<char>,
    pub quotes: Seq<EngineQuoteView>,
    pub derived: Seq<DerivedView>,
}

impl View for PairOutput {
    type V = PairView;

    open spec fn view(&self) -> PairView {
        PairView {
            pair: self.pair@,
            quotes: quote_views(self.quotes@),
            derived: derived_views(self.derived@),
        }
    }
}

/// What the pairs of a list say.
pub open spec fn pair_views(pairs: Seq<PairOutput>) -> Seq<PairView> {
    pairs.map_values(|p: PairOutput| p@)
}

/// The place of a pair from `i` on, or the end.
pub open spec fn pair_place(pairs: Seq<PairView>, name: Seq<char>, i: int) -> int
    decreases pairs.len() - i,
{
    if i >= pairs.len() || pairs[i].pair == name {
        i
    } else {
        pair_place(pairs, name, i + 1)
    }
}

/// The pairs with more rows of one of them.
pub open spec fn pairs_with(
    pairs: Seq<PairView>,
    name: Seq<char>,
    quotes: Seq<EngineQuoteView>,
    derived: Seq<DerivedView>,
) -> Seq<PairView> {
    let i = pair_place(pairs, name, 0);
    if i < pairs.len() {
        pairs.update(
            i,
            PairView { pair: name, quotes: pairs[i].quotes + quotes, derived: pairs[i].derived + derived },
        )
    } else {
        pairs.push(PairView { pair: name, quotes, derived })
    }
}

/// The quotes and the balances of all pairs.
pub open spec fn row_counts(pairs: Seq<PairView>) -> (nat, nat)
    decreases pairs.len(),
{
    if pairs.len() == 0 {
        (0, 0)
    } else {
        let (q, d) = row_counts(pairs.drop_last());
        (q + pairs.last().quotes.len(), d + pairs.last().derived.len())
    }
}

proof fn lemma_counts_with_pair(pairs: Seq<PairView>, i: int, p: PairView)
    requires
        0 <= i < pairs.len(),
    ensures
        row_counts(pairs.update(i, p)).0 == row_counts(pairs).0 - pairs[i].quotes.len() + p.quotes.len(),
        row_counts(pairs.update(i, p)).1 == row_counts(pairs).1 - pairs[i].derived.len() + p.derived.len(),
    decreases pairs.len(),
{
    if i == pairs.len() - 1 {
        assert(pairs.update(i, p).drop_last() =~= pairs.drop_last());
    } else {
        lemma_counts_with_pair(pairs.drop_last(), i, p);
        assert(pairs.update(i, p).drop_last() =~= pairs.drop_last().update(i, p));
    }
}

proof fn lemma_pair_place_range(pairs: Seq<PairView>, name: Seq<char>, i: int)
    requires
        0 <= i <= pairs.len(),
    ensures
        i <= pair_place(pairs, name, i) <= pairs.len(),
        pair_place(pairs, name, i) < pairs.len() ==> pairs[pair_place(pairs, name, i)].pair == name,
        forall|k: int| i <= k < pair_place(pairs, name, i) ==> (#[trigger] pairs[k]).pair != name,
    decreases pairs.len() - i,
{
    if i < pairs.len() && pairs[i].pair != name {
        lemma_pair_place_range(pairs, name, i + 1);
    }
}

/// Adding the rows of a pool loses none and adds no other, keeps the names of
/// the pairs, and never names a pair twice.
pub proof fn law_pairs_keep_every_row(
    pairs: Seq<PairView>,
    name: Seq<char>,
    quotes: Seq<EngineQuoteView>,
    derived: Seq<DerivedView>,
)
    requires
        forall|i: int, j: int| 0 <= i < j < pairs.len() ==> (#[trigger] pairs[i]).pair != (#[trigger] pairs[j]).pair,
    ensures
        ({
            let after = pairs_with(pairs, name, quotes, derived);
            &&& row_counts(after).0 == row_counts(pairs).0 + quotes.len()
            &&& row_counts(after).1 == row_counts(pairs).1 + derived.len()
            &&& forall|i: int| 0 <= i < pairs.len() ==> (#[trigger] after[i]).pair == pairs[i].pair
            &&& forall|i: int, j: int|
                0 <= i < j < after.len() ==> (#[trigger] after[i]).pair != (#[trigger] after[j]).pair
        }),
{
    lemma_pair_place_range(pairs, name, 0);
    let i = pair_place(pairs, name, 0);
    let after = pairs_with(pairs, name, quotes, derived);
    if i < pairs.len() {
        lemma_counts_with_pair(
            pairs,
            i,
            PairView { pair: name, quotes: pairs[i].quotes + quotes, derived: pairs[i].derived + derived },
        );
    } else {
        assert(after.drop_last() =~= pairs);
    }
}

/// The replays of a session, added up.
#[derive(Debug)]
pub struct SessionTotals {
    pub total_updates: usize,
    pub total_quotes: usize,
    pub total_derived: usize,
    pub pool_errors: usize,
    pub pairs: Vec<PairOutput>,
}

impl SessionTotals {
    pub fn new() -> (r: Self)
        ensures
            r.total_updates == 0 && r.total_quotes == 0 && r.total_derived == 0 && r.pool_errors == 0,
            pair_views(r.pairs@) == Seq::<PairView>::empty(),
    {
        let r = SessionTotals {
            total_updates: 0,
            total_quotes: 0,
            total_derived: 0,
            pool_errors: 0,
            pairs: Vec::new(),
        };
        assert(pair_views(r.pairs@) =~= Seq::empty());
        r
    }

    /// Counts a pool that could not be replayed; no where the count is full.
    pub fn add_error(&mut self) -> (r: bool)
        ensures
            r == (old(self).pool_errors < usize::MAX),
            final(self).pool_errors == (if r {
                old(self).pool_errors + 1
            } else {
                old(self).pool_errors as int
            }),
            final(self).total_updates == old(self).total_updates,
            final(self).total_quotes == old(self).total_quotes,
            final(self).total_derived == old(self).total_derived,
            final(self).pairs == old(self).pairs,
    {
        if self.pool_errors == usize::MAX {
            return false;
        }
        self.pool_errors = self.pool_errors + 1;
        true
    }

    /// Whether a replay can be added: its pair has a name, and the sums fit.
    pub open spec fn takes(self, p: PoolResult) -> bool {
        &&& pair_name(symbol_view(p.symbol), p.pool_id@) is Some
        &&& self.total_updates + p.updates_processed <= usize::MAX
        &&& self.total_quotes + p.quotes_emitted <= usize::MAX
        &&& self.total_derived + p.derived@.len() <= usize::MAX
    }

    /// Adds a replay to the totals and to the rows of its pair. Where it cannot
    /// be added, nothing changes and the answer is no.
    pub fn add(&mut self, p: PoolResult) -> (r: bool)
        ensures
            r == old(self).takes(p),
            !r ==> *final(self) == *old(self),
            final(self).pool_errors == old(self).pool_errors,
            r ==> {
                &&& final(self).total_updates == old(self).total_updates + p.updates_processed
                &&& final(self).total_quotes == old(self).total_quotes + p.quotes_emitted
                &&& final(self).total_derived == old(self).total_derived + p.derived@.len()
                &&& pair_views(final(self).pairs@) == pairs_with(
                    pair_views(old(self).pairs@),
                    pair_name(symbol_view(p.symbol), p.pool_id@)->0,
                    quote_views(p.quotes@),
                    derived_views(p.derived@),
                )
            },
    {
        let key = match pair_key(&p.symbol, p.pool_id.as_str()) {
            Some(k) => k,
            None => return false,
        };
        let updates = match self.total_updates.checked_add(p.updates_processed) {
            Some(n) => n,
            None => return false,
        };
        let quotes = match self.total_quotes.checked_add(p.quotes_emitted) {
            Some(n) => n,
            None => return false,
        };
        let derived = match self.total_derived.checked_add(p.derived.len()) {
            Some(n) => n,
            None => return false,
        };
        self.total_updates = updates;
        self.total_quotes = quotes;
        self.total_derived = derived;
        add_to_pair(&mut self.pairs, key, p.quotes, p.derived);
        true
    }
}

fn add_to_pair(
    pairs: &mut Vec<PairOutput>,
    name: String,
    quotes: Vec<EngineQuoteRow>,
    derived: Vec<EngineDerivedRow>,
)
    ensures
        pair_views(final(pairs)@) == pairs_with(
            pair_views(old(pairs)@),
            name@,
            quote_views(quotes@),
            derived_views(derived@),
        ),
{
    let ghost views = pair_views(pairs@);
    let mut i: usize = 0;
    while i < pairs.len() && pairs[i].pair != name
        invariant
            i <= pairs@.len(),
            *pairs == *old(pairs),
            views == pair_views(pairs@),
            pair_place(views, name@, i as int) == pair_place(views, name@, 0),
        decreases pairs@.len() - i,
    {
        assert(views[i as int] == pairs@[i as int]@);
        i = i + 1;
    }
    if i < pairs.len() {
        let mut more_quotes = quotes;
        let mut more_derived = derived;
        let ghost old_pair = pairs@[i as int];
        assert(views[i as int] == old_pair@);
        pairs[i].quotes.append(&mut more_quotes);
        pairs[i].derived.append(&mut more_derived);
        proof {
            assert(quote_views(pairs@[i as int].quotes@) =~= quote_views(old_pair.quotes@) + quote_views(quotes@));
            assert(derived_views(pairs@[i as int].derived@) =~= derived_views(old_pair.derived@) + derived_views(
                derived@,
            ));
            assert(pair_views(pairs@) =~= pairs_with(
                views,
                name@,
                quote_views(quotes@),
                derived_views(derived@),
            ));
        }
    } else {
        pairs.push(PairOutput { pair: name, quotes, derived });
        assert(pair_views(pairs@) =~= pairs_with(views, name@, quote_views(quotes@), derived_views(derived@)));
    }
}

/// The rows of a pool go behind those of its pair, and no other pair changes. A
/// pair that is new stands behind the others with these rows alone.
pub proof fn law_rows_reach_their_pair(
    pairs: Seq<PairView>,
    name: Seq<char>,
    quotes: Seq<EngineQuoteView>,
    derived: Seq<DerivedView>,
    i: int,
)
    requires
        forall|i: int, j: int| 0 <= i < j < pairs.len() ==> (#[trigger] pairs[i]).pair != (#[trigger] pairs[j]).pair,
        0 <= i < pairs.len(),
    ensures
        ({
            let after = pairs_with(pairs, name, quotes, derived);
            &&& pairs[i].pair != name ==> after[i] == pairs[i]
            &&& pairs[i].pair == name ==> after.len() == pairs.len() && after[i] == (PairView {
                pair: name,
                quotes: pairs[i].quotes + quotes,
                derived: pairs[i].derived + derived,
            })
            &&& (forall|k: int| 0 <= k < pairs.len() ==> (#[trigger] pairs[k]).pair != name) ==> after.len() == pairs.len()
                + 1 && after.last() == (PairView { pair: name, quotes, derived })
        }),
{
    lemma_place_of_pair(pairs, name, 0);
    let p = pair_place(pairs, name, 0);
    if pairs[i].pair == name && p < i {
        assert(pairs[p].pair != pairs[i].pair);
    }
}

proof fn lemma_place_of_pair(pairs: Seq<PairView>, name: Seq<char>, i: int)
    requires
        0 <= i <= pairs.len(),
    ensures
        i <= pair_place(pairs, name, i) <= pairs.len(),
        pair_place(pairs, name, i) < pairs.len() ==> pairs[pair_place(pairs, name, i)].pair == name,
        forall|k: int| i <= k < pair_place(pairs, name, i) ==> (#[trigger] pairs[k]).pair != name,
    decreases pairs.len() - i,
{
    if i < pairs.len() && pairs[i].pair != name {
        lemma_place_of_pair(pairs, name, i + 1);
    }
}

}
