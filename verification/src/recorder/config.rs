//! The files that say which accounts to record.
use vstd::prelude::*;

use crate::bytes::str_eq;
use crate::codec::{address_bytes, parse_address, AddressError};

verus! {

/// An account to record, with its part in its pool.
#[derive(Debug)]
pub struct AccountEntry {
    pub role: String,
    pub pubkey: [u8; 32],
}

/// What an entry says.
#[verifier::ext_equal]
pub struct EntryView {
    pub role: Seq<char>,
    pub pubkey: Seq<u8>,
}

impl View for AccountEntry {
    type V = EntryView;

    open spec fn view(&self) -> EntryView {
        EntryView { role: self.role@, pubkey: self.pubkey@ }
    }
}

/// What the entries of a list say.
pub open spec fn entry_views(entries: Seq<AccountEntry>) -> Seq<EntryView> {
    entries.map_values(|e: AccountEntry| e@)
}

/// A pool to record.
#[derive(Debug)]
pub struct PoolConfig {
    pub amm_type: String,
    pub pool_id: [u8; 32],
    pub symbol: String,
    pub accounts: Vec<AccountEntry>,
}

/// A price feed to record.
#[derive(Debug)]
pub struct PythFeedConfig {
    pub feed_id: String,
    pub symbol: String,
}

/// A configuration file as it is written.
#[derive(Debug)]
pub struct RawPoolConfig {
    pub pool_type: String,
    pub id: Option<String>,
    pub feed_id: Option<String>,
    pub symbol: Option<String>,
    pub accounts: Option<Vec<(String, String)>>,
}

/// What a configuration file asks for.
#[derive(Debug)]
pub enum LoadedConfig {
    Pool(PoolConfig),
    Pyth(PythFeedConfig),
}

/// Why a configuration file is not taken.
#[derive(Debug)]
pub enum ConfigError {
    MissingFeedId,
    MissingId,
    InvalidPoolId(AddressError),
    InvalidPubkey { role: String, error: AddressError },
}

/// What is wrong with a configuration file.
pub enum ConfigFault {
    MissingFeedId,
    MissingId,
    InvalidPoolId(AddressError),
    InvalidPubkey { role: Seq<char>, error: AddressError },
}

impl View for ConfigError {
    type V = ConfigFault;

    open spec fn view(&self) -> ConfigFault {
        match self {
            ConfigError::MissingFeedId => ConfigFault::MissingFeedId,
            ConfigError::MissingId => ConfigFault::MissingId,
            ConfigError::InvalidPoolId(e) => ConfigFault::InvalidPoolId(*e),
            ConfigError::InvalidPubkey { role, error } => ConfigFault::InvalidPubkey {
                role: role@,
                error: *error,
            },
        }
    }
}

impl ConfigError {
    /// The error in words, without the file that it is about.
    pub fn message(&self) -> (r: String)
        ensures
            r@ == match self@ {
                ConfigFault::MissingFeedId => "missing feed_id"@,
                ConfigFault::MissingId => "missing id"@,
                ConfigFault::InvalidPoolId(_) => "invalid pool id"@,
                ConfigFault::InvalidPubkey { role, error: _ } => "invalid pubkey for role "@ + role,
            },
    {
        match self {
            ConfigError::MissingFeedId => "missing feed_id".to_owned(),
            ConfigError::MissingId => "missing id".to_owned(),
            ConfigError::InvalidPoolId(_) => "invalid pool id".to_owned(),
            ConfigError::InvalidPubkey { role, .. } => crate::text::joined(
                "invalid pubkey for role ",
                role.as_str(),
            ),
        }
    }
}

/// An account of a file and what its address reads as.
#[derive(Debug)]
pub struct ParsedAccount {
    pub role: String,
    pub pubkey: Result<[u8; 32], AddressError>,
}

/// What an account of a file says.
pub struct ParsedView {
    pub role: Seq<char>,
    pub pubkey: Result<Seq<u8>, AddressError>,
}

/// The bytes of an address, if it has them.
pub open spec fn key_view(key: Result<[u8; 32], AddressError>) -> Result<Seq<u8>, AddressError> {
    match key {
        Ok(k) => Ok(k@),
        Err(e) => Err(e),
    }
}

impl View for ParsedAccount {
    type V = ParsedView;

    open spec fn view(&self) -> ParsedView {
        ParsedView { role: self.role@, pubkey: key_view(self.pubkey) }
    }
}

/// What the accounts of a list say.
pub open spec fn parsed_views(accounts: Seq<ParsedAccount>) -> Seq<ParsedView> {
    accounts.map_values(|a: ParsedAccount| a@)
}

/// The entries of a pool: its own, then those of the first `n` accounts of its
/// file but for those of the pool itself.
pub open spec fn entries_of(pool_id: Seq<u8>, accounts: Seq<ParsedView>, n: nat) -> Result<
    Seq<EntryView>,
    ConfigFault,
>
    decreases n,
{
    if n == 0 {
        Ok(seq![EntryView { role: "pool"@, pubkey: pool_id }])
    } else {
        let a = accounts[n - 1];
        match entries_of(pool_id, accounts, (n - 1) as nat) {
            Err(e) => Err(e),
            Ok(rest) => if a.role == "pool"@ {
                Ok(rest)
            } else {
                match a.pubkey {
                    Ok(pubkey) => Ok(rest.push(EntryView { role: a.role, pubkey })),
                    Err(error) => Err(ConfigFault::InvalidPubkey { role: a.role, error }),
                }
            },
        }
    }
}

proof fn lemma_entries_stay_err(pool_id: Seq<u8>, accounts: Seq<ParsedView>, n: nat, m: nat)
    requires
        entries_of(pool_id, accounts, n) is Err,
        n <= m,
    ensures
        entries_of(pool_id, accounts, m) == entries_of(pool_id, accounts, n),
    decreases m,
{
    if n < m {
        lemma_entries_stay_err(pool_id, accounts, n, (m - 1) as nat);
    }
}

/// The entries of a pool.
pub fn collect_entries(pool_id: [u8; 32], accounts: Vec<ParsedAccount>) -> (r: Result<Vec<AccountEntry>, ConfigError>)
    ensures
        r is Ok == entries_of(pool_id@, parsed_views(accounts@), accounts@.len()) is Ok,
        r is Ok ==> entry_views(r->Ok_0@) == entries_of(
            pool_id@,
            parsed_views(accounts@),
            accounts@.len(),
        )->Ok_0,
        r is Err ==> r->Err_0@ == entries_of(pool_id@, parsed_views(accounts@), accounts@.len())->Err_0,
{
    let ghost views = parsed_views(accounts@);
    let mut entries: Vec<AccountEntry> = Vec::new();
    entries.push(AccountEntry { role: "pool".to_owned(), pubkey: pool_id });
    assert(entry_views(entries@) =~= seq![EntryView { role: "pool"@, pubkey: pool_id@ }]);
    for a in it: accounts
        invariant
            it.seq() == accounts@,
            views == parsed_views(accounts@),
            entries_of(pool_id@, views, it.index() as nat) == Ok::<Seq<EntryView>, ConfigFault>(
                entry_views(entries@),
            ),
    {
        let ghost k = it.index();
        assert(views[k] == a@);
        if !str_eq(a.role.as_str(), "pool") {
            match a.pubkey {
                Ok(pubkey) => {
                    let ghost before = entries@;
                    let entry = AccountEntry { role: a.role, pubkey };
                    entries.push(entry);
                    assert(entry_views(entries@) =~= entry_views(before).push(entry@));
                },
                Err(error) => {
                    proof {
                        lemma_entries_stay_err(pool_id@, views, (k + 1) as nat, views.len());
                    }
                    return Err(ConfigError::InvalidPubkey { role: a.role, error });
                },
            }
        }
    }
    Ok(entries)
}

/// The accounts of a file as texts.
pub open spec fn account_texts(accounts: Option<Vec<(String, String)>>) -> Seq<(Seq<char>, Seq<char>)> {
    match accounts {
        None => Seq::empty(),
        Some(v) => v@.map_values(|a: (String, String)| (a.0@, a.1@)),
    }
}

/// What the addresses of a file read as.
pub open spec fn read_accounts(texts: Seq<(Seq<char>, Seq<char>)>) -> Seq<ParsedView> {
    texts.map_values(
        |a: (Seq<char>, Seq<char>)| ParsedView { role: a.0, pubkey: address_bytes(a.1) },
    )
}

fn parse_accounts(accounts: Option<Vec<(String, String)>>) -> (r: Vec<ParsedAccount>)
    ensures
        parsed_views(r@) == read_accounts(account_texts(accounts)),
{
    let ghost texts = account_texts(accounts);
    let mut parsed: Vec<ParsedAccount> = Vec::new();
    assert(parsed_views(parsed@) =~= read_accounts(texts).take(0));
    match accounts {
        None => {
            assert(read_accounts(texts).take(0) =~= read_accounts(texts));
        },
        Some(list) => {
            for a in it: list
                invariant
                    it.seq() == list@,
                    texts == list@.map_values(|a: (String, String)| (a.0@, a.1@)),
                    parsed_views(parsed@) == read_accounts(texts).take(it.index()),
            {
                let ghost k = it.index();
                let (role, text) = a;
                assert(texts[k] == (role@, text@));
                let ghost before = parsed@;
                let p = ParsedAccount { role, pubkey: parse_address(text.as_str()) };
                parsed.push(p);
                proof {
                    assert(p@ == read_accounts(texts)[k]);
                    assert(parsed_views(parsed@) =~= parsed_views(before).push(p@));
                    assert(parsed_views(parsed@) =~= read_accounts(texts).take(k + 1));
                }
            }
            assert(read_accounts(texts).take(texts.len() as int) =~= read_accounts(texts));
        },
    }
    parsed
}

/// A text that may be missing.
pub open spec fn optional_view(s: Option<String>) -> Option<Seq<char>> {
    match s {
        Some(s) => Some(s@),
        None => None,
    }
}

/// The feed of a file: its feed, or else its id.
pub open spec fn feed_of(raw: RawPoolConfig) -> Option<Seq<char>> {
    match raw.feed_id {
        Some(f) => Some(f@),
        None => optional_view(raw.id),
    }
}

/// A text, or another where it is missing.
pub open spec fn text_or(s: Option<String>, other: Seq<char>) -> Seq<char> {
    match s {
        Some(s) => s@,
        None => other,
    }
}

/// What a configuration asks for.
pub enum ConfigView {
    Pool { amm_type: Seq<char>, pool_id: Seq<u8>, symbol: Seq<char>, accounts: Seq<EntryView> },
    Pyth { feed_id: Seq<char>, symbol: Seq<char> },
}

impl View for LoadedConfig {
    type V = ConfigView;

    open spec fn view(&self) -> ConfigView {
        match self {
            LoadedConfig::Pool(p) => ConfigView::Pool {
                amm_type: p.amm_type@,
                pool_id: p.pool_id@,
                symbol: p.symbol@,
                accounts: entry_views(p.accounts@),
            },
            LoadedConfig::Pyth(f) => ConfigView::Pyth { feed_id: f.feed_id@, symbol: f.symbol@ },
        }
    }
}

/// What a configuration file asks for. A pool without a symbol takes the name
/// of its file.
pub open spec fn config_of(raw: RawPoolConfig, file_stem: Seq<char>) -> Result<ConfigView, ConfigFault> {
    if raw.pool_type@ == "pyth"@ {
        match feed_of(raw) {
            Some(feed_id) => Ok(ConfigView::Pyth { feed_id, symbol: text_or(raw.symbol, Seq::empty()) }),
            None => Err(ConfigFault::MissingFeedId),
        }
    } else if raw.id is None {
        Err(ConfigFault::MissingId)
    } else {
        match address_bytes(raw.id->0@) {
            Err(error) => Err(ConfigFault::InvalidPoolId(error)),
            Ok(pool_id) => {
                let accounts = read_accounts(account_texts(raw.accounts));
                match entries_of(pool_id, accounts, accounts.len()) {
                    Err(fault) => Err(fault),
                    Ok(accounts) => Ok(
                        ConfigView::Pool {
                            amm_type: raw.pool_type@,
                            pool_id,
                            symbol: text_or(raw.symbol, file_stem),
                            accounts,
                        },
                    ),
                }
            },
        }
    }
}

/// Reads what a configuration file asks for.
pub fn read_config(raw: RawPoolConfig, file_stem: &str) -> (r: Result<LoadedConfig, ConfigError>)
    ensures
        r is Ok == config_of(raw, file_stem@) is Ok,
        r is Ok ==> r->Ok_0@ == config_of(raw, file_stem@)->Ok_0,
        r is Err ==> r->Err_0@ == config_of(raw, file_stem@)->Err_0,
{
    if str_eq(raw.pool_type.as_str(), "pyth") {
        let feed_id = match raw.feed_id {
            Some(f) => f,
            None => match raw.id {
                Some(id) => id,
                None => return Err(ConfigError::MissingFeedId),
            },
        };
        let symbol = match raw.symbol {
            Some(s) => s,
            None => String::new(),
        };
        return Ok(LoadedConfig::Pyth(PythFeedConfig { feed_id, symbol }));
    }
    let id = match raw.id {
        Some(id) => id,
        None => return Err(ConfigError::MissingId),
    };
    let pool_id = match parse_address(id.as_str()) {
        Ok(key) => key,
        Err(error) => return Err(ConfigError::InvalidPoolId(error)),
    };
    let symbol = match raw.symbol {
        Some(s) => s,
        None => file_stem.to_owned(),
    };
    let parsed = parse_accounts(raw.accounts);
    let accounts = match collect_entries(pool_id, parsed) {
        Ok(a) => a,
        Err(e) => return Err(e),
    };
    Ok(LoadedConfig::Pool(PoolConfig { amm_type: raw.pool_type, pool_id, symbol, accounts }))
}

/// The pools among the first `n` files, in order.
pub open spec fn pools_in(loaded: Seq<LoadedConfig>, n: nat) -> Seq<PoolConfig>
    decreases n,
{
    if n == 0 {
        Seq::empty()
    } else {
        let rest = pools_in(loaded, (n - 1) as nat);
        match loaded[n - 1] {
            LoadedConfig::Pool(p) => rest.push(p),
            LoadedConfig::Pyth(_) => rest,
        }
    }
}

/// The feeds among the first `n` files, in order.
pub open spec fn feeds_in(loaded: Seq<LoadedConfig>, n: nat) -> Seq<PythFeedConfig>
    decreases n,
{
    if n == 0 {
        Seq::empty()
    } else {
        let rest = feeds_in(loaded, (n - 1) as nat);
        match loaded[n - 1] {
            LoadedConfig::Pool(_) => rest,
            LoadedConfig::Pyth(f) => rest.push(f),
        }
    }
}

/// What a session records.
#[derive(Debug)]
pub struct SessionConfig {
    pub pools: Vec<PoolConfig>,
    pub feeds: Vec<PythFeedConfig>,
}

/// The pools and feeds of a session; nothing where there is no pool to
/// record.
pub fn session_config(loaded: Vec<LoadedConfig>) -> (r: Option<SessionConfig>)
    ensures
        r is Some == (exists|i: int| 0 <= i < loaded@.len() && (#[trigger] loaded@[i]) is Pool),
        r matches Some(c) ==> c.pools@ == pools_in(loaded@, loaded@.len()) && c.feeds@ == feeds_in(
            loaded@,
            loaded@.len(),
        ),
{
    let mut pools: Vec<PoolConfig> = Vec::new();
    let mut feeds: Vec<PythFeedConfig> = Vec::new();
    let mut i: usize = 0;
    let n = loaded.len();
    for config in it: loaded
        invariant
            it.seq() == loaded@,
            i == it.index(),
            n == loaded@.len(),
            pools@ == pools_in(loaded@, i as nat),
            feeds@ == feeds_in(loaded@, i as nat),
            pools@.len() > 0 ==> (exists|k: int| 0 <= k < i && (#[trigger] loaded@[k]) is Pool),
            pools@.len() == 0 ==> (forall|k: int| 0 <= k < i ==> !((#[trigger] loaded@[k]) is Pool)),
    {
        assert(config == loaded@[i as int]);
        match config {
            LoadedConfig::Pool(p) => pools.push(p),
            LoadedConfig::Pyth(f) => feeds.push(f),
        }
        i = i + 1;
    }
    if pools.len() == 0 {
        None
    } else {
        Some(SessionConfig { pools, feeds })
    }
}

/// A pool's entries: its own comes first and is the only one of that role,
/// whatever its file lists, and every other account that the file lists follows
/// once, in the order of the file.
pub proof fn law_pool_entries(pool_id: Seq<u8>, accounts: Seq<ParsedView>, n: nat, e: Seq<EntryView>) -> (at: Seq<int>)
    requires
        n <= accounts.len(),
        entries_of(pool_id, accounts, n) == Ok::<Seq<EntryView>, ConfigFault>(e),
    ensures
        e.len() == at.len() + 1,
        e[0] == (EntryView { role: "pool"@, pubkey: pool_id }),
        forall|k: int| #![trigger at[k]]
            0 <= k < at.len() ==> 0 <= at[k] < n && accounts[at[k]].role != "pool"@ && e[k + 1].role
                == accounts[at[k]].role && accounts[at[k]].pubkey == Ok::<Seq<u8>, AddressError>(e[k + 1].pubkey),
        forall|j: int, k: int| 0 <= j < k < at.len() ==> #[trigger] at[j] < #[trigger] at[k],
        forall|i: int| 0 <= i < n && (#[trigger] accounts[i]).role != "pool"@ ==> at.contains(i),
    decreases n,
{
    if n == 0 {
        Seq::empty()
    } else {
        let a = accounts[n - 1];
        let rest = entries_of(pool_id, accounts, (n - 1) as nat)->Ok_0;
        let before = law_pool_entries(pool_id, accounts, (n - 1) as nat, rest);
        if a.role == "pool"@ {
            before
        } else {
            let at = before.push(n - 1);
            assert forall|k: int| #![trigger at[k]] 0 <= k < at.len() implies 0 <= at[k] < n && accounts[at[k]].role
                != "pool"@ && e[k + 1].role == accounts[at[k]].role && accounts[at[k]].pubkey == Ok::<
                Seq<u8>,
                AddressError,
            >(e[k + 1].pubkey) by {
                if k < before.len() {
                    assert(at[k] == before[k]);
                    assert(e[k + 1] == rest[k + 1]);
                }
            }
            assert forall|i: int| 0 <= i < n && (#[trigger] accounts[i]).role != "pool"@ implies at.contains(i) by {
                if i == n - 1 {
                    assert(at[before.len() as int] == i);
                } else {
                    assert(before.contains(i));
                    let j = choose|j: int| 0 <= j < before.len() && before[j] == i;
                    assert(at[j] == i);
                }
            }
            at
        }
    }
}

/// A pool's accounts are refused because of the first of them that is not the
/// pool's own and has no address, and for no other reason.
pub proof fn law_first_bad_account_is_named(pool_id: Seq<u8>, accounts: Seq<ParsedView>, n: nat, k: int)
    requires
        0 <= k < n <= accounts.len(),
        accounts[k].role != "pool"@,
        accounts[k].pubkey is Err,
        forall|i: int| 0 <= i < k && (#[trigger] accounts[i]).role != "pool"@ ==> accounts[i].pubkey is Ok,
    ensures
        entries_of(pool_id, accounts, n) == Err::<Seq<EntryView>, ConfigFault>(
            ConfigFault::InvalidPubkey { role: accounts[k].role, error: accounts[k].pubkey->Err_0 },
        ),
    decreases n,
{
    if n == k + 1 {
        lemma_entries_found(pool_id, accounts, k as nat);
    } else {
        law_first_bad_account_is_named(pool_id, accounts, (n - 1) as nat, k);
    }
}

proof fn lemma_entries_found(pool_id: Seq<u8>, accounts: Seq<ParsedView>, n: nat)
    requires
        n <= accounts.len(),
        forall|i: int| 0 <= i < n && (#[trigger] accounts[i]).role != "pool"@ ==> accounts[i].pubkey is Ok,
    ensures
        entries_of(pool_id, accounts, n) is Ok,
    decreases n,
{
    if n > 0 {
        lemma_entries_found(pool_id, accounts, (n - 1) as nat);
    }
}

/// A session records every pool and every feed that its files ask for, each
/// once and in the order of the files, and nothing else.
pub proof fn law_session_records_every_file(loaded: Seq<LoadedConfig>, n: nat)
    requires
        n <= loaded.len(),
    ensures
        pools_in(loaded, n).len() + feeds_in(loaded, n).len() == n,
        forall|i: int| 0 <= i < n ==> match #[trigger] loaded[i] {
            LoadedConfig::Pool(p) => pools_in(loaded, n)[pools_in(loaded, i as nat).len() as int] == p,
            LoadedConfig::Pyth(f) => feeds_in(loaded, n)[feeds_in(loaded, i as nat).len() as int] == f,
        },
        forall|i: nat| i <= n ==> (#[trigger] pools_in(loaded, i)).is_prefix_of(pools_in(loaded, n)),
        forall|i: nat| i <= n ==> (#[trigger] feeds_in(loaded, i)).is_prefix_of(feeds_in(loaded, n)),
    decreases n,
{
    if n > 0 {
        let m = (n - 1) as nat;
        law_session_records_every_file(loaded, m);
        assert forall|i: int| 0 <= i < n implies match #[trigger] loaded[i] {
            LoadedConfig::Pool(p) => pools_in(loaded, n)[pools_in(loaded, i as nat).len() as int] == p,
            LoadedConfig::Pyth(f) => feeds_in(loaded, n)[feeds_in(loaded, i as nat).len() as int] == f,
        } by {
            if i < m {
                lemma_counts_grow(loaded, (i + 1) as nat, m);
            }
        }
        assert forall|i: nat| i <= n implies (#[trigger] pools_in(loaded, i)).is_prefix_of(pools_in(loaded, n)) by {
            if i < n {
                assert(pools_in(loaded, i).is_prefix_of(pools_in(loaded, m)));
                assert(pools_in(loaded, m).is_prefix_of(pools_in(loaded, n)));
            }
        }
        assert forall|i: nat| i <= n implies (#[trigger] feeds_in(loaded, i)).is_prefix_of(feeds_in(loaded, n)) by {
            if i < n {
                assert(feeds_in(loaded, i).is_prefix_of(feeds_in(loaded, m)));
                assert(feeds_in(loaded, m).is_prefix_of(feeds_in(loaded, n)));
            }
        }
    }
}

proof fn lemma_counts_grow(loaded: Seq<LoadedConfig>, i: nat, n: nat)
    requires
        i <= n <= loaded.len(),
    ensures
        pools_in(loaded, i).len() <= pools_in(loaded, n).len(),
        feeds_in(loaded, i).len() <= feeds_in(loaded, n).len(),
    decreases n,
{
    if i < n {
        lemma_counts_grow(loaded, i, (n - 1) as nat);
    }
}

}
