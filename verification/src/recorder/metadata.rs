//! Where the recording of a pool is kept.
use vstd::prelude::*;

use super::config::PoolConfig;
use crate::codec::{address_text, address_to_text};
use crate::text::{byte_len, byte_prefix, lemma_byte_prefix, replace_char, try_byte_prefix, with_replaced};

verus! {

/// A pool of a session and where its recording lies.
#[derive(Debug)]
pub struct PoolMetadata {
    pub pool_id: String,
    pub amm_type: String,
    pub symbol: String,
    pub data_dir: String,
}

/// What is said of a pool of a session.
#[verifier::ext_equal]
pub struct MetadataView {
    pub pool_id: Seq<char>,
    pub amm_type: Seq<char>,
    pub symbol: Seq<char>,
    pub data_dir: Seq<char>,
}

impl View for PoolMetadata {
    type V = MetadataView;

    open spec fn view(&self) -> MetadataView {
        MetadataView {
            pool_id: self.pool_id@,
            amm_type: self.amm_type@,
            symbol: self.symbol@,
            data_dir: self.data_dir@,
        }
    }
}

/// What is said of the pools of a list.
pub open spec fn metadata_views(pools: Seq<PoolMetadata>) -> Seq<MetadataView> {
    pools.map_values(|p: PoolMetadata| p@)
}

/// The directory of a pool: its symbol without slashes and the first eight
/// bytes of its address, or twelve bytes where it has no symbol. There is none
/// where the address is shorter.
pub open spec fn dir_name(symbol: Seq<char>, pool_id: Seq<char>) -> Option<Seq<char>> {
    if symbol.len() == 0 {
        byte_prefix(pool_id, 12)
    } else {
        match byte_prefix(pool_id, 8) {
            Some(p) => Some(with_replaced(symbol, '/', '-') + "_"@ + p),
            None => None,
        }
    }
}

pub fn data_dir_name(symbol: &str, pool_id: &str) -> (r: Option<String>)
    ensures
        r is Some == dir_name(symbol@, pool_id@) is Some,
        r is Some ==> r->0@ == dir_name(symbol@, pool_id@)->0,
{
    if symbol.is_empty() {
        return try_byte_prefix(pool_id, 12);
    }
    let prefix = try_byte_prefix(pool_id, 8)?;
    let mut name = replace_char(symbol, '/', '-');
    name.append("_");
    name.append(prefix.as_str());
    Some(name)
}

/// What is said of a configured pool, given the text of its address.
pub open spec fn metadata_of(amm_type: Seq<char>, symbol: Seq<char>, pool_id: Seq<char>) -> Option<MetadataView> {
    match dir_name(symbol, pool_id) {
        Some(data_dir) => Some(MetadataView { pool_id, amm_type, symbol, data_dir }),
        None => None,
    }
}

/// What is said of the first `n` configured pools.
pub open spec fn metadata_up_to(configs: Seq<PoolConfig>, n: nat) -> Option<Seq<MetadataView>>
    decreases n,
{
    if n == 0 {
        Some(Seq::empty())
    } else {
        let c = configs[n - 1];
        match (
            metadata_up_to(configs, (n - 1) as nat),
            metadata_of(c.amm_type@, c.symbol@, address_text(c.pool_id@)),
        ) {
            (Some(rest), Some(m)) => Some(rest.push(m)),
            _ => None,
        }
    }
}

proof fn lemma_metadata_stays_none(configs: Seq<PoolConfig>, n: nat, m: nat)
    requires
        metadata_up_to(configs, n) is None,
        n <= m,
    ensures
        metadata_up_to(configs, m) is None,
    decreases m,
{
    if n < m {
        lemma_metadata_stays_none(configs, n, (m - 1) as nat);
    }
}

/// The pools of a session; nothing where the text of an address is too short
/// to name a directory.
pub fn session_pools(configs: &Vec<PoolConfig>) -> (r: Option<Vec<PoolMetadata>>)
    ensures
        r is Some == metadata_up_to(configs@, configs@.len()) is Some,
        r is Some ==> metadata_views(r->0@) == metadata_up_to(configs@, configs@.len())->0,
{
    let mut pools: Vec<PoolMetadata> = Vec::new();
    let mut i: usize = 0;
    assert(metadata_views(pools@) =~= Seq::empty());
    while i < configs.len()
        invariant
            i <= configs@.len(),
            metadata_up_to(configs@, i as nat) == Some(metadata_views(pools@)),
        decreases configs@.len() - i,
    {
        let c = &configs[i];
        let pool_id = address_to_text(&c.pool_id);
        let data_dir = match data_dir_name(c.symbol.as_str(), pool_id.as_str()) {
            Some(d) => d,
            None => {
                proof {
                    lemma_metadata_stays_none(configs@, (i + 1) as nat, configs@.len());
                }
                return None;
            },
        };
        let ghost before = pools@;
        let m = PoolMetadata {
            pool_id,
            amm_type: c.amm_type.clone(),
            symbol: c.symbol.clone(),
            data_dir,
        };
        pools.push(m);
        assert(metadata_views(pools@) =~= metadata_views(before).push(m@));
        i = i + 1;
    }
    Some(pools)
}

/// Every pool of a session is described once, in order, by its own address,
/// kind and symbol.
pub proof fn law_every_pool_is_described(configs: Seq<PoolConfig>, n: nat, m: Seq<MetadataView>)
    requires
        n <= configs.len(),
        metadata_up_to(configs, n) == Some(m),
    ensures
        m.len() == n,
        forall|i: int| 0 <= i < n ==> {
            &&& (#[trigger] m[i]).pool_id == address_text(configs[i].pool_id@)
            &&& m[i].amm_type == configs[i].amm_type@
            &&& m[i].symbol == configs[i].symbol@
            &&& dir_name(m[i].symbol, m[i].pool_id) == Some(m[i].data_dir)
        },
    decreases n,
{
    if n > 0 {
        law_every_pool_is_described(configs, (n - 1) as nat, metadata_up_to(configs, (n - 1) as nat)->0);
    }
}

/// The directory of a pool is a single name: it holds no slash, as long as the
/// address holds none. It tells the symbol and the start of the address.
pub proof fn law_directory_is_one_name(symbol: Seq<char>, pool_id: Seq<char>, d: Seq<char>)
    requires
        dir_name(symbol, pool_id) == Some(d),
        !pool_id.contains('/'),
    ensures
        !d.contains('/'),
        symbol.len() == 0 ==> d.is_prefix_of(pool_id) && byte_len(d) == 12,
        symbol.len() > 0 ==> {
            let p = d.skip(symbol.len() as int + 1);
            d.len() > symbol.len() && p.is_prefix_of(pool_id) && byte_len(p) == 8
        },
        symbol.len() > 0 ==> d[symbol.len() as int] == '_',
        forall|i: int|
            0 <= i < symbol.len() ==> #[trigger] d[i] == (if symbol[i] == '/' {
                '-'
            } else {
                symbol[i]
            }),
{
    if symbol.len() == 0 {
        lemma_byte_prefix(pool_id, 12);
        assert forall|i: int| 0 <= i < d.len() implies d[i] != '/' by {
            assert(pool_id.contains(pool_id[i]));
        }
    } else {
        lemma_byte_prefix(pool_id, 8);
        let p = byte_prefix(pool_id, 8)->0;
        reveal_strlit("_");
        assert("_"@ =~= seq!['_']);
        assert(d.skip(symbol.len() as int + 1) =~= p);
        assert forall|i: int| 0 <= i < d.len() implies d[i] != '/' by {
            if i > symbol.len() {
                assert(d[i] == p[i - symbol.len() - 1]);
                assert(pool_id.contains(pool_id[i - symbol.len() - 1]));
            }
        }
    }
}

}
