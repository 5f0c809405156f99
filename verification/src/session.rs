//! The pools of a recorded session.
use vstd::prelude::*;

use crate::text::{byte_len, byte_prefix, has_bytes, lemma_byte_prefix, replace_char, try_byte_prefix, with_replaced};

verus! {

/// A pool of a session and where its recording lies.
#[derive(Debug, Clone)]
pub struct PoolInfo {
    pub pool_id: String,
    pub amm_type: String,
    pub symbol: Option<String>,
    pub data_dir: String,
}

/// The symbol of a pool, if it has one.
pub open spec fn symbol_view(symbol: Option<String>) -> Option<Seq<char>> {
    match symbol {
        Some(s) => Some(s@),
        None => None,
    }
}

/// The name under which the quotes of a pair are kept: its symbol without
/// slashes, or the first twelve bytes of its address. There is none where the
/// twelfth byte ends inside a character.
pub open spec fn pair_name(symbol: Option<Seq<char>>, pool_id: Seq<char>) -> Option<Seq<char>> {
    match symbol {
        Some(s) => Some(with_replaced(s, '/', '-')),
        None => if byte_len(pool_id) <= 12 {
            Some(pool_id)
        } else {
            byte_prefix(pool_id, 12)
        },
    }
}

pub fn pair_key(symbol: &Option<String>, pool_id: &str) -> (r: Option<String>)
    ensures
        r is Some == pair_name(symbol_view(*symbol), pool_id@) is Some,
        r is Some ==> r->0@ == pair_name(symbol_view(*symbol), pool_id@)->0,
{
    match symbol {
        Some(s) => Some(replace_char(s.as_str(), '/', '-')),
        None => if has_bytes(pool_id, 13) {
            try_byte_prefix(pool_id, 12)
        } else {
            Some(pool_id.to_owned())
        },
    }
}

/// The name of a pair is a single name: it holds no slash, as long as the
/// address holds none. A pair with a symbol goes by it, and any other by the
/// start of its address.
pub proof fn law_pair_is_one_name(symbol: Option<Seq<char>>, pool_id: Seq<char>, name: Seq<char>)
    requires
        pair_name(symbol, pool_id) == Some(name),
        !pool_id.contains('/'),
    ensures
        !name.contains('/'),
        symbol matches Some(s) ==> name.len() == s.len() && forall|i: int|
            0 <= i < s.len() ==> #[trigger] name[i] == (if s[i] == '/' {
                '-'
            } else {
                s[i]
            }),
        symbol is None ==> name.is_prefix_of(pool_id) && (name == pool_id || byte_len(name) == 12),
{
    if symbol is None {
        if byte_len(pool_id) > 12 {
            lemma_byte_prefix(pool_id, 12);
        } else {
            assert(pool_id =~= pool_id.take(pool_id.len() as int));
        }
        assert forall|i: int| 0 <= i < name.len() implies name[i] != '/' by {
            assert(pool_id.contains(pool_id[i]));
        }
    }
}

}
