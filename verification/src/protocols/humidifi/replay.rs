//! A Humidifi pool under replay.
use vstd::prelude::*;

use super::imbalance::HumidifiState;
use super::params::{decrypt_pool_params, no_params, pool_params, PoolParams};
use crate::bytes::{read_token_balance, str_eq, token_balance};
use crate::protocols::quotes::{is_b2q, Quote, TierInput, TierQuotes};

verus! {

#[derive(Clone, Copy, Debug, PartialEq, Eq, Structural)]
pub struct HumidifiReplay {
    pub state: HumidifiState,
    pub has_pool: bool,
    pub has_base_vault: bool,
    pub has_quote_vault: bool,
    pub last_slot: u64,
}

impl HumidifiReplay {
    pub open spec fn fresh() -> Self {
        HumidifiReplay {
            state: HumidifiState { base_amount: 0, quote_amount: 0, params: no_params() },
            has_pool: false,
            has_base_vault: false,
            has_quote_vault: false,
            last_slot: 0,
        }
    }

    pub fn new() -> (r: Self)
        ensures
            r == Self::fresh(),
    {
        HumidifiReplay {
            state: HumidifiState { base_amount: 0, quote_amount: 0, params: PoolParams::default() },
            has_pool: false,
            has_base_vault: false,
            has_quote_vault: false,
            last_slot: 0,
        }
    }

    /// The replay after an account update; its slot is kept whatever the role.
    #[verifier::opaque]
    pub open spec fn updated(self, role: Seq<char>, data: Seq<u8>, slot: u64) -> Self {
        let seen = HumidifiReplay { last_slot: slot, ..self };
        if role == "pool"@ {
            match pool_params(data) {
                Some(params) => HumidifiReplay {
                    state: HumidifiState { params, ..self.state },
                    has_pool: true,
                    ..seen
                },
                None => seen,
            }
        } else if role == "base_vault"@ {
            match token_balance(data) {
                Some(b) => HumidifiReplay {
                    state: HumidifiState { base_amount: b, ..self.state },
                    has_base_vault: true,
                    ..seen
                },
                None => seen,
            }
        } else if role == "quote_vault"@ {
            match token_balance(data) {
                Some(b) => HumidifiReplay {
                    state: HumidifiState { quote_amount: b, ..self.state },
                    has_quote_vault: true,
                    ..seen
                },
                None => seen,
            }
        } else {
            seen
        }
    }

    pub fn apply_update(&mut self, role: &str, data: &[u8], slot: u64)
        ensures
            *final(self) == old(self).updated(role@, data@, slot),
    {
        proof {
            reveal(HumidifiReplay::updated);
        }
        self.last_slot = slot;
        if str_eq(role, "pool") {
            if let Some(params) = decrypt_pool_params(data) {
                self.state.params = params;
                self.has_pool = true;
            }
        } else if str_eq(role, "base_vault") {
            if let Some(b) = read_token_balance(data) {
                self.state.base_amount = b;
                self.has_base_vault = true;
            }
        } else if str_eq(role, "quote_vault") {
            if let Some(b) = read_token_balance(data) {
                self.state.quote_amount = b;
                self.has_quote_vault = true;
            }
        }
    }

    pub open spec fn ready(self) -> bool {
        self.has_pool && self.has_base_vault && self.has_quote_vault && self.state.valid()
    }

    pub fn is_ready(&self) -> (r: bool)
        ensures
            r == self.ready(),
    {
        self.has_pool && self.has_base_vault && self.has_quote_vault && self.state.is_valid()
    }

    pub open spec fn balances(self) -> Option<(u64, u64)> {
        if self.has_base_vault && self.has_quote_vault {
            Some((self.state.base_amount, self.state.quote_amount))
        } else {
            None
        }
    }

    pub fn vault_balances(&self) -> (r: Option<(u64, u64)>)
        ensures
            r == self.balances(),
    {
        if self.has_base_vault && self.has_quote_vault {
            Some((self.state.base_amount, self.state.quote_amount))
        } else {
            None
        }
    }

    /// The positive amount out for an amount in; the inner option is empty
    /// where there is none.
    #[verifier::opaque]
    pub open spec fn single(self, amount: int, direction: Seq<char>, slot: int) -> Option<Option<u64>> {
        if !self.ready() || amount == 0 {
            Some(None)
        } else {
            self.state.checked_quote(amount, direction == "B2Q"@, slot)
        }
    }

    pub fn try_quote_single(&self, input_amount: u64, direction: &str, slot: u64) -> (r: Option<Option<u64>>)
        ensures
            r == self.single(input_amount as int, direction@, slot as int),
    {
        proof {
            reveal(HumidifiReplay::single);
        }
        if !self.is_ready() || input_amount == 0 {
            return Some(None);
        }
        self.state.get_quote_checked(input_amount, is_b2q(direction), slot)
    }

    /// A quote of a positive amount, where there is one.
    pub open spec fn side(self, input: u64, b2q: bool, slot: int) -> Option<Option<Quote>> {
        if input == 0 {
            Some(None)
        } else {
            match self.state.checked_quote(input as int, b2q, slot) {
                None => None,
                Some(None) => Some(None),
                Some(Some(output)) => Some(Some(Quote { input, output })),
            }
        }
    }

    fn try_side(&self, input: u64, b2q: bool, slot: u64) -> (r: Option<Option<Quote>>)
        ensures
            r == self.side(input, b2q, slot as int),
    {
        if input == 0 {
            return Some(None);
        }
        match self.state.get_quote_checked(input, b2q, slot)? {
            None => Some(None),
            Some(output) => Some(Some(Quote { input, output })),
        }
    }

    /// The quotes of a trade size; none where the mid price is not positive.
    #[verifier::opaque]
    pub open spec fn tier_quotes(self, slot: int, tier: TierInput) -> Option<TierQuotes> {
        match tier.base_amount {
            None => Some(TierQuotes::nothing()),
            Some(base) => match (self.side(base, true, slot), self.side(tier.quote_amount(), false, slot)) {
                (Some(b2q), Some(q2b)) => Some(TierQuotes { b2q, q2b }),
                _ => None,
            },
        }
    }

    pub fn try_tier_quotes(&self, slot: u64, tier: &TierInput) -> (r: Option<TierQuotes>)
        ensures
            r == self.tier_quotes(slot as int, *tier),
    {
        proof {
            reveal(HumidifiReplay::tier_quotes);
        }
        let base = match tier.base_amount {
            Some(b) => b,
            None => return Some(TierQuotes::none()),
        };
        let b2q = self.try_side(base, true, slot)?;
        let q2b = self.try_side(tier.get_quote_amount(), false, slot)?;
        Some(TierQuotes { b2q, q2b })
    }
}

}
