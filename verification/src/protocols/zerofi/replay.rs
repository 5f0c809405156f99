//! A ZeroFi pool under replay.
use vstd::prelude::*;

use super::state::{no_state, ZeroFiState};
use crate::bytes::{read_token_balance, str_eq, token_balance};
use crate::protocols::quotes::{is_b2q, positive, quoted, Quote, TierInput, TierQuotes};

verus! {

#[derive(Clone, Copy, Debug)]
pub struct ZeroFiReplay {
    pub state: ZeroFiState,
    pub has_pool: bool,
    pub has_base_vault: bool,
    pub has_quote_vault: bool,
}

impl ZeroFiReplay {
    pub open spec fn wf(self) -> bool {
        self.state.wf()
    }

    pub open spec fn fresh() -> Self {
        ZeroFiReplay { state: no_state(), has_pool: false, has_base_vault: false, has_quote_vault: false }
    }

    pub fn new() -> (r: Self)
        ensures
            r == Self::fresh(),
            r.wf(),
    {
        ZeroFiReplay {
            state: ZeroFiState::default(),
            has_pool: false,
            has_base_vault: false,
            has_quote_vault: false,
        }
    }

    /// The replay after an account update. Pool data counts as seen even where
    /// it is too short to be read.
    #[verifier::opaque]
    pub open spec fn updated(self, role: Seq<char>, data: Seq<u8>) -> Self {
        if role == "pool"@ {
            ZeroFiReplay { state: self.state.with_pool_data(data), has_pool: true, ..self }
        } else if role == "extra_a"@ {
            ZeroFiReplay { state: self.state.with_extra_a(data), ..self }
        } else if role == "extra_b"@ {
            ZeroFiReplay { state: self.state.with_extra_b(data), ..self }
        } else if role == "base_vault"@ {
            match token_balance(data) {
                Some(b) => ZeroFiReplay {
                    state: ZeroFiState { base_vault_balance: b, ..self.state },
                    has_base_vault: true,
                    ..self
                },
                None => self,
            }
        } else if role == "quote_vault"@ {
            match token_balance(data) {
                Some(b) => ZeroFiReplay {
                    state: ZeroFiState { quote_vault_balance: b, ..self.state },
                    has_quote_vault: true,
                    ..self
                },
                None => self,
            }
        } else {
            self
        }
    }

    pub fn apply_update(&mut self, role: &str, data: &[u8])
        requires
            old(self).wf(),
        ensures
            *final(self) == old(self).updated(role@, data@),
            final(self).wf(),
    {
        proof {
            reveal(ZeroFiReplay::updated);
        }
        if str_eq(role, "pool") {
            self.state.update_from_pool_data(data);
            self.has_pool = true;
        } else if str_eq(role, "extra_a") {
            self.state.update_from_extra_a(data);
        } else if str_eq(role, "extra_b") {
            self.state.update_from_extra_b(data);
        } else if str_eq(role, "base_vault") {
            if let Some(b) = read_token_balance(data) {
                self.state.base_vault_balance = b;
                self.has_base_vault = true;
            }
        } else if str_eq(role, "quote_vault") {
            if let Some(b) = read_token_balance(data) {
                self.state.quote_vault_balance = b;
                self.has_quote_vault = true;
            }
        }
    }

    pub open spec fn ready(self) -> bool {
        self.has_pool && self.has_base_vault && self.has_quote_vault
    }

    pub fn is_ready(&self) -> (r: bool)
        ensures
            r == self.ready(),
    {
        self.has_pool && self.has_base_vault && self.has_quote_vault
    }

    /// Both balances, once both are known and positive.
    pub open spec fn balances(self) -> Option<(u64, u64)> {
        if self.has_base_vault && self.has_quote_vault && self.state.base_vault_balance > 0
            && self.state.quote_vault_balance > 0 {
            Some((self.state.base_vault_balance, self.state.quote_vault_balance))
        } else {
            None
        }
    }

    pub fn vault_balances(&self) -> (r: Option<(u64, u64)>)
        ensures
            r == self.balances(),
    {
        if self.has_base_vault && self.has_quote_vault && self.state.base_vault_balance > 0
            && self.state.quote_vault_balance > 0 {
            Some((self.state.base_vault_balance, self.state.quote_vault_balance))
        } else {
            None
        }
    }

    /// The positive amount out for an amount in; the inner option is empty
    /// where there is none.
    #[verifier::opaque]
    pub open spec fn single(self, amount: int, direction: Seq<char>, slot: int) -> Option<Option<u64>> {
        if !self.ready() || amount == 0 {
            Some(None)
        } else {
            positive(self.state.quote(amount, direction == "B2Q"@, slot))
        }
    }

    pub fn try_quote_single(&self, input_amount: u64, direction: &str, slot: u64) -> (r: Option<Option<u64>>)
        requires
            self.wf(),
        ensures
            r == self.single(input_amount as int, direction@, slot as int),
    {
        proof {
            reveal(ZeroFiReplay::single);
        }
        if !self.is_ready() || input_amount == 0 {
            return Some(None);
        }
        let out = self.state.get_quote(input_amount, is_b2q(direction), slot)?;
        if out > 0 {
            Some(Some(out))
        } else {
            Some(None)
        }
    }

    /// The quotes of a trade size; none from base tokens where the bid is not
    /// positive.
    #[verifier::opaque]
    pub open spec fn tier_quotes(self, slot: int, tier: TierInput) -> Option<TierQuotes> {
        if !self.ready() {
            Some(TierQuotes::nothing())
        } else {
            let quote = tier.quote_amount() as int;
            match quoted(quote, self.state.quote(quote, false, slot)) {
                None => None,
                Some(q2b) => match tier.base_amount {
                    None => Some(TierQuotes { b2q: None, q2b: Some(q2b) }),
                    Some(base) => match quoted(base as int, self.state.quote(base as int, true, slot)) {
                        None => None,
                        Some(b2q) => Some(TierQuotes { b2q: Some(b2q), q2b: Some(q2b) }),
                    },
                },
            }
        }
    }

    pub fn try_tier_quotes(&self, slot: u64, tier: &TierInput) -> (r: Option<TierQuotes>)
        requires
            self.wf(),
        ensures
            r == self.tier_quotes(slot as int, *tier),
    {
        proof {
            reveal(ZeroFiReplay::tier_quotes);
        }
        if !self.is_ready() {
            return Some(TierQuotes::none());
        }
        let b2q = match tier.base_amount {
            Some(input) => {
                let output = self.state.get_quote(input, true, slot)?;
                Some(Quote { input, output })
            },
            None => None,
        };
        let input = tier.get_quote_amount();
        let output = self.state.get_quote(input, false, slot)?;
        Some(TierQuotes { b2q, q2b: Some(Quote { input, output }) })
    }
}

}
