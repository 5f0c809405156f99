//! A GoonFi pool under replay.
use vstd::prelude::*;

use super::state::{is_readable, no_state, readable, GoonFiState};
use crate::bytes::{read_token_balance, str_eq, token_balance};
use crate::num::{fits_u128, low64, wrap64};
use crate::protocols::quotes::{is_b2q, positive, quoted, Quote, TierInput, TierQuotes};

verus! {

#[derive(Clone, Copy, Debug)]
pub struct GoonFiReplay {
    pub state: GoonFiState,
    pub has_pool: bool,
    pub has_oracle: bool,
    pub has_base_vault: bool,
    pub has_quote_vault: bool,
}

impl GoonFiReplay {
    pub open spec fn wf(self) -> bool {
        self.state.wf()
    }

    pub open spec fn fresh() -> Self {
        GoonFiReplay {
            state: no_state(),
            has_pool: false,
            has_oracle: false,
            has_base_vault: false,
            has_quote_vault: false,
        }
    }

    pub fn new() -> (r: Self)
        ensures
            r == Self::fresh(),
            r.wf(),
    {
        GoonFiReplay {
            state: GoonFiState::default(),
            has_pool: false,
            has_oracle: false,
            has_base_vault: false,
            has_quote_vault: false,
        }
    }

    /// Whether the scale of an update's token fits in 64 bits.
    pub open spec fn accepts(role: Seq<char>, data: Seq<u8>) -> bool {
        role == "pool"@ ==> readable(data)
    }

    pub fn can_apply(role: &str, data: &[u8]) -> (r: bool)
        ensures
            r == Self::accepts(role@, data@),
    {
        if str_eq(role, "pool") {
            is_readable(data)
        } else {
            true
        }
    }

    /// The replay after an account update. Oracle data counts as seen even
    /// where it is rejected.
    #[verifier::opaque]
    pub open spec fn updated(self, role: Seq<char>, data: Seq<u8>) -> Self {
        if role == "pool"@ {
            match self.state.with_market_data(data) {
                Ok(state) => GoonFiReplay { state, has_pool: true, ..self },
                Err(_) => self,
            }
        } else if role == "oracle"@ {
            match self.state.with_oracle_data(data) {
                Ok(state) => GoonFiReplay { state, has_oracle: true, ..self },
                Err(_) => GoonFiReplay { has_oracle: true, ..self },
            }
        } else if role == "base_vault"@ {
            match token_balance(data) {
                Some(b) => GoonFiReplay {
                    state: GoonFiState { base_amount: b, ..self.state },
                    has_base_vault: true,
                    ..self
                },
                None => self,
            }
        } else if role == "quote_vault"@ {
            match token_balance(data) {
                Some(b) => GoonFiReplay {
                    state: GoonFiState { quote_amount: b, ..self.state },
                    has_quote_vault: true,
                    ..self
                },
                None => self,
            }
        } else {
            self
        }
    }

    pub fn apply_update(&mut self, role: &str, data: &[u8])
        requires
            old(self).wf(),
            Self::accepts(role@, data@),
        ensures
            *final(self) == old(self).updated(role@, data@),
            final(self).wf(),
    {
        proof {
            reveal(GoonFiReplay::updated);
        }
        if str_eq(role, "pool") {
            if self.state.update_from_market_data(data).is_ok() {
                self.has_pool = true;
            }
        } else if str_eq(role, "oracle") {
            let _ = self.state.update_from_oracle_data(data);
            self.has_oracle = true;
        } else if str_eq(role, "base_vault") {
            if let Some(b) = read_token_balance(data) {
                self.state.base_amount = b;
                self.has_base_vault = true;
            }
        } else if str_eq(role, "quote_vault") {
            if let Some(b) = read_token_balance(data) {
                self.state.quote_amount = b;
                self.has_quote_vault = true;
            }
        }
    }

    pub open spec fn ready(self) -> bool {
        self.has_pool && self.has_oracle && self.has_quote_vault
    }

    pub fn is_ready(&self) -> (r: bool)
        ensures
            r == self.ready(),
    {
        self.has_pool && self.has_oracle && self.has_quote_vault
    }

    pub open spec fn balances(self) -> Option<(u64, u64)> {
        if self.has_base_vault && self.has_quote_vault {
            Some((self.state.base_amount, self.state.quote_amount))
        } else {
            None
        }
    }

    pub fn vault_balances(&self) -> (r: Option<(u64, u64)>)
        ensures
            r == self.balances(),
    {
        if self.has_base_vault && self.has_quote_vault {
            Some((self.state.base_amount, self.state.quote_amount))
        } else {
            None
        }
    }

    /// The positive amount out for an amount in; the inner option is empty
    /// where there is none.
    #[verifier::opaque]
    pub open spec fn single(self, amount: int, direction: Seq<char>, slot: int) -> Option<Option<u64>> {
        if !self.ready() || amount == 0 {
            Some(None)
        } else {
            positive(self.state.quote(amount, direction == "B2Q"@, slot))
        }
    }

    pub fn try_quote_single(&self, input_amount: u64, direction: &str, slot: u64) -> (r: Option<Option<u64>>)
        requires
            self.wf(),
        ensures
            r == self.single(input_amount as int, direction@, slot as int),
    {
        proof {
            reveal(GoonFiReplay::single);
        }
        if !self.is_ready() || input_amount == 0 {
            return Some(None);
        }
        let out = self.state.get_quote(input_amount, is_b2q(direction), slot)?;
        if out > 0 {
            Some(Some(out))
        } else {
            Some(None)
        }
    }

    /// The quotes of a trade size; none from base tokens without a bid.
    #[verifier::opaque]
    pub open spec fn tier_quotes(self, slot: int, tier: TierInput) -> Option<TierQuotes> {
        let scaled = tier.micro_usd * self.state.price_scale;
        let base = wrap64(scaled / self.state.bid_price as int);
        let quote = tier.quote_amount() as int;
        let q2b = quoted(quote, self.state.quote(quote, false, slot));
        if !self.ready() {
            Some(TierQuotes::nothing())
        } else if q2b is None {
            None
        } else if self.state.bid_price == 0 {
            Some(TierQuotes { b2q: None, q2b })
        } else {
            let b2q = quoted(base, self.state.quote(base, true, slot));
            if fits_u128(scaled) && b2q is Some {
                Some(TierQuotes { b2q, q2b })
            } else {
                None
            }
        }
    }

    pub fn try_tier_quotes(&self, slot: u64, tier: &TierInput) -> (r: Option<TierQuotes>)
        requires
            self.wf(),
        ensures
            r == self.tier_quotes(slot as int, *tier),
    {
        proof {
            reveal(GoonFiReplay::tier_quotes);
        }
        if !self.is_ready() {
            return Some(TierQuotes::none());
        }
        let b2q = if self.state.bid_price > 0 {
            let scaled = tier.micro_usd.checked_mul(self.state.price_scale as u128)?;
            let input = low64(scaled / self.state.bid_price as u128);
            let output = self.state.get_quote(input, true, slot)?;
            Some(Quote { input, output })
        } else {
            None
        };
        let input = tier.get_quote_amount();
        let output = self.state.get_quote(input, false, slot)?;
        Some(TierQuotes { b2q, q2b: Some(Quote { input, output }) })
    }
}

}
