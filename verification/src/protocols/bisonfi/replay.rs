//! A BisonFi pool under replay.
use vstd::prelude::*;

use super::fees::{ceil_fee, ceil_fee_of, ceil_fee_v3};
use super::state::{is_readable, no_state, readable, BisonFiState};
use crate::bytes::{read_token_balance, str_eq, token_balance};
use crate::num::{fits_u128, low64, monus, wrap64};
use crate::protocols::quotes::{is_b2q, positive, quoted, Quote, TierInput, TierQuotes};

verus! {

impl BisonFiState {
    /// The amount out of the later version.
    pub open spec fn quote_v3(self, amount: int, is_b2q: bool, clock_slot: int) -> Option<int> {
        let slot_diff = monus(clock_slot, self.pool_slot as int);
        match self.fee_v3(amount, is_b2q, slot_diff) {
            None => None,
            Some(fee) => {
                let net = monus(amount, ceil_fee_of(fee, amount, 2_560_000));
                if net == 0 {
                    Some(0)
                } else if is_b2q {
                    self.sold_v3(net, clock_slot)
                } else {
                    self.bought_v3(net, clock_slot)
                }
            },
        }
    }

    pub fn get_quote_v3(&self, input_amount: u64, is_base_to_quote: bool, clock_slot: u64) -> (r: Option<u64>)
        ensures
            r is Some == self.quote_v3(input_amount as int, is_base_to_quote, clock_slot as int) is Some,
            r is Some ==> r->0 == self.quote_v3(input_amount as int, is_base_to_quote, clock_slot as int)->0,
    {
        let slot_diff = clock_slot.saturating_sub(self.pool_slot);
        let fee_field = self.get_fee_v3(input_amount, is_base_to_quote, slot_diff)?;
        let fee = ceil_fee_v3(fee_field, input_amount);
        let net = input_amount.saturating_sub(fee);
        if net == 0 {
            return Some(0);
        }
        if is_base_to_quote {
            self.b2q_tiered_v3(net, clock_slot)
        } else {
            self.q2b_tiered_v3(net, clock_slot)
        }
    }

    /// The amount out: zero for an empty or stale pool and for an amount that
    /// the fee uses up. Nothing where a number leaves its machine type.
    pub open spec fn quote(self, amount: int, is_b2q: bool, clock_slot: int) -> Option<int> {
        let slot_diff = monus(clock_slot, self.pool_slot as int);
        if self.base_amount == 0 || self.quote_amount == 0 || self.decimal_scale == 0 || slot_diff > 100 {
            Some(0)
        } else if self.version >= 3 {
            self.quote_v3(amount, is_b2q, clock_slot)
        } else if self.fp_val == 0 {
            Some(0)
        } else {
            match self.fee_bps(is_b2q, clock_slot) {
                None => None,
                Some(fee) => {
                    let net = monus(amount, ceil_fee_of(fee, amount, 100_000));
                    if net == 0 {
                        Some(0)
                    } else if is_b2q {
                        self.sold(net, slot_diff)
                    } else {
                        self.bought(net, self.slot_penalty_mult * slot_diff > 0, slot_diff)
                    }
                },
            }
        }
    }

    pub fn get_quote(&self, amount_in: u64, is_base_to_quote: bool, clock_slot: u64) -> (r: Option<u64>)
        ensures
            r is Some == self.quote(amount_in as int, is_base_to_quote, clock_slot as int) is Some,
            r is Some ==> r->0 == self.quote(amount_in as int, is_base_to_quote, clock_slot as int)->0,
    {
        let slot_diff = clock_slot.saturating_sub(self.pool_slot);
        if self.base_amount == 0 || self.quote_amount == 0 || self.decimal_scale == 0 || slot_diff > 100 {
            return Some(0);
        }
        if self.version >= 3 {
            return self.get_quote_v3(amount_in, is_base_to_quote, clock_slot);
        }
        if self.fp_val == 0 {
            return Some(0);
        }
        let fee_bps = self.get_fee_bps(is_base_to_quote, clock_slot)?;
        let fee = ceil_fee(fee_bps, amount_in);
        let net = amount_in.saturating_sub(fee);
        if net == 0 {
            return Some(0);
        }
        let penalty = self.slot_penalty_mult.checked_mul(slot_diff)?;
        if is_base_to_quote {
            self.b2q_tiered(net, slot_diff)
        } else {
            self.q2b_tiered(net, penalty > 0, slot_diff)
        }
    }

    /// The base tokens that a trade size is worth.
    pub open spec fn tier_base_amount(self, tier: TierInput) -> Option<int> {
        if self.version >= 3 {
            match tier.base_amount {
                Some(b) => Some(b as int),
                None => Some(0),
            }
        } else if self.fp_val == 0 {
            Some(0)
        } else {
            let scaled = tier.micro_usd * self.decimal_scale;
            if fits_u128(scaled) && fits_u128(scaled * 0x1_0000_0000_0000) {
                Some(wrap64((scaled * 0x1_0000_0000_0000) / self.fp_val as int))
            } else {
                None
            }
        }
    }

    fn get_tier_base_amount(&self, tier: &TierInput) -> (r: Option<u64>)
        ensures
            r is Some == self.tier_base_amount(*tier) is Some,
            r is Some ==> r->0 == self.tier_base_amount(*tier)->0,
    {
        if self.version >= 3 {
            match tier.base_amount {
                Some(b) => Some(b),
                None => Some(0),
            }
        } else if self.fp_val == 0 {
            Some(0)
        } else {
            let scaled = tier.micro_usd.checked_mul(self.decimal_scale as u128)?.checked_mul(0x1_0000_0000_0000)?;
            Some(low64(scaled / self.fp_val as u128))
        }
    }
}

/// A pool that is more than 100 slots old pays nothing for a trade size.
pub proof fn law_stale_pool_pays_nothing(s: BisonFiState, amount: int, b2q: bool, slot: int)
    requires
        slot > s.pool_slot + 100,
    ensures
        s.quote(amount, b2q, slot) == Some(0int),
{
}

#[derive(Clone, Copy, Debug, PartialEq, Eq, Structural)]
pub struct BisonFiReplay {
    pub state: BisonFiState,
    pub has_pool: bool,
    pub has_base_vault: bool,
    pub has_quote_vault: bool,
}

impl BisonFiReplay {
    pub open spec fn fresh() -> Self {
        BisonFiReplay { state: no_state(), has_pool: false, has_base_vault: false, has_quote_vault: false }
    }

    pub fn new() -> (r: Self)
        ensures
            r == Self::fresh(),
    {
        BisonFiReplay {
            state: BisonFiState::default(),
            has_pool: false,
            has_base_vault: false,
            has_quote_vault: false,
        }
    }

    /// Whether an update can be read without running past its end.
    pub open spec fn accepts(role: Seq<char>, data: Seq<u8>) -> bool {
        role == "pool"@ ==> readable(data)
    }

    pub fn can_apply(role: &str, data: &[u8]) -> (r: bool)
        ensures
            r == Self::accepts(role@, data@),
    {
        if str_eq(role, "pool") {
            is_readable(data)
        } else {
            true
        }
    }

    /// The replay after an account update; unknown roles and rejected data
    /// leave it as it is.
    #[verifier::opaque]
    pub open spec fn updated(self, role: Seq<char>, data: Seq<u8>) -> Self {
        if role == "pool"@ {
            match self.state.with_pool_data(data) {
                Ok(state) => BisonFiReplay { state, has_pool: true, ..self },
                Err(_) => self,
            }
        } else if role == "base_vault"@ {
            match token_balance(data) {
                Some(b) => BisonFiReplay {
                    state: BisonFiState { base_amount: b, ..self.state },
                    has_base_vault: true,
                    ..self
                },
                None => self,
            }
        } else if role == "quote_vault"@ {
            match token_balance(data) {
                Some(b) => BisonFiReplay {
                    state: BisonFiState { quote_amount: b, ..self.state },
                    has_quote_vault: true,
                    ..self
                },
                None => self,
            }
        } else {
            self
        }
    }

    pub fn apply_update(&mut self, role: &str, data: &[u8])
        requires
            Self::accepts(role@, data@),
        ensures
            *final(self) == old(self).updated(role@, data@),
    {
        proof {
            reveal(BisonFiReplay::updated);
        }
        if str_eq(role, "pool") {
            if self.state.update_from_pool_data(data).is_ok() {
                self.has_pool = true;
            }
        } else if str_eq(role, "base_vault") {
            if let Some(b) = read_token_balance(data) {
                self.state.base_amount = b;
                self.has_base_vault = true;
            }
        } else if str_eq(role, "quote_vault") {
            if let Some(b) = read_token_balance(data) {
                self.state.quote_amount = b;
                self.has_quote_vault = true;
            }
        }
    }

    pub open spec fn ready(self) -> bool {
        self.has_pool && self.has_base_vault && self.has_quote_vault
    }

    pub fn is_ready(&self) -> (r: bool)
        ensures
            r == self.ready(),
    {
        self.has_pool && self.has_base_vault && self.has_quote_vault
    }

    pub open spec fn balances(self) -> Option<(u64, u64)> {
        if self.has_base_vault && self.has_quote_vault {
            Some((self.state.base_amount, self.state.quote_amount))
        } else {
            None
        }
    }

    pub fn vault_balances(&self) -> (r: Option<(u64, u64)>)
        ensures
            r == self.balances(),
    {
        if self.has_base_vault && self.has_quote_vault {
            Some((self.state.base_amount, self.state.quote_amount))
        } else {
            None
        }
    }

    /// The positive amount out for an amount in; the inner option is empty
    /// where there is none.
    #[verifier::opaque]
    pub open spec fn single(self, amount: int, direction: Seq<char>, slot: int) -> Option<Option<u64>> {
        if !self.ready() || amount == 0 {
            Some(None)
        } else if self.state.version >= 3 {
            positive(self.state.quote_v3(amount, direction == "B2Q"@, slot))
        } else {
            positive(self.state.quote(amount, direction == "B2Q"@, slot))
        }
    }

    pub fn try_quote_single(&self, input_amount: u64, direction: &str, slot: u64) -> (r: Option<Option<u64>>)
        ensures
            r == self.single(input_amount as int, direction@, slot as int),
    {
        proof {
            reveal(BisonFiReplay::single);
        }
        if !self.is_ready() || input_amount == 0 {
            return Some(None);
        }
        let b2q = is_b2q(direction);
        let out = if self.state.version >= 3 {
            self.state.get_quote_v3(input_amount, b2q, slot)?
        } else {
            self.state.get_quote(input_amount, b2q, slot)?
        };
        if out > 0 {
            Some(Some(out))
        } else {
            Some(None)
        }
    }

    /// The quotes of a trade size.
    #[verifier::opaque]
    pub open spec fn tier_quotes(self, slot: int, tier: TierInput) -> Option<TierQuotes> {
        if !self.ready() {
            Some(TierQuotes::nothing())
        } else {
            match self.state.tier_base_amount(tier) {
                None => None,
                Some(base) => {
                    let b2q = quoted(base, self.state.quote(base, true, slot));
                    let quote = tier.quote_amount() as int;
                    let q2b = quoted(quote, self.state.quote(quote, false, slot));
                    if b2q is Some && q2b is Some {
                        Some(TierQuotes { b2q, q2b })
                    } else {
                        None
                    }
                },
            }
        }
    }

    pub fn try_tier_quotes(&self, slot: u64, tier: &TierInput) -> (r: Option<TierQuotes>)
        ensures
            r == self.tier_quotes(slot as int, *tier),
    {
        proof {
            reveal(BisonFiReplay::tier_quotes);
        }
        if !self.is_ready() {
            return Some(TierQuotes::none());
        }
        let b2q_input = self.state.get_tier_base_amount(tier)?;
        let b2q_output = self.state.get_quote(b2q_input, true, slot)?;
        let q2b_input = tier.get_quote_amount();
        let q2b_output = self.state.get_quote(q2b_input, false, slot)?;
        Some(
            TierQuotes {
                b2q: Some(Quote { input: b2q_input, output: b2q_output }),
                q2b: Some(Quote { input: q2b_input, output: q2b_output }),
            },
        )
    }
}

}
