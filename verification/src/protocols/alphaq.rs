//! The AlphaQ pool: a price with a premium for the pool's inventory and the
//! size of the trade.
use vstd::prelude::*;

use super::goonfi::state::{lemma_pow10_grows, pow10};
use super::quotes::{positive, quoted, Quote, TierInput, TierQuotes};
use crate::bytes::{read_token_balance, read_u64_le, str_eq, token_balance, u64_at};
use crate::num::{
    ceil_div, div_ceil_u128, fits_u128, iabs, imin, is_isqrt, isqrt, isqrt_of, low64, min_u128, monus, wrap64,
};

verus! {

pub const PRICE_SCALE: u128 = 10_000_000_000;

pub const Q_SCALE: u128 = 1_000_000_000_000;

pub const ISQRT_DIVISOR: u128 = 100_000_000_000_000;

/// The shortest market account.
pub const MIN_MARKET_SIZE: usize = 0x1f0;

#[derive(Debug, Clone, Copy, PartialEq, Eq, Structural)]
pub struct AlphaQState {
    pub base_amount: u64,
    pub quote_amount: u64,
    pub p: u64,
    pub qq: u64,
    pub qb: u64,
    pub q_flat: u64,
    pub l: u64,
    pub d: u64,
    pub f: u64,
    pub k: u64,
    pub scale2: u64,
    pub mint_a_decimals: u8,
    pub mint_b_decimals: u8,
}

/// Market data that is too short.
#[derive(Clone, Copy, Debug, PartialEq, Eq, Structural)]
pub struct AlphaQTooSmall;

impl AlphaQTooSmall {
    pub fn message(&self) -> (r: &'static str)
        ensures
            r@ == "AlphaQ market data too small"@,
    {
        "AlphaQ market data too small"
    }
}

/// The state before any update.
pub open spec fn no_state() -> AlphaQState {
    AlphaQState {
        base_amount: 0,
        quote_amount: 0,
        p: 0,
        qq: 0,
        qb: 0,
        q_flat: 0,
        l: 0,
        d: 0,
        f: 0,
        k: 0,
        scale2: 0,
        mint_a_decimals: 0,
        mint_b_decimals: 0,
    }
}

impl Default for AlphaQState {
    fn default() -> (r: Self)
        ensures
            r == no_state(),
    {
        AlphaQState {
            base_amount: 0,
            quote_amount: 0,
            p: 0,
            qq: 0,
            qb: 0,
            q_flat: 0,
            l: 0,
            d: 0,
            f: 0,
            k: 0,
            scale2: 0,
            mint_a_decimals: 0,
            mint_b_decimals: 0,
        }
    }
}

/// Ten to a power; nothing where it needs more than 128 bits.
fn power_of_ten(n: u32) -> (r: Option<u128>)
    ensures
        r is Some == fits_u128(pow10(n as nat)),
        r is Some ==> r->0 == pow10(n as nat),
{
    let mut r: u128 = 1;
    let mut i: u32 = 0;
    while i < n
        invariant
            i <= n,
            r == pow10(i as nat),
        decreases n - i,
    {
        r = match r.checked_mul(10) {
            Some(x) => x,
            None => {
                proof {
                    lemma_pow10_grows((i + 1) as nat, n as nat);
                }
                return None;
            },
        };
        i = i + 1;
    }
    proof {
        lemma_pow10_grows(0, n as nat);
    }
    Some(r)
}

impl AlphaQState {
    /// The state that market data leaves behind.
    pub open spec fn with_market_data(self, d: Seq<u8>) -> Result<Self, AlphaQTooSmall> {
        if d.len() < MIN_MARKET_SIZE {
            Err(AlphaQTooSmall)
        } else {
            Ok(
                AlphaQState {
                    mint_a_decimals: d[0x6a],
                    mint_b_decimals: d[0x6b],
                    l: u64_at(d, 0x168) as u64,
                    q_flat: u64_at(d, 0x198) as u64,
                    p: u64_at(d, 0x1a8) as u64,
                    qq: u64_at(d, 0x1b0) as u64,
                    qb: u64_at(d, 0x1b8) as u64,
                    d: u64_at(d, 0x1d0) as u64,
                    f: u64_at(d, 0x1d8) as u64,
                    scale2: u64_at(d, 0x1e0) as u64,
                    k: u64_at(d, 0x1e8) as u64,
                    ..self
                },
            )
        }
    }

    pub fn update_from_market_data(&mut self, data: &[u8]) -> (r: Result<(), AlphaQTooSmall>)
        ensures
            match old(self).with_market_data(data@) {
                Ok(s) => r is Ok && *final(self) == s,
                Err(e) => r == Err::<(), AlphaQTooSmall>(e) && *final(self) == *old(self),
            },
    {
        if data.len() < MIN_MARKET_SIZE {
            return Err(AlphaQTooSmall);
        }
        self.mint_a_decimals = data[0x6a];
        self.mint_b_decimals = data[0x6b];
        self.l = read_u64_le(data, 0x168);
        self.q_flat = read_u64_le(data, 0x198);
        self.p = read_u64_le(data, 0x1a8);
        self.qq = read_u64_le(data, 0x1b0);
        self.qb = read_u64_le(data, 0x1b8);
        self.d = read_u64_le(data, 0x1d0);
        self.f = read_u64_le(data, 0x1d8);
        self.scale2 = read_u64_le(data, 0x1e0);
        self.k = read_u64_le(data, 0x1e8);
        Ok(())
    }

    /// The scale of the price, which carries the difference of the decimals;
    /// nothing where it needs more than 128 bits.
    pub open spec fn price_scale(self) -> Option<int> {
        let diff = monus(self.mint_a_decimals as int, self.mint_b_decimals as int);
        let scale = 10_000_000_000 * pow10(diff as nat);
        if fits_u128(pow10(diff as nat)) && fits_u128(scale) {
            Some(scale)
        } else {
            None
        }
    }

    fn get_price_scale(&self) -> (r: Option<u128>)
        ensures
            r is Some == self.price_scale() is Some,
            r is Some ==> r->0 == self.price_scale()->0 && r->0 > 0,
    {
        let diff: u32 = if self.mint_a_decimals > self.mint_b_decimals {
            (self.mint_a_decimals - self.mint_b_decimals) as u32
        } else {
            0
        };
        let power = power_of_ten(diff)?;
        proof {
            lemma_pow10_grows(diff as nat, diff as nat);
        }
        PRICE_SCALE.checked_mul(power)
    }

    /// The divisor of the quadratic terms; nothing where it needs more than
    /// 128 bits.
    pub open spec fn quad_divisor(self) -> Option<int> {
        let most = if self.mint_a_decimals >= self.mint_b_decimals {
            self.mint_a_decimals
        } else {
            self.mint_b_decimals
        };
        let d = pow10((5 + 2 * most) as nat);
        if fits_u128(d) {
            Some(d)
        } else {
            None
        }
    }

    fn get_quad_divisor(&self) -> (r: Option<u128>)
        ensures
            r is Some == self.quad_divisor() is Some,
            r is Some ==> r->0 == self.quad_divisor()->0 && r->0 >= 100_000,
    {
        let most: u8 = if self.mint_a_decimals >= self.mint_b_decimals {
            self.mint_a_decimals
        } else {
            self.mint_b_decimals
        };
        let n: u32 = 5 + 2 * most as u32;
        proof {
            reveal_with_fuel(pow10, 6);
            assert(pow10(5) == 100_000);
            lemma_pow10_grows(5, n as nat);
        }
        power_of_ten(n)
    }

    /// A quadratic term; zero where the product needs more than 128 bits.
    pub open spec fn quadratic(x: int, factor: int, divisor: int) -> int {
        if fits_u128(x * x) && fits_u128((x * x) * factor) {
            ((x * x) * factor) / divisor
        } else {
            0
        }
    }

    fn get_quadratic(x: u128, factor: u64, divisor: u128) -> (r: u128)
        requires
            divisor >= 100_000,
        ensures
            r == Self::quadratic(x as int, factor as int, divisor as int),
            r <= u128::MAX / 100_000,
    {
        match x.checked_mul(x) {
            None => 0,
            Some(square) => match square.checked_mul(factor as u128) {
                None => 0,
                Some(n) => {
                    proof {
                        vstd::arithmetic::div_mod::lemma_div_is_ordered_by_denominator(n as int, 100_000, divisor as int);
                    }
                    n / divisor
                },
            },
        }
    }

    /// A square-root term; nothing where the radicand needs more than 128
    /// bits.
    pub open spec fn root_term(x: int, factor: int) -> Option<int> {
        if fits_u128(x * 1_000_000_000_000) {
            Some((isqrt_of(x * 1_000_000_000_000) * factor) / 100_000_000_000_000)
        } else {
            None
        }
    }

    fn get_root_term(x: u128, factor: u64) -> (r: Option<u128>)
        ensures
            r is Some == Self::root_term(x as int, factor as int) is Some,
            r is Some ==> r->0 == Self::root_term(x as int, factor as int)->0,
            r is Some ==> r->0 <= u128::MAX / 100_000,
    {
        let n = x.checked_mul(Q_SCALE)?;
        let root = isqrt(n);
        proof {
            assert(root <= u64::MAX) by (nonlinear_arith)
                requires
                    root * root <= n,
                    n <= u128::MAX,
                    root >= 0,
            ;
            assert(0 <= root * factor <= u64::MAX * u64::MAX) by (nonlinear_arith)
                requires
                    0 <= root <= u64::MAX,
                    0 <= factor <= u64::MAX,
            ;
        }
        Some(root * factor as u128 / ISQRT_DIVISOR)
    }

    /// How far the value of the base reserve lies below its target.
    pub open spec fn shortfall(self, scale: int) -> int {
        self.l - (self.base_amount * self.p) / scale
    }

    /// The premium for the inventory, with the sign of the shortfall.
    pub open spec fn inventory_premium(self, scale: int, divisor: int) -> Option<int> {
        let gap = self.shortfall(scale);
        let distance = iabs(gap);
        let capped = if self.l > 0 {
            imin(distance, self.l as int)
        } else {
            distance
        };
        match Self::root_term(distance, imin(self.d as int, 10_000_000_000)) {
            None => None,
            Some(d_term) => {
                let sum = d_term + Self::quadratic(capped, self.f as int, divisor);
                if gap >= 0 {
                    Some(sum)
                } else {
                    Some(-sum)
                }
            },
        }
    }

    fn get_inventory_premium(&self, scale: u128, divisor: u128) -> (r: Option<i128>)
        requires
            scale > 0,
            divisor >= 100_000,
        ensures
            r is Some == self.inventory_premium(scale as int, divisor as int) is Some,
            r is Some ==> r->0 == self.inventory_premium(scale as int, divisor as int)->0,
            r is Some ==> -0x1000_0000_0000_0000_0000_0000_0000_0000 <= r->0
                <= 0x1000_0000_0000_0000_0000_0000_0000_0000,
    {
        proof {
            lemma_u64_product(self.base_amount as int, self.p as int);
        }
        let inventory = self.base_amount as u128 * self.p as u128 / scale;
        let l = self.l as u128;
        let short = l >= inventory;
        let distance = crate::num::abs_diff_u128(l, inventory);
        let d: u64 = crate::num::min_u64(self.d, 10_000_000_000);
        let d_term = Self::get_root_term(distance, d)?;
        let capped = if self.l > 0 {
            min_u128(distance, l)
        } else {
            distance
        };
        let f_term = Self::get_quadratic(capped, self.f, divisor);
        let sum = (d_term + f_term) as i128;
        if short {
            Some(sum)
        } else {
            Some(-sum)
        }
    }

    /// The premium for the size of a trade.
    pub open spec fn size_premium(self, size: int, divisor: int) -> Option<int> {
        match Self::root_term(size, self.scale2 as int) {
            None => None,
            Some(root) => Some(root + Self::quadratic(size, self.k as int, divisor)),
        }
    }

    fn get_size_premium(&self, size: u128, divisor: u128) -> (r: Option<i128>)
        requires
            divisor >= 100_000,
        ensures
            r is Some == self.size_premium(size as int, divisor as int) is Some,
            r is Some ==> r->0 == self.size_premium(size as int, divisor as int)->0,
            r is Some ==> 0 <= r->0 <= 0x1000_0000_0000_0000_0000_0000_0000_0000,
    {
        let root = Self::get_root_term(size, self.scale2)?;
        let k_term = Self::get_quadratic(size, self.k, divisor);
        Some((root + k_term) as i128)
    }

    /// The lower of the premium price's and the flat price's outcome.
    pub open spec fn sold(self, amount: int, scale: int, divisor: int) -> Option<int> {
        let p = self.p as int;
        let size = (amount * p) / scale;
        match (self.inventory_premium(scale, divisor), self.size_premium(size, divisor)) {
            (Some(inventory), Some(premium)) => {
                let q = self.qq - premium + inventory;
                let price = (q * p) / 1_000_000_000_000;
                let flat = (2_000_000_000_000 - self.q_flat) * p / 1_000_000_000_000;
                if q <= 0 {
                    Some(0)
                } else if fits_u128(q * p) && fits_u128(amount * price) && self.q_flat <= 2_000_000_000_000
                    && fits_u128(amount * flat) {
                    Some(wrap64(imin((amount * price) / scale, (amount * flat) / scale)))
                } else {
                    None
                }
            },
            _ => None,
        }
    }

    fn get_sold(&self, amount: u64, scale: u128, divisor: u128) -> (r: Option<u64>)
        requires
            scale > 0,
            divisor >= 100_000,
        ensures
            r is Some == self.sold(amount as int, scale as int, divisor as int) is Some,
            r is Some ==> r->0 == self.sold(amount as int, scale as int, divisor as int)->0,
    {
        let p = self.p as u128;
        proof {
            lemma_u64_product(amount as int, p as int);
        }
        let inventory = self.get_inventory_premium(scale, divisor)?;
        let size = amount as u128 * p / scale;
        let premium = self.get_size_premium(size, divisor)?;
        let q: i128 = self.qq as i128 - premium + inventory;
        if q <= 0 {
            return Some(0);
        }
        let price = (q as u128).checked_mul(p)? / Q_SCALE;
        let complex = (amount as u128).checked_mul(price)? / scale;
        let rest = 2_000_000_000_000u128.checked_sub(self.q_flat as u128)?;
        proof {
            lemma_u64_product(rest as int, p as int);
        }
        let flat_price = rest * p / Q_SCALE;
        let flat = (amount as u128).checked_mul(flat_price)? / scale;
        Some(low64(min_u128(complex, flat)))
    }

    /// The lower of the premium price's and the flat price's outcome.
    pub open spec fn bought(self, amount: int, scale: int, divisor: int) -> Option<int> {
        let p = self.p as int;
        match (self.inventory_premium(scale, divisor), self.size_premium(amount, divisor)) {
            (Some(inventory), Some(premium)) => {
                let q = self.qb + premium + inventory;
                let price = ceil_div(q * p, 1_000_000_000_000);
                let flat = ceil_div(self.q_flat * p, 1_000_000_000_000);
                if q <= 0 {
                    Some(0)
                } else if !fits_u128(q * p) {
                    None
                } else if price == 0 {
                    Some(0)
                } else if !fits_u128(amount * scale) {
                    None
                } else {
                    Some(
                        wrap64(
                            imin(
                                (amount * scale) / price,
                                if flat > 0 {
                                    (amount * scale) / flat
                                } else {
                                    0
                                },
                            ),
                        ),
                    )
                }
            },
            _ => None,
        }
    }

    fn get_bought(&self, amount: u64, scale: u128, divisor: u128) -> (r: Option<u64>)
        requires
            scale > 0,
            divisor >= 100_000,
        ensures
            r is Some == self.bought(amount as int, scale as int, divisor as int) is Some,
            r is Some ==> r->0 == self.bought(amount as int, scale as int, divisor as int)->0,
    {
        let p = self.p as u128;
        let inventory = self.get_inventory_premium(scale, divisor)?;
        let premium = self.get_size_premium(amount as u128, divisor)?;
        let q: i128 = self.qb as i128 + premium + inventory;
        if q <= 0 {
            return Some(0);
        }
        let price = div_ceil_u128((q as u128).checked_mul(p)?, Q_SCALE);
        if price == 0 {
            return Some(0);
        }
        let scaled = (amount as u128).checked_mul(scale)?;
        let complex = scaled / price;
        proof {
            lemma_u64_product(self.q_flat as int, p as int);
        }
        let flat_price = div_ceil_u128(self.q_flat as u128 * p, Q_SCALE);
        let flat = if flat_price > 0 {
            scaled / flat_price
        } else {
            0
        };
        Some(low64(min_u128(complex, flat)))
    }

    /// The amount out; zero for nothing in and for an empty pool. Nothing
    /// where a number leaves its machine type.
    pub open spec fn quote(self, amount: int, is_b2q: bool) -> Option<int> {
        if amount == 0 || self.p == 0 || self.base_amount == 0 || self.quote_amount == 0 {
            Some(0)
        } else {
            match (self.price_scale(), self.quad_divisor()) {
                (Some(scale), Some(divisor)) => if is_b2q {
                    self.sold(amount, scale, divisor)
                } else {
                    self.bought(amount, scale, divisor)
                },
                _ => None,
            }
        }
    }

    pub fn get_quote(&self, amount_in: u64, is_base_to_quote: bool) -> (r: Option<u64>)
        ensures
            r is Some == self.quote(amount_in as int, is_base_to_quote) is Some,
            r is Some ==> r->0 == self.quote(amount_in as int, is_base_to_quote)->0,
    {
        if amount_in == 0 || self.p == 0 || self.base_amount == 0 || self.quote_amount == 0 {
            return Some(0);
        }
        let scale = self.get_price_scale()?;
        let divisor = self.get_quad_divisor()?;
        if is_base_to_quote {
            self.get_sold(amount_in, scale, divisor)
        } else {
            self.get_bought(amount_in, scale, divisor)
        }
    }
}

proof fn lemma_u64_product(a: int, b: int)
    requires
        0 <= a <= u64::MAX,
        0 <= b <= u64::MAX,
    ensures
        0 <= a * b <= u64::MAX * u64::MAX,
{
    assert(0 <= a * b <= u64::MAX * u64::MAX) by (nonlinear_arith)
        requires
            0 <= a <= u64::MAX,
            0 <= b <= u64::MAX,
    ;
}

#[derive(Clone, Copy, Debug, PartialEq, Eq, Structural)]
pub struct AlphaQReplay {
    pub state: AlphaQState,
    pub has_pool: bool,
    pub has_base_vault: bool,
    pub has_quote_vault: bool,
}

impl AlphaQReplay {
    pub open spec fn fresh() -> Self {
        AlphaQReplay { state: no_state(), has_pool: false, has_base_vault: false, has_quote_vault: false }
    }

    pub fn new() -> (r: Self)
        ensures
            r == Self::fresh(),
    {
        AlphaQReplay {
            state: AlphaQState::default(),
            has_pool: false,
            has_base_vault: false,
            has_quote_vault: false,
        }
    }

    /// The replay after an account update; unknown roles and rejected data
    /// leave it as it is.
    #[verifier::opaque]
    pub open spec fn updated(self, role: Seq<char>, data: Seq<u8>) -> Self {
        if role == "pool"@ {
            match self.state.with_market_data(data) {
                Ok(state) => AlphaQReplay { state, has_pool: true, ..self },
                Err(_) => self,
            }
        } else if role == "base_vault"@ {
            match token_balance(data) {
                Some(b) => AlphaQReplay {
                    state: AlphaQState { base_amount: b, ..self.state },
                    has_base_vault: true,
                    ..self
                },
                None => self,
            }
        } else if role == "quote_vault"@ {
            match token_balance(data) {
                Some(b) => AlphaQReplay {
                    state: AlphaQState { quote_amount: b, ..self.state },
                    has_quote_vault: true,
                    ..self
                },
                None => self,
            }
        } else {
            self
        }
    }

    pub fn apply_update(&mut self, role: &str, data: &[u8])
        ensures
            *final(self) == old(self).updated(role@, data@),
    {
        proof {
            reveal(AlphaQReplay::updated);
        }
        if str_eq(role, "pool") {
            if self.state.update_from_market_data(data).is_ok() {
                self.has_pool = true;
            }
        } else if str_eq(role, "base_vault") {
            if let Some(b) = read_token_balance(data) {
                self.state.base_amount = b;
                self.has_base_vault = true;
            }
        } else if str_eq(role, "quote_vault") {
            if let Some(b) = read_token_balance(data) {
                self.state.quote_amount = b;
                self.has_quote_vault = true;
            }
        }
    }

    pub open spec fn ready(self) -> bool {
        self.has_pool && self.has_base_vault && self.has_quote_vault
    }

    pub fn is_ready(&self) -> (r: bool)
        ensures
            r == self.ready(),
    {
        self.has_pool && self.has_base_vault && self.has_quote_vault
    }

    pub open spec fn balances(self) -> Option<(u64, u64)> {
        if self.has_base_vault && self.has_quote_vault {
            Some((self.state.base_amount, self.state.quote_amount))
        } else {
            None
        }
    }

    pub fn vault_balances(&self) -> (r: Option<(u64, u64)>)
        ensures
            r == self.balances(),
    {
        if self.has_base_vault && self.has_quote_vault {
            Some((self.state.base_amount, self.state.quote_amount))
        } else {
            None
        }
    }

    /// The positive amount out for an amount in; the inner option is empty
    /// where there is none. The pool's own base token is the other one, so
    /// that the direction is turned round.
    #[verifier::opaque]
    pub open spec fn single(self, amount: int, direction: Seq<char>) -> Option<Option<u64>> {
        if !self.ready() || amount == 0 {
            Some(None)
        } else {
            positive(self.state.quote(amount, direction == "Q2B"@))
        }
    }

    pub fn try_quote_single(&self, input_amount: u64, direction: &str) -> (r: Option<Option<u64>>)
        ensures
            r == self.single(input_amount as int, direction@),
    {
        proof {
            reveal(AlphaQReplay::single);
        }
        if !self.is_ready() || input_amount == 0 {
            return Some(None);
        }
        let out = self.state.get_quote(input_amount, str_eq(direction, "Q2B"))?;
        if out > 0 {
            Some(Some(out))
        } else {
            Some(None)
        }
    }

    /// The quotes of a trade size; none into base tokens without a price.
    #[verifier::opaque]
    pub open spec fn tier_quotes(self, tier: TierInput) -> Option<TierQuotes> {
        let quote = tier.quote_amount() as int;
        let b2q = quoted(quote, self.state.quote(quote, true));
        if !self.ready() {
            Some(TierQuotes::nothing())
        } else if b2q is None {
            None
        } else if self.state.p == 0 {
            Some(TierQuotes { b2q, q2b: None })
        } else {
            match self.state.price_scale() {
                None => None,
                Some(scale) => {
                    let base = wrap64((tier.micro_usd * scale) / self.state.p as int);
                    let q2b = quoted(base, self.state.quote(base, false));
                    if fits_u128(tier.micro_usd * scale) && q2b is Some {
                        Some(TierQuotes { b2q, q2b })
                    } else {
                        None
                    }
                },
            }
        }
    }

    pub fn try_tier_quotes(&self, tier: &TierInput) -> (r: Option<TierQuotes>)
        ensures
            r == self.tier_quotes(*tier),
    {
        proof {
            reveal(AlphaQReplay::tier_quotes);
        }
        if !self.is_ready() {
            return Some(TierQuotes::none());
        }
        let input = tier.get_quote_amount();
        let output = self.state.get_quote(input, true)?;
        let b2q = Some(Quote { input, output });
        let q2b = if self.state.p > 0 {
            let scale = self.state.get_price_scale()?;
            let input = low64(tier.micro_usd.checked_mul(scale)? / self.state.p as u128);
            let output = self.state.get_quote(input, false)?;
            Some(Quote { input, output })
        } else {
            None
        };
        Some(TierQuotes { b2q, q2b })
    }
}

proof fn lemma_root_not_negative(x: int, factor: int)
    requires
        0 <= x,
        0 <= factor,
        fits_u128(x * 1_000_000_000_000),
    ensures
        AlphaQState::root_term(x, factor) is Some,
        AlphaQState::root_term(x, factor)->0 >= 0,
        x == 0 ==> AlphaQState::root_term(x, factor)->0 == 0,
{
    let n = x * 1_000_000_000_000;
    lemma_isqrt_exists(n);
    let r = isqrt_of(n);
    assert(is_isqrt(n, r));
    assert(r * factor >= 0) by (nonlinear_arith)
        requires
            r >= 0,
            factor >= 0,
    ;
    if x == 0 {
        assert(r == 0) by (nonlinear_arith)
            requires
                r >= 0,
                r * r <= 0,
        ;
        assert(r * factor == 0) by (nonlinear_arith)
            requires
                r == 0,
        ;
    }
}

proof fn lemma_isqrt_exists(n: int)
    requires
        n >= 0,
    ensures
        exists|r: int| is_isqrt(n, r),
    decreases n,
{
    if n == 0 {
        assert(is_isqrt(0, 0));
    } else {
        lemma_isqrt_exists(n - 1);
        let m = n - 1;
        let r = choose|r: int| is_isqrt(m, r);
        if (r + 1) * (r + 1) <= n {
            assert((r + 2) * (r + 2) > n) by (nonlinear_arith)
                requires
                    (r + 1) * (r + 1) > n - 1,
                    r >= 0,
            ;
            assert(is_isqrt(n, r + 1));
        } else {
            assert(is_isqrt(n, r));
        }
    }
}

proof fn lemma_quadratic_not_negative(x: int, factor: int, divisor: int)
    requires
        0 <= x,
        0 <= factor,
        0 < divisor,
    ensures
        AlphaQState::quadratic(x, factor, divisor) >= 0,
        x == 0 ==> AlphaQState::quadratic(x, factor, divisor) == 0,
{
    assert(x * x >= 0) by (nonlinear_arith);
    let sq = x * x;
    assert(sq * factor >= 0) by (nonlinear_arith)
        requires
            sq >= 0,
            factor >= 0,
    ;
    vstd::arithmetic::div_mod::lemma_div_pos_is_pos(sq * factor, divisor);
    if x == 0 {
        assert(sq * factor == 0) by (nonlinear_arith)
            requires
                sq == x * x,
                x == 0,
        ;
        vstd::arithmetic::div_mod::lemma_basic_div(0, divisor);
    }
}

/// A pool whose base tokens are worth less than its target pays a premium for
/// them, and one whose tokens are worth more takes a discount; at its target it
/// does neither.
pub proof fn law_inventory_premium_follows_the_target(s: AlphaQState, scale: int, divisor: int, premium: int)
    requires
        0 < scale,
        0 < divisor,
        s.inventory_premium(scale, divisor) == Some(premium),
    ensures
        (s.base_amount * s.p) / scale <= s.l ==> premium >= 0,
        (s.base_amount * s.p) / scale >= s.l ==> premium <= 0,
{
    let gap = s.shortfall(scale);
    let distance = iabs(gap);
    let factor = imin(s.d as int, 10_000_000_000);
    let capped = if s.l > 0 {
        imin(distance, s.l as int)
    } else {
        distance
    };
    lemma_root_not_negative(distance, factor);
    lemma_quadratic_not_negative(capped, s.f as int, divisor);
}

/// The size of a trade is never in the trader's favour.
pub proof fn law_size_is_a_cost(s: AlphaQState, size: int, divisor: int, premium: int)
    requires
        0 <= size,
        0 < divisor,
        s.size_premium(size, divisor) == Some(premium),
    ensures
        premium >= 0,
        size == 0 ==> premium == 0,
{
    lemma_root_not_negative(size, s.scale2 as int);
    lemma_quadratic_not_negative(size, s.k as int, divisor);
}

/// A pool never trades at a better price than its flat one: what comes out for
/// what goes in stays within the flat price of its side.
pub proof fn law_flat_price_is_the_best(s: AlphaQState, amount: int, scale: int, divisor: int, out: int)
    requires
        0 <= amount,
        0 < scale,
        s.q_flat <= 2_000_000_000_000,
    ensures
        s.sold(amount, scale, divisor) == Some(out) ==> out >= 0 && out * scale <= amount * ((2_000_000_000_000
            - s.q_flat) * s.p / 1_000_000_000_000),
        s.bought(amount, scale, divisor) == Some(out) ==> out >= 0 && out * ceil_div(
            s.q_flat * s.p,
            1_000_000_000_000,
        ) <= amount * scale,
{
    let p = s.p as int;
    let low = (2_000_000_000_000 - s.q_flat) * p / 1_000_000_000_000;
    let high = ceil_div(s.q_flat * p, 1_000_000_000_000);
    assert((2_000_000_000_000 - s.q_flat) * p >= 0 && s.q_flat * p >= 0) by (nonlinear_arith)
        requires
            s.q_flat <= 2_000_000_000_000,
            s.q_flat >= 0,
            p >= 0,
    ;
    assert(low >= 0 && high >= 0);
    assert(amount * low >= 0 && amount * scale >= 0) by (nonlinear_arith)
        requires
            amount >= 0,
            low >= 0,
            scale >= 0,
    ;
    lemma_flat(amount * low, scale);
    if high > 0 {
        lemma_flat(amount * scale, high);
    }
    if s.sold(amount, scale, divisor) == Some(out) {
        if out > 0 {
            let size = (amount * p) / scale;
            let q = s.qq - s.size_premium(size, divisor)->0 + s.inventory_premium(scale, divisor)->0;
            let price = (q * p) / 1_000_000_000_000;
            assert(q * p >= 0) by (nonlinear_arith)
                requires
                    q > 0,
                    p >= 0,
            ;
            assert(amount * price >= 0) by (nonlinear_arith)
                requires
                    amount >= 0,
                    price >= 0,
            ;
            lemma_flat(amount * price, scale);
            let least = imin((amount * price) / scale, (amount * low) / scale);
            assert(out == wrap64(least));
            assert(out <= least);
            assert(out * scale <= amount * low) by (nonlinear_arith)
                requires
                    out <= (amount * low) / scale,
                    ((amount * low) / scale) * scale <= amount * low,
                    scale > 0,
            ;
        } else {
            assert(out * scale <= 0) by (nonlinear_arith)
                requires
                    out <= 0,
                    scale > 0,
            ;
        }
    }
    if s.bought(amount, scale, divisor) == Some(out) {
        if out > 0 {
            let q = s.qb + s.size_premium(amount, divisor)->0 + s.inventory_premium(scale, divisor)->0;
            let price = ceil_div(q * p, 1_000_000_000_000);
            assert(q * p >= 0) by (nonlinear_arith)
                requires
                    q > 0,
                    p >= 0,
            ;
            assert(price > 0);
            lemma_flat(amount * scale, price);
            let capped = if high > 0 {
                (amount * scale) / high
            } else {
                0
            };
            let least = imin((amount * scale) / price, capped);
            assert(out == wrap64(least));
            assert(out <= least);
            assert(high > 0);
            assert(out * high <= amount * scale) by (nonlinear_arith)
                requires
                    out <= (amount * scale) / high,
                    ((amount * scale) / high) * high <= amount * scale,
                    high > 0,
            ;
        } else {
            assert(out * high <= 0) by (nonlinear_arith)
                requires
                    out <= 0,
                    high >= 0,
            ;
        }
    }
}

proof fn lemma_flat(n: int, d: int)
    requires
        n >= 0,
        d > 0,
    ensures
        0 <= n / d,
        (n / d) * d <= n,
{
    vstd::arithmetic::div_mod::lemma_fundamental_div_mod(n, d);
    vstd::arithmetic::div_mod::lemma_div_pos_is_pos(n, d);
    assert((n / d) * d == d * (n / d)) by (nonlinear_arith);
}

}
