//! What the accounts of the pools hold.
use vstd::prelude::*;

use super::bisonfi::BisonFiReplay;
use super::goonfi::GoonFiReplay;
use super::humidifi::params::{
    ACTIVATION_THRESHOLD_KEY, FIELD_0X30, FIELD_0X90, FIELD_0XB0, IMPACT_MULTIPLIER_KEY, L0_COEFF, L0_COEFF_HIGH,
    L1_VIRTUAL, OTHER_UNKNOWN_POOL_PARAM_QUOTE_TO_BASE, RESERVE_ADJ_V0_3,
};
use super::humidifi::HumidifiReplay;
use super::solfiv2::state::{decrypted, ORACLE_XOR_KEY};
use super::solfiv2::tables::{size_table_at, words_or};
use super::solfiv2::SolFiV2Replay;
use super::tesserav::{table_at, tiers_from, TesseraVReplay};
use super::zerofi::ZeroFiReplay;
use super::PoolView;
use crate::bytes::{i32_at, u16_at, u32_at, u64_at};
use crate::num::imin;

verus! {

/// An update is refused only where its account is of a kind that the pool reads
/// and lacks what the pool reads from it.
pub proof fn law_only_unreadable_accounts_are_refused(p: PoolView, role: Seq<char>, d: Seq<u8>)
    ensures
        p is Humidifi || p is AlphaQ || p is TesseraV || p is ZeroFi ==> p.accepts(role, d),
        p is SolFiV2 ==> (!p.accepts(role, d) <==> role == "oracle"@ && (d.len() < 0x20 || d[0] > 18)),
        p is GoonFi ==> (!p.accepts(role, d) ==> role == "pool"@ && d.len() >= 0x800),
        p is BisonFi ==> (!p.accepts(role, d) ==> role == "pool"@ && 0x347 <= d.len() < 0x37c && u64_at(d, 8) >= 3),
        p is RaydiumClmm || p is OrcaClmm ==> (!p.accepts(role, d) ==> role != "pool"@),
        p is OrcaClmm ==> (!p.accepts(role, d) ==> role != "oracle"@ && d.len() >= 9956),
        p is RaydiumClmm ==> (!p.accepts(role, d) ==> d.len() >= 7004),
{
}

/// The tables of a GoonFi market stand in its account word by word.
#[verifier::spinoff_prover]
#[verifier::rlimit(40)]
pub proof fn law_goonfi_tables(p: GoonFiReplay, d: Seq<u8>, i: int)
    requires
        d.len() >= 0x800,
        0 <= i < 10,
    ensures
        ({
            let s = p.updated("pool"@, d).state;
            &&& s.spread_b2q[i] == u64_at(d, 0xf0 + 8 * i)
            &&& s.spread_q2b[i] == u64_at(d, 0x140 + 8 * i)
            &&& s.cum_boundaries_b2q[i] == u64_at(d, 0x5c0 + 8 * i)
            &&& s.cum_boundaries_q2b[i] == u64_at(d, 0x610 + 8 * i)
        }),
{
    reveal(GoonFiReplay::updated);
    assert(i == 0 || i == 1 || i == 2 || i == 3 || i == 4 || i == 5 || i == 6 || i == 7 || i == 8 || i == 9);
}

/// The tables of a BisonFi pool stand in its account tier by tier, with the
/// share first for quote tokens and second for base tokens.
#[verifier::spinoff_prover]
#[verifier::rlimit(40)]
pub proof fn law_bisonfi_tables(p: BisonFiReplay, d: Seq<u8>, i: int)
    requires
        d.len() >= 0x347,
        d.take(8) == seq![0x50u8, 0x4f, 0x4f, 0x4c, 0x53, 0x54, 0x41, 0x54],
        0 <= i < 4,
    ensures
        ({
            let s = p.updated("pool"@, d).state;
            &&& s.b2q_tiers.at(i).mult == u32_at(d, 0x124 + 16 * i)
            &&& s.b2q_tiers.at(i).adj_idx == i32_at(d, 0x128 + 16 * i)
            &&& s.q2b_tiers.at(i).mult == u32_at(d, 0x160 + 16 * i)
            &&& s.q2b_tiers.at(i).adj_idx == i32_at(d, 0x168 + 16 * i)
            &&& s.template_b2q_tiers.at(i).mult == u32_at(d, 0x214 + 16 * i)
            &&& s.template_b2q_tiers.at(i).adj_idx == i32_at(d, 0x218 + 16 * i)
            &&& s.template_q2b_tiers.at(i).mult == u32_at(d, 0x250 + 16 * i)
            &&& s.template_q2b_tiers.at(i).adj_idx == i32_at(d, 0x258 + 16 * i)
            &&& s.mult_0_b2q == u32_at(d, 0x1a4)
            &&& s.mult_0_q2b == u32_at(d, 0x1a0)
            &&& s.fee_base_b2q == d[0x1e4] + 10 * u16_at(d, 0x1e0)
            &&& s.fee_base_q2b == d[0x1e5] + 10 * u16_at(d, 0x1e2)
            &&& s.stored_fee_mult_b2q == u32_at(d, 0x1e8)
            &&& s.fee_penalty_extra == d[0x1e6]
        }),
{
    reveal(BisonFiReplay::updated);
    assert(i == 0 || i == 1 || i == 2 || i == 3);
}

#[verifier::spinoff_prover]
proof fn lemma_size_table(d: Seq<u8>, at: int, i: int)
    requires
        0 <= i < 8,
    ensures
        i < 7 ==> size_table_at(d, at).bounds[i] == u64_at(d, at + 8 * i),
        size_table_at(d, at).fees[i] == u64_at(d, at + 56 + 8 * i),
{
    assert(i == 0 || i == 1 || i == 2 || i == 3 || i == 4 || i == 5 || i == 6 || i == 7);
}

#[verifier::spinoff_prover]
proof fn lemma_words_or(d: Seq<u8>, at: int, n: int, was: [u64; 8], i: int)
    requires
        0 <= i < 8,
    ensures
        words_or(d, at, n, was)[i] == (if i < n {
            u64_at(d, at + 8 * i) as u64
        } else {
            was[i]
        }),
{
    assert(i == 0 || i == 1 || i == 2 || i == 3 || i == 4 || i == 5 || i == 6 || i == 7);
}

#[verifier::spinoff_prover]
proof fn lemma_pool_tables(p: SolFiV2Replay, d: Seq<u8>)
    requires
        d.len() >= 0x550,
    ensures
        ({
            let s = p.updated("pool"@, d).state;
            &&& s.set1 == size_table_at(d, 0x2e0)
            &&& s.set2 == size_table_at(d, 0x368)
            &&& s.t3 == crate::protocols::solfiv2::tables::table_at(d, 0x3e8, 0x428, 0x468, p.state.t3)
            &&& s.s4 == crate::protocols::solfiv2::tables::table_at(d, 0x470, 0x4b0, 0x4f0, p.state.s4)
        }),
{
    reveal(SolFiV2Replay::updated);
}

/// The fees by size of a SolFi V2 pool stand in its account word by word: seven
/// bounds and eight fees for each direction. Of the fees by age it holds as many
/// as it says, eight at most, and the others stay.
#[verifier::spinoff_prover]
pub proof fn law_solfiv2_tables(p: SolFiV2Replay, d: Seq<u8>, i: int)
    requires
        d.len() >= 0x550,
        0 <= i < 8,
    ensures
        ({
            let s = p.updated("pool"@, d).state;
            &&& i < 7 ==> s.set1.bounds[i] == u64_at(d, 0x2e0 + 8 * i)
            &&& s.set1.fees[i] == u64_at(d, 0x318 + 8 * i)
            &&& i < 7 ==> s.set2.bounds[i] == u64_at(d, 0x368 + 8 * i)
            &&& s.set2.fees[i] == u64_at(d, 0x3a0 + 8 * i)
            &&& s.t3.count == (if u64_at(d, 0x468) <= 8 {
                u64_at(d, 0x468)
            } else {
                8
            })
            &&& i < s.t3.count ==> s.t3.bounds[i] == u64_at(d, 0x3e8 + 8 * i) && s.t3.fees[i] == u64_at(
                d,
                0x428 + 8 * i,
            )
            &&& i >= s.t3.count ==> s.t3.bounds[i] == p.state.t3.bounds[i] && s.t3.fees[i] == p.state.t3.fees[i]
            &&& i < s.s4.count ==> s.s4.bounds[i] == u64_at(d, 0x470 + 8 * i) && s.s4.fees[i] == u64_at(
                d,
                0x4b0 + 8 * i,
            )
        }),
{
    lemma_pool_tables(p, d);
    lemma_size_table(d, 0x2e0, i);
    lemma_size_table(d, 0x368, i);
    let n = imin(u64_at(d, 0x468), 8);
    let m = imin(u64_at(d, 0x4f0), 8);
    lemma_words_or(d, 0x3e8, n, p.state.t3.bounds, i);
    lemma_words_or(d, 0x428, n, p.state.t3.fees, i);
    lemma_words_or(d, 0x470, m, p.state.s4.bounds, i);
    lemma_words_or(d, 0x4b0, m, p.state.s4.fees, i);
}

/// The mask over an oracle's bytes comes off the way it was put on.
pub proof fn law_oracle_mask_is_an_involution(d: Seq<u8>)
    requires
        d.len() == 168,
    ensures
        decrypted(decrypted(d)) == d,
{
    assert forall|i: int| 0 <= i < 168 implies decrypted(decrypted(d))[i] == d[i] by {
        let a = d[i];
        let k = ORACLE_XOR_KEY[i];
        assert((a ^ k) ^ k == a) by (bit_vector);
    }
    assert(decrypted(decrypted(d)) =~= d);
}

/// What a SolFi V2 pool knows of its price stands under the oracle's mask.
pub proof fn law_solfiv2_oracle_account(p: SolFiV2Replay, d: Seq<u8>)
    ensures
        ({
            let s = p.updated("oracle"@, d).state;
            let plain = decrypted(d);
            &&& s.oracle_price == u64_at(plain, 0x08)
            &&& s.oracle_update_slot == u64_at(plain, 0x10)
            &&& s.base_mult == u64_at(plain, 0x20)
            &&& s.q2b_offset == u32_at(plain, 0x38)
            &&& s.b2q_offset == u32_at(plain, 0x3c)
        }),
{
    reveal(SolFiV2Replay::updated);
    reveal_strlit("pool");
    reveal_strlit("oracle");
    assert("pool"@.len() != "oracle"@.len());
}

proof fn lemma_tiers_counted(d: Seq<u8>, at: int, i: int)
    requires
        0 <= i <= 10,
    ensures
        i <= tiers_from(d, at, i) <= 10,
    decreases 10 - i,
{
    if i < 10 && super::tesserav::has_tier(d, at, i) {
        lemma_tiers_counted(d, at, i + 1);
    }
}

/// The tiers of a Tessera V pool stand in its account one behind the other, a
/// width and a share each, up to the first that is empty.
#[verifier::spinoff_prover]
#[verifier::rlimit(40)]
pub proof fn law_tesserav_tables(p: TesseraVReplay, d: Seq<u8>, i: int)
    requires
        d.len() >= 0x298,
        0 <= i < 10,
    ensures
        ({
            let s = p.updated("pool"@, d).state;
            &&& i < s.b2q_tiers.count ==> s.b2q_tiers.tiers[i].width == u64_at(d, 0xa0 + 24 * i)
                && s.b2q_tiers.tiers[i].fee_thing == u64_at(d, 0xa8 + 24 * i)
            &&& i < s.q2b_tiers.count ==> s.q2b_tiers.tiers[i].width == u64_at(d, 0x280 + 24 * i)
                && s.q2b_tiers.tiers[i].fee_thing == u64_at(d, 0x288 + 24 * i)
        }),
{
    reveal(TesseraVReplay::updated);
    reveal(table_at);
    lemma_tiers_counted(d, 0xa0, 0);
    lemma_tiers_counted(d, 0x280, 0);
    assert(i == 0 || i == 1 || i == 2 || i == 3 || i == 4 || i == 5 || i == 6 || i == 7 || i == 8 || i == 9);
}

/// The tiers and points of a ZeroFi pool stand in its account one behind the
/// other.
#[verifier::spinoff_prover]
#[verifier::rlimit(40)]
pub proof fn law_zerofi_tables(p: ZeroFiReplay, d: Seq<u8>, i: int)
    requires
        d.len() > 0xb70,
        0 <= i < 10,
    ensures
        ({
            let s = p.updated("pool"@, d).state;
            &&& i < s.tier_count <= 10 ==> s.tiers[i].param == u32_at(d, 0x120 + 0x38 * i) && s.tiers[i].onset_low
                == u32_at(d, 0x118 + 0x38 * i) && s.tiers[i].onset_high == u32_at(d, 0x11c + 0x38 * i)
            &&& d.len() > 0xfb8 + 0x40 * i ==> s.alt[i].amount == u64_at(d, 0xfa8 + 0x40 * i) && s.alt[i].adj == u64_at(
                d,
                0xfb0 + 0x40 * i,
            )
            &&& i < s.q2b_count <= 10 && d.len() > 0x1238 + 0x40 * i ==> s.q2b[i].amount == u64_at(
                d,
                0x1228 + 0x40 * i,
            ) && s.q2b[i].adj == u64_at(d, 0x1230 + 0x40 * i)
            &&& d.len() > 0x14d0 ==> s.fee_cap_b2q == i32_at(d, 0x14c8) && s.fee_cap_q2b == i32_at(d, 0x14cc)
            &&& d.len() > 0x1920 ==> s.adj_gate_slot == u64_at(d, 0x1918)
        }),
{
    reveal(ZeroFiReplay::updated);
    lemma_zerofi_counts(d, 0);
    assert(i == 0 || i == 1 || i == 2 || i == 3 || i == 4 || i == 5 || i == 6 || i == 7 || i == 8 || i == 9);
}

proof fn lemma_zerofi_counts(d: Seq<u8>, i: int)
    requires
        0 <= i <= 10,
    ensures
        i <= super::zerofi::state::fee_tiers_from(d, i) <= 10,
        i <= super::zerofi::state::q2b_from(d, i) <= 10,
    decreases 10 - i,
{
    if i < 10 {
        lemma_zerofi_counts(d, i + 1);
    }
}

/// The side accounts of a ZeroFi pool set their fees and leave the pool's own
/// fields.
pub proof fn law_zerofi_side_accounts(p: ZeroFiReplay, d: Seq<u8>)
    requires
        d.len() > 0x35c,
    ensures
        ({
            let s = p.updated("extra_a"@, d).state;
            &&& s.extra_a_fee == i32_at(d, 0x358)
            &&& s.extra_a_tier_total == u64_at(d, 0x1d8)
            &&& s.extra_a_skip_amount == u64_at(d, 0x1e0)
            &&& s.extra_b_fee == p.state.extra_b_fee
            &&& s.oracle_bid_raw == p.state.oracle_bid_raw
            &&& s.oracle_ask_raw == p.state.oracle_ask_raw
        }),
        ({
            let s = p.updated("extra_b"@, d).state;
            &&& s.extra_b_fee == i32_at(d, 0x358)
            &&& s.extra_a_fee == p.state.extra_a_fee
            &&& s.extra_a_tier_total == p.state.extra_a_tier_total
            &&& s.oracle_bid_raw == p.state.oracle_bid_raw
            &&& s.oracle_ask_raw == p.state.oracle_ask_raw
        }),
{
    reveal(ZeroFiReplay::updated);
    reveal_strlit("pool");
    reveal_strlit("extra_a");
    reveal_strlit("extra_b");
    assert("pool"@.len() != "extra_a"@.len());
    assert("pool"@.len() != "extra_b"@.len());
    assert("extra_a"@[6] != "extra_b"@[6]);
}

/// What a Humidifi pool's account holds stands in it under a mask of its own.
pub proof fn law_humidifi_account_is_masked(p: HumidifiReplay, d: Seq<u8>, slot: u64)
    requires
        d.len() >= 0x6c0,
    ensures
        ({
            let q = p.updated("pool"@, d, slot).state.params;
            &&& q.price_q48 ^ L1_VIRTUAL == u64_at(d, 0x240)
            &&& q.l0_lower ^ L0_COEFF == u64_at(d, 0x220)
            &&& q.l0_upper ^ L0_COEFF_HIGH == u64_at(d, 0x228)
            &&& q.other_param_base_to_quote ^ FIELD_0X30 == u64_at(d, 0x30)
            &&& q.other_param_quote_to_base ^ OTHER_UNKNOWN_POOL_PARAM_QUOTE_TO_BASE == u64_at(d, 0)
            &&& q.pool_param_1 ^ FIELD_0XB0 == u64_at(d, 0xb0)
            &&& q.scaled_pp1 ^ FIELD_0X90 == u64_at(d, 0x90)
            &&& q.activation_output_threshold ^ ACTIVATION_THRESHOLD_KEY == u64_at(d, 0xc8)
            &&& q.impact_multiplier ^ IMPACT_MULTIPLIER_KEY == u64_at(d, 0xe0)
            &&& q.valid_thresh ^ RESERVE_ADJ_V0_3 == u64_at(d, 0x260)
            &&& q.last_update ^ RESERVE_ADJ_V0_3 == u64_at(d, 0x268)
        }),
{
    reveal(HumidifiReplay::updated);
    lemma_unmasked(d, 0x240, L1_VIRTUAL);
    lemma_unmasked(d, 0x220, L0_COEFF);
    lemma_unmasked(d, 0x228, L0_COEFF_HIGH);
    lemma_unmasked(d, 0x30, FIELD_0X30);
    lemma_unmasked(d, 0, OTHER_UNKNOWN_POOL_PARAM_QUOTE_TO_BASE);
    lemma_unmasked(d, 0xb0, FIELD_0XB0);
    lemma_unmasked(d, 0x90, FIELD_0X90);
    lemma_unmasked(d, 0xc8, ACTIVATION_THRESHOLD_KEY);
    lemma_unmasked(d, 0xe0, IMPACT_MULTIPLIER_KEY);
    lemma_unmasked(d, 0x260, RESERVE_ADJ_V0_3);
    lemma_unmasked(d, 0x268, RESERVE_ADJ_V0_3);
}

proof fn lemma_unmasked(d: Seq<u8>, at: int, key: u64)
    requires
        at + 8 <= d.len(),
    ensures
        super::humidifi::params::unmasked(d, at, key) ^ key == u64_at(d, at),
{
    let word = u64_at(d, at) as u64;
    assert((word ^ key) ^ key == word) by (bit_vector);
}

}
