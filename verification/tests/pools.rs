//! Pools behind their common interface.
use amm_replay::protocols::alphaq::AlphaQReplay;
use amm_replay::protocols::bisonfi::fees::{ceil_fee, ceil_fee_v3};
use amm_replay::protocols::bisonfi::replay::BisonFiReplay;
use amm_replay::protocols::bisonfi::state::BisonFiError;
use amm_replay::protocols::create_protocol;
use amm_replay::protocols::goonfi::quote::adj_price;
use amm_replay::protocols::goonfi::replay::GoonFiReplay;
use amm_replay::protocols::goonfi::state::GoonFiError;
use amm_replay::protocols::humidifi::params::{decrypt_pool_params, xor_decode_u64};
use amm_replay::protocols::quotes::TierInput;
use amm_replay::protocols::solfiv2::replay::SolFiV2Replay;
use amm_replay::protocols::solfiv2::state::{decrypt_oracle, SolFiV2Error};
use amm_replay::protocols::tesserav::TesseraVReplay;
use amm_replay::protocols::zerofi::ZeroFiReplay;

const KINDS: [&str; 9] = [
    "humidifi",
    "raydium_clmm",
    "orca_clmm",
    "alphaq",
    "bisonfi",
    "solfiv2",
    "goonfi",
    "tesserav",
    "zerofi",
];

fn tier() -> TierInput {
    TierInput { micro_usd: 1_000_000, usd_e21: 1_000_000_000_000_000_000_000, base_amount: Some(1_000_000) }
}

fn vault(balance: u64) -> Vec<u8> {
    let mut data = vec![0u8; 165];
    data[64..72].copy_from_slice(&balance.to_le_bytes());
    data
}

#[test]
fn every_kind_starts_unready() {
    for kind in KINDS {
        let pool = create_protocol(kind).unwrap();
        assert!(!pool.is_ready(), "{kind}");
        assert_eq!(pool.vault_balances(), None, "{kind}");
        assert_eq!(pool.try_quote_single(1_000, "B2Q", 5), Some(None), "{kind}");
        assert_eq!(pool.quote_single(1_000, "Q2B", 5), None, "{kind}");
        assert!(pool.compute_quotes(5, &[tier(), tier()]).is_empty(), "{kind}");
    }
}

#[test]
fn other_kinds_are_refused() {
    for kind in ["", "Humidifi", "orca", "lifinity"] {
        let error = create_protocol(kind).unwrap_err();
        assert_eq!(error.amm_type, kind);
        assert_eq!(error.message(), format!("unsupported amm_type: {kind}"));
    }
}

#[test]
fn vaults_count_once_both_are_seen() {
    for kind in ["humidifi", "alphaq", "bisonfi", "solfiv2", "goonfi", "tesserav"] {
        let mut pool = create_protocol(kind).unwrap();
        pool.apply_update("base_vault", &vault(700), 1);
        assert_eq!(pool.vault_balances(), None, "{kind}");
        pool.apply_update("quote_vault", &vault(900), 1);
        assert_eq!(pool.vault_balances(), Some((700, 900)), "{kind}");
        pool.apply_update("quote_vault", &vault(901)[..71], 2);
        pool.apply_update("unknown", &vault(5), 2);
        assert_eq!(pool.vault_balances(), Some((700, 900)), "{kind}");
        assert!(!pool.is_ready(), "{kind}");
    }
}

#[test]
fn short_accounts_are_refused() {
    let mut alphaq = AlphaQReplay::new();
    let error = alphaq.state.update_from_market_data(&[0u8; 495]).unwrap_err();
    assert_eq!(error.message(), "AlphaQ market data too small");
    assert!(alphaq.state.update_from_market_data(&[0u8; 496]).is_ok());

    let mut tesserav = TesseraVReplay::new();
    let error = tesserav.state.update_from_pool_data(&[0u8; 10]).unwrap_err();
    assert_eq!(error.message(), "Tessera V pool data too small");

    let mut goonfi = GoonFiReplay::new();
    let error = goonfi.state.update_from_market_data(&[0u8; 10]).unwrap_err();
    assert_eq!(error, GoonFiError::MarketTooSmall);
    assert_eq!(error.message(), "GoonFi market data too small");
    let error = goonfi.state.update_from_oracle_data(&[0u8; 10]).unwrap_err();
    assert_eq!(error, GoonFiError::OracleTooSmall);
    assert_eq!(error.message(), "GoonFi oracle data too small");

    let mut bisonfi = BisonFiReplay::new();
    let error = bisonfi.state.update_from_pool_data(&[0u8; 10]).unwrap_err();
    assert_eq!(error, BisonFiError::TooSmall);
    assert_eq!(error.message(), "BisonFi pool data too small");
    let error = bisonfi.state.update_from_pool_data(&[0u8; 4096]).unwrap_err();
    assert_eq!(error, BisonFiError::InvalidMagic);
    assert_eq!(error.message(), "Invalid BisonFi pool magic");

    let mut solfi = SolFiV2Replay::new();
    let error = solfi.state.update_from_pool_data(&[0u8; 0x54f]).unwrap_err();
    assert_eq!(error, SolFiV2Error::PoolTooSmall);
    assert_eq!(error.message(), "SolFi V2 pool data too small");
    assert!(solfi.state.update_from_pool_data(&[0u8; 0x550]).is_ok());

    assert!(decrypt_pool_params(&[0u8; 16]).is_none());
}

#[test]
fn refused_accounts_leave_a_pool_unready() {
    for kind in ["humidifi", "alphaq", "bisonfi", "solfiv2", "goonfi", "tesserav", "orca_clmm", "raydium_clmm"] {
        let mut pool = create_protocol(kind).unwrap();
        pool.apply_update("pool", &[1, 2, 3], 1);
        pool.apply_update("base_vault", &vault(700), 1);
        pool.apply_update("quote_vault", &vault(900), 1);
        assert!(!pool.is_ready(), "{kind}");
    }
}

#[test]
fn masks_undo_themselves() {
    let key = 0x0123_4567_89ab_cdef;
    let word: u64 = 0xfeed_beef_dead_cafe;
    let masked = xor_decode_u64(&word.to_le_bytes(), 0, key);
    assert_eq!(masked, word ^ key);
    assert_eq!(xor_decode_u64(&masked.to_le_bytes(), 0, key), word);
    let data: Vec<u8> = (0..64).map(|i| (i * 7) as u8).collect();
    assert_ne!(decrypt_oracle(&data)[..64], data[..]);
}

#[test]
fn fees_round_up() {
    assert_eq!(ceil_fee(0, 1_000), 0);
    assert_eq!(ceil_fee(7, 1_000), 1);
    assert_eq!(ceil_fee(100, 100_000), 100);
    assert_eq!(ceil_fee_v3(2_560, 1_000), 1);
    assert_eq!(ceil_fee_v3(2_561, 1_000), 2);
}

#[test]
fn sizes_beyond_a_word_stop_at_it() {
    let big = TierInput { micro_usd: u128::MAX, usd_e21: 0, base_amount: None };
    assert_eq!(big.get_quote_amount(), u64::MAX);
    assert_eq!(tier().get_quote_amount(), 1_000_000);
}

#[test]
fn an_age_limit_ends_quotes() {
    let mut pool = ZeroFiReplay::new();
    pool.state.pool_slot = 500;
    pool.state.max_slot_diff = 20;
    assert_eq!(pool.state.get_quote(1_000, true, 520), Some(0));
    assert_eq!(pool.state.get_quote(1_000, false, 9_999), Some(0));
}

#[test]
fn a_pool_without_a_price_pays_nothing() {
    let pool = BisonFiReplay::new();
    assert_eq!(pool.state.b2q_tiered(1_000, 0), Some(0));
    assert_eq!(pool.state.q2b_tiered(1_000, false, 0), Some(0));
}

#[test]
fn a_reserve_at_its_threshold_needs_no_step() {
    let mut pool = BisonFiReplay::new();
    pool.state.base_reserve = 70;
    pool.state.v3.fee_step_threshold = 75;
    pool.state.v3.fee_floor_b2q = 9;
    assert_eq!(pool.state.v3_ds1_fee(5, true, 0), Some(9));
}

#[test]
fn corrections_stay_within_their_type() {
    assert_eq!(adj_price(1_000_000, 500_000), Some(1_500_000));
    assert_eq!(adj_price(1_000_000, -2_000_000), Some(0));
    assert_eq!(adj_price(0, i128::MAX), None);
    assert_eq!(adj_price(2, i128::MAX / 2), None);
}

#[test]
fn masked_words_end_with_the_data() {
    assert_eq!(xor_decode_u64(&[0; 16], 9, 5), 0);
    assert_eq!(xor_decode_u64(&[0; 16], usize::MAX - 8, 5), 0);
    assert_eq!(xor_decode_u64(&[0; 16], 8, 5), 5);
}
