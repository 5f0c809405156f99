//! Concentrated liquidity: prices of ticks, amounts, fees and swaps.
use amm_replay::protocols::clmm_math::fees::{
    floor_division, AdaptiveFeeConstants, AdaptiveFeeInfo, AdaptiveFeeVariables, FeeRateManager,
};
use amm_replay::protocols::clmm_math::price::{
    add_liquidity_delta, calculate_update, checked_mul_shift_right_round_up_if, get_amount_delta_a,
    get_amount_delta_b, get_next_sqrt_price, optimized_mul_shift,
};
use amm_replay::protocols::clmm_math::swap::{clmm_swap, try_clmm_swap, try_orca_compute_swap_step};
use amm_replay::protocols::clmm_math::tick_price::{
    get_next_sqrt_prices, get_sqrt_price_at_tick, get_sqrt_price_at_tick_orca, tick_index_from_sqrt_price,
    ClmmPoolType,
};
use amm_replay::protocols::clmm_math::ticks::TickArraySequence;
use amm_replay::protocols::orca_clmm::{parse_orca_pool, try_parse_orca_tick_array, WHIRLPOOL_DISCRIMINATOR};
use amm_replay::protocols::raydium_clmm::{parse_raydium_pool, try_parse_raydium_tick_array};
use amm_replay::protocols::tick_arrays::TickArrays;

const ONE: u128 = 1 << 64;

#[test]
fn prices_of_ticks() {
    let raydium = [
        (0, ONE),
        (1, 18447666387855957090),
        (-1, 18445821805675395072),
        (100, 18539204128674375874),
        (443636, 79226673521066979257578248091),
        (-443636, 4295048016),
    ];
    for (tick, price) in raydium {
        assert_eq!(get_sqrt_price_at_tick(tick), price, "{tick}");
    }
    let orca = [
        (0, ONE),
        (1, 18447666387855959850),
        (-1, 18445821805675392311),
        (100, 18539204128674405812),
        (443636, 79226673515401279992447579055),
        (-443636, 4295048016),
    ];
    for (tick, price) in orca {
        assert_eq!(get_sqrt_price_at_tick_orca(tick), price, "{tick}");
    }
}

#[test]
fn prices_follow_powers() {
    for tick in [-300000i32, -54321, -887, -2, 3, 999, 12345, 400000] {
        let expected = 1.0001f64.powf(tick as f64 / 2.0);
        for price in [get_sqrt_price_at_tick(tick), get_sqrt_price_at_tick_orca(tick)] {
            let got = price as f64 / ONE as f64;
            assert!((got / expected - 1.0).abs() < 1e-6, "{tick}: {got} for {expected}");
        }
    }
}

#[test]
fn ticks_of_prices() {
    for tick in (-443636..443637).step_by(8111) {
        let price = get_sqrt_price_at_tick_orca(tick);
        assert_eq!(tick_index_from_sqrt_price(&price), tick);
        assert_eq!(tick_index_from_sqrt_price(&(price + 1)), tick);
        if tick > -443636 {
            assert_eq!(tick_index_from_sqrt_price(&(price - 1)), tick - 1);
        }
    }
}

#[test]
fn the_greatest_tick_at_or_below_a_price() {
    let top = get_sqrt_price_at_tick_orca(443636);
    let mut price = get_sqrt_price_at_tick_orca(-443636);
    while price <= top {
        let tick = tick_index_from_sqrt_price(&price);
        assert!(get_sqrt_price_at_tick_orca(tick) <= price);
        if tick < 443636 {
            assert!(price < get_sqrt_price_at_tick_orca(tick + 1));
        }
        price = price + price / 7 + 1;
    }
    assert_eq!(tick_index_from_sqrt_price(&top), 443636);
}

#[test]
fn amounts_round_either_way() {
    // 3 * 5 * 2^64 over (2^64 - 5) * 2^64 is a little above nothing.
    assert_eq!(get_amount_delta_a::<false>(ONE - 5, ONE, 3), 0);
    assert_eq!(get_amount_delta_a::<true>(ONE - 5, ONE, 3), 1);
    // Products beyond 64 bits take the wide path.
    assert_eq!(get_amount_delta_a::<true>(ONE / 2, ONE, 3 << 60), 3 << 60);
    assert_eq!(get_amount_delta_a::<false>(ONE / 2, ONE, 3 << 60), 3 << 60);
    assert_eq!(get_amount_delta_a::<false>(ONE / 3, ONE, 1 << 60), 2305843009213693952);
    assert_eq!(get_amount_delta_a::<true>(ONE / 3, ONE, 1 << 60), 2305843009213693953);
}

#[test]
fn limits_hold_prices() {
    assert_eq!(get_next_sqrt_prices(ClmmPoolType::Orca, 0), (ONE, ONE));
    let (price, limit) = get_next_sqrt_prices(ClmmPoolType::Raydium, 450000);
    assert!(price > limit);
    assert_eq!(limit, 79226673521066979257578248091);
    let (price, limit) = get_next_sqrt_prices(ClmmPoolType::Orca, -450000);
    assert!(price < limit);
    assert_eq!(limit, 4295048016);
}

#[test]
fn amounts_between_prices() {
    let l = 1_000_000_000_000;
    assert_eq!(get_amount_delta_a::<true>(ONE, 2 * ONE, l), 500_000_000_000);
    assert_eq!(get_amount_delta_a::<false>(2 * ONE, ONE, l), 500_000_000_000);
    assert_eq!(get_amount_delta_a::<true>(ONE, ONE + 12345, l), 1);
    assert_eq!(get_amount_delta_a::<false>(ONE, ONE + 12345, l), 0);
    assert_eq!(get_amount_delta_b::<true>(ONE, ONE + 12345, l), Some(1));
    assert_eq!(get_amount_delta_b::<false>(ONE, 3 * ONE, l), Some(2_000_000_000_000));
    assert_eq!(get_amount_delta_b::<false>(ONE, u128::MAX, u128::MAX), None);
    assert_eq!(get_next_sqrt_price(ONE, l, 1000, false), ONE + 1000 * ONE / l);
    assert_eq!(checked_mul_shift_right_round_up_if::<true>(ONE, 3), Some(3));
    assert_eq!(checked_mul_shift_right_round_up_if::<true>(ONE + 1, 3), Some(4));
    assert_eq!(checked_mul_shift_right_round_up_if::<false>(ONE + 1, 3), Some(3));
    assert_eq!(checked_mul_shift_right_round_up_if::<true>(u128::MAX, 2), None);
    assert_eq!(optimized_mul_shift(3 * ONE, 1 << 63), 3 << 63);
}

#[test]
fn crossing_a_tick_and_back() {
    assert_eq!(calculate_update::<false>(70, 100), Some(170));
    assert_eq!(calculate_update::<true>(70, 170), Some(100));
    assert_eq!(calculate_update::<true>(70, 69), None);
    assert_eq!(calculate_update::<false>(1, u128::MAX), None);
    assert_eq!(add_liquidity_delta(5, -5), Some(0));
    assert_eq!(add_liquidity_delta(5, -6), None);
}

#[test]
fn groups_are_floored() {
    assert_eq!(floor_division(7, 3), 2);
    assert_eq!(floor_division(-7, 3), -3);
    assert_eq!(floor_division(-6, 3), -2);
}

fn info() -> AdaptiveFeeInfo {
    AdaptiveFeeInfo {
        constants: AdaptiveFeeConstants {
            filter_period: 30,
            decay_period: 600,
            reduction_factor: 500,
            adaptive_fee_control_factor: 4_000,
            max_volatility_accumulator: 350_000,
            tick_group_size: 64,
        },
        variables: AdaptiveFeeVariables {
            last_reference_update_timestamp: 1_000,
            last_major_swap_timestamp: 1_000,
            volatility_reference: 0,
            tick_group_index_reference: 0,
            volatility_accumulator: 0,
        },
    }
}

#[test]
fn fees_rise_with_distance() {
    let mut fixed = FeeRateManager::new(true, 0, 1_000, 3_000, &None).unwrap();
    fixed.update_volatility_accumulator();
    assert_eq!(fixed.get_total_fee_rate(), 3_000);

    let mut manager = FeeRateManager::new(true, 0, 1_010, 3_000, &Some(info())).unwrap();
    manager.update_volatility_accumulator();
    assert_eq!(manager.get_total_fee_rate(), 3_000);
    manager.advance_tick_group();
    manager.update_volatility_accumulator();
    // One group away: 10_000 * 64 squared, by 4_000, over 100_000 and 10_000 squared.
    assert_eq!(manager.get_total_fee_rate(), 3_000 + 164);
    for _ in 0..40 {
        manager.advance_tick_group();
        manager.update_volatility_accumulator();
    }
    // The volatility stays at its limit, and so does the rate.
    assert_eq!(manager.get_total_fee_rate(), 100_000);

    let mut broken = info();
    broken.constants.tick_group_size = 0;
    assert!(FeeRateManager::try_new(true, 0, 1_010, 3_000, &Some(broken)).is_none());
}

#[test]
fn references_age() {
    let c = info().constants;
    let mut v = info().variables;
    v.volatility_accumulator = 100_000;
    // Within the filter period nothing changes.
    let mut near = v;
    near.update_reference(9, 1_029, &c);
    assert_eq!(near, v);
    // Within the decay period the reference keeps a share.
    let mut later = v;
    later.update_reference(9, 1_100, &c);
    assert_eq!(later.volatility_reference, 5_000);
    assert_eq!(later.tick_group_index_reference, 9);
    // After it, nothing is left.
    let mut old = v;
    old.update_reference(9, 2_000, &c);
    assert_eq!(old.volatility_reference, 0);
    assert_eq!(old.tick_group_index_reference, 9);
    // Time cannot run back.
    assert!(v.try_update_reference(9, 999, &c).is_none());
}

#[test]
fn a_step_stops_at_its_target() {
    let target = get_sqrt_price_at_tick_orca(-100);
    let step = try_orca_compute_swap_step(1_000_000, 100_000_000, ONE, target, 3_000, true).unwrap().unwrap();
    assert_eq!(
        (step.amount_in, step.amount_out, step.next_price, step.fee_amount),
        (501_227, 498_727, target, 1_509)
    );
    assert!(try_orca_compute_swap_step(1_000_000, 0, ONE, target, 3_000, true).unwrap().is_none());
    // An amount that runs out on the way is used up.
    let step = try_orca_compute_swap_step(100_000, 100_000_000, ONE, 2 * ONE, 3_000, false).unwrap().unwrap();
    assert!(step.next_price < 2 * ONE);
    assert_eq!(step.amount_in + step.fee_amount, 100_000);
}

fn ladder() -> TickArraySequence {
    TickArraySequence::from_raw_ticks(
        &[(-128, 400_000_000), (64, -100_000_000), (128, -300_000_000), (64, 7)],
        ClmmPoolType::Orca,
        -5632,
        5632,
    )
}

#[test]
fn ticks_stand_in_order() {
    let seq = ladder();
    assert_eq!(seq.len(), 5);
    let ticks: Vec<i32> = (0..5).map(|i| seq.get_tick_from_internal_index(i).unwrap()).collect();
    assert_eq!(ticks, vec![-5632, -128, 64, 128, 5632]);
    assert_eq!(seq.get_tick_from_internal_index(5), None);
    assert_eq!(seq.get_next_liquidity(2), -100_000_000);
    let price = get_sqrt_price_at_tick_orca(64);
    assert_eq!(seq.get_next_sqrt_prices_at(2), (price, price));
    assert_eq!(seq.get_internal_bin_index_from_tick_index(64), (2, true));
    assert_eq!(seq.get_internal_bin_index_from_tick_index(0), (2, false));
    assert_eq!(seq.get_internal_bin_index_from_tick_index(6000), (5, false));
    assert_eq!(TickArraySequence::new().len(), 0);
}

#[test]
fn a_swap_crosses_ticks() {
    let seq = ladder();
    let at = seq.get_internal_bin_index_from_tick_index(0);
    for (amount, a_to_b) in [(1_000, true), (100_000, false), (2_000_000, true), (2_000_000, false)] {
        let got = try_clmm_swap(a_to_b, ONE, 400_000_000, &seq, amount, 3_000, at, &None, 0, 0);
        assert_eq!(got, Some(SWAPS.iter().find(|s| s.0 == amount && s.1 == a_to_b).unwrap().2));
    }
    assert_eq!(
        clmm_swap(true, ClmmPoolType::Orca, ONE, 400_000_000, &seq, 1_000, 3_000, at, &None, 0, 0, 88),
        SWAPS[0].2
    );
    assert_eq!(try_clmm_swap(true, ONE, 1, &TickArraySequence::new(), 5, 0, (0, false), &None, 0, 0), Some(None));
}

/// Amounts with their direction, and what the ladder pays for them.
const SWAPS: [(u64, bool, Option<u64>); 4] = [
    (1_000, true, Some(400_000_000)),
    (100_000, false, Some(99_675)),
    (2_000_000, true, Some(400_000_000)),
    (2_000_000, false, Some(1_983_691)),
];

#[test]
fn one_array_for_each_start() {
    let mut arrays = TickArrays::new();
    assert!(arrays.is_empty());
    arrays.store(0, vec![(0, 5), (64, 6)]);
    arrays.store(-5632, vec![(-64, 7)]);
    arrays.store(0, vec![(128, 8)]);
    let seq = arrays.try_build_tick_sequence(88, 64, ClmmPoolType::Orca).unwrap().unwrap();
    let ticks: Vec<(i32, i128)> = (0..seq.len())
        .map(|i| (seq.get_tick_from_internal_index(i).unwrap(), seq.get_next_liquidity(i)))
        .collect();
    assert_eq!(ticks, vec![(-5632, 0), (-64, 7), (128, 8), (5632, 0)]);
}

#[test]
fn accounts_of_orca() {
    let mut pool = vec![0u8; 86];
    pool[..8].copy_from_slice(&WHIRLPOOL_DISCRIMINATOR);
    pool[42..44].copy_from_slice(&64u16.to_le_bytes());
    pool[46..48].copy_from_slice(&3000u16.to_le_bytes());
    pool[50..66].copy_from_slice(&77u128.to_le_bytes());
    pool[66..82].copy_from_slice(&ONE.to_le_bytes());
    let p = parse_orca_pool(&pool).unwrap();
    assert_eq!((p.tick_spacing, p.fee_rate, p.liquidity, p.sqrt_price), (64, 3000, 77, ONE));
    pool[0] = 0;
    assert!(parse_orca_pool(&pool).is_none());
    assert!(parse_orca_pool(&[0u8; 85]).is_none());

    assert_eq!(try_parse_orca_tick_array(&vec![0u8; 9955], 64), Some(None));
    let mut array = vec![0u8; 9956];
    array[8..12].copy_from_slice(&(-5632i32).to_le_bytes());
    array[12 + 113 * 3] = 1;
    array[13 + 113 * 3..29 + 113 * 3].copy_from_slice(&(-9i128).to_le_bytes());
    assert_eq!(try_parse_orca_tick_array(&array, 64), Some(Some((-5632, vec![(-5440, -9)]))));
    array[8..12].copy_from_slice(&i32::MAX.to_le_bytes());
    assert_eq!(try_parse_orca_tick_array(&array, 64), None);
}

#[test]
fn accounts_of_raydium() {
    assert!(parse_raydium_pool(&vec![0u8; 1543]).is_none());
    let mut pool = vec![0u8; 1544];
    pool[235..237].copy_from_slice(&10u16.to_le_bytes());
    pool[237..253].copy_from_slice(&99u128.to_le_bytes());
    pool[253..269].copy_from_slice(&(3 * ONE).to_le_bytes());
    pool[269..273].copy_from_slice(&(-7i32).to_le_bytes());
    let p = parse_raydium_pool(&pool).unwrap();
    assert_eq!((p.tick_spacing, p.liquidity, p.sqrt_price_x64, p.tick_current), (10, 99, 3 * ONE, -7));
    assert_eq!(try_parse_raydium_tick_array(&vec![0u8; 7003], 10), Some(None));
    let mut array = vec![0u8; 7004];
    array[7000..7004].copy_from_slice(&600i32.to_le_bytes());
    array[44 + 116 * 2..60 + 116 * 2].copy_from_slice(&(-9i128).to_le_bytes());
    array[60 + 116 * 2] = 1;
    assert_eq!(try_parse_raydium_tick_array(&array, 10), Some(Some((600, vec![(620, -9)]))));
}
