//! Integer arithmetic beyond the machine's own.
use amm_replay::bytes::{
    read_i128_le, read_i32_le, read_token_balance, read_u128_le, read_u16_le, read_u32_le, read_u64_le,
};
use amm_replay::num::{bit_len_u128, bit_len_u64, div_ceil_u128, isqrt, u64_as_i64};
use amm_replay::order::{arrange, order_by_key};
use amm_replay::protocols::clmm_math::u256::U256;
use amm_replay::wide::{checked_add, checked_mul, difference, distance, product, quotient, to_u128};

#[test]
fn products_and_quotients_undo_each_other() {
    let a: u128 = 0xfedcba98765432100123456789abcdef;
    let b: u128 = 0x123456789abcdef1;
    let p = U256::from_u128(a).mul(U256::from_u128(b));
    assert_eq!(p.high_u128(), 0x121fa00ad77d7423);
    assert_eq!(p.low_u128(), 0x225efa048fac6bddcb8165f098d61fff);
    assert_eq!(p.div_u128(b).low_u128(), a);
    assert_eq!(p.div_ceil_u128(b).low_u128(), a);
    assert_eq!(p.add(U256::from_u128(1)).div_u128(b).low_u128(), a);
    assert_eq!(p.add(U256::from_u128(1)).div_ceil_u128(b).low_u128(), a + 1);
}

#[test]
fn shifts_move_across_the_halves() {
    let one = U256::from_u128(1);
    assert_eq!(one.shl(200), U256::from_halves(1 << 72, 0));
    assert_eq!(one.shl(200).shr(190).low_u64(), 1024);
    assert_eq!(one.shl(200).shr(200), one);
    assert_eq!(one.shl(255).shl(1), U256::zero());
    assert!(one.shl(3).is_less(one.shl(130)));
    assert!(!one.shl(130).is_less(one.shl(130)));
}

#[test]
fn sums_wrap_at_the_top() {
    let top = U256::from_halves(u128::MAX, u128::MAX);
    assert_eq!(top.add(U256::from_u128(1)), U256::zero());
    assert_eq!(checked_add(top, U256::from_u128(1)), None);
    assert_eq!(checked_add(U256::from_u128(u128::MAX), U256::from_u128(1)), Some(U256::from_halves(1, 0)));
    assert_eq!(checked_mul(top, 2), None);
    assert_eq!(checked_mul(U256::from_halves(3, 5), 7), Some(U256::from_halves(21, 35)));
}

#[test]
fn wide_values_divide_by_wide_values() {
    let n = product(u128::MAX, u128::MAX);
    let d = U256::from_halves(1, 0);
    assert_eq!(to_u128(quotient(n, d)), Some(u128::MAX - 1));
    assert_eq!(to_u128(n), None);
    assert_eq!(difference(d, U256::from_u128(1)), U256::from_u128(u128::MAX));
    assert_eq!(distance(U256::from_u128(3), d), distance(d, U256::from_u128(3)));
}

#[test]
fn roots_and_lengths() {
    assert_eq!(isqrt(0), 0);
    assert_eq!(isqrt(15), 3);
    assert_eq!(isqrt(16), 4);
    assert_eq!(isqrt(u128::MAX), u64::MAX as u128);
    assert_eq!(bit_len_u64(0), 0);
    assert_eq!(bit_len_u64(255), 8);
    assert_eq!(bit_len_u128(1 << 127), 128);
    assert_eq!(div_ceil_u128(10, 3), 4);
    assert_eq!(div_ceil_u128(9, 3), 3);
    assert_eq!(u64_as_i64(u64::MAX), -1);
}

#[test]
fn little_endian_words() {
    let data: Vec<u8> = (0..24).map(|i| 0xf0 + i as u8 % 16).collect();
    assert_eq!(read_u16_le(&data, 1), 0xf2f1);
    assert_eq!(read_u32_le(&data, 1), 0xf4f3_f2f1);
    assert_eq!(read_u64_le(&data, 0), 0xf7f6_f5f4_f3f2_f1f0);
    assert_eq!(read_u128_le(&data, 4), u128::from_le_bytes(data[4..20].try_into().unwrap()));
    assert_eq!(read_i32_le(&data, 1), i32::from_le_bytes([0xf1, 0xf2, 0xf3, 0xf4]));
    assert_eq!(read_i128_le(&data, 8), i128::from_le_bytes(data[8..24].try_into().unwrap()));
}

#[test]
fn token_accounts_hold_their_balance_at_64() {
    let mut account = vec![0u8; 72];
    account[64] = 0x39;
    account[65] = 0x30;
    assert_eq!(read_token_balance(&account), Some(12345));
    account.pop();
    assert_eq!(read_token_balance(&account), None);
}

#[test]
fn equal_keys_keep_their_order() {
    let keys = vec![(3, 1), (1, 9), (3, 0), (1, 9), (0, u64::MAX)];
    assert_eq!(order_by_key(&keys), vec![4, 1, 3, 2, 0]);
    assert_eq!(arrange(vec!["a", "b", "c", "d", "e"], &keys), vec!["e", "b", "d", "c", "a"]);
    assert_eq!(order_by_key(&vec![]), Vec::<usize>::new());
}
