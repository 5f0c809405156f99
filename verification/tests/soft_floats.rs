//! Floating point in integers, held against the machine's own.
use amm_replay::protocols::solfiv2::float::{f32_add, f32_bits_to_i64};
use amm_replay::protocols::zerofi::float::{
    bpf_correction_mul, bpf_f64_to_int, bpf_fee_to_correction, bpf_int_mul, compute_single, u64_to_f64_raw,
};

const WORDS: [u64; 14] = [
    0,
    1,
    2,
    3,
    0xff,
    0x1234_5678,
    0xff_ffff,
    0x1ff_ffff,
    0x200_0003,
    0xffff_ffff,
    0x1f_ffff_ffff_ffff,
    0x1234_5678_9abc_def0,
    0x7fff_ffff_ffff_ffff,
    0x8000_0000_0000_0000,
];

#[test]
fn single_sums() {
    for a in WORDS {
        for b in WORDS {
            for (x, y) in [(a as i64, b as i64), (a as i64, (b as i64).wrapping_neg())] {
                let sum = (x as f32 + y as f32) as i64;
                assert_eq!(f32_add(x, y), sum, "{x} and {y}");
                assert_eq!(f32_add(y, x), sum, "{y} and {x}");
            }
        }
    }
    assert_eq!(f32_add(16777217, 0), 16777216);
    assert_eq!(f32_add(16777216, 3), 16777220);
}

#[test]
fn whole_parts_of_singles() {
    for v in [0.0f32, 0.99, 1.5, -1.5, 8388607.5, 1e10, -1e18, 9.3e18, -9.3e18, 3e38] {
        assert_eq!(f32_bits_to_i64(v.to_bits()), v as i64, "{v}");
    }
    assert_eq!(f32_bits_to_i64(f32::NAN.to_bits()), 0);
    assert_eq!(f32_bits_to_i64(f32::INFINITY.to_bits()), i64::MAX);
    assert_eq!(f32_bits_to_i64(f32::NEG_INFINITY.to_bits()), i64::MIN);
    assert_eq!(f32_bits_to_i64(1), 0);
}

#[test]
fn integers_as_doubles() {
    for v in [0u64, 1, 3, 1000, 0xffff_ffff, 0x1f_ffff_ffff_ffff, 0x8000_0000_0000_0000] {
        assert_eq!(u64_to_f64_raw(v), (v as f64).to_bits(), "{v}");
    }
    // Bits beyond the fraction are cut, not rounded.
    assert_eq!(f64::from_bits(u64_to_f64_raw(u64::MAX)), 18446744073709549568.0);
}

#[test]
fn doubles_as_integers() {
    for v in [0.0f64, 0.5, 1.0, 1.75, -2.5, 1e15, -4503599627370497.0, 1e18] {
        assert_eq!(bpf_f64_to_int(v.to_bits()), Some(v as i64), "{v}");
    }
    assert_eq!(bpf_f64_to_int((2f64).powi(180).to_bits()), None);
    assert_eq!(bpf_f64_to_int((-(2f64).powi(63)).to_bits()), None);
}

#[test]
fn exact_products_of_doubles() {
    assert_eq!(bpf_int_mul(2.5f64.to_bits(), 6), Some(15.0f64.to_bits()));
    assert_eq!(bpf_int_mul(0.125f64.to_bits(), 1 << 40), Some(((1u64 << 37) as f64).to_bits()));
    assert_eq!(bpf_int_mul(2.5f64.to_bits(), 0), Some(0));
    assert_eq!(bpf_correction_mul(1.5f64.to_bits(), 0.75f64.to_bits()), Some(1.125f64.to_bits()));
    assert_eq!(bpf_correction_mul(1, 1), None);
}

#[test]
fn fees_as_corrections() {
    assert_eq!(bpf_fee_to_correction(0, true), Some(1.0f64.to_bits()));
    assert_eq!(bpf_fee_to_correction(0, false), Some(1.0f64.to_bits()));
    assert_eq!(compute_single(1000, 2.0f64.to_bits(), 0, 0), Some(2000));
}
