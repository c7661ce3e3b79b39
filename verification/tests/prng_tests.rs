use echo_math::Prng;
use echo_math::PRNG_ALGO_VERSION;

#[test]
fn prng_next_int_returns_single_value_for_equal_bounds() {
    let mut prng = Prng::from_seed(42, 99);
    assert_eq!(prng.next_int(7, 7), 7);
}

#[test]
fn prng_next_int_deterministic_across_calls() {
    let mut a = Prng::from_seed(123, 456);
    let mut b = Prng::from_seed(123, 456);
    for _ in 0..100 {
        assert_eq!(a.next_int(-10, 10), b.next_int(-10, 10));
    }
}

#[test]
fn prng_next_int_respects_bounds() {
    let mut prng = Prng::from_seed(42, 99);
    for _ in 0..1_000 {
        let v = prng.next_int(-10, 10);
        assert!((-10..=10).contains(&v));
    }
    for _ in 0..1_000 {
        let v = prng.next_int(i32::MIN, i32::MAX);
        let _ = v;
    }
}

#[test]
fn prng_next_int_golden_regression() {
    let mut prng = Prng::from_seed(0xDEAD_BEEF, 0xFACE_FEED);
    let values: Vec<i32> = (0..3).map(|_| prng.next_int(i32::MIN, i32::MAX)).collect();
    assert_eq!(values, vec![1_501_347_292, 1_946_982_111, -117_316_573]);
}

#[test]
fn math_tests_next_int_returns_single_value_for_equal_bounds() {
    let mut prng = Prng::from_seed(42, 99);
    assert_eq!(prng.next_int(7, 7), 7);
}

#[test]
fn math_tests_next_int_deterministic_across_calls() {
    let mut a = Prng::from_seed(123, 456);
    let mut b = Prng::from_seed(123, 456);
    for _ in 0..100 {
        assert_eq!(a.next_int(-10, 10), b.next_int(-10, 10));
    }
}

#[test]
fn math_tests_next_int_respects_bounds() {
    let mut prng = Prng::from_seed(42, 99);
    for _ in 0..1_000 {
        let v = prng.next_int(-10, 10);
        assert!((-10..=10).contains(&v));
    }
    for _ in 0..1_000 {
        let v = prng.next_int(i32::MIN, i32::MAX);
        let _ = v;
    }
}

#[test]
fn math_tests_next_int_golden_regression() {
    let mut prng = Prng::from_seed(0xDEAD_BEEF, 0xFACE_FEED);
    let values: Vec<i32> = (0..3).map(|_| prng.next_int(i32::MIN, i32::MAX)).collect();
    assert_eq!(values, vec![1_501_347_292, 1_946_982_111, -117_316_573]);
}

#[test]
fn algorithm_version_is_one() {
    assert_eq!(PRNG_ALGO_VERSION, 1);
}

#[test]
fn next_u64_follows_the_update_rule() {
    let mut prng = Prng::from_seed(1, 2);
    assert_eq!(prng.next_u64(), 0x3);
    assert_eq!(prng.next_u64(), 0x0080_0030_0000_c003);
    assert_eq!(prng.next_u64(), 0x0118_4060_3800_0363);
}

#[test]
fn zero_seed_is_replaced_and_draws_vary() {
    let mut prng = Prng::from_seed(0, 0);
    let first = prng.next_u64();
    let second = prng.next_u64();
    let third = prng.next_u64();
    assert_eq!(first, 0x9e37_79b9_7f4a_7c15);
    assert_eq!(second, 0x3f3d_ff31_2068_34c2);
    assert_eq!(third, 0x4d27_2c3d_d7d6_43dd);
    assert_ne!(first, second);
    assert_ne!(second, third);
    let mut seen_nonzero = 0;
    for _ in 0..1_000 {
        if prng.next_u64() != 0 {
            seen_nonzero += 1;
        }
    }
    assert!(seen_nonzero >= 999);
}

#[test]
fn single_seed_is_expanded_by_two_mixing_rounds() {
    // The two expanded words for seed 0 are 0xe220a8397b1dcdaf and
    // 0x6e789e6aa1b965f4; the first draw is their wrapping sum.
    let mut zero = Prng::from_seed_u64(0);
    let mut pair = Prng::from_seed(0xe220_a839_7b1d_cdaf, 0x6e78_9e6a_a1b9_65f4);
    assert_eq!(
        zero.next_u64(),
        0xe220_a839_7b1d_cdafu64.wrapping_add(0x6e78_9e6a_a1b9_65f4)
    );
    pair.next_u64();
    for _ in 0..100 {
        assert_eq!(zero.next_u64(), pair.next_u64());
    }
    let mut other = Prng::from_seed_u64(12345);
    assert_eq!(other.next_u64(), 0x5680_5f3e_a0e5_0a8d);
    assert_eq!(other.next_u64(), 0xfdef_969e_30bb_2d9a);
}

#[test]
fn equal_seeds_give_equal_sequences_for_ten_thousand_draws() {
    let mut a = Prng::from_seed(0x1234_5678, 0x9abc_def0);
    let mut b = Prng::from_seed(0x1234_5678, 0x9abc_def0);
    for i in 0..10_000 {
        if i % 2 == 0 {
            assert_eq!(a.next_u64(), b.next_u64());
        } else {
            assert_eq!(a.next_int(-1000, 999), b.next_int(-1000, 999));
        }
    }
}

#[test]
fn a_copy_continues_the_same_stream() {
    let mut a = Prng::from_seed(5, 6);
    a.next_u64();
    let mut b = a.clone();
    for _ in 0..100 {
        assert_eq!(a.next_u64(), b.next_u64());
    }
}

#[test]
fn next_int_stays_in_range_over_large_samples() {
    let mut prng = Prng::from_seed(2024, 7);
    for _ in 0..10_000 {
        let v = prng.next_int(-10, 10);
        assert!(-10 <= v && v <= 10);
    }
    for _ in 0..10_000 {
        assert_eq!(prng.next_int(0, 0), 0);
    }
    for _ in 0..10_000 {
        let v = prng.next_int(i32::MIN, i32::MAX);
        assert!(i32::MIN <= v && v <= i32::MAX);
    }
    for _ in 0..10_000 {
        let v = prng.next_int(i32::MAX - 2, i32::MAX);
        assert!(i32::MAX - 2 <= v);
    }
    for _ in 0..10_000 {
        let v = prng.next_int(i32::MIN, i32::MIN + 4);
        assert!(v <= i32::MIN + 4);
    }
}

#[test]
fn next_int_first_values_for_a_span_that_is_no_power_of_two() {
    let mut prng = Prng::from_seed(42, 99);
    let values: Vec<i32> = (0..5).map(|_| prng.next_int(-10, 10)).collect();
    assert_eq!(values, vec![5, 8, -9, -10, 7]);
}

#[test]
fn next_int_with_equal_bounds_returns_the_bound_and_draws_nothing() {
    let mut a = Prng::from_seed(11, 13);
    let mut b = Prng::from_seed(11, 13);
    for k in [i32::MIN, -1, 0, 1, 7, i32::MAX] {
        assert_eq!(a.next_int(k, k), k);
    }
    assert_eq!(a.next_u64(), b.next_u64());
}

#[test]
fn power_of_two_span_shows_no_bias() {
    let mut prng = Prng::from_seed(0xabcdef, 0x123456);
    let mut counts = [0u32; 16];
    let draws = 160_000;
    for _ in 0..draws {
        let v = prng.next_int(0, 15);
        assert!((0..=15).contains(&v));
        counts[v as usize] += 1;
    }
    for c in counts {
        // Each bucket expects 10,000 draws; allow five percent.
        assert!(c > 9_500 && c < 10_500);
    }
}

#[test]
fn power_of_two_span_takes_the_low_bits_of_one_word() {
    let mut a = Prng::from_seed(77, 88);
    let mut b = Prng::from_seed(77, 88);
    for _ in 0..1_000 {
        let word = b.next_u64();
        assert_eq!(a.next_int(-8, 7), ((word & 15) as i32) - 8);
    }
}

#[test]
fn next_f32_bits_decode_to_the_unit_interval() {
    for seed in [0u64, 1, 7, 0xffff_ffff_ffff_ffff, 0x8000_0000_0000_0000] {
        let mut prng = Prng::from_seed(seed, seed.rotate_left(17) ^ 9);
        for _ in 0..10_000 {
            let bits = prng.next_f32_bits();
            assert!(bits >= 0x3f80_0000 && bits < 0x4000_0000);
            let value = f32::from_bits(bits) - 1.0;
            assert!(value >= 0.0);
            assert!(value < 1.0);
        }
    }
}

#[test]
fn next_f32_bits_take_the_top_mantissa_bits() {
    let mut prng = Prng::from_seed(7, 9);
    assert_eq!(prng.next_f32_bits(), 0x3f80_0000);
    assert_eq!(prng.next_f32_bits(), 0x3f81_c000);
    assert_eq!(prng.next_f32_bits(), 0x3f82_78e0);
    let mut a = Prng::from_seed(3, 4);
    let mut b = Prng::from_seed(3, 4);
    for _ in 0..100 {
        let raw = b.next_u64();
        let bits = a.next_f32_bits();
        assert_eq!(bits, ((raw >> 41) as u32) | 0x3f80_0000);
        assert_eq!(f32::from_bits(bits) - 1.0, ((raw >> 41) as f32) / 8_388_608.0);
    }
}
