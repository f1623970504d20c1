use oathbreaker::group_action::continued_fraction::{
    continued_fraction_convergents, gcd, mod_inverse, recover_secret_direct, recover_secret_multi,
};
use oathbreaker::group_action::measurement::{
    sample_measurement_pair, sample_measurement_pairs, verify_measurement_pair,
};
use oathbreaker::group_action::wnaf::{
    compute_naf, compute_wnaf, wnaf_nonzero_count, wnaf_table_size, wnaf_to_scalar, WnafDigit,
};

// ---------------------------------------------------------------------------
// continued fractions and modular arithmetic
// ---------------------------------------------------------------------------

#[test]
fn continued_fraction_test_mod_inverse_basic() {
    assert_eq!(mod_inverse(3, 11), Some(4));
    assert_eq!(mod_inverse(7, 11), Some(8));
    assert_eq!(mod_inverse(2, 4), None);
    assert_eq!(mod_inverse(1, 97), Some(1));
}

#[test]
fn test_recover_secret_direct_basic() {
    let order = 251u64;
    let k = 42u64;
    let d = 100u64;
    let c = (order as u128 - (k as u128 * d as u128) % order as u128) as u64 % order;
    let recovered = recover_secret_direct(c, d, order);
    assert_eq!(recovered, Some(k));
}

#[test]
fn test_recover_secret_direct_zero_c() {
    let order = 251;
    let recovered = recover_secret_direct(0, 100, order);
    assert_eq!(recovered, Some(0));
}

#[test]
fn test_recover_secret_direct_various_k() {
    let order = 65537u64;
    for k in [0u64, 1, 2, 100, 1000, 65535, 65536] {
        let d = 12345u64;
        let c = ((order as u128 - (k as u128 * d as u128) % order as u128) % order as u128) as u64;
        let recovered = recover_secret_direct(c, d, order);
        assert_eq!(recovered, Some(k), "Failed to recover k={}", k);
    }
}

#[test]
fn test_recover_secret_multi_basic() {
    let order = 251u64;
    let k = 42u64;
    let pairs: Vec<(u64, u64)> = (1..=5u64)
        .map(|d| {
            let c = ((order as u128 - (k as u128 * d as u128) % order as u128) % order as u128)
                as u64;
            (c, d)
        })
        .collect();
    let recovered = recover_secret_multi(&pairs, order);
    assert_eq!(recovered, Some(k));
}

#[test]
fn test_continued_fraction_convergents_basic() {
    let convergents = continued_fraction_convergents(355, 113);
    let last = convergents.last().unwrap();
    assert_eq!(*last, (355, 113));
}

#[test]
fn test_continued_fraction_convergents_simple() {
    let convergents = continued_fraction_convergents(7, 3);
    assert_eq!(convergents, vec![(2, 1), (7, 3)]);
}

#[test]
fn test_continued_fraction_exact() {
    let convergents = continued_fraction_convergents(10, 1);
    assert_eq!(convergents, vec![(10, 1)]);
}

#[test]
fn continued_fraction_test_gcd_basic() {
    assert_eq!(gcd(12, 8), 4);
    assert_eq!(gcd(17, 13), 1);
    assert_eq!(gcd(100, 25), 25);
    assert_eq!(gcd(0, 5), 5);
    assert_eq!(gcd(7, 0), 7);
}

#[test]
fn test_recover_with_non_coprime_d() {
    let order = 13u64;
    let k = 5u64;
    let d1 = 7u64;
    let d2 = 3u64;
    let c1 = ((order as u128 - (k as u128 * d1 as u128) % order as u128) % order as u128) as u64;
    let c2 = ((order as u128 - (k as u128 * d2 as u128) % order as u128) % order as u128) as u64;
    let recovered = recover_secret_multi(&[(c1, d1), (c2, d2)], order);
    assert_eq!(recovered, Some(k));
}

#[test]
fn continued_fraction_zero_denominator() {
    assert_eq!(continued_fraction_convergents(9, 0), vec![(9, 1)]);
}

#[test]
fn continued_fraction_convergents_of_pi_approximation() {
    // 355/113 = [3; 7, 16]
    assert_eq!(continued_fraction_convergents(355, 113), vec![(3, 1), (22, 7), (355, 113)]);
}

#[test]
fn mod_inverse_zero_modulus_and_products() {
    assert_eq!(mod_inverse(5, 0), None);
    for a in 1u64..97 {
        let inv = mod_inverse(a, 97).unwrap();
        assert!(inv < 97);
        assert_eq!((a * inv) % 97, 1);
    }
    assert_eq!(mod_inverse(6, 9), None);
}

#[test]
fn recover_secret_direct_rejects_non_invertible() {
    assert_eq!(recover_secret_direct(3, 0, 251), None);
    assert_eq!(recover_secret_direct(3, 5, 0), None);
    assert_eq!(recover_secret_direct(4, 4, 12), None);
}

#[test]
fn recover_secret_multi_empty_or_zero_order() {
    assert_eq!(recover_secret_multi(&[], 251), None);
    assert_eq!(recover_secret_multi(&[(1, 1)], 0), None);
}

#[test]
fn recover_secret_multi_pairwise_difference() {
    // order 12, secret 5: d = 4 and d = 3 are not invertible, their difference 1 is.
    let order = 12u64;
    let k = 5u64;
    let c1 = (order - (k * 4) % order) % order;
    let c2 = (order - (k * 3) % order) % order;
    let recovered = recover_secret_multi(&[(c1, 4), (c2, 3)], order);
    assert_eq!(recovered, Some(5));
}

// ---------------------------------------------------------------------------
// measurement sampling
// ---------------------------------------------------------------------------

#[test]
fn test_measurement_pair_satisfies_relation() {
    let order = 251;
    let k = 42;
    for seed in 1..=100 {
        let (c, d) = sample_measurement_pair(k, order, seed);
        assert!(
            verify_measurement_pair(c, d, k, order),
            "Pair ({}, {}) should satisfy c + k*d = 0 (mod {})",
            c,
            d,
            order
        );
    }
}

#[test]
fn test_measurement_pairs_batch() {
    let order = 65537;
    let k = 12345;
    let pairs = sample_measurement_pairs(k, order, 50);
    assert_eq!(pairs.len(), 50);
    for (c, d) in &pairs {
        assert!(verify_measurement_pair(*c, *d, k, order));
    }
}

#[test]
fn test_measurement_d_nonzero() {
    let order = 1009;
    let k = 7;
    for seed in 1..=200 {
        let (_, d) = sample_measurement_pair(k, order, seed);
        assert!(d > 0, "d must be non-zero");
        assert!(d < order, "d must be less than order");
    }
}

#[test]
fn test_measurement_c_in_range() {
    let order = 997;
    let k = 500;
    for seed in 1..=100 {
        let (c, _) = sample_measurement_pair(k, order, seed);
        assert!(c < order, "c must be less than order");
    }
}

#[test]
fn measurement_pairs_recover_the_secret() {
    let order = 251;
    let k = 42;
    let pairs = sample_measurement_pairs(k, order, 5);
    assert_eq!(recover_secret_multi(&pairs, order), Some(k));
    for (c, d) in &pairs {
        assert_eq!(recover_secret_direct(*c, *d, order), Some(k));
    }
}

#[test]
fn verify_measurement_pair_rejects_wrong_secret() {
    let (c, d) = sample_measurement_pair(42, 251, 3);
    assert!(verify_measurement_pair(c, d, 42, 251));
    assert!(!verify_measurement_pair(c, d, 43, 251));
}

// ---------------------------------------------------------------------------
// width-w non-adjacent form
// ---------------------------------------------------------------------------

#[test]
fn test_naf_basic_values() {
    assert!(compute_naf(0).is_empty());
    assert_eq!(compute_naf(1), vec![WnafDigit::NonZero(1)]);
    assert_eq!(compute_naf(2), vec![WnafDigit::Zero, WnafDigit::NonZero(1)]);
    assert_eq!(
        compute_naf(3),
        vec![WnafDigit::NonZero(-1), WnafDigit::Zero, WnafDigit::NonZero(1)]
    );
    assert_eq!(
        compute_naf(7),
        vec![WnafDigit::NonZero(-1), WnafDigit::Zero, WnafDigit::Zero, WnafDigit::NonZero(1)]
    );
}

#[test]
fn test_naf_no_adjacent_nonzero() {
    for k in 0..1000 {
        let naf = compute_naf(k);
        for pair in naf.windows(2) {
            assert!(
                pair[0].is_zero() || pair[1].is_zero(),
                "Adjacent non-zero digits in NAF of {}: {:?}",
                k,
                naf,
            );
        }
    }
}

#[test]
fn test_naf_roundtrip() {
    for k in 0..1000 {
        let naf = compute_naf(k);
        let reconstructed = wnaf_to_scalar(&naf);
        assert_eq!(reconstructed, k, "NAF roundtrip failed for k={}: {:?}", k, naf);
    }
}

#[test]
fn test_naf_roundtrip_large() {
    let values = [
        u64::MAX,
        u64::MAX - 1,
        0x8000_0000_0000_0000,
        0xDEAD_BEEF_CAFE_BABE,
        0x0123_4567_89AB_CDEF,
    ];
    for &k in &values {
        let naf = compute_naf(k);
        let reconstructed = wnaf_to_scalar(&naf);
        assert_eq!(reconstructed, k, "NAF roundtrip failed for k={:#x}", k);
    }
}

#[test]
fn test_naf_fewer_nonzero_than_binary() {
    let mut binary_total = 0usize;
    let mut naf_total = 0usize;
    for k in 1u64..1000 {
        binary_total += k.count_ones() as usize;
        naf_total += wnaf_nonzero_count(&compute_naf(k));
    }
    assert!(
        naf_total < binary_total,
        "NAF should have fewer non-zero digits: naf={} vs binary={}",
        naf_total,
        binary_total,
    );
}

#[test]
fn test_wnaf_w3_roundtrip() {
    for k in 0..1000 {
        let wnaf = compute_wnaf(k, 3);
        let reconstructed = wnaf_to_scalar(&wnaf);
        assert_eq!(reconstructed, k, "wNAF(w=3) roundtrip failed for k={}", k);
    }
}

#[test]
fn test_wnaf_w4_roundtrip() {
    for k in 0..1000 {
        let wnaf = compute_wnaf(k, 4);
        let reconstructed = wnaf_to_scalar(&wnaf);
        assert_eq!(reconstructed, k, "wNAF(w=4) roundtrip failed for k={}", k);
    }
}

#[test]
fn test_wnaf_w3_non_adjacency() {
    for k in 0..1000 {
        let wnaf = compute_wnaf(k, 3);
        for window in wnaf.windows(3) {
            let nz = window.iter().filter(|d| !d.is_zero()).count();
            assert!(nz <= 1, "More than 1 non-zero in 3-window for k={}: {:?}", k, wnaf);
        }
    }
}

#[test]
fn test_wnaf_digits_are_odd() {
    for w in 2..=5 {
        for k in 1u64..500 {
            let wnaf = compute_wnaf(k, w);
            for digit in &wnaf {
                if let WnafDigit::NonZero(d) = digit {
                    assert!(
                        d.unsigned_abs() % 2 == 1,
                        "wNAF digit {} is even for k={}, w={}",
                        d,
                        k,
                        w,
                    );
                }
            }
        }
    }
}

#[test]
fn test_wnaf_digit_range() {
    for w in 2u32..=5 {
        let bound = (1i32 << (w - 1)) - 1;
        for k in 1u64..500 {
            let wnaf = compute_wnaf(k, w);
            for digit in &wnaf {
                if let WnafDigit::NonZero(d) = digit {
                    assert!(
                        d.abs() <= bound,
                        "wNAF digit {} out of range [-{}, {}] for k={}, w={}",
                        d,
                        bound,
                        bound,
                        k,
                        w,
                    );
                }
            }
        }
    }
}

#[test]
fn test_wnaf_table_size() {
    assert_eq!(wnaf_table_size(2), 1);
    assert_eq!(wnaf_table_size(3), 2);
    assert_eq!(wnaf_table_size(4), 4);
    assert_eq!(wnaf_table_size(5), 8);
}

#[test]
fn test_table_index_and_sign() {
    assert_eq!(WnafDigit::NonZero(1).table_index_and_sign(), Some((0, false)));
    assert_eq!(WnafDigit::NonZero(-1).table_index_and_sign(), Some((0, true)));
    assert_eq!(WnafDigit::NonZero(3).table_index_and_sign(), Some((1, false)));
    assert_eq!(WnafDigit::NonZero(-5).table_index_and_sign(), Some((2, true)));
    assert_eq!(WnafDigit::Zero.table_index_and_sign(), None);
}

#[test]
fn test_wnaf_higher_w_fewer_nonzero() {
    let k = 0xDEAD_BEEF_CAFE_BABEu64;
    let nz2 = wnaf_nonzero_count(&compute_wnaf(k, 2));
    let nz3 = wnaf_nonzero_count(&compute_wnaf(k, 3));
    let nz4 = wnaf_nonzero_count(&compute_wnaf(k, 4));
    assert!(nz3 <= nz2, "w=3 should have <= non-zero digits than w=2: {} vs {}", nz3, nz2);
    assert!(nz4 <= nz3, "w=4 should have <= non-zero digits than w=3: {} vs {}", nz4, nz3);
}

#[test]
fn wnaf_exact_digits_and_counts() {
    // 13 = 16 - 3 in width 3: digits [-3, 0, 0, 0, 1]
    assert_eq!(
        compute_wnaf(13, 3),
        vec![
            WnafDigit::NonZero(-3),
            WnafDigit::Zero,
            WnafDigit::Zero,
            WnafDigit::Zero,
            WnafDigit::NonZero(1)
        ]
    );
    assert_eq!(wnaf_nonzero_count(&compute_wnaf(13, 3)), 2);
    assert_eq!(wnaf_nonzero_count(&[]), 0);
    assert_eq!(wnaf_table_size(0), 1);
    assert_eq!(wnaf_table_size(1), 1);
    assert_eq!(wnaf_to_scalar(&[]), 0);
}

#[test]
fn last_convergent_is_the_fraction_in_lowest_terms() {
    assert_eq!(continued_fraction_convergents(12, 18), vec![(0, 1), (1, 1), (2, 3)]);
    assert_eq!(*continued_fraction_convergents(100, 75).last().unwrap(), (4, 3));
    assert_eq!(*continued_fraction_convergents(89, 55).last().unwrap(), (89, 55));
}

#[test]
fn recover_secret_multi_falls_back_to_pair_differences() {
    // order 15, k = 4: neither d = 3 nor d = 5 is a unit, their difference is
    let pairs = [(3u64, 3u64), (10, 5)];
    assert_eq!(recover_secret_multi(&pairs, 15), Some(4));
    // equal d's give no usable difference
    assert_eq!(recover_secret_multi(&[(3, 3), (3, 3)], 15), None);
    assert_eq!(recover_secret_multi(&pairs, 0), None);
}

#[test]
fn wnaf_of_any_u64_decodes_back() {
    for k in [0u64, 1, 255, 0x8000_0000_0000_0000, u64::MAX, 0xFFFF_FFFF_0000_0001] {
        for w in [2u32, 5, 16, 32] {
            let digits = compute_wnaf(k, w);
            assert!(digits.len() <= 64 + w as usize);
            assert_eq!(wnaf_to_scalar(&digits), k);
        }
    }
}
