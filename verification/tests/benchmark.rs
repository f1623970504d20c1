use oathbreaker::benchmark::comparison::prior_work_table;
use oathbreaker::benchmark::oath_tiers::{hardcoded_oath64, oath_tiers, window_for_field};
use oathbreaker::benchmark::scaling::scaling_targets;
use oathbreaker::field::constants::GOLDILOCKS_PRIME;
use oathbreaker::field::goldilocks::GoldilocksField;
use oathbreaker::text::truncate::truncate;

#[test]
fn prior_work_entries() {
    let table = prior_work_table();
    assert_eq!(table.len(), 5);
    assert_eq!(table[0].author, "Roetteler et al.");
    assert_eq!(table[0].year, 2017);
    assert_eq!(table[0].qubits, Some(2330));
    assert_eq!(table[0].toffoli, Some(448_000_000_000));
    assert_eq!(table[1].toffoli, Some(126_000_000_000));
    assert_eq!(table[2].qubits, None);
    assert_eq!(table[2].toffoli, Some(50_000_000));
    assert_eq!(table[3].toffoli, None);
    assert!(table.iter().all(|p| p.field_bits == 256));
}

#[test]
fn oath_tier_definitions() {
    let tiers = oath_tiers();
    let names: Vec<&str> = tiers.iter().map(|t| t.name.as_str()).collect();
    assert_eq!(names, vec!["Oath-8", "Oath-16", "Oath-32", "Oath-64"]);
    let bits: Vec<usize> = tiers.iter().map(|t| t.field_bits).collect();
    assert_eq!(bits, vec![8, 16, 32, 64]);
    assert_eq!(tiers[3].estimated_qubits, 700);
    assert_eq!(tiers[3].estimated_toffoli, 17_000_000);
    assert_eq!(tiers[0].target_era, "2026-2027");
}

#[test]
fn window_sizes_divide_field() {
    assert_eq!(window_for_field(8), 4);
    assert_eq!(window_for_field(16), 4);
    assert_eq!(window_for_field(32), 8);
    assert_eq!(window_for_field(64), 8);
    assert_eq!(window_for_field(12), 4);
    for bits in [8usize, 16, 32, 64] {
        assert_eq!(bits % window_for_field(bits), 0);
    }
}

#[test]
fn scaling_targets_from_small_base() {
    let t = scaling_targets(8);
    let sizes: Vec<usize> = t.iter().map(|x| x.0).collect();
    assert_eq!(sizes, vec![8, 16, 32, 64, 128, 256, 384, 521]);
    assert_eq!(t[0].1, "measured baseline");
    assert_eq!(t[1].1, "Oath-16 projection");
    assert_eq!(t[5].1, "Oath-256 / secp256k1");
}

#[test]
fn scaling_targets_mark_measured_base() {
    let t = scaling_targets(32);
    let sizes: Vec<usize> = t.iter().map(|x| x.0).collect();
    assert_eq!(sizes, vec![32, 64, 128, 256, 384, 521]);
    assert_eq!(t[0].1, "Oath-32 (measured)");
    let t = scaling_targets(64);
    assert_eq!(t[0], (64, "Oath-64 (measured)".to_string()));
    assert_eq!(t.len(), 5);
    let t = scaling_targets(16);
    assert_eq!(t[0], (16, "Oath-16 (measured)".to_string()));
}

#[test]
fn oath64_fallback_parameters() {
    let c = hardcoded_oath64();
    assert_eq!(c.field_bits, 64);
    assert_eq!(c.order, 4_020_010_497);
    assert_eq!(c.order as u128, 18_446_744_077_729_562_113u128 % (1u128 << 64));
    assert_eq!(c.a, GoldilocksField::new(1));
    assert_eq!(c.b, GoldilocksField::new(38));
    assert_eq!(c.prime_modulus, GOLDILOCKS_PRIME);
    assert!(c.generator.is_on_curve(&c));
}

#[test]
fn truncate_keeps_short_labels_and_shortens_long_ones() {
    assert_eq!(truncate("short", 24), "short");
    assert_eq!(truncate("exactly ten", 11), "exactly ten");
    assert_eq!(truncate("Windowed arithmetic, Gidney", 10), "Windowe...");
    assert_eq!(truncate("Windowed arithmetic, Gidney", 10).len(), 10);
}
