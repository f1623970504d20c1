use oathbreaker::ec::curve::{AffinePoint, CurveParams, JacobianPoint, ModifiedJacobianPoint};
use oathbreaker::ec::double_scalar_mul::double_scalar_mul;
use oathbreaker::ec::ecdlp::{baby_step_giant_step, brute_force, pollard_rho};
use oathbreaker::ec::point_ops::{
    jacobian_double, jacobian_mixed_add, modified_jacobian_double, point_add, point_double, scalar_mul,
    scalar_mul_jacobian,
};
use oathbreaker::ec::point_ops_generic::{self as generic, scalar_mul_generator, PointP};
use oathbreaker::field::goldilocks::GoldilocksField;

/// y² = x³ + x + 3 over the Goldilocks field, generator (0, √3).
fn test_curve() -> CurveParams {
    let a = GoldilocksField::new(1);
    let b = GoldilocksField::new(3);
    let gx = GoldilocksField::new(0);
    let gy_sq = gx * gx * gx + a * gx + b;
    let gy = gy_sq.sqrt().expect("y² = 3 should be a quadratic residue mod p");
    assert_eq!(gy * gy, gy_sq);
    let generator = AffinePoint::Finite { x: gx, y: gy };
    CurveParams { a, b, order: GoldilocksField::P, generator, field_bits: 64, prime_modulus: GoldilocksField::P }
}

fn zero_curve() -> CurveParams {
    CurveParams {
        a: GoldilocksField::zero(),
        b: GoldilocksField::zero(),
        order: 0,
        generator: AffinePoint::Infinity,
        field_bits: 64,
        prime_modulus: GoldilocksField::P,
    }
}

#[test]
fn test_infinity_identity() {
    let p = AffinePoint::Finite { x: GoldilocksField::new(1), y: GoldilocksField::new(2) };
    let inf = AffinePoint::Infinity;
    let curve = zero_curve();
    assert_eq!(point_add(&p, &inf, &curve), p);
    assert_eq!(point_add(&inf, &p, &curve), p);
    assert_eq!(point_add(&inf, &inf, &curve), inf);
}

#[test]
fn test_scalar_mul_zero() {
    let p = AffinePoint::Finite { x: GoldilocksField::new(1), y: GoldilocksField::new(2) };
    let curve = zero_curve();
    assert_eq!(scalar_mul(0, &p, &curve), AffinePoint::Infinity);
}

#[test]
fn test_point_negation() {
    let p = AffinePoint::Finite { x: GoldilocksField::new(5), y: GoldilocksField::new(10) };
    let neg_p = p.neg();
    match neg_p {
        AffinePoint::Finite { x, y } => {
            assert_eq!(x, GoldilocksField::new(5));
            assert_eq!(y, -GoldilocksField::new(10));
        }
        _ => panic!("Expected finite point"),
    }
}

#[test]
fn test_infinity_negation() {
    assert_eq!(AffinePoint::Infinity.neg(), AffinePoint::Infinity);
}

#[test]
fn test_jacobian_scalar_mul_matches_affine() {
    let curve = test_curve();
    let g = &curve.generator;
    for k in [1u64, 2, 3, 5, 7, 10, 42, 100, 255, 1000] {
        let affine_result = scalar_mul(k, g, &curve);
        let jacobian_result = scalar_mul_jacobian(k, g, &curve);
        assert_eq!(affine_result, jacobian_result, "Jacobian and affine scalar mul disagree for k={}", k);
    }
}

#[test]
fn test_jacobian_mixed_add_matches_affine() {
    let curve = test_curve();
    let g = &curve.generator;
    let two_g_affine = point_double(g, &curve);
    let g_jac = JacobianPoint::from_affine(g);
    let two_g_jac = jacobian_mixed_add(&g_jac, g, &curve);
    assert_eq!(two_g_affine, two_g_jac.to_affine());
    let three_g_affine = point_add(g, &two_g_affine, &curve);
    let three_g_jac = jacobian_mixed_add(&two_g_jac, g, &curve);
    assert_eq!(three_g_affine, three_g_jac.to_affine());
}

#[test]
fn test_jacobian_double_matches_affine() {
    let curve = test_curve();
    let g = &curve.generator;
    let two_g_affine = point_double(g, &curve);
    let g_jac = JacobianPoint::from_affine(g);
    let two_g_jac = jacobian_double(&g_jac, &curve);
    assert_eq!(two_g_affine, two_g_jac.to_affine());
    let four_g_affine = point_double(&two_g_affine, &curve);
    let four_g_jac = jacobian_double(&two_g_jac, &curve);
    assert_eq!(four_g_affine, four_g_jac.to_affine());
}

#[test]
fn test_modified_jacobian_double_matches_affine() {
    let curve = test_curve();
    let g = &curve.generator;
    let two_g_affine = point_double(g, &curve);
    let g_mj = ModifiedJacobianPoint::from_affine(g, &curve);
    let two_g_mj = modified_jacobian_double(&g_mj, &curve);
    assert_eq!(two_g_affine, two_g_mj.to_affine());
    let mut mj = two_g_mj;
    let mut affine = two_g_affine;
    for k in [4, 8, 16, 32] {
        affine = point_double(&affine, &curve);
        mj = modified_jacobian_double(&mj, &curve);
        assert_eq!(affine, mj.to_affine(), "Modified Jacobian chain doubling disagrees at {}G", k);
    }
}

#[test]
fn test_modified_jacobian_scalar_mul() {
    let curve = test_curve();
    let g = &curve.generator;
    for k in [2u64, 3, 5, 7, 10, 42, 100, 255] {
        let expected = scalar_mul(k, g, &curve);
        let bits = 64 - k.leading_zeros();
        let mut result_mj = ModifiedJacobianPoint::from_affine(&AffinePoint::Infinity, &curve);
        for i in (0..bits).rev() {
            result_mj = modified_jacobian_double(&result_mj, &curve);
            if (k >> i) & 1 == 1 {
                let jac = result_mj.to_jacobian();
                let sum = jacobian_mixed_add(&jac, g, &curve);
                let z2 = sum.z * sum.z;
                let z4 = z2 * z2;
                result_mj = ModifiedJacobianPoint { x: sum.x, y: sum.y, z: sum.z, az4: curve.a * z4 };
            }
        }
        assert_eq!(expected, result_mj.to_affine(), "Modified Jacobian scalar mul disagrees for k={}", k);
    }
}

#[test]
fn test_on_curve_verification() {
    let curve = test_curve();
    let g = &curve.generator;
    assert!(g.is_on_curve(&curve), "Generator should be on curve");
    for k in [2u64, 3, 5, 10] {
        let p = scalar_mul(k, g, &curve);
        assert!(p.is_on_curve(&curve), "[{}]G should be on curve", k);
    }
}

#[test]
fn test_double_scalar_identity_cases() {}

#[test]
fn test_double_scalar_linearity() {}

#[test]
fn double_scalar_mul_matches_combined_scalar() {
    let curve = test_curve();
    let g = curve.generator;
    let k = 42u64;
    let q = scalar_mul(k, &g, &curve);
    assert_eq!(double_scalar_mul(0, &g, 0, &q, &curve), AffinePoint::Infinity);
    assert_eq!(double_scalar_mul(1, &g, 0, &q, &curve), g);
    assert_eq!(double_scalar_mul(0, &g, 1, &q, &curve), q);
    assert_eq!(double_scalar_mul(3, &g, 5, &q, &curve), scalar_mul(3 + 5 * k, &g, &curve));
}

/// y² = x³ + x + 6 over GF(11), generator (2, 4), order 13.
fn oath4_curve() -> CurveParams {
    CurveParams {
        a: GoldilocksField::new(1),
        b: GoldilocksField::new(6),
        order: 13,
        generator: AffinePoint::Finite { x: GoldilocksField::new(2), y: GoldilocksField::new(4) },
        field_bits: 4,
        prime_modulus: 11,
    }
}

fn oath4_expected_multiples() -> [(Option<u64>, Option<u64>); 13] {
    [
        (None, None),
        (Some(2), Some(4)),
        (Some(5), Some(9)),
        (Some(8), Some(8)),
        (Some(10), Some(9)),
        (Some(3), Some(5)),
        (Some(7), Some(2)),
        (Some(7), Some(9)),
        (Some(3), Some(6)),
        (Some(10), Some(2)),
        (Some(8), Some(3)),
        (Some(5), Some(2)),
        (Some(2), Some(7)),
    ]
}

fn point_to_pair(p: &PointP) -> (Option<u64>, Option<u64>) {
    match p {
        PointP::Infinity => (None, None),
        PointP::Finite { x, y } => (Some(x.to_canonical()), Some(y.to_canonical())),
    }
}

#[test]
fn generator_is_on_curve_over_real_prime() {
    let curve = oath4_curve();
    let fp = curve.prime_field();
    let g = PointP::from_affine(&curve.generator, &fp);
    if let PointP::Finite { x, y } = g {
        let lhs = fp.square(y);
        let rhs = fp.add(fp.add(fp.mul(fp.square(x), x), x), fp.elem(6));
        assert_eq!(lhs, rhs, "generator (2,4) must satisfy curve eq mod 11");
    } else {
        panic!("generator should be finite");
    }
}

#[test]
fn scalar_mul_recovers_oath4_reference_table() {
    let curve = oath4_curve();
    let expected = oath4_expected_multiples();
    for k in 0..13u64 {
        let got = scalar_mul_generator(k, &curve);
        assert_eq!(point_to_pair(&got), expected[k as usize], "[{}]G mismatch on Oath-4", k);
    }
}

#[test]
fn scalar_mul_n_returns_infinity() {
    let curve = oath4_curve();
    let inf = scalar_mul_generator(curve.order, &curve);
    assert_eq!(inf, PointP::Infinity, "[n]G must be the point at infinity");
}

#[test]
fn point_add_satisfies_associativity_on_oath4() {
    let curve = oath4_curve();
    for a in 0..13u64 {
        for b in 0..13u64 {
            for c in 0..13u64 {
                let g_a = scalar_mul_generator(a, &curve);
                let g_b = scalar_mul_generator(b, &curve);
                let g_c = scalar_mul_generator(c, &curve);
                let lhs = generic::point_add(&generic::point_add(&g_a, &g_b, &curve), &g_c, &curve);
                let rhs = generic::point_add(&g_a, &generic::point_add(&g_b, &g_c, &curve), &curve);
                assert_eq!(lhs, rhs, "associativity at ({}, {}, {})", a, b, c);
            }
        }
    }
}

#[test]
fn doubling_matches_self_addition_on_oath4() {
    let curve = oath4_curve();
    for k in 1..13u64 {
        let p = scalar_mul_generator(k, &curve);
        let doubled = generic::point_double(&p, &curve);
        let self_added = generic::point_add(&p, &p, &curve);
        assert_eq!(doubled, self_added, "double vs self-add at k={}", k);
    }
}

#[test]
fn negation_yields_additive_inverse_on_oath4() {
    let curve = oath4_curve();
    let fp = curve.prime_field();
    for k in 1..13u64 {
        let p = scalar_mul_generator(k, &curve);
        let neg = p.neg(&fp);
        let zero = generic::point_add(&p, &neg, &curve);
        assert_eq!(zero, PointP::Infinity, "P + (-P) at k={}", k);
    }
}

#[test]
fn legacy_goldilocks_path_is_wrong_on_oath4() {
    let curve = oath4_curve();
    let legacy = scalar_mul(3, &curve.generator, &curve);
    let generic_pt = scalar_mul_generator(3, &curve).to_affine();
    assert_ne!(legacy, generic_pt);
}

#[test]
fn brute_force_finds_small_secret() {
    let curve = test_curve();
    let g = curve.generator;
    let q = scalar_mul(17, &g, &curve);
    assert_eq!(brute_force(&g, &q, &curve, 100), Some(17));
    assert_eq!(brute_force(&g, &q, &curve, 10), None);
}

#[test]
fn bsgs_solves_oath4() {
    let curve = oath4_curve();
    // Goldilocks-typed arithmetic over a curve whose generator has small order
    // is exercised through the Oath-4 parameters only for the search logic.
    let g = curve.generator;
    let target = g;
    let r = baby_step_giant_step(&g, &target, &curve);
    assert_eq!(r, Some(1));
}

#[test]
fn pollard_rho_returns_checked_secret_or_none() {
    let curve = test_curve();
    let g = curve.generator;
    let q = scalar_mul(5, &g, &curve);
    if let Some(k) = pollard_rho(&g, &q, &CurveParams { order: 1_000_003, ..curve }) {
        assert_eq!(scalar_mul(k, &g, &curve), q);
    }
    assert_eq!(pollard_rho(&g, &q, &CurveParams { order: 0, ..curve }), None);
}

#[test]
fn point_plus_its_negation_is_infinity() {
    let curve = test_curve();
    let g = curve.generator;
    let two_g = point_double(&g, &curve);
    for p in [g, two_g, point_add(&two_g, &g, &curve)] {
        assert_eq!(point_add(&p, &p.neg(), &curve), AffinePoint::Infinity);
        assert_eq!(p.neg().neg(), p);
        assert_eq!(point_add(&p, &p, &curve), point_double(&p, &curve));
    }
}

#[test]
fn jacobian_mixed_add_of_distinct_points_matches_affine() {
    let curve = test_curve();
    let g = curve.generator;
    let two_g = point_double(&g, &curve);
    let five_g = scalar_mul(5, &g, &curve);
    let j = jacobian_double(&JacobianPoint::from_affine(&two_g), &curve);
    let sum = jacobian_mixed_add(&j, &five_g, &curve).to_affine();
    assert_eq!(sum, point_add(&point_double(&two_g, &curve), &five_g, &curve));
    let back = jacobian_mixed_add(&j, &point_double(&two_g, &curve).neg(), &curve).to_affine();
    assert_eq!(back, AffinePoint::Infinity);
}
