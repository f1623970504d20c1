use oathbreaker::field::constants::GOLDILOCKS_PRIME;
use oathbreaker::field::goldilocks::GoldilocksField;
use oathbreaker::field::prime_field::PrimeField;

#[test]
fn test_addition_identity() {
    let a = GoldilocksField::new(42);
    assert_eq!(a + GoldilocksField::zero(), a);
}

#[test]
fn test_multiplication_identity() {
    let a = GoldilocksField::new(42);
    assert_eq!(a * GoldilocksField::one(), a);
}

#[test]
fn test_additive_inverse() {
    let a = GoldilocksField::new(42);
    assert_eq!(a + (-a), GoldilocksField::zero());
}

#[test]
fn test_multiplicative_inverse() {
    let a = GoldilocksField::new(42);
    let a_inv = a.inverse().unwrap();
    assert_eq!(a * a_inv, GoldilocksField::one());
}

#[test]
fn test_zero_has_no_inverse() {
    assert!(GoldilocksField::zero().inverse().is_none());
}

#[test]
fn test_subtraction() {
    let a = GoldilocksField::new(10);
    let b = GoldilocksField::new(3);
    assert_eq!((a - b).to_canonical(), 7);
}

#[test]
fn test_subtraction_underflow() {
    let a = GoldilocksField::new(3);
    let b = GoldilocksField::new(10);
    let result = a - b;
    assert_eq!(result + b, a);
}

#[test]
fn test_edge_cases() {
    let zero = GoldilocksField::zero();
    let one = GoldilocksField::one();
    let p_minus_1 = GoldilocksField::from_canonical(GoldilocksField::P - 1);
    assert_eq!(p_minus_1 + one, zero);
    assert_eq!(p_minus_1 * p_minus_1, one);
}

#[test]
fn test_pow() {
    let a = GoldilocksField::new(3);
    assert_eq!(a.pow(0), GoldilocksField::one());
    assert_eq!(a.pow(1), a);
    assert_eq!(a.pow(2).to_canonical(), 9);
}

#[test]
fn test_commutativity() {
    let a = GoldilocksField::new(123456789);
    let b = GoldilocksField::new(987654321);
    assert_eq!(a + b, b + a);
    assert_eq!(a * b, b * a);
}

#[test]
fn test_distributivity() {
    let a = GoldilocksField::new(111);
    let b = GoldilocksField::new(222);
    let c = GoldilocksField::new(333);
    assert_eq!(a * (b + c), a * b + a * c);
}

#[test]
fn test_legendre_symbol() {
    let one = GoldilocksField::one();
    assert_eq!(one.legendre(), 1);
    assert_eq!(GoldilocksField::zero().legendre(), 0);
}

#[test]
fn test_prime_form() {
    let expected: u128 = (1u128 << 64) - (1u128 << 32) + 1;
    assert_eq!(GOLDILOCKS_PRIME as u128, expected);
}

fn axioms(p: u64) {
    let f = PrimeField::new(p);
    for x in 0..p.min(64) {
        for y in 0..p.min(64) {
            let a = f.elem(x);
            let b = f.elem(y);
            assert_eq!(f.add(a, b).to_canonical(), (x + y) % p);
            assert_eq!(f.sub(a, b).to_canonical(), (x + p - (y % p)) % p);
            assert_eq!(f.mul(a, b).to_canonical(), (x * y) % p);
            assert_eq!(f.add(a, f.zero()), a, "additive identity");
            assert_eq!(f.mul(a, f.one()), a, "multiplicative identity");
            assert_eq!(f.add(a, f.neg(a)), f.zero(), "additive inverse");
            if x != 0 {
                let inv = f.inverse(a).expect("nonzero element has inverse");
                assert_eq!(f.mul(a, inv), f.one(), "multiplicative inverse");
            }
        }
    }
}

#[test]
fn axioms_p_11() {
    axioms(11);
}

#[test]
fn axioms_p_251() {
    axioms(251);
}

#[test]
fn axioms_p_65521() {
    axioms(65521);
}

#[test]
fn equivalence_with_goldilocks_field_for_small_inputs() {
    let f = PrimeField::new(GOLDILOCKS_PRIME);
    for &(x, y) in &[
        (0u64, 0u64),
        (1, 0),
        (0, 1),
        (1, 1),
        (123_456, 789),
        (GOLDILOCKS_PRIME - 1, 1),
        (GOLDILOCKS_PRIME - 1, GOLDILOCKS_PRIME - 1),
        (1u64 << 32, 1u64 << 32),
    ] {
        let a = f.elem(x);
        let b = f.elem(y);
        let ga = GoldilocksField::new(x);
        let gb = GoldilocksField::new(y);
        assert_eq!(f.add(a, b).to_canonical(), (ga + gb).to_canonical(), "add({}, {})", x, y);
        assert_eq!(f.sub(a, b).to_canonical(), (ga - gb).to_canonical(), "sub({}, {})", x, y);
        assert_eq!(f.mul(a, b).to_canonical(), (ga * gb).to_canonical(), "mul({}, {})", x, y);
        assert_eq!(f.neg(a).to_canonical(), (-ga).to_canonical(), "neg({})", x);
        if x != 0 {
            assert_eq!(
                f.inverse(a).unwrap().to_canonical(),
                ga.inverse().unwrap().to_canonical(),
                "inverse({})",
                x
            );
        }
    }
}

#[test]
fn pow_matches_small_exponents() {
    let f = PrimeField::new(11);
    let a = f.elem(2);
    let expected = [1u64, 2, 4, 8, 5, 10, 9, 7, 3, 6, 1];
    for (e, want) in expected.iter().enumerate() {
        assert_eq!(f.pow(a, e as u64).to_canonical(), *want, "2^{} mod 11", e);
    }
}

#[test]
fn fermat_inverse_recovers_each_nonzero() {
    let f = PrimeField::new(11);
    for v in 1..11 {
        let a = f.elem(v);
        let inv = f.inverse(a).unwrap();
        assert_eq!(f.mul(a, inv).to_canonical(), 1, "inverse of {} mod 11", v);
    }
}

#[test]
fn legendre_symbol() {
    let f = PrimeField::new(11);
    let qrs = [1u64, 3, 4, 5, 9];
    for v in 1..11u64 {
        let a = f.elem(v);
        let want = if qrs.contains(&v) { 1 } else { -1 };
        assert_eq!(f.legendre(a), want, "legendre({}/11)", v);
    }
    assert_eq!(f.legendre(f.zero()), 0);
}

#[test]
fn goldilocks_sqrt_squares_back() {
    let three = GoldilocksField::new(3);
    let r = three.sqrt().unwrap();
    assert_eq!(r * r, three);
    assert!(r.to_canonical() <= (-r).to_canonical());
}

#[test]
fn goldilocks_inverse_of_minus_one() {
    let m1 = -GoldilocksField::one();
    assert_eq!(m1.inverse().unwrap(), m1);
}

#[test]
fn every_sampled_element_times_its_inverse_is_one() {
    for v in [1u64, 2, 3, 42, 1 << 32, GOLDILOCKS_PRIME - 1, GOLDILOCKS_PRIME - 2, 0xDEAD_BEEF_CAFE] {
        let a = GoldilocksField::new(v);
        let inv = a.inverse().unwrap();
        assert_eq!(a * inv, GoldilocksField::new(1));
    }
}
