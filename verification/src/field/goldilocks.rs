use crate::field::constants::{
    GOLDILOCKS_PRIME, MULTIPLICATIVE_GENERATOR, P_MINUS_ONE_HALF, P_MINUS_TWO,
};
use crate::field::fermat::{lemma_euclid, lemma_goldilocks_prime, lemma_goldilocks_witness, lemma_nonzero_mod_prime};
use crate::field::modmath::{lemma_sqmul_done, lemma_sqmul_start, lemma_sqmul_step, mod_pow};
use vstd::arithmetic::div_mod::*;
use vstd::arithmetic::mul::*;
use vstd::arithmetic::power::*;
use vstd::arithmetic::power2::pow2;
use vstd::prelude::*;
use vstd::std_specs::convert::FromSpecImpl;
use core::ops::Neg;
use vstd::std_specs::ops::{AddSpecImpl, MulSpecImpl, NegSpecImpl, SubSpecImpl};

verus! {

/// The Goldilocks prime as a mathematical integer.
pub open spec fn gp() -> int {
    GOLDILOCKS_PRIME as int
}

/// Field addition on canonical representatives.
pub open spec fn gf_add(a: int, b: int) -> int {
    (a + b) % gp()
}

/// Field subtraction on canonical representatives.
pub open spec fn gf_sub(a: int, b: int) -> int {
    (a - b) % gp()
}

/// Field multiplication on canonical representatives.
pub open spec fn gf_mul(a: int, b: int) -> int {
    (a * b) % gp()
}

/// Field negation on canonical representatives.
pub open spec fn gf_neg(a: int) -> int {
    (-a) % gp()
}

/// Field exponentiation on canonical representatives.
pub open spec fn gf_pow(a: int, e: nat) -> int {
    mod_pow(a, e, gp())
}

/// Legendre symbol as computed by Euler's criterion.
pub open spec fn gf_legendre(a: int) -> i8 {
    if a == 0 {
        0i8
    } else if gf_pow(a, P_MINUS_ONE_HALF as nat) == 1 {
        1i8
    } else {
        -1i8
    }
}

/// An element of GF(p) where p = 2^64 - 2^32 + 1 (the Goldilocks prime).
///
/// The internal representation is a canonical u64 value in [0, p).
#[derive(Clone, Copy, PartialEq, Eq, Structural, Hash, Debug)]
pub struct GoldilocksField(u64);

impl View for GoldilocksField {
    type V = int;

    closed spec fn view(&self) -> int {
        self.0 as int
    }
}

/// Two field elements are equal exactly when their canonical values are.
pub proof fn lemma_goldilocks_view_eq(a: GoldilocksField, b: GoldilocksField)
    ensures
        (a@ == b@) <==> a == b,
{
}

/// 2^64 folds to 2^32 - 1 modulo p.
proof fn lemma_fold(x: int, lo: int, hi: int)
    requires
        x == lo + hi * 0x1_0000_0000_0000_0000,
    ensures
        (lo + hi * 0xFFFF_FFFF) % gp() == x % gp(),
{
    assert(hi * 0x1_0000_0000_0000_0000 == hi * 0xFFFF_FFFF + hi * gp()) by {
        lemma_mul_is_distributive_add(hi, 0xFFFF_FFFF, gp());
    }
    assert(hi * gp() == gp() * hi) by {
        lemma_mul_is_commutative(hi, gp());
    }
    lemma_mod_multiples_vanish(hi, lo + hi * 0xFFFF_FFFF, gp());
}

/// A canonical representative congruent to x is x's remainder.
proof fn lemma_canonical_rep(r: int, x: int)
    requires
        0 <= r < gp(),
        r % gp() == x % gp(),
    ensures
        r == x % gp(),
{
    lemma_small_mod(r as nat, gp() as nat);
}

impl GoldilocksField {
    #[verifier::type_invariant]
    spec fn canonical(self) -> bool {
        self.0 < GOLDILOCKS_PRIME
    }

    pub const P: u64 = GOLDILOCKS_PRIME;

    /// The additive identity.
    pub fn zero() -> (r: Self)
        ensures
            r@ == 0,
    {
        Self(0)
    }

    /// The multiplicative identity.
    pub fn one() -> (r: Self)
        ensures
            r@ == 1,
    {
        Self(1)
    }

    /// Every element is a canonical representative in [0, p).
    pub fn canonical_bounds(&self)
        ensures
            0 <= self@ < gp(),
    {
        proof {
            use_type_invariant(self);
        }
    }

    /// Create a new field element, reducing modulo p.
    pub fn new(value: u64) -> (r: Self)
        ensures
            r@ == value as int % gp(),
    {
        let v = Self::reduce(value as u128);
        Self(v)
    }

    /// Create a field element from a raw value that is already in [0, p).
    pub fn from_canonical(value: u64) -> (r: Self)
        requires
            value < GOLDILOCKS_PRIME,
        ensures
            r@ == value as int,
    {
        Self(value)
    }

    /// Return the canonical u64 representation in [0, p).
    pub fn to_canonical(&self) -> (r: u64)
        ensures
            r as int == self@,
            r < GOLDILOCKS_PRIME,
    {
        proof {
            use_type_invariant(self);
        }
        self.0
    }

    /// Reduce a u128 value modulo p, exploiting p's special form:
    /// 2^64 ≡ 2^32 - 1 (mod p), so a value folds onto its low 64 bits.
    fn reduce(x: u128) -> (r: u64)
        ensures
            r as int == x as int % gp(),
            r < GOLDILOCKS_PRIME,
    {
        let epsilon: u128 = 0xFFFF_FFFF;
        let x_lo = #[verifier::truncate] (x as u64);
        let x_hi = #[verifier::truncate] ((x >> 64u32) as u64);
        assert(x as u64 == x % 0x1_0000_0000_0000_0000u128) by (bit_vector);
        assert(x >> 64u32 == x / 0x1_0000_0000_0000_0000) by (bit_vector);
        assert(x_hi as u128 * epsilon <= 0xFFFF_FFFF_FFFF_FFFFu128 * 0xFFFF_FFFFu128) by (
        nonlinear_arith)
            requires
                x_hi <= 0xFFFF_FFFF_FFFF_FFFFu64,
                epsilon == 0xFFFF_FFFFu128,
        ;
        // First fold: x_lo + x_hi * (2^32 - 1).
        let folded: u128 = x_lo as u128 + (x_hi as u128) * epsilon;
        proof {
            lemma_fundamental_div_mod(x as int, 0x1_0000_0000_0000_0000);
            lemma_fold(x as int, x_lo as int, x_hi as int);
        }
        // Second fold.
        let folded_lo = #[verifier::truncate] (folded as u64);
        let folded_hi = folded >> 64u32;
        assert(folded as u64 == folded % 0x1_0000_0000_0000_0000u128) by (bit_vector);
        assert(folded >> 64u32 == folded / 0x1_0000_0000_0000_0000) by (bit_vector);
        assert(folded_hi <= 0xFFFF_FFFFu128) by {
            lemma_div_is_ordered(
                folded as int,
                (0xFFFF_FFFF_FFFF_FFFF + 0xFFFF_FFFF_FFFF_FFFF * 0xFFFF_FFFF) as int,
                0x1_0000_0000_0000_0000,
            );
        }
        assert(folded_hi * epsilon <= 0xFFFF_FFFFu128 * 0xFFFF_FFFFu128) by (nonlinear_arith)
            requires
                folded_hi <= 0xFFFF_FFFFu128,
                epsilon == 0xFFFF_FFFFu128,
        ;
        let folded_again: u128 = folded_lo as u128 + folded_hi * epsilon;
        proof {
            lemma_fundamental_div_mod(folded as int, 0x1_0000_0000_0000_0000);
            lemma_fold(folded as int, folded_lo as int, folded_hi as int);
        }
        // Final fold.
        let result_lo = #[verifier::truncate] (folded_again as u64);
        let result_hi = folded_again >> 64u32;
        assert(folded_again as u64 == folded_again % 0x1_0000_0000_0000_0000u128) by (bit_vector);
        assert(folded_again >> 64u32 == folded_again / 0x1_0000_0000_0000_0000) by (bit_vector);
        proof {
            lemma_fundamental_div_mod(folded_again as int, 0x1_0000_0000_0000_0000);
            lemma_fold(folded_again as int, result_lo as int, result_hi as int);
            assert(result_hi <= 1) by {
                lemma_div_is_ordered(
                    folded_again as int,
                    (0xFFFF_FFFF_FFFF_FFFF + 0xFFFF_FFFF * 0xFFFF_FFFF) as int,
                    0x1_0000_0000_0000_0000,
                );
            }
        }
        let result: u128 = result_lo as u128 + result_hi * epsilon;
        assert(result < 0x1_0000_0000_0000_0000);
        let result = result as u64;
        if result >= Self::P {
            let r = result - Self::P;
            proof {
                lemma_mod_sub_multiples_vanish(result as int, gp());
                lemma_canonical_rep(r as int, x as int);
            }
            r
        } else {
            proof {
                lemma_canonical_rep(result as int, x as int);
            }
            result
        }
    }
}

impl GoldilocksField {
    /// Compute the multiplicative inverse via Fermat's little theorem: a^(p-2) mod p.
    ///
    /// Returns None if self is zero.
    pub fn inverse(&self) -> (r: Option<Self>)
        ensures
            self@ == 0 ==> r.is_none(),
            self@ != 0 ==> (r matches Some(v) && v@ == gf_pow(self@, P_MINUS_TWO as nat)),
    {
        proof {
            use_type_invariant(self);
        }
        if self.0 == 0 {
            return None;
        }
        Some(self.pow(P_MINUS_TWO))
    }

    /// Compute self^exp mod p via square-and-multiply.
    pub fn pow(&self, exp: u64) -> (r: Self)
        ensures
            r@ == gf_pow(self@, exp as nat),
    {
        proof {
            use_type_invariant(self);
        }
        let mut base = *self;
        let mut result = Self::one();
        let mut e = exp;
        proof {
            lemma_sqmul_start(self@, exp as nat, gp());
            lemma_small_mod(self@ as nat, gp() as nat);
        }
        while e > 0
            invariant
                0 <= result@ < gp(),
                0 <= base@ < gp(),
                (result@ * pow(base@, e as nat)) % gp() == pow(self@, exp as nat) % gp(),
            decreases e,
        {
            proof {
                use_type_invariant(&result);
                use_type_invariant(&base);
                lemma_sqmul_step(result@, base@, e as nat, gp());
            }
            if e & 1 == 1 {
                assert(e & 1 == 1 ==> e % 2 == 1) by (bit_vector);
                result = result * base;
            } else {
                assert(e & 1 != 1 ==> e % 2 == 0) by (bit_vector);
            }
            base = base * base;
            assert(e >> 1 == e / 2) by (bit_vector);
            e = e >> 1;
            proof {
                use_type_invariant(&result);
                use_type_invariant(&base);
            }
        }
        proof {
            lemma_sqmul_done(result@, base@, gp());
        }
        result
    }

    /// Compute the Legendre symbol (self / p).
    /// Returns 1 if self is a quadratic residue, -1 if not, 0 if self is zero.
    pub fn legendre(&self) -> (r: i8)
        ensures
            r == gf_legendre(self@),
    {
        proof {
            use_type_invariant(self);
        }
        if self.0 == 0 {
            return 0;
        }
        let result = self.pow(P_MINUS_ONE_HALF);
        if result.0 == 1 {
            1
        } else {
            -1
        }
    }
}

/// Multiplying two congruent values by the squares of one factor keeps them congruent:
/// if r² ≡ n·t then (r·b)² ≡ n·(t·b²).
proof fn lemma_sqrt_step(r: int, t: int, b: int, n: int)
    requires
        (r * r) % gp() == (n * t) % gp(),
    ensures
        (((r * b) % gp()) * ((r * b) % gp())) % gp() == (n * ((t * ((b * b) % gp())) % gp()))
            % gp(),
{
    let p = gp();
    lemma_mul_mod_noop((r * b), (r * b), p);
    lemma_mul_mod_noop_right(n, t * ((b * b) % p), p);
    lemma_mul_mod_noop_right(t, b * b, p);
    lemma_mul_mod_noop_right(n, t * (b * b), p);
    assert((r * b) * (r * b) == (r * r) * (b * b)) by (nonlinear_arith);
    assert(n * (t * (b * b)) == (n * t) * (b * b)) by (nonlinear_arith);
    lemma_mul_mod_noop_left(r * r, b * b, p);
    lemma_mul_mod_noop_left(n * t, b * b, p);
    // ((n * t) * (b*b)) % p via the right factor reduced
    lemma_mul_mod_noop_right(n, (t * ((b * b) % p)) % p, p);
    lemma_mul_mod_noop_right(n, t * ((b * b) % p), p);
}

/// Raising a reduced power to a power multiplies the exponents.
proof fn lemma_pow_pow_mod(x: int, e1: nat, e2: nat)
    ensures
        pow(pow(x, e1) % gp(), e2) % gp() == pow(x, e1 * e2) % gp(),
{
    lemma_pow_mod_noop(pow(x, e1), e2, gp());
    lemma_pow_multiplies(x, e1, e2);
}

/// The power of a reduced product is the reduced product of the powers.
proof fn lemma_pow_mul_mod(x: int, y: int, e: nat)
    ensures
        pow((x * y) % gp(), e) % gp() == ((pow(x, e) % gp()) * (pow(y, e) % gp())) % gp(),
{
    lemma_pow_mod_noop(x * y, e, gp());
    lemma_pow_distributes(x, y, e);
    lemma_mul_mod_noop(pow(x, e), pow(y, e), gp());
}

/// Squaring the 2^i-th power gives the 2^(i+1)-th power.
proof fn lemma_pow2k_square(x: int, i: nat)
    ensures
        ((pow(x, pow2(i)) % gp()) * (pow(x, pow2(i)) % gp())) % gp() == pow(x, pow2(i + 1)) % gp(),
{
    lemma_mul_mod_noop(pow(x, pow2(i)), pow(x, pow2(i)), gp());
    lemma_pow_adds(x, pow2(i), pow2(i));
    vstd::arithmetic::power2::lemma_pow2_unfold(i + 1);
    assert(pow2(i) + pow2(i) == pow2(i + 1));
}

/// The square roots of one modulo p are 1 and p − 1.
proof fn lemma_square_root_of_one(x: int)
    requires
        0 <= x < gp(),
        (x * x) % gp() == 1,
    ensures
        x == 1 || x == gp() - 1,
{
    lemma_goldilocks_prime();
    let p = gp();
    // (x − 1)(x + 1) = x² − 1 ≡ 0
    assert((x - 1) * (x + 1) == x * x - 1) by (nonlinear_arith);
    lemma_fundamental_div_mod(x * x, p);
    let q = (x * x) / p;
    assert(x * x - 1 == p * q);
    lemma_mod_multiples_basic(q, p);
    assert(q * p == p * q) by (nonlinear_arith);
    if (x - 1) % p != 0 {
        lemma_euclid(p, x - 1, x + 1);
        lemma_fundamental_div_mod(x + 1, p);
        lemma_mod_bound(x + 1, p);
        assert(x + 1 == p * ((x + 1) / p));
        assert((x + 1) / p == 1) by (nonlinear_arith)
            requires
                x + 1 == p * ((x + 1) / p),
                1 <= x + 1 <= p,
                p > 1,
        ;
    } else {
        lemma_fundamental_div_mod(x - 1, p);
        assert(x - 1 == p * ((x - 1) / p));
        assert((x - 1) / p == 0) by (nonlinear_arith)
            requires
                x - 1 == p * ((x - 1) / p),
                -1 <= x - 1 < p - 1,
                p > 1,
        ;
    }
}

/// The negation of a root is again a root.
proof fn lemma_neg_square(r: int)
    requires
        0 <= r < gp(),
    ensures
        (gf_neg(r) * gf_neg(r)) % gp() == (r * r) % gp(),
{
    lemma_mul_mod_noop(-r, -r, gp());
    assert((-r) * (-r) == r * r) by (nonlinear_arith);
}

impl GoldilocksField {
    /// Compute the square root of self modulo p, if it exists.
    ///
    /// Uses the Tonelli-Shanks algorithm. Returns None if self is not a
    /// quadratic residue. A returned root is the smaller of the two roots.
    pub fn sqrt(&self) -> (res: Option<Self>)
        ensures
            self@ == 0 ==> (res matches Some(v) && v@ == 0),
            (self@ != 0 && gf_legendre(self@) != 1) ==> res.is_none(),
            res matches Some(v) ==> gf_mul(v@, v@) == self@,
            res matches Some(v) ==> v@ <= gf_neg(v@),
            (self@ == 0 || gf_legendre(self@) == 1) ==> res.is_some(),
    {
        proof {
            use_type_invariant(self);
        }
        if self.0 == 0 {
            return Some(Self::zero());
        }
        if self.legendre() != 1 {
            return None;
        }
        // p - 1 = 2^32 * (2^32 - 1), so S = 32, Q = 2^32 - 1.
        let s: u32 = 32;
        let q: u64 = 0xFFFF_FFFF;
        let z = Self::from_canonical(MULTIPLICATIVE_GENERATOR);
        let mut m: u32 = s;
        let mut c = z.pow(q);
        let mut t = self.pow(q);
        let mut r = self.pow(0x8000_0000);
        proof {
            let n = self@;
            lemma_goldilocks_prime();
            lemma_small_mod(n as nat, gp() as nat);
            lemma_small_mod(7, gp() as nat);
            lemma_nonzero_mod_prime(gp(), n, n, 0xFFFF_FFFF);
            lemma_nonzero_mod_prime(gp(), 7, 7, 0xFFFF_FFFF);
            // r^2 = n^(Q+1) = n * n^Q
            assert(pow(n, 0x1_0000_0000) == pow(n, 0x8000_0000) * pow(n, 0x8000_0000)) by {
                lemma_pow_adds(n, 0x8000_0000, 0x8000_0000);
            }
            assert(pow(n, 0x1_0000_0000) == n * pow(n, 0xFFFF_FFFF)) by {
                lemma_pow_adds(n, 1, 0xFFFF_FFFF);
                lemma_pow1(n);
            }
            lemma_mul_mod_noop(pow(n, 0x8000_0000), pow(n, 0x8000_0000), gp());
            lemma_mul_mod_noop_right(n, pow(n, 0xFFFF_FFFF), gp());
            lemma_small_mod(n as nat, gp() as nat);
            // t^(2^31) = n^((p−1)/2) = 1 and c^(2^31) = 7^((p−1)/2) = −1
            vstd::arithmetic::power2::lemma2_to64();
            lemma_pow_pow_mod(n, 0xFFFF_FFFF, pow2(31));
            lemma_pow_pow_mod(7, 0xFFFF_FFFF, pow2(31));
            assert(0xFFFF_FFFFnat * pow2(31) == 0x7FFF_FFFF_8000_0000nat);
            lemma_goldilocks_witness();
        }
        loop
            invariant
                0 <= r@ < gp(),
                0 <= t@ < gp(),
                0 <= c@ < gp(),
                0 < self@ < gp(),
                gf_legendre(self@) == 1,
                1 <= m <= 32,
                (r@ * r@) % gp() == (self@ * t@) % gp(),
                t@ != 0,
                c@ != 0,
                pow(t@, pow2((m - 1) as nat)) % gp() == 1,
                pow(c@, pow2((m - 1) as nat)) % gp() == gp() - 1,
            decreases m,
        {
            proof {
                use_type_invariant(&r);
                use_type_invariant(&t);
                use_type_invariant(&c);
            }
            if t.0 == 0 {
                proof {
                    assert(t@ == 0);
                }
                return Some(Self::zero());
            }
            if t.0 == 1 {
                let neg_r = r.neg();
                proof {
                    use_type_invariant(&neg_r);
                    lemma_small_mod((r@ * r@ % gp()) as nat, gp() as nat);
                    lemma_neg_square(r@);
                    lemma_small_mod(self@ as nat, gp() as nat);
                    assert(t@ == 1);
                    assert(self@ * t@ == self@);
                    assert(gf_mul(r@, r@) == self@);
                    assert(gf_mul(gf_neg(r@), gf_neg(r@)) == self@);
                    if r@ != 0 {
                        assert(gf_neg(r@) == gp() - r@) by {
                            lemma_mod_add_multiples_vanish(-r@, gp());
                            lemma_small_mod((gp() - r@) as nat, gp() as nat);
                        }
                        assert(gf_neg(gp() - r@) == r@) by {
                            lemma_small_mod(r@ as nat, gp() as nat);
                        }
                    } else {
                        assert(gf_neg(0) == 0);
                    }
                }
                if r.0 <= neg_r.0 {
                    return Some(r);
                } else {
                    return Some(neg_r);
                }
            }
            // Find the least i such that t^(2^i) = 1
            let mut i: u32 = 0;
            let mut tmp = t;
            proof {
                vstd::arithmetic::power2::lemma2_to64();
                lemma_pow1(t@);
                lemma_small_mod(t@ as nat, gp() as nat);
            }
            while tmp.0 != 1
                invariant
                    i == 0 ==> tmp == t,
                    i < m,
                    1 <= m <= 32,
                    0 <= t@ < gp(),
                    tmp@ == pow(t@, pow2(i as nat)) % gp(),
                    i > 0 ==> pow(t@, pow2((i - 1) as nat)) % gp() != 1,
                    pow(t@, pow2((m - 1) as nat)) % gp() == 1,
                    0 < self@ < gp(),
                    gf_legendre(self@) == 1,
                    t.0 != 1,
                decreases m - i,
            {
                proof {
                    lemma_pow2k_square(t@, i as nat);
                }
                tmp = tmp * tmp;
                i += 1;
                if i >= m {
                    return None;
                }
            }
            // Update: b = c^(2^(m-i-1)), r = r*b, t = t*b^2, c = b^2
            let k: u64 = (m - i - 1) as u64;
            proof {
                vstd::bits::lemma_u64_pow2_no_overflow(k as nat);
                vstd::bits::lemma_u64_shl_is_mul(1, k);
            }
            let exp = 1u64 << k;
            let b = c.pow(exp);
            let ghost r_old = r@;
            let ghost t_old = t@;
            let ghost c_old = c@;
            proof {
                // t^(2^(i−1)) is a square root of one other than one
                let x = pow(t_old, pow2((i - 1) as nat)) % gp();
                lemma_pow2k_square(t_old, (i - 1) as nat);
                lemma_mod_bound(pow(t_old, pow2((i - 1) as nat)), gp());
                lemma_square_root_of_one(x);
                assert(x == gp() - 1);
                // b² = c^(2^(m−i)) and (b²)^(2^(i−1)) = c^(2^(m−1)) = −1
                lemma_pow2k_square(c_old, k as nat);
                vstd::arithmetic::power2::lemma_pow2_adds((m - i) as nat, (i - 1) as nat);
                lemma_pow_pow_mod(c_old, pow2((m - i) as nat), pow2((i - 1) as nat));
                let b2v = pow(c_old, pow2((m - i) as nat)) % gp();
                assert(pow(b2v, pow2((i - 1) as nat)) % gp() == gp() - 1);
                // (t·b²)^(2^(i−1)) = (−1)·(−1) = 1
                lemma_pow_mul_mod(t_old, b2v, pow2((i - 1) as nat));
                assert((gp() - 1) * (gp() - 1) == gp() * (gp() - 2) + 1) by (nonlinear_arith);
                lemma_mod_multiples_vanish(gp() - 2, 1, gp());
                lemma_small_mod(1, gp() as nat);
            }
            proof {
                use_type_invariant(&b);
                lemma_sqrt_step(r_old, t_old, b@, self@);
                lemma_goldilocks_prime();
                lemma_small_mod(c@ as nat, gp() as nat);
                lemma_small_mod(t@ as nat, gp() as nat);
                lemma_nonzero_mod_prime(gp(), c@, c@, exp as nat);
                lemma_mod_bound(pow(c@, exp as nat), gp());
                lemma_small_mod(b@ as nat, gp() as nat);
                lemma_nonzero_mod_prime(gp(), b@, b@, 0);
                lemma_mod_bound(b@ * b@, gp());
                lemma_small_mod(((b@ * b@) % gp()) as nat, gp() as nat);
                lemma_nonzero_mod_prime(gp(), t@, (b@ * b@) % gp(), 0);
            }
            r = r * b;
            let b2 = b * b;
            t = t * b2;
            c = b2;
            m = i;
        }
    }
}

impl core::ops::Add for GoldilocksField {
    type Output = Self;

    fn add(self, rhs: Self) -> (r: Self)
        ensures
            r@ == gf_add(self@, rhs@),
    {
        proof {
            use_type_invariant(&self);
            use_type_invariant(&rhs);
        }
        let sum = self.0 as u128 + rhs.0 as u128;
        Self(Self::reduce(sum))
    }
}

impl AddSpecImpl for GoldilocksField {
    open spec fn obeys_add_spec() -> bool {
        false
    }

    open spec fn add_req(self, rhs: Self) -> bool {
        true
    }

    closed spec fn add_spec(self, rhs: Self) -> Self {
        self
    }
}

impl core::ops::Sub for GoldilocksField {
    type Output = Self;

    fn sub(self, rhs: Self) -> (r: Self)
        ensures
            r@ == gf_sub(self@, rhs@),
    {
        proof {
            use_type_invariant(&self);
            use_type_invariant(&rhs);
        }
        if self.0 >= rhs.0 {
            proof {
                lemma_small_mod((self.0 - rhs.0) as nat, gp() as nat);
            }
            Self(self.0 - rhs.0)
        } else {
            let r = Self::P - (rhs.0 - self.0);
            proof {
                lemma_mod_add_multiples_vanish(self@ - rhs@, gp());
                lemma_small_mod(r as nat, gp() as nat);
            }
            Self(r)
        }
    }
}

impl SubSpecImpl for GoldilocksField {
    open spec fn obeys_sub_spec() -> bool {
        false
    }

    open spec fn sub_req(self, rhs: Self) -> bool {
        true
    }

    closed spec fn sub_spec(self, rhs: Self) -> Self {
        self
    }
}

impl core::ops::Mul for GoldilocksField {
    type Output = Self;

    fn mul(self, rhs: Self) -> (r: Self)
        ensures
            r@ == gf_mul(self@, rhs@),
    {
        proof {
            use_type_invariant(&self);
            use_type_invariant(&rhs);
        }
        assert(self.0 as u128 * rhs.0 as u128 <= 0xFFFF_FFFF_FFFF_FFFFu128
            * 0xFFFF_FFFF_FFFF_FFFFu128) by (nonlinear_arith)
            requires
                self.0 <= 0xFFFF_FFFF_FFFF_FFFFu64,
                rhs.0 <= 0xFFFF_FFFF_FFFF_FFFFu64,
        ;
        let product = self.0 as u128 * rhs.0 as u128;
        Self(Self::reduce(product))
    }
}

impl MulSpecImpl for GoldilocksField {
    open spec fn obeys_mul_spec() -> bool {
        false
    }

    open spec fn mul_req(self, rhs: Self) -> bool {
        true
    }

    closed spec fn mul_spec(self, rhs: Self) -> Self {
        self
    }
}

impl core::ops::Neg for GoldilocksField {
    type Output = Self;

    fn neg(self) -> (r: Self)
        ensures
            r@ == gf_neg(self@),
    {
        proof {
            use_type_invariant(&self);
        }
        if self.0 == 0 {
            Self::zero()
        } else {
            let r = Self::P - self.0;
            proof {
                lemma_mod_add_multiples_vanish(-self@, gp());
                lemma_small_mod(r as nat, gp() as nat);
            }
            Self(r)
        }
    }
}

impl NegSpecImpl for GoldilocksField {
    open spec fn obeys_neg_spec() -> bool {
        false
    }

    open spec fn neg_req(self) -> bool {
        true
    }

    closed spec fn neg_spec(self) -> Self {
        self
    }
}

impl From<u64> for GoldilocksField {
    fn from(value: u64) -> (r: Self)
        ensures
            r@ == value as int % gp(),
    {
        Self::new(value)
    }
}

impl FromSpecImpl<u64> for GoldilocksField {
    open spec fn obeys_from_spec() -> bool {
        false
    }

    closed spec fn from_spec(v: u64) -> Self {
        GoldilocksField((v % GOLDILOCKS_PRIME) as u64)
    }
}

} // verus!
