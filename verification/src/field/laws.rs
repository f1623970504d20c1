use crate::field::constants::{P_MINUS_ONE_HALF, P_MINUS_TWO};
use crate::field::fermat::{is_prime, lemma_fermat_little, lemma_goldilocks_prime};
use crate::field::goldilocks::{gf_add, gf_legendre, gf_mul, gf_neg, gf_pow, gf_sub, gp};
use crate::field::modmath::mod_pow;
use crate::field::prime_field::legendre_spec;
use vstd::arithmetic::div_mod::{
    lemma_add_mod_noop, lemma_mod_self_0, lemma_mul_mod_noop_left, lemma_mul_mod_noop_right,
    lemma_small_mod, lemma_sub_mod_noop,
};
use vstd::arithmetic::mul::{lemma_mul_is_associative, lemma_mul_is_distributive_add};
use vstd::prelude::*;

verus! {

/// Addition in GF(p) is commutative.
pub proof fn lemma_gf_add_commutative(a: int, b: int)
    ensures
        gf_add(a, b) == gf_add(b, a),
{
}

/// Multiplication in GF(p) is commutative.
pub proof fn lemma_gf_mul_commutative(a: int, b: int)
    ensures
        gf_mul(a, b) == gf_mul(b, a),
{
    assert(a * b == b * a) by (nonlinear_arith);
}

/// Addition in GF(p) is associative.
pub proof fn lemma_gf_add_associative(a: int, b: int, c: int)
    ensures
        gf_add(gf_add(a, b), c) == gf_add(a, gf_add(b, c)),
{
    vstd::arithmetic::div_mod::lemma_add_mod_noop_right(c, a + b, gp());
    vstd::arithmetic::div_mod::lemma_add_mod_noop_right(a, b + c, gp());
    assert((a + b) % gp() + c == c + (a + b) % gp());
}

proof fn lemma_mod_twice_helper(x: int, m: int)
    requires
        m > 0,
    ensures
        (x % m) % m == x % m,
{
    vstd::arithmetic::div_mod::lemma_mod_twice(x, m);
}

/// Multiplication in GF(p) is associative.
pub proof fn lemma_gf_mul_associative(a: int, b: int, c: int)
    ensures
        gf_mul(gf_mul(a, b), c) == gf_mul(a, gf_mul(b, c)),
{
    lemma_mul_mod_noop_left(a * b, c, gp());
    lemma_mul_mod_noop_right(a, b * c, gp());
    lemma_mul_is_associative(a, b, c);
}

/// Multiplication distributes over addition in GF(p).
pub proof fn lemma_gf_distributive(a: int, b: int, c: int)
    ensures
        gf_mul(a, gf_add(b, c)) == gf_add(gf_mul(a, b), gf_mul(a, c)),
{
    lemma_mul_mod_noop_right(a, b + c, gp());
    lemma_mul_is_distributive_add(a, b, c);
    lemma_add_mod_noop(a * b, a * c, gp());
}

/// Zero is the additive identity on canonical elements.
pub proof fn lemma_gf_add_identity(a: int)
    requires
        0 <= a < gp(),
    ensures
        gf_add(a, 0) == a,
{
    lemma_small_mod(a as nat, gp() as nat);
}

/// One is the multiplicative identity on canonical elements.
pub proof fn lemma_gf_mul_identity(a: int)
    requires
        0 <= a < gp(),
    ensures
        gf_mul(a, 1) == a,
{
    lemma_small_mod(a as nat, gp() as nat);
}

/// Every element plus its negation is zero.
pub proof fn lemma_gf_additive_inverse(a: int)
    requires
        0 <= a < gp(),
    ensures
        gf_add(a, gf_neg(a)) == 0,
{
    lemma_add_mod_noop(a, -a, gp());
    lemma_small_mod(a as nat, gp() as nat);
    lemma_mod_self_0(gp());
    assert(0int % gp() == 0);
    lemma_mod_twice_helper(-a, gp());
    lemma_add_mod_noop(a, -a, gp());
}

/// Subtracting and adding back the same element is the identity.
pub proof fn lemma_gf_sub_add_cancel(a: int, b: int)
    requires
        0 <= a < gp(),
    ensures
        gf_add(gf_sub(a, b), b) == a,
{
    lemma_add_mod_noop(a - b, b, gp());
    lemma_mod_twice_helper(b, gp());
    lemma_add_mod_noop(a - b, b, gp());
    lemma_small_mod(a as nat, gp() as nat);
}

/// Modulo a prime p, a nonzero residue times its power a^(p−2) is one:
/// exponentiation by p − 2 inverts.
pub proof fn lemma_mod_pow_inverse(p: int, a: int)
    requires
        is_prime(p),
        0 < a < p,
    ensures
        (a * mod_pow(a, (p - 2) as nat, p)) % p == 1,
{
    lemma_small_mod(a as nat, p as nat);
    lemma_fermat_little(p, a);
    let t = vstd::arithmetic::power::pow(a, (p - 2) as nat);
    assert(vstd::arithmetic::power::pow(a, (p - 1) as nat) == a * t) by {
        vstd::arithmetic::power::lemma_pow_adds(a, 1, (p - 2) as nat);
        vstd::arithmetic::power::lemma_pow1(a);
    }
    lemma_mul_mod_noop_right(a, t, p);
}

/// Every nonzero element of GF(p) times its inverse a^(p−2) is one.
pub proof fn lemma_gf_mul_inverse(a: int)
    requires
        0 < a < gp(),
    ensures
        gf_mul(a, gf_pow(a, P_MINUS_TWO as nat)) == 1,
{
    lemma_goldilocks_prime();
    lemma_mod_pow_inverse(gp(), a);
}

/// The axioms of Z/mZ on canonical residues that the prime-field element
/// operations satisfy: zero and one are identities, a + (−a) = 0 and
/// (a − b) + b = a.
pub proof fn lemma_residue_axioms(m: int, a: int, b: int)
    requires
        m > 1,
        0 <= a < m,
        0 <= b < m,
    ensures
        (a + 0) % m == a,
        (a * 1) % m == a,
        (a + (-a) % m) % m == 0,
        ((a - b) % m + b) % m == a,
{
    lemma_small_mod(a as nat, m as nat);
    lemma_add_mod_noop(a, -a, m);
    lemma_small_mod(0, m as nat);
    lemma_mod_twice_helper(-a, m);
    lemma_add_mod_noop(a, -a, m);
    lemma_small_mod(b as nat, m as nat);
    lemma_add_mod_noop(a - b, b, m);
    assert(a - b + b == a);
}

/// Euler's criterion for squares: modulo an odd prime p, a nonzero square
/// raised to (p − 1)/2 is one.
pub proof fn lemma_square_euler(p: int, x: int)
    requires
        is_prime(p),
        p % 2 == 1,
        0 < x < p,
    ensures
        mod_pow((x * x) % p, ((p - 1) / 2) as nat, p) == 1,
{
    let e = ((p - 1) / 2) as nat;
    lemma_small_mod(x as nat, p as nat);
    lemma_fermat_little(p, x);
    vstd::arithmetic::power::lemma_pow_mod_noop(x * x, e, p);
    vstd::arithmetic::power::lemma_square_is_pow2(x);
    vstd::arithmetic::power::lemma_pow_multiplies(x, 2, e);
    assert(2 * e == p - 1);
}

/// Every nonzero square of GF(p) has Legendre symbol one.
pub proof fn lemma_gf_square_legendre(x: int)
    requires
        0 < x < gp(),
    ensures
        gf_legendre(gf_mul(x, x)) == 1,
{
    lemma_goldilocks_prime();
    lemma_square_euler(gp(), x);
    assert((gp() - 1) / 2 == P_MINUS_ONE_HALF as int);
    crate::field::fermat::lemma_nonzero_mod_prime(gp(), x, x, 0);
}

/// Over an odd prime modulus, every nonzero square has Legendre symbol one.
pub proof fn lemma_prime_square_legendre(p: int, x: int)
    requires
        is_prime(p),
        p % 2 == 1,
        0 < x < p,
    ensures
        legendre_spec((x * x) % p, p) == 1,
{
    lemma_square_euler(p, x);
    lemma_small_mod(x as nat, p as nat);
    crate::field::fermat::lemma_nonzero_mod_prime(p, x, x, 0);
}

} // verus!
