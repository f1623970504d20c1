use vstd::arithmetic::div_mod::*;
use vstd::arithmetic::mul::*;
use vstd::arithmetic::power::*;
use vstd::prelude::*;

verus! {

/// `b^e mod m`, the value that square-and-multiply computes.
pub open spec fn mod_pow(b: int, e: nat, m: int) -> int {
    pow(b, e) % m
}

/// One square-and-multiply step keeps `result * base^exp (mod m)` unchanged.
pub proof fn lemma_sqmul_step(result: int, base: int, exp: nat, m: int)
    requires
        m > 0,
    ensures
        exp % 2 == 1 ==> ((result * base) % m * pow((base * base) % m, exp / 2)) % m == (result
            * pow(base, exp)) % m,
        exp % 2 == 0 ==> (result * pow((base * base) % m, exp / 2)) % m == (result * pow(
            base,
            exp,
        )) % m,
{
    let h = exp / 2;
    let bb = base * base;
    assert(pow(bb, h) == pow(base, 2 * h)) by {
        lemma_square_is_pow2(base);
        lemma_pow_multiplies(base, 2, h);
    }
    lemma_pow_mod_noop(bb, h, m);
    let q = pow(bb % m, h);
    let r = pow(bb, h);
    // q ≡ r (mod m)
    if exp % 2 == 1 {
        assert(exp == 2 * h + 1);
        assert(pow(base, exp) == base * pow(base, 2 * h)) by {
            lemma_pow_adds(base, 1, 2 * h);
            lemma_pow1(base);
        }
        assert(((result * base) % m * q) % m == ((result * base) * q) % m) by {
            lemma_mul_mod_noop_left(result * base, q, m);
        }
        assert(((result * base) * q) % m == ((result * base) * r) % m) by {
            lemma_mul_mod_noop_right(result * base, q, m);
            lemma_mul_mod_noop_right(result * base, r, m);
        }
        assert((result * base) * r == result * (base * r)) by {
            lemma_mul_is_associative(result, base, r);
        }
    } else {
        assert(exp == 2 * h);
        assert((result * q) % m == (result * r) % m) by {
            lemma_mul_mod_noop_right(result, q, m);
            lemma_mul_mod_noop_right(result, r, m);
        }
    }
}

/// `x * x^0 = x` modulo `m`, the value a finished square-and-multiply loop holds.
pub proof fn lemma_sqmul_done(result: int, base: int, m: int)
    requires
        m > 0,
        0 <= result < m,
    ensures
        (result * pow(base, 0)) % m == result,
{
    lemma_pow0(base);
    lemma_small_mod(result as nat, m as nat);
}

/// The starting point of square-and-multiply: `1 * b^e (mod m)`.
pub proof fn lemma_sqmul_start(base: int, exp: nat, m: int)
    requires
        m > 1,
    ensures
        (1 * pow(base % m, exp)) % m == pow(base, exp) % m,
{
    lemma_pow_mod_noop(base, exp, m);
}

} // verus!
