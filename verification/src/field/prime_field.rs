//! Generic prime-field arithmetic for arbitrary moduli that fit in `u64`.
use crate::field::modmath::{lemma_sqmul_done, lemma_sqmul_start, lemma_sqmul_step, mod_pow};
use vstd::arithmetic::div_mod::{lemma_mod_add_multiples_vanish, lemma_small_mod};
use vstd::arithmetic::power::pow;
use vstd::prelude::*;

verus! {

/// Legendre symbol by Euler's criterion for modulus `m`.
pub open spec fn legendre_spec(a: int, m: int) -> i8 {
    if a == 0 {
        0i8
    } else if mod_pow(a, ((m - 1) / 2) as nat, m) == 1 {
        1i8
    } else {
        -1i8
    }
}

/// Element of GF(p) for a prime `p` carried at runtime.
///
/// Internally the value is canonical: always in `[0, p)`.
#[derive(Clone, Copy, PartialEq, Eq, Structural, Hash, Debug)]
pub struct PrimeFieldElement {
    value: u64,
    modulus: u64,
}

impl View for PrimeFieldElement {
    type V = int;

    closed spec fn view(&self) -> int {
        self.value as int
    }
}

impl PrimeFieldElement {
    #[verifier::type_invariant]
    spec fn canonical(self) -> bool {
        self.modulus > 2 && self.value < self.modulus
    }

    /// The modulus this element is reduced against, as a mathematical integer.
    pub closed spec fn field_modulus(self) -> int {
        self.modulus as int
    }

    /// Every element is a canonical representative of its field.
    pub fn canonical_bounds(&self)
        ensures
            self.field_modulus() > 2,
            0 <= self@ < self.field_modulus(),
    {
        proof {
            use_type_invariant(self);
        }
    }

    /// Canonical representative in `[0, p)`.
    pub fn to_canonical(&self) -> (r: u64)
        ensures
            r as int == self@,
            (r as int) < self.field_modulus(),
    {
        proof {
            use_type_invariant(self);
        }
        self.value
    }

    /// Modulus this element is reduced against.
    pub fn modulus(&self) -> (r: u64)
        ensures
            r as int == self.field_modulus(),
    {
        self.modulus
    }
}

/// Two elements are equal exactly when value and modulus agree.
pub proof fn lemma_prime_element_eq(a: PrimeFieldElement, b: PrimeFieldElement)
    ensures
        (a@ == b@ && a.field_modulus() == b.field_modulus()) <==> a == b,
{
}

/// Runtime-parameterised prime field GF(p) for `p > 2`.
#[derive(Clone, Copy, Debug, PartialEq, Eq, Structural, Hash)]
pub struct PrimeField {
    modulus: u64,
}

impl PrimeField {
    #[verifier::type_invariant]
    spec fn valid(self) -> bool {
        self.modulus > 2
    }

    /// The modulus of this field as a mathematical integer.
    pub closed spec fn field_modulus(self) -> int {
        self.modulus as int
    }

    /// The field's modulus exceeds 2.
    pub fn modulus_bound(&self)
        ensures
            self.field_modulus() > 2,
    {
        proof {
            use_type_invariant(self);
        }
    }

    /// Construct a new field. The modulus must exceed 2.
    pub fn new(modulus: u64) -> (r: Self)
        requires
            modulus > 2,
        ensures
            r.field_modulus() == modulus,
    {
        Self { modulus }
    }

    /// Modulus of this field.
    pub fn modulus(&self) -> (r: u64)
        ensures
            r as int == self.field_modulus(),
    {
        self.modulus
    }

    /// Construct an element by reducing `value` mod `p`.
    pub fn elem(&self, value: u64) -> (r: PrimeFieldElement)
        ensures
            r@ == value as int % self.field_modulus(),
            r.field_modulus() == self.field_modulus(),
    {
        proof {
            use_type_invariant(self);
        }
        PrimeFieldElement { value: value % self.modulus, modulus: self.modulus }
    }

    /// Additive identity in this field.
    pub fn zero(&self) -> (r: PrimeFieldElement)
        ensures
            r@ == 0,
            r.field_modulus() == self.field_modulus(),
    {
        proof {
            use_type_invariant(self);
        }
        PrimeFieldElement { value: 0, modulus: self.modulus }
    }

    /// Multiplicative identity in this field.
    pub fn one(&self) -> (r: PrimeFieldElement)
        ensures
            r@ == 1,
            r.field_modulus() == self.field_modulus(),
    {
        proof {
            use_type_invariant(self);
        }
        PrimeFieldElement { value: 1, modulus: self.modulus }
    }

    /// `a + b` mod `p`.
    pub fn add(&self, a: PrimeFieldElement, b: PrimeFieldElement) -> (r: PrimeFieldElement)
        requires
            a.field_modulus() == self.field_modulus(),
            b.field_modulus() == self.field_modulus(),
        ensures
            r@ == (a@ + b@) % self.field_modulus(),
            r.field_modulus() == self.field_modulus(),
    {
        proof {
            use_type_invariant(self);
            use_type_invariant(&a);
            use_type_invariant(&b);
        }
        let sum = a.value as u128 + b.value as u128;
        let m = self.modulus as u128;
        let reduced = if sum >= m {
            proof {
                lemma_mod_add_multiples_vanish(sum as int - m as int, m as int);
                lemma_small_mod((sum - m) as nat, m as nat);
            }
            (sum - m) as u64
        } else {
            proof {
                lemma_small_mod(sum as nat, m as nat);
            }
            sum as u64
        };
        PrimeFieldElement { value: reduced, modulus: self.modulus }
    }

    /// `a - b` mod `p`.
    pub fn sub(&self, a: PrimeFieldElement, b: PrimeFieldElement) -> (r: PrimeFieldElement)
        requires
            a.field_modulus() == self.field_modulus(),
            b.field_modulus() == self.field_modulus(),
        ensures
            r@ == (a@ - b@) % self.field_modulus(),
            r.field_modulus() == self.field_modulus(),
    {
        proof {
            use_type_invariant(self);
            use_type_invariant(&a);
            use_type_invariant(&b);
        }
        let value = if a.value >= b.value {
            proof {
                lemma_small_mod((a.value - b.value) as nat, self.modulus as nat);
            }
            a.value - b.value
        } else {
            let v = self.modulus - (b.value - a.value);
            proof {
                lemma_mod_add_multiples_vanish(a@ - b@, self.modulus as int);
                lemma_small_mod(v as nat, self.modulus as nat);
            }
            v
        };
        PrimeFieldElement { value, modulus: self.modulus }
    }

    /// `-a` mod `p`.
    pub fn neg(&self, a: PrimeFieldElement) -> (r: PrimeFieldElement)
        requires
            a.field_modulus() == self.field_modulus(),
        ensures
            r@ == (-a@) % self.field_modulus(),
            r.field_modulus() == self.field_modulus(),
    {
        proof {
            use_type_invariant(self);
            use_type_invariant(&a);
        }
        let value = if a.value == 0 {
            0
        } else {
            let v = self.modulus - a.value;
            proof {
                lemma_mod_add_multiples_vanish(-a@, self.modulus as int);
                lemma_small_mod(v as nat, self.modulus as nat);
            }
            v
        };
        PrimeFieldElement { value, modulus: self.modulus }
    }

    /// `a * b` mod `p`. Uses a u128 intermediate to absorb the cross product.
    pub fn mul(&self, a: PrimeFieldElement, b: PrimeFieldElement) -> (r: PrimeFieldElement)
        requires
            a.field_modulus() == self.field_modulus(),
            b.field_modulus() == self.field_modulus(),
        ensures
            r@ == (a@ * b@) % self.field_modulus(),
            r.field_modulus() == self.field_modulus(),
    {
        proof {
            use_type_invariant(self);
            use_type_invariant(&a);
            use_type_invariant(&b);
        }
        assert(a.value as u128 * b.value as u128 <= 0xFFFF_FFFF_FFFF_FFFFu128
            * 0xFFFF_FFFF_FFFF_FFFFu128) by (nonlinear_arith)
            requires
                a.value <= 0xFFFF_FFFF_FFFF_FFFFu64,
                b.value <= 0xFFFF_FFFF_FFFF_FFFFu64,
        ;
        let product = (a.value as u128) * (b.value as u128);
        let reduced = (product % (self.modulus as u128)) as u64;
        PrimeFieldElement { value: reduced, modulus: self.modulus }
    }

    /// `a * a` mod `p`.
    pub fn square(&self, a: PrimeFieldElement) -> (r: PrimeFieldElement)
        requires
            a.field_modulus() == self.field_modulus(),
        ensures
            r@ == (a@ * a@) % self.field_modulus(),
            r.field_modulus() == self.field_modulus(),
    {
        self.mul(a, a)
    }

    /// `base^exp` mod `p` via square-and-multiply.
    pub fn pow(&self, base: PrimeFieldElement, exp: u64) -> (r: PrimeFieldElement)
        requires
            base.field_modulus() == self.field_modulus(),
        ensures
            r@ == mod_pow(base@, exp as nat, self.field_modulus()),
            r.field_modulus() == self.field_modulus(),
    {
        proof {
            use_type_invariant(self);
            use_type_invariant(&base);
        }
        let ghost m = self.field_modulus();
        let mut result = self.one();
        let mut acc = base;
        let mut e = exp;
        proof {
            lemma_sqmul_start(base@, exp as nat, m);
            lemma_small_mod(base@ as nat, m as nat);
        }
        while e > 0
            invariant
                m == self.field_modulus(),
                m > 2,
                result.field_modulus() == m,
                acc.field_modulus() == m,
                0 <= result@ < m,
                0 <= acc@ < m,
                (result@ * pow(acc@, e as nat)) % m == pow(base@, exp as nat) % m,
            decreases e,
        {
            proof {
                lemma_sqmul_step(result@, acc@, e as nat, m);
            }
            if e & 1 == 1 {
                assert(e & 1 == 1 ==> e % 2 == 1) by (bit_vector);
                result = self.mul(result, acc);
            } else {
                assert(e & 1 != 1 ==> e % 2 == 0) by (bit_vector);
            }
            acc = self.square(acc);
            assert(e >> 1 == e / 2) by (bit_vector);
            e = e >> 1;
            proof {
                use_type_invariant(&result);
                use_type_invariant(&acc);
            }
        }
        proof {
            lemma_sqmul_done(result@, acc@, m);
        }
        result
    }

    /// Multiplicative inverse via Fermat: `a^(p-2)` mod `p`. None if `a == 0`.
    pub fn inverse(&self, a: PrimeFieldElement) -> (r: Option<PrimeFieldElement>)
        requires
            a.field_modulus() == self.field_modulus(),
        ensures
            a@ == 0 ==> r.is_none(),
            a@ != 0 ==> (r matches Some(v) && v@ == mod_pow(
                a@,
                (self.field_modulus() - 2) as nat,
                self.field_modulus(),
            ) && v.field_modulus() == self.field_modulus()),
    {
        proof {
            use_type_invariant(self);
        }
        if a.value == 0 {
            return None;
        }
        Some(self.pow(a, self.modulus - 2))
    }

    /// Legendre symbol `(a / p)` returning 1, 0, or -1.
    pub fn legendre(&self, a: PrimeFieldElement) -> (r: i8)
        requires
            a.field_modulus() == self.field_modulus(),
        ensures
            r == legendre_spec(a@, self.field_modulus()),
    {
        proof {
            use_type_invariant(self);
        }
        if a.value == 0 {
            return 0;
        }
        let result = self.pow(a, (self.modulus - 1) / 2);
        if result.value == 1 {
            1
        } else {
            -1
        }
    }
}

} // verus!
