//! Prime-generic classical EC arithmetic: reduces against the curve's actual
//! prime modulus rather than the Goldilocks prime.
use crate::ec::curve::{AffinePoint, CurveParams, spec_point_canonical};
use crate::ec::ec_spec::{
    ec_add, ec_double, ec_double_and_add, ec_neg, ec_scalar_mul, fmul, fsub, SpecPoint,
};
use crate::field::goldilocks::GoldilocksField;
use crate::field::prime_field::{lemma_prime_element_eq, PrimeField, PrimeFieldElement};
use vstd::arithmetic::div_mod::{lemma_mod_add_multiples_vanish, lemma_small_mod};
use vstd::prelude::*;

verus! {

/// Prime-generic affine point; coordinates are elements of the curve's field.
#[derive(Clone, Copy, Debug, PartialEq, Eq, Structural, Hash)]
pub enum PointP {
    Infinity,
    Finite { x: PrimeFieldElement, y: PrimeFieldElement },
}

impl View for PointP {
    type V = SpecPoint;

    open spec fn view(&self) -> SpecPoint {
        match self {
            PointP::Infinity => None,
            PointP::Finite { x, y } => Some((x@, y@)),
        }
    }
}

impl PointP {
    /// Both coordinates (if any) belong to the field with modulus m.
    pub open spec fn in_field(self, m: int) -> bool {
        match self {
            PointP::Infinity => true,
            PointP::Finite { x, y } => x.field_modulus() == m && y.field_modulus() == m,
        }
    }

    /// Construct a finite point.
    pub fn finite(x: PrimeFieldElement, y: PrimeFieldElement) -> (r: Self)
        ensures
            r == (PointP::Finite { x, y }),
    {
        Self::Finite { x, y }
    }

    /// Construct from a Goldilocks-typed AffinePoint under the given prime
    /// field, reducing each coordinate against the new modulus.
    pub fn from_affine(p: &AffinePoint, fp: &PrimeField) -> (r: Self)
        ensures
            r.in_field(fp.field_modulus()),
            r@ == match p@ {
                None => None,
                Some((x, y)) => Some((x % fp.field_modulus(), y % fp.field_modulus())),
            },
    {
        match p {
            AffinePoint::Infinity => Self::Infinity,
            AffinePoint::Finite { x, y } => Self::Finite {
                x: fp.elem(x.to_canonical()),
                y: fp.elem(y.to_canonical()),
            },
        }
    }

    /// Convert back to a Goldilocks-typed AffinePoint, keeping the small
    /// numeric values of the coordinates. The modulus must not exceed the
    /// Goldilocks prime.
    pub fn to_affine(&self) -> (r: AffinePoint)
        requires
            self matches PointP::Finite { x, y } ==> x.field_modulus() <= GoldilocksField::P
                && y.field_modulus() <= GoldilocksField::P,
        ensures
            r@ == self@,
    {
        match self {
            Self::Infinity => AffinePoint::Infinity,
            Self::Finite { x, y } => {
                x.canonical_bounds();
                y.canonical_bounds();
                AffinePoint::Finite {
                    x: GoldilocksField::from_canonical(x.to_canonical()),
                    y: GoldilocksField::from_canonical(y.to_canonical()),
                }
            },
        }
    }

    /// Negate this point (reflect across the x-axis).
    pub fn neg(&self, fp: &PrimeField) -> (r: Self)
        requires
            self.in_field(fp.field_modulus()),
        ensures
            r.in_field(fp.field_modulus()),
            r@ == ec_neg(self@, fp.field_modulus()),
    {
        match *self {
            Self::Infinity => Self::Infinity,
            Self::Finite { x, y } => Self::Finite { x, y: fp.neg(y) },
        }
    }
}

/// Distinct canonical values have a nonzero difference modulo m.
proof fn lemma_sub_nonzero_mod(a: int, b: int, m: int)
    requires
        0 <= a < m,
        0 <= b < m,
        a != b,
    ensures
        fsub(a, b, m) != 0,
{
    if a > b {
        lemma_small_mod((a - b) as nat, m as nat);
    } else {
        lemma_mod_add_multiples_vanish(a - b, m);
        lemma_small_mod((a - b + m) as nat, m as nat);
    }
}

/// Twice a nonzero canonical value is nonzero modulo an odd modulus.
proof fn lemma_double_nonzero_mod(y: int, m: int)
    requires
        0 < y < m,
        m % 2 == 1,
    ensures
        fmul(2, y, m) != 0,
{
    if 2 * y < m {
        lemma_small_mod((2 * y) as nat, m as nat);
    } else {
        lemma_mod_add_multiples_vanish(2 * y - m, m);
        lemma_small_mod((2 * y - m) as nat, m as nat);
    }
}

/// The curve coefficient a, reduced into the curve's prime field.
pub open spec fn curve_a_mod(curve: CurveParams) -> int {
    curve.a@ % (curve.prime_modulus as int)
}

/// Affine point addition over the curve's actual prime modulus.
pub fn point_add(p: &PointP, q: &PointP, curve: &CurveParams) -> (r: PointP)
    requires
        curve.prime_modulus > 2,
        curve.prime_modulus % 2 == 1,
        p.in_field(curve.prime_modulus as int),
        q.in_field(curve.prime_modulus as int),
    ensures
        r.in_field(curve.prime_modulus as int),
        r@ == ec_add(p@, q@, curve_a_mod(*curve), curve.prime_modulus as int),
{
    let fp = curve.prime_field();
    match (p, q) {
        (PointP::Infinity, _) => *q,
        (_, PointP::Infinity) => *p,
        (PointP::Finite { x: x1, y: y1 }, PointP::Finite { x: x2, y: y2 }) => {
            x1.canonical_bounds();
            x2.canonical_bounds();
            proof {
                lemma_prime_element_eq(*x1, *x2);
                lemma_prime_element_eq(*y1, *y2);
            }
            if x1 == x2 {
                if y1 == y2 {
                    return point_double(p, curve);
                } else {
                    return PointP::Infinity;
                }
            }
            let dy = fp.sub(*y2, *y1);
            let dx = fp.sub(*x2, *x1);
            proof {
                lemma_sub_nonzero_mod(x2@, x1@, curve.prime_modulus as int);
            }
            let dx_inv = fp.inverse(dx).unwrap();
            let lambda = fp.mul(dy, dx_inv);
            let lambda_sq = fp.square(lambda);
            let x3 = fp.sub(fp.sub(lambda_sq, *x1), *x2);
            let y3 = fp.sub(fp.mul(lambda, fp.sub(*x1, x3)), *y1);
            PointP::Finite { x: x3, y: y3 }
        },
    }
}

/// Affine point doubling over the curve's actual prime modulus.
pub fn point_double(p: &PointP, curve: &CurveParams) -> (r: PointP)
    requires
        curve.prime_modulus > 2,
        curve.prime_modulus % 2 == 1,
        p.in_field(curve.prime_modulus as int),
    ensures
        r.in_field(curve.prime_modulus as int),
        r@ == ec_double(p@, curve_a_mod(*curve), curve.prime_modulus as int),
{
    let fp = curve.prime_field();
    match *p {
        PointP::Infinity => PointP::Infinity,
        PointP::Finite { x, y } => {
            if y.to_canonical() == 0 {
                return PointP::Infinity;
            }
            let three = fp.elem(3);
            let two = fp.elem(2);
            let a = fp.elem(curve.a.to_canonical());
            proof {
                vstd::arithmetic::div_mod::lemma_mul_mod_noop_left(
                    3,
                    x@,
                    curve.prime_modulus as int,
                );
                lemma_small_mod(2, curve.prime_modulus as nat);
            }
            let numerator = fp.add(fp.mul(fp.mul(three, x), x), a);
            let denominator = fp.mul(two, y);
            y.canonical_bounds();
            proof {
                lemma_double_nonzero_mod(y@, curve.prime_modulus as int);
            }
            let denom_inv = fp.inverse(denominator).unwrap();
            let lambda = fp.mul(numerator, denom_inv);
            let lambda_sq = fp.square(lambda);
            let x3 = fp.sub(fp.sub(lambda_sq, x), x);
            let y3 = fp.sub(fp.mul(lambda, fp.sub(x, x3)), y);
            PointP::Finite { x: x3, y: y3 }
        },
    }
}

/// Scalar multiplication via double-and-add over the curve's actual prime.
pub fn scalar_mul(k: u64, p: &PointP, curve: &CurveParams) -> (r: PointP)
    requires
        curve.prime_modulus > 2,
        curve.prime_modulus % 2 == 1,
        p.in_field(curve.prime_modulus as int),
    ensures
        r.in_field(curve.prime_modulus as int),
        r@ == ec_scalar_mul(k as nat, p@, curve_a_mod(*curve), curve.prime_modulus as int),
{
    if k == 0 {
        return PointP::Infinity;
    }
    let mut result = PointP::Infinity;
    let mut base = *p;
    let mut scalar = k;
    while scalar > 0
        invariant
            curve.prime_modulus > 2,
            curve.prime_modulus % 2 == 1,
            result.in_field(curve.prime_modulus as int),
            base.in_field(curve.prime_modulus as int),
            ec_double_and_add(
                result@,
                base@,
                scalar as nat,
                curve_a_mod(*curve),
                curve.prime_modulus as int,
            ) == ec_scalar_mul(k as nat, p@, curve_a_mod(*curve), curve.prime_modulus as int),
        decreases scalar,
    {
        if scalar & 1 == 1 {
            assert(scalar & 1 == 1 ==> scalar % 2 == 1) by (bit_vector);
            result = point_add(&result, &base, curve);
        } else {
            assert(scalar & 1 != 1 ==> scalar % 2 == 0) by (bit_vector);
        }
        base = point_double(&base, curve);
        assert(scalar >> 1 == scalar / 2) by (bit_vector);
        scalar = scalar >> 1;
    }
    result
}

/// Scalar-multiply the curve's generator.
pub fn scalar_mul_generator(k: u64, curve: &CurveParams) -> (r: PointP)
    requires
        curve.prime_modulus > 2,
        curve.prime_modulus % 2 == 1,
    ensures
        r.in_field(curve.prime_modulus as int),
        r@ == ec_scalar_mul(
            k as nat,
            match curve.generator@ {
                None => None,
                Some((x, y)) => Some(
                    (x % (curve.prime_modulus as int), y % (curve.prime_modulus as int)),
                ),
            },
            curve_a_mod(*curve),
            curve.prime_modulus as int,
        ),
{
    let fp = curve.prime_field();
    let g = PointP::from_affine(&curve.generator, &fp);
    scalar_mul(k, &g, curve)
}

} // verus!
