use crate::ec::ec_spec::{ec_neg, ec_on_curve, jac_to_affine, SpecPoint};
use crate::field::constants::GOLDILOCKS_PRIME;
use crate::field::goldilocks::{gp, GoldilocksField, lemma_goldilocks_view_eq};
use crate::field::prime_field::PrimeField;
use core::ops::Neg;
use vstd::prelude::*;

verus! {

/// Parameters for an elliptic curve E: y^2 = x^3 + ax + b over GF(p).
///
/// `a`, `b` and the generator's coordinates are stored as canonical u64
/// values; `prime_modulus` is the prime that the generic arithmetic of
/// `point_ops_generic` reduces against. The Goldilocks-typed arithmetic of
/// `point_ops` always reduces modulo the Goldilocks prime.
#[derive(Clone, Copy, Debug)]
pub struct CurveParams {
    /// Coefficient a in the Weierstrass equation.
    pub a: GoldilocksField,
    /// Coefficient b in the Weierstrass equation.
    pub b: GoldilocksField,
    /// The prime order of the curve group #E(GF(p)).
    pub order: u64,
    /// Generator point of the curve group.
    pub generator: AffinePoint,
    /// Number of bits in the field.
    pub field_bits: usize,
    /// The prime modulus `p` of the underlying field GF(p).
    pub prime_modulus: u64,
}

impl CurveParams {
    /// Construct a PrimeField context for this curve's actual modulus.
    pub fn prime_field(&self) -> (r: PrimeField)
        requires
            self.prime_modulus > 2,
        ensures
            r.field_modulus() == self.prime_modulus,
    {
        PrimeField::new(self.prime_modulus)
    }
}

impl Default for CurveParams {
    /// `prime_modulus = GOLDILOCKS_PRIME`, `field_bits = 64`, zero coefficients,
    /// order 0 and the point at infinity as generator.
    fn default() -> (r: Self)
        ensures
            r.a@ == 0,
            r.b@ == 0,
            r.order == 0,
            r.generator@ == None::<(int, int)>,
            r.field_bits == 64,
            r.prime_modulus == GOLDILOCKS_PRIME,
    {
        Self {
            a: GoldilocksField::zero(),
            b: GoldilocksField::zero(),
            order: 0,
            generator: AffinePoint::Infinity,
            field_bits: 64,
            prime_modulus: GoldilocksField::P,
        }
    }
}

/// A point on the elliptic curve in affine coordinates.
#[derive(Clone, Copy, Debug, PartialEq, Eq, Structural, Hash)]
pub enum AffinePoint {
    /// The point at infinity (identity element).
    Infinity,
    /// A finite point (x, y).
    Finite { x: GoldilocksField, y: GoldilocksField },
}

impl View for AffinePoint {
    type V = SpecPoint;

    open spec fn view(&self) -> SpecPoint {
        match self {
            AffinePoint::Infinity => None,
            AffinePoint::Finite { x, y } => Some((x@, y@)),
        }
    }
}

/// Points are equal exactly when their coordinates are.
pub proof fn lemma_affine_view_eq(p: AffinePoint, q: AffinePoint)
    ensures
        (p@ == q@) <==> p == q,
{
    match (p, q) {
        (AffinePoint::Finite { x: x1, y: y1 }, AffinePoint::Finite { x: x2, y: y2 }) => {
            lemma_goldilocks_view_eq(x1, x2);
            lemma_goldilocks_view_eq(y1, y2);
        },
        _ => {},
    }
}

/// Coordinates of an affine point are canonical field values.
pub open spec fn spec_point_canonical(p: SpecPoint, m: int) -> bool {
    match p {
        None => true,
        Some((x, y)) => 0 <= x < m && 0 <= y < m,
    }
}

impl AffinePoint {
    /// Every stored point has canonical coordinates.
    pub fn canonical_bounds(&self)
        ensures
            spec_point_canonical(self@, gp()),
    {
        match self {
            AffinePoint::Infinity => {},
            AffinePoint::Finite { x, y } => {
                x.canonical_bounds();
                y.canonical_bounds();
            },
        }
    }

    /// Create a new finite point.
    pub fn new(x: GoldilocksField, y: GoldilocksField) -> (r: Self)
        ensures
            r@ == Some((x@, y@)),
    {
        Self::Finite { x, y }
    }

    /// Return the point at infinity.
    pub fn infinity() -> (r: Self)
        ensures
            r@ == None::<(int, int)>,
    {
        Self::Infinity
    }

    /// Check if this is the point at infinity.
    pub fn is_infinity(&self) -> (r: bool)
        ensures
            r <==> self@ is None,
    {
        matches!(self, Self::Infinity)
    }

    /// Negate this point (reflect across the x-axis).
    pub fn neg(&self) -> (r: Self)
        ensures
            r@ == ec_neg(self@, gp()),
    {
        match self {
            Self::Infinity => Self::Infinity,
            Self::Finite { x, y } => Self::Finite { x: *x, y: y.neg() },
        }
    }

    /// Check if this point lies on the given curve.
    pub fn is_on_curve(&self, curve: &CurveParams) -> (r: bool)
        ensures
            r == ec_on_curve(self@, curve.a@, curve.b@, gp()),
    {
        match self {
            Self::Infinity => true,
            Self::Finite { x, y } => {
                // y^2 = x^3 + ax + b
                let y2 = *y * *y;
                let x3 = *x * *x * *x;
                let ax = curve.a * *x;
                let rhs = x3 + ax + curve.b;
                proof {
                    lemma_goldilocks_view_eq(y2, rhs);
                }
                y2 == rhs
            },
        }
    }
}

/// A point in Jacobian projective coordinates, standing for (X/Z^2, Y/Z^3).
#[derive(Clone, Copy, Debug)]
pub struct JacobianPoint {
    pub x: GoldilocksField,
    pub y: GoldilocksField,
    pub z: GoldilocksField,
}

impl View for JacobianPoint {
    type V = (int, int, int);

    open spec fn view(&self) -> (int, int, int) {
        (self.x@, self.y@, self.z@)
    }
}

/// Convert a Jacobian point's coordinates to the affine point they stand for,
/// with one field inversion.
fn jacobian_coords_to_affine(x: GoldilocksField, y: GoldilocksField, z: GoldilocksField) -> (r:
    AffinePoint)
    ensures
        r@ == jac_to_affine(x@, y@, z@, gp()),
{
    if z.to_canonical() == 0 {
        return AffinePoint::Infinity;
    }
    let z_inv = z.inverse().unwrap();
    let z_inv2 = z_inv * z_inv;
    let z_inv3 = z_inv2 * z_inv;
    AffinePoint::Finite { x: x * z_inv2, y: y * z_inv3 }
}

impl JacobianPoint {
    /// Convert from affine to Jacobian coordinates.
    pub fn from_affine(p: &AffinePoint) -> (r: Self)
        ensures
            r@ == crate::ec::ec_spec::jac_from_affine(p@),
    {
        match p {
            AffinePoint::Infinity => Self {
                x: GoldilocksField::one(),
                y: GoldilocksField::one(),
                z: GoldilocksField::zero(),
            },
            AffinePoint::Finite { x, y } => Self { x: *x, y: *y, z: GoldilocksField::one() },
        }
    }

    /// Convert from Jacobian back to affine coordinates.
    pub fn to_affine(&self) -> (r: AffinePoint)
        ensures
            r@ == jac_to_affine(self.x@, self.y@, self.z@, gp()),
    {
        jacobian_coords_to_affine(self.x, self.y, self.z)
    }
}

/// A point in Modified Jacobian coordinates (X, Y, Z, aZ⁴), caching aZ⁴ so
/// that a doubling does not recompute it.
#[derive(Clone, Copy, Debug)]
pub struct ModifiedJacobianPoint {
    pub x: GoldilocksField,
    pub y: GoldilocksField,
    pub z: GoldilocksField,
    /// Cached value: a · Z⁴ mod p
    pub az4: GoldilocksField,
}

impl ModifiedJacobianPoint {
    /// Convert from affine to modified Jacobian coordinates.
    pub fn from_affine(p: &AffinePoint, curve: &CurveParams) -> (r: Self)
        ensures
            (r.x@, r.y@, r.z@) == crate::ec::ec_spec::jac_from_affine(p@),
            r.az4@ == (if p@ is None {
                0
            } else {
                curve.a@
            }),
    {
        match p {
            AffinePoint::Infinity => Self {
                x: GoldilocksField::one(),
                y: GoldilocksField::one(),
                z: GoldilocksField::zero(),
                az4: GoldilocksField::zero(),
            },
            AffinePoint::Finite { x, y } => Self {
                x: *x,
                y: *y,
                z: GoldilocksField::one(),
                az4: curve.a,
            },
        }
    }

    /// Convert from modified Jacobian back to affine coordinates.
    pub fn to_affine(&self) -> (r: AffinePoint)
        ensures
            r@ == jac_to_affine(self.x@, self.y@, self.z@, gp()),
    {
        jacobian_coords_to_affine(self.x, self.y, self.z)
    }

    /// Convert to standard Jacobian (drop the cached aZ⁴).
    pub fn to_jacobian(&self) -> (r: JacobianPoint)
        ensures
            r.x == self.x,
            r.y == self.y,
            r.z == self.z,
    {
        JacobianPoint { x: self.x, y: self.y, z: self.z }
    }
}

} // verus!
