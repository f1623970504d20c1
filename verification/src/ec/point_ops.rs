use crate::ec::curve::{
    AffinePoint, CurveParams, JacobianPoint, ModifiedJacobianPoint, lemma_affine_view_eq,
};
use crate::ec::ec_spec::{
    ec_add, ec_double, ec_double_and_add, ec_scalar_mul, fmul, fsub, jac_double, jac_double_cached,
    jac_from_affine, jac_ladder, jac_mixed_add,
};
use crate::field::goldilocks::{gp, GoldilocksField, lemma_goldilocks_view_eq};
use vstd::arithmetic::div_mod::{lemma_mod_add_multiples_vanish, lemma_small_mod};
use vstd::arithmetic::power2::pow2;
use vstd::bits::lemma_u64_shr_is_div;
use vstd::prelude::*;
use vstd::std_specs::bits::{axiom_u64_leading_zeros, u64_leading_zeros};

verus! {

/// Distinct canonical values have a nonzero difference modulo p.
proof fn lemma_sub_nonzero(a: int, b: int)
    requires
        0 <= a < gp(),
        0 <= b < gp(),
        a != b,
    ensures
        fsub(a, b, gp()) != 0,
{
    if a > b {
        lemma_small_mod((a - b) as nat, gp() as nat);
    } else {
        lemma_mod_add_multiples_vanish(a - b, gp());
        lemma_small_mod((a - b + gp()) as nat, gp() as nat);
    }
}

/// Twice a nonzero canonical value is nonzero modulo the odd prime p.
proof fn lemma_double_nonzero(y: int)
    requires
        0 < y < gp(),
    ensures
        fmul(2, y, gp()) != 0,
{
    if 2 * y < gp() {
        lemma_small_mod((2 * y) as nat, gp() as nat);
    } else {
        lemma_mod_add_multiples_vanish(2 * y - gp(), gp());
        lemma_small_mod((2 * y - gp()) as nat, gp() as nat);
    }
}

/// Add two affine points on the curve, handling the identity, inverse-pair
/// and doubling cases.
pub fn point_add(p: &AffinePoint, q: &AffinePoint, curve: &CurveParams) -> (r: AffinePoint)
    ensures
        r@ == ec_add(p@, q@, curve.a@, gp()),
{
    match (p, q) {
        (AffinePoint::Infinity, _) => *q,
        (_, AffinePoint::Infinity) => *p,
        (AffinePoint::Finite { x: x1, y: y1 }, AffinePoint::Finite { x: x2, y: y2 }) => {
            x1.canonical_bounds();
            x2.canonical_bounds();
            proof {
                lemma_goldilocks_view_eq(*x1, *x2);
                lemma_goldilocks_view_eq(*y1, *y2);
            }
            if x1 == x2 {
                if y1 == y2 {
                    // P == Q, use doubling
                    return point_double(p, curve);
                } else {
                    // P == -Q
                    return AffinePoint::Infinity;
                }
            }
            // General case: lambda = (y2 - y1) / (x2 - x1)

            let dy = *y2 - *y1;
            let dx = *x2 - *x1;
            proof {
                lemma_sub_nonzero(x2@, x1@);
            }
            let dx_inv = dx.inverse().unwrap();
            let lambda = dy * dx_inv;
            let x3 = lambda * lambda - *x1 - *x2;
            let y3 = lambda * (*x1 - x3) - *y1;
            AffinePoint::Finite { x: x3, y: y3 }
        },
    }
}

/// Double an affine point using the tangent slope (3x² + a) / (2y).
pub fn point_double(p: &AffinePoint, curve: &CurveParams) -> (r: AffinePoint)
    ensures
        r@ == ec_double(p@, curve.a@, gp()),
{
    match p {
        AffinePoint::Infinity => AffinePoint::Infinity,
        AffinePoint::Finite { x, y } => {
            if y.to_canonical() == 0 {
                return AffinePoint::Infinity;
            }
            let three = GoldilocksField::from_canonical(3);
            let two = GoldilocksField::from_canonical(2);
            let numerator = three * *x * *x + curve.a;
            let denominator = two * *y;
            y.canonical_bounds();
            proof {
                lemma_double_nonzero(y@);
            }
            let denom_inv = denominator.inverse().unwrap();
            let lambda = numerator * denom_inv;
            let x3 = lambda * lambda - *x - *x;
            let y3 = lambda * (*x - x3) - *y;
            AffinePoint::Finite { x: x3, y: y3 }
        },
    }
}

/// Scalar multiplication via right-to-left double-and-add: compute [k]P.
pub fn scalar_mul(k: u64, p: &AffinePoint, curve: &CurveParams) -> (r: AffinePoint)
    ensures
        r@ == ec_scalar_mul(k as nat, p@, curve.a@, gp()),
{
    if k == 0 {
        return AffinePoint::Infinity;
    }
    let mut result = AffinePoint::Infinity;
    let mut base = *p;
    let mut scalar = k;
    while scalar > 0
        invariant
            ec_double_and_add(result@, base@, scalar as nat, curve.a@, gp()) == ec_scalar_mul(
                k as nat,
                p@,
                curve.a@,
                gp(),
            ),
        decreases scalar,
    {
        if scalar & 1 == 1 {
            assert(scalar & 1 == 1 ==> scalar % 2 == 1) by (bit_vector);
            result = point_add(&result, &base, curve);
        } else {
            assert(scalar & 1 != 1 ==> scalar % 2 == 0) by (bit_vector);
        }
        base = point_double(&base, curve);
        assert(scalar >> 1 == scalar / 2) by (bit_vector);
        scalar = scalar >> 1;
    }
    result
}

/// Jacobian point doubling: 2P without inversions (4M + 4S + 6A).
pub fn jacobian_double(p: &JacobianPoint, curve: &CurveParams) -> (r: JacobianPoint)
    ensures
        r@ == jac_double(p.x@, p.y@, p.z@, curve.a@, gp()),
{
    // Identity check: Z == 0 → point at infinity
    if p.z.to_canonical() == 0 {
        return *p;
    }
    let two = GoldilocksField::from_canonical(2);
    let three = GoldilocksField::from_canonical(3);
    let four = GoldilocksField::from_canonical(4);
    let eight = GoldilocksField::from_canonical(8);
    // A = Y1²
    let a = p.y * p.y;
    // B = 4 · X1 · A
    let b = four * p.x * a;
    // C = 8 · A²
    let c = eight * a * a;
    // D = 3 · X1² + a_curve · Z1⁴
    let z2 = p.z * p.z;
    let z4 = z2 * z2;
    let d = three * p.x * p.x + curve.a * z4;
    // X3 = D² - 2·B
    let x3 = d * d - two * b;
    // Y3 = D · (B - X3) - C
    let y3 = d * (b - x3) - c;
    // Z3 = 2 · Y1 · Z1
    let z3 = two * p.y * p.z;
    JacobianPoint { x: x3, y: y3, z: z3 }
}

/// Modified Jacobian doubling: uses the cached aZ⁴ and returns the doubled
/// point together with its own aZ⁴ = 2 · 8Y⁴ · aZ⁴ (3M + 4S).
pub fn modified_jacobian_double(p: &ModifiedJacobianPoint, curve: &CurveParams) -> (r:
    ModifiedJacobianPoint)
    ensures
        (r.x@, r.y@, r.z@, r.az4@) == jac_double_cached(p.x@, p.y@, p.z@, p.az4@, gp()),
{
    if p.z.to_canonical() == 0 {
        return *p;
    }
    let two = GoldilocksField::from_canonical(2);
    let three = GoldilocksField::from_canonical(3);
    let four = GoldilocksField::from_canonical(4);
    let eight = GoldilocksField::from_canonical(8);
    let a = p.y * p.y;
    let b = four * p.x * a;
    let c = eight * a * a;
    let d = three * p.x * p.x + p.az4;
    let x3 = d * d - two * b;
    let y3 = d * (b - x3) - c;
    let z3 = two * p.y * p.z;
    let az4 = two * c * p.az4;
    ModifiedJacobianPoint { x: x3, y: y3, z: z3, az4 }
}

/// Mixed Jacobian–affine addition: P (Jacobian) + Q (affine), no inversion.
pub fn jacobian_mixed_add(p: &JacobianPoint, q: &AffinePoint, curve: &CurveParams) -> (r:
    JacobianPoint)
    ensures
        r@ == jac_mixed_add(p.x@, p.y@, p.z@, q@, curve.a@, gp()),
{
    if p.z.to_canonical() == 0 {
        return JacobianPoint::from_affine(q);
    }
    match q {
        AffinePoint::Infinity => *p,
        AffinePoint::Finite { x: x2, y: y2 } => {
            let z1_sq = p.z * p.z;
            let z1_cu = z1_sq * p.z;
            let u2 = *x2 * z1_sq;
            let s2 = *y2 * z1_cu;
            let h = u2 - p.x;
            let r = s2 - p.y;
            if h.to_canonical() == 0 {
                if r.to_canonical() == 0 {
                    return jacobian_double(p, curve);
                } else {
                    return JacobianPoint {
                        x: GoldilocksField::one(),
                        y: GoldilocksField::one(),
                        z: GoldilocksField::zero(),
                    };
                }
            }
            let h_sq = h * h;
            let h_cu = h_sq * h;
            let two = GoldilocksField::from_canonical(2);
            let x3 = r * r - h_cu - two * p.x * h_sq;
            let y3 = r * (p.x * h_sq - x3) - p.y * h_cu;
            let z3 = p.z * h;
            JacobianPoint { x: x3, y: y3, z: z3 }
        },
    }
}

/// Scalar multiplication with a Jacobian accumulator: left-to-right
/// double-and-add over the significant bits of k, one inversion at the end.
pub fn scalar_mul_jacobian(k: u64, p: &AffinePoint, curve: &CurveParams) -> (r: AffinePoint)
    ensures
        k == 0 ==> r@ == None::<(int, int)>,
        k != 0 ==> r@ == {
            let nbits = (64 - u64_leading_zeros(k)) as nat;
            let j = jac_ladder(k as nat, nbits, nbits, p@, curve.a@, gp());
            crate::ec::ec_spec::jac_to_affine(j.0, j.1, j.2, gp())
        },
{
    if k == 0 {
        return AffinePoint::Infinity;
    }
    proof {
        axiom_u64_leading_zeros(k);
    }
    let bits: u32 = 64 - k.leading_zeros();
    let mut result = JacobianPoint::from_affine(&AffinePoint::Infinity);
    let mut i: u32 = bits;
    while i > 0
        invariant
            i <= bits <= 64,
            bits as int == 64 - u64_leading_zeros(k),
            result@ == jac_ladder(k as nat, bits as nat, (bits - i) as nat, p@, curve.a@, gp()),
        decreases i,
    {
        i = i - 1;
        result = jacobian_double(&result, curve);
        proof {
            lemma_u64_shr_is_div(k, i as u64);
        }
        assert((k >> i) & 1 == 1 <==> (k >> i) % 2 == 1) by (bit_vector);
        if (k >> i) & 1 == 1 {
            result = jacobian_mixed_add(&result, p, curve);
        }
    }
    result.to_affine()
}

} // verus!
