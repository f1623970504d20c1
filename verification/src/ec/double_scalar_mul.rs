//! The classical double-scalar multiplication [a]G + [b]Q.
use crate::ec::curve::{AffinePoint, CurveParams};
use crate::ec::ec_spec::{ec_add, ec_scalar_mul};
use crate::ec::point_ops::{point_add, scalar_mul};
use crate::field::goldilocks::gp;
use vstd::prelude::*;

verus! {

/// Compute the double-scalar multiplication [a]G + [b]Q, the group
/// homomorphism f(a, b) = [a]G + [b]Q of Shor's ECDLP algorithm.
pub fn double_scalar_mul(
    a: u64,
    generator: &AffinePoint,
    b: u64,
    target_q: &AffinePoint,
    curve: &CurveParams,
) -> (r: AffinePoint)
    ensures
        r@ == ec_add(
            ec_scalar_mul(a as nat, generator@, curve.a@, gp()),
            ec_scalar_mul(b as nat, target_q@, curve.a@, gp()),
            curve.a@,
            gp(),
        ),
{
    let ag = scalar_mul(a, generator, curve);
    let bq = scalar_mul(b, target_q, curve);
    point_add(&ag, &bq, curve)
}

} // verus!
