//! Quaternion kinematics.
use vstd::prelude::*;

use crate::linalg::{Quat, Vec3};
use crate::scalar::{Real, Scalar};

verus! {

/// Half the quaternion product of `q` with the body rate `w`.
pub open spec fn spec_quat_dot<S: Scalar>(q: Quat<S>, w: Vec3<S>) -> Quat<S> {
    let half = S::spec_splat(1, 2);
    Quat {
        i: half * (q.w * w.x - q.k * w.y + q.j * w.z),
        j: half * (q.k * w.x + q.w * w.y - q.i * w.z),
        k: half * ((-q.j) * w.x + q.i * w.y + q.w * w.z),
        w: half * ((-q.i) * w.x - q.j * w.y - q.k * w.z),
    }
}

/// Derivative of `q = [i, j, k, w]` under the body angular velocity `omega`. Works on
/// the raw quaternion, which need not be of unit norm.
pub fn quat_dot<S: Scalar>(q: Quat<S>, omega: Vec3<S>) -> (r: Quat<S>)
    ensures
        r == spec_quat_dot(q, omega),
{
    let (i, j, k, w) = (q.i, q.j, q.k, q.w);
    let (wx, wy, wz) = (omega.x, omega.y, omega.z);
    let half = S::splat(1, 2);
    Quat::new(
        half.mul(w.mul(wx).sub(k.mul(wy)).add(j.mul(wz))),
        half.mul(k.mul(wx).add(w.mul(wy)).sub(i.mul(wz))),
        half.mul(j.neg().mul(wx).add(i.mul(wy)).add(w.mul(wz))),
        half.mul(i.neg().mul(wx).sub(j.mul(wy)).sub(k.mul(wz))),
    )
}

/// The derivative is orthogonal to the quaternion: turning keeps its norm.
pub proof fn law_turning_keeps_norm<S: Real>(q: Quat<S>, omega: Vec3<S>)
    requires
        crate::scalar::exact::<S>(),
    ensures
        ({
            let d = spec_quat_dot(q, omega);
            q.i.val() * d.i.val() + q.j.val() * d.j.val() + q.k.val() * d.k.val() + q.w.val()
                * d.w.val() == 0real
        }),
{
    let d = spec_quat_dot(q, omega);
    let (i, j, k, w) = (q.i.val(), q.j.val(), q.k.val(), q.w.val());
    let (x, y, z) = (omega.x.val(), omega.y.val(), omega.z.val());
    let h = S::spec_splat(1, 2).val();
    let (a, b, c, e) = (
        w * x - k * y + j * z,
        k * x + w * y - i * z,
        i * y - j * x + w * z,
        i * x + j * y + k * z,
    );
    crate::algebra::lemma_neg(j, x);
    crate::algebra::lemma_neg(i, x);
    assert(d.i.val() == h * a);
    assert(d.j.val() == h * b);
    assert(d.k.val() == h * c);
    assert(d.w.val() == h * (-e));
    crate::algebra::lemma_dist3(i, w * x, k * y, j * z);
    crate::algebra::lemma_dist3(j, k * x, i * z, w * y);
    crate::algebra::lemma_dist3(k, i * y, j * x, w * z);
    crate::algebra::lemma_dist(w, i * x, j * y);
    crate::algebra::lemma_dist(w, i * x + j * y, k * z);
    crate::algebra::lemma_cycle3(i, w, x);
    crate::algebra::lemma_cycle3(i, k, y);
    crate::algebra::lemma_cycle3(i, j, z);
    crate::algebra::lemma_cycle3(j, k, x);
    crate::algebra::lemma_cycle3(j, w, y);
    crate::algebra::lemma_cycle3(k, w, z);
    assert(i * a + j * b + k * c - w * e == 0real);
    crate::algebra::lemma_cycle3(i, h, a);
    crate::algebra::lemma_cycle3(j, h, b);
    crate::algebra::lemma_cycle3(k, h, c);
    crate::algebra::lemma_cycle3(w, h, -e);
    crate::algebra::lemma_neg(e, w);
    crate::algebra::lemma_comm(w, -e);
    crate::algebra::lemma_comm(w, e);
    crate::algebra::lemma_dist(h, i * a, j * b);
    crate::algebra::lemma_dist(h, i * a + j * b, k * c);
    crate::algebra::lemma_dist(h, i * a + j * b + k * c, w * (-e));
    assert(h * 0real == 0real) by (nonlinear_arith);
}

} // verus!
