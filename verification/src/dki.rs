//! The kinematic integrator under the learned model: parameter-free physics, by
//! semi-implicit Euler steps and the exponential map of rotations.
//!
//! The state is `[position 3, velocity 3, rotation 9 (row by row), body rate 3]`.
use vstd::prelude::*;

use crate::linalg::{Mat3, Vec3};
use crate::scalar::Real;

verus! {

/// The length of a state.
pub const SD: usize = 18;

/// The length of an action.
pub const AD: usize = 4;

/// The rotation by the vector `phi`: `1 + sin(a) K + (1 - cos(a)) K^2`, where `a` is the
/// length of `phi`, at least 1e-8, and `K` the cross-product matrix of `phi / a`.
pub open spec fn spec_exp_so3<S: Real>(phi: Vec3<S>) -> Mat3<S> {
    let angle = phi.spec_norm().spec_max(S::spec_splat(1, 100000000));
    let k = Mat3::spec_hat(Vec3 { x: phi.x / angle, y: phi.y / angle, z: phi.z / angle });
    let k2 = k.spec_mul(k);
    let s = angle.spec_sin();
    let c = S::spec_one() - angle.spec_cos();
    let (o, z) = (S::spec_one(), S::spec_zero());
    Mat3 {
        rows: [
            [
                o + s * k.at(0, 0) + c * k2.at(0, 0),
                z + s * k.at(0, 1) + c * k2.at(0, 1),
                z + s * k.at(0, 2) + c * k2.at(0, 2),
            ],
            [
                z + s * k.at(1, 0) + c * k2.at(1, 0),
                o + s * k.at(1, 1) + c * k2.at(1, 1),
                z + s * k.at(1, 2) + c * k2.at(1, 2),
            ],
            [
                z + s * k.at(2, 0) + c * k2.at(2, 0),
                z + s * k.at(2, 1) + c * k2.at(2, 1),
                o + s * k.at(2, 2) + c * k2.at(2, 2),
            ],
        ],
    }
}

fn exp_so3<S: Real>(phi: Vec3<S>) -> (r: Mat3<S>)
    ensures
        r == spec_exp_so3(phi),
{
    let angle = phi.norm().max(S::splat(1, 100000000));
    let k = Mat3::hat(Vec3::new(phi.x.div(angle), phi.y.div(angle), phi.z.div(angle)));
    let k2 = k.mul(&k);
    let s = angle.sin();
    let c = S::one().sub(angle.cos());
    let (o, z) = (S::one(), S::zero());
    let mut r = [[z; 3]; 3];
    for i in 0..3
        invariant
            o == S::spec_one(),
            z == S::spec_zero(),
            forall|p: int, q: int|
                0 <= p < i && 0 <= q < 3 ==> #[trigger] r[p][q] == (if p == q {
                    o
                } else {
                    z
                }) + s * k.at(p, q) + c * k2.at(p, q),
    {
        for j in 0..3
            invariant
                0 <= i < 3,
                o == S::spec_one(),
                z == S::spec_zero(),
                forall|p: int, q: int|
                    0 <= p < i && 0 <= q < 3 ==> #[trigger] r[p][q] == (if p == q {
                        o
                    } else {
                        z
                    }) + s * k.at(p, q) + c * k2.at(p, q),
                forall|q: int|
                    0 <= q < j ==> #[trigger] r[i as int][q] == (if i == q {
                        o
                    } else {
                        z
                    }) + s * k.at(i as int, q) + c * k2.at(i as int, q),
        {
            let eye = if i == j {
                o
            } else {
                z
            };
            r[i][j] = eye.add(s.mul(k.rows[i][j])).add(c.mul(k2.rows[i][j]));
        }
    }
    proof {
        let want = spec_exp_so3(phi).rows;
        assert(r[0] =~= want[0]);
        assert(r[1] =~= want[1]);
        assert(r[2] =~= want[2]);
        assert(r =~= want);
    }
    Mat3 { rows: r }
}

/// The rotation part of a state.
pub open spec fn rotation_of<S>(x: Seq<S>) -> Mat3<S> {
    Mat3 { rows: [[x[6], x[7], x[8]], [x[9], x[10], x[11]], [x[12], x[13], x[14]]] }
}

/// One step under a collective thrust along body z, a residual acceleration `dv` and an
/// angular acceleration `dw`: the velocity first, the position with the new velocity,
/// the rotation with the old body rate.
pub open spec fn spec_step_collective<S: Real>(
    x: Seq<S>,
    thrust: S,
    dv: Seq<S>,
    dw: Seq<S>,
    dt: S,
    m: S,
    g: S,
) -> Seq<S> {
    let r = rotation_of(x);
    let lift = thrust * (S::spec_one() / m);
    let (vx, vy, vz) = (
        x[3] + (lift * x[8] + dv[0]) * dt,
        x[4] + (lift * x[11] + dv[1]) * dt,
        x[5] + (-g + lift * x[14] + dv[2]) * dt,
    );
    let rn = r.spec_mul(
        spec_exp_so3(Vec3 { x: x[15] * dt, y: x[16] * dt, z: x[17] * dt }),
    );
    seq![
        x[0] + vx * dt, x[1] + vy * dt, x[2] + vz * dt,
        vx, vy, vz,
        rn.at(0, 0), rn.at(0, 1), rn.at(0, 2),
        rn.at(1, 0), rn.at(1, 1), rn.at(1, 2),
        rn.at(2, 0), rn.at(2, 1), rn.at(2, 2),
        x[15] + dw[0] * dt, x[16] + dw[1] * dt, x[17] + dw[2] * dt,
    ]
}

fn step_collective<S: Real>(
    x: &[S; SD],
    thrust: S,
    dvdot: &[S; 3],
    omega_dot: &[S; 3],
    dt: S,
    m: S,
    g: S,
) -> (r: [S; SD])
    ensures
        r@ == spec_step_collective(x@, thrust, dvdot@, omega_dot@, dt, m, g),
{
    let r = Mat3 { rows: [[x[6], x[7], x[8]], [x[9], x[10], x[11]], [x[12], x[13], x[14]]] };
    let inv_mass = S::one().div(m);
    let lift = thrust.mul(inv_mass);
    let vx = x[3].add(lift.mul(x[8]).add(dvdot[0]).mul(dt));
    let vy = x[4].add(lift.mul(x[11]).add(dvdot[1]).mul(dt));
    let vz = x[5].add(g.neg().add(lift.mul(x[14])).add(dvdot[2]).mul(dt));
    // with the current body rate
    let e = exp_so3(Vec3::new(x[15].mul(dt), x[16].mul(dt), x[17].mul(dt)));
    let rn = r.mul(&e);
    let out = [
        x[0].add(vx.mul(dt)), x[1].add(vy.mul(dt)), x[2].add(vz.mul(dt)),
        vx, vy, vz,
        rn.rows[0][0], rn.rows[0][1], rn.rows[0][2],
        rn.rows[1][0], rn.rows[1][1], rn.rows[1][2],
        rn.rows[2][0], rn.rows[2][1], rn.rows[2][2],
        x[15].add(omega_dot[0].mul(dt)),
        x[16].add(omega_dot[1].mul(dt)),
        x[17].add(omega_dot[2].mul(dt)),
    ];
    assert(out@ =~= spec_step_collective(x@, thrust, dvdot@, omega_dot@, dt, m, g));
    out
}

/// Row `i` of the 3x4 matrix `k` times the forces.
pub open spec fn map_forces<S: Real>(k: Seq<S>, a: Seq<S>, i: int) -> S {
    k[4 * i] * a[0] + k[4 * i + 1] * a[1] + k[4 * i + 2] * a[2] + k[4 * i + 3] * a[3]
}

/// One step under four rotor forces: the thrust is their sum, the angular acceleration
/// the 3x4 map `k` of them.
pub open spec fn spec_step_rotor_force<S: Real>(
    x: Seq<S>,
    a: Seq<S>,
    dv: Seq<S>,
    k: Seq<S>,
    dt: S,
    m: S,
    g: S,
) -> Seq<S> {
    spec_step_collective(
        x,
        a[0] + a[1] + a[2] + a[3],
        dv,
        seq![map_forces(k, a, 0), map_forces(k, a, 1), map_forces(k, a, 2)],
        dt,
        m,
        g,
    )
}

/// One rotor-force step; `k` is the residual map from forces to angular acceleration,
/// row by row.
pub fn step_rotor_force<S: Real>(
    x: &[S; SD],
    a: &[S; AD],
    dvdot: &[S; 3],
    k: &[S; 12],
    dt: S,
    m_nominal: S,
    g: S,
) -> (r: [S; SD])
    ensures
        r@ == spec_step_rotor_force(x@, a@, dvdot@, k@, dt, m_nominal, g),
{
    let thrust = a[0].add(a[1]).add(a[2]).add(a[3]);
    let omega_dot = [
        k[0].mul(a[0]).add(k[1].mul(a[1])).add(k[2].mul(a[2])).add(k[3].mul(a[3])),
        k[4].mul(a[0]).add(k[5].mul(a[1])).add(k[6].mul(a[2])).add(k[7].mul(a[3])),
        k[8].mul(a[0]).add(k[9].mul(a[1])).add(k[10].mul(a[2])).add(k[11].mul(a[3])),
    ];
    assert(omega_dot@ =~= seq![
        map_forces(k@, a@, 0),
        map_forces(k@, a@, 1),
        map_forces(k@, a@, 2),
    ]);
    step_collective(x, thrust, dvdot, &omega_dot, dt, m_nominal, g)
}

/// One collective-thrust and body-rate step: the thrust is `a[0]`.
pub fn step_ctbr<S: Real>(
    x: &[S; SD],
    a: &[S; AD],
    dvdot: &[S; 3],
    omega_dot: &[S; 3],
    dt: S,
    m_nominal: S,
    g: S,
) -> (r: [S; SD])
    ensures
        r@ == spec_step_collective(x@, a@[0], dvdot@, omega_dot@, dt, m_nominal, g),
{
    step_collective(x, a[0], dvdot, omega_dot, dt, m_nominal, g)
}

// ---------------------------------------------------------------------------
// Laws
// ---------------------------------------------------------------------------
/// Sine and cosine lie on the unit circle.
pub open spec fn circular<S: Real>() -> bool {
    forall|a: S|
        #![trigger a.spec_sin()]
        a.spec_sin().val() * a.spec_sin().val() + a.spec_cos().val() * a.spec_cos().val() == 1real
}

/// The entries of the square of a cross-product matrix.
proof fn lemma_hat_square(o: real, x: real, y: real, z: real)
    requires
        o == 0real,
    ensures
        o * o + (-z) * z + y * (-y) == -(y * y) - z * z,
        z * o + o * z + (-x) * (-y) == x * y,
        (-y) * o + x * z + o * (-y) == x * z,
{
    crate::linalg::lemma_unit_times(o);
    crate::linalg::lemma_unit_times(y);
    crate::linalg::lemma_unit_times(z);
    crate::algebra::lemma_neg(z, z);
    crate::algebra::lemma_neg(y, y);
    crate::algebra::lemma_comm(y, -y);
    crate::algebra::lemma_comm(z, o);
    crate::algebra::lemma_comm(-y, o);
    crate::linalg::lemma_unit_times(-y);
    crate::algebra::lemma_neg(x, -y);
    crate::algebra::lemma_comm(x, -y);
    crate::algebra::lemma_neg(y, x);
    crate::algebra::lemma_comm(y, x);
}

/// One column of the rotation in numbers.
proof fn lemma_swung_column(o: real, x: real, y: real, z: real, s: real, c: real)
    requires
        o == 0real,
    ensures
        ({
            let v = crate::algebra::swung_axis(x, y, z, s, c);
            &&& 1real + s * o + c * (o * o + (-z) * z + y * (-y)) == v.x
            &&& o + s * z + c * (z * o + o * z + (-x) * (-y)) == v.y
            &&& o + s * (-y) + c * ((-y) * o + x * z + o * (-y)) == v.z
        }),
{
    lemma_hat_square(o, x, y, z);
    crate::algebra::lemma_comm(s, o);
    crate::linalg::lemma_unit_times(s);
    crate::algebra::lemma_comm(s, -y);
    crate::algebra::lemma_neg(y, s);
    crate::algebra::lemma_comm(s, y);
}

/// Without an axis nothing turns.
proof fn lemma_no_swing(s: real, c: real)
    ensures
        crate::algebra::swung_axis(0real, 0real, 0real, s, c) == (crate::algebra::Row3 {
            x: 1real,
            y: 0real,
            z: 0real,
        }),
{
    crate::linalg::lemma_unit_times(0real);
    crate::linalg::lemma_unit_times(s);
    crate::linalg::lemma_unit_times(c);
    crate::algebra::lemma_comm(s, 0real);
    crate::algebra::lemma_comm(c, 0real);
}

/// The axis of a rotation vector has unit length.
proof fn lemma_axis_is_unit(x: real, y: real, z: real, n: real)
    requires
        n > 0real,
        n * n == x * x + y * y + z * z,
    ensures
        (x / n) * (x / n) + (y / n) * (y / n) + (z / n) * (z / n) == 1real,
{
    let r = 1real / n;
    crate::dense::lemma_ratio(x, n);
    crate::dense::lemma_ratio(y, n);
    crate::dense::lemma_ratio(z, n);
    crate::linalg::lemma_reciprocal(n, r);
    crate::linalg::lemma_scaled_square(x, r);
    crate::linalg::lemma_scaled_square(y, r);
    crate::linalg::lemma_scaled_square(z, r);
    crate::linalg::lemma_scaled_square(n, r);
    crate::algebra::lemma_dist(r * r, x * x, y * y);
    crate::algebra::lemma_dist(r * r, x * x + y * y, z * z);
    crate::linalg::lemma_unit_times(1real);
}

/// A rotation vector that the exponential takes at its length: none at all, or one of length
/// at least 1e-8. Shorter ones are taken for that long, with an axis that is not a unit.
pub open spec fn has_turn<S: Real>(phi: Vec3<S>) -> bool {
    phi.same(Vec3::spec_zero()) || S::spec_splat(1, 100000000).val() <= phi.spec_norm().val()
}

/// The exponential of a rotation vector is a rotation: its columns are orthonormal.
pub proof fn law_exp_is_orthonormal<S: Real>(phi: Vec3<S>)
    requires
        crate::scalar::exact::<S>(),
        circular::<S>(),
        has_turn(phi),
    ensures
        spec_exp_so3(phi).orthonormal(),
{
    let tiny = S::spec_splat(1, 100000000);
    crate::scalar::lemma_splat_fraction::<S>(1, 100000000);
    let norm = phi.spec_norm();
    let angle = norm.spec_max(tiny);
    let n = angle.val();
    assert(norm.spec_is_finite() && tiny.spec_is_finite());
    assert(n >= tiny.val() && n > 0real);
    let (px, py, pz) = (phi.x.val(), phi.y.val(), phi.z.val());
    let none = phi.same(Vec3::spec_zero());
    if none {
        crate::dense::lemma_ratio(0real, n);
    } else {
        crate::linalg::lemma_square_sign(px);
        crate::linalg::lemma_square_sign(py);
        crate::linalg::lemma_square_sign(pz);
        assert(n == norm.val());
        assert(phi.spec_dot(phi).val() == px * px + py * py + pz * pz);
        assert(n * n == px * px + py * py + pz * pz);
        lemma_axis_is_unit(px, py, pz, n);
    }
    let u = Vec3 { x: phi.x / angle, y: phi.y / angle, z: phi.z / angle };
    let (x, y, z) = (u.x.val(), u.y.val(), u.z.val());
    let s = angle.spec_sin().val();
    let c = (S::spec_one() - angle.spec_cos()).val();
    let o = S::spec_zero().val();
    let co = angle.spec_cos().val();
    crate::algebra::lemma_foil(1real, co, 1real, co);
    crate::linalg::lemma_unit_times(co);
    crate::algebra::lemma_comm(1real, co);
    crate::linalg::lemma_unit_times(1real);
    assert(c * c == 1real - 2real * co + co * co);
    assert(s * s + c * c == 2real * c);
    lemma_swung_column(o, x, y, z, s, c);
    lemma_swung_column(o, y, z, x, s, c);
    lemma_swung_column(o, z, x, y, s, c);
    let (c0, c1, c2) = (
        crate::algebra::swung_axis(x, y, z, s, c),
        crate::algebra::swung_axis(y, z, x, s, c),
        crate::algebra::swung_axis(z, x, y, s, c),
    );
    let m = spec_exp_so3(phi);
    let k = Mat3::spec_hat(u);
    let k2 = k.spec_mul(k);
    lemma_square_entries(u);
    assert(m.col(0) == c0);
    assert(m.at(1, 1).val() == c1.x && m.at(2, 1).val() == c1.y && m.at(0, 1).val() == c1.z);
    assert(m.at(2, 2).val() == c2.x && m.at(0, 2).val() == c2.y && m.at(1, 2).val() == c2.z);
    if none {
        lemma_no_swing(s, c);
        crate::linalg::lemma_unit_times(1real);
        crate::linalg::lemma_unit_times(0real);
        crate::algebra::lemma_comm(1real, 0real);
    } else {
        crate::algebra::lemma_swung_axis_is_unit(x, y, z, s, c);
        crate::algebra::lemma_swung_axis_is_unit(y, z, x, s, c);
        crate::algebra::lemma_swung_axis_is_unit(z, x, y, s, c);
        crate::algebra::lemma_swung_axes_are_orthogonal(x, y, z, s, c);
        crate::algebra::lemma_swung_axes_are_orthogonal(y, z, x, s, c);
        crate::algebra::lemma_swung_axes_are_orthogonal(z, x, y, s, c);
    }
    let (a, b, d) = (m.col(0), m.col(1), m.col(2));
    assert(crate::algebra::dot(a, b) == 0real);
    assert(crate::algebra::dot(b, d) == 0real);
    assert(crate::algebra::dot(d, a) == 0real);
    crate::algebra::lemma_dot_comm(a, b);
    crate::algebra::lemma_dot_comm(b, d);
    crate::algebra::lemma_dot_comm(d, a);
    assert forall|i: int, j: int| 0 <= i < 3 && 0 <= j < 3 implies #[trigger] crate::algebra::dot(
        m.col(i),
        m.col(j),
    ) == crate::linalg::unit(i, j) by {
        assert(i == 0 || i == 1 || i == 2);
        assert(j == 0 || j == 1 || j == 2);
    }
}

/// The entries of the squared cross-product matrix of `u`, column by column from the
/// diagonal down, in the form that [`lemma_swung_column`] takes.
proof fn lemma_square_entries<S: Real>(u: Vec3<S>)
    requires
        crate::scalar::exact::<S>(),
    ensures
        ({
            let k = Mat3::spec_hat(u);
            let k2 = k.spec_mul(k);
            let o = S::spec_zero().val();
            let (x, y, z) = (u.x.val(), u.y.val(), u.z.val());
            &&& k2.at(0, 0).val() == o * o + (-z) * z + y * (-y)
            &&& k2.at(1, 0).val() == z * o + o * z + (-x) * (-y)
            &&& k2.at(2, 0).val() == (-y) * o + x * z + o * (-y)
            &&& k2.at(1, 1).val() == o * o + (-x) * x + z * (-z)
            &&& k2.at(2, 1).val() == x * o + o * x + (-y) * (-z)
            &&& k2.at(0, 1).val() == (-z) * o + y * x + o * (-z)
            &&& k2.at(2, 2).val() == o * o + (-y) * y + x * (-x)
            &&& k2.at(0, 2).val() == y * o + o * y + (-z) * (-x)
            &&& k2.at(1, 2).val() == (-x) * o + z * y + o * (-x)
        }),
{
    let o = S::spec_zero().val();
    let (x, y, z) = (u.x.val(), u.y.val(), u.z.val());
    crate::algebra::lemma_neg(z, z);
    crate::algebra::lemma_neg(x, x);
    crate::algebra::lemma_neg(y, y);
    crate::algebra::lemma_comm(x, -x);
    crate::algebra::lemma_comm(y, -y);
    crate::algebra::lemma_comm(z, -z);
    crate::algebra::lemma_comm(o, x);
    crate::algebra::lemma_comm(o, y);
    crate::algebra::lemma_comm(o, z);
    crate::algebra::lemma_comm(o, -x);
    crate::algebra::lemma_comm(o, -y);
    crate::algebra::lemma_comm(o, -z);
    crate::algebra::lemma_comm(-x, -y);
    crate::algebra::lemma_comm(-y, -z);
    crate::algebra::lemma_comm(-z, -x);
    crate::algebra::lemma_comm(x, y);
    crate::algebra::lemma_comm(y, z);
    crate::algebra::lemma_comm(z, x);
}

/// A prediction step keeps the rotation a rotation.
pub proof fn law_step_keeps_rotation<S: Real>(
    x: Seq<S>,
    thrust: S,
    dv: Seq<S>,
    dw: Seq<S>,
    dt: S,
    m: S,
    g: S,
)
    requires
        crate::scalar::exact::<S>(),
        circular::<S>(),
        rotation_of(x).orthonormal(),
        has_turn(Vec3 { x: x[15] * dt, y: x[16] * dt, z: x[17] * dt }),
    ensures
        rotation_of(spec_step_collective(x, thrust, dv, dw, dt, m, g)).orthonormal(),
{
    let phi = Vec3 { x: x[15] * dt, y: x[16] * dt, z: x[17] * dt };
    let r = rotation_of(x);
    let e = spec_exp_so3(phi);
    law_exp_is_orthonormal(phi);
    let n = rotation_of(spec_step_collective(x, thrust, dv, dw, dt, m, g));
    assert(n.rows =~~= r.spec_mul(e).rows);
    let (a, b, c) = (r.col(0), r.col(1), r.col(2));
    assert(crate::algebra::dot(a, a) == 1real && crate::algebra::dot(b, b) == 1real
        && crate::algebra::dot(c, c) == 1real);
    assert(crate::algebra::dot(a, b) == 0real && crate::algebra::dot(b, c) == 0real
        && crate::algebra::dot(c, a) == 0real);
    assert forall|j: int| 0 <= j < 3 implies #[trigger] n.col(j) == crate::algebra::in_frame(
        a,
        b,
        c,
        e.col(j),
    ) by {
        assert(j == 0 || j == 1 || j == 2);
        assert(n.at(0, j) == r.mul_at(e, 0, j));
        assert(n.at(1, j) == r.mul_at(e, 1, j));
        assert(n.at(2, j) == r.mul_at(e, 2, j));
    }
    assert forall|i: int, j: int| 0 <= i < 3 && 0 <= j < 3 implies #[trigger] crate::algebra::dot(
        n.col(i),
        n.col(j),
    ) == crate::linalg::unit(i, j) by {
        assert(n.col(i) == crate::algebra::in_frame(a, b, c, e.col(i)));
        assert(n.col(j) == crate::algebra::in_frame(a, b, c, e.col(j)));
        crate::algebra::lemma_frame_keeps_dot(a, b, c, e.col(i), e.col(j));
        assert(crate::algebra::dot(e.col(i), e.col(j)) == crate::linalg::unit(i, j));
    }
}

} // verus!
