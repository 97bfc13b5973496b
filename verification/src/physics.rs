//! What the dynamics mean, in the terms of mechanics: laws that relate the inputs of the
//! vehicle model to what it does, without a look at how it computes.
use vstd::prelude::*;

use crate::linalg::{Mat3, Quat, Vec3};
use crate::multirotor::{spec_body_wrench, spec_s_dot};
use crate::params::{QuadParams, QuadParamsInput, NUM_ROTORS};
use crate::scalar::Real;
use crate::state::State;

verus! {

// ---------------------------------------------------------------------------
// Turning
// ---------------------------------------------------------------------------
/// The vector part of a quaternion.
pub open spec fn vector_part<S>(q: Quat<S>) -> Vec3<S> {
    Vec3 { x: q.i, y: q.j, z: q.k }
}

proof fn lemma_rodrigues_axis(
    x: real,
    y: real,
    z: real,
    w: real,
    a: real,
    b: real,
    c: real,
)
    ensures
        (1real - 2real * (y * y + z * z)) * a + (2real * (x * y - z * w)) * b + (2real * (x * z + y
            * w)) * c == a + 2real * (w * (y * c - z * b)) + 2real * (y * (x * b - y * a) - z * (z
            * a - x * c)),
{
    crate::algebra::lemma_dist(a, 1real, 2real * (y * y + z * z));
    assert(1real * a == a) by (nonlinear_arith);
    lemma_twice_times(y * y + z * z, a);
    crate::algebra::lemma_dist(a, y * y, z * z);
    lemma_twice_times(x * y - z * w, b);
    crate::algebra::lemma_dist(b, x * y, z * w);
    lemma_twice_times(x * z + y * w, c);
    crate::algebra::lemma_dist(c, x * z, y * w);
    crate::algebra::lemma_dist(w, y * c, z * b);
    crate::algebra::lemma_dist(y, x * b, y * a);
    crate::algebra::lemma_dist(z, z * a, x * c);
    crate::algebra::lemma_assoc(y, y, a);
    crate::algebra::lemma_assoc(z, z, a);
    assert((x * y) * b == y * (x * b)) by (nonlinear_arith);
    assert((z * w) * b == w * (z * b)) by (nonlinear_arith);
    assert((x * z) * c == z * (x * c)) by (nonlinear_arith);
    assert((y * w) * c == w * (y * c)) by (nonlinear_arith);
}

proof fn lemma_twice_times(p: real, a: real)
    ensures
        (2real * p) * a == 2real * (p * a),
{
    assert((2real * p) * a == 2real * (p * a)) by (nonlinear_arith);
}

/// The rotation of a quaternion with vector part `b` and scalar part `w`, of unit norm,
/// turns a vector `v` to `v + 2 w (b x v) + 2 b x (b x v)`: about `b`, counter-clockwise,
/// by twice the angle whose cosine is `w`.
pub proof fn law_rotation_turns<S: Real>(q: Quat<S>, v: Vec3<S>)
    requires
        crate::scalar::exact::<S>(),
        q.i.val() * q.i.val() + q.j.val() * q.j.val() + q.k.val() * q.k.val() + q.w.val()
            * q.w.val() == 1real,
    ensures
        ({
            let (b, w) = (vector_part(q), q.w.val());
            let (once, twice) = (b.spec_cross(v), b.spec_cross(b.spec_cross(v)));
            let r = q.spec_to_rotmat().spec_matvec(v);
            &&& r.x.val() == v.x.val() + 2real * (w * once.x.val()) + 2real * twice.x.val()
            &&& r.y.val() == v.y.val() + 2real * (w * once.y.val()) + 2real * twice.y.val()
            &&& r.z.val() == v.z.val() + 2real * (w * once.z.val()) + 2real * twice.z.val()
        }),
{
    let (x, y, z, w) = (q.i.val(), q.j.val(), q.k.val(), q.w.val());
    lemma_unit_stays(q);
    let u = q.spec_normalized();
    assert(u.i.val() == x && u.j.val() == y && u.k.val() == z && u.w.val() == w);
    crate::scalar::lemma_splat_int::<S>(2);
    let (a, b, c) = (v.x.val(), v.y.val(), v.z.val());
    lemma_rodrigues_axis(x, y, z, w, a, b, c);
    lemma_rodrigues_axis(y, z, x, w, b, c, a);
    lemma_rodrigues_axis(z, x, y, w, c, a, b);
    crate::algebra::lemma_comm(x, y);
    crate::algebra::lemma_comm(y, z);
    crate::algebra::lemma_comm(z, x);
    let m = q.spec_to_rotmat();
    assert(m.at(0, 0).val() == 1real - 2real * (y * y + z * z));
    assert(m.at(0, 1).val() == 2real * (x * y - z * w));
    assert(m.at(0, 2).val() == 2real * (x * z + y * w));
    assert(m.at(1, 0).val() == 2real * (x * y + z * w));
    assert(m.at(1, 1).val() == 1real - 2real * (x * x + z * z));
    assert(m.at(1, 2).val() == 2real * (y * z - x * w));
    assert(m.at(2, 0).val() == 2real * (x * z - y * w));
    assert(m.at(2, 1).val() == 2real * (y * z + x * w));
    assert(m.at(2, 2).val() == 1real - 2real * (x * x + y * y));
}

/// A quaternion of unit norm is not changed by normalizing.
pub proof fn lemma_unit_stays<S: Real>(q: Quat<S>)
    requires
        crate::scalar::exact::<S>(),
        q.i.val() * q.i.val() + q.j.val() * q.j.val() + q.k.val() * q.k.val() + q.w.val()
            * q.w.val() == 1real,
    ensures
        q.spec_norm().val() == 1real,
        q.spec_normalized().i.val() == q.i.val(),
        q.spec_normalized().j.val() == q.j.val(),
        q.spec_normalized().k.val() == q.k.val(),
        q.spec_normalized().w.val() == q.w.val(),
{
    let s = q.i * q.i + q.j * q.j + q.k * q.k + q.w * q.w;
    let n = q.spec_norm().val();
    assert(s.val() == 1real);
    assert(n == 1real) by (nonlinear_arith)
        requires
            n >= 0real,
            n * n == 1real,
    ;
    let r = (S::spec_one() / q.spec_norm()).val();
    crate::linalg::lemma_reciprocal(n, r);
    assert(r == 1real);
    lemma_times_one(q.i.val(), r);
    lemma_times_one(q.j.val(), r);
    lemma_times_one(q.k.val(), r);
    lemma_times_one(q.w.val(), r);
}

/// A factor of one.
pub proof fn lemma_times_one(x: real, r: real)
    requires
        r == 1real,
    ensures
        x * r == x,
        r * x == x,
{
    assert(x * r == x && r * x == x) by (nonlinear_arith)
        requires
            r == 1real,
    ;
}

/// A factor of zero.
pub proof fn lemma_times_zero(x: real, r: real)
    requires
        r == 0real,
    ensures
        x * r == 0real,
        r * x == 0real,
{
    assert(x * r == 0real && r * x == 0real) by (nonlinear_arith)
        requires
            r == 0real,
    ;
}

/// A quaternion turned by the body rate `om` changes in its vector part `b` by
/// `(w om + b x om) / 2` and in its scalar part `w` by `-(b . om) / 2`: it is multiplied
/// from the right, the rate being one of the body.
pub proof fn law_quaternion_follows_body_rate<S: Real>(q: Quat<S>, om: Vec3<S>)
    requires
        crate::scalar::exact::<S>(),
    ensures
        ({
            let (b, d) = (vector_part(q), crate::so3::spec_quat_dot(q, om));
            let c = b.spec_cross(om);
            let w = q.w.val();
            &&& 2real * d.i.val() == w * om.x.val() + c.x.val()
            &&& 2real * d.j.val() == w * om.y.val() + c.y.val()
            &&& 2real * d.k.val() == w * om.z.val() + c.z.val()
            &&& 2real * d.w.val() == -b.spec_dot(om).val()
        }),
{
    crate::scalar::lemma_splat_fraction::<S>(1, 2);
    let h = S::spec_splat(1, 2).val();
    crate::algebra::lemma_neg(q.j.val(), om.x.val());
    crate::algebra::lemma_neg(q.i.val(), om.x.val());
    let (x, y, z, w) = (q.i.val(), q.j.val(), q.k.val(), q.w.val());
    let (a, b, c) = (om.x.val(), om.y.val(), om.z.val());
    lemma_half(h, w * a - z * b + y * c);
    lemma_half(h, z * a + w * b - x * c);
    lemma_half(h, -(y * a) + x * b + w * c);
    lemma_half(h, -(x * a) - y * b - z * c);
}

proof fn lemma_half(h: real, x: real)
    requires
        h == 1real / 2real,
    ensures
        2real * (h * x) == x,
{
    assert(2real * (h * x) == x) by (nonlinear_arith)
        requires
            h == 1real / 2real,
    ;
}

// ---------------------------------------------------------------------------
// The derivative of a state
// ---------------------------------------------------------------------------
/// How fast every part of the state changes.
pub open spec fn rate_of<S: Real>(p: QuadParams<S>, s: State<S>, cmd: Seq<S>) -> State<S> {
    State::spec_unpack(spec_s_dot(p, s.spec_pack(), cmd))
}

/// Position changes by the velocity; the wind does not change; and a rotor takes up the
/// commanded speed with the time constant of its motor.
pub proof fn law_kinematics_and_lag<S: Real>(p: QuadParams<S>, s: State<S>, cmd: Seq<S>, j: int)
    requires
        crate::scalar::exact::<S>(),
        p.tau_m.val() != 0real,
        0 <= j < NUM_ROTORS,
    ensures
        rate_of(p, s, cmd).x.same(s.v),
        rate_of(p, s, cmd).wind.same(Vec3::spec_zero()),
        rate_of(p, s, cmd).rotor_speeds[j].val() * p.tau_m.val() == cmd[j].val()
            - s.rotor_speeds[j].val(),
{
    reveal(spec_s_dot);
    crate::state::law_unpack_pack(s);
    let (t, i) = (p.tau_m.val(), (S::spec_one() / p.tau_m).val());
    crate::linalg::lemma_reciprocal(t, i);
    let e = cmd[j].val() - s.rotor_speeds[j].val();
    assert(j == 0 || j == 1 || j == 2 || j == 3);
    assert((e * i) * t == e * (t * i)) by (nonlinear_arith);
    lemma_times_one(e, t * i);
}

/// Linear and angular acceleration for a velocity `rel` relative to the air.
#[verifier::opaque]
spec fn accelerations<S: Real>(
    p: QuadParams<S>,
    q: Quat<S>,
    w: Vec3<S>,
    om: Seq<S>,
    rel: Vec3<S>,
) -> (Vec3<S>, Vec3<S>) {
    let r = q.spec_to_rotmat();
    let (force, moment) = spec_body_wrench(p, w, om, r.spec_tmatvec(rel));
    (
        (p.weight + r.spec_matvec(force)).spec_scale(S::spec_one() / p.mass),
        p.inv_inertia.spec_matvec(moment - w.spec_cross(p.inertia.spec_matvec(w))),
    )
}

proof fn lemma_rate<S: Real>(p: QuadParams<S>, s: State<S>, cmd: Seq<S>)
    ensures
        ({
            let d = rate_of(p, s, cmd);
            let a = accelerations(p, s.q, s.w, s.rotor_speeds@, s.v - s.wind);
            &&& d.x == s.v
            &&& d.v == a.0
            &&& d.q == crate::so3::spec_quat_dot(s.q, s.w)
            &&& d.w == a.1
        }),
{
    reveal(spec_s_dot);
    reveal(accelerations);
    crate::state::law_unpack_pack(s);
}

/// Only the motion through the air counts: a vehicle and the wind moved faster together
/// feel the same forces and moments.
pub proof fn law_airspeed_is_relative<S: Real>(
    p: QuadParams<S>,
    s: State<S>,
    t: State<S>,
    cmd: Seq<S>,
    u: Vec3<S>,
)
    requires
        crate::scalar::exact::<S>(),
        crate::scalar::faithful::<S>(),
        t.v.same(s.v + u),
        t.wind.same(s.wind + u),
        t.q == s.q,
        t.w == s.w,
        t.rotor_speeds == s.rotor_speeds,
    ensures
        rate_of(p, t, cmd).v == rate_of(p, s, cmd).v,
        rate_of(p, t, cmd).q == rate_of(p, s, cmd).q,
        rate_of(p, t, cmd).w == rate_of(p, s, cmd).w,
        rate_of(p, t, cmd).x.same(rate_of(p, s, cmd).x + u),
{
    lemma_rate(p, s, cmd);
    lemma_rate(p, t, cmd);
    let (a, b) = (t.v - t.wind, s.v - s.wind);
    assert(a.x.val() == b.x.val() && a.y.val() == b.y.val() && a.z.val() == b.z.val());
    assert(a == b);
}

// ---------------------------------------------------------------------------
// Forces
// ---------------------------------------------------------------------------
/// The thrust of the rotors without their motion through the air.
pub open spec fn static_thrust<S: Real>(p: QuadParams<S>, om: Seq<S>, j: int) -> real {
    p.rotor_gain[j].val() * p.k_eta.val() * (om[j].val() * om[j].val())
}

/// No body rates.
pub open spec fn not_turning<S: Real>(w: Vec3<S>) -> bool {
    w.x.val() == 0real && w.y.val() == 0real && w.z.val() == 0real
}

/// The numbers that a rotor gives when the body does not turn.
proof fn lemma_rotor<S: Real>(p: QuadParams<S>, rates: Vec3<S>, om: S, air: Vec3<S>, j: int)
    requires
        crate::scalar::exact::<S>(),
        not_turning(rates),
    ensures
        ({
            let a = crate::multirotor::spec_rotor_air(p, rates, air, j);
            let f = crate::multirotor::spec_rotor_force(p, om, a, j);
            let (x, y, z, o) = (air.x.val(), air.y.val(), air.z.val(), om.val());
            &&& a.same(air)
            &&& f.x.val() == -((p.k_d.val() * x) * o)
            &&& f.y.val() == -((p.k_d.val() * y) * o)
            &&& f.z.val() == p.rotor_gain[j].val() * p.k_eta.val() * (o * o) + p.k_h.val() * (x * x
                + y * y) - (p.k_z.val() * z) * o
        }),
{
    let r = p.rotor_pos[j];
    let a = crate::multirotor::spec_rotor_air(p, rates, air, j);
    lemma_times_zero(r.z.val(), rates.y.val());
    lemma_times_zero(r.y.val(), rates.z.val());
    lemma_times_zero(r.x.val(), rates.z.val());
    lemma_times_zero(r.z.val(), rates.x.val());
    lemma_times_zero(r.y.val(), rates.x.val());
    lemma_times_zero(r.x.val(), rates.y.val());
    assert(a.same(air));
    let o = om.val();
    lemma_times_minus(p.k_d.val() * air.x.val(), o);
    lemma_times_minus(p.k_d.val() * air.y.val(), o);
    lemma_times_minus(p.k_z.val() * air.z.val(), o);
}

proof fn lemma_times_minus(x: real, o: real)
    ensures
        x * (-o) == -(x * o),
{
    assert(x * (-o) == -(x * o)) by (nonlinear_arith);
}

/// The body-frame force when the body does not turn: static thrust and translational lift
/// along body z; against the motion through the air, rotor drag and parasitic drag.
proof fn lemma_force<S: Real>(p: QuadParams<S>, rates: Vec3<S>, om: Seq<S>, air: Vec3<S>)
    requires
        crate::scalar::exact::<S>(),
        not_turning(rates),
    ensures
        ({
            let f = spec_body_wrench(p, rates, om, air).0;
            let (x, y, z) = (air.x.val(), air.y.val(), air.z.val());
            let turns = om[0].val() + om[1].val() + om[2].val() + om[3].val();
            let n = air.spec_norm().val();
            &&& n >= 0real
            &&& f.x.val() == -((p.k_d.val() * x) * turns) - (x * p.drag_diag.x.val()) * n
            &&& f.y.val() == -((p.k_d.val() * y) * turns) - (y * p.drag_diag.y.val()) * n
            &&& f.z.val() == static_thrust(p, om, 0) + static_thrust(p, om, 1) + static_thrust(
                p,
                om,
                2,
            ) + static_thrust(p, om, 3) + 4real * (p.k_h.val() * (x * x + y * y)) - ((p.k_z.val()
                * z) * turns) - (z * p.drag_diag.z.val()) * n
        }),
{
    reveal_with_fuel(crate::multirotor::spec_rotor_sums, 5);
    lemma_rotor(p, rates, om[0], air, 0);
    lemma_rotor(p, rates, om[1], air, 1);
    lemma_rotor(p, rates, om[2], air, 2);
    lemma_rotor(p, rates, om[3], air, 3);
    let (x, y, z) = (air.x.val(), air.y.val(), air.z.val());
    let n = air.spec_norm().val();
    crate::linalg::lemma_square_sign(x);
    crate::linalg::lemma_square_sign(y);
    crate::linalg::lemma_square_sign(z);
    assert(air.spec_dot(air).val() == x * x + y * y + z * z);
    assert(n >= 0real);
    lemma_times_minus(x * p.drag_diag.x.val(), n);
    lemma_times_minus(y * p.drag_diag.y.val(), n);
    lemma_times_minus(z * p.drag_diag.z.val(), n);
    let o = (om[0].val(), om[1].val(), om[2].val(), om[3].val());
    lemma_four(p.k_d.val() * x, o.0, o.1, o.2, o.3);
    lemma_four(p.k_d.val() * y, o.0, o.1, o.2, o.3);
    lemma_four(p.k_z.val() * z, o.0, o.1, o.2, o.3);
}

proof fn lemma_four(k: real, a: real, b: real, c: real, d: real)
    ensures
        k * (a + b + c + d) == k * a + k * b + k * c + k * d,
{
    crate::algebra::lemma_dist(k, a, b);
    crate::algebra::lemma_dist(k, a + b, c);
    crate::algebra::lemma_dist(k, a + b + c, d);
}

/// The force on the vehicle other than its weight, in world axes: mass times acceleration,
/// the weight taken off again.
pub open spec fn push_on<S: Real>(p: QuadParams<S>, s: State<S>, cmd: Seq<S>) -> crate::algebra::Row3 {
    let a = rate_of(p, s, cmd).v;
    let m = p.mass.val();
    crate::algebra::Row3 {
        x: m * a.x.val(),
        y: m * a.y.val(),
        z: m * a.z.val() + m * crate::params::spec_gravity::<S>().val(),
    }
}

/// The vehicle that a description gives, with any gains of its rotors.
pub open spec fn vehicle<S: Real>(inp: QuadParamsInput<S>, gain: [S; NUM_ROTORS]) -> QuadParams<S> {
    QuadParams { rotor_gain: gain, ..QuadParams::spec_from_input(inp) }
}

proof fn lemma_push<S: Real>(
    inp: QuadParamsInput<S>,
    gain: [S; NUM_ROTORS],
    s: State<S>,
    cmd: Seq<S>,
)
    requires
        crate::scalar::exact::<S>(),
        inp.mass.val() != 0real,
    ensures
        ({
            let p = vehicle(inp, gain);
            let r = s.q.spec_to_rotmat();
            let air = r.spec_tmatvec(s.v - s.wind);
            let f = spec_body_wrench(p, s.w, s.rotor_speeds@, air).0;
            push_on(p, s, cmd) == r.spec_matvec(f).row()
        }),
{
    reveal(spec_s_dot);
    crate::state::law_unpack_pack(s);
    let p = vehicle(inp, gain);
    let r = s.q.spec_to_rotmat();
    let air = r.spec_tmatvec(s.v - s.wind);
    let f = spec_body_wrench(p, s.w, s.rotor_speeds@, air).0;
    let w = r.spec_matvec(f);
    let (m, i) = (inp.mass.val(), (S::spec_one() / inp.mass).val());
    crate::linalg::lemma_reciprocal(m, i);
    let g = crate::params::spec_gravity::<S>().val();
    crate::algebra::lemma_neg(m, g);
    lemma_mass_times(m, i, S::spec_zero().val() + w.x.val());
    lemma_mass_times(m, i, S::spec_zero().val() + w.y.val());
    lemma_mass_times(m, i, (-inp.mass).val() * g + w.z.val());
}

proof fn lemma_mass_times(m: real, i: real, x: real)
    requires
        m * i == 1real,
    ensures
        m * (x * i) == x,
{
    assert(m * (x * i) == x * (m * i)) by (nonlinear_arith);
    lemma_times_one(x, m * i);
}

/// What the push and the motion through the air are along the axes of the body.
proof fn lemma_push_in_body<S: Real>(
    inp: QuadParamsInput<S>,
    gain: [S; NUM_ROTORS],
    s: State<S>,
    cmd: Seq<S>,
)
    requires
        crate::scalar::exact::<S>(),
        inp.mass.val() != 0real,
        s.q.spec_norm().val() != 0real,
    ensures
        ({
            let p = vehicle(inp, gain);
            let r = s.q.spec_to_rotmat();
            let rel = (s.v - s.wind).row();
            let air = r.spec_tmatvec(s.v - s.wind);
            let f = spec_body_wrench(p, s.w, s.rotor_speeds@, air).0;
            let push = push_on(p, s, cmd);
            &&& crate::algebra::dot(push, r.col(0)) == f.x.val()
            &&& crate::algebra::dot(push, r.col(1)) == f.y.val()
            &&& crate::algebra::dot(push, r.col(2)) == f.z.val()
            &&& crate::algebra::dot(rel, r.col(0)) == air.x.val()
            &&& crate::algebra::dot(rel, r.col(1)) == air.y.val()
            &&& crate::algebra::dot(rel, r.col(2)) == air.z.val()
        }),
{
    lemma_push(inp, gain, s, cmd);
    let p = vehicle(inp, gain);
    let r = s.q.spec_to_rotmat();
    let air = r.spec_tmatvec(s.v - s.wind);
    let f = spec_body_wrench(p, s.w, s.rotor_speeds@, air).0;
    crate::linalg::law_rotmat_is_orthonormal(s.q);
    crate::transforms::lemma_matvec_columns(r, f);
    crate::transforms::lemma_matvec_columns(r.spec_transpose(), s.v - s.wind);
    assert(r.spec_transpose().row(0) == r.col(0));
    assert(r.spec_transpose().row(1) == r.col(1));
    assert(r.spec_transpose().row(2) == r.col(2));
    let rel = (s.v - s.wind).row();
    crate::algebra::lemma_dot_comm(rel, r.col(0));
    crate::algebra::lemma_dot_comm(rel, r.col(1));
    crate::algebra::lemma_dot_comm(rel, r.col(2));
    lemma_frame_axis(r, f, 0);
    lemma_frame_axis(r, f, 1);
    lemma_frame_axis(r, f, 2);
}

proof fn lemma_frame_axis<S: Real>(r: Mat3<S>, f: Vec3<S>, i: int)
    requires
        crate::scalar::exact::<S>(),
        r.orthonormal(),
        0 <= i < 3,
    ensures
        crate::algebra::dot(
            crate::algebra::in_frame(r.col(0), r.col(1), r.col(2), f.row()),
            r.col(i),
        ) == if i == 0 {
            f.x.val()
        } else if i == 1 {
            f.y.val()
        } else {
            f.z.val()
        },
{
    crate::algebra::lemma_dot_in_frame(r.col(0), r.col(1), r.col(2), f.row(), r.col(i));
    assert(crate::algebra::dot(r.col(0), r.col(i)) == crate::linalg::unit(0, i));
    assert(crate::algebra::dot(r.col(1), r.col(i)) == crate::linalg::unit(1, i));
    assert(crate::algebra::dot(r.col(2), r.col(i)) == crate::linalg::unit(2, i));
    lemma_times_one(f.x.val(), 1real);
    lemma_times_one(f.y.val(), 1real);
    lemma_times_one(f.z.val(), 1real);
    lemma_times_zero(f.x.val(), 0real);
    lemma_times_zero(f.y.val(), 0real);
    lemma_times_zero(f.z.val(), 0real);
}

proof fn lemma_against(k: real, turns: real, c: real, n: real, x: real)
    requires
        k >= 0real,
        turns >= 0real,
        c >= 0real,
        n >= 0real,
    ensures
        (-((k * x) * turns) - (x * c) * n) * x <= 0real,
        x != 0real && (k * turns > 0real || c * n > 0real) ==> (-((k * x) * turns) - (x * c) * n)
            * x < 0real,
{
    let (a, b, q) = (k * turns, c * n, x * x);
    assert(a >= 0real) by (nonlinear_arith)
        requires
            a == k * turns,
            k >= 0real,
            turns >= 0real,
    ;
    assert(b >= 0real) by (nonlinear_arith)
        requires
            b == c * n,
            c >= 0real,
            n >= 0real,
    ;
    crate::linalg::lemma_square_sign(x);
    assert((k * x) * turns == a * x) by (nonlinear_arith)
        requires
            a == k * turns,
    ;
    assert((x * c) * n == b * x) by (nonlinear_arith)
        requires
            b == c * n,
    ;
    crate::algebra::lemma_dist(x, -(a * x), b * x);
    crate::algebra::lemma_neg(a * x, x);
    assert((a * x) * x == a * q) by (nonlinear_arith)
        requires
            q == x * x,
    ;
    assert((b * x) * x == b * q) by (nonlinear_arith)
        requires
            q == x * x,
    ;
    assert(a * q >= 0real) by (nonlinear_arith)
        requires
            a >= 0real,
            q >= 0real,
    ;
    assert(b * q >= 0real) by (nonlinear_arith)
        requires
            b >= 0real,
            q >= 0real,
    ;
    if x != 0real {
        assert(q > 0real) by (nonlinear_arith)
            requires
                q == x * x,
                x != 0real,
        ;
        if a > 0real {
            assert(a * q > 0real) by (nonlinear_arith)
                requires
                    a > 0real,
                    q > 0real,
            ;
        }
        if b > 0real {
            assert(b * q > 0real) by (nonlinear_arith)
                requires
                    b > 0real,
                    q > 0real,
            ;
        }
    }
}

/// Drag opposes the motion through the air, in any attitude: along each axis of the body
/// the push on a vehicle that does not turn, less the lift along body z, is directed
/// against its velocity relative to the wind, and strictly so across body z where a rotor
/// turns and has drag.
pub proof fn law_drag_opposes_airspeed<S: Real>(
    inp: QuadParamsInput<S>,
    gain: [S; NUM_ROTORS],
    s: State<S>,
    cmd: Seq<S>,
)
    requires
        crate::scalar::exact::<S>(),
        inp.mass.val() != 0real,
        s.q.spec_norm().val() != 0real,
        not_turning(s.w),
        inp.k_d.val() >= 0real,
        inp.k_z.val() >= 0real,
        inp.c_dx.val() >= 0real,
        inp.c_dy.val() >= 0real,
        inp.c_dz.val() >= 0real,
        forall|j: int| 0 <= j < NUM_ROTORS ==> (#[trigger] s.rotor_speeds[j]).val() >= 0real,
    ensures
        ({
            let p = vehicle(inp, gain);
            let r = s.q.spec_to_rotmat();
            let rel = (s.v - s.wind).row();
            let push = push_on(p, s, cmd);
            let om = s.rotor_speeds@;
            let (px, py, pz) = (
                crate::algebra::dot(push, r.col(0)),
                crate::algebra::dot(push, r.col(1)),
                crate::algebra::dot(push, r.col(2)),
            );
            let (ax, ay, az) = (
                crate::algebra::dot(rel, r.col(0)),
                crate::algebra::dot(rel, r.col(1)),
                crate::algebra::dot(rel, r.col(2)),
            );
            let lift = static_thrust(p, om, 0) + static_thrust(p, om, 1) + static_thrust(p, om, 2)
                + static_thrust(p, om, 3) + 4real * (p.k_h.val() * (ax * ax + ay * ay));
            let turns = om[0].val() + om[1].val() + om[2].val() + om[3].val();
            &&& px * ax <= 0real
            &&& py * ay <= 0real
            &&& (pz - lift) * az <= 0real
            &&& ax != 0real && inp.k_d.val() * turns > 0real ==> px * ax < 0real
            &&& ay != 0real && inp.k_d.val() * turns > 0real ==> py * ay < 0real
        }),
{
    let p = vehicle(inp, gain);
    let r = s.q.spec_to_rotmat();
    let air = r.spec_tmatvec(s.v - s.wind);
    let om = s.rotor_speeds@;
    lemma_push_in_body(inp, gain, s, cmd);
    lemma_force(p, s.w, om, air);
    assert(s.rotor_speeds[0].val() >= 0real && s.rotor_speeds[1].val() >= 0real);
    assert(s.rotor_speeds[2].val() >= 0real && s.rotor_speeds[3].val() >= 0real);
    let turns = om[0].val() + om[1].val() + om[2].val() + om[3].val();
    let n = air.spec_norm().val();
    lemma_against(p.k_d.val(), turns, p.drag_diag.x.val(), n, air.x.val());
    lemma_against(p.k_d.val(), turns, p.drag_diag.y.val(), n, air.y.val());
    lemma_against(p.k_z.val(), turns, p.drag_diag.z.val(), n, air.z.val());
}

/// A vehicle that drifts with the wind and does not turn feels no drag: whatever its
/// attitude, its rotors push it along body z, by the sum of their static thrusts.
pub proof fn law_thrust_is_along_body_z<S: Real>(
    inp: QuadParamsInput<S>,
    gain: [S; NUM_ROTORS],
    s: State<S>,
    cmd: Seq<S>,
)
    requires
        crate::scalar::exact::<S>(),
        inp.mass.val() != 0real,
        not_turning(s.w),
        s.v.same(s.wind),
    ensures
        ({
            let p = vehicle(inp, gain);
            let om = s.rotor_speeds@;
            let up = s.q.spec_to_rotmat().col(2);
            let t = static_thrust(p, om, 0) + static_thrust(p, om, 1) + static_thrust(p, om, 2)
                + static_thrust(p, om, 3);
            push_on(p, s, cmd) == crate::algebra::times3(up, t)
        }),
{
    lemma_push(inp, gain, s, cmd);
    let p = vehicle(inp, gain);
    let r = s.q.spec_to_rotmat();
    let rel = s.v - s.wind;
    let air = r.spec_tmatvec(rel);
    let f = spec_body_wrench(p, s.w, s.rotor_speeds@, air).0;
    lemma_force(p, s.w, s.rotor_speeds@, air);
    lemma_still(r, rel);
    let turns = s.rotor_speeds[0].val() + s.rotor_speeds[1].val() + s.rotor_speeds[2].val()
        + s.rotor_speeds[3].val();
    let n = air.spec_norm().val();
    lemma_times_zero(p.k_d.val(), air.x.val());
    lemma_times_zero(p.k_d.val(), air.y.val());
    lemma_times_zero(p.k_z.val(), air.z.val());
    lemma_times_zero(turns, 0real);
    lemma_times_zero(p.drag_diag.x.val(), air.x.val());
    lemma_times_zero(p.drag_diag.y.val(), air.y.val());
    lemma_times_zero(p.drag_diag.z.val(), air.z.val());
    lemma_times_zero(n, 0real);
    lemma_times_zero(air.x.val(), air.x.val());
    lemma_times_zero(air.y.val(), air.y.val());
    lemma_times_zero(p.k_h.val(), 0real);
    assert(f.x.val() == 0real && f.y.val() == 0real);
    lemma_times_zero(r.at(0, 0).val(), f.x.val());
    lemma_times_zero(r.at(0, 1).val(), f.y.val());
    lemma_times_zero(r.at(1, 0).val(), f.x.val());
    lemma_times_zero(r.at(1, 1).val(), f.y.val());
    lemma_times_zero(r.at(2, 0).val(), f.x.val());
    lemma_times_zero(r.at(2, 1).val(), f.y.val());
}

/// A matrix and its transpose take zero to zero.
pub proof fn lemma_still<S: Real>(r: Mat3<S>, v: Vec3<S>)
    requires
        crate::scalar::exact::<S>(),
        not_turning(v),
    ensures
        not_turning(r.spec_tmatvec(v)),
        not_turning(r.spec_matvec(v)),
{
    lemma_still_rows(r.spec_transpose(), v);
    lemma_still_rows(r, v);
}

proof fn lemma_still_rows<S: Real>(r: Mat3<S>, v: Vec3<S>)
    requires
        crate::scalar::exact::<S>(),
        not_turning(v),
    ensures
        not_turning(r.spec_matvec(v)),
{
    lemma_times_zero(r.at(0, 0).val(), v.x.val());
    lemma_times_zero(r.at(0, 1).val(), v.y.val());
    lemma_times_zero(r.at(0, 2).val(), v.z.val());
    lemma_times_zero(r.at(1, 0).val(), v.x.val());
    lemma_times_zero(r.at(1, 1).val(), v.y.val());
    lemma_times_zero(r.at(1, 2).val(), v.z.val());
    lemma_times_zero(r.at(2, 0).val(), v.x.val());
    lemma_times_zero(r.at(2, 1).val(), v.y.val());
    lemma_times_zero(r.at(2, 2).val(), v.z.val());
}

/// The push across body z, of a vehicle that does not turn: rotor drag in the speeds of the
/// rotors, and along each body axis the drag of the airframe with the coefficient of that
/// axis, in the square of the airspeed.
pub proof fn law_drag_along_body_axes<S: Real>(
    inp: QuadParamsInput<S>,
    gain: [S; NUM_ROTORS],
    s: State<S>,
    cmd: Seq<S>,
)
    requires
        crate::scalar::exact::<S>(),
        inp.mass.val() != 0real,
        s.q.spec_norm().val() != 0real,
        not_turning(s.w),
    ensures
        ({
            let p = vehicle(inp, gain);
            let r = s.q.spec_to_rotmat();
            let rel = (s.v - s.wind).row();
            let push = push_on(p, s, cmd);
            let om = s.rotor_speeds@;
            let a = |i: int| crate::algebra::dot(rel, r.col(i));
            let turns = om[0].val() + om[1].val() + om[2].val() + om[3].val();
            let n = r.spec_tmatvec(s.v - s.wind).spec_norm().val();
            let lift = static_thrust(p, om, 0) + static_thrust(p, om, 1) + static_thrust(p, om, 2)
                + static_thrust(p, om, 3) + 4real * (inp.k_h.val() * (a(0) * a(0) + a(1) * a(1)));
            &&& n * n == a(0) * a(0) + a(1) * a(1) + a(2) * a(2)
            &&& crate::algebra::dot(push, r.col(0)) == -((inp.k_d.val() * a(0)) * turns) - (a(0)
                * inp.c_dx.val()) * n
            &&& crate::algebra::dot(push, r.col(1)) == -((inp.k_d.val() * a(1)) * turns) - (a(1)
                * inp.c_dy.val()) * n
            &&& crate::algebra::dot(push, r.col(2)) == lift - (inp.k_z.val() * a(2)) * turns - (a(2)
                * inp.c_dz.val()) * n
        }),
{
    let p = vehicle(inp, gain);
    let r = s.q.spec_to_rotmat();
    let air = r.spec_tmatvec(s.v - s.wind);
    lemma_push_in_body(inp, gain, s, cmd);
    lemma_force(p, s.w, s.rotor_speeds@, air);
    crate::race::lemma_norm(air);
}

/// The inertia is that of the description: twice the energy of turning with rate `w` is
/// `w . I w`, the moments of inertia against the squares of their own axes, and twice the
/// products of inertia against the products of theirs.
pub proof fn law_turning_energy<S: Real>(inp: QuadParamsInput<S>, w: Vec3<S>)
    requires
        crate::scalar::exact::<S>(),
    ensures
        ({
            let l = QuadParams::spec_from_input(inp).inertia.spec_matvec(w);
            let (x, y, z) = (w.x.val(), w.y.val(), w.z.val());
            w.spec_dot(l).val() == inp.ixx.val() * (x * x) + inp.iyy.val() * (y * y)
                + inp.izz.val() * (z * z) + 2real * (inp.ixy.val() * (x * y)) + 2real * (
            inp.iyz.val() * (y * z)) + 2real * (inp.ixz.val() * (x * z))
        }),
{
    let (x, y, z) = (w.x.val(), w.y.val(), w.z.val());
    let (a, b, c) = (inp.ixx.val(), inp.iyy.val(), inp.izz.val());
    let (d, e, f) = (inp.ixy.val(), inp.iyz.val(), inp.ixz.val());
    crate::algebra::lemma_dist(x, a * x, d * y);
    crate::algebra::lemma_dist(x, a * x + d * y, f * z);
    crate::algebra::lemma_dist(y, d * x, b * y);
    crate::algebra::lemma_dist(y, d * x + b * y, e * z);
    crate::algebra::lemma_dist(z, f * x, e * y);
    crate::algebra::lemma_dist(z, f * x + e * y, c * z);
    crate::algebra::lemma_cycle3(x, a, x);
    crate::algebra::lemma_cycle3(y, b, y);
    crate::algebra::lemma_cycle3(z, c, z);
    crate::algebra::lemma_cycle3(x, d, y);
    crate::algebra::lemma_cycle3(y, d, x);
    crate::algebra::lemma_comm(y, x);
    crate::algebra::lemma_cycle3(x, f, z);
    crate::algebra::lemma_cycle3(z, f, x);
    crate::algebra::lemma_comm(z, x);
    crate::algebra::lemma_cycle3(y, e, z);
    crate::algebra::lemma_cycle3(z, e, y);
    crate::algebra::lemma_comm(z, y);
}

// ---------------------------------------------------------------------------
// Hover
// ---------------------------------------------------------------------------
/// The hover state hovers: level and at rest in still air, the rotors carry the weight, so
/// that neither position nor velocity changes.
pub proof fn law_hover_state_hovers<S: Real>(
    inp: QuadParamsInput<S>,
    x: S,
    y: S,
    z: S,
    cmd: Seq<S>,
)
    requires
        crate::scalar::exact::<S>(),
        inp.mass.val() > 0real,
        inp.k_eta.val() > 0real,
    ensures
        ({
            let p = QuadParams::spec_from_input(inp);
            let d = rate_of(p, crate::drone::spec_hover_state(inp, x, y, z), cmd);
            &&& not_turning(d.x)
            &&& not_turning(d.v)
        }),
{
    let p = QuadParams::spec_from_input(inp);
    let s = crate::drone::spec_hover_state(inp, x, y, z);
    let one = S::spec_one();
    let gain = [one, one, one, one];
    assert(p.rotor_gain =~= gain);
    assert(vehicle(inp, gain) == p);
    law_thrust_is_along_body_z(inp, gain, s, cmd);
    lemma_rate(p, s, cmd);
    let (m, k) = (inp.mass.val(), inp.k_eta.val());
    let g = crate::params::spec_gravity::<S>().val();
    crate::scalar::lemma_splat_fraction::<S>(981, 100);
    crate::scalar::lemma_splat_int::<S>(4);
    let o = crate::drone::spec_hover_rpm(inp).val();
    let w = (inp.mass * crate::params::spec_gravity::<S>() / (S::spec_splat(4, 1) * inp.k_eta)).val();
    assert(w == (m * g) / (4real * k));
    assert(w >= 0real && 4real * (k * w) == m * g) by (nonlinear_arith)
        requires
            w == (m * g) / (4real * k),
            m > 0real,
            k > 0real,
            g > 0real,
    ;
    assert(o * o == w);
    lemma_times_one(k, 1real);
    assert(static_thrust(p, s.rotor_speeds@, 0) == k * w);
    assert(static_thrust(p, s.rotor_speeds@, 1) == k * w);
    assert(static_thrust(p, s.rotor_speeds@, 2) == k * w);
    assert(static_thrust(p, s.rotor_speeds@, 3) == k * w);
    lemma_level(s.q);
    let t = 4real * (k * w);
    lemma_times_one(t, 1real);
    lemma_times_zero(t, 0real);
    let a = rate_of(p, s, cmd).v;
    assert(m * a.x.val() == 0real && m * a.y.val() == 0real && m * a.z.val() == 0real);
    lemma_no_factor(m, a.x.val());
    lemma_no_factor(m, a.y.val());
    lemma_no_factor(m, a.z.val());
}

proof fn lemma_no_factor(m: real, x: real)
    requires
        m > 0real,
        m * x == 0real,
    ensures
        x == 0real,
{
    assert(x == 0real) by (nonlinear_arith)
        requires
            m > 0real,
            m * x == 0real,
    ;
}

proof fn lemma_level<S: Real>(q: Quat<S>)
    requires
        crate::scalar::exact::<S>(),
        q.i.val() == 0real,
        q.j.val() == 0real,
        q.k.val() == 0real,
        q.w.val() == 1real,
    ensures
        q.spec_to_rotmat().col(2) == (crate::algebra::Row3 { x: 0real, y: 0real, z: 1real }),
{
    lemma_times_zero(0real, 0real);
    lemma_times_one(1real, 1real);
    lemma_times_zero(1real, 0real);
    lemma_unit_stays(q);
    crate::scalar::lemma_splat_int::<S>(2);
}

proof fn lemma_level_axes<S: Real>(q: Quat<S>)
    requires
        crate::scalar::exact::<S>(),
        q.i.val() == 0real,
        q.j.val() == 0real,
        q.k.val() == 0real,
        q.w.val() == 1real,
    ensures
        q.spec_to_rotmat().col(0) == (crate::algebra::Row3 { x: 1real, y: 0real, z: 0real }),
        q.spec_to_rotmat().col(1) == (crate::algebra::Row3 { x: 0real, y: 1real, z: 0real }),
        q.spec_norm().val() == 1real,
{
    lemma_times_zero(0real, 0real);
    lemma_times_one(1real, 1real);
    lemma_times_zero(1real, 0real);
    lemma_unit_stays(q);
    crate::scalar::lemma_splat_int::<S>(2);
}

proof fn lemma_first_axes(v: crate::algebra::Row3)
    ensures
        crate::algebra::dot(v, crate::algebra::Row3 { x: 1real, y: 0real, z: 0real }) == v.x,
        crate::algebra::dot(v, crate::algebra::Row3 { x: 0real, y: 1real, z: 0real }) == v.y,
{
    lemma_times_one(v.x, 1real);
    lemma_times_one(v.y, 1real);
    lemma_times_zero(v.x, 0real);
    lemma_times_zero(v.y, 0real);
    lemma_times_zero(v.z, 0real);
}

/// Wind carries a level drone along: at rest it is accelerated with the wind, along each
/// horizontal axis, and strictly so where its rotors turn and have drag; and any horizontal
/// force on it is against its velocity relative to the wind.
pub proof fn law_wind_carries_along<S: Real>(
    inp: QuadParamsInput<S>,
    gain: [S; NUM_ROTORS],
    s: State<S>,
    cmd: Seq<S>,
)
    requires
        crate::scalar::exact::<S>(),
        inp.mass.val() > 0real,
        s.q.i.val() == 0real,
        s.q.j.val() == 0real,
        s.q.k.val() == 0real,
        s.q.w.val() == 1real,
        not_turning(s.w),
        inp.k_d.val() >= 0real,
        inp.k_z.val() >= 0real,
        inp.c_dx.val() >= 0real,
        inp.c_dy.val() >= 0real,
        inp.c_dz.val() >= 0real,
        forall|j: int| 0 <= j < NUM_ROTORS ==> (#[trigger] s.rotor_speeds[j]).val() >= 0real,
    ensures
        ({
            let a = rate_of(vehicle(inp, gain), s, cmd).v;
            let om = s.rotor_speeds@;
            let turns = om[0].val() + om[1].val() + om[2].val() + om[3].val();
            let (x, y) = (s.v.x.val() - s.wind.x.val(), s.v.y.val() - s.wind.y.val());
            let (wx, wy) = (s.wind.x.val(), s.wind.y.val());
            let drags = inp.k_d.val() * turns > 0real;
            &&& a.x.val() * x <= 0real && a.y.val() * y <= 0real
            &&& drags && x != 0real ==> a.x.val() * x < 0real
            &&& drags && y != 0real ==> a.y.val() * y < 0real
            &&& not_turning(s.v) ==> a.x.val() * wx >= 0real && a.y.val() * wy >= 0real
            &&& not_turning(s.v) && drags && wx != 0real ==> a.x.val() * wx > 0real
            &&& not_turning(s.v) && drags && wy != 0real ==> a.y.val() * wy > 0real
        }),
{
    lemma_level_axes(s.q);
    law_drag_opposes_airspeed(inp, gain, s, cmd);
    let p = vehicle(inp, gain);
    let push = push_on(p, s, cmd);
    let rel = (s.v - s.wind).row();
    lemma_first_axes(push);
    lemma_first_axes(rel);
    let a = rate_of(p, s, cmd).v;
    let m = inp.mass.val();
    lemma_sign(m, a.x.val(), rel.x);
    lemma_sign(m, a.y.val(), rel.y);
    if not_turning(s.v) {
        assert(rel.x == -s.wind.x.val() && rel.y == -s.wind.y.val());
        lemma_times_minus(a.x.val(), s.wind.x.val());
        lemma_times_minus(a.y.val(), s.wind.y.val());
    }
}

proof fn lemma_sign(m: real, a: real, x: real)
    requires
        m > 0real,
        (m * a) * x <= 0real,
    ensures
        a * x <= 0real,
        (m * a) * x < 0real ==> a * x < 0real,
{
    let b = a * x;
    assert((m * a) * x == m * b) by (nonlinear_arith)
        requires
            b == a * x,
    ;
    assert(b <= 0real) by (nonlinear_arith)
        requires
            m * b <= 0real,
            m > 0real,
    ;
    if m * b < 0real {
        assert(b < 0real) by (nonlinear_arith)
            requires
                m * b < 0real,
                m > 0real,
        ;
    }
}

} // verus!
