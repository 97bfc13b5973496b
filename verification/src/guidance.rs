//! What the geometric controller and the rate loop ask of the rotors: laws that relate a
//! command to the tracking errors it answers, and the rotor forces to the command.
use vstd::prelude::*;

use crate::algebra::{cross, dot, Row3};
use crate::control::{spec_ctbr_wrench, Ctbr, ControlLaw, CtbrCmd};
use crate::linalg::{Mat3, Quat, Vec3};
use crate::mechanics::plus;
use crate::params::{QuadParams, QuadParamsInput};
use crate::physics::{lemma_times_one, lemma_times_zero};
use crate::scalar::Real;
use crate::se3::{
    spec_attitude_error, spec_desired_attitude, spec_normalize, FlatRef, Se3Control,
};
use crate::state::State;

verus! {

// ---------------------------------------------------------------------------
// Allocation
// ---------------------------------------------------------------------------
/// Four rotor forces of a vehicle give this thrust along body z and this moment: lift times
/// lever arm about x and y, and the reaction to the turning of the rotors about z.
pub open spec fn gives<S: Real>(
    inp: QuadParamsInput<S>,
    f: Seq<S>,
    thrust: real,
    moment: Row3,
) -> bool {
    let k = |j: int| inp.k_m.val() / inp.k_eta.val() * inp.rotor_directions[j].val();
    let (x, y) = (|j: int| inp.rotor_pos[j][0].val(), |j: int| inp.rotor_pos[j][1].val());
    &&& f[0].val() + f[1].val() + f[2].val() + f[3].val() == thrust
    &&& y(0) * f[0].val() + y(1) * f[1].val() + y(2) * f[2].val() + y(3) * f[3].val() == moment.x
    &&& -(x(0) * f[0].val()) - x(1) * f[1].val() - x(2) * f[2].val() - x(3) * f[3].val()
        == moment.y
    &&& k(0) * f[0].val() + k(1) * f[1].val() + k(2) * f[2].val() + k(3) * f[3].val() == moment.z
}

/// The rotors can be told to give any thrust and moment.
pub open spec fn controllable<S: Real>(inp: QuadParamsInput<S>) -> bool {
    inp.spec_f_to_tm().spec_det().val() != 0real && inp.k_eta.val() != 0real
}

/// The allocation gives what was asked for.
pub proof fn law_allocation_gives<S: Real>(inp: QuadParamsInput<S>, w: Seq<S>)
    requires
        crate::scalar::exact::<S>(),
        controllable(inp),
        w.len() == 4,
    ensures
        gives(
            inp,
            QuadParams::spec_from_input(inp).tm_to_f.spec_matvec(w),
            w[0].val(),
            Row3 { x: w[1].val(), y: w[2].val(), z: w[3].val() },
        ),
{
    let m = inp.spec_f_to_tm();
    let f = QuadParams::spec_from_input(inp).tm_to_f.spec_matvec(w);
    crate::linalg::law_mat4_inverse_undoes(m, w);
    let b = m.spec_matvec(f);
    assert(b[0].val() == w[0].val());
    assert(b[1].val() == w[1].val());
    assert(b[2].val() == w[2].val());
    assert(b[3].val() == w[3].val());
    lemma_times_one(f[0].val(), 1real);
    lemma_times_one(f[1].val(), 1real);
    lemma_times_one(f[2].val(), 1real);
    lemma_times_one(f[3].val(), 1real);
    crate::algebra::lemma_neg(inp.arm(0).x.val(), f[0].val());
    crate::algebra::lemma_neg(inp.arm(1).x.val(), f[1].val());
    crate::algebra::lemma_neg(inp.arm(2).x.val(), f[2].val());
    crate::algebra::lemma_neg(inp.arm(3).x.val(), f[3].val());
}

// ---------------------------------------------------------------------------
// The rate loop
// ---------------------------------------------------------------------------
/// The force of a rotor at commanded speed `r`, of either sign.
pub open spec fn force_at<S: Real>(k_eta: S, r: S) -> real {
    k_eta.val() * (r.val() * r.spec_abs().val())
}

/// A thrust and body-rate command is given by the rotors: their forces add up to the thrust,
/// and turn the vehicle toward the commanded rates in proportion to what is missing.
pub proof fn law_rates_are_pursued<S: Real>(
    inp: QuadParamsInput<S>,
    state: State<S>,
    cmd: CtbrCmd<S>,
    f: Seq<S>,
)
    requires
        crate::scalar::exact::<S>(),
        controllable(inp),
        inp.k_eta.val() > 0real,
        f.len() == 4,
        ({
            let r = Ctbr::spec_cmd_rotor_speeds(QuadParams::spec_from_input(inp), state, cmd);
            forall|j: int| 0 <= j < 4 ==> (#[trigger] f[j]).val() == force_at(inp.k_eta, r[j])
        }),
    ensures
        ({
            let k = inp.k_w.val();
            let missing = Row3 {
                x: k * (cmd.w_cmd.x.val() - state.w.x.val()),
                y: k * (cmd.w_cmd.y.val() - state.w.y.val()),
                z: k * (cmd.w_cmd.z.val() - state.w.z.val()),
            };
            let i = inp.spec_inertia();
            gives(
                inp,
                f,
                cmd.thrust.val(),
                Row3 { x: dot(i.row(0), missing), y: dot(i.row(1), missing), z: dot(
                    i.row(2),
                    missing,
                ) },
            )
        }),
{
    let p = QuadParams::spec_from_input(inp);
    let w = spec_ctbr_wrench(p, state, cmd);
    law_allocation_gives(inp, w);
    let a = p.tm_to_f.spec_matvec(w);
    let r = Ctbr::spec_cmd_rotor_speeds(p, state, cmd);
    crate::control::law_speed_gives_force(a[0], inp.k_eta);
    crate::control::law_speed_gives_force(a[1], inp.k_eta);
    crate::control::law_speed_gives_force(a[2], inp.k_eta);
    crate::control::law_speed_gives_force(a[3], inp.k_eta);
    assert(f[0].val() == a[0].val() && f[1].val() == a[1].val());
    assert(f[2].val() == a[2].val() && f[3].val() == a[3].val());
    let k = inp.k_w.val();
    lemma_toward(state.w.x.val(), cmd.w_cmd.x.val(), k);
    lemma_toward(state.w.y.val(), cmd.w_cmd.y.val(), k);
    lemma_toward(state.w.z.val(), cmd.w_cmd.z.val(), k);
    crate::transforms::lemma_matvec_columns(
        p.inertia,
        (state.w - cmd.w_cmd).spec_scale(-p.k_w),
    );
}

proof fn lemma_toward(w: real, c: real, k: real)
    ensures
        (w - c) * (-k) == k * (c - w),
{
    assert((w - c) * (-k) == k * (c - w)) by (nonlinear_arith);
}

// ---------------------------------------------------------------------------
// The geometric controller
// ---------------------------------------------------------------------------
/// The desired force is that of a spring and a damper toward the reference, with the
/// acceleration of the reference and the weight fed forward: an error pushes back along its
/// own axis.
pub proof fn law_force_pulls_to_the_reference<S: Real>(
    c: Se3Control<S>,
    s: State<S>,
    r: FlatRef<S>,
)
    requires
        crate::scalar::exact::<S>(),
    ensures
        ({
            let f = c.spec_desired_force(s, r);
            let m = c.mass.val();
            let g = crate::params::spec_gravity::<S>().val();
            &&& f.x.val() == m * (r.x_ddot.x.val() + c.kp_pos.x.val() * (r.x.x.val() - s.x.x.val())
                + c.kd_pos.x.val() * (r.x_dot.x.val() - s.v.x.val()))
            &&& f.y.val() == m * (r.x_ddot.y.val() + c.kp_pos.y.val() * (r.x.y.val() - s.x.y.val())
                + c.kd_pos.y.val() * (r.x_dot.y.val() - s.v.y.val()))
            &&& f.z.val() == m * (r.x_ddot.z.val() + g + c.kp_pos.z.val() * (r.x.z.val()
                - s.x.z.val()) + c.kd_pos.z.val() * (r.x_dot.z.val() - s.v.z.val()))
        }),
{
    let m = c.mass.val();
    lemma_pull(s.x.x.val(), r.x.x.val(), c.kp_pos.x.val());
    lemma_pull(s.x.y.val(), r.x.y.val(), c.kp_pos.y.val());
    lemma_pull(s.x.z.val(), r.x.z.val(), c.kp_pos.z.val());
    lemma_pull(s.v.x.val(), r.x_dot.x.val(), c.kd_pos.x.val());
    lemma_pull(s.v.y.val(), r.x_dot.y.val(), c.kd_pos.y.val());
    lemma_pull(s.v.z.val(), r.x_dot.z.val(), c.kd_pos.z.val());
    let f = c.spec_desired_force(s, r);
    let up = Vec3 {
        x: S::spec_zero(),
        y: S::spec_zero(),
        z: crate::params::spec_gravity::<S>(),
    };
    let a = r.x_ddot + up - (s.x - r.x).spec_hadamard(c.kp_pos) - (s.v - r.x_dot).spec_hadamard(
        c.kd_pos,
    );
    crate::algebra::lemma_comm(a.x.val(), m);
    crate::algebra::lemma_comm(a.y.val(), m);
    crate::algebra::lemma_comm(a.z.val(), m);
}

proof fn lemma_pull(x: real, r: real, k: real)
    ensures
        (x - r) * k == -(k * (r - x)),
{
    assert((x - r) * k == -(k * (r - x))) by (nonlinear_arith);
}

proof fn lemma_normalized<S: Real>(v: Vec3<S>)
    requires
        crate::scalar::exact::<S>(),
        v.spec_norm().val() > S::spec_splat(1, 1000000000000).val(),
    ensures
        ({
            let u = spec_normalize(v);
            let n = v.spec_norm().val();
            &&& n > 0real
            &&& dot(u.row(), u.row()) == 1real
            &&& v.x.val() == n * u.x.val()
            &&& v.y.val() == n * u.y.val()
            &&& v.z.val() == n * u.z.val()
        }),
{
    let tiny = S::spec_splat(1, 1000000000000);
    crate::scalar::lemma_splat_fraction::<S>(1, 1000000000000);
    let len = v.spec_norm();
    let n = len.val();
    assert((tiny < len) <==> tiny.val() < n);
    let i = (S::spec_one() / len).val();
    crate::linalg::lemma_reciprocal(n, i);
    crate::race::lemma_norm(v);
    let w = v.row();
    crate::algebra::lemma_scaled_products(w, w, i);
    let u = spec_normalize(v);
    assert(u.row() == crate::algebra::times3(w, i));
    crate::algebra::lemma_scaled_pair(n, n, i);
    lemma_times_one(1real, n * i);
    assert((n * i) * (n * i) == 1real);
    lemma_back(w.x, n, i);
    lemma_back(w.y, n, i);
    lemma_back(w.z, n, i);
}

proof fn lemma_back(x: real, n: real, i: real)
    requires
        n * i == 1real,
    ensures
        n * (x * i) == x,
{
    assert(n * (x * i) == x * (n * i)) by (nonlinear_arith);
    lemma_times_one(x, n * i);
}

/// The desired attitude puts body z along the desired force and body x toward the heading:
/// its columns are orthonormal, the third is the direction of the force, the second is across
/// the heading and the first has a component along it.
pub proof fn law_attitude_carries_the_force<S: Real>(f: Vec3<S>, yaw: S)
    requires
        crate::scalar::exact::<S>(),
        f.spec_norm().val() > S::spec_splat(1, 1000000000000).val(),
        ({
            let ahead = Vec3 { x: yaw.spec_cos(), y: yaw.spec_sin(), z: S::spec_zero() };
            spec_normalize(f).spec_cross(ahead).spec_norm().val() > S::spec_splat(
                1,
                1000000000000,
            ).val()
        }),
    ensures
        ({
            let r = spec_desired_attitude(f, yaw);
            let n = f.spec_norm().val();
            let ahead = Row3 { x: yaw.spec_cos().val(), y: yaw.spec_sin().val(), z: 0real };
            let (b1, b2, b3) = (r.col(0), r.col(1), r.col(2));
            &&& n > 0real
            &&& f.row() == (Row3 { x: n * b3.x, y: n * b3.y, z: n * b3.z })
            &&& dot(b3, b3) == 1real
            &&& dot(b2, b2) == 1real
            &&& dot(b2, b3) == 0real
            &&& b1 == cross(b2, b3)
            &&& dot(b2, ahead) == 0real
            &&& dot(b1, ahead) > 0real
        }),
{
    let r = spec_desired_attitude(f, yaw);
    lemma_normalized(f);
    let b3 = spec_normalize(f);
    let c1 = Vec3 { x: yaw.spec_cos(), y: yaw.spec_sin(), z: S::spec_zero() };
    let side = b3.spec_cross(c1);
    lemma_normalized(side);
    let b2 = spec_normalize(side);
    let n = side.spec_norm().val();
    let (d, e, a) = (b2.row(), b3.row(), c1.row());
    assert(side.row() == cross(e, a));
    assert(side.row() == (Row3 { x: n * d.x, y: n * d.y, z: n * d.z }));
    crate::algebra::lemma_triple(e, a, d);
    crate::algebra::lemma_comm(n, d.x);
    crate::algebra::lemma_comm(n, d.y);
    crate::algebra::lemma_comm(n, d.z);
    assert(side.row() == crate::algebra::times3(d, n));
    crate::algebra::lemma_dot_linear(e, d, d, n);
    crate::algebra::lemma_dot_linear(a, d, d, n);
    assert(dot(e, d) * n == 0real);
    assert(dot(a, d) * n == 0real);
    lemma_no_part(dot(e, d), n);
    lemma_no_part(dot(a, d), n);
    crate::algebra::lemma_dot_comm(d, e);
    crate::algebra::lemma_dot_comm(d, a);
    assert(r.col(0) == cross(d, e));
    assert(r.col(1) == d);
    assert(r.col(2) == e);
    // (b2 x b3) . a = b2 . (b3 x a)
    crate::algebra::lemma_triple(a, d, e);
    crate::algebra::lemma_triple(d, e, a);
    crate::algebra::lemma_dot_comm(cross(d, e), a);
    crate::algebra::lemma_dot_linear(d, d, d, n);
    lemma_times_one(n, dot(d, d));
}

proof fn lemma_no_part(x: real, n: real)
    requires
        x * n == 0real,
        n > 0real,
    ensures
        x == 0real,
{
    assert(x == 0real) by (nonlinear_arith)
        requires
            x * n == 0real,
            n > 0real,
    ;
}

/// The attitude error measures how the axes of the vehicle are turned out of the desired
/// ones: twice each component is the difference of two inner products of axes.
pub proof fn law_attitude_error<S: Real>(d: Mat3<S>, r: Mat3<S>)
    requires
        crate::scalar::exact::<S>(),
    ensures
        ({
            let e = spec_attitude_error(d, r);
            &&& 2real * e.x.val() == dot(d.col(2), r.col(1)) - dot(d.col(1), r.col(2))
            &&& 2real * e.y.val() == dot(d.col(0), r.col(2)) - dot(d.col(2), r.col(0))
            &&& 2real * e.z.val() == dot(d.col(1), r.col(0)) - dot(d.col(0), r.col(1))
        }),
{
    crate::scalar::lemma_splat_fraction::<S>(1, 2);
    let h = S::spec_splat(1, 2).val();
    let a = d.spec_transpose().spec_mul(r);
    let b = r.spec_transpose().spec_mul(d);
    crate::algebra::lemma_dot_comm(r.col(1), d.col(2));
    crate::algebra::lemma_dot_comm(r.col(0), d.col(2));
    crate::algebra::lemma_dot_comm(r.col(0), d.col(1));
    assert(a.at(1, 2).val() == dot(d.col(1), r.col(2)));
    assert(b.at(1, 2).val() == dot(r.col(1), d.col(2)));
    assert(a.at(0, 2).val() == dot(d.col(0), r.col(2)));
    assert(b.at(0, 2).val() == dot(r.col(0), d.col(2)));
    assert(a.at(0, 1).val() == dot(d.col(0), r.col(1)));
    assert(b.at(0, 1).val() == dot(r.col(0), d.col(1)));
    lemma_half_of(h, a.at(1, 2).val() - b.at(1, 2).val());
    lemma_half_of(h, a.at(0, 2).val() - b.at(0, 2).val());
    lemma_half_of(h, a.at(0, 1).val() - b.at(0, 1).val());
}

proof fn lemma_half_of(h: real, x: real)
    requires
        h == 1real / 2real,
    ensures
        2real * (h * x) == x,
{
    assert(2real * (h * x) == x) by (nonlinear_arith)
        requires
            h == 1real / 2real,
    ;
}

/// A vehicle in the desired attitude has no attitude error.
pub proof fn law_no_attitude_error<S: Real>(r: Mat3<S>)
    requires
        crate::scalar::exact::<S>(),
    ensures
        spec_attitude_error(r, r).same(Vec3::spec_zero()),
{
    law_attitude_error(r, r);
    crate::algebra::lemma_dot_comm(r.col(2), r.col(1));
    crate::algebra::lemma_dot_comm(r.col(0), r.col(2));
    crate::algebra::lemma_dot_comm(r.col(1), r.col(0));
}

/// A vehicle turned by the unit quaternion with vector part `b` and scalar part `w` out of
/// the level attitude has the error `2 w b`: along the axis that it is turned about.
pub proof fn law_error_is_along_the_turn<S: Real>(level: Mat3<S>, q: Quat<S>)
    requires
        crate::scalar::exact::<S>(),
        level.col(0) == (Row3 { x: 1real, y: 0real, z: 0real }),
        level.col(1) == (Row3 { x: 0real, y: 1real, z: 0real }),
        level.col(2) == (Row3 { x: 0real, y: 0real, z: 1real }),
        q.i.val() * q.i.val() + q.j.val() * q.j.val() + q.k.val() * q.k.val() + q.w.val()
            * q.w.val() == 1real,
    ensures
        ({
            let e = spec_attitude_error(level, q.spec_to_rotmat());
            let w = q.w.val();
            &&& e.x.val() == 2real * (q.i.val() * w)
            &&& e.y.val() == 2real * (q.j.val() * w)
            &&& e.z.val() == 2real * (q.k.val() * w)
        }),
{
    let r = q.spec_to_rotmat();
    law_attitude_error(level, r);
    crate::physics::lemma_unit_stays(q);
    crate::scalar::lemma_splat_int::<S>(2);
    lemma_pick(r.col(0));
    lemma_pick(r.col(1));
    lemma_pick(r.col(2));
}

proof fn lemma_pick(v: Row3)
    ensures
        dot(Row3 { x: 1real, y: 0real, z: 0real }, v) == v.x,
        dot(Row3 { x: 0real, y: 1real, z: 0real }, v) == v.y,
        dot(Row3 { x: 0real, y: 0real, z: 1real }, v) == v.z,
{
    crate::linalg::lemma_unit_times(v.x);
    crate::linalg::lemma_unit_times(v.y);
    crate::linalg::lemma_unit_times(v.z);
}

/// The rotors give the part of the desired force that lies along body z, and turn the vehicle
/// against its attitude error and toward the yaw rate of the reference, the gyroscopic moment
/// made up for.
pub proof fn law_controller_asks<S: Real>(inp: QuadParamsInput<S>, s: State<S>, r: FlatRef<S>)
    requires
        crate::scalar::exact::<S>(),
        controllable(inp),
    ensures
        ({
            let c = Se3Control::spec_new(inp);
            let e = c.spec_att_err(s, r);
            let f = c.spec_desired_force(s, r);
            let (kp, kd) = (544real, 1166real / 25real);
            let turn = Row3 {
                x: -(kp * e.x.val()) - kd * s.w.x.val(),
                y: -(kp * e.y.val()) - kd * s.w.y.val(),
                z: -(kp * e.z.val()) - kd * (s.w.z.val() - r.yaw_dot.val()),
            };
            let i = inp.spec_inertia();
            let spin = Row3 {
                x: dot(i.row(0), s.w.row()),
                y: dot(i.row(1), s.w.row()),
                z: dot(i.row(2), s.w.row()),
            };
            gives(
                inp,
                c.spec_update(s, r),
                dot(f.row(), s.q.spec_to_rotmat().col(2)),
                plus(
                    Row3 { x: dot(i.row(0), turn), y: dot(i.row(1), turn), z: dot(i.row(2), turn) },
                    cross(s.w.row(), spin),
                ),
            )
        }),
{
    let c = Se3Control::spec_new(inp);
    let e = c.spec_att_err(s, r);
    crate::scalar::lemma_splat_int::<S>(544);
    crate::scalar::lemma_splat_fraction::<S>(4664, 100);
    let (kp, kd) = (c.kp_att.val(), c.kd_att.val());
    assert(kp == 544real);
    assert(kd == 1166real / 25real);
    lemma_against(e.x.val(), kp);
    lemma_against(e.y.val(), kp);
    lemma_against(e.z.val(), kp);
    crate::algebra::lemma_comm(s.w.x.val(), kd);
    crate::algebra::lemma_comm(s.w.y.val(), kd);
    crate::algebra::lemma_comm(s.w.z.val() - r.yaw_dot.val(), kd);
    let cmd = c.spec_cmd_w(s, r);
    let i = inp.spec_inertia();
    crate::transforms::lemma_matvec_columns(i, cmd);
    crate::transforms::lemma_matvec_columns(i, s.w);
    let u2 = c.inertia.spec_matvec(cmd) + s.w.spec_cross(c.inertia.spec_matvec(s.w));
    law_allocation_gives(inp, seq![c.spec_thrust(s, r), u2.x, u2.y, u2.z]);
}

proof fn lemma_against(e: real, k: real)
    ensures
        e * (-k) == -(k * e),
{
    assert(e * (-k) == -(k * e)) by (nonlinear_arith);
}

/// The seed for body-rate planning carries the same thrust, but none that pulls down, and
/// turns against the attitude error no faster than allowed.
pub proof fn law_seed_turns_back<S: Real>(
    c: Se3Control<S>,
    s: State<S>,
    r: FlatRef<S>,
    kp: S,
    limit: S,
)
    requires
        crate::scalar::exact::<S>(),
        limit.val() >= 0real,
    ensures
        ({
            let (thrust, w) = c.spec_ctbr_seed(s, r, kp, limit);
            let e = c.spec_att_err(s, r);
            let along = dot(c.spec_desired_force(s, r).row(), s.q.spec_to_rotmat().col(2));
            &&& thrust.val() == if along >= 0real {
                along
            } else {
                0real
            }
            &&& turns_back(w.x.val(), e.x.val(), kp.val(), limit.val())
            &&& turns_back(w.y.val(), e.y.val(), kp.val(), limit.val())
            &&& turns_back(w.z.val(), e.z.val(), kp.val(), limit.val())
        }),
{
    let e = c.spec_att_err(s, r);
    lemma_against(e.x.val(), kp.val());
    lemma_against(e.y.val(), kp.val());
    lemma_against(e.z.val(), kp.val());
    let w = e.spec_scale(-kp);
    lemma_clipped(w.x, limit);
    lemma_clipped(w.y, limit);
    lemma_clipped(w.z, limit);
    let along = c.spec_thrust(s, r);
    assert(along.spec_is_finite() && S::spec_zero().spec_is_finite());
}

/// The rate is the error against its sign, times `k`, cut to the limit.
pub open spec fn turns_back(w: real, e: real, k: real, limit: real) -> bool {
    w == if -(k * e) > limit {
        limit
    } else if -(k * e) < -limit {
        -limit
    } else {
        -(k * e)
    }
}

proof fn lemma_clipped<S: Real>(x: S, limit: S)
    requires
        crate::scalar::exact::<S>(),
        limit.val() >= 0real,
    ensures
        crate::scalar::spec_clip(x, -limit, limit).val() == if x.val() > limit.val() {
            limit.val()
        } else if x.val() < -limit.val() {
            -limit.val()
        } else {
            x.val()
        },
{
    assert(x.spec_is_finite() && limit.spec_is_finite() && (-limit).spec_is_finite());
    assert((x < -limit) <==> x.val() < (-limit).val());
    assert((limit < x) <==> limit.val() < x.val());
}

} // verus!
