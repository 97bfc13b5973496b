//! Forces, moments and motion of the vehicle: laws of rigid-body mechanics that the dynamics
//! and their integration obey.
use vstd::prelude::*;

use crate::algebra::{cross, dot, Row3};
use crate::linalg::{Mat3, Vec3};
use crate::multirotor::{
    spec_axpy, spec_body_wrench, spec_integrate, spec_rk4, spec_rk4_steps, spec_s_dot,
    spec_substeps,
};
use crate::params::{QuadParams, QuadParamsInput, NUM_ROTORS};
use crate::physics::{lemma_times_one, lemma_times_zero, rate_of, vehicle};
use crate::scalar::Real;
use crate::state::State;

verus! {

// ---------------------------------------------------------------------------
// Forces and moments
// ---------------------------------------------------------------------------
/// The sum of two rows.
pub open spec fn plus(a: Row3, b: Row3) -> Row3 {
    Row3 { x: a.x + b.x, y: a.y + b.y, z: a.z + b.z }
}

/// The velocity through the air of a point `r` of a body that turns.
pub open spec fn local_air(air: Row3, rates: Row3, r: Row3) -> Row3 {
    plus(air, cross(rates, r))
}

/// The force of rotor `j` where the local airspeed is `a`.
pub open spec fn push<S: Real>(p: QuadParams<S>, om: real, a: Row3, j: int) -> Row3 {
    Row3 {
        x: -(p.k_d.val() * a.x * om),
        y: -(p.k_d.val() * a.y * om),
        z: p.rotor_gain[j].val() * p.k_eta.val() * (om * om) + p.k_h.val() * (a.x * a.x + a.y
            * a.y) - p.k_z.val() * a.z * om,
    }
}

/// The moment of rotor `j` about the centre: its force on its arm, the reaction to its
/// turning, and flapping against the airspeed.
pub open spec fn twist<S: Real>(p: QuadParams<S>, om: real, a: Row3, j: int) -> Row3 {
    let lever = cross(p.rotor_pos[j].row(), push(p, om, a, j));
    let flap = p.k_flap.val() * om;
    Row3 {
        x: lever.x - a.y * flap,
        y: lever.y + a.x * flap,
        z: lever.z + p.rotor_dir[j].val() * p.k_m.val() * (om * om),
    }
}

proof fn lemma_one_rotor<S: Real>(p: QuadParams<S>, rates: Vec3<S>, om: S, air: Vec3<S>, j: int)
    requires
        crate::scalar::exact::<S>(),
    ensures
        ({
            let a = crate::multirotor::spec_rotor_air(p, rates, air, j);
            let f = crate::multirotor::spec_rotor_force(p, om, a, j);
            let m = p.rotor_pos[j].spec_cross(f);
            let rest = crate::multirotor::spec_rotor_yaw(p, om, j)
                + crate::multirotor::spec_rotor_flap(p, om, a);
            let l = local_air(air.row(), rates.row(), p.rotor_pos[j].row());
            &&& a.row() == l
            &&& f.row() == push(p, om.val(), l, j)
            &&& plus(m.row(), rest.row()) == twist(p, om.val(), l, j)
        }),
{
    let a = crate::multirotor::spec_rotor_air(p, rates, air, j);
    let l = a.row();
    let o = om.val();
    lemma_minus(p.k_d.val() * l.x, o);
    lemma_minus(p.k_d.val() * l.y, o);
    lemma_minus(p.k_z.val() * l.z, o);
    let k = p.k_flap.val();
    crate::algebra::lemma_neg(k, o);
    lemma_minus(l.y, k * o);
    lemma_minus(l.x, k * o);
    crate::algebra::lemma_neg(l.x, -(k * o));
    lemma_times_zero((-(k * o)), S::spec_zero().val());
}

proof fn lemma_minus(x: real, o: real)
    ensures
        x * (-o) == -(x * o),
{
    assert(x * (-o) == -(x * o)) by (nonlinear_arith);
}

/// Forces and moments of the rotors add up, each rotor in the airspeed at its own place; and
/// the airframe is dragged against the airspeed, in the square of it.
pub proof fn law_wrench_adds_up<S: Real>(
    p: QuadParams<S>,
    rates: Vec3<S>,
    om: Seq<S>,
    air: Vec3<S>,
)
    requires
        crate::scalar::exact::<S>(),
    ensures
        ({
            let (f, m) = spec_body_wrench(p, rates, om, air);
            let a = |j: int| local_air(air.row(), rates.row(), p.rotor_pos[j].row());
            let n = air.spec_norm().val();
            let c = p.drag_diag.row();
            let rotors = plus(
                plus(push(p, om[0].val(), a(0), 0), push(p, om[1].val(), a(1), 1)),
                plus(push(p, om[2].val(), a(2), 2), push(p, om[3].val(), a(3), 3)),
            );
            &&& n >= 0real && n * n == dot(air.row(), air.row())
            &&& f.x.val() == rotors.x - air.x.val() * c.x * n
            &&& f.y.val() == rotors.y - air.y.val() * c.y * n
            &&& f.z.val() == rotors.z - air.z.val() * c.z * n
            &&& m.row() == plus(
                plus(twist(p, om[0].val(), a(0), 0), twist(p, om[1].val(), a(1), 1)),
                plus(twist(p, om[2].val(), a(2), 2), twist(p, om[3].val(), a(3), 3)),
            )
        }),
{
    reveal_with_fuel(crate::multirotor::spec_rotor_sums, 5);
    lemma_one_rotor(p, rates, om[0], air, 0);
    lemma_one_rotor(p, rates, om[1], air, 1);
    lemma_one_rotor(p, rates, om[2], air, 2);
    lemma_one_rotor(p, rates, om[3], air, 3);
    crate::race::lemma_norm(air);
    let n = air.spec_norm().val();
    lemma_minus(air.x.val() * p.drag_diag.x.val(), n);
    lemma_minus(air.y.val() * p.drag_diag.y.val(), n);
    lemma_minus(air.z.val() * p.drag_diag.z.val(), n);
}

/// What the inverse of a matrix does, the matrix undoes.
pub proof fn law_inverse_undoes<S: Real>(m: Mat3<S>, v: Vec3<S>)
    requires
        crate::scalar::exact::<S>(),
        m.spec_det().val() != 0real,
    ensures
        m.spec_matvec(m.spec_inverse().spec_matvec(v)).same(v),
{
    let inv = m.spec_inverse();
    crate::linalg::law_mat3_inverse(m);
    crate::transforms::law_product_composes(m, inv, v);
    let e = m.spec_mul(inv);
    crate::transforms::lemma_matvec_columns(e, v);
    assert(e.at(0, 0) == m.mul_at(inv, 0, 0) && e.at(0, 1) == m.mul_at(inv, 0, 1) && e.at(0, 2)
        == m.mul_at(inv, 0, 2));
    assert(e.at(1, 0) == m.mul_at(inv, 1, 0) && e.at(1, 1) == m.mul_at(inv, 1, 1) && e.at(1, 2)
        == m.mul_at(inv, 1, 2));
    assert(e.at(2, 0) == m.mul_at(inv, 2, 0) && e.at(2, 1) == m.mul_at(inv, 2, 1) && e.at(2, 2)
        == m.mul_at(inv, 2, 2));
    crate::linalg::lemma_unit_times(v.x.val());
    crate::linalg::lemma_unit_times(v.y.val());
    crate::linalg::lemma_unit_times(v.z.val());
}

proof fn lemma_rates<S: Real>(p: QuadParams<S>, s: State<S>, cmd: Seq<S>)
    ensures
        ({
            let d = rate_of(p, s, cmd);
            let air = s.q.spec_to_rotmat().spec_tmatvec(s.v - s.wind);
            let m = spec_body_wrench(p, s.w, s.rotor_speeds@, air).1;
            d.w == p.inv_inertia.spec_matvec(m - s.w.spec_cross(p.inertia.spec_matvec(s.w)))
        }),
{
    reveal(spec_s_dot);
    crate::state::law_unpack_pack(s);
}

/// Euler: the inertia times the angular acceleration, with the gyroscopic moment
/// `w x (I w)`, is the moment of the rotors in the airspeed that the vehicle has.
pub proof fn law_moment_turns<S: Real>(
    inp: QuadParamsInput<S>,
    gain: [S; NUM_ROTORS],
    s: State<S>,
    cmd: Seq<S>,
)
    requires
        crate::scalar::exact::<S>(),
        inp.spec_inertia().spec_det().val() != 0real,
    ensures
        ({
            let p = vehicle(inp, gain);
            let turn = inp.spec_inertia().spec_matvec(rate_of(p, s, cmd).w);
            let spin = inp.spec_inertia().spec_matvec(s.w);
            let air = s.q.spec_to_rotmat().spec_tmatvec(s.v - s.wind);
            plus(turn.row(), cross(s.w.row(), spin.row())) == spec_body_wrench(
                p,
                s.w,
                s.rotor_speeds@,
                air,
            ).1.row()
        }),
{
    let p = vehicle(inp, gain);
    lemma_rates(p, s, cmd);
    let air = s.q.spec_to_rotmat().spec_tmatvec(s.v - s.wind);
    let m = spec_body_wrench(p, s.w, s.rotor_speeds@, air).1;
    law_inverse_undoes(
        inp.spec_inertia(),
        m - s.w.spec_cross(p.inertia.spec_matvec(s.w)),
    );
}

// ---------------------------------------------------------------------------
// Motors
// ---------------------------------------------------------------------------
proof fn lemma_lag_rate<S: Real>(p: QuadParams<S>, s: Seq<S>, cmd: Seq<S>, j: int)
    requires
        crate::scalar::exact::<S>(),
        0 <= j < NUM_ROTORS,
    ensures
        spec_s_dot(p, s, cmd)[16 + j].val() == (cmd[j].val() - s[16 + j].val()) * (S::spec_one()
            / p.tau_m).val(),
{
    reveal(spec_s_dot);
    assert(j == 0 || j == 1 || j == 2 || j == 3);
}

proof fn lemma_halves<S: Real>(h: S)
    requires
        crate::scalar::exact::<S>(),
    ensures
        2real * (h * S::spec_splat(1, 2)).val() == h.val(),
        6real * (h * S::spec_splat(1, 6)).val() == h.val(),
        3real * (h * S::spec_splat(1, 3)).val() == h.val(),
{
    crate::scalar::lemma_splat_fraction::<S>(1, 2);
    crate::scalar::lemma_splat_fraction::<S>(1, 6);
    crate::scalar::lemma_splat_fraction::<S>(1, 3);
    lemma_fraction(h.val(), S::spec_splat(1, 2).val(), 2real);
    lemma_fraction(h.val(), S::spec_splat(1, 6).val(), 6real);
    lemma_fraction(h.val(), S::spec_splat(1, 3).val(), 3real);
}

proof fn lemma_fraction(h: real, f: real, d: real)
    requires
        d != 0real,
        f == 1real / d,
    ensures
        d * (h * f) == h,
{
    assert(d * (h * f) == h) by (nonlinear_arith)
        requires
            d != 0real,
            f == 1real / d,
    ;
}

proof fn lemma_regroup(a: real, e: real, i: real)
    ensures
        a * ((-e) * i) == -(e * (a * i)),
{
    assert(a * ((-e) * i) == -(e * (a * i))) by (nonlinear_arith);
}

proof fn lemma_half_of(half: real, h: real, x: real, i: real)
    requires
        2real * half == h,
    ensures
        2real * (x * (half * i)) == x * (h * i),
{
    assert(2real * (x * (half * i)) == x * ((2real * half) * i)) by (nonlinear_arith);
}

proof fn lemma_part(f: real, h: real, d: real, x: real)
    requires
        d * f == h,
    ensures
        d * (f * x) == h * x,
{
    assert(d * (f * x) == (d * f) * x) by (nonlinear_arith);
}

/// A motor approaches its command as the classical fourth-order step of a first-order lag
/// does: what is missing shrinks by the factor `1 - z + z^2/2 - z^3/6 + z^4/24` for `z` the
/// step over the time constant, whatever else the vehicle does.
pub proof fn law_motor_lag<S: Real>(p: QuadParams<S>, s: Seq<S>, cmd: Seq<S>, h: S, j: int)
    requires
        crate::scalar::exact::<S>(),
        s.len() == crate::state::STATE_LEN,
        p.tau_m.val() != 0real,
        0 <= j < NUM_ROTORS,
    ensures
        ({
            let z = h.val() / p.tau_m.val();
            let e = s[16 + j].val() - cmd[j].val();
            let e1 = e * z;
            let e2 = e1 * z;
            let e3 = e2 * z;
            let e4 = e3 * z;
            spec_rk4(p, s, cmd, h)[16 + j].val() - cmd[j].val() == e - e1 + e2 / 2real - e3 / 6real
                + e4 / 24real
        }),
{
    reveal(spec_rk4);
    let n = 16 + j;
    let half = h * S::spec_splat(1, 2);
    lemma_halves(h);
    let k1 = spec_s_dot(p, s, cmd);
    let s2 = spec_axpy(half, k1, s);
    let k2 = spec_s_dot(p, s2, cmd);
    let s3 = spec_axpy(half, k2, s);
    let k3 = spec_s_dot(p, s3, cmd);
    let s4 = spec_axpy(h, k3, s);
    let k4 = spec_s_dot(p, s4, cmd);
    lemma_lag_rate(p, s, cmd, j);
    lemma_lag_rate(p, s2, cmd, j);
    lemma_lag_rate(p, s3, cmd, j);
    lemma_lag_rate(p, s4, cmd, j);
    let i = (S::spec_one() / p.tau_m).val();
    let t = h.val();
    let z = t / p.tau_m.val();
    crate::race::lemma_over(t, p.tau_m.val(), i);
    let c = cmd[j].val();
    let e = s[n].val() - c;
    let (e1, e2, e3, e4) = (e * z, (e * z) * z, ((e * z) * z) * z, (((e * z) * z) * z) * z);
    let d = half.val();
    // the first slope, and where half a step of it leads
    assert(k1[n].val() == (-e) * i);
    lemma_regroup(t, e, i);
    lemma_regroup(d, e, i);
    lemma_half_of(d, t, e, i);
    assert(s2[n].val() - c == e - e1 / 2real);
    // the second
    let f2 = s2[n].val() - c;
    assert(k2[n].val() == (-f2) * i);
    lemma_regroup(t, f2, i);
    lemma_regroup(d, f2, i);
    lemma_half_of(d, t, f2, i);
    crate::algebra::lemma_dist(z, e, e1 / 2real);
    lemma_quotient(e1, z, 2real);
    assert(f2 * z == e1 - e2 / 2real);
    assert(s3[n].val() - c == e - e1 / 2real + e2 / 4real);
    // the third
    let f3 = s3[n].val() - c;
    assert(k3[n].val() == (-f3) * i);
    lemma_regroup(t, f3, i);
    crate::algebra::lemma_dist(z, e - e1 / 2real, e2 / 4real);
    lemma_quotient(e2, z, 4real);
    assert(f3 * z == e1 - e2 / 2real + e3 / 4real);
    assert(s4[n].val() - c == e - e1 + e2 / 2real - e3 / 4real);
    // the last
    let f4 = s4[n].val() - c;
    assert(k4[n].val() == (-f4) * i);
    lemma_regroup(t, f4, i);
    crate::algebra::lemma_dist(z, e, e1);
    crate::algebra::lemma_dist(z, e - e1, e2 / 2real);
    crate::algebra::lemma_dist(z, e - e1 + e2 / 2real, e3 / 4real);
    lemma_quotient(e2, z, 2real);
    lemma_quotient(e3, z, 4real);
    assert(f4 * z == e1 - e2 + e3 / 2real - e4 / 4real);
    lemma_part((h * S::spec_splat(1, 6)).val(), t, 6real, k1[n].val() + k4[n].val());
    lemma_part((h * S::spec_splat(1, 3)).val(), t, 3real, k2[n].val() + k3[n].val());
    crate::algebra::lemma_dist(t, k1[n].val(), k4[n].val());
    crate::algebra::lemma_dist(t, k2[n].val(), k3[n].val());
}

proof fn lemma_quotient(x: real, z: real, d: real)
    requires
        d != 0real,
    ensures
        (x / d) * z == (x * z) / d,
{
    assert((x / d) * z == (x * z) / d) by (nonlinear_arith)
        requires
            d != 0real,
    ;
}

// ---------------------------------------------------------------------------
// Free flight
// ---------------------------------------------------------------------------
/// The vehicle is not dragged by its airframe, and its rotors have no translational lift.
pub open spec fn slips_through<S: Real>(inp: QuadParamsInput<S>) -> bool {
    &&& inp.k_h.val() == 0real
    &&& inp.c_dx.val() == 0real
    &&& inp.c_dy.val() == 0real
    &&& inp.c_dz.val() == 0real
}

/// Four numbers of value zero.
pub open spec fn all_zero<S: Real>(om: Seq<S>) -> bool {
    om[0].val() == 0real && om[1].val() == 0real && om[2].val() == 0real && om[3].val() == 0real
}

proof fn lemma_no_push<S: Real>(p: QuadParams<S>, om: real, a: Row3, j: int)
    requires
        om == 0real,
        p.k_h.val() == 0real,
    ensures
        push(p, om, a, j) == (Row3 { x: 0real, y: 0real, z: 0real }),
{
    lemma_times_zero(p.k_d.val() * a.x, om);
    lemma_times_zero(p.k_d.val() * a.y, om);
    lemma_times_zero(p.k_z.val() * a.z, om);
    lemma_times_zero(om, om);
    lemma_times_zero(p.rotor_gain[j].val() * p.k_eta.val(), om * om);
    lemma_times_zero(a.x * a.x + a.y * a.y, p.k_h.val());
}

/// How a vehicle that falls freely changes.
proof fn lemma_free_rate<S: Real>(inp: QuadParamsInput<S>, gain: [S; NUM_ROTORS], s: Seq<S>, cmd: Seq<S>)
    requires
        crate::scalar::exact::<S>(),
        slips_through(inp),
        inp.mass.val() != 0real,
        s.len() == crate::state::STATE_LEN,
        all_zero(s.subrange(16, 20)),
        all_zero(cmd),
    ensures
        ({
            let d = spec_s_dot(vehicle(inp, gain), s, cmd);
            &&& d.len() == crate::state::STATE_LEN
            &&& d[0] == s[3] && d[1] == s[4] && d[2] == s[5]
            &&& d[3].val() == 0real
            &&& d[4].val() == 0real
            &&& d[5].val() == -crate::params::spec_gravity::<S>().val()
            &&& all_zero(d.subrange(16, 20))
        }),
{
    let p = vehicle(inp, gain);
    let st = State::spec_unpack(s);
    crate::state::law_pack_unpack(s);
    let om = st.rotor_speeds@;
    assert(s.subrange(16, 20)[0] == s[16] && s.subrange(16, 20)[1] == s[17]);
    assert(s.subrange(16, 20)[2] == s[18] && s.subrange(16, 20)[3] == s[19]);
    assert(om[0].val() == 0real && om[1].val() == 0real && om[2].val() == 0real && om[3].val()
        == 0real);
    let r = st.q.spec_to_rotmat();
    let air = r.spec_tmatvec(st.v - st.wind);
    law_wrench_adds_up(p, st.w, om, air);
    let rates = st.w.row();
    lemma_no_push(p, om[0].val(), local_air(air.row(), rates, p.rotor_pos[0].row()), 0);
    lemma_no_push(p, om[1].val(), local_air(air.row(), rates, p.rotor_pos[1].row()), 1);
    lemma_no_push(p, om[2].val(), local_air(air.row(), rates, p.rotor_pos[2].row()), 2);
    lemma_no_push(p, om[3].val(), local_air(air.row(), rates, p.rotor_pos[3].row()), 3);
    let n = air.spec_norm().val();
    lemma_times_zero(air.x.val(), p.drag_diag.x.val());
    lemma_times_zero(air.y.val(), p.drag_diag.y.val());
    lemma_times_zero(air.z.val(), p.drag_diag.z.val());
    lemma_times_zero(n, 0real);
    let f = spec_body_wrench(p, st.w, om, air).0;
    assert(crate::physics::not_turning(f));
    crate::physics::lemma_still(r, f);
    let g = crate::params::spec_gravity::<S>().val();
    let i = (S::spec_one() / inp.mass).val();
    let m = inp.mass.val();
    crate::linalg::lemma_reciprocal(m, i);
    crate::algebra::lemma_neg(m, g);
    lemma_times_zero(i, 0real);
    assert((-(m * g)) * i == -(g * (m * i))) by (nonlinear_arith);
    lemma_times_one(g, m * i);
    let t = (S::spec_one() / p.tau_m).val();
    lemma_times_zero(t, 0real);
    lemma_free_entries(p, s, cmd, r, f);
    let d = spec_s_dot(p, s, cmd);
    assert(d.subrange(16, 20)[0] == d[16] && d.subrange(16, 20)[1] == d[17]);
    assert(d.subrange(16, 20)[2] == d[18] && d.subrange(16, 20)[3] == d[19]);
    lemma_lag_rate(p, s, cmd, 0);
    lemma_lag_rate(p, s, cmd, 1);
    lemma_lag_rate(p, s, cmd, 2);
    lemma_lag_rate(p, s, cmd, 3);
}

proof fn lemma_free_entries<S: Real>(
    p: QuadParams<S>,
    s: Seq<S>,
    cmd: Seq<S>,
    r: Mat3<S>,
    f: Vec3<S>,
)
    requires
        crate::scalar::exact::<S>(),
        ({
            let st = State::spec_unpack(s);
            &&& r == st.q.spec_to_rotmat()
            &&& f == spec_body_wrench(
                p,
                st.w,
                st.rotor_speeds@,
                r.spec_tmatvec(st.v - st.wind),
            ).0
        }),
    ensures
        ({
            let d = spec_s_dot(p, s, cmd);
            let v = r.spec_matvec(f);
            let i = (S::spec_one() / p.mass).val();
            &&& d.len() == crate::state::STATE_LEN
            &&& d[0] == s[3] && d[1] == s[4] && d[2] == s[5]
            &&& d[3].val() == (p.weight.x.val() + v.x.val()) * i
            &&& d[4].val() == (p.weight.y.val() + v.y.val()) * i
            &&& d[5].val() == (p.weight.z.val() + v.z.val()) * i
        }),
{
    reveal(spec_s_dot);
}

proof fn lemma_fall(
    h: real,
    half: real,
    sixth: real,
    third: real,
    x: real,
    v: real,
    a: real,
)
    requires
        2real * half == h,
        6real * sixth == h,
        3real * third == h,
    ensures
        v + sixth * (a + a) + third * (a + a) == v + h * a,
        x + sixth * (v + (h * a + v)) + third * ((half * a + v) + (half * a + v)) == x + h * v + h
            * (h * a) / 2real,
{
    lemma_part(sixth, h, 6real, a + a);
    lemma_part(third, h, 3real, a + a);
    crate::algebra::lemma_dist(h, a, a);
    lemma_part(sixth, h, 6real, v + (h * a + v));
    crate::algebra::lemma_dist(h, h * a, v);
    crate::algebra::lemma_dist(h, v, h * a + v);
    lemma_part(half, h, 2real, a);
    let m = half * a + v;
    lemma_part(third, h, 3real, m + m);
    assert(m + m == h * a + 2real * v);
    crate::algebra::lemma_dist(h, h * a, 2real * v);
    crate::algebra::lemma_cycle3(h, 2real, v);
}

proof fn lemma_drifts<S: Real>(a: S, d: Seq<S>, s: Seq<S>)
    requires
        crate::scalar::exact::<S>(),
        d.len() == crate::state::STATE_LEN,
        s.len() == crate::state::STATE_LEN,
        all_zero(d.subrange(16, 20)),
        all_zero(s.subrange(16, 20)),
    ensures
        ({
            let r = spec_axpy(a, d, s);
            &&& r.len() == crate::state::STATE_LEN
            &&& all_zero(r.subrange(16, 20))
            &&& r[3].val() == a.val() * d[3].val() + s[3].val()
            &&& r[4].val() == a.val() * d[4].val() + s[4].val()
            &&& r[5].val() == a.val() * d[5].val() + s[5].val()
        }),
{
    lemma_times_zero(a.val(), 0real);
    let r = spec_axpy(a, d, s);
    assert(d.subrange(16, 20)[0] == d[16] && d.subrange(16, 20)[1] == d[17]);
    assert(d.subrange(16, 20)[2] == d[18] && d.subrange(16, 20)[3] == d[19]);
    assert(s.subrange(16, 20)[0] == s[16] && s.subrange(16, 20)[1] == s[17]);
    assert(s.subrange(16, 20)[2] == s[18] && s.subrange(16, 20)[3] == s[19]);
    assert(r.subrange(16, 20)[0] == r[16] && r.subrange(16, 20)[1] == r[17]);
    assert(r.subrange(16, 20)[2] == r[18] && r.subrange(16, 20)[3] == r[19]);
}

/// Where free fall for the time `t` leads.
pub open spec fn fallen<S: Real>(s: Seq<S>, e: Seq<S>, t: real) -> bool {
    let a = -crate::params::spec_gravity::<S>().val();
    &&& e.len() == crate::state::STATE_LEN
    &&& all_zero(e.subrange(16, 20))
    &&& e[3].val() == s[3].val()
    &&& e[4].val() == s[4].val()
    &&& e[5].val() == s[5].val() + t * a
    &&& e[0].val() == s[0].val() + t * s[3].val()
    &&& e[1].val() == s[1].val() + t * s[4].val()
    &&& e[2].val() == s[2].val() + t * s[5].val() + t * (t * a) / 2real
}

proof fn lemma_free_step<S: Real>(
    inp: QuadParamsInput<S>,
    gain: [S; NUM_ROTORS],
    s: Seq<S>,
    cmd: Seq<S>,
    h: S,
)
    requires
        crate::scalar::exact::<S>(),
        slips_through(inp),
        inp.mass.val() != 0real,
        s.len() == crate::state::STATE_LEN,
        all_zero(s.subrange(16, 20)),
        all_zero(cmd),
    ensures
        fallen(s, spec_rk4(vehicle(inp, gain), s, cmd, h), h.val()),
{
    reveal(spec_rk4);
    let p = vehicle(inp, gain);
    let half = h * S::spec_splat(1, 2);
    lemma_halves(h);
    let k1 = spec_s_dot(p, s, cmd);
    lemma_free_rate(inp, gain, s, cmd);
    let s2 = spec_axpy(half, k1, s);
    lemma_drifts(half, k1, s);
    let k2 = spec_s_dot(p, s2, cmd);
    lemma_free_rate(inp, gain, s2, cmd);
    let s3 = spec_axpy(half, k2, s);
    lemma_drifts(half, k2, s);
    let k3 = spec_s_dot(p, s3, cmd);
    lemma_free_rate(inp, gain, s3, cmd);
    let s4 = spec_axpy(h, k3, s);
    lemma_drifts(h, k3, s);
    let k4 = spec_s_dot(p, s4, cmd);
    lemma_free_rate(inp, gain, s4, cmd);
    let (d, six, thr) = (
        half.val(),
        (h * S::spec_splat(1, 6)).val(),
        (h * S::spec_splat(1, 3)).val(),
    );
    let t = h.val();
    let a = -crate::params::spec_gravity::<S>().val();
    lemma_fall(t, d, six, thr, s[0].val(), s[3].val(), 0real);
    lemma_fall(t, d, six, thr, s[1].val(), s[4].val(), 0real);
    lemma_fall(t, d, six, thr, s[2].val(), s[5].val(), a);
    lemma_times_zero(t, 0real);
    lemma_times_zero(six, 0real);
    lemma_times_zero(thr, 0real);
    let e = spec_rk4(p, s, cmd, h);
    assert(e.subrange(16, 20)[0] == e[16] && e.subrange(16, 20)[1] == e[17]);
    assert(e.subrange(16, 20)[2] == e[18] && e.subrange(16, 20)[3] == e[19]);
    lemma_idle(k1, k2, k3, k4);
    assert(s.subrange(16, 20)[0] == s[16] && s.subrange(16, 20)[1] == s[17]);
    assert(s.subrange(16, 20)[2] == s[18] && s.subrange(16, 20)[3] == s[19]);
}

proof fn lemma_idle<S: Real>(k1: Seq<S>, k2: Seq<S>, k3: Seq<S>, k4: Seq<S>)
    requires
        k1.len() == 20 && k2.len() == 20 && k3.len() == 20 && k4.len() == 20,
        all_zero(k1.subrange(16, 20)),
        all_zero(k2.subrange(16, 20)),
        all_zero(k3.subrange(16, 20)),
        all_zero(k4.subrange(16, 20)),
    ensures
        forall|i: int|
            16 <= i < 20 ==> (#[trigger] k1[i]).val() == 0real && k2[i].val() == 0real
                && k3[i].val() == 0real && k4[i].val() == 0real,
{
    assert forall|i: int| 16 <= i < 20 implies (#[trigger] k1[i]).val() == 0real && k2[i].val()
        == 0real && k3[i].val() == 0real && k4[i].val() == 0real by {
        assert(k1.subrange(16, 20)[i - 16] == k1[i]);
        assert(k2.subrange(16, 20)[i - 16] == k2[i]);
        assert(k3.subrange(16, 20)[i - 16] == k3[i]);
        assert(k4.subrange(16, 20)[i - 16] == k4[i]);
        assert(i == 16 || i == 17 || i == 18 || i == 19);
    }
}

proof fn lemma_fall_on(x: real, v: real, a: real, t: real, h: real)
    ensures
        (v + t * a) + h * a == v + (t + h) * a,
        (x + t * v + t * (t * a) / 2real) + h * (v + t * a) + h * (h * a) / 2real == x + (t + h) * v
            + (t + h) * ((t + h) * a) / 2real,
{
    crate::algebra::lemma_dist(a, t, h);
    crate::algebra::lemma_dist(v, t, h);
    crate::algebra::lemma_dist(h, v, t * a);
    let b = (t + h) * a;
    crate::algebra::lemma_dist(b, t, h);
    crate::algebra::lemma_dist(t, t * a, h * a);
    crate::algebra::lemma_dist(h, t * a, h * a);
    crate::algebra::lemma_cycle3(t, h, a);
}

proof fn lemma_free_steps<S: Real>(
    inp: QuadParamsInput<S>,
    gain: [S; NUM_ROTORS],
    s: Seq<S>,
    cmd: Seq<S>,
    h: S,
    n: nat,
)
    requires
        crate::scalar::exact::<S>(),
        slips_through(inp),
        inp.mass.val() != 0real,
        s.len() == crate::state::STATE_LEN,
        all_zero(s.subrange(16, 20)),
        all_zero(cmd),
    ensures
        fallen(s, spec_rk4_steps(vehicle(inp, gain), s, cmd, h, n), (n as real) * h.val()),
    decreases n,
{
    let a = -crate::params::spec_gravity::<S>().val();
    let t = h.val();
    if n == 0 {
        lemma_times_zero(t, 0real);
        lemma_times_zero(a, 0real);
        lemma_times_zero(s[3].val(), 0real);
        lemma_times_zero(s[4].val(), 0real);
        lemma_times_zero(s[5].val(), 0real);
        lemma_times_zero(0real, 0real);
    } else {
        let k = (n - 1) as nat;
        lemma_free_steps(inp, gain, s, cmd, h, k);
        let p = vehicle(inp, gain);
        let m = spec_rk4_steps(p, s, cmd, h, k);
        lemma_free_step(inp, gain, m, cmd, h);
        let u = (k as real) * t;
        assert((n as real) * t == u + t) by (nonlinear_arith)
            requires
                n as real == k as real + 1real,
                u == (k as real) * t,
        ;
        lemma_fall_on(s[0].val(), s[3].val(), 0real, u, t);
        lemma_fall_on(s[1].val(), s[4].val(), 0real, u, t);
        lemma_fall_on(s[2].val(), s[5].val(), a, u, t);
        lemma_times_zero(u, 0real);
        lemma_times_zero(t, 0real);
        lemma_times_zero(u + t, 0real);
    }
}

/// With its rotors off a vehicle without drag flies a parabola, whatever its attitude and its
/// body rates: for a step of duration `dt`, in any number of substeps, the velocity falls by
/// `g dt`, and the position moves by `v dt - g dt^2 / 2`.
pub proof fn law_free_flight_is_a_parabola<S: Real>(
    inp: QuadParamsInput<S>,
    gain: [S; NUM_ROTORS],
    s: State<S>,
    cmd: Seq<S>,
    dt: S,
    n_sub: nat,
)
    requires
        crate::scalar::exact::<S>(),
        slips_through(inp),
        inp.mass.val() != 0real,
        all_zero(s.rotor_speeds@),
        all_zero(cmd),
    ensures
        ({
            let e = spec_integrate(vehicle(inp, gain), s, cmd, dt, n_sub);
            let t = dt.val();
            let a = -crate::params::spec_gravity::<S>().val();
            &&& e.v.x.val() == s.v.x.val()
            &&& e.v.y.val() == s.v.y.val()
            &&& e.v.z.val() == s.v.z.val() + t * a
            &&& e.x.x.val() == s.x.x.val() + t * s.v.x.val()
            &&& e.x.y.val() == s.x.y.val() + t * s.v.y.val()
            &&& e.x.z.val() == s.x.z.val() + t * s.v.z.val() + t * (t * a) / 2real
        }),
{
    let n = spec_substeps(n_sub);
    let h = dt * S::spec_splat(1, n);
    let q = s.spec_pack();
    assert(q.subrange(16, 20) =~= s.rotor_speeds@);
    lemma_free_steps(inp, gain, q, cmd, h, n);
    crate::scalar::lemma_splat_fraction::<S>(1, n);
    lemma_fraction(dt.val(), S::spec_splat(1, n).val(), n as real);
}

/// A step of any number of substeps approaches the commanded rotor speeds in that many equal
/// parts of the time, and ends within the motor range.
pub proof fn law_step_cuts_speeds<S: Real>(
    p: QuadParams<S>,
    s: State<S>,
    cmd: Seq<S>,
    dt: S,
    n_sub: nat,
    j: int,
)
    requires
        crate::scalar::exact::<S>(),
        0 <= j < NUM_ROTORS,
        p.rotor_speed_min.val() <= p.rotor_speed_max.val(),
    ensures
        ({
            let n = spec_substeps(n_sub);
            let raw = spec_rk4_steps(
                p,
                s.spec_pack(),
                cmd,
                dt * S::spec_splat(1, n),
                n,
            )[16 + j].val();
            let om = spec_integrate(p, s, cmd, dt, n_sub).rotor_speeds[j].val();
            let (lo, hi) = (p.rotor_speed_min.val(), p.rotor_speed_max.val());
            &&& lo <= om <= hi
            &&& lo <= raw <= hi ==> om == raw
            &&& raw < lo ==> om == lo
            &&& raw > hi ==> om == hi
        }),
{
    assert(j == 0 || j == 1 || j == 2 || j == 3);
}

} // verus!
