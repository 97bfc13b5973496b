//! Quadrotor forward dynamics and a fixed-step integrator, generic over the scalar and
//! over the control abstraction.
use core::marker::PhantomData;

use vstd::prelude::*;

use crate::control::{ControlLaw, Ctbr, CtbrCmd, RotorForce};
use crate::linalg::Vec3;
use crate::params::{QuadParams, QuadParamsInput, NUM_ROTORS};
use crate::scalar::{Real, Scalar};
use crate::so3::quat_dot;
use crate::state::{State, STATE_LEN};

verus! {

// ---------------------------------------------------------------------------
// Forces and moments
// ---------------------------------------------------------------------------
/// Airspeed at rotor `j`: that of the body plus the turn about the centre of mass.
pub open spec fn spec_rotor_air<S: Scalar>(
    p: QuadParams<S>,
    rates: Vec3<S>,
    air: Vec3<S>,
    j: int,
) -> Vec3<S> {
    air + rates.spec_cross(p.rotor_pos[j])
}

/// Force of rotor `j`: thrust with translational lift along body z, and rotor drag.
pub open spec fn spec_rotor_force<S: Scalar>(p: QuadParams<S>, om: S, a: Vec3<S>, j: int) -> Vec3<
    S,
> {
    let thrust = p.rotor_gain[j] * p.k_eta * (om * om) + p.k_h * (a.x * a.x + a.y * a.y);
    let drag = Vec3 { x: p.k_d * a.x, y: p.k_d * a.y, z: p.k_z * a.z }.spec_scale(-om);
    Vec3 { x: S::spec_zero(), y: S::spec_zero(), z: thrust } + drag
}

/// Yaw moment of rotor `j`.
pub open spec fn spec_rotor_yaw<S: Scalar>(p: QuadParams<S>, om: S, j: int) -> Vec3<S> {
    Vec3 { x: S::spec_zero(), y: S::spec_zero(), z: p.rotor_dir[j] * p.k_m * (om * om) }
}

/// Flapping moment of a rotor.
pub open spec fn spec_rotor_flap<S: Scalar>(p: QuadParams<S>, om: S, a: Vec3<S>) -> Vec3<S> {
    Vec3 { x: a.y, y: -a.x, z: S::spec_zero() }.spec_scale((-p.k_flap) * om)
}

/// Over the first `n` rotors: the sum of the forces, of the moments `r x F`, and of the
/// yaw and flapping moments.
pub open spec fn spec_rotor_sums<S: Scalar>(
    p: QuadParams<S>,
    rates: Vec3<S>,
    speeds: Seq<S>,
    air: Vec3<S>,
    n: nat,
) -> (Vec3<S>, Vec3<S>, Vec3<S>)
    decreases n,
{
    if n == 0 {
        (Vec3::spec_zero(), Vec3::spec_zero(), Vec3::spec_zero())
    } else {
        let j = n - 1;
        let (f, m, rest) = spec_rotor_sums(p, rates, speeds, air, j as nat);
        let om = speeds[j];
        let a = spec_rotor_air(p, rates, air, j);
        let tph = spec_rotor_force(p, om, a, j);
        (
            f + tph,
            m + p.rotor_pos[j].spec_cross(tph),
            rest + spec_rotor_yaw(p, om, j) + spec_rotor_flap(p, om, a),
        )
    }
}

/// Total body-frame force and moment: the rotors and the parasitic drag
/// `-|v| diag(c_D) v` at the centre of mass.
pub open spec fn spec_body_wrench<S: Scalar>(
    p: QuadParams<S>,
    rates: Vec3<S>,
    speeds: Seq<S>,
    air: Vec3<S>,
) -> (Vec3<S>, Vec3<S>) {
    let (f, m, rest) = spec_rotor_sums(p, rates, speeds, air, NUM_ROTORS as nat);
    (f + air.spec_hadamard(p.drag_diag).spec_scale(-air.spec_norm()), m + rest)
}

/// Total body-frame force and moment.
pub fn body_wrench<S: Scalar>(
    p: &QuadParams<S>,
    body_rates: Vec3<S>,
    rotor_speeds: &[S; NUM_ROTORS],
    body_airspeed: Vec3<S>,
) -> (r: (Vec3<S>, Vec3<S>))
    ensures
        r == spec_body_wrench(*p, body_rates, rotor_speeds@, body_airspeed),
{
    let mut ftot = Vec3::zero();
    let mut m_force = Vec3::zero();
    let mut m_rest = Vec3::zero();
    for j in 0..NUM_ROTORS
        invariant
            (ftot, m_force, m_rest) == spec_rotor_sums(
                *p,
                body_rates,
                rotor_speeds@,
                body_airspeed,
                j as nat,
            ),
    {
        let om = rotor_speeds[j];
        let om2 = om.mul(om);
        let a = body_airspeed.add(body_rates.cross(p.rotor_pos[j]));
        let tz = p.rotor_gain[j].mul(p.k_eta).mul(om2).add(
            p.k_h.mul(a.x.mul(a.x).add(a.y.mul(a.y))),
        );
        let t = Vec3::new(S::zero(), S::zero(), tz);
        let h = Vec3::new(p.k_d.mul(a.x), p.k_d.mul(a.y), p.k_z.mul(a.z)).scale(om.neg());
        let tph = t.add(h);
        ftot = ftot.add(tph);
        m_force = m_force.add(p.rotor_pos[j].cross(tph));
        let myaw = Vec3::new(S::zero(), S::zero(), p.rotor_dir[j].mul(p.k_m).mul(om2));
        let mflap = Vec3::new(a.y, a.x.neg(), S::zero()).scale(p.k_flap.neg().mul(om));
        m_rest = m_rest.add(myaw).add(mflap);
    }
    let speed = body_airspeed.norm();
    let drag = body_airspeed.hadamard(p.drag_diag).scale(speed.neg());
    (ftot.add(drag), m_force.add(m_rest))
}

// ---------------------------------------------------------------------------
// State derivative
// ---------------------------------------------------------------------------
/// Derivative of the packed state for commanded rotor speeds that are held: rigid-body
/// translation and rotation, quaternion kinematics, constant wind, first-order motor lag.
#[verifier::opaque]
pub open spec fn spec_s_dot<S: Scalar>(p: QuadParams<S>, s: Seq<S>, cmd: Seq<S>) -> Seq<S> {
    let st = State::spec_unpack(s);
    let r = st.q.spec_to_rotmat();
    let air = r.spec_tmatvec(st.v - st.wind);
    let (force, moment) = spec_body_wrench(p, st.w, st.rotor_speeds@, air);
    let v_dot = (p.weight + r.spec_matvec(force)).spec_scale(S::spec_one() / p.mass);
    let gyro = st.w.spec_cross(p.inertia.spec_matvec(st.w));
    let w_dot = p.inv_inertia.spec_matvec(moment - gyro);
    let q_dot = crate::so3::spec_quat_dot(st.q, st.w);
    let inv_tau = S::spec_one() / p.tau_m;
    let z = S::spec_zero();
    seq![
        st.v.x, st.v.y, st.v.z,
        v_dot.x, v_dot.y, v_dot.z,
        q_dot.i, q_dot.j, q_dot.k, q_dot.w,
        w_dot.x, w_dot.y, w_dot.z,
        z, z, z,
        (cmd[0] - st.rotor_speeds[0]) * inv_tau,
        (cmd[1] - st.rotor_speeds[1]) * inv_tau,
        (cmd[2] - st.rotor_speeds[2]) * inv_tau,
        (cmd[3] - st.rotor_speeds[3]) * inv_tau,
    ]
}

fn s_dot<S: Scalar>(
    p: &QuadParams<S>,
    s: &[S; STATE_LEN],
    cmd: &[S; NUM_ROTORS],
) -> (r: [S; STATE_LEN])
    ensures
        r@ == spec_s_dot(*p, s@, cmd@),
{
    let st = State::unpack(s);
    let r = st.q.to_rotmat();
    let air = r.tmatvec(st.v.sub(st.wind));
    let (force, moment) = body_wrench(p, st.w, &st.rotor_speeds, air);
    // translation
    let ftot = r.matvec(force);
    let inv_mass = S::one().div(p.mass);
    let v_dot = p.weight.add(ftot).scale(inv_mass);
    // rotation: I^-1 (M - w x (I w))
    let iw = p.inertia.matvec(st.w);
    let gyro = st.w.cross(iw);
    let w_dot = p.inv_inertia.matvec(moment.sub(gyro));
    // kinematics, on the raw quaternion
    let qd = quat_dot(st.q, st.w);
    // motor lag
    let inv_tau = S::one().div(p.tau_m);
    let m = &st.rotor_speeds;
    let z = S::zero();
    let out = [
        st.v.x, st.v.y, st.v.z,
        v_dot.x, v_dot.y, v_dot.z,
        qd.i, qd.j, qd.k, qd.w,
        w_dot.x, w_dot.y, w_dot.z,
        z, z, z,
        cmd[0].sub(m[0]).mul(inv_tau),
        cmd[1].sub(m[1]).mul(inv_tau),
        cmd[2].sub(m[2]).mul(inv_tau),
        cmd[3].sub(m[3]).mul(inv_tau),
    ];
    proof {
        reveal(spec_s_dot);
    }
    assert(out@ =~= spec_s_dot(*p, s@, cmd@));
    out
}

// ---------------------------------------------------------------------------
// Integration
// ---------------------------------------------------------------------------
/// `a * x + y`, component by component.
pub open spec fn spec_axpy<S: Scalar>(a: S, x: Seq<S>, y: Seq<S>) -> Seq<S> {
    Seq::new(STATE_LEN as nat, |i: int| a * x[i] + y[i])
}

fn axpy<S: Scalar>(a: S, x: &[S; STATE_LEN], y: &[S; STATE_LEN]) -> (r: [S; STATE_LEN])
    ensures
        r@ == spec_axpy(a, x@, y@),
{
    let mut r = *y;
    for i in 0..STATE_LEN
        invariant
            forall|k: int| 0 <= k < i ==> #[trigger] r[k] == a * x[k] + y[k],
    {
        r[i] = a.mul(x[i]).add(y[i]);
    }
    assert(r@ =~= spec_axpy(a, x@, y@));
    r
}

/// One classical fourth-order Runge-Kutta step of size `h`, control held.
#[verifier::opaque]
pub open spec fn spec_rk4<S: Scalar>(p: QuadParams<S>, s: Seq<S>, cmd: Seq<S>, h: S) -> Seq<S> {
    let half = h * S::spec_splat(1, 2);
    let k1 = spec_s_dot(p, s, cmd);
    let k2 = spec_s_dot(p, spec_axpy(half, k1, s), cmd);
    let k3 = spec_s_dot(p, spec_axpy(half, k2, s), cmd);
    let k4 = spec_s_dot(p, spec_axpy(h, k3, s), cmd);
    let sixth = h * S::spec_splat(1, 6);
    let third = h * S::spec_splat(1, 3);
    Seq::new(
        STATE_LEN as nat,
        |i: int| s[i] + sixth * (k1[i] + k4[i]) + third * (k2[i] + k3[i]),
    )
}

fn rk4<S: Scalar>(
    p: &QuadParams<S>,
    s: &[S; STATE_LEN],
    cmd: &[S; NUM_ROTORS],
    h: S,
) -> (r: [S; STATE_LEN])
    ensures
        r@ == spec_rk4(*p, s@, cmd@, h),
{
    let half = h.mul(S::splat(1, 2));
    let k1 = s_dot(p, s, cmd);
    let s2 = axpy(half, &k1, s);
    let k2 = s_dot(p, &s2, cmd);
    let s3 = axpy(half, &k2, s);
    let k3 = s_dot(p, &s3, cmd);
    let s4 = axpy(h, &k3, s);
    let k4 = s_dot(p, &s4, cmd);
    let sixth = h.mul(S::splat(1, 6));
    let third = h.mul(S::splat(1, 3));
    let mut r = *s;
    for i in 0..STATE_LEN
        invariant
            forall|k: int|
                0 <= k < i ==> #[trigger] r[k] == s[k] + sixth * (k1[k] + k4[k]) + third * (k2[k]
                    + k3[k]),
    {
        r[i] = s[i].add(sixth.mul(k1[i].add(k4[i]))).add(third.mul(k2[i].add(k3[i])));
    }
    proof {
        reveal(spec_rk4);
    }
    assert(r@ =~= spec_rk4(*p, s@, cmd@, h));
    r
}

/// `n` Runge-Kutta steps.
pub open spec fn spec_rk4_steps<S: Scalar>(
    p: QuadParams<S>,
    s: Seq<S>,
    cmd: Seq<S>,
    h: S,
    n: nat,
) -> Seq<S>
    decreases n,
{
    if n == 0 {
        s
    } else {
        spec_rk4(p, spec_rk4_steps(p, s, cmd, h, (n - 1) as nat), cmd, h)
    }
}

/// Each rotor speed cut to the motor range.
pub open spec fn spec_clip_speeds<S: Scalar>(p: QuadParams<S>, raw: Seq<S>) -> Seq<S> {
    let (lo, hi) = (p.rotor_speed_min, p.rotor_speed_max);
    seq![
        raw[0].spec_max(lo).spec_min(hi),
        raw[1].spec_max(lo).spec_min(hi),
        raw[2].spec_max(lo).spec_min(hi),
        raw[3].spec_max(lo).spec_min(hi),
    ]
}

/// Cut commanded rotor speeds to the motor range.
pub fn clip_speeds<S: Scalar>(params: &QuadParams<S>, raw: [S; NUM_ROTORS]) -> (r: [S; NUM_ROTORS])
    ensures
        r@ == spec_clip_speeds(*params, raw@),
{
    let (lo, hi) = (params.rotor_speed_min, params.rotor_speed_max);
    [raw[0].clamp(lo, hi), raw[1].clamp(lo, hi), raw[2].clamp(lo, hi), raw[3].clamp(lo, hi)]
}

/// The number of substeps that is taken for a requested `n`.
pub open spec fn spec_substeps(n: nat) -> nat {
    if n == 0 {
        1
    } else {
        n
    }
}

/// The state after the Runge-Kutta substeps of one control step.
pub open spec fn spec_integrated<S: Scalar>(
    p: QuadParams<S>,
    state: State<S>,
    cmd: Seq<S>,
    dt: S,
    n_sub: nat,
) -> State<S> {
    let n = spec_substeps(n_sub);
    let h = dt * S::spec_splat(1, n);
    State::spec_unpack(spec_rk4_steps(p, state.spec_pack(), cmd, h, n))
}

/// The state after one control step: Runge-Kutta substeps, then the quaternion is
/// brought back to unit norm and the rotor speeds to the motor range.
pub open spec fn spec_integrate<S: Scalar>(
    p: QuadParams<S>,
    state: State<S>,
    cmd: Seq<S>,
    dt: S,
    n_sub: nat,
) -> State<S> {
    let out = spec_integrated(p, state, cmd, dt, n_sub);
    let m = spec_clip_speeds(p, out.rotor_speeds@);
    State { q: out.q.spec_normalized(), rotor_speeds: [m[0], m[1], m[2], m[3]], ..out }
}

/// Integrate one control step of duration `dt`, the (already clipped) commanded rotor
/// speeds held constant. Independent of the control abstraction.
pub fn integrate<S: Scalar>(
    params: &QuadParams<S>,
    state: &State<S>,
    cmd_speeds: &[S; NUM_ROTORS],
    dt: S,
    n_sub: usize,
) -> (r: State<S>)
    ensures
        r == spec_integrate(*params, *state, cmd_speeds@, dt, n_sub as nat),
{
    let n: usize = if n_sub == 0 {
        1
    } else {
        n_sub
    };
    let h = dt.mul(S::splat(1, n as u64));
    let mut s = state.pack();
    for i in 0..n
        invariant
            s@ == spec_rk4_steps(*params, state.spec_pack(), cmd_speeds@, h, i as nat),
    {
        s = rk4(params, &s, cmd_speeds, h);
    }
    let mut out = State::unpack(&s);
    let ghost raw = out;
    out.q = out.q.normalized();
    out.rotor_speeds = clip_speeds(params, out.rotor_speeds);
    proof {
        let want = spec_integrate(*params, *state, cmd_speeds@, dt, n_sub as nat);
        assert(out.rotor_speeds =~= want.rotor_speeds);
    }
    out
}

// ---------------------------------------------------------------------------
// The vehicle
// ---------------------------------------------------------------------------
/// A quadrotor over the scalar `S` and the control abstraction `C`.
pub struct Multirotor<S, C> {
    pub params: QuadParams<S>,
    /// Integration substeps per [`Multirotor::step`].
    pub n_sub: usize,
    pub marker: PhantomData<C>,
}

impl<S: Scalar, C: ControlLaw<S>> Multirotor<S, C> {
    pub open spec fn spec_clipped_cmd_speeds(self, state: State<S>, cmd: C::Command) -> Seq<S> {
        spec_clip_speeds(self.params, C::spec_cmd_rotor_speeds(self.params, state, cmd))
    }

    pub open spec fn spec_step(self, state: State<S>, cmd: C::Command, dt: S) -> State<S> {
        spec_integrate(
            self.params,
            state,
            self.spec_clipped_cmd_speeds(state, cmd),
            dt,
            self.n_sub as nat,
        )
    }

    pub fn new(input: &QuadParamsInput<S>) -> (r: Self)
        ensures
            r.params == QuadParams::spec_from_input(*input),
            r.n_sub == 1,
    {
        Self::with_substeps(input, 1)
    }

    pub fn with_substeps(input: &QuadParamsInput<S>, n_sub: usize) -> (r: Self)
        ensures
            r.params == QuadParams::spec_from_input(*input),
            r.n_sub == spec_substeps(n_sub as nat),
    {
        let n: usize = if n_sub == 0 {
            1
        } else {
            n_sub
        };
        Multirotor { params: QuadParams::from_input(input), n_sub: n, marker: PhantomData }
    }

    /// Override the per-rotor thrust gain; 1 is nominal.
    pub fn set_rotor_gain(&mut self, gain: [S; NUM_ROTORS])
        ensures
            final(self).params == (QuadParams { rotor_gain: gain, ..old(self).params }),
            final(self).n_sub == old(self).n_sub,
    {
        self.params.rotor_gain = gain;
    }

    /// Commanded rotor speeds cut to the motor range: what the integrator uses.
    pub fn clipped_cmd_speeds(&self, state: &State<S>, cmd: &C::Command) -> (r: [S; NUM_ROTORS])
        ensures
            r@ == self.spec_clipped_cmd_speeds(*state, *cmd),
    {
        clip_speeds(&self.params, C::cmd_rotor_speeds(&self.params, state, cmd))
    }

    /// Full derivative of the packed state at `state` under `cmd`.
    pub fn state_derivative(&self, state: &State<S>, cmd: &C::Command) -> (r: [S; STATE_LEN])
        ensures
            r@ == spec_s_dot(
                self.params,
                state.spec_pack(),
                self.spec_clipped_cmd_speeds(*state, *cmd),
            ),
    {
        let speeds = self.clipped_cmd_speeds(state, cmd);
        s_dot(&self.params, &state.pack(), &speeds)
    }

    /// Integrate one control step of duration `dt`, `cmd` held.
    pub fn step(&self, state: &State<S>, cmd: &C::Command, dt: S) -> (r: State<S>)
        ensures
            r == self.spec_step(*state, *cmd, dt),
    {
        let speeds = self.clipped_cmd_speeds(state, cmd);
        integrate(&self.params, state, &speeds, dt, self.n_sub)
    }
}

// ---------------------------------------------------------------------------
// Laws
// ---------------------------------------------------------------------------
/// After a step every rotor turns at a speed that its motor can reach. Comparing does not
/// round, so this asks for no more than integrated speeds that are finite.
pub proof fn law_speeds_stay_in_range<S: Real>(
    p: QuadParams<S>,
    state: State<S>,
    cmd: Seq<S>,
    dt: S,
    n_sub: nat,
)
    requires
        crate::scalar::ordered::<S>(),
        p.rotor_speed_min.spec_is_finite(),
        p.rotor_speed_max.spec_is_finite(),
        p.rotor_speed_min <= p.rotor_speed_max,
        forall|i: int|
            0 <= i < 4 ==> (#[trigger] spec_integrated(
                p,
                state,
                cmd,
                dt,
                n_sub,
            ).rotor_speeds[i]).spec_is_finite(),
    ensures
        ({
            let m = spec_integrate(p, state, cmd, dt, n_sub).rotor_speeds;
            forall|i: int|
                0 <= i < 4 ==> p.rotor_speed_min <= #[trigger] m[i] && m[i] <= p.rotor_speed_max
                    && p.rotor_speed_min.val() <= m[i].val() <= p.rotor_speed_max.val()
        }),
{
    let out = spec_integrated(p, state, cmd, dt, n_sub);
    let (lo, hi) = (p.rotor_speed_min, p.rotor_speed_max);
    let m = spec_integrate(p, state, cmd, dt, n_sub).rotor_speeds;
    assert forall|i: int| 0 <= i < 4 implies lo <= #[trigger] m[i] && m[i] <= hi && lo.val()
        <= m[i].val() <= hi.val() by {
        assert(out.rotor_speeds[i].spec_is_finite());
        lemma_clamped(out.rotor_speeds[i], lo, hi);
        assert(i == 0 || i == 1 || i == 2 || i == 3);
        assert(m[i] == out.rotor_speeds[i].spec_max(lo).spec_min(hi));
    }
}

proof fn lemma_clamped<S: Real>(x: S, lo: S, hi: S)
    requires
        crate::scalar::ordered::<S>(),
        x.spec_is_finite(),
        lo.spec_is_finite(),
        hi.spec_is_finite(),
        lo <= hi,
    ensures
        lo <= x.spec_max(lo).spec_min(hi),
        x.spec_max(lo).spec_min(hi) <= hi,
        lo.val() <= x.spec_max(lo).spec_min(hi).val() <= hi.val(),
{
    let y = x.spec_max(lo);
    assert(y.spec_is_finite() && y.val() >= lo.val());
    assert(y.spec_min(hi) == y || y.spec_min(hi) == hi);
}

/// Commanded speeds know nothing of the rotor gain: a change of it changes the thrust that
/// the rotors give, but neither what the two control laws ask of them nor what the motors
/// are told.
pub proof fn law_gain_stays_out_of_control<S: Scalar>(
    p: QuadParams<S>,
    gain: [S; NUM_ROTORS],
    state: State<S>,
    forces: [S; NUM_ROTORS],
    cmd: CtbrCmd<S>,
)
    ensures
        ({
            let q = QuadParams { rotor_gain: gain, ..p };
            let by_force = RotorForce::spec_cmd_rotor_speeds(p, state, forces);
            let by_rate = Ctbr::spec_cmd_rotor_speeds(p, state, cmd);
            &&& q.tm_to_f == p.tm_to_f
            &&& RotorForce::spec_cmd_rotor_speeds(q, state, forces) == by_force
            &&& Ctbr::spec_cmd_rotor_speeds(q, state, cmd) == by_rate
            &&& spec_clip_speeds(q, by_force) == spec_clip_speeds(p, by_force)
            &&& spec_clip_speeds(q, by_rate) == spec_clip_speeds(p, by_rate)
        }),
{
}

/// The same of whole vehicles: what [`Multirotor::set_rotor_gain`] leaves is told the same
/// speeds as before, whichever of the two control laws flies it.
pub proof fn law_set_gain_keeps_commands<S: Scalar>(
    a: Multirotor<S, RotorForce>,
    b: Multirotor<S, RotorForce>,
    c: Multirotor<S, Ctbr>,
    d: Multirotor<S, Ctbr>,
    gain: [S; NUM_ROTORS],
    state: State<S>,
    forces: [S; NUM_ROTORS],
    cmd: CtbrCmd<S>,
)
    requires
        b.params == (QuadParams { rotor_gain: gain, ..a.params }),
        d.params == (QuadParams { rotor_gain: gain, ..c.params }),
    ensures
        b.spec_clipped_cmd_speeds(state, forces) == a.spec_clipped_cmd_speeds(state, forces),
        d.spec_clipped_cmd_speeds(state, cmd) == c.spec_clipped_cmd_speeds(state, cmd),
{
}

/// No substeps at all are one substep.
pub proof fn law_zero_substeps_are_one<S: Scalar>(
    p: QuadParams<S>,
    state: State<S>,
    cmd: Seq<S>,
    dt: S,
)
    ensures
        spec_integrate(p, state, cmd, dt, 0) == spec_integrate(p, state, cmd, dt, 1),
{
}

/// A step leaves the quaternion at unit norm, unless integration brought it to zero.
pub proof fn law_attitude_stays_unit<S: Real>(
    p: QuadParams<S>,
    state: State<S>,
    cmd: Seq<S>,
    dt: S,
    n_sub: nat,
)
    requires
        crate::scalar::exact::<S>(),
        spec_integrated(p, state, cmd, dt, n_sub).q.spec_norm().val() != 0real,
    ensures
        ({
            let q = spec_integrate(p, state, cmd, dt, n_sub).q;
            let (x, y, z, w) = (q.i.val(), q.j.val(), q.k.val(), q.w.val());
            x * x + y * y + z * z + w * w == 1real
        }),
{
    crate::linalg::law_normalized_has_unit_norm(spec_integrated(p, state, cmd, dt, n_sub).q);
}

proof fn lemma_zero_increment(a: real, o: real)
    requires
        o == 0real,
    ensures
        a * (o + o) == 0real,
{
    assert(a * (o + o) == 0real) by (nonlinear_arith)
        requires
            o == 0real,
    ;
}

proof fn lemma_rk4_keeps_wind<S: Real>(p: QuadParams<S>, s: Seq<S>, cmd: Seq<S>, h: S)
    requires
        crate::scalar::exact::<S>(),
    ensures
        forall|i: int| 13 <= i < 16 ==> (#[trigger] spec_rk4(p, s, cmd, h)[i]).val() == s[i].val(),
{
    reveal(spec_rk4);
    reveal(spec_s_dot);
    assert forall|i: int| 13 <= i < 16 implies (#[trigger] spec_rk4(p, s, cmd, h)[i]).val()
        == s[i].val() by {
        let o = S::spec_zero().val();
        lemma_zero_increment((h * S::spec_splat(1, 6)).val(), o);
        lemma_zero_increment((h * S::spec_splat(1, 3)).val(), o);
        assert(i == 13 || i == 14 || i == 15);
    }
}

proof fn lemma_steps_keep_wind<S: Real>(p: QuadParams<S>, s: Seq<S>, cmd: Seq<S>, h: S, n: nat)
    requires
        crate::scalar::exact::<S>(),
    ensures
        forall|i: int|
            13 <= i < 16 ==> (#[trigger] spec_rk4_steps(p, s, cmd, h, n)[i]).val() == s[i].val(),
    decreases n,
{
    if n > 0 {
        lemma_steps_keep_wind(p, s, cmd, h, (n - 1) as nat);
        lemma_rk4_keeps_wind(p, spec_rk4_steps(p, s, cmd, h, (n - 1) as nat), cmd, h);
    }
}

/// Flying does not change the wind.
pub proof fn law_wind_is_constant<S: Real>(
    p: QuadParams<S>,
    state: State<S>,
    cmd: Seq<S>,
    dt: S,
    n_sub: nat,
)
    requires
        crate::scalar::exact::<S>(),
    ensures
        spec_integrate(p, state, cmd, dt, n_sub).wind.same(state.wind),
{
    let n = spec_substeps(n_sub);
    let h = dt * S::spec_splat(1, n);
    lemma_steps_keep_wind(p, state.spec_pack(), cmd, h, n);
    let s = spec_rk4_steps(p, state.spec_pack(), cmd, h, n);
    assert(s[13].val() == state.spec_pack()[13].val());
    assert(s[14].val() == state.spec_pack()[14].val());
    assert(s[15].val() == state.spec_pack()[15].val());
}

/// A product with a factor of value zero.
proof fn lemma_no_product(x: real, y: real)
    requires
        x == 0real || y == 0real,
    ensures
        x * y == 0real,
{
    assert(x * y == 0real) by (nonlinear_arith)
        requires
            x == 0real || y == 0real,
    ;
}

/// The thrust of a rotor at rest in still air.
pub open spec fn spec_thrust_at_rest<S: Scalar>(p: QuadParams<S>, om: S) -> S {
    p.k_eta * (om * om)
}

/// A rotor of a drone at rest in still air pushes along body z alone and turns the drone
/// about the axes that its place gives.
proof fn lemma_rotor_at_rest<S: Real>(
    p: QuadParams<S>,
    rates: Vec3<S>,
    om: S,
    air: Vec3<S>,
    j: int,
)
    requires
        crate::scalar::exact::<S>(),
        rates.x.val() == 0real && rates.y.val() == 0real && rates.z.val() == 0real,
        air.x.val() == 0real && air.y.val() == 0real && air.z.val() == 0real,
        p.rotor_gain[j].val() == 1real,
    ensures
        ({
            let a = spec_rotor_air(p, rates, air, j);
            let f = spec_rotor_force(p, om, a, j);
            let m = p.rotor_pos[j].spec_cross(f);
            let yaw = spec_rotor_yaw(p, om, j);
            let flap = spec_rotor_flap(p, om, a);
            let t = spec_thrust_at_rest(p, om).val();
            &&& f.x.val() == 0real && f.y.val() == 0real && f.z.val() == t
            &&& m.x.val() == p.rotor_pos[j].y.val() * t
            &&& m.y.val() == -(p.rotor_pos[j].x.val() * t)
            &&& m.z.val() == 0real
            &&& yaw.x.val() == 0real && yaw.y.val() == 0real
            &&& yaw.z.val() == p.rotor_dir[j].val() * p.k_m.val() * (om.val() * om.val())
            &&& flap.x.val() == 0real && flap.y.val() == 0real && flap.z.val() == 0real
        }),
{
    let r = p.rotor_pos[j];
    let a = spec_rotor_air(p, rates, air, j);
    lemma_no_product(rates.y.val(), r.z.val());
    lemma_no_product(rates.z.val(), r.y.val());
    lemma_no_product(rates.z.val(), r.x.val());
    lemma_no_product(rates.x.val(), r.z.val());
    lemma_no_product(rates.x.val(), r.y.val());
    lemma_no_product(rates.y.val(), r.x.val());
    assert(a.x.val() == 0real && a.y.val() == 0real && a.z.val() == 0real);
    lemma_no_product(a.x.val(), a.x.val());
    lemma_no_product(a.y.val(), a.y.val());
    let lift = a.x * a.x + a.y * a.y;
    lemma_no_product(p.k_h.val(), lift.val());
    lemma_no_product(p.k_d.val(), a.x.val());
    lemma_no_product(p.k_d.val(), a.y.val());
    lemma_no_product(p.k_z.val(), a.z.val());
    let (dx, dy, dz) = ((p.k_d * a.x).val(), (p.k_d * a.y).val(), (p.k_z * a.z).val());
    lemma_no_product(dx, (-om).val());
    lemma_no_product(dy, (-om).val());
    lemma_no_product(dz, (-om).val());
    let (g, k, o) = (p.rotor_gain[j].val(), p.k_eta.val(), om.val() * om.val());
    assert(g * k == k) by (nonlinear_arith)
        requires
            g == 1real,
    ;
    let f = spec_rotor_force(p, om, a, j);
    assert(f.z.val() == k * o);
    lemma_no_product(r.z.val(), f.y.val());
    lemma_no_product(r.z.val(), f.x.val());
    lemma_no_product(r.x.val(), f.y.val());
    lemma_no_product(r.y.val(), f.x.val());
    let b = ((-p.k_flap) * om).val();
    lemma_no_product(a.y.val(), b);
    lemma_no_product((-a.x).val(), b);
    lemma_no_product(S::spec_zero().val(), b);
}

/// The dynamics and the control allocation agree on the signs of the moments: of a drone at
/// rest in still air the rotors push along body z alone, and the allocation takes the
/// force and the moment of the rotors back to `k_eta speed^2` for each of them.
pub proof fn law_allocation_undoes_wrench<S: Real>(
    inp: QuadParamsInput<S>,
    rates: Vec3<S>,
    speeds: Seq<S>,
    air: Vec3<S>,
)
    requires
        crate::scalar::exact::<S>(),
        inp.spec_f_to_tm().spec_det().val() != 0real,
        inp.k_eta.val() != 0real,
        rates.x.val() == 0real && rates.y.val() == 0real && rates.z.val() == 0real,
        air.x.val() == 0real && air.y.val() == 0real && air.z.val() == 0real,
    ensures
        ({
            let p = QuadParams::spec_from_input(inp);
            let (f, m) = spec_body_wrench(p, rates, speeds, air);
            let back = p.tm_to_f.spec_matvec(seq![f.z, m.x, m.y, m.z]);
            &&& f.x.val() == 0real && f.y.val() == 0real
            &&& forall|j: int|
                0 <= j < 4 ==> (#[trigger] back[j]).val() == p.k_eta.val() * (speeds[j].val()
                    * speeds[j].val())
        }),
{
    let p = QuadParams::spec_from_input(inp);
    let (f, m) = spec_body_wrench(p, rates, speeds, air);
    lemma_rotor_at_rest(p, rates, speeds[0], air, 0);
    lemma_rotor_at_rest(p, rates, speeds[1], air, 1);
    lemma_rotor_at_rest(p, rates, speeds[2], air, 2);
    lemma_rotor_at_rest(p, rates, speeds[3], air, 3);
    reveal_with_fuel(spec_rotor_sums, 5);
    let t = seq![
        spec_thrust_at_rest(p, speeds[0]),
        spec_thrust_at_rest(p, speeds[1]),
        spec_thrust_at_rest(p, speeds[2]),
        spec_thrust_at_rest(p, speeds[3]),
    ];
    let drag = air.spec_hadamard(p.drag_diag);
    lemma_no_product(air.x.val(), p.drag_diag.x.val());
    lemma_no_product(air.y.val(), p.drag_diag.y.val());
    lemma_no_product(air.z.val(), p.drag_diag.z.val());
    let b = (-air.spec_norm()).val();
    lemma_no_product(drag.x.val(), b);
    lemma_no_product(drag.y.val(), b);
    lemma_no_product(drag.z.val(), b);
    let w = inp.spec_f_to_tm().spec_matvec(t);
    let q = inp.spec_f_to_tm();
    let (r0, r1, r2, r3) = (p.rotor_pos[0], p.rotor_pos[1], p.rotor_pos[2], p.rotor_pos[3]);
    let (t0, t1, t2, t3) = (t[0].val(), t[1].val(), t[2].val(), t[3].val());
    assert(1real * t0 == t0 && 1real * t1 == t1 && 1real * t2 == t2 && 1real * t3 == t3)
        by (nonlinear_arith);
    crate::algebra::lemma_neg(r0.x.val(), t0);
    crate::algebra::lemma_neg(r1.x.val(), t1);
    crate::algebra::lemma_neg(r2.x.val(), t2);
    crate::algebra::lemma_neg(r3.x.val(), t3);
    lemma_yaw_ratio(p.k_m.val(), p.k_eta.val(), p.rotor_dir[0].val(), speeds[0].val());
    lemma_yaw_ratio(p.k_m.val(), p.k_eta.val(), p.rotor_dir[1].val(), speeds[1].val());
    lemma_yaw_ratio(p.k_m.val(), p.k_eta.val(), p.rotor_dir[2].val(), speeds[2].val());
    lemma_yaw_ratio(p.k_m.val(), p.k_eta.val(), p.rotor_dir[3].val(), speeds[3].val());
    assert(f.x.val() == 0real && f.y.val() == 0real);
    assert(f.z.val() == q.matvec_at(t, 0).val());
    assert(m.x.val() == q.matvec_at(t, 1).val());
    assert(m.y.val() == q.matvec_at(t, 2).val());
    assert(m.z.val() == q.matvec_at(t, 3).val());
    crate::linalg::law_mat4_inverse_undoes(q, t);
    let x = seq![f.z, m.x, m.y, m.z];
    assert(w[0].val() == x[0].val() && w[1].val() == x[1].val() && w[2].val() == x[2].val()
        && w[3].val() == x[3].val());
    assert forall|j: int| 0 <= j < 4 implies (#[trigger] p.tm_to_f.spec_matvec(x)[j]).val()
        == p.k_eta.val() * (speeds[j].val() * speeds[j].val()) by {
        assert(p.tm_to_f.spec_matvec(x)[j] == p.tm_to_f.matvec_at(x, j));
        assert(p.tm_to_f.spec_matvec(w)[j] == p.tm_to_f.matvec_at(w, j));
        assert(p.tm_to_f.spec_matvec(w)[j].val() == t[j].val());
        assert(j == 0 || j == 1 || j == 2 || j == 3);
    }
}

/// The yaw moment of a rotor is its thrust in the ratio `k_m / k_eta`.
proof fn lemma_yaw_ratio(k_m: real, k_eta: real, dir: real, om: real)
    requires
        k_eta != 0real,
    ensures
        ((k_m / k_eta) * dir) * (k_eta * (om * om)) == dir * k_m * (om * om),
{
    let (c, o) = (k_m / k_eta, om * om);
    assert(c * k_eta == k_m) by (nonlinear_arith)
        requires
            c == k_m / k_eta,
            k_eta != 0real,
    ;
    assert((c * dir) * (k_eta * o) == dir * (c * k_eta) * o) by (nonlinear_arith);
}

} // verus!
