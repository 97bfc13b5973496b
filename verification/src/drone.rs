//! A single drone that is advanced step by step, with the control abstraction chosen per
//! call and parameters that can be changed in flight.
use vstd::prelude::*;

use crate::control::{ControlLaw, Ctbr, CtbrCmd, RotorForce};
use crate::linalg::{Quat, Vec3};
use crate::multirotor::{clip_speeds, integrate};
use crate::params::{gravity, QuadParams, QuadParamsInput};
use crate::rollout::state_to_18;
use crate::scalar::Scalar;
use crate::state::State;

verus! {

// ---------------------------------------------------------------------------
// The stock drone
// ---------------------------------------------------------------------------
/// The parameters of the AscTec Hummingbird.
pub open spec fn spec_hummingbird<S: Scalar>() -> QuadParamsInput<S> {
    let d = S::spec_splat(17, 100) * S::spec_splat(1, 2).spec_sqrt();
    let (z, one, back) = (S::spec_zero(), S::spec_one(), S::spec_splat(-1, 1));
    QuadParamsInput {
        mass: S::spec_splat(5, 10),
        ixx: S::spec_splat(365, 100000),
        iyy: S::spec_splat(368, 100000),
        izz: S::spec_splat(703, 100000),
        ixy: z,
        iyz: z,
        ixz: z,
        rotor_pos: [[d, d, z], [d, -d, z], [-d, -d, z], [-d, d, z]],
        rotor_directions: [one, back, one, back],
        c_dx: S::spec_splat(5, 1000),
        c_dy: S::spec_splat(5, 1000),
        c_dz: S::spec_splat(1, 100),
        k_eta: S::spec_splat(557, 100000000),
        k_m: S::spec_splat(136, 1000000000),
        k_d: S::spec_splat(119, 1000000),
        k_z: S::spec_splat(232, 1000000),
        k_h: S::spec_splat(339, 100000),
        k_flap: z,
        tau_m: S::spec_splat(5, 1000),
        rotor_speed_min: z,
        rotor_speed_max: S::spec_splat(1500, 1),
        k_w: one,
    }
}

/// The parameters of the AscTec Hummingbird.
pub fn hummingbird<S: Scalar>() -> (r: QuadParamsInput<S>)
    ensures
        r == spec_hummingbird::<S>(),
{
    let d = S::splat(17, 100).mul(S::splat(1, 2).sqrt());
    let m = d.neg();
    let (z, one, back) = (S::zero(), S::one(), S::splat(-1, 1));
    QuadParamsInput {
        mass: S::splat(5, 10),
        ixx: S::splat(365, 100000),
        iyy: S::splat(368, 100000),
        izz: S::splat(703, 100000),
        ixy: z,
        iyz: z,
        ixz: z,
        rotor_pos: [[d, d, z], [d, m, z], [m, m, z], [m, d, z]],
        rotor_directions: [one, back, one, back],
        c_dx: S::splat(5, 1000),
        c_dy: S::splat(5, 1000),
        c_dz: S::splat(1, 100),
        k_eta: S::splat(557, 100000000),
        k_m: S::splat(136, 1000000000),
        k_d: S::splat(119, 1000000),
        k_z: S::splat(232, 1000000),
        k_h: S::splat(339, 100000),
        k_flap: z,
        tau_m: S::splat(5, 1000),
        rotor_speed_min: z,
        rotor_speed_max: S::splat(1500, 1),
        k_w: one,
    }
}

// ---------------------------------------------------------------------------
// Hover
// ---------------------------------------------------------------------------
/// The rotor speed at which a drone hovers.
pub open spec fn spec_hover_rpm<S: Scalar>(p: QuadParamsInput<S>) -> S {
    (p.mass * crate::params::spec_gravity::<S>() / (S::spec_splat(4, 1) * p.k_eta)).spec_sqrt()
}

/// The rotor speed at which a drone hovers.
pub fn hover_rpm<S: Scalar>(p: &QuadParamsInput<S>) -> (r: S)
    ensures
        r == spec_hover_rpm(*p),
{
    p.mass.mul(gravity::<S>()).div(S::splat(4, 1).mul(p.k_eta)).sqrt()
}

/// Hovering, level and at rest, at `(x, y, z)`.
pub open spec fn spec_hover_state<S: Scalar>(p: QuadParamsInput<S>, x: S, y: S, z: S) -> State<S> {
    let o = S::spec_zero();
    let m = spec_hover_rpm(p);
    State {
        x: Vec3 { x, y, z },
        v: Vec3::spec_zero(),
        q: Quat { i: o, j: o, k: o, w: S::spec_one() },
        w: Vec3::spec_zero(),
        wind: Vec3::spec_zero(),
        rotor_speeds: [m, m, m, m],
    }
}

/// Hovering, level and at rest, at `(x, y, z)`.
pub fn hover_state<S: Scalar>(p: &QuadParamsInput<S>, x: S, y: S, z: S) -> (r: State<S>)
    ensures
        r == spec_hover_state(*p, x, y, z),
{
    let o = S::zero();
    let m = hover_rpm(p);
    State {
        x: Vec3::new(x, y, z),
        v: Vec3::zero(),
        q: Quat::new(o, o, o, S::one()),
        w: Vec3::zero(),
        wind: Vec3::zero(),
        rotor_speeds: [m, m, m, m],
    }
}

/// A state in 17 numbers: position, velocity, quaternion, body rate, rotor speeds.
pub open spec fn spec_state17<S: Scalar>(s: State<S>) -> Seq<S> {
    seq![
        s.x.x, s.x.y, s.x.z,
        s.v.x, s.v.y, s.v.z,
        s.q.i, s.q.j, s.q.k, s.q.w,
        s.w.x, s.w.y, s.w.z,
        s.rotor_speeds[0], s.rotor_speeds[1], s.rotor_speeds[2], s.rotor_speeds[3],
    ]
}

/// A state in 17 numbers.
pub fn state17<S: Scalar>(s: &State<S>) -> (r: Vec<S>)
    ensures
        r@ == spec_state17(*s),
{
    let a = [
        s.x.x, s.x.y, s.x.z,
        s.v.x, s.v.y, s.v.z,
        s.q.i, s.q.j, s.q.k, s.q.w,
        s.w.x, s.w.y, s.w.z,
        s.rotor_speeds[0], s.rotor_speeds[1], s.rotor_speeds[2], s.rotor_speeds[3],
    ];
    let r = vec_of(&a);
    assert(r@ =~= spec_state17(*s));
    r
}

/// The entries of an array in a vector.
pub fn vec_of<A: Copy, const N: usize>(a: &[A; N]) -> (r: Vec<A>)
    ensures
        r@ == a@,
{
    let mut r: Vec<A> = Vec::new();
    for i in 0..N
        invariant
            r@.len() == i,
            forall|p: int| 0 <= p < i ==> #[trigger] r@[p] == a[p],
    {
        r.push(a[i]);
    }
    assert(r@ =~= a@);
    r
}

// ---------------------------------------------------------------------------
// The drone
// ---------------------------------------------------------------------------
pub struct WasmDrone<S> {
    pub input: QuadParamsInput<S>,
    pub params: QuadParams<S>,
    pub state: State<S>,
    /// Integration substeps per step.
    pub n_sub: usize,
}

impl<S: Scalar> WasmDrone<S> {
    /// The state after a step with these commanded rotor speeds.
    pub open spec fn spec_advanced(self, raw: Seq<S>, dt: S) -> State<S> {
        crate::multirotor::spec_integrate(
            self.params,
            self.state,
            crate::multirotor::spec_clip_speeds(self.params, raw),
            dt,
            self.n_sub as nat,
        )
    }

    /// A drone that hovers 1.5 m above the origin.
    pub fn new(input: QuadParamsInput<S>, n_sub: usize) -> (r: Self)
        ensures
            r.input == input,
            r.params == QuadParams::spec_from_input(input),
            r.state == spec_hover_state(
                input,
                S::spec_zero(),
                S::spec_zero(),
                S::spec_splat(15, 10),
            ),
            r.n_sub == crate::multirotor::spec_substeps(n_sub as nat),
    {
        let n: usize = if n_sub == 0 {
            1
        } else {
            n_sub
        };
        WasmDrone {
            params: QuadParams::from_input(&input),
            state: hover_state(&input, S::zero(), S::zero(), S::splat(15, 10)),
            input,
            n_sub: n,
        }
    }

    /// Put the drone into hover at `(x, y, z)`; the wind dies down.
    pub fn reset_hover(&mut self, x: S, y: S, z: S)
        ensures
            *final(self) == (WasmDrone {
                state: spec_hover_state(old(self).input, x, y, z),
                ..*old(self)
            }),
    {
        self.state = hover_state(&self.input, x, y, z);
    }

    /// Advance one control step under four rotor forces [N].
    pub fn step_rotor_force(&mut self, forces: &[S], dt: S)
        requires
            forces@.len() >= 4,
        ensures
            *final(self) == (WasmDrone {
                state: old(self).spec_advanced(
                    crate::control::spec_forces_to_speeds(forces@, old(self).params.k_eta),
                    dt,
                ),
                ..*old(self)
            }),
    {
        let f = [forces[0], forces[1], forces[2], forces[3]];
        let raw = RotorForce::cmd_rotor_speeds(&self.params, &self.state, &f);
        let speeds = clip_speeds(&self.params, raw);
        assert(speeds@ == crate::multirotor::spec_clip_speeds(
            self.params,
            crate::control::spec_forces_to_speeds(forces@, self.params.k_eta),
        ));
        self.state = integrate(&self.params, &self.state, &speeds, dt, self.n_sub);
    }

    /// Advance one control step under collective thrust [N] and body rates [rad/s].
    pub fn step_ctbr(&mut self, thrust: S, wx: S, wy: S, wz: S, dt: S)
        ensures
            *final(self) == (WasmDrone {
                state: old(self).spec_advanced(
                    Ctbr::spec_cmd_rotor_speeds(
                        old(self).params,
                        old(self).state,
                        CtbrCmd { thrust, w_cmd: Vec3 { x: wx, y: wy, z: wz } },
                    ),
                    dt,
                ),
                ..*old(self)
            }),
    {
        let cmd = CtbrCmd { thrust, w_cmd: Vec3::new(wx, wy, wz) };
        let raw = Ctbr::cmd_rotor_speeds(&self.params, &self.state, &cmd);
        let speeds = clip_speeds(&self.params, raw);
        self.state = integrate(&self.params, &self.state, &speeds, dt, self.n_sub);
    }

    /// The state in 17 numbers.
    pub fn state(&self) -> (r: Vec<S>)
        ensures
            r@ == spec_state17(self.state),
    {
        state17(&self.state)
    }

    /// The state in the 18 numbers of the world model.
    pub fn state_jepa(&self) -> (r: Vec<S>)
        ensures
            r@ == crate::rollout::spec_state_to_18(self.state)@,
    {
        vec_of(&state_to_18(&self.state))
    }

    /// Set the state from 17 numbers, the quaternion brought to unit norm; the wind stays.
    pub fn set_state(&mut self, a: &[S])
        requires
            a@.len() >= 17,
        ensures
            *final(self) == (WasmDrone {
                state: State {
                    x: Vec3 { x: a@[0], y: a@[1], z: a@[2] },
                    v: Vec3 { x: a@[3], y: a@[4], z: a@[5] },
                    q: (Quat { i: a@[6], j: a@[7], k: a@[8], w: a@[9] }).spec_normalized(),
                    w: Vec3 { x: a@[10], y: a@[11], z: a@[12] },
                    wind: old(self).state.wind,
                    rotor_speeds: [a@[13], a@[14], a@[15], a@[16]],
                },
                ..*old(self)
            }),
    {
        self.state = State {
            x: Vec3::new(a[0], a[1], a[2]),
            v: Vec3::new(a[3], a[4], a[5]),
            q: Quat::new(a[6], a[7], a[8], a[9]).normalized(),
            w: Vec3::new(a[10], a[11], a[12]),
            wind: self.state.wind,
            rotor_speeds: [a[13], a[14], a[15], a[16]],
        };
    }

    /// Set the wind [m/s].
    pub fn set_wind(&mut self, x: S, y: S, z: S)
        ensures
            *final(self) == (WasmDrone {
                state: State { wind: Vec3 { x, y, z }, ..old(self).state },
                ..*old(self)
            }),
    {
        self.state.wind = Vec3::new(x, y, z);
    }

    /// Change the mass in flight.
    pub fn set_mass(&mut self, mass: S)
        ensures
            *final(self) == (WasmDrone {
                input: QuadParamsInput { mass, ..old(self).input },
                params: QuadParams::spec_from_input(
                    QuadParamsInput { mass, ..old(self).input },
                ),
                ..*old(self)
            }),
    {
        self.input.mass = mass;
        self.params = QuadParams::from_input(&self.input);
    }

    /// Replace the parameters; the state stays.
    pub fn set_params(&mut self, input: QuadParamsInput<S>)
        ensures
            *final(self) == (WasmDrone {
                input,
                params: QuadParams::spec_from_input(input),
                ..*old(self)
            }),
    {
        self.input = input;
        self.params = QuadParams::from_input(&self.input);
    }

    /// The rotor speed at which the drone hovers [rad/s].
    pub fn hover_rpm(&self) -> (r: S)
        ensures
            r == spec_hover_rpm(self.input),
    {
        hover_rpm(&self.input)
    }

    /// The force of one rotor at hover [N].
    pub fn hover_force(&self) -> (r: S)
        ensures
            r == self.input.mass * crate::params::spec_gravity::<S>() / S::spec_splat(4, 1),
    {
        self.input.mass.mul(gravity::<S>()).div(S::splat(4, 1))
    }
}

/// What was read with [`WasmDrone::state`] and is set again comes back, but for the norm
/// of the quaternion.
pub proof fn law_set_state_restores<S: Scalar>(s: State<S>)
    ensures
        ({
            let a = spec_state17(s);
            &&& a.len() == 17
            &&& Vec3 { x: a[0], y: a[1], z: a[2] } == s.x
            &&& Vec3 { x: a[3], y: a[4], z: a[5] } == s.v
            &&& (Quat { i: a[6], j: a[7], k: a[8], w: a[9] }).spec_normalized()
                == s.q.spec_normalized()
            &&& Vec3 { x: a[10], y: a[11], z: a[12] } == s.w
            &&& [a[13], a[14], a[15], a[16]] == s.rotor_speeds
        }),
{
    let a = spec_state17(s);
    assert([a[13], a[14], a[15], a[16]] =~= s.rotor_speeds);
}

} // verus!
