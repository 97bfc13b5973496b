//! A drone that follows a smooth path over hilly ground, with the flight of the next
//! seconds committed in advance, so that a forecast of the learned model can be held
//! against what will happen.
use std::collections::VecDeque;

use vstd::prelude::*;

use crate::control::RotorForce;
use crate::dki::{AD, SD};
use crate::drone::{hover_state, state17};
use crate::jepa::SkyJepaLite;
use crate::linalg::Vec3;
use crate::multirotor::Multirotor;
use crate::params::{gravity, QuadParamsInput, NUM_ROTORS};
use crate::rl_env::lerp;
use crate::rng::Rng;
use crate::rollout::{entries, remember, state_to_18};
use crate::scalar::{clip, Real, Scalar, Wide};
use crate::se3::{FlatRef, Se3Control};
use crate::state::State;

verus! {

// ---------------------------------------------------------------------------
// The ground
// ---------------------------------------------------------------------------
/// Height of the ground: rolling hills, a diagonal ridge and fine detail.
pub open spec fn spec_terrain_height<S: Real>(x: S, y: S) -> S {
    let ridge = y - S::spec_splat(35, 100) * x - S::spec_splat(35, 10);
    S::spec_splat(-4, 10) + S::spec_splat(13, 10) * (S::spec_splat(10, 100) * x
        + S::spec_splat(4, 10)).spec_sin() * (S::spec_splat(85, 1000) * y
        - S::spec_splat(8, 10)).spec_cos() + S::spec_splat(7, 10) * (S::spec_splat(23, 100)
        * x).spec_sin() * (S::spec_splat(19, 100) * y + S::spec_splat(11, 10)).spec_sin()
        + S::spec_splat(12, 10) * (-(ridge * ridge) / S::spec_splat(22, 1)).spec_exp()
        + S::spec_splat(25, 100) * (S::spec_splat(55, 100) * x + S::spec_splat(3, 10)
        * y).spec_sin()
}

/// Height of the ground at `(x, y)`.
pub fn forecast_terrain_height<S: Real>(x: S, y: S) -> (r: S)
    ensures
        r == spec_terrain_height(x, y),
{
    let ridge = y.sub(S::splat(35, 100).mul(x)).sub(S::splat(35, 10));
    let hills = S::splat(13, 10).mul(S::splat(10, 100).mul(x).add(S::splat(4, 10)).sin()).mul(
        S::splat(85, 1000).mul(y).sub(S::splat(8, 10)).cos(),
    );
    let bumps = S::splat(7, 10).mul(S::splat(23, 100).mul(x).sin()).mul(
        S::splat(19, 100).mul(y).add(S::splat(11, 10)).sin(),
    );
    let crest = S::splat(12, 10).mul(ridge.mul(ridge).neg().div(S::splat(22, 1)).exp());
    let detail = S::splat(25, 100).mul(S::splat(55, 100).mul(x).add(S::splat(3, 10).mul(y)).sin());
    S::splat(-4, 10).add(hills).add(bumps).add(crest).add(detail)
}

/// The lowest altitude allowed at `(x, y)`: 2.5 m above the ground.
pub open spec fn spec_clearance_floor<S: Real>(x: S, y: S) -> S {
    spec_terrain_height(x, y) + S::spec_splat(25, 10)
}

/// A state lifted to the clearance floor where it is below.
pub open spec fn spec_cleared<S: Real>(s: State<S>) -> State<S> {
    let floor = spec_clearance_floor(s.x.x, s.x.y);
    if s.x.z < floor {
        State {
            x: Vec3 { z: floor, ..s.x },
            v: Vec3 { z: s.v.z.spec_max(S::spec_zero()), ..s.v },
            ..s
        }
    } else {
        s
    }
}

/// The state is at the clearance floor, or not below it.
pub open spec fn above<S: Real>(s: State<S>) -> bool {
    let floor = spec_clearance_floor(s.x.x, s.x.y);
    s.x.z == floor || !(s.x.z < floor)
}

/// Lift a state to the clearance floor where it is below; it then sinks no further.
pub fn enforce_forecast_clearance<S: Real>(s: State<S>) -> (r: State<S>)
    ensures
        r == spec_cleared(s),
        above(r),
{
    let floor = forecast_terrain_height(s.x.x, s.x.y).add(S::splat(25, 10));
    let mut r = s;
    if s.x.z.lt(floor) {
        r.x.z = floor;
        r.v.z = s.v.z.max(S::zero());
    }
    r
}

// ---------------------------------------------------------------------------
// The path
// ---------------------------------------------------------------------------
/// Position, velocity and acceleration of a sum of two harmonics, each given by
/// amplitude, frequency and phase.
pub open spec fn spec_two_harmonics<S: Real>(t: S, h1: (S, S, S), h2: (S, S, S)) -> (S, S, S) {
    let (a1, w1, p1) = h1;
    let (a2, w2, p2) = h2;
    let (u1, u2) = (w1 * t + p1, w2 * t + p2);
    (
        a1 * u1.spec_sin() + a2 * u2.spec_sin(),
        a1 * w1 * u1.spec_cos() + a2 * w2 * u2.spec_cos(),
        -a1 * w1 * w1 * u1.spec_sin() - a2 * w2 * w2 * u2.spec_sin(),
    )
}

fn two_harmonics<S: Real>(t: S, h1: (S, S, S), h2: (S, S, S)) -> (r: (S, S, S))
    ensures
        r == spec_two_harmonics(t, h1, h2),
{
    let (a1, w1, p1) = h1;
    let (a2, w2, p2) = h2;
    let (u1, u2) = (w1.mul(t).add(p1), w2.mul(t).add(p2));
    let (s1, c1) = (u1.sin(), u1.cos());
    let (s2, c2) = (u2.sin(), u2.cos());
    (
        a1.mul(s1).add(a2.mul(s2)),
        a1.mul(w1).mul(c1).add(a2.mul(w2).mul(c2)),
        a1.neg().mul(w1).mul(w1).mul(s1).sub(a2.mul(w2).mul(w2).mul(s2)),
    )
}

/// The path at time `t`: a banked figure of eight with altitude swings about 7 m.
pub open spec fn spec_forecast_ref<S: Real>(t: S) -> FlatRef<S> {
    let z = S::spec_zero();
    let x = spec_two_harmonics(
        t,
        (S::spec_splat(55, 10), S::spec_splat(28, 100), z),
        (S::spec_splat(18, 10), S::spec_splat(90, 100), S::spec_splat(13, 10)),
    );
    let y = spec_two_harmonics(
        t,
        (S::spec_splat(45, 10), S::spec_splat(45, 100), S::spec_splat(7, 10)),
        (S::spec_splat(15, 10), S::spec_splat(75, 100), z),
    );
    let dz = spec_two_harmonics(
        t,
        (S::spec_splat(18, 10), S::spec_splat(35, 100), z),
        (S::spec_splat(8, 10), S::spec_splat(60, 100), S::spec_splat(2, 1)),
    );
    let (sway, rate) = (S::spec_splat(9, 10), S::spec_splat(18, 100));
    FlatRef {
        x: Vec3 { x: x.0, y: y.0, z: S::spec_splat(7, 1) + dz.0 },
        x_dot: Vec3 { x: x.1, y: y.1, z: dz.1 },
        x_ddot: Vec3 { x: x.2, y: y.2, z: dz.2 },
        yaw: sway * (rate * t).spec_sin(),
        yaw_dot: sway * rate * (rate * t).spec_cos(),
    }
}

/// The path at time `t`.
pub fn forecast_ref<S: Real>(t: S) -> (r: FlatRef<S>)
    ensures
        r == spec_forecast_ref(t),
{
    let z = S::zero();
    let x = two_harmonics(
        t,
        (S::splat(55, 10), S::splat(28, 100), z),
        (S::splat(18, 10), S::splat(90, 100), S::splat(13, 10)),
    );
    let y = two_harmonics(
        t,
        (S::splat(45, 10), S::splat(45, 100), S::splat(7, 10)),
        (S::splat(15, 10), S::splat(75, 100), z),
    );
    let dz = two_harmonics(
        t,
        (S::splat(18, 10), S::splat(35, 100), z),
        (S::splat(8, 10), S::splat(60, 100), S::splat(2, 1)),
    );
    let (sway, rate) = (S::splat(9, 10), S::splat(18, 100));
    FlatRef {
        x: Vec3::new(x.0, y.0, S::splat(7, 1).add(dz.0)),
        x_dot: Vec3::new(x.1, y.1, dz.1),
        x_ddot: Vec3::new(x.2, y.2, dz.2),
        yaw: sway.mul(rate.mul(t).sin()),
        yaw_dot: sway.mul(rate).mul(rate.mul(t).cos()),
    }
}

// ---------------------------------------------------------------------------
// The drone
// ---------------------------------------------------------------------------
/// The drone drawn from state `s`: the family that the model was trained on.
pub open spec fn spec_forecast_drone<S: Real>(s: u64) -> QuadParamsInput<S> {
    let u = |n: nat, lo: S, hi: S| crate::rl_env::between_at(s, n, lo, hi);
    let base = crate::drone::spec_hummingbird::<S>();
    let z = S::spec_zero();
    let arm = u(0, S::spec_splat(22, 100), S::spec_splat(28, 100));
    let d = arm * S::spec_splat(1, 2).spec_sqrt();
    let mass = u(1, S::spec_splat(85, 100), S::spec_splat(170, 100));
    let twr = u(2, S::spec_splat(24, 10), S::spec_splat(36, 10));
    let rpm2 = base.rotor_speed_max * base.rotor_speed_max;
    let k_eta = twr * mass * crate::params::spec_gravity::<S>() / (S::spec_splat(4, 1) * rpm2);
    let size = arm / S::spec_splat(17, 100);
    let (lo, hi) = (S::spec_splat(85, 100), S::spec_splat(115, 100));
    let scale = mass / S::spec_splat(5, 10) * (size * size) * u(3, lo, hi);
    QuadParamsInput {
        mass,
        ixx: base.ixx * scale,
        iyy: base.iyy * scale,
        izz: base.izz * scale,
        ixy: z,
        iyz: z,
        ixz: z,
        rotor_pos: [[d, d, z], [d, -d, z], [-d, -d, z], [-d, d, z]],
        rotor_directions: base.rotor_directions,
        c_dx: u(4, S::spec_splat(5, 100), S::spec_splat(25, 100)),
        c_dy: u(5, S::spec_splat(5, 100), S::spec_splat(25, 100)),
        c_dz: u(6, S::spec_splat(10, 100), S::spec_splat(35, 100)),
        k_eta,
        k_m: k_eta * (S::spec_splat(96, 1000000000) / S::spec_splat(392, 100000000)) * u(
            7,
            lo,
            hi,
        ),
        k_d: base.k_d,
        k_z: base.k_z,
        k_h: base.k_h,
        k_flap: z,
        tau_m: u(8, S::spec_splat(15, 1000), S::spec_splat(3, 100)),
        rotor_speed_min: base.rotor_speed_min,
        rotor_speed_max: base.rotor_speed_max,
        k_w: S::spec_splat(16, 1),
    }
}

/// Draw a drone of the family that the model was trained on.
pub fn sample_forecast_drone<S: Real>(r: &mut Rng) -> (p: QuadParamsInput<S>)
    ensures
        p == spec_forecast_drone::<S>(old(r)@),
        final(r)@ == crate::rl_env::after_uniforms(old(r)@, 9),
{
    proof {
        reveal_with_fuel(crate::rl_env::after_uniforms, 10);
    }
    let base = crate::drone::hummingbird::<S>();
    let z = S::zero();
    let arm = lerp(r, S::splat(22, 100), S::splat(28, 100));
    let d = arm.mul(S::splat(1, 2).sqrt());
    let m = d.neg();
    let mass = lerp(r, S::splat(85, 100), S::splat(170, 100));
    let twr = lerp(r, S::splat(24, 10), S::splat(36, 10));
    let rpm2 = base.rotor_speed_max.mul(base.rotor_speed_max);
    let k_eta = twr.mul(mass).mul(gravity::<S>()).div(S::splat(4, 1).mul(rpm2));
    let size = arm.div(S::splat(17, 100));
    let (lo, hi) = (S::splat(85, 100), S::splat(115, 100));
    let spread = lerp(r, lo, hi);
    let scale = mass.div(S::splat(5, 10)).mul(size.mul(size)).mul(spread);
    let c_dx = lerp(r, S::splat(5, 100), S::splat(25, 100));
    let c_dy = lerp(r, S::splat(5, 100), S::splat(25, 100));
    let c_dz = lerp(r, S::splat(10, 100), S::splat(35, 100));
    let spread_m = lerp(r, lo, hi);
    let tau_m = lerp(r, S::splat(15, 1000), S::splat(3, 100));
    QuadParamsInput {
        mass,
        ixx: base.ixx.mul(scale),
        iyy: base.iyy.mul(scale),
        izz: base.izz.mul(scale),
        ixy: z,
        iyz: z,
        ixz: z,
        rotor_pos: [[d, d, z], [d, m, z], [m, m, z], [m, d, z]],
        rotor_directions: base.rotor_directions,
        c_dx,
        c_dy,
        c_dz,
        k_eta,
        k_m: k_eta.mul(S::splat(96, 1000000000).div(S::splat(392, 100000000))).mul(spread_m),
        k_d: base.k_d,
        k_z: base.k_z,
        k_h: base.k_h,
        k_flap: z,
        tau_m,
        rotor_speed_min: base.rotor_speed_min,
        rotor_speed_max: base.rotor_speed_max,
        k_w: S::splat(16, 1),
    }
}

// ---------------------------------------------------------------------------
// The pilot
// ---------------------------------------------------------------------------
/// One step of the committed flight.
#[derive(Clone, Copy)]
pub struct ForecastFrame<S> {
    pub state: State<S>,
    /// The rotor forces that led here.
    pub action: [S; NUM_ROTORS],
    pub t: S,
}

/// A drone with the controller that flies it along the path.
pub struct ForecastPilot<S> {
    pub input: QuadParamsInput<S>,
    pub reality: Multirotor<S, RotorForce>,
    pub se3: Se3Control<S>,
    pub dt: S,
    /// The tempo of the path.
    pub ref_speed: S,
    /// The path time at `ref_t0`.
    pub ref_phase: S,
    pub ref_t0: S,
}

impl<S: Real> ForecastPilot<S> {
    /// Dynamics and controller are those of the drone.
    pub open spec fn built(self) -> bool {
        &&& self.reality.params == crate::params::QuadParams::spec_from_input(self.input)
        &&& self.reality.n_sub == 8
        &&& self.se3 == Se3Control::spec_new(self.input)
    }

    /// The time on the path at time `t`.
    pub open spec fn spec_warped(self, t: S) -> S {
        self.ref_phase + self.ref_speed * (t - self.ref_t0)
    }

    /// The extra force per rotor that keeps the drone off the ground: it grows as the
    /// drone comes within 3.5 m, and with its sink rate within 4.5 m.
    pub open spec fn spec_lift_boost(self, s: State<S>) -> S {
        let floor = spec_terrain_height(s.x.x, s.x.y) + S::spec_splat(35, 10);
        let low_err = (floor - s.x.z).spec_max(S::spec_zero());
        let down_vel = if s.x.z < floor + S::spec_splat(1, 1) {
            (-s.v.z).spec_max(S::spec_zero())
        } else {
            S::spec_zero()
        };
        self.input.mass * (S::spec_splat(45, 10) * low_err + S::spec_splat(28, 10) * down_vel)
            / S::spec_splat(4, 1)
    }

    /// The rotor forces at state `s` and time `t`.
    pub open spec fn spec_action_at(self, s: State<S>, t: S) -> [S; NUM_ROTORS] {
        let raw = self.se3.spec_update(s, spec_forecast_ref(self.spec_warped(t)));
        let f_max = self.input.k_eta * self.input.rotor_speed_max * self.input.rotor_speed_max;
        let f = |i: int|
            crate::scalar::spec_clip(raw[i] + self.spec_lift_boost(s), S::spec_zero(), f_max);
        [f(0), f(1), f(2), f(3)]
    }

    /// The step of the committed flight that follows state `s` at time `t`.
    pub open spec fn frame_after(self, s: State<S>, t: S) -> ForecastFrame<S> {
        let action = self.spec_action_at(s, t);
        ForecastFrame {
            state: spec_cleared(self.reality.spec_step(s, action, self.dt)),
            action,
            t: t + self.dt,
        }
    }

    /// The committed flight `frames` that starts from state `s` at time `t`, continued
    /// to `n` steps.
    pub open spec fn grown(
        self,
        frames: Seq<ForecastFrame<S>>,
        s: State<S>,
        t: S,
        n: nat,
    ) -> Seq<ForecastFrame<S>>
        decreases n - frames.len(),
    {
        if frames.len() >= n {
            frames
        } else if frames.len() == 0 {
            self.grown(frames.push(self.frame_after(s, t)), s, t, n)
        } else {
            let last = frames.last();
            self.grown(frames.push(self.frame_after(last.state, last.t)), s, t, n)
        }
    }

    /// The pilot of a drone at the start of the path.
    pub fn new(input: QuadParamsInput<S>) -> (r: Self)
        ensures
            r.built(),
            r.input == input,
            r.dt == S::spec_splat(5, 100),
            r.ref_speed == S::spec_splat(1, 1),
            r.ref_phase == S::spec_zero(),
            r.ref_t0 == S::spec_zero(),
    {
        ForecastPilot {
            reality: Multirotor::with_substeps(&input, 8),
            se3: Se3Control::new(&input),
            input,
            dt: S::splat(5, 100),
            ref_speed: S::splat(1, 1),
            ref_phase: S::zero(),
            ref_t0: S::zero(),
        }
    }

    /// Take dynamics and controller from the drone again, after it has changed.
    fn rebuild(&mut self)
        ensures
            final(self).built(),
            *final(self) == (ForecastPilot {
                reality: final(self).reality,
                se3: final(self).se3,
                ..*old(self)
            }),
    {
        self.reality = Multirotor::with_substeps(&self.input, 8);
        self.se3 = Se3Control::new(&self.input);
    }

    /// The time on the path at time `t`.
    pub fn warped(&self, t: S) -> (r: S)
        ensures
            r == self.spec_warped(t),
    {
        self.ref_phase.add(self.ref_speed.mul(t.sub(self.ref_t0)))
    }

    /// The rotor forces at state `s` and time `t`.
    pub fn action_at(&self, s: &State<S>, t: S) -> (r: [S; NUM_ROTORS])
        ensures
            r == self.spec_action_at(*s, t),
    {
        let r = forecast_ref(self.warped(t));
        let raw = self.se3.update(s, &r);
        let zero = S::zero();
        let f_max = self.input.k_eta.mul(self.input.rotor_speed_max).mul(
            self.input.rotor_speed_max,
        );
        let floor = forecast_terrain_height(s.x.x, s.x.y).add(S::splat(35, 10));
        let low_err = floor.sub(s.x.z).max(zero);
        let down_vel = if s.x.z.lt(floor.add(S::splat(1, 1))) {
            s.v.z.neg().max(zero)
        } else {
            zero
        };
        let lift = self.input.mass.mul(
            S::splat(45, 10).mul(low_err).add(S::splat(28, 10).mul(down_vel)),
        ).div(S::splat(4, 1));
        [
            clip(raw[0].add(lift), zero, f_max),
            clip(raw[1].add(lift), zero, f_max),
            clip(raw[2].add(lift), zero, f_max),
            clip(raw[3].add(lift), zero, f_max),
        ]
    }

    fn next_frame(&self, s: &State<S>, t: S) -> (r: ForecastFrame<S>)
        ensures
            r == self.frame_after(*s, t),
            above(r.state),
    {
        let action = self.action_at(s, t);
        let flown = self.reality.step(s, &action, self.dt);
        ForecastFrame { state: enforce_forecast_clearance(flown), action, t: t.add(self.dt) }
    }

    /// Continue the committed flight to `n` steps.
    fn grow(&self, frames: &mut VecDeque<ForecastFrame<S>>, s: &State<S>, t: S, n: usize)
        requires
            all_above(old(frames)@),
        ensures
            final(frames)@ == self.grown(old(frames)@, *s, t, n as nat),
            final(frames)@.len() >= n,
            all_above(final(frames)@),
    {
        let ghost start = frames@;
        while frames.len() < n
            invariant
                self.grown(frames@, *s, t, n as nat) == self.grown(start, *s, t, n as nat),
                all_above(frames@),
            decreases n - frames@.len(),
        {
            let len: usize = frames.len();
            let f = if len == 0 {
                self.next_frame(s, t)
            } else {
                let last = frames[len - 1];
                self.next_frame(&last.state, last.t)
            };
            frames.push_back(f);
        }
    }
}

/// Every step of a committed flight keeps clear of the ground.
pub open spec fn all_above<S: Real>(frames: Seq<ForecastFrame<S>>) -> bool {
    forall|i: int| 0 <= i < frames.len() ==> above((#[trigger] frames[i]).state)
}

// ---------------------------------------------------------------------------
// The demonstration
// ---------------------------------------------------------------------------
/// The committed flight: 20 s at 20 Hz.
pub const FORECAST_AHEAD_STEPS: usize = 400;

/// The coordinates of the first `n` points.
pub open spec fn flat<S>(v: Seq<Vec3<S>>, n: nat) -> Seq<S>
    decreases n,
{
    if n == 0 {
        Seq::empty()
    } else {
        flat(v, (n - 1) as nat) + seq![v[n - 1].x, v[n - 1].y, v[n - 1].z]
    }
}

fn push_point<S: Scalar>(out: &mut Vec<S>, x: S, y: S, z: S)
    ensures
        final(out)@ == old(out)@ + seq![x, y, z],
{
    out.push(x);
    out.push(y);
    out.push(z);
    assert(out@ =~= old(out)@ + seq![x, y, z]);
}

pub struct WasmForecast<S: Wide> {
    pub pilot: ForecastPilot<S>,
    pub model: SkyJepaLite<S>,
    pub state: State<S>,
    pub rng: Rng,
    pub t: S,
    /// The last states and the actions between them, the most recent last.
    pub states: VecDeque<[S; SD]>,
    pub actions: VecDeque<[S; AD]>,
    /// The committed flight.
    pub future: VecDeque<ForecastFrame<S>>,
    /// Mass without the payload.
    pub base_mass: S,
}

impl<S: Wide> WasmForecast<S> {
    /// The history is full, and the committed flight keeps clear of the ground.
    pub open spec fn wf(self) -> bool {
        &&& self.pilot.built()
        &&& self.model.h >= 1
        &&& self.states@.len() == self.model.h
        &&& self.actions@.len() == self.model.h - 1
        &&& all_above(self.future@)
    }

    /// The flight committed from the present state.
    pub open spec fn fresh_future(self) -> Seq<ForecastFrame<S>> {
        self.pilot.grown(Seq::empty(), self.state, self.t, FORECAST_AHEAD_STEPS as nat)
    }

    /// The committed flight, continued to its full length.
    pub open spec fn full_future(self) -> Seq<ForecastFrame<S>> {
        self.pilot.grown(self.future@, self.state, self.t, FORECAST_AHEAD_STEPS as nat)
    }

    /// The history of a drone that has been in the present state for ever.
    pub open spec fn primed(self) -> bool {
        let (s, a) = (
            crate::rollout::spec_state_to_18(self.state),
            self.pilot.spec_action_at(self.state, self.t),
        );
        &&& self.states@ == Seq::new(self.model.h as nat, |i: int| s)
        &&& self.actions@ == Seq::new((self.model.h - 1) as nat, |i: int| a)
    }

    /// At the start of the path, hovering, with the flight committed.
    pub open spec fn at_start(self) -> bool {
        let x = spec_forecast_ref(S::spec_zero()).x;
        &&& self.state == crate::drone::spec_hover_state(self.pilot.input, x.x, x.y, x.z)
        &&& self.t == S::spec_zero()
        &&& self.pilot.ref_phase == S::spec_zero()
        &&& self.pilot.ref_t0 == S::spec_zero()
        &&& self.primed()
        &&& self.future@ == self.fresh_future()
    }

    /// A drone drawn by the seed, at the start of the path.
    pub fn new(seed: u64, model: SkyJepaLite<S>) -> (r: Self)
        requires
            model.h >= 1,
        ensures
            r.wf(),
            r.at_start(),
            r.model == model,
            r.pilot.input == spec_forecast_drone::<S>(crate::rng::spec_seed(seed | 1)),
            r.pilot.dt == S::spec_splat(5, 100),
            r.pilot.ref_speed == S::spec_splat(1, 1),
            r.rng@ == crate::rl_env::after_uniforms(crate::rng::spec_seed(seed | 1), 9),
            r.base_mass == r.pilot.input.mass,
    {
        let mut rng = Rng::new(seed | 1);
        let input = sample_forecast_drone::<S>(&mut rng);
        let r0 = forecast_ref(S::zero());
        let mut out = WasmForecast {
            state: hover_state(&input, r0.x.x, r0.x.y, r0.x.z),
            pilot: ForecastPilot::new(input),
            model,
            rng,
            t: S::zero(),
            states: VecDeque::new(),
            actions: VecDeque::new(),
            future: VecDeque::new(),
            base_mass: input.mass,
        };
        out.prime_history();
        out.replan();
        out
    }

    /// Change the tempo of the path, between a quarter and twice the nominal one. The
    /// place on the path stays, and the flight is committed anew.
    pub fn set_speed(&mut self, k: S)
        requires
            old(self).wf(),
        ensures
            final(self).wf(),
            *final(self) == (WasmForecast {
                pilot: ForecastPilot {
                    ref_phase: old(self).pilot.spec_warped(old(self).t),
                    ref_t0: old(self).t,
                    ref_speed: crate::scalar::spec_clip(
                        k,
                        S::spec_splat(25, 100),
                        S::spec_splat(2, 1),
                    ),
                    ..old(self).pilot
                },
                future: final(self).future,
                ..*old(self)
            }),
            final(self).future@ == final(self).fresh_future(),
    {
        self.pilot.ref_phase = self.pilot.warped(self.t);
        self.pilot.ref_t0 = self.t;
        self.pilot.ref_speed = clip(k, S::splat(25, 100), S::splat(2, 1));
        self.replan();
    }

    /// Commit the flight anew.
    fn replan(&mut self)
        ensures
            *final(self) == (WasmForecast { future: final(self).future, ..*old(self) }),
            final(self).future@ == old(self).fresh_future(),
            all_above(final(self).future@),
    {
        self.future.clear();
        self.fill_future(FORECAST_AHEAD_STEPS);
    }

    /// Go back to the start of the path.
    fn reset_state(&mut self)
        requires
            old(self).pilot.built(),
            old(self).model.h >= 1,
        ensures
            final(self).wf(),
            final(self).at_start(),
            final(self).model == old(self).model,
            final(self).rng == old(self).rng,
            final(self).base_mass == old(self).base_mass,
            final(self).pilot == (ForecastPilot {
                ref_phase: S::spec_zero(),
                ref_t0: S::spec_zero(),
                ..old(self).pilot
            }),
    {
        let r0 = forecast_ref(S::zero());
        self.state = hover_state(&self.pilot.input, r0.x.x, r0.x.y, r0.x.z);
        self.t = S::zero();
        self.pilot.ref_phase = S::zero();
        self.pilot.ref_t0 = S::zero();
        self.prime_history();
        self.replan();
    }

    /// Fill the history with the present state.
    fn prime_history(&mut self)
        requires
            old(self).model.h >= 1,
        ensures
            final(self).primed(),
            *final(self) == (WasmForecast {
                states: final(self).states,
                actions: final(self).actions,
                ..*old(self)
            }),
    {
        self.states.clear();
        self.actions.clear();
        let a = self.pilot.action_at(&self.state, self.t);
        let s = state_to_18(&self.state);
        let h: usize = self.model.h;
        let ghost start = *self;
        for i in 0..h
            invariant
                *self == (WasmForecast { states: self.states, ..start }),
                self.states@ == Seq::new(i as nat, |p: int| s),
        {
            self.states.push_back(s);
            assert(self.states@ =~= Seq::new((i + 1) as nat, |p: int| s));
        }
        let ghost mid = *self;
        for i in 0..h - 1
            invariant
                h >= 1,
                *self == (WasmForecast { actions: self.actions, ..mid }),
                self.actions@ == Seq::new(i as nat, |p: int| a),
        {
            self.actions.push_back(a);
            assert(self.actions@ =~= Seq::new((i + 1) as nat, |p: int| a));
        }
    }

    /// Continue the committed flight to `steps`.
    fn fill_future(&mut self, steps: usize)
        requires
            all_above(old(self).future@),
        ensures
            *final(self) == (WasmForecast { future: final(self).future, ..*old(self) }),
            final(self).future@ == old(self).pilot.grown(
                old(self).future@,
                old(self).state,
                old(self).t,
                steps as nat,
            ),
            final(self).future@.len() >= steps,
            all_above(final(self).future@),
    {
        let s = self.state;
        let t = self.t;
        self.pilot.grow(&mut self.future, &s, t, steps);
    }

    /// What a step does: the first frame of the committed flight becomes the present, enters
    /// the history, and the flight is continued.
    pub open spec fn stepped(self, after: Self) -> bool {
        let all = self.full_future();
        let f = all[0];
        &&& all.len() >= 1
        &&& after.state == f.state
        &&& after.t == f.t
        &&& after.states@ == crate::rollout::kept(
            self.states@.push(crate::rollout::spec_state_to_18(f.state)),
            self.model.h as nat,
        )
        &&& after.actions@ == crate::rollout::kept(
            self.actions@.push(f.action),
            (self.model.h - 1) as nat,
        )
        &&& after.future@ == self.pilot.grown(
            all.subrange(1, all.len() as int),
            f.state,
            f.t,
            FORECAST_AHEAD_STEPS as nat,
        )
        &&& after.pilot == self.pilot
        &&& after.model == self.model
        &&& after.rng == self.rng
        &&& after.base_mass == self.base_mass
    }

    /// Advance one step of the committed flight; the new state in 17 numbers.
    pub fn step(&mut self) -> (r: Vec<S>)
        requires
            old(self).wf(),
        ensures
            old(self).stepped(*final(self)),
            r@ == crate::drone::spec_state17(final(self).state),
            final(self).wf(),
            above(final(self).state),
    {
        self.fill_future(FORECAST_AHEAD_STEPS);
        let ghost all = self.future@;
        let f = self.future[0];
        let _ = self.future.pop_front();
        assert(above(all[0].state));
        assert(self.future@ == all.subrange(1, all.len() as int));
        assert forall|i: int| 0 <= i < self.future@.len() implies above(
            (#[trigger] self.future@[i]).state,
        ) by {
            assert(self.future@[i] == all[i + 1]);
        }
        self.state = f.state;
        self.t = f.t;
        let h: usize = self.model.h;
        remember(&mut self.states, state_to_18(&f.state), h);
        remember(&mut self.actions, f.action, h - 1);
        self.fill_future(FORECAST_AHEAD_STEPS);
        state17(&self.state)
    }

    /// The state in 17 numbers.
    pub fn state(&self) -> (r: Vec<S>)
        ensures
            r@ == crate::drone::spec_state17(self.state),
    {
        state17(&self.state)
    }

    /// The committed flight as far as a forecast needs it.
    pub open spec fn forecast_future(self) -> Seq<ForecastFrame<S>> {
        let n = if self.model.t > FORECAST_AHEAD_STEPS {
            self.model.t
        } else {
            FORECAST_AHEAD_STEPS
        };
        self.pilot.grown(self.future@, self.state, self.t, n as nat)
    }

    /// The actions handed to the model: the executed ones, then the committed ones, the
    /// last one twice.
    pub open spec fn forecast_window(self) -> Seq<[S; AD]> {
        let w = self.actions@ + Seq::new(
            self.model.t as nat,
            |i: int| self.forecast_future()[i].action,
        );
        w.push(w.last())
    }

    /// The number of steps of a forecast that was asked for `steps`.
    pub open spec fn forecast_steps(self, steps: nat) -> nat {
        if steps < 1 {
            1
        } else if steps > self.model.t {
            self.model.t as nat
        } else {
            steps
        }
    }

    /// The position `k` steps ahead at the acceleration of the last step.
    pub open spec fn spec_naive(self, k: int) -> Vec3<S> {
        let cur = crate::rollout::spec_state_to_18(self.state);
        let n = self.states@.len();
        let prev = if n >= 2 {
            self.states@[n - 2]
        } else {
            cur
        };
        let dt = self.pilot.dt;
        let acc = Vec3 {
            x: (cur[3] - prev[3]) / dt,
            y: (cur[4] - prev[4]) / dt,
            z: (cur[5] - prev[5]) / dt,
        };
        let h = S::spec_splat(k, 1) * dt;
        self.state.x + self.state.v.spec_scale(h) + acc.spec_scale(S::spec_splat(1, 2) * h * h)
    }

    /// The positions of a committed flight.
    pub open spec fn flown_points(frames: Seq<ForecastFrame<S>>) -> Seq<Vec3<S>> {
        Seq::new(frames.len(), |i: int| frames[i].state.x)
    }

    /// The positions that the model predicts.
    pub open spec fn predicted_points(self) -> Seq<Vec3<S>> {
        let p = self.model.spec_predict(self.states@, self.forecast_window());
        Seq::new(self.model.t as nat, |i: int| Vec3 { x: p[i][0], y: p[i][1], z: p[i][2] })
    }

    /// A forecast that was asked for `steps`: the committed points, those of the model, and
    /// those at constant acceleration.
    pub open spec fn spec_forecast(self, steps: nat) -> Seq<S> {
        let n = self.forecast_steps(steps);
        flat(Self::flown_points(self.forecast_future()), n) + flat(self.predicted_points(), n)
            + flat(Seq::new(n, |i: int| self.spec_naive(i + 1)), n)
    }

    /// Where the drone will be, where the model sees it, and where constant acceleration
    /// would take it: the coordinates of as many points of each as there are steps.
    pub fn forecast(&mut self, horizon_steps: usize) -> (r: Vec<S>)
        requires
            old(self).wf(),
            old(self).model.wf(),
            old(self).model.t >= 1,
            old(self).model.h + old(self).model.t <= usize::MAX,
        ensures
            final(self).wf(),
            *final(self) == (WasmForecast { future: final(self).future, ..*old(self) }),
            final(self).future@ == old(self).forecast_future(),
            r@ == old(self).spec_forecast(horizon_steps as nat),
    {
        let t: usize = self.model.t;
        let n: usize = if horizon_steps < 1 {
            1
        } else if horizon_steps > t {
            t
        } else {
            horizon_steps
        };
        let ahead: usize = if t > FORECAST_AHEAD_STEPS {
            t
        } else {
            FORECAST_AHEAD_STEPS
        };
        self.fill_future(ahead);
        let ghost frames = self.future@;
        let ghost start = *old(self);

        let hist = entries(&self.states);
        let mut win = entries(&self.actions);
        let ghost done = win@;
        for i in 0..t
            invariant
                frames == self.future@,
                frames.len() >= t,
                win@ == done + Seq::new(i as nat, |p: int| frames[p].action),
        {
            win.push(self.future[i].action);
            assert(win@ =~= done + Seq::new((i + 1) as nat, |p: int| frames[p].action));
        }
        let last = win[win.len() - 1];
        win.push(last);
        assert(win@ =~= start.forecast_window());
        let ghost (h, w) = (hist@, win@);
        let mut hists: Vec<Vec<[S; SD]>> = Vec::new();
        hists.push(hist);
        let mut wins: Vec<Vec<[S; AD]>> = Vec::new();
        wins.push(win);
        let pred = self.model.predict_batch(hists.as_slice(), wins.as_slice());
        let ghost points = start.predicted_points();
        assert(hists@[0]@ == h && wins@[0]@ == w);
        assert(crate::dense::rows(pred@[0]@) == self.model.spec_predict(h, w));
        assert(pred@[0]@.len() == t) by {
            assert(crate::dense::rows(pred@[0]@).len() == t);
        }
        assert forall|i: int| 0 <= i < t implies points[i] == (Vec3 {
            x: (#[trigger] pred@[0]@[i])[0],
            y: pred@[0]@[i][1],
            z: pred@[0]@[i][2],
        }) by {
            assert(crate::dense::rows(pred@[0]@)[i] == pred@[0]@[i]@);
        }

        let cur = state_to_18(&self.state);
        let len: usize = self.states.len();
        let prev = if len >= 2 {
            self.states[len - 2]
        } else {
            cur
        };
        let dt = self.pilot.dt;
        let acc = Vec3::new(
            cur[3].sub(prev[3]).div(dt),
            cur[4].sub(prev[4]).div(dt),
            cur[5].sub(prev[5]).div(dt),
        );

        let mut out: Vec<S> = Vec::new();
        let ghost flown = Self::flown_points(frames);
        for i in 0..n
            invariant
                frames == self.future@,
                flown == Self::flown_points(frames),
                frames.len() >= n,
                out@ == flat(flown, i as nat),
        {
            let x = self.future[i].state.x;
            push_point(&mut out, x.x, x.y, x.z);
        }
        let ghost first = out@;
        assert(out@ =~= first + flat(points, 0));
        for i in 0..n
            invariant
                n <= t,
                pred@.len() == 1,
                pred@[0]@.len() == t,
                forall|p: int|
                    0 <= p < t ==> points[p] == (Vec3 {
                        x: (#[trigger] pred@[0]@[p])[0],
                        y: pred@[0]@[p][1],
                        z: pred@[0]@[p][2],
                    }),
                out@ == first + flat(points, i as nat),
        {
            let p = pred[0][i];
            assert(points[i as int] == Vec3 { x: p[0], y: p[1], z: p[2] });
            push_point(&mut out, p[0], p[1], p[2]);
            assert(out@ =~= first + flat(points, (i + 1) as nat));
        }
        let ghost second = out@;
        let ghost naive = Seq::new(n as nat, |i: int| start.spec_naive(i + 1));
        assert(out@ =~= second + flat(naive, 0));
        for i in 0..n
            invariant
                out@ == second + flat(naive, i as nat),
                naive == Seq::new(n as nat, |i: int| start.spec_naive(i + 1)),
                n < usize::MAX,
                start.state == self.state,
                start.pilot.dt == dt,
                start.states@ == self.states@,
                cur == crate::rollout::spec_state_to_18(self.state),
                prev == if start.states@.len() >= 2 {
                    start.states@[start.states@.len() - 2]
                } else {
                    cur
                },
                acc == (Vec3 {
                    x: (cur[3] - prev[3]) / dt,
                    y: (cur[4] - prev[4]) / dt,
                    z: (cur[5] - prev[5]) / dt,
                }),
        {
            let k: usize = i + 1;
            let step = S::splat(k as i128, 1).mul(dt);
            let p = self.state.x.add(self.state.v.scale(step)).add(
                acc.scale(S::splat(1, 2).mul(step).mul(step)),
            );
            assert(p == naive[i as int]);
            push_point(&mut out, p.x, p.y, p.z);
            assert(out@ =~= second + flat(naive, (i + 1) as nat));
        }
        out
    }

    /// Set the wind; the flight is committed anew.
    pub fn set_wind(&mut self, x: S, y: S, z: S)
        requires
            old(self).wf(),
        ensures
            final(self).wf(),
            *final(self) == (WasmForecast {
                state: State { wind: Vec3 { x, y, z }, ..old(self).state },
                future: final(self).future,
                ..*old(self)
            }),
            final(self).future@ == final(self).fresh_future(),
    {
        self.state.wind = Vec3::new(x, y, z);
        self.replan();
    }

    /// A gust of wind.
    pub fn gust(&mut self)
        requires
            old(self).wf(),
        ensures
            final(self).wf(),
            *final(self) == (WasmForecast {
                state: State {
                    wind: Vec3 {
                        x: S::spec_splat(4, 1),
                        y: S::spec_splat(-15, 10),
                        z: S::spec_zero(),
                    },
                    ..old(self).state
                },
                future: final(self).future,
                ..*old(self)
            }),
            final(self).future@ == final(self).fresh_future(),
    {
        self.set_wind(S::splat(4, 1), S::splat(-15, 10), S::zero());
    }

    /// No wind.
    pub fn calm(&mut self)
        requires
            old(self).wf(),
        ensures
            final(self).wf(),
            *final(self) == (WasmForecast {
                state: State { wind: Vec3::spec_zero(), ..old(self).state },
                future: final(self).future,
                ..*old(self)
            }),
            final(self).future@ == final(self).fresh_future(),
    {
        self.set_wind(S::zero(), S::zero(), S::zero());
    }

    /// The point on the path that the drone is flown to.
    pub fn reference(&self) -> (r: Vec<S>)
        ensures
            r@ == ({
                let x = spec_forecast_ref(self.pilot.spec_warped(self.t)).x;
                seq![x.x, x.y, x.z]
            }),
    {
        let r = forecast_ref(self.pilot.warped(self.t));
        let mut v: Vec<S> = Vec::new();
        push_point(&mut v, r.x.x, r.x.y, r.x.z);
        v
    }

    /// The mass that toggling the payload gives.
    pub open spec fn toggled_mass(self) -> S {
        if self.pilot.input.mass < self.base_mass * S::spec_splat(12, 10) {
            self.base_mass * S::spec_splat(145, 100)
        } else {
            self.base_mass
        }
    }

    /// Attach the payload, or drop it; the flight is committed anew.
    pub fn toggle_payload(&mut self)
        requires
            old(self).wf(),
        ensures
            final(self).wf(),
            final(self).pilot == (ForecastPilot {
                input: QuadParamsInput { mass: old(self).toggled_mass(), ..old(self).pilot.input },
                reality: final(self).pilot.reality,
                se3: final(self).pilot.se3,
                ..old(self).pilot
            }),
            *final(self) == (WasmForecast {
                pilot: final(self).pilot,
                future: final(self).future,
                ..*old(self)
            }),
            final(self).future@ == final(self).fresh_future(),
    {
        let light = self.pilot.input.mass.lt(self.base_mass.mul(S::splat(12, 10)));
        self.pilot.input.mass = if light {
            self.base_mass.mul(S::splat(145, 100))
        } else {
            self.base_mass
        };
        self.pilot.rebuild();
        self.replan();
    }

    /// Draw another drone and start over.
    pub fn new_drone(&mut self)
        requires
            old(self).wf(),
        ensures
            final(self).wf(),
            final(self).at_start(),
            final(self).pilot.input == spec_forecast_drone::<S>(old(self).rng@),
            final(self).pilot.dt == old(self).pilot.dt,
            final(self).pilot.ref_speed == old(self).pilot.ref_speed,
            final(self).rng@ == crate::rl_env::after_uniforms(old(self).rng@, 9),
            final(self).base_mass == final(self).pilot.input.mass,
            final(self).model == old(self).model,
    {
        let input = sample_forecast_drone::<S>(&mut self.rng);
        self.pilot.input = input;
        self.base_mass = input.mass;
        self.pilot.rebuild();
        self.reset_state();
    }

    pub fn drone_mass(&self) -> (r: S)
        ensures
            r == self.pilot.input.mass,
    {
        self.pilot.input.mass
    }

    /// Length of an arm.
    pub fn drone_arm(&self) -> (r: S)
        ensures
            r == self.pilot.input.rotor_pos[0][0] * S::spec_splat(2, 1).spec_sqrt(),
    {
        self.pilot.input.rotor_pos[0][0].mul(S::splat(2, 1).sqrt())
    }

    /// The payload is attached.
    pub fn payload_attached(&self) -> (r: bool)
        ensures
            r == (self.base_mass * S::spec_splat(12, 10) < self.pilot.input.mass),
    {
        self.base_mass.mul(S::splat(12, 10)).lt(self.pilot.input.mass)
    }

    pub fn wind(&self) -> (r: Vec<S>)
        ensures
            r@ == seq![self.state.wind.x, self.state.wind.y, self.state.wind.z],
    {
        let w = self.state.wind;
        let mut v: Vec<S> = Vec::new();
        push_point(&mut v, w.x, w.y, w.z);
        v
    }

    pub fn time(&self) -> (r: S)
        ensures
            r == self.t,
    {
        self.t
    }
}

// ---------------------------------------------------------------------------
// Laws
// ---------------------------------------------------------------------------
/// A step of the committed flight is never closer than 2.5 m to the ground below it.
pub proof fn law_flight_stays_above_terrain<S: Real>(pilot: ForecastPilot<S>, s: State<S>, t: S)
    requires
        crate::scalar::exact::<S>(),
    ensures
        ({
            let x = pilot.frame_after(s, t).state.x;
            spec_terrain_height(x.x, x.y).val() + 25real / 10real <= x.z.val()
        }),
{
    crate::scalar::lemma_splat_fraction::<S>(25, 10);
    let flown = pilot.reality.spec_step(s, pilot.spec_action_at(s, t), pilot.dt);
    let floor = spec_clearance_floor(flown.x.x, flown.x.y);
    assert((flown.x.z < floor) <==> flown.x.z.val() < floor.val());
}

/// What `above` says of a playback state, for exact arithmetic: at least 2.5 m of
/// clearance.
pub proof fn law_above_means_clear<S: Real>(s: State<S>)
    requires
        crate::scalar::exact::<S>(),
        above(s),
    ensures
        spec_terrain_height(s.x.x, s.x.y).val() + 25real / 10real <= s.x.z.val(),
{
    crate::scalar::lemma_splat_fraction::<S>(25, 10);
    let floor = spec_clearance_floor(s.x.x, s.x.y);
    assert((s.x.z < floor) <==> s.x.z.val() < floor.val());
}

/// Continuing a committed flight changes nothing of what was committed.
pub proof fn law_commitment_is_kept<S: Real>(
    pilot: ForecastPilot<S>,
    frames: Seq<ForecastFrame<S>>,
    s: State<S>,
    t: S,
    n: nat,
)
    ensures
        frames.len() <= pilot.grown(frames, s, t, n).len(),
        n <= pilot.grown(frames, s, t, n).len(),
        forall|i: int|
            0 <= i < frames.len() ==> #[trigger] pilot.grown(frames, s, t, n)[i] == frames[i],
    decreases n - frames.len(),
{
    if frames.len() < n {
        let f = if frames.len() == 0 {
            pilot.frame_after(s, t)
        } else {
            pilot.frame_after(frames.last().state, frames.last().t)
        };
        let more = frames.push(f);
        law_commitment_is_kept(pilot, more, s, t, n);
        assert forall|i: int| 0 <= i < frames.len() implies #[trigger] pilot.grown(
            frames,
            s,
            t,
            n,
        )[i] == frames[i] by {
            assert(pilot.grown(more, s, t, n)[i] == more[i]);
        }
    }
}

/// Where the coordinates of point `j` stand among the first `n` points.
pub proof fn lemma_flat<S>(v: Seq<Vec3<S>>, n: nat, j: int)
    ensures
        flat(v, n).len() == 3 * n,
        0 <= j < n ==> flat(v, n)[3 * j] == v[j].x && flat(v, n)[3 * j + 1] == v[j].y && flat(
            v,
            n,
        )[3 * j + 2] == v[j].z,
    decreases n,
{
    if n > 0 {
        lemma_flat(v, (n - 1) as nat, j);
    }
}

/// After `i` steps the committed flight begins where the frames `all` go on, and the
/// present is the last one flown.
proof fn lemma_steps_follow<S: Wide>(
    ws: Seq<WasmForecast<S>>,
    all: Seq<ForecastFrame<S>>,
    i: int,
)
    requires
        0 <= i < ws.len(),
        ws.len() <= all.len() + 1,
        ws[0].future@ == all,
        forall|c: int| 0 <= c < ws.len() - 1 ==> (#[trigger] ws[c]).stepped(ws[c + 1]),
    ensures
        ws[i].future@.len() >= all.len() - i,
        forall|j: int| 0 <= j < all.len() - i ==> #[trigger] ws[i].future@[j] == all[i + j],
        i > 0 ==> ws[i].state == all[i - 1].state && ws[i].t == all[i - 1].t,
    decreases i,
{
    if i > 0 {
        lemma_steps_follow(ws, all, i - 1);
        let (w, v) = (ws[i - 1], ws[i]);
        assert(w.stepped(ws[i - 1 + 1]));
        let full = w.full_future();
        let n = FORECAST_AHEAD_STEPS as nat;
        law_commitment_is_kept(w.pilot, w.future@, w.state, w.t, n);
        assert(full[0] == w.future@[0]);
        let rest = full.subrange(1, full.len() as int);
        law_commitment_is_kept(w.pilot, rest, full[0].state, full[0].t, n);
        assert forall|j: int| 0 <= j < all.len() - i implies #[trigger] v.future@[j] == all[i + j] by {
            assert(v.future@[j] == rest[j]);
            assert(full[j + 1] == w.future@[j + 1]);
            assert(w.future@[j + 1] == all[i - 1 + (j + 1)]);
        }
    }
}

/// A forecast is kept: its committed points are, coordinate by coordinate, where the next
/// steps take the drone, as long as nothing else is asked for in between. `before` is the
/// flight when the forecast is asked for, `ws[0]` what it leaves, and `ws[i]` what `i`
/// steps lead to. The forecast itself moves nothing.
pub proof fn law_forecast_is_flown<S: Wide>(
    before: WasmForecast<S>,
    ws: Seq<WasmForecast<S>>,
    steps: nat,
    j: int,
)
    requires
        before.model.t >= 1,
        ws.len() == before.forecast_steps(steps) + 1,
        ws[0] == (WasmForecast { future: ws[0].future, ..before }),
        ws[0].future@ == before.forecast_future(),
        forall|c: int| 0 <= c < ws.len() - 1 ==> (#[trigger] ws[c]).stepped(ws[c + 1]),
        0 <= j < before.forecast_steps(steps),
    ensures
        ({
            let f = before.spec_forecast(steps);
            let x = ws[j + 1].state.x;
            &&& f.len() == 9 * before.forecast_steps(steps)
            &&& f[3 * j] == x.x
            &&& f[3 * j + 1] == x.y
            &&& f[3 * j + 2] == x.z
        }),
        ws[0].state == before.state,
        ws[0].t == before.t,
{
    let n = before.forecast_steps(steps);
    let all = before.forecast_future();
    let ahead = if before.model.t > FORECAST_AHEAD_STEPS {
        before.model.t
    } else {
        FORECAST_AHEAD_STEPS
    };
    law_commitment_is_kept(before.pilot, before.future@, before.state, before.t, ahead as nat);
    assert(all.len() >= n);
    lemma_steps_follow(ws, all, j + 1);
    let flown = WasmForecast::flown_points(all);
    let naive = Seq::new(n, |i: int| before.spec_naive(i + 1));
    lemma_flat(flown, n, j);
    lemma_flat(before.predicted_points(), n, j);
    lemma_flat(naive, n, j);
}

/// A change of tempo does not move the target: the place on the path is the same before
/// and after.
pub proof fn law_tempo_keeps_place<S: Real>(pilot: ForecastPilot<S>, t: S, k: S)
    requires
        crate::scalar::exact::<S>(),
    ensures
        (ForecastPilot {
            ref_phase: pilot.spec_warped(t),
            ref_t0: t,
            ref_speed: k,
            ..pilot
        }).spec_warped(t).val() == pilot.spec_warped(t).val(),
{
    let z = (t - t).val();
    assert(k.val() * z == 0real) by (nonlinear_arith)
        requires
            z == 0real,
    ;
}

/// Toggling the payload twice gives back the bare drone.
pub proof fn law_payload_toggles<S: Wide>(a: WasmForecast<S>, b: WasmForecast<S>)
    requires
        crate::scalar::exact::<S>(),
        a.base_mass.val() > 0real,
        a.pilot.input.mass == a.base_mass,
        b.base_mass == a.base_mass,
        b.pilot.input.mass == a.toggled_mass(),
    ensures
        a.toggled_mass() == a.base_mass * S::spec_splat(145, 100),
        b.toggled_mass() == a.base_mass,
{
    crate::scalar::lemma_splat_fraction::<S>(12, 10);
    crate::scalar::lemma_splat_fraction::<S>(145, 100);
    let m = a.base_mass.val();
    let (light, full) = (S::spec_splat(12, 10).val(), S::spec_splat(145, 100).val());
    assert(m < m * light && m * light < m * full) by (nonlinear_arith)
        requires
            m > 0real,
            light == 12real / 10real,
            full == 145real / 100real,
    ;
    assert((a.pilot.input.mass < a.base_mass * S::spec_splat(12, 10)) <==> m < m * light);
    assert((b.pilot.input.mass < b.base_mass * S::spec_splat(12, 10)) <==> m * full < m * light);
}

} // verus!
