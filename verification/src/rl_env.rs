//! A vectorized gate-racing environment for reinforcement learning.
//!
//! Each environment races a different, randomly drawn drone. The reward is the progress
//! toward the next gate and a bonus for passing it, less a penalty for crashing and a
//! little for effort. Episodes restart by themselves: the observation after the end of one
//! already belongs to the next.
use vstd::prelude::*;

use crate::control::{Ctbr, RotorForce};
use crate::drone::hover_state;
use crate::gates::Gate;
use crate::linalg::Vec3;
use crate::multirotor::Multirotor;
use crate::params::{gravity, QuadParams, QuadParamsInput};
use crate::rl::{ctbr_of, forces_of, observation, ACT_DIM, OBS_DIM};
use crate::rng::Rng;
use crate::scalar::{Real, Scalar, Wide};
use crate::state::State;

verus! {

/// Integration substeps per control step: the stiff rate loop needs fine ones.
pub const N_SUB: usize = 8;

/// Steps after which an episode ends in any case.
pub const MAX_STEPS: usize = 500;

/// Gates of a course.
pub const NUM_GATES: usize = 5;

// ---------------------------------------------------------------------------
// Drawing
// ---------------------------------------------------------------------------
/// The generator state after `n` uniform draws.
pub open spec fn after_uniforms(s: u64, n: nat) -> u64
    decreases n,
{
    if n == 0 {
        s
    } else {
        crate::rng::after_uniform(after_uniforms(s, (n - 1) as nat))
    }
}

pub proof fn lemma_after_uniforms_add(s: u64, m: nat, n: nat)
    ensures
        after_uniforms(after_uniforms(s, m), n) == after_uniforms(s, m + n),
    decreases n,
{
    if n > 0 {
        lemma_after_uniforms_add(s, m, (n - 1) as nat);
    }
}

/// The number between `a` and `b` that a uniform draw from state `s` gives.
pub open spec fn between<S: Real>(s: u64, a: S, b: S) -> S {
    a + (b - a) * crate::rng::spec_uniform::<S>(s)
}

/// [`between`] after `n` uniform draws.
pub open spec fn between_at<S: Real>(s: u64, n: nat, a: S, b: S) -> S {
    between(after_uniforms(s, n), a, b)
}

/// Draw a number between `a` and `b`.
pub fn lerp<S: Real>(r: &mut Rng, a: S, b: S) -> (x: S)
    ensures
        x == between(old(r)@, a, b),
        final(r)@ == crate::rng::after_uniform(old(r)@),
{
    let u = r.uniform::<S>();
    a.add(b.sub(a).mul(u))
}

/// The ranges that a fleet of drones is drawn from.
#[derive(Clone, Copy, Debug)]
pub struct Fleet<S> {
    pub arm_lo: S,
    pub arm_hi: S,
    pub mass_lo: S,
    pub mass_hi: S,
    /// The smallest rate gain; the largest is 18.
    pub k_w_lo: S,
    /// All four arms of a drone are equally long.
    pub symmetric: bool,
}

impl<S: Real> Fleet<S> {
    pub open spec fn spec_wide() -> Self {
        Fleet {
            arm_lo: S::spec_splat(5, 100),
            arm_hi: S::spec_splat(40, 100),
            mass_lo: S::spec_splat(2, 10),
            mass_hi: S::spec_splat(2, 1),
            k_w_lo: S::spec_splat(6, 1),
            symmetric: false,
        }
    }

    /// The full range of drones: arms of 5 to 40 cm, masses of 0.2 to 2 kg.
    pub fn wide() -> (r: Self)
        ensures
            r == Self::spec_wide(),
    {
        Fleet {
            arm_lo: S::splat(5, 100),
            arm_hi: S::splat(40, 100),
            mass_lo: S::splat(2, 10),
            mass_hi: S::splat(2, 1),
            k_w_lo: S::splat(6, 1),
            symmetric: false,
        }
    }

    /// The number of draws that the arms take.
    pub open spec fn arm_draws(self) -> nat {
        if self.symmetric {
            1
        } else {
            4
        }
    }

    /// The number of draws that a drone takes.
    pub open spec fn drone_draws(self) -> nat {
        self.arm_draws() + 9
    }

    /// Length of arm `i` of the drone drawn from state `s`.
    pub open spec fn arm_at(self, s: u64, i: nat) -> S {
        between_at(
            s,
            if self.symmetric {
                0
            } else {
                i
            },
            self.arm_lo,
            self.arm_hi,
        )
    }

    /// The drone drawn from state `s`: the thrust coefficient is set by a thrust-to-weight
    /// ratio between 2 and 4, so that it can fly, and the inertia grows with mass and the
    /// square of the size.
    pub open spec fn spec_drone(self, s: u64) -> QuadParamsInput<S> {
        let z = S::spec_zero();
        let one = S::spec_one();
        let n = self.arm_draws();
        let (a0, a1, a2, a3) = (
            self.arm_at(s, 0),
            self.arm_at(s, 1),
            self.arm_at(s, 2),
            self.arm_at(s, 3),
        );
        let diag = S::spec_splat(1, 2).spec_sqrt();
        let (d0, d1, d2, d3) = (a0 * diag, a1 * diag, a2 * diag, a3 * diag);
        let four = S::spec_splat(4, 1);
        let avg = (z + a0 + a1 + a2 + a3) / four;
        let mass = between_at(s, n, self.mass_lo, self.mass_hi);
        let rpm = S::spec_splat(1500, 1);
        let twr = between_at(s, n + 1, S::spec_splat(2, 1), four);
        let k_eta = twr * mass * crate::params::spec_gravity::<S>() / (four * rpm * rpm);
        let (lo, hi) = (S::spec_splat(7, 10), S::spec_splat(13, 10));
        let k_m = k_eta * (S::spec_splat(136, 1000000000) / S::spec_splat(557, 100000000))
            * between_at(s, n + 2, lo, hi);
        let size = avg / S::spec_splat(17, 100);
        let scale = mass / S::spec_splat(5, 10) * (size * size) * between_at(s, n + 3, lo, hi);
        QuadParamsInput {
            mass,
            ixx: S::spec_splat(365, 100000) * scale,
            iyy: S::spec_splat(368, 100000) * scale,
            izz: S::spec_splat(703, 100000) * scale,
            ixy: z,
            iyz: z,
            ixz: z,
            rotor_pos: [[d0, d0, z], [d1, -d1, z], [-d2, -d2, z], [-d3, d3, z]],
            rotor_directions: [one, S::spec_splat(-1, 1), one, S::spec_splat(-1, 1)],
            c_dx: between_at(s, n + 4, S::spec_splat(2, 100), S::spec_splat(30, 100)),
            c_dy: between_at(s, n + 5, S::spec_splat(2, 100), S::spec_splat(30, 100)),
            c_dz: between_at(s, n + 6, S::spec_splat(5, 100), S::spec_splat(40, 100)),
            k_eta,
            k_m,
            k_d: S::spec_splat(119, 1000000),
            k_z: S::spec_splat(232, 1000000),
            k_h: S::spec_splat(339, 100000),
            k_flap: z,
            tau_m: between_at(s, n + 7, S::spec_splat(1, 100), S::spec_splat(4, 100)),
            rotor_speed_min: z,
            rotor_speed_max: rpm,
            k_w: between_at(s, n + 8, self.k_w_lo, S::spec_splat(18, 1)),
        }
    }

    /// Draw a drone.
    pub fn sample_drone(&self, r: &mut Rng) -> (p: QuadParamsInput<S>)
        ensures
            p == self.spec_drone(old(r)@),
            final(r)@ == after_uniforms(old(r)@, self.drone_draws()),
    {
        proof {
            reveal_with_fuel(after_uniforms, 14);
        }
        let (lo, hi) = (self.arm_lo, self.arm_hi);
        let (a0, a1, a2, a3) = if self.symmetric {
            let a = lerp(r, lo, hi);
            (a, a, a, a)
        } else {
            let a0 = lerp(r, lo, hi);
            let a1 = lerp(r, lo, hi);
            let a2 = lerp(r, lo, hi);
            let a3 = lerp(r, lo, hi);
            (a0, a1, a2, a3)
        };
        let diag = S::splat(1, 2).sqrt();
        let (d0, d1, d2, d3) = (a0.mul(diag), a1.mul(diag), a2.mul(diag), a3.mul(diag));
        let four = S::splat(4, 1);
        let z = S::zero();
        let one = S::one();
        let avg = z.add(a0).add(a1).add(a2).add(a3).div(four);
        let mass = lerp(r, self.mass_lo, self.mass_hi);
        let rpm = S::splat(1500, 1);
        let twr = lerp(r, S::splat(2, 1), four);
        let k_eta = twr.mul(mass).mul(gravity::<S>()).div(four.mul(rpm).mul(rpm));
        let (l, h) = (S::splat(7, 10), S::splat(13, 10));
        let spread_m = lerp(r, l, h);
        let k_m = k_eta.mul(S::splat(136, 1000000000).div(S::splat(557, 100000000))).mul(spread_m);
        let size = avg.div(S::splat(17, 100));
        let spread_i = lerp(r, l, h);
        let scale = mass.div(S::splat(5, 10)).mul(size.mul(size)).mul(spread_i);
        let c_dx = lerp(r, S::splat(2, 100), S::splat(30, 100));
        let c_dy = lerp(r, S::splat(2, 100), S::splat(30, 100));
        let c_dz = lerp(r, S::splat(5, 100), S::splat(40, 100));
        let tau_m = lerp(r, S::splat(1, 100), S::splat(4, 100));
        let k_w = lerp(r, self.k_w_lo, S::splat(18, 1));
        QuadParamsInput {
            mass,
            ixx: S::splat(365, 100000).mul(scale),
            iyy: S::splat(368, 100000).mul(scale),
            izz: S::splat(703, 100000).mul(scale),
            ixy: z,
            iyz: z,
            ixz: z,
            rotor_pos: [
                [d0, d0, z],
                [d1, d1.neg(), z],
                [d2.neg(), d2.neg(), z],
                [d3.neg(), d3, z],
            ],
            rotor_directions: [one, S::splat(-1, 1), one, S::splat(-1, 1)],
            c_dx,
            c_dy,
            c_dz,
            k_eta,
            k_m,
            k_d: S::splat(119, 1000000),
            k_z: S::splat(232, 1000000),
            k_h: S::splat(339, 100000),
            k_flap: z,
            tau_m,
            rotor_speed_min: z,
            rotor_speed_max: rpm,
            k_w,
        }
    }
}

/// One gate drawn from state `s`: high up and ahead, with a random normal.
pub open spec fn spec_sky_gate<S: Real>(s: u64) -> Gate<S> {
    let u = |n: nat| crate::rng::spec_uniform::<S>(after_uniforms(s, n));
    let v = |n: nat| crate::rng::spec_normal::<S>(after_uniforms(s, n));
    Gate::spec_new(
        Vec3 {
            x: S::spec_splat(15, 10) + u(0) * S::spec_splat(9, 1),
            y: (u(1) * S::spec_splat(2, 1) - S::spec_one()) * S::spec_splat(35, 10),
            z: S::spec_splat(5, 1) + u(2) * S::spec_splat(10, 1),
        },
        Vec3 { x: v(3), y: v(5), z: v(7) },
        S::spec_splat(85, 100),
    )
}

/// The course drawn from state `s`; a gate takes nine draws.
pub open spec fn spec_sky_course<S: Real>(s: u64) -> Seq<Gate<S>> {
    Seq::new(NUM_GATES as nat, |i: int| spec_sky_gate::<S>(after_uniforms(s, (9 * i) as nat)))
}

fn sky_gate<S: Real>(r: &mut Rng) -> (g: Gate<S>)
    ensures
        g == spec_sky_gate::<S>(old(r)@),
        final(r)@ == after_uniforms(old(r)@, 9),
{
    proof {
        reveal_with_fuel(after_uniforms, 10);
    }
    let x = S::splat(15, 10).add(r.uniform::<S>().mul(S::splat(9, 1)));
    let y = r.uniform::<S>().mul(S::splat(2, 1)).sub(S::one()).mul(S::splat(35, 10));
    let z = S::splat(5, 1).add(r.uniform::<S>().mul(S::splat(10, 1)));
    let n = Vec3::new(r.normal::<S>(), r.normal::<S>(), r.normal::<S>());
    Gate::new(Vec3::new(x, y, z), n, S::splat(85, 100))
}

/// Draw a course of five gates in the sky.
pub fn sky_course<S: Real>(r: &mut Rng) -> (g: Vec<Gate<S>>)
    ensures
        g@ == spec_sky_course::<S>(old(r)@),
        final(r)@ == after_uniforms(old(r)@, 45),
{
    let ghost s = r@;
    let mut g: Vec<Gate<S>> = Vec::new();
    for i in 0..NUM_GATES
        invariant
            r@ == after_uniforms(s, (9 * i) as nat),
            g@.len() == i,
            forall|p: int|
                0 <= p < i ==> #[trigger] g@[p] == spec_sky_gate::<S>(
                    after_uniforms(s, (9 * p) as nat),
                ),
    {
        proof {
            lemma_after_uniforms_add(s, (9 * i) as nat, 9);
        }
        g.push(sky_gate::<S>(r));
    }
    assert(g@ =~= spec_sky_course::<S>(s));
    g
}

// ---------------------------------------------------------------------------
// One environment
// ---------------------------------------------------------------------------
pub struct DroneEnv<S: Wide> {
    pub fleet: Fleet<S>,
    pub input: QuadParamsInput<S>,
    pub reality: Multirotor<S, Ctbr>,
    pub reality_rf: Multirotor<S, RotorForce>,
    /// Actions are rotor forces, not thrust and body rates.
    pub rotor: bool,
    /// Ceiling of the force of one rotor.
    pub f_max: S,
    pub state: State<S>,
    pub gates: Vec<Gate<S>>,
    pub next: usize,
    pub steps: usize,
    pub prev_dist: S,
    pub hover_thrust: S,
    pub rng: Rng,
}

/// The parameters of a drone all of whose motors are equal.
pub open spec fn even_params<S: Scalar>(p: QuadParamsInput<S>) -> QuadParams<S> {
    let one = S::spec_one();
    QuadParams { rotor_gain: [one, one, one, one], ..QuadParams::spec_from_input(p) }
}

/// What a step did.
pub struct StepOutcome<S: Wide> {
    pub reward: S,
    pub done: bool,
    pub next: int,
    pub prev_dist: S,
}

impl<S: Wide> DroneEnv<S> {
    /// The wind drawn from state `s`.
    pub open spec fn spec_wind(s: u64) -> Vec3<S> {
        let (two, one) = (S::spec_splat(2, 1), S::spec_one());
        Vec3 {
            x: between_at(s, 0, S::spec_splat(-2, 1), two),
            y: between_at(s, 1, S::spec_splat(-2, 1), two),
            z: between_at(s, 2, S::spec_splat(-1, 1), one),
        }
    }

    /// The environment is at the start of the episode drawn from generator state `s`.
    pub open spec fn fresh(self, s: u64) -> bool {
        let n = self.fleet.drone_draws();
        let gates = spec_sky_course::<S>(after_uniforms(s, n));
        &&& self.input == self.fleet.spec_drone(s)
        &&& self.reality.params == even_params(self.input)
        &&& self.reality.n_sub == N_SUB
        &&& self.reality_rf.params == even_params(self.input)
        &&& self.reality_rf.n_sub == N_SUB
        &&& self.f_max == self.input.k_eta * self.input.rotor_speed_max
            * self.input.rotor_speed_max
        &&& self.gates@ == gates
        &&& self.state == (State {
            wind: Self::spec_wind(after_uniforms(s, n + 45)),
            ..crate::drone::spec_hover_state(
                self.input,
                S::spec_zero(),
                S::spec_zero(),
                S::spec_splat(15, 10),
            )
        })
        &&& self.next == 0
        &&& self.steps == 0
        &&& self.hover_thrust == self.input.mass * crate::params::spec_gravity::<S>()
        &&& self.prev_dist == (gates[0].center - self.state.x).spec_norm()
        &&& self.rng@ == after_uniforms(s, n + 48)
    }

    /// An episode is under way.
    pub open spec fn wf(self) -> bool {
        &&& self.steps < MAX_STEPS
        &&& self.next < self.gates@.len()
        &&& self.gates@.len() == NUM_GATES
    }

    /// The state that an action leads to.
    pub open spec fn spec_flown(self, a: Seq<S::Narrow>) -> State<S> {
        let dt = S::spec_splat(5, 100);
        if self.rotor {
            self.reality_rf.spec_step(
                self.state,
                crate::rl::spec_forces_of(a, self.hover_thrust, self.f_max),
                dt,
            )
        } else {
            self.reality.spec_step(self.state, crate::rl::spec_ctbr_of(a, self.hover_thrust), dt)
        }
    }

    /// The squared deviations of the first `n` action numbers from `mean`.
    pub open spec fn spread(a: Seq<S::Narrow>, mean: S, n: nat) -> S
        decreases n,
    {
        if n == 0 {
            S::spec_zero()
        } else {
            let d = S::spec_widen(a[n - 1]) - mean;
            Self::spread(a, mean, (n - 1) as nat) + d * d
        }
    }

    /// The effort of an action: how unequal the rotor forces are, or the squared body rate.
    pub open spec fn spec_effort(self, a: Seq<S::Narrow>) -> S {
        if self.rotor {
            let mean = S::spec_widen(a[0] + a[1] + a[2] + a[3]) / S::spec_splat(4, 1);
            S::spec_splat(25, 1) * Self::spread(a, mean, 4)
        } else {
            let w = crate::rl::spec_ctbr_of(a, self.hover_thrust).w_cmd;
            w.spec_dot(w)
        }
    }

    /// The drone has crashed, or is out of control.
    pub open spec fn crashed(s: State<S>) -> bool {
        ||| !s.x.z.spec_is_finite()
        ||| s.x.z < S::spec_splat(15, 100)
        ||| S::spec_splat(40, 1) < s.v.spec_norm()
    }

    /// What a step that does not crash comes to: progress toward the next gate, a bonus for
    /// passing it and one for the last, and the end of the episode with the last gate or
    /// the last step.
    pub open spec fn spec_outcome(self, a: Seq<S::Narrow>) -> StepOutcome<S> {
        let s = self.spec_flown(a);
        let g = self.gates@[self.next as int];
        let cur = (g.center - s.x).spec_norm();
        let base = S::spec_splat(5, 100) - S::spec_splat(1, 1000) * self.spec_effort(a);
        let moved = base + S::spec_one() * (self.prev_dist - cur);
        let passed = g.spec_crossed(self.state.x, s.x);
        let next = if passed {
            self.next + 1
        } else {
            self.next as int
        };
        let finished = next >= self.gates@.len();
        let r = if passed {
            moved + S::spec_splat(10, 1)
        } else {
            moved
        };
        StepOutcome {
            reward: if finished {
                r + S::spec_splat(30, 1)
            } else {
                r
            },
            done: finished || self.steps + 1 >= MAX_STEPS,
            next,
            prev_dist: if passed && !finished {
                (self.gates@[next].center - s.x).spec_norm()
            } else {
                cur
            },
        }
    }

    /// The step ends the episode.
    pub open spec fn ends(self, a: Seq<S::Narrow>) -> bool {
        Self::crashed(self.spec_flown(a)) || self.spec_outcome(a).done
    }

    /// The reward of a step.
    pub open spec fn spec_reward(self, a: Seq<S::Narrow>) -> S::Narrow {
        if Self::crashed(self.spec_flown(a)) {
            S::spec_splat(-5, 1).spec_narrow()
        } else {
            self.spec_outcome(a).reward.spec_narrow()
        }
    }

    /// What a step leaves behind: a new episode where it ended one, else the drone moved
    /// on.
    pub open spec fn stepped(self, after: Self, a: Seq<S::Narrow>) -> bool {
        &&& after.fleet == self.fleet
        &&& after.rotor == self.rotor
        &&& if self.ends(a) {
            after.fresh(self.rng@)
        } else {
            let o = self.spec_outcome(a);
            after == (DroneEnv {
                state: self.spec_flown(a),
                next: o.next as usize,
                steps: (self.steps + 1) as usize,
                prev_dist: o.prev_dist,
                ..self
            })
        }
    }

    /// An environment at the start of its first episode.
    pub fn new(seed: u64, fleet: Fleet<S>, rotor: bool) -> (r: Self)
        ensures
            r.fleet == fleet,
            r.rotor == rotor,
            r.fresh(crate::rng::spec_seed(seed | 1)),
            r.wf(),
    {
        let mut first = Rng::new(seed);
        let input = fleet.sample_drone(&mut first);
        let z = S::zero();
        let mut e = DroneEnv {
            fleet,
            input,
            reality: Multirotor::with_substeps(&input, N_SUB),
            reality_rf: Multirotor::with_substeps(&input, N_SUB),
            rotor,
            f_max: z,
            state: hover_state(&input, z, z, z),
            gates: Vec::new(),
            next: 0,
            steps: 0,
            prev_dist: z,
            hover_thrust: z,
            rng: Rng::new(seed | 1),
        };
        e.reset();
        e
    }

    /// Start a new episode: another drone, another course, another wind.
    pub fn reset(&mut self)
        ensures
            final(self).fleet == old(self).fleet,
            final(self).rotor == old(self).rotor,
            final(self).fresh(old(self).rng@),
            final(self).wf(),
    {
        let ghost s = self.rng@;
        let ghost n = self.fleet.drone_draws();
        let fleet = self.fleet;
        let one = S::one();
        self.input = fleet.sample_drone(&mut self.rng);
        self.reality = Multirotor::with_substeps(&self.input, N_SUB);
        self.reality.set_rotor_gain([one, one, one, one]);
        self.reality_rf = Multirotor::with_substeps(&self.input, N_SUB);
        self.reality_rf.set_rotor_gain([one, one, one, one]);
        let top = self.input.rotor_speed_max;
        self.f_max = self.input.k_eta.mul(top).mul(top);
        self.gates = sky_course(&mut self.rng);
        self.state = hover_state(&self.input, S::zero(), S::zero(), S::splat(15, 10));
        let two = S::splat(2, 1);
        let wx = lerp(&mut self.rng, S::splat(-2, 1), two);
        let wy = lerp(&mut self.rng, S::splat(-2, 1), two);
        let wz = lerp(&mut self.rng, S::splat(-1, 1), one);
        self.state.wind = Vec3::new(wx, wy, wz);
        self.next = 0;
        self.steps = 0;
        self.hover_thrust = self.input.mass.mul(gravity::<S>());
        self.prev_dist = self.gates[0].center.sub(self.state.x).norm();
        proof {
            reveal_with_fuel(after_uniforms, 4);
            lemma_after_uniforms_add(s, n, 45);
            lemma_after_uniforms_add(s, n + 45, 3);
        }
    }

    /// The observation.
    pub fn write_obs(&self) -> (r: Vec<S::Narrow>)
        ensures
            r@ == crate::rl::spec_observation(self.state, self.gates@, self.next as int),
    {
        observation(&self.state, &self.gates, self.next)
    }

    fn effort_of_forces(a: &[S::Narrow]) -> (r: S)
        requires
            a@.len() >= 4,
        ensures
            r == S::spec_splat(25, 1) * Self::spread(
                a@,
                S::spec_widen(a@[0] + a@[1] + a@[2] + a@[3]) / S::spec_splat(4, 1),
                4,
            ),
    {
        let mean = S::widen(a[0].add(a[1]).add(a[2]).add(a[3])).div(S::splat(4, 1));
        let mut s = S::zero();
        for i in 0..4
            invariant
                a@.len() >= 4,
                s == Self::spread(a@, mean, i as nat),
        {
            let d = S::widen(a[i]).sub(mean);
            s = s.add(d.mul(d));
        }
        S::splat(25, 1).mul(s)
    }

    /// Apply one action in `[-1, 1]^4`; the reward, and whether the episode ended.
    pub fn step(&mut self, a: &[S::Narrow]) -> (r: (S::Narrow, bool))
        requires
            old(self).wf(),
            a@.len() >= ACT_DIM,
        ensures
            r.0 == old(self).spec_reward(a@),
            r.1 == old(self).ends(a@),
            old(self).stepped(*final(self), a@),
            final(self).wf(),
    {
        let prev = self.state.x;
        let dt = S::splat(5, 100);
        let effort;
        if self.rotor {
            let forces = forces_of::<S>(a, self.hover_thrust, self.f_max);
            effort = Self::effort_of_forces(a);
            self.state = self.reality_rf.step(&self.state, &forces, dt);
        } else {
            let cmd = ctbr_of::<S>(a, self.hover_thrust);
            effort = cmd.w_cmd.dot(cmd.w_cmd);
            self.state = self.reality.step(&self.state, &cmd, dt);
        }
        self.steps = self.steps + 1;
        let s = self.state;
        if !s.x.z.is_finite() || s.x.z.lt(S::splat(15, 100)) || S::splat(40, 1).lt(s.v.norm()) {
            self.reset();
            return (S::splat(-5, 1).narrow(), true);
        }
        let mut reward = S::splat(5, 100).sub(S::splat(1, 1000).mul(effort));
        let g = self.gates[self.next];
        let cur = g.center.sub(s.x).norm();
        reward = reward.add(S::one().mul(self.prev_dist.sub(cur)));
        self.prev_dist = cur;
        if g.crossed(prev, s.x) {
            reward = reward.add(S::splat(10, 1));
            self.next = self.next + 1;
            if self.next < self.gates.len() {
                self.prev_dist = self.gates[self.next].center.sub(s.x).norm();
            }
        }
        let finished = self.next >= self.gates.len();
        let timeout = self.steps >= MAX_STEPS;
        if finished {
            reward = reward.add(S::splat(30, 1));
        }
        let done = finished || timeout;
        if done {
            self.reset();
        }
        (reward.narrow(), done)
    }
}

// ---------------------------------------------------------------------------
// Many environments
// ---------------------------------------------------------------------------
/// The seed of environment `i`.
pub open spec fn spec_env_seed(seed: u64, i: int) -> u64 {
    seed.wrapping_add((i as u64).wrapping_mul(2654435761u64))
}

/// Independent environments.
pub struct VecEnv<S: Wide> {
    pub drones: Vec<DroneEnv<S>>,
}

/// Row `i` of a row-major table.
pub open spec fn row<N>(x: Seq<N>, i: int, cols: int) -> Seq<N> {
    x.subrange(i * cols, i * cols + cols)
}

impl<S: Wide> VecEnv<S> {
    /// An episode is under way in every environment.
    pub open spec fn wf(self) -> bool {
        forall|i: int| 0 <= i < self.drones@.len() ==> (#[trigger] self.drones@[i]).wf()
    }

    /// The observation of environment `i`.
    pub open spec fn spec_obs(self, i: int) -> Seq<S::Narrow> {
        let d = self.drones@[i];
        crate::rl::spec_observation(d.state, d.gates@, d.next as int)
    }

    /// The observations of all environments, one after the other.
    pub open spec fn obs_upto(self, n: nat) -> Seq<S::Narrow>
        decreases n,
    {
        if n == 0 {
            Seq::empty()
        } else {
            self.obs_upto((n - 1) as nat) + self.spec_obs(n - 1)
        }
    }

    /// `n` environments, each with a seed of its own.
    pub fn new(n: usize, seed: u64, fleet: Fleet<S>, rotor: bool) -> (r: Self)
        ensures
            r.wf(),
            r.drones@.len() == n,
            forall|i: int|
                0 <= i < n ==> (#[trigger] r.drones@[i]).fleet == fleet && r.drones@[i].rotor
                    == rotor && r.drones@[i].fresh(
                    crate::rng::spec_seed(spec_env_seed(seed, i) | 1),
                ),
    {
        let mut drones: Vec<DroneEnv<S>> = Vec::new();
        for i in 0..n
            invariant
                drones@.len() == i,
                forall|p: int|
                    0 <= p < i ==> (#[trigger] drones@[p]).wf() && drones@[p].fleet == fleet
                        && drones@[p].rotor == rotor && drones@[p].fresh(
                        crate::rng::spec_seed(spec_env_seed(seed, p) | 1),
                    ),
        {
            let s: u64 = seed.wrapping_add((i as u64).wrapping_mul(2654435761));
            drones.push(DroneEnv::new(s, fleet, rotor));
        }
        VecEnv { drones }
    }

    /// The observations of all environments, row by row.
    pub fn observe(&self) -> (r: Vec<S::Narrow>)
        ensures
            r@ == self.obs_upto(self.drones@.len()),
    {
        let mut out: Vec<S::Narrow> = Vec::new();
        for i in 0..self.drones.len()
            invariant
                out@ == self.obs_upto(i as nat),
        {
            let o = self.drones[i].write_obs();
            for j in 0..o.len()
                invariant
                    out@ == self.obs_upto(i as nat) + o@.take(j as int),
            {
                out.push(o[j]);
                assert(self.obs_upto(i as nat) + o@.take(j + 1) =~= (self.obs_upto(i as nat)
                    + o@.take(j as int)).push(o@[j as int]));
            }
            assert(o@.take(o@.len() as int) =~= o@);
        }
        out
    }

    /// Start a new episode in every environment; the first observations.
    pub fn reset(&mut self) -> (r: Vec<S::Narrow>)
        ensures
            final(self).wf(),
            final(self).drones@.len() == old(self).drones@.len(),
            forall|i: int|
                0 <= i < old(self).drones@.len() ==> (#[trigger] final(self).drones@[i]).fresh(
                    old(self).drones@[i].rng@,
                ) && final(self).drones@[i].fleet == old(self).drones@[i].fleet
                    && final(self).drones@[i].rotor == old(self).drones@[i].rotor,
            r@ == final(self).obs_upto(final(self).drones@.len()),
    {
        let n: usize = self.drones.len();
        let ghost was = self.drones@;
        for i in 0..n
            invariant
                n == was.len(),
                self.drones@.len() == n,
                forall|p: int|
                    0 <= p < i ==> (#[trigger] self.drones@[p]).wf() && self.drones@[p].fresh(
                        was[p].rng@,
                    ) && self.drones@[p].fleet == was[p].fleet && self.drones@[p].rotor
                        == was[p].rotor,
                forall|p: int| i <= p < n ==> #[trigger] self.drones@[p] == was[p],
        {
            self.drones[i].reset();
        }
        self.observe()
    }

    /// Step every environment with its row of `actions`; the next observations, the
    /// rewards, and which episodes ended.
    pub fn step(&mut self, actions: &[S::Narrow]) -> (r: (Vec<S::Narrow>, Vec<S::Narrow>, Vec<bool>))
        requires
            old(self).wf(),
            actions@.len() == old(self).drones@.len() * ACT_DIM,
        ensures
            final(self).wf(),
            final(self).drones@.len() == old(self).drones@.len(),
            r.1@.len() == old(self).drones@.len(),
            r.2@.len() == old(self).drones@.len(),
            forall|i: int|
                0 <= i < old(self).drones@.len() ==> old(self).drones@[i].stepped(
                    #[trigger] final(self).drones@[i],
                    row(actions@, i, ACT_DIM as int),
                ),
            forall|i: int|
                0 <= i < old(self).drones@.len() ==> #[trigger] r.1@[i]
                    == old(self).drones@[i].spec_reward(row(actions@, i, ACT_DIM as int)),
            forall|i: int|
                0 <= i < old(self).drones@.len() ==> #[trigger] r.2@[i]
                    == old(self).drones@[i].ends(row(actions@, i, ACT_DIM as int)),
            r.0@ == final(self).obs_upto(final(self).drones@.len()),
    {
        assert(actions.len() == actions@.len());
        let n: usize = self.drones.len();
        let ghost was = self.drones@;
        let mut rewards: Vec<S::Narrow> = Vec::new();
        let mut dones: Vec<bool> = Vec::new();
        for i in 0..n
            invariant
                n == was.len(),
                self.drones@.len() == n,
                actions@.len() == n * ACT_DIM,
                actions@.len() <= usize::MAX,
                rewards@.len() == i,
                dones@.len() == i,
                forall|p: int| 0 <= p < n ==> (#[trigger] self.drones@[p]).wf(),
                forall|p: int|
                    0 <= p < i ==> was[p].stepped(
                        #[trigger] self.drones@[p],
                        row(actions@, p, ACT_DIM as int),
                    ),
                forall|p: int|
                    0 <= p < i ==> #[trigger] rewards@[p] == was[p].spec_reward(
                        row(actions@, p, ACT_DIM as int),
                    ),
                forall|p: int|
                    0 <= p < i ==> #[trigger] dones@[p] == was[p].ends(
                        row(actions@, p, ACT_DIM as int),
                    ),
                forall|p: int| i <= p < n ==> #[trigger] self.drones@[p] == was[p],
        {
            let k: usize = i * ACT_DIM;
            let a = [actions[k], actions[k + 1], actions[k + 2], actions[k + 3]];
            assert(a@ =~= row(actions@, i as int, ACT_DIM as int));
            let (r, done) = self.drones[i].step(&a);
            rewards.push(r);
            dones.push(done);
        }
        (self.observe(), rewards, dones)
    }
}

/// The table of observations holds [`OBS_DIM`] numbers for each environment.
pub proof fn law_obs_row_major<S: Wide>(v: VecEnv<S>, n: nat, i: int)
    requires
        0 <= i < n,
    ensures
        v.obs_upto(n).len() == OBS_DIM * n,
        row(v.obs_upto(n), i, OBS_DIM as int) == v.spec_obs(i),
    decreases n,
{
    if n > 1 {
        law_obs_row_major(v, (n - 1) as nat, if i < n - 1 { i } else { 0 });
    }
    let prev = v.obs_upto((n - 1) as nat);
    assert(prev.len() == OBS_DIM * (n - 1));
    if i < n - 1 {
        assert(row(v.obs_upto(n), i, OBS_DIM as int) =~= row(prev, i, OBS_DIM as int));
    } else {
        assert(row(v.obs_upto(n), i, OBS_DIM as int) =~= v.spec_obs(i));
    }
}

/// An episode ends within its step limit, whatever the actions: the step count never goes
/// beyond it, and reaches zero again.
pub proof fn law_episode_ends<S: Wide>(before: DroneEnv<S>, after: DroneEnv<S>, a: Seq<S::Narrow>)
    requires
        before.wf(),
        before.stepped(after, a),
    ensures
        after.steps < MAX_STEPS,
        before.ends(a) ==> after.steps == 0 && after.next == 0,
        !before.ends(a) ==> after.steps == before.steps + 1,
        before.steps + 1 == MAX_STEPS ==> before.ends(a),
{
}

/// A number drawn between two bounds lies between them.
pub proof fn law_draw_in_range<S: Real>(s: u64, n: nat, lo: S, hi: S)
    requires
        crate::scalar::exact::<S>(),
        lo.val() <= hi.val(),
    ensures
        lo.val() <= between_at(s, n, lo, hi).val() <= hi.val(),
{
    let u = crate::rng::spec_uniform::<S>(after_uniforms(s, n)).val();
    crate::rng::law_uniform_in_range::<S>(after_uniforms(s, n));
    let w = hi.val() - lo.val();
    assert(0real <= w * u <= w) by (nonlinear_arith)
        requires
            0real <= u <= 1real,
            w >= 0real,
    ;
}

/// Every drone that is drawn can fly: its four rotors together lift at least twice, and at
/// most four times, its weight.
pub proof fn law_drawn_drone_can_fly<S: Real>(fleet: Fleet<S>, s: u64)
    requires
        crate::scalar::exact::<S>(),
        0real <= fleet.mass_lo.val() <= fleet.mass_hi.val(),
    ensures
        ({
            let p = fleet.spec_drone(s);
            let rpm = p.rotor_speed_max.val();
            let lift = 4real * (p.k_eta.val() * (rpm * rpm));
            let weight = p.mass.val() * crate::params::spec_gravity::<S>().val();
            2real * weight <= lift <= 4real * weight
        }),
{
    let p = fleet.spec_drone(s);
    let n = fleet.arm_draws();
    let four = S::spec_splat(4, 1);
    crate::scalar::lemma_splat_int::<S>(4);
    crate::scalar::lemma_splat_int::<S>(2);
    crate::scalar::lemma_splat_int::<S>(1500);
    crate::scalar::lemma_splat_fraction::<S>(981, 100);
    law_draw_in_range(s, n, fleet.mass_lo, fleet.mass_hi);
    law_draw_in_range(s, n + 1, S::spec_splat(2, 1), four);
    let twr = between_at(s, n + 1, S::spec_splat(2, 1), four).val();
    let (m, g, r) = (p.mass.val(), crate::params::spec_gravity::<S>().val(), 1500real);
    let area = 4real * r * r;
    assert(area == 9000000real) by (nonlinear_arith)
        requires
            r == 1500real,
            area == 4real * r * r,
    ;
    let k = p.k_eta.val();
    assert(k == twr * m * g / area);
    assert(k * area == twr * m * g) by (nonlinear_arith)
        requires
            k == twr * m * g / area,
            area == 9000000real,
    ;
    assert(4real * (k * (r * r)) == k * area) by (nonlinear_arith)
        requires
            area == 4real * r * r,
    ;
    let w = m * g;
    assert(w >= 0real) by (nonlinear_arith)
        requires
            w == m * g,
            m >= 0real,
            g >= 0real,
    ;
    crate::algebra::lemma_assoc(twr, m, g);
    assert(2real * w <= twr * w <= 4real * w) by (nonlinear_arith)
        requires
            2real <= twr <= 4real,
            w >= 0real,
    ;
}

} // verus!
