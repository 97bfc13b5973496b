//! A race on a shared course: a planner with the true dynamics, a reactive policy and a
//! planner with the learned model, each on a drone of its own.
use vstd::prelude::*;

use crate::control::{Ctbr, CtbrCmd, RotorForce};
use crate::drone::{hover_state, state17};
use crate::gates::{copy_vec, Course, Gate};
use crate::jepa::SkyJepaLite;
use crate::linalg::Vec3;
use crate::mppi::{Controller, MppiConfig, MppiController, RolloutModel, TrueDynamics};
use crate::multirotor::Multirotor;
use crate::params::{gravity, QuadParamsInput, NUM_ROTORS};
use crate::rl::RlPolicy;
use crate::rl_env::{sky_course, Fleet, NUM_GATES};
use crate::rng::Rng;
use crate::rollout::JepaRollout;
use crate::rotor_mppi::{RotorMppiConfig, RotorMppiController};
use crate::scalar::{clip, Real, Scalar, Wide};
use crate::state::State;

verus! {

// ---------------------------------------------------------------------------
// The drones of the race
// ---------------------------------------------------------------------------
/// The drones that the race draws from: symmetric frames about the size that the models
/// were trained on.
pub open spec fn spec_race_fleet<S: Real>() -> Fleet<S> {
    Fleet {
        arm_lo: S::spec_splat(20, 100),
        arm_hi: S::spec_splat(30, 100),
        mass_lo: S::spec_splat(9, 10),
        mass_hi: S::spec_splat(15, 10),
        k_w_lo: S::spec_splat(8, 1),
        symmetric: true,
    }
}

/// Draw a drone, and the thrust gain of each of its rotors.
pub fn sample_drone<S: Real>(r: &mut Rng) -> (p: (QuadParamsInput<S>, [S; NUM_ROTORS]))
    ensures
        p.0 == spec_race_fleet::<S>().spec_drone(old(r)@),
        p.1 == spec_unit_gain::<S>(),
        final(r)@ == crate::rl_env::after_uniforms(old(r)@, 10),
{
    let fleet = Fleet {
        arm_lo: S::splat(20, 100),
        arm_hi: S::splat(30, 100),
        mass_lo: S::splat(9, 10),
        mass_hi: S::splat(15, 10),
        k_w_lo: S::splat(8, 1),
        symmetric: true,
    };
    let one = S::one();
    (fleet.sample_drone(r), [one, one, one, one])
}

/// Every rotor at its nominal strength.
pub open spec fn spec_unit_gain<S: Scalar>() -> [S; NUM_ROTORS] {
    let one = S::spec_one();
    [one, one, one, one]
}

/// Draw a course of five gates that can be won.
pub fn random_course<S: Real>(r: &mut Rng) -> (c: Course<S>)
    ensures
        c.gates@ == crate::rl_env::spec_sky_course::<S>(old(r)@),
        c.next == 0,
        c.laps_completed == 0,
        !c.loop_course,
        final(r)@ == crate::rl_env::after_uniforms(old(r)@, 45),
{
    Course::new(sky_course(r), false)
}

// ---------------------------------------------------------------------------
// Costs
// ---------------------------------------------------------------------------
/// The cost of racing: a strong drive toward a gate, no pull to a point.
pub open spec fn spec_race_cfg<S: Real>(mass: S) -> MppiConfig<S> {
    MppiConfig {
        samples: 128,
        w_vel: S::spec_splat(3, 1),
        w_pos: S::spec_zero(),
        w_vdamp: S::spec_splat(4, 100),
        w_effort: S::spec_splat(1, 100),
        sigma_rate: S::spec_splat(28, 10),
        rate_max: S::spec_splat(10, 1),
        beta: S::spec_splat(90, 100),
        w_floor: S::spec_splat(300, 1),
        ..MppiConfig::spec_for_mass(mass)
    }
}

/// The cost of racing.
pub fn race_cfg<S: Real>(mass: S) -> (r: MppiConfig<S>)
    ensures
        r == spec_race_cfg(mass),
{
    let mut cfg = MppiConfig::for_mass(mass);
    cfg.samples = 128;
    cfg.w_vel = S::splat(3, 1);
    cfg.w_pos = S::zero();
    cfg.w_vdamp = S::splat(4, 100);
    cfg.w_effort = S::splat(1, 100);
    cfg.sigma_rate = S::splat(28, 10);
    cfg.rate_max = S::splat(10, 1);
    cfg.beta = S::splat(90, 100);
    cfg.w_floor = S::splat(300, 1);
    cfg
}

/// The cost of holding a point: a spring and a damper, with calm exploration.
pub open spec fn spec_hover_cfg<S: Real>(mass: S) -> MppiConfig<S> {
    MppiConfig {
        samples: 128,
        w_vel: S::spec_zero(),
        gate_reward: S::spec_zero(),
        w_pos: S::spec_splat(3, 1),
        w_vdamp: S::spec_splat(8, 10),
        w_alt: S::spec_zero(),
        w_terminal: S::spec_zero(),
        rate_max: S::spec_splat(9, 1),
        sigma_rate: S::spec_splat(5, 10),
        sigma_thrust: S::spec_splat(3, 100) * mass * crate::params::spec_gravity::<S>(),
        lambda: S::spec_splat(1, 1),
        ..MppiConfig::spec_for_mass(mass)
    }
}

/// The cost of holding a point.
pub fn hover_cfg<S: Real>(mass: S) -> (r: MppiConfig<S>)
    ensures
        r == spec_hover_cfg(mass),
{
    let mut cfg = MppiConfig::for_mass(mass);
    cfg.samples = 128;
    cfg.w_vel = S::zero();
    cfg.gate_reward = S::zero();
    cfg.w_pos = S::splat(3, 1);
    cfg.w_vdamp = S::splat(8, 10);
    cfg.w_alt = S::zero();
    cfg.w_terminal = S::zero();
    cfg.rate_max = S::splat(9, 1);
    cfg.sigma_rate = S::splat(5, 10);
    cfg.sigma_thrust = S::splat(3, 100).mul(mass).mul(gravity::<S>());
    cfg.lambda = S::splat(1, 1);
    cfg
}

/// The cost of racing in rotor forces over the learned model: a short horizon, gentle
/// speed, a strong floor and the latent trust region.
pub open spec fn spec_rotor_race_cfg<S: Real>(mass: S) -> RotorMppiConfig<S> {
    let cfg = RotorMppiConfig::spec_for_mass(mass);
    RotorMppiConfig {
        base: MppiConfig {
            horizon: 12,
            samples: 48,
            w_vel: S::spec_splat(8, 10),
            w_terminal: S::spec_splat(25, 10),
            w_alt: S::spec_splat(35, 10),
            w_vdamp: S::spec_splat(18, 100),
            v_max: S::spec_splat(35, 10),
            w_speed: S::spec_splat(15, 10),
            w_floor: S::spec_splat(600, 1),
            w_effort: S::spec_splat(1, 10000),
            trust_lambda: S::spec_splat(1000, 1),
            beta: S::spec_splat(85, 100),
            lambda: S::spec_splat(4, 10),
            ..cfg.base
        },
        sigma_force: S::spec_splat(22, 100) * cfg.hover_force,
        ..cfg
    }
}

/// The cost of racing in rotor forces.
pub fn rotor_race_cfg<S: Real>(mass: S) -> (r: RotorMppiConfig<S>)
    ensures
        r == spec_rotor_race_cfg(mass),
{
    let mut cfg = RotorMppiConfig::for_mass(mass);
    let mut base = cfg.base;
    base.horizon = 12;
    base.samples = 48;
    base.w_vel = S::splat(8, 10);
    base.w_terminal = S::splat(25, 10);
    base.w_alt = S::splat(35, 10);
    base.w_vdamp = S::splat(18, 100);
    base.v_max = S::splat(35, 10);
    base.w_speed = S::splat(15, 10);
    base.w_floor = S::splat(600, 1);
    base.w_effort = S::splat(1, 10000);
    base.trust_lambda = S::splat(1000, 1);
    base.beta = S::splat(85, 100);
    base.lambda = S::splat(4, 10);
    cfg.base = base;
    cfg.sigma_force = S::splat(22, 100).mul(cfg.hover_force);
    cfg
}

/// The cost of holding a point in rotor forces.
pub open spec fn spec_rotor_hover_cfg<S: Real>(mass: S) -> RotorMppiConfig<S> {
    let cfg = spec_rotor_race_cfg(mass);
    RotorMppiConfig {
        base: MppiConfig {
            w_vel: S::spec_zero(),
            gate_reward: S::spec_zero(),
            w_pos: S::spec_splat(3, 1),
            w_vdamp: S::spec_splat(8, 10),
            w_alt: S::spec_zero(),
            w_terminal: S::spec_zero(),
            lambda: S::spec_splat(1, 1),
            ..cfg.base
        },
        sigma_force: S::spec_splat(6, 100) * cfg.hover_force,
        ..cfg
    }
}

/// The cost of holding a point in rotor forces.
pub fn rotor_hover_cfg<S: Real>(mass: S) -> (r: RotorMppiConfig<S>)
    ensures
        r == spec_rotor_hover_cfg(mass),
{
    let mut cfg = rotor_race_cfg(mass);
    let mut base = cfg.base;
    base.w_vel = S::zero();
    base.gate_reward = S::zero();
    base.w_pos = S::splat(3, 1);
    base.w_vdamp = S::splat(8, 10);
    base.w_alt = S::zero();
    base.w_terminal = S::zero();
    base.lambda = S::splat(1, 1);
    cfg.base = base;
    cfg.sigma_force = S::splat(6, 100).mul(cfg.hover_force);
    cfg
}

// ---------------------------------------------------------------------------
// Weights by name
// ---------------------------------------------------------------------------
/// A weight of the racing cost that can be tuned while flying.
#[derive(Clone, Copy, Debug)]
pub enum RaceParam {
    WVel,
    WPos,
    WVdamp,
    WEffort,
    WAlt,
    WTerminal,
    GateReward,
    SigmaRate,
    SigmaThrust,
    RateMax,
    Beta,
    Lambda,
}

fn same_text(a: &str, b: &str) -> (r: bool)
    ensures
        r == (a@ == b@),
{
    a.to_owned().eq(&b.to_owned())
}

impl RaceParam {
    /// The weight of that name.
    pub open spec fn named(key: Seq<char>) -> Option<Self> {
        if key == "w_vel"@ {
            Some(RaceParam::WVel)
        } else if key == "w_pos"@ {
            Some(RaceParam::WPos)
        } else if key == "w_vdamp"@ {
            Some(RaceParam::WVdamp)
        } else if key == "w_effort"@ {
            Some(RaceParam::WEffort)
        } else if key == "w_alt"@ {
            Some(RaceParam::WAlt)
        } else if key == "w_terminal"@ {
            Some(RaceParam::WTerminal)
        } else if key == "gate_reward"@ {
            Some(RaceParam::GateReward)
        } else if key == "sigma_rate"@ {
            Some(RaceParam::SigmaRate)
        } else if key == "sigma_thrust"@ {
            Some(RaceParam::SigmaThrust)
        } else if key == "rate_max"@ {
            Some(RaceParam::RateMax)
        } else if key == "beta"@ {
            Some(RaceParam::Beta)
        } else if key == "lambda"@ {
            Some(RaceParam::Lambda)
        } else {
            None
        }
    }

    /// The weight of that name.
    pub fn from_name(key: &str) -> (r: Option<Self>)
        ensures
            r == Self::named(key@),
    {
        if same_text(key, "w_vel") {
            Some(RaceParam::WVel)
        } else if same_text(key, "w_pos") {
            Some(RaceParam::WPos)
        } else if same_text(key, "w_vdamp") {
            Some(RaceParam::WVdamp)
        } else if same_text(key, "w_effort") {
            Some(RaceParam::WEffort)
        } else if same_text(key, "w_alt") {
            Some(RaceParam::WAlt)
        } else if same_text(key, "w_terminal") {
            Some(RaceParam::WTerminal)
        } else if same_text(key, "gate_reward") {
            Some(RaceParam::GateReward)
        } else if same_text(key, "sigma_rate") {
            Some(RaceParam::SigmaRate)
        } else if same_text(key, "sigma_thrust") {
            Some(RaceParam::SigmaThrust)
        } else if same_text(key, "rate_max") {
            Some(RaceParam::RateMax)
        } else if same_text(key, "beta") {
            Some(RaceParam::Beta)
        } else if same_text(key, "lambda") {
            Some(RaceParam::Lambda)
        } else {
            None
        }
    }

    /// The configuration with this weight set. The deviation on thrust is a fraction of
    /// the weight of a drone of this mass; smoothing and temperature are kept in range.
    pub open spec fn spec_set<S: Real>(self, c: MppiConfig<S>, mass: S, val: S) -> MppiConfig<S> {
        match self {
            RaceParam::WVel => MppiConfig { w_vel: val, ..c },
            RaceParam::WPos => MppiConfig { w_pos: val, ..c },
            RaceParam::WVdamp => MppiConfig { w_vdamp: val, ..c },
            RaceParam::WEffort => MppiConfig { w_effort: val, ..c },
            RaceParam::WAlt => MppiConfig { w_alt: val, ..c },
            RaceParam::WTerminal => MppiConfig { w_terminal: val, ..c },
            RaceParam::GateReward => MppiConfig { gate_reward: val, ..c },
            RaceParam::SigmaRate => MppiConfig { sigma_rate: val, ..c },
            RaceParam::SigmaThrust => MppiConfig {
                sigma_thrust: val * mass * crate::params::spec_gravity::<S>(),
                ..c
            },
            RaceParam::RateMax => MppiConfig { rate_max: val, ..c },
            RaceParam::Beta => MppiConfig {
                beta: crate::scalar::spec_clip(val, S::spec_zero(), S::spec_splat(98, 100)),
                ..c
            },
            RaceParam::Lambda => MppiConfig {
                lambda: val.spec_max(S::spec_splat(1, 1000)),
                ..c
            },
        }
    }

    /// Set this weight.
    pub fn set<S: Real>(self, c: &mut MppiConfig<S>, mass: S, val: S)
        ensures
            *final(c) == self.spec_set(*old(c), mass, val),
    {
        match self {
            RaceParam::WVel => {
                c.w_vel = val;
            },
            RaceParam::WPos => {
                c.w_pos = val;
            },
            RaceParam::WVdamp => {
                c.w_vdamp = val;
            },
            RaceParam::WEffort => {
                c.w_effort = val;
            },
            RaceParam::WAlt => {
                c.w_alt = val;
            },
            RaceParam::WTerminal => {
                c.w_terminal = val;
            },
            RaceParam::GateReward => {
                c.gate_reward = val;
            },
            RaceParam::SigmaRate => {
                c.sigma_rate = val;
            },
            RaceParam::SigmaThrust => {
                c.sigma_thrust = val.mul(mass).mul(gravity::<S>());
            },
            RaceParam::RateMax => {
                c.rate_max = val;
            },
            RaceParam::Beta => {
                c.beta = clip(val, S::zero(), S::splat(98, 100));
            },
            RaceParam::Lambda => {
                c.lambda = val.max(S::splat(1, 1000));
            },
        }
    }

    /// The value of this weight.
    pub open spec fn spec_read<S: Real>(self, c: MppiConfig<S>, mass: S) -> S {
        match self {
            RaceParam::WVel => c.w_vel,
            RaceParam::WPos => c.w_pos,
            RaceParam::WVdamp => c.w_vdamp,
            RaceParam::WEffort => c.w_effort,
            RaceParam::WAlt => c.w_alt,
            RaceParam::WTerminal => c.w_terminal,
            RaceParam::GateReward => c.gate_reward,
            RaceParam::SigmaRate => c.sigma_rate,
            RaceParam::SigmaThrust => c.sigma_thrust / (mass
                * crate::params::spec_gravity::<S>()),
            RaceParam::RateMax => c.rate_max,
            RaceParam::Beta => c.beta,
            RaceParam::Lambda => c.lambda,
        }
    }

    /// The value of this weight.
    pub fn read<S: Real>(self, c: &MppiConfig<S>, mass: S) -> (r: S)
        ensures
            r == self.spec_read(*c, mass),
    {
        match self {
            RaceParam::WVel => c.w_vel,
            RaceParam::WPos => c.w_pos,
            RaceParam::WVdamp => c.w_vdamp,
            RaceParam::WEffort => c.w_effort,
            RaceParam::WAlt => c.w_alt,
            RaceParam::WTerminal => c.w_terminal,
            RaceParam::GateReward => c.gate_reward,
            RaceParam::SigmaRate => c.sigma_rate,
            RaceParam::SigmaThrust => c.sigma_thrust.div(mass.mul(gravity::<S>())),
            RaceParam::RateMax => c.rate_max,
            RaceParam::Beta => c.beta,
            RaceParam::Lambda => c.lambda,
        }
    }
}

/// A weight that was set reads back: as it was given, or, for the two that are kept in
/// range, as the value in range.
pub proof fn law_weight_reads_back<S: Real>(p: RaceParam, c: MppiConfig<S>, mass: S, val: S)
    requires
        crate::scalar::exact::<S>(),
        mass.val() > 0real,
    ensures
        p.spec_read(p.spec_set(c, mass, val), mass).val() == match p {
            RaceParam::Beta => crate::scalar::spec_clip(
                val,
                S::spec_zero(),
                S::spec_splat(98, 100),
            ).val(),
            RaceParam::Lambda => val.spec_max(S::spec_splat(1, 1000)).val(),
            _ => val.val(),
        },
{
    if p is SigmaThrust {
        crate::scalar::lemma_splat_fraction::<S>(981, 100);
        let (v, m, g) = (val.val(), mass.val(), crate::params::spec_gravity::<S>().val());
        assert(m * g > 0real) by (nonlinear_arith)
            requires
                m > 0real,
                g > 0real,
        ;
        assert(v * m * g / (m * g) == v) by (nonlinear_arith)
            requires
                m * g > 0real,
        ;
    }
}

// ---------------------------------------------------------------------------
// One racer
// ---------------------------------------------------------------------------
/// The altitude at which a race starts: below the gates, so that the drone climbs.
pub open spec fn spec_start_z<S: Scalar>() -> S {
    S::spec_splat(15, 10)
}

/// The course of a drone that holds the point `p`, but not at the ground: one gate there.
pub open spec fn holds<S: Real>(c: Course<S>, p: Vec3<S>) -> bool {
    let (z, one) = (S::spec_zero(), S::spec_one());
    &&& c.gates@ == seq![
        Gate::spec_new(
            Vec3 { z: p.z.spec_max(S::spec_splat(13, 10)), ..p },
            Vec3 { x: one, y: z, z },
            one,
        ),
    ]
    &&& c.next == 0
    &&& c.laps_completed == 0
    &&& !c.loop_course
}

/// A course of one gate at `p`, to hold position there.
pub fn hover_course<S: Real>(p: Vec3<S>) -> (c: Course<S>)
    ensures
        holds(c, p),
{
    let hp = Vec3::new(p.x, p.y, p.z.max(S::splat(13, 10)));
    let (z, one) = (S::zero(), S::one());
    let mut gates: Vec<Gate<S>> = Vec::new();
    gates.push(Gate::new(hp, Vec3::new(one, z, z), one));
    let c = Course::new(gates, false);
    assert(c.gates@ =~= seq![
        Gate::spec_new(
            Vec3 { z: p.z.spec_max(S::spec_splat(13, 10)), ..p },
            Vec3 { x: S::spec_one(), y: S::spec_zero(), z: S::spec_zero() },
            S::spec_one(),
        ),
    ]);
    c
}

/// A drone in the race and its progress.
pub struct Entrant<S> {
    pub state: State<S>,
    pub course: Course<S>,
    /// It has finished, and holds its place.
    pub done: bool,
    pub wins: usize,
    /// How often it had to be put back into the air in this race.
    pub respawns: usize,
}

impl<S: Real> Entrant<S> {
    /// The course can be flown and counted.
    pub open spec fn wf(self) -> bool {
        &&& self.course.wf()
        &&& !self.course.loop_course
        &&& self.course.laps_completed == 0
        &&& self.course.gates@.len() <= NUM_GATES
        &&& self.course.next <= self.course.gates@.len()
    }

    /// Flying on to `next` passes the last gate of the course.
    pub open spec fn finishes(self, next: State<S>) -> bool {
        !self.done && self.course.spec_advance(self.state.x, next.x).spec_finished()
    }

    /// What flying on to `next` does: progress counts until the course is finished, and
    /// the drone then holds its place.
    pub open spec fn flown(before: Self, after: Self, next: State<S>) -> bool {
        &&& after.state == next
        &&& after.respawns == before.respawns
        &&& after.done == (before.done || before.finishes(next))
        &&& after.wins == before.wins + if before.finishes(next) {
            1int
        } else {
            0int
        }
        &&& if before.done {
            after.course == before.course
        } else if before.finishes(next) {
            holds(after.course, next.x)
        } else {
            after.course == before.course.spec_advance(before.state.x, next.x)
        }
    }

    /// Ready on the first gate of a course, hovering.
    pub open spec fn starts(self, input: QuadParamsInput<S>, gates: Seq<Gate<S>>) -> bool {
        let z = S::spec_zero();
        &&& self.state == crate::drone::spec_hover_state(input, z, z, spec_start_z::<S>())
        &&& self.course.gates@ == gates
        &&& self.course.next == 0
        &&& self.course.laps_completed == 0
        &&& !self.course.loop_course
        &&& !self.done
        &&& self.respawns == 0
    }

    /// Put the drone on the first gate of a course, hovering.
    fn start(&mut self, input: &QuadParamsInput<S>, gates: &Vec<Gate<S>>)
        ensures
            final(self).starts(*input, gates@),
            final(self).wins == old(self).wins,
    {
        let z = S::zero();
        self.state = hover_state(input, z, z, S::splat(15, 10));
        self.course = Course::new(copy_vec(gates), false);
        self.done = false;
        self.respawns = 0;
    }

    /// Fly on to `next`; true if that finishes the course.
    pub fn fly_to(&mut self, next: State<S>) -> (r: bool)
        requires
            old(self).wf(),
            old(self).wins < usize::MAX,
        ensures
            r == old(self).finishes(next),
            Self::flown(*old(self), *final(self), next),
            final(self).wf(),
    {
        let prev = self.state.x;
        self.state = next;
        if self.done {
            return false;
        }
        proof {
            crate::gates::law_advance_counts_one_gate(self.course, prev, next.x);
        }
        let _ = self.course.advance(prev, next.x);
        if !self.course.finished() {
            return false;
        }
        self.done = true;
        self.wins = self.wins + 1;
        self.course = hover_course(next.x);
        true
    }

    /// The drone has hit the floor, or its state is beyond use.
    pub open spec fn crashed(self) -> bool {
        let z = self.state.x.z;
        !self.done && (!z.spec_is_finite() || z < S::spec_splat(15, 100))
    }

    /// Where a crashed drone is put back: above the place of the crash, inside the arena.
    pub open spec fn respawn_state(self, input: QuadParamsInput<S>) -> State<S> {
        let p = self.state.x;
        let z = S::spec_zero();
        crate::drone::spec_hover_state(
            input,
            if p.x.spec_is_finite() {
                crate::scalar::spec_clip(p.x, z, S::spec_splat(11, 1))
            } else {
                z
            },
            if p.y.spec_is_finite() {
                crate::scalar::spec_clip(p.y, S::spec_splat(-4, 1), S::spec_splat(4, 1))
            } else {
                z
            },
            spec_start_z::<S>(),
        )
    }

    /// The drone after the safety net: put back into the air if it crashed.
    pub open spec fn netted(self, input: QuadParamsInput<S>) -> Self {
        if self.crashed() {
            Entrant {
                state: self.respawn_state(input),
                respawns: (self.respawns + 1) as usize,
                ..self
            }
        } else {
            self
        }
    }

    /// Put the drone back into the air if it crashed.
    pub fn respawn(&mut self, input: &QuadParamsInput<S>) -> (r: bool)
        requires
            old(self).respawns < usize::MAX,
        ensures
            r == old(self).crashed(),
            *final(self) == old(self).netted(*input),
    {
        let p = self.state.x;
        if self.done || (p.z.is_finite() && !p.z.lt(S::splat(15, 100))) {
            return false;
        }
        self.respawns = self.respawns + 1;
        let z = S::zero();
        let x = if p.x.is_finite() {
            clip(p.x, z, S::splat(11, 1))
        } else {
            z
        };
        let y = if p.y.is_finite() {
            clip(p.y, S::splat(-4, 1), S::splat(4, 1))
        } else {
            z
        };
        self.state = hover_state(input, x, y, S::splat(15, 10));
        true
    }
}

/// A drone is put back inside the arena.
pub proof fn law_respawn_in_arena<S: Real>(e: Entrant<S>, input: QuadParamsInput<S>)
    requires
        crate::scalar::exact::<S>(),
    ensures
        ({
            let x = e.respawn_state(input).x;
            &&& 0real <= x.x.val() <= 11real
            &&& -4real <= x.y.val() <= 4real
            &&& x.z.val() == 15real / 10real
        }),
{
    crate::scalar::lemma_splat_int::<S>(11);
    crate::scalar::lemma_splat_int::<S>(4);
    crate::scalar::lemma_splat_int::<S>(-4);
    crate::scalar::lemma_splat_fraction::<S>(15, 10);
    let p = e.state.x;
    assert(S::spec_zero() <= S::spec_splat(11, 1));
    assert(S::spec_splat(-4, 1) <= S::spec_splat(4, 1));
    crate::scalar::law_clip_in_bounds(p.x, S::spec_zero(), S::spec_splat(11, 1));
    crate::scalar::law_clip_in_bounds(p.y, S::spec_splat(-4, 1), S::spec_splat(4, 1));
    let (cx, cy) = (
        crate::scalar::spec_clip(p.x, S::spec_zero(), S::spec_splat(11, 1)),
        crate::scalar::spec_clip(p.y, S::spec_splat(-4, 1), S::spec_splat(4, 1)),
    );
    assert((S::spec_zero() <= cx) <==> 0real <= cx.val());
    assert((cx <= S::spec_splat(11, 1)) <==> cx.val() <= 11real);
    assert((S::spec_splat(-4, 1) <= cy) <==> -4real <= cy.val());
    assert((cy <= S::spec_splat(4, 1)) <==> cy.val() <= 4real);
}

/// Once finished, a drone stays finished and its wins count no further.
pub proof fn law_done_is_final<S: Real>(a: Entrant<S>, b: Entrant<S>, next: State<S>)
    requires
        a.done,
        Entrant::flown(a, b, next),
    ensures
        b.done,
        b.wins == a.wins,
        b.course == a.course,
{
}

// ---------------------------------------------------------------------------
// Driving
// ---------------------------------------------------------------------------
/// Drive one planner in thrust and body rates for a step; the executed action. On the
/// finish it takes on the cost `hover`.
pub fn drive_drone<S: Real, M: RolloutModel<S>>(
    ctrl: &mut MppiController<S, M>,
    e: &mut Entrant<S>,
    reality: &Multirotor<S, Ctbr>,
    dt: S,
    hover: &MppiConfig<S>,
) -> (r: CtbrCmd<S>)
    requires
        old(ctrl).ready(old(e).state, old(e).course),
        old(e).wf(),
        old(e).wins < usize::MAX,
    ensures
        r == old(ctrl).spec_act(old(e).state, old(e).course),
        Entrant::flown(*old(e), *final(e), reality.spec_step(old(e).state, r, dt)),
        final(e).wf(),
        M::spec_observed(old(ctrl).model, final(ctrl).model, old(e).state, r),
        final(ctrl).model.wf(),
        final(ctrl).nominal@ == crate::sampling::spec_shift(
            old(ctrl).nominal@,
            old(ctrl).spec_plan(old(e).state, old(e).course),
            old(ctrl).cfg.spec_hover(),
        ),
        final(ctrl).rng@ == crate::sampling::after_normals(
            old(ctrl).rng@,
            4 * old(ctrl).cfg.horizon as nat * old(ctrl).cfg.samples as nat,
        ),
        final(ctrl).cfg == if old(e).finishes(reality.spec_step(old(e).state, r, dt)) {
            *hover
        } else {
            old(ctrl).cfg
        },
{
    let a = ctrl.act(&e.state, &e.course);
    let prev = e.state;
    let next = reality.step(&prev, &a, dt);
    ctrl.observe(&prev, &a);
    if e.fly_to(next) {
        ctrl.cfg = *hover;
    }
    a
}

/// Drive the policy for a step in thrust and body rates.
pub fn drive_rl<S: Wide>(
    ctrl: &mut RlPolicy<S>,
    e: &mut Entrant<S>,
    reality: &Multirotor<S, Ctbr>,
    dt: S,
)
    requires
        old(ctrl).wf(),
        old(e).wf(),
        old(e).wins < usize::MAX,
    ensures
        *final(ctrl) == *old(ctrl),
        Entrant::flown(
            *old(e),
            *final(e),
            reality.spec_step(
                old(e).state,
                old(ctrl).spec_act(old(e).state, old(e).course),
                dt,
            ),
        ),
        final(e).wf(),
{
    let a = ctrl.act(&e.state, &e.course);
    let next = reality.step(&e.state, &a, dt);
    let _ = e.fly_to(next);
}

/// Drive the policy for a step in rotor forces.
pub fn drive_rl_rotor<S: Wide>(
    ctrl: &mut RlPolicy<S>,
    e: &mut Entrant<S>,
    reality: &Multirotor<S, RotorForce>,
    dt: S,
)
    requires
        old(ctrl).wf(),
        old(e).wf(),
        old(e).wins < usize::MAX,
    ensures
        *final(ctrl) == *old(ctrl),
        Entrant::flown(
            *old(e),
            *final(e),
            reality.spec_step(
                old(e).state,
                crate::rl::spec_forces_of(
                    old(ctrl).spec_answer(old(e).state, old(e).course),
                    old(ctrl).hover_thrust,
                    old(ctrl).f_max,
                ),
                dt,
            ),
        ),
        final(e).wf(),
{
    let a = ctrl.act_rotor(&e.state, &e.course);
    let next = reality.step(&e.state, &a, dt);
    let _ = e.fly_to(next);
}

/// Drive the planner in rotor forces for a step. On the finish it takes on the cost
/// `hover`.
pub fn drive_rotor<S: Wide>(
    ctrl: &mut RotorMppiController<S>,
    e: &mut Entrant<S>,
    reality: &Multirotor<S, RotorForce>,
    dt: S,
    hover: &RotorMppiConfig<S>,
)
    requires
        old(ctrl).wf(),
        old(e).course.next + old(ctrl).cfg.base.horizon <= usize::MAX,
        old(e).wf(),
        old(e).wins < usize::MAX,
    ensures
        ({
            let a = old(ctrl).spec_plan(old(e).state, old(e).course)[0];
            let next = reality.spec_step(old(e).state, a, dt);
            &&& Entrant::flown(*old(e), *final(e), next)
            &&& crate::rollout::History::spec_observed(
                old(ctrl).model.history,
                final(ctrl).model.history,
                old(e).state,
                a,
            )
            &&& final(ctrl).cfg == if old(e).finishes(next) {
                *hover
            } else {
                old(ctrl).cfg
            }
        }),
        final(e).wf(),
        final(ctrl).model.model == old(ctrl).model.model,
        final(ctrl).nominal@ == crate::sampling::spec_shift(
            old(ctrl).nominal@,
            old(ctrl).spec_plan(old(e).state, old(e).course),
            old(ctrl).cfg.spec_hover(),
        ),
        final(ctrl).rng@ == crate::sampling::after_normals(
            old(ctrl).rng@,
            4 * old(ctrl).cfg.base.horizon as nat * old(ctrl).cfg.base.samples as nat,
        ),
{
    let a = ctrl.act(&e.state, &e.course);
    let prev = e.state;
    let next = reality.step(&prev, &a, dt);
    ctrl.observe(&prev, a);
    if e.fly_to(next) {
        ctrl.cfg = *hover;
    }
}

// ---------------------------------------------------------------------------
// The race
// ---------------------------------------------------------------------------
/// Integration substeps of the dynamics, and of the rollouts over them: the rate loop is
/// stiff.
pub const ROLLOUT_NSUB: usize = 8;

/// How long a race goes on after the first finish: 10 s at 20 Hz.
pub const FIRST_FINISH_ADVANCE_STEPS: usize = 200;

/// How long a race may take: 35 s at 20 Hz.
pub const MAX_RACE_STEPS: usize = 700;

pub struct WasmRacer<S: Wide> {
    pub input: QuadParamsInput<S>,
    pub reality: Multirotor<S, Ctbr>,
    pub reality_rf: Multirotor<S, RotorForce>,
    pub dt: S,
    pub rng: Rng,
    /// The seed that gives the whole sequence of drones and courses.
    pub seed: u64,
    /// The planner over the true dynamics.
    pub ctrl: MppiController<S, TrueDynamics<S>>,
    pub truth: Entrant<S>,
    /// The racing cost as tuned.
    pub race: MppiConfig<S>,
    /// The policy.
    pub rl_ctrl: RlPolicy<S>,
    pub rl: Entrant<S>,
    /// The planner over the learned model, in rotor forces.
    pub rf_ctrl: RotorMppiController<S>,
    pub rf: Entrant<S>,
    pub rf_race: RotorMppiConfig<S>,
    /// The gates of the race; a drone that has finished has a course of its own.
    pub race_gates: Vec<Gate<S>>,
    /// Steps since the first finish.
    pub idle_left: usize,
    pub race_steps: usize,
    /// Draw another drone for each race.
    pub randomize: bool,
    /// Thrust gain of each rotor.
    pub rotor_gain: [S; NUM_ROTORS],
}

impl<S: Wide> WasmRacer<S> {
    /// The controllers fit their models, and the courses can be flown.
    pub open spec fn fit(self) -> bool {
        &&& self.ctrl.cfg.horizon == 25
        &&& self.race.horizon == 25
        &&& self.ctrl.nominal@.len() == 25
        &&& self.rl_ctrl.wf()
        &&& self.rf_ctrl.model.ready()
        &&& self.rf_ctrl.cfg.base.horizon == 12
        &&& self.rf_race.base.horizon == 12
        &&& self.rf_ctrl.nominal@.len() == 12
        &&& self.truth.wf()
        &&& self.rl.wf()
        &&& self.rf.wf()
        &&& self.race_gates@.len() <= NUM_GATES
    }

    /// The race clock is in range, and there were at most `slack` more respawns than steps.
    pub open spec fn in_time(self, slack: nat) -> bool {
        &&& self.rl.respawns <= self.race_steps + slack
        &&& self.rf.respawns <= self.race_steps + slack
        &&& self.race_steps <= MAX_RACE_STEPS
        &&& self.idle_left <= FIRST_FINISH_ADVANCE_STEPS
    }

    /// The race can go on.
    pub open spec fn wf(self) -> bool {
        self.fit() && self.in_time(0)
    }

    /// No limit of a planner lies on the wrong side of its partner.
    pub open spec fn spec_limits_ok(self) -> bool {
        self.ctrl.cfg.bounded() && self.rf_ctrl.cfg.f_min <= self.rf_ctrl.cfg.f_max
    }

    /// The wins can be counted on.
    pub open spec fn can_win(self) -> bool {
        &&& self.truth.wins < usize::MAX
        &&& self.rl.wins < usize::MAX
        &&& self.rf.wins < usize::MAX
    }

    /// The dynamics are those of the drone, with its rotor gains.
    pub open spec fn built(self) -> bool {
        let p = crate::params::QuadParams {
            rotor_gain: self.rotor_gain,
            ..crate::params::QuadParams::spec_from_input(self.input)
        };
        &&& self.reality.params == p
        &&& self.reality.n_sub == ROLLOUT_NSUB
        &&& self.reality_rf.params == p
        &&& self.reality_rf.n_sub == ROLLOUT_NSUB
        &&& self.ctrl.model.veh.params == p
        &&& self.ctrl.model.veh.n_sub == ROLLOUT_NSUB
    }

    /// The strongest force of one rotor of the drone.
    pub open spec fn strongest(self) -> S {
        self.input.k_eta * self.input.rotor_speed_max * self.input.rotor_speed_max
    }

    /// What a change of the drone does: dynamics and thrust scales follow it.
    pub open spec fn applied(before: Self, after: Self) -> bool {
        let m = before.input.mass;
        let (fr, rf) = (spec_race_cfg(m), spec_rotor_race_cfg(m));
        &&& after.built()
        &&& after == (WasmRacer {
            race: MppiConfig {
                hover_thrust: fr.hover_thrust,
                thrust_min: fr.thrust_min,
                thrust_max: fr.thrust_max,
                ..before.race
            },
            rl_ctrl: RlPolicy {
                hover_thrust: m * crate::params::spec_gravity::<S>(),
                f_max: before.strongest(),
                ..before.rl_ctrl
            },
            rf_race: RotorMppiConfig {
                hover_force: rf.hover_force,
                f_max: rf.f_max,
                sigma_force: rf.sigma_force,
                ..before.rf_race
            },
            rf_ctrl: RotorMppiController {
                cfg: RotorMppiConfig {
                    hover_force: rf.hover_force,
                    f_max: rf.f_max,
                    sigma_force: rf.sigma_force,
                    ..before.rf_ctrl.cfg
                },
                ..before.rf_ctrl
            },
            reality: after.reality,
            reality_rf: after.reality_rf,
            ctrl: MppiController { model: after.ctrl.model, ..before.ctrl },
            ..before
        })
    }

    /// What restarting the race does: every drone is back at the start of the same
    /// course, and the planners have forgotten what they were about.
    pub open spec fn restarted(before: Self, after: Self) -> bool {
        &&& after == (WasmRacer {
            truth: after.truth,
            rl: after.rl,
            rf: after.rf,
            ctrl: MppiController {
                cfg: before.race,
                nominal: after.ctrl.nominal,
                ..before.ctrl
            },
            rf_ctrl: RotorMppiController {
                cfg: before.rf_race,
                nominal: after.rf_ctrl.nominal,
                model: after.rf_ctrl.model,
                ..before.rf_ctrl
            },
            idle_left: 0,
            race_steps: 0,
            ..before
        })
        &&& after.truth.starts(before.input, before.race_gates@)
        &&& after.rl.starts(before.input, before.race_gates@)
        &&& after.rf.starts(before.input, before.race_gates@)
        &&& after.truth.wins == before.truth.wins
        &&& after.rl.wins == before.rl.wins
        &&& after.rf.wins == before.rf.wins
        &&& after.ctrl.nominal@ == Seq::new(
            before.ctrl.nominal@.len(),
            |k: int| before.race.spec_hover(),
        )
        &&& Self::forgotten(before.rf_ctrl, after.rf_ctrl, before.rf_race)
    }

    /// The planner over the learned model is back at hover, its history gone.
    pub open spec fn forgotten(
        before: RotorMppiController<S>,
        after: RotorMppiController<S>,
        cfg: RotorMppiConfig<S>,
    ) -> bool {
        &&& after.nominal@ == Seq::new(before.nominal@.len(), |k: int| cfg.spec_hover())
        &&& after.model.model == before.model.model
        &&& after.model.history.h == before.model.history.h
        &&& after.model.history.t == before.model.history.t
        &&& after.model.history.padding == before.model.history.padding
        &&& after.model.history.states@.len() == 0
        &&& after.model.history.actions@.len() == 0
    }

    /// The race with another drone and other gates, before the drones are put to its start.
    pub open spec fn redrawn(before: Self, after: Self) -> bool {
        let s = before.rng@;
        if before.randomize {
            exists|drawn: Self|
                {
                    &&& drawn.input == spec_race_fleet::<S>().spec_drone(s)
                    &&& drawn.rotor_gain == spec_unit_gain::<S>()
                    &&& drawn.rng@ == crate::rl_env::after_uniforms(s, 55)
                    &&& drawn.race_gates@ == crate::rl_env::spec_sky_course::<S>(
                        crate::rl_env::after_uniforms(s, 10),
                    )
                    &&& drawn == (WasmRacer {
                        input: drawn.input,
                        rotor_gain: drawn.rotor_gain,
                        rng: drawn.rng,
                        race_gates: drawn.race_gates,
                        ..before
                    })
                    &&& #[trigger] Self::applied(drawn, after)
                }
        } else {
            &&& after == (WasmRacer { rng: after.rng, race_gates: after.race_gates, ..before })
            &&& after.rng@ == crate::rl_env::after_uniforms(s, 45)
            &&& after.race_gates@ == crate::rl_env::spec_sky_course::<S>(s)
        }
    }

    /// What starting another race does.
    pub open spec fn renewed(before: Self, after: Self) -> bool {
        exists|drawn: Self| Self::redrawn(before, drawn) && #[trigger] Self::restarted(drawn, after)
    }

    /// The cost at which the drone over the true dynamics holds its place.
    pub open spec fn hold_cfg(self) -> MppiConfig<S> {
        MppiConfig { samples: self.race.samples, ..spec_hover_cfg(self.input.mass) }
    }

    /// The cost at which the drone over the learned model holds its place; its damping of
    /// body rate and tilt is that of the race.
    pub open spec fn hold_rf_cfg(self) -> RotorMppiConfig<S> {
        let c = spec_rotor_hover_cfg(self.input.mass);
        RotorMppiConfig {
            base: MppiConfig { samples: self.rf_race.base.samples, ..c.base },
            w_omega: self.rf_race.w_omega,
            w_tilt: self.rf_race.w_tilt,
            ..c
        }
    }

    /// The command of the drone over the true dynamics.
    pub open spec fn true_cmd(self) -> CtbrCmd<S> {
        self.ctrl.spec_act(self.truth.state, self.truth.course)
    }

    /// Where the step takes the drone over the true dynamics.
    pub open spec fn true_next(self) -> State<S> {
        self.reality.spec_step(self.truth.state, self.true_cmd(), self.dt)
    }

    /// Where the step takes the drone of the policy.
    pub open spec fn rl_next(self) -> State<S> {
        self.reality_rf.spec_step(
            self.rl.state,
            crate::rl::spec_forces_of(
                self.rl_ctrl.spec_answer(self.rl.state, self.rl.course),
                self.rl_ctrl.hover_thrust,
                self.rl_ctrl.f_max,
            ),
            self.dt,
        )
    }

    /// The rotor forces of the drone over the learned model.
    pub open spec fn rf_forces(self) -> [S; NUM_ROTORS] {
        self.rf_ctrl.spec_plan(self.rf.state, self.rf.course)[0]
    }

    /// Where the step takes the drone over the learned model.
    pub open spec fn rf_next(self) -> State<S> {
        self.reality_rf.spec_step(self.rf.state, self.rf_forces(), self.dt)
    }

    /// What flying every drone for a step does.
    pub open spec fn all_flown(before: Self, after: Self) -> bool {
        &&& after == (WasmRacer {
            ctrl: after.ctrl,
            truth: after.truth,
            rl: after.rl,
            rf_ctrl: after.rf_ctrl,
            rf: after.rf,
            ..before
        })
        &&& Entrant::flown(before.truth, after.truth, before.true_next())
        &&& Entrant::flown(before.rl, after.rl, before.rl_next())
        &&& Entrant::flown(before.rf, after.rf, before.rf_next())
        &&& after.ctrl.model == before.ctrl.model
        &&& after.ctrl.nominal@ == crate::sampling::spec_shift(
            before.ctrl.nominal@,
            before.ctrl.spec_plan(before.truth.state, before.truth.course),
            before.ctrl.cfg.spec_hover(),
        )
        &&& after.ctrl.rng@ == crate::sampling::after_normals(
            before.ctrl.rng@,
            4 * before.ctrl.cfg.horizon as nat * before.ctrl.cfg.samples as nat,
        )
        &&& after.ctrl.cfg == if before.truth.finishes(before.true_next()) {
            before.hold_cfg()
        } else {
            before.ctrl.cfg
        }
        &&& crate::rollout::History::spec_observed(
            before.rf_ctrl.model.history,
            after.rf_ctrl.model.history,
            before.rf.state,
            before.rf_forces(),
        )
        &&& after.rf_ctrl.model.model == before.rf_ctrl.model.model
        &&& after.rf_ctrl.nominal@ == crate::sampling::spec_shift(
            before.rf_ctrl.nominal@,
            before.rf_ctrl.spec_plan(before.rf.state, before.rf.course),
            before.rf_ctrl.cfg.spec_hover(),
        )
        &&& after.rf_ctrl.rng@ == crate::sampling::after_normals(
            before.rf_ctrl.rng@,
            4 * before.rf_ctrl.cfg.base.horizon as nat
                * before.rf_ctrl.cfg.base.samples as nat,
        )
        &&& after.rf_ctrl.cfg == if before.rf.finishes(before.rf_next()) {
            before.hold_rf_cfg()
        } else {
            before.rf_ctrl.cfg
        }
    }

    /// What the safety net does: a crashed drone of the policy or the learned model is put
    /// back into the air, and the planner over the learned model then starts afresh.
    pub open spec fn all_netted(before: Self, after: Self) -> bool {
        &&& after == (WasmRacer {
            rl: before.rl.netted(before.input),
            rf: before.rf.netted(before.input),
            rf_ctrl: after.rf_ctrl,
            ..before
        })
        &&& if before.rf.crashed() {
            &&& Self::forgotten(before.rf_ctrl, after.rf_ctrl, before.rf_ctrl.cfg)
            &&& after.rf_ctrl.cfg == before.rf_ctrl.cfg
            &&& after.rf_ctrl.rng == before.rf_ctrl.rng
        } else {
            after.rf_ctrl == before.rf_ctrl
        }
    }

    /// The first of the two learned racers has finished.
    pub open spec fn first_done(self) -> bool {
        self.rl.done || self.rf.done
    }

    /// The race with its counters moved on by a step.
    pub open spec fn ticked(self) -> Self {
        WasmRacer {
            race_steps: (self.race_steps + 1) as usize,
            idle_left: (self.idle_left + if self.first_done() {
                1int
            } else {
                0int
            }) as usize,
            ..self
        }
    }

    /// The race is over: some time ago one of the learned racers finished, or the time is
    /// up.
    pub open spec fn over(self) -> bool {
        self.first_done() && self.idle_left > FIRST_FINISH_ADVANCE_STEPS || self.race_steps
            > MAX_RACE_STEPS
    }

    /// What the race clock does: a race that is over is followed by another one.
    pub open spec fn paced(before: Self, after: Self) -> bool {
        if before.ticked().over() {
            Self::renewed(before.ticked(), after)
        } else {
            after == before.ticked()
        }
    }

    /// What a step does: every drone is flown, caught where it crashed, and the clock runs.
    pub open spec fn stepped(before: Self, after: Self) -> bool {
        exists|flown: Self, safe: Self|
            #![trigger Self::all_flown(before, flown), Self::all_netted(flown, safe)]
            Self::all_flown(before, flown) && Self::all_netted(flown, safe) && Self::paced(
                safe,
                after,
            )
    }

    /// A race drawn by the seed, on the start.
    pub fn new(seed: u64, policy: RlPolicy<S>, model: SkyJepaLite<S>) -> (r: Self)
        requires
            policy.wf(),
            model.wf(),
            model.h + model.t <= usize::MAX,
        ensures
            r.wf(),
            ({
                let s = crate::rng::spec_seed(seed | 1);
                let input = spec_race_fleet::<S>().spec_drone(s);
                let gates = crate::rl_env::spec_sky_course::<S>(
                    crate::rl_env::after_uniforms(s, 10),
                );
                &&& r.input == input
                &&& r.race_gates@ == gates
                &&& r.rng@ == crate::rl_env::after_uniforms(s, 55)
                &&& r.truth.starts(input, gates)
                &&& r.rl.starts(input, gates)
                &&& r.rf.starts(input, gates)
                &&& r.race == spec_race_cfg(input.mass)
                &&& r.rf_race == spec_rotor_race_cfg(input.mass)
                &&& r.rl_ctrl == (RlPolicy {
                    hover_thrust: input.mass * crate::params::spec_gravity::<S>(),
                    f_max: r.strongest(),
                    ..policy
                })
            }),
            r.truth.wins == 0,
            r.rl.wins == 0,
            r.rf.wins == 0,
            r.built(),
            r.ctrl.cfg == r.race,
            r.ctrl.nominal@ == Seq::new(25, |k: int| r.race.spec_hover()),
            r.ctrl.rng@ == crate::rng::spec_seed(42),
            r.rf_ctrl.cfg == r.rf_race,
            r.rf_ctrl.model.model == model,
            r.rf_ctrl.model.history.states@.len() == 0,
            r.rf_ctrl.model.history.actions@.len() == 0,
            r.rf_ctrl.nominal@ == Seq::new(12, |k: int| r.rf_race.spec_hover()),
            r.rf_ctrl.rng@ == crate::rng::spec_seed(11),
            r.dt == S::spec_splat(5, 100),
            r.seed == seed,
            r.idle_left == 0,
            r.race_steps == 0,
            r.randomize,
            r.rotor_gain == spec_unit_gain::<S>(),
    {
        let mut rng = Rng::new(seed | 1);
        let (input, rotor_gain) = sample_drone::<S>(&mut rng);
        let race = race_cfg(input.mass);
        let mut ctrl = MppiController::new(TrueDynamics::new(&input, ROLLOUT_NSUB), race, 42);
        ctrl.model.veh.set_rotor_gain(rotor_gain);
        let mut rl_ctrl = policy;
        rl_ctrl.set_mass(input.mass);
        rl_ctrl.set_f_max(input.k_eta.mul(input.rotor_speed_max).mul(input.rotor_speed_max));
        let rf_race = rotor_race_cfg(input.mass);
        let rf_ctrl = RotorMppiController::new(JepaRollout::new(model), rf_race, 11);
        let course = random_course::<S>(&mut rng);
        proof {
            crate::rl_env::lemma_after_uniforms_add(crate::rng::spec_seed(seed | 1), 10, 45);
        }
        let race_gates = copy_vec(&course.gates);
        let z = S::zero();
        let start = hover_state(&input, z, z, S::splat(15, 10));
        let mut reality = Multirotor::with_substeps(&input, ROLLOUT_NSUB);
        reality.set_rotor_gain(rotor_gain);
        let mut reality_rf = Multirotor::with_substeps(&input, ROLLOUT_NSUB);
        reality_rf.set_rotor_gain(rotor_gain);
        let course_rl = course.copy();
        let course_rf = course.copy();
        WasmRacer {
            input,
            reality,
            reality_rf,
            dt: S::splat(5, 100),
            rng,
            seed,
            ctrl,
            truth: Entrant { state: start, course, done: false, wins: 0, respawns: 0 },
            race,
            rl_ctrl,
            rl: Entrant { state: start, course: course_rl, done: false, wins: 0, respawns: 0 },
            rf_ctrl,
            rf: Entrant { state: start, course: course_rf, done: false, wins: 0, respawns: 0 },
            rf_race,
            race_gates,
            idle_left: 0,
            race_steps: 0,
            randomize: true,
            rotor_gain,
        }
    }

    /// Let dynamics and thrust scales follow a change of the drone.
    fn apply_input(&mut self)
        ensures
            Self::applied(*old(self), *final(self)),
    {
        let m = self.input.mass;
        let fr = race_cfg(m);
        self.race.hover_thrust = fr.hover_thrust;
        self.race.thrust_min = fr.thrust_min;
        self.race.thrust_max = fr.thrust_max;
        self.rl_ctrl.set_mass(m);
        let f_max = self.input.k_eta.mul(self.input.rotor_speed_max).mul(
            self.input.rotor_speed_max,
        );
        self.rl_ctrl.set_f_max(f_max);
        let rf = rotor_race_cfg(m);
        self.rf_race.hover_force = rf.hover_force;
        self.rf_race.f_max = rf.f_max;
        self.rf_race.sigma_force = rf.sigma_force;
        self.rf_ctrl.cfg.hover_force = rf.hover_force;
        self.rf_ctrl.cfg.f_max = rf.f_max;
        self.rf_ctrl.cfg.sigma_force = rf.sigma_force;
        self.reality = Multirotor::with_substeps(&self.input, ROLLOUT_NSUB);
        self.reality_rf = Multirotor::with_substeps(&self.input, ROLLOUT_NSUB);
        self.ctrl.model = TrueDynamics::new(&self.input, ROLLOUT_NSUB);
        self.reality.set_rotor_gain(self.rotor_gain);
        self.reality_rf.set_rotor_gain(self.rotor_gain);
        self.ctrl.model.veh.set_rotor_gain(self.rotor_gain);
    }

    /// Restart the race from hover on the same course.
    pub fn reset(&mut self)
        requires
            old(self).fit(),
        ensures
            final(self).wf(),
            Self::restarted(*old(self), *final(self)),
    {
        self.truth.start(&self.input, &self.race_gates);
        self.rl.start(&self.input, &self.race_gates);
        self.rf.start(&self.input, &self.race_gates);
        self.idle_left = 0;
        self.race_steps = 0;
        self.ctrl.cfg = self.race;
        self.ctrl.reset_nominal();
        self.rf_ctrl.cfg = self.rf_race;
        self.rf_ctrl.model.reset();
        self.rf_ctrl.reset_nominal();
    }

    /// Start another race: a fresh course, and another drone where that is asked for.
    fn new_shared_race(&mut self)
        requires
            old(self).fit(),
        ensures
            final(self).wf(),
            Self::renewed(*old(self), *final(self)),
    {
        let ghost s = self.rng@;
        let ghost before = *self;
        if self.randomize {
            let (input, gain) = sample_drone::<S>(&mut self.rng);
            self.input = input;
            self.rotor_gain = gain;
            proof {
                crate::rl_env::lemma_after_uniforms_add(s, 10, 45);
            }
            self.race_gates = sky_course(&mut self.rng);
            self.apply_input();
        } else {
            self.race_gates = sky_course(&mut self.rng);
        }
        let ghost drawn = *self;
        assert(Self::redrawn(before, drawn));
        self.reset();
        assert(Self::restarted(drawn, *self));
    }

    /// Whether no limit of a planner lies on the wrong side of its partner, so that the
    /// race can be stepped.
    pub fn limits_ok(&self) -> (r: bool)
        ensures
            r == self.spec_limits_ok(),
    {
        let c = &self.ctrl.cfg;
        c.thrust_min.le(c.thrust_max) && c.rate_max.neg().le(c.rate_max)
            && self.rf_ctrl.cfg.f_min.le(self.rf_ctrl.cfg.f_max)
    }

    /// Fly every drone for a step.
    #[verifier::rlimit(40)]
    fn fly(&mut self) -> (r: CtbrCmd<S>)
        requires
            old(self).wf(),
            old(self).spec_limits_ok(),
            old(self).can_win(),
        ensures
            r == old(self).true_cmd(),
            Self::all_flown(*old(self), *final(self)),
            final(self).wf(),
    {
        let mut hold = hover_cfg(self.input.mass);
        hold.samples = self.race.samples;
        let mut hold_rf = rotor_hover_cfg(self.input.mass);
        hold_rf.base.samples = self.rf_race.base.samples;
        hold_rf.w_omega = self.rf_race.w_omega;
        hold_rf.w_tilt = self.rf_race.w_tilt;
        let a = drive_drone(&mut self.ctrl, &mut self.truth, &self.reality, self.dt, &hold);
        drive_rl_rotor(&mut self.rl_ctrl, &mut self.rl, &self.reality_rf, self.dt);
        drive_rotor(&mut self.rf_ctrl, &mut self.rf, &self.reality_rf, self.dt, &hold_rf);
        a
    }

    /// Put crashed drones back into the air.
    fn net(&mut self)
        requires
            old(self).wf(),
        ensures
            Self::all_netted(*old(self), *final(self)),
            final(self).fit(),
            final(self).in_time(1),
    {
        if self.rf.respawn(&self.input) {
            self.rf_ctrl.model.reset();
            self.rf_ctrl.reset_nominal();
        }
        let _ = self.rl.respawn(&self.input);
    }

    /// Move the race clock on, and start another race where this one is over.
    fn pace(&mut self)
        requires
            old(self).fit(),
            old(self).in_time(1),
        ensures
            final(self).wf(),
            Self::paced(*old(self), *final(self)),
    {
        self.race_steps = self.race_steps + 1;
        let first_done = self.rl.done || self.rf.done;
        if first_done {
            self.idle_left = self.idle_left + 1;
        }
        if (first_done && self.idle_left > FIRST_FINISH_ADVANCE_STEPS) || self.race_steps
            > MAX_RACE_STEPS {
            self.new_shared_race();
        }
    }

    /// Advance one control step for all racers; the thrust of the drone over the true
    /// dynamics.
    pub fn step(&mut self) -> (r: S)
        requires
            old(self).wf(),
            old(self).spec_limits_ok(),
            old(self).can_win(),
        ensures
            final(self).wf(),
            r == old(self).true_cmd().thrust,
            Self::stepped(*old(self), *final(self)),
    {
        let a = self.fly();
        let ghost flown = *self;
        self.net();
        let ghost safe = *self;
        self.pace();
        assert(Self::all_flown(*old(self), flown) && Self::all_netted(flown, safe)
            && Self::paced(safe, *self));
        a.thrust
    }

    /// Draw another drone for each race, or not.
    pub fn set_randomize(&mut self, on: bool)
        ensures
            *final(self) == (WasmRacer { randomize: on, ..*old(self) }),
    {
        self.randomize = on;
    }

    /// The positions of the four rotors.
    pub fn drone_rotor_pos(&self) -> (r: Vec<S>)
        ensures
            r@.len() == 12,
            forall|i: int, j: int|
                0 <= i < 4 && 0 <= j < 3 ==> #[trigger] r@[3 * i + j]
                    == self.input.rotor_pos[i][j],
    {
        let p = self.input.rotor_pos;
        let a = [
            p[0][0], p[0][1], p[0][2],
            p[1][0], p[1][1], p[1][2],
            p[2][0], p[2][1], p[2][2],
            p[3][0], p[3][1], p[3][2],
        ];
        crate::drone::vec_of(&a)
    }

    pub fn drone_mass(&self) -> (r: S)
        ensures
            r == self.input.mass,
    {
        self.input.mass
    }

    /// Length of the first arm.
    pub fn drone_arm(&self) -> (r: S)
        ensures
            r == self.input.rotor_pos[0][0] * S::spec_splat(2, 1).spec_sqrt(),
    {
        self.input.rotor_pos[0][0].mul(S::splat(2, 1).sqrt())
    }

    /// The racing cost after a weight is set by name; an unknown name changes nothing.
    pub open spec fn tuned(self, key: Seq<char>, val: S) -> MppiConfig<S> {
        match RaceParam::named(key) {
            None => self.race,
            Some(p) => p.spec_set(self.race, self.input.mass, val),
        }
    }

    /// Set a weight of the racing cost by name. It applies at once while racing, and from
    /// the next race on otherwise.
    pub fn set_race_param(&mut self, key: &str, val: S)
        requires
            old(self).wf(),
        ensures
            final(self).wf(),
            *final(self) == (WasmRacer {
                race: old(self).tuned(key@, val),
                ctrl: MppiController {
                    cfg: if old(self).truth.done {
                        old(self).ctrl.cfg
                    } else {
                        old(self).tuned(key@, val)
                    },
                    ..old(self).ctrl
                },
                ..*old(self)
            }),
    {
        let mass = self.input.mass;
        if let Some(p) = RaceParam::from_name(key) {
            p.set(&mut self.race, mass, val);
        }
        if !self.truth.done {
            self.ctrl.cfg = self.race;
        }
    }

    /// A weight of the racing cost by name; NaN for an unknown name.
    pub fn race_param(&self, key: &str) -> (r: S)
        ensures
            r == match RaceParam::named(key@) {
                None => S::spec_nan(),
                Some(p) => p.spec_read(self.race, self.input.mass),
            },
    {
        match RaceParam::from_name(key) {
            None => S::nan(),
            Some(p) => p.read(&self.race, self.input.mass),
        }
    }

    /// The seed of the race: it gives the same sequence of courses again.
    pub fn seed(&self) -> (r: u64)
        ensures
            r == self.seed,
    {
        self.seed
    }

    pub fn wins(&self) -> (r: usize)
        ensures
            r == self.truth.wins,
    {
        self.truth.wins
    }

    /// The drone over the true dynamics holds its place at the finish.
    pub fn hovering(&self) -> (r: bool)
        ensures
            r == self.truth.done,
    {
        self.truth.done
    }

    /// The state of the drone over the true dynamics in 17 numbers.
    pub fn state(&self) -> (r: Vec<S>)
        ensures
            r@ == crate::drone::spec_state17(self.truth.state),
    {
        state17(&self.truth.state)
    }

    /// The gates of the race: centre, normal and radius of each.
    pub fn gates(&self) -> (r: Vec<S>)
        ensures
            r@ == spec_gate_numbers(self.race_gates@, self.race_gates@.len()),
    {
        let mut v: Vec<S> = Vec::new();
        for i in 0..self.race_gates.len()
            invariant
                v@ == spec_gate_numbers(self.race_gates@, i as nat),
        {
            let ghost was = v@;
            let g = self.race_gates[i];
            v.push(g.center.x);
            v.push(g.center.y);
            v.push(g.center.z);
            v.push(g.normal.x);
            v.push(g.normal.y);
            v.push(g.normal.z);
            v.push(g.radius);
            assert(v@ =~= was + spec_gate7(g));
        }
        v
    }

    /// Which gate to point out: that of the drone over the true dynamics while it races,
    /// then that of the one over the learned model.
    pub fn next_gate(&self) -> (r: usize)
        ensures
            ({
                let n = if self.truth.done {
                    self.rf.course.next
                } else {
                    self.truth.course.next
                };
                let last = if self.race_gates@.len() == 0 {
                    0
                } else {
                    self.race_gates@.len() - 1
                };
                r == if n < last {
                    n as int
                } else {
                    last
                }
            }),
    {
        let n: usize = if self.truth.done {
            self.rf.course.next
        } else {
            self.truth.course.next
        };
        let len: usize = self.race_gates.len();
        let last: usize = if len == 0 {
            0
        } else {
            len - 1
        };
        if n < last {
            n
        } else {
            last
        }
    }

    /// The gates that the drone over the true dynamics has passed.
    pub fn gates_passed(&self) -> (r: usize)
        requires
            self.truth.wf(),
        ensures
            r == self.truth.course.spec_gates_passed(),
    {
        self.truth.course.gates_passed()
    }

    /// The plans that the drone over the true dynamics weighs per step.
    pub fn true_samples(&self) -> (r: usize)
        ensures
            r == self.race.samples,
    {
        self.race.samples
    }

    /// Set that number, between 1 and 512.
    pub fn set_true_samples(&mut self, n: usize)
        requires
            old(self).wf(),
        ensures
            final(self).wf(),
            *final(self) == (WasmRacer {
                race: MppiConfig { samples: spec_samples(n), ..old(self).race },
                ctrl: MppiController {
                    cfg: MppiConfig { samples: spec_samples(n), ..old(self).ctrl.cfg },
                    ..old(self).ctrl
                },
                ..*old(self)
            }),
    {
        let n: usize = samples_in_range(n);
        self.race.samples = n;
        self.ctrl.cfg.samples = n;
    }

    /// The state of the drone of the policy in 17 numbers.
    pub fn rl_state(&self) -> (r: Vec<S>)
        ensures
            r@ == crate::drone::spec_state17(self.rl.state),
    {
        state17(&self.rl.state)
    }

    pub fn rl_next_gate(&self) -> (r: usize)
        ensures
            r == self.rl.course.next,
    {
        self.rl.course.next
    }

    pub fn rl_wins(&self) -> (r: usize)
        ensures
            r == self.rl.wins,
    {
        self.rl.wins
    }

    pub fn rl_hovering(&self) -> (r: bool)
        ensures
            r == self.rl.done,
    {
        self.rl.done
    }

    pub fn rl_respawns(&self) -> (r: usize)
        ensures
            r == self.rl.respawns,
    {
        self.rl.respawns
    }

    /// The state of the drone over the learned model in 17 numbers.
    pub fn rf_state(&self) -> (r: Vec<S>)
        ensures
            r@ == crate::drone::spec_state17(self.rf.state),
    {
        state17(&self.rf.state)
    }

    pub fn rf_next_gate(&self) -> (r: usize)
        ensures
            r == self.rf.course.next,
    {
        self.rf.course.next
    }

    pub fn rf_wins(&self) -> (r: usize)
        ensures
            r == self.rf.wins,
    {
        self.rf.wins
    }

    pub fn rf_hovering(&self) -> (r: bool)
        ensures
            r == self.rf.done,
    {
        self.rf.done
    }

    pub fn rf_respawns(&self) -> (r: usize)
        ensures
            r == self.rf.respawns,
    {
        self.rf.respawns
    }

    /// The plans that the drone over the learned model weighs per step.
    pub fn rf_samples(&self) -> (r: usize)
        ensures
            r == self.rf_race.base.samples,
    {
        self.rf_race.base.samples
    }

    /// Set that number, between 1 and 512.
    pub fn set_rf_samples(&mut self, n: usize)
        requires
            old(self).wf(),
        ensures
            final(self).wf(),
            *final(self) == (WasmRacer {
                rf_race: RotorMppiConfig {
                    base: MppiConfig { samples: spec_samples(n), ..old(self).rf_race.base },
                    ..old(self).rf_race
                },
                rf_ctrl: RotorMppiController {
                    cfg: RotorMppiConfig {
                        base: MppiConfig {
                            samples: spec_samples(n),
                            ..old(self).rf_ctrl.cfg.base
                        },
                        ..old(self).rf_ctrl.cfg
                    },
                    ..old(self).rf_ctrl
                },
                ..*old(self)
            }),
    {
        let n: usize = samples_in_range(n);
        self.rf_race.base.samples = n;
        self.rf_ctrl.cfg.base.samples = n;
    }

    /// Set the wind for every drone.
    pub fn set_wind(&mut self, x: S, y: S, z: S)
        requires
            old(self).wf(),
        ensures
            final(self).wf(),
            ({
                let wind = Vec3 { x, y, z };
                *final(self) == (WasmRacer {
                    truth: Entrant {
                        state: State { wind, ..old(self).truth.state },
                        ..old(self).truth
                    },
                    rl: Entrant { state: State { wind, ..old(self).rl.state }, ..old(self).rl },
                    rf: Entrant { state: State { wind, ..old(self).rf.state }, ..old(self).rf },
                    ..*old(self)
                })
            }),
    {
        let w = Vec3::new(x, y, z);
        self.truth.state.wind = w;
        self.rl.state.wind = w;
        self.rf.state.wind = w;
    }

    /// The race with a drone of another mass, before anything follows the change.
    pub open spec fn weighing(self, mass: S) -> Self {
        WasmRacer { input: QuadParamsInput { mass, ..self.input }, ..self }
    }

    /// Change the mass in flight. The learned model keeps the mass it was trained for.
    pub fn set_mass(&mut self, mass: S)
        requires
            old(self).wf(),
        ensures
            final(self).wf(),
            exists|mid: Self|
                {
                    &&& #[trigger] Self::applied(old(self).weighing(mass), mid)
                    &&& *final(self) == (WasmRacer {
                        ctrl: MppiController {
                            cfg: if mid.truth.done {
                                mid.ctrl.cfg
                            } else {
                                mid.race
                            },
                            ..mid.ctrl
                        },
                        ..mid
                    })
                },
    {
        self.input.mass = mass;
        assert(*self == old(self).weighing(mass));
        self.apply_input();
        let ghost mid = *self;
        assert(Self::applied(old(self).weighing(mass), mid));
        if !self.truth.done {
            self.ctrl.cfg = self.race;
        }
    }
}

/// A gate in seven numbers: centre, normal, radius.
pub open spec fn spec_gate7<S: Scalar>(g: Gate<S>) -> Seq<S> {
    seq![
        g.center.x, g.center.y, g.center.z,
        g.normal.x, g.normal.y, g.normal.z,
        g.radius,
    ]
}

/// The numbers of the first `n` gates.
pub open spec fn spec_gate_numbers<S: Scalar>(gates: Seq<Gate<S>>, n: nat) -> Seq<S>
    decreases n,
{
    if n == 0 {
        Seq::empty()
    } else {
        spec_gate_numbers(gates, (n - 1) as nat) + spec_gate7(gates[n - 1])
    }
}

/// A number of plans in the range that is allowed.
pub open spec fn spec_samples(n: usize) -> usize {
    if n < 1 {
        1
    } else if n > 512 {
        512
    } else {
        n
    }
}

fn samples_in_range(n: usize) -> (r: usize)
    ensures
        r == spec_samples(n),
{
    if n < 1 {
        1
    } else if n > 512 {
        512
    } else {
        n
    }
}

// ---------------------------------------------------------------------------
// Laws of the race
// ---------------------------------------------------------------------------
impl<S: Real> Entrant<S> {
    /// The drone has finished, or is in the air: its height is a finite number of at least
    /// 0.15 m.
    pub open spec fn in_play(self) -> bool {
        let z = self.state.x.z;
        self.done || z.spec_is_finite() && S::spec_splat(15, 100) <= z
    }
}

proof fn lemma_netted_in_play<S: Real>(e: Entrant<S>, input: QuadParamsInput<S>)
    requires
        crate::scalar::ordered::<S>(),
        S::spec_splat(15, 100).spec_is_finite(),
        spec_start_z::<S>().spec_is_finite(),
        S::spec_splat(15, 100) <= spec_start_z::<S>(),
    ensures
        e.netted(input).in_play(),
        e.netted(input).wins == e.wins,
{
    let z = e.state.x.z;
    if !e.done && !e.crashed() {
        assert(z.spec_is_finite() && !(z < S::spec_splat(15, 100)));
        assert(S::spec_splat(15, 100) <= z);
    }
}

/// At the end of every step of a race each of the two learned drones has finished or is in
/// the air; no drone wins more than once in a step, and one that had finished before does
/// not win again.
pub proof fn law_step_keeps_drones_in_play<S: Wide>(before: WasmRacer<S>, after: WasmRacer<S>)
    requires
        crate::scalar::ordered::<S>(),
        S::spec_splat(15, 100).spec_is_finite(),
        spec_start_z::<S>().spec_is_finite(),
        S::spec_splat(15, 100) <= spec_start_z::<S>(),
        WasmRacer::stepped(before, after),
    ensures
        after.rl.in_play(),
        after.rf.in_play(),
        before.truth.wins <= after.truth.wins <= before.truth.wins + 1,
        before.rl.wins <= after.rl.wins <= before.rl.wins + 1,
        before.rf.wins <= after.rf.wins <= before.rf.wins + 1,
        before.truth.done ==> after.truth.wins == before.truth.wins,
        before.rl.done ==> after.rl.wins == before.rl.wins,
        before.rf.done ==> after.rf.wins == before.rf.wins,
{
    let (flown, safe) = choose|flown: WasmRacer<S>, safe: WasmRacer<S>|
        #![trigger WasmRacer::all_flown(before, flown), WasmRacer::all_netted(flown, safe)]
        WasmRacer::all_flown(before, flown) && WasmRacer::all_netted(flown, safe)
            && WasmRacer::paced(safe, after);
    lemma_netted_in_play(flown.rl, flown.input);
    lemma_netted_in_play(flown.rf, flown.input);
    let t = safe.ticked();
    if t.over() {
        let drawn = choose|drawn: WasmRacer<S>|
            WasmRacer::redrawn(t, drawn) && #[trigger] WasmRacer::restarted(drawn, after);
        assert(drawn.truth.wins == t.truth.wins);
        assert(drawn.rl.wins == t.rl.wins);
        assert(drawn.rf.wins == t.rf.wins);
        assert(after.rl.state.x.z == spec_start_z::<S>());
        assert(after.rf.state.x.z == spec_start_z::<S>());
    }
}

} // verus!
