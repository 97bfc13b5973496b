//! Gate-racing control: a planner that samples collective-thrust and body-rate plans,
//! with both the rollout model and the controller swappable.
//!
//! The planning is done in [`CtbrCmd`] actions, not raw rotor forces: the inner rate loop
//! tames the attitude, which makes the planner track far better.
use vstd::prelude::*;

use crate::control::{Ctbr, CtbrCmd};
use crate::gates::{Course, Gate};
use crate::linalg::Vec3;
use crate::multirotor::Multirotor;
use crate::params::{gravity, QuadParamsInput};
use crate::rng::Rng;
use crate::sampling::{guard_cost, softmax, ActionSpace};
use crate::scalar::Real;
use crate::state::State;

verus! {

// ---------------------------------------------------------------------------
// What a planner needs, and what it is
// ---------------------------------------------------------------------------
/// Predicts where the drone goes for a candidate action sequence.
pub trait RolloutModel<S: Real>: Sized {
    /// The model can be asked for rollouts.
    closed spec fn wf(&self) -> bool {
        vstd::pervasive::arbitrary()
    }

    /// The predicted positions, one for each action.
    closed spec fn spec_rollout(&self, init: State<S>, actions: Seq<CtbrCmd<S>>, dt: S) -> Seq<Vec3<S>> {
        vstd::pervasive::arbitrary()
    }

    /// The trust penalty of a candidate: how far it exploits the model.
    closed spec fn spec_trust(&self, init: State<S>, actions: Seq<CtbrCmd<S>>, dt: S) -> S {
        vstd::pervasive::arbitrary()
    }

    /// What recording an executed step does to the model.
    closed spec fn spec_observed(before: Self, after: Self, state: State<S>, action: CtbrCmd<S>) -> bool {
        vstd::pervasive::arbitrary()
    }

    /// Roll out `actions` from `init` into `out`: one predicted position for each action,
    /// nothing left of what `out` held.
    fn rollout(&self, init: &State<S>, actions: &[CtbrCmd<S>], dt: S, out: &mut Vec<Vec3<S>>)
        requires
            self.wf(),
        ensures
            final(out)@ == self.spec_rollout(*init, actions@, dt),
            final(out)@.len() == actions@.len(),
    ;

    /// Roll out many candidates.
    fn rollout_batch(&self, init: &State<S>, seqs: &[Vec<CtbrCmd<S>>], dt: S) -> (r: Vec<
        Vec<Vec3<S>>,
    >)
        requires
            self.wf(),
        ensures
            r@.len() == seqs@.len(),
            forall|i: int|
                0 <= i < seqs@.len() ==> (#[trigger] r@[i])@ == self.spec_rollout(
                    *init,
                    seqs@[i]@,
                    dt,
                ) && r@[i]@.len() == seqs@[i]@.len(),
    {
        let mut out: Vec<Vec<Vec3<S>>> = Vec::new();
        for i in 0..seqs.len()
            invariant
                self.wf(),
                out@.len() == i,
                forall|p: int|
                    0 <= p < i ==> (#[trigger] out@[p])@ == self.spec_rollout(
                        *init,
                        seqs@[p]@,
                        dt,
                    ) && out@[p]@.len() == seqs@[p]@.len(),
        {
            let mut one: Vec<Vec3<S>> = Vec::new();
            self.rollout(init, seqs[i].as_slice(), dt, &mut one);
            out.push(one);
        }
        out
    }

    /// Roll out many candidates and give the trust penalty of each.
    fn rollout_batch_trust(&self, init: &State<S>, seqs: &[Vec<CtbrCmd<S>>], dt: S) -> (r: (
        Vec<Vec<Vec3<S>>>,
        Vec<S>,
    ))
        requires
            self.wf(),
        ensures
            r.0@.len() == seqs@.len(),
            r.1@.len() == seqs@.len(),
            forall|i: int|
                0 <= i < seqs@.len() ==> (#[trigger] r.0@[i])@ == self.spec_rollout(
                    *init,
                    seqs@[i]@,
                    dt,
                ) && r.0@[i]@.len() == seqs@[i]@.len(),
            forall|i: int|
                0 <= i < seqs@.len() ==> #[trigger] r.1@[i] == self.spec_trust(
                    *init,
                    seqs@[i]@,
                    dt,
                ),
    ;

    /// Record an executed step, for models that keep a history.
    fn observe(&mut self, state: &State<S>, action: &CtbrCmd<S>)
        requires
            old(self).wf(),
        ensures
            final(self).wf(),
            Self::spec_observed(*old(self), *final(self), *state, *action),
    ;
}

/// Anything that turns a state and a course into a command.
pub trait Controller<S: Real>: Sized {
    /// The controller can be asked for an action here.
    closed spec fn ready(&self, state: State<S>, course: Course<S>) -> bool {
        vstd::pervasive::arbitrary()
    }

    /// The action.
    closed spec fn spec_act(&self, state: State<S>, course: Course<S>) -> CtbrCmd<S> {
        vstd::pervasive::arbitrary()
    }

    /// What deciding does to the controller.
    closed spec fn spec_acted(before: Self, after: Self, state: State<S>, course: Course<S>) -> bool {
        vstd::pervasive::arbitrary()
    }

    fn act(&mut self, state: &State<S>, course: &Course<S>) -> (r: CtbrCmd<S>)
        requires
            old(self).ready(*state, *course),
        ensures
            r == old(self).spec_act(*state, *course),
            Self::spec_acted(*old(self), *final(self), *state, *course),
    ;
}

// ---------------------------------------------------------------------------
// The dynamics as a rollout model
// ---------------------------------------------------------------------------
/// Ground-truth rollout model: the vehicle dynamics.
pub struct TrueDynamics<S> {
    pub veh: Multirotor<S, Ctbr>,
}

impl<S: Real> TrueDynamics<S> {
    /// The state after the first `n` actions.
    pub open spec fn flown(self, init: State<S>, actions: Seq<CtbrCmd<S>>, dt: S, n: nat) -> State<
        S,
    >
        decreases n,
    {
        if n == 0 {
            init
        } else {
            self.veh.spec_step(self.flown(init, actions, dt, (n - 1) as nat), actions[n - 1], dt)
        }
    }

    pub fn new(params: &QuadParamsInput<S>, n_sub: usize) -> (r: Self)
        ensures
            r.veh.params == crate::params::QuadParams::spec_from_input(*params),
            r.veh.n_sub == crate::multirotor::spec_substeps(n_sub as nat),
    {
        TrueDynamics { veh: Multirotor::with_substeps(params, n_sub) }
    }
}

impl<S: Real> RolloutModel<S> for TrueDynamics<S> {
    open spec fn wf(&self) -> bool {
        true
    }

    open spec fn spec_rollout(&self, init: State<S>, actions: Seq<CtbrCmd<S>>, dt: S) -> Seq<
        Vec3<S>,
    > {
        Seq::new(actions.len(), |k: int| self.flown(init, actions, dt, (k + 1) as nat).x)
    }

    open spec fn spec_trust(&self, init: State<S>, actions: Seq<CtbrCmd<S>>, dt: S) -> S {
        S::spec_zero()
    }

    open spec fn spec_observed(
        before: Self,
        after: Self,
        state: State<S>,
        action: CtbrCmd<S>,
    ) -> bool {
        after == before
    }

    fn rollout(&self, init: &State<S>, actions: &[CtbrCmd<S>], dt: S, out: &mut Vec<Vec3<S>>) {
        out.clear();
        let mut s = *init;
        for k in 0..actions.len()
            invariant
                s == self.flown(*init, actions@, dt, k as nat),
                out@.len() == k,
                forall|p: int|
                    0 <= p < k ==> #[trigger] out@[p] == self.flown(
                        *init,
                        actions@,
                        dt,
                        (p + 1) as nat,
                    ).x,
        {
            s = self.veh.step(&s, &actions[k], dt);
            out.push(s.x);
        }
        assert(out@ =~= self.spec_rollout(*init, actions@, dt));
    }

    fn rollout_batch_trust(&self, init: &State<S>, seqs: &[Vec<CtbrCmd<S>>], dt: S) -> (r: (
        Vec<Vec<Vec3<S>>>,
        Vec<S>,
    )) {
        let trajs = self.rollout_batch(init, seqs, dt);
        let mut z: Vec<S> = Vec::new();
        for i in 0..seqs.len()
            invariant
                z@.len() == i,
                forall|p: int| 0 <= p < i ==> #[trigger] z@[p] == S::spec_zero(),
        {
            z.push(S::zero());
        }
        (trajs, z)
    }

    fn observe(&mut self, _state: &State<S>, _action: &CtbrCmd<S>) {
    }
}

// ---------------------------------------------------------------------------
// Configuration
// ---------------------------------------------------------------------------
#[derive(Clone, Copy, Debug)]
pub struct MppiConfig<S> {
    pub samples: usize,
    pub horizon: usize,
    pub dt: S,
    /// Softmax temperature.
    pub lambda: S,
    /// Nominal collective thrust [N].
    pub hover_thrust: S,
    pub thrust_min: S,
    pub thrust_max: S,
    /// Exploration deviation on thrust [N].
    pub sigma_thrust: S,
    /// Exploration deviation on body rates [rad/s].
    pub sigma_rate: S,
    /// Limit on each body rate [rad/s].
    pub rate_max: S,
    /// Reward for speed toward the next gate.
    pub w_vel: S,
    /// Per-step cost of the squared distance to its gate.
    pub w_pos: S,
    /// Penalty on the altitude error against its gate.
    pub w_alt: S,
    /// Weight of the distance to its gate at the end.
    pub w_terminal: S,
    /// Reward for passing a gate during a rollout.
    pub gate_reward: S,
    /// Penalty on action effort.
    pub w_effort: S,
    /// AR(1) smoothing of the noise, in `[0, 1)`.
    pub beta: S,
    /// Soft speed cap [m/s]; infinite for none.
    pub v_max: S,
    /// Penalty for exceeding `v_max`.
    pub w_speed: S,
    /// Penalty on squared velocity, always on.
    pub w_vdamp: S,
    /// Penalty for a rollout that dips below the floor altitude.
    pub w_floor: S,
    /// Weight of the trust penalty of the model.
    pub trust_lambda: S,
}

/// The altitude below which the floor penalty sets in: 0.4 m.
pub open spec fn spec_z_floor<S: Real>() -> S {
    S::spec_splat(4, 10)
}

/// Altitude below which the floor penalty sets in [m]. The dynamics have no ground
/// contact, so nothing else stops a planner from flying into the floor.
pub fn z_floor<S: Real>() -> (r: S)
    ensures
        r == spec_z_floor::<S>(),
{
    S::splat(4, 10)
}

impl<S: Real> MppiConfig<S> {
    pub open spec fn spec_for_mass(mass: S) -> Self {
        let hover = mass * crate::params::spec_gravity::<S>();
        let zero = S::spec_zero();
        MppiConfig {
            samples: 256,
            horizon: 25,
            dt: S::spec_splat(5, 100),
            lambda: S::spec_splat(1, 2),
            hover_thrust: hover,
            thrust_min: zero,
            thrust_max: S::spec_splat(4, 1) * hover,
            sigma_thrust: S::spec_splat(2, 10) * hover,
            sigma_rate: S::spec_splat(4, 1),
            rate_max: S::spec_splat(12, 1),
            w_vel: S::spec_splat(2, 1),
            w_pos: zero,
            w_alt: S::spec_splat(15, 10),
            w_terminal: S::spec_splat(1, 1),
            gate_reward: S::spec_splat(80, 1),
            w_effort: S::spec_splat(5, 1000),
            beta: S::spec_splat(85, 100),
            v_max: S::spec_infinity(),
            w_speed: zero,
            w_vdamp: zero,
            w_floor: zero,
            trust_lambda: zero,
        }
    }

    /// Defaults for a quadrotor of this mass, racing at 20 Hz.
    pub fn for_mass(mass: S) -> (r: Self)
        ensures
            r == Self::spec_for_mass(mass),
    {
        let hover = mass.mul(gravity::<S>());
        let zero = S::zero();
        MppiConfig {
            samples: 256,
            horizon: 25,
            dt: S::splat(5, 100),
            lambda: S::splat(1, 2),
            hover_thrust: hover,
            thrust_min: zero,
            thrust_max: S::splat(4, 1).mul(hover),
            sigma_thrust: S::splat(2, 10).mul(hover),
            sigma_rate: S::splat(4, 1),
            rate_max: S::splat(12, 1),
            w_vel: S::splat(2, 1),
            w_pos: zero,
            w_alt: S::splat(15, 10),
            w_terminal: S::splat(1, 1),
            gate_reward: S::splat(80, 1),
            w_effort: S::splat(5, 1000),
            beta: S::splat(85, 100),
            v_max: S::infinity(),
            w_speed: zero,
            w_vdamp: zero,
            w_floor: zero,
            trust_lambda: zero,
        }
    }

    /// No limit of the action space lies on the wrong side of its partner.
    pub open spec fn bounded(self) -> bool {
        self.thrust_min <= self.thrust_max && -self.rate_max <= self.rate_max
    }

    /// The thrust and body-rate channels of the search.
    pub open spec fn spec_action_space(self) -> ActionSpace<S> {
        ActionSpace {
            sigma: [self.sigma_thrust, self.sigma_rate, self.sigma_rate, self.sigma_rate],
            lo: [self.thrust_min, -self.rate_max, -self.rate_max, -self.rate_max],
            hi: [self.thrust_max, self.rate_max, self.rate_max, self.rate_max],
        }
    }

    pub fn action_space(&self) -> (r: ActionSpace<S>)
        ensures
            r == self.spec_action_space(),
            self.bounded() ==> r.wf(),
    {
        let lo = self.rate_max.neg();
        ActionSpace {
            sigma: [self.sigma_thrust, self.sigma_rate, self.sigma_rate, self.sigma_rate],
            lo: [self.thrust_min, lo, lo, lo],
            hi: [self.thrust_max, self.rate_max, self.rate_max, self.rate_max],
        }
    }

    /// Hover: nominal thrust, no rotation.
    pub open spec fn spec_hover(self) -> CtbrCmd<S> {
        CtbrCmd { thrust: self.hover_thrust, w_cmd: Vec3::spec_zero() }
    }

    pub fn hover(&self) -> (r: CtbrCmd<S>)
        ensures
            r == self.spec_hover(),
    {
        CtbrCmd { thrust: self.hover_thrust, w_cmd: Vec3::zero() }
    }
}

// ---------------------------------------------------------------------------
// The cost of a rollout
// ---------------------------------------------------------------------------
/// That gate which a rollout aims at when it has reached index `i`; on a closed course
/// the count goes on over the laps.
pub open spec fn spec_gate_at<S: Real>(course: Course<S>, i: int) -> Option<Gate<S>> {
    let n = course.gates@.len() as int;
    if i < n {
        Some(course.gates@[i])
    } else if course.loop_course && n > 0 {
        Some(course.gates@[i % n])
    } else {
        None
    }
}

fn gate_at<S: Real>(course: &Course<S>, i: usize) -> (r: Option<Gate<S>>)
    ensures
        r == spec_gate_at(*course, i as int),
{
    let n: usize = course.gates.len();
    if i < n {
        Some(course.gates[i])
    } else if course.loop_course && n > 0 {
        Some(course.gates[i % n])
    } else {
        None
    }
}

/// The position before step `k`.
pub open spec fn before_step<S: Real>(start: Vec3<S>, traj: Seq<Vec3<S>>, k: int) -> Vec3<S> {
    if k == 0 {
        start
    } else {
        traj[k - 1]
    }
}

/// `cost` plus damping of the velocity and the quadratic floor penalty at `p`.
pub open spec fn motion_cost<S: Real>(cfg: MppiConfig<S>, vel: Vec3<S>, p: Vec3<S>, cost: S) -> S {
    let damped = cost + cfg.w_vdamp * vel.spec_dot(vel);
    if p.z < spec_z_floor::<S>() {
        let d = spec_z_floor::<S>() - p.z;
        damped + cfg.w_floor * d * d
    } else {
        damped
    }
}

/// `cost` plus what a gate asks of the step `prev -> p`: nearness, speed toward it
/// within the speed cap, its altitude, and the reward for passing it.
pub open spec fn gate_cost<S: Real>(
    cfg: MppiConfig<S>,
    g: Gate<S>,
    prev: Vec3<S>,
    vel: Vec3<S>,
    p: Vec3<S>,
    cost: S,
) -> S {
    let to_gate = g.center - prev;
    let dist = to_gate.spec_norm();
    let near = cost + cfg.w_pos * dist * dist;
    let speed = vel.spec_norm();
    let moving = if S::spec_splat(1, 1000000) < dist {
        let toward = near - cfg.w_vel * vel.spec_dot(to_gate.spec_scale(S::spec_one() / dist));
        if cfg.v_max < speed {
            toward + cfg.w_speed * (speed - cfg.v_max) * (speed - cfg.v_max)
        } else {
            toward
        }
    } else {
        near
    };
    let dz = p.z - g.center.z;
    let level = moving + cfg.w_alt * dz * dz;
    if g.spec_crossed(prev, p) {
        level - cfg.gate_reward
    } else {
        level
    }
}

/// The index of that gate which is due after `n` steps of a rollout.
pub open spec fn due_after<S: Real>(
    start: Vec3<S>,
    traj: Seq<Vec3<S>>,
    course: Course<S>,
    n: nat,
) -> int
    decreases n,
{
    if n == 0 {
        course.next as int
    } else {
        let k = n - 1;
        let i = due_after(start, traj, course, k as nat);
        match spec_gate_at(course, i) {
            Some(g) => if g.spec_crossed(before_step(start, traj, k), traj[k]) {
                i + 1
            } else {
                i
            },
            None => i,
        }
    }
}

/// The cost of the first `n` steps of a rollout.
pub open spec fn running_cost<S: Real>(
    start: Vec3<S>,
    traj: Seq<Vec3<S>>,
    effort_sq: Seq<S>,
    course: Course<S>,
    cfg: MppiConfig<S>,
    n: nat,
) -> S
    decreases n,
{
    if n == 0 {
        S::spec_zero()
    } else {
        let k = n - 1;
        let cost = running_cost(start, traj, effort_sq, course, cfg, k as nat);
        let prev = before_step(start, traj, k);
        let p = traj[k];
        let vel = (p - prev).spec_scale(S::spec_one() / cfg.dt);
        let moved = motion_cost(cfg, vel, p, cost);
        let aimed = match spec_gate_at(course, due_after(start, traj, course, k as nat)) {
            Some(g) => gate_cost(cfg, g, prev, vel, p, moved),
            None => moved,
        };
        aimed + cfg.w_effort * effort_sq[k]
    }
}

/// The cost of a rollout: its steps, and the distance left at the end to that gate which is
/// then due.
pub open spec fn spec_rollout_cost<S: Real>(
    start: Vec3<S>,
    traj: Seq<Vec3<S>>,
    effort_sq: Seq<S>,
    course: Course<S>,
    cfg: MppiConfig<S>,
) -> S {
    let n = traj.len();
    let cost = running_cost(start, traj, effort_sq, course, cfg, n);
    match spec_gate_at(course, due_after(start, traj, course, n)) {
        Some(g) if n > 0 => cost + cfg.w_terminal * (traj[n - 1] - g.center).spec_norm(),
        _ => cost,
    }
}

/// Cost of a predicted trajectory on the course, lower is better. `effort_sq[k]` is the
/// squared action effort at step `k`, whatever the action space.
pub fn rollout_cost<S: Real>(
    init_pos: Vec3<S>,
    traj: &Vec<Vec3<S>>,
    effort_sq: &Vec<S>,
    course: &Course<S>,
    cfg: &MppiConfig<S>,
) -> (r: S)
    requires
        traj@.len() <= effort_sq@.len(),
        course.next + traj@.len() <= usize::MAX,
    ensures
        r == spec_rollout_cost(init_pos, traj@, effort_sq@, *course, *cfg),
{
    let n: usize = traj.len();
    let mut idx: usize = course.next;
    let mut prev = init_pos;
    let mut cost = S::zero();
    let inv_dt = S::one().div(cfg.dt);
    for k in 0..n
        invariant
            n == traj@.len(),
            n <= effort_sq@.len(),
            course.next + n <= usize::MAX,
            course.next <= idx <= course.next + k,
            idx == due_after(init_pos, traj@, *course, k as nat),
            prev == before_step(init_pos, traj@, k as int),
            inv_dt == S::spec_one() / cfg.dt,
            cost == running_cost(init_pos, traj@, effort_sq@, *course, *cfg, k as nat),
    {
        let p = traj[k];
        let vel = p.sub(prev).scale(inv_dt);
        cost = cost.add(cfg.w_vdamp.mul(vel.dot(vel)));
        if p.z.lt(z_floor()) {
            let d = z_floor::<S>().sub(p.z);
            cost = cost.add(cfg.w_floor.mul(d).mul(d));
        }
        if let Some(g) = gate_at(course, idx) {
            let to_gate = g.center.sub(prev);
            let dist = to_gate.norm();
            // a spring: its pull vanishes at the centre, so that with damping the drone
            // comes to rest
            cost = cost.add(cfg.w_pos.mul(dist).mul(dist));
            if S::splat(1, 1000000).lt(dist) {
                let dir = to_gate.scale(S::one().div(dist));
                cost = cost.sub(cfg.w_vel.mul(vel.dot(dir)));
                let sp = vel.norm();
                if cfg.v_max.lt(sp) {
                    cost = cost.add(cfg.w_speed.mul(sp.sub(cfg.v_max)).mul(sp.sub(cfg.v_max)));
                }
            }
            let dz = p.z.sub(g.center.z);
            cost = cost.add(cfg.w_alt.mul(dz).mul(dz));
            if g.crossed(prev, p) {
                cost = cost.sub(cfg.gate_reward);
                idx = idx + 1;
            }
        }
        cost = cost.add(cfg.w_effort.mul(effort_sq[k]));
        prev = p;
    }
    if n > 0 {
        if let Some(g) = gate_at(course, idx) {
            cost = cost.add(cfg.w_terminal.mul(traj[n - 1].sub(g.center).norm()));
        }
    }
    cost
}

// ---------------------------------------------------------------------------
// The planner
// ---------------------------------------------------------------------------
/// Commands of the arrays.
pub open spec fn as_cmds<S: Copy>(a: Seq<[S; 4]>) -> Seq<CtbrCmd<S>> {
    Seq::new(a.len(), |k: int| CtbrCmd::spec_from_array(a[k]))
}

/// Arrays of the commands.
pub open spec fn as_arrays<S: Copy>(a: Seq<CtbrCmd<S>>) -> Seq<[S; 4]> {
    Seq::new(a.len(), |k: int| a[k].spec_to_array())
}

pub fn to_cmds<S: Copy>(a: &Vec<[S; 4]>) -> (r: Vec<CtbrCmd<S>>)
    ensures
        r@ == as_cmds(a@),
{
    let mut r: Vec<CtbrCmd<S>> = Vec::new();
    for k in 0..a.len()
        invariant
            r@.len() == k,
            forall|p: int| 0 <= p < k ==> #[trigger] r@[p] == CtbrCmd::spec_from_array(a@[p]),
    {
        r.push(CtbrCmd::from_array(a[k]));
    }
    assert(r@ =~= as_cmds(a@));
    r
}

pub fn to_arrays<S: Copy>(a: &Vec<CtbrCmd<S>>) -> (r: Vec<[S; 4]>)
    ensures
        r@ == as_arrays(a@),
{
    let mut r: Vec<[S; 4]> = Vec::new();
    for k in 0..a.len()
        invariant
            r@.len() == k,
            forall|p: int| 0 <= p < k ==> #[trigger] r@[p] == a@[p].spec_to_array(),
    {
        r.push(a[k].to_array());
    }
    assert(r@ =~= as_arrays(a@));
    r
}

/// Put the plan after its first step into the nominal sequence, `last` at its end.
pub fn shift_plan<S: Copy>(nominal: &mut Vec<S>, plan: &Vec<S>, last: S)
    requires
        plan@.len() <= old(nominal)@.len(),
    ensures
        final(nominal)@ == crate::sampling::spec_shift(old(nominal)@, plan@, last),
{
    let t: usize = plan.len();
    let ghost was = nominal@;
    for k in 0..t
        invariant
            t == plan@.len(),
            t <= was.len(),
            nominal@.len() == was.len(),
            forall|p: int|
                0 <= p < k ==> #[trigger] nominal@[p] == crate::sampling::spec_shift(
                    was,
                    plan@,
                    last,
                )[p],
            forall|p: int| k <= p < was.len() ==> #[trigger] nominal@[p] == was[p],
    {
        if k + 1 < t {
            nominal.set(k, plan[k + 1]);
        } else {
            nominal.set(k, last);
        }
    }
    assert(nominal@ =~= crate::sampling::spec_shift(was, plan@, last));
}

/// Fill the nominal sequence with one action.
pub fn fill<A: Copy>(nominal: &mut Vec<A>, a: A)
    ensures
        final(nominal)@ == Seq::new(old(nominal)@.len(), |k: int| a),
{
    let n: usize = nominal.len();
    for k in 0..n
        invariant
            n == nominal@.len(),
            nominal@.len() == old(nominal)@.len(),
            forall|p: int| 0 <= p < k ==> #[trigger] nominal@[p] == a,
    {
        nominal.set(k, a);
    }
    assert(nominal@ =~= Seq::new(old(nominal)@.len(), |k: int| a));
}

/// A sequence of `n` equal actions.
pub fn repeat<A: Copy>(a: A, n: usize) -> (r: Vec<A>)
    ensures
        r@ == Seq::new(n as nat, |k: int| a),
{
    let mut r: Vec<A> = Vec::new();
    for k in 0..n
        invariant
            r@.len() == k,
            forall|p: int| 0 <= p < k ==> #[trigger] r@[p] == a,
    {
        r.push(a);
    }
    assert(r@ =~= Seq::new(n as nat, |k: int| a));
    r
}

/// Squared body rate of each action.
pub open spec fn rate_effort<S: Real>(seq: Seq<CtbrCmd<S>>) -> Seq<S> {
    Seq::new(seq.len(), |k: int| seq[k].w_cmd.spec_dot(seq[k].w_cmd))
}

pub struct MppiController<S, M> {
    pub model: M,
    pub cfg: MppiConfig<S>,
    /// The warm-started plan.
    pub nominal: Vec<CtbrCmd<S>>,
    pub rng: Rng,
}

impl<S: Real, M: RolloutModel<S>> MppiController<S, M> {
    /// There is a plan for every step of the horizon, and the limits make sense.
    pub open spec fn wf(self) -> bool {
        &&& self.model.wf()
        &&& self.cfg.bounded()
        &&& 1 <= self.cfg.horizon <= self.nominal@.len()
    }

    /// The candidate plans of the next decision.
    pub open spec fn spec_candidates(self) -> Seq<Seq<[S; 4]>> {
        self.cfg.spec_action_space().spec_candidates(
            as_arrays(self.nominal@),
            self.rng@,
            self.cfg.beta,
            self.cfg.horizon as nat,
            self.cfg.samples as nat,
        )
    }

    /// The cost of a candidate: that of its predicted trajectory and its trust penalty.
    pub open spec fn spec_cost(self, state: State<S>, course: Course<S>, cand: Seq<[S; 4]>) -> S {
        let seq = as_cmds(cand);
        crate::sampling::spec_guard_cost(
            spec_rollout_cost(
                state.x,
                self.model.spec_rollout(state, seq, self.cfg.dt),
                rate_effort(seq),
                course,
                self.cfg,
            ) + self.cfg.trust_lambda * self.model.spec_trust(state, seq, self.cfg.dt),
        )
    }

    /// The costs of the candidates.
    pub open spec fn spec_costs(self, state: State<S>, course: Course<S>) -> Seq<S> {
        let cands = self.spec_candidates();
        Seq::new(cands.len(), |i: int| self.spec_cost(state, course, cands[i]))
    }

    /// The plan: the candidates averaged by the softmax of their costs.
    pub open spec fn spec_plan(self, state: State<S>, course: Course<S>) -> Seq<CtbrCmd<S>> {
        as_cmds(
            self.cfg.spec_action_space().spec_plan(
                self.spec_candidates(),
                crate::sampling::spec_softmax(self.spec_costs(state, course), self.cfg.lambda),
                self.cfg.horizon as nat,
            ),
        )
    }

    pub fn new(model: M, cfg: MppiConfig<S>, seed: u64) -> (r: Self)
        ensures
            r.model == model,
            r.cfg == cfg,
            r.nominal@ == Seq::new(cfg.horizon as nat, |k: int| cfg.spec_hover()),
            r.rng@ == crate::rng::spec_seed(seed),
    {
        MppiController { nominal: repeat(cfg.hover(), cfg.horizon), model, cfg, rng: Rng::new(seed) }
    }

    /// Hand an executed step to the history of the model.
    pub fn observe(&mut self, state: &State<S>, action: &CtbrCmd<S>)
        requires
            old(self).model.wf(),
        ensures
            final(self).model.wf(),
            M::spec_observed(old(self).model, final(self).model, *state, *action),
            final(self).cfg == old(self).cfg,
            final(self).nominal == old(self).nominal,
            final(self).rng == old(self).rng,
    {
        self.model.observe(state, action);
    }

    /// Bring the plan back to hover, so that after a crash the diving plan that caused it
    /// is not flown again.
    pub fn reset_nominal(&mut self)
        ensures
            final(self).nominal@ == Seq::new(
                old(self).nominal@.len(),
                |k: int| old(self).cfg.spec_hover(),
            ),
            final(self).model == old(self).model,
            final(self).cfg == old(self).cfg,
            final(self).rng == old(self).rng,
    {
        let hover = self.cfg.hover();
        fill(&mut self.nominal, hover);
    }

    /// Centre the search on a given action.
    pub fn set_nominal_const(&mut self, a: CtbrCmd<S>)
        ensures
            final(self).nominal@ == Seq::new(old(self).nominal@.len(), |k: int| a),
            final(self).model == old(self).model,
            final(self).cfg == old(self).cfg,
            final(self).rng == old(self).rng,
    {
        fill(&mut self.nominal, a);
    }

    /// The costs of drawn candidates.
    fn costs(&self, state: &State<S>, course: &Course<S>, cands: &Vec<Vec<[S; 4]>>) -> (r: Vec<S>)
        requires
            self.wf(),
            course.next + self.cfg.horizon <= usize::MAX,
            forall|i: int|
                0 <= i < cands@.len() ==> (#[trigger] cands@[i])@.len() == self.cfg.horizon,
        ensures
            r@.len() == cands@.len(),
            forall|i: int|
                0 <= i < cands@.len() ==> #[trigger] r@[i] == self.spec_cost(
                    *state,
                    *course,
                    cands@[i]@,
                ),
    {
        let n: usize = cands.len();
        let mut seqs: Vec<Vec<CtbrCmd<S>>> = Vec::new();
        for i in 0..n
            invariant
                n == cands@.len(),
                seqs@.len() == i,
                forall|p: int| 0 <= p < i ==> (#[trigger] seqs@[p])@ == as_cmds(cands@[p]@),
        {
            seqs.push(to_cmds(&cands[i]));
        }
        let (trajs, trust) = self.model.rollout_batch_trust(state, seqs.as_slice(), self.cfg.dt);
        let mut costs: Vec<S> = Vec::new();
        for i in 0..n
            invariant
                n == cands@.len(),
                self.wf(),
                course.next + self.cfg.horizon <= usize::MAX,
                seqs@.len() == n,
                trajs@.len() == n,
                trust@.len() == n,
                forall|p: int| 0 <= p < n ==> (#[trigger] cands@[p])@.len() == self.cfg.horizon,
                forall|p: int| 0 <= p < n ==> (#[trigger] seqs@[p])@ == as_cmds(cands@[p]@),
                forall|p: int|
                    0 <= p < n ==> (#[trigger] trajs@[p])@ == self.model.spec_rollout(
                        *state,
                        seqs@[p]@,
                        self.cfg.dt,
                    ) && trajs@[p]@.len() == seqs@[p]@.len(),
                forall|p: int|
                    0 <= p < n ==> #[trigger] trust@[p] == self.model.spec_trust(
                        *state,
                        seqs@[p]@,
                        self.cfg.dt,
                    ),
                costs@.len() == i,
                forall|p: int|
                    0 <= p < i ==> #[trigger] costs@[p] == self.spec_cost(
                        *state,
                        *course,
                        cands@[p]@,
                    ),
        {
            let seq = &seqs[i];
            let mut eff: Vec<S> = Vec::new();
            for k in 0..seq.len()
                invariant
                    eff@.len() == k,
                    forall|p: int|
                        0 <= p < k ==> #[trigger] eff@[p] == seq@[p].w_cmd.spec_dot(seq@[p].w_cmd),
            {
                eff.push(seq[k].w_cmd.dot(seq[k].w_cmd));
            }
            assert(eff@ =~= rate_effort(seq@));
            assert(seq@ == as_cmds(cands@[i as int]@));
            assert(cands@[i as int]@.len() == self.cfg.horizon);
            let c = rollout_cost(state.x, &trajs[i], &eff, course, &self.cfg);
            let t = trust[i];
            costs.push(guard_cost(c.add(self.cfg.trust_lambda.mul(t))));
        }
        costs
    }
}

impl<S: Real, M: RolloutModel<S>> Controller<S> for MppiController<S, M> {
    open spec fn ready(&self, state: State<S>, course: Course<S>) -> bool {
        self.wf() && course.next + self.cfg.horizon <= usize::MAX
    }

    open spec fn spec_act(&self, state: State<S>, course: Course<S>) -> CtbrCmd<S> {
        self.spec_plan(state, course)[0]
    }

    open spec fn spec_acted(
        before: Self,
        after: Self,
        state: State<S>,
        course: Course<S>,
    ) -> bool {
        &&& after.model == before.model
        &&& after.cfg == before.cfg
        &&& after.nominal@ == crate::sampling::spec_shift(
            before.nominal@,
            before.spec_plan(state, course),
            before.cfg.spec_hover(),
        )
        &&& after.rng@ == crate::sampling::after_normals(
            before.rng@,
            4 * before.cfg.horizon as nat * before.cfg.samples as nat,
        )
    }

    fn act(&mut self, state: &State<S>, course: &Course<S>) -> (r: CtbrCmd<S>) {
        let cfg = self.cfg;
        let space = cfg.action_space();
        let arrays = to_arrays(&self.nominal);
        let cands = space.draw_candidates(
            &mut self.rng,
            &arrays,
            cfg.beta,
            cfg.horizon,
            cfg.samples,
        );
        let ghost cs = crate::sampling::deep(cands@);
        let costs = self.costs(state, course, &cands);
        proof {
            assert forall|i: int| 0 <= i < cands@.len() implies #[trigger] costs@[i]
                == old(self).spec_cost(*state, *course, cs[i]) by {
                assert(costs@[i] == self.spec_cost(*state, *course, cands@[i]@));
            }
            assert(costs@ =~= old(self).spec_costs(*state, *course));
        }
        let weights = softmax(&costs, cfg.lambda);
        let plan = to_cmds(&space.plan(&cands, &weights, cfg.horizon));
        assert(plan@ == old(self).spec_plan(*state, *course));
        let action = plan[0];
        shift_plan(&mut self.nominal, &plan, cfg.hover());
        action
    }
}

// ---------------------------------------------------------------------------
// Laws
// ---------------------------------------------------------------------------
impl<S: Real, M: RolloutModel<S>> MppiController<S, M> {
    /// The settings of the search and its plan are finite.
    pub open spec fn finite(self) -> bool {
        &&& crate::sampling::search_finite(
            self.cfg.spec_action_space(),
            self.cfg.beta,
            self.cfg.lambda,
        )
        &&& self.cfg.hover_thrust.spec_is_finite()
        &&& crate::sampling::plan_finite(as_arrays(self.nominal@))
    }
}

impl<S: Real> MppiConfig<S> {
    /// The command lies within the limits on thrust and body rates.
    pub open spec fn allows(self, a: CtbrCmd<S>) -> bool {
        &&& self.thrust_min <= a.thrust && a.thrust <= self.thrust_max
        &&& -self.rate_max <= a.w_cmd.x && a.w_cmd.x <= self.rate_max
        &&& -self.rate_max <= a.w_cmd.y && a.w_cmd.y <= self.rate_max
        &&& -self.rate_max <= a.w_cmd.z && a.w_cmd.z <= self.rate_max
    }
}

/// A command whose channels are within the action space is allowed.
pub proof fn lemma_within_is_allowed<S: Real>(cfg: MppiConfig<S>, a: [S; 4])
    requires
        crate::sampling::within(cfg.spec_action_space(), a),
    ensures
        cfg.allows(CtbrCmd::spec_from_array(a)),
{
    let space = cfg.spec_action_space();
    assert(space.lo[0] <= a[0] && a[0] <= space.hi[0]);
    assert(space.lo[1] <= a[1] && a[1] <= space.hi[1]);
    assert(space.lo[2] <= a[2] && a[2] <= space.hi[2]);
    assert(space.lo[3] <= a[3] && a[3] <= space.hi[3]);
}

/// What the plan leaves for the next call is finite.
pub proof fn lemma_shift_stays_finite<S: Real>(
    nominal: Seq<CtbrCmd<S>>,
    plan: Seq<[S; 4]>,
    hover: CtbrCmd<S>,
)
    requires
        crate::sampling::plan_finite(as_arrays(nominal)),
        crate::sampling::plan_finite(plan),
        crate::sampling::all_finite(hover.spec_to_array()@),
    ensures
        crate::sampling::plan_finite(
            as_arrays(crate::sampling::spec_shift(nominal, as_cmds(plan), hover)),
        ),
{
    let r = crate::sampling::spec_shift(nominal, as_cmds(plan), hover);
    assert forall|k: int| 0 <= k < r.len() implies crate::sampling::all_finite(
        (#[trigger] as_arrays(r)[k])@,
    ) by {
        if k + 1 < plan.len() {
            let a = plan[k + 1];
            assert(crate::sampling::all_finite(a@));
            assert(r[k].spec_to_array()@ =~= a@);
        } else if k + 1 != plan.len() {
            assert(as_arrays(r)[k] == as_arrays(nominal)[k]);
        }
    }
}

/// The guard makes every cost finite, as zero is.
proof fn lemma_costs_finite<S: Real, M: RolloutModel<S>>(c: MppiController<S, M>, state: State<S>, course: Course<S>)
    requires
        crate::sampling::searchable::<S>(),
    ensures
        crate::sampling::all_finite(c.spec_costs(state, course)),
        S::spec_zero().spec_is_finite(),
{
    crate::sampling::lemma_guarded_costs_finite::<S>();
}

/// Whatever the model predicts, numbers that are not finite included, the planner hands it
/// candidates within the limits and decides on a command within them, never a NaN; and
/// the plan it keeps for the next call is finite again.
pub proof fn law_action_in_bounds<S: Real, M: RolloutModel<S>>(
    c: MppiController<S, M>,
    after: MppiController<S, M>,
    state: State<S>,
    course: Course<S>,
)
    requires
        crate::sampling::searchable::<S>(),
        c.wf(),
        c.finite(),
    ensures
        c.cfg.allows(c.spec_act(state, course)),
        crate::sampling::all_finite(c.spec_act(state, course).spec_to_array()@),
        c.spec_candidates().len() == c.cfg.samples,
        forall|i: int|
            0 <= i < c.cfg.samples ==> (#[trigger] c.spec_candidates()[i]).len() == c.cfg.horizon,
        forall|i: int, k: int|
            0 <= i < c.cfg.samples && 0 <= k < c.cfg.horizon ==> c.cfg.allows(
                CtbrCmd::spec_from_array(#[trigger] c.spec_candidates()[i][k]),
            ),
        MppiController::spec_acted(c, after, state, course) ==> after.cfg == c.cfg
            && after.finite(),
{
    let space = c.cfg.spec_action_space();
    let costs = c.spec_costs(state, course);
    lemma_costs_finite(c, state, course);
    let nominal = as_arrays(c.nominal@);
    let t = c.cfg.horizon as nat;
    crate::sampling::law_search_in_bounds(
        space,
        nominal,
        c.rng@,
        c.cfg.beta,
        c.cfg.lambda,
        t,
        costs,
    );
    let w = crate::sampling::spec_softmax(costs, c.cfg.lambda);
    let plan = space.spec_plan(c.spec_candidates(), w, t);
    assert(crate::sampling::within(space, plan[0]) && crate::sampling::all_finite(plan[0]@));
    lemma_within_is_allowed(c.cfg, plan[0]);
    let a = c.spec_act(state, course);
    assert(a.spec_to_array()@ =~= plan[0]@);
    assert forall|i: int, k: int| 0 <= i < c.cfg.samples && 0 <= k < c.cfg.horizon implies c.cfg.allows(
        CtbrCmd::spec_from_array(#[trigger] c.spec_candidates()[i][k]),
    ) by {
        lemma_within_is_allowed(c.cfg, c.spec_candidates()[i][k]);
    }
    if MppiController::spec_acted(c, after, state, course) {
        lemma_shift_stays_finite(c.nominal@, plan, c.cfg.spec_hover());
    }
}

} // verus!
