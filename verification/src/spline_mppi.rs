//! A contouring planner for the world model.
//!
//! Instead of asking the model to plan toward a gate, a fan of reference splines is built
//! from the drone to its gate, each arriving along the normal, and every rollout is
//! costed by how well it tracks the fan. The geometry does the planning; the model only
//! has to track.
use vstd::prelude::*;

use crate::control::CtbrCmd;
use crate::gates::{Course, Gate};
use crate::linalg::Vec3;
use crate::mppi::{
    fill, repeat, shift_plan, to_arrays, to_cmds, z_floor, Controller, MppiConfig,
};
use crate::params::{gravity, QuadParamsInput};
use crate::rng::Rng;
use crate::rollout::JepaRollout;
use crate::sampling::{guard_cost, softmax};
use crate::scalar::{Real, Wide};
use crate::se3::{FlatRef, Se3Control};
use crate::state::State;

verus! {

/// Points of one spline.
pub const POINTS: usize = 24;

/// Splines of the fan.
pub const FAN: usize = 4;

#[derive(Clone, Copy, Debug)]
pub struct SplineMppiConfig<S> {
    /// The shared planning parameters.
    pub base: MppiConfig<S>,
    /// Penalty on the squared distance from the fan.
    pub w_contour: S,
    /// Penalty on velocity across the spline.
    pub w_vperp: S,
    /// Reward for speed along the spline.
    pub w_vprog: S,
    /// Reward for getting far along the spline.
    pub w_progress: S,
    pub w_floor: S,
    pub gate_reward: S,
}

impl<S: Real> SplineMppiConfig<S> {
    pub open spec fn spec_for_mass(mass: S) -> Self {
        SplineMppiConfig {
            base: MppiConfig {
                horizon: 12,
                samples: 48,
                sigma_rate: S::spec_splat(16, 10),
                sigma_thrust: S::spec_splat(12, 100) * mass * crate::params::spec_gravity::<S>(),
                rate_max: S::spec_splat(6, 1),
                beta: S::spec_splat(85, 100),
                lambda: S::spec_splat(4, 10),
                v_max: S::spec_splat(4, 1),
                w_speed: S::spec_splat(15, 10),
                trust_lambda: S::spec_splat(1000, 1),
                ..MppiConfig::spec_for_mass(mass)
            },
            w_contour: S::spec_splat(6, 1),
            w_vperp: S::spec_splat(4, 10),
            w_vprog: S::spec_splat(12, 10),
            w_progress: S::spec_splat(8, 1),
            w_floor: S::spec_splat(600, 1),
            gate_reward: S::spec_splat(60, 1),
        }
    }

    /// Defaults for a quadrotor of this mass.
    pub fn for_mass(mass: S) -> (r: Self)
        ensures
            r == Self::spec_for_mass(mass),
    {
        let mut base = MppiConfig::for_mass(mass);
        base.horizon = 12;
        base.samples = 48;
        base.sigma_rate = S::splat(16, 10);
        base.sigma_thrust = S::splat(12, 100).mul(mass).mul(gravity::<S>());
        base.rate_max = S::splat(6, 1);
        base.beta = S::splat(85, 100);
        base.lambda = S::splat(4, 10);
        base.v_max = S::splat(4, 1);
        base.w_speed = S::splat(15, 10);
        base.trust_lambda = S::splat(1000, 1);
        SplineMppiConfig {
            base,
            w_contour: S::splat(6, 1),
            w_vperp: S::splat(4, 10),
            w_vprog: S::splat(12, 10),
            w_progress: S::splat(8, 1),
            w_floor: S::splat(600, 1),
            gate_reward: S::splat(60, 1),
        }
    }
}

// ---------------------------------------------------------------------------
// The fan of splines
// ---------------------------------------------------------------------------
/// What a cubic Hermite spline runs between: a start and an end, with their tangents.
#[derive(Clone, Copy, Debug)]
pub struct Hermite<S> {
    pub p0: Vec3<S>,
    pub m0: Vec3<S>,
    pub p1: Vec3<S>,
    pub m1: Vec3<S>,
}

impl<S: Real> Hermite<S> {
    /// The point at parameter `s`.
    pub open spec fn spec_point(self, s: S) -> Vec3<S> {
        let (s2, s3) = (s * s, s * s * s);
        let (two, three, one) = (S::spec_splat(2, 1), S::spec_splat(3, 1), S::spec_one());
        self.p0.spec_scale(two * s3 - three * s2 + one) + self.m0.spec_scale(s3 - two * s2 + s)
            + self.p1.spec_scale(S::spec_splat(-2, 1) * s3 + three * s2) + self.m1.spec_scale(
            s3 - s2,
        )
    }

    /// The derivative at parameter `s`.
    pub open spec fn spec_slope(self, s: S) -> Vec3<S> {
        let s2 = s * s;
        let (two, three, four, six) = (
            S::spec_splat(2, 1),
            S::spec_splat(3, 1),
            S::spec_splat(4, 1),
            S::spec_splat(6, 1),
        );
        self.p0.spec_scale(six * s2 - six * s) + self.m0.spec_scale(
            three * s2 - four * s + S::spec_one(),
        ) + self.p1.spec_scale(S::spec_splat(-6, 1) * s2 + six * s) + self.m1.spec_scale(
            three * s2 - two * s,
        )
    }

    /// The unit tangent at parameter `s`.
    pub open spec fn spec_tangent(self, s: S) -> Vec3<S> {
        let d = self.spec_slope(s);
        d.spec_scale(S::spec_one() / d.spec_norm().spec_max(S::spec_splat(1, 1000000)))
    }

    fn point(&self, s: S) -> (r: Vec3<S>)
        ensures
            r == self.spec_point(s),
    {
        let s2 = s.mul(s);
        let s3 = s.mul(s).mul(s);
        let (two, three, one) = (S::splat(2, 1), S::splat(3, 1), S::one());
        self.p0.scale(two.mul(s3).sub(three.mul(s2)).add(one)).add(
            self.m0.scale(s3.sub(two.mul(s2)).add(s)),
        ).add(self.p1.scale(S::splat(-2, 1).mul(s3).add(three.mul(s2)))).add(
            self.m1.scale(s3.sub(s2)),
        )
    }

    fn tangent(&self, s: S) -> (r: Vec3<S>)
        ensures
            r == self.spec_tangent(s),
    {
        let s2 = s.mul(s);
        let (two, three) = (S::splat(2, 1), S::splat(3, 1));
        let (four, six) = (S::splat(4, 1), S::splat(6, 1));
        let d = self.p0.scale(six.mul(s2).sub(six.mul(s))).add(
            self.m0.scale(three.mul(s2).sub(four.mul(s)).add(S::one())),
        ).add(self.p1.scale(S::splat(-6, 1).mul(s2).add(six.mul(s)))).add(
            self.m1.scale(three.mul(s2).sub(two.mul(s))),
        );
        d.scale(S::one().div(d.norm().max(S::splat(1, 1000000))))
    }
}

/// How sharply spline `k` of the fan commits to the normal.
pub open spec fn spec_tension<S: Real>(k: int) -> S {
    if k == 0 {
        S::spec_splat(5, 10)
    } else if k == 1 {
        S::spec_splat(9, 10)
    } else if k == 2 {
        S::spec_splat(14, 10)
    } else {
        S::spec_splat(2, 1)
    }
}

fn tension<S: Real>(k: usize) -> (r: S)
    ensures
        r == spec_tension::<S>(k as int),
{
    if k == 0 {
        S::splat(5, 10)
    } else if k == 1 {
        S::splat(9, 10)
    } else if k == 2 {
        S::splat(14, 10)
    } else {
        S::splat(2, 1)
    }
}

/// The normal of a gate, turned to the side on which the drone leaves.
pub open spec fn spec_exit_normal<S: Real>(p0: Vec3<S>, g: Gate<S>) -> Vec3<S> {
    if g.normal.spec_dot(g.center - p0) < S::spec_zero() {
        g.normal.spec_scale(S::spec_splat(-1, 1))
    } else {
        g.normal
    }
}

/// Spline `k` of the fan: from `p0` along `v0` to the centre of a gate along its normal.
pub open spec fn spec_fan<S: Real>(p0: Vec3<S>, v0: Vec3<S>, g: Gate<S>, k: int) -> Hermite<S> {
    let to_gate = g.center - p0;
    let half = S::spec_splat(5, 10);
    let l = to_gate.spec_norm().spec_max(half);
    let n = spec_exit_normal(p0, g);
    let nhat = n.spec_scale(S::spec_one() / n.spec_norm().spec_max(S::spec_splat(1, 1000000)));
    Hermite {
        p0,
        m0: if half < v0.spec_norm() {
            v0.spec_scale(l / v0.spec_norm())
        } else {
            to_gate
        },
        p1: g.center,
        m1: nhat.spec_scale(l * spec_tension(k)),
    }
}

fn fan<S: Real>(p0: Vec3<S>, v0: Vec3<S>, g: &Gate<S>, k: usize) -> (r: Hermite<S>)
    ensures
        r == spec_fan(p0, v0, *g, k as int),
{
    let to_gate = g.center.sub(p0);
    let half = S::splat(5, 10);
    let l = to_gate.norm().max(half);
    let m0 = if half.lt(v0.norm()) {
        v0.scale(l.div(v0.norm()))
    } else {
        to_gate
    };
    let mut n = g.normal;
    if n.dot(to_gate).lt(S::zero()) {
        n = n.scale(S::splat(-1, 1));
    }
    let nhat = n.scale(S::one().div(n.norm().max(S::splat(1, 1000000))));
    let m1 = nhat.scale(l.mul(tension(k)));
    Hermite { p0, m0, p1: g.center, m1 }
}

/// The parameter of vertex `i` of a spline: from 0 at its start to 1 at its end.
pub open spec fn spec_progress<S: Real>(i: int) -> S {
    S::spec_splat(i, 1) / S::spec_splat(23, 1)
}

/// The points, unit tangents and parameters of the vertices of the whole fan, spline by
/// spline.
pub open spec fn spec_splines<S: Real>(p0: Vec3<S>, v0: Vec3<S>, g: Gate<S>) -> (
    Seq<Vec3<S>>,
    Seq<Vec3<S>>,
    Seq<S>,
) {
    (
        Seq::new(96, |j: int| spec_fan(p0, v0, g, j / 24).spec_point(spec_progress(j % 24))),
        Seq::new(96, |j: int| spec_fan(p0, v0, g, j / 24).spec_tangent(spec_progress(j % 24))),
        Seq::new(96, |j: int| spec_progress::<S>(j % 24)),
    )
}

/// The fan of splines from `p0`, moving with `v0`, to a gate.
pub fn build_splines<S: Real>(p0: Vec3<S>, v0: Vec3<S>, g: &Gate<S>) -> (r: (
    Vec<Vec3<S>>,
    Vec<Vec3<S>>,
    Vec<S>,
))
    ensures
        (r.0@, r.1@, r.2@) == spec_splines(p0, v0, *g),
{
    let mut pts: Vec<Vec3<S>> = Vec::new();
    let mut tan: Vec<Vec3<S>> = Vec::new();
    let mut prog: Vec<S> = Vec::new();
    for j in 0..FAN * POINTS
        invariant
            pts@.len() == j,
            tan@.len() == j,
            prog@.len() == j,
            forall|q: int|
                0 <= q < j ==> #[trigger] pts@[q] == spec_fan(p0, v0, *g, q / 24).spec_point(
                    spec_progress(q % 24),
                ),
            forall|q: int|
                0 <= q < j ==> #[trigger] tan@[q] == spec_fan(p0, v0, *g, q / 24).spec_tangent(
                    spec_progress(q % 24),
                ),
            forall|q: int| 0 <= q < j ==> #[trigger] prog@[q] == spec_progress::<S>(q % 24),
    {
        let c = fan(p0, v0, g, j / POINTS);
        let i: usize = j % POINTS;
        let s = S::splat(i as i128, 1).div(S::splat(23, 1));
        pts.push(c.point(s));
        tan.push(c.tangent(s));
        prog.push(s);
    }
    proof {
        let (a, b, c) = spec_splines(p0, v0, *g);
        assert(pts@ =~= a);
        assert(tan@ =~= b);
        assert(prog@ =~= c);
    }
    (pts, tan, prog)
}

// ---------------------------------------------------------------------------
// The cost of a rollout
// ---------------------------------------------------------------------------
/// Squared distance between two points.
pub open spec fn dist_sq<S: Real>(p: Vec3<S>, q: Vec3<S>) -> S {
    (p - q).spec_dot(p - q)
}

/// Among the first `n` vertices the first one nearest to `p`, with its squared distance.
pub open spec fn nearest<S: Real>(pts: Seq<Vec3<S>>, p: Vec3<S>, n: nat) -> (int, S)
    decreases n,
{
    if n == 0 {
        (0, S::spec_infinity())
    } else {
        let (j, d) = nearest(pts, p, (n - 1) as nat);
        let e = dist_sq(p, pts[n - 1]);
        if e < d {
            (n - 1, e)
        } else {
            (j, d)
        }
    }
}

/// The fan that rollouts are held against.
pub struct Fan<S> {
    pub pts: Seq<Vec3<S>>,
    pub tan: Seq<Vec3<S>>,
    pub prog: Seq<S>,
}

/// The farthest progress over the first `n` steps.
pub open spec fn progress_upto<S: Real>(f: Fan<S>, traj: Seq<Vec3<S>>, n: nat) -> S
    decreases n,
{
    if n == 0 {
        S::spec_zero()
    } else {
        let (j, _) = nearest(f.pts, traj[n - 1], f.pts.len());
        progress_upto(f, traj, (n - 1) as nat).spec_max(f.prog[j])
    }
}

/// The index of that gate which is due after `n` steps of the rollout.
pub open spec fn gate_due<S: Real>(
    start: Vec3<S>,
    traj: Seq<Vec3<S>>,
    course: Course<S>,
    n: nat,
) -> int
    decreases n,
{
    if n == 0 {
        course.next as int
    } else {
        let i = gate_due(start, traj, course, (n - 1) as nat);
        let prev = crate::mppi::before_step(start, traj, n - 1);
        if i < course.gates@.len() && course.gates@[i].spec_crossed(prev, traj[n - 1]) {
            i + 1
        } else {
            i
        }
    }
}

/// `cost` plus what one step `prev -> p` adds: distance from the fan, velocity across it,
/// less forward speed, the speed cap and the floor.
pub open spec fn track_cost<S: Real>(
    cfg: SplineMppiConfig<S>,
    f: Fan<S>,
    prev: Vec3<S>,
    p: Vec3<S>,
    cost: S,
) -> S {
    let v = (p - prev).spec_scale(S::spec_one() / cfg.base.dt);
    let (j, d) = nearest(f.pts, p, f.pts.len());
    let along = v.spec_dot(f.tan[j]);
    let across = v - f.tan[j].spec_scale(along);
    let near = cost + cfg.w_contour * d;
    let straight = near + cfg.w_vperp * across.spec_dot(across);
    let forward = straight - cfg.w_vprog * along.spec_max(S::spec_zero());
    let speed = v.spec_norm();
    let (vm, ws) = (cfg.base.v_max, cfg.base.w_speed);
    let capped = if vm < speed {
        forward + ws * (speed - vm) * (speed - vm)
    } else {
        forward
    };
    let floor = crate::mppi::spec_z_floor::<S>();
    if p.z < floor {
        capped + cfg.w_floor * (floor - p.z) * (floor - p.z)
    } else {
        capped
    }
}

/// The cost of the first `n` steps.
pub open spec fn contour_upto<S: Real>(
    cfg: SplineMppiConfig<S>,
    f: Fan<S>,
    start: Vec3<S>,
    traj: Seq<Vec3<S>>,
    course: Course<S>,
    n: nat,
) -> S
    decreases n,
{
    if n == 0 {
        S::spec_zero()
    } else {
        let k = n - 1;
        let prev = crate::mppi::before_step(start, traj, k);
        let c = track_cost(
            cfg,
            f,
            prev,
            traj[k],
            contour_upto(cfg, f, start, traj, course, k as nat),
        );
        let i = gate_due(start, traj, course, k as nat);
        if i < course.gates@.len() && course.gates@[i].spec_crossed(prev, traj[k]) {
            c - cfg.gate_reward
        } else {
            c
        }
    }
}

/// The cost of a rollout against the fan: its steps, less its progress.
pub open spec fn spec_contour_cost<S: Real>(
    cfg: SplineMppiConfig<S>,
    f: Fan<S>,
    start: Vec3<S>,
    traj: Seq<Vec3<S>>,
    course: Course<S>,
) -> S {
    contour_upto(cfg, f, start, traj, course, traj.len()) - cfg.w_progress * progress_upto(
        f,
        traj,
        traj.len(),
    )
}

fn find_nearest<S: Real>(pts: &Vec<Vec3<S>>, p: Vec3<S>) -> (r: (usize, S))
    requires
        pts@.len() >= 1,
    ensures
        (r.0 as int, r.1) == nearest(pts@, p, pts@.len()),
        r.0 < pts@.len(),
{
    let mut bj: usize = 0;
    let mut bd = S::infinity();
    for j in 0..pts.len()
        invariant
            (bj as int, bd) == nearest(pts@, p, j as nat),
            bj < pts@.len(),
    {
        let d = p.sub(pts[j]).dot(p.sub(pts[j]));
        if d.lt(bd) {
            bd = d;
            bj = j;
        }
    }
    (bj, bd)
}

/// Cost a rollout against the fan.
pub fn contour_cost<S: Real>(
    cfg: &SplineMppiConfig<S>,
    pts: &Vec<Vec3<S>>,
    tan: &Vec<Vec3<S>>,
    prog: &Vec<S>,
    start: Vec3<S>,
    traj: &Vec<Vec3<S>>,
    course: &Course<S>,
) -> (r: S)
    requires
        pts@.len() >= 1,
        tan@.len() == pts@.len(),
        prog@.len() == pts@.len(),
    ensures
        r == spec_contour_cost(
            *cfg,
            (Fan { pts: pts@, tan: tan@, prog: prog@ }),
            start,
            traj@,
            *course,
        ),
{
    let ghost f = Fan { pts: pts@, tan: tan@, prog: prog@ };
    let inv_dt = S::one().div(cfg.base.dt);
    let mut cost = S::zero();
    let mut prev = start;
    let mut idx: usize = course.next;
    let mut max_prog = S::zero();
    for k in 0..traj.len()
        invariant
            pts@.len() >= 1,
            tan@.len() == pts@.len(),
            prog@.len() == pts@.len(),
            f == (Fan { pts: pts@, tan: tan@, prog: prog@ }),
            inv_dt == S::spec_one() / cfg.base.dt,
            prev == crate::mppi::before_step(start, traj@, k as int),
            idx == gate_due(start, traj@, *course, k as nat),
            max_prog == progress_upto(f, traj@, k as nat),
            cost == contour_upto(*cfg, f, start, traj@, *course, k as nat),
    {
        let p = traj[k];
        let v = p.sub(prev).scale(inv_dt);
        let (bj, bd) = find_nearest(pts, p);
        max_prog = max_prog.max(prog[bj]);
        let th = tan[bj];
        let vlong = v.dot(th);
        let vperp = v.sub(th.scale(vlong));
        cost = cost.add(cfg.w_contour.mul(bd));
        cost = cost.add(cfg.w_vperp.mul(vperp.dot(vperp)));
        cost = cost.sub(cfg.w_vprog.mul(vlong.max(S::zero())));
        let sp = v.norm();
        let vm = cfg.base.v_max;
        if vm.lt(sp) {
            cost = cost.add(cfg.base.w_speed.mul(sp.sub(vm)).mul(sp.sub(vm)));
        }
        if p.z.lt(z_floor()) {
            let d = z_floor::<S>().sub(p.z);
            cost = cost.add(cfg.w_floor.mul(d).mul(d));
        }
        if idx < course.gates.len() && course.gates[idx].crossed(prev, p) {
            cost = cost.sub(cfg.gate_reward);
            idx = idx + 1;
        }
        prev = p;
    }
    cost.sub(cfg.w_progress.mul(max_prog))
}

// ---------------------------------------------------------------------------
// The planner
// ---------------------------------------------------------------------------
/// Which gate to fly to; a point to hold above the ground where none is left.
pub open spec fn spec_aim<S: Real>(state: State<S>, course: Course<S>) -> Gate<S> {
    match course.spec_target() {
        Some(g) => g,
        None => Gate::spec_new(
            Vec3 {
                x: state.x.x,
                y: state.x.y,
                z: state.x.z.spec_max(S::spec_splat(13, 10)),
            },
            Vec3 { x: S::spec_one(), y: S::spec_zero(), z: S::spec_zero() },
            S::spec_one(),
        ),
    }
}

fn aim<S: Real>(state: &State<S>, course: &Course<S>) -> (r: Gate<S>)
    ensures
        r == spec_aim(*state, *course),
{
    match course.target() {
        Some(g) => g,
        None => Gate::new(
            Vec3::new(state.x.x, state.x.y, state.x.z.max(S::splat(13, 10))),
            Vec3::new(S::one(), S::zero(), S::zero()),
            S::one(),
        ),
    }
}

pub struct SplineMppiController<S: Wide> {
    pub model: JepaRollout<S>,
    pub cfg: SplineMppiConfig<S>,
    /// The geometric controller that proposes the plan.
    pub se3: Se3Control<S>,
    /// The warm-started plan.
    pub nominal: Vec<CtbrCmd<S>>,
    pub rng: Rng,
}

impl<S: Wide> SplineMppiController<S> {
    /// There is a plan for every step of the horizon, and the limits make sense.
    pub open spec fn wf(self) -> bool {
        &&& self.model.ready()
        &&& self.cfg.base.bounded()
        &&& 1 <= self.cfg.base.horizon <= self.nominal@.len()
    }

    /// The fan to the next gate.
    pub open spec fn fan_of(state: State<S>, course: Course<S>) -> Fan<S> {
        let (pts, tan, prog) = spec_splines(state.x, state.v, spec_aim(state, course));
        Fan { pts, tan, prog }
    }

    /// The geometric proposal: follow a point a quarter of the way along the second
    /// spline.
    pub open spec fn spec_seed(self, state: State<S>, course: Course<S>) -> CtbrCmd<S> {
        let f = Self::fan_of(state, course);
        let z = S::spec_zero();
        let (thrust, w_cmd) = self.se3.spec_ctbr_seed(
            state,
            FlatRef {
                x: f.pts[30],
                x_dot: f.tan[30].spec_scale(self.cfg.base.v_max),
                x_ddot: Vec3::spec_zero(),
                yaw: z,
                yaw_dot: z,
            },
            S::spec_splat(5, 1),
            self.cfg.base.rate_max,
        );
        CtbrCmd { thrust, w_cmd }
    }

    /// The proposal at every step.
    pub open spec fn seeded(self, state: State<S>, course: Course<S>) -> Seq<CtbrCmd<S>> {
        Seq::new(self.nominal@.len(), |k: int| self.spec_seed(state, course))
    }

    /// The candidate plans about the proposal.
    pub open spec fn spec_candidates(self, state: State<S>, course: Course<S>) -> Seq<
        Seq<[S; 4]>,
    > {
        let b = self.cfg.base;
        b.spec_action_space().spec_candidates(
            crate::mppi::as_arrays(self.seeded(state, course)),
            self.rng@,
            b.beta,
            b.horizon as nat,
            b.samples as nat,
        )
    }

    /// The cost of a candidate.
    pub open spec fn spec_cost(self, state: State<S>, course: Course<S>, cand: Seq<[S; 4]>) -> S {
        crate::sampling::spec_guard_cost(
            spec_contour_cost(
                self.cfg,
                Self::fan_of(state, course),
                state.x,
                self.model.spec_positions(state, cand),
                course,
            ) + self.cfg.base.trust_lambda * self.model.spec_raw_trust(state, cand),
        )
    }

    /// The costs of the candidates.
    pub open spec fn spec_costs(self, state: State<S>, course: Course<S>) -> Seq<S> {
        let cands = self.spec_candidates(state, course);
        Seq::new(cands.len(), |i: int| self.spec_cost(state, course, cands[i]))
    }

    /// The plan: the candidates averaged by the softmax of their costs.
    pub open spec fn spec_plan(self, state: State<S>, course: Course<S>) -> Seq<CtbrCmd<S>> {
        crate::mppi::as_cmds(
            self.cfg.base.spec_action_space().spec_plan(
                self.spec_candidates(state, course),
                crate::sampling::spec_softmax(
                    self.spec_costs(state, course),
                    self.cfg.base.lambda,
                ),
                self.cfg.base.horizon as nat,
            ),
        )
    }

    pub fn new(
        model: JepaRollout<S>,
        cfg: SplineMppiConfig<S>,
        params: &QuadParamsInput<S>,
        seed: u64,
    ) -> (r: Self)
        ensures
            r.model == model,
            r.cfg == cfg,
            r.se3 == Se3Control::spec_new(*params),
            r.nominal@ == Seq::new(cfg.base.horizon as nat, |k: int| cfg.base.spec_hover()),
            r.rng@ == crate::rng::spec_seed(seed),
    {
        SplineMppiController {
            nominal: repeat(cfg.base.hover(), cfg.base.horizon),
            model,
            cfg,
            se3: Se3Control::new(params),
            rng: Rng::new(seed),
        }
    }

    /// Bring the plan back to hover.
    pub fn reset_nominal(&mut self)
        ensures
            final(self).nominal@ == Seq::new(
                old(self).nominal@.len(),
                |k: int| old(self).cfg.base.spec_hover(),
            ),
            final(self).model == old(self).model,
            final(self).cfg == old(self).cfg,
            final(self).se3 == old(self).se3,
            final(self).rng == old(self).rng,
    {
        let hover = self.cfg.base.hover();
        fill(&mut self.nominal, hover);
    }

    /// Centre the plan on a given action.
    pub fn set_nominal_const(&mut self, a: CtbrCmd<S>)
        ensures
            final(self).nominal@ == Seq::new(old(self).nominal@.len(), |k: int| a),
            final(self).model == old(self).model,
            final(self).cfg == old(self).cfg,
            final(self).se3 == old(self).se3,
            final(self).rng == old(self).rng,
    {
        fill(&mut self.nominal, a);
    }

    /// The geometric proposal alone: no model, no sampling.
    pub fn seed_only(&self, state: &State<S>, course: &Course<S>) -> (r: CtbrCmd<S>)
        requires
            -self.cfg.base.rate_max <= self.cfg.base.rate_max,
        ensures
            r == self.spec_seed(*state, *course),
    {
        let gate = aim(state, course);
        let (pts, tan, _prog) = build_splines(state.x, state.v, &gate);
        self.propose(state, &pts, &tan)
    }

    fn propose(&self, state: &State<S>, pts: &Vec<Vec3<S>>, tan: &Vec<Vec3<S>>) -> (r: CtbrCmd<S>)
        requires
            -self.cfg.base.rate_max <= self.cfg.base.rate_max,
            pts@.len() == 96,
            tan@.len() == 96,
        ensures
            r == ({
                let z = S::spec_zero();
                let (thrust, w_cmd) = self.se3.spec_ctbr_seed(
                    *state,
                    FlatRef {
                        x: pts@[30],
                        x_dot: tan@[30].spec_scale(self.cfg.base.v_max),
                        x_ddot: Vec3::spec_zero(),
                        yaw: z,
                        yaw_dot: z,
                    },
                    S::spec_splat(5, 1),
                    self.cfg.base.rate_max,
                );
                CtbrCmd { thrust, w_cmd }
            }),
    {
        let ci: usize = POINTS + POINTS / 4;
        let fref = FlatRef {
            x: pts[ci],
            x_dot: tan[ci].scale(self.cfg.base.v_max),
            x_ddot: Vec3::zero(),
            yaw: S::zero(),
            yaw_dot: S::zero(),
        };
        let (thrust, w_cmd) = self.se3.ctbr_seed(
            state,
            &fref,
            S::splat(5, 1),
            self.cfg.base.rate_max,
        );
        CtbrCmd { thrust, w_cmd }
    }

    /// Hand an executed step to the history of the model.
    pub fn observe(&mut self, state: &State<S>, action: &CtbrCmd<S>)
        requires
            old(self).model.history.h >= 1,
        ensures
            final(self).model.model == old(self).model.model,
            crate::rollout::History::spec_observed(
                old(self).model.history,
                final(self).model.history,
                *state,
                action.spec_to_array(),
            ),
            final(self).cfg == old(self).cfg,
            final(self).se3 == old(self).se3,
            final(self).nominal == old(self).nominal,
            final(self).rng == old(self).rng,
    {
        self.model.observe_raw(state, action.to_array());
    }
}

impl<S: Wide> Controller<S> for SplineMppiController<S> {
    open spec fn ready(&self, state: State<S>, course: Course<S>) -> bool {
        self.wf()
    }

    open spec fn spec_act(&self, state: State<S>, course: Course<S>) -> CtbrCmd<S> {
        self.spec_plan(state, course)[0]
    }

    open spec fn spec_acted(
        before: Self,
        after: Self,
        state: State<S>,
        course: Course<S>,
    ) -> bool {
        &&& after.model == before.model
        &&& after.cfg == before.cfg
        &&& after.se3 == before.se3
        &&& after.nominal@ == crate::sampling::spec_shift(
            before.seeded(state, course),
            before.spec_plan(state, course),
            before.cfg.base.spec_hover(),
        )
        &&& after.rng@ == crate::sampling::after_normals(
            before.rng@,
            4 * before.cfg.base.horizon as nat * before.cfg.base.samples as nat,
        )
    }

    fn act(&mut self, state: &State<S>, course: &Course<S>) -> (r: CtbrCmd<S>) {
        let cfg = self.cfg;
        let gate = aim(state, course);
        let (pts, tan, prog) = build_splines(state.x, state.v, &gate);
        let seed = self.propose(state, &pts, &tan);
        fill(&mut self.nominal, seed);
        assert(self.nominal@ =~= old(self).seeded(*state, *course));
        let space = cfg.base.action_space();
        let arrays = to_arrays(&self.nominal);
        let cands = space.draw_candidates(
            &mut self.rng,
            &arrays,
            cfg.base.beta,
            cfg.base.horizon,
            cfg.base.samples,
        );
        let ghost cs = crate::sampling::deep(cands@);
        let n: usize = cands.len();
        let (trajs, trust) = self.model.rollout_raw_trust(state, cands.as_slice());
        let mut costs: Vec<S> = Vec::new();
        for i in 0..n
            invariant
                n == cands@.len(),
                trajs@.len() == n,
                trust@.len() == n,
                cfg == old(self).cfg,
                self.model == old(self).model,
                (pts@, tan@, prog@) == spec_splines(
                    state.x,
                    state.v,
                    spec_aim(*state, *course),
                ),
                forall|p: int|
                    0 <= p < n ==> (#[trigger] trajs@[p])@ == self.model.spec_positions(
                        *state,
                        cands@[p]@,
                    ),
                forall|p: int|
                    0 <= p < n ==> #[trigger] trust@[p] == self.model.spec_raw_trust(
                        *state,
                        cands@[p]@,
                    ),
                costs@.len() == i,
                forall|p: int|
                    0 <= p < i ==> #[trigger] costs@[p] == old(self).spec_cost(
                        *state,
                        *course,
                        cands@[p]@,
                    ),
        {
            let c = contour_cost(&cfg, &pts, &tan, &prog, state.x, &trajs[i], course);
            let t = trust[i];
            costs.push(guard_cost(c.add(cfg.base.trust_lambda.mul(t))));
        }
        proof {
            assert forall|i: int| 0 <= i < n implies #[trigger] costs@[i] == old(self).spec_cost(
                *state,
                *course,
                cs[i],
            ) by {
                assert(cs[i] == cands@[i]@);
            }
            assert(costs@ =~= old(self).spec_costs(*state, *course));
        }
        let weights = softmax(&costs, cfg.base.lambda);
        let plan = to_cmds(&space.plan(&cands, &weights, cfg.base.horizon));
        assert(plan@ == old(self).spec_plan(*state, *course));
        let action = plan[0];
        shift_plan(&mut self.nominal, &plan, cfg.base.hover());
        action
    }
}

// ---------------------------------------------------------------------------
// Laws
// ---------------------------------------------------------------------------
proof fn lemma_hermite_at(a: real, m: real, b: real, n: real, s: real)
    requires
        s == 0real || s == 1real,
    ensures
        a * (2real * (s * s * s) - 3real * (s * s) + 1real) + m * (s * s * s - 2real * (s * s) + s)
            + b * (-2real * (s * s * s) + 3real * (s * s)) + n * (s * s * s - s * s)
            == if s == 0real {
            a
        } else {
            b
        },
        a * (6real * (s * s) - 6real * s) + m * (3real * (s * s) - 4real * s + 1real) + b * (-6real
            * (s * s) + 6real * s) + n * (3real * (s * s) - 2real * s) == if s == 0real {
            m
        } else {
            n
        },
{
    if s == 0real {
        assert(a * (2real * (s * s * s) - 3real * (s * s) + 1real) + m * (s * s * s - 2real * (s
            * s) + s) + b * (-2real * (s * s * s) + 3real * (s * s)) + n * (s * s * s - s * s)
            == a) by (nonlinear_arith)
            requires
                s == 0real,
        ;
        assert(a * (6real * (s * s) - 6real * s) + m * (3real * (s * s) - 4real * s + 1real) + b
            * (-6real * (s * s) + 6real * s) + n * (3real * (s * s) - 2real * s) == m)
            by (nonlinear_arith)
            requires
                s == 0real,
        ;
    } else {
        assert(a * (2real * (s * s * s) - 3real * (s * s) + 1real) + m * (s * s * s - 2real * (s
            * s) + s) + b * (-2real * (s * s * s) + 3real * (s * s)) + n * (s * s * s - s * s)
            == b) by (nonlinear_arith)
            requires
                s == 1real,
        ;
        assert(a * (6real * (s * s) - 6real * s) + m * (3real * (s * s) - 4real * s + 1real) + b
            * (-6real * (s * s) + 6real * s) + n * (3real * (s * s) - 2real * s) == n)
            by (nonlinear_arith)
            requires
                s == 1real,
        ;
    }
}

/// Without rounding, a spline starts at its first point and ends at its last one, and
/// leaves and arrives along its two tangents.
pub proof fn law_hermite_ends<S: Real>(c: Hermite<S>, s: S)
    requires
        crate::scalar::exact::<S>(),
        s.val() == 0real || s.val() == 1real,
    ensures
        s.val() == 0real ==> c.spec_point(s).same(c.p0) && c.spec_slope(s).same(c.m0),
        s.val() == 1real ==> c.spec_point(s).same(c.p1) && c.spec_slope(s).same(c.m1),
{
    crate::scalar::lemma_splat_int::<S>(2);
    crate::scalar::lemma_splat_int::<S>(-2);
    crate::scalar::lemma_splat_int::<S>(3);
    crate::scalar::lemma_splat_int::<S>(4);
    crate::scalar::lemma_splat_int::<S>(6);
    crate::scalar::lemma_splat_int::<S>(-6);
    let v = s.val();
    lemma_hermite_at(c.p0.x.val(), c.m0.x.val(), c.p1.x.val(), c.m1.x.val(), v);
    lemma_hermite_at(c.p0.y.val(), c.m0.y.val(), c.p1.y.val(), c.m1.y.val(), v);
    lemma_hermite_at(c.p0.z.val(), c.m0.z.val(), c.p1.z.val(), c.m1.z.val(), v);
}

/// Without rounding, every spline of the fan starts at the drone and ends at the centre of
/// its gate, where it runs along the normal.
pub proof fn law_fan_reaches_gate<S: Real>(p0: Vec3<S>, v0: Vec3<S>, g: Gate<S>, k: int)
    requires
        crate::scalar::exact::<S>(),
        0 <= k < FAN,
    ensures
        spec_splines(p0, v0, g).0[24 * k].same(p0),
        spec_splines(p0, v0, g).0[24 * k + 23].same(g.center),
        spec_fan(p0, v0, g, k).spec_slope(spec_progress(23)).same(spec_fan(p0, v0, g, k).m1),
{
    crate::scalar::lemma_splat_int::<S>(0);
    crate::scalar::lemma_splat_int::<S>(23);
    assert(0real / 23real == 0real && 23real / 23real == 1real) by (nonlinear_arith);
    let c = spec_fan(p0, v0, g, k);
    assert((24 * k) / 24 == k && (24 * k) % 24 == 0);
    assert((24 * k + 23) / 24 == k && (24 * k + 23) % 24 == 23);
    law_hermite_ends(c, spec_progress(0));
    law_hermite_ends(c, spec_progress(23));
}

proof fn lemma_norm<S: Real>(u: Vec3<S>)
    requires
        crate::scalar::exact::<S>(),
    ensures
        ({
            let (x, y, z, r) = (u.x.val(), u.y.val(), u.z.val(), u.spec_norm().val());
            r >= 0real && r * r == x * x + y * y + z * z
        }),
{
    let (x, y, z) = (u.x.val(), u.y.val(), u.z.val());
    crate::linalg::lemma_square_sign(x);
    crate::linalg::lemma_square_sign(y);
    crate::linalg::lemma_square_sign(z);
    assert(u.spec_dot(u).val() == x * x + y * y + z * z);
}

/// Where the slope is a positive multiple of `u`, long enough to be normalised, the tangent
/// is the unit vector along `u`.
proof fn lemma_tangent_along<S: Real>(c: Hermite<S>, s: S, u: Vec3<S>, f: real)
    requires
        crate::scalar::exact::<S>(),
        c.spec_slope(s).x.val() == u.x.val() * f,
        c.spec_slope(s).y.val() == u.y.val() * f,
        c.spec_slope(s).z.val() == u.z.val() * f,
        f > 0real,
        1000000real * (u.spec_norm().val() * f) >= 1real,
    ensures
        c.spec_tangent(s).x.val() * u.spec_norm().val() == u.x.val(),
        c.spec_tangent(s).y.val() * u.spec_norm().val() == u.y.val(),
        c.spec_tangent(s).z.val() * u.spec_norm().val() == u.z.val(),
{
    let d = c.spec_slope(s);
    let (x, y, z, r) = (u.x.val(), u.y.val(), u.z.val(), u.spec_norm().val());
    let n = d.spec_norm().val();
    lemma_norm(u);
    lemma_norm(d);
    crate::linalg::lemma_scaled_square(x, f);
    crate::linalg::lemma_scaled_square(y, f);
    crate::linalg::lemma_scaled_square(z, f);
    crate::linalg::lemma_scaled_square(r, f);
    crate::algebra::lemma_dist(f * f, x * x, y * y);
    crate::algebra::lemma_dist(f * f, x * x + y * y, z * z);
    let q = r * f;
    assert(n * n == q * q);
    assert(q > 0real);
    assert(n == q) by (nonlinear_arith)
        requires
            n * n == q * q,
            n >= 0real,
            q > 0real,
    ;
    let tiny = S::spec_splat(1, 1000000);
    crate::scalar::lemma_splat_fraction::<S>(1, 1000000);
    assert(d.spec_norm().spec_max(tiny).val() == n);
    let i = (S::spec_one() / d.spec_norm().spec_max(tiny)).val();
    crate::linalg::lemma_reciprocal(n, i);
    lemma_unscaled(x, f, i, r);
    lemma_unscaled(y, f, i, r);
    lemma_unscaled(z, f, i, r);
}

proof fn lemma_unscaled(x: real, f: real, i: real, r: real)
    requires
        (r * f) * i == 1real,
    ensures
        ((x * f) * i) * r == x,
{
    assert(((x * f) * i) * r == x * ((r * f) * i)) by (nonlinear_arith);
    assert(x * 1real == x) by (nonlinear_arith);
}

/// The length that scales the tangents of the fan is at least half a metre.
proof fn lemma_fan_length<S: Real>(v: Vec3<S>)
    requires
        crate::scalar::exact::<S>(),
    ensures
        v.spec_norm().spec_max(S::spec_splat(5, 10)).val() >= 5real / 10real,
        S::spec_splat(5, 10).val() == 5real / 10real,
{
    crate::scalar::lemma_splat_fraction::<S>(5, 10);
}

/// Without rounding, every spline of the fan to a gate with a unit normal ends along that
/// normal or against it, on the side on which the drone leaves; it starts along the
/// velocity of a drone that moves, and of a slow one along the line to its gate, unless the
/// drone is there already.
pub proof fn law_fan_tangents<S: Real>(p0: Vec3<S>, v0: Vec3<S>, g: Gate<S>, k: int)
    requires
        crate::scalar::exact::<S>(),
        0 <= k < FAN,
        g.normal.spec_dot(g.normal).val() == 1real,
    ensures
        spec_splines(p0, v0, g).1[24 * k + 23].same(spec_exit_normal(p0, g)),
        spec_exit_normal(p0, g).same(g.normal) || spec_exit_normal(p0, g).same(-g.normal),
        v0.spec_norm().val() > 5real / 10real ==> ({
            let t = spec_splines(p0, v0, g).1[24 * k];
            let r = v0.spec_norm().val();
            &&& t.x.val() * r == v0.x.val()
            &&& t.y.val() * r == v0.y.val()
            &&& t.z.val() * r == v0.z.val()
        }),
        v0.spec_norm().val() <= 5real / 10real && 1000000real * (g.center - p0).spec_norm().val()
            >= 1real ==> ({
            let t = spec_splines(p0, v0, g).1[24 * k];
            let to_gate = g.center - p0;
            let r = to_gate.spec_norm().val();
            &&& t.x.val() * r == to_gate.x.val()
            &&& t.y.val() * r == to_gate.y.val()
            &&& t.z.val() * r == to_gate.z.val()
        }),
{
    crate::scalar::lemma_splat_int::<S>(0);
    crate::scalar::lemma_splat_int::<S>(23);
    crate::scalar::lemma_splat_int::<S>(-1);
    crate::scalar::lemma_splat_int::<S>(2);
    crate::scalar::lemma_splat_fraction::<S>(9, 10);
    crate::scalar::lemma_splat_fraction::<S>(14, 10);
    crate::scalar::lemma_splat_fraction::<S>(1, 1000000);
    assert(0real / 23real == 0real && 23real / 23real == 1real) by (nonlinear_arith);
    let c = spec_fan(p0, v0, g, k);
    assert((24 * k) / 24 == k && (24 * k) % 24 == 0);
    assert((24 * k + 23) / 24 == k && (24 * k + 23) % 24 == 23);
    law_hermite_ends(c, spec_progress(0));
    law_hermite_ends(c, spec_progress(23));
    let to_gate = g.center - p0;
    let half = S::spec_splat(5, 10);
    lemma_fan_length(to_gate);
    let l = to_gate.spec_norm().spec_max(half);
    // the end
    let n = spec_exit_normal(p0, g);
    let (x, y, z) = (g.normal.x.val(), g.normal.y.val(), g.normal.z.val());
    lemma_minus_one(x);
    lemma_minus_one(y);
    lemma_minus_one(z);
    assert(n.same(g.normal) || n.same(-g.normal));
    lemma_norm(n);
    let r = n.spec_norm().val();
    assert(r * r == 1real);
    assert(r == 1real) by (nonlinear_arith)
        requires
            r * r == 1real,
            r >= 0real,
    ;
    let tiny = S::spec_splat(1, 1000000);
    assert(n.spec_norm().spec_max(tiny).val() == 1real);
    let i = (S::spec_one() / n.spec_norm().spec_max(tiny)).val();
    crate::linalg::lemma_reciprocal(1real, i);
    let t: S = spec_tension(k);
    let f = (l * t).val();
    assert(t.val() >= 5real / 10real);
    assert(4real * f >= 1real) by (nonlinear_arith)
        requires
            f == l.val() * t.val(),
            l.val() >= 5real / 10real,
            t.val() >= 5real / 10real,
    ;
    lemma_times_reciprocal(n.x.val(), i);
    lemma_times_reciprocal(n.y.val(), i);
    lemma_times_reciprocal(n.z.val(), i);
    assert(1real * f == f) by (nonlinear_arith);
    lemma_tangent_along(c, spec_progress(23), n, f);
    let e = c.spec_tangent(spec_progress(23));
    lemma_times_reciprocal(e.x.val(), r);
    lemma_times_reciprocal(e.y.val(), r);
    lemma_times_reciprocal(e.z.val(), r);
    // the start
    if v0.spec_norm().val() > 5real / 10real {
        let q = v0.spec_norm().val();
        let h = (l / v0.spec_norm()).val();
        assert(h == l.val() / q);
        assert(q * h == l.val() && h > 0real) by (nonlinear_arith)
            requires
                h == l.val() / q,
                q > 5real / 10real,
                l.val() >= 5real / 10real,
        ;
        lemma_tangent_along(c, spec_progress(0), v0, h);
    } else if 1000000real * to_gate.spec_norm().val() >= 1real {
        lemma_times_reciprocal(to_gate.x.val(), 1real);
        lemma_times_reciprocal(to_gate.y.val(), 1real);
        lemma_times_reciprocal(to_gate.z.val(), 1real);
        lemma_times_reciprocal(to_gate.spec_norm().val(), 1real);
        lemma_tangent_along(c, spec_progress(0), to_gate, 1real);
    }
}

proof fn lemma_times_reciprocal(x: real, i: real)
    requires
        i == 1real,
    ensures
        x * i == x,
{
    assert(x * i == x) by (nonlinear_arith)
        requires
            i == 1real,
    ;
}

proof fn lemma_minus_one(x: real)
    ensures
        x * (-1real) == -x,
        (-x) * (-x) == x * x,
{
    assert(x * (-1real) == -x) by (nonlinear_arith);
    assert((-x) * (-x) == x * x) by (nonlinear_arith);
}

impl<S: Wide> SplineMppiController<S> {
    /// The settings of the search are finite, and so is the geometric proposal.
    pub open spec fn finite(self, state: State<S>, course: Course<S>) -> bool {
        &&& crate::sampling::search_finite(
            self.cfg.base.spec_action_space(),
            self.cfg.base.beta,
            self.cfg.base.lambda,
        )
        &&& crate::sampling::all_finite(self.spec_seed(state, course).spec_to_array()@)
    }
}

/// The guard makes every cost finite.
proof fn lemma_costs_finite<S: Wide>(c: SplineMppiController<S>, state: State<S>, course: Course<S>)
    requires
        crate::sampling::searchable::<S>(),
    ensures
        crate::sampling::all_finite(c.spec_costs(state, course)),
{
    crate::sampling::lemma_guarded_costs_finite::<S>();
}

/// Whatever the model predicts, numbers that are not finite included, the planner hands it
/// candidates within the limits and decides on a command within them.
pub proof fn law_spline_action_in_bounds<S: Wide>(
    c: SplineMppiController<S>,
    state: State<S>,
    course: Course<S>,
)
    requires
        crate::sampling::searchable::<S>(),
        c.wf(),
        c.finite(state, course),
    ensures
        c.cfg.base.allows(c.spec_act(state, course)),
        crate::sampling::all_finite(c.spec_act(state, course).spec_to_array()@),
        forall|i: int, k: int|
            0 <= i < c.cfg.base.samples && 0 <= k < c.cfg.base.horizon ==> c.cfg.base.allows(
                CtbrCmd::spec_from_array(#[trigger] c.spec_candidates(state, course)[i][k]),
            ),
{
    let base = c.cfg.base;
    let space = base.spec_action_space();
    let costs = c.spec_costs(state, course);
    lemma_costs_finite(c, state, course);
    let nominal = crate::mppi::as_arrays(c.seeded(state, course));
    assert forall|k: int| 0 <= k < nominal.len() implies crate::sampling::all_finite(
        (#[trigger] nominal[k])@,
    ) by {
        assert(nominal[k] == c.spec_seed(state, course).spec_to_array());
    }
    let t = base.horizon as nat;
    crate::sampling::law_search_in_bounds(
        space,
        nominal,
        c.rng@,
        base.beta,
        base.lambda,
        t,
        costs,
    );
    let cands = c.spec_candidates(state, course);
    let w = crate::sampling::spec_softmax(costs, base.lambda);
    let plan = space.spec_plan(cands, w, t);
    assert(crate::sampling::within(space, plan[0]) && crate::sampling::all_finite(plan[0]@));
    crate::mppi::lemma_within_is_allowed(base, plan[0]);
    assert(c.spec_act(state, course).spec_to_array()@ =~= plan[0]@);
    assert forall|i: int, k: int| 0 <= i < base.samples && 0 <= k < base.horizon implies base.allows(
        CtbrCmd::spec_from_array(#[trigger] cands[i][k]),
    ) by {
        assert(crate::sampling::within(space, cands[i][k]));
        crate::mppi::lemma_within_is_allowed(base, cands[i][k]);
    }
}

/// Without noise the planner decides on its geometric proposal, held within the limits.
pub proof fn law_no_noise_follows_seed<S: Wide>(
    c: SplineMppiController<S>,
    state: State<S>,
    course: Course<S>,
    d: int,
)
    requires
        crate::scalar::exact::<S>(),
        forall|x: S| (#[trigger] x.spec_exp()).val() > 0real,
        c.wf(),
        c.cfg.base.samples >= 1,
        c.cfg.base.sigma_thrust.val() == 0real,
        c.cfg.base.sigma_rate.val() == 0real,
        0 <= d < 4,
    ensures
        c.spec_act(state, course).spec_to_array()[d].val()
            == c.cfg.base.spec_action_space().spec_clamp(
            c.spec_seed(state, course).spec_to_array()@,
        )[d].val(),
{
    let base = c.cfg.base;
    let space = base.spec_action_space();
    let nominal = crate::mppi::as_arrays(c.seeded(state, course));
    assert(nominal[0] == c.spec_seed(state, course).spec_to_array());
    assert(d == 0 || d == 1 || d == 2 || d == 3);
    crate::sampling::law_no_noise_no_change(
        space,
        nominal,
        c.rng@,
        base.beta,
        base.lambda,
        base.horizon as nat,
        c.spec_costs(state, course),
        0,
        d,
    );
}

/// The plan is seeded anew on every call: what stood in it before, from an earlier call,
/// [`SplineMppiController::reset_nominal`] or [`SplineMppiController::set_nominal_const`],
/// has no effect on the decision, nor, within the horizon, on the plan kept for the next
/// call.
pub proof fn law_earlier_plan_has_no_effect<S: Wide>(
    a: SplineMppiController<S>,
    b: SplineMppiController<S>,
    state: State<S>,
    course: Course<S>,
)
    requires
        a.wf(),
        b.wf(),
        b.model == a.model,
        b.cfg == a.cfg,
        b.se3 == a.se3,
        b.rng == a.rng,
    ensures
        b.spec_act(state, course) == a.spec_act(state, course),
        b.spec_plan(state, course) == a.spec_plan(state, course),
        b.spec_candidates(state, course) == a.spec_candidates(state, course),
        forall|k: int|
            0 <= k < a.cfg.base.horizon ==> #[trigger] crate::sampling::spec_shift(
                b.seeded(state, course),
                b.spec_plan(state, course),
                b.cfg.base.spec_hover(),
            )[k] == crate::sampling::spec_shift(
                a.seeded(state, course),
                a.spec_plan(state, course),
                a.cfg.base.spec_hover(),
            )[k],
{
    let base = a.cfg.base;
    let (x, y) = (
        crate::mppi::as_arrays(a.seeded(state, course)),
        crate::mppi::as_arrays(b.seeded(state, course)),
    );
    let seed = a.spec_seed(state, course);
    assert(b.spec_seed(state, course) == seed);
    let (p, q) = (a.spec_candidates(state, course), b.spec_candidates(state, course));
    let space = base.spec_action_space();
    let t = base.horizon as nat;
    assert forall|i: int| 0 <= i < base.samples implies #[trigger] p[i] == q[i] by {
        let from = crate::sampling::after_normals(a.rng@, 4 * t * i as nat);
        assert forall|k: int| 0 <= k < t implies #[trigger] p[i][k] == q[i][k] by {
            assert(x[k] == seed.spec_to_array() && y[k] == seed.spec_to_array());
            assert(p[i][k] == space.candidate_at(x, from, base.beta, k));
            assert(q[i][k] == space.candidate_at(y, from, base.beta, k));
        }
        assert(p[i] =~= q[i]);
    }
    assert(p =~= q);
    let (c, d) = (a.spec_costs(state, course), b.spec_costs(state, course));
    assert forall|i: int| 0 <= i < c.len() implies #[trigger] c[i] == d[i] by {
        assert(a.spec_cost(state, course, p[i]) == b.spec_cost(state, course, q[i]));
    }
    assert(c =~= d);
}

} // verus!
