//! The planner in rotor forces, for a rotor-force world model.
//!
//! Unlike [`crate::mppi::MppiController`] it samples four independent rotor forces per
//! step, with no inner loop to tame the attitude. The cost of a position trajectory and
//! the latent trust region are the same; only the action space differs.
use vstd::prelude::*;

use crate::gates::Course;
use crate::mppi::{fill, repeat, rollout_cost, shift_plan, MppiConfig};
use crate::params::{gravity, NUM_ROTORS};
use crate::rng::Rng;
use crate::rollout::JepaRollout;
use crate::sampling::{guard_cost, softmax, ActionSpace};
use crate::scalar::{Real, Wide};
use crate::state::State;

verus! {

#[derive(Clone, Copy, Debug)]
pub struct RotorMppiConfig<S> {
    /// The shared cost and planning parameters.
    pub base: MppiConfig<S>,
    /// Force of one rotor at hover [N].
    pub hover_force: S,
    /// Lower limit of the force of one rotor [N].
    pub f_min: S,
    /// Upper limit of the force of one rotor [N].
    pub f_max: S,
    /// Exploration deviation of the force of one rotor [N].
    pub sigma_force: S,
    /// Penalty on the squared predicted body rate.
    pub w_omega: S,
    /// Penalty on predicted tilt beyond about 53 degrees.
    pub w_tilt: S,
}

/// The sum of the squares of the first `n` entries.
pub open spec fn sum_squares<S: Real>(x: Seq<S>, n: nat) -> S
    decreases n,
{
    if n == 0 {
        S::spec_zero()
    } else {
        sum_squares(x, (n - 1) as nat) + x[n - 1] * x[n - 1]
    }
}

/// By how much each entry falls short of 0.6.
pub open spec fn tilt_excess<S: Real>(u: Seq<S>) -> Seq<S> {
    Seq::new(u.len(), |k: int| (S::spec_splat(6, 10) - u[k]).spec_max(S::spec_zero()))
}

/// Deviation of each rotor from hover.
pub open spec fn off_hover<S: Real>(f: [S; NUM_ROTORS], hover: S) -> Seq<S> {
    seq![f[0] - hover, f[1] - hover, f[2] - hover, f[3] - hover]
}

/// Squared deviation from hover of each step.
pub open spec fn force_effort<S: Real>(seq: Seq<[S; NUM_ROTORS]>, hover: S) -> Seq<S> {
    Seq::new(seq.len(), |k: int| sum_squares(off_hover(seq[k], hover), 4))
}

fn squares_of<S: Real>(x: &Vec<S>) -> (r: S)
    ensures
        r == sum_squares(x@, x@.len()),
{
    let mut s = S::zero();
    for i in 0..x.len()
        invariant
            s == sum_squares(x@, i as nat),
    {
        s = s.add(x[i].mul(x[i]));
    }
    s
}

fn tilt_of<S: Real>(u: &Vec<S>) -> (r: Vec<S>)
    ensures
        r@ == tilt_excess(u@),
{
    let mut r: Vec<S> = Vec::new();
    for k in 0..u.len()
        invariant
            r@.len() == k,
            forall|p: int|
                0 <= p < k ==> #[trigger] r@[p] == (S::spec_splat(6, 10) - u@[p]).spec_max(
                    S::spec_zero(),
                ),
    {
        r.push(S::splat(6, 10).sub(u[k]).max(S::zero()));
    }
    assert(r@ =~= tilt_excess(u@));
    r
}

fn effort_of<S: Real>(seq: &Vec<[S; NUM_ROTORS]>, hover: S) -> (r: Vec<S>)
    ensures
        r@ == force_effort(seq@, hover),
{
    let mut r: Vec<S> = Vec::new();
    for k in 0..seq.len()
        invariant
            r@.len() == k,
            forall|p: int|
                0 <= p < k ==> #[trigger] r@[p] == sum_squares(off_hover(seq@[p], hover), 4),
    {
        let f = seq[k];
        let mut s = S::zero();
        for j in 0..NUM_ROTORS
            invariant
                s == sum_squares(off_hover(f, hover), j as nat),
        {
            let d = f[j].sub(hover);
            assert(d == off_hover(f, hover)[j as int]);
            s = s.add(d.mul(d));
        }
        r.push(s);
    }
    assert(r@ =~= force_effort(seq@, hover));
    r
}

impl<S: Real> RotorMppiConfig<S> {
    pub open spec fn spec_for_mass(mass: S) -> Self {
        let hover = mass * crate::params::spec_gravity::<S>();
        let hover_force = hover / S::spec_splat(4, 1);
        RotorMppiConfig {
            base: MppiConfig {
                beta: S::spec_splat(85, 100),
                ..MppiConfig::spec_for_mass(mass)
            },
            hover_force,
            f_min: S::spec_zero(),
            f_max: S::spec_splat(4, 1) * hover_force,
            sigma_force: S::spec_splat(3, 10) * hover_force,
            w_omega: S::spec_zero(),
            w_tilt: S::spec_splat(12, 1),
        }
    }

    /// Defaults for a quadrotor of this mass. There is no damping of the body rate: it
    /// would keep a good model from tilting enough to race.
    pub fn for_mass(mass: S) -> (r: Self)
        ensures
            r == Self::spec_for_mass(mass),
    {
        let hover = mass.mul(gravity::<S>());
        let hover_force = hover.div(S::splat(4, 1));
        let mut base = MppiConfig::for_mass(mass);
        base.beta = S::splat(85, 100);
        RotorMppiConfig {
            base,
            hover_force,
            f_min: S::zero(),
            f_max: S::splat(4, 1).mul(hover_force),
            sigma_force: S::splat(3, 10).mul(hover_force),
            w_omega: S::zero(),
            w_tilt: S::splat(12, 1),
        }
    }

    /// The four force channels of the search.
    pub open spec fn spec_action_space(self) -> ActionSpace<S> {
        let (s, lo, hi) = (self.sigma_force, self.f_min, self.f_max);
        ActionSpace { sigma: [s, s, s, s], lo: [lo, lo, lo, lo], hi: [hi, hi, hi, hi] }
    }

    pub fn action_space(&self) -> (r: ActionSpace<S>)
        ensures
            r == self.spec_action_space(),
            self.f_min <= self.f_max ==> r.wf(),
    {
        let (s, lo, hi) = (self.sigma_force, self.f_min, self.f_max);
        ActionSpace { sigma: [s, s, s, s], lo: [lo, lo, lo, lo], hi: [hi, hi, hi, hi] }
    }

    /// Hover on every rotor.
    pub open spec fn spec_hover(self) -> [S; NUM_ROTORS] {
        [self.hover_force, self.hover_force, self.hover_force, self.hover_force]
    }

    pub fn hover(&self) -> (r: [S; NUM_ROTORS])
        ensures
            r == self.spec_hover(),
    {
        [self.hover_force, self.hover_force, self.hover_force, self.hover_force]
    }
}

pub struct RotorMppiController<S: Wide> {
    pub model: JepaRollout<S>,
    pub cfg: RotorMppiConfig<S>,
    /// The warm-started plan.
    pub nominal: Vec<[S; NUM_ROTORS]>,
    pub rng: Rng,
}

impl<S: Wide> RotorMppiController<S> {
    /// There is a plan for every step of the horizon, and the limits make sense.
    pub open spec fn wf(self) -> bool {
        &&& self.model.ready()
        &&& self.cfg.f_min <= self.cfg.f_max
        &&& 1 <= self.cfg.base.horizon <= self.nominal@.len()
    }

    /// The candidate plans of the next decision.
    pub open spec fn spec_candidates(self) -> Seq<Seq<[S; 4]>> {
        self.cfg.spec_action_space().spec_candidates(
            self.nominal@,
            self.rng@,
            self.cfg.base.beta,
            self.cfg.base.horizon as nat,
            self.cfg.base.samples as nat,
        )
    }

    /// The cost of a candidate: that of its predicted trajectory, its trust penalty, and
    /// what its predicted body rates and tilts add.
    pub open spec fn spec_cost(self, state: State<S>, course: Course<S>, seq: Seq<[S; 4]>) -> S {
        let base = self.cfg.base;
        let flown = crate::mppi::spec_rollout_cost(
            state.x,
            self.model.spec_positions(state, seq),
            force_effort(seq, self.cfg.hover_force),
            course,
            base,
        );
        let trusted = flown + base.trust_lambda * self.model.spec_raw_trust(state, seq);
        let rates = self.model.spec_rates(state, seq);
        let damped = trusted + self.cfg.w_omega * sum_squares(rates, rates.len());
        let tilts = tilt_excess(self.model.spec_uprights(state, seq));
        crate::sampling::spec_guard_cost(
            damped + self.cfg.w_tilt * sum_squares(tilts, tilts.len()),
        )
    }

    /// The costs of the candidates.
    pub open spec fn spec_costs(self, state: State<S>, course: Course<S>) -> Seq<S> {
        let cands = self.spec_candidates();
        Seq::new(cands.len(), |i: int| self.spec_cost(state, course, cands[i]))
    }

    /// The plan: the candidates averaged by the softmax of their costs.
    pub open spec fn spec_plan(self, state: State<S>, course: Course<S>) -> Seq<[S; 4]> {
        self.cfg.spec_action_space().spec_plan(
            self.spec_candidates(),
            crate::sampling::spec_softmax(self.spec_costs(state, course), self.cfg.base.lambda),
            self.cfg.base.horizon as nat,
        )
    }

    pub fn new(model: JepaRollout<S>, cfg: RotorMppiConfig<S>, seed: u64) -> (r: Self)
        ensures
            r.model == model,
            r.cfg == cfg,
            r.nominal@ == Seq::new(cfg.base.horizon as nat, |k: int| cfg.spec_hover()),
            r.rng@ == crate::rng::spec_seed(seed),
    {
        RotorMppiController {
            nominal: repeat(cfg.hover(), cfg.base.horizon),
            model,
            cfg,
            rng: Rng::new(seed),
        }
    }

    /// Bring the plan back to hover, so that after a respawn a stale diving plan is not
    /// flown again.
    pub fn reset_nominal(&mut self)
        ensures
            final(self).nominal@ == Seq::new(
                old(self).nominal@.len(),
                |k: int| old(self).cfg.spec_hover(),
            ),
            final(self).model == old(self).model,
            final(self).cfg == old(self).cfg,
            final(self).rng == old(self).rng,
    {
        let hover = self.cfg.hover();
        fill(&mut self.nominal, hover);
    }

    /// Hand an executed step to the history of the model.
    pub fn observe(&mut self, state: &State<S>, action: [S; NUM_ROTORS])
        requires
            old(self).model.history.h >= 1,
        ensures
            final(self).model.model == old(self).model.model,
            crate::rollout::History::spec_observed(
                old(self).model.history,
                final(self).model.history,
                *state,
                action,
            ),
            final(self).cfg == old(self).cfg,
            final(self).nominal == old(self).nominal,
            final(self).rng == old(self).rng,
    {
        self.model.observe_raw(state, action);
    }

    /// The costs of drawn candidates.
    fn costs(&self, state: &State<S>, course: &Course<S>, cands: &Vec<Vec<[S; 4]>>) -> (r: Vec<S>)
        requires
            self.wf(),
            course.next + self.cfg.base.horizon <= usize::MAX,
            forall|i: int|
                0 <= i < cands@.len() ==> (#[trigger] cands@[i])@.len() == self.cfg.base.horizon,
        ensures
            r@.len() == cands@.len(),
            forall|i: int|
                0 <= i < cands@.len() ==> #[trigger] r@[i] == self.spec_cost(
                    *state,
                    *course,
                    cands@[i]@,
                ),
    {
        let n: usize = cands.len();
        let (trajs, oms, uprs, trust) = self.model.rollout_raw_trust_om(state, cands.as_slice());
        let mut costs: Vec<S> = Vec::new();
        for i in 0..n
            invariant
                n == cands@.len(),
                course.next + self.cfg.base.horizon <= usize::MAX,
                trajs@.len() == n,
                oms@.len() == n,
                uprs@.len() == n,
                trust@.len() == n,
                forall|p: int|
                    0 <= p < n ==> (#[trigger] cands@[p])@.len() == self.cfg.base.horizon,
                forall|p: int|
                    0 <= p < n ==> (#[trigger] trajs@[p])@ == self.model.spec_positions(
                        *state,
                        cands@[p]@,
                    ),
                forall|p: int|
                    0 <= p < n ==> (#[trigger] oms@[p])@ == self.model.spec_rates(
                        *state,
                        cands@[p]@,
                    ),
                forall|p: int|
                    0 <= p < n ==> (#[trigger] uprs@[p])@ == self.model.spec_uprights(
                        *state,
                        cands@[p]@,
                    ),
                forall|p: int|
                    0 <= p < n ==> #[trigger] trust@[p] == self.model.spec_raw_trust(
                        *state,
                        cands@[p]@,
                    ),
                costs@.len() == i,
                forall|p: int|
                    0 <= p < i ==> #[trigger] costs@[p] == self.spec_cost(
                        *state,
                        *course,
                        cands@[p]@,
                    ),
        {
            let eff = effort_of(&cands[i], self.cfg.hover_force);
            assert(cands@[i as int]@.len() == self.cfg.base.horizon);
            let mut c = rollout_cost(state.x, &trajs[i], &eff, course, &self.cfg.base);
            let t = trust[i];
            c = c.add(self.cfg.base.trust_lambda.mul(t));
            c = c.add(self.cfg.w_omega.mul(squares_of(&oms[i])));
            c = c.add(self.cfg.w_tilt.mul(squares_of(&tilt_of(&uprs[i]))));
            costs.push(guard_cost(c));
        }
        costs
    }

    /// Decide on the rotor forces [N] of the next step.
    pub fn act(&mut self, state: &State<S>, course: &Course<S>) -> (r: [S; NUM_ROTORS])
        requires
            old(self).wf(),
            course.next + old(self).cfg.base.horizon <= usize::MAX,
        ensures
            r == old(self).spec_plan(*state, *course)[0],
            final(self).model == old(self).model,
            final(self).cfg == old(self).cfg,
            final(self).nominal@ == crate::sampling::spec_shift(
                old(self).nominal@,
                old(self).spec_plan(*state, *course),
                old(self).cfg.spec_hover(),
            ),
            final(self).rng@ == crate::sampling::after_normals(
                old(self).rng@,
                4 * old(self).cfg.base.horizon as nat * old(self).cfg.base.samples as nat,
            ),
    {
        let cfg = self.cfg;
        let t: usize = cfg.base.horizon;
        let space = cfg.action_space();
        let cands = space.draw_candidates(
            &mut self.rng,
            &self.nominal,
            cfg.base.beta,
            t,
            cfg.base.samples,
        );
        let ghost cs = crate::sampling::deep(cands@);
        let costs = self.costs(state, course, &cands);
        proof {
            assert forall|i: int| 0 <= i < cands@.len() implies #[trigger] costs@[i]
                == old(self).spec_cost(*state, *course, cs[i]) by {
                assert(costs@[i] == self.spec_cost(*state, *course, cands@[i]@));
            }
            assert(costs@ =~= old(self).spec_costs(*state, *course));
        }
        let weights = softmax(&costs, cfg.base.lambda);
        let plan = space.plan(&cands, &weights, t);
        assert(plan@ == old(self).spec_plan(*state, *course));
        let action = plan[0];
        shift_plan(&mut self.nominal, &plan, cfg.hover());
        action
    }
}

// ---------------------------------------------------------------------------
// Laws
// ---------------------------------------------------------------------------
impl<S: Wide> RotorMppiController<S> {
    /// The settings of the search and its plan are finite.
    pub open spec fn finite(self) -> bool {
        &&& crate::sampling::search_finite(
            self.cfg.spec_action_space(),
            self.cfg.base.beta,
            self.cfg.base.lambda,
        )
        &&& self.cfg.hover_force.spec_is_finite()
        &&& crate::sampling::plan_finite(self.nominal@)
    }
}

impl<S: Real> RotorMppiConfig<S> {
    /// The force of every rotor lies within its limits.
    pub open spec fn allows(self, f: [S; NUM_ROTORS]) -> bool {
        &&& self.f_min <= f[0] && f[0] <= self.f_max
        &&& self.f_min <= f[1] && f[1] <= self.f_max
        &&& self.f_min <= f[2] && f[2] <= self.f_max
        &&& self.f_min <= f[3] && f[3] <= self.f_max
    }
}

proof fn lemma_within_is_allowed<S: Real>(cfg: RotorMppiConfig<S>, f: [S; NUM_ROTORS])
    requires
        crate::sampling::within(cfg.spec_action_space(), f),
    ensures
        cfg.allows(f),
{
    let space = cfg.spec_action_space();
    assert(space.lo[0] <= f[0] && f[0] <= space.hi[0]);
    assert(space.lo[1] <= f[1] && f[1] <= space.hi[1]);
    assert(space.lo[2] <= f[2] && f[2] <= space.hi[2]);
    assert(space.lo[3] <= f[3] && f[3] <= space.hi[3]);
}

proof fn lemma_shift_stays_finite<S: Real>(
    nominal: Seq<[S; 4]>,
    plan: Seq<[S; 4]>,
    hover: [S; 4],
)
    requires
        crate::sampling::plan_finite(nominal),
        crate::sampling::plan_finite(plan),
        crate::sampling::all_finite(hover@),
    ensures
        crate::sampling::plan_finite(crate::sampling::spec_shift(nominal, plan, hover)),
{
    let r = crate::sampling::spec_shift(nominal, plan, hover);
    assert forall|k: int| 0 <= k < r.len() implies crate::sampling::all_finite(
        (#[trigger] r[k])@,
    ) by {
        if k + 1 < plan.len() {
            assert(crate::sampling::all_finite(plan[k + 1]@));
        } else if k + 1 != plan.len() {
            assert(crate::sampling::all_finite(nominal[k]@));
        }
    }
}

/// The guard makes every cost finite.
proof fn lemma_costs_finite<S: Wide>(c: RotorMppiController<S>, state: State<S>, course: Course<S>)
    requires
        crate::sampling::searchable::<S>(),
    ensures
        crate::sampling::all_finite(c.spec_costs(state, course)),
{
    crate::sampling::lemma_guarded_costs_finite::<S>();
}

/// Whatever the model predicts, numbers that are not finite included, the forces that the
/// planner decides on, and those of every candidate, lie within the limits of a rotor; and
/// the plan it keeps for the next call is finite again.
pub proof fn law_forces_in_bounds<S: Wide>(
    c: RotorMppiController<S>,
    state: State<S>,
    course: Course<S>,
)
    requires
        crate::sampling::searchable::<S>(),
        c.wf(),
        c.finite(),
    ensures
        c.cfg.allows(c.spec_plan(state, course)[0]),
        crate::sampling::all_finite(c.spec_plan(state, course)[0]@),
        forall|i: int, k: int|
            0 <= i < c.cfg.base.samples && 0 <= k < c.cfg.base.horizon ==> c.cfg.allows(
                #[trigger] c.spec_candidates()[i][k],
            ),
        crate::sampling::plan_finite(
            crate::sampling::spec_shift(
                c.nominal@,
                c.spec_plan(state, course),
                c.cfg.spec_hover(),
            ),
        ),
{
    let space = c.cfg.spec_action_space();
    let costs = c.spec_costs(state, course);
    lemma_costs_finite(c, state, course);
    crate::sampling::law_search_in_bounds(
        space,
        c.nominal@,
        c.rng@,
        c.cfg.base.beta,
        c.cfg.base.lambda,
        c.cfg.base.horizon as nat,
        costs,
    );
    let plan = c.spec_plan(state, course);
    let cands = c.spec_candidates();
    assert(crate::sampling::within(space, plan[0]) && crate::sampling::all_finite(plan[0]@));
    lemma_within_is_allowed(c.cfg, plan[0]);
    assert forall|i: int, k: int|
        0 <= i < c.cfg.base.samples && 0 <= k < c.cfg.base.horizon implies c.cfg.allows(
        #[trigger] cands[i][k],
    ) by {
        lemma_within_is_allowed(c.cfg, cands[i][k]);
    }
    lemma_shift_stays_finite(c.nominal@, plan, c.cfg.spec_hover());
}

/// Without noise a planner whose plan is hover, as that of a fresh one is, decides on hover.
pub proof fn law_no_noise_hovers<S: Wide>(
    c: RotorMppiController<S>,
    state: State<S>,
    course: Course<S>,
    j: int,
)
    requires
        crate::scalar::exact::<S>(),
        forall|x: S| (#[trigger] x.spec_exp()).val() > 0real,
        c.wf(),
        c.cfg.base.samples >= 1,
        c.cfg.sigma_force.val() == 0real,
        c.cfg.f_min <= c.cfg.hover_force,
        c.cfg.hover_force <= c.cfg.f_max,
        c.nominal@[0] == c.cfg.spec_hover(),
        0 <= j < NUM_ROTORS,
    ensures
        c.spec_plan(state, course)[0][j].val() == c.cfg.hover_force.val(),
{
    let space = c.cfg.spec_action_space();
    assert(space.sigma[j] == c.cfg.sigma_force);
    assert(c.nominal@[0][j] == c.cfg.hover_force);
    assert(space.lo[j] == c.cfg.f_min && space.hi[j] == c.cfg.f_max);
    crate::sampling::law_no_noise_no_change(
        space,
        c.nominal@,
        c.rng@,
        c.cfg.base.beta,
        c.cfg.base.lambda,
        c.cfg.base.horizon as nat,
        c.spec_costs(state, course),
        0,
        j,
    );
    crate::scalar::law_clip_in_bounds(c.cfg.hover_force, c.cfg.f_min, c.cfg.f_max);
}

} // verus!
