//! What sampling-based planning does: laws that relate the weights, the candidates and the
//! plans of one decision to those of the next.
use vstd::prelude::*;

use crate::control::CtbrCmd;
use crate::gates::Course;
use crate::mppi::{as_arrays, as_cmds, Controller, MppiController, RolloutModel, TrueDynamics};
use crate::sampling::{
    ar_noise_at, inverse_or_zero, least, raw_weight, spec_shift, spec_smear, spec_softmax,
    weight_sum, weighted_sum,
};
use crate::scalar::Real;
use crate::state::State;

verus! {

/// The exponential is positive, and grows with its argument.
pub open spec fn exp_grows<S: Real>() -> bool {
    &&& forall|x: S| (#[trigger] x.spec_exp()).val() > 0real
    &&& forall|x: S, y: S|
        x.val() < y.val() ==> (#[trigger] x.spec_exp()).val() < (#[trigger] y.spec_exp()).val()
}

/// The cheaper candidate weighs more.
pub proof fn law_cheaper_weighs_more<S: Real>(costs: Seq<S>, lambda: S, i: int, j: int)
    requires
        crate::scalar::exact::<S>(),
        exp_grows::<S>(),
        lambda.val() > 0real,
        0 <= i < costs.len(),
        0 <= j < costs.len(),
        costs[i].val() < costs[j].val(),
    ensures
        spec_softmax(costs, lambda)[i].val() > spec_softmax(costs, lambda)[j].val() > 0real,
{
    let min = least(costs, costs.len());
    let sum = weight_sum(costs, min, lambda, costs.len());
    let inv = inverse_or_zero(sum);
    crate::sampling::law_softmax_is_convex(costs, lambda);
    let w = spec_softmax(costs, lambda);
    let (p, q) = ((-(costs[i] - min)) / lambda, (-(costs[j] - min)) / lambda);
    let (a, b, l) = ((-(costs[i] - min)).val(), (-(costs[j] - min)).val(), lambda.val());
    assert(a / l > b / l) by (nonlinear_arith)
        requires
            a > b,
            l > 0real,
    ;
    let (u, v) = (raw_weight(costs[i], min, lambda).val(), raw_weight(costs[j], min, lambda).val());
    assert(q.val() < p.val());
    assert(q.spec_exp().val() < p.spec_exp().val());
    let r = inv.val();
    assert(w[i].val() > 0real && w[j].val() > 0real);
    assert(u * r > v * r) by (nonlinear_arith)
        requires
            u > v,
            v > 0real,
            v * r > 0real,
    ;
}

/// The weight of a candidate grows or falls with that of its own cost alone: candidates of
/// equal cost weigh the same.
pub proof fn law_equal_costs_weigh_the_same<S: Real>(costs: Seq<S>, lambda: S, i: int, j: int)
    requires
        0 <= i < costs.len(),
        0 <= j < costs.len(),
        costs[i] == costs[j],
    ensures
        spec_softmax(costs, lambda)[i] == spec_softmax(costs, lambda)[j],
{
}

/// Averaging is linear in each candidate: one entry changed by `d` changes the average by its
/// weight times `d`.
pub proof fn law_average_moves_with_its_entries<S: Real>(
    w: Seq<S>,
    x: Seq<S>,
    y: Seq<S>,
    i: int,
    d: real,
    n: nat,
)
    requires
        crate::scalar::exact::<S>(),
        n <= x.len(),
        x.len() == y.len(),
        0 <= i < x.len(),
        y[i].val() == x[i].val() + d,
        forall|k: int| 0 <= k < x.len() && k != i ==> #[trigger] y[k] == x[k],
    ensures
        weighted_sum(w, y, n).val() == weighted_sum(w, x, n).val() + if i < n {
            w[i].val() * d
        } else {
            0real
        },
    decreases n,
{
    if n > 0 {
        law_average_moves_with_its_entries(w, x, y, i, d, (n - 1) as nat);
        if n - 1 == i {
            crate::algebra::lemma_dist(w[i].val(), x[i].val(), d);
        } else {
            assert(y[n - 1] == x[n - 1]);
        }
    }
}

/// The noise of a channel remembers `beta` of itself from step to step, and keeps its
/// variance: the weights of memory and of the fresh draw are the legs of a right triangle.
pub proof fn law_noise_keeps_its_variance<S: Real>(s: u64, beta: S, k: nat, d: nat)
    requires
        crate::scalar::exact::<S>(),
        beta.val() * beta.val() <= 1real,
    ensures
        ({
            let smear = spec_smear(beta);
            let fresh = |n: nat| crate::rng::spec_normal::<S>(
                crate::sampling::after_normals(s, n),
            ).val();
            &&& smear.val() >= 0real
            &&& smear.val() * smear.val() + beta.val() * beta.val() == 1real
            &&& ar_noise_at(s, beta, smear, 0, d).val() == smear.val() * fresh(d)
            &&& ar_noise_at(s, beta, smear, k + 1, d).val() == beta.val() * ar_noise_at(
                s,
                beta,
                smear,
                k,
                d,
            ).val() + smear.val() * fresh(4 * (k + 1) + d)
        }),
{
    crate::physics::lemma_times_zero(beta.val(), 0real);
}

/// A plan is kept for the next decision one step on: what was planned for the following step
/// is now planned for the present one, and `last` is added at the end.
pub proof fn law_warm_start_moves_up<A>(nominal: Seq<A>, plan: Seq<A>, last: A)
    requires
        nominal.len() == plan.len(),
        plan.len() >= 1,
    ensures
        spec_shift(nominal, plan, last) == plan.skip(1).push(last),
{
    assert(spec_shift(nominal, plan, last) =~= plan.skip(1).push(last));
}

proof fn lemma_flown_on<S: Real>(
    m: TrueDynamics<S>,
    init: State<S>,
    a: Seq<CtbrCmd<S>>,
    b: Seq<CtbrCmd<S>>,
    dt: S,
    n: nat,
)
    ensures
        n <= a.len() ==> m.flown(init, a + b, dt, n) == m.flown(init, a, dt, n),
        n <= b.len() ==> m.flown(init, a + b, dt, a.len() + n) == m.flown(
            m.flown(init, a, dt, a.len()),
            b,
            dt,
            n,
        ),
    decreases n,
{
    if n > 0 {
        lemma_flown_on(m, init, a, b, dt, (n - 1) as nat);
        if n <= a.len() {
            assert((a + b)[n - 1] == a[n - 1]);
        }
        if n <= b.len() {
            assert((a + b)[a.len() + n - 1] == b[n - 1]);
        }
    } else {
        lemma_flown_prefix(m, init, a, b, dt, a.len());
    }
}

proof fn lemma_flown_prefix<S: Real>(
    m: TrueDynamics<S>,
    init: State<S>,
    a: Seq<CtbrCmd<S>>,
    b: Seq<CtbrCmd<S>>,
    dt: S,
    n: nat,
)
    requires
        n <= a.len(),
    ensures
        m.flown(init, a + b, dt, n) == m.flown(init, a, dt, n),
    decreases n,
{
    if n > 0 {
        lemma_flown_prefix(m, init, a, b, dt, (n - 1) as nat);
        assert((a + b)[n - 1] == a[n - 1]);
    }
}

/// A rollout of the dynamics flies its actions in order: one action is one step of the
/// vehicle, and flying two plans one after the other gives the positions of the first and
/// then those of the second, from where the first ends.
pub proof fn law_rollout_flies_in_order<S: Real>(
    m: TrueDynamics<S>,
    init: State<S>,
    a: Seq<CtbrCmd<S>>,
    b: Seq<CtbrCmd<S>>,
    dt: S,
)
    ensures
        m.spec_rollout(init, a + b, dt) == m.spec_rollout(init, a, dt) + m.spec_rollout(
            m.flown(init, a, dt, a.len()),
            b,
            dt,
        ),
        a.len() == 1 ==> m.spec_rollout(init, a, dt) == seq![m.veh.spec_step(init, a[0], dt).x],
        a.len() == 1 ==> m.flown(init, a, dt, 1) == m.veh.spec_step(init, a[0], dt),
{
    let p = m.spec_rollout(init, a + b, dt);
    let q = m.spec_rollout(init, a, dt) + m.spec_rollout(m.flown(init, a, dt, a.len()), b, dt);
    assert(p.len() == q.len());
    assert forall|k: int| 0 <= k < p.len() implies #[trigger] p[k] == q[k] by {
        if k < a.len() {
            lemma_flown_prefix(m, init, a, b, dt, (k + 1) as nat);
        } else {
            lemma_flown_on(m, init, a, b, dt, (k - a.len() + 1) as nat);
        }
    }
    assert(p =~= q);
    reveal_with_fuel(TrueDynamics::flown, 2);
    if a.len() == 1 {
        assert(m.spec_rollout(init, a, dt) =~= seq![m.veh.spec_step(init, a[0], dt).x]);
    }
}

/// Without noise the planner decides on the first step of the plan it has, held within the
/// limits, whatever the model predicts.
pub proof fn law_no_noise_follows_the_plan<S: Real, M: RolloutModel<S>>(
    c: MppiController<S, M>,
    state: State<S>,
    course: Course<S>,
    d: int,
)
    requires
        crate::scalar::exact::<S>(),
        exp_grows::<S>(),
        c.wf(),
        c.cfg.samples >= 1,
        c.cfg.sigma_thrust.val() == 0real,
        c.cfg.sigma_rate.val() == 0real,
        0 <= d < 4,
    ensures
        c.spec_act(state, course).spec_to_array()[d].val()
            == c.cfg.spec_action_space().spec_clamp(
            c.nominal@[0].spec_to_array()@,
        )[d].val(),
{
    let space = c.cfg.spec_action_space();
    let nominal = as_arrays(c.nominal@);
    let costs = c.spec_costs(state, course);
    assert(space.wf());
    assert(d == 0 || d == 1 || d == 2 || d == 3);
    assert(space.sigma[d].val() == 0real);
    crate::sampling::law_no_noise_no_change(
        space,
        nominal,
        c.rng@,
        c.cfg.beta,
        c.cfg.lambda,
        c.cfg.horizon as nat,
        costs,
        0,
        d,
    );
    assert(nominal[0] == c.nominal@[0].spec_to_array());
    let cands = c.spec_candidates();
    assert(cands.len() == costs.len());
}

/// A candidate of the planner is charged for its predicted flight on the course, with its
/// squared body rates as its effort, and for the distrust of the model in it.
pub proof fn law_candidate_cost_adds_up<S: Real, M: RolloutModel<S>>(
    c: MppiController<S, M>,
    state: State<S>,
    course: Course<S>,
    cand: Seq<[S; 4]>,
    seq: Seq<CtbrCmd<S>>,
    effort: Seq<S>,
)
    requires
        crate::scalar::exact::<S>(),
        crate::scalar::faithful::<S>(),
        seq.len() == cand.len(),
        effort.len() == cand.len(),
        forall|k: int|
            0 <= k < cand.len() ==> (#[trigger] seq[k]).thrust == cand[k][0] && seq[k].w_cmd.x
                == cand[k][1] && seq[k].w_cmd.y == cand[k][2] && seq[k].w_cmd.z == cand[k][3],
        forall|k: int|
            0 <= k < cand.len() ==> (#[trigger] effort[k]).val() == cand[k][1].val()
                * cand[k][1].val() + cand[k][2].val() * cand[k][2].val() + cand[k][3].val()
                * cand[k][3].val(),
    ensures
        c.spec_cost(state, course, cand).val() == crate::mppi::spec_rollout_cost(
            state.x,
            c.model.spec_rollout(state, seq, c.cfg.dt),
            effort,
            course,
            c.cfg,
        ).val() + c.cfg.trust_lambda.val() * c.model.spec_trust(state, seq, c.cfg.dt).val(),
{
    let s = as_cmds(cand);
    assert forall|k: int| 0 <= k < cand.len() implies #[trigger] s[k] == seq[k] by {
        assert(seq[k].thrust == cand[k][0]);
    }
    assert(s =~= seq);
    let e = crate::mppi::rate_effort(s);
    assert forall|k: int| 0 <= k < cand.len() implies #[trigger] e[k] == effort[k] by {
        assert(seq[k].w_cmd.x == cand[k][1]);
        assert(s[k] == seq[k]);
        assert(effort[k].val() == e[k].val());
    }
    assert(e =~= effort);
}

/// Hover commands carry the weight: the thrust of a planner's hover, and the four rotor forces
/// of it, add up to mass times gravity, with no body rate.
pub proof fn law_hover_carries_the_weight<S: Real>(mass: S)
    requires
        crate::scalar::exact::<S>(),
    ensures
        ({
            let h = crate::mppi::MppiConfig::spec_for_mass(mass).spec_hover();
            let f = crate::rotor_mppi::RotorMppiConfig::spec_for_mass(mass).spec_hover();
            let weight = mass.val() * 981real / 100real;
            &&& h.thrust.val() == weight
            &&& h.w_cmd.x.val() == 0real && h.w_cmd.y.val() == 0real && h.w_cmd.z.val() == 0real
            &&& f[0].val() + f[1].val() + f[2].val() + f[3].val() == weight
        }),
{
    crate::scalar::lemma_splat_fraction::<S>(981, 100);
    crate::scalar::lemma_splat_int::<S>(4);
    let (m, g) = (mass.val(), crate::params::spec_gravity::<S>().val());
    assert(m * g == m * 981real / 100real) by (nonlinear_arith)
        requires
            g == 981real / 100real,
    ;
}

/// Setting one weight of a race changes no other.
pub proof fn law_weights_are_set_one_by_one<S: Real>(
    p: crate::racer::RaceParam,
    q: crate::racer::RaceParam,
    c: crate::mppi::MppiConfig<S>,
    mass: S,
    val: S,
)
    requires
        p != q,
    ensures
        q.spec_read(p.spec_set(c, mass, val), mass) == q.spec_read(c, mass),
{
}

/// A drone that crashed inside the arena is put back above the place of its crash, hovering,
/// and the crash is counted; one that did not crash stays as it is. Its race goes on.
pub proof fn law_respawn_is_above_the_crash<S: Real>(
    e: crate::racer::Entrant<S>,
    inp: crate::params::QuadParamsInput<S>,
)
    requires
        crate::scalar::exact::<S>(),
        e.respawns < usize::MAX,
    ensures
        ({
            let n = e.netted(inp);
            let fell = !e.done && e.state.x.z.val() < 3real / 20real;
            &&& !fell ==> n == e
            &&& fell ==> n.respawns == e.respawns + 1
            &&& fell && 0real <= e.state.x.x.val() <= 11real ==> n.state.x.x.val()
                == e.state.x.x.val()
            &&& fell && -4real <= e.state.x.y.val() <= 4real ==> n.state.x.y.val()
                == e.state.x.y.val()
            &&& fell ==> n.state == crate::drone::spec_hover_state(
                inp,
                n.state.x.x,
                n.state.x.y,
                n.state.x.z,
            )
            &&& n.course == e.course && n.wins == e.wins && n.done == e.done
        }),
{
    crate::scalar::lemma_splat_fraction::<S>(15, 100);
    crate::scalar::lemma_splat_int::<S>(11);
    crate::scalar::lemma_splat_int::<S>(4);
    crate::scalar::lemma_splat_int::<S>(-4);
    let p = e.state.x;
    let low = S::spec_splat(15, 100);
    assert((p.z < low) <==> p.z.val() < low.val());
    let (z, a, b, c) = (
        S::spec_zero(),
        S::spec_splat(11, 1),
        S::spec_splat(-4, 1),
        S::spec_splat(4, 1),
    );
    assert((p.x < z) <==> p.x.val() < z.val());
    assert((a < p.x) <==> a.val() < p.x.val());
    assert((p.y < b) <==> p.y.val() < b.val());
    assert((c < p.y) <==> c.val() < p.y.val());
}

/// A drone wins on the move that passes the last gate of its course, and on no other; and what
/// it has passed before counts on.
pub proof fn law_race_is_won_at_the_last_gate<S: Real>(
    a: crate::racer::Entrant<S>,
    b: crate::racer::Entrant<S>,
    next: State<S>,
)
    requires
        a.wf(),
        !a.done,
        !a.course.spec_finished(),
        crate::racer::Entrant::flown(a, b, next),
    ensures
        ({
            let last = a.course.next + 1 == a.course.gates@.len();
            let through = a.course.gates@[a.course.next as int].spec_crossed(a.state.x, next.x);
            &&& b.done == (last && through)
            &&& b.wins == a.wins + if last && through {
                1int
            } else {
                0int
            }
            &&& !b.done ==> b.course.next == a.course.next + if through {
                1int
            } else {
                0int
            }
            &&& b.state == next
        }),
{
    assert(a.course.gates.len() == a.course.gates@.len());
}

} // verus!
