//! What tracking a reference means to the predictive controller: laws that relate its cost
//! and its controls to the vehicle's state and to the flat references, part by part.
use vstd::prelude::*;

use crate::linalg::{Quat, Vec3};
use crate::nmpc::{weighted_squares, Nmpc, NU, NX};
use crate::scalar::Real;
use crate::se3::FlatRef;
use crate::state::State;

verus! {

// ---------------------------------------------------------------------------
// The cost
// ---------------------------------------------------------------------------
/// The square of a number.
pub open spec fn square(x: real) -> real {
    x * x
}

/// The squared distance of two points.
pub open spec fn gap<S: Real>(a: Vec3<S>, b: Vec3<S>) -> real {
    square(a.x.val() - b.x.val()) + square(a.y.val() - b.y.val()) + square(a.z.val() - b.z.val())
}

/// The vehicle stands upright at heading `yaw`, of which `half` is the half.
pub open spec fn upright<S: Real>(q: Quat<S>, half: S) -> bool {
    &&& q.i.val() == 0real
    &&& q.j.val() == 0real
    &&& q.k == half.spec_sin()
    &&& q.w == half.spec_cos()
}

/// What a state is charged for its distance from a reference, whose half heading is `half`.
pub open spec fn state_error<S: Real>(n: Nmpc<S>, s: State<S>, r: FlatRef<S>, half: S) -> real {
    n.q_pos.val() * gap(s.x, r.x) + n.q_vel.val() * gap(s.v, r.x_dot) + n.q_att.val() * (square(
        s.q.i.val(),
    ) + square(s.q.j.val()) + square(s.q.k.val() - half.spec_sin().val()) + square(
        s.q.w.val() - half.spec_cos().val(),
    )) + n.q_omega.val() * (square(s.w.x.val()) + square(s.w.y.val()) + square(
        s.w.z.val() - r.yaw_dot.val(),
    ))
}

/// What a control is charged for its distance from hover.
pub open spec fn effort<S: Real>(n: Nmpc<S>, u: Seq<S>) -> real {
    n.r_thrust.val() * square(
        u[0].val() - n.mass.val() * crate::params::spec_gravity::<S>().val(),
    ) + n.r_moment.val() * (square(u[1].val()) + square(u[2].val()) + square(u[3].val()))
}

/// `sum over i < n of w[i] (x[i] - r[i])^2`, as a number.
spec fn sum_of_squares<S: Real>(w: Seq<S>, x: Seq<S>, r: Seq<S>, n: nat) -> real
    decreases n,
{
    if n == 0 {
        0real
    } else {
        sum_of_squares(w, x, r, (n - 1) as nat) + w[n - 1].val() * square(
            x[n - 1].val() - r[n - 1].val(),
        )
    }
}

proof fn lemma_sum_of_squares<S: Real>(w: Seq<S>, x: Seq<S>, r: Seq<S>, init: S, n: nat)
    requires
        crate::scalar::exact::<S>(),
    ensures
        weighted_squares(w, x, r, init, n).val() == init.val() + sum_of_squares(w, x, r, n),
    decreases n,
{
    if n > 0 {
        lemma_sum_of_squares(w, x, r, init, (n - 1) as nat);
        let d = x[n - 1].val() - r[n - 1].val();
        crate::algebra::lemma_assoc(w[n - 1].val(), d, d);
    }
}

proof fn lemma_common3(w: real, a: real, b: real, c: real)
    ensures
        w * a + w * b + w * c == w * (a + b + c),
{
    crate::algebra::lemma_dist(w, a, b);
    crate::algebra::lemma_dist(w, a + b, c);
}

proof fn lemma_common4(w: real, a: real, b: real, c: real, d: real)
    ensures
        w * a + w * b + w * c + w * d == w * (a + b + c + d),
{
    lemma_common3(w, a, b, c);
    crate::algebra::lemma_dist(w, a + b + c, d);
}

/// The weighted squares of a state against the target of a reference, for weights that are
/// `c` times those of a stage.
proof fn lemma_state_part<S: Real>(
    n: Nmpc<S>,
    c: S,
    w: Seq<S>,
    s: State<S>,
    r: FlatRef<S>,
    half: S,
)
    requires
        crate::scalar::exact::<S>(),
        half == r.yaw * S::spec_splat(1, 2),
        w.len() == NX,
        forall|i: int| 0 <= i < NX ==> (#[trigger] w[i]).val() == c.val() * n.spec_qdiag()[i].val(),
    ensures
        sum_of_squares(w, Nmpc::spec_x0(s), Nmpc::spec_x_ref(r), NX as nat) == c.val()
            * state_error(n, s, r, half),
{
    reveal_with_fuel(sum_of_squares, 14);
    let (a, b, d, o) = (n.q_pos.val(), n.q_vel.val(), n.q_att.val(), n.q_omega.val());
    let k = c.val();
    assert(w[0].val() == k * a && w[1].val() == k * a && w[2].val() == k * a);
    assert(w[3].val() == k * b && w[4].val() == k * b && w[5].val() == k * b);
    assert(w[6].val() == k * d && w[7].val() == k * d && w[8].val() == k * d && w[9].val() == k
        * d);
    assert(w[10].val() == k * o && w[11].val() == k * o && w[12].val() == k * o);
    let x = square(s.x.x.val() - r.x.x.val());
    let y = square(s.x.y.val() - r.x.y.val());
    let z = square(s.x.z.val() - r.x.z.val());
    lemma_common3(k * a, x, y, z);
    let vx = square(s.v.x.val() - r.x_dot.x.val());
    let vy = square(s.v.y.val() - r.x_dot.y.val());
    let vz = square(s.v.z.val() - r.x_dot.z.val());
    lemma_common3(k * b, vx, vy, vz);
    let qi = square(s.q.i.val());
    let qj = square(s.q.j.val());
    let qk = square(s.q.k.val() - half.spec_sin().val());
    let qw = square(s.q.w.val() - half.spec_cos().val());
    lemma_common4(k * d, qi, qj, qk, qw);
    let wx = square(s.w.x.val());
    let wy = square(s.w.y.val());
    let wz = square(s.w.z.val() - r.yaw_dot.val());
    lemma_common3(k * o, wx, wy, wz);
    let (p, v, q, t) = (x + y + z, vx + vy + vz, qi + qj + qk + qw, wx + wy + wz);
    crate::algebra::lemma_assoc(k, a, p);
    crate::algebra::lemma_assoc(k, b, v);
    crate::algebra::lemma_assoc(k, d, q);
    crate::algebra::lemma_assoc(k, o, t);
    lemma_common4(k, a * p, b * v, d * q, o * t);
}

/// A stage is charged for the distance of the state from what its reference asks for, each
/// part against its own part: position, velocity, heading and yaw rate; and for the distance
/// of the control from hover.
pub proof fn law_stage_cost_is_tracking_error<S: Real>(
    n: Nmpc<S>,
    s: State<S>,
    u: Seq<S>,
    r: FlatRef<S>,
    half: S,
)
    requires
        crate::scalar::exact::<S>(),
        crate::scalar::faithful::<S>(),
        2real * half.val() == r.yaw.val(),
    ensures
        n.spec_stage_cost(Nmpc::spec_x0(s), u, Nmpc::spec_x_ref(r), n.spec_ur()@).val()
            == state_error(n, s, r, half) + effort(n, u),
{
    lemma_half_heading(r, half);
    let x = Nmpc::spec_x0(s);
    let xr = Nmpc::spec_x_ref(r);
    let w = n.spec_qdiag();
    lemma_sum_of_squares(w, x, xr, S::spec_zero(), NX as nat);
    let mid = weighted_squares(w, x, xr, S::spec_zero(), NX as nat);
    lemma_sum_of_squares(n.spec_rdiag(), u, n.spec_ur()@, mid, NU as nat);
    assert forall|i: int| 0 <= i < NX implies (#[trigger] w[i]).val() == S::spec_one().val()
        * w[i].val() by {
        crate::physics::lemma_times_one(w[i].val(), S::spec_one().val());
    }
    lemma_state_part(n, S::spec_one(), w, s, r, half);
    crate::physics::lemma_times_one(state_error(n, s, r, half), S::spec_one().val());
    reveal_with_fuel(sum_of_squares, 5);
    lemma_common3(
        n.r_moment.val(),
        square(u[1].val()),
        square(u[2].val()),
        square(u[3].val()),
    );
}

proof fn lemma_half_heading<S: Real>(r: FlatRef<S>, half: S)
    requires
        crate::scalar::exact::<S>(),
        crate::scalar::faithful::<S>(),
        2real * half.val() == r.yaw.val(),
    ensures
        half == r.yaw * S::spec_splat(1, 2),
{
    crate::scalar::lemma_splat_fraction::<S>(1, 2);
    let h = S::spec_splat(1, 2).val();
    let y = r.yaw.val();
    assert(2real * (y * h) == y) by (nonlinear_arith)
        requires
            h == 1real / 2real,
    ;
    assert((r.yaw * S::spec_splat(1, 2)).val() == half.val());
}

/// What the first `k` stages of a plan are charged.
pub open spec fn errors<S: Real>(
    n: Nmpc<S>,
    states: Seq<State<S>>,
    us: Seq<Seq<S>>,
    refs: Seq<FlatRef<S>>,
    halves: Seq<S>,
    k: nat,
) -> real
    decreases k,
{
    if k == 0 {
        0real
    } else {
        errors(n, states, us, refs, halves, (k - 1) as nat) + state_error(
            n,
            states[k - 1],
            refs[k - 1],
            halves[k - 1],
        ) + effort(n, us[k - 1])
    }
}

/// The states as the optimiser sees them.
pub open spec fn seen<S: Real>(states: Seq<State<S>>) -> Seq<Seq<S>> {
    Seq::new(states.len(), |t: int| Nmpc::spec_x0(states[t]))
}

/// The halves of the headings that the references ask for.
pub open spec fn half_headings<S: Real>(refs: Seq<FlatRef<S>>, halves: Seq<S>) -> bool {
    &&& halves.len() == refs.len()
    &&& forall|t: int|
        0 <= t < refs.len() ==> 2real * (#[trigger] halves[t]).val() == refs[t].yaw.val()
}

proof fn lemma_stages<S: Real>(
    n: Nmpc<S>,
    states: Seq<State<S>>,
    us: Seq<Seq<S>>,
    refs: Seq<FlatRef<S>>,
    halves: Seq<S>,
    k: nat,
)
    requires
        crate::scalar::exact::<S>(),
        crate::scalar::faithful::<S>(),
        half_headings(refs, halves),
        k <= n.spec_steps(refs),
        k <= states.len(),
    ensures
        n.stages_cost(seen(states), us, n.spec_targets(refs), k).val() == errors(
            n,
            states,
            us,
            refs,
            halves,
            k,
        ),
    decreases k,
{
    if k > 0 {
        lemma_stages(n, states, us, refs, halves, (k - 1) as nat);
        assert(2real * halves[k - 1].val() == refs[k - 1].yaw.val());
        law_stage_cost_is_tracking_error(
            n,
            states[k - 1],
            us[k - 1],
            refs[k - 1],
            halves[k - 1],
        );
    }
}

/// A plan is charged for the tracking error of every stage against the reference of its own
/// time, and five times for that of the final state against the last reference.
pub proof fn law_plan_cost_is_tracking_error<S: Real>(
    n: Nmpc<S>,
    states: Seq<State<S>>,
    us: Seq<Seq<S>>,
    refs: Seq<FlatRef<S>>,
    halves: Seq<S>,
)
    requires
        crate::scalar::exact::<S>(),
        crate::scalar::faithful::<S>(),
        half_headings(refs, halves),
        n.spec_steps(refs) >= 1,
        states.len() == n.spec_steps(refs) + 1,
    ensures
        ({
            let h = n.spec_steps(refs) as int;
            n.spec_cost(seen(states), us, n.spec_targets(refs)).val() == errors(
                n,
                states,
                us,
                refs,
                halves,
                h as nat,
            ) + 5real * state_error(n, states[h], refs[h - 1], halves[h - 1])
        }),
{
    let h = n.spec_steps(refs) as int;
    let xrs = n.spec_targets(refs);
    lemma_stages(n, states, us, refs, halves, h as nat);
    let init = n.stages_cost(seen(states), us, xrs, h as nat);
    lemma_sum_of_squares(n.end_weights(), seen(states)[h], xrs[h - 1], init, NX as nat);
    let five = S::spec_splat(5, 1);
    crate::scalar::lemma_splat_int::<S>(5);
    assert(2real * halves[h - 1].val() == refs[h - 1].yaw.val());
    lemma_half_heading(refs[h - 1], halves[h - 1]);
    lemma_state_part(n, five, n.end_weights(), states[h], refs[h - 1], halves[h - 1]);
}

/// The weights of the cost are not negative.
pub open spec fn weighs<S: Real>(n: Nmpc<S>) -> bool {
    &&& n.q_pos.val() >= 0real
    &&& n.q_vel.val() >= 0real
    &&& n.q_att.val() >= 0real
    &&& n.q_omega.val() >= 0real
    &&& n.r_thrust.val() >= 0real
    &&& n.r_moment.val() >= 0real
}

proof fn lemma_not_negative(w: real, x: real)
    requires
        w >= 0real,
        x >= 0real,
    ensures
        w * x >= 0real,
        w > 0real && x > 0real ==> w * x > 0real,
{
    assert(w * x >= 0real) by (nonlinear_arith)
        requires
            w >= 0real,
            x >= 0real,
    ;
    if w > 0real && x > 0real {
        assert(w * x > 0real) by (nonlinear_arith)
            requires
                w > 0real,
                x > 0real,
        ;
    }
}

proof fn lemma_square_positive(x: real)
    ensures
        square(x) >= 0real,
        x != 0real ==> square(x) > 0real,
        x == 0real ==> square(x) == 0real,
{
    crate::linalg::lemma_square_sign(x);
    if x != 0real {
        assert(x * x > 0real) by (nonlinear_arith)
            requires
                x != 0real,
        ;
    } else {
        crate::physics::lemma_times_zero(x, x);
    }
}

proof fn lemma_gap<S: Real>(a: Vec3<S>, b: Vec3<S>)
    ensures
        gap(a, b) >= 0real,
        gap(a, b) == 0real <==> a.same(b),
{
    lemma_square_positive(a.x.val() - b.x.val());
    lemma_square_positive(a.y.val() - b.y.val());
    lemma_square_positive(a.z.val() - b.z.val());
}

proof fn lemma_state_error<S: Real>(n: Nmpc<S>, s: State<S>, r: FlatRef<S>, half: S)
    requires
        weighs(n),
    ensures
        state_error(n, s, r, half) >= n.q_pos.val() * gap(s.x, r.x) >= 0real,
        state_error(n, s, r, half) >= n.q_vel.val() * gap(s.v, r.x_dot) >= 0real,
{
    lemma_gap(s.x, r.x);
    lemma_gap(s.v, r.x_dot);
    lemma_not_negative(n.q_pos.val(), gap(s.x, r.x));
    lemma_not_negative(n.q_vel.val(), gap(s.v, r.x_dot));
    lemma_square_positive(s.q.i.val());
    lemma_square_positive(s.q.j.val());
    lemma_square_positive(s.q.k.val() - half.spec_sin().val());
    lemma_square_positive(s.q.w.val() - half.spec_cos().val());
    lemma_not_negative(
        n.q_att.val(),
        square(s.q.i.val()) + square(s.q.j.val()) + square(
            s.q.k.val() - half.spec_sin().val(),
        ) + square(s.q.w.val() - half.spec_cos().val()),
    );
    lemma_square_positive(s.w.x.val());
    lemma_square_positive(s.w.y.val());
    lemma_square_positive(s.w.z.val() - r.yaw_dot.val());
    lemma_not_negative(
        n.q_omega.val(),
        square(s.w.x.val()) + square(s.w.y.val()) + square(s.w.z.val() - r.yaw_dot.val()),
    );
}

proof fn lemma_effort<S: Real>(n: Nmpc<S>, u: Seq<S>)
    requires
        weighs(n),
    ensures
        effort(n, u) >= 0real,
{
    let d = u[0].val() - n.mass.val() * crate::params::spec_gravity::<S>().val();
    lemma_square_positive(d);
    lemma_square_positive(u[1].val());
    lemma_square_positive(u[2].val());
    lemma_square_positive(u[3].val());
    lemma_not_negative(n.r_thrust.val(), square(d));
    lemma_not_negative(
        n.r_moment.val(),
        square(u[1].val()) + square(u[2].val()) + square(u[3].val()),
    );
}

proof fn lemma_errors<S: Real>(
    n: Nmpc<S>,
    states: Seq<State<S>>,
    us: Seq<Seq<S>>,
    refs: Seq<FlatRef<S>>,
    halves: Seq<S>,
    k: nat,
    t: int,
)
    requires
        weighs(n),
    ensures
        errors(n, states, us, refs, halves, k) >= 0real,
        0 <= t < k ==> errors(n, states, us, refs, halves, k) >= n.q_pos.val() * gap(
            states[t].x,
            refs[t].x,
        ),
    decreases k,
{
    if k > 0 {
        lemma_errors(n, states, us, refs, halves, (k - 1) as nat, t);
        lemma_state_error(n, states[k - 1], refs[k - 1], halves[k - 1]);
        lemma_effort(n, us[k - 1]);
    }
}

/// A position off its reference costs, in any axis and at any time of the plan, in
/// proportion to its squared distance.
pub proof fn law_off_the_reference_costs<S: Real>(
    n: Nmpc<S>,
    states: Seq<State<S>>,
    us: Seq<Seq<S>>,
    refs: Seq<FlatRef<S>>,
    halves: Seq<S>,
    t: int,
)
    requires
        crate::scalar::exact::<S>(),
        crate::scalar::faithful::<S>(),
        half_headings(refs, halves),
        n.spec_steps(refs) >= 1,
        states.len() == n.spec_steps(refs) + 1,
        weighs(n),
        n.q_pos.val() > 0real,
        0 <= t < n.spec_steps(refs),
        !states[t].x.same(refs[t].x),
    ensures
        n.spec_cost(seen(states), us, n.spec_targets(refs)).val() >= n.q_pos.val() * gap(
            states[t].x,
            refs[t].x,
        ) > 0real,
{
    let h = n.spec_steps(refs) as int;
    law_plan_cost_is_tracking_error(n, states, us, refs, halves);
    lemma_errors(n, states, us, refs, halves, h as nat, t);
    lemma_state_error(n, states[h], refs[h - 1], halves[h - 1]);
    lemma_gap(states[t].x, refs[t].x);
    lemma_not_negative(n.q_pos.val(), gap(states[t].x, refs[t].x));
}

/// The state is what the reference asks for.
pub open spec fn on_reference<S: Real>(s: State<S>, r: FlatRef<S>, half: S) -> bool {
    &&& s.x.same(r.x)
    &&& s.v.same(r.x_dot)
    &&& upright(s.q, half)
    &&& s.w.x.val() == 0real
    &&& s.w.y.val() == 0real
    &&& s.w.z.val() == r.yaw_dot.val()
}

proof fn lemma_on_reference<S: Real>(n: Nmpc<S>, s: State<S>, r: FlatRef<S>, half: S)
    requires
        on_reference(s, r, half),
    ensures
        state_error(n, s, r, half) == 0real,
{
    lemma_gap(s.x, r.x);
    lemma_gap(s.v, r.x_dot);
    lemma_square_positive(s.q.i.val());
    lemma_square_positive(s.q.j.val());
    lemma_square_positive(s.q.k.val() - half.spec_sin().val());
    lemma_square_positive(s.q.w.val() - half.spec_cos().val());
    lemma_square_positive(s.w.x.val());
    lemma_square_positive(s.w.y.val());
    lemma_square_positive(s.w.z.val() - r.yaw_dot.val());
    crate::physics::lemma_times_zero(n.q_pos.val(), 0real);
    crate::physics::lemma_times_zero(n.q_vel.val(), 0real);
    crate::physics::lemma_times_zero(n.q_att.val(), 0real);
    crate::physics::lemma_times_zero(n.q_omega.val(), 0real);
}

proof fn lemma_only_effort<S: Real>(
    n: Nmpc<S>,
    states: Seq<State<S>>,
    us: Seq<Seq<S>>,
    refs: Seq<FlatRef<S>>,
    halves: Seq<S>,
    k: nat,
)
    requires
        forall|t: int|
            0 <= t < k ==> on_reference(#[trigger] states[t], refs[t], halves[t]) && effort(
                n,
                us[t],
            ) == 0real,
    ensures
        errors(n, states, us, refs, halves, k) == 0real,
    decreases k,
{
    if k > 0 {
        lemma_only_effort(n, states, us, refs, halves, (k - 1) as nat);
        assert(on_reference(states[k - 1], refs[k - 1], halves[k - 1]));
        lemma_on_reference(n, states[k - 1], refs[k - 1], halves[k - 1]);
    }
}

/// The control holds hover.
pub open spec fn hovers<S: Real>(n: Nmpc<S>, u: Seq<S>) -> bool {
    &&& u[0].val() == n.mass.val() * crate::params::spec_gravity::<S>().val()
    &&& u[1].val() == 0real
    &&& u[2].val() == 0real
    &&& u[3].val() == 0real
}

proof fn lemma_hover_effort<S: Real>(n: Nmpc<S>, u: Seq<S>)
    requires
        hovers(n, u),
    ensures
        effort(n, u) == 0real,
{
    lemma_square_positive(
        u[0].val() - n.mass.val() * crate::params::spec_gravity::<S>().val(),
    );
    lemma_square_positive(u[1].val());
    lemma_square_positive(u[2].val());
    lemma_square_positive(u[3].val());
    crate::physics::lemma_times_zero(n.r_thrust.val(), 0real);
    crate::physics::lemma_times_zero(n.r_moment.val(), 0real);
}

/// A track that sits on its references, flown at hover, costs nothing.
pub proof fn law_on_the_reference_is_free<S: Real>(
    n: Nmpc<S>,
    states: Seq<State<S>>,
    us: Seq<Seq<S>>,
    refs: Seq<FlatRef<S>>,
    halves: Seq<S>,
)
    requires
        crate::scalar::exact::<S>(),
        crate::scalar::faithful::<S>(),
        half_headings(refs, halves),
        n.spec_steps(refs) >= 1,
        states.len() == n.spec_steps(refs) + 1,
        forall|t: int|
            0 <= t < n.spec_steps(refs) ==> on_reference(
                #[trigger] states[t],
                refs[t],
                halves[t],
            ) && hovers(n, us[t]),
        ({
            let h = n.spec_steps(refs) as int;
            on_reference(states[h], refs[h - 1], halves[h - 1])
        }),
    ensures
        n.spec_cost(seen(states), us, n.spec_targets(refs)).val() == 0real,
{
    let h = n.spec_steps(refs) as int;
    law_plan_cost_is_tracking_error(n, states, us, refs, halves);
    assert forall|t: int| 0 <= t < h implies on_reference(#[trigger] states[t], refs[t], halves[t])
        && effort(n, us[t]) == 0real by {
        assert(on_reference(states[t], refs[t], halves[t]) && hovers(n, us[t]));
        lemma_hover_effort(n, us[t]);
    }
    lemma_only_effort(n, states, us, refs, halves, h as nat);
    lemma_on_reference(n, states[h], refs[h - 1], halves[h - 1]);
}

// ---------------------------------------------------------------------------
// The step of the plan
// ---------------------------------------------------------------------------
/// A planned step obeys mechanics: the thrust acts along body z and gravity down, the new
/// velocity moves the position, and the moments turn the body with its gyroscopic moment.
pub proof fn law_planned_step_obeys_mechanics<S: Real>(n: Nmpc<S>, s: State<S>, u: Seq<S>)
    requires
        crate::scalar::exact::<S>(),
        n.mass.val() != 0real,
        n.inertia.spec_det().val() != 0real,
        n.inv_inertia == n.inertia.spec_inverse(),
    ensures
        ({
            let e = n.spec_f(Nmpc::spec_x0(s), u);
            let dt = n.dt.val();
            let up = s.q.spec_to_rotmat().col(2);
            let g = crate::params::spec_gravity::<S>().val();
            let lift = u[0].val() / n.mass.val();
            let a = n.inv_inertia.spec_matvec(
                Vec3 { x: u[1], y: u[2], z: u[3] } - s.w.spec_cross(n.inertia.spec_matvec(s.w)),
            );
            let turn = n.inertia.spec_matvec(a).row();
            let gyro = crate::algebra::cross(s.w.row(), n.inertia.spec_matvec(s.w).row());
            &&& e[3].val() == s.v.x.val() + dt * (lift * up.x)
            &&& e[4].val() == s.v.y.val() + dt * (lift * up.y)
            &&& e[5].val() == s.v.z.val() + dt * (lift * up.z - g)
            &&& e[0].val() == s.x.x.val() + dt * e[3].val()
            &&& e[1].val() == s.x.y.val() + dt * e[4].val()
            &&& e[2].val() == s.x.z.val() + dt * e[5].val()
            &&& e[10].val() == s.w.x.val() + dt * a.x.val()
            &&& e[11].val() == s.w.y.val() + dt * a.y.val()
            &&& e[12].val() == s.w.z.val() + dt * a.z.val()
            &&& crate::mechanics::plus(turn, gyro) == (crate::algebra::Row3 {
                x: u[1].val(),
                y: u[2].val(),
                z: u[3].val(),
            })
        }),
{
    let e = n.spec_f(Nmpc::spec_x0(s), u);
    let dt = n.dt.val();
    let up = s.q.spec_to_rotmat().col(2);
    let g = crate::params::spec_gravity::<S>().val();
    let lift = u[0].val() / n.mass.val();
    let moment = Vec3 { x: u[1], y: u[2], z: u[3] };
    let net = moment - s.w.spec_cross(n.inertia.spec_matvec(s.w));
    let a = n.inv_inertia.spec_matvec(net);
    crate::mechanics::law_inverse_undoes(n.inertia, net);
    crate::algebra::lemma_comm(up.x, lift);
    crate::algebra::lemma_comm(up.y, lift);
    crate::algebra::lemma_comm(up.z, lift);
    crate::algebra::lemma_comm(lift * up.x, dt);
    crate::algebra::lemma_comm(lift * up.y, dt);
    crate::algebra::lemma_comm(lift * up.z - g, dt);
    crate::algebra::lemma_comm(e[3].val(), dt);
    crate::algebra::lemma_comm(e[4].val(), dt);
    crate::algebra::lemma_comm(e[5].val(), dt);
    crate::algebra::lemma_comm(a.x.val(), dt);
    crate::algebra::lemma_comm(a.y.val(), dt);
    crate::algebra::lemma_comm(a.z.val(), dt);
}

proof fn lemma_unit_after(a: real, b: real, c: real, d: real, n: real)
    requires
        n >= 0real,
        n * n == a * a + b * b + c * c + d * d,
        n != 0real,
    ensures
        ({
            let (p, q, r, s) = (a / n, b / n, c / n, d / n);
            p * p + q * q + r * r + s * s == 1real
        }),
{
    let i = 1real / n;
    crate::race::lemma_over(a, n, i);
    crate::race::lemma_over(b, n, i);
    crate::race::lemma_over(c, n, i);
    crate::race::lemma_over(d, n, i);
    crate::algebra::lemma_scaled_pair(a, a, i);
    crate::algebra::lemma_scaled_pair(b, b, i);
    crate::algebra::lemma_scaled_pair(c, c, i);
    crate::algebra::lemma_scaled_pair(d, d, i);
    crate::algebra::lemma_scaled_pair(n, n, i);
    let k = i * i;
    crate::algebra::lemma_dist(k, a * a, b * b);
    crate::algebra::lemma_dist(k, a * a + b * b, c * c);
    crate::algebra::lemma_dist(k, a * a + b * b + c * c, d * d);
    assert(n * i == 1real) by (nonlinear_arith)
        requires
            i == 1real / n,
            n != 0real,
    ;
    crate::physics::lemma_times_one(1real, n * i);
}

/// The numbers `p`, `q`, `r`, `t` are stretched to `a`, `b`, `c`, `d` by a positive factor.
pub open spec fn stretched(
    m: real,
    p: real,
    q: real,
    r: real,
    t: real,
    a: real,
    b: real,
    c: real,
    d: real,
) -> bool {
    m > 0real && m * p == a && m * q == b && m * r == c && m * t == d
}

/// A planned step keeps the attitude at unit norm, and turns it along the body rate: before
/// it is brought back to unit norm, its vector part `b` and scalar part `w` change by
/// `dt (w om + b x om) / 2` and `-dt (b . om) / 2`.
pub proof fn law_planned_attitude_turns<S: Real>(n: Nmpc<S>, s: State<S>, u: Seq<S>)
    requires
        crate::scalar::exact::<S>(),
    ensures
        ({
            let e = n.spec_f(Nmpc::spec_x0(s), u);
            let d = crate::so3::spec_quat_dot(s.q, s.w);
            let dt = n.dt.val();
            let (a, b, c, w) = (
                s.q.i.val() + dt * d.i.val(),
                s.q.j.val() + dt * d.j.val(),
                s.q.k.val() + dt * d.k.val(),
                s.q.w.val() + dt * d.w.val(),
            );
            a * a + b * b + c * c + w * w != 0real ==> {
                let (p, q, r, t) = (e[6].val(), e[7].val(), e[8].val(), e[9].val());
                &&& p * p + q * q + r * r + t * t == 1real
                &&& exists|m: real|
                    #[trigger] stretched(m, p, q, r, t, a, b, c, w)
            }
        }),
{
    let d = crate::so3::spec_quat_dot(s.q, s.w);
    let dt = n.dt;
    let (a, b, c, w) = (
        s.q.i + d.i * dt,
        s.q.j + d.j * dt,
        s.q.k + d.k * dt,
        s.q.w + d.w * dt,
    );
    crate::algebra::lemma_comm(d.i.val(), dt.val());
    crate::algebra::lemma_comm(d.j.val(), dt.val());
    crate::algebra::lemma_comm(d.k.val(), dt.val());
    crate::algebra::lemma_comm(d.w.val(), dt.val());
    let sum = a * a + b * b + c * c + w * w;
    crate::linalg::lemma_square_sign(a.val());
    crate::linalg::lemma_square_sign(b.val());
    crate::linalg::lemma_square_sign(c.val());
    crate::linalg::lemma_square_sign(w.val());
    let m = sum.spec_sqrt().val();
    assert(m * m == sum.val() && m >= 0real);
    if sum.val() != 0real {
        if m == 0real {
            crate::physics::lemma_times_zero(m, m);
        }
        lemma_unit_after(a.val(), b.val(), c.val(), w.val(), m);
        lemma_times_back(a.val(), m);
        lemma_times_back(b.val(), m);
        lemma_times_back(c.val(), m);
        lemma_times_back(w.val(), m);
        let e = n.spec_f(Nmpc::spec_x0(s), u);
        let (p, q, r, t) = (e[6].val(), e[7].val(), e[8].val(), e[9].val());
        assert(stretched(m, p, q, r, t, a.val(), b.val(), c.val(), w.val()));
    }
}

/// A quotient times its divisor.
pub proof fn lemma_times_back(x: real, m: real)
    requires
        m != 0real,
    ensures
        m * (x / m) == x,
{
    assert(m * (x / m) == x) by (nonlinear_arith)
        requires
            m != 0real,
    ;
}

} // verus!
