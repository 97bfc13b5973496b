//! What the learned model predicts: laws that relate a predicted flight to the plan that it
//! is a prediction for, and to the mechanics of one step.
use vstd::prelude::*;

use crate::algebra::Row3;
use crate::dki::{rotation_of, spec_exp_so3, spec_step_collective, spec_step_rotor_force, AD, SD};
use crate::jepa::SkyJepaLite;
use crate::linalg::{Mat3, Vec3};
use crate::rollout::JepaRollout;
use crate::scalar::{Real, Wide};
use crate::state::State;

verus! {

// ---------------------------------------------------------------------------
// One step
// ---------------------------------------------------------------------------
/// The position in a state of the model.
pub open spec fn position<S: Real>(x: Seq<S>) -> Row3 {
    Row3 { x: x[0].val(), y: x[1].val(), z: x[2].val() }
}

/// The velocity in a state of the model.
pub open spec fn velocity<S: Real>(x: Seq<S>) -> Row3 {
    Row3 { x: x[3].val(), y: x[4].val(), z: x[5].val() }
}

/// The body rate in a state of the model.
pub open spec fn body_rate<S: Real>(x: Seq<S>) -> Row3 {
    Row3 { x: x[15].val(), y: x[16].val(), z: x[17].val() }
}

/// The row `a + dt b`.
pub open spec fn after(a: Row3, b: Row3, dt: real) -> Row3 {
    Row3 { x: a.x + dt * b.x, y: a.y + dt * b.y, z: a.z + dt * b.z }
}

/// The acceleration under a thrust along the body z axis `up`, gravity and a residual.
pub open spec fn acceleration(up: Row3, thrust: real, m: real, g: real, residual: Row3) -> Row3 {
    Row3 {
        x: thrust / m * up.x + residual.x,
        y: thrust / m * up.y + residual.y,
        z: thrust / m * up.z - g + residual.z,
    }
}

/// A step of the model obeys mechanics: thrust along body z and gravity change the velocity,
/// the new velocity moves the position, the angular acceleration changes the body rate, and
/// the attitude is turned in the body by the old body rate times the time.
pub proof fn law_step_obeys_mechanics<S: Real>(
    x: Seq<S>,
    thrust: S,
    dv: Seq<S>,
    dw: Seq<S>,
    dt: S,
    m: S,
    g: S,
    v: Vec3<S>,
)
    requires
        crate::scalar::exact::<S>(),
        m.val() != 0real,
    ensures
        ({
            let y = spec_step_collective(x, thrust, dv, dw, dt, m, g);
            let push = Row3 { x: dv[0].val(), y: dv[1].val(), z: dv[2].val() };
            let spin = Row3 { x: dw[0].val(), y: dw[1].val(), z: dw[2].val() };
            let up = rotation_of(x).col(2);
            let w = Vec3 { x: x[15], y: x[16], z: x[17] };
            &&& velocity(y) == after(
                velocity(x),
                acceleration(up, thrust.val(), m.val(), g.val(), push),
                dt.val(),
            )
            &&& position(y) == after(position(x), velocity(y), dt.val())
            &&& body_rate(y) == after(body_rate(x), spin, dt.val())
            &&& rotation_of(y).spec_matvec(v).same(
                rotation_of(x).spec_matvec(spec_exp_so3(w.spec_scale(dt)).spec_matvec(v)),
            )
        }),
{
    let y = spec_step_collective(x, thrust, dv, dw, dt, m, g);
    let h = dt.val();
    let i = (S::spec_one() / m).val();
    crate::race::lemma_over(thrust.val(), m.val(), i);
    let lift = thrust.val() / m.val();
    crate::algebra::lemma_comm(lift * x[8].val() + dv[0].val(), h);
    crate::algebra::lemma_comm(lift * x[11].val() + dv[1].val(), h);
    crate::algebra::lemma_comm(-g.val() + lift * x[14].val() + dv[2].val(), h);
    crate::algebra::lemma_comm(y[3].val(), h);
    crate::algebra::lemma_comm(y[4].val(), h);
    crate::algebra::lemma_comm(y[5].val(), h);
    crate::algebra::lemma_comm(dw[0].val(), h);
    crate::algebra::lemma_comm(dw[1].val(), h);
    crate::algebra::lemma_comm(dw[2].val(), h);
    let e = spec_exp_so3(Vec3 { x: x[15] * dt, y: x[16] * dt, z: x[17] * dt });
    assert(rotation_of(y).rows =~~= rotation_of(x).spec_mul(e).rows);
    crate::transforms::law_product_composes(rotation_of(x), e, v);
}

/// Four rotor forces act as their sum along body z, and turn the body by the map of each of
/// them that the network gives.
pub proof fn law_rotor_step_obeys_mechanics<S: Real>(
    x: Seq<S>,
    a: Seq<S>,
    dv: Seq<S>,
    k: Seq<S>,
    dt: S,
    m: S,
    g: S,
)
    requires
        crate::scalar::exact::<S>(),
        m.val() != 0real,
    ensures
        ({
            let y = spec_step_rotor_force(x, a, dv, k, dt, m, g);
            let push = Row3 { x: dv[0].val(), y: dv[1].val(), z: dv[2].val() };
            let total = a[0].val() + a[1].val() + a[2].val() + a[3].val();
            let spin = Row3 {
                x: k[0].val() * a[0].val() + k[1].val() * a[1].val() + k[2].val() * a[2].val()
                    + k[3].val() * a[3].val(),
                y: k[4].val() * a[0].val() + k[5].val() * a[1].val() + k[6].val() * a[2].val()
                    + k[7].val() * a[3].val(),
                z: k[8].val() * a[0].val() + k[9].val() * a[1].val() + k[10].val() * a[2].val()
                    + k[11].val() * a[3].val(),
            };
            &&& velocity(y) == after(
                velocity(x),
                acceleration(rotation_of(x).col(2), total, m.val(), g.val(), push),
                dt.val(),
            )
            &&& position(y) == after(position(x), velocity(y), dt.val())
            &&& body_rate(y) == after(body_rate(x), spin, dt.val())
        }),
{
    let dw = seq![
        crate::dki::map_forces(k, a, 0),
        crate::dki::map_forces(k, a, 1),
        crate::dki::map_forces(k, a, 2),
    ];
    law_step_obeys_mechanics(
        x,
        a[0] + a[1] + a[2] + a[3],
        dv,
        dw,
        dt,
        m,
        g,
        Vec3::spec_zero(),
    );
}

proof fn lemma_same_norm<S: Real>(phi: Vec3<S>, axis: Vec3<S>, angle: S)
    requires
        crate::scalar::exact::<S>(),
        phi.same(axis.spec_scale(angle)),
        crate::algebra::dot(axis.row(), axis.row()) == 1real,
        angle.val() > 0real,
    ensures
        phi.spec_norm().val() == angle.val(),
{
    let a = angle.val();
    let u = axis.row();
    crate::algebra::lemma_scaled_products(u, u, a);
    assert(phi.row() == crate::algebra::times3(u, a));
    crate::race::lemma_norm(phi);
    let n = phi.spec_norm().val();
    crate::physics::lemma_times_one(a * a, 1real);
    assert(n == a) by (nonlinear_arith)
        requires
            n * n == a * a,
            n >= 0real,
            a > 0real,
    ;
}

proof fn lemma_turned_row(s: real, c: real, k: Row3, q: Row3, e: Row3, v: Row3, i: int)
    requires
        0 <= i < 3,
        e.x == (if i == 0 { 1real } else { 0real }) + s * k.x + c * q.x,
        e.y == (if i == 1 { 1real } else { 0real }) + s * k.y + c * q.y,
        e.z == (if i == 2 { 1real } else { 0real }) + s * k.z + c * q.z,
    ensures
        crate::algebra::dot(e, v) == (if i == 0 {
            v.x
        } else if i == 1 {
            v.y
        } else {
            v.z
        }) + s * crate::algebra::dot(k, v) + c * crate::algebra::dot(q, v),
{
    lemma_turned_entry(if i == 0 { 1real } else { 0real }, s, k.x, c, q.x, v.x);
    lemma_turned_entry(if i == 1 { 1real } else { 0real }, s, k.y, c, q.y, v.y);
    lemma_turned_entry(if i == 2 { 1real } else { 0real }, s, k.z, c, q.z, v.z);
    crate::algebra::lemma_dist(s, k.x * v.x, k.y * v.y);
    crate::algebra::lemma_dist(s, k.x * v.x + k.y * v.y, k.z * v.z);
    crate::algebra::lemma_dist(c, q.x * v.x, q.y * v.y);
    crate::algebra::lemma_dist(c, q.x * v.x + q.y * v.y, q.z * v.z);
    crate::linalg::lemma_unit_times(v.x);
    crate::linalg::lemma_unit_times(v.y);
    crate::linalg::lemma_unit_times(v.z);
}

proof fn lemma_turned_entry(u: real, s: real, k: real, c: real, q: real, v: real)
    ensures
        (u + s * k + c * q) * v == u * v + s * (k * v) + c * (q * v),
{
    crate::algebra::lemma_dist(v, u, s * k);
    crate::algebra::lemma_dist(v, u + s * k, c * q);
    crate::algebra::lemma_assoc(s, k, v);
    crate::algebra::lemma_assoc(c, q, v);
}

/// The exponential of a rotation vector turns about its axis by its length,
/// counter-clockwise: `v` goes to `v + sin(a) u x v + (1 - cos(a)) u x (u x v)`.
pub proof fn law_exponential_turns<S: Real>(phi: Vec3<S>, axis: Vec3<S>, angle: S, v: Vec3<S>)
    requires
        crate::scalar::exact::<S>(),
        crate::scalar::faithful::<S>(),
        phi.same(axis.spec_scale(angle)),
        crate::algebra::dot(axis.row(), axis.row()) == 1real,
        angle.val() >= S::spec_splat(1, 100000000).val(),
    ensures
        ({
            let (s, c) = (angle.spec_sin().val(), 1real - angle.spec_cos().val());
            let once = crate::algebra::cross(axis.row(), v.row());
            let twice = crate::algebra::cross(axis.row(), once);
            spec_exp_so3(phi).spec_matvec(v).row() == (Row3 {
                x: v.x.val() + s * once.x + c * twice.x,
                y: v.y.val() + s * once.y + c * twice.y,
                z: v.z.val() + s * once.z + c * twice.z,
            })
        }),
{
    let tiny = S::spec_splat(1, 100000000);
    crate::scalar::lemma_splat_fraction::<S>(1, 100000000);
    let a = angle.val();
    lemma_same_norm(phi, axis, angle);
    let norm = phi.spec_norm();
    assert(norm.spec_is_finite() && tiny.spec_is_finite());
    let n = norm.spec_max(tiny);
    assert(n.val() == a);
    assert(n == angle);
    lemma_undone(axis.x.val(), a);
    lemma_undone(axis.y.val(), a);
    lemma_undone(axis.z.val(), a);
    assert((phi.x / angle).val() == axis.x.val());
    assert((phi.y / angle).val() == axis.y.val());
    assert((phi.z / angle).val() == axis.z.val());
    let u = Vec3 { x: phi.x / angle, y: phi.y / angle, z: phi.z / angle };
    assert(u == axis);
    let k = Mat3::spec_hat(axis);
    let k2 = k.spec_mul(k);
    let e = spec_exp_so3(phi);
    let (s, c) = (angle.spec_sin().val(), 1real - angle.spec_cos().val());
    crate::linalg::law_hat_is_cross(axis, v);
    let w = k.spec_matvec(v);
    crate::linalg::law_hat_is_cross(axis, w);
    crate::transforms::law_product_composes(k, k, v);
    crate::transforms::lemma_matvec_columns(k, v);
    crate::transforms::lemma_matvec_columns(k2, v);
    crate::transforms::lemma_matvec_columns(e, v);
    lemma_turned_row(s, c, k.row(0), k2.row(0), e.row(0), v.row(), 0);
    lemma_turned_row(s, c, k.row(1), k2.row(1), e.row(1), v.row(), 1);
    lemma_turned_row(s, c, k.row(2), k2.row(2), e.row(2), v.row(), 2);
}

proof fn lemma_undone(x: real, a: real)
    requires
        a > 0real,
    ensures
        (x * a) / a == x,
{
    assert((x * a) / a == x) by (nonlinear_arith)
        requires
            a > 0real,
    ;
}

// ---------------------------------------------------------------------------
// The flight
// ---------------------------------------------------------------------------
/// The state that predicted step `k` starts from: the one at decision time, then the
/// predicted ones.
pub open spec fn before<S: Wide>(
    m: SkyJepaLite<S>,
    hist: Seq<[S; SD]>,
    win: Seq<[S; AD]>,
    k: int,
) -> Seq<S> {
    if k == 0 {
        hist[m.h - 1]@
    } else {
        m.spec_predict(hist, win)[k - 1]
    }
}

/// The thrust that an action asks for: the sum of its rotor forces, or its first entry
/// where it is a collective thrust with body rates.
pub open spec fn thrust_of<S: Wide>(m: SkyJepaLite<S>, a: Seq<S>) -> real {
    if m.action_mode_ctbr {
        a[0].val()
    } else {
        a[0].val() + a[1].val() + a[2].val() + a[3].val()
    }
}

/// The linear acceleration that the network adds in predicted step `k`.
pub open spec fn residual<S: Wide>(
    m: SkyJepaLite<S>,
    hist: Seq<[S; SD]>,
    win: Seq<[S; AD]>,
    k: int,
) -> Row3 {
    let o = m.probed(hist, win, before(m, hist, win, k), k);
    Row3 {
        x: S::spec_widen(o[0]).val(),
        y: S::spec_widen(o[1]).val(),
        z: S::spec_widen(o[2]).val(),
    }
}

/// Predicted step `k` flies planned action `k`, entry `h - 1 + k` of the window: it starts
/// from the state predicted before it, the thrust of that action, gravity and what the
/// network adds change the velocity, and the new velocity moves the position.
pub proof fn law_prediction_flies_the_plan<S: Wide>(
    m: SkyJepaLite<S>,
    hist: Seq<[S; SD]>,
    win: Seq<[S; AD]>,
    k: int,
)
    requires
        crate::scalar::exact::<S>(),
        m.m.val() != 0real,
        m.wf(),
        0 <= k < m.t,
    ensures
        ({
            let x = before(m, hist, win, k);
            let y = m.spec_predict(hist, win)[k];
            let a = win[m.h - 1 + k]@;
            &&& velocity(y) == after(
                velocity(x),
                acceleration(
                    rotation_of(x).col(2),
                    thrust_of(m, a),
                    m.m.val(),
                    m.g.val(),
                    residual(m, hist, win, k),
                ),
                m.dt.val(),
            )
            &&& position(y) == after(position(x), velocity(y), m.dt.val())
        }),
{
    let x = before(m, hist, win, k);
    let o = m.probed(hist, win, x, k);
    assert(m.step_ok(k as nat));
    assert(o.len() >= m.probe_len());
    let v = Seq::new(o.len(), |i: int| S::spec_widen(o[i]));
    let a = win[m.h - 1 + k]@;
    assert(x == m.state_after(hist, win, k as nat));
    assert(m.spec_predict(hist, win)[k] == m.integrated(x, a, o));
    let dv = v.subrange(0, 3);
    assert(dv[0] == v[0] && dv[1] == v[1] && dv[2] == v[2]);
    if m.action_mode_ctbr {
        law_step_obeys_mechanics(
            x,
            a[0],
            dv,
            v.subrange(3, 6),
            m.dt,
            m.m,
            m.g,
            Vec3::spec_zero(),
        );
    } else {
        law_rotor_step_obeys_mechanics(x, a, dv, v.subrange(3, 15), m.dt, m.m, m.g);
    }
}

/// The latents of two windows agree from entry `h - 1` on, as far as the model looks.
pub open spec fn latents_agree<S: Wide>(
    m: SkyJepaLite<S>,
    a: Seq<[S; AD]>,
    b: Seq<[S; AD]>,
) -> bool {
    forall|i: int|
        m.h - 1 <= i < m.h - 1 + m.t ==> #[trigger] m.action_latents(a)[i] == m.action_latents(
            b,
        )[i]
}

/// Two windows agree from entry `h - 1` on, as far as the model looks.
pub open spec fn plans_agree<S: Wide>(
    m: SkyJepaLite<S>,
    a: Seq<[S; AD]>,
    b: Seq<[S; AD]>,
) -> bool {
    forall|i: int| m.h - 1 <= i < m.h - 1 + m.t ==> #[trigger] a[i] == b[i]
}

proof fn lemma_same_flight<S: Wide>(
    m: SkyJepaLite<S>,
    hist: Seq<[S; SD]>,
    a: Seq<[S; AD]>,
    b: Seq<[S; AD]>,
    k: nat,
)
    requires
        latents_agree(m, a, b),
        plans_agree(m, a, b),
        k <= m.t,
    ensures
        m.unrolled(hist, a, k) == m.unrolled(hist, b, k),
        m.state_after(hist, a, k) == m.state_after(hist, b, k),
    decreases k,
{
    if k > 0 {
        lemma_same_flight(m, hist, a, b, (k - 1) as nat);
        let i = m.h - 1 + (k - 1);
        assert(a[i] == b[i]);
        assert(m.action_latents(a)[i] == m.action_latents(b)[i]);
    }
}

/// Past actions count only through the latents: two windows that agree from entry `h - 1`
/// on, in their actions and in their latents, give the same prediction and the same trust
/// energy, whatever was flown before.
pub proof fn law_only_the_plan_is_flown<S: Wide>(
    m: SkyJepaLite<S>,
    hist: Seq<[S; SD]>,
    a: Seq<[S; AD]>,
    b: Seq<[S; AD]>,
)
    requires
        latents_agree(m, a, b),
        plans_agree(m, a, b),
    ensures
        m.spec_predict(hist, a) == m.spec_predict(hist, b),
        m.spec_trust_energy(hist, a) == m.spec_trust_energy(hist, b),
{
    let (p, q) = (m.spec_predict(hist, a), m.spec_predict(hist, b));
    assert forall|k: int| 0 <= k < m.t implies #[trigger] p[k] == q[k] by {
        lemma_same_flight(m, hist, a, b, (k + 1) as nat);
    }
    assert(p =~= q);
    lemma_same_trust(m, hist, a, b, m.t as nat);
}

proof fn lemma_same_trust<S: Wide>(
    m: SkyJepaLite<S>,
    hist: Seq<[S; SD]>,
    a: Seq<[S; AD]>,
    b: Seq<[S; AD]>,
    n: nat,
)
    requires
        latents_agree(m, a, b),
        plans_agree(m, a, b),
        n <= m.t,
    ensures
        m.trust_upto(hist, a, n) == m.trust_upto(hist, b, n),
    decreases n,
{
    if n > 0 {
        lemma_same_trust(m, hist, a, b, (n - 1) as nat);
        lemma_same_flight(m, hist, a, b, n);
    }
}

/// The state that planned action `k` is predicted to start from: the vehicle's own, then the
/// predicted ones.
pub open spec fn reached<S: Wide>(
    r: JepaRollout<S>,
    init: State<S>,
    seq: Seq<[S; AD]>,
    k: int,
) -> Seq<S> {
    if k == 0 {
        crate::rollout::spec_state_to_18(init)@
    } else {
        r.spec_predicted(init, seq)[k - 1]
    }
}

/// A rollout of the model flies the plan from where the vehicle is: action `k` of the plan
/// gives the thrust of step `k`, along the body z axis of the state before it.
pub proof fn law_rollout_flies_the_plan<S: Wide>(
    r: JepaRollout<S>,
    init: State<S>,
    seq: Seq<[S; AD]>,
    k: int,
)
    requires
        crate::scalar::exact::<S>(),
        r.ready(),
        r.model.m.val() != 0real,
        0 <= k < seq.len(),
        k < r.history.t,
    ensures
        ({
            let (h, w) = (r.history.spec_build_history(init), r.history.spec_window(seq));
            let m = r.model;
            let x = reached(r, init, seq, k);
            let y = r.spec_predicted(init, seq)[k];
            &&& velocity(y) == after(
                velocity(x),
                acceleration(
                    rotation_of(x).col(2),
                    thrust_of(m, seq[k]@),
                    m.m.val(),
                    m.g.val(),
                    residual(m, h, w, k),
                ),
                m.dt.val(),
            )
            &&& position(y) == after(position(x), velocity(y), m.dt.val())
            &&& k == 0 ==> velocity(x) == init.v.row() && position(x) == init.x.row()
                && body_rate(x) == init.w.row() && rotation_of(x).col(2)
                == init.q.spec_to_rotmat().col(2)
        }),
{
    let (h, w) = (r.history.spec_build_history(init), r.history.spec_window(seq));
    crate::rollout::law_history_ends_now(r.history, init, seq);
    assert(w[r.history.h - 1 + k] == seq[k]);
    law_prediction_flies_the_plan(r.model, h, w, k);
    assert(h[r.history.h - 1] == crate::rollout::spec_state_to_18(init));
}

// ---------------------------------------------------------------------------
// Causality
// ---------------------------------------------------------------------------
proof fn lemma_same_start<S: Wide>(
    m: SkyJepaLite<S>,
    hist: Seq<[S; SD]>,
    a: Seq<[S; AD]>,
    b: Seq<[S; AD]>,
    k: nat,
    j: nat,
)
    requires
        m.wf(),
        a.len() == b.len(),
        m.h - 1 + k <= a.len(),
        forall|i: int| 0 <= i < m.h - 1 + k ==> #[trigger] a[i] == b[i],
        forall|i: int|
            0 <= i < m.h - 1 + k ==> #[trigger] m.action_latents(a)[i] == m.action_latents(b)[i],
        j <= k,
    ensures
        m.unrolled(hist, a, j) == m.unrolled(hist, b, j),
        m.state_after(hist, a, j) == m.state_after(hist, b, j),
    decreases j,
{
    if j > 0 {
        lemma_same_start(m, hist, a, b, k, (j - 1) as nat);
        let i = m.h - 1 + (j - 1);
        assert(a[i] == b[i]);
        assert(m.action_latents(a)[i] == m.action_latents(b)[i]);
    }
}

/// A prediction does not look ahead: windows that agree up to planned action `k` give the
/// same first `k` predicted states, whatever is planned after that.
pub proof fn law_prediction_is_causal<S: Wide>(
    m: SkyJepaLite<S>,
    hist: Seq<[S; SD]>,
    a: Seq<[S; AD]>,
    b: Seq<[S; AD]>,
    k: nat,
)
    requires
        m.wf(),
        a.len() == b.len(),
        a.len() >= 1,
        m.h - 1 + k <= a.len(),
        k <= m.t,
        forall|i: int| 0 <= i < m.h - 1 + k ==> #[trigger] a[i] == b[i],
    ensures
        m.spec_predict(hist, a).take(k as int) == m.spec_predict(hist, b).take(k as int),
{
    let na = Seq::new(
        a.len(),
        |i: int| crate::jepa::narrowed::<S>(m.spec_norm_action(a[i]@)),
    );
    let nb = Seq::new(
        b.len(),
        |i: int| crate::jepa::narrowed::<S>(m.spec_norm_action(b[i]@)),
    );
    let n = (m.h - 1 + k) as nat;
    assert forall|i: int| 0 <= i < n implies #[trigger] na[i] == nb[i] by {
        assert(a[i] == b[i]);
    }
    crate::layers::law_encoder_is_causal::<S>(m.w@, na, nb, "action_encoder"@, AD as nat, n);
    let (p, q) = (m.spec_predict(hist, a), m.spec_predict(hist, b));
    assert forall|j: int| 0 <= j < k implies #[trigger] p[j] == q[j] by {
        lemma_same_start(m, hist, a, b, k, (j + 1) as nat);
    }
    assert(p.take(k as int) =~= q.take(k as int));
}

/// The same of a rollout: plans that start with the same `k` actions are predicted to fly the
/// same first `k` steps.
pub proof fn law_rollout_is_causal<S: Wide>(
    r: JepaRollout<S>,
    init: State<S>,
    a: Seq<[S; AD]>,
    b: Seq<[S; AD]>,
    k: nat,
)
    requires
        r.ready(),
        k <= a.len(),
        k <= b.len(),
        k <= r.history.t,
        a.take(k as int) == b.take(k as int),
    ensures
        r.spec_predicted(init, a).take(k as int) == r.spec_predicted(init, b).take(k as int),
{
    let (h, m) = (r.history, r.model);
    let (wa, wb) = (h.spec_window(a), h.spec_window(b));
    assert forall|i: int| 0 <= i < m.h - 1 + k implies #[trigger] wa[i] == wb[i] by {
        let (ja, jb) = (h.joined(a), h.joined(b));
        if i >= h.h - 1 {
            let j = i - (h.h - 1);
            assert(a.take(k as int)[j] == b.take(k as int)[j]);
            assert(ja[i] == a[j] && jb[i] == b[j]);
        } else {
            assert(ja[i] == jb[i]);
        }
    }
    let past = h.spec_build_history(init);
    law_prediction_is_causal(m, past, wa, wb, k);
    let (p, q) = (m.spec_predict(past, wa), m.spec_predict(past, wb));
    assert forall|j: int| 0 <= j < k implies #[trigger] r.spec_predicted(init, a).take(
        k as int,
    )[j] == r.spec_predicted(init, b).take(k as int)[j] by {
        assert(p.take(k as int)[j] == q.take(k as int)[j]);
    }
    assert(r.spec_predicted(init, a).take(k as int) =~= r.spec_predicted(init, b).take(k as int));
}

// ---------------------------------------------------------------------------
// Normalisation
// ---------------------------------------------------------------------------
proof fn lemma_scaled_back(x: real, m: real, s: real)
    requires
        s != 0real,
    ensures
        ((x - m) / s) * s + m == x,
{
    assert(((x - m) / s) * s == x - m) by (nonlinear_arith)
        requires
            s != 0real,
    ;
}

/// Normalising can be undone: scaled by its deviation and shifted by its mean, a normalised
/// entry is the entry again; of a position, by the position it is relative to, where the
/// model sees positions at all.
pub proof fn law_normalising_is_undone<S: Wide>(
    m: SkyJepaLite<S>,
    x: Seq<S>,
    r: Seq<S>,
    a: Seq<S>,
    i: int,
    j: int,
)
    requires
        crate::scalar::exact::<S>(),
        0 <= i < SD,
        0 <= j < AD,
        m.state_std[i].val() != 0real,
        m.action_std[j].val() != 0real,
    ensures
        ({
            let n = m.spec_norm_state(x, r)[i].val();
            let b = m.spec_norm_action(a)[j].val();
            &&& i >= 3 ==> n * m.state_std[i].val() + m.state_mean[i].val() == x[i].val()
            &&& i < 3 && m.relative_pos ==> n * m.state_std[i].val() + r[i].val() == x[i].val()
            &&& i < 3 && !m.relative_pos ==> n == 0real
            &&& b * m.action_std[j].val() + m.action_mean[j].val() == a[j].val()
        }),
{
    lemma_scaled_back(x[i].val(), m.state_mean[i].val(), m.state_std[i].val());
    lemma_scaled_back(x[i].val(), r[i].val(), m.state_std[i].val());
    lemma_scaled_back(a[j].val(), m.action_mean[j].val(), m.action_std[j].val());
}

} // verus!
