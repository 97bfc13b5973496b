//! What the optimiser of the predictive controller descends on: laws of its derivatives, of
//! its value function and of its steps.
use vstd::prelude::*;

use crate::linalg::Vec3;
use crate::nmpc::{feedback, gradient, weighted_squares, Nmpc, Track, NU, NX};
use crate::physics::{lemma_times_one, lemma_times_zero};
use crate::scalar::Real;
use crate::state::State;

verus! {

// ---------------------------------------------------------------------------
// Derivatives of the cost
// ---------------------------------------------------------------------------
/// `sum over i < n of g[i] d[i] + c[i] d[i]^2 / 2` for a step `d` from `x` to `y`.
pub open spec fn quadratic<S: Real>(g: Seq<S>, c: Seq<S>, x: Seq<S>, y: Seq<S>, n: nat) -> real
    decreases n,
{
    if n == 0 {
        0real
    } else {
        let d = y[n - 1].val() - x[n - 1].val();
        quadratic(g, c, x, y, (n - 1) as nat) + g[n - 1].val() * d + c[n - 1].val() * (d * d)
            / 2real
    }
}

proof fn lemma_square_step(w: real, x: real, y: real, r: real)
    ensures
        (w * (y - r)) * (y - r) == (w * (x - r)) * (x - r) + (2real * w * (x - r)) * (y - x) + (2real
            * w) * ((y - x) * (y - x)) / 2real,
{
    let (a, d) = (x - r, y - x);
    assert(y - r == a + d);
    crate::algebra::lemma_dist(w, a, d);
    crate::algebra::lemma_dist(a + d, w * a, w * d);
    crate::algebra::lemma_dist(w * a, a, d);
    crate::algebra::lemma_dist(w * d, a, d);
    assert((w * d) * a == (w * a) * d) by (nonlinear_arith);
    assert((2real * w * a) * d == 2real * ((w * a) * d)) by (nonlinear_arith);
    assert((2real * w) * (d * d) / 2real == (w * d) * d) by (nonlinear_arith);
}

/// The gradient that the optimiser uses is that of its cost: for any step, the weighted
/// squares change by the gradient times the step and half the curvature `2 w` times its
/// square, exactly.
pub proof fn law_gradient_is_of_the_cost<S: Real>(
    w: Seq<S>,
    c: Seq<S>,
    x: Seq<S>,
    y: Seq<S>,
    r: Seq<S>,
    init: S,
    n: nat,
)
    requires
        crate::scalar::exact::<S>(),
        n <= w.len(),
        forall|i: int| 0 <= i < n ==> (#[trigger] c[i]).val() == 2real * w[i].val(),
    ensures
        weighted_squares(w, y, r, init, n).val() == weighted_squares(w, x, r, init, n).val()
            + quadratic(gradient(w, x, r), c, x, y, n),
    decreases n,
{
    if n > 0 {
        law_gradient_is_of_the_cost(w, c, x, y, r, init, (n - 1) as nat);
        let k = n - 1;
        crate::scalar::lemma_splat_int::<S>(2);
        assert(c[k].val() == 2real * w[k].val());
        lemma_square_step(w[k].val(), x[k].val(), y[k].val(), r[k].val());
    }
}

/// The value function at the end is the cost of the final state: from any state it gives, by
/// its gradient and its curvature, the exact change of that cost for any step. It has no
/// cross terms.
pub proof fn law_end_value_is_the_end_cost<S: Real>(
    n: Nmpc<S>,
    x: Seq<S>,
    y: Seq<S>,
    xr: Seq<S>,
    diag: Seq<S>,
)
    requires
        crate::scalar::exact::<S>(),
        diag == Seq::new(NX as nat, |i: int| n.end_vxx()[i][i]),
    ensures
        weighted_squares(n.end_weights(), y, xr, S::spec_zero(), NX as nat).val()
            == weighted_squares(n.end_weights(), x, xr, S::spec_zero(), NX as nat).val()
            + quadratic(n.end_vx(x, xr), diag, x, y, NX as nat),
        forall|i: int, j: int|
            0 <= i < NX && 0 <= j < NX && i != j ==> (#[trigger] n.end_vxx()[i][j]).val() == 0real,
{
    let w = n.end_weights();
    let q = n.spec_qdiag();
    let (two, five) = (S::spec_splat(2, 1), S::spec_splat(5, 1));
    crate::scalar::lemma_splat_int::<S>(2);
    crate::scalar::lemma_splat_int::<S>(5);
    let (p, f) = (two.val(), five.val());
    assert(p * f == 10real) by (nonlinear_arith)
        requires
            p == 2real,
            f == 5real,
    ;
    assert forall|i: int| 0 <= i < NX implies (#[trigger] diag[i]).val() == 2real * w[i].val() by {
        assert(w[i].val() == 5real * q[i].val());
        assert(n.end_vxx()[i][i].val() == (two * five).val() * q[i].val());
    }
    law_gradient_is_of_the_cost(w, diag, x, y, xr, S::spec_zero(), NX as nat);
    lemma_same_quadratic(n, x, y, xr, diag, NX as nat);
}

proof fn lemma_same_quadratic<S: Real>(
    n: Nmpc<S>,
    x: Seq<S>,
    y: Seq<S>,
    xr: Seq<S>,
    diag: Seq<S>,
    k: nat,
)
    requires
        crate::scalar::exact::<S>(),
        k <= NX,
    ensures
        quadratic(gradient(n.end_weights(), x, xr), diag, x, y, k) == quadratic(
            n.end_vx(x, xr),
            diag,
            x,
            y,
            k,
        ),
    decreases k,
{
    if k > 0 {
        lemma_same_quadratic(n, x, y, xr, diag, (k - 1) as nat);
        let i = k - 1;
        let q = n.spec_qdiag()[i].val();
        crate::scalar::lemma_splat_int::<S>(2);
        crate::scalar::lemma_splat_int::<S>(5);
        let (a, b) = (gradient(n.end_weights(), x, xr)[i], n.end_vx(x, xr)[i]);
        let e = x[i].val() - xr[i].val();
        assert(n.end_weights()[i].val() == 5real * q);
        assert(a.val() == (2real * (5real * q)) * e);
        assert(b.val() == ((2real * 5real) * q) * e);
        assert((2real * (5real * q)) * e == ((2real * 5real) * q) * e) by (nonlinear_arith);
    }
}

// ---------------------------------------------------------------------------
// Derivatives of the step
// ---------------------------------------------------------------------------
proof fn lemma_eps<S: Real>(eps: S, x: S)
    requires
        crate::scalar::exact::<S>(),
        eps == S::spec_splat(1, 1000000),
    ensures
        eps.val() > 0real,
        (x - x).val() == 0real,
        ((x - x) / eps).val() == 0real,
{
    crate::scalar::lemma_splat_fraction::<S>(1, 1000000);
    let e = eps.val();
    assert(0real / e == 0real) by (nonlinear_arith)
        requires
            e > 0real,
    ;
}

proof fn lemma_slope(e: real, d: real, k: real)
    requires
        e > 0real,
        d == e * k,
    ensures
        d / e == k,
{
    assert(d / e == k) by (nonlinear_arith)
        requires
            e > 0real,
            d == e * k,
    ;
}

/// Where the vehicle is makes no difference to how it moves: a step carries a change of
/// position on unchanged, and nothing else changes with it.
pub proof fn law_position_is_carried_on<S: Real>(n: Nmpc<S>, x: Seq<S>, u: Seq<S>, i: int, j: int)
    requires
        crate::scalar::exact::<S>(),
        x.len() == NX,
        0 <= i < NX,
        0 <= j < 3,
    ensures
        n.spec_jac_x(x, u)[i][j].val() == if i == j {
            1real
        } else {
            0real
        },
{
    let eps = S::spec_splat(1, 1000000);
    let y = x.update(j, x[j] + eps);
    let (a, b) = (n.spec_f(x, u), n.spec_f(y, u));
    lemma_eps(eps, a[i]);
    assert(y[3] == x[3] && y[4] == x[4] && y[5] == x[5] && y[6] == x[6] && y[7] == x[7]);
    assert(y[8] == x[8] && y[9] == x[9] && y[10] == x[10] && y[11] == x[11] && y[12] == x[12]);
    assert(j == 0 || j == 1 || j == 2);
    assert(i == 0 || i == 1 || i == 2 || i == 3 || i == 4 || i == 5 || i == 6 || i == 7 || i == 8
        || i == 9 || i == 10 || i == 11 || i == 12);
    assert(n.spec_jac_x(x, u)[i][j] == (b[i] - a[i]) / eps);
    let e = eps.val();
    if i == j {
        assert(b[i].val() - a[i].val() == e);
        lemma_times_one(e, 1real);
        lemma_slope(e, e, 1real);
    } else if i < 3 {
        assert(y[i] == x[i]);
    }
}

proof fn lemma_velocity_part(x: real, v: real, a: real, dt: real, e: real)
    ensures
        (x + ((v + e) + a) * dt) - (x + (v + a) * dt) == e * dt,
{
    crate::algebra::lemma_dist(dt, v + a, e);
    assert((v + e) + a == (v + a) + e);
}

/// A change of velocity lasts: a step carries it on unchanged, moves the position by it for
/// the time of the step, and changes nothing else.
pub proof fn law_velocity_is_carried_on<S: Real>(n: Nmpc<S>, x: Seq<S>, u: Seq<S>, i: int, j: int)
    requires
        crate::scalar::exact::<S>(),
        x.len() == NX,
        0 <= i < NX,
        3 <= j < 6,
    ensures
        n.spec_jac_x(x, u)[i][j].val() == if i == j {
            1real
        } else if i == j - 3 {
            n.dt.val()
        } else {
            0real
        },
{
    let eps = S::spec_splat(1, 1000000);
    let y = x.update(j, x[j] + eps);
    let (a, b) = (n.spec_f(x, u), n.spec_f(y, u));
    lemma_eps(eps, a[i]);
    assert(y[0] == x[0] && y[1] == x[1] && y[2] == x[2] && y[6] == x[6] && y[7] == x[7]);
    assert(y[8] == x[8] && y[9] == x[9] && y[10] == x[10] && y[11] == x[11] && y[12] == x[12]);
    assert(j == 3 || j == 4 || j == 5);
    assert(j != 3 ==> y[3] == x[3]);
    assert(j != 4 ==> y[4] == x[4]);
    assert(j != 5 ==> y[5] == x[5]);
    assert(i == 0 || i == 1 || i == 2 || i == 3 || i == 4 || i == 5 || i == 6 || i == 7 || i == 8
        || i == 9 || i == 10 || i == 11 || i == 12);
    assert(n.spec_jac_x(x, u)[i][j] == (b[i] - a[i]) / eps);
    let (e, dt) = (eps.val(), n.dt.val());
    if i == j {
        assert(b[i].val() - a[i].val() == e);
        lemma_times_one(e, 1real);
        lemma_slope(e, e, 1real);
    } else if i == j - 3 {
        let gain = a[j].val() - x[j].val();
        assert(b[j].val() == (x[j].val() + e) + gain);
        lemma_velocity_part(x[i].val(), x[j].val(), gain, dt, e);
        assert(b[i].val() - a[i].val() == e * dt);
        lemma_slope(e, e * dt, dt);
    }
}

/// More thrust accelerates along body z: in a step the velocity changes by `dt up / m` for
/// each newton, and the position by `dt` times that; nothing else changes with it.
pub proof fn law_thrust_accelerates<S: Real>(n: Nmpc<S>, s: State<S>, u: Seq<S>, i: int)
    requires
        crate::scalar::exact::<S>(),
        n.mass.val() != 0real,
        u.len() == NU,
        0 <= i < NX,
    ensures
        ({
            let up = s.q.spec_to_rotmat().col(2);
            let k = n.dt.val() / n.mass.val();
            let b = n.spec_jac_u(Nmpc::spec_x0(s), u)[i][0].val();
            &&& i == 3 ==> b == up.x * k
            &&& i == 4 ==> b == up.y * k
            &&& i == 5 ==> b == up.z * k
            &&& i == 0 ==> b == (up.x * k) * n.dt.val()
            &&& i == 1 ==> b == (up.y * k) * n.dt.val()
            &&& i == 2 ==> b == (up.z * k) * n.dt.val()
            &&& i >= 6 ==> b == 0real
        }),
{
    let eps = S::spec_splat(1, 1000000);
    let x = Nmpc::spec_x0(s);
    let v = u.update(0, u[0] + eps);
    let (a, b) = (n.spec_f(x, u), n.spec_f(x, v));
    lemma_eps(eps, a[i]);
    assert(v[1] == u[1] && v[2] == u[2] && v[3] == u[3]);
    assert(n.spec_jac_u(x, u)[i][0] == (b[i] - a[i]) / eps);
    let up = s.q.spec_to_rotmat().col(2);
    let (e, dt, m) = (eps.val(), n.dt.val(), n.mass.val());
    let k = dt / m;
    let g = crate::params::spec_gravity::<S>().val();
    lemma_more_thrust(up.x, 0real, u[0].val(), e, m, dt);
    lemma_more_thrust(up.y, 0real, u[0].val(), e, m, dt);
    lemma_more_thrust(up.z, -g, u[0].val(), e, m, dt);
    assert(b[3].val() - a[3].val() == e * (up.x * k));
    assert(b[4].val() - a[4].val() == e * (up.y * k));
    assert(b[5].val() - a[5].val() == e * (up.z * k));
    lemma_slope(e, e * (up.x * k), up.x * k);
    lemma_slope(e, e * (up.y * k), up.y * k);
    lemma_slope(e, e * (up.z * k), up.z * k);
    lemma_moved_on(x[0].val(), a[3].val(), b[3].val(), dt, e, up.x * k);
    lemma_moved_on(x[1].val(), a[4].val(), b[4].val(), dt, e, up.y * k);
    lemma_moved_on(x[2].val(), a[5].val(), b[5].val(), dt, e, up.z * k);
    assert(i == 0 || i == 1 || i == 2 || i == 3 || i == 4 || i == 5 || i == 6 || i == 7 || i == 8
        || i == 9 || i == 10 || i == 11 || i == 12);
}

proof fn lemma_moved_on(x: real, v: real, w: real, dt: real, e: real, k: real)
    requires
        w - v == e * k,
        e > 0real,
    ensures
        ((x + w * dt) - (x + v * dt)) / e == k * dt,
{
    crate::algebra::lemma_dist(dt, w, v);
    assert((e * k) * dt == e * (k * dt)) by (nonlinear_arith);
    lemma_slope(e, e * (k * dt), k * dt);
}

proof fn lemma_more_thrust(up: real, f: real, u: real, e: real, m: real, dt: real)
    requires
        m != 0real,
    ensures
        (f + up * ((u + e) / m)) * dt - (f + up * (u / m)) * dt == e * (up * (dt / m)),
{
    assert((u + e) / m == u / m + e / m) by (nonlinear_arith)
        requires
            m != 0real,
    ;
    crate::algebra::lemma_dist(up, u / m, e / m);
    crate::algebra::lemma_dist(dt, f + up * (u / m), up * (e / m));
    assert((up * (e / m)) * dt == e * (up * (dt / m))) by (nonlinear_arith)
        requires
            m != 0real,
    ;
}

/// A moment turns the body through its inverse inertia: in a step the body rate changes by
/// `dt` times its column, and nothing else changes with it.
pub proof fn law_moment_accelerates<S: Real>(
    n: Nmpc<S>,
    s: State<S>,
    u: Seq<S>,
    i: int,
    j: int,
)
    requires
        crate::scalar::exact::<S>(),
        u.len() == NU,
        0 <= i < NX,
        0 <= j < 3,
    ensures
        n.spec_jac_u(Nmpc::spec_x0(s), u)[i][j + 1].val() == if i >= 10 {
            n.inv_inertia.at(i - 10, j).val() * n.dt.val()
        } else {
            0real
        },
{
    let eps = S::spec_splat(1, 1000000);
    let x = Nmpc::spec_x0(s);
    let v = u.update(j + 1, u[j + 1] + eps);
    let (a, b) = (n.spec_f(x, u), n.spec_f(x, v));
    lemma_eps(eps, a[i]);
    assert(n.spec_jac_u(x, u)[i][j + 1] == (b[i] - a[i]) / eps);
    assert(v[0] == u[0]);
    assert(j == 0 || j == 1 || j == 2);
    assert(j != 0 ==> v[1] == u[1]);
    assert(j != 1 ==> v[2] == u[2]);
    assert(j != 2 ==> v[3] == u[3]);
    assert(i == 0 || i == 1 || i == 2 || i == 3 || i == 4 || i == 5 || i == 6 || i == 7 || i == 8
        || i == 9 || i == 10 || i == 11 || i == 12);
    if i >= 10 {
        let (e, dt) = (eps.val(), n.dt.val());
        let m = n.inv_inertia;
        let gyro = s.w.spec_cross(n.inertia.spec_matvec(s.w));
        let p = Vec3 { x: u[1], y: u[2], z: u[3] } - gyro;
        let q = Vec3 { x: v[1], y: v[2], z: v[3] } - gyro;
        let r = i - 10;
        let c = m.at(r, j).val();
        let (pj, qj) = if j == 0 {
            (p.x.val(), q.x.val())
        } else if j == 1 {
            (p.y.val(), q.y.val())
        } else {
            (p.z.val(), q.z.val())
        };
        assert(qj == pj + e);
        crate::algebra::lemma_dist(c, pj, e);
        let (mp, mq) = (m.spec_matvec(p), m.spec_matvec(q));
        crate::transforms::lemma_matvec_columns(m, p);
        crate::transforms::lemma_matvec_columns(m, q);
        let (y, z) = if r == 0 {
            (mp.x.val(), mq.x.val())
        } else if r == 1 {
            (mp.y.val(), mq.y.val())
        } else {
            (mp.z.val(), mq.z.val())
        };
        assert(z == y + c * e);
        let w = if r == 0 {
            s.w.x.val()
        } else if r == 1 {
            s.w.y.val()
        } else {
            s.w.z.val()
        };
        assert(a[i].val() == w + y * dt);
        assert(b[i].val() == w + z * dt);
        crate::algebra::lemma_dist(dt, y, c * e);
        assert((c * e) * dt == e * (c * dt)) by (nonlinear_arith);
        lemma_slope(e, e * (c * dt), c * dt);
    }
}

// ---------------------------------------------------------------------------
// Steps
// ---------------------------------------------------------------------------
/// On the track itself a trial moves each control by the step size times its feedforward, the
/// thrust not below zero; off it, a deviation in entry `j` of the state is answered by the
/// feedback gain of that entry.
pub proof fn law_trial_follows_its_gains<S: Real>(
    n: Nmpc<S>,
    k: Track<S>,
    xrs: Seq<Seq<S>>,
    alpha: S,
    t: int,
    x: Seq<S>,
    j: int,
    d: real,
    i: int,
)
    requires
        crate::scalar::exact::<S>(),
        0 <= i < NU,
        0 <= j < NX,
        x.len() == NX,
        k.xs[t].len() == NX,
        x[j].val() == k.xs[t][j].val() + d,
        forall|l: int| 0 <= l < NX && l != j ==> (#[trigger] x[l]).val() == k.xs[t][l].val(),
    ensures
        ({
            let s = n.stage_at(k, xrs, t)->0;
            let want = k.us[t][i].val() + alpha.val() * s.kff[i].val() + s.kfb[i][j].val() * d;
            n.tried_u(k, xrs, alpha, t, x)[i].val() == if i == 0 && want < 0real {
                0real
            } else {
                want
            }
        }),
{
    let s = n.stage_at(k, xrs, t)->0;
    lemma_feedback(alpha, s.kff, s.kfb, x, k.xs[t], i, j, d, NX as nat);
    let u = k.us[t][i] + feedback(alpha, s.kff, s.kfb, x, k.xs[t], i, NX as nat);
    assert(u.spec_is_finite() && S::spec_zero().spec_is_finite());
}

proof fn lemma_feedback<S: Real>(
    alpha: S,
    kff: Seq<S>,
    kfb: Seq<Seq<S>>,
    x: Seq<S>,
    r: Seq<S>,
    i: int,
    j: int,
    d: real,
    n: nat,
)
    requires
        crate::scalar::exact::<S>(),
        n <= NX,
        x[j].val() == r[j].val() + d,
        forall|l: int| 0 <= l < NX && l != j ==> (#[trigger] x[l]).val() == r[l].val(),
    ensures
        feedback(alpha, kff, kfb, x, r, i, n).val() == alpha.val() * kff[i].val() + if 0 <= j < n {
            kfb[i][j].val() * d
        } else {
            0real
        },
    decreases n,
{
    if n > 0 {
        lemma_feedback(alpha, kff, kfb, x, r, i, j, d, (n - 1) as nat);
        let l = n - 1;
        if l != j {
            assert(x[l].val() == r[l].val());
            lemma_times_zero(kfb[i][l].val(), (x[l] - r[l]).val());
        }
    }
}

// ---------------------------------------------------------------------------
// The backward pass
// ---------------------------------------------------------------------------
/// The situation of one stage: state, control, target, regularisation, and gradient and
/// curvature of the value function after it.
pub struct Situation<S> {
    pub x: Seq<S>,
    pub u: Seq<S>,
    pub xr: Seq<S>,
    pub reg: S,
    pub vx: Seq<S>,
    pub vxx: Seq<Seq<S>>,
}

/// The gradient in the control of stage cost and value after it: `2 R (u - ur) + B^T vx`.
pub open spec fn pull_u<S: Real>(n: Nmpc<S>, at: Situation<S>) -> Seq<S> {
    crate::dense::spec_tmatvec_onto(
        gradient(n.spec_rdiag(), at.u, n.spec_ur()@),
        n.spec_jac_u(at.x, at.u),
        at.vx,
        4,
        13,
    )
}

/// The curvature in the control: `B^T Vxx B`, with `2 R` and the regularisation on the
/// diagonal.
pub open spec fn stiffness<S: Real>(n: Nmpc<S>, at: Situation<S>) -> Seq<Seq<S>> {
    let b = n.spec_jac_u(at.x, at.u);
    let r = n.spec_rdiag();
    crate::nmpc::plus_diag(
        crate::dense::spec_tproduct(
            b,
            crate::dense::spec_product(at.vxx, b, 13, 13, 4),
            4,
            13,
            4,
        ),
        Seq::new(4, |i: int| S::spec_splat(2, 1) * r[i] + at.reg),
    )
}

/// The cross curvature: `B^T Vxx A`.
pub open spec fn coupling<S: Real>(n: Nmpc<S>, at: Situation<S>) -> Seq<Seq<S>> {
    crate::dense::spec_tproduct(
        n.spec_jac_u(at.x, at.u),
        crate::dense::spec_product(at.vxx, n.spec_jac_x(at.x, at.u), 13, 13, 13),
        4,
        13,
        13,
    )
}

/// The gradient in the state: `2 Q (x - xr) + A^T vx`.
pub open spec fn pull_x<S: Real>(n: Nmpc<S>, at: Situation<S>) -> Seq<S> {
    crate::dense::spec_tmatvec_onto(
        gradient(n.spec_qdiag(), at.x, at.xr),
        n.spec_jac_x(at.x, at.u),
        at.vx,
        13,
        13,
    )
}

/// The curvature in the state: `A^T Vxx A`, with `2 Q` on the diagonal.
pub open spec fn bend_x<S: Real>(n: Nmpc<S>, at: Situation<S>) -> Seq<Seq<S>> {
    let a = n.spec_jac_x(at.x, at.u);
    crate::nmpc::plus_diag(
        crate::dense::spec_tproduct(
            a,
            crate::dense::spec_product(at.vxx, a, 13, 13, 13),
            13,
            13,
            13,
        ),
        crate::nmpc::times(S::spec_splat(2, 1), n.spec_qdiag()),
    )
}

/// The backward pass of the stage.
pub open spec fn stage_of<S: Real>(n: Nmpc<S>, at: Situation<S>) -> Option<crate::nmpc::Stage<S>> {
    n.spec_stage(at.x, at.u, at.xr, at.reg, at.vx, at.vxx)
}

/// Row `i` of a matrix with four columns, times a vector.
pub open spec fn row_times<S: Real>(m: Seq<Seq<S>>, v: Seq<S>, i: int) -> real {
    m[i][0].val() * v[0].val() + m[i][1].val() * v[1].val() + m[i][2].val() * v[2].val()
        + m[i][3].val() * v[3].val()
}

/// The matrix with four rows takes `v` to the opposite of `g`.
pub open spec fn balances<S: Real>(m: Seq<Seq<S>>, v: Seq<S>, g: Seq<S>) -> bool {
    &&& row_times(m, v, 0) == -g[0].val()
    &&& row_times(m, v, 1) == -g[1].val()
    &&& row_times(m, v, 2) == -g[2].val()
    &&& row_times(m, v, 3) == -g[3].val()
}

/// Column `j` of a matrix with four rows.
pub open spec fn column_of<S>(m: Seq<Seq<S>>, j: int) -> Seq<S> {
    seq![m[0][j], m[1][j], m[2][j], m[3][j]]
}

proof fn lemma_solved<S: Real>(m: Seq<Seq<S>>, v: Seq<S>, g: Seq<S>, p: int)
    requires
        crate::scalar::exact::<S>(),
        crate::dense::square4(m),
        crate::dense::spec_inv4(m) is Some,
        balances(m, v, g),
        0 <= p < 4,
    ensures
        -row_times(crate::dense::spec_inv4(m)->0, g, p) == v[p].val(),
{
    let inv = crate::dense::spec_inv4(m)->0;
    crate::dense::law_inv4_inverts(m);
    assert(crate::dense::entry4(inv, m, p, 0) == crate::linalg::unit(p, 0));
    assert(crate::dense::entry4(inv, m, p, 1) == crate::linalg::unit(p, 1));
    assert(crate::dense::entry4(inv, m, p, 2) == crate::linalg::unit(p, 2));
    assert(crate::dense::entry4(inv, m, p, 3) == crate::linalg::unit(p, 3));
    let row = |a: Seq<S>|
        crate::algebra::Row4 { a: a[0].val(), b: a[1].val(), c: a[2].val(), d: a[3].val() };
    crate::algebra::lemma_dot4_twice(
        row(inv[p]),
        row(m[0]),
        row(m[1]),
        row(m[2]),
        row(m[3]),
        row(v),
    );
    crate::linalg::lemma_unit_times(v[0].val());
    crate::linalg::lemma_unit_times(v[1].val());
    crate::linalg::lemma_unit_times(v[2].val());
    crate::linalg::lemma_unit_times(v[3].val());
    lemma_minus_row(inv[p][0].val(), row_times(m, v, 0), g[0].val());
    lemma_minus_row(inv[p][1].val(), row_times(m, v, 1), g[1].val());
    lemma_minus_row(inv[p][2].val(), row_times(m, v, 2), g[2].val());
    lemma_minus_row(inv[p][3].val(), row_times(m, v, 3), g[3].val());
    assert(p == 0 || p == 1 || p == 2 || p == 3);
}

proof fn lemma_minus_row(x: real, r: real, g: real)
    requires
        r == -g,
    ensures
        x * r == -(x * g),
{
    assert(x * r == -(x * g)) by (nonlinear_arith)
        requires
            r == -g,
    ;
}

/// The gains solve the equations of the stage. A control step that balances the gradient in
/// the control is the feedforward, and none else is; and controls that balance the coupling
/// to entry `j` of the state are the feedback gains of that entry.
pub proof fn law_gains_balance<S: Real>(
    n: Nmpc<S>,
    at: Situation<S>,
    v: Seq<S>,
    j: int,
    p: int,
)
    requires
        crate::scalar::exact::<S>(),
        stage_of(n, at) is Some,
        0 <= j < NX,
        0 <= p < NU,
    ensures
        ({
            let s = stage_of(n, at)->0;
            &&& balances(stiffness(n, at), v, pull_u(n, at)) ==> s.kff[p].val() == v[p].val()
            &&& balances(stiffness(n, at), v, column_of(coupling(n, at), j)) ==> s.kfb[p][j].val()
                == v[p].val()
        }),
{
    let s = stage_of(n, at)->0;
    lemma_same_terms(n, at);
    let m = stiffness(n, at);
    let inv = crate::dense::spec_inv4(m)->0;
    let g = pull_u(n, at);
    let q = coupling(n, at);
    assert(s.kff[p] == crate::nmpc::neg_acc(inv, g, p, 4));
    reveal_with_fuel(crate::nmpc::neg_acc, 5);
    reveal_with_fuel(crate::dense::acc_row_col, 5);
    if balances(m, v, g) {
        lemma_solved(m, v, g, p);
    }
    let c = column_of(q, j);
    if balances(m, v, c) {
        lemma_solved(m, v, c, p);
    }
    assert(s.kfb[p][j] == -crate::dense::acc_row_col(S::spec_zero(), inv, q, p, j, 4));
}

proof fn lemma_same_terms<S: Real>(n: Nmpc<S>, at: Situation<S>)
    requires
        stage_of(n, at) is Some,
    ensures
        crate::dense::square4(stiffness(n, at)),
        crate::dense::spec_inv4(stiffness(n, at)) is Some,
        ({
            let inv = crate::dense::spec_inv4(stiffness(n, at))->0;
            let s = stage_of(n, at)->0;
            &&& s.kff == Seq::new(4, |i: int| crate::nmpc::neg_acc(inv, pull_u(n, at), i, 4))
            &&& s.kfb == crate::nmpc::negated(
                crate::dense::spec_product(inv, coupling(n, at), 4, 4, 13),
            )
            &&& s.vx == Seq::new(
                13,
                |i: int|
                    crate::nmpc::vx_acc(
                        pull_x(n, at),
                        pull_u(n, at),
                        stiffness(n, at),
                        coupling(n, at),
                        s.kff,
                        s.kfb,
                        i,
                        4,
                    ),
            )
            &&& s.vxx == Seq::new(
                13,
                |i: int|
                    Seq::new(
                        13,
                        |j: int|
                            crate::nmpc::vxx_acc(
                                bend_x(n, at),
                                stiffness(n, at),
                                coupling(n, at),
                                s.kfb,
                                i,
                                j,
                                4,
                            ),
                    ),
            )
        }),
{
    let luu = crate::nmpc::times(S::spec_splat(2, 1), n.spec_rdiag());
    let r = n.spec_rdiag();
    assert(Seq::new(4, |i: int| luu[i] + at.reg) =~= Seq::new(
        4,
        |i: int| S::spec_splat(2, 1) * r[i] + at.reg,
    ));
}

proof fn lemma_vx_cross<S: Real>(
    kfb: Seq<Seq<S>>,
    quu: Seq<Seq<S>>,
    kff: Seq<S>,
    i: int,
    a: int,
    init: S,
)
    requires
        crate::scalar::exact::<S>(),
    ensures
        crate::nmpc::vx_cross(kfb, quu, kff, i, a, init, 4).val() == init.val() + kfb[a][i].val()
            * row_times(quu, kff, a),
{
    reveal_with_fuel(crate::nmpc::vx_cross, 5);
    let k = kfb[a][i].val();
    let q = |b: int| quu[a][b].val() * kff[b].val();
    crate::algebra::lemma_assoc(k, quu[a][0].val(), kff[0].val());
    crate::algebra::lemma_assoc(k, quu[a][1].val(), kff[1].val());
    crate::algebra::lemma_assoc(k, quu[a][2].val(), kff[2].val());
    crate::algebra::lemma_assoc(k, quu[a][3].val(), kff[3].val());
    crate::algebra::lemma_dist(k, q(0), q(1));
    crate::algebra::lemma_dist(k, q(0) + q(1), q(2));
    crate::algebra::lemma_dist(k, q(0) + q(1) + q(2), q(3));
}

/// Where the feedforward balances the gradient in the control, the gradient of the value
/// before the stage is that in the state at the control stepped to: `Qx + Qux^T k`, whatever
/// the feedback.
pub proof fn law_value_is_taken_at_the_step<S: Real>(n: Nmpc<S>, at: Situation<S>, i: int)
    requires
        crate::scalar::exact::<S>(),
        stage_of(n, at) is Some,
        0 <= i < NX,
        balances(stiffness(n, at), stage_of(n, at)->0.kff, pull_u(n, at)),
    ensures
        ({
            let s = stage_of(n, at)->0;
            let q = coupling(n, at);
            s.vx[i].val() == pull_x(n, at)[i].val() + q[0][i].val() * s.kff[0].val()
                + q[1][i].val() * s.kff[1].val() + q[2][i].val() * s.kff[2].val() + q[3][i].val()
                * s.kff[3].val()
        }),
{
    lemma_same_terms(n, at);
    let s = stage_of(n, at)->0;
    let (m, g, q, qx) = (stiffness(n, at), pull_u(n, at), coupling(n, at), pull_x(n, at));
    lemma_vx_step(qx, g, m, q, s.kff, s.kfb, i, 0);
    lemma_vx_step(qx, g, m, q, s.kff, s.kfb, i, 1);
    lemma_vx_step(qx, g, m, q, s.kff, s.kfb, i, 2);
    lemma_vx_step(qx, g, m, q, s.kff, s.kfb, i, 3);
    assert(s.vx[i] == crate::nmpc::vx_acc(qx, g, m, q, s.kff, s.kfb, i, 4));
}

proof fn lemma_vx_step<S: Real>(
    qx: Seq<S>,
    g: Seq<S>,
    m: Seq<Seq<S>>,
    q: Seq<Seq<S>>,
    kff: Seq<S>,
    kfb: Seq<Seq<S>>,
    i: int,
    a: nat,
)
    requires
        crate::scalar::exact::<S>(),
        row_times(m, kff, a as int) == -g[a as int].val(),
    ensures
        crate::nmpc::vx_acc(qx, g, m, q, kff, kfb, i, a + 1).val() == crate::nmpc::vx_acc(
            qx,
            g,
            m,
            q,
            kff,
            kfb,
            i,
            a,
        ).val() + q[a as int][i].val() * kff[a as int].val(),
        crate::nmpc::vx_acc(qx, g, m, q, kff, kfb, i, 0) == qx[i],
{
    let p = crate::nmpc::vx_acc(qx, g, m, q, kff, kfb, i, a) + kfb[a as int][i] * g[a as int];
    lemma_vx_cross(kfb, m, kff, i, a as int, p);
    lemma_minus_row(kfb[a as int][i].val(), row_times(m, kff, a as int), g[a as int].val());
}

proof fn lemma_vxx_cross<S: Real>(
    kfb: Seq<Seq<S>>,
    quu: Seq<Seq<S>>,
    i: int,
    j: int,
    a: int,
    init: S,
)
    requires
        crate::scalar::exact::<S>(),
    ensures
        crate::nmpc::vxx_cross(kfb, quu, i, j, a, init, 4).val() == init.val() + kfb[a][i].val()
            * row_times(quu, column_of(kfb, j), a),
{
    reveal_with_fuel(crate::nmpc::vxx_cross, 5);
    let k = kfb[a][i].val();
    let q = |b: int| quu[a][b].val() * kfb[b][j].val();
    crate::algebra::lemma_assoc(k, quu[a][0].val(), kfb[0][j].val());
    crate::algebra::lemma_assoc(k, quu[a][1].val(), kfb[1][j].val());
    crate::algebra::lemma_assoc(k, quu[a][2].val(), kfb[2][j].val());
    crate::algebra::lemma_assoc(k, quu[a][3].val(), kfb[3][j].val());
    crate::algebra::lemma_dist(k, q(0), q(1));
    crate::algebra::lemma_dist(k, q(0) + q(1), q(2));
    crate::algebra::lemma_dist(k, q(0) + q(1) + q(2), q(3));
}

proof fn lemma_vxx_step<S: Real>(
    qxx: Seq<Seq<S>>,
    m: Seq<Seq<S>>,
    q: Seq<Seq<S>>,
    kfb: Seq<Seq<S>>,
    i: int,
    j: int,
    a: nat,
)
    requires
        crate::scalar::exact::<S>(),
        row_times(m, column_of(kfb, j), a as int) == -q[a as int][j].val(),
    ensures
        crate::nmpc::vxx_acc(qxx, m, q, kfb, i, j, a + 1).val() == crate::nmpc::vxx_acc(
            qxx,
            m,
            q,
            kfb,
            i,
            j,
            a,
        ).val() + q[a as int][i].val() * kfb[a as int][j].val(),
        crate::nmpc::vxx_acc(qxx, m, q, kfb, i, j, 0) == qxx[i][j],
{
    let b = a as int;
    let p = crate::nmpc::vxx_acc(qxx, m, q, kfb, i, j, a) + (kfb[b][i] * q[b][j] + q[b][i]
        * kfb[b][j]);
    lemma_vxx_cross(kfb, m, i, j, b, p);
    lemma_minus_row(kfb[b][i].val(), row_times(m, column_of(kfb, j), b), q[b][j].val());
}

/// Where the feedback gains balance the coupling, the curvature of the value before the stage
/// is what feedback leaves of that in the state: `Qxx + Qux^T K`.
pub proof fn law_feedback_lowers_the_curvature<S: Real>(
    n: Nmpc<S>,
    at: Situation<S>,
    i: int,
    j: int,
)
    requires
        crate::scalar::exact::<S>(),
        stage_of(n, at) is Some,
        0 <= i < NX,
        0 <= j < NX,
        balances(
            stiffness(n, at),
            column_of(stage_of(n, at)->0.kfb, j),
            column_of(coupling(n, at), j),
        ),
    ensures
        ({
            let s = stage_of(n, at)->0;
            let q = coupling(n, at);
            s.vxx[i][j].val() == bend_x(n, at)[i][j].val() + q[0][i].val() * s.kfb[0][j].val()
                + q[1][i].val() * s.kfb[1][j].val() + q[2][i].val() * s.kfb[2][j].val()
                + q[3][i].val() * s.kfb[3][j].val()
        }),
{
    lemma_same_terms(n, at);
    let s = stage_of(n, at)->0;
    let (m, q, qxx) = (stiffness(n, at), coupling(n, at), bend_x(n, at));
    lemma_vxx_step(qxx, m, q, s.kfb, i, j, 0);
    lemma_vxx_step(qxx, m, q, s.kfb, i, j, 1);
    lemma_vxx_step(qxx, m, q, s.kfb, i, j, 2);
    lemma_vxx_step(qxx, m, q, s.kfb, i, j, 3);
    assert(s.vxx[i][j] == crate::nmpc::vxx_acc(qxx, m, q, s.kfb, i, j, 4));
}

} // verus!
