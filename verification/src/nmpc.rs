//! Tracking by optimisation: an iterative linear-quadratic regulator over a short horizon,
//! whose first command is mapped to rotor forces through the allocation matrix.
//!
//! The state is `[position 3, velocity 3, quaternion 4 (i, j, k, w), body rate 3]`, the
//! control `[thrust, moment 3]`. Jacobians are finite differences.
use vstd::prelude::*;

use crate::dense::{inv4, product, tmatvec_onto, tproduct};
use crate::linalg::{Mat3, Mat4, Quat, Vec3};
use crate::mppi::repeat;
use crate::params::{gravity, QuadParams, QuadParamsInput, NUM_ROTORS};
use crate::scalar::{Real, Scalar};
use crate::se3::FlatRef;
use crate::so3::quat_dot;
use crate::state::State;

verus! {

pub const NX: usize = 13;

pub const NU: usize = 4;

pub struct Nmpc<S> {
    pub mass: S,
    pub inertia: Mat3<S>,
    pub inv_inertia: Mat3<S>,
    pub tm_to_f: Mat4<S>,
    pub dt: S,
    pub horizon: usize,
    pub iters: usize,
    pub q_pos: S,
    pub q_vel: S,
    pub q_att: S,
    pub q_omega: S,
    pub r_thrust: S,
    pub r_moment: S,
    /// The warm-started controls.
    pub u_prev: Vec<[S; NU]>,
}

// ---------------------------------------------------------------------------
// Pieces of the specification
// ---------------------------------------------------------------------------
/// Controls, the states they lead through, what that costs, and the regularisation.
pub struct Track<S> {
    pub us: Seq<Seq<S>>,
    pub xs: Seq<Seq<S>>,
    pub cost: S,
    pub reg: S,
}

/// What the backward pass finds at one step: the gains, and the value function before it.
pub struct Stage<S> {
    pub kff: Seq<S>,
    pub kfb: Seq<Seq<S>>,
    pub vx: Seq<S>,
    pub vxx: Seq<Seq<S>>,
}

/// `init + sum over i < n of w[i] (x[i] - r[i])^2`.
pub open spec fn weighted_squares<S: Scalar>(
    w: Seq<S>,
    x: Seq<S>,
    r: Seq<S>,
    init: S,
    n: nat,
) -> S
    decreases n,
{
    if n == 0 {
        init
    } else {
        let d = x[n - 1] - r[n - 1];
        weighted_squares(w, x, r, init, (n - 1) as nat) + w[n - 1] * d * d
    }
}

/// The entries times `c`.
pub open spec fn times<S: Scalar>(c: S, w: Seq<S>) -> Seq<S> {
    Seq::new(w.len(), |i: int| c * w[i])
}

/// The gradient `2 w[i] (x[i] - r[i])`.
pub open spec fn gradient<S: Scalar>(w: Seq<S>, x: Seq<S>, r: Seq<S>) -> Seq<S> {
    Seq::new(w.len(), |i: int| S::spec_splat(2, 1) * w[i] * (x[i] - r[i]))
}

/// The square matrix with `d` added to its diagonal.
pub open spec fn plus_diag<S: Scalar>(m: Seq<Seq<S>>, d: Seq<S>) -> Seq<Seq<S>> {
    Seq::new(
        m.len(),
        |i: int|
            Seq::new(
                m[i].len(),
                |j: int|
                    if i == j {
                        m[i][j] + d[i]
                    } else {
                        m[i][j]
                    },
            ),
    )
}

/// `0 - sum over k < n of m[i][k] v[k]`.
pub open spec fn neg_acc<S: Scalar>(m: Seq<Seq<S>>, v: Seq<S>, i: int, n: nat) -> S
    decreases n,
{
    if n == 0 {
        S::spec_zero()
    } else {
        neg_acc(m, v, i, (n - 1) as nat) - m[i][n - 1] * v[n - 1]
    }
}

/// Entry by entry the negated matrix.
pub open spec fn negated<S: Scalar>(m: Seq<Seq<S>>) -> Seq<Seq<S>> {
    Seq::new(m.len(), |i: int| Seq::new(m[i].len(), |j: int| -m[i][j]))
}

/// `init + sum over b < n of kfb[a][i] quu[a][b] w[b]`.
pub open spec fn vx_cross<S: Scalar>(
    kfb: Seq<Seq<S>>,
    quu: Seq<Seq<S>>,
    kff: Seq<S>,
    i: int,
    a: int,
    init: S,
    n: nat,
) -> S
    decreases n,
{
    if n == 0 {
        init
    } else {
        vx_cross(kfb, quu, kff, i, a, init, (n - 1) as nat) + kfb[a][i] * quu[a][n - 1] * kff[n
            - 1]
    }
}

/// Entry `i` of `Qx + K^T Qu + K^T Quu k + Qux^T k`, over the first `n` controls.
pub open spec fn vx_acc<S: Scalar>(
    qx: Seq<S>,
    qu: Seq<S>,
    quu: Seq<Seq<S>>,
    qux: Seq<Seq<S>>,
    kff: Seq<S>,
    kfb: Seq<Seq<S>>,
    i: int,
    n: nat,
) -> S
    decreases n,
{
    if n == 0 {
        qx[i]
    } else {
        let a = n - 1;
        let p = vx_acc(qx, qu, quu, qux, kff, kfb, i, a as nat) + kfb[a][i] * qu[a];
        vx_cross(kfb, quu, kff, i, a, p, NU as nat) + qux[a][i] * kff[a]
    }
}

/// `init + sum over b < n of kfb[a][i] quu[a][b] kfb[b][j]`.
pub open spec fn vxx_cross<S: Scalar>(
    kfb: Seq<Seq<S>>,
    quu: Seq<Seq<S>>,
    i: int,
    j: int,
    a: int,
    init: S,
    n: nat,
) -> S
    decreases n,
{
    if n == 0 {
        init
    } else {
        vxx_cross(kfb, quu, i, j, a, init, (n - 1) as nat) + kfb[a][i] * quu[a][n - 1] * kfb[n
            - 1][j]
    }
}

/// Entry `(i, j)` of `Qxx + K^T Qux + Qux^T K + K^T Quu K`, over the first `n` controls.
pub open spec fn vxx_acc<S: Scalar>(
    qxx: Seq<Seq<S>>,
    quu: Seq<Seq<S>>,
    qux: Seq<Seq<S>>,
    kfb: Seq<Seq<S>>,
    i: int,
    j: int,
    n: nat,
) -> S
    decreases n,
{
    if n == 0 {
        qxx[i][j]
    } else {
        let a = n - 1;
        let p = vxx_acc(qxx, quu, qux, kfb, i, j, a as nat) + (kfb[a][i] * qux[a][j] + qux[a][i]
            * kfb[a][j]);
        vxx_cross(kfb, quu, i, j, a, p, NU as nat)
    }
}

/// `alpha k[i] + sum over j < n of kfb[i][j] (x[j] - r[j])`.
pub open spec fn feedback<S: Scalar>(
    alpha: S,
    kff: Seq<S>,
    kfb: Seq<Seq<S>>,
    x: Seq<S>,
    r: Seq<S>,
    i: int,
    n: nat,
) -> S
    decreases n,
{
    if n == 0 {
        alpha * kff[i]
    } else {
        feedback(alpha, kff, kfb, x, r, i, (n - 1) as nat) + kfb[i][n - 1] * (x[n - 1] - r[n - 1])
    }
}

/// The step sizes of the line search, in the order in which they are tried.
pub open spec fn spec_alpha<S: Real>(k: int) -> S {
    if k == 0 {
        S::spec_one()
    } else if k == 1 {
        S::spec_splat(1, 2)
    } else if k == 2 {
        S::spec_splat(1, 4)
    } else if k == 3 {
        S::spec_splat(1, 10)
    } else {
        S::spec_splat(3, 100)
    }
}

fn alpha_at<S: Real>(k: usize) -> (r: S)
    ensures
        r == spec_alpha::<S>(k as int),
{
    if k == 0 {
        S::one()
    } else if k == 1 {
        S::splat(1, 2)
    } else if k == 2 {
        S::splat(1, 4)
    } else if k == 3 {
        S::splat(1, 10)
    } else {
        S::splat(3, 100)
    }
}

impl<S: Real> Nmpc<S> {
    /// There is a warm-started control for every step of the horizon.
    pub open spec fn wf(self) -> bool {
        self.u_prev@.len() == self.horizon
    }

    /// One rigid-body step under thrust and moment: velocity first, then position with
    /// the new velocity; the quaternion is brought back to unit norm.
    pub open spec fn spec_f(self, x: Seq<S>, u: Seq<S>) -> Seq<S> {
        let p = Vec3 { x: x[0], y: x[1], z: x[2] };
        let v = Vec3 { x: x[3], y: x[4], z: x[5] };
        let q = Quat { i: x[6], j: x[7], k: x[8], w: x[9] };
        let w = Vec3 { x: x[10], y: x[11], z: x[12] };
        let r = q.spec_to_rotmat();
        let fall = Vec3 {
            x: S::spec_zero(),
            y: S::spec_zero(),
            z: -crate::params::spec_gravity::<S>(),
        };
        let vdot = fall + crate::se3::spec_body_z(r).spec_scale(u[0] / self.mass);
        let vn = v + vdot.spec_scale(self.dt);
        let pn = p + vn.spec_scale(self.dt);
        let moment = Vec3 { x: u[1], y: u[2], z: u[3] };
        let wdot = self.inv_inertia.spec_matvec(
            moment - w.spec_cross(self.inertia.spec_matvec(w)),
        );
        let wn = w + wdot.spec_scale(self.dt);
        let qd = crate::so3::spec_quat_dot(q, w);
        let (a, b, c, d) = (
            x[6] + qd.i * self.dt,
            x[7] + qd.j * self.dt,
            x[8] + qd.k * self.dt,
            x[9] + qd.w * self.dt,
        );
        let n = (a * a + b * b + c * c + d * d).spec_sqrt();
        seq![
            pn.x, pn.y, pn.z,
            vn.x, vn.y, vn.z,
            a / n, b / n, c / n, d / n,
            wn.x, wn.y, wn.z,
        ]
    }

    /// The state that a reference asks for: upright at the reference heading.
    pub open spec fn spec_x_ref(r: FlatRef<S>) -> Seq<S> {
        let half = r.yaw * S::spec_splat(1, 2);
        let z = S::spec_zero();
        seq![
            r.x.x, r.x.y, r.x.z,
            r.x_dot.x, r.x_dot.y, r.x_dot.z,
            z, z, half.spec_sin(), half.spec_cos(),
            z, z, r.yaw_dot,
        ]
    }

    pub open spec fn spec_qdiag(self) -> Seq<S> {
        seq![
            self.q_pos, self.q_pos, self.q_pos,
            self.q_vel, self.q_vel, self.q_vel,
            self.q_att, self.q_att, self.q_att, self.q_att,
            self.q_omega, self.q_omega, self.q_omega,
        ]
    }

    pub open spec fn spec_rdiag(self) -> Seq<S> {
        seq![self.r_thrust, self.r_moment, self.r_moment, self.r_moment]
    }

    /// The control that holds hover.
    pub open spec fn spec_ur(self) -> [S; NU] {
        let z = S::spec_zero();
        [self.mass * crate::params::spec_gravity::<S>(), z, z, z]
    }

    pub open spec fn spec_stage_cost(self, x: Seq<S>, u: Seq<S>, xr: Seq<S>, ur: Seq<S>) -> S {
        weighted_squares(
            self.spec_rdiag(),
            u,
            ur,
            weighted_squares(self.spec_qdiag(), x, xr, S::spec_zero(), NX as nat),
            NU as nat,
        )
    }

    /// Finite differences of the step in the state.
    pub open spec fn spec_jac_x(self, x: Seq<S>, u: Seq<S>) -> Seq<Seq<S>> {
        let eps = S::spec_splat(1, 1000000);
        Seq::new(
            NX as nat,
            |i: int|
                Seq::new(
                    NX as nat,
                    |j: int|
                        (self.spec_f(x.update(j, x[j] + eps), u)[i] - self.spec_f(x, u)[i]) / eps,
                ),
        )
    }

    /// Finite differences of the step in the control.
    pub open spec fn spec_jac_u(self, x: Seq<S>, u: Seq<S>) -> Seq<Seq<S>> {
        let eps = S::spec_splat(1, 1000000);
        Seq::new(
            NX as nat,
            |i: int|
                Seq::new(
                    NU as nat,
                    |j: int|
                        (self.spec_f(x, u.update(j, u[j] + eps))[i] - self.spec_f(x, u)[i]) / eps,
                ),
        )
    }

    /// State `t` of the rollout of `us` from `x0`.
    pub open spec fn rolled(self, x0: Seq<S>, us: Seq<Seq<S>>, t: nat) -> Seq<S>
        decreases t,
    {
        if t == 0 {
            x0
        } else {
            self.spec_f(self.rolled(x0, us, (t - 1) as nat), us[t - 1])
        }
    }

    /// The rollout of `us` from `x0`.
    pub open spec fn spec_rollout(self, x0: Seq<S>, us: Seq<Seq<S>>) -> Seq<Seq<S>> {
        Seq::new(us.len() + 1, |t: int| self.rolled(x0, us, t as nat))
    }

    /// The cost of the first `n` stages.
    pub open spec fn stages_cost(
        self,
        xs: Seq<Seq<S>>,
        us: Seq<Seq<S>>,
        xrs: Seq<Seq<S>>,
        n: nat,
    ) -> S
        decreases n,
    {
        if n == 0 {
            S::spec_zero()
        } else {
            self.stages_cost(xs, us, xrs, (n - 1) as nat) + self.spec_stage_cost(
                xs[n - 1],
                us[n - 1],
                xrs[n - 1],
                self.spec_ur()@,
            )
        }
    }

    /// The weights of the final state: five times those of a stage.
    pub open spec fn end_weights(self) -> Seq<S> {
        times(S::spec_splat(5, 1), self.spec_qdiag())
    }

    /// The cost of a plan: its stages and its final state.
    pub open spec fn spec_cost(
        self,
        xs: Seq<Seq<S>>,
        us: Seq<Seq<S>>,
        xrs: Seq<Seq<S>>,
    ) -> S {
        let h = xrs.len();
        weighted_squares(
            self.end_weights(),
            xs[h as int],
            xrs[h - 1],
            self.stages_cost(xs, us, xrs, h),
            NX as nat,
        )
    }

    /// The gradient of the value function at the end.
    pub open spec fn end_vx(self, x: Seq<S>, xr: Seq<S>) -> Seq<S> {
        let q = self.spec_qdiag();
        let ten = S::spec_splat(2, 1) * S::spec_splat(5, 1);
        Seq::new(NX as nat, |i: int| ten * q[i] * (x[i] - xr[i]))
    }

    /// The curvature of the value function at the end.
    pub open spec fn end_vxx(self) -> Seq<Seq<S>> {
        let q = self.spec_qdiag();
        let ten = S::spec_splat(2, 1) * S::spec_splat(5, 1);
        Seq::new(
            NX as nat,
            |i: int|
                Seq::new(
                    NX as nat,
                    |j: int|
                        if i == j {
                            ten * q[i]
                        } else {
                            S::spec_zero()
                        },
                ),
        )
    }

    /// One step of the backward pass at state `x` and control `u`, for the value function
    /// `(vx, vxx)` after it; `None` where `Quu` cannot be inverted.
    pub open spec fn spec_stage(
        self,
        x: Seq<S>,
        u: Seq<S>,
        xr: Seq<S>,
        reg: S,
        vx: Seq<S>,
        vxx: Seq<Seq<S>>,
    ) -> Option<Stage<S>> {
        let (n, m) = (NX as nat, NU as nat);
        let a = self.spec_jac_x(x, u);
        let b = self.spec_jac_u(x, u);
        let two = S::spec_splat(2, 1);
        let lxx = times(two, self.spec_qdiag());
        let luu = times(two, self.spec_rdiag());
        let qx = crate::dense::spec_tmatvec_onto(
            gradient(self.spec_qdiag(), x, xr),
            a,
            vx,
            n,
            n,
        );
        let qu = crate::dense::spec_tmatvec_onto(
            gradient(self.spec_rdiag(), u, self.spec_ur()@),
            b,
            vx,
            m,
            n,
        );
        let vxa = crate::dense::spec_product(vxx, a, n, n, n);
        let vxb = crate::dense::spec_product(vxx, b, n, n, m);
        let qxx = plus_diag(crate::dense::spec_tproduct(a, vxa, n, n, n), lxx);
        let quu = plus_diag(
            crate::dense::spec_tproduct(b, vxb, m, n, m),
            Seq::new(m, |i: int| luu[i] + reg),
        );
        let qux = crate::dense::spec_tproduct(b, vxa, m, n, n);
        match crate::dense::spec_inv4(quu) {
            None => None,
            Some(inv) => {
                let kff = Seq::new(m, |i: int| neg_acc(inv, qu, i, m));
                let kfb = negated(crate::dense::spec_product(inv, qux, m, m, n));
                Some(
                    Stage {
                        kff,
                        kfb,
                        vx: Seq::new(n, |i: int| vx_acc(qx, qu, quu, qux, kff, kfb, i, m)),
                        vxx: Seq::new(
                            n,
                            |i: int|
                                Seq::new(n, |j: int| vxx_acc(qxx, quu, qux, kfb, i, j, m)),
                        ),
                    },
                )
            },
        }
    }

    /// The value function before step `t` of the track; `None` once the pass has failed.
    pub open spec fn value_at(self, k: Track<S>, xrs: Seq<Seq<S>>, t: int) -> Option<
        (Seq<S>, Seq<Seq<S>>),
    >
        decreases xrs.len() - t,
    {
        let h = xrs.len() as int;
        if t >= h {
            Some((self.end_vx(k.xs[h], xrs[h - 1]), self.end_vxx()))
        } else {
            match self.value_at(k, xrs, t + 1) {
                None => None,
                Some((vx, vxx)) => match self.spec_stage(
                    k.xs[t],
                    k.us[t],
                    xrs[t],
                    k.reg,
                    vx,
                    vxx,
                ) {
                    None => None,
                    Some(s) => Some((s.vx, s.vxx)),
                },
            }
        }
    }

    /// The backward pass at step `t` of the track.
    pub open spec fn stage_at(self, k: Track<S>, xrs: Seq<Seq<S>>, t: int) -> Option<Stage<S>> {
        match self.value_at(k, xrs, t + 1) {
            None => None,
            Some((vx, vxx)) => self.spec_stage(k.xs[t], k.us[t], xrs[t], k.reg, vx, vxx),
        }
    }

    /// The control tried at step `t` from state `x`: the old one, `alpha` times the
    /// feedforward and the feedback on the deviation; thrust not below zero.
    pub open spec fn tried_u(self, k: Track<S>, xrs: Seq<Seq<S>>, alpha: S, t: int, x: Seq<S>) -> Seq<
        S,
    > {
        let s = self.stage_at(k, xrs, t)->0;
        Seq::new(
            NU as nat,
            |i: int|
                {
                    let u = k.us[t][i] + feedback(alpha, s.kff, s.kfb, x, k.xs[t], i, NX as nat);
                    if i == 0 {
                        u.spec_max(S::spec_zero())
                    } else {
                        u
                    }
                },
        )
    }

    /// The state reached before step `t` of the trial.
    pub open spec fn tried_x(self, k: Track<S>, xrs: Seq<Seq<S>>, alpha: S, t: nat) -> Seq<S>
        decreases t,
    {
        if t == 0 {
            k.xs[0]
        } else {
            let x = self.tried_x(k, xrs, alpha, (t - 1) as nat);
            self.spec_f(x, self.tried_u(k, xrs, alpha, t - 1, x))
        }
    }

    /// The controls of the trial.
    pub open spec fn tried_us(self, k: Track<S>, xrs: Seq<Seq<S>>, alpha: S) -> Seq<Seq<S>> {
        Seq::new(
            xrs.len(),
            |t: int| self.tried_u(k, xrs, alpha, t, self.tried_x(k, xrs, alpha, t as nat)),
        )
    }

    /// The states of the trial.
    pub open spec fn tried_xs(self, k: Track<S>, xrs: Seq<Seq<S>>, alpha: S) -> Seq<Seq<S>> {
        Seq::new(xrs.len() + 1, |t: int| self.tried_x(k, xrs, alpha, t as nat))
    }

    /// The cost of the trial.
    pub open spec fn tried_cost(self, k: Track<S>, xrs: Seq<Seq<S>>, alpha: S) -> S {
        self.spec_cost(self.tried_xs(k, xrs, alpha), self.tried_us(k, xrs, alpha), xrs)
    }

    /// The trial is an improvement.
    pub open spec fn accepts(self, k: Track<S>, xrs: Seq<Seq<S>>, alpha: S) -> bool {
        let j = self.tried_cost(k, xrs, alpha);
        j.spec_is_finite() && j < k.cost
    }

    /// The first trial from step size `i` on that is an improvement, less regularised.
    pub open spec fn line_search(self, k: Track<S>, xrs: Seq<Seq<S>>, i: int) -> Option<Track<S>>
        decreases 5 - i,
    {
        let alpha = spec_alpha::<S>(i);
        if i >= 5 {
            None
        } else if self.accepts(k, xrs, alpha) {
            Some(
                Track {
                    us: self.tried_us(k, xrs, alpha),
                    xs: self.tried_xs(k, xrs, alpha),
                    cost: self.tried_cost(k, xrs, alpha),
                    reg: (k.reg * S::spec_splat(7, 10)).spec_max(S::spec_splat(1, 1000000)),
                },
            )
        } else {
            self.line_search(k, xrs, i + 1)
        }
    }

    /// One iteration: an improved track; or the same one, regularised ten times more.
    pub open spec fn improved(self, k: Track<S>, xrs: Seq<Seq<S>>) -> Track<S> {
        let stiffer = Track { reg: k.reg * S::spec_splat(10, 1), ..k };
        if self.value_at(k, xrs, 0) is None {
            stiffer
        } else {
            match self.line_search(k, xrs, 0) {
                Some(n) => n,
                None => stiffer,
            }
        }
    }

    /// The iteration gives up: no improvement, and the regularisation is too large.
    pub open spec fn gives_up(self, k: Track<S>, xrs: Seq<Seq<S>>) -> bool {
        &&& self.value_at(k, xrs, 0) is None || self.line_search(k, xrs, 0) is None
        &&& S::spec_splat(1000000, 1) < k.reg * S::spec_splat(10, 1)
    }

    /// The track after at most `n` iterations.
    pub open spec fn optimised(self, k: Track<S>, xrs: Seq<Seq<S>>, n: nat) -> Track<S>
        decreases n,
    {
        if n == 0 {
            k
        } else if self.gives_up(k, xrs) {
            self.improved(k, xrs)
        } else {
            self.optimised(self.improved(k, xrs), xrs, (n - 1) as nat)
        }
    }

    /// The number of steps that are planned.
    pub open spec fn spec_steps(self, refs: Seq<FlatRef<S>>) -> nat {
        if self.horizon <= refs.len() {
            self.horizon as nat
        } else {
            refs.len()
        }
    }

    /// The states that the references ask for.
    pub open spec fn spec_targets(self, refs: Seq<FlatRef<S>>) -> Seq<Seq<S>> {
        Seq::new(self.spec_steps(refs), |t: int| Self::spec_x_ref(refs[t]))
    }

    /// The track that the warm start gives.
    pub open spec fn first_track(self, x0: Seq<S>, refs: Seq<FlatRef<S>>) -> Track<S> {
        let us = crate::dense::rows(self.u_prev@.take(self.spec_steps(refs) as int));
        let xs = self.spec_rollout(x0, us);
        Track {
            us,
            xs,
            cost: self.spec_cost(xs, us, self.spec_targets(refs)),
            reg: S::spec_splat(1, 1000),
        }
    }

    /// The controls that the optimisation arrives at.
    pub open spec fn spec_ilqr(self, x0: Seq<S>, refs: Seq<FlatRef<S>>) -> Seq<Seq<S>> {
        self.optimised(
            self.first_track(x0, refs),
            self.spec_targets(refs),
            self.iters as nat,
        ).us
    }

    /// The state of the vehicle as the optimiser sees it.
    pub open spec fn spec_x0(s: State<S>) -> Seq<S> {
        seq![
            s.x.x, s.x.y, s.x.z,
            s.v.x, s.v.y, s.v.z,
            s.q.i, s.q.j, s.q.k, s.q.w,
            s.w.x, s.w.y, s.w.z,
        ]
    }

    pub fn new(p: &QuadParamsInput<S>, dt: S, horizon: usize) -> (r: Self)
        ensures
            r.wf(),
            r.mass == p.mass,
            r.inertia == QuadParams::spec_from_input(*p).inertia,
            r.inv_inertia == QuadParams::spec_from_input(*p).inv_inertia,
            r.tm_to_f == QuadParams::spec_from_input(*p).tm_to_f,
            r.dt == dt,
            r.horizon == horizon,
            r.iters == 6,
            r.q_pos == S::spec_splat(12, 1),
            r.q_vel == S::spec_splat(2, 1),
            r.q_att == S::spec_splat(8, 1),
            r.q_omega == S::spec_splat(1, 2),
            r.r_thrust == S::spec_splat(2, 1000),
            r.r_moment == S::spec_splat(2, 1),
            forall|k: int| 0 <= k < horizon ==> #[trigger] r.u_prev@[k] == r.spec_ur(),
    {
        let qp = QuadParams::from_input(p);
        let z = S::zero();
        let hover = [p.mass.mul(gravity::<S>()), z, z, z];
        Nmpc {
            mass: p.mass,
            inertia: qp.inertia,
            inv_inertia: qp.inv_inertia,
            tm_to_f: qp.tm_to_f,
            dt,
            horizon,
            iters: 6,
            q_pos: S::splat(12, 1),
            q_vel: S::splat(2, 1),
            q_att: S::splat(8, 1),
            q_omega: S::splat(1, 2),
            r_thrust: S::splat(2, 1000),
            r_moment: S::splat(2, 1),
            u_prev: repeat(hover, horizon),
        }
    }

    /// One rigid-body step.
    fn f(&self, x: &[S; NX], u: &[S; NU]) -> (r: [S; NX])
        ensures
            r@ == self.spec_f(x@, u@),
    {
        let p = Vec3::new(x[0], x[1], x[2]);
        let v = Vec3::new(x[3], x[4], x[5]);
        let q = Quat::new(x[6], x[7], x[8], x[9]);
        let w = Vec3::new(x[10], x[11], x[12]);
        let r = q.to_rotmat();
        let moment = Vec3::new(u[1], u[2], u[3]);
        let body_z = Vec3::new(r.rows[0][2], r.rows[1][2], r.rows[2][2]);
        let fall = Vec3::new(S::zero(), S::zero(), gravity::<S>().neg());
        let vdot = fall.add(body_z.scale(u[0].div(self.mass)));
        let vn = v.add(vdot.scale(self.dt));
        let pn = p.add(vn.scale(self.dt));
        let iw = self.inertia.matvec(w);
        let wdot = self.inv_inertia.matvec(moment.sub(w.cross(iw)));
        let wn = w.add(wdot.scale(self.dt));
        let qd = quat_dot(q, w);
        let a = x[6].add(qd.i.mul(self.dt));
        let b = x[7].add(qd.j.mul(self.dt));
        let c = x[8].add(qd.k.mul(self.dt));
        let d = x[9].add(qd.w.mul(self.dt));
        let n = a.mul(a).add(b.mul(b)).add(c.mul(c)).add(d.mul(d)).sqrt();
        let out = [
            pn.x, pn.y, pn.z,
            vn.x, vn.y, vn.z,
            a.div(n), b.div(n), c.div(n), d.div(n),
            wn.x, wn.y, wn.z,
        ];
        assert(out@ =~= self.spec_f(x@, u@));
        out
    }

    fn x_ref(r: &FlatRef<S>) -> (x: [S; NX])
        ensures
            x@ == Self::spec_x_ref(*r),
    {
        let half = r.yaw.mul(S::splat(1, 2));
        let z = S::zero();
        let out = [
            r.x.x, r.x.y, r.x.z,
            r.x_dot.x, r.x_dot.y, r.x_dot.z,
            z, z, half.sin(), half.cos(),
            z, z, r.yaw_dot,
        ];
        assert(out@ =~= Self::spec_x_ref(*r));
        out
    }

    fn qdiag(&self) -> (r: [S; NX])
        ensures
            r@ == self.spec_qdiag(),
    {
        let out = [
            self.q_pos, self.q_pos, self.q_pos,
            self.q_vel, self.q_vel, self.q_vel,
            self.q_att, self.q_att, self.q_att, self.q_att,
            self.q_omega, self.q_omega, self.q_omega,
        ];
        assert(out@ =~= self.spec_qdiag());
        out
    }

    fn rdiag(&self) -> (r: [S; NU])
        ensures
            r@ == self.spec_rdiag(),
    {
        let out = [self.r_thrust, self.r_moment, self.r_moment, self.r_moment];
        assert(out@ =~= self.spec_rdiag());
        out
    }

    fn ur(&self) -> (r: [S; NU])
        ensures
            r == self.spec_ur(),
    {
        let z = S::zero();
        [self.mass.mul(gravity::<S>()), z, z, z]
    }

    fn stage_cost(&self, x: &[S; NX], u: &[S; NU], xr: &[S; NX], ur: &[S; NU]) -> (r: S)
        ensures
            r == self.spec_stage_cost(x@, u@, xr@, ur@),
    {
        let c = squares(&self.qdiag(), x, xr, S::zero());
        squares(&self.rdiag(), u, ur, c)
    }

    /// Finite-difference Jacobians in the state and in the control.
    fn jacobians(&self, x: &[S; NX], u: &[S; NU]) -> (r: ([[S; NX]; NX], [[S; NU]; NX]))
        ensures
            crate::dense::mat(r.0) == self.spec_jac_x(x@, u@),
            crate::dense::mat(r.1) == self.spec_jac_u(x@, u@),
    {
        let eps = S::splat(1, 1000000);
        let f0 = self.f(x, u);
        let z = S::zero();
        let mut a = [[z; NX]; NX];
        let mut b = [[z; NU]; NX];
        for j in 0..NX
            invariant
                eps == S::spec_splat(1, 1000000),
                f0@ == self.spec_f(x@, u@),
                forall|p: int, q: int|
                    0 <= p < NX && 0 <= q < j ==> #[trigger] a[p][q] == (self.spec_f(
                        x@.update(q, x@[q] + eps),
                        u@,
                    )[p] - self.spec_f(x@, u@)[p]) / eps,
        {
            let mut xp = *x;
            xp[j] = xp[j].add(eps);
            assert(xp@ =~= x@.update(j as int, x@[j as int] + eps));
            let fp = self.f(&xp, u);
            for i in 0..NX
                invariant
                    eps == S::spec_splat(1, 1000000),
                    0 <= j < NX,
                    f0@ == self.spec_f(x@, u@),
                    fp@ == self.spec_f(x@.update(j as int, x@[j as int] + eps), u@),
                    forall|p: int, q: int|
                        0 <= p < NX && 0 <= q < j ==> #[trigger] a[p][q] == (self.spec_f(
                            x@.update(q, x@[q] + eps),
                            u@,
                        )[p] - self.spec_f(x@, u@)[p]) / eps,
                    forall|p: int|
                        0 <= p < i ==> #[trigger] a[p][j as int] == (self.spec_f(
                            x@.update(j as int, x@[j as int] + eps),
                            u@,
                        )[p] - self.spec_f(x@, u@)[p]) / eps,
            {
                a[i][j] = fp[i].sub(f0[i]).div(eps);
            }
        }
        for j in 0..NU
            invariant
                eps == S::spec_splat(1, 1000000),
                f0@ == self.spec_f(x@, u@),
                forall|p: int, q: int|
                    0 <= p < NX && 0 <= q < j ==> #[trigger] b[p][q] == (self.spec_f(
                        x@,
                        u@.update(q, u@[q] + eps),
                    )[p] - self.spec_f(x@, u@)[p]) / eps,
        {
            let mut up = *u;
            up[j] = up[j].add(eps);
            assert(up@ =~= u@.update(j as int, u@[j as int] + eps));
            let fp = self.f(x, &up);
            for i in 0..NX
                invariant
                    eps == S::spec_splat(1, 1000000),
                    0 <= j < NU,
                    f0@ == self.spec_f(x@, u@),
                    fp@ == self.spec_f(x@, u@.update(j as int, u@[j as int] + eps)),
                    forall|p: int, q: int|
                        0 <= p < NX && 0 <= q < j ==> #[trigger] b[p][q] == (self.spec_f(
                            x@,
                            u@.update(q, u@[q] + eps),
                        )[p] - self.spec_f(x@, u@)[p]) / eps,
                    forall|p: int|
                        0 <= p < i ==> #[trigger] b[p][j as int] == (self.spec_f(
                            x@,
                            u@.update(j as int, u@[j as int] + eps),
                        )[p] - self.spec_f(x@, u@)[p]) / eps,
            {
                b[i][j] = fp[i].sub(f0[i]).div(eps);
            }
        }
        assert(crate::dense::mat(a) =~~= self.spec_jac_x(x@, u@));
        assert(crate::dense::mat(b) =~~= self.spec_jac_u(x@, u@));
        (a, b)
    }
}

/// `init + sum of w[i] (x[i] - r[i])^2`.
fn squares<S: Scalar, const N: usize>(w: &[S; N], x: &[S; N], r: &[S; N], init: S) -> (c: S)
    ensures
        c == weighted_squares(w@, x@, r@, init, N as nat),
{
    let mut c = init;
    for i in 0..N
        invariant
            c == weighted_squares(w@, x@, r@, init, i as nat),
    {
        let d = x[i].sub(r[i]);
        c = c.add(w[i].mul(d).mul(d));
    }
    c
}

/// The entries times `c`.
fn scaled<S: Scalar, const N: usize>(c: S, w: &[S; N]) -> (r: [S; N])
    ensures
        r@ == times(c, w@),
{
    let mut r = *w;
    for i in 0..N
        invariant
            forall|p: int| 0 <= p < i ==> #[trigger] r[p] == c * w[p],
            forall|p: int| i <= p < N ==> #[trigger] r[p] == w[p],
    {
        r[i] = c.mul(w[i]);
    }
    assert(r@ =~= times(c, w@));
    r
}

/// `2 w[i] (x[i] - r[i])`.
fn gradient_of<S: Scalar, const N: usize>(w: &[S; N], x: &[S; N], r: &[S; N]) -> (g: [S; N])
    ensures
        g@ == gradient(w@, x@, r@),
{
    let two = S::splat(2, 1);
    let mut g = *w;
    for i in 0..N
        invariant
            two == S::spec_splat(2, 1),
            forall|p: int| 0 <= p < i ==> #[trigger] g[p] == two * w[p] * (x[p] - r[p]),
            forall|p: int| i <= p < N ==> #[trigger] g[p] == w[p],
    {
        g[i] = two.mul(w[i]).mul(x[i].sub(r[i]));
    }
    assert(g@ =~= gradient(w@, x@, r@));
    g
}

/// `m` with `d` added to its diagonal.
fn with_diag<S: Scalar, const N: usize>(m: &[[S; N]; N], d: &[S; N]) -> (r: [[S; N]; N])
    ensures
        crate::dense::mat(r) == plus_diag(crate::dense::mat(*m), d@),
{
    let mut r = *m;
    for i in 0..N
        invariant
            forall|p: int, q: int|
                0 <= p < i && 0 <= q < N ==> #[trigger] r[p][q] == if p == q {
                    m[p][q] + d[p]
                } else {
                    m[p][q]
                },
            forall|p: int| i <= p < N ==> #[trigger] r[p] == m[p],
    {
        r[i][i] = r[i][i].add(d[i]);
    }
    assert(crate::dense::mat(r) =~~= plus_diag(crate::dense::mat(*m), d@));
    r
}

/// `-(m v)`, accumulated downward from zero.
fn neg_matvec<S: Scalar>(m: &[[S; NU]; NU], v: &[S; NU]) -> (r: [S; NU])
    ensures
        r@ == Seq::new(NU as nat, |i: int| neg_acc(crate::dense::mat(*m), v@, i, NU as nat)),
{
    let z = S::zero();
    let mut r = [z; NU];
    for i in 0..NU
        invariant
            z == S::spec_zero(),
            forall|p: int|
                0 <= p < i ==> #[trigger] r[p] == neg_acc(
                    crate::dense::mat(*m),
                    v@,
                    p,
                    NU as nat,
                ),
    {
        let mut s = z;
        for k in 0..NU
            invariant
                0 <= i < NU,
                s == neg_acc(crate::dense::mat(*m), v@, i as int, k as nat),
        {
            s = s.sub(m[i][k].mul(v[k]));
        }
        r[i] = s;
    }
    assert(r@ =~= Seq::new(NU as nat, |i: int| neg_acc(crate::dense::mat(*m), v@, i, NU as nat)));
    r
}

fn negate<S: Scalar>(m: &[[S; NX]; NU]) -> (r: [[S; NX]; NU])
    ensures
        crate::dense::mat(r) == negated(crate::dense::mat(*m)),
{
    let mut r = *m;
    for i in 0..NU
        invariant
            forall|p: int, q: int| 0 <= p < i && 0 <= q < NX ==> #[trigger] r[p][q] == -m[p][q],
            forall|p: int| i <= p < NU ==> #[trigger] r[p] == m[p],
    {
        for j in 0..NX
            invariant
                0 <= i < NU,
                forall|p: int, q: int|
                    0 <= p < i && 0 <= q < NX ==> #[trigger] r[p][q] == -m[p][q],
                forall|q: int| 0 <= q < j ==> #[trigger] r[i as int][q] == -m[i as int][q],
                forall|p: int| i < p < NU ==> #[trigger] r[p] == m[p],
        {
            r[i][j] = m[i][j].neg();
        }
    }
    assert(crate::dense::mat(r) =~~= negated(crate::dense::mat(*m)));
    r
}

/// The gradient of the value function before a step.
fn value_gradient<S: Scalar>(
    qx: &[S; NX],
    qu: &[S; NU],
    quu: &[[S; NU]; NU],
    qux: &[[S; NX]; NU],
    kff: &[S; NU],
    kfb: &[[S; NX]; NU],
) -> (r: [S; NX])
    ensures
        r@ == Seq::new(
            NX as nat,
            |i: int|
                vx_acc(
                    qx@,
                    qu@,
                    crate::dense::mat(*quu),
                    crate::dense::mat(*qux),
                    kff@,
                    crate::dense::mat(*kfb),
                    i,
                    NU as nat,
                ),
        ),
{
    let ghost (guu, gux, gfb) = (
        crate::dense::mat(*quu),
        crate::dense::mat(*qux),
        crate::dense::mat(*kfb),
    );
    let mut r = *qx;
    for i in 0..NX
        invariant
            (guu, gux, gfb) == (
                crate::dense::mat(*quu),
                crate::dense::mat(*qux),
                crate::dense::mat(*kfb),
            ),
            forall|p: int|
                0 <= p < i ==> #[trigger] r[p] == vx_acc(
                    qx@,
                    qu@,
                    guu,
                    gux,
                    kff@,
                    gfb,
                    p,
                    NU as nat,
                ),
            forall|p: int| i <= p < NX ==> #[trigger] r[p] == qx[p],
    {
        let mut s = qx[i];
        for a in 0..NU
            invariant
                0 <= i < NX,
                (guu, gux, gfb) == (
                    crate::dense::mat(*quu),
                    crate::dense::mat(*qux),
                    crate::dense::mat(*kfb),
                ),
                s == vx_acc(qx@, qu@, guu, gux, kff@, gfb, i as int, a as nat),
        {
            s = s.add(kfb[a][i].mul(qu[a]));
            let ghost p = s;
            for b in 0..NU
                invariant
                    0 <= i < NX,
                    0 <= a < NU,
                    (guu, gux, gfb) == (
                        crate::dense::mat(*quu),
                        crate::dense::mat(*qux),
                        crate::dense::mat(*kfb),
                    ),
                    s == vx_cross(gfb, guu, kff@, i as int, a as int, p, b as nat),
            {
                s = s.add(kfb[a][i].mul(quu[a][b]).mul(kff[b]));
            }
            s = s.add(qux[a][i].mul(kff[a]));
        }
        r[i] = s;
    }
    assert(r@ =~= Seq::new(
        NX as nat,
        |i: int| vx_acc(qx@, qu@, guu, gux, kff@, gfb, i, NU as nat),
    ));
    r
}

/// The curvature of the value function before a step.
fn value_curvature<S: Scalar>(
    qxx: &[[S; NX]; NX],
    quu: &[[S; NU]; NU],
    qux: &[[S; NX]; NU],
    kfb: &[[S; NX]; NU],
) -> (r: [[S; NX]; NX])
    ensures
        crate::dense::mat(r) == Seq::new(
            NX as nat,
            |i: int|
                Seq::new(
                    NX as nat,
                    |j: int|
                        vxx_acc(
                            crate::dense::mat(*qxx),
                            crate::dense::mat(*quu),
                            crate::dense::mat(*qux),
                            crate::dense::mat(*kfb),
                            i,
                            j,
                            NU as nat,
                        ),
                ),
        ),
{
    let ghost (gxx, guu, gux, gfb) = (
        crate::dense::mat(*qxx),
        crate::dense::mat(*quu),
        crate::dense::mat(*qux),
        crate::dense::mat(*kfb),
    );
    let mut r = *qxx;
    for i in 0..NX
        invariant
            (gxx, guu, gux, gfb) == (
                crate::dense::mat(*qxx),
                crate::dense::mat(*quu),
                crate::dense::mat(*qux),
                crate::dense::mat(*kfb),
            ),
            forall|p: int, q: int|
                0 <= p < i && 0 <= q < NX ==> #[trigger] r[p][q] == vxx_acc(
                    gxx,
                    guu,
                    gux,
                    gfb,
                    p,
                    q,
                    NU as nat,
                ),
    {
        for j in 0..NX
            invariant
                0 <= i < NX,
                (gxx, guu, gux, gfb) == (
                    crate::dense::mat(*qxx),
                    crate::dense::mat(*quu),
                    crate::dense::mat(*qux),
                    crate::dense::mat(*kfb),
                ),
                forall|p: int, q: int|
                    0 <= p < i && 0 <= q < NX ==> #[trigger] r[p][q] == vxx_acc(
                        gxx,
                        guu,
                        gux,
                        gfb,
                        p,
                        q,
                        NU as nat,
                    ),
                forall|q: int|
                    0 <= q < j ==> #[trigger] r[i as int][q] == vxx_acc(
                        gxx,
                        guu,
                        gux,
                        gfb,
                        i as int,
                        q,
                        NU as nat,
                    ),
        {
            let mut s = qxx[i][j];
            for a in 0..NU
                invariant
                    0 <= i < NX,
                    0 <= j < NX,
                    (gxx, guu, gux, gfb) == (
                        crate::dense::mat(*qxx),
                        crate::dense::mat(*quu),
                        crate::dense::mat(*qux),
                        crate::dense::mat(*kfb),
                    ),
                    s == vxx_acc(gxx, guu, gux, gfb, i as int, j as int, a as nat),
            {
                s = s.add(kfb[a][i].mul(qux[a][j]).add(qux[a][i].mul(kfb[a][j])));
                let ghost p = s;
                for b in 0..NU
                    invariant
                        0 <= i < NX,
                        0 <= j < NX,
                        0 <= a < NU,
                        (gxx, guu, gux, gfb) == (
                            crate::dense::mat(*qxx),
                            crate::dense::mat(*quu),
                            crate::dense::mat(*qux),
                            crate::dense::mat(*kfb),
                        ),
                        s == vxx_cross(gfb, guu, i as int, j as int, a as int, p, b as nat),
                {
                    s = s.add(kfb[a][i].mul(quu[a][b]).mul(kfb[b][j]));
                }
            }
            r[i][j] = s;
        }
    }
    assert(crate::dense::mat(r) =~~= Seq::new(
        NX as nat,
        |i: int| Seq::new(NX as nat, |j: int| vxx_acc(gxx, guu, gux, gfb, i, j, NU as nat)),
    ));
    r
}

// ---------------------------------------------------------------------------
// The optimiser
// ---------------------------------------------------------------------------
struct Plan<S> {
    us: Vec<[S; NU]>,
    xs: Vec<[S; NX]>,
    cost: S,
    reg: S,
}

impl<S> Plan<S> {
    spec fn track(self) -> Track<S> {
        Track {
            us: crate::dense::rows(self.us@),
            xs: crate::dense::rows(self.xs@),
            cost: self.cost,
            reg: self.reg,
        }
    }

    /// As many controls as targets, and one state more.
    spec fn fits(self, h: nat) -> bool {
        self.us@.len() == h && self.xs@.len() == h + 1
    }
}

struct Gains<S> {
    kff: Vec<[S; NU]>,
    kfb: Vec<[[S; NX]; NU]>,
}

impl<S: Real> Gains<S> {
    /// These are the gains that the backward pass over the track finds.
    spec fn found(self, n: Nmpc<S>, k: Track<S>, xrs: Seq<Seq<S>>) -> bool {
        &&& self.kff@.len() == xrs.len()
        &&& self.kfb@.len() == xrs.len()
        &&& forall|t: int|
            0 <= t < xrs.len() ==> (#[trigger] self.kff@[t])@ == n.stage_at(k, xrs, t)->0.kff
        &&& forall|t: int|
            0 <= t < xrs.len() ==> crate::dense::mat(#[trigger] self.kfb@[t]) == n.stage_at(
                k,
                xrs,
                t,
            )->0.kfb
    }
}

impl<S: Real> Nmpc<S> {
    proof fn lemma_failed_stays_failed(self, k: Track<S>, xrs: Seq<Seq<S>>, s: int, t: int)
        requires
            0 <= s <= t < xrs.len(),
            self.value_at(k, xrs, t) is None,
        ensures
            self.value_at(k, xrs, s) is None,
        decreases t - s,
    {
        if s < t {
            self.lemma_failed_stays_failed(k, xrs, s + 1, t);
        }
    }

    /// One step of the backward pass.
    fn stage(
        &self,
        x: &[S; NX],
        u: &[S; NU],
        xr: &[S; NX],
        reg: S,
        vx: &[S; NX],
        vxx: &[[S; NX]; NX],
    ) -> (r: Option<([S; NU], [[S; NX]; NU], [S; NX], [[S; NX]; NX])>)
        ensures
            match (r, self.spec_stage(x@, u@, xr@, reg, vx@, crate::dense::mat(*vxx))) {
                (None, None) => true,
                (Some(p), Some(s)) => {
                    &&& p.0@ == s.kff
                    &&& crate::dense::mat(p.1) == s.kfb
                    &&& p.2@ == s.vx
                    &&& crate::dense::mat(p.3) == s.vxx
                },
                _ => false,
            },
    {
        let qd = self.qdiag();
        let rd = self.rdiag();
        let ur = self.ur();
        let (a, b) = self.jacobians(x, u);
        let two = S::splat(2, 1);
        let lxx = scaled(two, &qd);
        let luu = scaled(two, &rd);
        let qx = tmatvec_onto(&gradient_of(&qd, x, xr), &a, vx);
        let qu = tmatvec_onto(&gradient_of(&rd, u, &ur), &b, vx);
        let vxa = product(vxx, &a);
        let vxb = product(vxx, &b);
        let qxx = with_diag(&tproduct(&a, &vxa), &lxx);
        let diag = [luu[0].add(reg), luu[1].add(reg), luu[2].add(reg), luu[3].add(reg)];
        assert(diag@ =~= Seq::new(NU as nat, |i: int| luu@[i] + reg));
        let quu = with_diag(&tproduct(&b, &vxb), &diag);
        let qux = tproduct(&b, &vxa);
        match inv4(&quu) {
            None => None,
            Some(inv) => {
                let kff = neg_matvec(&inv, &qu);
                let kfb = negate(&product(&inv, &qux));
                let nvx = value_gradient(&qx, &qu, &quu, &qux, &kff, &kfb);
                let nvxx = value_curvature(&qxx, &quu, &qux, &kfb);
                Some((kff, kfb, nvx, nvxx))
            },
        }
    }

    /// The gradient and curvature of the value function at the end.
    fn end_value(&self, x: &[S; NX], xr: &[S; NX]) -> (r: ([S; NX], [[S; NX]; NX]))
        ensures
            r.0@ == self.end_vx(x@, xr@),
            crate::dense::mat(r.1) == self.end_vxx(),
    {
        let q = self.qdiag();
        let ten = S::splat(2, 1).mul(S::splat(5, 1));
        let z = S::zero();
        let mut vx = [z; NX];
        let mut vxx = [[z; NX]; NX];
        for i in 0..NX
            invariant
                q@ == self.spec_qdiag(),
                ten == S::spec_splat(2, 1) * S::spec_splat(5, 1),
                forall|p: int| 0 <= p < i ==> #[trigger] vx[p] == ten * q@[p] * (x[p] - xr[p]),
                forall|p: int, s: int|
                    0 <= p < NX && 0 <= s < NX ==> #[trigger] vxx[p][s] == if p == s && p < i {
                        ten * q@[p]
                    } else {
                        S::spec_zero()
                    },
        {
            let d = x[i].sub(xr[i]);
            vx[i] = ten.mul(q[i]).mul(d);
            vxx[i][i] = ten.mul(q[i]);
        }
        assert(vx@ =~= self.end_vx(x@, xr@));
        assert(crate::dense::mat(vxx) =~~= self.end_vxx());
        (vx, vxx)
    }

    /// The backward pass; `None` where a step cannot be inverted.
    fn backward(&self, plan: &Plan<S>, xrs: &Vec<[S; NX]>) -> (r: Option<Gains<S>>)
        requires
            xrs@.len() >= 1,
            plan.fits(xrs@.len()),
        ensures
            r is None <==> self.value_at(plan.track(), crate::dense::rows(xrs@), 0) is None,
            r matches Some(g) ==> g.found(*self, plan.track(), crate::dense::rows(xrs@)),
    {
        let h: usize = xrs.len();
        let ghost k = plan.track();
        let ghost rs = crate::dense::rows(xrs@);
        let z = S::zero();
        let (mut vx, mut vxx) = self.end_value(&plan.xs[h], &xrs[h - 1]);
        let mut kff: Vec<[S; NU]> = repeat([z; NU], h);
        let mut kfb: Vec<[[S; NX]; NU]> = repeat([[z; NX]; NU], h);
        let mut t: usize = h;
        while t > 0
            invariant
                t <= h,
                h == xrs@.len(),
                plan.fits(xrs@.len()),
                k == plan.track(),
                rs == crate::dense::rows(xrs@),
                kff@.len() == h,
                kfb@.len() == h,
                self.value_at(k, rs, t as int) == Some((vx@, crate::dense::mat(vxx))),
                forall|s: int|
                    t <= s < h ==> (#[trigger] kff@[s])@ == self.stage_at(k, rs, s)->0.kff,
                forall|s: int|
                    t <= s < h ==> crate::dense::mat(#[trigger] kfb@[s]) == self.stage_at(
                        k,
                        rs,
                        s,
                    )->0.kfb,
            decreases t,
        {
            t = t - 1;
            assert(k.xs[t as int] == plan.xs@[t as int]@ && k.us[t as int] == plan.us@[t as int]@
                && rs[t as int] == xrs@[t as int]@);
            match self.stage(&plan.xs[t], &plan.us[t], &xrs[t], plan.reg, &vx, &vxx) {
                None => {
                    proof {
                        self.lemma_failed_stays_failed(k, rs, 0, t as int);
                    }
                    return None;
                },
                Some(p) => {
                    kff.set(t, p.0);
                    kfb.set(t, p.1);
                    vx = p.2;
                    vxx = p.3;
                },
            }
        }
        Some(Gains { kff, kfb })
    }

    /// The control tried at one step.
    fn try_u(
        &self,
        u: &[S; NU],
        kff: &[S; NU],
        kfb: &[[S; NX]; NU],
        alpha: S,
        nx: &[S; NX],
        x: &[S; NX],
    ) -> (r: [S; NU])
        ensures
            forall|i: int|
                0 <= i < NU ==> #[trigger] r[i] == {
                    let v = u[i] + feedback(
                        alpha,
                        kff@,
                        crate::dense::mat(*kfb),
                        nx@,
                        x@,
                        i,
                        NX as nat,
                    );
                    if i == 0 {
                        v.spec_max(S::spec_zero())
                    } else {
                        v
                    }
                },
    {
        let mut r = *u;
        for i in 0..NU
            invariant
                forall|p: int|
                    0 <= p < i ==> #[trigger] r[p] == u[p] + feedback(
                        alpha,
                        kff@,
                        crate::dense::mat(*kfb),
                        nx@,
                        x@,
                        p,
                        NX as nat,
                    ),
        {
            let mut du = alpha.mul(kff[i]);
            for j in 0..NX
                invariant
                    0 <= i < NU,
                    du == feedback(
                        alpha,
                        kff@,
                        crate::dense::mat(*kfb),
                        nx@,
                        x@,
                        i as int,
                        j as nat,
                    ),
            {
                du = du.add(kfb[i][j].mul(nx[j].sub(x[j])));
            }
            r[i] = u[i].add(du);
        }
        r[0] = r[0].max(S::zero());
        r
    }

    /// A forward pass with step size `alpha`.
    fn trial(&self, plan: &Plan<S>, xrs: &Vec<[S; NX]>, g: &Gains<S>, alpha: S) -> (r: (
        Vec<[S; NU]>,
        Vec<[S; NX]>,
    ))
        requires
            xrs@.len() >= 1,
            plan.fits(xrs@.len()),
            g.found(*self, plan.track(), crate::dense::rows(xrs@)),
        ensures
            crate::dense::rows(r.0@) == self.tried_us(
                plan.track(),
                crate::dense::rows(xrs@),
                alpha,
            ),
            crate::dense::rows(r.1@) == self.tried_xs(
                plan.track(),
                crate::dense::rows(xrs@),
                alpha,
            ),
    {
        let h: usize = xrs.len();
        let ghost k = plan.track();
        let ghost rs = crate::dense::rows(xrs@);
        let mut us: Vec<[S; NU]> = Vec::new();
        let mut xs: Vec<[S; NX]> = Vec::new();
        xs.push(plan.xs[0]);
        assert(plan.xs@[0]@ == k.xs[0]);
        for t in 0..h
            invariant
                h == xrs@.len(),
                plan.fits(xrs@.len()),
                k == plan.track(),
                rs == crate::dense::rows(xrs@),
                g.found(*self, k, rs),
                us@.len() == t,
                xs@.len() == t + 1,
                forall|s: int|
                    0 <= s <= t ==> (#[trigger] xs@[s])@ == self.tried_x(k, rs, alpha, s as nat),
                forall|s: int|
                    0 <= s < t ==> (#[trigger] us@[s])@ == self.tried_u(
                        k,
                        rs,
                        alpha,
                        s,
                        self.tried_x(k, rs, alpha, s as nat),
                    ),
        {
            let nx = xs[t];
            let u = self.try_u(&plan.us[t], &g.kff[t], &g.kfb[t], alpha, &nx, &plan.xs[t]);
            proof {
                assert(k.xs[t as int] == plan.xs@[t as int]@);
                assert(k.us[t as int] == plan.us@[t as int]@);
                assert(nx@ == self.tried_x(k, rs, alpha, t as nat));
                assert(u@ =~= self.tried_u(k, rs, alpha, t as int, nx@));
            }
            let next = self.f(&nx, &u);
            us.push(u);
            xs.push(next);
        }
        assert(crate::dense::rows(us@) =~~= self.tried_us(k, rs, alpha));
        assert(crate::dense::rows(xs@) =~~= self.tried_xs(k, rs, alpha));
        (us, xs)
    }

    /// The cost of a plan.
    fn plan_cost(&self, xs: &Vec<[S; NX]>, us: &Vec<[S; NU]>, xrs: &Vec<[S; NX]>) -> (r: S)
        requires
            xrs@.len() >= 1,
            us@.len() == xrs@.len(),
            xs@.len() == xrs@.len() + 1,
        ensures
            r == self.spec_cost(
                crate::dense::rows(xs@),
                crate::dense::rows(us@),
                crate::dense::rows(xrs@),
            ),
    {
        let h: usize = xrs.len();
        let ghost (gx, gu, gr) = (
            crate::dense::rows(xs@),
            crate::dense::rows(us@),
            crate::dense::rows(xrs@),
        );
        let ur = self.ur();
        let mut c = S::zero();
        for t in 0..h
            invariant
                h == xrs@.len(),
                us@.len() == h,
                xs@.len() == h + 1,
                ur == self.spec_ur(),
                (gx, gu, gr) == (
                    crate::dense::rows(xs@),
                    crate::dense::rows(us@),
                    crate::dense::rows(xrs@),
                ),
                c == self.stages_cost(gx, gu, gr, t as nat),
        {
            c = c.add(self.stage_cost(&xs[t], &us[t], &xrs[t], &ur));
        }
        let w = scaled(S::splat(5, 1), &self.qdiag());
        squares(&w, &xs[h], &xrs[h - 1], c)
    }

    /// The states that the controls lead through.
    fn rollout(&self, x0: &[S; NX], us: &Vec<[S; NU]>) -> (r: Vec<[S; NX]>)
        ensures
            r@.len() == us@.len() + 1,
            crate::dense::rows(r@) == self.spec_rollout(x0@, crate::dense::rows(us@)),
    {
        let h: usize = us.len();
        let ghost gu = crate::dense::rows(us@);
        let mut xs: Vec<[S; NX]> = Vec::new();
        xs.push(*x0);
        for t in 0..h
            invariant
                h == us@.len(),
                gu == crate::dense::rows(us@),
                xs@.len() == t + 1,
                forall|s: int|
                    0 <= s <= t ==> (#[trigger] xs@[s])@ == self.rolled(x0@, gu, s as nat),
        {
            let x = xs[t];
            assert(x@ == self.rolled(x0@, gu, t as nat));
            let next = self.f(&x, &us[t]);
            xs.push(next);
        }
        assert(crate::dense::rows(xs@) =~~= self.spec_rollout(x0@, gu));
        xs
    }

    /// One iteration, and whether it gives up.
    fn improve(&self, plan: Plan<S>, xrs: &Vec<[S; NX]>) -> (r: (Plan<S>, bool))
        requires
            xrs@.len() >= 1,
            plan.fits(xrs@.len()),
        ensures
            r.0.fits(xrs@.len()),
            r.0.track() == self.improved(plan.track(), crate::dense::rows(xrs@)),
            r.1 == self.gives_up(plan.track(), crate::dense::rows(xrs@)),
    {
        let ghost k = plan.track();
        let ghost rs = crate::dense::rows(xrs@);
        if let Some(g) = self.backward(&plan, xrs) {
            for i in 0..5
                invariant
                    xrs@.len() >= 1,
                    plan.fits(xrs@.len()),
                    k == plan.track(),
                    rs == crate::dense::rows(xrs@),
                    g.found(*self, k, rs),
                    self.value_at(k, rs, 0) is Some,
                    self.line_search(k, rs, 0) == self.line_search(k, rs, i as int),
            {
                let alpha = alpha_at::<S>(i);
                let (us, xs) = self.trial(&plan, xrs, &g, alpha);
                proof {
                    assert(crate::dense::rows(us@).len() == rs.len());
                    assert(crate::dense::rows(xs@).len() == rs.len() + 1);
                }
                let cost = self.plan_cost(&xs, &us, xrs);
                if cost.is_finite() && cost.lt(plan.cost) {
                    let reg = plan.reg.mul(S::splat(7, 10)).max(S::splat(1, 1000000));
                    return (Plan { us, xs, cost, reg }, false);
                }
            }
        }
        let reg = plan.reg.mul(S::splat(10, 1));
        let stop = S::splat(1000000, 1).lt(reg);
        (Plan { us: plan.us, xs: plan.xs, cost: plan.cost, reg }, stop)
    }

    /// Optimise the controls toward `refs`; the first one is handed back, the others are
    /// kept for the next call.
    pub fn ilqr(&mut self, x0: &[S; NX], refs: &[FlatRef<S>]) -> (r: [S; NU])
        requires
            old(self).wf(),
            old(self).horizon >= 1,
            refs@.len() >= 1,
        ensures
            r@ == old(self).spec_ilqr(x0@, refs@)[0],
            final(self).wf(),
            old(self).kept(*final(self), x0@, refs@),
    {
        let h: usize = if self.horizon <= refs.len() {
            self.horizon
        } else {
            refs.len()
        };
        let mut xrs: Vec<[S; NX]> = Vec::new();
        let mut us: Vec<[S; NU]> = Vec::new();
        for t in 0..h
            invariant
                h <= refs@.len(),
                h <= self.u_prev@.len(),
                xrs@.len() == t,
                us@ == self.u_prev@.take(t as int),
                forall|s: int| 0 <= s < t ==> (#[trigger] xrs@[s])@ == Self::spec_x_ref(refs@[s]),
        {
            xrs.push(Self::x_ref(&refs[t]));
            us.push(self.u_prev[t]);
            assert(self.u_prev@.take(t as int).push(self.u_prev@[t as int])
                =~= self.u_prev@.take(t + 1));
        }
        let ghost rs = self.spec_targets(refs@);
        assert(crate::dense::rows(xrs@) =~~= rs);
        let xs = self.rollout(x0, &us);
        let cost = self.plan_cost(&xs, &us, &xrs);
        let mut plan = Plan { us, xs, cost, reg: S::splat(1, 1000) };
        let ghost k0 = self.first_track(x0@, refs@);
        assert(plan.track() == k0);
        let iters: usize = self.iters;
        let mut it: usize = 0;
        let mut done = false;
        while it < iters && !done
            invariant
                h >= 1,
                xrs@.len() == h,
                rs == crate::dense::rows(xrs@),
                plan.fits(h as nat),
                it <= iters,
                done ==> plan.track() == self.optimised(k0, rs, iters as nat),
                !done ==> self.optimised(plan.track(), rs, (iters - it) as nat) == self.optimised(
                    k0,
                    rs,
                    iters as nat,
                ),
            decreases iters - it,
        {
            let (next, stop) = self.improve(plan, &xrs);
            plan = next;
            done = stop;
            it = it + 1;
        }
        let ghost end = self.optimised(k0, rs, iters as nat);
        assert(plan.track() == end);
        let first = plan.us[0];
        let ur = self.ur();
        let ghost was = self.u_prev@;
        for t in 0..h
            invariant
                h == plan.us@.len(),
                h <= was.len(),
                self.u_prev@.len() == was.len(),
                *self == (Nmpc { u_prev: self.u_prev, ..*old(self) }),
                forall|s: int|
                    0 <= s < t ==> #[trigger] self.u_prev@[s] == if s + 1 < h {
                        plan.us@[s + 1]
                    } else {
                        ur
                    },
                forall|s: int| t <= s < was.len() ==> #[trigger] self.u_prev@[s] == was[s],
        {
            if t + 1 < h {
                let u = plan.us[t + 1];
                self.u_prev.set(t, u);
            } else {
                self.u_prev.set(t, ur);
            }
        }
        proof {
            assert(end.us == crate::dense::rows(plan.us@));
            assert forall|s: int| 0 <= s < was.len() implies (#[trigger] self.u_prev@[s])@
                == old(self).kept_at(x0@, refs@, s) by {
                if s + 1 < h {
                    assert(end.us[s + 1] == plan.us@[s + 1]@);
                }
            }
        }
        first
    }

    /// The control kept at position `s` after a call: the optimised ones move up by one,
    /// hover follows, and what lies beyond the plan stays.
    pub open spec fn kept_at(self, x0: Seq<S>, refs: Seq<FlatRef<S>>, s: int) -> Seq<S> {
        let h = self.spec_steps(refs);
        if s + 1 < h {
            self.spec_ilqr(x0, refs)[s + 1]
        } else if s + 1 == h {
            self.spec_ur()@
        } else {
            self.u_prev@[s]@
        }
    }

    /// What a call leaves behind: the controls kept for the next one, all else unchanged.
    pub open spec fn kept(self, after: Self, x0: Seq<S>, refs: Seq<FlatRef<S>>) -> bool {
        &&& after == (Nmpc { u_prev: after.u_prev, ..self })
        &&& after.u_prev@.len() == self.u_prev@.len()
        &&& forall|s: int|
            0 <= s < self.u_prev@.len() ==> (#[trigger] after.u_prev@[s])@ == self.kept_at(
                x0,
                refs,
                s,
            )
    }

    /// Track a window of references: four rotor forces [N] for the first step.
    pub fn update(&mut self, state: &State<S>, refs: &[FlatRef<S>]) -> (r: [S; NUM_ROTORS])
        requires
            old(self).wf(),
            old(self).horizon >= 1,
            refs@.len() >= 1,
        ensures
            r@ == old(self).tm_to_f.spec_matvec(
                old(self).spec_ilqr(Self::spec_x0(*state), refs@)[0],
            ),
            final(self).wf(),
            old(self).kept(*final(self), Self::spec_x0(*state), refs@),
    {
        let x0 = [
            state.x.x, state.x.y, state.x.z,
            state.v.x, state.v.y, state.v.z,
            state.q.i, state.q.j, state.q.k, state.q.w,
            state.w.x, state.w.y, state.w.z,
        ];
        assert(x0@ =~= Self::spec_x0(*state));
        let u = self.ilqr(&x0, refs);
        self.tm_to_f.matvec(u)
    }
}

// ---------------------------------------------------------------------------
// Laws
// ---------------------------------------------------------------------------
proof fn lemma_line_search_improves<S: Real>(n: Nmpc<S>, k: Track<S>, xrs: Seq<Seq<S>>, i: int)
    requires
        n.line_search(k, xrs, i) is Some,
    ensures
        n.line_search(k, xrs, i)->0.cost.spec_is_finite(),
        n.line_search(k, xrs, i)->0.cost < k.cost,
        n.line_search(k, xrs, i)->0.us.len() == xrs.len(),
        forall|t: int|
            0 <= t < xrs.len() ==> exists|x: S|
                #[trigger] n.line_search(k, xrs, i)->0.us[t][0] == x.spec_max(S::spec_zero()),
    decreases 5 - i,
{
    let alpha = spec_alpha::<S>(i);
    if !n.accepts(k, xrs, alpha) {
        lemma_line_search_improves(n, k, xrs, i + 1);
    } else {
        let r = n.line_search(k, xrs, i)->0;
        assert forall|t: int| 0 <= t < xrs.len() implies exists|x: S|
            #[trigger] r.us[t][0] == x.spec_max(S::spec_zero()) by {
            let x = n.tried_x(k, xrs, alpha, t as nat);
            let s = n.stage_at(k, xrs, t)->0;
            let u = k.us[t][0] + feedback(alpha, s.kff, s.kfb, x, k.xs[t], 0, NX as nat);
            assert(r.us[t] == n.tried_u(k, xrs, alpha, t, x));
            assert(r.us[t][0] == u.spec_max(S::spec_zero()));
        }
    }
}

/// Optimising never makes a plan worse: the cost at the end is at most the cost at the
/// start, however many iterations there are.
pub proof fn law_never_worse<S: Real>(n: Nmpc<S>, k: Track<S>, xrs: Seq<Seq<S>>, iters: nat)
    requires
        crate::scalar::ordered::<S>(),
        k.cost.spec_is_finite(),
    ensures
        n.optimised(k, xrs, iters).cost.spec_is_finite(),
        n.optimised(k, xrs, iters).cost.val() <= k.cost.val(),
    decreases iters,
{
    if iters > 0 {
        if n.line_search(k, xrs, 0) is Some {
            lemma_line_search_improves(n, k, xrs, 0);
        }
        if !n.gives_up(k, xrs) {
            law_never_worse(n, n.improved(k, xrs), xrs, (iters - 1) as nat);
        }
    }
}

/// An iteration keeps the controls, or replaces them by ones that ask for no downward
/// thrust.
pub proof fn law_thrust_not_negative<S: Real>(n: Nmpc<S>, k: Track<S>, xrs: Seq<Seq<S>>, t: int)
    requires
        crate::scalar::exact::<S>(),
        0 <= t < xrs.len(),
    ensures
        n.improved(k, xrs).us == k.us || n.improved(k, xrs).us[t][0].val() >= 0real,
{
    if n.line_search(k, xrs, 0) is Some {
        lemma_line_search_improves(n, k, xrs, 0);
        let r = n.line_search(k, xrs, 0)->0;
        assert(r.us[t][0] == r.us[t][0]);
    }
}

impl<S: Real> Nmpc<S> {
    /// No control asks for downward thrust.
    pub open spec fn pushes_up(us: Seq<Seq<S>>) -> bool {
        forall|t: int| 0 <= t < us.len() ==> (#[trigger] us[t])[0].val() >= 0real
    }

    /// As made: the warm-started controls hold hover.
    pub open spec fn fresh(self) -> bool {
        &&& self.wf()
        &&& forall|k: int|
            0 <= k < self.u_prev@.len() ==> #[trigger] self.u_prev@[k] == self.spec_ur()
    }

    /// The track is the rollout of its controls from `x0`, at its cost.
    pub open spec fn follows(self, k: Track<S>, x0: Seq<S>, xrs: Seq<Seq<S>>) -> bool {
        &&& k.us.len() == xrs.len()
        &&& k.xs == self.spec_rollout(x0, k.us)
        &&& k.cost == self.spec_cost(k.xs, k.us, xrs)
    }
}

proof fn lemma_trial_is_rollout<S: Real>(
    n: Nmpc<S>,
    k: Track<S>,
    x0: Seq<S>,
    xrs: Seq<Seq<S>>,
    alpha: S,
    t: nat,
)
    requires
        n.follows(k, x0, xrs),
        t <= xrs.len(),
    ensures
        n.tried_x(k, xrs, alpha, t) == n.rolled(x0, n.tried_us(k, xrs, alpha), t),
    decreases t,
{
    if t > 0 {
        lemma_trial_is_rollout(n, k, x0, xrs, alpha, (t - 1) as nat);
    } else {
        assert(k.xs[0] == n.rolled(x0, k.us, 0));
    }
}

proof fn lemma_line_search_follows<S: Real>(
    n: Nmpc<S>,
    k: Track<S>,
    x0: Seq<S>,
    xrs: Seq<Seq<S>>,
    i: int,
)
    requires
        n.follows(k, x0, xrs),
        n.line_search(k, xrs, i) is Some,
    ensures
        n.follows(n.line_search(k, xrs, i)->0, x0, xrs),
    decreases 5 - i,
{
    let alpha = spec_alpha::<S>(i);
    if !n.accepts(k, xrs, alpha) {
        lemma_line_search_follows(n, k, x0, xrs, i + 1);
    } else {
        let us = n.tried_us(k, xrs, alpha);
        assert forall|t: int| 0 <= t <= xrs.len() implies #[trigger] n.tried_xs(k, xrs, alpha)[t]
            == n.spec_rollout(x0, us)[t] by {
            lemma_trial_is_rollout(n, k, x0, xrs, alpha, t as nat);
        }
        assert(n.tried_xs(k, xrs, alpha) =~= n.spec_rollout(x0, us));
    }
}

proof fn lemma_optimised<S: Real>(
    n: Nmpc<S>,
    k: Track<S>,
    x0: Seq<S>,
    xrs: Seq<Seq<S>>,
    iters: nat,
)
    requires
        n.follows(k, x0, xrs),
    ensures
        n.follows(n.optimised(k, xrs, iters), x0, xrs),
        crate::scalar::exact::<S>() && Nmpc::pushes_up(k.us) ==> Nmpc::pushes_up(
            n.optimised(k, xrs, iters).us,
        ),
    decreases iters,
{
    if iters > 0 {
        let next = n.improved(k, xrs);
        if n.line_search(k, xrs, 0) is Some {
            lemma_line_search_follows(n, k, x0, xrs, 0);
        }
        assert(n.follows(next, x0, xrs));
        if crate::scalar::exact::<S>() && Nmpc::pushes_up(k.us) {
            assert forall|t: int| 0 <= t < next.us.len() implies (#[trigger] next.us[t])[0].val()
                >= 0real by {
                law_thrust_not_negative(n, k, xrs, t);
            }
        }
        if !n.gives_up(k, xrs) {
            lemma_optimised(n, next, x0, xrs, (iters - 1) as nat);
        }
    }
}

/// What the optimiser arrives at is never worse than the controls it started from: its
/// cost from `x0` is at most theirs. On a fresh optimiser those hold hover.
pub proof fn law_plan_beats_warm_start<S: Real>(n: Nmpc<S>, x0: Seq<S>, refs: Seq<FlatRef<S>>)
    requires
        crate::scalar::ordered::<S>(),
        n.wf(),
        n.first_track(x0, refs).cost.spec_is_finite(),
    ensures
        ({
            let xrs = n.spec_targets(refs);
            let us = n.spec_ilqr(x0, refs);
            let start = crate::dense::rows(n.u_prev@.take(n.spec_steps(refs) as int));
            &&& us.len() == n.spec_steps(refs)
            &&& n.spec_cost(n.spec_rollout(x0, us), us, xrs).spec_is_finite()
            &&& n.spec_cost(n.spec_rollout(x0, us), us, xrs).val() <= n.spec_cost(
                n.spec_rollout(x0, start),
                start,
                xrs,
            ).val()
            &&& n.fresh() ==> start == Seq::new(n.spec_steps(refs), |t: int| n.spec_ur()@)
        }),
{
    let xrs = n.spec_targets(refs);
    let k = n.first_track(x0, refs);
    assert(n.follows(k, x0, xrs));
    lemma_optimised(n, k, x0, xrs, n.iters as nat);
    law_never_worse(n, k, xrs, n.iters as nat);
    if n.fresh() {
        assert(k.us =~= Seq::new(n.spec_steps(refs), |t: int| n.spec_ur()@));
    }
}

/// Of a drone with weight, no call asks for downward thrust, or leaves a control behind
/// that does.
proof fn lemma_call_pushes_up<S: Real>(
    n: Nmpc<S>,
    after: Nmpc<S>,
    x0: Seq<S>,
    refs: Seq<FlatRef<S>>,
)
    requires
        crate::scalar::exact::<S>(),
        n.wf(),
        n.horizon >= 1,
        refs.len() >= 1,
        n.mass.val() >= 0real,
        Nmpc::pushes_up(crate::dense::rows(n.u_prev@)),
    ensures
        n.spec_ilqr(x0, refs)[0][0].val() >= 0real,
        n.kept(after, x0, refs) ==> Nmpc::pushes_up(crate::dense::rows(after.u_prev@)),
{
    let xrs = n.spec_targets(refs);
    let k = n.first_track(x0, refs);
    let h = n.spec_steps(refs);
    assert forall|t: int| 0 <= t < k.us.len() implies (#[trigger] k.us[t])[0].val() >= 0real by {
        assert(k.us[t] == crate::dense::rows(n.u_prev@)[t]);
    }
    assert(n.follows(k, x0, xrs));
    lemma_optimised(n, k, x0, xrs, n.iters as nat);
    let us = n.spec_ilqr(x0, refs);
    assert(us[0][0].val() >= 0real);
    lemma_hover_pushes_up(n);
    if n.kept(after, x0, refs) {
        assert forall|s: int| 0 <= s < after.u_prev@.len() implies (#[trigger] crate::dense::rows(
            after.u_prev@,
        )[s])[0].val() >= 0real by {
            assert(after.u_prev@[s]@ == n.kept_at(x0, refs, s));
            if s + 1 < h {
                assert(us[s + 1][0].val() >= 0real);
            } else if s + 1 != h {
                assert(crate::dense::rows(n.u_prev@)[s][0].val() >= 0real);
            }
        }
    }
}

proof fn lemma_hover_pushes_up<S: Real>(n: Nmpc<S>)
    requires
        crate::scalar::exact::<S>(),
        n.mass.val() >= 0real,
    ensures
        n.spec_ur()@[0].val() >= 0real,
{
    crate::scalar::lemma_splat_fraction::<S>(981, 100);
    let (m, g) = (n.mass.val(), crate::params::spec_gravity::<S>().val());
    assert(m * g >= 0real) by (nonlinear_arith)
        requires
            m >= 0real,
            g >= 0real,
    ;
}

/// However often an optimiser has been called since it was made, with whatever states and
/// references, the control it returns asks for no downward thrust. `ns[i]` is the optimiser
/// before call `i`.
pub proof fn law_control_pushes_up<S: Real>(
    ns: Seq<Nmpc<S>>,
    x0s: Seq<Seq<S>>,
    refs: Seq<Seq<FlatRef<S>>>,
    i: int,
)
    requires
        crate::scalar::exact::<S>(),
        0 <= i < ns.len(),
        x0s.len() == ns.len(),
        refs.len() == ns.len(),
        ns[0].fresh(),
        ns[0].horizon >= 1,
        ns[0].mass.val() >= 0real,
        forall|c: int| 0 <= c < refs.len() ==> (#[trigger] refs[c]).len() >= 1,
        forall|c: int|
            0 <= c < ns.len() - 1 ==> (#[trigger] ns[c]).kept(ns[c + 1], x0s[c], refs[c]),
    ensures
        ns[i].spec_ilqr(x0s[i], refs[i])[0][0].val() >= 0real,
{
    lemma_calls_push_up(ns, x0s, refs, i);
    lemma_call_pushes_up(ns[i], ns[i], x0s[i], refs[i]);
}

proof fn lemma_calls_push_up<S: Real>(
    ns: Seq<Nmpc<S>>,
    x0s: Seq<Seq<S>>,
    refs: Seq<Seq<FlatRef<S>>>,
    i: int,
)
    requires
        crate::scalar::exact::<S>(),
        0 <= i < ns.len(),
        x0s.len() == ns.len(),
        refs.len() == ns.len(),
        ns[0].fresh(),
        ns[0].horizon >= 1,
        ns[0].mass.val() >= 0real,
        forall|c: int| 0 <= c < refs.len() ==> (#[trigger] refs[c]).len() >= 1,
        forall|c: int|
            0 <= c < ns.len() - 1 ==> (#[trigger] ns[c]).kept(ns[c + 1], x0s[c], refs[c]),
    ensures
        ns[i].wf(),
        ns[i].horizon == ns[0].horizon,
        ns[i].mass == ns[0].mass,
        Nmpc::pushes_up(crate::dense::rows(ns[i].u_prev@)),
    decreases i,
{
    if i > 0 {
        lemma_calls_push_up(ns, x0s, refs, i - 1);
        let n = ns[i - 1];
        assert(n.kept(ns[i - 1 + 1], x0s[i - 1], refs[i - 1]));
        assert(refs[i - 1].len() >= 1);
        lemma_call_pushes_up(n, ns[i], x0s[i - 1], refs[i - 1]);
    } else {
        lemma_hover_pushes_up(ns[0]);
        assert forall|t: int| 0 <= t < ns[0].u_prev@.len() implies (#[trigger] crate::dense::rows(
            ns[0].u_prev@,
        )[t])[0].val() >= 0real by {
            assert(ns[0].u_prev@[t] == ns[0].spec_ur());
        }
    }
}

} // verus!
