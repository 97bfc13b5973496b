//! SE(3) geometric tracking controller (Lee et al. 2010): four rotor forces that track a
//! flat-output reference. The gains are fixed; mass, inertia and allocation are those of
//! the vehicle.
use vstd::prelude::*;

use crate::linalg::{Mat3, Mat4, Vec3};
use crate::params::{gravity, QuadParams, QuadParamsInput, NUM_ROTORS};
use crate::scalar::{clip, Real};
use crate::state::State;

verus! {

/// Desired flat outputs.
#[derive(Clone, Copy, Debug)]
pub struct FlatRef<S> {
    pub x: Vec3<S>,
    pub x_dot: Vec3<S>,
    pub x_ddot: Vec3<S>,
    pub yaw: S,
    pub yaw_dot: S,
}

pub struct Se3Control<S> {
    pub mass: S,
    pub inertia: Mat3<S>,
    pub tm_to_f: Mat4<S>,
    pub kp_pos: Vec3<S>,
    pub kd_pos: Vec3<S>,
    pub kp_att: S,
    pub kd_att: S,
}

/// `v` at unit length; straight up if it has none.
pub open spec fn spec_normalize<S: Real>(v: Vec3<S>) -> Vec3<S> {
    let n = v.spec_norm();
    if S::spec_splat(1, 1000000000000) < n {
        v.spec_scale(S::spec_one() / n)
    } else {
        Vec3 { x: S::spec_zero(), y: S::spec_zero(), z: S::spec_one() }
    }
}

fn normalize<S: Real>(v: Vec3<S>) -> (r: Vec3<S>)
    ensures
        r == spec_normalize(v),
{
    let n = v.norm();
    if S::splat(1, 1000000000000).lt(n) {
        v.scale(S::one().div(n))
    } else {
        Vec3::new(S::zero(), S::zero(), S::one())
    }
}

/// Body z axis in the world: the third column of the rotation.
pub open spec fn spec_body_z<S: Real>(r: Mat3<S>) -> Vec3<S> {
    Vec3 { x: r.at(0, 2), y: r.at(1, 2), z: r.at(2, 2) }
}

/// The attitude that puts thrust along `f_des` at heading `yaw`; its columns are the
/// body axes.
pub open spec fn spec_desired_attitude<S: Real>(f_des: Vec3<S>, yaw: S) -> Mat3<S> {
    let b3 = spec_normalize(f_des);
    let c1 = Vec3 { x: yaw.spec_cos(), y: yaw.spec_sin(), z: S::spec_zero() };
    let b2 = spec_normalize(b3.spec_cross(c1));
    let b1 = b2.spec_cross(b3);
    Mat3 { rows: [[b1.x, b2.x, b3.x], [b1.y, b2.y, b3.y], [b1.z, b2.z, b3.z]] }
}

fn desired_attitude<S: Real>(f_des: Vec3<S>, yaw: S) -> (r: Mat3<S>)
    ensures
        r == spec_desired_attitude(f_des, yaw),
{
    let b3 = normalize(f_des);
    let c1 = Vec3::new(yaw.cos(), yaw.sin(), S::zero());
    let b2 = normalize(b3.cross(c1));
    let b1 = b2.cross(b3);
    Mat3::new([[b1.x, b2.x, b3.x], [b1.y, b2.y, b3.y], [b1.z, b2.z, b3.z]])
}

/// The rotation error `(R_des^T R - R^T R_des) / 2` as a vector.
pub open spec fn spec_attitude_error<S: Real>(r_des: Mat3<S>, rot: Mat3<S>) -> Vec3<S> {
    let a = r_des.spec_transpose().spec_mul(rot);
    let b = rot.spec_transpose().spec_mul(r_des);
    let half = S::spec_splat(1, 2);
    Vec3 {
        x: -(half * (a.at(1, 2) - b.at(1, 2))),
        y: half * (a.at(0, 2) - b.at(0, 2)),
        z: -(half * (a.at(0, 1) - b.at(0, 1))),
    }
}

fn attitude_error<S: Real>(r_des: &Mat3<S>, rot: &Mat3<S>) -> (r: Vec3<S>)
    ensures
        r == spec_attitude_error(*r_des, *rot),
{
    let a = r_des.transpose().mul(rot);
    let b = rot.transpose().mul(r_des);
    let half = S::splat(1, 2);
    Vec3::new(
        half.mul(a.rows[1][2].sub(b.rows[1][2])).neg(),
        half.mul(a.rows[0][2].sub(b.rows[0][2])),
        half.mul(a.rows[0][1].sub(b.rows[0][1])).neg(),
    )
}

impl<S: Real> Se3Control<S> {
    pub open spec fn spec_new(p: QuadParamsInput<S>) -> Self {
        let qp = QuadParams::spec_from_input(p);
        Se3Control {
            mass: p.mass,
            inertia: qp.inertia,
            tm_to_f: qp.tm_to_f,
            kp_pos: Vec3 {
                x: S::spec_splat(65, 10),
                y: S::spec_splat(65, 10),
                z: S::spec_splat(15, 1),
            },
            kd_pos: Vec3 {
                x: S::spec_splat(4, 1),
                y: S::spec_splat(4, 1),
                z: S::spec_splat(9, 1),
            },
            kp_att: S::spec_splat(544, 1),
            kd_att: S::spec_splat(4664, 100),
        }
    }

    /// The force that the position loop asks for.
    pub open spec fn spec_desired_force(self, state: State<S>, r: FlatRef<S>) -> Vec3<S> {
        let up = Vec3 {
            x: S::spec_zero(),
            y: S::spec_zero(),
            z: crate::params::spec_gravity::<S>(),
        };
        (r.x_ddot + up - (state.x - r.x).spec_hadamard(self.kp_pos) - (state.v
            - r.x_dot).spec_hadamard(self.kd_pos)).spec_scale(self.mass)
    }

    /// The rotation error with which the attitude loop works.
    pub open spec fn spec_att_err(self, state: State<S>, r: FlatRef<S>) -> Vec3<S> {
        spec_attitude_error(
            spec_desired_attitude(self.spec_desired_force(state, r), r.yaw),
            state.q.spec_to_rotmat(),
        )
    }

    /// The thrust that the attitude of the vehicle lets it put along the desired force.
    pub open spec fn spec_thrust(self, state: State<S>, r: FlatRef<S>) -> S {
        self.spec_desired_force(state, r).spec_dot(spec_body_z(state.q.spec_to_rotmat()))
    }

    /// The angular acceleration command.
    pub open spec fn spec_cmd_w(self, state: State<S>, r: FlatRef<S>) -> Vec3<S> {
        let w_des = Vec3 { x: S::spec_zero(), y: S::spec_zero(), z: r.yaw_dot };
        self.spec_att_err(state, r).spec_scale(-self.kp_att) - (state.w - w_des).spec_scale(
            self.kd_att,
        )
    }

    /// The rotor forces.
    pub open spec fn spec_update(self, state: State<S>, r: FlatRef<S>) -> Seq<S> {
        let u2 = self.inertia.spec_matvec(self.spec_cmd_w(state, r)) + state.w.spec_cross(
            self.inertia.spec_matvec(state.w),
        );
        self.tm_to_f.spec_matvec(seq![self.spec_thrust(state, r), u2.x, u2.y, u2.z])
    }

    /// Thrust and clamped body rates of [`Se3Control::ctbr_seed`].
    pub open spec fn spec_ctbr_seed(
        self,
        state: State<S>,
        r: FlatRef<S>,
        kp_rate: S,
        rate_max: S,
    ) -> (S, Vec3<S>) {
        let w = self.spec_att_err(state, r).spec_scale(-kp_rate);
        (
            self.spec_thrust(state, r).spec_max(S::spec_zero()),
            Vec3 {
                x: crate::scalar::spec_clip(w.x, -rate_max, rate_max),
                y: crate::scalar::spec_clip(w.y, -rate_max, rate_max),
                z: crate::scalar::spec_clip(w.z, -rate_max, rate_max),
            },
        )
    }

    pub fn new(p: &QuadParamsInput<S>) -> (r: Self)
        ensures
            r == Self::spec_new(*p),
    {
        let qp = QuadParams::from_input(p);
        Se3Control {
            mass: p.mass,
            inertia: qp.inertia,
            tm_to_f: qp.tm_to_f,
            kp_pos: Vec3::new(S::splat(65, 10), S::splat(65, 10), S::splat(15, 1)),
            kd_pos: Vec3::new(S::splat(4, 1), S::splat(4, 1), S::splat(9, 1)),
            kp_att: S::splat(544, 1),
            kd_att: S::splat(4664, 100),
        }
    }

    fn desired_force(&self, state: &State<S>, r: &FlatRef<S>) -> (f: Vec3<S>)
        ensures
            f == self.spec_desired_force(*state, *r),
    {
        let pos_err = state.x.sub(r.x);
        let dpos_err = state.v.sub(r.x_dot);
        r.x_ddot.add(Vec3::new(S::zero(), S::zero(), gravity::<S>())).sub(
            pos_err.hadamard(self.kp_pos),
        ).sub(dpos_err.hadamard(self.kd_pos)).scale(self.mass)
    }

    /// Four rotor forces [N], not clamped to the motor limits.
    pub fn update(&self, state: &State<S>, r: &FlatRef<S>) -> (f: [S; NUM_ROTORS])
        ensures
            f@ == self.spec_update(*state, *r),
    {
        let (f, _u1, _cmd_w) = self.update_full(state, r);
        f
    }

    /// A collective thrust and body-rate command toward a flat reference: the attitude
    /// error scaled by `kp_rate` and held within `rate_max`.
    pub fn ctbr_seed(&self, state: &State<S>, r: &FlatRef<S>, kp_rate: S, rate_max: S) -> (c: (
        S,
        Vec3<S>,
    ))
        requires
            -rate_max <= rate_max,
        ensures
            c == self.spec_ctbr_seed(*state, *r, kp_rate, rate_max),
    {
        let rot = state.q.to_rotmat();
        let f_des = self.desired_force(state, r);
        let b3 = Vec3::new(rot.rows[0][2], rot.rows[1][2], rot.rows[2][2]);
        let u1 = f_des.dot(b3).max(S::zero());
        let r_des = desired_attitude(f_des, r.yaw);
        let att_err = attitude_error(&r_des, &rot);
        let w = att_err.scale(kp_rate.neg());
        let lo = rate_max.neg();
        (u1, Vec3::new(clip(w.x, lo, rate_max), clip(w.y, lo, rate_max), clip(w.z, lo, rate_max)))
    }

    /// Rotor forces [N], collective thrust [N] and the angular command, so that one
    /// flight can be logged in both action representations.
    pub fn update_full(&self, state: &State<S>, r: &FlatRef<S>) -> (c: (
        [S; NUM_ROTORS],
        S,
        Vec3<S>,
    ))
        ensures
            c.0@ == self.spec_update(*state, *r),
            c.1 == self.spec_thrust(*state, *r),
            c.2 == self.spec_cmd_w(*state, *r),
    {
        let rot = state.q.to_rotmat();
        let f_des = self.desired_force(state, r);
        let b3 = Vec3::new(rot.rows[0][2], rot.rows[1][2], rot.rows[2][2]);
        let u1 = f_des.dot(b3);
        let r_des = desired_attitude(f_des, r.yaw);
        let att_err = attitude_error(&r_des, &rot);
        let w_des = Vec3::new(S::zero(), S::zero(), r.yaw_dot);
        let w_err = state.w.sub(w_des);
        let cmd_w = att_err.scale(self.kp_att.neg()).sub(w_err.scale(self.kd_att));
        let iw = self.inertia.matvec(state.w);
        let u2 = self.inertia.matvec(cmd_w).add(state.w.cross(iw));
        let tm = [u1, u2.x, u2.y, u2.z];
        assert(tm@ =~= seq![u1, u2.x, u2.y, u2.z]);
        (self.tm_to_f.matvec(tm), u1, cmd_w)
    }
}

} // verus!
