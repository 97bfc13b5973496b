//! Physical parameters of a vehicle, as given and as the dynamics consume them.
use vstd::prelude::*;

use crate::linalg::{Mat3, Mat4, Vec3};
use crate::scalar::{Real, Scalar};

verus! {

pub const NUM_ROTORS: usize = 4;

/// Gravitational acceleration, 9.81 m/s^2.
pub open spec fn spec_gravity<S: Scalar>() -> S {
    S::spec_splat(981, 100)
}

/// Gravitational acceleration, 9.81 m/s^2.
pub fn gravity<S: Scalar>() -> (r: S)
    ensures
        r == spec_gravity::<S>(),
{
    S::splat(981, 100)
}

/// One parameter set, as it comes from a drone description.
#[derive(Clone, Copy, Debug)]
pub struct QuadParamsInput<S> {
    pub mass: S,
    pub ixx: S,
    pub iyy: S,
    pub izz: S,
    pub ixy: S,
    pub iyz: S,
    pub ixz: S,
    /// Rotor positions relative to the centre of mass, in order.
    pub rotor_pos: [[S; 3]; NUM_ROTORS],
    pub rotor_directions: [S; NUM_ROTORS],
    pub c_dx: S,
    pub c_dy: S,
    pub c_dz: S,
    pub k_eta: S,
    pub k_m: S,
    pub k_d: S,
    pub k_z: S,
    pub k_h: S,
    pub k_flap: S,
    pub tau_m: S,
    pub rotor_speed_min: S,
    pub rotor_speed_max: S,
    pub k_w: S,
}

/// The derived form: inertia inverse, weight, drag diagonal and control allocation
/// are computed once.
#[derive(Clone, Copy, Debug)]
pub struct QuadParams<S> {
    pub mass: S,
    pub inertia: Mat3<S>,
    pub inv_inertia: Mat3<S>,
    /// `(0, 0, -m g)` in the world frame.
    pub weight: Vec3<S>,
    pub drag_diag: Vec3<S>,
    pub k_eta: S,
    pub k_m: S,
    pub k_d: S,
    pub k_z: S,
    pub k_h: S,
    pub k_flap: S,
    pub tau_m: S,
    pub rotor_speed_min: S,
    pub rotor_speed_max: S,
    pub k_w: S,
    pub rotor_pos: [Vec3<S>; NUM_ROTORS],
    pub rotor_dir: [S; NUM_ROTORS],
    /// Per-rotor thrust multiplier: the realized thrust is `rotor_gain[j] * k_eta * rpm^2`.
    pub rotor_gain: [S; NUM_ROTORS],
    /// Maps `[thrust, Mx, My, Mz]` to the rotor forces.
    pub tm_to_f: Mat4<S>,
}

impl<S: Scalar> QuadParamsInput<S> {
    /// The position of rotor `r`.
    pub open spec fn arm(self, r: int) -> Vec3<S> {
        Vec3 { x: self.rotor_pos[r][0], y: self.rotor_pos[r][1], z: self.rotor_pos[r][2] }
    }

    /// The symmetric inertia tensor.
    pub open spec fn spec_inertia(self) -> Mat3<S> {
        Mat3 {
            rows: [
                [self.ixx, self.ixy, self.ixz],
                [self.ixy, self.iyy, self.iyz],
                [self.ixz, self.iyz, self.izz],
            ],
        }
    }

    /// What the four rotor forces add up to: collective thrust, roll moment `r_y`,
    /// pitch moment `-r_x`, and yaw moment in the ratio `k_m / k_eta`.
    pub open spec fn spec_f_to_tm(self) -> Mat4<S> {
        let one = S::spec_one();
        let kc = self.k_m / self.k_eta;
        Mat4 {
            rows: [
                [one, one, one, one],
                [self.arm(0).y, self.arm(1).y, self.arm(2).y, self.arm(3).y],
                [-self.arm(0).x, -self.arm(1).x, -self.arm(2).x, -self.arm(3).x],
                [
                    kc * self.rotor_directions[0],
                    kc * self.rotor_directions[1],
                    kc * self.rotor_directions[2],
                    kc * self.rotor_directions[3],
                ],
            ],
        }
    }
}

impl<S: Scalar> QuadParams<S> {
    pub open spec fn spec_from_input(p: QuadParamsInput<S>) -> Self {
        let one = S::spec_one();
        QuadParams {
            mass: p.mass,
            inertia: p.spec_inertia(),
            inv_inertia: p.spec_inertia().spec_inverse(),
            weight: Vec3 {
                x: S::spec_zero(),
                y: S::spec_zero(),
                z: (-p.mass) * spec_gravity::<S>(),
            },
            drag_diag: Vec3 { x: p.c_dx, y: p.c_dy, z: p.c_dz },
            k_eta: p.k_eta,
            k_m: p.k_m,
            k_d: p.k_d,
            k_z: p.k_z,
            k_h: p.k_h,
            k_flap: p.k_flap,
            tau_m: p.tau_m,
            rotor_speed_min: p.rotor_speed_min,
            rotor_speed_max: p.rotor_speed_max,
            k_w: p.k_w,
            rotor_pos: [p.arm(0), p.arm(1), p.arm(2), p.arm(3)],
            rotor_dir: p.rotor_directions,
            rotor_gain: [one, one, one, one],
            tm_to_f: p.spec_f_to_tm().spec_inverse(),
        }
    }

    /// Derive the dynamics parameters from a description; all motors equal.
    pub fn from_input(p: &QuadParamsInput<S>) -> (r: Self)
        ensures
            r == Self::spec_from_input(*p),
    {
        let inertia = Mat3::new(
            [[p.ixx, p.ixy, p.ixz], [p.ixy, p.iyy, p.iyz], [p.ixz, p.iyz, p.izz]],
        );
        let inv_inertia = inertia.inverse();
        let weight = Vec3::new(S::zero(), S::zero(), p.mass.neg().mul(gravity::<S>()));
        let rp = &p.rotor_pos;
        let rotor_pos = [
            Vec3::new(rp[0][0], rp[0][1], rp[0][2]),
            Vec3::new(rp[1][0], rp[1][1], rp[1][2]),
            Vec3::new(rp[2][0], rp[2][1], rp[2][2]),
            Vec3::new(rp[3][0], rp[3][1], rp[3][2]),
        ];
        let one = S::one();
        let kc = p.k_m.div(p.k_eta);
        let d = &p.rotor_directions;
        let f_to_tm = Mat4::new(
            [
                [one, one, one, one],
                [rp[0][1], rp[1][1], rp[2][1], rp[3][1]],
                [rp[0][0].neg(), rp[1][0].neg(), rp[2][0].neg(), rp[3][0].neg()],
                [kc.mul(d[0]), kc.mul(d[1]), kc.mul(d[2]), kc.mul(d[3])],
            ],
        );
        let tm_to_f = f_to_tm.inverse();
        QuadParams {
            mass: p.mass,
            inertia,
            inv_inertia,
            weight,
            drag_diag: Vec3::new(p.c_dx, p.c_dy, p.c_dz),
            k_eta: p.k_eta,
            k_m: p.k_m,
            k_d: p.k_d,
            k_z: p.k_z,
            k_h: p.k_h,
            k_flap: p.k_flap,
            tau_m: p.tau_m,
            rotor_speed_min: p.rotor_speed_min,
            rotor_speed_max: p.rotor_speed_max,
            k_w: p.k_w,
            rotor_pos,
            rotor_dir: p.rotor_directions,
            rotor_gain: [one, one, one, one],
            tm_to_f,
        }
    }
}

/// The allocation is exact: the rotor forces for a unit of thrust, or of the moment about
/// one axis, add up to that and to nothing else. The rotors are placed so that this can be.
pub proof fn law_allocation_is_exact<S: Real>(p: QuadParamsInput<S>)
    requires
        crate::scalar::exact::<S>(),
        p.spec_f_to_tm().spec_det().val() != 0real,
    ensures
        forall|i: int, j: int|
            0 <= i < 4 && 0 <= j < 4 ==> (#[trigger] p.spec_f_to_tm().matvec_at(
                QuadParams::spec_from_input(p).tm_to_f.col(j),
                i,
            )).val() == crate::linalg::unit(i, j),
{
    crate::linalg::law_mat4_inverse(p.spec_f_to_tm());
}

/// The inverse inertia inverts the inertia.
pub proof fn law_inertia_is_inverted<S: Real>(p: QuadParamsInput<S>)
    requires
        crate::scalar::exact::<S>(),
        p.spec_inertia().spec_det().val() != 0real,
    ensures
        forall|i: int, j: int|
            0 <= i < 3 && 0 <= j < 3 ==> (#[trigger] p.spec_inertia().mul_at(
                QuadParams::spec_from_input(p).inv_inertia,
                i,
                j,
            )).val() == crate::linalg::unit(i, j),
{
    crate::linalg::law_mat3_inverse(p.spec_inertia());
}

} // verus!
