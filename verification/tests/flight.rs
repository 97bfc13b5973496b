//! The vehicle, its geometry, tracking control and reference paths.
use drone_jepa::control::{ControlLaw, Ctbr, CtbrCmd, RotorForce};
use drone_jepa::dense::inv4;
use drone_jepa::drone::{hummingbird, WasmDrone};
use drone_jepa::gates::{Course, Gate};
use drone_jepa::linalg::{Mat3, Mat4, Quat, Vec3};
use drone_jepa::multirotor::{body_wrench, clip_speeds, integrate, Multirotor};
use drone_jepa::nmpc::Nmpc;
use drone_jepa::params::{QuadParams, QuadParamsInput};
use drone_jepa::references::{FourierRef, GpRef, Spline};
use drone_jepa::rng::Rng;
use drone_jepa::scalar::{clip, Real, Scalar};
use drone_jepa::se3::{FlatRef, Se3Control};
use drone_jepa::simd::{
    pack_params, pack_rotor_forces, pack_state, unpack_state_lane, F64x,
};
use drone_jepa::so3::quat_dot;
use drone_jepa::state::State;

/// Double precision as the arithmetic of the library.
#[derive(Clone, Copy, Debug, PartialEq)]
struct F(f64);

fn f(x: f64) -> F {
    F(x)
}

impl Scalar for F {
    fn zero() -> Self {
        F(0.0)
    }
    fn one() -> Self {
        F(1.0)
    }
    fn splat(num: i128, den: u64) -> Self {
        F(num as f64 / den as f64)
    }
    fn add(self, o: Self) -> Self {
        F(self.0 + o.0)
    }
    fn sub(self, o: Self) -> Self {
        F(self.0 - o.0)
    }
    fn mul(self, o: Self) -> Self {
        F(self.0 * o.0)
    }
    fn div(self, o: Self) -> Self {
        F(self.0 / o.0)
    }
    fn neg(self) -> Self {
        F(-self.0)
    }
    fn sqrt(self) -> Self {
        F(self.0.sqrt())
    }
    fn abs(self) -> Self {
        F(self.0.abs())
    }
    fn signum(self) -> Self {
        F(1f64.copysign(self.0))
    }
    fn min(self, o: Self) -> Self {
        F(self.0.min(o.0))
    }
    fn max(self, o: Self) -> Self {
        F(self.0.max(o.0))
    }
}

impl Real for F {
    fn lt(self, o: Self) -> bool {
        self.0 < o.0
    }
    fn le(self, o: Self) -> bool {
        self.0 <= o.0
    }
    fn is_finite(self) -> bool {
        self.0.is_finite()
    }
    fn infinity() -> Self {
        F(f64::INFINITY)
    }
    fn nan() -> Self {
        F(f64::NAN)
    }
    fn pi() -> Self {
        F(std::f64::consts::PI)
    }
    fn exp(self) -> Self {
        F(self.0.exp())
    }
    fn ln(self) -> Self {
        F(self.0.ln())
    }
    fn sin(self) -> Self {
        F(self.0.sin())
    }
    fn cos(self) -> Self {
        F(self.0.cos())
    }
    fn tanh(self) -> Self {
        F(self.0.tanh())
    }
}

fn v3(x: f64, y: f64, z: f64) -> Vec3<F> {
    Vec3::new(f(x), f(y), f(z))
}

fn approx(a: F, b: f64, tol: f64) -> bool {
    (a.0 - b).abs() <= tol
}

// --- linear algebra ------------------------------------------------------------

#[test]
fn mat3_inverse_roundtrip() {
    let m = Mat3::new([
        [f(2.0), f(-1.0), f(0.5)],
        [f(0.3), f(4.0), f(1.0)],
        [f(-0.2), f(0.1), f(3.0)],
    ]);
    let inv = m.inverse();
    // m * inv == I
    for c in 0..3 {
        let e = [
            if c == 0 { 1.0 } else { 0.0 },
            if c == 1 { 1.0 } else { 0.0 },
            if c == 2 { 1.0 } else { 0.0 },
        ];
        let col = Vec3::new(inv.rows[0][c], inv.rows[1][c], inv.rows[2][c]);
        let got = m.matvec(col);
        assert!(
            approx(got.x, e[0], 1e-12) && approx(got.y, e[1], 1e-12) && approx(got.z, e[2], 1e-12)
        );
    }
}

#[test]
fn mat4_inverse_roundtrip() {
    let m = Mat4::new([
        [f(1.0), f(1.0), f(1.0), f(1.0)],
        [f(0.12), f(-0.12), f(-0.12), f(0.12)],
        [f(-0.12), f(-0.12), f(0.12), f(0.12)],
        [f(0.024), f(-0.024), f(0.024), f(-0.024)],
    ]);
    let inv = m.inverse();
    for c in 0..4 {
        let mut e = [0.0; 4];
        e[c] = 1.0;
        let col = [inv.rows[0][c], inv.rows[1][c], inv.rows[2][c], inv.rows[3][c]];
        let got = m.matvec(col);
        for i in 0..4 {
            assert!(approx(got[i], e[i], 1e-9), "row {i} col {c}: {} != {}", got[i].0, e[i]);
        }
    }
}

#[test]
fn quat_to_rotmat_matches_scipy() {
    // a quarter turn about z: q = [0, 0, sin(pi/4), cos(pi/4)]
    let s = (std::f64::consts::FRAC_PI_4).sin();
    let q = Quat::new(f(0.0), f(0.0), f(s), f(s));
    let r = q.to_rotmat();
    let expect = [[0.0, -1.0, 0.0], [1.0, 0.0, 0.0], [0.0, 0.0, 1.0]];
    for i in 0..3 {
        for j in 0..3 {
            assert!(approx(r.rows[i][j], expect[i][j], 1e-12), "[{i}][{j}]");
        }
    }
}

#[test]
fn quat_to_rotmat_normalizes() {
    let q = Quat::new(f(0.2), f(-0.4), f(0.5), f(0.8)); // norm != 1
    let r = q.to_rotmat();
    for c in 0..3 {
        let col = Vec3::new(r.rows[0][c], r.rows[1][c], r.rows[2][c]);
        assert!(approx(col.dot(col), 1.0, 1e-12), "col {c} not unit");
        let next = (c + 1) % 3;
        let other = Vec3::new(r.rows[0][next], r.rows[1][next], r.rows[2][next]);
        assert!(approx(col.dot(other), 0.0, 1e-12), "col {c} not orthogonal");
    }
}

#[test]
fn hat_is_cross() {
    let a = v3(1.0, 2.0, 3.0);
    let b = v3(-0.5, 0.7, 4.0);
    let h = Mat3::hat(a).matvec(b);
    let c = a.cross(b);
    assert!(
        approx(h.x, c.x.0, 1e-15) && approx(h.y, c.y.0, 1e-15) && approx(h.z, c.z.0, 1e-15)
    );
}

#[test]
fn inverses_undo_from_either_side() {
    let m = Mat3::new([
        [f(0.0), f(2.0), f(1.0)],
        [f(3.0), f(-1.0), f(4.0)],
        [f(1.0), f(0.5), f(-2.0)],
    ]);
    let n = m.inverse();
    let (a, b, c) = (m.mul(&n), n.mul(&m), n.inverse());
    for i in 0..3 {
        for j in 0..3 {
            let want = if i == j { 1.0 } else { 0.0 };
            assert!(approx(a.rows[i][j], want, 1e-12));
            assert!(approx(b.rows[i][j], want, 1e-12));
            assert!(approx(c.rows[i][j], m.rows[i][j].0, 1e-12));
        }
    }
    // a zero on the diagonal does no harm
    let m = Mat4::new([
        [f(0.0), f(1.0), f(2.0), f(-1.0)],
        [f(3.0), f(0.0), f(1.0), f(1.0)],
        [f(-2.0), f(1.0), f(0.0), f(4.0)],
        [f(1.0), f(5.0), f(1.0), f(0.0)],
    ]);
    let n = m.inverse();
    let v = [f(1.0), f(-2.0), f(0.5), f(3.0)];
    let (a, b) = (m.matvec(n.matvec(v)), n.matvec(m.matvec(v)));
    for i in 0..4 {
        assert!(approx(a[i], v[i].0, 1e-12) && approx(b[i], v[i].0, 1e-12));
    }
}

#[test]
fn a_rotation_is_proper_and_ignores_scale() {
    let q = Quat::new(f(0.3), f(-0.5), f(0.2), f(0.9));
    let r = q.to_rotmat();
    let m = |i: usize, j: usize| r.rows[i][j].0;
    let det = m(0, 0) * (m(1, 1) * m(2, 2) - m(1, 2) * m(2, 1))
        - m(0, 1) * (m(1, 0) * m(2, 2) - m(1, 2) * m(2, 0))
        + m(0, 2) * (m(1, 0) * m(2, 1) - m(1, 1) * m(2, 0));
    assert!((det - 1.0).abs() < 1e-12);
    for k in [-2.5, 0.01, 40.0] {
        let s = Quat::new(f(0.3 * k), f(-0.5 * k), f(0.2 * k), f(0.9 * k)).to_rotmat();
        for i in 0..3 {
            for j in 0..3 {
                assert!(approx(s.rows[i][j], m(i, j), 1e-12));
            }
        }
    }
}

#[test]
fn matrices_compose_and_transpose() {
    let a = Mat3::new([
        [f(1.0), f(2.0), f(-1.0)],
        [f(0.5), f(0.0), f(3.0)],
        [f(-2.0), f(1.0), f(4.0)],
    ]);
    let b = Mat3::new([
        [f(0.0), f(1.0), f(2.0)],
        [f(-3.0), f(1.0), f(0.25)],
        [f(1.0), f(1.0), f(-1.0)],
    ]);
    let (u, v) = (v3(1.0, -2.0, 0.5), v3(3.0, 0.25, -1.0));
    // the transpose is the adjoint
    assert!(approx(a.matvec(v).dot(u), v.dot(a.tmatvec(u)).0, 1e-12));
    // factors one after the other
    assert!(a.mul(&b).matvec(v).sub(a.matvec(b.matvec(v))).norm().0 < 1e-12);
    let (p, q) = (a.mul(&b).transpose(), b.transpose().mul(&a.transpose()));
    for i in 0..3 {
        for j in 0..3 {
            assert!(approx(p.rows[i][j], q.rows[i][j].0, 1e-12));
        }
    }
    // linear
    let sum = a.matvec(u).add(a.matvec(v));
    assert!(a.matvec(u.add(v)).sub(sum).norm().0 < 1e-12);
    assert!(a.matvec(u.scale(f(2.5))).sub(a.matvec(u).scale(f(2.5))).norm().0 < 1e-12);
}

#[test]
fn cross_products_obey_their_identities() {
    let (u, v, w) = (v3(1.0, -2.0, 0.5), v3(3.0, 0.25, -1.0), v3(-0.5, 2.0, 4.0));
    let c = u.cross(v);
    assert!(c.add(v.cross(u)).norm().0 < 1e-12);
    assert!(u.cross(u).norm().0 < 1e-12);
    assert!(u.dot(c).0.abs() < 1e-12 && v.dot(c).0.abs() < 1e-12);
    let square = u.dot(u).0 * v.dot(v).0 - u.dot(v).0 * u.dot(v).0;
    assert!(approx(c.dot(c), square, 1e-12));
    let twice = v.scale(u.dot(w)).sub(w.scale(u.dot(v)));
    assert!(u.cross(v.cross(w)).sub(twice).norm().0 < 1e-12);
    let q = Quat::new(f(0.3), f(-0.5), f(0.2), f(3.0)).normalized();
    let again = q.normalized();
    assert!(approx(q.norm(), 1.0, 1e-12));
    assert!(approx(again.i, q.i.0, 1e-12) && approx(again.w, q.w.0, 1e-12));
}

#[test]
fn vector_operations_have_their_values() {
    let a = v3(1.0, 2.0, 3.0);
    let b = v3(4.0, -5.0, 6.0);
    assert_eq!(a.add(b).to_array(), [f(5.0), f(-3.0), f(9.0)]);
    assert_eq!(a.sub(b).to_array(), [f(-3.0), f(7.0), f(-3.0)]);
    assert_eq!(a.neg().to_array(), [f(-1.0), f(-2.0), f(-3.0)]);
    assert_eq!(a.scale(f(2.0)).to_array(), [f(2.0), f(4.0), f(6.0)]);
    assert_eq!(a.dot(b), f(12.0));
    assert_eq!(a.cross(b).to_array(), [f(27.0), f(6.0), f(-13.0)]);
    assert_eq!(a.hadamard(b).to_array(), [f(4.0), f(-10.0), f(18.0)]);
    assert_eq!(v3(3.0, 4.0, 0.0).norm(), f(5.0));
    assert_eq!(Vec3::<F>::zero().to_array(), [f(0.0), f(0.0), f(0.0)]);
}

#[test]
fn matrix_products_have_their_values() {
    let m = Mat3::new([
        [f(1.0), f(2.0), f(3.0)],
        [f(4.0), f(5.0), f(6.0)],
        [f(7.0), f(8.0), f(9.0)],
    ]);
    assert_eq!(m.matvec(v3(1.0, 0.0, -1.0)).to_array(), [f(-2.0), f(-2.0), f(-2.0)]);
    assert_eq!(m.tmatvec(v3(1.0, 0.0, -1.0)).to_array(), [f(-6.0), f(-6.0), f(-6.0)]);
    assert_eq!(m.transpose().rows[0], [f(1.0), f(4.0), f(7.0)]);
    assert_eq!(m.mul(&m).rows[2], [f(102.0), f(126.0), f(150.0)]);
    let q = Quat::from_array([f(1.0), f(2.0), f(2.0), f(4.0)]);
    assert_eq!(q.norm(), f(5.0));
    assert_eq!(q.normalized().to_array(), [f(0.2), f(0.4), f(0.4), f(0.8)]);
}

#[test]
fn elimination_inverts_and_reports_singular() {
    let m = [
        [f(0.0), f(2.0), f(0.0), f(1.0)],
        [f(1.0), f(0.0), f(0.0), f(0.0)],
        [f(0.0), f(0.0), f(4.0), f(0.0)],
        [f(3.0), f(1.0), f(0.0), f(2.0)],
    ];
    let inv = inv4(&m).unwrap();
    for p in 0..4 {
        for q in 0..4 {
            let got: f64 = (0..4).map(|j| inv[p][j].0 * m[j][q].0).sum();
            let want = if p == q { 1.0 } else { 0.0 };
            assert!((got - want).abs() < 1e-12, "[{p}][{q}] {got}");
        }
    }
    let mut singular = m;
    singular[2] = singular[1];
    assert!(inv4(&singular).is_none());
}

// --- quaternion kinematics -------------------------------------------------------

#[test]
fn quat_dot_spins_quaternion() {
    // constant body rate about z, starting at identity
    let q = Quat::new(f(0.0), f(0.0), f(0.0), f(1.0));
    let omega = v3(0.0, 0.0, 2.0);
    let qd = quat_dot(q, omega);
    assert!((qd.i.0).abs() < 1e-15);
    assert!((qd.j.0).abs() < 1e-15);
    assert!((qd.k.0 - 1.0).abs() < 1e-15); // 0.5 * 2.0
    assert!((qd.w.0).abs() < 1e-15);
}

#[test]
fn quat_dot_preserves_unit_norm_rate() {
    let q = Quat::new(f(0.1), f(-0.3), f(0.55), f(0.77));
    let omega = v3(1.3, -0.4, 2.1);
    let qd = quat_dot(q, omega);
    let dot = q.i.0 * qd.i.0 + q.j.0 * qd.j.0 + q.k.0 * qd.k.0 + q.w.0 * qd.w.0;
    assert!(dot.abs() < 1e-15, "q.qd = {dot}");
}

// --- reference paths -------------------------------------------------------------

#[test]
fn spline_interpolates_knots() {
    let t = [0.0, 1.0, 2.0, 3.0, 4.0];
    let y = [0.0, 1.0, 0.5, 2.0, -1.0];
    let s = Spline::natural(t.iter().map(|x| f(*x)).collect(), y.iter().map(|x| f(*x)).collect());
    for i in 0..t.len() {
        let (v, _, _) = s.eval(f(t[i]));
        assert!((v.0 - y[i]).abs() < 1e-9, "knot {i}: {} != {}", v.0, y[i]);
    }
    // C1 continuity across an interior knot: derivative from both sides matches
    let (_, d_lo, _) = s.eval(f(2.0 - 1e-6));
    let (_, d_hi, _) = s.eval(f(2.0 + 1e-6));
    assert!((d_lo.0 - d_hi.0).abs() < 1e-3, "derivative jump at knot");
}

#[test]
fn spline_is_flat_at_its_ends() {
    let s = Spline::natural(
        vec![f(0.0), f(1.0), f(2.0), f(3.0)],
        vec![f(1.0), f(3.0), f(-2.0), f(0.5)],
    );
    let (_, _, c0) = s.eval(f(0.0));
    let (_, _, c3) = s.eval(f(3.0));
    assert!(c0.0.abs() < 1e-9 && c3.0.abs() < 1e-9);
    // two knots: a straight line
    let line = Spline::natural(vec![f(0.0), f(2.0)], vec![f(1.0), f(5.0)]);
    assert_eq!(line.eval(f(0.5)), (f(2.0), f(2.0), f(0.0)));
}

#[test]
fn gp_ref_is_finite_and_smooth() {
    let mut r = Rng::new(1);
    let g = GpRef::sample(&mut r, v3(0.0, 0.0, 1.5), f(10.0));
    let f0 = g.at(f(0.0));
    let f5 = g.at(f(5.0));
    assert!(f0.x.x.is_finite() && f5.x_ddot.norm().is_finite());
    // finite-difference check: x_dot ~ d/dt x
    let dt = 1e-4;
    let a = g.at(f(3.0)).x.x;
    let b = g.at(f(3.0 + dt)).x.x;
    let fd = (b.0 - a.0) / dt;
    assert!((fd - g.at(f(3.0)).x_dot.x.0).abs() < 1e-2, "x_dot mismatch fd");
}

#[test]
fn fourier_ref_has_consistent_derivatives() {
    let mut r = Rng::new(5);
    let g = FourierRef::sample(&mut r, v3(0.0, 0.0, 2.0));
    let dt = 1e-5;
    let (a, b) = (g.at(f(2.0)), g.at(f(2.0 + dt)));
    assert!(((b.x.y.0 - a.x.y.0) / dt - a.x_dot.y.0).abs() < 1e-3);
    assert!(((b.x_dot.z.0 - a.x_dot.z.0) / dt - a.x_ddot.z.0).abs() < 1e-3);
}

// --- the vehicle -----------------------------------------------------------------

fn drone(mass: f64, k_eta: f64, tau_m: f64) -> QuadParamsInput<F> {
    let d = f(0.17 * std::f64::consts::FRAC_1_SQRT_2);
    let m = f(-d.0);
    let z = f(0.0);
    QuadParamsInput {
        mass: f(mass),
        ixx: f(3.65e-3),
        iyy: f(3.68e-3),
        izz: f(7.03e-3),
        ixy: z,
        iyz: z,
        ixz: z,
        rotor_pos: [[d, d, z], [d, m, z], [m, m, z], [m, d, z]],
        rotor_directions: [f(1.0), f(-1.0), f(1.0), f(-1.0)],
        c_dx: f(0.5e-2),
        c_dy: f(0.5e-2),
        c_dz: f(1e-2),
        k_eta: f(k_eta),
        k_m: f(1.36e-7),
        k_d: f(1.19e-4),
        k_z: f(2.32e-4),
        k_h: f(3.39e-3),
        k_flap: z,
        tau_m: f(tau_m),
        rotor_speed_min: z,
        rotor_speed_max: f(1500.0),
        k_w: f(1.0),
    }
}

fn hover(input: &QuadParamsInput<F>) -> State<F> {
    let hov = f((input.mass.0 * 9.81 / (4.0 * input.k_eta.0)).sqrt());
    State {
        x: v3(0.0, 0.0, 1.5),
        v: v3(0.1, -0.2, 0.05),
        q: Quat::new(f(0.0), f(0.0), f(0.0), f(1.0)),
        w: v3(0.05, -0.03, 0.02),
        wind: Vec3::zero(),
        rotor_speeds: [hov; 4],
    }
}

#[test]
fn batched_step_matches_per_lane_scalar() {
    // Four different drones; step the batch once and compare each lane to the
    // independent scalar step.
    const L: usize = 4;
    let inputs = [
        drone(0.5, 5.57e-6, 0.005),
        drone(0.8, 6.50e-6, 0.010),
        drone(0.4, 5.00e-6, 0.020),
        drone(1.1, 8.00e-6, 0.008),
    ];
    let scal_params: [QuadParams<F>; L] =
        core::array::from_fn(|i| QuadParams::from_input(&inputs[i]));
    let states: [State<F>; L] = core::array::from_fn(|i| hover(&inputs[i]));
    let forces: [[F; 4]; L] =
        core::array::from_fn(|i| [f(inputs[i].mass.0 * 9.81 / 4.0 * 1.05); 4]);

    let n_sub = 8;
    let dt = 0.005;
    let mut scal_next = [states[0]; L];
    for i in 0..L {
        let veh: Multirotor<F, RotorForce> = Multirotor::with_substeps(&inputs[i], n_sub);
        scal_next[i] = veh.step(&states[i], &forces[i], f(dt));
    }

    let bp = pack_params(&scal_params);
    let bs = pack_state(&states);
    let bf = pack_rotor_forces(&forces);
    let raw = RotorForce::cmd_rotor_speeds(&bp, &bs, &bf);
    let speeds = clip_speeds(&bp, raw);
    let bn = integrate(&bp, &bs, &speeds, F64x([f(dt); L]), n_sub);

    for l in 0..L {
        let got = unpack_state_lane(&bn, l);
        let want = scal_next[l];
        let dp = ((got.x.x.0 - want.x.x.0).powi(2)
            + (got.x.y.0 - want.x.y.0).powi(2)
            + (got.x.z.0 - want.x.z.0).powi(2))
        .sqrt();
        assert!(dp < 1e-12, "lane {l} pos mismatch: {dp}");
        for r in 0..4 {
            assert!((got.rotor_speeds[r].0 - want.rotor_speeds[r].0).abs() < 1e-9);
        }
    }
}

#[test]
fn state_survives_packing() {
    let s = hover(&drone(0.5, 5.57e-6, 0.005));
    let p = s.pack();
    let back = State::unpack(&p);
    assert_eq!(back.pack(), p);
    assert_eq!(p[2], f(1.5));
    assert_eq!(p[9], f(1.0));
    assert_eq!(p[19], s.rotor_speeds[3]);
}

#[test]
fn hover_forces_hold_the_drone() {
    let input = hummingbird::<F>();
    let mut d = WasmDrone::new(input, 8);
    let per = d.hover_force();
    assert!(approx(per, 0.5 * 9.81 / 4.0, 1e-15));
    for _ in 0..100 {
        d.step_rotor_force(&[per, per, per, per], f(0.01));
    }
    let s = d.state();
    assert_eq!(s.len(), 17);
    assert!((s[2].0 - 1.5).abs() < 1e-6, "altitude {}", s[2].0);
    assert!(s[9].0 > 0.999999);
    assert!((d.hover_rpm().0 - s[13].0).abs() < 1e-6);
}

#[test]
fn thrust_command_climbs_and_wind_stays() {
    let mut d = WasmDrone::new(hummingbird::<F>(), 0);
    d.set_wind(f(1.0), f(-2.0), f(0.5));
    for _ in 0..20 {
        d.step_ctbr(f(0.5 * 9.81 * 1.5), f(0.0), f(0.0), f(0.0), f(0.01));
    }
    assert!(d.state()[2].0 > 1.5);
    assert_eq!(d.state.wind.to_array(), [f(1.0), f(-2.0), f(0.5)]);
    assert_eq!(d.n_sub, 1);
}

#[test]
fn a_set_state_reads_back_normalized() {
    let mut d = WasmDrone::new(hummingbird::<F>(), 4);
    d.set_wind(f(3.0), f(0.0), f(0.0));
    let mut a: Vec<F> = (0..17).map(|i| f(i as f64)).collect();
    a[6] = f(0.0);
    a[7] = f(0.0);
    a[8] = f(3.0);
    a[9] = f(4.0);
    d.set_state(&a);
    let s = d.state();
    assert!(approx(s[8], 0.6, 1e-15) && approx(s[9], 0.8, 1e-15));
    assert_eq!((s[0], s[5], s[12], s[16]), (a[0], a[5], a[12], a[16]));
    assert_eq!(d.state.wind.x, f(3.0));
    assert_eq!(d.state_jepa().len(), 18);
    assert!(approx(d.state_jepa()[6], 1.0 - 2.0 * 0.36, 1e-12));
    d.set_mass(f(0.9));
    assert_eq!(d.params.mass, f(0.9));
    assert_eq!(d.params.weight.z, f(-0.9 * 9.81));
    d.reset_hover(f(1.0), f(2.0), f(3.0));
    assert_eq!(&d.state()[0..3], &[f(1.0), f(2.0), f(3.0)]);
    d.set_params(drone(0.7, 6.0e-6, 0.01));
    assert_eq!(d.input.mass, f(0.7));
}

#[test]
fn rotor_speeds_are_cut_to_the_motor_range() {
    let input = drone(0.5, 5.57e-6, 0.005);
    let veh: Multirotor<F, RotorForce> = Multirotor::new(&input);
    let s = hover(&input);
    let cut = veh.clipped_cmd_speeds(&s, &[f(1e6), f(-1.0), f(0.0), f(5.57e-6 * 400.0)]);
    assert_eq!(cut[0], f(1500.0));
    assert_eq!(cut[1], f(0.0));
    assert_eq!(cut[2], f(0.0));
    assert!(approx(cut[3], 20.0, 1e-9));
    let next = veh.step(&s, &[f(1e6); 4], f(10.0));
    for r in 0..4 {
        assert!(next.rotor_speeds[r].0 <= 1500.0 && next.rotor_speeds[r].0 >= 0.0);
    }
}

#[test]
fn derivative_of_hover_is_at_rest() {
    let input = drone(0.5, 5.57e-6, 0.005);
    let mut s = hover(&input);
    s.v = Vec3::zero();
    s.w = Vec3::zero();
    let veh: Multirotor<F, Ctbr> = Multirotor::new(&input);
    let cmd = CtbrCmd { thrust: f(0.5 * 9.81), w_cmd: Vec3::zero() };
    let d = veh.state_derivative(&s, &cmd);
    for i in 0..16 {
        assert!(d[i].0.abs() < 1e-9, "entry {i}: {}", d[i].0);
    }
}

#[test]
fn the_rotor_gain_stays_out_of_the_commands() {
    let input = drone(0.5, 5.57e-6, 0.005);
    let s = hover(&input);
    let gain = [f(0.5), f(1.1), f(0.9), f(1.0)];
    let mut a: Multirotor<F, RotorForce> = Multirotor::new(&input);
    let mut b: Multirotor<F, Ctbr> = Multirotor::new(&input);
    let forces = [f(1.0), f(1.5), f(0.5), f(2.0)];
    let cmd = CtbrCmd { thrust: f(5.0), w_cmd: v3(0.3, -0.2, 0.1) };
    let told = (a.clipped_cmd_speeds(&s, &forces), b.clipped_cmd_speeds(&s, &cmd));
    a.set_rotor_gain(gain);
    b.set_rotor_gain(gain);
    assert_eq!((a.clipped_cmd_speeds(&s, &forces), b.clipped_cmd_speeds(&s, &cmd)), told);
    assert_eq!(a.params.rotor_gain, gain);
    // but the thrust feels it
    let (f1, _) = body_wrench(&a.params, Vec3::zero(), &[f(500.0); 4], Vec3::zero());
    assert!(approx(f1.z, 3.5 * 5.57e-6 * 250000.0, 1e-12));
}

#[test]
fn no_substeps_are_one_substep() {
    let input = drone(0.5, 5.57e-6, 0.005);
    let p = QuadParams::from_input(&input);
    let s = hover(&input);
    let a = integrate(&p, &s, &[f(520.0); 4], f(0.01), 0);
    let b = integrate(&p, &s, &[f(520.0); 4], f(0.01), 1);
    assert_eq!(a.pack(), b.pack());
}

#[test]
fn a_weak_rotor_tips_the_drone() {
    let input = drone(0.5, 5.57e-6, 0.005);
    let mut veh: Multirotor<F, RotorForce> = Multirotor::with_substeps(&input, 8);
    veh.set_rotor_gain([f(0.5), f(1.0), f(1.0), f(1.0)]);
    let mut s = hover(&input);
    s.w = Vec3::zero();
    let per = f(0.5 * 9.81 / 4.0);
    let next = veh.step(&s, &[per; 4], f(0.05));
    assert!(next.w.x.0 < 0.0 && next.w.y.0 > 0.0);
}

#[test]
fn rotor_forces_add_up_to_the_command() {
    let p = QuadParams::from_input(&drone(0.5, 5.57e-6, 0.005));
    let (thrust, roll) = (3.0, 0.02);
    let force = p.tm_to_f.matvec([f(thrust), f(roll), f(0.0), f(0.0)]);
    let sum: f64 = force.iter().map(|x| x.0).sum();
    assert!((sum - thrust).abs() < 1e-12);
    let mx: f64 = (0..4).map(|i| force[i].0 * p.rotor_pos[i].y.0).sum();
    let my: f64 = (0..4).map(|i| force[i].0 * -p.rotor_pos[i].x.0).sum();
    assert!((mx - roll).abs() < 1e-12 && my.abs() < 1e-12);
    let back = p.inertia.matvec(p.inv_inertia.matvec(v3(1.0, 2.0, 3.0)));
    assert!(approx(back.x, 1.0, 1e-12) && approx(back.y, 2.0, 1e-12) && approx(back.z, 3.0, 1e-12));
}

#[test]
fn the_allocation_undoes_the_wrench_of_the_rotors() {
    let input = drone(0.5, 5.57e-6, 0.005);
    let veh: Multirotor<F, RotorForce> = Multirotor::new(&input);
    let mut s = hover(&input);
    s.q = Quat::new(f(0.0), f(0.0), f(0.0), f(1.0));
    s.v = Vec3::zero();
    s.w = Vec3::zero();
    s.wind = Vec3::zero();
    let speeds = [400.0, 520.0, 610.0, 455.0];
    s.rotor_speeds = [f(speeds[0]), f(speeds[1]), f(speeds[2]), f(speeds[3])];
    let d = veh.state_derivative(&s, &[f(1.0); 4]);
    assert!(d[3].0.abs() < 1e-12 && d[4].0.abs() < 1e-12, "no push sideways");
    let thrust = (d[5].0 + 9.81) * 0.5;
    let m = veh.params.inertia.matvec(Vec3::new(d[10], d[11], d[12]));
    let back = veh.params.tm_to_f.matvec([f(thrust), m.x, m.y, m.z]);
    for j in 0..4 {
        let want = 5.57e-6 * speeds[j] * speeds[j];
        assert!(approx(back[j], want, 1e-9), "rotor {j}: {} {want}", back[j].0);
    }
}

#[test]
fn a_commanded_speed_gives_the_force() {
    let input = drone(0.5, 5.57e-6, 0.005);
    let p = QuadParams::from_input(&input);
    let s = hover(&input);
    let want = [1.3, -0.7, 0.0, 2.9];
    let r = RotorForce::cmd_rotor_speeds(&p, &s, &[f(want[0]), f(want[1]), f(want[2]), f(want[3])]);
    for j in 0..4 {
        let got = 5.57e-6 * r[j].0 * r[j].0.abs();
        assert!((got - want[j]).abs() < 1e-12, "{got}");
    }
}

// --- gates -----------------------------------------------------------------------

#[test]
fn a_gate_is_passed_from_either_side_inside_its_ring() {
    let g = Gate::new(v3(0.0, 0.0, 2.0), v3(2.0, 0.0, 0.0), f(0.5));
    assert_eq!(g.normal.to_array(), [f(1.0), f(0.0), f(0.0)]);
    let (a, b) = (v3(-1.0, 0.1, 2.0), v3(1.0, 0.2, 2.1));
    assert!(g.crossed(a, b) && g.crossed(b, a));
    // outside the ring, on one side, along the plane
    assert!(!g.crossed(v3(-1.0, 3.0, 2.0), v3(1.0, 3.0, 2.0)));
    assert!(!g.crossed(v3(-2.0, 0.0, 2.0), v3(-1.0, 0.0, 2.0)));
    assert!(!g.crossed(v3(0.0, -1.0, 2.0), v3(0.0, 1.0, 2.0)));
    assert_eq!(g.signed_plane_dist(v3(3.0, 9.0, 9.0)), f(3.0));
    assert_eq!(g.radial_offset(v3(7.0, 3.0, 6.0)), f(5.0));
    // no normal at all: the x axis
    let n = Gate::new(v3(0.0, 0.0, 0.0), Vec3::zero(), f(1.0)).normal;
    assert_eq!(n.to_array(), [f(1.0), f(0.0), f(0.0)]);
}

#[test]
fn a_course_counts_gates_in_order() {
    let gates: Vec<Gate<F>> = (0..3)
        .map(|i| Gate::new(v3(i as f64, 0.0, 1.0), v3(1.0, 0.0, 0.0), f(1.0)))
        .collect();
    let mut c = Course::new(gates.clone(), false);
    assert!(!c.advance(v3(0.5, 0.0, 1.0), v3(1.5, 0.0, 1.0))); // the second one is not due
    assert!(c.advance(v3(-0.5, 0.0, 1.0), v3(0.5, 0.0, 1.0)));
    assert_eq!(c.gates_passed(), 1);
    assert_eq!(c.target().unwrap().center.x, f(1.0));
    assert!(c.advance(v3(0.5, 0.0, 1.0), v3(1.5, 0.0, 1.0)));
    assert!(c.advance(v3(1.5, 0.0, 1.0), v3(2.5, 0.0, 1.0)));
    assert!(c.finished() && c.target().is_none());
    assert!(!c.advance(v3(2.5, 0.0, 1.0), v3(1.5, 0.0, 1.0)));
    assert_eq!(c.gates_passed(), 3);

    let mut l = Course::new(gates, true);
    for i in 0..3 {
        let x = i as f64;
        assert!(l.advance(v3(x - 0.5, 0.0, 1.0), v3(x + 0.5, 0.0, 1.0)));
    }
    assert!(!l.finished());
    assert_eq!((l.next, l.laps_completed, l.gates_passed()), (0, 1, 3));
    let copy = l.copy();
    assert_eq!((copy.next, copy.laps_completed, copy.gates.len()), (0, 1, 3));
}

// --- tracking --------------------------------------------------------------------

fn at_rest(z: f64) -> FlatRef<F> {
    FlatRef {
        x: v3(0.0, 0.0, z),
        x_dot: Vec3::zero(),
        x_ddot: Vec3::zero(),
        yaw: f(0.0),
        yaw_dot: f(0.0),
    }
}

#[test]
fn se3_control_hovers_on_its_reference() {
    let input = drone(0.5, 5.57e-6, 0.005);
    let c = Se3Control::new(&input);
    let mut s = hover(&input);
    s.v = Vec3::zero();
    s.w = Vec3::zero();
    let force = c.update(&s, &at_rest(1.5));
    for i in 0..4 {
        assert!(approx(force[i], 0.5 * 9.81 / 4.0, 1e-12));
    }
    // above the reference: less thrust
    assert!(c.update(&s, &at_rest(1.0))[0].0 < force[0].0);
    let (thrust, rate) = c.ctbr_seed(&s, &at_rest(1.5), f(0.2), f(5.0));
    assert!(approx(thrust, 0.5 * 9.81, 1e-12));
    assert!(rate.norm().0 < 1e-12);
}

#[test]
fn nmpc_hovers_on_its_reference_and_climbs_to_it() {
    let input = drone(0.5, 5.57e-6, 0.005);
    let mut s = hover(&input);
    s.v = Vec3::zero();
    s.w = Vec3::zero();
    let mut c = Nmpc::new(&input, f(0.05), 5);
    let refs: Vec<FlatRef<F>> = (0..6).map(|_| at_rest(1.5)).collect();
    let force = c.update(&s, &refs);
    for i in 0..4 {
        assert!(approx(force[i], 0.5 * 9.81 / 4.0, 1e-6), "{}", force[i].0);
    }
    let mut up = Nmpc::new(&input, f(0.05), 5);
    let high: Vec<FlatRef<F>> = (0..6).map(|_| at_rest(2.5)).collect();
    let lifted = up.update(&s, &high);
    assert!(lifted[0].0 > force[0].0);
}

#[test]
fn nmpc_never_asks_for_downward_thrust() {
    let input = drone(0.5, 5.57e-6, 0.005);
    let mut c = Nmpc::new(&input, f(0.05), 5);
    let mut s = hover(&input);
    s.w = Vec3::zero();
    let low: Vec<FlatRef<F>> = (0..6).map(|_| at_rest(-40.0)).collect();
    for k in 0..6 {
        s.v = v3(0.1 * k as f64, 0.0, 3.0);
        let force = c.update(&s, &low);
        let thrust: f64 = force.iter().map(|x| x.0).sum();
        assert!(thrust >= -1e-9, "{thrust}");
        assert!(c.u_prev.iter().all(|u| u[0].0 >= 0.0));
    }
}

// --- arithmetic ------------------------------------------------------------------

#[test]
fn clip_holds_between_bounds() {
    assert_eq!(clip(f(-3.0), f(-1.0), f(2.0)), f(-1.0));
    assert_eq!(clip(f(3.0), f(-1.0), f(2.0)), f(2.0));
    assert_eq!(clip(f(0.5), f(-1.0), f(2.0)), f(0.5));
    assert!(clip(f(f64::NAN), f(-1.0), f(2.0)).0.is_nan());
    assert_eq!(f(5.0).clamp(f(0.0), f(1.0)), f(1.0));
}

#[test]
fn lanes_compute_side_by_side() {
    let a = F64x([f(1.0), f(-4.0)]);
    let b = F64x([f(3.0), f(2.0)]);
    assert_eq!(a.add(b).0, [f(4.0), f(-2.0)]);
    assert_eq!(a.mul(b).0, [f(3.0), f(-8.0)]);
    assert_eq!(a.div(b).0, [f(1.0 / 3.0), f(-2.0)]);
    assert_eq!(a.min(b).0, [f(1.0), f(-4.0)]);
    assert_eq!(a.abs().sqrt().0, [f(1.0), f(2.0)]);
    assert_eq!(a.signum().0, [f(1.0), f(-1.0)]);
    assert_eq!(F64x::<F, 2>::splat(1, 4).0, [f(0.25), f(0.25)]);
    assert_eq!(a.sub(b).neg().0, [f(2.0), f(6.0)]);
    assert_eq!(a.max(b).0, [f(3.0), f(2.0)]);
}

#[test]
fn the_generator_is_reproducible() {
    let (mut a, mut b) = (Rng::new(7), Rng::new(7));
    for _ in 0..50 {
        let (x, y): (F, F) = (a.uniform(), b.uniform());
        assert_eq!(x, y);
        assert!(x.0 >= 0.0 && x.0 < 1.0);
    }
    let (x, y): (F, F) = (a.normal(), b.normal());
    assert_eq!(x, y);
    assert_ne!(Rng::new(1).next_u64(), Rng::new(2).next_u64());
    for seed in [0, 1, 0x9E3779B97F4A7C15, u64::MAX] {
        let mut r = Rng::new(seed);
        assert!((0..1000).all(|_| r.next_u64() != 0));
    }
    // xorshift64* from the seed by hand
    let mut s: u64 = (3u64 ^ 0x9E3779B97F4A7C15) | 1;
    s ^= s >> 12;
    s ^= s << 25;
    s ^= s >> 27;
    assert_eq!(Rng::new(3).next_u64(), s.wrapping_mul(0x2545F4914F6CDD1D));
}
