//! Sampling planners: weights, candidates, costs and the fan of splines.
use drone_jepa::control::CtbrCmd;
use drone_jepa::gates::{Course, Gate};
use drone_jepa::linalg::Vec3;
use drone_jepa::mppi::{
    rollout_cost, Controller, MppiConfig, MppiController, RolloutModel, TrueDynamics,
};
use drone_jepa::params::QuadParamsInput;
use drone_jepa::rng::Rng;
use drone_jepa::sampling::{ar_noise, guard_cost, smear_of, softmax, ActionSpace};
use drone_jepa::scalar::{Real, Scalar};
use drone_jepa::spline_mppi::{build_splines, FAN, POINTS};
use drone_jepa::state::State;

/// Double precision as the arithmetic of the library.
#[derive(Clone, Copy, Debug, PartialEq)]
struct F(f64);

fn f(x: f64) -> F {
    F(x)
}

impl Scalar for F {
    fn zero() -> Self {
        F(0.0)
    }
    fn one() -> Self {
        F(1.0)
    }
    fn splat(num: i128, den: u64) -> Self {
        F(num as f64 / den as f64)
    }
    fn add(self, o: Self) -> Self {
        F(self.0 + o.0)
    }
    fn sub(self, o: Self) -> Self {
        F(self.0 - o.0)
    }
    fn mul(self, o: Self) -> Self {
        F(self.0 * o.0)
    }
    fn div(self, o: Self) -> Self {
        F(self.0 / o.0)
    }
    fn neg(self) -> Self {
        F(-self.0)
    }
    fn sqrt(self) -> Self {
        F(self.0.sqrt())
    }
    fn abs(self) -> Self {
        F(self.0.abs())
    }
    fn signum(self) -> Self {
        F(1f64.copysign(self.0))
    }
    fn min(self, o: Self) -> Self {
        F(self.0.min(o.0))
    }
    fn max(self, o: Self) -> Self {
        F(self.0.max(o.0))
    }
}

impl Real for F {
    fn lt(self, o: Self) -> bool {
        self.0 < o.0
    }
    fn le(self, o: Self) -> bool {
        self.0 <= o.0
    }
    fn is_finite(self) -> bool {
        self.0.is_finite()
    }
    fn infinity() -> Self {
        F(f64::INFINITY)
    }
    fn nan() -> Self {
        F(f64::NAN)
    }
    fn pi() -> Self {
        F(std::f64::consts::PI)
    }
    fn exp(self) -> Self {
        F(self.0.exp())
    }
    fn ln(self) -> Self {
        F(self.0.ln())
    }
    fn sin(self) -> Self {
        F(self.0.sin())
    }
    fn cos(self) -> Self {
        F(self.0.cos())
    }
    fn tanh(self) -> Self {
        F(self.0.tanh())
    }
}

fn v3(x: f64, y: f64, z: f64) -> Vec3<F> {
    Vec3::new(f(x), f(y), f(z))
}

fn bird() -> QuadParamsInput<F> {
    let mut p = drone_jepa::drone::hummingbird::<F>();
    p.k_w = f(16.0);
    p
}

fn hovering(z: f64) -> State<F> {
    drone_jepa::drone::hover_state(&bird(), f(0.0), f(0.0), f(z))
}

fn ahead(x: f64) -> Course<F> {
    Course::new(vec![Gate::new(v3(x, 0.0, 1.5), v3(1.0, 0.0, 0.0), f(1.0))], false)
}

#[test]
fn softmax_prefers_the_cheapest() {
    let w = softmax(&vec![f(1.0), f(2.0), f(1.0)], f(0.5));
    let sum: f64 = w.iter().map(|x| x.0).sum();
    assert!((sum - 1.0).abs() < 1e-12);
    assert_eq!(w[0], w[2]);
    assert!((w[1].0 / w[0].0 - (-2f64).exp()).abs() < 1e-12);
}

#[test]
fn weights_of_costs_far_apart_are_shares() {
    // the difference of the costs overflows
    let w = softmax(&vec![f(-1.7e308), f(1.7e308), f(1e12)], f(0.5));
    assert_eq!(w, vec![f(1.0), f(0.0), f(0.0)]);
}

#[test]
fn double_precision_is_floating() {
    let huge = 1152921504606846976.0f64;
    for b in [0.0, 1e-300, 0.5, 1.0, 7.999, 8.0] {
        for a in [0.0, 1.0, huge - 128.0, huge] {
            assert!(a + b <= huge && a + b >= a && a + b >= b);
            assert!(-a - b >= -huge && (b - a).abs() <= huge);
        }
    }
    for b in [1.0, 1.1, 3.0, 49.0, 1e10 + 7.0, huge] {
        for a in [0.0, 0.3, 1.0, b * 0.999, b] {
            assert!(a * (1.0 / b) >= 0.0 && a * (1.0 / b) <= 1.0);
        }
    }
    for x in [-0.0, 0.0, -1e-320, -1e-9, -1.0, -1e308, f64::NEG_INFINITY] {
        assert!(x.exp() >= 0.0 && x.exp() <= 1.0);
    }
    assert_eq!(((0.0f64).exp(), (-0.0f64).exp()), (1.0, 1.0));
    for a in [0.0, 1e-320, 0.1, 0.999, 1.0f64] {
        assert!(1.0 - a * a >= 0.0 && (1.0 - a * a).sqrt() <= 1.0);
        assert!((a * f64::MAX).is_finite() && (a * f64::MAX) <= f64::MAX);
    }
    assert!(!(f64::MAX + f64::MAX).is_nan() && !(f64::MAX * -f64::MAX).is_nan());
    let mut r = Rng::new(11);
    for _ in 0..2000 {
        let x: F = r.normal();
        assert!(x.0.abs() <= 8.0);
    }
}

#[test]
fn a_blown_up_cost_is_guarded() {
    assert_eq!(guard_cost(f(3.5)), f(3.5));
    assert_eq!(guard_cost(f(f64::NAN)), f(1e12));
    assert_eq!(guard_cost(f(f64::INFINITY)), f(1e12));
}

#[test]
fn noise_is_correlated_in_time() {
    let beta = 0.9;
    let smear = smear_of(f(beta));
    assert!((smear.0 - (1.0f64 - 0.81).sqrt()).abs() < 1e-15);
    let mut a = Rng::new(3);
    let n = ar_noise(&mut a, f(beta), smear, 3);
    // the same draws, by hand
    let mut b = Rng::new(3);
    let mut e = [0.0; 4];
    for k in 0..3 {
        for d in 0..4 {
            let z: F = b.normal();
            e[d] = beta * e[d] + smear.0 * z.0;
            assert_eq!(n[k][d], f(e[d]));
        }
    }
    assert_eq!(a.next_u64(), b.next_u64());
}

#[test]
fn candidates_and_plans_stay_within_the_limits() {
    let space = ActionSpace {
        sigma: [f(5.0); 4],
        lo: [f(0.0), f(-1.0), f(-1.0), f(-1.0)],
        hi: [f(2.0), f(1.0), f(1.0), f(1.0)],
    };
    assert_eq!(space.clamp([f(9.0), f(-9.0), f(0.5), f(1.0)]), [f(2.0), f(-1.0), f(0.5), f(1.0)]);
    let nominal = vec![[f(1.0), f(0.0), f(0.0), f(0.0)]; 6];
    let mut r = Rng::new(11);
    let c = space.draw_candidates(&mut r, &nominal, f(0.8), 6, 32);
    assert_eq!(c.len(), 32);
    let mut cut = false;
    for seq in &c {
        assert_eq!(seq.len(), 6);
        for a in seq {
            for d in 0..4 {
                assert!(space.lo[d].0 <= a[d].0 && a[d].0 <= space.hi[d].0);
                cut = cut || a[d] == space.hi[d];
            }
        }
    }
    assert!(cut, "the limits are reached");
    let w = softmax(&(0..32).map(|i| f(i as f64)).collect(), f(1.0));
    let plan = space.plan(&c, &w, 6);
    let mean: f64 = (0..32).map(|i| w[i].0 * c[i][2][1].0).sum();
    assert!((plan[2][1].0 - mean).abs() < 1e-12);
}

#[test]
fn defaults_scale_with_mass() {
    let c = MppiConfig::for_mass(f(0.5));
    assert_eq!(c.hover_thrust, f(0.5 * 9.81));
    assert_eq!(c.thrust_max, f(4.0 * (0.5 * 9.81)));
    assert_eq!((c.samples, c.horizon), (256, 25));
    assert_eq!(c.rate_max, f(12.0));
    assert!(c.v_max.0.is_infinite());
}

#[test]
fn the_cost_rewards_progress_and_a_passed_gate() {
    let mut c = MppiConfig::for_mass(f(0.5));
    c.w_effort = f(0.0);
    let course = ahead(1.0);
    let still = vec![v3(0.0, 0.0, 1.5); 3];
    let fast: Vec<Vec3<F>> = (1..4).map(|k| v3(0.5 * k as f64, 0.0, 1.5)).collect();
    let eff = vec![f(0.0); 3];
    let slow_cost = rollout_cost(v3(0.0, 0.0, 1.5), &still, &eff, &course, &c);
    let fast_cost = rollout_cost(v3(0.0, 0.0, 1.5), &fast, &eff, &course, &c);
    assert!(fast_cost.0 < slow_cost.0 - 70.0);
    // standing still costs the distance that is left
    assert!((slow_cost.0 - 1.0).abs() < 1e-12, "{}", slow_cost.0);
    // nothing is asked of an empty rollout
    assert_eq!(rollout_cost(v3(0.0, 0.0, 1.5), &vec![], &vec![], &course, &c), f(0.0));
}

#[test]
fn true_dynamics_roll_out_the_vehicle() {
    let m = TrueDynamics::new(&bird(), 8);
    let hover = CtbrCmd { thrust: f(0.5 * 9.81), w_cmd: Vec3::zero() };
    let climb = CtbrCmd { thrust: f(0.5 * 9.81 * 2.0), w_cmd: Vec3::zero() };
    let s = hovering(1.5);
    let mut out = Vec::new();
    m.rollout(&s, &[hover; 5], f(0.05), &mut out);
    assert_eq!(out.len(), 5);
    assert!((out[4].z.0 - 1.5).abs() < 1e-9);
    let (trajs, trust) = m.rollout_batch_trust(&s, &[vec![hover; 5], vec![climb; 5]], f(0.05));
    assert_eq!(trajs[0][4].to_array(), out[4].to_array());
    assert!(trajs[1][4].z.0 > 1.55);
    assert_eq!(trust, vec![f(0.0), f(0.0)]);
}

#[test]
fn the_planner_flies_toward_its_gate() {
    let mut cfg = MppiConfig::for_mass(f(0.5));
    cfg.samples = 64;
    cfg.horizon = 12;
    let mut c = MppiController::new(TrueDynamics::new(&bird(), 8), cfg, 1);
    let veh = TrueDynamics::new(&bird(), 8).veh;
    let course = ahead(6.0);
    let mut s = hovering(1.5);
    for _ in 0..15 {
        let a = c.act(&s, &course);
        assert!(a.thrust.0 >= 0.0 && a.thrust.0 <= cfg.thrust_max.0);
        assert!(a.w_cmd.x.0.abs() <= cfg.rate_max.0);
        let prev = s;
        s = veh.step(&s, &a, f(0.05));
        c.observe(&prev, &a);
    }
    assert!(s.x.x.0 > 0.3, "x = {}", s.x.x.0);
    c.reset_nominal();
    assert_eq!(c.nominal.len(), 12);
    assert_eq!(c.nominal[3].thrust, cfg.hover_thrust);
    c.set_nominal_const(CtbrCmd { thrust: f(1.0), w_cmd: v3(1.0, 2.0, 3.0) });
    assert_eq!(c.nominal[11].w_cmd.z, f(3.0));
}

/// A model whose predictions are beyond use.
struct Lost;

impl RolloutModel<F> for Lost {
    fn rollout(
        &self,
        _init: &State<F>,
        actions: &[CtbrCmd<F>],
        _dt: F,
        out: &mut Vec<Vec3<F>>,
    ) {
        *out = (0..actions.len())
            .map(|k| if k % 2 == 0 { v3(f64::NAN, 0.0, 1.0) } else { v3(f64::INFINITY, 0.0, 0.0) })
            .collect();
    }
    fn rollout_batch_trust(
        &self,
        init: &State<F>,
        seqs: &[Vec<CtbrCmd<F>>],
        dt: F,
    ) -> (Vec<Vec<Vec3<F>>>, Vec<F>) {
        (self.rollout_batch(init, seqs, dt), vec![f(f64::NEG_INFINITY); seqs.len()])
    }
    fn observe(&mut self, _state: &State<F>, _action: &CtbrCmd<F>) {}
}

#[test]
fn a_lost_model_does_not_lead_out_of_the_limits() {
    let mut cfg = MppiConfig::for_mass(f(0.5));
    cfg.samples = 16;
    cfg.horizon = 6;
    cfg.trust_lambda = f(1.0);
    let mut c = MppiController::new(Lost, cfg, 4);
    for _ in 0..5 {
        let a = c.act(&hovering(1.5), &ahead(4.0));
        assert!(a.thrust.0 >= cfg.thrust_min.0 && a.thrust.0 <= cfg.thrust_max.0);
        for w in a.w_cmd.to_array() {
            assert!(w.0.abs() <= cfg.rate_max.0);
        }
        assert!(c.nominal.iter().all(|n| n.thrust.0.is_finite()));
    }
}

#[test]
fn the_fan_runs_from_the_drone_to_its_gate() {
    let g = Gate::new(v3(4.0, 1.0, 3.0), v3(1.0, 0.0, 0.0), f(1.0));
    let (pts, tan, prog) = build_splines(v3(0.0, 0.0, 1.5), v3(1.0, 0.0, 0.0), &g);
    assert_eq!(pts.len(), FAN * POINTS);
    assert_eq!(tan.len(), pts.len());
    assert_eq!(prog.len(), pts.len());
    for k in 0..FAN {
        let (a, b) = (pts[k * POINTS], pts[k * POINTS + POINTS - 1]);
        assert!(a.sub(v3(0.0, 0.0, 1.5)).norm().0 < 1e-12);
        assert!(b.sub(g.center).norm().0 < 1e-12);
        let t = tan[k * POINTS + POINTS - 1];
        assert!((t.x.0 - 1.0).abs() < 1e-9, "arrives along the normal");
    }
    // from the other side, and moving
    let v = v3(-1.0, 2.0, 2.0);
    let (_, tan, _) = build_splines(v3(9.0, 1.0, 2.0), v, &g);
    for k in 0..FAN {
        let (a, b) = (tan[k * POINTS], tan[k * POINTS + POINTS - 1]);
        assert!(a.scale(f(3.0)).sub(v).norm().0 < 1e-12, "leaves along its velocity");
        assert!(b.sub(v3(-1.0, 0.0, 0.0)).norm().0 < 1e-9, "arrives against the normal");
    }
    // slow: along the line to its gate
    let start = v3(4.0, -2.0, -1.0);
    let (_, tan, _) = build_splines(start, v3(0.1, 0.3, 0.0), &g);
    for k in 0..FAN {
        assert!(tan[k * POINTS].sub(v3(0.0, 0.6, 0.8)).norm().0 < 1e-12);
    }
}

#[test]
fn a_loop_of_one_gate_counts_there_and_back() {
    // a loop of one gate, flown there and back
    let g = Gate::new(v3(0.0, 0.0, 1.0), v3(0.0, 1.0, 0.0), f(1.0));
    let mut c = Course::new(vec![g], true);
    assert!(c.advance(v3(0.0, -1.0, 1.0), v3(0.0, 1.0, 1.0)));
    assert!(c.advance(v3(0.0, 1.0, 1.0), v3(0.0, -1.0, 1.0)));
    assert_eq!(c.gates_passed(), 2);
}
