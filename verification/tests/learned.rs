//! The world model, the policy, its training ground and the demonstrations.
use drone_jepa::blob::{read_short_text, read_u16, read_u32, read_u64};
use drone_jepa::control::CtbrCmd;
use drone_jepa::dki::{step_ctbr, step_rotor_force};
use drone_jepa::drone::{hover_state, hummingbird};
use drone_jepa::forecast::{
    enforce_forecast_clearance, forecast_ref, forecast_terrain_height, sample_forecast_drone,
    WasmForecast, FORECAST_AHEAD_STEPS,
};
use drone_jepa::gates::{Course, Gate};
use drone_jepa::jepa::SkyJepaLite;
use drone_jepa::linalg::Vec3;
use drone_jepa::mppi::{Controller, RolloutModel};
use drone_jepa::nn::{affine, gelu, sigmoid};
use drone_jepa::racer::{
    hover_cfg, hover_course, race_cfg, rotor_hover_cfg, rotor_race_cfg, Entrant, RaceParam,
    WasmRacer,
};
use drone_jepa::rl::{ctbr_of, forces_of, observation, RlPolicy, ACT_DIM, OBS_DIM};
use drone_jepa::rl_env::{sky_course, DroneEnv, Fleet, VecEnv};
use drone_jepa::rng::Rng;
use drone_jepa::rollout::{state_to_18, History, JepaRollout, Padding};
use drone_jepa::rotor_mppi::{RotorMppiConfig, RotorMppiController};
use drone_jepa::scalar::{Real, Scalar, Wide};
use drone_jepa::spline_mppi::{SplineMppiConfig, SplineMppiController};

/// Double precision as the arithmetic of the library.
#[derive(Clone, Copy, Debug, PartialEq)]
struct F(f64);

/// Single precision, for the networks.
#[derive(Clone, Copy, Debug, PartialEq)]
struct H(f32);

fn f(x: f64) -> F {
    F(x)
}

impl Scalar for F {
    fn zero() -> Self {
        F(0.0)
    }
    fn one() -> Self {
        F(1.0)
    }
    fn splat(num: i128, den: u64) -> Self {
        F(num as f64 / den as f64)
    }
    fn add(self, o: Self) -> Self {
        F(self.0 + o.0)
    }
    fn sub(self, o: Self) -> Self {
        F(self.0 - o.0)
    }
    fn mul(self, o: Self) -> Self {
        F(self.0 * o.0)
    }
    fn div(self, o: Self) -> Self {
        F(self.0 / o.0)
    }
    fn neg(self) -> Self {
        F(-self.0)
    }
    fn sqrt(self) -> Self {
        F(self.0.sqrt())
    }
    fn abs(self) -> Self {
        F(self.0.abs())
    }
    fn signum(self) -> Self {
        F(1f64.copysign(self.0))
    }
    fn min(self, o: Self) -> Self {
        F(self.0.min(o.0))
    }
    fn max(self, o: Self) -> Self {
        F(self.0.max(o.0))
    }
}

impl Real for F {
    fn lt(self, o: Self) -> bool {
        self.0 < o.0
    }
    fn le(self, o: Self) -> bool {
        self.0 <= o.0
    }
    fn is_finite(self) -> bool {
        self.0.is_finite()
    }
    fn infinity() -> Self {
        F(f64::INFINITY)
    }
    fn nan() -> Self {
        F(f64::NAN)
    }
    fn pi() -> Self {
        F(std::f64::consts::PI)
    }
    fn exp(self) -> Self {
        F(self.0.exp())
    }
    fn ln(self) -> Self {
        F(self.0.ln())
    }
    fn sin(self) -> Self {
        F(self.0.sin())
    }
    fn cos(self) -> Self {
        F(self.0.cos())
    }
    fn tanh(self) -> Self {
        F(self.0.tanh())
    }
}

impl Scalar for H {
    fn zero() -> Self {
        H(0.0)
    }
    fn one() -> Self {
        H(1.0)
    }
    fn splat(num: i128, den: u64) -> Self {
        H(num as f32 / den as f32)
    }
    fn add(self, o: Self) -> Self {
        H(self.0 + o.0)
    }
    fn sub(self, o: Self) -> Self {
        H(self.0 - o.0)
    }
    fn mul(self, o: Self) -> Self {
        H(self.0 * o.0)
    }
    fn div(self, o: Self) -> Self {
        H(self.0 / o.0)
    }
    fn neg(self) -> Self {
        H(-self.0)
    }
    fn sqrt(self) -> Self {
        H(self.0.sqrt())
    }
    fn abs(self) -> Self {
        H(self.0.abs())
    }
    fn signum(self) -> Self {
        H(1f32.copysign(self.0))
    }
    fn min(self, o: Self) -> Self {
        H(self.0.min(o.0))
    }
    fn max(self, o: Self) -> Self {
        H(self.0.max(o.0))
    }
}

impl Real for H {
    fn lt(self, o: Self) -> bool {
        self.0 < o.0
    }
    fn le(self, o: Self) -> bool {
        self.0 <= o.0
    }
    fn is_finite(self) -> bool {
        self.0.is_finite()
    }
    fn infinity() -> Self {
        H(f32::INFINITY)
    }
    fn nan() -> Self {
        H(f32::NAN)
    }
    fn pi() -> Self {
        H(std::f32::consts::PI)
    }
    fn exp(self) -> Self {
        H(self.0.exp())
    }
    fn ln(self) -> Self {
        H(self.0.ln())
    }
    fn sin(self) -> Self {
        H(self.0.sin())
    }
    fn cos(self) -> Self {
        H(self.0.cos())
    }
    fn tanh(self) -> Self {
        H(self.0.tanh())
    }
}

impl Wide for F {
    type Narrow = H;
    fn narrow(self) -> H {
        H(self.0 as f32)
    }
    fn widen(n: H) -> Self {
        F(n.0 as f64)
    }
    fn from_bits(bits: u64) -> Self {
        F(f64::from_bits(bits))
    }
    fn narrow_from_bits(bits: u32) -> H {
        H(f32::from_bits(bits))
    }
}

fn v3(x: f64, y: f64, z: f64) -> Vec3<F> {
    Vec3::new(f(x), f(y), f(z))
}

// --- weight files ----------------------------------------------------------------

/// Small weights that differ from one another.
struct Weights {
    scale: f32,
    state: u32,
}

impl Weights {
    fn next(&mut self) -> f32 {
        self.state = self.state.wrapping_mul(1664525).wrapping_add(1013904223);
        ((self.state >> 8) as f32 / 8388608.0 - 1.0) * self.scale
    }
}

fn text(out: &mut Vec<u8>, s: &str) {
    out.extend_from_slice(&(s.len() as u16).to_le_bytes());
    out.extend_from_slice(s.as_bytes());
}

fn record(out: &mut Vec<u8>, name: &str, shape: &[u32], data: &[f32]) {
    text(out, name);
    out.push(shape.len() as u8);
    for d in shape {
        out.extend_from_slice(&d.to_le_bytes());
    }
    for x in data {
        out.extend_from_slice(&x.to_le_bytes());
    }
}

/// A complete world model with small layers. `push` is the acceleration that the network
/// always adds.
fn jepa_blob(mode: &str, pos: &str, h: u32, t: u32, scale: f32, push: [f32; 3]) -> Vec<u8> {
    let mut w = Weights { scale, state: 9 };
    let mut body = Vec::new();
    let mut n: u32 = 0;
    let mut put = |body: &mut Vec<u8>, name: String, shape: &[u32], fixed: Option<Vec<f32>>| {
        let len: u32 = shape.iter().product();
        let data = match fixed {
            Some(d) => d,
            None => (0..len).map(|_| w.next()).collect(),
        };
        record(body, &name, shape, &data);
        n += 1;
    };
    for (root, cin) in [("state_encoder", 18u32), ("action_encoder", 4u32)] {
        for b in 0..3 {
            let c = if b == 0 { cin } else { 3 };
            let p = format!("{root}.tcn.blocks.{b}");
            put(&mut body, format!("{p}.conv.conv.weight"), &[3, c, 2], None);
            put(&mut body, format!("{p}.conv.conv.bias"), &[3], None);
            put(&mut body, format!("{p}.norm.weight"), &[3], Some(vec![1.0; 3]));
            put(&mut body, format!("{p}.norm.bias"), &[3], Some(vec![0.0; 3]));
            if b == 0 {
                put(&mut body, format!("{p}.res.weight"), &[3, c, 1], None);
                put(&mut body, format!("{p}.res.bias"), &[3], None);
            }
        }
    }
    put(&mut body, "predictor.h0.weight".into(), &[4, 3], None);
    put(&mut body, "predictor.h0.bias".into(), &[4], None);
    put(&mut body, "predictor.cell.weight_ih".into(), &[12, 6], None);
    put(&mut body, "predictor.cell.weight_hh".into(), &[12, 4], None);
    put(&mut body, "predictor.cell.bias_ih".into(), &[12], None);
    put(&mut body, "predictor.cell.bias_hh".into(), &[12], None);
    put(&mut body, "predictor.readout.weight".into(), &[3, 4], None);
    put(&mut body, "predictor.readout.bias".into(), &[3], None);
    put(&mut body, "prober.net.0.weight".into(), &[5, 25], None);
    put(&mut body, "prober.net.0.bias".into(), &[5], None);
    put(&mut body, "prober.net.2.weight".into(), &[5, 5], None);
    put(&mut body, "prober.net.2.bias".into(), &[5], None);
    put(&mut body, "prober.net.4.weight".into(), &[15, 5], None);
    let mut bias = vec![0.0; 15];
    bias[..3].copy_from_slice(&push);
    put(&mut body, "prober.net.4.bias".into(), &[15], Some(bias));
    put(&mut body, "state_mean".into(), &[18], Some(vec![0.0; 18]));
    put(&mut body, "state_std".into(), &[18], Some(vec![1.0; 18]));
    put(&mut body, "action_mean".into(), &[4], Some(vec![0.0; 4]));
    put(&mut body, "action_std".into(), &[4], Some(vec![1.0; 4]));

    let mut out = b"JBLOB1\n".to_vec();
    text(&mut out, mode);
    text(&mut out, pos);
    out.extend_from_slice(&h.to_le_bytes());
    out.extend_from_slice(&t.to_le_bytes());
    for x in [0.05f64, 1.2, 9.81] {
        out.extend_from_slice(&x.to_le_bytes());
    }
    out.extend_from_slice(&n.to_le_bytes());
    out.extend_from_slice(&body);
    out
}

fn model(mode: &str, h: u32, t: u32, scale: f32, push: [f32; 3]) -> SkyJepaLite<F> {
    let m = SkyJepaLite::<F>::parse(&jepa_blob(mode, "relative", h, t, scale, push)).unwrap();
    assert!(m.complete());
    m
}

/// A policy that answers with `bias` to anything.
fn policy_blob(bias: [f32; 4]) -> Vec<u8> {
    let mut out = b"RLB1\n".to_vec();
    for d in [OBS_DIM as u32, 3, ACT_DIM as u32, 6] {
        out.extend_from_slice(&d.to_le_bytes());
    }
    record(&mut out, "encoder.0.weight", &[3, 21], &[0.0; 63]);
    record(&mut out, "encoder.0.bias", &[3], &[0.1, -0.2, 0.3]);
    record(&mut out, "encoder.2.weight", &[3, 3], &[0.5; 9]);
    record(&mut out, "encoder.2.bias", &[3], &[0.0; 3]);
    record(&mut out, "decoder_mean.weight", &[4, 3], &[0.0; 12]);
    record(&mut out, "decoder_mean.bias", &[4], &bias);
    out
}

fn policy(bias: [f32; 4]) -> RlPolicy<F> {
    let p = RlPolicy::parse(&policy_blob(bias), f(1.0)).unwrap();
    assert!(p.complete());
    p
}

#[test]
fn numbers_are_little_endian() {
    let b = [1u8, 2, 3, 4, 5, 6, 7, 8];
    assert_eq!(read_u16(&b, 0), 0x0201);
    assert_eq!(read_u32(&b, 1), 0x05040302);
    assert_eq!(read_u64(&b, 0), 0x0807060504030201);
}

#[test]
fn names_are_utf8() {
    // length, then the bytes
    let good = [3u8, 0, 0xC3, 0xA9, b'x', 9];
    assert_eq!(read_short_text(&good, 0), Some(("\u{e9}x".to_string(), 5)));
    assert_eq!(read_short_text(&[0u8, 0], 0), Some((String::new(), 2)));
    // not UTF-8, cut short, no length
    assert_eq!(read_short_text(&[1u8, 0, 0xFF], 0), None);
    assert_eq!(read_short_text(&[4u8, 0, b'a', b'b'], 0), None);
    assert_eq!(read_short_text(&[4u8], 0), None);
}

#[test]
fn a_weight_file_is_read_or_refused() {
    let good = jepa_blob("rotor_force", "relative", 4, 6, 0.1, [0.0; 3]);
    let m = SkyJepaLite::<F>::parse(&good).unwrap();
    assert_eq!((m.h, m.t), (4, 6));
    assert_eq!((m.dt, m.m, m.g), (f(0.05), f(1.2), f(9.81)));
    assert!(!m.action_mode_ctbr && m.relative_pos);
    assert_eq!(m.trust_margin, f(0.0));
    let c = SkyJepaLite::<F>::from_blob(&jepa_blob("ctbr", "zero", 4, 6, 0.1, [0.0; 3]));
    assert!(c.action_mode_ctbr && !c.relative_pos);

    let mut magic = good.clone();
    magic[5] = b'2';
    assert!(SkyJepaLite::<F>::parse(&magic).is_none());
    let mut name = good.clone();
    name[9] = 0xFF; // inside the action mode
    assert!(SkyJepaLite::<F>::parse(&name).is_none());
    assert!(SkyJepaLite::<F>::parse(&good[..good.len() - 1]).is_none());
    assert!(SkyJepaLite::<F>::parse(&[]).is_none());
    // a table without the networks parses only if the statistics are there
    let mut bare = b"JBLOB1\n".to_vec();
    text(&mut bare, "ctbr");
    text(&mut bare, "relative");
    bare.extend_from_slice(&[0u8; 8 + 24 + 4]);
    assert!(SkyJepaLite::<F>::parse(&bare).is_none());
}

#[test]
fn an_incomplete_model_is_told_apart() {
    let mut m = model("rotor_force", 4, 6, 0.1, [0.0; 3]);
    m.h = 0;
    assert!(!m.complete());
    m.h = 4;
    assert!(m.complete());
    // one number short for a rotor-force step
    m.w = drone_jepa::blob::Table::new();
    assert!(!m.complete());
}

#[test]
fn a_policy_file_is_read_or_refused() {
    let good = policy_blob([0.0; 4]);
    let p = RlPolicy::<F>::from_blob(&good, f(0.5));
    assert_eq!((p.obs_dim, p.hidden, p.act_dim), (21, 3, 4));
    assert_eq!(p.hover_thrust, f(0.5 * 9.81));
    assert!(p.f_max.0.is_infinite());
    assert!(RlPolicy::<F>::parse(&good[..20], f(0.5)).is_none());
    assert!(RlPolicy::<F>::parse(&good[..good.len() - 2], f(0.5)).is_none());
    let mut other = good.clone();
    other[0] = b'X';
    assert!(RlPolicy::<F>::parse(&other, f(0.5)).is_none());
    // a tensor under another name
    let at = good.windows(9).position(|w| w == b"encoder.2").unwrap();
    let mut renamed = good;
    renamed[at] = b'f';
    assert!(RlPolicy::<F>::parse(&renamed, f(0.5)).is_none());
    let mut short = policy([0.0; 4]);
    short.hidden = 4;
    assert!(!short.complete());
}

// --- layers ----------------------------------------------------------------------

#[test]
fn activations_have_their_values() {
    assert_eq!(gelu::<F>(H(0.0)), H(0.0));
    assert!((gelu::<F>(H(1.0)).0 - 0.8413447).abs() < 1e-5);
    assert!((gelu::<F>(H(-1.0)).0 + 0.15865526).abs() < 1e-5);
    assert_eq!(sigmoid(H(0.0)), H(0.5));
    let y = affine(
        &vec![H(1.0), H(2.0), H(3.0), H(4.0)],
        &vec![H(10.0), H(20.0)],
        &vec![H(1.0), H(-1.0)],
        2,
        2,
    );
    assert_eq!(y, vec![H(9.0), H(19.0)]);
}

// --- kinematic steps -------------------------------------------------------------

fn level18() -> [F; 18] {
    let mut x = [f(0.0); 18];
    x[2] = f(2.0);
    x[6] = f(1.0);
    x[10] = f(1.0);
    x[14] = f(1.0);
    x
}

#[test]
fn kinematic_step_is_semi_implicit() {
    let z3 = [f(0.0); 3];
    // free fall
    let n = step_ctbr(&level18(), &[f(0.0); 4], &z3, &z3, f(0.1), f(1.0), f(9.81));
    assert!((n[5].0 + 0.981).abs() < 1e-12);
    assert!((n[2].0 - (2.0 - 0.0981)).abs() < 1e-12);
    // hover on four rotors, and a pure yaw acceleration
    let mut k = [f(0.0); 12];
    for i in 8..12 {
        k[i] = f(1.0);
    }
    let a = [f(9.81 / 4.0); 4];
    let n = step_rotor_force(&level18(), &a, &z3, &k, f(0.1), f(1.0), f(9.81));
    assert!((n[2].0 - 2.0).abs() < 1e-12 && n[5].0.abs() < 1e-12);
    assert!((n[17].0 - 0.981).abs() < 1e-12);
    // a quarter turn about z
    let mut x = level18();
    x[17] = f(std::f64::consts::FRAC_PI_2);
    let n = step_ctbr(&x, &[f(9.81), f(0.0), f(0.0), f(0.0)], &z3, &z3, f(1.0), f(1.0), f(9.81));
    assert!(n[6].0.abs() < 1e-12 && (n[7].0 + 1.0).abs() < 1e-12 && (n[9].0 - 1.0).abs() < 1e-12);
}

// --- the world model -------------------------------------------------------------

#[test]
fn a_model_without_weights_predicts_physics() {
    let m = model("rotor_force", 3, 4, 0.0, [0.5, 0.0, 0.0]);
    let s = state_to_18(&hover_state(&hummingbird::<F>(), f(1.0), f(2.0), f(3.0)));
    let a = [f(1.2 * 9.81 / 4.0); 4];
    let p = m.predict_batch(&[vec![s; 3]], &[vec![a; 7]]);
    assert_eq!(p.len(), 1);
    assert_eq!(p[0].len(), 4);
    for k in 0..4 {
        let n = (k + 1) as f64;
        // the push adds 0.5 m/s^2 along x
        assert!((p[0][k][3].0 - 0.5 * 0.05 * n).abs() < 1e-9);
        assert!((p[0][k][0].0 - (1.0 + 0.5 * 0.0025 * n * (n + 1.0) / 2.0)).abs() < 1e-9);
        assert!((p[0][k][2].0 - 3.0).abs() < 1e-9);
    }
    let (_, trust) = m.predict_batch_trust(&[vec![s; 3]], &[vec![a; 7]]);
    assert_eq!(trust, vec![f(0.0)]);
}

#[test]
fn a_model_does_not_see_where_it_is() {
    let m = model("rotor_force", 4, 5, 0.4, [0.0; 3]);
    let input = hummingbird::<F>();
    let a: Vec<[F; 4]> = (0..9).map(|k| [f(2.0 + 0.1 * k as f64); 4]).collect();
    let here: Vec<[F; 18]> =
        (0..4).map(|k| state_to_18(&hover_state(&input, f(0.1 * k as f64), f(0.0), f(1.0)))).collect();
    let there: Vec<[F; 18]> =
        (0..4).map(|k| state_to_18(&hover_state(&input, f(8.0 + 0.1 * k as f64), f(-4.0), f(6.0)))).collect();
    let (p, trust) = m.predict_batch_trust(&[here, there], &[a.clone(), a]);
    assert!(trust[0].0 > 0.0 && (trust[0].0 - trust[1].0).abs() < 1e-4 * trust[0].0);
    for k in 0..5 {
        assert!((p[1][k][0].0 - p[0][k][0].0 - 8.0).abs() < 1e-4);
        assert!((p[1][k][1].0 - p[0][k][1].0 + 4.0).abs() < 1e-4);
        assert!((p[1][k][2].0 - p[0][k][2].0 - 5.0).abs() < 1e-4);
    }
    // and the weights do something
    let still = model("rotor_force", 4, 5, 0.0, [0.0; 3]);
    let q = still.predict_batch(
        &[vec![state_to_18(&hover_state(&input, f(0.0), f(0.0), f(1.0))); 4]],
        &[vec![[f(2.0); 4]; 9]],
    );
    assert!((q[0][4][17].0 - p[0][4][17].0).abs() > 1e-6);
}

#[test]
fn predicted_attitudes_are_rotations() {
    let m = model("rotor_force", 4, 8, 0.5, [0.0; 3]);
    let mut s = hover_state(&hummingbird::<F>(), f(0.0), f(0.0), f(2.0));
    s.w = v3(0.4, -0.7, 1.1);
    let (p, trust) = m.predict_batch_trust(
        &[vec![state_to_18(&s); 4]],
        &[(0..12).map(|k| [f(2.0), f(2.5), f(2.0 + 0.1 * k as f64), f(3.0)]).collect()],
    );
    for x in &p[0] {
        for i in 0..3 {
            for j in 0..3 {
                let dot: f64 = (0..3).map(|r| x[6 + 3 * r + i].0 * x[6 + 3 * r + j].0).sum();
                let want = if i == j { 1.0 } else { 0.0 };
                assert!((dot - want).abs() < 1e-9, "columns {i} {j}: {dot}");
            }
        }
    }
    assert!(trust[0].0 >= 0.0);
    let mut strict = m;
    strict.trust_margin = f(1e9);
    let q = strict.predict_batch_trust(&[vec![state_to_18(&s); 4]], &[vec![[f(2.0); 4]; 12]]);
    assert_eq!(q.1, vec![f(0.0)]);
}

#[test]
fn the_history_keeps_the_latest_steps() {
    let mut h = History::<F>::new(3, 2);
    let input = hummingbird::<F>();
    let at = |x: f64| hover_state(&input, f(x), f(0.0), f(1.0));
    // empty: the present state repeated, no action
    let b = h.build_history(&at(7.0));
    assert_eq!(b.len(), 3);
    assert_eq!((b[0][0], b[2][0]), (f(7.0), f(7.0)));
    assert_eq!(h.past_actions(), vec![[f(0.0); 4]; 2]);
    // one step: zeros before the executed action, the oldest state repeated
    h.observe(&at(6.0), [f(9.0), f(1.0), f(2.0), f(3.0)]);
    assert_eq!(h.past_actions(), vec![[f(0.0); 4], [f(9.0), f(1.0), f(2.0), f(3.0)]]);
    let b = h.build_history(&at(7.0));
    assert_eq!((b[0][0], b[1][0], b[2][0]), (f(6.0), f(6.0), f(7.0)));
    for k in 0..5 {
        h.observe(&at(k as f64), [f(k as f64); 4]);
    }
    assert_eq!(h.states.len(), 2);
    let b = h.build_history(&at(5.0));
    assert_eq!((b[0][0], b[1][0], b[2][0]), (f(3.0), f(4.0), f(5.0)));
    let w = h.window(&vec![[f(10.0); 4], [f(11.0); 4], [f(12.0); 4]]);
    let firsts: Vec<F> = w.iter().map(|a| a[0]).collect();
    assert_eq!(firsts, vec![f(3.0), f(4.0), f(10.0), f(11.0), f(11.0)]);
    h.reset();
    assert_eq!((h.states.len(), h.actions.len()), (0, 0));
}

#[test]
fn a_repeating_history_pads_with_its_oldest_action() {
    let mut h = History::<F>::repeating(5, 2);
    assert_eq!(h.padding, Padding::Oldest);
    assert_eq!(h.past_actions(), vec![[f(0.0); 4]; 4]);
    let s = hover_state(&hummingbird::<F>(), f(0.0), f(0.0), f(1.0));
    let (a, b) = ([f(9.0), f(1.0), f(2.0), f(3.0)], [f(8.0); 4]);
    h.observe(&s, a);
    assert_eq!(h.past_actions(), vec![a, a, a, a]);
    h.observe(&s, b);
    assert_eq!(h.past_actions(), vec![a, a, a, b]);
    h.reset();
    assert_eq!(h.padding, Padding::Oldest);
    assert_eq!(h.past_actions(), vec![[f(0.0); 4]; 4]);
}

#[test]
fn the_rollout_model_gives_one_position_per_action() {
    let mut r = JepaRollout::new(model("ctbr", 3, 4, 0.2, [0.0; 3]));
    assert!(!r.is_rotor_force());
    let s = hover_state(&hummingbird::<F>(), f(0.0), f(0.0), f(2.0));
    let cmd = CtbrCmd { thrust: f(1.2 * 9.81), w_cmd: Vec3::zero() };
    let (t, trust) = r.rollout_batch_trust(&s, &[vec![cmd; 2], vec![cmd; 9]], f(0.05));
    assert_eq!((t[0].len(), t[1].len(), trust.len()), (2, 9, 2));
    assert_eq!(t[0][1].to_array(), t[1][1].to_array());
    // past the horizon of the model the last predicted position is held
    assert!(t[1][3].to_array() != t[1][2].to_array());
    for k in 4..9 {
        assert_eq!(t[1][k].to_array(), t[1][3].to_array());
    }
    let mut out = vec![v3(9.0, 9.0, 9.0); 20];
    r.rollout(&s, &[cmd; 9], f(0.05), &mut out);
    assert_eq!(out.len(), 9);
    assert_eq!(out[8].to_array(), t[1][8].to_array());
    let (raw, _) = r.rollout_raw_trust(&s, &[vec![cmd.to_array(); 9]]);
    assert_eq!(raw[0].len(), 4);
    r.observe(&s, &cmd);
    assert_eq!(r.history.states.len(), 1);
    assert_eq!(r.history.actions[0][0], f(1.2 * 9.81));
    // short of executed actions, the oldest one is repeated
    assert_eq!(r.history.past_actions(), vec![cmd.to_array(); 2]);
    r.reset();
    assert_eq!(r.history.states.len(), 0);
    assert_eq!(r.history.past_actions(), vec![[f(0.0); 4]; 2]);
    assert!(JepaRollout::new(model("rotor_force", 3, 4, 0.2, [0.0; 3])).is_rotor_force());
}

fn three_gates() -> Course<F> {
    let g = (0..3)
        .map(|i| Gate::new(v3(3.0 + i as f64, 0.0, 4.0), v3(1.0, 0.0, 0.0), f(0.85)))
        .collect();
    Course::new(g, false)
}

#[test]
fn rotor_planner_stays_within_its_forces() {
    let mut cfg = RotorMppiConfig::for_mass(f(1.2));
    assert_eq!(cfg.hover_force, f(1.2 * 9.81 / 4.0));
    assert_eq!((cfg.w_omega, cfg.w_tilt), (f(0.0), f(12.0)));
    cfg.base.horizon = 4;
    cfg.base.samples = 8;
    let m = JepaRollout::new(model("rotor_force", 3, 4, 0.2, [0.0; 3]));
    let mut c = RotorMppiController::new(m, cfg, 5);
    let s = hover_state(&hummingbird::<F>(), f(0.0), f(0.0), f(2.0));
    let a = c.act(&s, &three_gates());
    for i in 0..4 {
        assert!(a[i].0 >= 0.0 && a[i].0 <= cfg.f_max.0);
    }
    c.observe(&s, a);
    assert_eq!(c.model.history.actions[0], a);
    c.reset_nominal();
    assert_eq!(c.nominal[0], [cfg.hover_force; 4]);
}

#[test]
fn without_noise_the_rotor_planner_hovers() {
    let mut cfg = RotorMppiConfig::for_mass(f(1.2));
    cfg.base.horizon = 4;
    cfg.base.samples = 8;
    cfg.sigma_force = f(0.0);
    let m = JepaRollout::new(model("rotor_force", 3, 4, 0.2, [0.0; 3]));
    let mut c = RotorMppiController::new(m, cfg, 5);
    let s = hover_state(&hummingbird::<F>(), f(0.0), f(0.0), f(2.0));
    for x in c.act(&s, &three_gates()) {
        assert!((x.0 - cfg.hover_force.0).abs() < 1e-9);
    }
}

#[test]
fn without_noise_the_spline_planner_follows_its_proposal() {
    let input = hummingbird::<F>();
    let mut cfg = SplineMppiConfig::for_mass(input.mass);
    cfg.base.horizon = 4;
    cfg.base.samples = 6;
    cfg.base.sigma_thrust = f(0.0);
    cfg.base.sigma_rate = f(0.0);
    cfg.base.thrust_max = f(1.0);
    let m = JepaRollout::new(model("ctbr", 3, 4, 0.1, [0.0; 3]));
    let mut c = SplineMppiController::new(m, cfg, &input, 3);
    let s = hover_state(&input, f(0.0), f(0.0), f(4.0));
    let seed = c.seed_only(&s, &three_gates());
    let a = c.act(&s, &three_gates());
    assert!((a.thrust.0 - seed.thrust.0.max(0.0).min(1.0)).abs() < 1e-9);
    assert!((a.w_cmd.y.0 - seed.w_cmd.y.0).abs() < 1e-9);
}

#[test]
fn an_earlier_plan_has_no_effect_on_the_spline_planner() {
    let input = hummingbird::<F>();
    let mut cfg = SplineMppiConfig::for_mass(input.mass);
    cfg.base.horizon = 4;
    cfg.base.samples = 6;
    let s = hover_state(&input, f(0.0), f(0.0), f(4.0));
    let act = |plan: Option<CtbrCmd<F>>| {
        let m = JepaRollout::new(model("ctbr", 3, 4, 0.1, [0.0; 3]));
        let mut c = SplineMppiController::new(m, cfg, &input, 3);
        if let Some(a) = plan {
            c.set_nominal_const(a);
        }
        let a = c.act(&s, &three_gates());
        (a.to_array(), c.nominal.iter().map(|n| n.to_array()).collect::<Vec<_>>())
    };
    let wild = CtbrCmd { thrust: f(9.0), w_cmd: v3(5.0, -5.0, 2.0) };
    assert_eq!(act(None), act(Some(wild)));
}

#[test]
fn actions_past_the_horizon_of_the_model_do_nothing() {
    let r = JepaRollout::new(model("rotor_force", 3, 4, 0.2, [0.0; 3]));
    let mut s = hover_state(&hummingbird::<F>(), f(0.0), f(0.0), f(2.0));
    s.w = v3(0.3, -0.2, 0.1);
    let mut a: Vec<[F; 4]> = (0..7).map(|k| [f(2.0 + 0.1 * k as f64); 4]).collect();
    let one = r.rollout_raw_trust_om(&s, &[a.clone()]);
    for k in 4..7 {
        a[k] = [f(9.0); 4];
    }
    let two = r.rollout_raw_trust_om(&s, &[a]);
    assert_eq!(one.0[0].len(), 4);
    assert_eq!((one.0[0][3].to_array(), &one.1, &one.2, &one.3), (
        two.0[0][3].to_array(),
        &two.1,
        &two.2,
        &two.3,
    ));
    assert!(one.1[0].iter().all(|w| w.0 >= 0.0));
}

#[test]
fn spline_planner_starts_from_its_geometric_proposal() {
    let input = hummingbird::<F>();
    let mut cfg = SplineMppiConfig::for_mass(input.mass);
    cfg.base.horizon = 4;
    cfg.base.samples = 6;
    let m = JepaRollout::new(model("ctbr", 3, 4, 0.1, [0.0; 3]));
    let mut c = SplineMppiController::new(m, cfg, &input, 3);
    let s = hover_state(&input, f(0.0), f(0.0), f(4.0));
    let seed = c.seed_only(&s, &three_gates());
    assert!(seed.thrust.0 > 0.0);
    assert!(seed.w_cmd.y.0.abs() <= cfg.base.rate_max.0);
    let a = c.act(&s, &three_gates());
    assert!(a.thrust.0 >= cfg.base.thrust_min.0 && a.thrust.0 <= cfg.base.thrust_max.0);
    c.observe(&s, &a);
    c.reset_nominal();
    assert_eq!(c.nominal[1].thrust, cfg.base.hover_thrust);
    c.set_nominal_const(a);
    assert_eq!(c.nominal[3].thrust, a.thrust);
}

// --- the policy ------------------------------------------------------------------

#[test]
fn an_observation_is_relative() {
    let input = hummingbird::<F>();
    let mut s = hover_state(&input, f(1.0), f(0.0), f(4.0));
    s.v = v3(5.0, -10.0, 2.5);
    let c = three_gates();
    let o = observation(&s, &c.gates, 0);
    assert_eq!(o.len(), OBS_DIM);
    assert_eq!((o[0], o[1], o[2]), (H(1.0), H(-2.0), H(0.5)));
    assert_eq!((o[3], o[7], o[11]), (H(1.0), H(1.0), H(1.0)));
    assert_eq!((o[15], o[18]), (H(0.4), H(0.6)));
    // past the end: nothing left to fly to
    let last = observation(&s, &c.gates, 3);
    assert_eq!((last[15], last[18]), (H(0.0), H(0.0)));
    assert_eq!(observation(&s, &c.gates, 2)[18], observation(&s, &c.gates, 2)[15]);
}

#[test]
fn actions_are_read_about_hover() {
    let a = [H(0.5), H(-0.25), H(0.0), H(1.0)];
    let c = ctbr_of::<F>(&a, f(8.0));
    assert_eq!(c.thrust, f(12.0));
    assert_eq!(c.w_cmd.to_array(), [f(-2.5), f(0.0), f(10.0)]);
    assert_eq!(forces_of::<F>(&a, f(8.0), f(3.5)), [f(3.0), f(1.5), f(2.0), f(3.5)]);
    let wild = [H(-3.0), H(9.0), H(0.0), H(0.0)];
    assert_eq!(forces_of::<F>(&wild, f(8.0), f(100.0)), [f(0.0), f(6.0), f(2.0), f(2.0)]);
    assert_eq!(ctbr_of::<F>(&wild, f(8.0)).thrust, f(0.0));
}

#[test]
fn the_policy_acts_through_its_network() {
    let mut p = policy([0.5, -0.5, 0.0, 0.25]);
    p.set_mass(f(2.0));
    p.set_f_max(f(7.0));
    let s = hover_state(&hummingbird::<F>(), f(0.0), f(0.0), f(2.0));
    let per = 2.0 * 9.81 / 4.0;
    let forces = p.act_rotor(&s, &three_gates());
    assert_eq!(forces, [f(7.0), f(per * 0.5), f(per), f(per * 1.25)]);
    let c = p.act(&s, &three_gates());
    assert_eq!(c.thrust, f(2.0 * 9.81 * 1.5));
    assert_eq!(c.w_cmd.x, f(-5.0));
    // a layer that reads the observation
    p.w0[0] = H(1.0);
    p.wm[0] = H(1.0);
    let obs = observation(&s, &three_gates().gates, 0);
    let mut moving = obs.clone();
    moving[0] = H(2.0);
    assert_ne!(p.forward(&obs)[0], p.forward(&moving)[0]);
}

// --- the training ground ---------------------------------------------------------

#[test]
fn drawn_drones_can_fly() {
    let fleet = Fleet::<F>::wide();
    let mut r = Rng::new(17);
    for _ in 0..20 {
        let p = fleet.sample_drone(&mut r);
        let lift = 4.0 * p.k_eta.0 * 1500.0 * 1500.0;
        let ratio = lift / (p.mass.0 * 9.81);
        assert!(ratio >= 2.0 - 1e-9 && ratio <= 4.0 + 1e-9, "{ratio}");
        assert!(p.mass.0 >= 0.1 && p.mass.0 <= 2.0);
    }
    let gates: Vec<Gate<F>> = sky_course(&mut r);
    assert_eq!(gates.len(), 5);
    for g in &gates {
        assert!(g.center.z.0 >= 5.0 && g.center.z.0 <= 15.0);
        assert!((g.normal.norm().0 - 1.0).abs() < 1e-12);
    }
}

#[test]
fn an_environment_rewards_progress_and_ends_on_a_crash() {
    let mut e = DroneEnv::<F>::new(4, Fleet::wide(), true);
    assert_eq!(e.write_obs().len(), OBS_DIM);
    let before = e.prev_dist;
    let (r, done) = e.step(&[H(0.0); 4]);
    assert!(!done);
    assert_eq!(e.steps, 1);
    // equal forces: no effort, so the reward is the living bonus and the progress
    let want = 0.05 + (before.0 - e.prev_dist.0);
    assert!((r.0 as f64 - want).abs() < 1e-6, "{} {}", r.0, want);
    // without thrust it falls
    let mut steps = 0;
    loop {
        let (r, done) = e.step(&[H(-1.0); 4]);
        steps += 1;
        if done {
            assert_eq!(r, H(-5.0));
            break;
        }
        assert!(steps < 100);
    }
    assert_eq!((e.steps, e.next), (0, 0));
    // the other actuator space charges for body rates
    let mut c = DroneEnv::<F>::new(4, Fleet::wide(), false);
    let before = c.prev_dist;
    let (r, _) = c.step(&[H(0.0), H(0.1), H(0.0), H(0.0)]);
    let want = 0.05 - 0.001 * 1.0 + (before.0 - c.prev_dist.0);
    assert!((r.0 as f64 - want).abs() < 1e-5);
}

#[test]
fn environments_are_independent_and_reproducible() {
    let mut a = VecEnv::<F>::new(3, 21, Fleet::wide(), true);
    let mut b = VecEnv::<F>::new(3, 21, Fleet::wide(), true);
    assert_eq!(a.observe(), b.observe());
    assert_eq!(a.observe().len(), 3 * OBS_DIM);
    let acts: Vec<H> = (0..12).map(|i| H(0.01 * i as f32)).collect();
    let (oa, ra, da) = a.step(&acts);
    let (ob, rb, db) = b.step(&acts);
    assert_eq!((oa.clone(), ra.clone(), da.clone()), (ob, rb, db));
    assert_eq!((ra.len(), da.len()), (3, 3));
    // row 1 is what environment 1 alone does
    let seed = 21u64.wrapping_add(2654435761);
    let mut one = DroneEnv::<F>::new(seed, Fleet::wide(), true);
    let (r, d) = one.step(&acts[4..8]);
    assert_eq!((ra[1], da[1]), (r, d));
    assert_eq!(&oa[OBS_DIM..2 * OBS_DIM], &one.write_obs()[..]);
    assert_eq!(a.reset().len(), 3 * OBS_DIM);
}

// --- the forecast demonstration --------------------------------------------------

#[test]
fn forecast_playback_stays_above_terrain() {
    let mut sim = WasmForecast::new(7, model("rotor_force", 5, 25, 0.1, [0.0; 3]));
    for _ in 0..600 {
        let state = sim.step();
        let floor = forecast_terrain_height(state[0], state[1]).0 + 2.45;
        assert!(
            state[2].0 >= floor,
            "drone below terrain clearance: z={} floor={} at t={}",
            state[2].0,
            floor,
            sim.time().0
        );
        let forecast = sim.forecast(20);
        for p in forecast[..60].chunks_exact(3) {
            let floor = forecast_terrain_height(p[0], p[1]).0 + 2.45;
            assert!(p[2].0 >= floor, "future below terrain clearance: z={} floor={}", p[2].0, floor);
        }
    }
}

#[test]
fn terrain_and_path_have_their_values() {
    let want = -0.4 + 1.3 * (0.4f64).sin() * (-0.8f64).cos()
        + 0.7 * 0.0 * (1.1f64).sin()
        + 1.2 * (-(3.5f64 * 3.5) / 22.0).exp()
        + 0.25 * 0.0;
    assert!((forecast_terrain_height(f(0.0), f(0.0)).0 - want).abs() < 1e-15);
    let r = forecast_ref(f(0.0));
    assert!((r.x.x.0 - 1.8 * (1.3f64).sin()).abs() < 1e-12);
    assert!((r.x.y.0 - 4.5 * (0.7f64).sin()).abs() < 1e-12);
    assert!((r.x.z.0 - (7.0 + 0.8 * (2.0f64).sin())).abs() < 1e-12);
    assert_eq!(r.yaw, f(0.0));
    assert!((r.yaw_dot.0 - 0.9 * 0.18).abs() < 1e-15);
    let h = 1e-6;
    let (a, b) = (forecast_ref(f(3.0)), forecast_ref(f(3.0 + h)));
    assert!(((b.x.x.0 - a.x.x.0) / h - a.x_dot.x.0).abs() < 1e-4);
    assert!(((b.x_dot.z.0 - a.x_dot.z.0) / h - a.x_ddot.z.0).abs() < 1e-4);
}

#[test]
fn a_low_state_is_lifted() {
    let mut s = hover_state(&hummingbird::<F>(), f(0.0), f(0.0), f(-3.0));
    s.v = v3(1.0, 0.0, -2.0);
    let up = enforce_forecast_clearance(s);
    assert_eq!(up.x.z, f(forecast_terrain_height(f(0.0), f(0.0)).0 + 2.5));
    assert_eq!(up.v.to_array(), [f(1.0), f(0.0), f(0.0)]);
    let high = hover_state(&hummingbird::<F>(), f(0.0), f(0.0), f(30.0));
    assert_eq!(enforce_forecast_clearance(high).x.z, f(30.0));
}

#[test]
fn the_committed_flight_is_what_is_flown() {
    let mut sim = WasmForecast::new(3, model("rotor_force", 4, 10, 0.1, [0.0; 3]));
    assert_eq!(sim.future.len(), FORECAST_AHEAD_STEPS);
    let fc = sim.forecast(6);
    assert_eq!(fc.len(), 54);
    // the naive forecast starts out at the velocity of the present
    let (x, v) = (sim.state.x, sim.state.v);
    assert!((fc[36].0 - (x.x.0 + 0.05 * v.x.0)).abs() < 1e-9);
    for k in 0..6 {
        let s = sim.step();
        assert_eq!(s[0..3], fc[3 * k..3 * k + 3]);
    }
    assert!((sim.time().0 - 0.3).abs() < 1e-12);
    // the length of a forecast is kept in range
    assert_eq!(sim.forecast(0).len(), 9);
    assert_eq!(sim.forecast(999).len(), 90);
}

#[test]
fn the_forecast_can_be_disturbed() {
    let mut sim = WasmForecast::new(3, model("rotor_force", 4, 10, 0.1, [0.0; 3]));
    for _ in 0..5 {
        let _ = sim.step();
    }
    let before = sim.reference();
    sim.set_speed(f(9.0));
    assert_eq!(sim.pilot.ref_speed, f(2.0));
    for i in 0..3 {
        assert!((sim.reference()[i].0 - before[i].0).abs() < 1e-12);
    }
    sim.gust();
    assert_eq!(sim.wind(), vec![f(4.0), f(-1.5), f(0.0)]);
    let _ = sim.step();
    assert!((sim.wind()[0].0 - 4.0).abs() < 1e-12);
    sim.calm();
    assert_eq!(sim.wind(), vec![f(0.0); 3]);
    let bare = sim.drone_mass();
    assert!(!sim.payload_attached());
    sim.toggle_payload();
    assert!(sim.payload_attached());
    assert_eq!(sim.drone_mass(), f(bare.0 * 1.45));
    sim.toggle_payload();
    assert_eq!(sim.drone_mass(), bare);
    sim.new_drone();
    assert_ne!(sim.drone_mass(), bare);
    assert_eq!(sim.time(), f(0.0));
    assert!(sim.drone_arm().0 >= 0.22 - 1e-12 && sim.drone_arm().0 <= 0.28 + 1e-12);
    assert_eq!(sim.state().len(), 17);
    let mut r = Rng::new(9);
    let p = sample_forecast_drone::<F>(&mut r);
    assert_eq!(p.k_w, f(16.0));
    assert!(p.mass.0 >= 0.85 && p.mass.0 <= 1.7);
}

// --- the race --------------------------------------------------------------------

fn race() -> WasmRacer<F> {
    let mut r = WasmRacer::new(12, policy([0.1; 4]), model("rotor_force", 3, 12, 0.05, [0.0; 3]));
    r.set_true_samples(0);
    r.set_rf_samples(1);
    r
}

#[test]
fn the_racing_costs_have_their_values() {
    let c = race_cfg(f(1.0));
    assert_eq!((c.samples, c.w_vel, c.beta, c.w_floor), (128, f(3.0), f(0.9), f(300.0)));
    let h = hover_cfg(f(2.0));
    assert_eq!((h.w_pos, h.gate_reward, h.sigma_thrust), (f(3.0), f(0.0), f(0.03 * 2.0 * 9.81)));
    let r = rotor_race_cfg(f(1.0));
    assert_eq!((r.base.horizon, r.base.samples, r.base.w_effort), (12, 48, f(1e-4)));
    assert_eq!(r.sigma_force, f(0.22 * (9.81 / 4.0)));
    let k = rotor_hover_cfg(f(1.0));
    assert_eq!((k.base.w_vel, k.base.lambda, k.base.horizon), (f(0.0), f(1.0), 12));
}

#[test]
fn a_race_starts_at_hover_below_its_gates() {
    let r = race();
    for s in [r.state(), r.rl_state(), r.rf_state()] {
        assert_eq!(&s[0..3], &[f(0.0), f(0.0), f(1.5)]);
    }
    assert_eq!(r.gates().len(), 35);
    assert_eq!((r.next_gate(), r.rl_next_gate(), r.rf_next_gate()), (0, 0, 0));
    assert_eq!((r.wins(), r.rl_wins(), r.rf_wins(), r.gates_passed()), (0, 0, 0, 0));
    assert!(!r.hovering() && !r.rl_hovering() && !r.rf_hovering());
    assert_eq!(r.seed(), 12);
    assert_eq!((r.true_samples(), r.rf_samples()), (1, 1));
    assert_eq!(r.drone_rotor_pos().len(), 12);
    assert_eq!(r.drone_rotor_pos()[4], r.input.rotor_pos[1][1]);
    assert!(r.drone_mass().0 >= 0.9 && r.drone_mass().0 <= 1.5);
    assert!(r.drone_arm().0 >= 0.2 - 1e-12 && r.drone_arm().0 <= 0.3 + 1e-12);
    assert!(r.limits_ok());
}

#[test]
fn a_race_is_reproducible_and_moves_on() {
    let (mut a, mut b) = (race(), race());
    for _ in 0..30 {
        assert!(a.limits_ok());
        assert_eq!(a.step(), b.step());
    }
    assert_eq!(a.state(), b.state());
    assert_eq!(a.race_steps, 30);
    let gates = a.gates();
    a.reset();
    assert_eq!(a.race_steps, 0);
    assert_eq!(a.gates(), gates);
    assert_eq!(&a.state()[0..3], &[f(0.0), f(0.0), f(1.5)]);
    // out of time: another course
    a.race_steps = 700;
    let _ = a.step();
    assert_eq!(a.race_steps, 0);
    assert_ne!(a.gates(), gates);
}

#[test]
fn after_the_first_finish_the_race_goes_on_for_a_while() {
    let mut r = race();
    r.set_randomize(false);
    let mass = r.drone_mass();
    r.rl.done = true;
    r.idle_left = 199;
    let _ = r.step();
    assert_eq!((r.idle_left, r.race_steps), (200, 1));
    let _ = r.step();
    assert_eq!((r.idle_left, r.race_steps), (0, 0));
    assert!(!r.rl_hovering());
    assert_eq!(r.drone_mass(), mass);
}

#[test]
fn a_crashed_racer_is_put_back() {
    let mut r = race();
    r.rf.state.x = v3(20.0, -9.0, 0.05);
    r.rf.state.v = v3(0.0, 0.0, -1.0);
    let _ = r.step();
    assert_eq!(r.rf_respawns(), 1);
    assert_eq!(&r.rf_state()[0..3], &[f(11.0), f(-4.0), f(1.5)]);
    assert_eq!(r.rf_ctrl.model.history.states.len(), 0);
    let mut e = Entrant {
        state: r.rl.state,
        course: three_gates(),
        done: false,
        wins: 0,
        respawns: 3,
    };
    e.state.x = v3(f64::NAN, 1.0, f64::INFINITY);
    assert!(e.respawn(&r.input));
    assert_eq!(e.state.x.to_array(), [f(0.0), f(1.0), f(1.5)]);
    assert_eq!(e.respawns, 4);
    assert!(!e.respawn(&r.input));
    e.state.x.z = f(0.0);
    e.done = true;
    assert!(!e.respawn(&r.input));
}

#[test]
fn racers_end_every_step_in_the_air() {
    let mut r = race();
    r.rl.state.x.z = f(0.01);
    r.rf.state.x.z = f(f64::NAN);
    for _ in 0..8 {
        let wins = (r.wins(), r.rl_wins(), r.rf_wins());
        let _ = r.step();
        for (z, done) in [(r.rl_state()[2], r.rl_hovering()), (r.rf_state()[2], r.rf_hovering())] {
            assert!(done || (z.0.is_finite() && z.0 >= 0.15));
        }
        assert!(r.wins() <= wins.0 + 1 && r.rl_wins() <= wins.1 + 1 && r.rf_wins() <= wins.2 + 1);
    }
    // a drone that has finished does not win again
    r.rl.done = true;
    r.rf.done = true;
    let wins = (r.rl_wins(), r.rf_wins());
    for _ in 0..3 {
        let _ = r.step();
        assert_eq!((r.rl_wins(), r.rf_wins()), wins);
    }
}

#[test]
fn a_finished_racer_holds_its_place() {
    let input = hummingbird::<F>();
    let mut e = Entrant {
        state: hover_state(&input, f(4.5), f(0.0), f(4.0)),
        course: three_gates(),
        done: false,
        wins: 0,
        respawns: 0,
    };
    e.course.next = 2;
    assert!(e.fly_to(hover_state(&input, f(5.5), f(0.0), f(4.0))));
    assert!(e.done);
    assert_eq!((e.wins, e.course.next, e.course.gates.len()), (1, 0, 1));
    assert_eq!(e.course.gates[0].center.to_array(), [f(5.5), f(0.0), f(4.0)]);
    assert!(!e.fly_to(hover_state(&input, f(4.5), f(0.0), f(4.0))));
    assert_eq!((e.wins, e.course.next), (1, 0));
    // never held at the ground
    assert_eq!(hover_course(v3(1.0, 2.0, 0.2)).gates[0].center.z, f(1.3));
}

#[test]
fn race_weights_are_set_and_read_by_name() {
    let mut r = race();
    for key in [
        "w_vel", "w_pos", "w_vdamp", "w_effort", "w_alt", "w_terminal", "gate_reward",
        "sigma_rate", "rate_max",
    ] {
        r.set_race_param(key, f(0.75));
        assert_eq!(r.race_param(key), f(0.75));
    }
    r.set_race_param("sigma_thrust", f(0.25));
    assert!((r.race_param("sigma_thrust").0 - 0.25).abs() < 1e-12);
    assert!((r.race.sigma_thrust.0 - 0.25 * r.drone_mass().0 * 9.81).abs() < 1e-12);
    r.set_race_param("beta", f(3.0));
    assert_eq!(r.race_param("beta"), f(0.98));
    r.set_race_param("lambda", f(-1.0));
    assert_eq!(r.race_param("lambda"), f(1e-3));
    let kept = r.race.w_vel;
    r.set_race_param("w_unknown", f(9.0));
    assert!(r.race_param("w_unknown").0.is_nan());
    assert_eq!(r.race.w_vel, kept);
    assert!(RaceParam::from_name("").is_none());
    // it applies at once while racing, not to a drone that holds its place
    assert_eq!(r.ctrl.cfg.w_vel, f(0.75));
    r.truth.done = true;
    r.set_race_param("w_vel", f(2.5));
    assert_eq!((r.race.w_vel, r.ctrl.cfg.w_vel), (f(2.5), f(0.75)));
}

#[test]
fn mass_and_wind_reach_every_racer() {
    let mut r = race();
    r.set_wind(f(1.0), f(2.0), f(3.0));
    for s in [&r.truth.state, &r.rl.state, &r.rf.state] {
        assert_eq!(s.wind.to_array(), [f(1.0), f(2.0), f(3.0)]);
    }
    r.set_mass(f(2.0));
    assert_eq!(r.drone_mass(), f(2.0));
    assert_eq!(r.reality.params.mass, f(2.0));
    assert_eq!(r.reality_rf.params.mass, f(2.0));
    assert_eq!(r.ctrl.model.veh.params.mass, f(2.0));
    assert_eq!(r.rl_ctrl.hover_thrust, f(2.0 * 9.81));
    assert_eq!(r.rf_ctrl.cfg.hover_force, f(2.0 * 9.81 / 4.0));
    assert_eq!(r.ctrl.cfg.hover_thrust, f(2.0 * 9.81));
    r.set_true_samples(9999);
    assert_eq!((r.true_samples(), r.ctrl.cfg.samples), (512, 512));
    r.set_rf_samples(0);
    assert_eq!((r.rf_samples(), r.rf_ctrl.cfg.base.samples), (1, 1));
}
