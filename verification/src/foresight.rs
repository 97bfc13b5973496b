//! What a forecast shows and how its drone is flown: laws of the demonstration of the world
//! model.
use vstd::prelude::*;

use crate::forecast::{
    flat, spec_cleared, spec_terrain_height, ForecastPilot, WasmForecast,
};
use crate::linalg::Vec3;
use crate::scalar::{Real, Wide};
use crate::state::State;

verus! {

/// A forecast shows as many points of each kind as there are steps, coordinate by coordinate:
/// first the committed flight, then what the model predicts, then constant acceleration from
/// one step ahead on.
pub proof fn law_forecast_shows_three_lines<S: Wide>(w: WasmForecast<S>, steps: nat, j: int)
    requires
        0 <= j < w.forecast_steps(steps),
    ensures
        ({
            let n = w.forecast_steps(steps) as int;
            let f = w.spec_forecast(steps);
            let p = w.model.spec_predict(w.states@, w.forecast_window());
            let a = w.forecast_future()[j].state.x;
            let c = w.spec_naive(j + 1);
            &&& f.len() == 9 * n
            &&& j < w.forecast_future().len() ==> f[3 * j] == a.x && f[3 * j + 1] == a.y && f[3 * j
                + 2] == a.z
            &&& j < w.model.t ==> f[3 * n + 3 * j] == p[j][0] && f[3 * n + 3 * j + 1] == p[j][1]
                && f[3 * n + 3 * j + 2] == p[j][2]
            &&& f[6 * n + 3 * j] == c.x && f[6 * n + 3 * j + 1] == c.y && f[6 * n + 3 * j + 2]
                == c.z
        }),
{
    let n = w.forecast_steps(steps);
    let a = WasmForecast::flown_points(w.forecast_future());
    let b = w.predicted_points();
    let c = Seq::new(n, |i: int| w.spec_naive(i + 1));
    crate::forecast::lemma_flat(a, n, j);
    crate::forecast::lemma_flat(b, n, j);
    crate::forecast::lemma_flat(c, n, j);
    let (fa, fb, fc) = (flat(a, n), flat(b, n), flat(c, n));
    let f = fa + fb + fc;
    assert(f[3 * n + 3 * j] == fb[3 * j]);
    assert(f[3 * n + 3 * j + 1] == fb[3 * j + 1]);
    assert(f[3 * n + 3 * j + 2] == fb[3 * j + 2]);
    assert(f[6 * n + 3 * j] == fc[3 * j]);
    assert(f[6 * n + 3 * j + 1] == fc[3 * j + 1]);
    assert(f[6 * n + 3 * j + 2] == fc[3 * j + 2]);
}

/// The model is asked about the committed flight: planned action `k` of its window is the
/// action of committed step `k`, and before it stand the actions that were flown.
pub proof fn law_model_is_asked_about_the_commitment<S: Wide>(w: WasmForecast<S>, k: int)
    requires
        w.wf(),
        0 <= k < w.model.t,
    ensures
        w.forecast_window()[w.model.h - 1 + k] == w.forecast_future()[k].action,
        forall|i: int|
            0 <= i < w.model.h - 1 ==> #[trigger] w.forecast_window()[i] == w.actions@[i],
        w.forecast_window().len() == w.model.h + w.model.t,
{
}

/// A step makes the first committed frame the present: it ends the history with the state it
/// leads to and with the action that led there.
pub proof fn law_step_is_remembered<S: Wide>(w: WasmForecast<S>, after: WasmForecast<S>)
    requires
        w.wf(),
        w.stepped(after),
    ensures
        after.states@.last() == crate::rollout::spec_state_to_18(after.state),
        after.states@.len() == w.model.h,
        w.model.h >= 2 ==> after.actions@.last() == w.full_future()[0].action,
        after.state == w.full_future()[0].state,
{
}

proof fn lemma_naive(x: real, v: real, u: real, k: real, dt: real, half: real, h: real, a: real)
    requires
        half == 1real / 2real,
        h == k * dt,
        a * dt == v - u,
    ensures
        x + v * h + a * ((half * h) * h) == x + (k * dt) * v + (k * k) * (dt * (v - u)) / 2real,
{
    crate::algebra::lemma_comm(v, h);
    let d = v - u;
    assert(a * ((half * h) * h) == (k * k) * (dt * d) / 2real) by (nonlinear_arith)
        requires
            half == 1real / 2real,
            h == k * dt,
            a * dt == d,
    ;
}

/// The simple forecast goes on at the acceleration of the last step: `k` steps ahead it is at
/// `x + k dt v + k^2 dt (v - u) / 2`, where `u` is the velocity one step ago.
pub proof fn law_simple_forecast_keeps_its_acceleration<S: Wide>(w: WasmForecast<S>, k: int)
    requires
        crate::scalar::exact::<S>(),
        w.pilot.dt.val() != 0real,
        w.states@.len() >= 2,
    ensures
        ({
            let u = w.states@[w.states@.len() - 2];
            let (x, v) = (w.state.x, w.state.v);
            let (n, dt) = (k as real, w.pilot.dt.val());
            let c = w.spec_naive(k);
            &&& c.x.val() == x.x.val() + (n * dt) * v.x.val() + (n * n) * (dt * (v.x.val()
                - u[3].val())) / 2real
            &&& c.y.val() == x.y.val() + (n * dt) * v.y.val() + (n * n) * (dt * (v.y.val()
                - u[4].val())) / 2real
            &&& c.z.val() == x.z.val() + (n * dt) * v.z.val() + (n * n) * (dt * (v.z.val()
                - u[5].val())) / 2real
        }),
{
    let u = w.states@[w.states@.len() - 2];
    let (x, v) = (w.state.x, w.state.v);
    let dt = w.pilot.dt;
    crate::scalar::lemma_splat_int::<S>(k);
    crate::scalar::lemma_splat_fraction::<S>(1, 2);
    let half = S::spec_splat(1, 2).val();
    let h = (S::spec_splat(k, 1) * dt).val();
    let n = k as real;
    crate::tracking::lemma_times_back(v.x.val() - u[3].val(), dt.val());
    crate::tracking::lemma_times_back(v.y.val() - u[4].val(), dt.val());
    crate::tracking::lemma_times_back(v.z.val() - u[5].val(), dt.val());
    let (a, b, c) = (
        (v.x.val() - u[3].val()) / dt.val(),
        (v.y.val() - u[4].val()) / dt.val(),
        (v.z.val() - u[5].val()) / dt.val(),
    );
    crate::algebra::lemma_comm(dt.val(), a);
    crate::algebra::lemma_comm(dt.val(), b);
    crate::algebra::lemma_comm(dt.val(), c);
    lemma_naive(x.x.val(), v.x.val(), u[3].val(), n, dt.val(), half, h, a);
    lemma_naive(x.y.val(), v.y.val(), u[4].val(), n, dt.val(), half, h, b);
    lemma_naive(x.z.val(), v.z.val(), u[5].val(), n, dt.val(), half, h, c);
}

/// The part above zero.
pub open spec fn positive_part(x: real) -> real {
    if x >= 0real {
        x
    } else {
        0real
    }
}

/// The pilot is lifted off the ground by all four rotors alike: by 4.5 newtons for each
/// kilogram and each metre below 3.5 m, and by 2.8 for each metre per second that it sinks
/// below 4.5 m; not at all above that.
pub proof fn law_lift_near_the_ground<S: Real>(p: ForecastPilot<S>, s: State<S>)
    requires
        crate::scalar::exact::<S>(),
    ensures
        ({
            let height = s.x.z.val() - spec_terrain_height(s.x.x, s.x.y).val();
            let deep = positive_part(7real / 2real - height);
            let sink = if height < 9real / 2real {
                positive_part(-s.v.z.val())
            } else {
                0real
            };
            4real * p.spec_lift_boost(s).val() == p.input.mass.val() * (9real * deep / 2real
                + 14real * sink / 5real)
        }),
{
    crate::scalar::lemma_splat_fraction::<S>(35, 10);
    crate::scalar::lemma_splat_int::<S>(1);
    crate::scalar::lemma_splat_fraction::<S>(45, 10);
    crate::scalar::lemma_splat_fraction::<S>(28, 10);
    crate::scalar::lemma_splat_int::<S>(4);
    let floor = spec_terrain_height(s.x.x, s.x.y) + S::spec_splat(35, 10);
    let top = floor + S::spec_splat(1, 1);
    assert((s.x.z < top) <==> s.x.z.val() < top.val());
    let zero = S::spec_zero();
    assert((floor - s.x.z).spec_is_finite() && (-s.v.z).spec_is_finite() && zero.spec_is_finite());
    let deep = (floor - s.x.z).spec_max(zero).val();
    let (a, b) = (S::spec_splat(45, 10).val(), S::spec_splat(28, 10).val());
    let sink = if s.x.z < top {
        (-s.v.z).spec_max(zero).val()
    } else {
        0real
    };
    assert(a * deep == 9real * deep / 2real) by (nonlinear_arith)
        requires
            a == 9real / 2real,
    ;
    assert(b * sink == 14real * sink / 5real) by (nonlinear_arith)
        requires
            b == 14real / 5real,
    ;
    let m = p.input.mass.val();
    let e = m * (a * deep + b * sink);
    assert(4real * (e / 4real) == e);
}

/// The forces of the pilot are those of its controller on the path, with the lift that the
/// ground asks for, held between nothing and what a rotor can give.
pub proof fn law_pilot_flies_its_path<S: Real>(p: ForecastPilot<S>, s: State<S>, t: S, j: int)
    requires
        crate::scalar::exact::<S>(),
        p.input.k_eta.val() >= 0real,
        0 <= j < 4,
    ensures
        ({
            let top = p.input.k_eta.val() * p.input.rotor_speed_max.val()
                * p.input.rotor_speed_max.val();
            let r = crate::forecast::spec_forecast_ref(p.spec_warped(t));
            let want = p.se3.spec_update(s, r)[j].val() + p.spec_lift_boost(s).val();
            p.spec_action_at(s, t)[j].val() == if want < 0real {
                0real
            } else if want > top {
                top
            } else {
                want
            }
        }),
        p.spec_warped(t).val() == p.ref_phase.val() + p.ref_speed.val() * (t.val()
            - p.ref_t0.val()),
{
    let (k, o) = (p.input.k_eta.val(), p.input.rotor_speed_max.val());
    crate::linalg::lemma_square_sign(o);
    crate::algebra::lemma_assoc(k, o, o);
    let q = o * o;
    assert(k * q >= 0real) by (nonlinear_arith)
        requires
            k >= 0real,
            q >= 0real,
    ;
    let top = p.input.k_eta * p.input.rotor_speed_max * p.input.rotor_speed_max;
    let raw = p.se3.spec_update(s, crate::forecast::spec_forecast_ref(p.spec_warped(t)));
    let x = raw[j] + p.spec_lift_boost(s);
    let z = S::spec_zero();
    assert((x < z) <==> x.val() < z.val());
    assert((top < x) <==> top.val() < x.val());
    assert((top < z) <==> top.val() < z.val());
    assert(j == 0 || j == 1 || j == 2 || j == 3);
}

/// Clearing touches a state that is too low only: it is lifted to 2.5 m above the ground where
/// it is, and sinks no further; nothing else changes.
pub proof fn law_clearing_lifts_only<S: Real>(s: State<S>)
    requires
        crate::scalar::exact::<S>(),
    ensures
        ({
            let c = spec_cleared(s);
            let least = spec_terrain_height(s.x.x, s.x.y).val() + 5real / 2real;
            &&& s.x.z.val() >= least ==> c == s
            &&& s.x.z.val() < least ==> c.x.z.val() == least && c.v.z.val() == positive_part(
                s.v.z.val(),
            )
            &&& c == (State {
                x: Vec3 { z: c.x.z, ..s.x },
                v: Vec3 { z: c.v.z, ..s.v },
                ..s
            })
        }),
{
    crate::scalar::lemma_splat_fraction::<S>(25, 10);
    let floor = crate::forecast::spec_clearance_floor(s.x.x, s.x.y);
    assert((s.x.z < floor) <==> s.x.z.val() < floor.val());
    assert(s.v.z.spec_is_finite() && S::spec_zero().spec_is_finite());
}

} // verus!
