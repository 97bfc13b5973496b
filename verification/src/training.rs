//! What a policy sees, what its answers ask for, and what it is rewarded for.
use vstd::prelude::*;

use crate::algebra::Row3;
use crate::gates::Gate;
use crate::rl::{spec_ctbr_of, spec_forces_of, spec_observation};
use crate::rl_env::DroneEnv;
use crate::scalar::{Real, Wide};
use crate::state::State;

verus! {

/// Single precision loses nothing of a number.
pub open spec fn lossless<S: Wide>() -> bool {
    &&& forall|x: S| (#[trigger] x.spec_narrow()).val() == x.val()
    &&& forall|x: S::Narrow| (#[trigger] S::spec_widen(x)).val() == x.val()
}

proof fn lemma_fifth<S: Wide>(x: S)
    requires
        crate::scalar::exact::<S>(),
        lossless::<S>(),
    ensures
        5real * crate::rl::fifth(x).val() == x.val(),
{
    crate::scalar::lemma_splat_int::<S>(5);
    let f = (S::spec_one() / S::spec_splat(5, 1)).val();
    let v = x.val();
    assert(5real * (v * f) == v) by (nonlinear_arith)
        requires
            f == 1real / 5real,
    ;
}

/// Entries `i`, `i + 1` and `i + 2`, times five.
pub open spec fn five_times<N: Real>(o: Seq<N>, i: int) -> Row3 {
    Row3 { x: 5real * o[i].val(), y: 5real * o[i + 1].val(), z: 5real * o[i + 2].val() }
}

/// An observation holds, in this order: a fifth of the velocity, the attitude row by row, a
/// fifth of the body rate, and a fifth of the way to the next gate and to the one after it;
/// the last gate stands in for one after it.
pub proof fn law_observation_holds<S: Wide>(s: State<S>, gates: Seq<Gate<S>>, next: int)
    requires
        crate::scalar::exact::<S>(),
        lossless::<S>(),
        0 <= next < gates.len(),
    ensures
        ({
            let o = spec_observation(s, gates, next);
            let r = s.q.spec_to_rotmat();
            let g = gates[next].center;
            let h = if next + 1 < gates.len() {
                gates[next + 1].center
            } else {
                g
            };
            &&& o.len() == 21
            &&& five_times(o, 0) == s.v.row()
            &&& forall|i: int, j: int|
                0 <= i < 3 && 0 <= j < 3 ==> o[3 + 3 * i + j].val() == (#[trigger] r.at(
                    i,
                    j,
                )).val()
            &&& five_times(o, 12) == s.w.row()
            &&& five_times(o, 15) == crate::race::toward(s.x, g)
            &&& five_times(o, 18) == crate::race::toward(s.x, h)
        }),
{
    let o = spec_observation(s, gates, next);
    let r = s.q.spec_to_rotmat();
    let a = crate::rl::spec_next_gate(s.x, gates, next) - s.x;
    let b = crate::rl::spec_gate_after(s.x, gates, next) - s.x;
    lemma_fifth(s.v.x);
    lemma_fifth(s.v.y);
    lemma_fifth(s.v.z);
    lemma_fifth(s.w.x);
    lemma_fifth(s.w.y);
    lemma_fifth(s.w.z);
    lemma_fifth(a.x);
    lemma_fifth(a.y);
    lemma_fifth(a.z);
    lemma_fifth(b.x);
    lemma_fifth(b.y);
    lemma_fifth(b.z);
    assert forall|i: int, j: int| 0 <= i < 3 && 0 <= j < 3 implies o[3 + 3 * i + j].val() == (
    #[trigger] r.at(i, j)).val() by {
        assert(i == 0 || i == 1 || i == 2);
        assert(j == 0 || j == 1 || j == 2);
    }
}

/// The number held between zero and three.
pub open spec fn held(x: real) -> real {
    if x < 0real {
        0real
    } else if x > 3real {
        3real
    } else {
        x
    }
}

proof fn lemma_share<S: Wide>(a: S::Narrow)
    requires
        crate::scalar::exact::<S>(),
        lossless::<S>(),
    ensures
        crate::rl::share::<S>(a).val() == held(1real + a.val()),
{
    crate::scalar::lemma_splat_int::<S>(3);
    let x = S::spec_one() + S::spec_widen(a);
    let (lo, hi) = (S::spec_zero(), S::spec_splat(3, 1));
    assert(x.spec_is_finite() && lo.spec_is_finite() && hi.spec_is_finite());
    assert((x < lo) <==> x.val() < lo.val());
    assert((hi < x) <==> hi.val() < x.val());
    assert((hi < lo) <==> hi.val() < lo.val());
}

/// An answer is a deviation from hover: its first number is that of the thrust, as a share of
/// the hover thrust, and each of the others is a tenth of a body rate; no deviation is hover.
pub proof fn law_answer_deviates_from_hover<S: Wide>(a: Seq<S::Narrow>, hover: S)
    requires
        crate::scalar::exact::<S>(),
        lossless::<S>(),
    ensures
        ({
            let c = spec_ctbr_of(a, hover);
            &&& c.thrust.val() == hover.val() * held(1real + a[0].val())
            &&& c.w_cmd.x.val() == 10real * a[1].val()
            &&& c.w_cmd.y.val() == 10real * a[2].val()
            &&& c.w_cmd.z.val() == 10real * a[3].val()
            &&& a[0].val() == 0real ==> c.thrust.val() == hover.val()
        }),
{
    lemma_share::<S>(a[0]);
    crate::scalar::lemma_splat_int::<S>(10);
    crate::algebra::lemma_comm(a[1].val(), 10real);
    crate::algebra::lemma_comm(a[2].val(), 10real);
    crate::algebra::lemma_comm(a[3].val(), 10real);
    crate::physics::lemma_times_one(hover.val(), 1real);
}

/// The same of rotor forces: each number deviates from a quarter of the hover thrust, cut to
/// what a rotor can give; no deviation at all adds up to hover.
pub proof fn law_forces_deviate_from_hover<S: Wide>(a: Seq<S::Narrow>, hover: S, f_max: S, j: int)
    requires
        crate::scalar::exact::<S>(),
        lossless::<S>(),
        0 <= j < 4,
    ensures
        ({
            let f = spec_forces_of(a, hover, f_max);
            let want = hover.val() / 4real * held(1real + a[j].val());
            &&& f[j].val() == if want <= f_max.val() {
                want
            } else {
                f_max.val()
            }
        }),
{
    lemma_share::<S>(a[0]);
    lemma_share::<S>(a[1]);
    lemma_share::<S>(a[2]);
    lemma_share::<S>(a[3]);
    crate::scalar::lemma_splat_int::<S>(4);
    let per = hover / S::spec_splat(4, 1);
    assert((per * crate::rl::share::<S>(a[j])).spec_is_finite() && f_max.spec_is_finite());
    assert(j == 0 || j == 1 || j == 2 || j == 3);
}

/// The distance that the environment remembers is that of the drone to its next gate.
pub open spec fn measured<S: Wide>(e: DroneEnv<S>) -> bool {
    &&& e.next < e.gates@.len()
    &&& e.prev_dist == (e.gates@[e.next as int].center - e.state.x).spec_norm()
}

/// Progress is always measured against the next gate: at the start of an episode, and
/// after every step, the remembered distance is that of the drone to it.
pub proof fn law_progress_is_measured<S: Wide>(
    e: DroneEnv<S>,
    after: DroneEnv<S>,
    a: Seq<S::Narrow>,
    s: u64,
)
    requires
        e.wf(),
    ensures
        e.fresh(s) ==> measured(e),
        e.stepped(after, a) ==> measured(after),
{
    assert(crate::rl_env::spec_sky_course::<S>(
        crate::rl_env::after_uniforms(s, e.fleet.drone_draws()),
    ).len() == 5);
    if e.stepped(after, a) {
        if e.ends(a) {
            assert(crate::rl_env::spec_sky_course::<S>(
                crate::rl_env::after_uniforms(e.rng@, after.fleet.drone_draws()),
            ).len() == 5);
        } else {
            let o = e.spec_outcome(a);
            assert(o.next < e.gates@.len());
        }
    }
}

/// A step that does not crash is rewarded for the way it comes closer to its
/// next gate, less its effort, with ten more for passing that gate and thirty more for the last.
pub proof fn law_reward_is_progress<S: Wide>(e: DroneEnv<S>, a: Seq<S::Narrow>)
    requires
        crate::scalar::exact::<S>(),
        lossless::<S>(),
        e.wf(),
        measured(e),
        !DroneEnv::crashed(e.spec_flown(a)),
    ensures
        ({
            let s = e.spec_flown(a);
            let g = e.gates@[e.next as int];
            let closer = (g.center - e.state.x).spec_norm().val() - (g.center
                - s.x).spec_norm().val();
            let through = g.spec_crossed(e.state.x, s.x);
            e.spec_reward(a).val() == 1real / 20real - e.spec_effort(a).val() / 1000real + closer + (
            if through {
                10real
            } else {
                0real
            }) + (if through && e.next + 1 == e.gates@.len() {
                30real
            } else {
                0real
            })
        }),
{
    crate::scalar::lemma_splat_fraction::<S>(5, 100);
    crate::scalar::lemma_splat_fraction::<S>(1, 1000);
    crate::scalar::lemma_splat_int::<S>(10);
    crate::scalar::lemma_splat_int::<S>(30);
    let s = e.spec_flown(a);
    let g = e.gates@[e.next as int];
    let d = e.prev_dist.val() - (g.center - s.x).spec_norm().val();
    crate::physics::lemma_times_one(d, 1real);
    let f = e.spec_effort(a).val();
    let k = S::spec_splat(1, 1000).val();
    assert(k * f == f / 1000real) by (nonlinear_arith)
        requires
            k == 1real / 1000real,
    ;
}

/// A crash costs five, and ends the episode; so do the last gate and the last step, and
/// nothing else does.
pub proof fn law_episode_ends<S: Wide>(e: DroneEnv<S>, a: Seq<S::Narrow>)
    requires
        crate::scalar::exact::<S>(),
        lossless::<S>(),
        e.wf(),
    ensures
        ({
            let s = e.spec_flown(a);
            let low = s.x.z.val() < 3real / 20real;
            let fast = s.v.spec_norm().val() > 40real;
            let g = e.gates@[e.next as int];
            let last = g.spec_crossed(e.state.x, s.x) && e.next + 1 == e.gates@.len();
            &&& low || fast ==> e.spec_reward(a).val() == -5real
            &&& e.ends(a) <==> low || fast || last || e.steps + 1 >= crate::rl_env::MAX_STEPS
        }),
{
    crate::scalar::lemma_splat_fraction::<S>(15, 100);
    crate::scalar::lemma_splat_int::<S>(40);
    crate::scalar::lemma_splat_int::<S>(-5);
    let s = e.spec_flown(a);
    let (z, n) = (s.x.z, s.v.spec_norm());
    let (lo, hi) = (S::spec_splat(15, 100), S::spec_splat(40, 1));
    assert((z < lo) <==> z.val() < lo.val());
    assert((hi < n) <==> hi.val() < n.val());
}

/// The effort of an answer: twenty-five times the squared deviations of the four numbers from
/// their mean, where they are rotor forces; a hundred times the squared rate numbers, where
/// they are body rates.
pub proof fn law_effort_of_an_answer<S: Wide>(e: DroneEnv<S>, a: Seq<S::Narrow>)
    requires
        crate::scalar::exact::<S>(),
        crate::scalar::exact::<S::Narrow>(),
        lossless::<S>(),
    ensures
        ({
            let (p, q, r, t) = (a[0].val(), a[1].val(), a[2].val(), a[3].val());
            let mean = (p + q + r + t) / 4real;
            e.spec_effort(a).val() == if e.rotor {
                25real * ((p - mean) * (p - mean) + (q - mean) * (q - mean) + (r - mean) * (r
                    - mean) + (t - mean) * (t - mean))
            } else {
                100real * (q * q + r * r + t * t)
            }
        }),
{
    crate::scalar::lemma_splat_int::<S>(4);
    crate::scalar::lemma_splat_int::<S>(25);
    law_answer_deviates_from_hover(a, e.hover_thrust);
    if e.rotor {
        reveal_with_fuel(DroneEnv::spread, 5);
    } else {
        let (q, r, t) = (a[1].val(), a[2].val(), a[3].val());
        lemma_tenfold(q);
        lemma_tenfold(r);
        lemma_tenfold(t);
    }
}

proof fn lemma_tenfold(x: real)
    ensures
        (10real * x) * (10real * x) == 100real * (x * x),
{
    assert((10real * x) * (10real * x) == 100real * (x * x)) by (nonlinear_arith);
}

} // verus!
