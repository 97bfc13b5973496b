//! What a rollout is charged for on a course: laws that relate the cost of a predicted path
//! to the gates that the same path passes when it is flown.
use vstd::prelude::*;

use crate::algebra::Row3;
use crate::gates::{Course, Gate};
use crate::linalg::Vec3;
use crate::mppi::{
    before_step, due_after, gate_cost, motion_cost, running_cost, spec_gate_at, spec_rollout_cost,
    MppiConfig,
};
use crate::scalar::Real;

verus! {

// ---------------------------------------------------------------------------
// Progress along a path
// ---------------------------------------------------------------------------
/// The positions of a rollout with its start.
pub open spec fn path<S: Real>(start: Vec3<S>, traj: Seq<Vec3<S>>) -> Seq<Vec3<S>> {
    seq![start] + traj
}

/// The course after its progress was updated for each of the first `n` moves of the path.
pub open spec fn flown<S: Real>(course: Course<S>, path: Seq<Vec3<S>>, n: nat) -> Course<S>
    decreases n,
{
    if n == 0 {
        course
    } else {
        flown(course, path, (n - 1) as nat).spec_advance(path[n - 1], path[n as int])
    }
}

/// How many of the first `n` moves pass that gate which is then next.
pub open spec fn passed<S: Real>(course: Course<S>, path: Seq<Vec3<S>>, n: nat) -> int
    decreases n,
{
    if n == 0 {
        0
    } else {
        let k = (n - 1) as nat;
        passed(course, path, k) + if flown(course, path, k).passes(path[n - 1], path[n as int]) {
            1int
        } else {
            0int
        }
    }
}

proof fn lemma_lap_remainder(laps: int, n: int, next: int, i: int)
    requires
        0 <= next < n,
        laps >= 0,
        i == laps * n + next,
    ensures
        i % n == next,
        i < n ==> i == next,
{
    vstd::arithmetic::div_mod::lemma_fundamental_div_mod_converse(i, n, laps, next);
    if i < n && laps >= 1 {
        assert(laps * n >= n) by (nonlinear_arith)
            requires
                laps >= 1,
                n >= 0,
        ;
    }
}

/// Flying keeps the course, and counts its gates one by one.
proof fn lemma_flown<S: Real>(course: Course<S>, path: Seq<Vec3<S>>, n: nat)
    requires
        course.wf(),
        course.laps_completed + n <= usize::MAX,
    ensures
        ({
            let c = flown(course, path, n);
            &&& c.wf()
            &&& c.gates == course.gates
            &&& c.loop_course == course.loop_course
            &&& course.laps_completed <= c.laps_completed <= course.laps_completed + n
            &&& !course.loop_course ==> c.laps_completed == course.laps_completed
            &&& c.spec_gates_passed() == course.spec_gates_passed() + passed(course, path, n)
            &&& 0 <= passed(course, path, n) <= n
        }),
    decreases n,
{
    if n > 0 {
        let k = (n - 1) as nat;
        lemma_flown(course, path, k);
        let c = flown(course, path, k);
        crate::gates::law_advance_counts_one_gate(c, path[n - 1], path[n as int]);
    }
}

/// A rollout aims at the gates in the order in which the course counts them: every move that
/// passes that gate which is due moves the aim to the following one, so after `n` moves the
/// index has gone up by as many gates as the course has counted, and its aim is the
/// target of the course.
pub proof fn law_rollout_follows_the_course<S: Real>(
    start: Vec3<S>,
    traj: Seq<Vec3<S>>,
    course: Course<S>,
    n: nat,
)
    requires
        course.wf(),
        course.laps_completed + n <= usize::MAX,
        n <= traj.len(),
    ensures
        ({
            let p = path(start, traj);
            let c = flown(course, p, n);
            let i = due_after(start, traj, course, n);
            &&& i == course.next + passed(course, p, n)
            &&& i - course.next == c.spec_gates_passed() - course.spec_gates_passed()
            &&& spec_gate_at(course, i) == c.spec_target()
        }),
    decreases n,
{
    let p = path(start, traj);
    let len = course.gates@.len() as int;
    lemma_flown(course, p, n);
    if n > 0 {
        let k = (n - 1) as nat;
        law_rollout_follows_the_course(start, traj, course, k);
        assert(before_step(start, traj, n - 1) == p[n - 1]);
        assert(traj[n - 1] == p[n as int]);
        let c = flown(course, p, k);
        lemma_flown(course, p, k);
        let i = due_after(start, traj, course, k);
        assert(spec_gate_at(course, i) == c.spec_target());
        if c.spec_finished() {
            assert(c.spec_target() is None);
        } else {
            assert(c.spec_target() == Some(c.gates@[c.next as int]));
        }
    }
    let c = flown(course, p, n);
    let i = due_after(start, traj, course, n);
    assert(i == course.next + passed(course, p, n));
    if course.loop_course {
        let (l, m) = (c.laps_completed as int, course.laps_completed as int);
        assert(l * len - m * len == (l - m) * len) by (nonlinear_arith);
        lemma_lap_remainder(l - m, len, c.next as int, i);
    } else {
        assert(i == c.next);
    }
}

/// The aim moves forward only: the index never goes back, goes up by one at most in a move,
/// and does go up in a move that passes what is due, so that no pass is rewarded twice.
pub proof fn law_aim_moves_forward<S: Real>(
    start: Vec3<S>,
    traj: Seq<Vec3<S>>,
    course: Course<S>,
    k: nat,
    n: nat,
)
    requires
        course.wf(),
        course.laps_completed + n <= usize::MAX,
        k <= n <= traj.len(),
    ensures
        ({
            let (i, j) = (
                due_after(start, traj, course, k),
                due_after(start, traj, course, n),
            );
            &&& i <= j <= i + (n - k)
            &&& flown(course, path(start, traj), k).passes(
                path(start, traj)[k as int],
                path(start, traj)[k as int + 1],
            ) && k < n ==> i < j
        }),
    decreases n - k,
{
    let p = path(start, traj);
    law_rollout_follows_the_course(start, traj, course, k);
    law_rollout_follows_the_course(start, traj, course, n);
    lemma_passed_grows(course, p, k, n);
}

proof fn lemma_passed_grows<S: Real>(course: Course<S>, path: Seq<Vec3<S>>, k: nat, n: nat)
    requires
        k <= n,
    ensures
        passed(course, path, k) <= passed(course, path, n) <= passed(course, path, k) + (n - k),
        k < n && flown(course, path, k).passes(path[k as int], path[k as int + 1]) ==> passed(
            course,
            path,
            k,
        ) < passed(course, path, n),
    decreases n,
{
    if k < n {
        lemma_passed_grows(course, path, k, (n - 1) as nat);
    }
}

// ---------------------------------------------------------------------------
// The cost
// ---------------------------------------------------------------------------
/// The velocity of a move in one step.
pub open spec fn velocity<S: Real>(dt: S, from: Vec3<S>, to: Vec3<S>) -> Row3 {
    Row3 {
        x: (to.x.val() - from.x.val()) / dt.val(),
        y: (to.y.val() - from.y.val()) / dt.val(),
        z: (to.z.val() - from.z.val()) / dt.val(),
    }
}

/// The row from one point to another.
pub open spec fn toward<S: Real>(from: Vec3<S>, to: Vec3<S>) -> Row3 {
    Row3 {
        x: to.x.val() - from.x.val(),
        y: to.y.val() - from.y.val(),
        z: to.z.val() - from.z.val(),
    }
}

/// The price of the height `z`: none above the floor altitude, quadratic below.
pub open spec fn floor_price(w: real, z: real) -> real {
    let floor = 2real / 5real;
    if z < floor {
        w * ((floor - z) * (floor - z))
    } else {
        0real
    }
}

/// The price of exceeding a speed limit.
pub open spec fn speed_price(w: real, speed: real, limit: real) -> real {
    if limit < speed {
        w * ((speed - limit) * (speed - limit))
    } else {
        0real
    }
}

/// The price of a move with a gate to fly to: the squared distance before it, less the speed
/// toward the centre, the speed above the limit, the height off the centre.
pub open spec fn aim_price<S: Real>(
    cfg: MppiConfig<S>,
    g: Gate<S>,
    from: Vec3<S>,
    to: Vec3<S>,
) -> real {
    let v = velocity(cfg.dt, from, to);
    let d = toward(from, g.center);
    let dist = (g.center - from).spec_norm().val();
    let speed = (to - from).spec_scale(S::spec_one() / cfg.dt).spec_norm().val();
    let rise = to.z.val() - g.center.z.val();
    cfg.w_pos.val() * crate::algebra::dot(d, d) + (if dist > 1real / 1000000real {
        speed_price(cfg.w_speed.val(), speed, cfg.v_max.val()) - cfg.w_vel.val() * (
        crate::algebra::dot(v, d) / dist)
    } else {
        0real
    }) + cfg.w_alt.val() * (rise * rise)
}

/// The price of move `k` of the path on the course.
pub open spec fn move_price<S: Real>(
    cfg: MppiConfig<S>,
    course: Course<S>,
    path: Seq<Vec3<S>>,
    effort_sq: Seq<S>,
    k: int,
) -> real {
    let (from, to) = (path[k], path[k + 1]);
    let v = velocity(cfg.dt, from, to);
    let c = flown(course, path, k as nat);
    cfg.w_vdamp.val() * crate::algebra::dot(v, v) + floor_price(cfg.w_floor.val(), to.z.val()) + (
    match c.spec_target() {
        Some(g) => aim_price(cfg, g, from, to),
        None => 0real,
    }) - (if c.passes(from, to) {
        cfg.gate_reward.val()
    } else {
        0real
    }) + cfg.w_effort.val() * effort_sq[k].val()
}

/// The price of the first `n` moves.
pub open spec fn moves_price<S: Real>(
    cfg: MppiConfig<S>,
    course: Course<S>,
    path: Seq<Vec3<S>>,
    effort_sq: Seq<S>,
    n: nat,
) -> real
    decreases n,
{
    if n == 0 {
        0real
    } else {
        moves_price(cfg, course, path, effort_sq, (n - 1) as nat) + move_price(
            cfg,
            course,
            path,
            effort_sq,
            n - 1,
        )
    }
}

/// The norm of a vector is the root of its square.
pub proof fn lemma_norm<S: Real>(v: Vec3<S>)
    requires
        crate::scalar::exact::<S>(),
    ensures
        v.spec_dot(v).val() == crate::algebra::dot(v.row(), v.row()),
        v.spec_norm().val() >= 0real,
        v.spec_norm().val() * v.spec_norm().val() == crate::algebra::dot(v.row(), v.row()),
{
    crate::linalg::lemma_square_sign(v.x.val());
    crate::linalg::lemma_square_sign(v.y.val());
    crate::linalg::lemma_square_sign(v.z.val());
}

proof fn lemma_velocity<S: Real>(dt: S, from: Vec3<S>, to: Vec3<S>)
    requires
        crate::scalar::exact::<S>(),
        dt.val() != 0real,
    ensures
        (to - from).spec_scale(S::spec_one() / dt).row() == velocity(dt, from, to),
{
    let i = (S::spec_one() / dt).val();
    let d = dt.val();
    lemma_over(to.x.val() - from.x.val(), d, i);
    lemma_over(to.y.val() - from.y.val(), d, i);
    lemma_over(to.z.val() - from.z.val(), d, i);
}

/// Multiplying by a reciprocal is dividing.
pub proof fn lemma_over(x: real, d: real, i: real)
    requires
        d != 0real,
        i == 1real / d,
    ensures
        x * i == x / d,
{
    assert(x * i == x / d) by (nonlinear_arith)
        requires
            d != 0real,
            i == 1real / d,
    ;
}

proof fn lemma_motion<S: Real>(cfg: MppiConfig<S>, from: Vec3<S>, p: Vec3<S>, cost: S)
    requires
        crate::scalar::exact::<S>(),
        cfg.dt.val() != 0real,
    ensures
        ({
            let v = velocity(cfg.dt, from, p);
            motion_cost(
                cfg,
                (p - from).spec_scale(S::spec_one() / cfg.dt),
                p,
                cost,
            ).val() == cost.val() + cfg.w_vdamp.val() * crate::algebra::dot(v, v) + floor_price(
                cfg.w_floor.val(),
                p.z.val(),
            )
        }),
{
    lemma_velocity(cfg.dt, from, p);
    lemma_norm((p - from).spec_scale(S::spec_one() / cfg.dt));
    let floor = crate::mppi::spec_z_floor::<S>();
    crate::scalar::lemma_splat_fraction::<S>(4, 10);
    assert(floor.val() == 2real / 5real);
    assert((p.z < floor) <==> p.z.val() < floor.val());
    let d = floor.val() - p.z.val();
    crate::algebra::lemma_assoc(cfg.w_floor.val(), d, d);
}

proof fn lemma_speed_toward(v: Row3, d: Row3, n: real, i: real)
    requires
        n != 0real,
        i == 1real / n,
    ensures
        v.x * (d.x * i) + v.y * (d.y * i) + v.z * (d.z * i) == crate::algebra::dot(v, d) / n,
{
    crate::algebra::lemma_scale3(v.x, d.x, v.y, d.y, v.z, d.z, i);
    lemma_over(crate::algebra::dot(v, d), n, i);
}

proof fn lemma_aim<S: Real>(cfg: MppiConfig<S>, g: Gate<S>, from: Vec3<S>, p: Vec3<S>, cost: S)
    requires
        crate::scalar::exact::<S>(),
        cfg.dt.val() != 0real,
    ensures
        gate_cost(
            cfg,
            g,
            from,
            (p - from).spec_scale(S::spec_one() / cfg.dt),
            p,
            cost,
        ).val() == cost.val() + aim_price(cfg, g, from, p) - (if g.spec_crossed(from, p) {
            cfg.gate_reward.val()
        } else {
            0real
        }),
{
    let vel = (p - from).spec_scale(S::spec_one() / cfg.dt);
    lemma_velocity(cfg.dt, from, p);
    let to_gate = g.center - from;
    lemma_norm(to_gate);
    lemma_norm(vel);
    let dist = to_gate.spec_norm();
    let d = dist.val();
    crate::algebra::lemma_assoc(cfg.w_pos.val(), d, d);
    let tiny = S::spec_splat(1, 1000000);
    crate::scalar::lemma_splat_fraction::<S>(1, 1000000);
    assert((tiny < dist) <==> tiny.val() < d);
    let speed = vel.spec_norm();
    assert((cfg.v_max < speed) <==> cfg.v_max.val() < speed.val());
    let over = speed.val() - cfg.v_max.val();
    crate::algebra::lemma_assoc(cfg.w_speed.val(), over, over);
    let rise = p.z.val() - g.center.z.val();
    crate::algebra::lemma_assoc(cfg.w_alt.val(), rise, rise);
    if tiny.val() < d {
        lemma_speed_toward(vel.row(), to_gate.row(), d, (S::spec_one() / dist).val());
    }
}

proof fn lemma_moves<S: Real>(
    start: Vec3<S>,
    traj: Seq<Vec3<S>>,
    effort_sq: Seq<S>,
    course: Course<S>,
    cfg: MppiConfig<S>,
    n: nat,
)
    requires
        crate::scalar::exact::<S>(),
        cfg.dt.val() != 0real,
        course.wf(),
        course.laps_completed + n <= usize::MAX,
        n <= traj.len(),
    ensures
        running_cost(start, traj, effort_sq, course, cfg, n).val() == moves_price(
            cfg,
            course,
            path(start, traj),
            effort_sq,
            n,
        ),
    decreases n,
{
    if n > 0 {
        let k = (n - 1) as nat;
        let p = path(start, traj);
        lemma_moves(start, traj, effort_sq, course, cfg, k);
        law_rollout_follows_the_course(start, traj, course, k);
        lemma_flown(course, p, k);
        let prev = before_step(start, traj, n - 1);
        assert(prev == p[n - 1]);
        let to = traj[n - 1];
        assert(to == p[n as int]);
        let cost = running_cost(start, traj, effort_sq, course, cfg, k);
        lemma_motion(cfg, prev, to, cost);
        let vel = (to - prev).spec_scale(S::spec_one() / cfg.dt);
        let moved = motion_cost(cfg, vel, to, cost);
        let c = flown(course, p, k);
        match c.spec_target() {
            Some(g) => {
                lemma_aim(cfg, g, prev, to, moved);
                assert(!c.spec_finished());
                assert(c.passes(prev, to) == g.spec_crossed(prev, to));
            },
            None => {
                assert(c.spec_finished());
            },
        }
    }
}

/// The cost of a rollout is the price of its moves, each on the course as it stands when the
/// moves before it have been flown, and the distance that is left at the end to the target
/// of the course.
pub proof fn law_rollout_cost_on_the_course<S: Real>(
    start: Vec3<S>,
    traj: Seq<Vec3<S>>,
    effort_sq: Seq<S>,
    course: Course<S>,
    cfg: MppiConfig<S>,
)
    requires
        crate::scalar::exact::<S>(),
        cfg.dt.val() != 0real,
        course.wf(),
        course.laps_completed + traj.len() <= usize::MAX,
    ensures
        ({
            let p = path(start, traj);
            let n = traj.len();
            spec_rollout_cost(start, traj, effort_sq, course, cfg).val() == moves_price(
                cfg,
                course,
                p,
                effort_sq,
                n,
            ) + match flown(course, p, n).spec_target() {
                Some(g) if n > 0 => cfg.w_terminal.val() * (p[n as int] - g.center).spec_norm().val(),
                _ => 0real,
            }
        }),
{
    let n = traj.len();
    let p = path(start, traj);
    lemma_moves(start, traj, effort_sq, course, cfg, n);
    law_rollout_follows_the_course(start, traj, course, n);
    if n > 0 {
        assert(p[n as int] == traj[n - 1]);
    }
}

proof fn lemma_reward<S: Real>(
    cfg: MppiConfig<S>,
    reward: S,
    course: Course<S>,
    path: Seq<Vec3<S>>,
    effort_sq: Seq<S>,
    n: nat,
)
    ensures
        moves_price(
            MppiConfig { gate_reward: reward, ..cfg },
            course,
            path,
            effort_sq,
            n,
        ) == moves_price(cfg, course, path, effort_sq, n) + (cfg.gate_reward.val() - reward.val())
            * (passed(course, path, n) as real),
    decreases n,
{
    let other = MppiConfig { gate_reward: reward, ..cfg };
    let d = cfg.gate_reward.val() - reward.val();
    if n > 0 {
        let k = (n - 1) as nat;
        lemma_reward(cfg, reward, course, path, effort_sq, k);
        let (a, b) = (passed(course, path, k) as real, passed(course, path, n) as real);
        match flown(course, path, k).spec_target() {
            Some(g) => {
                assert(aim_price(other, g, path[n - 1], path[n as int]) == aim_price(
                    cfg,
                    g,
                    path[n - 1],
                    path[n as int],
                ));
            },
            None => {},
        }
        crate::algebra::lemma_dist(d, a, b - a);
        crate::physics::lemma_times_one(d, 1real);
        crate::physics::lemma_times_zero(d, 0real);
    } else {
        crate::physics::lemma_times_zero(d, 0real);
    }
}

/// The reward is paid once for every gate that the path passes, and for nothing else: two
/// costs of one rollout that differ in the reward differ by as much for each gate passed.
pub proof fn law_reward_counts_gates<S: Real>(
    start: Vec3<S>,
    traj: Seq<Vec3<S>>,
    effort_sq: Seq<S>,
    course: Course<S>,
    cfg: MppiConfig<S>,
    reward: S,
)
    requires
        crate::scalar::exact::<S>(),
        cfg.dt.val() != 0real,
        course.wf(),
        course.laps_completed + traj.len() <= usize::MAX,
    ensures
        ({
            let p = path(start, traj);
            let n = traj.len();
            let gates = flown(course, p, n).spec_gates_passed() - course.spec_gates_passed();
            spec_rollout_cost(
                start,
                traj,
                effort_sq,
                course,
                MppiConfig { gate_reward: reward, ..cfg },
            ).val() == spec_rollout_cost(start, traj, effort_sq, course, cfg).val() + (
            cfg.gate_reward.val() - reward.val()) * (gates as real)
        }),
{
    let p = path(start, traj);
    let other = MppiConfig { gate_reward: reward, ..cfg };
    law_rollout_cost_on_the_course(start, traj, effort_sq, course, cfg);
    law_rollout_cost_on_the_course(start, traj, effort_sq, course, other);
    lemma_reward(cfg, reward, course, p, effort_sq, traj.len());
    lemma_flown(course, p, traj.len());
}

// ---------------------------------------------------------------------------
// The rollout against a fan of splines
// ---------------------------------------------------------------------------
/// A rollout against a fan counts its gates as an open course does, whose gates are passed
/// once each.
pub proof fn law_fan_rollout_follows_the_open_course<S: Real>(
    start: Vec3<S>,
    traj: Seq<Vec3<S>>,
    course: Course<S>,
    n: nat,
)
    requires
        course.wf(),
        course.laps_completed + n <= usize::MAX,
        n <= traj.len(),
    ensures
        ({
            let open = Course { loop_course: false, ..course };
            let p = path(start, traj);
            &&& crate::spline_mppi::gate_due(start, traj, course, n) == flown(open, p, n).next
            &&& flown(open, p, n).next == course.next + passed(open, p, n)
        }),
    decreases n,
{
    let open = Course { loop_course: false, ..course };
    let p = path(start, traj);
    lemma_flown(open, p, n);
    if n > 0 {
        let k = (n - 1) as nat;
        law_fan_rollout_follows_the_open_course(start, traj, course, k);
        assert(before_step(start, traj, n - 1) == p[n - 1]);
        assert(traj[n - 1] == p[n as int]);
        lemma_flown(open, p, k);
        let c = flown(open, p, k);
        assert(c.gates == course.gates);
        assert(c.gates.len() == c.gates@.len());
    }
}

// ---------------------------------------------------------------------------
// Gates
// ---------------------------------------------------------------------------
/// The point at fraction `t` of the way.
pub open spec fn on_the_way<S: Real>(from: Vec3<S>, to: Vec3<S>, t: real) -> Row3 {
    Row3 {
        x: from.x.val() + (to.x.val() - from.x.val()) * t,
        y: from.y.val() + (to.y.val() - from.y.val()) * t,
        z: from.z.val() + (to.z.val() - from.z.val()) * t,
    }
}

/// The row from the centre of a gate to a point.
pub open spec fn off_centre<S: Real>(g: Gate<S>, p: Row3) -> Row3 {
    Row3 { x: p.x - g.center.x.val(), y: p.y - g.center.y.val(), z: p.z - g.center.z.val() }
}

/// At fraction `t` of the way the path is on the disc of a gate: in its plane, and no
/// farther from the centre than the radius.
pub open spec fn meets<S: Real>(g: Gate<S>, from: Vec3<S>, to: Vec3<S>, t: real) -> bool {
    let d = off_centre(g, on_the_way(from, to, t));
    &&& 0real <= t <= 1real
    &&& crate::algebra::dot(d, g.normal.row()) == 0real
    &&& crate::algebra::dot(d, d) <= g.radius.val() * g.radius.val()
}

/// Of a point in the plane, the in-plane distance from the centre is the distance.
proof fn lemma_offset<S: Real>(g: Gate<S>, p: Vec3<S>)
    requires
        crate::scalar::exact::<S>(),
        g.spec_signed_plane_dist(p).val() == 0real,
    ensures
        g.spec_radial_offset(p).val() >= 0real,
        ({
            let d = off_centre(g, p.row());
            g.spec_radial_offset(p).val() * g.spec_radial_offset(p).val() == crate::algebra::dot(
                d,
                d,
            )
        }),
{
    let d = p - g.center;
    let s = d.spec_dot(g.normal);
    assert(s == g.spec_signed_plane_dist(p));
    crate::physics::lemma_times_zero(g.normal.x.val(), s.val());
    crate::physics::lemma_times_zero(g.normal.y.val(), s.val());
    crate::physics::lemma_times_zero(g.normal.z.val(), s.val());
    let perp = d - g.normal.spec_scale(s);
    assert(perp.row() == d.row());
    lemma_norm(perp);
}

proof fn lemma_within(a: real, r: real)
    requires
        a >= 0real,
        r >= 0real,
    ensures
        a <= r <==> a * a <= r * r,
{
    assert(a <= r <==> a * a <= r * r) by (nonlinear_arith)
        requires
            a >= 0real,
            r >= 0real,
    ;
}

/// A gate is crossed exactly where the path goes through its disc: a move that does not run
/// along the plane passes it if and only if some point of it lies in the plane within
/// the radius of the centre.
pub proof fn law_crossing_is_through_the_disc<S: Real>(
    g: Gate<S>,
    from: Vec3<S>,
    to: Vec3<S>,
    t: real,
)
    requires
        crate::scalar::exact::<S>(),
        g.radius.val() >= 0real,
    ensures
        g.spec_crossed(from, to) ==> exists|u: real| meets(g, from, to, u),
        meets(g, from, to, t) && {
            let d = g.spec_signed_plane_dist(from).val() - g.spec_signed_plane_dist(to).val();
            d <= -S::spec_splat(1, 1000000000000).val() || d >= S::spec_splat(
                1,
                1000000000000,
            ).val()
        } ==> g.spec_crossed(from, to),
{
    let (a, b) = (g.spec_signed_plane_dist(from), g.spec_signed_plane_dist(to));
    let (dp, dc) = (a.val(), b.val());
    let zero = S::spec_zero();
    let tiny = S::spec_splat(1, 1000000000000);
    crate::scalar::lemma_splat_fraction::<S>(1, 1000000000000);
    assert((zero < a * b) <==> zero.val() < (a * b).val());
    assert(((a - b).spec_abs() < tiny) <==> (a - b).spec_abs().val() < tiny.val());
    if g.spec_crossed(from, to) {
        crate::gates::lemma_ends_apart(g, from, to);
        let u = dp / (dp - dc);
        let hit = g.spec_hit(from, to);
        crate::gates::law_hit_is_on_plane(g, from, to);
        lemma_offset(g, hit);
        let off = g.spec_radial_offset(hit);
        assert((off <= g.radius) <==> off.val() <= g.radius.val());
        lemma_within(off.val(), g.radius.val());
        lemma_fraction_between(dp, dc);
        assert(hit.row() == on_the_way(from, to, u));
        assert(meets(g, from, to, u));
    }
    if meets(g, from, to, t) && (dp - dc <= -tiny.val() || dp - dc >= tiny.val()) {
        crate::gates::lemma_dist_along(from.row(), to.row(), g.normal.row(), g.center.row(), t);
        assert(dp + t * (dc - dp) == 0real);
        lemma_opposite(dp, dc, t);
        assert(!g.spec_same_side(from, to));
        let hit = g.spec_hit(from, to);
        assert(hit.row() == on_the_way(from, to, t));
        crate::gates::law_hit_is_on_plane(g, from, to);
        lemma_offset(g, hit);
        let off = g.spec_radial_offset(hit);
        lemma_within(off.val(), g.radius.val());
        assert((off <= g.radius) <==> off.val() <= g.radius.val());
    }
}

proof fn lemma_fraction_between(p: real, c: real)
    requires
        p - c != 0real,
        p * c <= 0real,
    ensures
        0real <= p / (p - c) <= 1real,
{
    let u = p / (p - c);
    let d = p - c;
    assert(u * d == p) by (nonlinear_arith)
        requires
            u == p / d,
            d != 0real,
    ;
    assert(0real <= u <= 1real) by (nonlinear_arith)
        requires
            u * d == p,
            d == p - c,
            d != 0real,
            p * c <= 0real,
    ;
}

proof fn lemma_opposite(p: real, c: real, t: real)
    requires
        p + t * (c - p) == 0real,
        0real <= t <= 1real,
        p - c != 0real,
    ensures
        p * c <= 0real,
        t == p / (p - c),
{
    let d = c - p;
    assert(p == -(t * d));
    assert(c == (1real - t) * d) by (nonlinear_arith)
        requires
            p == -(t * d),
            d == c - p,
    ;
    let q = d * d;
    crate::linalg::lemma_square_sign(d);
    let m = t * (1real - t);
    assert(p * c == -(m * q)) by (nonlinear_arith)
        requires
            p == -(t * d),
            c == (1real - t) * d,
            q == d * d,
            m == t * (1real - t),
    ;
    assert(m >= 0real) by (nonlinear_arith)
        requires
            m == t * (1real - t),
            0real <= t <= 1real,
    ;
    assert(m * q >= 0real) by (nonlinear_arith)
        requires
            m >= 0real,
            q >= 0real,
    ;
    assert(t == p / (p - c)) by (nonlinear_arith)
        requires
            p + t * (c - p) == 0real,
            p - c != 0real,
    ;
}

// ---------------------------------------------------------------------------
// The cost against a fan, and of rotor forces
// ---------------------------------------------------------------------------
/// The vertex that a point is held against is the nearest of all: no other is closer.
pub proof fn law_nearest_is_nearest<S: Real>(pts: Seq<Vec3<S>>, p: Vec3<S>, n: nat, k: int)
    requires
        crate::scalar::exact::<S>(),
        forall|x: S| #[trigger] (x < S::spec_infinity()),
        0 <= k < n <= pts.len(),
    ensures
        ({
            let (j, d) = crate::spline_mppi::nearest(pts, p, n);
            &&& 0 <= j < n
            &&& d == crate::spline_mppi::dist_sq(p, pts[j])
            &&& d.val() <= crate::spline_mppi::dist_sq(p, pts[k]).val()
        }),
    decreases n,
{
    let e = crate::spline_mppi::dist_sq(p, pts[n - 1]);
    if n >= 2 {
        law_nearest_is_nearest(pts, p, (n - 1) as nat, if k < n - 1 { k } else { 0 });
        let d = crate::spline_mppi::nearest(pts, p, (n - 1) as nat).1;
        assert((e < d) <==> e.val() < d.val());
    } else {
        assert(crate::spline_mppi::nearest(pts, p, 0) == (0int, S::spec_infinity()));
        assert(e < S::spec_infinity());
    }
}

/// The row without its part along the row `t`.
pub open spec fn across(v: Row3, t: Row3) -> Row3 {
    let a = crate::algebra::dot(v, t);
    Row3 { x: v.x - t.x * a, y: v.y - t.y * a, z: v.z - t.z * a }
}

/// The price of a move against a fan: the squared distance of its end from the nearest
/// vertex, the velocity across the tangent there, less the speed along it where it is forward;
/// the speed above the limit, and the height below the floor.
pub open spec fn fan_price<S: Real>(
    cfg: crate::spline_mppi::SplineMppiConfig<S>,
    f: crate::spline_mppi::Fan<S>,
    from: Vec3<S>,
    to: Vec3<S>,
) -> real {
    let (j, d) = crate::spline_mppi::nearest(f.pts, to, f.pts.len());
    let v = velocity(cfg.base.dt, from, to);
    let t = f.tan[j].row();
    let along = crate::algebra::dot(v, t);
    let side = across(v, t);
    let speed = (to - from).spec_scale(S::spec_one() / cfg.base.dt).spec_norm().val();
    cfg.w_contour.val() * d.val() + cfg.w_vperp.val() * crate::algebra::dot(side, side) - (
    if along >= 0real {
        cfg.w_vprog.val() * along
    } else {
        0real
    }) + speed_price(cfg.base.w_speed.val(), speed, cfg.base.v_max.val()) + floor_price(
        cfg.w_floor.val(),
        to.z.val(),
    )
}

proof fn lemma_fan_price<S: Real>(
    cfg: crate::spline_mppi::SplineMppiConfig<S>,
    f: crate::spline_mppi::Fan<S>,
    from: Vec3<S>,
    to: Vec3<S>,
    cost: S,
)
    requires
        crate::scalar::exact::<S>(),
        cfg.base.dt.val() != 0real,
    ensures
        crate::spline_mppi::track_cost(cfg, f, from, to, cost).val() == cost.val() + fan_price(
            cfg,
            f,
            from,
            to,
        ),
{
    let v = (to - from).spec_scale(S::spec_one() / cfg.base.dt);
    lemma_velocity(cfg.base.dt, from, to);
    lemma_norm(v);
    let (j, d) = crate::spline_mppi::nearest(f.pts, to, f.pts.len());
    let along = v.spec_dot(f.tan[j]);
    let side = v - f.tan[j].spec_scale(along);
    assert(along.val() == crate::algebra::dot(v.row(), f.tan[j].row()));
    assert(side.row() == across(v.row(), f.tan[j].row()));
    lemma_norm(side);
    assert(along.spec_is_finite() && S::spec_zero().spec_is_finite());
    let top = along.spec_max(S::spec_zero());
    crate::physics::lemma_times_zero(cfg.w_vprog.val(), 0real);
    assert(top.val() == if along.val() >= 0real {
        along.val()
    } else {
        0real
    });
    let speed = v.spec_norm();
    let vm = cfg.base.v_max;
    assert((vm < speed) <==> vm.val() < speed.val());
    let over = speed.val() - vm.val();
    crate::algebra::lemma_assoc(cfg.base.w_speed.val(), over, over);
    let floor = crate::mppi::spec_z_floor::<S>();
    crate::scalar::lemma_splat_fraction::<S>(4, 10);
    assert(floor.val() == 2real / 5real);
    assert((to.z < floor) <==> to.z.val() < floor.val());
    let h = floor.val() - to.z.val();
    crate::algebra::lemma_assoc(cfg.w_floor.val(), h, h);
}

/// The price of the first `n` moves against a fan.
pub open spec fn fan_moves_price<S: Real>(
    cfg: crate::spline_mppi::SplineMppiConfig<S>,
    f: crate::spline_mppi::Fan<S>,
    open: Course<S>,
    path: Seq<Vec3<S>>,
    n: nat,
) -> real
    decreases n,
{
    if n == 0 {
        0real
    } else {
        let k = (n - 1) as nat;
        fan_moves_price(cfg, f, open, path, k) + fan_price(cfg, f, path[n - 1], path[n as int]) - (
        if flown(open, path, k).passes(path[n - 1], path[n as int]) {
            cfg.gate_reward.val()
        } else {
            0real
        })
    }
}

/// The cost of a rollout against a fan is the price of its moves, less the reward of each gate
/// that it passes on the open course; and less the farthest progress that a nearest vertex
/// stands for, which only more progress can raise.
pub proof fn law_fan_cost_on_the_course<S: Real>(
    cfg: crate::spline_mppi::SplineMppiConfig<S>,
    f: crate::spline_mppi::Fan<S>,
    start: Vec3<S>,
    traj: Seq<Vec3<S>>,
    course: Course<S>,
)
    requires
        crate::scalar::exact::<S>(),
        cfg.base.dt.val() != 0real,
        course.wf(),
        course.laps_completed + traj.len() <= usize::MAX,
    ensures
        ({
            let open = Course { loop_course: false, ..course };
            let best = crate::spline_mppi::progress_upto(f, traj, traj.len()).val();
            &&& crate::spline_mppi::spec_contour_cost(cfg, f, start, traj, course).val()
                == fan_moves_price(cfg, f, open, path(start, traj), traj.len())
                - cfg.w_progress.val() * best
            &&& best >= 0real
            &&& forall|k: int|
                0 <= k < traj.len() ==> best >= f.prog[crate::spline_mppi::nearest(
                    f.pts,
                    #[trigger] traj[k],
                    f.pts.len(),
                ).0].val()
        }),
{
    lemma_fan_moves(cfg, f, start, traj, course, traj.len());
    lemma_progress(f, traj, traj.len());
}

proof fn lemma_progress<S: Real>(
    f: crate::spline_mppi::Fan<S>,
    traj: Seq<Vec3<S>>,
    n: nat,
)
    requires
        crate::scalar::exact::<S>(),
        n <= traj.len(),
    ensures
        crate::spline_mppi::progress_upto(f, traj, n).val() >= 0real,
        forall|k: int|
            0 <= k < n ==> crate::spline_mppi::progress_upto(f, traj, n).val()
                >= f.prog[crate::spline_mppi::nearest(
                f.pts,
                #[trigger] traj[k],
                f.pts.len(),
            ).0].val(),
    decreases n,
{
    if n > 0 {
        lemma_progress(f, traj, (n - 1) as nat);
        let a = crate::spline_mppi::progress_upto(f, traj, (n - 1) as nat);
        let b = f.prog[crate::spline_mppi::nearest(f.pts, traj[n - 1], f.pts.len()).0];
        assert(a.spec_is_finite() && b.spec_is_finite());
        assert(a.spec_max(b).val() >= a.val() && a.spec_max(b).val() >= b.val());
    }
}

proof fn lemma_fan_moves<S: Real>(
    cfg: crate::spline_mppi::SplineMppiConfig<S>,
    f: crate::spline_mppi::Fan<S>,
    start: Vec3<S>,
    traj: Seq<Vec3<S>>,
    course: Course<S>,
    n: nat,
)
    requires
        crate::scalar::exact::<S>(),
        cfg.base.dt.val() != 0real,
        course.wf(),
        course.laps_completed + traj.len() <= usize::MAX,
        n <= traj.len(),
    ensures
        crate::spline_mppi::contour_upto(cfg, f, start, traj, course, n).val() == fan_moves_price(
            cfg,
            f,
            Course { loop_course: false, ..course },
            path(start, traj),
            n,
        ),
    decreases n,
{
    if n > 0 {
        let k = (n - 1) as nat;
        let open = Course { loop_course: false, ..course };
        let p = path(start, traj);
        lemma_fan_moves(cfg, f, start, traj, course, k);
        law_fan_rollout_follows_the_open_course(start, traj, course, k);
        lemma_flown(open, p, k);
        assert(before_step(start, traj, n - 1) == p[n - 1]);
        assert(traj[n - 1] == p[n as int]);
        let c = crate::spline_mppi::contour_upto(cfg, f, start, traj, course, k);
        lemma_fan_price(cfg, f, p[n - 1], p[n as int], c);
        let o = flown(open, p, k);
        assert(o.gates == course.gates);
        assert(o.gates.len() == o.gates@.len());
    }
}

/// By how much a tilt goes beyond what is free: its uprightness below 0.6.
pub open spec fn tilt_price(up: real) -> real {
    if up < 3real / 5real {
        (3real / 5real - up) * (3real / 5real - up)
    } else {
        0real
    }
}

/// The tilt prices of the first `n` entries.
pub open spec fn tilts_price<S: Real>(up: Seq<S>, n: nat) -> real
    decreases n,
{
    if n == 0 {
        0real
    } else {
        tilts_price(up, (n - 1) as nat) + tilt_price(up[n - 1].val())
    }
}

/// The squares of the first `n` entries.
pub open spec fn squares<S: Real>(x: Seq<S>, n: nat) -> real
    decreases n,
{
    if n == 0 {
        0real
    } else {
        squares(x, (n - 1) as nat) + x[n - 1].val() * x[n - 1].val()
    }
}

proof fn lemma_squares<S: Real>(x: Seq<S>, n: nat)
    requires
        crate::scalar::exact::<S>(),
    ensures
        crate::rotor_mppi::sum_squares(x, n).val() == squares(x, n),
    decreases n,
{
    if n > 0 {
        lemma_squares(x, (n - 1) as nat);
    }
}

proof fn lemma_tilts<S: Real>(up: Seq<S>, n: nat)
    requires
        crate::scalar::exact::<S>(),
        n <= up.len(),
    ensures
        crate::rotor_mppi::sum_squares(crate::rotor_mppi::tilt_excess(up), n).val() == tilts_price(
            up,
            n,
        ),
    decreases n,
{
    if n > 0 {
        lemma_tilts(up, (n - 1) as nat);
        crate::scalar::lemma_splat_fraction::<S>(6, 10);
        let e = S::spec_splat(6, 10) - up[n - 1];
        assert(e.spec_is_finite() && S::spec_zero().spec_is_finite());
        crate::physics::lemma_times_zero(0real, 0real);
    }
}

/// A candidate of rotor forces is charged for its predicted flight on the course, with the
/// squared deviation of each rotor from hover as its effort; for the distrust of the model;
/// for the squares of the predicted body rates; and for tilts beyond what is free.
pub proof fn law_rotor_cost_adds_up<S: crate::scalar::Wide>(
    c: crate::rotor_mppi::RotorMppiController<S>,
    state: crate::state::State<S>,
    course: Course<S>,
    seq: Seq<[S; 4]>,
    effort: Seq<S>,
)
    requires
        crate::scalar::exact::<S>(),
        crate::scalar::faithful::<S>(),
        effort.len() == seq.len(),
        forall|k: int|
            0 <= k < seq.len() ==> (#[trigger] effort[k]).val() == squares(
                crate::rotor_mppi::off_hover(seq[k], c.cfg.hover_force),
                4,
            ),
    ensures
        ({
            let m = c.model;
            let rates = m.spec_rates(state, seq);
            let up = m.spec_uprights(state, seq);
            c.spec_cost(state, course, seq).val() == spec_rollout_cost(
                state.x,
                m.spec_positions(state, seq),
                effort,
                course,
                c.cfg.base,
            ).val() + c.cfg.base.trust_lambda.val() * m.spec_raw_trust(state, seq).val()
                + c.cfg.w_omega.val() * squares(rates, rates.len()) + c.cfg.w_tilt.val()
                * tilts_price(up, up.len())
        }),
        forall|k: int, j: int|
            0 <= k < seq.len() && 0 <= j < 4 ==> (#[trigger] crate::rotor_mppi::off_hover(
                seq[k],
                c.cfg.hover_force,
            )[j]).val() == seq[k][j].val() - c.cfg.hover_force.val(),
{
    lemma_rotor_cost(c, state, course, seq);
    lemma_rotor_effort(seq, c.cfg.hover_force, effort);
    assert forall|k: int, j: int| 0 <= k < seq.len() && 0 <= j < 4 implies (#[trigger]
        crate::rotor_mppi::off_hover(seq[k], c.cfg.hover_force)[j]).val() == seq[k][j].val()
        - c.cfg.hover_force.val() by {
        lemma_off_hover(seq[k], c.cfg.hover_force, j);
    }
}

proof fn lemma_off_hover<S: Real>(f: [S; 4], hover: S, j: int)
    requires
        crate::scalar::exact::<S>(),
        0 <= j < 4,
    ensures
        crate::rotor_mppi::off_hover(f, hover)[j].val() == f[j].val() - hover.val(),
{
    assert(j == 0 || j == 1 || j == 2 || j == 3);
}

proof fn lemma_rotor_effort<S: Real>(seq: Seq<[S; 4]>, hover: S, effort: Seq<S>)
    requires
        crate::scalar::exact::<S>(),
        crate::scalar::faithful::<S>(),
        effort.len() == seq.len(),
        forall|k: int|
            0 <= k < seq.len() ==> (#[trigger] effort[k]).val() == squares(
                crate::rotor_mppi::off_hover(seq[k], hover),
                4,
            ),
    ensures
        crate::rotor_mppi::force_effort(seq, hover) == effort,
{
    let e = crate::rotor_mppi::force_effort(seq, hover);
    assert forall|k: int| 0 <= k < seq.len() implies #[trigger] e[k] == effort[k] by {
        lemma_squares(crate::rotor_mppi::off_hover(seq[k], hover), 4);
        assert(effort[k].val() == e[k].val());
    }
    assert(e =~= effort);
}

proof fn lemma_rotor_cost<S: crate::scalar::Wide>(
    c: crate::rotor_mppi::RotorMppiController<S>,
    state: crate::state::State<S>,
    course: Course<S>,
    seq: Seq<[S; 4]>,
)
    requires
        crate::scalar::exact::<S>(),
    ensures
        ({
            let m = c.model;
            let rates = m.spec_rates(state, seq);
            let up = m.spec_uprights(state, seq);
            c.spec_cost(state, course, seq).val() == spec_rollout_cost(
                state.x,
                m.spec_positions(state, seq),
                crate::rotor_mppi::force_effort(seq, c.cfg.hover_force),
                course,
                c.cfg.base,
            ).val() + c.cfg.base.trust_lambda.val() * m.spec_raw_trust(state, seq).val()
                + c.cfg.w_omega.val() * squares(rates, rates.len()) + c.cfg.w_tilt.val()
                * tilts_price(up, up.len())
        }),
{
    let rates = c.model.spec_rates(state, seq);
    let up = c.model.spec_uprights(state, seq);
    lemma_squares(rates, rates.len());
    lemma_tilts(up, up.len());
    assert(crate::rotor_mppi::tilt_excess(up).len() == up.len());
}

} // verus!
