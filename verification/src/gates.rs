//! Gate racing on top of the dynamics: gates to fly through in sequence, with pass
//! detection. Independent of the controller.
use vstd::prelude::*;

use crate::linalg::Vec3;
use crate::scalar::Real;

verus! {

/// A copy of a vector of plain values.
pub fn copy_vec<T: Copy>(v: &Vec<T>) -> (r: Vec<T>)
    ensures
        r@ == v@,
{
    let mut r: Vec<T> = Vec::new();
    for i in 0..v.len()
        invariant
            r@ == v@.take(i as int),
    {
        r.push(v[i]);
        assert(v@.take(i as int).push(v@[i as int]) =~= v@.take(i + 1));
    }
    assert(v@.take(v@.len() as int) =~= v@);
    r
}

/// A racing gate: a disc of radius `radius` about `center`, whose plane has the unit
/// normal `normal`.
#[derive(Clone, Copy, Debug)]
pub struct Gate<S> {
    pub center: Vec3<S>,
    pub normal: Vec3<S>,
    pub radius: S,
}

impl<S: Real> Gate<S> {
    pub open spec fn spec_new(center: Vec3<S>, normal: Vec3<S>, radius: S) -> Self {
        let n = normal.spec_norm();
        let unit = if S::spec_splat(1, 1000000000) < n {
            normal.spec_scale(S::spec_one() / n)
        } else {
            Vec3 { x: S::spec_one(), y: S::spec_zero(), z: S::spec_zero() }
        };
        Gate { center, normal: unit, radius }
    }

    pub open spec fn spec_signed_plane_dist(self, p: Vec3<S>) -> S {
        (p - self.center).spec_dot(self.normal)
    }

    pub open spec fn spec_radial_offset(self, p: Vec3<S>) -> S {
        let d = p - self.center;
        (d - self.normal.spec_scale(d.spec_dot(self.normal))).spec_norm()
    }

    /// Both ends of the segment on one side of the plane, or equally far from it.
    pub open spec fn spec_same_side(self, prev: Vec3<S>, cur: Vec3<S>) -> bool {
        let dp = self.spec_signed_plane_dist(prev);
        let dc = self.spec_signed_plane_dist(cur);
        S::spec_zero() < dp * dc || (dp - dc).spec_abs() < S::spec_splat(1, 1000000000000)
    }

    /// Where the segment meets the plane.
    pub open spec fn spec_hit(self, prev: Vec3<S>, cur: Vec3<S>) -> Vec3<S> {
        let dp = self.spec_signed_plane_dist(prev);
        let dc = self.spec_signed_plane_dist(cur);
        prev + (cur - prev).spec_scale(dp / (dp - dc))
    }

    /// The segment meets the plane inside the ring.
    pub open spec fn spec_crossed(self, prev: Vec3<S>, cur: Vec3<S>) -> bool {
        &&& !self.spec_same_side(prev, cur)
        &&& self.spec_radial_offset(self.spec_hit(prev, cur)) <= self.radius
    }

    /// A gate with its normal brought to unit length (the x axis if it has none).
    pub fn new(center: Vec3<S>, normal: Vec3<S>, radius: S) -> (r: Self)
        ensures
            r == Self::spec_new(center, normal, radius),
    {
        let n = normal.norm();
        let unit = if S::splat(1, 1000000000).lt(n) {
            normal.scale(S::one().div(n))
        } else {
            Vec3::new(S::one(), S::zero(), S::zero())
        };
        Gate { center, normal: unit, radius }
    }

    /// Signed distance from `p` to the plane, along the normal.
    pub fn signed_plane_dist(&self, p: Vec3<S>) -> (r: S)
        ensures
            r == self.spec_signed_plane_dist(p),
    {
        p.sub(self.center).dot(self.normal)
    }

    /// In-plane distance from the centre.
    pub fn radial_offset(&self, p: Vec3<S>) -> (r: S)
        ensures
            r == self.spec_radial_offset(p),
    {
        let d = p.sub(self.center);
        let along = d.dot(self.normal);
        let perp = d.sub(self.normal.scale(along));
        perp.norm()
    }

    /// Did the segment `prev -> cur` cross the plane within the radius, from either
    /// side?
    pub fn crossed(&self, prev: Vec3<S>, cur: Vec3<S>) -> (r: bool)
        ensures
            r == self.spec_crossed(prev, cur),
    {
        let dp = self.signed_plane_dist(prev);
        let dc = self.signed_plane_dist(cur);
        if S::zero().lt(dp.mul(dc)) || dp.sub(dc).abs().lt(S::splat(1, 1000000000000)) {
            return false;
        }
        let t = dp.div(dp.sub(dc));
        let hit = prev.add(cur.sub(prev).scale(t));
        self.radial_offset(hit).le(self.radius)
    }
}

/// An ordered sequence of gates and the index of the next one to pass.
pub struct Course<S> {
    pub gates: Vec<Gate<S>>,
    pub next: usize,
    pub laps_completed: usize,
    pub loop_course: bool,
}

impl<S: Real> Course<S> {
    pub open spec fn spec_finished(self) -> bool {
        !self.loop_course && self.next >= self.gates@.len()
    }

    pub open spec fn spec_target(self) -> Option<Gate<S>> {
        if self.next < self.gates@.len() {
            Some(self.gates@[self.next as int])
        } else {
            None
        }
    }

    /// The gates passed since the start, over all laps.
    pub open spec fn spec_gates_passed(self) -> int {
        self.laps_completed * self.gates@.len() + self.next
    }

    /// There is a gate to look at, unless the course is over.
    pub open spec fn wf(self) -> bool {
        self.next < self.gates@.len() || self.spec_finished()
    }

    /// The segment passes the next gate.
    pub open spec fn passes(self, prev: Vec3<S>, cur: Vec3<S>) -> bool {
        !self.spec_finished() && self.gates@[self.next as int].spec_crossed(prev, cur)
    }

    /// The course after the drone moved from `prev` to `cur`.
    pub open spec fn spec_advance(self, prev: Vec3<S>, cur: Vec3<S>) -> Self {
        if !self.passes(prev, cur) {
            self
        } else if self.loop_course && self.next + 1 >= self.gates@.len() {
            Course {
                next: 0,
                laps_completed: (self.laps_completed + 1) as usize,
                ..self
            }
        } else {
            Course { next: (self.next + 1) as usize, ..self }
        }
    }

    pub fn new(gates: Vec<Gate<S>>, loop_course: bool) -> (r: Self)
        ensures
            r == (Course { gates, next: 0, laps_completed: 0, loop_course }),
    {
        Course { gates, next: 0, laps_completed: 0, loop_course }
    }

    /// A copy of the course and its progress.
    pub fn copy(&self) -> (r: Self)
        ensures
            r.gates@ == self.gates@,
            r.next == self.next,
            r.laps_completed == self.laps_completed,
            r.loop_course == self.loop_course,
    {
        Course {
            gates: copy_vec(&self.gates),
            next: self.next,
            laps_completed: self.laps_completed,
            loop_course: self.loop_course,
        }
    }

    /// Gate currently targeted, if any is left.
    pub fn target(&self) -> (r: Option<Gate<S>>)
        ensures
            r == self.spec_target(),
    {
        if self.next < self.gates.len() {
            Some(self.gates[self.next])
        } else {
            None
        }
    }

    pub fn finished(&self) -> (r: bool)
        ensures
            r == self.spec_finished(),
    {
        !self.loop_course && self.next >= self.gates.len()
    }

    /// Update progress for a move from `prev` to `cur`; true if a gate was passed.
    pub fn advance(&mut self, prev: Vec3<S>, cur: Vec3<S>) -> (r: bool)
        requires
            old(self).wf(),
            old(self).laps_completed < usize::MAX,
        ensures
            r == old(self).passes(prev, cur),
            *final(self) == old(self).spec_advance(prev, cur),
    {
        if self.finished() {
            return false;
        }
        let n: usize = self.gates.len();
        let g = self.gates[self.next];
        if g.crossed(prev, cur) {
            self.next = self.next + 1;
            if self.loop_course && self.next >= n {
                self.next = 0;
                self.laps_completed = self.laps_completed + 1;
            }
            return true;
        }
        false
    }

    pub fn gates_passed(&self) -> (r: usize)
        requires
            self.spec_gates_passed() <= usize::MAX,
        ensures
            r == self.spec_gates_passed(),
    {
        assert(self.laps_completed * self.gates@.len() <= usize::MAX);
        self.laps_completed * self.gates.len() + self.next
    }
}

/// A move counts at most one gate: the total goes up by one if the next gate
/// is passed, and nothing changes otherwise.
pub proof fn law_advance_counts_one_gate<S: Real>(c: Course<S>, prev: Vec3<S>, cur: Vec3<S>)
    requires
        c.wf(),
        c.laps_completed < usize::MAX,
    ensures
        c.spec_advance(prev, cur).spec_gates_passed() == c.spec_gates_passed() + if c.passes(
            prev,
            cur,
        ) {
            1int
        } else {
            0int
        },
        c.spec_advance(prev, cur).gates == c.gates,
        c.spec_advance(prev, cur).wf(),
{
    let d = c.spec_advance(prev, cur);
    let n = c.gates@.len() as int;
    let laps = c.laps_completed as int;
    assert(c.gates.len() == c.gates@.len());
    if c.passes(prev, cur) && c.loop_course && c.next + 1 >= n {
        assert((laps + 1) * n == laps * n + n) by (nonlinear_arith);
    }
}

/// A finished course stays as it is.
pub proof fn law_finished_is_final<S: Real>(c: Course<S>, prev: Vec3<S>, cur: Vec3<S>)
    requires
        c.spec_finished(),
    ensures
        c.spec_advance(prev, cur) == c,
        c.spec_target() is None,
{
}

// ---------------------------------------------------------------------------
// Geometry
// ---------------------------------------------------------------------------
/// The normal of a gate has unit length, whatever it was made from.
pub proof fn law_normal_is_unit<S: Real>(center: Vec3<S>, normal: Vec3<S>, radius: S)
    requires
        crate::scalar::exact::<S>(),
    ensures
        ({
            let n = Gate::spec_new(center, normal, radius).normal.row();
            crate::algebra::dot(n, n) == 1real
        }),
{
    crate::scalar::lemma_splat_fraction::<S>(1, 1000000000);
    let v = normal.row();
    let s = normal.spec_dot(normal);
    let n = normal.spec_norm();
    crate::linalg::lemma_square_sign(v.x);
    crate::linalg::lemma_square_sign(v.y);
    crate::linalg::lemma_square_sign(v.z);
    assert(s.val() == crate::algebra::dot(v, v));
    assert((S::spec_splat(1, 1000000000) < n) <==> S::spec_splat(1, 1000000000).val() < n.val());
    if S::spec_splat(1, 1000000000) < n {
        let r = (S::spec_one() / n).val();
        crate::linalg::lemma_reciprocal(n.val(), r);
        crate::linalg::lemma_scaled_square(v.x, r);
        crate::linalg::lemma_scaled_square(v.y, r);
        crate::linalg::lemma_scaled_square(v.z, r);
        crate::linalg::lemma_scaled_square(n.val(), r);
        crate::algebra::lemma_dist(r * r, v.x * v.x, v.y * v.y);
        crate::algebra::lemma_dist(r * r, v.x * v.x + v.y * v.y, v.z * v.z);
    } else {
        crate::linalg::lemma_unit_times(1real);
        crate::linalg::lemma_unit_times(0real);
    }
}

/// The distance from the plane of a point on the segment.
pub proof fn lemma_dist_along(p: crate::algebra::Row3, c: crate::algebra::Row3, n: crate::algebra::Row3,
    o: crate::algebra::Row3, t: real)
    ensures
        (p.x + (c.x - p.x) * t - o.x) * n.x + (p.y + (c.y - p.y) * t - o.y) * n.y + (p.z + (c.z
            - p.z) * t - o.z) * n.z == ((p.x - o.x) * n.x + (p.y - o.y) * n.y + (p.z - o.z) * n.z)
            + t * (((c.x - o.x) * n.x + (c.y - o.y) * n.y + (c.z - o.z) * n.z) - ((p.x - o.x) * n.x
            + (p.y - o.y) * n.y + (p.z - o.z) * n.z)),
{
    lemma_dist_along_axis(p.x, c.x, n.x, o.x, t);
    lemma_dist_along_axis(p.y, c.y, n.y, o.y, t);
    lemma_dist_along_axis(p.z, c.z, n.z, o.z, t);
    let (px, py, pz) = ((p.x - o.x) * n.x, (p.y - o.y) * n.y, (p.z - o.z) * n.z);
    let (cx, cy, cz) = ((c.x - o.x) * n.x, (c.y - o.y) * n.y, (c.z - o.z) * n.z);
    crate::algebra::lemma_dist(t, cx - px, cy - py);
    crate::algebra::lemma_dist(t, (cx - px) + (cy - py), cz - pz);
    assert(cx + cy + cz - (px + py + pz) == (cx - px) + (cy - py) + (cz - pz));
}

proof fn lemma_dist_along_axis(p: real, c: real, n: real, o: real, t: real)
    ensures
        (p + (c - p) * t - o) * n == (p - o) * n + t * ((c - o) * n - (p - o) * n),
{
    let e = c - p;
    assert(p + e * t - o == (p - o) + e * t);
    crate::algebra::lemma_dist(n, p - o, e * t);
    crate::algebra::lemma_dist(n, c - o, p - o);
    assert((c - o) - (p - o) == e);
    assert((e * t) * n == t * (e * n)) by (nonlinear_arith);
}

/// Where a segment is said to meet the plane of a gate, it does.
pub proof fn law_hit_is_on_plane<S: Real>(g: Gate<S>, prev: Vec3<S>, cur: Vec3<S>)
    requires
        crate::scalar::exact::<S>(),
        !g.spec_same_side(prev, cur),
    ensures
        g.spec_signed_plane_dist(g.spec_hit(prev, cur)).val() == 0real,
{
    lemma_ends_apart(g, prev, cur);
    let (dp, dc) = (
        g.spec_signed_plane_dist(prev).val(),
        g.spec_signed_plane_dist(cur).val(),
    );
    let t = dp / (dp - dc);
    lemma_dist_along(prev.row(), cur.row(), g.normal.row(), g.center.row(), t);
    assert(dp + t * (dc - dp) == 0real) by (nonlinear_arith)
        requires
            dp - dc != 0real,
            t == dp / (dp - dc),
    ;
}

/// The ends of a segment on two sides of the plane are not equally far from it.
pub proof fn lemma_ends_apart<S: Real>(g: Gate<S>, prev: Vec3<S>, cur: Vec3<S>)
    requires
        crate::scalar::exact::<S>(),
        !g.spec_same_side(prev, cur),
    ensures
        g.spec_signed_plane_dist(prev).val() - g.spec_signed_plane_dist(cur).val() != 0real,
{
    crate::scalar::lemma_splat_fraction::<S>(1, 1000000000000);
    let d = g.spec_signed_plane_dist(prev) - g.spec_signed_plane_dist(cur);
    let tiny = S::spec_splat(1, 1000000000000);
    assert((d.spec_abs() < tiny) <==> d.spec_abs().val() < tiny.val());
}

proof fn lemma_same_root<S: Real>(a: S, b: S)
    requires
        crate::scalar::exact::<S>(),
        a.val() == b.val(),
        a.val() >= 0real,
    ensures
        a.spec_sqrt().val() == b.spec_sqrt().val(),
{
    let (x, y) = (a.spec_sqrt().val(), b.spec_sqrt().val());
    assert(x == y) by (nonlinear_arith)
        requires
            x * x == y * y,
            x >= 0real,
            y >= 0real,
    ;
}

proof fn lemma_same_offset<S: Real>(g: Gate<S>, p: Vec3<S>, q: Vec3<S>)
    requires
        crate::scalar::exact::<S>(),
        p.same(q),
    ensures
        g.spec_radial_offset(p).val() == g.spec_radial_offset(q).val(),
{
    let (d, e) = (p - g.center, q - g.center);
    let (u, v) = (
        d - g.normal.spec_scale(d.spec_dot(g.normal)),
        e - g.normal.spec_scale(e.spec_dot(g.normal)),
    );
    assert(d.spec_dot(g.normal).val() == e.spec_dot(g.normal).val());
    assert(u.same(v));
    assert(u.spec_dot(u).val() == v.spec_dot(v).val());
    crate::linalg::lemma_square_sign(u.x.val());
    crate::linalg::lemma_square_sign(u.y.val());
    crate::linalg::lemma_square_sign(u.z.val());
    lemma_same_root(u.spec_dot(u), v.spec_dot(v));
}

/// A gate can be flown through from either side: a segment crosses it exactly if the same
/// segment flown backwards does.
pub proof fn law_gate_is_two_way<S: Real>(g: Gate<S>, prev: Vec3<S>, cur: Vec3<S>)
    requires
        crate::scalar::exact::<S>(),
    ensures
        g.spec_crossed(prev, cur) == g.spec_crossed(cur, prev),
{
    let (a, b) = (g.spec_signed_plane_dist(prev), g.spec_signed_plane_dist(cur));
    let (dp, dc) = (a.val(), b.val());
    crate::algebra::lemma_comm(dp, dc);
    let zero = S::spec_zero();
    let tiny = S::spec_splat(1, 1000000000000);
    assert((zero < a * b) <==> zero.val() < (a * b).val());
    assert((zero < b * a) <==> zero.val() < (b * a).val());
    assert((a - b).spec_abs().val() == (b - a).spec_abs().val());
    assert(((a - b).spec_abs() < tiny) <==> (a - b).spec_abs().val() < tiny.val());
    assert(((b - a).spec_abs() < tiny) <==> (b - a).spec_abs().val() < tiny.val());
    assert(g.spec_same_side(prev, cur) == g.spec_same_side(cur, prev));
    if !g.spec_same_side(prev, cur) {
        lemma_ends_apart(g, prev, cur);
        let (t, s) = (dp / (dp - dc), dc / (dc - dp));
        assert(t + s == 1real) by (nonlinear_arith)
            requires
                dp - dc != 0real,
                t == dp / (dp - dc),
                s == dc / (dc - dp),
        ;
        lemma_from_either_end(prev.x.val(), cur.x.val(), t, s);
        lemma_from_either_end(prev.y.val(), cur.y.val(), t, s);
        lemma_from_either_end(prev.z.val(), cur.z.val(), t, s);
        let (h, k) = (g.spec_hit(prev, cur), g.spec_hit(cur, prev));
        assert(h.same(k));
        lemma_same_offset(g, h, k);
        let (u, v) = (g.spec_radial_offset(h), g.spec_radial_offset(k));
        assert((u <= g.radius) <==> u.val() <= g.radius.val());
        assert((v <= g.radius) <==> v.val() <= g.radius.val());
    }
}

proof fn lemma_from_either_end(p: real, c: real, t: real, s: real)
    requires
        t + s == 1real,
    ensures
        p + (c - p) * t == c + (p - c) * s,
{
    let e = c - p;
    assert((p - c) * s == -(e * s)) by (nonlinear_arith)
        requires
            e == c - p,
    ;
    crate::algebra::lemma_dist(e, t, s);
    crate::linalg::lemma_unit_times(e);
    crate::algebra::lemma_comm(e, 1real);
}

} // verus!
