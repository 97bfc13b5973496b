//! What the references promise of themselves: velocity and acceleration belong to the
//! position that they are given with.
use vstd::prelude::*;

use crate::forecast::{spec_forecast_ref, spec_two_harmonics};
use crate::references::{gap, piece, sines, spec_heading, FourierRef, GpRef};
use crate::scalar::Real;

verus! {

// ---------------------------------------------------------------------------
// Harmonics
// ---------------------------------------------------------------------------
/// Sine and cosine of a sum.
pub open spec fn angles_add<S: Real>() -> bool {
    &&& forall|a: S, b: S|
        (#[trigger] (a + b)).spec_sin().val() == a.spec_sin().val() * b.spec_cos().val()
            + a.spec_cos().val() * b.spec_sin().val()
    &&& forall|a: S, b: S|
        (#[trigger] (a + b)).spec_cos().val() == a.spec_cos().val() * b.spec_cos().val()
            - a.spec_sin().val() * b.spec_sin().val()
}

/// The position `x` and the velocity `d` of an oscillation of frequency `w` become `y` and
/// `e` while its phase goes on by an angle with this sine and cosine.
pub open spec fn swings(w: real, x: real, d: real, y: real, e: real, sin: real, cos: real) -> bool {
    &&& w * y == (w * x) * cos + d * sin
    &&& e == d * cos - (w * x) * sin
}

proof fn lemma_swing(a: real, w: real, s: real, c: real, sin: real, cos: real)
    ensures
        swings(
            w,
            a * s,
            (a * w) * c,
            a * (s * cos + c * sin),
            (a * w) * (c * cos - s * sin),
            sin,
            cos,
        ),
{
    crate::algebra::lemma_dist(a, s * cos, c * sin);
    crate::algebra::lemma_dist(w, a * (s * cos), a * (c * sin));
    assert(w * (a * (s * cos)) == (w * (a * s)) * cos) by (nonlinear_arith);
    assert(w * (a * (c * sin)) == ((a * w) * c) * sin) by (nonlinear_arith);
    crate::algebra::lemma_dist(a * w, c * cos, s * sin);
    assert((a * w) * (c * cos) == ((a * w) * c) * cos) by (nonlinear_arith);
    assert((a * w) * (s * sin) == (w * (a * s)) * sin) by (nonlinear_arith);
}

proof fn lemma_phase<S: Real>(w: S, t: S, s: S, u: S, p: S)
    requires
        crate::scalar::exact::<S>(),
        crate::scalar::faithful::<S>(),
        u.val() == t.val() + s.val(),
    ensures
        w * u + p == (w * t + p) + w * s,
{
    crate::algebra::lemma_dist(w.val(), t.val(), s.val());
    assert((w * u + p).val() == ((w * t + p) + w * s).val());
}

/// The yaw rate of a heading is the rate at which it changes: from time `t` to time `u` the
/// heading goes on as an oscillation with that velocity does.
pub proof fn law_yaw_rate_is_the_rate_of_yaw<S: Real>(a: S, w: S, phi: S, t: S, s: S, u: S)
    requires
        crate::scalar::exact::<S>(),
        crate::scalar::faithful::<S>(),
        angles_add::<S>(),
        u.val() == t.val() + s.val(),
    ensures
        ({
            let (now, then) = (spec_heading(a, w, phi, t), spec_heading(a, w, phi, u));
            swings(
                w.val(),
                now.0.val(),
                now.1.val(),
                then.0.val(),
                then.1.val(),
                (w * s).spec_sin().val(),
                (w * s).spec_cos().val(),
            )
        }),
{
    lemma_phase(w, t, s, u, phi);
    let p = w * t + phi;
    lemma_swing(
        a.val(),
        w.val(),
        p.spec_sin().val(),
        p.spec_cos().val(),
        (w * s).spec_sin().val(),
        (w * s).spec_cos().val(),
    );
}

/// Every mode of a sum of sines is an oscillation: what mode `m` adds to the velocity is the
/// rate at which what it adds to the position changes, and what it adds to the acceleration
/// is `-w^2` times that; without any mode the sum rests at its centre.
pub proof fn law_modes_oscillate<S: Real>(
    c: S,
    a: Seq<S>,
    w: Seq<S>,
    p: Seq<S>,
    t: S,
    s: S,
    u: S,
    m: nat,
)
    requires
        crate::scalar::exact::<S>(),
        crate::scalar::faithful::<S>(),
        angles_add::<S>(),
        u.val() == t.val() + s.val(),
    ensures
        ({
            let (n0, n1) = (sines(c, a, w, p, t, m), sines(c, a, w, p, t, m + 1));
            let (t0, t1) = (sines(c, a, w, p, u, m), sines(c, a, w, p, u, m + 1));
            let f = w[m as int];
            let x = n1.0.val() - n0.0.val();
            &&& swings(
                f.val(),
                x,
                n1.1.val() - n0.1.val(),
                t1.0.val() - t0.0.val(),
                t1.1.val() - t0.1.val(),
                (f * s).spec_sin().val(),
                (f * s).spec_cos().val(),
            )
            &&& n1.2.val() - n0.2.val() == -(f.val() * (f.val() * x))
            &&& sines(c, a, w, p, t, 0).0.val() == c.val()
            &&& sines(c, a, w, p, t, 0).1.val() == 0real
            &&& sines(c, a, w, p, t, 0).2.val() == 0real
        }),
{
    let (g, f, q) = (a[m as int], w[m as int], p[m as int]);
    lemma_phase(f, t, s, u, q);
    let phi = f * t + q;
    lemma_swing(
        g.val(),
        f.val(),
        phi.spec_sin().val(),
        phi.spec_cos().val(),
        (f * s).spec_sin().val(),
        (f * s).spec_cos().val(),
    );
    lemma_pulled_back(g.val(), f.val(), phi.spec_sin().val());
}

proof fn lemma_pulled_back(a: real, w: real, s: real)
    ensures
        (((-a) * w) * w) * s == -(w * (w * (a * s))),
{
    assert((((-a) * w) * w) * s == -(w * (w * (a * s)))) by (nonlinear_arith);
}

/// Two harmonics oscillate each on its own: with the second one still, the sum is the first,
/// whose velocity and acceleration belong to its position; and the two add up.
pub proof fn law_harmonics_oscillate<S: Real>(
    t: S,
    s: S,
    u: S,
    h: (S, S, S),
    g: (S, S, S),
    rest: (S, S, S),
)
    requires
        crate::scalar::exact::<S>(),
        crate::scalar::faithful::<S>(),
        angles_add::<S>(),
        u.val() == t.val() + s.val(),
        rest.0.val() == 0real,
    ensures
        ({
            let (now, then) = (
                spec_two_harmonics(t, h, rest),
                spec_two_harmonics(u, h, rest),
            );
            let w = h.1.val();
            &&& swings(
                w,
                now.0.val(),
                now.1.val(),
                then.0.val(),
                then.1.val(),
                (h.1 * s).spec_sin().val(),
                (h.1 * s).spec_cos().val(),
            )
            &&& now.2.val() == -(w * (w * now.0.val()))
        }),
        ({
            let both = spec_two_harmonics(t, h, g);
            let (one, two) = (spec_two_harmonics(t, h, rest), spec_two_harmonics(t, g, rest));
            &&& both.0.val() == one.0.val() + two.0.val()
            &&& both.1.val() == one.1.val() + two.1.val()
            &&& both.2.val() == one.2.val() + two.2.val()
        }),
{
    let (a, f, q) = h;
    lemma_phase(f, t, s, u, q);
    let phi = f * t + q;
    lemma_swing(
        a.val(),
        f.val(),
        phi.spec_sin().val(),
        phi.spec_cos().val(),
        (f * s).spec_sin().val(),
        (f * s).spec_cos().val(),
    );
    lemma_pulled_back(a.val(), f.val(), phi.spec_sin().val());
    lemma_rests(rest, t);
    lemma_rests(rest, u);
    let psi = g.1 * t + g.2;
    crate::algebra::lemma_neg(g.0.val(), g.1.val());
    let k = (g.0.val() * g.1.val()) * g.1.val();
    crate::algebra::lemma_neg(g.0.val() * g.1.val(), g.1.val());
    crate::algebra::lemma_neg(k, psi.spec_sin().val());
}

proof fn lemma_rests<S: Real>(h: (S, S, S), t: S)
    requires
        crate::scalar::exact::<S>(),
        h.0.val() == 0real,
    ensures
        ({
            let phi = h.1 * t + h.2;
            &&& (h.0 * phi.spec_sin()).val() == 0real
            &&& (h.0 * h.1 * phi.spec_cos()).val() == 0real
            &&& (h.0 * h.1 * h.1 * phi.spec_sin()).val() == 0real
        }),
{
    let phi = h.1 * t + h.2;
    crate::physics::lemma_times_zero(phi.spec_sin().val(), h.0.val());
    crate::physics::lemma_times_zero(h.1.val(), h.0.val());
    crate::physics::lemma_times_zero(phi.spec_cos().val(), 0real);
    crate::physics::lemma_times_zero(h.1.val(), 0real);
    crate::physics::lemma_times_zero(phi.spec_sin().val(), 0real);
}

/// Each axis of a reference made of sines is told by its own modes and its own centre: two
/// references that agree in these agree in position, velocity and acceleration along it.
pub proof fn law_axes_are_independent<S: Real>(f: FourierRef<S>, g: FourierRef<S>, t: S)
    ensures
        f.center.x == g.center.x && f.amp[0] == g.amp[0] && f.freq[0] == g.freq[0] && f.phase[0]
            == g.phase[0] ==> {
            &&& f.spec_at(t).x.x == g.spec_at(t).x.x
            &&& f.spec_at(t).x_dot.x == g.spec_at(t).x_dot.x
            &&& f.spec_at(t).x_ddot.x == g.spec_at(t).x_ddot.x
        },
        f.center.y == g.center.y && f.amp[1] == g.amp[1] && f.freq[1] == g.freq[1] && f.phase[1]
            == g.phase[1] ==> {
            &&& f.spec_at(t).x.y == g.spec_at(t).x.y
            &&& f.spec_at(t).x_dot.y == g.spec_at(t).x_dot.y
            &&& f.spec_at(t).x_ddot.y == g.spec_at(t).x_ddot.y
        },
        f.center.z == g.center.z && f.amp[2] == g.amp[2] && f.freq[2] == g.freq[2] && f.phase[2]
            == g.phase[2] ==> {
            &&& f.spec_at(t).x.z == g.spec_at(t).x.z
            &&& f.spec_at(t).x_dot.z == g.spec_at(t).x_dot.z
            &&& f.spec_at(t).x_ddot.z == g.spec_at(t).x_ddot.z
        },
{
}

proof fn lemma_unit_sine<S: Real>(a: S)
    requires
        crate::dki::circular::<S>(),
    ensures
        -1real <= a.spec_sin().val() <= 1real,
{
    let (s, c) = (a.spec_sin().val(), a.spec_cos().val());
    crate::linalg::lemma_square_sign(c);
    assert(-1real <= s <= 1real) by (nonlinear_arith)
        requires
            s * s <= 1real,
    ;
}

proof fn lemma_swing_bound(a: real, s: real)
    requires
        a >= 0real,
        -1real <= s <= 1real,
    ensures
        -a <= a * s <= a,
{
    assert(-a <= a * s <= a) by (nonlinear_arith)
        requires
            a >= 0real,
            -1real <= s <= 1real,
    ;
}

/// The path of a forecast stays in its box: 7.3 m and 6 m about the origin in the plane, 2.6 m
/// about an altitude of 7 m, with a heading of 0.9 rad at most.
pub proof fn law_forecast_path_stays_in_its_box<S: Real>(t: S)
    requires
        crate::scalar::exact::<S>(),
        crate::dki::circular::<S>(),
    ensures
        ({
            let r = spec_forecast_ref(t);
            &&& -73real / 10real <= r.x.x.val() <= 73real / 10real
            &&& -6real <= r.x.y.val() <= 6real
            &&& 44real / 10real <= r.x.z.val() <= 96real / 10real
            &&& -9real / 10real <= r.yaw.val() <= 9real / 10real
        }),
{
    lemma_harmonic_bound(t, 55, 10, S::spec_splat(28, 100), S::spec_zero());
    lemma_harmonic_bound(t, 18, 10, S::spec_splat(90, 100), S::spec_splat(13, 10));
    lemma_harmonic_bound(t, 45, 10, S::spec_splat(45, 100), S::spec_splat(7, 10));
    lemma_harmonic_bound(t, 15, 10, S::spec_splat(75, 100), S::spec_zero());
    lemma_harmonic_bound(t, 18, 10, S::spec_splat(35, 100), S::spec_zero());
    lemma_harmonic_bound(t, 8, 10, S::spec_splat(60, 100), S::spec_splat(2, 1));
    crate::scalar::lemma_splat_int::<S>(7);
    crate::scalar::lemma_splat_fraction::<S>(9, 10);
    let phi = S::spec_splat(18, 100) * t;
    lemma_unit_sine(phi);
    lemma_swing_bound(S::spec_splat(9, 10).val(), phi.spec_sin().val());
}

proof fn lemma_harmonic_bound<S: Real>(t: S, n: int, d: nat, w: S, p: S)
    requires
        crate::scalar::exact::<S>(),
        crate::dki::circular::<S>(),
        n >= 0,
        d == 10,
    ensures
        S::spec_splat(n, d).val() == (n as real) / 10real,
        -(n as real) / 10real <= (S::spec_splat(n, d) * (w * t + p).spec_sin()).val() <= (n as real)
            / 10real,
{
    crate::scalar::lemma_splat_fraction::<S>(n, d);
    lemma_unit_sine(w * t + p);
    lemma_swing_bound(S::spec_splat(n, d).val(), (w * t + p).spec_sin().val());
}

// ---------------------------------------------------------------------------
// Splines
// ---------------------------------------------------------------------------
/// Within a piece the spline goes on as its own slope and curvature say: the curvature is
/// linear with slope `j`, and value, slope and curvature at `x + s` are the Taylor sums of
/// those at `x`.
pub proof fn law_piece_is_its_taylor_sum<S: Real>(
    t: Seq<S>,
    y: Seq<S>,
    m: Seq<S>,
    i: int,
    x: S,
    z: S,
    s: real,
)
    requires
        crate::scalar::exact::<S>(),
        gap(t, i).val() != 0real,
        z.val() == x.val() + s,
    ensures
        ({
            let (p, q) = (piece(t, y, m, i, x), piece(t, y, m, i, z));
            let j = (m[i + 1].val() - m[i].val()) / gap(t, i).val();
            &&& q.2.val() == p.2.val() + s * j
            &&& q.1.val() == p.1.val() + s * p.2.val() + (s * s) * j / 2real
            &&& q.0.val() == p.0.val() + s * p.1.val() + (s * s) * p.2.val() / 2real + (s * (s
                * s)) * j / 6real
        }),
{
    crate::scalar::lemma_splat_int::<S>(6);
    crate::scalar::lemma_splat_int::<S>(3);
    let h = gap(t, i).val();
    let u = s / h;
    let (a, b) = (((t[i + 1] - x) / gap(t, i)).val(), ((x - t[i]) / gap(t, i)).val());
    let (a2, b2) = (((t[i + 1] - z) / gap(t, i)).val(), ((z - t[i]) / gap(t, i)).val());
    lemma_moved_share(t[i + 1].val() - x.val(), s, h);
    lemma_moved_share(x.val() - t[i].val(), -s, h);
    assert((-s) / h == -u) by (nonlinear_arith)
        requires
            u == s / h,
            h != 0real,
    ;
    assert(t[i + 1].val() - z.val() == (t[i + 1].val() - x.val()) - s);
    assert(z.val() - t[i].val() == (x.val() - t[i].val()) - (-s));
    assert(a2 == a - u && b2 == b + u);
    assert(u * h == s) by (nonlinear_arith)
        requires
            u == s / h,
            h != 0real,
    ;
    let (y0, y1, m0, m1) = (y[i].val(), y[i + 1].val(), m[i].val(), m[i + 1].val());
    let j = (m1 - m0) / h;
    let g = (y1 - y0) / h;
    lemma_over_back(m1 - m0, h);
    lemma_over_back(y1 - y0, h);
    lemma_taylor(h, a, b, u, y0, y1, m0, m1, g, j, s);
}

proof fn lemma_over_back(x: real, h: real)
    requires
        h != 0real,
    ensures
        (x / h) * h == x,
{
    assert((x / h) * h == x) by (nonlinear_arith)
        requires
            h != 0real,
    ;
}

proof fn lemma_moved_share(x: real, s: real, h: real)
    requires
        h != 0real,
    ensures
        (x - s) / h == x / h - s / h,
{
    assert((x - s) / h == x / h - s / h) by (nonlinear_arith)
        requires
            h != 0real,
    ;
}

/// The powers of a share that moves.
proof fn lemma_powers(a: real, u: real)
    ensures
        (a + u) * (a + u) == a * a + 2real * (a * u) + u * u,
        ((a + u) * (a + u)) * (a + u) == (a * a) * a + 3real * ((a * a) * u) + 3real * (a * (u
            * u)) + u * (u * u),
{
    let (p, q, r) = (a * a, a * u, u * u);
    crate::algebra::lemma_dist(a + u, a, u);
    crate::algebra::lemma_dist(a, a, u);
    crate::algebra::lemma_dist(u, a, u);
    crate::algebra::lemma_comm(u, a);
    let sq = p + 2real * q + r;
    assert((a + u) * (a + u) == sq);
    crate::algebra::lemma_dist(sq, a, u);
    crate::algebra::lemma_dist(a, p + 2real * q, r);
    crate::algebra::lemma_dist(a, p, 2real * q);
    crate::algebra::lemma_dist(u, p + 2real * q, r);
    crate::algebra::lemma_dist(u, p, 2real * q);
    assert((2real * (a * u)) * a == 2real * ((a * a) * u)) by (nonlinear_arith);
    assert((2real * (a * u)) * u == 2real * (a * (u * u))) by (nonlinear_arith);
    crate::algebra::lemma_comm(u * u, a);
    crate::algebra::lemma_comm(u * u, u);
}

proof fn lemma_taylor(
    h: real,
    a: real,
    b: real,
    u: real,
    y0: real,
    y1: real,
    m0: real,
    m1: real,
    g: real,
    j: real,
    s: real,
)
    requires
        u * h == s,
        j * h == m1 - m0,
        g * h == y1 - y0,
    ensures
        ({
            let (c, d) = (a - u, b + u);
            let v = a * m0 + b * m1;
            let slope = |p: real, q: real|
                g + h / 6real * ((-(3real * p * p - 1real)) * m0 + (3real * q * q - 1real) * m1);
            let value = |p: real, q: real|
                p * y0 + q * y1 + h * h / 6real * ((p * p * p - p) * m0 + (q * q * q - q) * m1);
            &&& c * m0 + d * m1 == v + s * j
            &&& slope(c, d) == slope(a, b) + s * v + (s * s) * j / 2real
            &&& value(c, d) == value(a, b) + s * slope(a, b) + (s * s) * v / 2real + (s * (s * s))
                * j / 6real
        }),
{
    let (c, d) = (a - u, b + u);
    let v = a * m0 + b * m1;
    let e = m1 - m0;
    // curvature
    crate::algebra::lemma_dist(m0, a, u);
    crate::algebra::lemma_dist(m1, b, u);
    crate::algebra::lemma_dist(u, m1, m0);
    assert((u * h) * j == u * (j * h)) by (nonlinear_arith);
    assert(c * m0 + d * m1 == v + s * j);
    // slope
    lemma_powers(a, -u);
    lemma_powers(b, u);
    assert(a * (-u) == -(a * u)) by (nonlinear_arith);
    assert((-u) * (-u) == u * u) by (nonlinear_arith);
    let w = u * u;
    assert(3real * c * c == 3real * (c * c)) by (nonlinear_arith);
    assert(3real * d * d == 3real * (d * d)) by (nonlinear_arith);
    assert(3real * a * a == 3real * (a * a)) by (nonlinear_arith);
    assert(3real * b * b == 3real * (b * b)) by (nonlinear_arith);
    let (ka, kb) = (-(3real * a * a - 1real), 3real * b * b - 1real);
    let (kc, kd) = (-(3real * c * c - 1real), 3real * d * d - 1real);
    let (au, bu) = (a * u, b * u);
    assert(kc == ka + (6real * au - 3real * w));
    assert(kd == kb + (6real * bu + 3real * w));
    crate::algebra::lemma_dist(m0, ka, 6real * au - 3real * w);
    crate::algebra::lemma_dist(m1, kb, 6real * bu + 3real * w);
    crate::algebra::lemma_dist(m0, 6real * au, 3real * w);
    crate::algebra::lemma_dist(m1, 6real * bu, 3real * w);
    assert((6real * au) * m0 == 6real * (u * (a * m0))) by (nonlinear_arith)
        requires
            au == a * u,
    ;
    assert((6real * bu) * m1 == 6real * (u * (b * m1))) by (nonlinear_arith)
        requires
            bu == b * u,
    ;
    assert((3real * w) * m0 == 3real * (w * m0)) by (nonlinear_arith);
    assert((3real * w) * m1 == 3real * (w * m1)) by (nonlinear_arith);
    crate::algebra::lemma_dist(u, a * m0, b * m1);
    crate::algebra::lemma_dist(w, m1, m0);
    let (sa, sc) = (ka * m0 + kb * m1, kc * m0 + kd * m1);
    assert(sc == sa + (6real * (u * v) + 3real * (w * e)));
    crate::algebra::lemma_dist(h / 6real, sa, 6real * (u * v) + 3real * (w * e));
    assert(h / 6real * (6real * (u * v) + 3real * (w * e)) == h * (u * v) + h * (w * e) / 2real)
        by (nonlinear_arith);
    assert(h * (u * v) == (u * h) * v) by (nonlinear_arith);
    let ss = s * s;
    assert(h * (w * e) == ss * j) by (nonlinear_arith)
        requires
            w == u * u,
            e == j * h,
            s == u * h,
            ss == s * s,
    ;
    // value
    let k = h * h / 6real;
    let (pa, pb) = (a * a * a - a, b * b * b - b);
    let (pc, pd) = (c * c * c - c, d * d * d - d);
    let cube = u * w;
    assert((a * a) * (-u) == -((a * a) * u)) by (nonlinear_arith);
    assert((-u) * ((-u) * (-u)) == -(u * (u * u))) by (nonlinear_arith);
    let (aau, bbu, aw, bw) = ((a * a) * u, (b * b) * u, a * w, b * w);
    assert(pc == pa + (-(3real * aau) + 3real * aw - cube + u));
    assert(pd == pb + (3real * bbu + 3real * bw + cube - u));
    let (ra, rb) = (-(3real * aau) + u, 3real * bbu - u);
    assert(ra == u * ka) by {
        crate::algebra::lemma_dist(u, 1real, 3real * (a * a));
        assert(u * (3real * (a * a)) == 3real * ((a * a) * u)) by (nonlinear_arith);
        crate::physics::lemma_times_one(u, 1real);
        assert(ka == 1real - 3real * (a * a));
    }
    assert(rb == u * kb) by {
        crate::algebra::lemma_dist(u, 3real * (b * b), 1real);
        assert(u * (3real * (b * b)) == 3real * ((b * b) * u)) by (nonlinear_arith);
        crate::physics::lemma_times_one(u, 1real);
        assert(kb == 3real * (b * b) - 1real);
    }
    let (qa, qb) = (3real * aw - cube, 3real * bw + cube);
    assert(pc == pa + (ra + qa));
    assert(pd == pb + (rb + qb));
    crate::algebra::lemma_dist(m0, pa, ra + qa);
    crate::algebra::lemma_dist(m0, ra, qa);
    crate::algebra::lemma_dist(m0, 3real * aw, cube);
    crate::algebra::lemma_dist(m1, pb, rb + qb);
    crate::algebra::lemma_dist(m1, rb, qb);
    crate::algebra::lemma_dist(m1, 3real * bw, cube);
    crate::algebra::lemma_assoc(u, ka, m0);
    crate::algebra::lemma_assoc(u, kb, m1);
    crate::algebra::lemma_dist(u, ka * m0, kb * m1);
    assert((3real * aw) * m0 == 3real * (w * (a * m0))) by (nonlinear_arith)
        requires
            aw == a * w,
    ;
    assert((3real * bw) * m1 == 3real * (w * (b * m1))) by (nonlinear_arith)
        requires
            bw == b * w,
    ;
    crate::algebra::lemma_dist(w, a * m0, b * m1);
    crate::algebra::lemma_dist(cube, m1, m0);
    let (va, vc) = (pa * m0 + pb * m1, pc * m0 + pd * m1);
    let more = u * sa + 3real * (w * v) + cube * e;
    assert(vc == va + more);
    crate::algebra::lemma_dist(k, va, more);
    crate::algebra::lemma_dist(k, u * sa + 3real * (w * v), cube * e);
    crate::algebra::lemma_dist(k, u * sa, 3real * (w * v));
    assert(k * (u * sa) == s * (h / 6real * sa)) by (nonlinear_arith)
        requires
            k == h * h / 6real,
            s == u * h,
    ;
    assert(k * (3real * (w * v)) == ss * v / 2real) by (nonlinear_arith)
        requires
            k == h * h / 6real,
            ss == s * s,
            s == u * h,
            w == u * u,
    ;
    assert(k * (cube * e) == (s * ss) * j / 6real) by (nonlinear_arith)
        requires
            k == h * h / 6real,
            ss == s * s,
            s == u * h,
            w == u * u,
            cube == u * w,
            e == j * h,
    ;
    crate::algebra::lemma_dist(y0, a, u);
    crate::algebra::lemma_dist(y1, b, u);
    crate::algebra::lemma_dist(u, y1, y0);
    assert((u * h) * g == u * (g * h)) by (nonlinear_arith);
    crate::algebra::lemma_dist(s, g, h / 6real * sa);
    assert(c * c * c == (c * c) * c && d * d * d == (d * d) * d);
    assert(vc == pc * m0 + pd * m1);
}

/// Each axis of a reference made of splines is told by its own spline, and the heading by none.
pub proof fn law_splines_are_independent<S: Real>(f: GpRef<S>, g: GpRef<S>, t: S)
    ensures
        ({
            let (p, q) = (f.spec_at(t), g.spec_at(t));
            &&& f.sx == g.sx ==> p.x.x == q.x.x && p.x_dot.x == q.x_dot.x && p.x_ddot.x
                == q.x_ddot.x
            &&& f.sy == g.sy ==> p.x.y == q.x.y && p.x_dot.y == q.x_dot.y && p.x_ddot.y
                == q.x_ddot.y
            &&& f.sz == g.sz ==> p.x.z == q.x.z && p.x_dot.z == q.x_dot.z && p.x_ddot.z
                == q.x_ddot.z
            &&& f.yaw_a == g.yaw_a && f.yaw_w == g.yaw_w && f.yaw_phi == g.yaw_phi ==> p.yaw
                == q.yaw && p.yaw_dot == q.yaw_dot
        }),
{
}

} // verus!
