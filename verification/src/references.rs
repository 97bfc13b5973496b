//! Random smooth reference trajectories with velocity and acceleration in closed form, for
//! the tracking controllers: natural splines through samples of a periodic Gaussian
//! process, and sums of sines.
use vstd::prelude::*;

use crate::gates::copy_vec;
use crate::linalg::Vec3;
use crate::rl_env::lerp;
use crate::rng::Rng;
use crate::scalar::{Real, Scalar};
use crate::se3::FlatRef;

verus! {

// ---------------------------------------------------------------------------
// Natural cubic splines
// ---------------------------------------------------------------------------
/// A cubic spline through the knots `(t, y)`, with the second derivatives `m` at them.
pub struct Spline<S> {
    pub t: Vec<S>,
    pub y: Vec<S>,
    pub m: Vec<S>,
}

/// The distance from knot `i` to the next.
pub open spec fn gap<S: Scalar>(t: Seq<S>, i: int) -> S {
    t[i + 1] - t[i]
}

/// The slope of the line from knot `i` to the next.
pub open spec fn chord<S: Scalar>(t: Seq<S>, y: Seq<S>, i: int) -> S {
    (y[i + 1] - y[i]) / gap(t, i)
}

/// Knot `i` is neither the first nor the last.
pub open spec fn interior<S>(t: Seq<S>, i: int) -> bool {
    1 <= i < t.len() - 1
}

/// The entry left of the diagonal in row `i` of the equations for the second derivatives.
pub open spec fn row_lo<S: Scalar>(t: Seq<S>, i: int) -> S {
    if interior(t, i) {
        gap(t, i - 1) / S::spec_splat(6, 1)
    } else {
        S::spec_zero()
    }
}

/// The diagonal entry.
pub open spec fn row_di<S: Scalar>(t: Seq<S>, i: int) -> S {
    if interior(t, i) {
        (gap(t, i - 1) + gap(t, i)) / S::spec_splat(3, 1)
    } else {
        S::spec_one()
    }
}

/// The entry right of the diagonal.
pub open spec fn row_up<S: Scalar>(t: Seq<S>, i: int) -> S {
    if interior(t, i) {
        gap(t, i) / S::spec_splat(6, 1)
    } else {
        S::spec_zero()
    }
}

/// The right-hand side: the change of slope at the knot.
pub open spec fn row_rhs<S: Scalar>(t: Seq<S>, y: Seq<S>, i: int) -> S {
    if interior(t, i) {
        chord(t, y, i) - chord(t, y, i - 1)
    } else {
        S::spec_zero()
    }
}

/// Diagonal and right-hand side of row `i` after the entries left of the diagonal were
/// eliminated down to it.
pub open spec fn swept<S: Scalar>(t: Seq<S>, y: Seq<S>, i: nat) -> (S, S)
    decreases i,
{
    if i == 0 {
        (row_di(t, 0), row_rhs(t, y, 0))
    } else {
        let (d, r) = swept(t, y, (i - 1) as nat);
        let w = row_lo(t, i as int) / d;
        (row_di(t, i as int) - w * row_up(t, i - 1), row_rhs(t, y, i as int) - w * r)
    }
}

/// The second derivative at knot `i`, by back substitution; zero where there are fewer
/// than three knots.
pub open spec fn curvature<S: Scalar>(t: Seq<S>, y: Seq<S>, i: int) -> S
    decreases t.len() - i,
{
    if t.len() < 3 {
        S::spec_zero()
    } else {
        let (d, r) = swept(t, y, i as nat);
        if i >= t.len() - 1 {
            r / d
        } else {
            (r - row_up(t, i) * curvature(t, y, i + 1)) / d
        }
    }
}

/// The interval of `x` from `i` on: the first one whose end is not passed, else the last.
pub open spec fn interval<S: Real>(t: Seq<S>, x: S, i: int) -> int
    decreases t.len() - i,
{
    if i + 2 < t.len() && t[i + 1] < x {
        interval(t, x, i + 1)
    } else {
        i
    }
}

/// The cubic on interval `i`: value, first and second derivative at `x`.
pub open spec fn piece<S: Real>(t: Seq<S>, y: Seq<S>, m: Seq<S>, i: int, x: S) -> (S, S, S) {
    let h = gap(t, i);
    let a = (t[i + 1] - x) / h;
    let b = (x - t[i]) / h;
    let (six, three, one) = (S::spec_splat(6, 1), S::spec_splat(3, 1), S::spec_one());
    (
        a * y[i] + b * y[i + 1] + h * h / six * ((a * a * a - a) * m[i] + (b * b * b - b) * m[i
            + 1]),
        chord(t, y, i) + h / six * ((-(three * a * a - one)) * m[i] + (three * b * b - one) * m[i
            + 1]),
        a * m[i] + b * m[i + 1],
    )
}

impl<S: Real> Spline<S> {
    /// There is an interval to evaluate on, with values and second derivatives.
    pub open spec fn wf(self) -> bool {
        &&& self.t@.len() >= 2
        &&& self.y@.len() >= self.t@.len()
        &&& self.m@.len() >= self.t@.len()
    }

    pub open spec fn spec_eval(self, x: S) -> (S, S, S) {
        piece(self.t@, self.y@, self.m@, interval(self.t@, x, 0), x)
    }

    /// The natural spline through the knots: no curvature at the two ends, and a slope
    /// that does not jump between the pieces.
    pub fn natural(t: Vec<S>, y: Vec<S>) -> (r: Self)
        requires
            t@.len() >= 3 ==> y@.len() >= t@.len(),
        ensures
            r.t == t,
            r.y == y,
            r.m@ == Seq::new(t@.len(), |i: int| curvature(t@, y@, i)),
    {
        let n: usize = t.len();
        if n < 3 {
            let mut m: Vec<S> = Vec::new();
            for i in 0..n
                invariant
                    n == t@.len(),
                    n < 3,
                    m@.len() == i,
                    forall|p: int| 0 <= p < i ==> #[trigger] m@[p] == curvature(t@, y@, p),
            {
                m.push(S::zero());
            }
            assert(m@ =~= Seq::new(t@.len(), |i: int| curvature(t@, y@, i)));
            return Spline { t, y, m };
        }
        let (six, three) = (S::splat(6, 1), S::splat(3, 1));
        let mut up: Vec<S> = Vec::new();
        let mut di: Vec<S> = Vec::new();
        let mut rhs: Vec<S> = Vec::new();
        // forward elimination
        for i in 0..n
            invariant
                n == t@.len(),
                3 <= n <= y@.len(),
                six == S::spec_splat(6, 1),
                three == S::spec_splat(3, 1),
                up@.len() == i,
                di@.len() == i,
                rhs@.len() == i,
                forall|p: int| 0 <= p < i ==> #[trigger] up@[p] == row_up(t@, p),
                forall|p: int| 0 <= p < i ==> #[trigger] di@[p] == swept(t@, y@, p as nat).0,
                forall|p: int| 0 <= p < i ==> #[trigger] rhs@[p] == swept(t@, y@, p as nat).1,
        {
            let (lo, d, u, r) = if 1 <= i && i < n - 1 {
                let h0 = t[i].sub(t[i - 1]);
                let h1 = t[i + 1].sub(t[i]);
                (
                    h0.div(six),
                    h0.add(h1).div(three),
                    h1.div(six),
                    y[i + 1].sub(y[i]).div(h1).sub(y[i].sub(y[i - 1]).div(h0)),
                )
            } else {
                (S::zero(), S::one(), S::zero(), S::zero())
            };
            assert(lo == row_lo(t@, i as int) && d == row_di(t@, i as int) && u == row_up(
                t@,
                i as int,
            ) && r == row_rhs(t@, y@, i as int));
            if i == 0 {
                di.push(d);
                rhs.push(r);
            } else {
                assert((di@[i - 1], rhs@[i - 1]) == swept(t@, y@, (i - 1) as nat));
                let w = lo.div(di[i - 1]);
                let d2 = d.sub(w.mul(up[i - 1]));
                let r2 = r.sub(w.mul(rhs[i - 1]));
                assert((d2, r2) == swept(t@, y@, i as nat));
                di.push(d2);
                rhs.push(r2);
            }
            up.push(u);
        }
        // back substitution, from the last knot on
        let mut back: Vec<S> = Vec::new();
        for k in 0..n
            invariant
                n == t@.len(),
                3 <= n,
                up@.len() == n,
                di@.len() == n,
                rhs@.len() == n,
                back@.len() == k,
                forall|p: int| 0 <= p < n ==> #[trigger] up@[p] == row_up(t@, p),
                forall|p: int| 0 <= p < n ==> #[trigger] di@[p] == swept(t@, y@, p as nat).0,
                forall|p: int| 0 <= p < n ==> #[trigger] rhs@[p] == swept(t@, y@, p as nat).1,
                forall|p: int|
                    0 <= p < k ==> #[trigger] back@[p] == curvature(t@, y@, n - 1 - p),
        {
            let i: usize = n - 1 - k;
            assert((di@[i as int], rhs@[i as int]) == swept(t@, y@, i as nat));
            let v = if k == 0 {
                rhs[i].div(di[i])
            } else {
                assert(back@[k - 1] == curvature(t@, y@, i + 1));
                rhs[i].sub(up[i].mul(back[k - 1])).div(di[i])
            };
            back.push(v);
        }
        let mut m: Vec<S> = Vec::new();
        for i in 0..n
            invariant
                n == t@.len(),
                back@.len() == n,
                m@.len() == i,
                forall|p: int|
                    0 <= p < n ==> #[trigger] back@[p] == curvature(t@, y@, n - 1 - p),
                forall|p: int| 0 <= p < i ==> #[trigger] m@[p] == curvature(t@, y@, p),
        {
            assert(back@[n - 1 - i] == curvature(t@, y@, i as int));
            m.push(back[n - 1 - i]);
        }
        assert(m@ =~= Seq::new(t@.len(), |i: int| curvature(t@, y@, i)));
        Spline { t, y, m }
    }

    /// Value, first and second derivative at `x`; beyond the ends the outer pieces go on.
    pub fn eval(&self, x: S) -> (r: (S, S, S))
        requires
            self.wf(),
        ensures
            r == self.spec_eval(x),
    {
        let n: usize = self.t.len();
        let mut i: usize = 0;
        while i + 2 < n && self.t[i + 1].lt(x)
            invariant
                n == self.t@.len(),
                n >= 2,
                i + 2 <= n,
                interval(self.t@, x, 0) == interval(self.t@, x, i as int),
            decreases n - i,
        {
            i = i + 1;
        }
        assert(interval(self.t@, x, i as int) == i);
        let h = self.t[i + 1].sub(self.t[i]);
        let a = self.t[i + 1].sub(x).div(h);
        let b = x.sub(self.t[i]).div(h);
        let (y0, y1, m0, m1) = (self.y[i], self.y[i + 1], self.m[i], self.m[i + 1]);
        let (six, three, one) = (S::splat(6, 1), S::splat(3, 1), S::one());
        let val = a.mul(y0).add(b.mul(y1)).add(
            h.mul(h).div(six).mul(
                a.mul(a).mul(a).sub(a).mul(m0).add(b.mul(b).mul(b).sub(b).mul(m1)),
            ),
        );
        let d1 = y1.sub(y0).div(h).add(
            h.div(six).mul(
                three.mul(a).mul(a).sub(one).neg().mul(m0).add(
                    three.mul(b).mul(b).sub(one).mul(m1),
                ),
            ),
        );
        let d2 = a.mul(m0).add(b.mul(m1));
        (val, d1, d2)
    }
}

// ---------------------------------------------------------------------------
// Periodic Gaussian process
// ---------------------------------------------------------------------------
/// Knots of a sampled reference.
pub const KNOTS: usize = 26;

/// Time of knot `i` of a trajectory that lasts `t_final`.
pub open spec fn spec_knot<S: Real>(t_final: S, i: int) -> S {
    S::spec_splat(i, 1) * t_final / S::spec_splat(25, 1)
}

pub open spec fn spec_knots<S: Real>(t_final: S) -> Seq<S> {
    Seq::new(KNOTS as nat, |i: int| spec_knot(t_final, i))
}

/// Entry `(i, j)` of the covariance of the values at the knots: the exponential of a
/// squared sine of their distance, periodic, and a little more on the diagonal.
pub open spec fn kernel<S: Real>(knots: Seq<S>, period: S, ls: S, i: int, j: int) -> S {
    let s = (S::spec_pi() * (knots[i] - knots[j]).spec_abs() / period).spec_sin();
    let k = (S::spec_splat(-2, 1) * s * s / (ls * ls)).spec_exp();
    if i == j {
        k + S::spec_splat(1, 1000000000)
    } else {
        k
    }
}

/// Row by row the covariance.
pub open spec fn kernel_rows<S: Real>(knots: Seq<S>, period: S, ls: S) -> Seq<Seq<S>> {
    Seq::new(
        KNOTS as nat,
        |i: int| Seq::new(KNOTS as nat, |j: int| kernel(knots, period, ls, i, j)),
    )
}

/// What is left of `k[i][j]` after the first `n` columns of the factor are taken off.
pub open spec fn chol_rest<S: Real>(k: Seq<Seq<S>>, i: int, j: int, n: int) -> S
    decreases i, j, n,
{
    if 0 < n <= j <= i {
        chol_rest(k, i, j, n - 1) - chol(k, i, n - 1) * chol(k, j, n - 1)
    } else {
        k[i][j]
    }
}

/// Entry `(i, j)` of the lower triangular factor of `k`.
pub open spec fn chol<S: Real>(k: Seq<Seq<S>>, i: int, j: int) -> S
    decreases i, j, j + 1,
{
    if !(0 <= j <= i) {
        S::spec_zero()
    } else if i == j {
        chol_rest(k, i, j, j).spec_max(S::spec_splat(1, 1000000000000)).spec_sqrt()
    } else {
        chol_rest(k, i, j, j) / chol(k, j, j)
    }
}

/// The lower triangular factor of a covariance.
fn cholesky<S: Real>(k: &Vec<Vec<S>>) -> (l: Vec<Vec<S>>)
    requires
        k@.len() == KNOTS,
        crate::nn::rect(crate::sampling::deep(k@), KNOTS as nat),
    ensures
        l@.len() == KNOTS,
        forall|i: int| 0 <= i < KNOTS ==> (#[trigger] l@[i])@.len() == i + 1,
        forall|i: int, j: int|
            0 <= j <= i < KNOTS ==> #[trigger] l@[i]@[j] == chol(
                crate::sampling::deep(k@),
                i,
                j,
            ),
{
    let ghost g = crate::sampling::deep(k@);
    let mut l: Vec<Vec<S>> = Vec::new();
    for i in 0..KNOTS
        invariant
            g == crate::sampling::deep(k@),
            k@.len() == KNOTS,
            crate::nn::rect(g, KNOTS as nat),
            l@.len() == i,
            forall|p: int| 0 <= p < i ==> (#[trigger] l@[p])@.len() == p + 1,
            forall|p: int, q: int|
                0 <= q <= p < i ==> #[trigger] l@[p]@[q] == chol(g, p, q),
    {
        let mut row: Vec<S> = Vec::new();
        for j in 0..i + 1
            invariant
                i < KNOTS,
                g == crate::sampling::deep(k@),
                k@.len() == KNOTS,
                crate::nn::rect(g, KNOTS as nat),
                l@.len() == i,
                forall|p: int| 0 <= p < i ==> (#[trigger] l@[p])@.len() == p + 1,
                forall|p: int, q: int|
                    0 <= q <= p < i ==> #[trigger] l@[p]@[q] == chol(g, p, q),
                row@.len() == j,
                forall|q: int| 0 <= q < j ==> #[trigger] row@[q] == chol(g, i as int, q),
        {
            assert(g[i as int].len() == KNOTS);
            let mut sum = k[i][j];
            for p in 0..j
                invariant
                    j <= i < KNOTS,
                    l@.len() == i,
                    forall|a: int| 0 <= a < i ==> (#[trigger] l@[a])@.len() == a + 1,
                    forall|a: int, q: int|
                        0 <= q <= a < i ==> #[trigger] l@[a]@[q] == chol(g, a, q),
                    row@.len() == j,
                    forall|q: int| 0 <= q < j ==> #[trigger] row@[q] == chol(g, i as int, q),
                    sum == chol_rest(g, i as int, j as int, p as int),
            {
                let other = if j == i {
                    row[p]
                } else {
                    l[j][p]
                };
                assert(other == chol(g, j as int, p as int));
                sum = sum.sub(row[p].mul(other));
            }
            let e = if i == j {
                sum.max(S::splat(1, 1000000000000)).sqrt()
            } else {
                let d = l[j][j];
                assert(d == chol(g, j as int, j as int));
                sum.div(d)
            };
            row.push(e);
        }
        l.push(row);
    }
    l
}

/// `sum over p < n of l[i][p] z[p]`, for the factor `l` of `k`.
pub open spec fn mixed<S: Real>(k: Seq<Seq<S>>, z: Seq<S>, i: int, n: nat) -> S
    decreases n,
{
    if n == 0 {
        S::spec_zero()
    } else {
        mixed(k, z, i, (n - 1) as nat) + chol(k, i, n - 1) * z[n - 1]
    }
}

/// 26 normal numbers drawn from generator state `s`.
pub open spec fn spec_normals<S: Real>(s: u64) -> Seq<S> {
    Seq::new(
        KNOTS as nat,
        |p: int| crate::rng::spec_normal::<S>(crate::sampling::after_normals(s, p as nat)),
    )
}

/// The values of one axis at the knots: about `c`, correlated by the factor of `k`.
pub open spec fn spec_axis<S: Real>(k: Seq<Seq<S>>, s: u64, c: S, amp: S) -> Seq<S> {
    Seq::new(
        KNOTS as nat,
        |i: int| c + amp * mixed(k, spec_normals::<S>(s), i, (i + 1) as nat),
    )
}

/// The natural spline through the knots `(t, y)`.
pub open spec fn is_natural<S: Real>(sp: Spline<S>, t: Seq<S>, y: Seq<S>) -> bool {
    &&& sp.t@ == t
    &&& sp.y@ == y
    &&& sp.m@ == Seq::new(t.len(), |i: int| curvature(t, y, i))
}

fn axis<S: Real>(
    r: &mut Rng,
    l: &Vec<Vec<S>>,
    knots: &Vec<S>,
    c: S,
    amp: S,
    Ghost(k): Ghost<Seq<Seq<S>>>,
) -> (sp: Spline<S>)
    requires
        knots@.len() == KNOTS,
        l@.len() == KNOTS,
        forall|i: int| 0 <= i < KNOTS ==> (#[trigger] l@[i])@.len() == i + 1,
        forall|i: int, j: int| 0 <= j <= i < KNOTS ==> #[trigger] l@[i]@[j] == chol(k, i, j),
    ensures
        is_natural(sp, knots@, spec_axis(k, old(r)@, c, amp)),
        final(r)@ == crate::sampling::after_normals(old(r)@, KNOTS as nat),
{
    let ghost s = r@;
    let mut z: Vec<S> = Vec::new();
    for p in 0..KNOTS
        invariant
            r@ == crate::sampling::after_normals(s, p as nat),
            z@.len() == p,
            forall|q: int|
                0 <= q < p ==> #[trigger] z@[q] == crate::rng::spec_normal::<S>(
                    crate::sampling::after_normals(s, q as nat),
                ),
    {
        z.push(r.normal::<S>());
    }
    assert(z@ =~= spec_normals::<S>(s));
    let mut y: Vec<S> = Vec::new();
    for i in 0..KNOTS
        invariant
            l@.len() == KNOTS,
            forall|a: int| 0 <= a < KNOTS ==> (#[trigger] l@[a])@.len() == a + 1,
            forall|a: int, b: int| 0 <= b <= a < KNOTS ==> #[trigger] l@[a]@[b] == chol(k, a, b),
            z@ == spec_normals::<S>(s),
            z@.len() == KNOTS,
            y@.len() == i,
            forall|p: int| 0 <= p < i ==> #[trigger] y@[p] == spec_axis(k, s, c, amp)[p],
    {
        let mut v = S::zero();
        for p in 0..i + 1
            invariant
                i < KNOTS,
                l@.len() == KNOTS,
                l@[i as int]@.len() == i + 1,
                forall|a: int, b: int|
                    0 <= b <= a < KNOTS ==> #[trigger] l@[a]@[b] == chol(k, a, b),
                z@.len() == KNOTS,
                v == mixed(k, z@, i as int, p as nat),
        {
            assert(l@[i as int]@[p as int] == chol(k, i as int, p as int));
            v = v.add(l[i][p].mul(z[p]));
        }
        y.push(c.add(amp.mul(v)));
    }
    assert(y@ =~= spec_axis(k, s, c, amp));
    Spline::natural(copy_vec(knots), y)
}

pub struct GpRef<S> {
    pub sx: Spline<S>,
    pub sy: Spline<S>,
    pub sz: Spline<S>,
    pub yaw_a: S,
    pub yaw_w: S,
    pub yaw_phi: S,
}

/// Heading and its rate: a sine.
pub open spec fn spec_heading<S: Real>(a: S, w: S, phi: S, t: S) -> (S, S) {
    (a * (w * t + phi).spec_sin(), a * w * (w * t + phi).spec_cos())
}

/// Amplitude, frequency and phase of the heading, drawn from generator state `s`.
pub open spec fn heading_draws<S: Real>(s: u64) -> (S, S, S) {
    (
        crate::rl_env::between_at(s, 0, S::spec_splat(-4, 10), S::spec_splat(4, 10)),
        crate::rl_env::between_at(s, 1, S::spec_splat(2, 10), S::spec_splat(8, 10)),
        crate::rl_env::between_at(
            s,
            2,
            S::spec_zero(),
            S::spec_splat(2, 1) * S::spec_pi(),
        ),
    )
}

fn draw_heading<S: Real>(r: &mut Rng) -> (h: (S, S, S))
    ensures
        h == heading_draws::<S>(old(r)@),
        final(r)@ == crate::rl_env::after_uniforms(old(r)@, 3),
{
    proof {
        reveal_with_fuel(crate::rl_env::after_uniforms, 4);
    }
    let a = lerp(r, S::splat(-4, 10), S::splat(4, 10));
    let w = lerp(r, S::splat(2, 10), S::splat(8, 10));
    let phi = lerp(r, S::zero(), S::splat(2, 1).mul(S::pi()));
    (a, w, phi)
}

impl<S: Real> GpRef<S> {
    /// The covariance of the reference drawn from generator state `s`.
    pub open spec fn cov(s: u64, t_final: S) -> Seq<Seq<S>> {
        kernel_rows(
            spec_knots(t_final),
            crate::rl_env::between_at(s, 0, S::spec_splat(3, 1), S::spec_splat(8, 1)),
            crate::rl_env::between_at(s, 1, S::spec_splat(6, 10), S::spec_splat(14, 10)),
        )
    }

    /// The amplitude of the reference drawn from generator state `s`.
    pub open spec fn amp(s: u64) -> S {
        crate::rl_env::between_at(s, 2, S::spec_splat(5, 10), S::spec_splat(14, 10))
    }

    /// This is the reference drawn from generator state `s`: three axes with one period,
    /// smoothness and amplitude, the vertical one flatter, and a heading.
    pub open spec fn drawn(self, s: u64, center: Vec3<S>, t_final: S) -> bool {
        let k = Self::cov(s, t_final);
        let t = spec_knots(t_final);
        let amp = Self::amp(s);
        let s0 = crate::rl_env::after_uniforms(s, 3);
        let s1 = crate::sampling::after_normals(s0, KNOTS as nat);
        let s2 = crate::sampling::after_normals(s1, KNOTS as nat);
        let s3 = crate::sampling::after_normals(s2, KNOTS as nat);
        &&& is_natural(self.sx, t, spec_axis(k, s0, center.x, amp))
        &&& is_natural(self.sy, t, spec_axis(k, s1, center.y, amp))
        &&& is_natural(self.sz, t, spec_axis(k, s2, center.z, amp * S::spec_splat(4, 10)))
        &&& (self.yaw_a, self.yaw_w, self.yaw_phi) == heading_draws::<S>(s3)
    }

    /// The generator state after drawing a reference.
    pub open spec fn after_drawn(s: u64) -> u64 {
        let s0 = crate::rl_env::after_uniforms(s, 3);
        let s1 = crate::sampling::after_normals(s0, KNOTS as nat);
        let s2 = crate::sampling::after_normals(s1, KNOTS as nat);
        let s3 = crate::sampling::after_normals(s2, KNOTS as nat);
        crate::rl_env::after_uniforms(s3, 3)
    }

    /// The splines can be evaluated.
    pub open spec fn wf(self) -> bool {
        self.sx.wf() && self.sy.wf() && self.sz.wf()
    }

    pub open spec fn spec_at(self, t: S) -> FlatRef<S> {
        let (x, y, z) = (self.sx.spec_eval(t), self.sy.spec_eval(t), self.sz.spec_eval(t));
        let (yaw, yaw_dot) = spec_heading(self.yaw_a, self.yaw_w, self.yaw_phi, t);
        FlatRef {
            x: Vec3 { x: x.0, y: y.0, z: z.0 },
            x_dot: Vec3 { x: x.1, y: y.1, z: z.1 },
            x_ddot: Vec3 { x: x.2, y: y.2, z: z.2 },
            yaw,
            yaw_dot,
        }
    }

    /// Draw a reference about `center` that lasts `t_final`.
    pub fn sample(r: &mut Rng, center: Vec3<S>, t_final: S) -> (g: Self)
        ensures
            g.drawn(old(r)@, center, t_final),
            g.wf(),
            final(r)@ == Self::after_drawn(old(r)@),
    {
        proof {
            reveal_with_fuel(crate::rl_env::after_uniforms, 4);
        }
        let ghost s = r@;
        let mut knots: Vec<S> = Vec::new();
        for i in 0..KNOTS
            invariant
                knots@.len() == i,
                forall|p: int| 0 <= p < i ==> #[trigger] knots@[p] == spec_knot(t_final, p),
        {
            knots.push(S::splat(i as i128, 1).mul(t_final).div(S::splat(25, 1)));
        }
        assert(knots@ =~= spec_knots(t_final));
        let period = lerp(r, S::splat(3, 1), S::splat(8, 1));
        let ls = lerp(r, S::splat(6, 10), S::splat(14, 10));
        let mut k: Vec<Vec<S>> = Vec::new();
        for i in 0..KNOTS
            invariant
                knots@ == spec_knots(t_final),
                knots@.len() == KNOTS,
                k@.len() == i,
                forall|p: int|
                    0 <= p < i ==> (#[trigger] k@[p])@ == kernel_rows(knots@, period, ls)[p],
        {
            let mut row: Vec<S> = Vec::new();
            for j in 0..KNOTS
                invariant
                    i < KNOTS,
                    knots@.len() == KNOTS,
                    row@.len() == j,
                    forall|q: int|
                        0 <= q < j ==> #[trigger] row@[q] == kernel(
                            knots@,
                            period,
                            ls,
                            i as int,
                            q,
                        ),
            {
                let d = knots[i].sub(knots[j]).abs();
                let sn = S::pi().mul(d).div(period).sin();
                let e = S::splat(-2, 1).mul(sn).mul(sn).div(ls.mul(ls)).exp();
                if i == j {
                    row.push(e.add(S::splat(1, 1000000000)));
                } else {
                    row.push(e);
                }
            }
            assert(row@ =~= kernel_rows(knots@, period, ls)[i as int]);
            k.push(row);
        }
        let ghost cov = Self::cov(s, t_final);
        assert(crate::sampling::deep(k@) =~~= cov);
        let l = cholesky(&k);
        let amp = lerp(r, S::splat(5, 10), S::splat(14, 10));
        let sx = axis(r, &l, &knots, center.x, amp, Ghost(cov));
        let sy = axis(r, &l, &knots, center.y, amp, Ghost(cov));
        let sz = axis(r, &l, &knots, center.z, amp.mul(S::splat(4, 10)), Ghost(cov));
        let (yaw_a, yaw_w, yaw_phi) = draw_heading::<S>(r);
        GpRef { sx, sy, sz, yaw_a, yaw_w, yaw_phi }
    }

    /// The reference at time `t`.
    pub fn at(&self, t: S) -> (r: FlatRef<S>)
        requires
            self.wf(),
        ensures
            r == self.spec_at(t),
    {
        let (x, dx, ddx) = self.sx.eval(t);
        let (y, dy, ddy) = self.sy.eval(t);
        let (z, dz, ddz) = self.sz.eval(t);
        let phase = self.yaw_w.mul(t).add(self.yaw_phi);
        FlatRef {
            x: Vec3::new(x, y, z),
            x_dot: Vec3::new(dx, dy, dz),
            x_ddot: Vec3::new(ddx, ddy, ddz),
            yaw: self.yaw_a.mul(phase.sin()),
            yaw_dot: self.yaw_a.mul(self.yaw_w).mul(phase.cos()),
        }
    }
}

// ---------------------------------------------------------------------------
// Sums of sines
// ---------------------------------------------------------------------------
/// Sines of one axis.
pub const N_MODES: usize = 3;

pub struct FourierRef<S> {
    pub center: Vec3<S>,
    pub amp: [[S; N_MODES]; 3],
    pub freq: [[S; N_MODES]; 3],
    pub phase: [[S; N_MODES]; 3],
    pub yaw_a: S,
    pub yaw_w: S,
    pub yaw_phi: S,
}

/// Value, first and second derivative of the first `n` sines about `c`.
pub open spec fn sines<S: Real>(c: S, a: Seq<S>, w: Seq<S>, p: Seq<S>, t: S, n: nat) -> (S, S, S)
    decreases n,
{
    if n == 0 {
        (c, S::spec_zero(), S::spec_zero())
    } else {
        let m = n - 1;
        let (x, d, dd) = sines(c, a, w, p, t, m as nat);
        let phi = w[m] * t + p[m];
        (
            x + a[m] * phi.spec_sin(),
            d + a[m] * w[m] * phi.spec_cos(),
            dd + (-a[m]) * w[m] * w[m] * phi.spec_sin(),
        )
    }
}

fn sum_sines<S: Real>(c: S, a: &[S; N_MODES], w: &[S; N_MODES], p: &[S; N_MODES], t: S) -> (r: (
    S,
    S,
    S,
))
    ensures
        r == sines(c, a@, w@, p@, t, N_MODES as nat),
{
    let mut x = c;
    let mut d = S::zero();
    let mut dd = S::zero();
    for m in 0..N_MODES
        invariant
            (x, d, dd) == sines(c, a@, w@, p@, t, m as nat),
    {
        let phi = w[m].mul(t).add(p[m]);
        let s = phi.sin();
        let k = phi.cos();
        x = x.add(a[m].mul(s));
        d = d.add(a[m].mul(w[m]).mul(k));
        dd = dd.add(a[m].neg().mul(w[m]).mul(w[m]).mul(s));
    }
    (x, d, dd)
}

impl<S: Real> FourierRef<S> {
    /// Amplitude of sine `m` of an axis, drawn from generator state `s`; those of the
    /// vertical axis are flatter.
    pub open spec fn amp_at(s: u64, axis: int, m: int) -> S {
        let a = crate::rl_env::between_at(
            s,
            (9 * axis + 3 * m) as nat,
            S::spec_splat(3, 10),
            S::spec_one(),
        );
        if axis == 2 {
            a * S::spec_splat(4, 10)
        } else {
            a
        }
    }

    pub open spec fn freq_at(s: u64, axis: int, m: int) -> S {
        crate::rl_env::between_at(
            s,
            (9 * axis + 3 * m + 1) as nat,
            S::spec_splat(2, 10),
            S::spec_one(),
        )
    }

    pub open spec fn phase_at(s: u64, axis: int, m: int) -> S {
        crate::rl_env::between_at(
            s,
            (9 * axis + 3 * m + 2) as nat,
            S::spec_zero(),
            S::spec_splat(2, 1) * S::spec_pi(),
        )
    }

    /// This is the reference drawn from generator state `s`.
    pub open spec fn drawn(self, s: u64, center: Vec3<S>) -> bool {
        &&& self.center == center
        &&& forall|i: int, m: int|
            0 <= i < 3 && 0 <= m < N_MODES ==> #[trigger] self.amp[i][m] == Self::amp_at(s, i, m)
        &&& forall|i: int, m: int|
            0 <= i < 3 && 0 <= m < N_MODES ==> #[trigger] self.freq[i][m] == Self::freq_at(
                s,
                i,
                m,
            )
        &&& forall|i: int, m: int|
            0 <= i < 3 && 0 <= m < N_MODES ==> #[trigger] self.phase[i][m] == Self::phase_at(
                s,
                i,
                m,
            )
        &&& (self.yaw_a, self.yaw_w, self.yaw_phi) == heading_draws::<S>(
            crate::rl_env::after_uniforms(s, 27),
        )
    }

    pub open spec fn axis_at(self, i: int, c: S, t: S) -> (S, S, S) {
        sines(c, self.amp[i]@, self.freq[i]@, self.phase[i]@, t, N_MODES as nat)
    }

    pub open spec fn spec_at(self, t: S) -> FlatRef<S> {
        let x = self.axis_at(0, self.center.x, t);
        let y = self.axis_at(1, self.center.y, t);
        let z = self.axis_at(2, self.center.z, t);
        let (yaw, yaw_dot) = spec_heading(self.yaw_a, self.yaw_w, self.yaw_phi, t);
        FlatRef {
            x: Vec3 { x: x.0, y: y.0, z: z.0 },
            x_dot: Vec3 { x: x.1, y: y.1, z: z.1 },
            x_ddot: Vec3 { x: x.2, y: y.2, z: z.2 },
            yaw,
            yaw_dot,
        }
    }

    /// Draw a reference about `center`.
    pub fn sample(r: &mut Rng, center: Vec3<S>) -> (f: Self)
        ensures
            f.drawn(old(r)@, center),
            final(r)@ == crate::rl_env::after_uniforms(old(r)@, 30),
    {
        let ghost s = r@;
        let z = S::zero();
        let mut amp = [[z; N_MODES]; 3];
        let mut freq = [[z; N_MODES]; 3];
        let mut phase = [[z; N_MODES]; 3];
        for i in 0..3usize
            invariant
                r@ == crate::rl_env::after_uniforms(s, (9 * i) as nat),
                forall|p: int, q: int|
                    0 <= p < i && 0 <= q < N_MODES ==> #[trigger] amp[p][q] == Self::amp_at(
                        s,
                        p,
                        q,
                    ),
                forall|p: int, q: int|
                    0 <= p < i && 0 <= q < N_MODES ==> #[trigger] freq[p][q] == Self::freq_at(
                        s,
                        p,
                        q,
                    ),
                forall|p: int, q: int|
                    0 <= p < i && 0 <= q < N_MODES ==> #[trigger] phase[p][q] == Self::phase_at(
                        s,
                        p,
                        q,
                    ),
        {
            for m in 0..N_MODES
                invariant
                    0 <= i < 3,
                    r@ == crate::rl_env::after_uniforms(s, (9 * i + 3 * m) as nat),
                    forall|p: int, q: int|
                        0 <= p < i && 0 <= q < N_MODES ==> #[trigger] amp[p][q] == Self::amp_at(
                            s,
                            p,
                            q,
                        ),
                    forall|p: int, q: int|
                        0 <= p < i && 0 <= q < N_MODES ==> #[trigger] freq[p][q]
                            == Self::freq_at(s, p, q),
                    forall|p: int, q: int|
                        0 <= p < i && 0 <= q < N_MODES ==> #[trigger] phase[p][q]
                            == Self::phase_at(s, p, q),
                    forall|q: int|
                        0 <= q < m ==> #[trigger] amp[i as int][q] == Self::amp_at(
                            s,
                            i as int,
                            q,
                        ),
                    forall|q: int|
                        0 <= q < m ==> #[trigger] freq[i as int][q] == Self::freq_at(
                            s,
                            i as int,
                            q,
                        ),
                    forall|q: int|
                        0 <= q < m ==> #[trigger] phase[i as int][q] == Self::phase_at(
                            s,
                            i as int,
                            q,
                        ),
            {
                proof {
                    let n = (9 * i + 3 * m) as nat;
                    reveal_with_fuel(crate::rl_env::after_uniforms, 4);
                    crate::rl_env::lemma_after_uniforms_add(s, n, 1);
                    crate::rl_env::lemma_after_uniforms_add(s, n, 2);
                    crate::rl_env::lemma_after_uniforms_add(s, n, 3);
                }
                let a = lerp(r, S::splat(3, 10), S::one());
                let w = lerp(r, S::splat(2, 10), S::one());
                let p = lerp(r, S::zero(), S::splat(2, 1).mul(S::pi()));
                // the vertical axis is flatter, so as not to dive into the ground
                amp[i][m] = if i == 2 {
                    a.mul(S::splat(4, 10))
                } else {
                    a
                };
                freq[i][m] = w;
                phase[i][m] = p;
            }
        }
        proof {
            crate::rl_env::lemma_after_uniforms_add(s, 27, 3);
        }
        let (yaw_a, yaw_w, yaw_phi) = draw_heading::<S>(r);
        FourierRef { center, amp, freq, phase, yaw_a, yaw_w, yaw_phi }
    }

    /// The reference at time `t`.
    pub fn at(&self, t: S) -> (r: FlatRef<S>)
        ensures
            r == self.spec_at(t),
    {
        let (x, dx, ddx) = sum_sines(
            self.center.x,
            &self.amp[0],
            &self.freq[0],
            &self.phase[0],
            t,
        );
        let (y, dy, ddy) = sum_sines(
            self.center.y,
            &self.amp[1],
            &self.freq[1],
            &self.phase[1],
            t,
        );
        let (z, dz, ddz) = sum_sines(
            self.center.z,
            &self.amp[2],
            &self.freq[2],
            &self.phase[2],
            t,
        );
        let phase = self.yaw_w.mul(t).add(self.yaw_phi);
        FlatRef {
            x: Vec3::new(x, y, z),
            x_dot: Vec3::new(dx, dy, dz),
            x_ddot: Vec3::new(ddx, ddy, ddz),
            yaw: self.yaw_a.mul(phase.sin()),
            yaw_dot: self.yaw_a.mul(self.yaw_w).mul(phase.cos()),
        }
    }
}

// ---------------------------------------------------------------------------
// Laws
// ---------------------------------------------------------------------------
/// The knots come one after the other.
pub open spec fn increasing<S: Real>(t: Seq<S>) -> bool {
    forall|i: int, j: int|
        0 <= i < j < t.len() ==> (#[trigger] t[i]).val() < (#[trigger] t[j]).val()
}

proof fn lemma_interval_at_knot<S: Real>(t: Seq<S>, k: int, i: int)
    requires
        crate::scalar::exact::<S>(),
        t.len() >= 2,
        increasing(t),
        1 <= k < t.len(),
        0 <= i < k,
    ensures
        interval(t, t[k], i) == k - 1,
    decreases k - i,
{
    if i < k - 1 {
        assert(t[i + 1].val() < t[k].val());
        lemma_interval_at_knot(t, k, i + 1);
    }
}

/// The two ends of a piece, in numbers.
proof fn lemma_piece_ends(h: real, y0: real, y1: real, m0: real, m1: real)
    requires
        h > 0real,
    ensures
        1real * y0 + 0real * y1 + h * h / 6real * ((1real * 1real * 1real - 1real) * m0 + (0real
            * 0real * 0real - 0real) * m1) == y0,
        0real * y0 + 1real * y1 + h * h / 6real * ((0real * 0real * 0real - 0real) * m0 + (1real
            * 1real * 1real - 1real) * m1) == y1,
        h / 6real * ((-(3real * 1real * 1real - 1real)) * m0 + (3real * 0real * 0real - 1real)
            * m1) == -(h * m0 / 3real) - h * m1 / 6real,
        h / 6real * ((-(3real * 0real * 0real - 1real)) * m0 + (3real * 1real * 1real - 1real)
            * m1) == h * m0 / 6real + h * m1 / 3real,
        1real * m0 + 0real * m1 == m0,
        0real * m0 + 1real * m1 == m1,
{
    assert(h * h / 6real * ((1real * 1real * 1real - 1real) * m0 + (0real * 0real * 0real - 0real)
        * m1) == 0real) by (nonlinear_arith);
    assert(h * h / 6real * ((0real * 0real * 0real - 0real) * m0 + (1real * 1real * 1real - 1real)
        * m1) == 0real) by (nonlinear_arith);
    assert(h / 6real * ((-(3real * 1real * 1real - 1real)) * m0 + (3real * 0real * 0real - 1real)
        * m1) == -(h * m0 / 3real) - h * m1 / 6real) by (nonlinear_arith);
    assert(h / 6real * ((-(3real * 0real * 0real - 1real)) * m0 + (3real * 1real * 1real - 1real)
        * m1) == h * m0 / 6real + h * m1 / 3real) by (nonlinear_arith);
}

/// What the cubic of interval `i` comes to at its two knots.
proof fn lemma_piece_at_knots<S: Real>(t: Seq<S>, y: Seq<S>, m: Seq<S>, i: int)
    requires
        crate::scalar::exact::<S>(),
        increasing(t),
        0 <= i < t.len() - 1,
    ensures
        ({
            let h = gap(t, i).val();
            let (l, r) = (piece(t, y, m, i, t[i]), piece(t, y, m, i, t[i + 1]));
            let (m0, m1) = (m[i].val(), m[i + 1].val());
            &&& h > 0real
            &&& l.0.val() == y[i].val()
            &&& r.0.val() == y[i + 1].val()
            &&& l.1.val() == chord(t, y, i).val() - h * m0 / 3real - h * m1 / 6real
            &&& r.1.val() == chord(t, y, i).val() + h * m0 / 6real + h * m1 / 3real
            &&& l.2.val() == m0
            &&& r.2.val() == m1
        }),
{
    crate::scalar::lemma_splat_int::<S>(6);
    crate::scalar::lemma_splat_int::<S>(3);
    assert(t[i].val() < t[i + 1].val());
    let h = gap(t, i).val();
    assert(h / h == 1real && 0real / h == 0real) by (nonlinear_arith)
        requires
            h > 0real,
    ;
    lemma_piece_ends(h, y[i].val(), y[i + 1].val(), m[i].val(), m[i + 1].val());
}

/// Without rounding, a spline goes through its knots.
pub proof fn law_spline_interpolates_knots<S: Real>(sp: Spline<S>, k: int)
    requires
        crate::scalar::exact::<S>(),
        sp.wf(),
        increasing(sp.t@),
        0 <= k < sp.t@.len(),
    ensures
        sp.spec_eval(sp.t@[k]).0.val() == sp.y@[k].val(),
{
    let (t, y, m) = (sp.t@, sp.y@, sp.m@);
    if k == 0 {
        assert(t[0].val() < t[1].val());
        assert(interval(t, t[0], 0) == 0);
        lemma_piece_at_knots(t, y, m, 0);
    } else {
        lemma_interval_at_knot(t, k, 0);
        lemma_piece_at_knots(t, y, m, k - 1);
    }
}

/// The pivots of the elimination are positive and outweigh the entries to their right.
proof fn lemma_pivot_positive<S: Real>(t: Seq<S>, y: Seq<S>, i: nat)
    requires
        crate::scalar::exact::<S>(),
        t.len() >= 3,
        increasing(t),
        i < t.len(),
    ensures
        swept(t, y, i).0.val() > 0real,
        0real <= row_up(t, i as int).val() < swept(t, y, i).0.val(),
    decreases i,
{
    crate::scalar::lemma_splat_int::<S>(6);
    crate::scalar::lemma_splat_int::<S>(3);
    let n = i as int;
    if interior(t, n) {
        assert(t[n].val() < t[n + 1].val());
        assert(t[n - 1].val() < t[n].val());
    }
    if i > 0 {
        lemma_pivot_positive(t, y, (i - 1) as nat);
        let d = swept(t, y, (i - 1) as nat).0.val();
        let lo = row_lo(t, n).val();
        let u = row_up(t, n - 1).val();
        let w = (row_lo(t, n) / swept(t, y, (i - 1) as nat).0).val();
        assert(w == lo / d);
        assert(w * u <= lo) by (nonlinear_arith)
            requires
                w == lo / d,
                d > 0real,
                0real <= u,
                u < d,
                lo >= 0real,
        ;
        if interior(t, n) {
            let (g0, g1) = (gap(t, n - 1).val(), gap(t, n).val());
            assert((g0 + g1) / 3real - g0 / 6real > g1 / 6real) by (nonlinear_arith)
                requires
                    g0 > 0real,
                    g1 > 0real,
            ;
        } else {
            assert(w * u == 0real) by (nonlinear_arith)
                requires
                    w == lo / d,
                    d > 0real,
                    lo == 0real,
            ;
        }
    }
}

/// Back substitution solves the eliminated row.
proof fn lemma_row_solved<S: Real>(t: Seq<S>, y: Seq<S>, i: nat)
    requires
        crate::scalar::exact::<S>(),
        t.len() >= 3,
        increasing(t),
        i < t.len() - 1,
    ensures
        swept(t, y, i).0.val() * curvature(t, y, i as int).val() + row_up(t, i as int).val()
            * curvature(t, y, (i + 1) as int).val() == swept(t, y, i).1.val(),
{
    lemma_pivot_positive(t, y, i);
    let (d, r) = (swept(t, y, i).0.val(), swept(t, y, i).1.val());
    let u = row_up(t, i as int).val();
    let (m0, m1) = (curvature(t, y, i as int).val(), curvature(t, y, (i + 1) as int).val());
    assert(d * m0 + u * m1 == r) by (nonlinear_arith)
        requires
            m0 == (r - u * m1) / d,
            d > 0real,
    ;
}

/// The second derivatives that elimination and back substitution find solve the equations
/// for a slope without jumps.
proof fn lemma_equation_solved<S: Real>(t: Seq<S>, y: Seq<S>, i: int)
    requires
        crate::scalar::exact::<S>(),
        t.len() >= 3,
        increasing(t),
        interior(t, i),
    ensures
        row_lo(t, i).val() * curvature(t, y, i - 1).val() + row_di(t, i).val() * curvature(
            t,
            y,
            i,
        ).val() + row_up(t, i).val() * curvature(t, y, i + 1).val() == row_rhs(t, y, i).val(),
{
    lemma_row_solved(t, y, (i - 1) as nat);
    lemma_row_solved(t, y, i as nat);
    lemma_pivot_positive(t, y, (i - 1) as nat);
    let (d, r) = (swept(t, y, (i - 1) as nat).0.val(), swept(t, y, (i - 1) as nat).1.val());
    let (d2, r2) = (swept(t, y, i as nat).0.val(), swept(t, y, i as nat).1.val());
    let (lo, di) = (row_lo(t, i).val(), row_di(t, i).val());
    let (u0, u1) = (row_up(t, i - 1).val(), row_up(t, i).val());
    let rhs = row_rhs(t, y, i).val();
    let (m0, m1, m2) = (
        curvature(t, y, i - 1).val(),
        curvature(t, y, i).val(),
        curvature(t, y, i + 1).val(),
    );
    let w = (row_lo(t, i) / swept(t, y, (i - 1) as nat).0).val();
    assert(w == lo / d);
    assert(lo == w * d) by (nonlinear_arith)
        requires
            w == lo / d,
            d > 0real,
    ;
    assert(lo * m0 == w * (d * m0)) by (nonlinear_arith)
        requires
            lo == w * d,
    ;
    assert(w * (d * m0) == w * r - w * (u0 * m1)) by (nonlinear_arith)
        requires
            d * m0 + u0 * m1 == r,
    ;
    assert(di * m1 == d2 * m1 + w * (u0 * m1)) by (nonlinear_arith)
        requires
            d2 == di - w * u0,
    ;
}

/// Without rounding, the natural spline is smooth: at every inner knot the pieces on both
/// sides agree in value, slope and curvature. At the two ends the curvature is zero.
pub proof fn law_natural_spline_is_smooth<S: Real>(t: Seq<S>, y: Seq<S>, m: Seq<S>, i: int)
    requires
        crate::scalar::exact::<S>(),
        t.len() >= 3,
        increasing(t),
        m == Seq::new(t.len(), |k: int| curvature(t, y, k)),
        interior(t, i),
    ensures
        ({
            let (l, r) = (piece(t, y, m, i - 1, t[i]), piece(t, y, m, i, t[i]));
            &&& l.0.val() == r.0.val()
            &&& l.1.val() == r.1.val()
            &&& l.2.val() == r.2.val()
        }),
        m[0].val() == 0real,
        m[t.len() - 1].val() == 0real,
{
    crate::scalar::lemma_splat_int::<S>(6);
    crate::scalar::lemma_splat_int::<S>(3);
    lemma_piece_at_knots(t, y, m, i - 1);
    lemma_piece_at_knots(t, y, m, i);
    lemma_equation_solved(t, y, i);
    let (g0, g1) = (gap(t, i - 1).val(), gap(t, i).val());
    let (m0, m1, m2) = (m[i - 1].val(), m[i].val(), m[i + 1].val());
    assert(g0 / 6real * m0 + (g0 + g1) / 3real * m1 + g1 / 6real * m2 == g0 * m0 / 6real + g0 * m1
        / 3real + g1 * m1 / 3real + g1 * m2 / 6real) by (nonlinear_arith);
    // the ends
    let n = t.len() - 1;
    lemma_row_solved(t, y, 0);
    let c1 = curvature(t, y, 1).val();
    assert(swept(t, y, 0).0.val() == 1real && swept(t, y, 0).1.val() == 0real);
    assert(1real * m[0].val() + 0real * c1 == m[0].val()) by (nonlinear_arith);
    lemma_pivot_positive(t, y, (n - 1) as nat);
    let (d, r) = (swept(t, y, (n - 1) as nat).0.val(), swept(t, y, (n - 1) as nat).1.val());
    let u = row_up(t, n - 1).val();
    let w = (row_lo(t, n) / swept(t, y, (n - 1) as nat).0).val();
    assert(w == 0real) by (nonlinear_arith)
        requires
            w == 0real / d,
            d > 0real,
    ;
    assert(w * r == 0real && w * u == 0real) by (nonlinear_arith)
        requires
            w == 0real,
    ;
    assert(swept(t, y, n as nat).0.val() == 1real && swept(t, y, n as nat).1.val() == 0real);
    assert(0real / 1real == 0real) by (nonlinear_arith);
}

/// `sum over p < n of l[i][p] l[j][p]` for the factor `l` of `k`.
pub open spec fn factor_dot<S: Real>(k: Seq<Seq<S>>, i: int, j: int, n: nat) -> real
    decreases n,
{
    if n == 0 {
        0real
    } else {
        factor_dot(k, i, j, (n - 1) as nat) + chol(k, i, n - 1).val() * chol(k, j, n - 1).val()
    }
}

proof fn lemma_chol_rest<S: Real>(k: Seq<Seq<S>>, i: int, j: int, n: nat)
    requires
        crate::scalar::exact::<S>(),
        n <= j <= i,
    ensures
        chol_rest(k, i, j, n as int).val() == k[i][j].val() - factor_dot(k, i, j, n),
    decreases n,
{
    if n > 0 {
        lemma_chol_rest(k, i, j, (n - 1) as nat);
    }
}

/// Without rounding, and where no pivot had to be lifted, the factor times its transpose
/// is the covariance.
pub proof fn law_cholesky<S: Real>(k: Seq<Seq<S>>, i: int, j: int)
    requires
        crate::scalar::exact::<S>(),
        0 <= j <= i,
        S::spec_splat(1, 1000000000000).val() <= chol_rest(k, j, j, j).val(),
    ensures
        factor_dot(k, i, j, (j + 1) as nat) == k[i][j].val(),
{
    let tiny = S::spec_splat(1, 1000000000000).val();
    crate::scalar::lemma_splat_fraction::<S>(1, 1000000000000);
    assert(1real / 1000000000000real > 0real) by (nonlinear_arith);
    lemma_chol_rest(k, i, j, j as nat);
    let p = chol_rest(k, j, j, j);
    let lifted = p.spec_max(S::spec_splat(1, 1000000000000));
    assert(lifted.val() == p.val());
    let d = chol(k, j, j).val();
    assert(d * d == p.val());
    if i != j {
        assert(d != 0real) by (nonlinear_arith)
            requires
                d * d > 0real,
        ;
        let (e, r) = (chol(k, i, j).val(), chol_rest(k, i, j, j).val());
        assert(e * d == r) by (nonlinear_arith)
            requires
                e == r / d,
                d != 0real,
        ;
    }
}

} // verus!
