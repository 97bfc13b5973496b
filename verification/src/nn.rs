//! The layers that the learned models are made of, in single precision.
use vstd::prelude::*;

use crate::blob::{Arr, Tensor};
use crate::scalar::{Real, Scalar, Wide};

verus! {

// ---------------------------------------------------------------------------
// Activations
// ---------------------------------------------------------------------------
/// The coefficient `num / 1e8`.
pub open spec fn coef<S: Real>(num: int) -> S {
    S::spec_splat(num, 100000000)
}

/// The polynomial in `t` of the rational approximation of `erfc`.
pub open spec fn erfc_poly<S: Real>(t: S) -> S {
    coef::<S>(100002368) + t * (coef::<S>(37409196) + t * (coef::<S>(9678418) + t * (coef::<S>(
        -18628806,
    ) + t * (coef::<S>(27886807) + t * (coef::<S>(-113520398) + t * (coef::<S>(148851587) + t * (
    coef::<S>(-82215223) + t * coef::<S>(17087277))))))))
}

/// The complementary error function of a non-negative number, in double precision, to
/// within 1.2e-7.
pub open spec fn spec_erfc<S: Real>(z: S) -> S {
    let t = S::spec_one() / (S::spec_one() + S::spec_splat(1, 2) * z);
    t * ((-z) * z - coef::<S>(126551223) + t * erfc_poly(t)).spec_exp()
}

/// The error function.
pub open spec fn spec_erf<S: Wide>(x: S::Narrow) -> S::Narrow {
    let c = spec_erfc(S::spec_widen(x.spec_abs()));
    let e = if S::Narrow::spec_zero() <= x {
        S::spec_one() - c
    } else {
        c - S::spec_one()
    };
    e.spec_narrow()
}

fn coef_of<S: Real>(num: i128) -> (r: S)
    ensures
        r == coef::<S>(num as int),
{
    S::splat(num, 100000000)
}

fn erfc<S: Real>(z: S) -> (r: S)
    ensures
        r == spec_erfc(z),
{
    let t = S::one().div(S::one().add(S::splat(1, 2).mul(z)));
    let p9 = coef_of::<S>(-82215223).add(t.mul(coef_of::<S>(17087277)));
    let p8 = coef_of::<S>(148851587).add(t.mul(p9));
    let p7 = coef_of::<S>(-113520398).add(t.mul(p8));
    let p6 = coef_of::<S>(27886807).add(t.mul(p7));
    let p5 = coef_of::<S>(-18628806).add(t.mul(p6));
    let p4 = coef_of::<S>(9678418).add(t.mul(p5));
    let p3 = coef_of::<S>(37409196).add(t.mul(p4));
    let p2 = coef_of::<S>(100002368).add(t.mul(p3));
    t.mul(z.neg().mul(z).sub(coef_of::<S>(126551223)).add(t.mul(p2)).exp())
}

fn erf<S: Wide>(x: S::Narrow) -> (r: S::Narrow)
    ensures
        r == spec_erf::<S>(x),
{
    let c = erfc(S::widen(x.abs()));
    let e = if S::Narrow::zero().le(x) {
        S::one().sub(c)
    } else {
        c.sub(S::one())
    };
    e.narrow()
}

/// `x / 2 * (1 + erf(x / sqrt 2))`.
pub open spec fn spec_gelu<S: Wide>(x: S::Narrow) -> S::Narrow {
    let half = S::Narrow::spec_splat(1, 2);
    half * x * (S::Narrow::spec_one() + spec_erf::<S>(x * half.spec_sqrt()))
}

/// The Gaussian error linear unit, with the error function.
pub fn gelu<S: Wide>(x: S::Narrow) -> (r: S::Narrow)
    ensures
        r == spec_gelu::<S>(x),
{
    let half = S::Narrow::splat(1, 2);
    half.mul(x).mul(S::Narrow::one().add(erf::<S>(x.mul(half.sqrt()))))
}

pub open spec fn spec_sigmoid<N: Real>(x: N) -> N {
    N::spec_one() / (N::spec_one() + (-x).spec_exp())
}

pub fn sigmoid<N: Real>(x: N) -> (r: N)
    ensures
        r == spec_sigmoid(x),
{
    N::one().div(N::one().add(x.neg().exp()))
}

/// [`spec_gelu`] of every entry.
pub open spec fn spec_gelu_all<S: Wide>(x: Seq<S::Narrow>) -> Seq<S::Narrow> {
    Seq::new(x.len(), |i: int| spec_gelu::<S>(x[i]))
}

pub fn gelu_all<S: Wide>(x: &Vec<S::Narrow>) -> (r: Vec<S::Narrow>)
    ensures
        r@ == spec_gelu_all::<S>(x@),
{
    let mut r: Vec<S::Narrow> = Vec::new();
    for i in 0..x.len()
        invariant
            r@.len() == i,
            forall|p: int| 0 <= p < i ==> #[trigger] r@[p] == spec_gelu::<S>(x@[p]),
    {
        r.push(gelu::<S>(x[i]));
    }
    assert(r@ =~= spec_gelu_all::<S>(x@));
    r
}

// ---------------------------------------------------------------------------
// Affine maps
// ---------------------------------------------------------------------------
/// Entry `o` of `W x + b` over the first `n` columns: `W` row by row in `w`, with `cols`
/// entries in a row.
pub open spec fn affine_at<N: Scalar>(
    w: Seq<N>,
    b: Seq<N>,
    x: Seq<N>,
    cols: nat,
    o: int,
    n: nat,
) -> N
    decreases n,
{
    if n == 0 {
        b[o]
    } else {
        affine_at(w, b, x, cols, o, (n - 1) as nat) + w[o * cols + (n - 1)] * x[n - 1]
    }
}

/// `W x + b` with `rows` rows of `cols` entries.
pub open spec fn spec_affine<N: Scalar>(
    w: Seq<N>,
    b: Seq<N>,
    x: Seq<N>,
    rows: nat,
    cols: nat,
) -> Seq<N> {
    Seq::new(rows, |o: int| affine_at(w, b, x, cols, o, cols))
}

/// Index `o * cols + i` of a matrix with `rows` rows lies inside it.
pub proof fn lemma_row_index(o: int, i: int, rows: int, cols: int)
    requires
        0 <= o < rows,
        0 <= i < cols,
    ensures
        0 <= o * cols,
        o * cols + i < rows * cols,
        o * cols + cols <= rows * cols,
{
    assert(0 <= o * cols) by (nonlinear_arith)
        requires
            0 <= o,
            0 <= cols,
    ;
    assert(o * cols + cols <= rows * cols) by (nonlinear_arith)
        requires
            o + 1 <= rows,
            0 <= cols,
    ;
}

pub fn affine<N: Scalar>(
    w: &Vec<N>,
    b: &Vec<N>,
    x: &Vec<N>,
    rows: usize,
    cols: usize,
) -> (r: Vec<N>)
    requires
        rows * cols <= w@.len(),
        rows <= b@.len(),
        cols <= x@.len(),
    ensures
        r@ == spec_affine(w@, b@, x@, rows as nat, cols as nat),
{
    let mut r: Vec<N> = Vec::new();
    for o in 0..rows
        invariant
            rows * cols <= w@.len(),
            rows <= b@.len(),
            cols <= x@.len(),
            r@.len() == o,
            forall|p: int|
                0 <= p < o ==> #[trigger] r@[p] == affine_at(
                    w@,
                    b@,
                    x@,
                    cols as nat,
                    p,
                    cols as nat,
                ),
    {
        let mut acc = b[o];
        for i in 0..cols
            invariant
                o < rows,
                rows * cols <= w@.len(),
                cols <= x@.len(),
                acc == affine_at(w@, b@, x@, cols as nat, o as int, i as nat),
        {
            proof {
                lemma_row_index(o as int, i as int, rows as int, cols as int);
                assert(w.len() == w@.len());
            }
            acc = acc.add(w[o * cols + i].mul(x[i]));
        }
        r.push(acc);
    }
    assert(r@ =~= spec_affine(w@, b@, x@, rows as nat, cols as nat));
    r
}

// ---------------------------------------------------------------------------
// Sequences of channels
// ---------------------------------------------------------------------------
/// Every row has `l` entries.
pub open spec fn rect<N>(x: Seq<Seq<N>>, l: nat) -> bool {
    forall|c: int| 0 <= c < x.len() ==> (#[trigger] x[c]).len() == l
}

/// Rows become columns.
pub open spec fn spec_transpose<N>(x: Seq<Seq<N>>) -> Seq<Seq<N>> {
    Seq::new(x[0].len(), |c: int| Seq::new(x.len(), |t: int| x[t][c]))
}

pub fn transpose<N: Copy>(x: &Vec<Vec<N>>) -> (r: Vec<Vec<N>>)
    requires
        x@.len() >= 1,
        rect(crate::sampling::deep(x@), x@[0]@.len()),
    ensures
        crate::sampling::deep(r@) == spec_transpose(crate::sampling::deep(x@)),
        r@.len() == x@[0]@.len(),
        rect(crate::sampling::deep(r@), x@.len()),
{
    let ghost g = crate::sampling::deep(x@);
    let n: usize = x[0].len();
    let mut r: Vec<Vec<N>> = Vec::new();
    for c in 0..n
        invariant
            g == crate::sampling::deep(x@),
            n == x@[0]@.len(),
            rect(g, n as nat),
            r@.len() == c,
            forall|p: int|
                0 <= p < c ==> (#[trigger] r@[p])@ == Seq::new(g.len(), |t: int| g[t][p]),
    {
        let mut row: Vec<N> = Vec::new();
        for t in 0..x.len()
            invariant
                g == crate::sampling::deep(x@),
                rect(g, n as nat),
                c < n,
                row@.len() == t,
                forall|q: int| 0 <= q < t ==> #[trigger] row@[q] == g[q][c as int],
        {
            assert(g[t as int].len() == n);
            row.push(x[t][c]);
        }
        assert(row@ =~= Seq::new(g.len(), |t: int| g[t][c as int]));
        r.push(row);
    }
    assert(crate::sampling::deep(r@) =~~= spec_transpose(g));
    r
}

// ---------------------------------------------------------------------------
// Causal dilated convolution
// ---------------------------------------------------------------------------
/// `acc` plus the first `n` of the `k` taps of one channel `x` at position `o`; taps that
/// fall before the start of the sequence are zero.
pub open spec fn conv_taps<N: Scalar>(
    acc: N,
    w: Seq<N>,
    base: int,
    x: Seq<N>,
    k: int,
    dil: int,
    o: int,
    n: nat,
) -> N
    decreases n,
{
    if n == 0 {
        acc
    } else {
        let p = conv_taps(acc, w, base, x, k, dil, o, (n - 1) as nat);
        let i = o + (n - 1) * dil - (k - 1) * dil;
        if 0 <= i < x.len() {
            p + w[base + (n - 1)] * x[i]
        } else {
            p
        }
    }
}

/// Output channel `co` at position `o`, over the first `n` input channels.
pub open spec fn conv_at<N: Scalar>(
    w: Tensor<N>,
    b: Tensor<N>,
    x: Seq<Seq<N>>,
    dil: int,
    co: int,
    o: int,
    n: nat,
) -> N
    decreases n,
{
    if n == 0 {
        b.data[co]
    } else {
        let k = w.shape[2] as int;
        conv_taps(
            conv_at(w, b, x, dil, co, o, (n - 1) as nat),
            w.data,
            (co * w.shape[1] + (n - 1)) * k,
            x[n - 1],
            k,
            dil,
            o,
            k as nat,
        )
    }
}

/// The convolution of the channels `x` with the kernel `w` of shape (out, in, taps).
pub open spec fn spec_conv<N: Scalar>(
    w: Tensor<N>,
    b: Tensor<N>,
    x: Seq<Seq<N>>,
    dil: int,
) -> Seq<Seq<N>> {
    Seq::new(
        w.shape[0] as nat,
        |co: int|
            Seq::new(
                x[0].len(),
                |o: int| conv_at(w, b, x, dil, co, o, w.shape[1] as nat),
            ),
    )
}

/// The kernel is complete, and reads no more than `cin` channels.
pub open spec fn conv_ok<N>(w: Tensor<N>, b: Tensor<N>, cin: nat) -> bool {
    &&& w.shape.len() >= 3
    &&& w.shape[1] <= cin
    &&& w.shape[0] <= b.data.len()
    &&& w.shape[0] * w.shape[1] * w.shape[2] <= w.data.len()
}

proof fn lemma_kernel_index(co: int, ci: int, kk: int, cout: int, cin: int, k: int)
    requires
        0 <= co < cout,
        0 <= ci < cin,
        0 <= kk < k,
    ensures
        0 <= co * cin <= co * cin + ci <= (co * cin + ci) * k,
        (co * cin + ci) * k + kk < cout * cin * k,
{
    lemma_row_index(co, ci, cout, cin);
    lemma_row_index(co * cin + ci, kk, cout * cin, k);
    let a = co * cin + ci;
    assert(a <= a * k) by (nonlinear_arith)
        requires
            0 <= a,
            1 <= k,
    ;
}

proof fn lemma_tap(o: int, back: int, dil: int, kk: int, k: int)
    requires
        0 <= o,
        0 <= back,
        1 <= dil,
        back == k - 1 - kk,
    ensures
        back <= o / dil <==> back * dil <= o,
        o + kk * dil - (k - 1) * dil == o - back * dil,
        back * dil >= 0,
{
    assert((k - 1 - back) * dil == (k - 1) * dil - back * dil) by (nonlinear_arith);
    let q = o / dil;
    assert(q * dil <= o && o < (q + 1) * dil) by (nonlinear_arith)
        requires
            q == o / dil,
            1 <= dil,
    ;
    if back <= q {
        assert(back * dil <= q * dil) by (nonlinear_arith)
            requires
                back <= q,
                1 <= dil,
        ;
    } else {
        assert((q + 1) * dil <= back * dil) by (nonlinear_arith)
            requires
                q + 1 <= back,
                1 <= dil,
        ;
    }
    assert(back * dil >= 0) by (nonlinear_arith)
        requires
            back >= 0,
            dil >= 1,
    ;
}

/// One output entry of the convolution.
fn conv_entry<N: Scalar>(
    w: &Arr<N>,
    b: &Arr<N>,
    x: &Vec<Vec<N>>,
    dil: usize,
    co: usize,
    o: usize,
) -> (r: N)
    requires
        conv_ok(w@, b@, x@.len()),
        x@.len() >= 1,
        rect(crate::sampling::deep(x@), x@[0]@.len()),
        dil >= 1,
        co < w@.shape[0],
        o < x@[0]@.len(),
    ensures
        r == conv_at(
            w@,
            b@,
            crate::sampling::deep(x@),
            dil as int,
            co as int,
            o as int,
            w@.shape[1] as nat,
        ),
{
    let ghost g = crate::sampling::deep(x@);
    let cin: usize = w.shape[1];
    let k: usize = w.shape[2];
    let mut acc = b.data[co];
    for ci in 0..cin
        invariant
            g == crate::sampling::deep(x@),
            conv_ok(w@, b@, x@.len()),
            cin == w@.shape[1],
            k == w@.shape[2],
            x@.len() >= 1,
            rect(g, x@[0]@.len()),
            dil >= 1,
            co < w@.shape[0],
            o < x@[0]@.len(),
            acc == conv_at(w@, b@, g, dil as int, co as int, o as int, ci as nat),
    {
        let ghost start = acc;
        let ghost base = (co * cin + ci) * k;
        for kk in 0..k
            invariant
                g == crate::sampling::deep(x@),
                conv_ok(w@, b@, x@.len()),
                cin == w@.shape[1],
                k == w@.shape[2],
                ci < cin,
                x@.len() >= 1,
                rect(g, x@[0]@.len()),
                dil >= 1,
                co < w@.shape[0],
                o < x@[0]@.len(),
                base == (co * cin + ci) * k,
                acc == conv_taps(
                    start,
                    w@.data,
                    base,
                    g[ci as int],
                    k as int,
                    dil as int,
                    o as int,
                    kk as nat,
                ),
        {
            let back: usize = k - 1 - kk;
            proof {
                lemma_kernel_index(
                    co as int,
                    ci as int,
                    kk as int,
                    w@.shape[0] as int,
                    cin as int,
                    k as int,
                );
                lemma_tap(o as int, back as int, dil as int, kk as int, k as int);
                assert(w.data.len() == w@.data.len());
                assert(g[ci as int].len() == x@[0]@.len());
            }
            if back <= o / dil {
                let i: usize = o - back * dil;
                acc = acc.add(w.data[(co * cin + ci) * k + kk].mul(x[ci][i]));
            }
        }
    }
    acc
}

/// Causal dilated convolution of a sequence of channels.
pub fn conv1d<N: Scalar>(w: &Arr<N>, b: &Arr<N>, x: &Vec<Vec<N>>, dil: usize) -> (r: Vec<Vec<N>>)
    requires
        conv_ok(w@, b@, x@.len()),
        x@.len() >= 1,
        rect(crate::sampling::deep(x@), x@[0]@.len()),
        dil >= 1,
    ensures
        crate::sampling::deep(r@) == spec_conv(w@, b@, crate::sampling::deep(x@), dil as int),
        r@.len() == w@.shape[0],
        rect(crate::sampling::deep(r@), x@[0]@.len()),
{
    let ghost g = crate::sampling::deep(x@);
    let l: usize = x[0].len();
    let cout: usize = w.shape[0];
    let mut r: Vec<Vec<N>> = Vec::new();
    for co in 0..cout
        invariant
            g == crate::sampling::deep(x@),
            conv_ok(w@, b@, x@.len()),
            cout == w@.shape[0],
            l == x@[0]@.len(),
            x@.len() >= 1,
            rect(g, x@[0]@.len()),
            dil >= 1,
            r@.len() == co,
            forall|p: int|
                0 <= p < co ==> (#[trigger] r@[p])@ == Seq::new(
                    g[0].len(),
                    |o: int| conv_at(w@, b@, g, dil as int, p, o, w@.shape[1] as nat),
                ),
    {
        let mut row: Vec<N> = Vec::new();
        for o in 0..l
            invariant
                g == crate::sampling::deep(x@),
                conv_ok(w@, b@, x@.len()),
                co < w@.shape[0],
                l == x@[0]@.len(),
                x@.len() >= 1,
                rect(g, x@[0]@.len()),
                dil >= 1,
                row@.len() == o,
                forall|q: int|
                    0 <= q < o ==> #[trigger] row@[q] == conv_at(
                        w@,
                        b@,
                        g,
                        dil as int,
                        co as int,
                        q,
                        w@.shape[1] as nat,
                    ),
        {
            row.push(conv_entry(w, b, x, dil, co, o));
        }
        assert(row@ =~= Seq::new(
            g[0].len(),
            |o: int| conv_at(w@, b@, g, dil as int, co as int, o, w@.shape[1] as nat),
        ));
        r.push(row);
    }
    assert(crate::sampling::deep(r@) =~~= spec_conv(w@, b@, g, dil as int));
    r
}

// ---------------------------------------------------------------------------
// Normalisation over the channels
// ---------------------------------------------------------------------------
/// The sum of position `t` over the first `n` channels.
pub open spec fn channel_sum<N: Scalar>(x: Seq<Seq<N>>, t: int, n: nat) -> N
    decreases n,
{
    if n == 0 {
        N::spec_zero()
    } else {
        channel_sum(x, t, (n - 1) as nat) + x[n - 1][t]
    }
}

/// The sum of squared deviations from `mean` over the first `n` channels.
pub open spec fn channel_squares<N: Scalar>(x: Seq<Seq<N>>, t: int, mean: N, n: nat) -> N
    decreases n,
{
    if n == 0 {
        N::spec_zero()
    } else {
        let d = x[n - 1][t] - mean;
        channel_squares(x, t, mean, (n - 1) as nat) + d * d
    }
}

/// The mean of position `t` over the channels.
pub open spec fn channel_mean<N: Scalar>(x: Seq<Seq<N>>, t: int) -> N {
    channel_sum(x, t, x.len()) / N::spec_splat(x.len() as int, 1)
}

/// The deviation by which position `t` is scaled: `sqrt(variance + 1e-5)`.
pub open spec fn channel_scale<N: Scalar>(x: Seq<Seq<N>>, t: int) -> N {
    let var = channel_squares(x, t, channel_mean(x, t), x.len()) / N::spec_splat(
        x.len() as int,
        1,
    );
    (var + N::spec_splat(1, 100000)).spec_sqrt()
}

/// Each position normalised over the channels, then scaled by `g` and shifted by `b`.
pub open spec fn spec_layernorm<N: Scalar>(x: Seq<Seq<N>>, g: Seq<N>, b: Seq<N>) -> Seq<Seq<N>> {
    Seq::new(
        x.len(),
        |c: int|
            Seq::new(
                x[c].len(),
                |t: int| (x[c][t] - channel_mean(x, t)) / channel_scale(x, t) * g[c] + b[c],
            ),
    )
}

/// Layer normalisation over the channel axis.
pub fn layernorm_channels<N: Scalar>(x: &Vec<Vec<N>>, g: &Vec<N>, b: &Vec<N>) -> (r: Vec<Vec<N>>)
    requires
        x@.len() >= 1,
        rect(crate::sampling::deep(x@), x@[0]@.len()),
        x@.len() <= g@.len(),
        x@.len() <= b@.len(),
    ensures
        crate::sampling::deep(r@) == spec_layernorm(crate::sampling::deep(x@), g@, b@),
        r@.len() == x@.len(),
        rect(crate::sampling::deep(r@), x@[0]@.len()),
{
    let ghost gx = crate::sampling::deep(x@);
    let c: usize = x.len();
    let l: usize = x[0].len();
    let cn = N::splat(c as i128, 1);
    let mut means: Vec<N> = Vec::new();
    let mut scales: Vec<N> = Vec::new();
    for t in 0..l
        invariant
            gx == crate::sampling::deep(x@),
            c == x@.len(),
            cn == N::spec_splat(c as int, 1),
            rect(gx, l as nat),
            means@.len() == t,
            scales@.len() == t,
            forall|p: int| 0 <= p < t ==> #[trigger] means@[p] == channel_mean(gx, p),
            forall|p: int| 0 <= p < t ==> #[trigger] scales@[p] == channel_scale(gx, p),
    {
        let mut sum = N::zero();
        for ch in 0..c
            invariant
                gx == crate::sampling::deep(x@),
                c == x@.len(),
                rect(gx, l as nat),
                t < l,
                sum == channel_sum(gx, t as int, ch as nat),
        {
            assert(gx[ch as int].len() == l);
            sum = sum.add(x[ch][t]);
        }
        let mean = sum.div(cn);
        let mut var = N::zero();
        for ch in 0..c
            invariant
                gx == crate::sampling::deep(x@),
                c == x@.len(),
                rect(gx, l as nat),
                t < l,
                var == channel_squares(gx, t as int, mean, ch as nat),
        {
            assert(gx[ch as int].len() == l);
            let d = x[ch][t].sub(mean);
            var = var.add(d.mul(d));
        }
        means.push(mean);
        scales.push(var.div(cn).add(N::splat(1, 100000)).sqrt());
    }
    let mut r: Vec<Vec<N>> = Vec::new();
    for ch in 0..c
        invariant
            gx == crate::sampling::deep(x@),
            c == x@.len(),
            rect(gx, l as nat),
            c <= g@.len(),
            c <= b@.len(),
            means@.len() == l,
            scales@.len() == l,
            forall|p: int| 0 <= p < l ==> #[trigger] means@[p] == channel_mean(gx, p),
            forall|p: int| 0 <= p < l ==> #[trigger] scales@[p] == channel_scale(gx, p),
            r@.len() == ch,
            forall|p: int| 0 <= p < ch ==> (#[trigger] r@[p])@ == spec_layernorm(gx, g@, b@)[p],
    {
        assert(gx[ch as int].len() == l);
        let mut row: Vec<N> = Vec::new();
        for t in 0..l
            invariant
                gx == crate::sampling::deep(x@),
                c == x@.len(),
                ch < c,
                c <= g@.len(),
                c <= b@.len(),
                x@[ch as int]@.len() == l,
                means@.len() == l,
                scales@.len() == l,
                forall|p: int| 0 <= p < l ==> #[trigger] means@[p] == channel_mean(gx, p),
                forall|p: int| 0 <= p < l ==> #[trigger] scales@[p] == channel_scale(gx, p),
                row@.len() == t,
                forall|q: int|
                    0 <= q < t ==> #[trigger] row@[q] == (gx[ch as int][q] - channel_mean(gx, q))
                        / channel_scale(gx, q) * g@[ch as int] + b@[ch as int],
        {
            let (m, s) = (means[t], scales[t]);
            row.push(x[ch][t].sub(m).div(s).mul(g[ch]).add(b[ch]));
        }
        assert(row@ =~= spec_layernorm(gx, g@, b@)[ch as int]);
        r.push(row);
    }
    assert(crate::sampling::deep(r@) =~~= spec_layernorm(gx, g@, b@));
    r
}

/// The entries of `y`, with those of `r` added where there are any.
pub open spec fn spec_zip_add<N: Scalar>(y: Seq<N>, r: Seq<N>) -> Seq<N> {
    Seq::new(
        y.len(),
        |t: int|
            if t < r.len() {
                y[t] + r[t]
            } else {
                y[t]
            },
    )
}

/// The channels of `y`, with those of `r` added where there are any.
pub open spec fn spec_add_channels<N: Scalar>(y: Seq<Seq<N>>, r: Seq<Seq<N>>) -> Seq<Seq<N>> {
    Seq::new(
        y.len(),
        |c: int|
            if c < r.len() {
                spec_zip_add(y[c], r[c])
            } else {
                y[c]
            },
    )
}

/// Add the channels of a residual.
pub fn add_channels<N: Scalar>(y: &Vec<Vec<N>>, r: &Vec<Vec<N>>) -> (s: Vec<Vec<N>>)
    ensures
        crate::sampling::deep(s@) == spec_add_channels(crate::sampling::deep(y@), crate::sampling::deep(r@)),
        s@.len() == y@.len(),
        forall|l: nat| rect(crate::sampling::deep(y@), l) ==> #[trigger] rect(crate::sampling::deep(s@), l),
{
    let ghost (gy, gr) = (crate::sampling::deep(y@), crate::sampling::deep(r@));
    let mut out: Vec<Vec<N>> = Vec::new();
    for c in 0..y.len()
        invariant
            (gy, gr) == (crate::sampling::deep(y@), crate::sampling::deep(r@)),
            out@.len() == c,
            forall|p: int| 0 <= p < c ==> (#[trigger] out@[p])@ == spec_add_channels(gy, gr)[p],
    {
        let mut row: Vec<N> = Vec::new();
        let l: usize = y[c].len();
        for t in 0..l
            invariant
                l == y@[c as int]@.len(),
                (gy, gr) == (crate::sampling::deep(y@), crate::sampling::deep(r@)),
                c < y@.len(),
                row@.len() == t,
                forall|q: int|
                    0 <= q < t ==> #[trigger] row@[q] == spec_add_channels(gy, gr)[c as int][q],
        {
            if c < r.len() && t < r[c].len() {
                row.push(y[c][t].add(r[c][t]));
            } else {
                row.push(y[c][t]);
            }
        }
        assert(row@ =~= spec_add_channels(gy, gr)[c as int]);
        out.push(row);
    }
    assert(crate::sampling::deep(out@) =~~= spec_add_channels(gy, gr));
    out
}

// ---------------------------------------------------------------------------
// Gated recurrent cell
// ---------------------------------------------------------------------------
/// Entry `i` of the next hidden state, from the inputs `gi` and `gh`.
pub open spec fn gru_at<N: Real>(gi: Seq<N>, gh: Seq<N>, h: Seq<N>, i: int) -> N {
    let n = h.len() as int;
    let r = spec_sigmoid(gi[i] + gh[i]);
    let z = spec_sigmoid(gi[n + i] + gh[n + i]);
    let c = (gi[2 * n + i] + r * gh[2 * n + i]).spec_tanh();
    (N::spec_one() - z) * c + z * h[i]
}

/// The next hidden state of the cell with these weights.
pub open spec fn spec_gru<N: Real>(
    wih: Tensor<N>,
    whh: Tensor<N>,
    bih: Tensor<N>,
    bhh: Tensor<N>,
    x: Seq<N>,
    h: Seq<N>,
) -> Seq<N> {
    let n = h.len();
    let gi = spec_affine(wih.data, bih.data, x, 3 * n, wih.shape[1] as nat);
    let gh = spec_affine(whh.data, bhh.data, h, 3 * n, n);
    Seq::new(n, |i: int| gru_at(gi, gh, h, i))
}

/// The weights of the cell are complete for `x` inputs and `h` hidden entries.
pub open spec fn gru_ok<N>(
    wih: Tensor<N>,
    whh: Tensor<N>,
    bih: Tensor<N>,
    bhh: Tensor<N>,
    x: nat,
    h: nat,
) -> bool {
    &&& wih.shape.len() >= 2
    &&& wih.shape[1] <= x
    &&& 3 * h * wih.shape[1] <= wih.data.len()
    &&& 3 * h * h <= whh.data.len()
    &&& 3 * h <= bih.data.len()
    &&& 3 * h <= bhh.data.len()
}

/// One step of a gated recurrent cell.
pub fn gru_cell<N: Real>(
    wih: &Arr<N>,
    whh: &Arr<N>,
    bih: &Arr<N>,
    bhh: &Arr<N>,
    x: &Vec<N>,
    h: &Vec<N>,
) -> (r: Vec<N>)
    requires
        gru_ok(wih@, whh@, bih@, bhh@, x@.len(), h@.len()),
    ensures
        r@ == spec_gru(wih@, whh@, bih@, bhh@, x@, h@),
{
    let n: usize = h.len();
    assert(bih.data.len() == bih@.data.len());
    let gi = affine(&wih.data, &bih.data, x, 3 * n, wih.shape[1]);
    let gh = affine(&whh.data, &bhh.data, h, 3 * n, n);
    let mut r: Vec<N> = Vec::new();
    for i in 0..n
        invariant
            n == h@.len(),
            gi@.len() == 3 * n,
            gh@.len() == 3 * n,
            3 * n <= usize::MAX,
            r@.len() == i,
            forall|p: int| 0 <= p < i ==> #[trigger] r@[p] == gru_at(gi@, gh@, h@, p),
    {
        let g = sigmoid(gi[i].add(gh[i]));
        let z = sigmoid(gi[n + i].add(gh[n + i]));
        let c = gi[2 * n + i].add(g.mul(gh[2 * n + i])).tanh();
        r.push(N::one().sub(z).mul(c).add(z.mul(h[i])));
    }
    assert(r@ =~= spec_gru(wih@, whh@, bih@, bhh@, x@, h@));
    r
}

} // verus!
