//! What the layers of the networks do, as functions of their inputs.
use vstd::prelude::*;

use crate::blob::Tensor;
use crate::jepa::{gelu_rows, spec_block, spec_encoder};
use crate::nn::{
    affine_at, channel_mean, channel_scale, channel_squares, channel_sum, conv_at, conv_taps,
    gru_at, rect, spec_add_channels, spec_affine, spec_conv, spec_erf, spec_gelu, spec_gelu_all,
    spec_layernorm, spec_sigmoid, spec_transpose,
};
use crate::scalar::{Real, Scalar, Wide};
use crate::training::lossless;

verus! {

// ---------------------------------------------------------------------------
// Affine maps
// ---------------------------------------------------------------------------
/// An affine layer is linear in each input: input `j` changed by `d` changes output `o` by
/// the weight in row `o` and column `j` times `d`, and inputs of zero give the bias.
pub proof fn law_affine_moves_with_its_inputs<N: Real>(
    w: Seq<N>,
    b: Seq<N>,
    x: Seq<N>,
    y: Seq<N>,
    rows: nat,
    cols: nat,
    o: int,
    j: int,
    d: real,
)
    requires
        crate::scalar::exact::<N>(),
        0 <= o < rows,
        0 <= j < cols,
        y[j].val() == x[j].val() + d,
        forall|k: int| 0 <= k < cols && k != j ==> (#[trigger] y[k]).val() == x[k].val(),
    ensures
        spec_affine(w, b, x, rows, cols).len() == rows,
        spec_affine(w, b, y, rows, cols)[o].val() == spec_affine(w, b, x, rows, cols)[o].val()
            + w[o * cols + j].val() * d,
        (forall|k: int| 0 <= k < cols ==> (#[trigger] x[k]).val() == 0real) ==> spec_affine(
            w,
            b,
            x,
            rows,
            cols,
        )[o].val() == b[o].val(),
{
    lemma_affine(w, b, x, y, cols, o, j, d, cols);
    if forall|k: int| 0 <= k < cols ==> (#[trigger] x[k]).val() == 0real {
        lemma_affine_zero(w, b, x, cols, o, cols);
    }
}

proof fn lemma_affine<N: Real>(
    w: Seq<N>,
    b: Seq<N>,
    x: Seq<N>,
    y: Seq<N>,
    cols: nat,
    o: int,
    j: int,
    d: real,
    n: nat,
)
    requires
        crate::scalar::exact::<N>(),
        n <= cols,
        0 <= j < cols,
        y[j].val() == x[j].val() + d,
        forall|k: int| 0 <= k < cols && k != j ==> (#[trigger] y[k]).val() == x[k].val(),
    ensures
        affine_at(w, b, y, cols, o, n).val() == affine_at(w, b, x, cols, o, n).val() + if j < n {
            w[o * cols + j].val() * d
        } else {
            0real
        },
    decreases n,
{
    if n > 0 {
        lemma_affine(w, b, x, y, cols, o, j, d, (n - 1) as nat);
        let k = n - 1;
        if k == j {
            crate::algebra::lemma_dist(w[o * cols + j].val(), x[j].val(), d);
        } else {
            assert(y[k].val() == x[k].val());
        }
    }
}

proof fn lemma_affine_zero<N: Real>(w: Seq<N>, b: Seq<N>, x: Seq<N>, cols: nat, o: int, n: nat)
    requires
        crate::scalar::exact::<N>(),
        n <= cols,
        forall|k: int| 0 <= k < cols ==> (#[trigger] x[k]).val() == 0real,
    ensures
        affine_at(w, b, x, cols, o, n).val() == b[o].val(),
    decreases n,
{
    if n > 0 {
        lemma_affine_zero(w, b, x, cols, o, (n - 1) as nat);
        crate::physics::lemma_times_zero(w[o * cols + (n - 1)].val(), x[n - 1].val());
    }
}

// ---------------------------------------------------------------------------
// Activations
// ---------------------------------------------------------------------------
/// The exponential of the opposite number is the reciprocal.
pub open spec fn exp_inverts<N: Real>() -> bool {
    &&& forall|x: N| (#[trigger] x.spec_exp()).val() > 0real
    &&& forall|x: N, y: N|
        x.val() == -y.val() ==> (#[trigger] x.spec_exp()).val() * (#[trigger] y.spec_exp()).val()
            == 1real
}

/// The logistic function lies between zero and one, and is symmetric about one half.
pub proof fn law_sigmoid_is_symmetric<N: Real>(x: N, y: N)
    requires
        crate::scalar::exact::<N>(),
        exp_inverts::<N>(),
        y.val() == -x.val(),
    ensures
        0real < spec_sigmoid(x).val() < 1real,
        spec_sigmoid(x).val() + spec_sigmoid(y).val() == 1real,
        spec_sigmoid(x).val() == spec_sigmoid(y).val() * x.spec_exp().val(),
{
    let (a, b) = ((-x).spec_exp().val(), (-y).spec_exp().val());
    assert(a * b == 1real);
    assert((-x).val() == -x.val());
    let e = x.spec_exp().val();
    assert((-x).spec_exp().val() * x.spec_exp().val() == 1real);
    let (s, t) = (spec_sigmoid(x).val(), spec_sigmoid(y).val());
    lemma_shares(a, b, s, t);
    assert(e == b) by (nonlinear_arith)
        requires
            a * b == 1real,
            a * e == 1real,
            a > 0real,
    ;
    assert(s == t * b) by (nonlinear_arith)
        requires
            s == 1real / (1real + a),
            t == 1real / (1real + b),
            a * b == 1real,
            a > 0real,
            b > 0real,
    ;
}

proof fn lemma_shares(a: real, b: real, s: real, t: real)
    requires
        a > 0real,
        b > 0real,
        a * b == 1real,
        s == 1real / (1real + a),
        t == 1real / (1real + b),
    ensures
        0real < s < 1real,
        s + t == 1real,
{
    assert(s * (1real + a) == 1real) by (nonlinear_arith)
        requires
            s == 1real / (1real + a),
            a > 0real,
    ;
    assert(t * (1real + b) == 1real) by (nonlinear_arith)
        requires
            t == 1real / (1real + b),
            b > 0real,
    ;
    assert(s > 0real) by (nonlinear_arith)
        requires
            s * (1real + a) == 1real,
            a > 0real,
    ;
    assert(s < 1real) by (nonlinear_arith)
        requires
            s * (1real + a) == 1real,
            a > 0real,
            s > 0real,
    ;
    let u = 1real - s;
    assert(u * (1real + b) == 1real) by (nonlinear_arith)
        requires
            u == 1real - s,
            s * (1real + a) == 1real,
            a * b == 1real,
    ;
    assert(u == t) by (nonlinear_arith)
        requires
            u * (1real + b) == 1real,
            t * (1real + b) == 1real,
            b > 0real,
    ;
}

/// The error function is odd: the opposite number gives the opposite value.
pub proof fn law_erf_is_odd<S: Wide>(x: S::Narrow, y: S::Narrow)
    requires
        crate::scalar::exact::<S>(),
        crate::scalar::exact::<S::Narrow>(),
        crate::scalar::faithful::<S::Narrow>(),
        lossless::<S>(),
        x.val() > 0real,
        y.val() == -x.val(),
    ensures
        spec_erf::<S>(y).val() == -spec_erf::<S>(x).val(),
{
    let z = S::Narrow::spec_zero();
    assert(x.spec_abs().val() == y.spec_abs().val());
    assert(x.spec_abs() == y.spec_abs());
    assert((z <= x) <==> z.val() <= x.val());
    assert((z <= y) <==> z.val() <= y.val());
}

/// The activation lets a positive input through less what it takes from the opposite one:
/// `gelu(x) - gelu(-x)` is `x`.
pub proof fn law_gelu_passes_the_difference<S: Wide>(x: S::Narrow, y: S::Narrow)
    requires
        crate::scalar::exact::<S>(),
        crate::scalar::exact::<S::Narrow>(),
        crate::scalar::faithful::<S::Narrow>(),
        lossless::<S>(),
        x.val() > 0real,
        y.val() == -x.val(),
    ensures
        spec_gelu::<S>(x).val() - spec_gelu::<S>(y).val() == x.val(),
{
    let half = S::Narrow::spec_splat(1, 2);
    crate::scalar::lemma_splat_fraction::<S::Narrow>(1, 2);
    let (h, r) = (half.val(), half.spec_sqrt().val());
    let v = x.val();
    assert(h == 1real / 2real);
    assert(r * r == h && r >= 0real);
    assert(r > 0real) by (nonlinear_arith)
        requires
            r * r == 1real / 2real,
            r >= 0real,
    ;
    let (p, q) = (x * half.spec_sqrt(), y * half.spec_sqrt());
    assert(v * r > 0real) by (nonlinear_arith)
        requires
            v > 0real,
            r > 0real,
    ;
    crate::algebra::lemma_neg(v, r);
    law_erf_is_odd::<S>(p, q);
    let e = spec_erf::<S>(p).val();
    assert(h * v == v / 2real) by (nonlinear_arith)
        requires
            h == 1real / 2real,
    ;
    assert(h * (-v) == -(v / 2real)) by (nonlinear_arith)
        requires
            h == 1real / 2real,
    ;
    crate::algebra::lemma_dist(v / 2real, 1real, e);
    crate::algebra::lemma_neg(v / 2real, 1real - e);
    crate::algebra::lemma_dist(v / 2real, 1real, e);
    crate::physics::lemma_times_one(v / 2real, 1real);
}

// ---------------------------------------------------------------------------
// The recurrent cell
// ---------------------------------------------------------------------------
/// The cell moves each hidden entry toward a candidate, by what the update share leaves: with
/// reset share `r` and update share `z` of its own entries, the candidate is the hyperbolic
/// tangent of the input part and the reset part of the hidden state.
pub proof fn law_cell_blends<N: Real>(gi: Seq<N>, gh: Seq<N>, h: Seq<N>, i: int)
    requires
        crate::scalar::exact::<N>(),
        crate::scalar::faithful::<N>(),
        0 <= i < h.len(),
    ensures
        ({
            let n = h.len() as int;
            let r = spec_sigmoid(gi[i] + gh[i]);
            let z = spec_sigmoid(gi[n + i] + gh[n + i]).val();
            let c = (r * gh[2 * n + i] + gi[2 * n + i]).spec_tanh().val();
            gru_at(gi, gh, h, i).val() - h[i].val() == (1real - z) * (c - h[i].val())
        }),
{
    let n = h.len() as int;
    let r = spec_sigmoid(gi[i] + gh[i]);
    let z = spec_sigmoid(gi[n + i] + gh[n + i]).val();
    let (p, q) = (r * gh[2 * n + i] + gi[2 * n + i], gi[2 * n + i] + r * gh[2 * n + i]);
    assert(p.val() == q.val());
    assert(p == q);
    let (c, x) = (p.spec_tanh().val(), h[i].val());
    crate::algebra::lemma_dist(1real - z, c, x);
    crate::algebra::lemma_dist(x, 1real, z);
    crate::physics::lemma_times_one(x, 1real);
}

// ---------------------------------------------------------------------------
// Normalisation
// ---------------------------------------------------------------------------
proof fn lemma_centred<N: Real>(
    x: Seq<Seq<N>>,
    y: Seq<Seq<N>>,
    t: int,
    mean: real,
    scale: real,
    n: nat,
)
    requires
        crate::scalar::exact::<N>(),
        n <= x.len(),
        scale != 0real,
        forall|c: int|
            0 <= c < n ==> (#[trigger] y[c])[t].val() == (x[c][t].val() - mean) / scale,
    ensures
        channel_sum(y, t, n).val() == (channel_sum(x, t, n).val() - mean * (n as real)) / scale,
    decreases n,
{
    if n > 0 {
        lemma_centred(x, y, t, mean, scale, (n - 1) as nat);
        assert(y[n - 1][t].val() == (x[n - 1][t].val() - mean) / scale);
        let (a, k) = (channel_sum(x, t, (n - 1) as nat).val(), (n - 1) as real);
        crate::algebra::lemma_dist(mean, k, 1real);
        crate::physics::lemma_times_one(mean, 1real);
        let (p, q) = (a - mean * k, x[n - 1][t].val() - mean);
        assert(p / scale + q / scale == (p + q) / scale) by (nonlinear_arith)
            requires
                scale != 0real,
        ;
    } else {
        crate::physics::lemma_times_zero(mean, 0real);
        assert(0real / scale == 0real) by (nonlinear_arith)
            requires
                scale != 0real,
        ;
    }
}

/// Normalising centres every position: with unit gains and no shift, the channels of each
/// position add up to zero.
pub proof fn law_normalised_channels_are_centred<N: Real>(
    x: Seq<Seq<N>>,
    g: Seq<N>,
    b: Seq<N>,
    l: nat,
    t: int,
)
    requires
        crate::scalar::exact::<N>(),
        x.len() >= 1,
        rect(x, l),
        0 <= t < l,
        forall|c: int| 0 <= c < x.len() ==> (#[trigger] g[c]).val() == 1real,
        forall|c: int| 0 <= c < x.len() ==> (#[trigger] b[c]).val() == 0real,
        channel_scale(x, t).val() != 0real,
    ensures
        channel_sum(spec_layernorm(x, g, b), t, x.len()).val() == 0real,
{
    let y = spec_layernorm(x, g, b);
    let m = channel_mean(x, t).val();
    let s = channel_scale(x, t).val();
    assert forall|c: int| 0 <= c < x.len() implies (#[trigger] y[c])[t].val() == (x[c][t].val()
        - m) / s by {
        assert(x[c].len() == l);
        assert(g[c].val() == 1real && b[c].val() == 0real);
        crate::physics::lemma_times_one((x[c][t].val() - m) / s, g[c].val());
    }
    lemma_centred(x, y, t, m, s, x.len());
    crate::scalar::lemma_splat_int::<N>(x.len() as int);
    let (a, k) = (channel_sum(x, t, x.len()).val(), x.len() as real);
    assert(m * k == a) by (nonlinear_arith)
        requires
            m == a / k,
            k >= 1real,
    ;
    assert(0real / s == 0real) by (nonlinear_arith)
        requires
            s != 0real,
    ;
}

proof fn lemma_shifted_sum<N: Real>(x: Seq<Seq<N>>, y: Seq<Seq<N>>, t: int, d: real, n: nat)
    requires
        crate::scalar::exact::<N>(),
        n <= x.len(),
        forall|c: int| 0 <= c < n ==> (#[trigger] y[c])[t].val() == x[c][t].val() + d,
    ensures
        channel_sum(y, t, n).val() == channel_sum(x, t, n).val() + d * (n as real),
    decreases n,
{
    if n > 0 {
        lemma_shifted_sum(x, y, t, d, (n - 1) as nat);
        assert(y[n - 1][t].val() == x[n - 1][t].val() + d);
        crate::algebra::lemma_dist(d, (n - 1) as real, 1real);
        crate::physics::lemma_times_one(d, 1real);
    } else {
        crate::physics::lemma_times_zero(d, 0real);
    }
}

proof fn lemma_shifted_squares<N: Real>(
    x: Seq<Seq<N>>,
    y: Seq<Seq<N>>,
    t: int,
    p: N,
    q: N,
    n: nat,
)
    requires
        crate::scalar::exact::<N>(),
        n <= x.len(),
        forall|c: int|
            0 <= c < n ==> (#[trigger] y[c])[t].val() - q.val() == x[c][t].val() - p.val(),
    ensures
        channel_squares(y, t, q, n).val() == channel_squares(x, t, p, n).val(),
    decreases n,
{
    if n > 0 {
        lemma_shifted_squares(x, y, t, p, q, (n - 1) as nat);
        assert(y[n - 1][t].val() - q.val() == x[n - 1][t].val() - p.val());
    }
}

/// Normalising forgets a common offset: all channels of a position changed by the same number
/// are normalised to the same values.
pub proof fn law_normalising_forgets_an_offset<N: Real>(
    x: Seq<Seq<N>>,
    y: Seq<Seq<N>>,
    g: Seq<N>,
    b: Seq<N>,
    l: nat,
    t: int,
    d: real,
    c: int,
)
    requires
        crate::scalar::exact::<N>(),
        crate::scalar::faithful::<N>(),
        x.len() >= 1,
        y.len() == x.len(),
        rect(x, l),
        rect(y, l),
        0 <= t < l,
        0 <= c < x.len(),
        forall|k: int| 0 <= k < x.len() ==> (#[trigger] y[k])[t].val() == x[k][t].val() + d,
    ensures
        spec_layernorm(y, g, b)[c][t] == spec_layernorm(x, g, b)[c][t],
{
    let n = x.len();
    lemma_shifted_sum(x, y, t, d, n);
    crate::scalar::lemma_splat_int::<N>(n as int);
    let (p, q) = (channel_mean(x, t), channel_mean(y, t));
    let (a, k) = (channel_sum(x, t, n).val(), n as real);
    assert((a + d * k) / k == a / k + d) by (nonlinear_arith)
        requires
            k >= 1real,
    ;
    assert(q.val() == p.val() + d);
    lemma_shifted_squares(x, y, t, p, q, n);
    let (u, v) = (channel_squares(x, t, p, n), channel_squares(y, t, q, n));
    assert(u == v);
    assert(channel_scale(x, t) == channel_scale(y, t));
    assert(x[c].len() == l && y[c].len() == l);
    assert(y[c][t].val() == x[c][t].val() + d);
    assert((y[c][t] - q).val() == (x[c][t] - p).val());
    assert(y[c][t] - q == x[c][t] - p);
}

// ---------------------------------------------------------------------------
// Convolution
// ---------------------------------------------------------------------------
/// The input position that tap `k` of `taps` reads for output position `o`.
pub open spec fn tap_reads(o: int, k: int, taps: int, dil: int) -> int {
    o - (taps - 1 - k) * dil
}

proof fn lemma_tap_place(o: int, n: int, k: int, taps: int, dil: int)
    requires
        dil >= 1,
    ensures
        o + n * dil - (taps - 1) * dil == tap_reads(o, n, taps, dil),
        n != k ==> tap_reads(o, n, taps, dil) != tap_reads(o, k, taps, dil),
{
    assert(n * dil - (taps - 1) * dil == -((taps - 1 - n) * dil)) by (nonlinear_arith);
    let (a, b) = (taps - 1 - n, taps - 1 - k);
    if n != k {
        assert(a * dil != b * dil) by (nonlinear_arith)
            requires
                a != b,
                dil >= 1,
        ;
    }
}

proof fn lemma_taps_move<N: Real>(
    u: N,
    v: N,
    w: Seq<N>,
    base: int,
    x: Seq<N>,
    y: Seq<N>,
    taps: int,
    dil: int,
    o: int,
    k: int,
    d: real,
    e: real,
    m: nat,
)
    requires
        crate::scalar::exact::<N>(),
        v.val() == u.val() + e,
        x.len() == y.len(),
        dil >= 1,
        0 <= k < taps,
        0 <= tap_reads(o, k, taps, dil) < x.len(),
        y[tap_reads(o, k, taps, dil)].val() == x[tap_reads(o, k, taps, dil)].val() + d,
        forall|t: int|
            0 <= t < x.len() && t != tap_reads(o, k, taps, dil) ==> (#[trigger] y[t]).val()
                == x[t].val(),
        m <= taps,
    ensures
        conv_taps(v, w, base, y, taps, dil, o, m).val() == conv_taps(
            u,
            w,
            base,
            x,
            taps,
            dil,
            o,
            m,
        ).val() + e + if k < m {
            w[base + k].val() * d
        } else {
            0real
        },
    decreases m,
{
    if m > 0 {
        lemma_taps_move(u, v, w, base, x, y, taps, dil, o, k, d, e, (m - 1) as nat);
        let n = m - 1;
        let i = o + n * dil - (taps - 1) * dil;
        lemma_tap_place(o, n, k, taps, dil);
        if 0 <= i < x.len() {
            if n == k {
                crate::algebra::lemma_dist(w[base + k].val(), x[i].val(), d);
            } else {
                assert(y[i].val() == x[i].val());
            }
        }
    }
}

proof fn lemma_taps_still<N: Real>(
    u: N,
    v: N,
    w: Seq<N>,
    base: int,
    x: Seq<N>,
    y: Seq<N>,
    taps: int,
    dil: int,
    o: int,
    e: real,
    m: nat,
)
    requires
        crate::scalar::exact::<N>(),
        v.val() == u.val() + e,
        x == y,
    ensures
        conv_taps(v, w, base, y, taps, dil, o, m).val() == conv_taps(
            u,
            w,
            base,
            x,
            taps,
            dil,
            o,
            m,
        ).val() + e,
    decreases m,
{
    if m > 0 {
        lemma_taps_still(u, v, w, base, x, y, taps, dil, o, e, (m - 1) as nat);
    }
}

/// A convolution answers an impulse with its kernel: input channel `ci` changed by `d` at the
/// position that tap `k` reads for output position `o` changes output channel `co` there by
/// the weight of that tap times `d`. The last tap reads the present, and each tap before it
/// the past by one dilation more.
pub proof fn law_convolution_answers_an_impulse<N: Real>(
    w: Tensor<N>,
    b: Tensor<N>,
    x: Seq<Seq<N>>,
    y: Seq<Seq<N>>,
    dil: int,
    co: int,
    ci: int,
    o: int,
    k: int,
    d: real,
    l: nat,
)
    requires
        crate::scalar::exact::<N>(),
        x.len() >= 1,
        x.len() == y.len(),
        rect(x, l),
        rect(y, l),
        dil >= 1,
        0 <= co < w.shape[0],
        0 <= ci < w.shape[1],
        w.shape[1] <= x.len(),
        0 <= k < w.shape[2],
        0 <= o < l,
        0 <= tap_reads(o, k, w.shape[2] as int, dil),
        ({
            let i = tap_reads(o, k, w.shape[2] as int, dil);
            &&& y[ci][i].val() == x[ci][i].val() + d
            &&& forall|t: int|
                0 <= t < l && t != i ==> (#[trigger] y[ci][t]).val() == x[ci][t].val()
        }),
        forall|c: int| 0 <= c < x.len() && c != ci ==> #[trigger] y[c] == x[c],
    ensures
        spec_conv(w, b, y, dil)[co][o].val() == spec_conv(w, b, x, dil)[co][o].val() + w.data[(co
            * w.shape[1] + ci) * w.shape[2] + k].val() * d,
{
    assert(x[0].len() == l && y[0].len() == l);
    lemma_conv_moves(w, b, x, y, dil, co, ci, o, k, d, l, w.shape[1] as nat);
}

proof fn lemma_conv_moves<N: Real>(
    w: Tensor<N>,
    b: Tensor<N>,
    x: Seq<Seq<N>>,
    y: Seq<Seq<N>>,
    dil: int,
    co: int,
    ci: int,
    o: int,
    k: int,
    d: real,
    l: nat,
    n: nat,
)
    requires
        crate::scalar::exact::<N>(),
        x.len() == y.len(),
        rect(x, l),
        rect(y, l),
        dil >= 1,
        0 <= ci < w.shape[1],
        w.shape[1] <= x.len(),
        0 <= k < w.shape[2],
        0 <= o < l,
        0 <= tap_reads(o, k, w.shape[2] as int, dil),
        ({
            let i = tap_reads(o, k, w.shape[2] as int, dil);
            &&& y[ci][i].val() == x[ci][i].val() + d
            &&& forall|t: int|
                0 <= t < l && t != i ==> (#[trigger] y[ci][t]).val() == x[ci][t].val()
        }),
        forall|c: int| 0 <= c < x.len() && c != ci ==> #[trigger] y[c] == x[c],
        n <= w.shape[1],
    ensures
        conv_at(w, b, y, dil, co, o, n).val() == conv_at(w, b, x, dil, co, o, n).val() + if ci
            < n {
            w.data[(co * w.shape[1] + ci) * w.shape[2] + k].val() * d
        } else {
            0real
        },
    decreases n,
{
    if n > 0 {
        let j = n - 1;
        lemma_conv_moves(w, b, x, y, dil, co, ci, o, k, d, l, j as nat);
        let taps = w.shape[2] as int;
        let base = (co * w.shape[1] + j) * taps;
        let (u, v) = (
            conv_at(w, b, x, dil, co, o, j as nat),
            conv_at(w, b, y, dil, co, o, j as nat),
        );
        let e = v.val() - u.val();
        if j == ci {
            assert(x[ci].len() == l && y[ci].len() == l);
            let i = tap_reads(o, k, taps, dil);
            assert((taps - 1 - k) * dil >= 0) by (nonlinear_arith)
                requires
                    taps - 1 - k >= 0,
                    dil >= 1,
            ;
            assert forall|t: int| 0 <= t < x[ci].len() && t != i implies (#[trigger]
                y[ci][t]).val() == x[ci][t].val() by {}
            lemma_taps_move(
                u,
                v,
                w.data,
                base,
                x[ci],
                y[ci],
                taps,
                dil,
                o,
                k,
                d,
                e,
                taps as nat,
            );
        } else {
            assert(y[j] == x[j]);
            lemma_taps_still(u, v, w.data, base, x[j], y[j], taps, dil, o, e, taps as nat);
        }
    }
}

// ---------------------------------------------------------------------------
// Causality
// ---------------------------------------------------------------------------
/// The channels agree in their first `n` positions.
pub open spec fn agree<N>(x: Seq<Seq<N>>, y: Seq<Seq<N>>, l: nat, n: nat) -> bool {
    &&& x.len() == y.len()
    &&& rect(x, l)
    &&& rect(y, l)
    &&& forall|c: int, t: int|
        0 <= c < x.len() && 0 <= t < n ==> #[trigger] x[c][t] == y[c][t]
}

proof fn lemma_taps_causal<N: Scalar>(
    acc: N,
    w: Seq<N>,
    base: int,
    x: Seq<N>,
    y: Seq<N>,
    k: int,
    dil: int,
    o: int,
    m: nat,
    n: nat,
)
    requires
        x.len() == y.len(),
        forall|t: int| 0 <= t < n ==> #[trigger] x[t] == y[t],
        n <= x.len(),
        0 <= o < n,
        dil >= 0,
        m <= k,
    ensures
        conv_taps(acc, w, base, x, k, dil, o, m) == conv_taps(acc, w, base, y, k, dil, o, m),
    decreases m,
{
    if m > 0 {
        lemma_taps_causal(acc, w, base, x, y, k, dil, o, (m - 1) as nat, n);
        let i = o + (m - 1) * dil - (k - 1) * dil;
        assert((m - 1) * dil <= (k - 1) * dil) by (nonlinear_arith)
            requires
                m <= k,
                dil >= 0,
        ;
        if 0 <= i < x.len() {
            assert(x[i] == y[i]);
        }
    }
}

proof fn lemma_conv_causal<N: Scalar>(
    w: Tensor<N>,
    b: Tensor<N>,
    x: Seq<Seq<N>>,
    y: Seq<Seq<N>>,
    dil: int,
    co: int,
    o: int,
    m: nat,
    l: nat,
    n: nat,
)
    requires
        agree(x, y, l, n),
        n <= l,
        0 <= o < n,
        dil >= 0,
        m <= x.len(),
    ensures
        conv_at(w, b, x, dil, co, o, m) == conv_at(w, b, y, dil, co, o, m),
    decreases m,
{
    if m > 0 {
        lemma_conv_causal(w, b, x, y, dil, co, o, (m - 1) as nat, l, n);
        let k = w.shape[2] as int;
        assert(x[m - 1].len() == l && y[m - 1].len() == l);
        assert forall|t: int| 0 <= t < n implies #[trigger] x[m - 1][t] == y[m - 1][t] by {}
        lemma_taps_causal(
            conv_at(w, b, x, dil, co, o, (m - 1) as nat),
            w.data,
            (co * w.shape[1] + (m - 1)) * k,
            x[m - 1],
            y[m - 1],
            k,
            dil,
            o,
            k as nat,
            n,
        );
    }
}

/// A convolution looks back in time only: channels that agree up to a position are taken to
/// channels that agree up to it.
pub proof fn law_convolution_is_causal<N: Scalar>(
    w: Tensor<N>,
    b: Tensor<N>,
    x: Seq<Seq<N>>,
    y: Seq<Seq<N>>,
    dil: int,
    l: nat,
    n: nat,
)
    requires
        agree(x, y, l, n),
        x.len() >= 1,
        n <= l,
        dil >= 0,
        w.shape[1] <= x.len(),
    ensures
        agree(spec_conv(w, b, x, dil), spec_conv(w, b, y, dil), l, n),
{
    let (p, q) = (spec_conv(w, b, x, dil), spec_conv(w, b, y, dil));
    assert(x[0].len() == l && y[0].len() == l);
    assert forall|c: int, t: int| 0 <= c < p.len() && 0 <= t < n implies #[trigger] p[c][t]
        == q[c][t] by {
        lemma_conv_causal(w, b, x, y, dil, c, t, w.shape[1] as nat, l, n);
    }
}

proof fn lemma_same_channel<N: Scalar>(
    x: Seq<Seq<N>>,
    y: Seq<Seq<N>>,
    t: int,
    m: nat,
    l: nat,
    n: nat,
)
    requires
        agree(x, y, l, n),
        0 <= t < n,
        m <= x.len(),
    ensures
        channel_sum(x, t, m) == channel_sum(y, t, m),
        forall|u: N| #[trigger] channel_squares(x, t, u, m) == channel_squares(y, t, u, m),
    decreases m,
{
    if m > 0 {
        lemma_same_channel(x, y, t, (m - 1) as nat, l, n);
        assert(x[m - 1][t] == y[m - 1][t]);
        assert forall|u: N| #[trigger] channel_squares(x, t, u, m) == channel_squares(
            y,
            t,
            u,
            m,
        ) by {
            assert(channel_squares(x, t, u, (m - 1) as nat) == channel_squares(
                y,
                t,
                u,
                (m - 1) as nat,
            ));
        }
    }
}

proof fn lemma_block_causal<S: Wide>(
    w: Map<Seq<char>, Tensor<S::Narrow>>,
    x: Seq<Seq<S::Narrow>>,
    y: Seq<Seq<S::Narrow>>,
    root: Seq<char>,
    dil: int,
    l: nat,
    n: nat,
)
    requires
        agree(x, y, l, n),
        x.len() >= 1,
        n <= l,
        dil >= 0,
        crate::jepa::block_ok(w, root, x.len()),
    ensures
        agree(spec_block::<S>(w, x, root, dil), spec_block::<S>(w, y, root, dil), l, n),
        spec_block::<S>(w, x, root, dil).len() == crate::jepa::block_out(w, root),
{
    let (wc, bc) = (w[root + ".conv.conv.weight"@], w[root + ".conv.conv.bias"@]);
    law_convolution_is_causal(wc, bc, x, y, dil, l, n);
    let (cx, cy) = (spec_conv(wc, bc, x, dil), spec_conv(wc, bc, y, dil));
    let (ax, ay) = (gelu_rows::<S>(cx), gelu_rows::<S>(cy));
    assert forall|c: int| 0 <= c < ax.len() implies (#[trigger] ax[c]).len() == l by {
        assert(cx[c].len() == l);
    }
    assert forall|c: int| 0 <= c < ay.len() implies (#[trigger] ay[c]).len() == l by {
        assert(cy[c].len() == l);
    }
    assert forall|c: int, t: int| 0 <= c < ax.len() && 0 <= t < n implies #[trigger] ax[c][t]
        == ay[c][t] by {
        assert(cx[c].len() == l && cy[c].len() == l);
        assert(cx[c][t] == cy[c][t]);
    }
    let (g, b) = (w[root + ".norm.weight"@].data, w[root + ".norm.bias"@].data);
    let (nx, ny) = (spec_layernorm(ax, g, b), spec_layernorm(ay, g, b));
    assert forall|c: int| 0 <= c < nx.len() implies (#[trigger] nx[c]).len() == l by {
        assert(ax[c].len() == l);
    }
    assert forall|c: int| 0 <= c < ny.len() implies (#[trigger] ny[c]).len() == l by {
        assert(ay[c].len() == l);
    }
    assert forall|c: int, t: int| 0 <= c < nx.len() && 0 <= t < n implies #[trigger] nx[c][t]
        == ny[c][t] by {
        assert(ax[c].len() == l && ay[c].len() == l);
        lemma_same_channel(ax, ay, t, ax.len(), l, n);
        assert(ax[c][t] == ay[c][t]);
        assert(channel_squares(ax, t, channel_mean(ax, t), ax.len()) == channel_squares(
            ay,
            t,
            channel_mean(ax, t),
            ay.len(),
        ));
        assert(channel_mean(ax, t) == channel_mean(ay, t));
        assert(channel_scale(ax, t) == channel_scale(ay, t));
    }
    let res = w.dom().contains(root + ".res.weight"@);
    let (rx, ry) = if res {
        (
            spec_conv(w[root + ".res.weight"@], w[root + ".res.bias"@], x, 1),
            spec_conv(w[root + ".res.weight"@], w[root + ".res.bias"@], y, 1),
        )
    } else {
        (x, y)
    };
    if res {
        law_convolution_is_causal(
            w[root + ".res.weight"@],
            w[root + ".res.bias"@],
            x,
            y,
            1,
            l,
            n,
        );
    }
    assert(agree(rx, ry, l, n));
    let (ox, oy) = (spec_add_channels(nx, rx), spec_add_channels(ny, ry));
    assert forall|c: int| 0 <= c < ox.len() implies (#[trigger] ox[c]).len() == l by {
        assert(nx[c].len() == l);
    }
    assert forall|c: int| 0 <= c < oy.len() implies (#[trigger] oy[c]).len() == l by {
        assert(ny[c].len() == l);
    }
    assert forall|c: int, t: int| 0 <= c < ox.len() && 0 <= t < n implies #[trigger] ox[c][t]
        == oy[c][t] by {
        assert(nx[c].len() == l && ny[c].len() == l);
        assert(nx[c][t] == ny[c][t]);
        if c < rx.len() {
            assert(rx[c].len() == l && ry[c].len() == l);
            assert(rx[c][t] == ry[c][t]);
        }
    }
}

/// An encoder looks back in time only: the latent of a step is told by the inputs up to that
/// step.
pub proof fn law_encoder_is_causal<S: Wide>(
    w: Map<Seq<char>, Tensor<S::Narrow>>,
    x: Seq<Seq<S::Narrow>>,
    y: Seq<Seq<S::Narrow>>,
    root: Seq<char>,
    cin: nat,
    n: nat,
)
    requires
        crate::jepa::encoder_ok(w, root, cin),
        x.len() == y.len(),
        x.len() >= 1,
        cin >= 1,
        rect(x, cin),
        rect(y, cin),
        n <= x.len(),
        forall|t: int| 0 <= t < n ==> #[trigger] x[t] == y[t],
    ensures
        spec_encoder::<S>(w, x, root).len() == x.len(),
        forall|t: int|
            0 <= t < n ==> #[trigger] spec_encoder::<S>(w, x, root)[t] == spec_encoder::<S>(
                w,
                y,
                root,
            )[t],
{
    let l = x.len();
    let (tx, ty) = (spec_transpose(x), spec_transpose(y));
    assert(x[0].len() == cin && y[0].len() == cin);
    assert forall|c: int, t: int| 0 <= c < tx.len() && 0 <= t < n implies #[trigger] tx[c][t]
        == ty[c][t] by {
        assert(x[t] == y[t]);
    }
    assert(agree(tx, ty, l, n));
    let (r0, r1, r2) = (
        root + ".tcn.blocks.0"@,
        root + ".tcn.blocks.1"@,
        root + ".tcn.blocks.2"@,
    );
    lemma_block_causal::<S>(w, tx, ty, r0, 1, l, n);
    let (ax, ay) = (spec_block::<S>(w, tx, r0, 1), spec_block::<S>(w, ty, r0, 1));
    lemma_block_causal::<S>(w, ax, ay, r1, 2, l, n);
    let (bx, by) = (spec_block::<S>(w, ax, r1, 2), spec_block::<S>(w, ay, r1, 2));
    lemma_block_causal::<S>(w, bx, by, r2, 4, l, n);
    let (cx, cy) = (spec_block::<S>(w, bx, r2, 4), spec_block::<S>(w, by, r2, 4));
    let (ox, oy) = (spec_transpose(cx), spec_transpose(cy));
    assert(cx[0].len() == l && cy[0].len() == l);
    assert forall|t: int| 0 <= t < n implies #[trigger] ox[t] == oy[t] by {
        assert(ox[t].len() == oy[t].len());
        assert forall|c: int| 0 <= c < cx.len() implies #[trigger] ox[t][c] == oy[t][c] by {
            assert(cx[c][t] == cy[c][t]);
        }
        assert(ox[t] =~= oy[t]);
    }
}

/// A block adds to its residual: with the gains and shifts of its normalisation at zero, it
/// passes on its input, by way of the residual convolution where there is one.
pub proof fn law_silent_block_passes_on<S: Wide>(
    w: Map<Seq<char>, Tensor<S::Narrow>>,
    x: Seq<Seq<S::Narrow>>,
    root: Seq<char>,
    dil: int,
    c: int,
    t: int,
)
    requires
        crate::scalar::exact::<S::Narrow>(),
        x.len() >= 1,
        0 <= c < crate::jepa::block_out(w, root),
        0 <= t < x[0].len(),
        w[root + ".norm.weight"@].data[c].val() == 0real,
        w[root + ".norm.bias"@].data[c].val() == 0real,
    ensures
        ({
            let y = spec_block::<S>(w, x, root, dil);
            let r = if w.dom().contains(root + ".res.weight"@) {
                spec_conv(w[root + ".res.weight"@], w[root + ".res.bias"@], x, 1)
            } else {
                x
            };
            y[c][t].val() == if c < r.len() && t < r[c].len() {
                r[c][t].val()
            } else {
                0real
            }
        }),
{
    let a = gelu_rows::<S>(
        spec_conv(w[root + ".conv.conv.weight"@], w[root + ".conv.conv.bias"@], x, dil),
    );
    let (g, b) = (w[root + ".norm.weight"@].data, w[root + ".norm.bias"@].data);
    let n = spec_layernorm(a, g, b);
    let q = (a[c][t] - channel_mean(a, t)) / channel_scale(a, t);
    crate::physics::lemma_times_zero(q.val(), g[c].val());
    assert(n[c][t] == q * g[c] + b[c]);
    assert(n[c][t].val() == 0real);
}

/// A policy answers to what it reads: observations that agree in the entries it reads get the
/// same answer; and with its last weights at zero it answers its last bias.
pub proof fn law_policy_answers_from_its_layers<S: Wide>(
    p: crate::rl::RlPolicy<S>,
    a: Seq<S::Narrow>,
    b: Seq<S::Narrow>,
    o: int,
)
    requires
        crate::scalar::exact::<S::Narrow>(),
        0 <= o < p.act_dim,
        a.len() == b.len(),
        p.obs_dim <= a.len(),
        forall|i: int| 0 <= i < p.obs_dim ==> #[trigger] a[i] == b[i],
    ensures
        p.spec_forward(a) == p.spec_forward(b),
        p.spec_forward(a).len() == p.act_dim,
        (forall|i: int| 0 <= i < p.wm@.len() ==> (#[trigger] p.wm@[i]).val() == 0real)
            && p.act_dim * p.hidden <= p.wm@.len() ==> p.spec_forward(a)[o].val() == p.bm@[o].val(),
{
    let (n, h, m) = (p.obs_dim as nat, p.hidden as nat, p.act_dim as nat);
    let (x, y) = (spec_affine(p.w0@, p.b0@, a, h, n), spec_affine(p.w0@, p.b0@, b, h, n));
    assert forall|i: int| 0 <= i < h implies #[trigger] x[i] == y[i] by {
        lemma_same_inputs(p.w0@, p.b0@, a, b, n, i, n);
    }
    assert(x =~= y);
    if (forall|i: int| 0 <= i < p.wm@.len() ==> (#[trigger] p.wm@[i]).val() == 0real)
        && p.act_dim * p.hidden <= p.wm@.len() {
        let h1 = spec_gelu_all::<S>(x);
        let h2 = spec_gelu_all::<S>(spec_affine(p.w2@, p.b2@, h1, h, h));
        lemma_no_weights(p.wm@, p.bm@, h2, m, h, o, h);
    }
}

proof fn lemma_same_inputs<N: Scalar>(
    w: Seq<N>,
    b: Seq<N>,
    x: Seq<N>,
    y: Seq<N>,
    cols: nat,
    o: int,
    n: nat,
)
    requires
        n <= cols,
        forall|i: int| 0 <= i < cols ==> #[trigger] x[i] == y[i],
    ensures
        affine_at(w, b, x, cols, o, n) == affine_at(w, b, y, cols, o, n),
    decreases n,
{
    if n > 0 {
        lemma_same_inputs(w, b, x, y, cols, o, (n - 1) as nat);
        assert(x[n - 1] == y[n - 1]);
    }
}

proof fn lemma_no_weights<N: Real>(
    w: Seq<N>,
    b: Seq<N>,
    x: Seq<N>,
    rows: nat,
    cols: nat,
    o: int,
    n: nat,
)
    requires
        crate::scalar::exact::<N>(),
        n <= cols,
        0 <= o < rows,
        rows * cols <= w.len(),
        forall|i: int| 0 <= i < w.len() ==> (#[trigger] w[i]).val() == 0real,
    ensures
        affine_at(w, b, x, cols, o, n).val() == b[o].val(),
    decreases n,
{
    if n > 0 {
        lemma_no_weights(w, b, x, rows, cols, o, (n - 1) as nat);
        crate::nn::lemma_row_index(o, n - 1, rows as int, cols as int);
        assert(w[o * cols + (n - 1)].val() == 0real);
        crate::physics::lemma_times_zero(x[n - 1].val(), w[o * cols + (n - 1)].val());
    }
}

} // verus!
