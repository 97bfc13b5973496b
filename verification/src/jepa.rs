//! Inference of the SkyJEPA world model, so that the learned model can drive the planner.
//!
//! Two convolutional encoders turn the state history and the action window into latents,
//! a recurrent predictor carries the state latent forward, and a small network reads from
//! it the residual accelerations that the kinematic integrator ([`crate::dki`]) applies.
//! The networks compute in single precision, the integrator in double.
use vstd::prelude::*;

use crate::blob::{read_records, read_short_text, read_u32, read_u64, Arr, Table, Tensor};
use crate::dki::{step_ctbr, step_rotor_force, AD, SD};
use crate::gates::copy_vec;
use crate::nn::{
    add_channels, affine, conv1d, gelu_all, gru_cell, layernorm_channels, transpose,
};
use crate::scalar::{Real, Scalar, Wide};

verus! {

// ---------------------------------------------------------------------------
// Layers by name
// ---------------------------------------------------------------------------
/// The affine layer `prefix` applied to `x`.
pub open spec fn spec_linear<N: Scalar>(
    w: Map<Seq<char>, Tensor<N>>,
    x: Seq<N>,
    prefix: Seq<char>,
) -> Seq<N> {
    let m = w[prefix + ".weight"@];
    crate::nn::spec_affine(
        m.data,
        w[prefix + ".bias"@].data,
        x,
        m.shape[0] as nat,
        m.shape[1] as nat,
    )
}

/// The affine layer is there, complete, and made for `n` inputs.
pub open spec fn linear_ok<N>(w: Map<Seq<char>, Tensor<N>>, prefix: Seq<char>, n: nat) -> bool {
    let (a, b) = (prefix + ".weight"@, prefix + ".bias"@);
    &&& w.dom().contains(a)
    &&& w.dom().contains(b)
    &&& w[a].shape.len() >= 2
    &&& w[a].shape[1] == n
    &&& w[a].shape[0] * w[a].shape[1] <= w[a].data.len()
    &&& w[a].shape[0] <= w[b].data.len()
}

/// The number of outputs of the affine layer.
pub open spec fn linear_out<N>(w: Map<Seq<char>, Tensor<N>>, prefix: Seq<char>) -> nat {
    w[prefix + ".weight"@].shape[0] as nat
}

/// [`crate::nn::spec_gelu`] of every entry of every channel.
pub open spec fn gelu_rows<S: Wide>(y: Seq<Seq<S::Narrow>>) -> Seq<Seq<S::Narrow>> {
    Seq::new(y.len(), |c: int| crate::nn::spec_gelu_all::<S>(y[c]))
}

/// One block of an encoder: convolution, activation, normalisation over the channels,
/// and the residual, by way of a convolution where there is one.
pub open spec fn spec_block<S: Wide>(
    w: Map<Seq<char>, Tensor<S::Narrow>>,
    x: Seq<Seq<S::Narrow>>,
    root: Seq<char>,
    dil: int,
) -> Seq<Seq<S::Narrow>> {
    let y = gelu_rows::<S>(
        crate::nn::spec_conv(
            w[root + ".conv.conv.weight"@],
            w[root + ".conv.conv.bias"@],
            x,
            dil,
        ),
    );
    let n = crate::nn::spec_layernorm(
        y,
        w[root + ".norm.weight"@].data,
        w[root + ".norm.bias"@].data,
    );
    let res = if w.dom().contains(root + ".res.weight"@) {
        crate::nn::spec_conv(w[root + ".res.weight"@], w[root + ".res.bias"@], x, 1)
    } else {
        x
    };
    crate::nn::spec_add_channels(n, res)
}

/// The number of channels that a block puts out.
pub open spec fn block_out<N>(w: Map<Seq<char>, Tensor<N>>, root: Seq<char>) -> nat {
    w[root + ".conv.conv.weight"@].shape[0] as nat
}

/// The block is there, complete, and reads no more than `cin` channels.
pub open spec fn block_ok<N>(w: Map<Seq<char>, Tensor<N>>, root: Seq<char>, cin: nat) -> bool {
    &&& w.dom().contains(root + ".conv.conv.weight"@)
    &&& w.dom().contains(root + ".conv.conv.bias"@)
    &&& w.dom().contains(root + ".norm.weight"@)
    &&& w.dom().contains(root + ".norm.bias"@)
    &&& crate::nn::conv_ok(w[root + ".conv.conv.weight"@], w[root + ".conv.conv.bias"@], cin)
    &&& block_out(w, root) >= 1
    &&& block_out(w, root) <= w[root + ".norm.weight"@].data.len()
    &&& block_out(w, root) <= w[root + ".norm.bias"@].data.len()
    &&& w.dom().contains(root + ".res.weight"@) ==> w.dom().contains(root + ".res.bias"@)
        && crate::nn::conv_ok(w[root + ".res.weight"@], w[root + ".res.bias"@], cin)
}

/// The encoder `root` applied to a sequence of inputs: three blocks with dilations 1, 2
/// and 4.
pub open spec fn spec_encoder<S: Wide>(
    w: Map<Seq<char>, Tensor<S::Narrow>>,
    x: Seq<Seq<S::Narrow>>,
    root: Seq<char>,
) -> Seq<Seq<S::Narrow>> {
    let a = spec_block::<S>(w, crate::nn::spec_transpose(x), root + ".tcn.blocks.0"@, 1);
    let b = spec_block::<S>(w, a, root + ".tcn.blocks.1"@, 2);
    let c = spec_block::<S>(w, b, root + ".tcn.blocks.2"@, 4);
    crate::nn::spec_transpose(c)
}

/// The encoder is there, complete, and reads no more than `cin` channels.
pub open spec fn encoder_ok<N>(w: Map<Seq<char>, Tensor<N>>, root: Seq<char>, cin: nat) -> bool {
    &&& block_ok(w, root + ".tcn.blocks.0"@, cin)
    &&& block_ok(w, root + ".tcn.blocks.1"@, block_out(w, root + ".tcn.blocks.0"@))
    &&& block_ok(w, root + ".tcn.blocks.2"@, block_out(w, root + ".tcn.blocks.1"@))
}

/// The number of channels that an encoder puts out.
pub open spec fn encoder_out<N>(w: Map<Seq<char>, Tensor<N>>, root: Seq<char>) -> nat {
    block_out(w, root + ".tcn.blocks.2"@)
}

fn named(root: &String, suffix: &str) -> (r: String)
    ensures
        r@ == root@ + suffix@,
{
    root.clone().concat(suffix)
}

fn tensor<'a, N>(w: &'a Table<N>, root: &String, suffix: &str) -> (r: &'a Arr<N>)
    requires
        w@.dom().contains(root@ + suffix@),
    ensures
        r@ == w@[root@ + suffix@],
{
    w.get(&named(root, suffix)).unwrap()
}

/// Apply an affine layer.
fn linear<N: Scalar>(w: &Table<N>, x: &Vec<N>, prefix: &String) -> (r: Vec<N>)
    requires
        linear_ok(w@, prefix@, x@.len()),
    ensures
        r@ == spec_linear(w@, x@, prefix@),
        r@.len() == linear_out(w@, prefix@),
{
    let m = tensor(w, prefix, ".weight");
    let b = tensor(w, prefix, ".bias");
    affine(&m.data, &b.data, x, m.shape[0], m.shape[1])
}

/// Apply one block of an encoder.
fn tcn_block<S: Wide>(
    w: &Table<S::Narrow>,
    x: &Vec<Vec<S::Narrow>>,
    root: &String,
    dil: usize,
) -> (r: Vec<Vec<S::Narrow>>)
    requires
        x@.len() >= 1,
        crate::nn::rect(crate::sampling::deep(x@), x@[0]@.len()),
        block_ok(w@, root@, x@.len()),
        dil >= 1,
    ensures
        crate::sampling::deep(r@) == spec_block::<S>(
            w@,
            crate::sampling::deep(x@),
            root@,
            dil as int,
        ),
        r@.len() == block_out(w@, root@),
        crate::nn::rect(crate::sampling::deep(r@), x@[0]@.len()),
{
    let cw = tensor(w, root, ".conv.conv.weight");
    let cb = tensor(w, root, ".conv.conv.bias");
    let y = conv1d(cw, cb, x, dil);
    let ghost gy = crate::sampling::deep(y@);
    let n: usize = y.len();
    let mut a: Vec<Vec<S::Narrow>> = Vec::new();
    for c in 0..n
        invariant
            n == y@.len(),
            gy == crate::sampling::deep(y@),
            a@.len() == c,
            forall|p: int|
                0 <= p < c ==> (#[trigger] a@[p])@ == crate::nn::spec_gelu_all::<S>(gy[p]),
    {
        a.push(gelu_all::<S>(&y[c]));
    }
    let ghost ga = crate::sampling::deep(a@);
    proof {
        assert(ga =~~= gelu_rows::<S>(gy));
        assert forall|c: int| 0 <= c < ga.len() implies (#[trigger] ga[c]).len()
            == x@[0]@.len() by {
            assert(gy[c].len() == x@[0]@.len());
        }
        assert(ga[0] == a@[0]@);
    }
    let g = tensor(w, root, ".norm.weight");
    let b = tensor(w, root, ".norm.bias");
    let z = layernorm_channels(&a, &g.data, &b.data);
    match w.get(&named(root, ".res.weight")) {
        Some(rw) => {
            let rb = tensor(w, root, ".res.bias");
            let res = conv1d(rw, rb, x, 1);
            add_channels(&z, &res)
        },
        None => add_channels(&z, x),
    }
}

/// Apply an encoder to a sequence of inputs.
fn encoder<S: Wide>(w: &Table<S::Narrow>, x: &Vec<Vec<S::Narrow>>, root: &String) -> (r: Vec<
    Vec<S::Narrow>,
>)
    requires
        x@.len() >= 1,
        x@[0]@.len() >= 1,
        crate::nn::rect(crate::sampling::deep(x@), x@[0]@.len()),
        encoder_ok(w@, root@, x@[0]@.len()),
    ensures
        crate::sampling::deep(r@) == spec_encoder::<S>(w@, crate::sampling::deep(x@), root@),
        r@.len() == x@.len(),
        crate::nn::rect(crate::sampling::deep(r@), encoder_out(w@, root@)),
{
    let t = transpose(x);
    assert(crate::sampling::deep(t@)[0] == t@[0]@);
    let a = tcn_block::<S>(w, &t, &named(root, ".tcn.blocks.0"), 1);
    assert(crate::sampling::deep(a@)[0] == a@[0]@);
    let b = tcn_block::<S>(w, &a, &named(root, ".tcn.blocks.1"), 2);
    assert(crate::sampling::deep(b@)[0] == b@[0]@);
    let c = tcn_block::<S>(w, &b, &named(root, ".tcn.blocks.2"), 4);
    assert(crate::sampling::deep(c@)[0] == c@[0]@);
    transpose(&c)
}

// ---------------------------------------------------------------------------
// The model
// ---------------------------------------------------------------------------
pub struct SkyJepaLite<S: Wide> {
    pub w: Table<S::Narrow>,
    /// The actions are collective thrust and body rates, not rotor forces.
    pub action_mode_ctbr: bool,
    /// Length of the history.
    pub h: usize,
    /// Length of the predictions.
    pub t: usize,
    pub dt: S,
    pub m: S,
    pub g: S,
    pub state_mean: [S; SD],
    pub state_std: [S; SD],
    pub action_mean: [S; AD],
    pub action_std: [S; AD],
    /// Positions are taken relative to the one at decision time, not dropped.
    pub relative_pos: bool,
    /// The latent energy above which a plan counts as off the training manifold.
    pub trust_margin: S,
}

/// What a weight file says.
pub struct BlobHead<S> {
    pub ctbr: bool,
    pub relative: bool,
    pub h: int,
    pub t: int,
    pub dt: S,
    pub m: S,
    pub g: S,
    /// The number of tensors that follow.
    pub n: int,
    /// Where they start.
    pub start: int,
}

/// The head of a weight file: a magic word, the action mode and the position mode, the
/// lengths of history and prediction, the time step, mass and gravity, and the number of
/// tensors.
pub open spec fn spec_head<S: Wide>(b: Seq<u8>) -> Option<BlobHead<S>> {
    if b.len() < 7 || b.subrange(0, 7) != seq![74u8, 66u8, 76u8, 79u8, 66u8, 49u8, 10u8] {
        None
    } else {
        match crate::blob::spec_short_text(b, 7) {
            None => None,
            Some((mode, p)) => match crate::blob::spec_short_text(b, p) {
                None => None,
                Some((pos, q)) => if q + 36 > b.len() {
                    None
                } else {
                    Some(
                        BlobHead {
                            ctbr: mode == "ctbr"@,
                            relative: pos == "relative"@,
                            h: crate::blob::le32(b, q),
                            t: crate::blob::le32(b, q + 4),
                            dt: S::spec_from_bits(crate::blob::le64(b, q + 8) as u64),
                            m: S::spec_from_bits(crate::blob::le64(b, q + 16) as u64),
                            g: S::spec_from_bits(crate::blob::le64(b, q + 24) as u64),
                            n: crate::blob::le32(b, q + 32),
                            start: q + 36,
                        },
                    )
                },
            },
        }
    }
}

/// The tensors of a weight file.
pub open spec fn spec_weights<S: Wide>(b: Seq<u8>) -> Option<Map<Seq<char>, Tensor<S::Narrow>>> {
    match spec_head::<S>(b) {
        None => None,
        Some(d) => match crate::blob::spec_records::<S>(b, d.start, d.n as nat) {
            None => None,
            Some((m, _)) => Some(m),
        },
    }
}

/// The tensor is there and has at least `n` entries.
pub open spec fn has_entries<N>(w: Map<Seq<char>, Tensor<N>>, name: Seq<char>, n: nat) -> bool {
    w.dom().contains(name) && w[name].data.len() >= n
}

/// The weight file can be read, and holds the statistics of states and actions.
pub open spec fn blob_ok<S: Wide>(b: Seq<u8>) -> bool {
    match spec_weights::<S>(b) {
        None => false,
        Some(w) => {
            &&& has_entries(w, "state_mean"@, SD as nat)
            &&& has_entries(w, "state_std"@, SD as nat)
            &&& has_entries(w, "action_mean"@, AD as nat)
            &&& has_entries(w, "action_std"@, AD as nat)
        },
    }
}

/// The first entries of a tensor in double precision.
pub open spec fn widened<S: Wide>(t: Tensor<S::Narrow>, n: nat) -> Seq<S> {
    Seq::new(n, |i: int| S::spec_widen(t.data[i]))
}

/// The entries in single precision.
pub open spec fn narrowed<S: Wide>(v: Seq<S>) -> Seq<S::Narrow> {
    Seq::new(v.len(), |i: int| v[i].spec_narrow())
}

/// The hyperbolic tangent of every entry.
pub open spec fn tanh_all<N: Real>(x: Seq<N>) -> Seq<N> {
    Seq::new(x.len(), |i: int| x[i].spec_tanh())
}

/// The sum of the squares of the first `n` entries, in double precision.
pub open spec fn square_sum<S: Wide>(x: Seq<S::Narrow>, n: nat) -> S
    decreases n,
{
    if n == 0 {
        S::spec_zero()
    } else {
        square_sum::<S>(x, (n - 1) as nat) + S::spec_widen(x[n - 1]) * S::spec_widen(x[n - 1])
    }
}

/// The mean energy of a latent.
pub open spec fn energy<S: Wide>(x: Seq<S::Narrow>) -> S {
    square_sum::<S>(x, x.len()) / S::spec_splat(x.len() as int, 1)
}

/// The network that reads accelerations from a feature vector is there and complete for
/// `n` features, and gives at least `out` numbers.
pub open spec fn prober_ok<N>(w: Map<Seq<char>, Tensor<N>>, n: nat, out: nat) -> bool {
    &&& linear_ok(w, "prober.net.0"@, n)
    &&& linear_ok(w, "prober.net.2"@, linear_out(w, "prober.net.0"@))
    &&& linear_ok(w, "prober.net.4"@, linear_out(w, "prober.net.2"@))
    &&& linear_out(w, "prober.net.4"@) >= out
}

/// Its output.
pub open spec fn spec_prober<S: Wide>(
    w: Map<Seq<char>, Tensor<S::Narrow>>,
    feat: Seq<S::Narrow>,
) -> Seq<S::Narrow> {
    let a = crate::nn::spec_gelu_all::<S>(spec_linear(w, feat, "prober.net.0"@));
    let b = crate::nn::spec_gelu_all::<S>(spec_linear(w, a, "prober.net.2"@));
    spec_linear(w, b, "prober.net.4"@)
}

impl<S: Wide> SkyJepaLite<S> {
    /// This is the model that the weight file holds.
    pub open spec fn is_of(self, b: Seq<u8>) -> bool {
        let d = spec_head::<S>(b)->0;
        let w = spec_weights::<S>(b)->0;
        &&& self.w@ == w
        &&& self.action_mode_ctbr == d.ctbr
        &&& self.relative_pos == d.relative
        &&& self.h == d.h
        &&& self.t == d.t
        &&& self.dt == d.dt
        &&& self.m == d.m
        &&& self.g == d.g
        &&& self.state_mean@ == widened::<S>(w["state_mean"@], SD as nat)
        &&& self.state_std@ == widened::<S>(w["state_std"@], SD as nat)
        &&& self.action_mean@ == widened::<S>(w["action_mean"@], AD as nat)
        &&& self.action_std@ == widened::<S>(w["action_std"@], AD as nat)
        &&& self.trust_margin == S::spec_zero()
    }

    /// The recurrent cell is there and complete for `x` inputs and `h` hidden entries.
    pub open spec fn cell_ok(self, x: nat, h: nat) -> bool {
        let w = self.w@;
        &&& w.dom().contains("predictor.cell"@ + ".weight_ih"@)
        &&& w.dom().contains("predictor.cell"@ + ".weight_hh"@)
        &&& w.dom().contains("predictor.cell"@ + ".bias_ih"@)
        &&& w.dom().contains("predictor.cell"@ + ".bias_hh"@)
        &&& crate::nn::gru_ok(
            w["predictor.cell"@ + ".weight_ih"@],
            w["predictor.cell"@ + ".weight_hh"@],
            w["predictor.cell"@ + ".bias_ih"@],
            w["predictor.cell"@ + ".bias_hh"@],
            x,
            h,
        )
    }

    /// Length of the state latent that prediction step `k` starts from.
    pub open spec fn latent_len(self, k: nat) -> nat {
        if k == 0 {
            encoder_out(self.w@, "state_encoder"@)
        } else {
            linear_out(self.w@, "predictor.readout"@)
        }
    }

    /// How many numbers the step needs from the network.
    pub open spec fn probe_len(self) -> nat {
        if self.action_mode_ctbr {
            6
        } else {
            15
        }
    }

    /// The networks can carry out prediction step `k`.
    pub open spec fn step_ok(self, k: nat) -> bool {
        let w = self.w@;
        let hid = linear_out(w, "predictor.h0"@);
        &&& self.cell_ok(self.latent_len(k) + encoder_out(w, "action_encoder"@), hid)
        &&& linear_ok(w, "predictor.readout"@, hid)
        &&& prober_ok(w, self.latent_len(k) + SD as nat + AD as nat, self.probe_len())
    }

    /// All the networks are there and fit together.
    pub open spec fn wf(self) -> bool {
        let w = self.w@;
        &&& self.h >= 1
        &&& encoder_ok(w, "state_encoder"@, SD as nat)
        &&& encoder_ok(w, "action_encoder"@, AD as nat)
        &&& linear_ok(w, "predictor.h0"@, encoder_out(w, "state_encoder"@))
        &&& forall|k: nat| k < self.t ==> #[trigger] self.step_ok(k)
    }

    /// A state normalised; the position relative to that of `r`, or dropped.
    pub open spec fn spec_norm_state(self, x: Seq<S>, r: Seq<S>) -> Seq<S> {
        Seq::new(
            SD as nat,
            |i: int|
                if i < 3 {
                    if self.relative_pos {
                        (x[i] - r[i]) / self.state_std[i]
                    } else {
                        S::spec_zero()
                    }
                } else {
                    (x[i] - self.state_mean[i]) / self.state_std[i]
                },
        )
    }

    pub open spec fn spec_norm_action(self, a: Seq<S>) -> Seq<S> {
        Seq::new(AD as nat, |i: int| (a[i] - self.action_mean[i]) / self.action_std[i])
    }

    /// The state at decision time.
    pub open spec fn now(self, hist: Seq<[S; SD]>) -> Seq<S> {
        hist[self.h - 1]@
    }

    /// The latents of the state history.
    pub open spec fn state_latents(self, hist: Seq<[S; SD]>) -> Seq<Seq<S::Narrow>> {
        spec_encoder::<S>(
            self.w@,
            Seq::new(
                hist.len(),
                |k: int| narrowed::<S>(self.spec_norm_state(hist[k]@, self.now(hist))),
            ),
            "state_encoder"@,
        )
    }

    /// The latents of the action window.
    pub open spec fn action_latents(self, win: Seq<[S; AD]>) -> Seq<Seq<S::Narrow>> {
        spec_encoder::<S>(
            self.w@,
            Seq::new(win.len(), |k: int| narrowed::<S>(self.spec_norm_action(win[k]@))),
            "action_encoder"@,
        )
    }

    /// Hidden state and state latent of the predictor after `k` steps.
    pub open spec fn unrolled(self, hist: Seq<[S; SD]>, win: Seq<[S; AD]>, k: nat) -> (
        Seq<S::Narrow>,
        Seq<S::Narrow>,
    )
        decreases k,
    {
        let w = self.w@;
        if k == 0 {
            let now = self.state_latents(hist)[self.h - 1];
            (tanh_all(spec_linear(w, now, "predictor.h0"@)), now)
        } else {
            let (hid, lat) = self.unrolled(hist, win, (k - 1) as nat);
            let next = crate::nn::spec_gru(
                w["predictor.cell"@ + ".weight_ih"@],
                w["predictor.cell"@ + ".weight_hh"@],
                w["predictor.cell"@ + ".bias_ih"@],
                w["predictor.cell"@ + ".bias_hh"@],
                lat + self.action_latents(win)[self.h - 1 + (k - 1)],
                hid,
            );
            (next, spec_linear(w, next, "predictor.readout"@))
        }
    }

    /// The energy of the first `n` predicted latents above the margin.
    pub open spec fn trust_upto(self, hist: Seq<[S; SD]>, win: Seq<[S; AD]>, n: nat) -> S
        decreases n,
    {
        if n == 0 {
            S::spec_zero()
        } else {
            self.trust_upto(hist, win, (n - 1) as nat) + (energy::<S>(
                self.unrolled(hist, win, n).1,
            ) - self.trust_margin).spec_max(S::spec_zero())
        }
    }

    /// The latent trust energy of a plan: large where it drives the predicted latents off
    /// the training manifold.
    pub open spec fn spec_trust_energy(self, hist: Seq<[S; SD]>, win: Seq<[S; AD]>) -> S {
        self.trust_upto(hist, win, self.t as nat)
    }

    /// What the network reads off at prediction step `k` in state `x`.
    pub open spec fn probed(
        self,
        hist: Seq<[S; SD]>,
        win: Seq<[S; AD]>,
        x: Seq<S>,
        k: int,
    ) -> Seq<S::Narrow> {
        spec_prober::<S>(
            self.w@,
            self.spec_features(
                self.unrolled(hist, win, k as nat).1,
                x,
                self.now(hist),
                win[self.h - 1 + k]@,
            ),
        )
    }

    /// The state after `x` under action `a`, for the numbers `o` read off.
    pub open spec fn integrated(self, x: Seq<S>, a: Seq<S>, o: Seq<S::Narrow>) -> Seq<S> {
        let v = Seq::new(o.len(), |i: int| S::spec_widen(o[i]));
        if self.action_mode_ctbr {
            crate::dki::spec_step_collective(
                x,
                a[0],
                v.subrange(0, 3),
                v.subrange(3, 6),
                self.dt,
                self.m,
                self.g,
            )
        } else {
            crate::dki::spec_step_rotor_force(
                x,
                a,
                v.subrange(0, 3),
                v.subrange(3, 15),
                self.dt,
                self.m,
                self.g,
            )
        }
    }

    /// The predicted state after `k` steps.
    pub open spec fn state_after(self, hist: Seq<[S; SD]>, win: Seq<[S; AD]>, k: nat) -> Seq<S>
        decreases k,
    {
        if k == 0 {
            self.now(hist)
        } else {
            let x = self.state_after(hist, win, (k - 1) as nat);
            self.integrated(x, win[self.h - 1 + (k - 1)]@, self.probed(hist, win, x, k - 1))
        }
    }

    /// The predicted states.
    pub open spec fn spec_predict(self, hist: Seq<[S; SD]>, win: Seq<[S; AD]>) -> Seq<Seq<S>> {
        Seq::new(self.t as nat, |k: int| self.state_after(hist, win, (k + 1) as nat))
    }

    /// History and window are long enough for a prediction.
    pub open spec fn covers(self, hist: Seq<[S; SD]>, win: Seq<[S; AD]>) -> bool {
        &&& hist.len() >= self.h
        &&& win.len() >= 1
        &&& win.len() >= self.h - 1 + self.t
    }
}

fn stat<S: Wide, const N: usize>(w: &Table<S::Narrow>, name: &str) -> (r: Option<[S; N]>)
    ensures
        match r {
            None => !has_entries(w@, name@, N as nat),
            Some(a) => has_entries(w@, name@, N as nat) && a@ == widened::<S>(w@[name@], N as nat),
        },
{
    match w.get(&name.to_owned()) {
        None => None,
        Some(t) => {
            if t.data.len() < N {
                return None;
            }
            let z = S::zero();
            let mut a = [z; N];
            for i in 0..N
                invariant
                    N <= t@.data.len(),
                    forall|p: int| 0 <= p < i ==> #[trigger] a[p] == S::spec_widen(t@.data[p]),
            {
                a[i] = S::widen(t.data[i]);
            }
            assert(a@ =~= widened::<S>(t@, N as nat));
            Some(a)
        },
    }
}

fn narrow_all<S: Wide, const N: usize>(v: &[S; N]) -> (r: Vec<S::Narrow>)
    ensures
        r@ == narrowed::<S>(v@),
{
    let mut r: Vec<S::Narrow> = Vec::new();
    for i in 0..N
        invariant
            r@.len() == i,
            forall|p: int| 0 <= p < i ==> #[trigger] r@[p] == v[p].spec_narrow(),
    {
        r.push(v[i].narrow());
    }
    assert(r@ =~= narrowed::<S>(v@));
    r
}

fn append<N: Copy>(a: &Vec<N>, b: &Vec<N>) -> (r: Vec<N>)
    ensures
        r@ == a@ + b@,
{
    let mut r = copy_vec(a);
    for i in 0..b.len()
        invariant
            r@ == a@ + b@.take(i as int),
    {
        r.push(b[i]);
        assert(a@ + b@.take(i + 1) =~= (a@ + b@.take(i as int)).push(b@[i as int]));
    }
    assert(b@.take(b@.len() as int) =~= b@);
    r
}

fn energy_of<S: Wide>(x: &Vec<S::Narrow>) -> (r: S)
    ensures
        r == energy::<S>(x@),
{
    let n: usize = x.len();
    let mut s = S::zero();
    for i in 0..n
        invariant
            n == x@.len(),
            s == square_sum::<S>(x@, i as nat),
    {
        let v = S::widen(x[i]);
        s = s.add(v.mul(v));
    }
    s.div(S::splat(n as i128, 1))
}

impl<S: Wide> SkyJepaLite<S> {
    /// Read a weight file; `None` where it is malformed or lacks the statistics.
    pub fn parse(b: &[u8]) -> (r: Option<Self>)
        ensures
            r is Some <==> blob_ok::<S>(b@),
            r matches Some(m) ==> m.is_of(b@),
    {
        assert(b.len() == b@.len());
        if b.len() < 7 {
            return None;
        }
        let magic = b[0] == 74 && b[1] == 66 && b[2] == 76 && b[3] == 79 && b[4] == 66 && b[5]
            == 49 && b[6] == 10;
        proof {
            let m = seq![74u8, 66u8, 76u8, 79u8, 66u8, 49u8, 10u8];
            if magic {
                assert(b@.subrange(0, 7) =~= m);
            } else if b@.subrange(0, 7) == m {
                assert(forall|i: int| 0 <= i < 7 ==> #[trigger] b@[i] == b@.subrange(0, 7)[i]);
                assert(false);
            }
        }
        if !magic {
            return None;
        }
        let (mode, p) = match read_short_text(b, 7) {
            None => {
                return None;
            },
            Some(x) => x,
        };
        let (pos, q) = match read_short_text(b, p) {
            None => {
                return None;
            },
            Some(x) => x,
        };
        if b.len() - q < 36 {
            return None;
        }
        let h: usize = read_u32(b, q) as usize;
        let t: usize = read_u32(b, q + 4) as usize;
        let dt = S::from_bits(read_u64(b, q + 8));
        let m = S::from_bits(read_u64(b, q + 16));
        let g = S::from_bits(read_u64(b, q + 24));
        let n: u32 = read_u32(b, q + 32);
        let w = match read_records::<S>(b, q + 36, n) {
            None => {
                return None;
            },
            Some(w) => w,
        };
        let state_mean = match stat::<S, SD>(&w, "state_mean") {
            None => {
                return None;
            },
            Some(x) => x,
        };
        let state_std = match stat::<S, SD>(&w, "state_std") {
            None => {
                return None;
            },
            Some(x) => x,
        };
        let action_mean = match stat::<S, AD>(&w, "action_mean") {
            None => {
                return None;
            },
            Some(x) => x,
        };
        let action_std = match stat::<S, AD>(&w, "action_std") {
            None => {
                return None;
            },
            Some(x) => x,
        };
        let action_mode_ctbr = mode.eq(&"ctbr".to_owned());
        let relative_pos = pos.eq(&"relative".to_owned());
        Some(
            SkyJepaLite {
                w,
                action_mode_ctbr,
                h,
                t,
                dt,
                m,
                g,
                state_mean,
                state_std,
                action_mean,
                action_std,
                relative_pos,
                trust_margin: S::zero(),
            },
        )
    }

    /// Read a weight file that is known to be well formed.
    pub fn from_blob(b: &[u8]) -> (r: Self)
        requires
            blob_ok::<S>(b@),
        ensures
            r.is_of(b@),
    {
        Self::parse(b).unwrap()
    }

    /// Normalise a state about the position of `r`.
    pub fn norm_state(&self, x: &[S; SD], r: &[S; SD]) -> (n: [S; SD])
        ensures
            n@ == self.spec_norm_state(x@, r@),
    {
        let z = S::zero();
        let mut n = [z; SD];
        for i in 0..SD
            invariant
                forall|p: int|
                    0 <= p < i ==> #[trigger] n[p] == self.spec_norm_state(x@, r@)[p],
        {
            n[i] = if i < 3 {
                if self.relative_pos {
                    x[i].sub(r[i]).div(self.state_std[i])
                } else {
                    S::zero()
                }
            } else {
                x[i].sub(self.state_mean[i]).div(self.state_std[i])
            };
        }
        assert(n@ =~= self.spec_norm_state(x@, r@));
        n
    }

    /// Normalise an action.
    pub fn norm_action(&self, a: &[S; AD]) -> (n: [S; AD])
        ensures
            n@ == self.spec_norm_action(a@),
    {
        let (m, s) = (&self.action_mean, &self.action_std);
        let n = [
            a[0].sub(m[0]).div(s[0]),
            a[1].sub(m[1]).div(s[1]),
            a[2].sub(m[2]).div(s[2]),
            a[3].sub(m[3]).div(s[3]),
        ];
        assert(n@ =~= self.spec_norm_action(a@));
        n
    }

    /// The latents of history and window.
    fn encode(&self, hist: &Vec<[S; SD]>, win: &Vec<[S; AD]>) -> (r: (
        Vec<Vec<S::Narrow>>,
        Vec<Vec<S::Narrow>>,
    ))
        requires
            self.wf(),
            self.covers(hist@, win@),
        ensures
            crate::sampling::deep(r.0@) == self.state_latents(hist@),
            crate::sampling::deep(r.1@) == self.action_latents(win@),
            r.0@.len() == hist@.len(),
            r.1@.len() == win@.len(),
            crate::nn::rect(
                crate::sampling::deep(r.0@),
                encoder_out(self.w@, "state_encoder"@),
            ),
            crate::nn::rect(
                crate::sampling::deep(r.1@),
                encoder_out(self.w@, "action_encoder"@),
            ),
    {
        let now = hist[self.h - 1];
        let mut sh: Vec<Vec<S::Narrow>> = Vec::new();
        for k in 0..hist.len()
            invariant
                now@ == self.now(hist@),
                sh@.len() == k,
                forall|p: int|
                    0 <= p < k ==> (#[trigger] sh@[p])@ == narrowed::<S>(
                        self.spec_norm_state(hist@[p]@, now@),
                    ),
        {
            sh.push(narrow_all(&self.norm_state(&hist[k], &now)));
        }
        let mut aw: Vec<Vec<S::Narrow>> = Vec::new();
        for k in 0..win.len()
            invariant
                aw@.len() == k,
                forall|p: int|
                    0 <= p < k ==> (#[trigger] aw@[p])@ == narrowed::<S>(
                        self.spec_norm_action(win@[p]@),
                    ),
        {
            aw.push(narrow_all(&self.norm_action(&win[k])));
        }
        proof {
            let gs = crate::sampling::deep(sh@);
            let ga = crate::sampling::deep(aw@);
            assert(gs =~~= Seq::new(
                hist@.len(),
                |k: int| narrowed::<S>(self.spec_norm_state(hist@[k]@, self.now(hist@))),
            ));
            assert(ga =~~= Seq::new(
                win@.len(),
                |k: int| narrowed::<S>(self.spec_norm_action(win@[k]@)),
            ));
            assert(sh@[0]@.len() == SD);
            assert(aw@[0]@.len() == AD);
            assert(crate::nn::rect(gs, SD as nat));
            assert(crate::nn::rect(ga, AD as nat));
        }
        let s = encoder::<S>(&self.w, &sh, &"state_encoder".to_owned());
        let z = encoder::<S>(&self.w, &aw, &"action_encoder".to_owned());
        (s, z)
    }

    fn prober(&self, feat: &Vec<S::Narrow>) -> (r: Vec<S::Narrow>)
        requires
            prober_ok(self.w@, feat@.len(), self.probe_len()),
        ensures
            r@ == spec_prober::<S>(self.w@, feat@),
            r@.len() >= self.probe_len(),
    {
        let a = linear(&self.w, feat, &"prober.net.0".to_owned());
        let b = gelu_all::<S>(&a);
        let c = linear(&self.w, &b, &"prober.net.2".to_owned());
        let d = gelu_all::<S>(&c);
        linear(&self.w, &d, &"prober.net.4".to_owned())
    }

    /// What the network reads accelerations from: a latent, the state normalised about the
    /// one at decision time, and the action normalised.
    pub open spec fn spec_features(
        self,
        lat: Seq<S::Narrow>,
        x: Seq<S>,
        now: Seq<S>,
        a: Seq<S>,
    ) -> Seq<S::Narrow> {
        lat + narrowed::<S>(self.spec_norm_state(x, now)) + narrowed::<S>(self.spec_norm_action(a))
    }

    /// What the network reads accelerations from.
    pub fn features(
        &self,
        lat: &Vec<S::Narrow>,
        x: &[S; SD],
        now: &[S; SD],
        a: &[S; AD],
    ) -> (r: Vec<S::Narrow>)
        ensures
            r@ == self.spec_features(lat@, x@, now@, a@),
            r@.len() == lat@.len() + SD + AD,
    {
        let xn = narrow_all(&self.norm_state(x, now));
        let an = narrow_all(&self.norm_action(a));
        append(&append(lat, &xn), &an)
    }

    /// Apply what the network read off.
    pub fn integrate(&self, x: &[S; SD], a: &[S; AD], o: &Vec<S::Narrow>) -> (r: [S; SD])
        requires
            o@.len() >= self.probe_len(),
        ensures
            r@ == self.integrated(x@, a@, o@),
    {
        let ghost v = Seq::new(o@.len(), |i: int| S::spec_widen(o@[i]));
        let dv = [S::widen(o[0]), S::widen(o[1]), S::widen(o[2])];
        assert(dv@ =~= v.subrange(0, 3));
        if self.action_mode_ctbr {
            let om = [S::widen(o[3]), S::widen(o[4]), S::widen(o[5])];
            assert(om@ =~= v.subrange(3, 6));
            step_ctbr(x, a, &dv, &om, self.dt, self.m, self.g)
        } else {
            let z = S::zero();
            let mut k = [z; 12];
            for j in 0..12
                invariant
                    o@.len() >= 15,
                    v == Seq::new(o@.len(), |i: int| S::spec_widen(o@[i])),
                    forall|p: int| 0 <= p < j ==> #[trigger] k[p] == v[3 + p],
            {
                k[j] = S::widen(o[3 + j]);
            }
            assert(k@ =~= v.subrange(3, 15));
            step_rotor_force(x, a, &dv, &k, self.dt, self.m, self.g)
        }
    }

    /// The state latents from which the prediction steps start, the one at decision time
    /// first.
    fn unroll(&self, hist: &Vec<[S; SD]>, win: &Vec<[S; AD]>) -> (r: Vec<Vec<S::Narrow>>)
        requires
            self.wf(),
            self.covers(hist@, win@),
        ensures
            r@.len() == self.t + 1,
            forall|k: int|
                0 <= k <= self.t ==> (#[trigger] r@[k])@ == self.unrolled(
                    hist@,
                    win@,
                    k as nat,
                ).1,
            forall|k: int|
                0 <= k < self.t ==> (#[trigger] r@[k])@.len() == self.latent_len(k as nat),
    {
        let (s, z) = self.encode(hist, win);
        let cell = "predictor.cell".to_owned();
        let now = copy_vec(&s[self.h - 1]);
        assert(crate::sampling::deep(s@)[self.h - 1] == s@[self.h - 1]@);
        let h0 = linear(&self.w, &now, &"predictor.h0".to_owned());
        let mut hid: Vec<S::Narrow> = Vec::new();
        for i in 0..h0.len()
            invariant
                hid@.len() == i,
                forall|p: int| 0 <= p < i ==> #[trigger] hid@[p] == h0@[p].spec_tanh(),
        {
            hid.push(h0[i].tanh());
        }
        assert(hid@ =~= tanh_all(h0@));
        let mut lats: Vec<Vec<S::Narrow>> = Vec::new();
        lats.push(now);
        for k in 0..self.t
            invariant
                self.wf(),
                self.covers(hist@, win@),
                cell@ == "predictor.cell"@,
                z@.len() == win@.len(),
                crate::sampling::deep(z@) == self.action_latents(win@),
                crate::nn::rect(
                    crate::sampling::deep(z@),
                    encoder_out(self.w@, "action_encoder"@),
                ),
                hid@.len() == linear_out(self.w@, "predictor.h0"@),
                lats@.len() == k + 1,
                self.unrolled(hist@, win@, k as nat).0 == hid@,
                forall|p: int|
                    0 <= p <= k ==> (#[trigger] lats@[p])@ == self.unrolled(
                        hist@,
                        win@,
                        p as nat,
                    ).1,
                forall|p: int|
                    0 <= p <= k ==> (#[trigger] lats@[p])@.len() == self.latent_len(p as nat),
        {
            proof {
                assert(self.step_ok(k as nat));
                assert(crate::sampling::deep(z@)[self.h - 1 + k] == z@[self.h - 1 + k]@);
                assert(lats@[k as int]@.len() == self.latent_len(k as nat));
                assert(z.len() == z@.len());
            }
            let inp = append(&lats[k], &z[self.h - 1 + k]);
            hid = gru_cell(
                tensor(&self.w, &cell, ".weight_ih"),
                tensor(&self.w, &cell, ".weight_hh"),
                tensor(&self.w, &cell, ".bias_ih"),
                tensor(&self.w, &cell, ".bias_hh"),
                &inp,
                &hid,
            );
            lats.push(linear(&self.w, &hid, &"predictor.readout".to_owned()));
        }
        lats
    }

    /// Predict from one history and one action window.
    fn predict_one(&self, hist: &Vec<[S; SD]>, win: &Vec<[S; AD]>) -> (r: (Vec<[S; SD]>, S))
        requires
            self.wf(),
            self.covers(hist@, win@),
        ensures
            crate::dense::rows(r.0@) == self.spec_predict(hist@, win@),
            r.1 == self.spec_trust_energy(hist@, win@),
    {
        let lats = self.unroll(hist, win);
        let mut e = S::zero();
        for k in 0..self.t
            invariant
                lats@.len() == self.t + 1,
                forall|p: int|
                    0 <= p <= self.t ==> (#[trigger] lats@[p])@ == self.unrolled(
                        hist@,
                        win@,
                        p as nat,
                    ).1,
                e == self.trust_upto(hist@, win@, k as nat),
        {
            assert(lats.len() == lats@.len());
            let en = energy_of::<S>(&lats[k + 1]);
            e = e.add(en.sub(self.trust_margin).max(S::zero()));
        }
        let now = hist[self.h - 1];
        let mut x = now;
        let mut out: Vec<[S; SD]> = Vec::new();
        for k in 0..self.t
            invariant
                self.wf(),
                self.covers(hist@, win@),
                now@ == self.now(hist@),
                lats@.len() == self.t + 1,
                forall|p: int|
                    0 <= p <= self.t ==> (#[trigger] lats@[p])@ == self.unrolled(
                        hist@,
                        win@,
                        p as nat,
                    ).1,
                forall|p: int|
                    0 <= p < self.t ==> (#[trigger] lats@[p])@.len() == self.latent_len(p as nat),
                x@ == self.state_after(hist@, win@, k as nat),
                out@.len() == k,
                forall|p: int|
                    0 <= p < k ==> (#[trigger] out@[p])@ == self.state_after(
                        hist@,
                        win@,
                        (p + 1) as nat,
                    ),
        {
            assert(win.len() == win@.len());
            let a = win[self.h - 1 + k];
            let feat = self.features(&lats[k], &x, &now, &a);
            proof {
                assert(self.step_ok(k as nat));
                assert(lats@[k as int]@.len() == self.latent_len(k as nat));
            }
            let o = self.prober(&feat);
            x = self.integrate(&x, &a, &o);
            out.push(x);
        }
        assert(crate::dense::rows(out@) =~~= self.spec_predict(hist@, win@));
        (out, e)
    }

    /// Predicted states for each history and action window.
    pub fn predict_batch(
        &self,
        state_hist: &[Vec<[S; SD]>],
        action_window: &[Vec<[S; AD]>],
    ) -> (r: Vec<Vec<[S; SD]>>)
        requires
            self.wf(),
            state_hist@.len() <= action_window@.len(),
            forall|i: int|
                0 <= i < state_hist@.len() ==> self.covers(
                    (#[trigger] state_hist@[i])@,
                    action_window@[i]@,
                ),
        ensures
            r@.len() == state_hist@.len(),
            forall|i: int|
                0 <= i < r@.len() ==> crate::dense::rows((#[trigger] r@[i])@)
                    == self.spec_predict(state_hist@[i]@, action_window@[i]@),
    {
        let (preds, _trust) = self.predict_batch_trust(state_hist, action_window);
        preds
    }

    /// Predicted states, and the latent trust energy of each candidate.
    pub fn predict_batch_trust(
        &self,
        state_hist: &[Vec<[S; SD]>],
        action_window: &[Vec<[S; AD]>],
    ) -> (r: (Vec<Vec<[S; SD]>>, Vec<S>))
        requires
            self.wf(),
            state_hist@.len() <= action_window@.len(),
            forall|i: int|
                0 <= i < state_hist@.len() ==> self.covers(
                    (#[trigger] state_hist@[i])@,
                    action_window@[i]@,
                ),
        ensures
            r.0@.len() == state_hist@.len(),
            r.1@.len() == state_hist@.len(),
            forall|i: int|
                0 <= i < r.0@.len() ==> crate::dense::rows((#[trigger] r.0@[i])@)
                    == self.spec_predict(state_hist@[i]@, action_window@[i]@),
            forall|i: int|
                0 <= i < r.1@.len() ==> #[trigger] r.1@[i] == self.spec_trust_energy(
                    state_hist@[i]@,
                    action_window@[i]@,
                ),
    {
        let mut preds: Vec<Vec<[S; SD]>> = Vec::new();
        let mut trust: Vec<S> = Vec::new();
        for i in 0..state_hist.len()
            invariant
                self.wf(),
                state_hist@.len() <= action_window@.len(),
                forall|p: int|
                    0 <= p < state_hist@.len() ==> self.covers(
                        (#[trigger] state_hist@[p])@,
                        action_window@[p]@,
                    ),
                preds@.len() == i,
                trust@.len() == i,
                forall|p: int|
                    0 <= p < i ==> crate::dense::rows((#[trigger] preds@[p])@)
                        == self.spec_predict(state_hist@[p]@, action_window@[p]@),
                forall|p: int|
                    0 <= p < i ==> #[trigger] trust@[p] == self.spec_trust_energy(
                        state_hist@[p]@,
                        action_window@[p]@,
                    ),
        {
            let (p, e) = self.predict_one(&state_hist[i], &action_window[i]);
            preds.push(p);
            trust.push(e);
        }
        (preds, trust)
    }
}

impl<S: Wide> SkyJepaLite<S> {
    fn linear_fits(&self, prefix: &str, n: usize) -> (r: Option<usize>)
        ensures
            r is Some <==> linear_ok(self.w@, prefix@, n as nat),
            r matches Some(o) ==> o == linear_out(self.w@, prefix@),
    {
        let root = prefix.to_owned();
        let w = match self.w.get(&named(&root, ".weight")) {
            None => {
                return None;
            },
            Some(w) => w,
        };
        let b = match self.w.get(&named(&root, ".bias")) {
            None => {
                return None;
            },
            Some(b) => b,
        };
        assert(w.data.len() == w@.data.len());
        if w.shape.len() < 2 || w.shape[1] != n || b.data.len() < w.shape[0] {
            return None;
        }
        match w.shape[0].checked_mul(w.shape[1]) {
            Some(c) if c <= w.data.len() => Some(w.shape[0]),
            _ => None,
        }
    }

    fn block_fits(&self, root: &String, cin: usize) -> (r: Option<usize>)
        ensures
            r is Some <==> block_ok(self.w@, root@, cin as nat),
            r matches Some(o) ==> o == block_out(self.w@, root@),
    {
        let cw = match self.w.get(&named(root, ".conv.conv.weight")) {
            None => {
                return None;
            },
            Some(w) => w,
        };
        let cb = match self.w.get(&named(root, ".conv.conv.bias")) {
            None => {
                return None;
            },
            Some(w) => w,
        };
        let nw = match self.w.get(&named(root, ".norm.weight")) {
            None => {
                return None;
            },
            Some(w) => w,
        };
        let nb = match self.w.get(&named(root, ".norm.bias")) {
            None => {
                return None;
            },
            Some(w) => w,
        };
        if !conv_fits(cw, cb, cin) {
            return None;
        }
        let out: usize = cw.shape[0];
        if out < 1 || nw.data.len() < out || nb.data.len() < out {
            return None;
        }
        if let Some(rw) = self.w.get(&named(root, ".res.weight")) {
            match self.w.get(&named(root, ".res.bias")) {
                None => {
                    return None;
                },
                Some(rb) => {
                    if !conv_fits(rw, rb, cin) {
                        return None;
                    }
                },
            }
        }
        Some(out)
    }

    fn encoder_fits(&self, root: &str, cin: usize) -> (r: Option<usize>)
        ensures
            r is Some <==> encoder_ok(self.w@, root@, cin as nat),
            r matches Some(o) ==> o == encoder_out(self.w@, root@),
    {
        let root = root.to_owned();
        match self.block_fits(&named(&root, ".tcn.blocks.0"), cin) {
            None => None,
            Some(a) => match self.block_fits(&named(&root, ".tcn.blocks.1"), a) {
                None => None,
                Some(b) => self.block_fits(&named(&root, ".tcn.blocks.2"), b),
            },
        }
    }

    fn cell_fits(&self, x: u128, h: usize) -> (r: bool)
        ensures
            r == self.cell_ok(x as nat, h as nat),
    {
        let cell = "predictor.cell".to_owned();
        let wih = match self.w.get(&named(&cell, ".weight_ih")) {
            None => {
                return false;
            },
            Some(w) => w,
        };
        let whh = match self.w.get(&named(&cell, ".weight_hh")) {
            None => {
                return false;
            },
            Some(w) => w,
        };
        let bih = match self.w.get(&named(&cell, ".bias_ih")) {
            None => {
                return false;
            },
            Some(w) => w,
        };
        let bhh = match self.w.get(&named(&cell, ".bias_hh")) {
            None => {
                return false;
            },
            Some(w) => w,
        };
        assert(wih.data.len() == wih@.data.len() && whh.data.len() == whh@.data.len());
        assert(bih.data.len() == bih@.data.len());
        if wih.shape.len() < 2 || (wih.shape[1] as u128) > x {
            return false;
        }
        if bih.data.len() / 3 < h || bhh.data.len() / 3 < h {
            return false;
        }
        let c: usize = wih.shape[1];
        let a = match (3 * h).checked_mul(c) {
            None => {
                return false;
            },
            Some(n) => n <= wih.data.len(),
        };
        let b = match (3 * h).checked_mul(h) {
            None => {
                return false;
            },
            Some(n) => n <= whh.data.len(),
        };
        a && b
    }

    /// The features that step `k` hands to the network fit it.
    fn prober_fits(&self, lat: usize) -> (r: bool)
        ensures
            r == prober_ok(self.w@, lat as nat + SD as nat + AD as nat, self.probe_len()),
    {
        let need: usize = if self.action_mode_ctbr {
            6
        } else {
            15
        };
        if lat > usize::MAX - 22 {
            // no layer can have that many columns
            return false;
        }
        match self.linear_fits("prober.net.0", lat + 22) {
            None => false,
            Some(a) => match self.linear_fits("prober.net.2", a) {
                None => false,
                Some(b) => match self.linear_fits("prober.net.4", b) {
                    None => false,
                    Some(c) => c >= need,
                },
            },
        }
    }

    /// Whether all the networks are there and fit together, so that the model can predict.
    pub fn complete(&self) -> (r: bool)
        ensures
            r == self.wf(),
    {
        if self.h < 1 {
            return false;
        }
        let (lat, za) = match (
            self.encoder_fits("state_encoder", SD),
            self.encoder_fits("action_encoder", AD),
        ) {
            (Some(a), Some(b)) => (a, b),
            _ => {
                return false;
            },
        };
        let hid: usize = match self.linear_fits("predictor.h0", lat) {
            None => {
                return false;
            },
            Some(n) => n,
        };
        if self.t == 0 {
            return true;
        }
        let out: usize = match self.linear_fits("predictor.readout", hid) {
            None => {
                assert(!self.step_ok(0));
                return false;
            },
            Some(n) => n,
        };
        let first = self.cell_fits(lat as u128 + za as u128, hid) && self.prober_fits(lat);
        assert(first == self.step_ok(0));
        if !first || self.t == 1 {
            return first;
        }
        let later = self.cell_fits(out as u128 + za as u128, hid) && self.prober_fits(out);
        proof {
            assert(later == self.step_ok(1));
            assert forall|k: nat| k < self.t && later implies #[trigger] self.step_ok(k) by {
                assert(k == 0 || self.latent_len(k) == self.latent_len(1));
            }
        }
        later
    }
}

fn conv_fits<N>(w: &Arr<N>, b: &Arr<N>, cin: usize) -> (r: bool)
    ensures
        r == crate::nn::conv_ok(w@, b@, cin as nat),
{
    assert(w.data.len() == w@.data.len());
    if w.shape.len() < 3 || w.shape[1] > cin || b.data.len() < w.shape[0] {
        return false;
    }
    let (c, k): (usize, usize) = (w.shape[1], w.shape[2]);
    match w.shape[0].checked_mul(c) {
        None => {
            proof {
                let a = w@.shape[0] * w@.shape[1];
                if k > 0 {
                    assert(a * k >= a) by (nonlinear_arith)
                        requires
                            a >= 0,
                            k >= 1,
                    ;
                }
            }
            // too large to be stored, unless there are no taps
            k == 0
        },
        Some(a) => match a.checked_mul(k) {
            None => false,
            Some(n) => n <= w.data.len(),
        },
    }
}

/// The model never sees where it is: without rounding, a state and the reference position
/// moved together normalise to the same numbers.
pub proof fn law_position_is_relative<S: Wide>(
    m: SkyJepaLite<S>,
    x: Seq<S>,
    y: Seq<S>,
    r: Seq<S>,
    q: Seq<S>,
    d: Seq<S>,
)
    requires
        crate::scalar::exact::<S>(),
        forall|i: int| 0 <= i < SD ==> (#[trigger] m.state_std[i]).val() != 0real,
        forall|i: int| 0 <= i < 3 ==> (#[trigger] y[i]).val() == x[i].val() + d[i].val(),
        forall|i: int| 0 <= i < 3 ==> (#[trigger] q[i]).val() == r[i].val() + d[i].val(),
        forall|i: int| 3 <= i < SD ==> (#[trigger] y[i]).val() == x[i].val(),
    ensures
        forall|i: int|
            0 <= i < SD ==> (#[trigger] m.spec_norm_state(y, q)[i]).val() == m.spec_norm_state(
                x,
                r,
            )[i].val(),
{
    assert forall|i: int| 0 <= i < SD implies (#[trigger] m.spec_norm_state(y, q)[i]).val()
        == m.spec_norm_state(x, r)[i].val() by {
        assert(m.state_std[i].val() != 0real);
        assert(i < 3 ==> q[i].val() == r[i].val() + d[i].val());
        if i >= 3 {
            assert(y[i].val() == x[i].val());
            assert((y[i] - m.state_mean[i]).val() == (x[i] - m.state_mean[i]).val());
        } else {
            assert(y[i].val() == x[i].val() + d[i].val());
            assert((y[i] - q[i]).val() == (x[i] - r[i]).val());
        }
    }
}

/// The state `y` is the state `x` moved by `d`.
pub open spec fn moved<S: Real>(y: Seq<S>, x: Seq<S>, d: Seq<S>) -> bool {
    &&& forall|i: int| 0 <= i < 3 ==> (#[trigger] y[i]).val() == x[i].val() + d[i].val()
    &&& forall|i: int| 3 <= i < SD ==> #[trigger] y[i] == x[i]
}

/// Every state of the history `b` is that of `a` moved by `d`.
pub open spec fn all_moved<S: Real>(b: Seq<[S; SD]>, a: Seq<[S; SD]>, d: Seq<S>) -> bool {
    &&& b.len() == a.len()
    &&& forall|k: int| 0 <= k < a.len() ==> moved((#[trigger] b[k])@, a[k]@, d)
}

proof fn lemma_moved_norm<S: Wide>(
    m: SkyJepaLite<S>,
    x: Seq<S>,
    y: Seq<S>,
    r: Seq<S>,
    q: Seq<S>,
    d: Seq<S>,
)
    requires
        crate::scalar::exact::<S>(),
        crate::scalar::faithful::<S>(),
        moved(y, x, d),
        moved(q, r, d),
    ensures
        m.spec_norm_state(y, q) == m.spec_norm_state(x, r),
{
    let (a, b) = (m.spec_norm_state(y, q), m.spec_norm_state(x, r));
    assert forall|i: int| 0 <= i < SD implies #[trigger] a[i] == b[i] by {
        if i < 3 {
            assert(y[i].val() == x[i].val() + d[i].val());
            assert(q[i].val() == r[i].val() + d[i].val());
            assert((y[i] - q[i]).val() == (x[i] - r[i]).val());
        } else {
            assert(y[i] == x[i]);
        }
    }
    assert(a =~= b);
}

proof fn lemma_moved_unrolled<S: Wide>(
    m: SkyJepaLite<S>,
    a: Seq<[S; SD]>,
    b: Seq<[S; SD]>,
    win: Seq<[S; AD]>,
    d: Seq<S>,
    k: nat,
)
    requires
        crate::scalar::exact::<S>(),
        crate::scalar::faithful::<S>(),
        all_moved(b, a, d),
        1 <= m.h <= a.len(),
    ensures
        m.unrolled(b, win, k) == m.unrolled(a, win, k),
        m.trust_upto(b, win, k) == m.trust_upto(a, win, k),
    decreases k,
{
    if k > 0 {
        lemma_moved_unrolled(m, a, b, win, d, (k - 1) as nat);
    } else {
        let f = Seq::new(a.len(), |p: int| narrowed::<S>(m.spec_norm_state(a[p]@, m.now(a))));
        let g = Seq::new(b.len(), |p: int| narrowed::<S>(m.spec_norm_state(b[p]@, m.now(b))));
        assert forall|p: int| 0 <= p < a.len() implies #[trigger] f[p] == g[p] by {
            assert(moved(b[p]@, a[p]@, d));
            assert(moved(b[m.h - 1]@, a[m.h - 1]@, d));
            lemma_moved_norm(m, a[p]@, b[p]@, m.now(a), m.now(b), d);
        }
        assert(f =~= g);
    }
}

proof fn lemma_moved_step<S: Wide>(
    m: SkyJepaLite<S>,
    x: Seq<S>,
    y: Seq<S>,
    a: Seq<S>,
    o: Seq<S::Narrow>,
    d: Seq<S>,
)
    requires
        crate::scalar::exact::<S>(),
        moved(y, x, d),
    ensures
        moved(m.integrated(y, a, o), m.integrated(x, a, o), d),
{
    assert(crate::dki::rotation_of(y) == crate::dki::rotation_of(x));
    assert(y[3] == x[3] && y[4] == x[4] && y[5] == x[5]);
    assert(y[8] == x[8] && y[11] == x[11] && y[14] == x[14]);
    assert(y[15] == x[15] && y[16] == x[16] && y[17] == x[17]);
    let (u, v) = (m.integrated(y, a, o), m.integrated(x, a, o));
    assert(y[0].val() == x[0].val() + d[0].val());
    assert(y[1].val() == x[1].val() + d[1].val());
    assert(y[2].val() == x[2].val() + d[2].val());
    assert forall|i: int| 3 <= i < SD implies #[trigger] u[i] == v[i] by {
        assert(i == 3 || i == 4 || i == 5 || i == 6 || i == 7 || i == 8 || i == 9 || i == 10 || i
            == 11 || i == 12 || i == 13 || i == 14 || i == 15 || i == 16 || i == 17);
    }
    assert forall|i: int| 0 <= i < 3 implies (#[trigger] u[i]).val() == v[i].val() + d[i].val() by {
        assert(i == 0 || i == 1 || i == 2);
    }
}

proof fn lemma_moved_prediction<S: Wide>(
    m: SkyJepaLite<S>,
    a: Seq<[S; SD]>,
    b: Seq<[S; SD]>,
    win: Seq<[S; AD]>,
    d: Seq<S>,
    k: nat,
)
    requires
        crate::scalar::exact::<S>(),
        crate::scalar::faithful::<S>(),
        all_moved(b, a, d),
        1 <= m.h <= a.len(),
    ensures
        moved(m.state_after(b, win, k), m.state_after(a, win, k), d),
    decreases k,
{
    assert(moved(b[m.h - 1]@, a[m.h - 1]@, d));
    if k > 0 {
        let j = (k - 1) as nat;
        lemma_moved_prediction(m, a, b, win, d, j);
        lemma_moved_unrolled(m, a, b, win, d, j);
        let (x, y) = (m.state_after(a, win, j), m.state_after(b, win, j));
        lemma_moved_norm(m, x, y, m.now(a), m.now(b), d);
        assert(m.probed(b, win, y, k - 1) == m.probed(a, win, x, k - 1));
        lemma_moved_step(
            m,
            x,
            y,
            win[m.h - 1 + (k - 1)]@,
            m.probed(a, win, x, k - 1),
            d,
        );
    }
}

/// Where a flight takes place makes no difference: without rounding, a history moved as a
/// whole gives the same prediction moved as a whole, and the same trust energy, whether
/// the model sees relative positions or none.
pub proof fn law_prediction_moves_along<S: Wide>(
    m: SkyJepaLite<S>,
    a: Seq<[S; SD]>,
    b: Seq<[S; SD]>,
    win: Seq<[S; AD]>,
    d: Seq<S>,
)
    requires
        crate::scalar::exact::<S>(),
        crate::scalar::faithful::<S>(),
        1 <= m.h <= a.len(),
        all_moved(b, a, d),
    ensures
        m.spec_predict(a, win).len() == m.t,
        m.spec_predict(b, win).len() == m.t,
        forall|k: int|
            0 <= k < m.t ==> moved(
                #[trigger] m.spec_predict(b, win)[k],
                m.spec_predict(a, win)[k],
                d,
            ),
        m.spec_trust_energy(b, win) == m.spec_trust_energy(a, win),
        m.spec_trust_energy(a, win).val() >= 0real,
{
    assert forall|k: int| 0 <= k < m.t implies moved(
        #[trigger] m.spec_predict(b, win)[k],
        m.spec_predict(a, win)[k],
        d,
    ) by {
        lemma_moved_prediction(m, a, b, win, d, (k + 1) as nat);
    }
    lemma_moved_unrolled(m, a, b, win, d, m.t as nat);
    law_trust_is_a_penalty(m, a, win, m.t as nat);
}

/// The trust energy of a plan is a penalty: it is never negative.
pub proof fn law_trust_is_a_penalty<S: Wide>(
    m: SkyJepaLite<S>,
    hist: Seq<[S; SD]>,
    win: Seq<[S; AD]>,
    n: nat,
)
    requires
        crate::scalar::exact::<S>(),
    ensures
        m.trust_upto(hist, win, n).val() >= 0real,
    decreases n,
{
    if n > 0 {
        law_trust_is_a_penalty(m, hist, win, (n - 1) as nat);
        let e = energy::<S>(m.unrolled(hist, win, n).1) - m.trust_margin;
        assert(e.spec_is_finite() && S::spec_zero().spec_is_finite());
        assert(e.spec_max(S::spec_zero()).val() >= 0real);
    }
}

} // verus!
