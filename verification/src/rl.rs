//! Inference of the trained racing policy. Unlike the planners it is reactive: one small
//! network maps the observation straight to an action.
//!
//! The observation is what the training environment ([`crate::rl_env`]) hands out:
//! `[velocity / 5 (3), rotation row by row (9), body rate / 5 (3), next gate / 5 (3), the
//! one after / 5 (3)]`, the gates relative to the drone. An action in `[-1, 1]^4` asks for
//! the thrust `hover * (1 + a0)` and the body rates `10 a1`, `10 a2`, `10 a3`.
use vstd::prelude::*;

use crate::blob::{read_records, read_u32, Table};
use crate::control::CtbrCmd;
use crate::gates::{copy_vec, Course, Gate};
use crate::linalg::Vec3;
use crate::mppi::Controller;
use crate::nn::{affine, gelu_all};
use crate::params::{gravity, NUM_ROTORS};
use crate::scalar::{clip, Real, Wide};
use crate::state::State;

verus! {

/// The length of an observation.
pub const OBS_DIM: usize = 21;

/// The length of an action.
pub const ACT_DIM: usize = 4;

/// The centre of the next gate; the drone itself where none is left.
pub open spec fn spec_next_gate<S: Real>(x: Vec3<S>, gates: Seq<Gate<S>>, next: int) -> Vec3<S> {
    if next < gates.len() {
        gates[next].center
    } else {
        x
    }
}

/// The centre of the one after that; the same one where there is none.
pub open spec fn spec_gate_after<S: Real>(x: Vec3<S>, gates: Seq<Gate<S>>, next: int) -> Vec3<S> {
    if next + 1 < gates.len() {
        gates[next + 1].center
    } else {
        spec_next_gate(x, gates, next)
    }
}

/// A fifth of `x`, in single precision.
pub open spec fn fifth<S: Wide>(x: S) -> S::Narrow {
    (x * (S::spec_one() / S::spec_splat(5, 1))).spec_narrow()
}

/// What the policy sees: nothing of it changes when drone and gates are moved together.
pub open spec fn spec_observation<S: Wide>(s: State<S>, gates: Seq<Gate<S>>, next: int) -> Seq<
    S::Narrow,
> {
    let r = s.q.spec_to_rotmat();
    let a = spec_next_gate(s.x, gates, next) - s.x;
    let b = spec_gate_after(s.x, gates, next) - s.x;
    seq![
        fifth(s.v.x), fifth(s.v.y), fifth(s.v.z),
        r.at(0, 0).spec_narrow(), r.at(0, 1).spec_narrow(), r.at(0, 2).spec_narrow(),
        r.at(1, 0).spec_narrow(), r.at(1, 1).spec_narrow(), r.at(1, 2).spec_narrow(),
        r.at(2, 0).spec_narrow(), r.at(2, 1).spec_narrow(), r.at(2, 2).spec_narrow(),
        fifth(s.w.x), fifth(s.w.y), fifth(s.w.z),
        fifth(a.x), fifth(a.y), fifth(a.z),
        fifth(b.x), fifth(b.y), fifth(b.z),
    ]
}

/// The observation in this state, on the way to gate `next`.
pub fn observation<S: Wide>(s: &State<S>, gates: &Vec<Gate<S>>, next: usize) -> (r: Vec<S::Narrow>)
    ensures
        r@ == spec_observation(*s, gates@, next as int),
{
    let n: usize = gates.len();
    let r = s.q.to_rotmat();
    let g1 = if next < n {
        gates[next].center
    } else {
        s.x
    };
    let g2 = if next < n && next + 1 < n {
        gates[next + 1].center
    } else {
        g1
    };
    let a = g1.sub(s.x);
    let b = g2.sub(s.x);
    let vs = S::one().div(S::splat(5, 1));
    let mut o: Vec<S::Narrow> = Vec::new();
    o.push(s.v.x.mul(vs).narrow());
    o.push(s.v.y.mul(vs).narrow());
    o.push(s.v.z.mul(vs).narrow());
    o.push(r.rows[0][0].narrow());
    o.push(r.rows[0][1].narrow());
    o.push(r.rows[0][2].narrow());
    o.push(r.rows[1][0].narrow());
    o.push(r.rows[1][1].narrow());
    o.push(r.rows[1][2].narrow());
    o.push(r.rows[2][0].narrow());
    o.push(r.rows[2][1].narrow());
    o.push(r.rows[2][2].narrow());
    o.push(s.w.x.mul(vs).narrow());
    o.push(s.w.y.mul(vs).narrow());
    o.push(s.w.z.mul(vs).narrow());
    o.push(a.x.mul(vs).narrow());
    o.push(a.y.mul(vs).narrow());
    o.push(a.z.mul(vs).narrow());
    o.push(b.x.mul(vs).narrow());
    o.push(b.y.mul(vs).narrow());
    o.push(b.z.mul(vs).narrow());
    assert(o@ =~= spec_observation(*s, gates@, next as int));
    o
}

// ---------------------------------------------------------------------------
// From numbers in [-1, 1] to commands
// ---------------------------------------------------------------------------
/// The share of the hover thrust that an action number asks for: `1 + a` within `[0, 3]`.
pub open spec fn share<S: Wide>(a: S::Narrow) -> S {
    crate::scalar::spec_clip(
        S::spec_one() + S::spec_widen(a),
        S::spec_zero(),
        S::spec_splat(3, 1),
    )
}

fn share_of<S: Wide>(a: S::Narrow) -> (r: S)
    ensures
        r == share::<S>(a),
{
    clip(S::one().add(S::widen(a)), S::zero(), S::splat(3, 1))
}

/// Thrust and body rates that an action asks for.
pub open spec fn spec_ctbr_of<S: Wide>(a: Seq<S::Narrow>, hover: S) -> CtbrCmd<S> {
    let rate = S::spec_splat(10, 1);
    CtbrCmd {
        thrust: hover * share::<S>(a[0]),
        w_cmd: Vec3 {
            x: S::spec_widen(a[1]) * rate,
            y: S::spec_widen(a[2]) * rate,
            z: S::spec_widen(a[3]) * rate,
        },
    }
}

/// Read an action as thrust and body rates.
pub fn ctbr_of<S: Wide>(a: &[S::Narrow], hover: S) -> (r: CtbrCmd<S>)
    requires
        a@.len() >= 4,
    ensures
        r == spec_ctbr_of(a@, hover),
{
    let rate = S::splat(10, 1);
    CtbrCmd {
        thrust: hover.mul(share_of::<S>(a[0])),
        w_cmd: Vec3::new(
            S::widen(a[1]).mul(rate),
            S::widen(a[2]).mul(rate),
            S::widen(a[3]).mul(rate),
        ),
    }
}

/// The force of one rotor that an action number asks for, at most `f_max`.
pub open spec fn force_at<S: Wide>(a: S::Narrow, hover: S, f_max: S) -> S {
    (hover / S::spec_splat(4, 1) * share::<S>(a)).spec_min(f_max)
}

/// Rotor forces that an action asks for.
pub open spec fn spec_forces_of<S: Wide>(a: Seq<S::Narrow>, hover: S, f_max: S) -> [S; NUM_ROTORS] {
    [
        force_at(a[0], hover, f_max),
        force_at(a[1], hover, f_max),
        force_at(a[2], hover, f_max),
        force_at(a[3], hover, f_max),
    ]
}

/// Read an action as rotor forces about hover.
pub fn forces_of<S: Wide>(a: &[S::Narrow], hover: S, f_max: S) -> (r: [S; NUM_ROTORS])
    requires
        a@.len() >= 4,
    ensures
        r == spec_forces_of(a@, hover, f_max),
{
    let per = hover.div(S::splat(4, 1));
    [
        per.mul(share_of::<S>(a[0])).min(f_max),
        per.mul(share_of::<S>(a[1])).min(f_max),
        per.mul(share_of::<S>(a[2])).min(f_max),
        per.mul(share_of::<S>(a[3])).min(f_max),
    ]
}

// ---------------------------------------------------------------------------
// The policy
// ---------------------------------------------------------------------------
/// A network with two hidden layers.
pub struct RlPolicy<S: Wide> {
    pub obs_dim: usize,
    pub hidden: usize,
    pub act_dim: usize,
    pub w0: Vec<S::Narrow>,
    pub b0: Vec<S::Narrow>,
    pub w2: Vec<S::Narrow>,
    pub b2: Vec<S::Narrow>,
    pub wm: Vec<S::Narrow>,
    pub bm: Vec<S::Narrow>,
    pub hover_thrust: S,
    /// Ceiling of the force of one rotor.
    pub f_max: S,
}

/// The head of a policy file is there: a magic word and four numbers.
pub open spec fn head_ok(b: Seq<u8>) -> bool {
    b.len() >= 21 && b.subrange(0, 5) == seq![82u8, 76u8, 66u8, 49u8, 10u8]
}

/// The tensors of a policy file.
pub open spec fn spec_policy_weights<S: Wide>(b: Seq<u8>) -> Option<
    Map<Seq<char>, crate::blob::Tensor<S::Narrow>>,
> {
    if !head_ok(b) {
        None
    } else {
        match crate::blob::spec_records::<S>(b, 21, crate::blob::le32(b, 17) as nat) {
            None => None,
            Some((m, _)) => Some(m),
        }
    }
}

/// The policy file can be read, and holds the six weight tensors.
pub open spec fn policy_blob_ok<S: Wide>(b: Seq<u8>) -> bool {
    match spec_policy_weights::<S>(b) {
        None => false,
        Some(w) => {
            &&& w.dom().contains("encoder.0.weight"@)
            &&& w.dom().contains("encoder.0.bias"@)
            &&& w.dom().contains("encoder.2.weight"@)
            &&& w.dom().contains("encoder.2.bias"@)
            &&& w.dom().contains("decoder_mean.weight"@)
            &&& w.dom().contains("decoder_mean.bias"@)
        },
    }
}

fn entries_of<N: Copy>(w: &Table<N>, name: &str) -> (r: Option<Vec<N>>)
    ensures
        match r {
            None => !w@.dom().contains(name@),
            Some(v) => w@.dom().contains(name@) && v@ == w@[name@].data,
        },
{
    match w.get(&name.to_owned()) {
        None => None,
        Some(a) => Some(copy_vec(&a.data)),
    }
}

impl<S: Wide> RlPolicy<S> {
    /// This is the policy that the file holds, for a drone of this mass.
    pub open spec fn is_of(self, b: Seq<u8>, mass: S) -> bool {
        let w = spec_policy_weights::<S>(b)->0;
        &&& self.obs_dim == crate::blob::le32(b, 5)
        &&& self.hidden == crate::blob::le32(b, 9)
        &&& self.act_dim == crate::blob::le32(b, 13)
        &&& self.w0@ == w["encoder.0.weight"@].data
        &&& self.b0@ == w["encoder.0.bias"@].data
        &&& self.w2@ == w["encoder.2.weight"@].data
        &&& self.b2@ == w["encoder.2.bias"@].data
        &&& self.wm@ == w["decoder_mean.weight"@].data
        &&& self.bm@ == w["decoder_mean.bias"@].data
        &&& self.hover_thrust == mass * crate::params::spec_gravity::<S>()
        &&& self.f_max == S::spec_infinity()
    }

    /// The layers are complete, read no more than an observation holds, and give an action.
    pub open spec fn wf(self) -> bool {
        &&& self.obs_dim <= OBS_DIM
        &&& self.act_dim >= ACT_DIM
        &&& self.hidden * self.obs_dim <= self.w0@.len()
        &&& self.hidden <= self.b0@.len()
        &&& self.hidden * self.hidden <= self.w2@.len()
        &&& self.hidden <= self.b2@.len()
        &&& self.act_dim * self.hidden <= self.wm@.len()
        &&& self.act_dim <= self.bm@.len()
    }

    /// What the network answers to an observation.
    pub open spec fn spec_forward(self, obs: Seq<S::Narrow>) -> Seq<S::Narrow> {
        let (n, h, m) = (self.obs_dim as nat, self.hidden as nat, self.act_dim as nat);
        let h1 = crate::nn::spec_gelu_all::<S>(
            crate::nn::spec_affine(self.w0@, self.b0@, obs, h, n),
        );
        let h2 = crate::nn::spec_gelu_all::<S>(
            crate::nn::spec_affine(self.w2@, self.b2@, h1, h, h),
        );
        crate::nn::spec_affine(self.wm@, self.bm@, h2, m, h)
    }

    /// The network's answer in this state on this course.
    pub open spec fn spec_answer(self, state: State<S>, course: Course<S>) -> Seq<S::Narrow> {
        self.spec_forward(spec_observation(state, course.gates@, course.next as int))
    }

    /// Read a policy file; `None` where it is malformed or lacks a tensor.
    pub fn parse(b: &[u8], mass: S) -> (r: Option<Self>)
        ensures
            r is Some <==> policy_blob_ok::<S>(b@),
            r matches Some(p) ==> p.is_of(b@, mass),
    {
        assert(b.len() == b@.len());
        if b.len() < 21 {
            return None;
        }
        let magic = b[0] == 82 && b[1] == 76 && b[2] == 66 && b[3] == 49 && b[4] == 10;
        proof {
            let m = seq![82u8, 76u8, 66u8, 49u8, 10u8];
            if magic {
                assert(b@.subrange(0, 5) =~= m);
            } else if b@.subrange(0, 5) == m {
                assert(forall|i: int| 0 <= i < 5 ==> #[trigger] b@[i] == b@.subrange(0, 5)[i]);
                assert(false);
            }
        }
        if !magic {
            return None;
        }
        let obs_dim: usize = read_u32(b, 5) as usize;
        let hidden: usize = read_u32(b, 9) as usize;
        let act_dim: usize = read_u32(b, 13) as usize;
        let n: u32 = read_u32(b, 17);
        let w = match read_records::<S>(b, 21, n) {
            None => {
                return None;
            },
            Some(w) => w,
        };
        let w0 = entries_of(&w, "encoder.0.weight");
        let b0 = entries_of(&w, "encoder.0.bias");
        let w2 = entries_of(&w, "encoder.2.weight");
        let b2 = entries_of(&w, "encoder.2.bias");
        let wm = entries_of(&w, "decoder_mean.weight");
        let bm = entries_of(&w, "decoder_mean.bias");
        match (w0, b0, w2, b2, wm, bm) {
            (Some(w0), Some(b0), Some(w2), Some(b2), Some(wm), Some(bm)) => Some(
                RlPolicy {
                    obs_dim,
                    hidden,
                    act_dim,
                    w0,
                    b0,
                    w2,
                    b2,
                    wm,
                    bm,
                    hover_thrust: mass.mul(gravity::<S>()),
                    f_max: S::infinity(),
                },
            ),
            _ => None,
        }
    }

    /// Read a policy file that is known to be well formed. `mass` sets the hover thrust.
    pub fn from_blob(b: &[u8], mass: S) -> (r: Self)
        requires
            policy_blob_ok::<S>(b@),
        ensures
            r.is_of(b@, mass),
    {
        Self::parse(b, mass).unwrap()
    }

    /// Whether the layers are complete, so that the policy can act.
    pub fn complete(&self) -> (r: bool)
        ensures
            r == self.wf(),
    {
        assert(self.w0.len() == self.w0@.len() && self.w2.len() == self.w2@.len()
            && self.wm.len() == self.wm@.len());
        if self.obs_dim > OBS_DIM || self.act_dim < ACT_DIM {
            return false;
        }
        if self.hidden > self.b0.len() || self.hidden > self.b2.len() || self.act_dim
            > self.bm.len() {
            return false;
        }
        let a = match self.hidden.checked_mul(self.obs_dim) {
            None => false,
            Some(n) => n <= self.w0.len(),
        };
        let b = match self.hidden.checked_mul(self.hidden) {
            None => false,
            Some(n) => n <= self.w2.len(),
        };
        let c = match self.act_dim.checked_mul(self.hidden) {
            None => false,
            Some(n) => n <= self.wm.len(),
        };
        a && b && c
    }

    /// A new mass changes the thrust scale.
    pub fn set_mass(&mut self, mass: S)
        ensures
            *final(self) == (RlPolicy {
                hover_thrust: mass * crate::params::spec_gravity::<S>(),
                ..*old(self)
            }),
    {
        self.hover_thrust = mass.mul(gravity::<S>());
    }

    /// Set the ceiling of the force of one rotor.
    pub fn set_f_max(&mut self, f_max: S)
        ensures
            *final(self) == (RlPolicy { f_max, ..*old(self) }),
    {
        self.f_max = f_max;
    }

    /// The network's answer to an observation.
    pub fn forward(&self, obs: &Vec<S::Narrow>) -> (r: Vec<S::Narrow>)
        requires
            self.wf(),
            self.obs_dim <= obs@.len(),
        ensures
            r@ == self.spec_forward(obs@),
            r@.len() == self.act_dim,
    {
        let h1 = gelu_all::<S>(&affine(&self.w0, &self.b0, obs, self.hidden, self.obs_dim));
        let h2 = gelu_all::<S>(&affine(&self.w2, &self.b2, &h1, self.hidden, self.hidden));
        affine(&self.wm, &self.bm, &h2, self.act_dim, self.hidden)
    }

    /// Rotor forces [N]: the same network, its answer read as four forces about hover.
    pub fn act_rotor(&mut self, state: &State<S>, course: &Course<S>) -> (r: [S; NUM_ROTORS])
        requires
            old(self).wf(),
        ensures
            r == spec_forces_of(
                old(self).spec_answer(*state, *course),
                old(self).hover_thrust,
                old(self).f_max,
            ),
            *final(self) == *old(self),
    {
        let obs = observation(state, &course.gates, course.next);
        let a = self.forward(&obs);
        forces_of(a.as_slice(), self.hover_thrust, self.f_max)
    }
}

impl<S: Wide> Controller<S> for RlPolicy<S> {
    open spec fn ready(&self, state: State<S>, course: Course<S>) -> bool {
        self.wf()
    }

    open spec fn spec_act(&self, state: State<S>, course: Course<S>) -> CtbrCmd<S> {
        spec_ctbr_of(self.spec_answer(state, course), self.hover_thrust)
    }

    open spec fn spec_acted(
        before: Self,
        after: Self,
        state: State<S>,
        course: Course<S>,
    ) -> bool {
        after == before
    }

    fn act(&mut self, state: &State<S>, course: &Course<S>) -> (r: CtbrCmd<S>) {
        let obs = observation(state, &course.gates, course.next);
        let a = self.forward(&obs);
        ctbr_of(a.as_slice(), self.hover_thrust)
    }
}

// ---------------------------------------------------------------------------
// Laws
// ---------------------------------------------------------------------------
/// The thrust that a policy asks for lies between nothing and three times hover.
pub proof fn law_share_in_range<S: Wide>(a: S::Narrow)
    requires
        crate::scalar::exact::<S>(),
    ensures
        0real <= share::<S>(a).val() <= 3real,
{
    crate::scalar::lemma_splat_int::<S>(3);
    crate::scalar::law_clip_in_bounds(
        S::spec_one() + S::spec_widen(a),
        S::spec_zero(),
        S::spec_splat(3, 1),
    );
}

/// `s` and every gate moved by `d`.
pub open spec fn moved_gates<S: Real>(gates: Seq<Gate<S>>, d: Vec3<S>) -> Seq<Gate<S>> {
    Seq::new(gates.len(), |i: int| Gate { center: gates[i].center + d, ..gates[i] })
}

/// The observation never depends on the absolute position: without rounding, what it is
/// computed from, the way to the two next gates, stays the same when drone and gates are
/// moved together.
pub proof fn law_observation_translation_invariant<S: Real>(
    x: Vec3<S>,
    gates: Seq<Gate<S>>,
    next: int,
    d: Vec3<S>,
)
    requires
        crate::scalar::exact::<S>(),
        0 <= next,
    ensures
        (spec_next_gate(x + d, moved_gates(gates, d), next) - (x + d)).same(
            spec_next_gate(x, gates, next) - x,
        ),
        (spec_gate_after(x + d, moved_gates(gates, d), next) - (x + d)).same(
            spec_gate_after(x, gates, next) - x,
        ),
{
}

} // verus!
