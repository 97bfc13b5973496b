//! The learned model as a rollout model for the planners.
//!
//! The encoders need a history of states and actions, which a rollout model does not get
//! with a question: it is kept here, updated with each executed step.
use std::collections::VecDeque;

use vstd::prelude::*;

use crate::control::CtbrCmd;
use crate::dki::{AD, SD};
use crate::gates::copy_vec;
use crate::jepa::SkyJepaLite;
use crate::linalg::Vec3;
use crate::mppi::RolloutModel;
use crate::scalar::{Real, Scalar, Wide};
use crate::state::State;

verus! {

/// The state as the model sees it: position, velocity, rotation row by row, body rate.
pub open spec fn spec_state_to_18<S: Scalar>(s: State<S>) -> [S; SD] {
    let r = s.q.spec_to_rotmat();
    [
        s.x.x, s.x.y, s.x.z,
        s.v.x, s.v.y, s.v.z,
        r.at(0, 0), r.at(0, 1), r.at(0, 2),
        r.at(1, 0), r.at(1, 1), r.at(1, 2),
        r.at(2, 0), r.at(2, 1), r.at(2, 2),
        s.w.x, s.w.y, s.w.z,
    ]
}

pub fn state_to_18<S: Scalar>(s: &State<S>) -> (a: [S; SD])
    ensures
        a == spec_state_to_18(*s),
{
    let r = s.q.to_rotmat();
    [
        s.x.x, s.x.y, s.x.z,
        s.v.x, s.v.y, s.v.z,
        r.rows[0][0], r.rows[0][1], r.rows[0][2],
        r.rows[1][0], r.rows[1][1], r.rows[1][2],
        r.rows[2][0], r.rows[2][1], r.rows[2][2],
        s.w.x, s.w.y, s.w.z,
    ]
}

/// The last `n` entries, `pad` in front of them where there are fewer.
pub open spec fn last_n<A>(s: Seq<A>, n: nat, pad: A) -> Seq<A> {
    Seq::new(
        n,
        |k: int|
            {
                let i = s.len() - n + k;
                if i >= 0 {
                    s[i]
                } else {
                    pad
                }
            },
    )
}

/// At most the last `n` entries.
pub open spec fn kept<A>(s: Seq<A>, n: nat) -> Seq<A> {
    if s.len() > n {
        s.subrange(s.len() - n, s.len() as int)
    } else {
        s
    }
}

fn last_of<A: Copy>(s: &Vec<A>, n: usize, pad: A) -> (r: Vec<A>)
    ensures
        r@ == last_n(s@, n as nat, pad),
{
    let len: usize = s.len();
    let mut r: Vec<A> = Vec::new();
    for k in 0..n
        invariant
            len == s@.len(),
            r@.len() == k,
            forall|p: int| 0 <= p < k ==> #[trigger] r@[p] == last_n(s@, n as nat, pad)[p],
    {
        let left: usize = n - k;
        if left <= len {
            r.push(s[len - left]);
        } else {
            r.push(pad);
        }
    }
    assert(r@ =~= last_n(s@, n as nat, pad));
    r
}

/// The entries of a queue in a vector.
pub fn entries<A: Copy>(d: &VecDeque<A>) -> (r: Vec<A>)
    ensures
        r@ == d@,
{
    let mut r: Vec<A> = Vec::new();
    let n: usize = d.len();
    for i in 0..n
        invariant
            n == d@.len(),
            r@ == d@.take(i as int),
    {
        r.push(d[i]);
        assert(d@.take(i as int).push(d@[i as int]) =~= d@.take(i + 1));
    }
    assert(d@.take(n as int) =~= d@);
    r
}

/// Append an entry and keep the last `n`.
pub fn remember<A>(d: &mut VecDeque<A>, a: A, n: usize)
    ensures
        final(d)@ == kept(old(d)@.push(a), n as nat),
{
    d.push_back(a);
    let ghost all = d@;
    while d.len() > n
        invariant
            d@.len() <= all.len(),
            d@ == all.subrange(all.len() - d@.len(), all.len() as int),
            all.len() > n ==> d@.len() >= n,
            all.len() <= n ==> d@.len() == all.len(),
        decreases d@.len(),
    {
        let _ = d.pop_front();
    }
    assert(d@ =~= kept(all, n as nat));
}

/// What stands before the first executed action while the history is short.
#[derive(Clone, Copy, Debug, PartialEq, Eq, Structural)]
pub enum Padding {
    /// Zeros.
    Zeros,
    /// The oldest executed action; zeros while there is none.
    Oldest,
}

/// Executed states and actions, the most recent last.
pub struct History<S> {
    /// Length of the history that the model wants.
    pub h: usize,
    /// Length of its predictions.
    pub t: usize,
    /// How past actions are padded.
    pub padding: Padding,
    pub states: VecDeque<[S; SD]>,
    pub actions: VecDeque<[S; AD]>,
}

impl<S: Scalar> History<S> {
    /// The lengths make sense.
    pub open spec fn wf(self) -> bool {
        self.h >= 1 && self.h + self.t <= usize::MAX
    }

    /// The action that stands in where none was executed yet.
    pub open spec fn no_action() -> [S; AD] {
        let z = S::spec_zero();
        [z, z, z, z]
    }

    /// `h` states ending at `init`, the oldest repeated where there are too few.
    pub open spec fn spec_build_history(self, init: State<S>) -> Seq<[S; SD]> {
        let all = self.states@.push(spec_state_to_18(init));
        last_n(all, self.h as nat, all[0])
    }

    /// The action that stands before those executed.
    pub open spec fn spec_pad(self) -> [S; AD] {
        if self.padding == Padding::Oldest && self.actions@.len() > 0 {
            self.actions@[0]
        } else {
            Self::no_action()
        }
    }

    /// The `h - 1` actions before the present one, padded in front where fewer were
    /// executed.
    pub open spec fn spec_past_actions(self) -> Seq<[S; AD]> {
        last_n(self.actions@, (self.h - 1) as nat, self.spec_pad())
    }

    /// The past actions and those of the plan, as far as the model predicts.
    pub open spec fn joined(self, seq: Seq<[S; AD]>) -> Seq<[S; AD]> {
        self.spec_past_actions() + seq.take(
            if seq.len() < self.t {
                seq.len() as int
            } else {
                self.t as int
            },
        )
    }

    /// The action window of a plan: the past actions, then the plan, the last action
    /// repeated up to `h + t`.
    pub open spec fn spec_window(self, seq: Seq<[S; AD]>) -> Seq<[S; AD]> {
        let w = self.joined(seq);
        Seq::new(
            (self.h + self.t) as nat,
            |k: int|
                if k < w.len() {
                    w[k]
                } else if w.len() > 0 {
                    w[w.len() - 1]
                } else {
                    Self::no_action()
                },
        )
    }

    /// What an executed step adds to the history, of which `h - 1` entries are kept.
    pub open spec fn spec_observed(
        before: Self,
        after: Self,
        state: State<S>,
        action: [S; AD],
    ) -> bool {
        &&& after.h == before.h
        &&& after.t == before.t
        &&& after.padding == before.padding
        &&& after.states@ == kept(
            before.states@.push(spec_state_to_18(state)),
            (before.h - 1) as nat,
        )
        &&& after.actions@ == kept(before.actions@.push(action), (before.h - 1) as nat)
    }

    /// An empty history, padded with zeros.
    pub fn new(h: usize, t: usize) -> (r: Self)
        ensures
            r.h == h,
            r.t == t,
            r.padding == Padding::Zeros,
            r.states@ == Seq::<[S; SD]>::empty(),
            r.actions@ == Seq::<[S; AD]>::empty(),
    {
        History {
            h,
            t,
            padding: Padding::Zeros,
            states: VecDeque::new(),
            actions: VecDeque::new(),
        }
    }

    /// An empty history, padded with its oldest action.
    pub fn repeating(h: usize, t: usize) -> (r: Self)
        ensures
            r.h == h,
            r.t == t,
            r.padding == Padding::Oldest,
            r.states@ == Seq::<[S; SD]>::empty(),
            r.actions@ == Seq::<[S; AD]>::empty(),
    {
        History {
            h,
            t,
            padding: Padding::Oldest,
            states: VecDeque::new(),
            actions: VecDeque::new(),
        }
    }

    /// Forget everything.
    pub fn reset(&mut self)
        ensures
            final(self).h == old(self).h,
            final(self).t == old(self).t,
            final(self).padding == old(self).padding,
            final(self).states@ == Seq::<[S; SD]>::empty(),
            final(self).actions@ == Seq::<[S; AD]>::empty(),
    {
        self.states.clear();
        self.actions.clear();
    }

    /// The state history that ends at `init`.
    pub fn build_history(&self, init: &State<S>) -> (r: Vec<[S; SD]>)
        requires
            self.wf(),
        ensures
            r@ == self.spec_build_history(*init),
    {
        let cur = state_to_18(init);
        let mut all = entries(&self.states);
        all.push(cur);
        last_of(&all, self.h, all[0])
    }

    /// The actions before the present one.
    pub fn past_actions(&self) -> (r: Vec<[S; AD]>)
        requires
            self.wf(),
        ensures
            r@ == self.spec_past_actions(),
    {
        let z = S::zero();
        let executed = entries(&self.actions);
        let pad = if self.padding == Padding::Oldest && executed.len() > 0 {
            executed[0]
        } else {
            [z, z, z, z]
        };
        last_of(&executed, self.h - 1, pad)
    }

    /// The action window of a plan.
    pub fn window(&self, seq: &Vec<[S; AD]>) -> (r: Vec<[S; AD]>)
        requires
            self.wf(),
        ensures
            r@ == self.spec_window(seq@),
    {
        let n: usize = if seq.len() < self.t {
            seq.len()
        } else {
            self.t
        };
        let mut w = self.past_actions();
        let ghost past = w@;
        for k in 0..n
            invariant
                n <= seq@.len(),
                past.len() == self.h - 1,
                w@ == past + seq@.take(k as int),
        {
            w.push(seq[k]);
            assert(past + seq@.take(k + 1) =~= (past + seq@.take(k as int)).push(
                seq@[k as int],
            ));
        }
        let ghost all = w@;
        assert(all == self.joined(seq@));
        let z = S::zero();
        let last = if w.len() > 0 {
            w[w.len() - 1]
        } else {
            [z, z, z, z]
        };
        let full: usize = self.h + self.t;
        while w.len() < full
            invariant
                full == self.h + self.t,
                all.len() <= w@.len() <= full,
                forall|k: int|
                    0 <= k < w@.len() ==> #[trigger] w@[k] == if k < all.len() {
                        all[k]
                    } else {
                        last
                    },
            decreases full - w@.len(),
        {
            w.push(last);
        }
        assert(w@ =~= self.spec_window(seq@));
        w
    }

    /// Record an executed step.
    pub fn observe(&mut self, state: &State<S>, action: [S; AD])
        requires
            old(self).h >= 1,
        ensures
            Self::spec_observed(*old(self), *final(self), *state, action),
    {
        let n: usize = self.h - 1;
        remember(&mut self.states, state_to_18(state), n);
        remember(&mut self.actions, action, n);
    }
}

/// The history never grows beyond what the model asks for.
pub proof fn law_history_bounded<S: Scalar>(
    before: History<S>,
    after: History<S>,
    state: State<S>,
    action: [S; AD],
)
    requires
        before.h >= 1,
        History::spec_observed(before, after, state, action),
    ensures
        after.states@.len() <= before.h - 1,
        after.actions@.len() <= before.h - 1,
{
}

/// The past actions end with those executed, in their order. Before them stand zeros, or
/// the oldest of them, as the padding says; and zeros in any case while there is none.
pub proof fn law_past_actions<S: Scalar>(hist: History<S>, k: int)
    requires
        hist.wf(),
        0 <= k < hist.h - 1,
    ensures
        hist.spec_past_actions().len() == hist.h - 1,
        ({
            let i = hist.actions@.len() - (hist.h - 1) + k;
            let a = hist.spec_past_actions()[k];
            &&& i >= 0 ==> a == hist.actions@[i]
            &&& i < 0 && hist.padding == Padding::Zeros ==> a == History::<S>::no_action()
            &&& i < 0 && hist.padding == Padding::Oldest && hist.actions@.len() > 0 ==> a
                == hist.actions@[0]
            &&& hist.actions@.len() == 0 ==> a == History::<S>::no_action()
        }),
{
}

/// A history always ends at the present state, and a window starts with the past actions
/// and goes on with the plan.
pub proof fn law_history_ends_now<S: Scalar>(hist: History<S>, init: State<S>, seq: Seq<[S; AD]>)
    requires
        hist.wf(),
    ensures
        hist.spec_build_history(init).len() == hist.h,
        hist.spec_build_history(init).last() == spec_state_to_18(init),
        hist.spec_window(seq).len() == hist.h + hist.t,
        forall|k: int|
            0 <= k < seq.len() && k < hist.t ==> #[trigger] hist.spec_window(seq)[hist.h - 1 + k]
                == seq[k],
{
    assert forall|k: int| 0 <= k < seq.len() && k < hist.t implies #[trigger] hist.spec_window(
        seq,
    )[hist.h - 1 + k] == seq[k] by {
        assert(hist.joined(seq)[hist.h - 1 + k] == seq[k]);
    }
}

// ---------------------------------------------------------------------------
// The rollout model
// ---------------------------------------------------------------------------
pub struct JepaRollout<S: Wide> {
    pub model: SkyJepaLite<S>,
    pub history: History<S>,
}

/// The body rate in a state, its magnitude.
pub open spec fn spec_rate<S: Real>(x: Seq<S>) -> S {
    (x[15] * x[15] + x[16] * x[16] + x[17] * x[17]).spec_sqrt()
}

/// The first `n` entries, the last one repeated where there are fewer; `start` where there
/// is not even one.
pub open spec fn held<A>(s: Seq<A>, start: A, n: nat) -> Seq<A> {
    Seq::new(
        n,
        |k: int|
            if k < s.len() {
                s[k]
            } else if s.len() > 0 {
                s[s.len() - 1]
            } else {
                start
            },
    )
}

/// Hold the last entry up to a length of `n`.
pub fn hold<A: Copy>(s: &Vec<A>, start: A, n: usize) -> (r: Vec<A>)
    ensures
        r@ == held(s@, start, n as nat),
{
    let mut last = start;
    let mut r: Vec<A> = Vec::new();
    for k in 0..n
        invariant
            r@.len() == k,
            last == if k == 0 || s@.len() == 0 {
                start
            } else if k <= s@.len() {
                s@[k - 1]
            } else {
                s@[s@.len() - 1]
            },
            forall|p: int| 0 <= p < k ==> #[trigger] r@[p] == held(s@, start, n as nat)[p],
    {
        if k < s.len() {
            last = s[k];
        }
        r.push(last);
    }
    assert(r@ =~= held(s@, start, n as nat));
    r
}

impl<S: Wide> JepaRollout<S> {
    /// The model is complete, and the history is made for it.
    pub open spec fn ready(self) -> bool {
        &&& self.model.wf()
        &&& self.history.wf()
        &&& self.history.h == self.model.h
        &&& self.history.t == self.model.t
        &&& self.history.padding == Padding::Oldest
    }

    /// The predicted states under a plan, at most one per action.
    pub open spec fn spec_predicted(self, init: State<S>, seq: Seq<[S; AD]>) -> Seq<Seq<S>> {
        let p = self.model.spec_predict(
            self.history.spec_build_history(init),
            self.history.spec_window(seq),
        );
        p.take(
            if seq.len() < p.len() {
                seq.len() as int
            } else {
                p.len() as int
            },
        )
    }

    /// The predicted positions, one for each action: past what the model predicts, the last
    /// position is held.
    pub open spec fn spec_trajectory(self, init: State<S>, seq: Seq<[S; AD]>) -> Seq<Vec3<S>> {
        held(self.spec_positions(init, seq), init.x, seq.len())
    }

    /// Their positions.
    pub open spec fn spec_positions(self, init: State<S>, seq: Seq<[S; AD]>) -> Seq<Vec3<S>> {
        let p = self.spec_predicted(init, seq);
        Seq::new(p.len(), |k: int| Vec3 { x: p[k][0], y: p[k][1], z: p[k][2] })
    }

    /// Their body rates.
    pub open spec fn spec_rates(self, init: State<S>, seq: Seq<[S; AD]>) -> Seq<S> {
        let p = self.spec_predicted(init, seq);
        Seq::new(p.len(), |k: int| spec_rate(p[k]))
    }

    /// How upright they are: the world z of body z.
    pub open spec fn spec_uprights(self, init: State<S>, seq: Seq<[S; AD]>) -> Seq<S> {
        let p = self.spec_predicted(init, seq);
        Seq::new(p.len(), |k: int| p[k][14])
    }

    /// The latent trust energy of a plan.
    pub open spec fn spec_raw_trust(self, init: State<S>, seq: Seq<[S; AD]>) -> S {
        self.model.spec_trust_energy(
            self.history.spec_build_history(init),
            self.history.spec_window(seq),
        )
    }

    pub fn new(model: SkyJepaLite<S>) -> (r: Self)
        ensures
            r.model == model,
            r.history.h == model.h,
            r.history.t == model.t,
            r.history.padding == Padding::Oldest,
            r.history.states@ == Seq::<[S; SD]>::empty(),
            r.history.actions@ == Seq::<[S; AD]>::empty(),
    {
        let history = History::repeating(model.h, model.t);
        JepaRollout { model, history }
    }

    /// Clear the observed history, so that a fresh race is not misled by a stale one.
    pub fn reset(&mut self)
        ensures
            final(self).model == old(self).model,
            final(self).history.h == old(self).history.h,
            final(self).history.t == old(self).history.t,
            final(self).history.padding == old(self).history.padding,
            final(self).history.states@ == Seq::<[S; SD]>::empty(),
            final(self).history.actions@ == Seq::<[S; AD]>::empty(),
    {
        self.history.reset();
    }

    /// Whether the model takes rotor forces.
    pub fn is_rotor_force(&self) -> (r: bool)
        ensures
            r == !self.model.action_mode_ctbr,
    {
        !self.model.action_mode_ctbr
    }

    /// Predicted states, cut to the lengths of the plans, and trust energies.
    fn predict_raw(&self, init: &State<S>, seqs: &[Vec<[S; AD]>]) -> (r: (
        Vec<Vec<[S; SD]>>,
        Vec<S>,
    ))
        requires
            self.ready(),
        ensures
            r.0@.len() == seqs@.len(),
            r.1@.len() == seqs@.len(),
            forall|i: int|
                0 <= i < seqs@.len() ==> crate::dense::rows((#[trigger] r.0@[i])@)
                    == self.spec_predicted(*init, seqs@[i]@),
            forall|i: int|
                0 <= i < seqs@.len() ==> #[trigger] r.1@[i] == self.spec_raw_trust(
                    *init,
                    seqs@[i]@,
                ),
    {
        let n: usize = seqs.len();
        let hist = self.history.build_history(init);
        let mut sh: Vec<Vec<[S; SD]>> = Vec::new();
        let mut aw: Vec<Vec<[S; AD]>> = Vec::new();
        for i in 0..n
            invariant
                n == seqs@.len(),
                self.ready(),
                hist@ == self.history.spec_build_history(*init),
                sh@.len() == i,
                aw@.len() == i,
                forall|p: int| 0 <= p < i ==> (#[trigger] sh@[p])@ == hist@,
                forall|p: int|
                    0 <= p < i ==> (#[trigger] aw@[p])@ == self.history.spec_window(seqs@[p]@),
        {
            sh.push(copy_vec(&hist));
            aw.push(self.history.window(&seqs[i]));
        }
        proof {
            assert forall|i: int| 0 <= i < sh@.len() implies self.model.covers(
                (#[trigger] sh@[i])@,
                aw@[i]@,
            ) by {
                assert(aw@[i]@ == self.history.spec_window(seqs@[i]@));
            }
        }
        let (preds, trust) = self.model.predict_batch_trust(sh.as_slice(), aw.as_slice());
        proof {
            assert forall|i: int| 0 <= i < n implies #[trigger] trust@[i] == self.spec_raw_trust(
                *init,
                seqs@[i]@,
            ) by {
                assert(sh@[i]@ == hist@);
                assert(aw@[i]@ == self.history.spec_window(seqs@[i]@));
            }
        }
        let mut out: Vec<Vec<[S; SD]>> = Vec::new();
        for i in 0..n
            invariant
                n == seqs@.len(),
                preds@.len() == n,
                sh@.len() == n,
                aw@.len() == n,
                hist@ == self.history.spec_build_history(*init),
                forall|p: int| 0 <= p < n ==> (#[trigger] sh@[p])@ == hist@,
                forall|p: int|
                    0 <= p < n ==> (#[trigger] aw@[p])@ == self.history.spec_window(seqs@[p]@),
                forall|p: int|
                    0 <= p < n ==> crate::dense::rows((#[trigger] preds@[p])@)
                        == self.model.spec_predict(sh@[p]@, aw@[p]@),
                out@.len() == i,
                forall|p: int|
                    0 <= p < i ==> crate::dense::rows((#[trigger] out@[p])@)
                        == self.spec_predicted(*init, seqs@[p]@),
        {
            let ghost full = self.model.spec_predict(
                self.history.spec_build_history(*init),
                self.history.spec_window(seqs@[i as int]@),
            );
            let p = &preds[i];
            proof {
                assert(sh@[i as int]@ == hist@);
                assert(aw@[i as int]@ == self.history.spec_window(seqs@[i as int]@));
                assert(crate::dense::rows(p@) == full);
                assert(full.len() == p@.len());
            }
            let m: usize = if seqs[i].len() < p.len() {
                seqs[i].len()
            } else {
                p.len()
            };
            let mut cut: Vec<[S; SD]> = Vec::new();
            for k in 0..m
                invariant
                    m <= p@.len(),
                    cut@ == p@.take(k as int),
            {
                cut.push(p[k]);
                assert(p@.take(k as int).push(p@[k as int]) =~= p@.take(k + 1));
            }
            assert(crate::dense::rows(cut@) =~~= full.take(m as int));
            out.push(cut);
        }
        (out, trust)
    }

    /// Predicted positions under each plan, and its latent trust energy.
    pub fn rollout_raw_trust(&self, init: &State<S>, seqs: &[Vec<[S; AD]>]) -> (r: (
        Vec<Vec<Vec3<S>>>,
        Vec<S>,
    ))
        requires
            self.ready(),
        ensures
            r.0@.len() == seqs@.len(),
            r.1@.len() == seqs@.len(),
            forall|i: int|
                0 <= i < seqs@.len() ==> (#[trigger] r.0@[i])@ == self.spec_positions(
                    *init,
                    seqs@[i]@,
                ),
            forall|i: int|
                0 <= i < seqs@.len() ==> #[trigger] r.1@[i] == self.spec_raw_trust(
                    *init,
                    seqs@[i]@,
                ),
    {
        let (trajs, _oms, _uprs, trust) = self.rollout_raw_trust_om(init, seqs);
        (trajs, trust)
    }

    /// Predicted positions, body rates and uprightness under each plan, and its latent
    /// trust energy.
    pub fn rollout_raw_trust_om(&self, init: &State<S>, seqs: &[Vec<[S; AD]>]) -> (r: (
        Vec<Vec<Vec3<S>>>,
        Vec<Vec<S>>,
        Vec<Vec<S>>,
        Vec<S>,
    ))
        requires
            self.ready(),
        ensures
            r.0@.len() == seqs@.len(),
            r.1@.len() == seqs@.len(),
            r.2@.len() == seqs@.len(),
            r.3@.len() == seqs@.len(),
            forall|i: int|
                0 <= i < seqs@.len() ==> (#[trigger] r.0@[i])@ == self.spec_positions(
                    *init,
                    seqs@[i]@,
                ),
            forall|i: int|
                0 <= i < seqs@.len() ==> (#[trigger] r.1@[i])@ == self.spec_rates(
                    *init,
                    seqs@[i]@,
                ),
            forall|i: int|
                0 <= i < seqs@.len() ==> (#[trigger] r.2@[i])@ == self.spec_uprights(
                    *init,
                    seqs@[i]@,
                ),
            forall|i: int|
                0 <= i < seqs@.len() ==> #[trigger] r.3@[i] == self.spec_raw_trust(
                    *init,
                    seqs@[i]@,
                ),
    {
        let n: usize = seqs.len();
        let (preds, trust) = self.predict_raw(init, seqs);
        let mut trajs: Vec<Vec<Vec3<S>>> = Vec::new();
        let mut oms: Vec<Vec<S>> = Vec::new();
        let mut uprs: Vec<Vec<S>> = Vec::new();
        for i in 0..n
            invariant
                n == seqs@.len(),
                preds@.len() == n,
                forall|p: int|
                    0 <= p < n ==> crate::dense::rows((#[trigger] preds@[p])@)
                        == self.spec_predicted(*init, seqs@[p]@),
                trajs@.len() == i,
                oms@.len() == i,
                uprs@.len() == i,
                forall|p: int|
                    0 <= p < i ==> (#[trigger] trajs@[p])@ == self.spec_positions(
                        *init,
                        seqs@[p]@,
                    ),
                forall|p: int|
                    0 <= p < i ==> (#[trigger] oms@[p])@ == self.spec_rates(*init, seqs@[p]@),
                forall|p: int|
                    0 <= p < i ==> (#[trigger] uprs@[p])@ == self.spec_uprights(
                        *init,
                        seqs@[p]@,
                    ),
        {
            let traj = &preds[i];
            let ghost g = self.spec_predicted(*init, seqs@[i as int]@);
            assert(crate::dense::rows(traj@) == g);
            let m: usize = traj.len();
            assert(g.len() == m);
            let mut pos: Vec<Vec3<S>> = Vec::new();
            let mut om: Vec<S> = Vec::new();
            let mut upr: Vec<S> = Vec::new();
            for k in 0..m
                invariant
                    m == traj@.len(),
                    g == crate::dense::rows(traj@),
                    pos@.len() == k,
                    om@.len() == k,
                    upr@.len() == k,
                    forall|q: int|
                        0 <= q < k ==> #[trigger] pos@[q] == (Vec3 {
                            x: g[q][0],
                            y: g[q][1],
                            z: g[q][2],
                        }),
                    forall|q: int| 0 <= q < k ==> #[trigger] om@[q] == spec_rate(g[q]),
                    forall|q: int| 0 <= q < k ==> #[trigger] upr@[q] == g[q][14],
            {
                let x = traj[k];
                assert(g[k as int] == x@);
                pos.push(Vec3::new(x[0], x[1], x[2]));
                om.push(x[15].mul(x[15]).add(x[16].mul(x[16])).add(x[17].mul(x[17])).sqrt());
                upr.push(x[14]);
            }
            assert(pos@ =~= self.spec_positions(*init, seqs@[i as int]@));
            assert(om@ =~= self.spec_rates(*init, seqs@[i as int]@));
            assert(upr@ =~= self.spec_uprights(*init, seqs@[i as int]@));
            trajs.push(pos);
            oms.push(om);
            uprs.push(upr);
        }
        (trajs, oms, uprs, trust)
    }

    /// Record an executed action.
    pub fn observe_raw(&mut self, state: &State<S>, action: [S; AD])
        requires
            old(self).history.h >= 1,
        ensures
            final(self).model == old(self).model,
            History::spec_observed(old(self).history, final(self).history, *state, action),
    {
        self.history.observe(state, action);
    }
}

impl<S: Wide> RolloutModel<S> for JepaRollout<S> {
    open spec fn wf(&self) -> bool {
        self.ready()
    }

    open spec fn spec_rollout(&self, init: State<S>, actions: Seq<CtbrCmd<S>>, dt: S) -> Seq<
        Vec3<S>,
    > {
        self.spec_trajectory(init, crate::mppi::as_arrays(actions))
    }

    open spec fn spec_trust(&self, init: State<S>, actions: Seq<CtbrCmd<S>>, dt: S) -> S {
        self.spec_raw_trust(init, crate::mppi::as_arrays(actions))
    }

    open spec fn spec_observed(
        before: Self,
        after: Self,
        state: State<S>,
        action: CtbrCmd<S>,
    ) -> bool {
        &&& after.model == before.model
        &&& History::spec_observed(
            before.history,
            after.history,
            state,
            action.spec_to_array(),
        )
    }

    fn rollout(&self, init: &State<S>, actions: &[CtbrCmd<S>], dt: S, out: &mut Vec<Vec3<S>>) {
        let mut seq: Vec<CtbrCmd<S>> = Vec::new();
        for k in 0..actions.len()
            invariant
                seq@ == actions@.take(k as int),
        {
            seq.push(actions[k]);
            assert(actions@.take(k as int).push(actions@[k as int]) =~= actions@.take(k + 1));
        }
        assert(actions@.take(actions@.len() as int) =~= actions@);
        let mut seqs: Vec<Vec<CtbrCmd<S>>> = Vec::new();
        seqs.push(seq);
        let trajs = self.rollout_batch(init, seqs.as_slice(), dt);
        *out = copy_vec(&trajs[0]);
    }

    fn rollout_batch(&self, init: &State<S>, seqs: &[Vec<CtbrCmd<S>>], dt: S) -> (r: Vec<
        Vec<Vec3<S>>,
    >) {
        let (trajs, _trust) = self.rollout_batch_trust(init, seqs, dt);
        trajs
    }

    fn rollout_batch_trust(&self, init: &State<S>, seqs: &[Vec<CtbrCmd<S>>], _dt: S) -> (r: (
        Vec<Vec<Vec3<S>>>,
        Vec<S>,
    )) {
        let n: usize = seqs.len();
        let mut raw: Vec<Vec<[S; AD]>> = Vec::new();
        for i in 0..n
            invariant
                n == seqs@.len(),
                raw@.len() == i,
                forall|p: int|
                    0 <= p < i ==> (#[trigger] raw@[p])@ == crate::mppi::as_arrays(seqs@[p]@),
        {
            raw.push(crate::mppi::to_arrays(&seqs[i]));
        }
        let (preds, trust) = self.rollout_raw_trust(init, raw.as_slice());
        let mut trajs: Vec<Vec<Vec3<S>>> = Vec::new();
        for i in 0..n
            invariant
                n == seqs@.len(),
                raw@.len() == n,
                preds@.len() == n,
                forall|p: int|
                    0 <= p < n ==> (#[trigger] raw@[p])@ == crate::mppi::as_arrays(seqs@[p]@),
                forall|p: int|
                    0 <= p < n ==> (#[trigger] preds@[p])@ == self.spec_positions(
                        *init,
                        raw@[p]@,
                    ),
                trajs@.len() == i,
                forall|p: int|
                    0 <= p < i ==> (#[trigger] trajs@[p])@ == self.spec_trajectory(
                        *init,
                        crate::mppi::as_arrays(seqs@[p]@),
                    ),
        {
            assert(raw@[i as int]@ == crate::mppi::as_arrays(seqs@[i as int]@));
            trajs.push(hold(&preds[i], init.x, seqs[i].len()));
        }
        proof {
            assert forall|i: int| 0 <= i < n implies #[trigger] trust@[i] == self.spec_raw_trust(
                *init,
                crate::mppi::as_arrays(seqs@[i]@),
            ) by {
                assert(raw@[i]@ == crate::mppi::as_arrays(seqs@[i]@));
            }
        }
        (trajs, trust)
    }

    fn observe(&mut self, state: &State<S>, action: &CtbrCmd<S>) {
        self.observe_raw(state, action.to_array());
    }
}

/// Positions, body rates and uprightness are given for as many steps as the plan has
/// actions and the model predicts.
pub proof fn law_prediction_lengths<S: Wide>(r: JepaRollout<S>, init: State<S>, seq: Seq<[S; AD]>)
    requires
        r.ready(),
    ensures
        ({
            let n = if seq.len() < r.history.t {
                seq.len()
            } else {
                r.history.t as nat
            };
            &&& r.spec_positions(init, seq).len() == n
            &&& r.spec_rates(init, seq).len() == n
            &&& r.spec_uprights(init, seq).len() == n
        }),
{
}

/// Predicted body rates are magnitudes: never negative.
pub proof fn law_rates_not_negative<S: Wide>(
    r: JepaRollout<S>,
    init: State<S>,
    seq: Seq<[S; AD]>,
    k: int,
)
    requires
        crate::scalar::exact::<S>(),
        0 <= k < r.spec_rates(init, seq).len(),
    ensures
        r.spec_rates(init, seq)[k].val() >= 0real,
{
    let x = r.spec_predicted(init, seq)[k];
    crate::linalg::lemma_square_sign(x[15].val());
    crate::linalg::lemma_square_sign(x[16].val());
    crate::linalg::lemma_square_sign(x[17].val());
    assert((x[15] * x[15] + x[16] * x[16] + x[17] * x[17]).val() >= 0real);
}

/// Actions past the horizon of the model have no effect: a plan predicts what its first `t`
/// actions predict, at the same trust energy.
pub proof fn law_later_actions_do_nothing<S: Wide>(
    r: JepaRollout<S>,
    init: State<S>,
    seq: Seq<[S; AD]>,
)
    requires
        r.ready(),
        seq.len() >= r.history.t,
    ensures
        ({
            let first = seq.take(r.history.t as int);
            &&& r.spec_predicted(init, seq) == r.spec_predicted(init, first)
            &&& r.spec_predicted(init, seq).len() == r.history.t
            &&& r.spec_positions(init, seq) == r.spec_positions(init, first)
            &&& r.spec_rates(init, seq) == r.spec_rates(init, first)
            &&& r.spec_uprights(init, seq) == r.spec_uprights(init, first)
            &&& r.spec_raw_trust(init, seq) == r.spec_raw_trust(init, first)
        }),
{
    let t = r.history.t as int;
    let first = seq.take(t);
    assert(first.take(t) =~= first);
    assert(r.history.joined(first) == r.history.joined(seq));
    assert(r.history.spec_window(first) =~= r.history.spec_window(seq));
}

/// A trajectory has one position for each action. Up to the horizon of the model they are
/// the predicted ones; from there on the last of them is held.
pub proof fn law_one_position_per_action<S: Wide>(
    r: JepaRollout<S>,
    init: State<S>,
    seq: Seq<[S; AD]>,
)
    requires
        r.ready(),
    ensures
        r.spec_trajectory(init, seq).len() == seq.len(),
        forall|k: int|
            0 <= k < seq.len() && k < r.history.t ==> #[trigger] r.spec_trajectory(init, seq)[k]
                == r.spec_positions(init, seq)[k],
        forall|k: int|
            1 <= r.history.t <= k < seq.len() ==> #[trigger] r.spec_trajectory(init, seq)[k]
                == r.spec_positions(init, seq)[r.history.t - 1],
{
}

} // verus!
