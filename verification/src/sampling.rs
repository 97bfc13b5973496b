//! What the sampling planners share: temporally correlated noise, softmax weights over
//! the costs of the candidates, and weighted averages.
use vstd::prelude::*;

use crate::rng::Rng;
use crate::scalar::{clip, Real, Scalar};

verus! {

// ---------------------------------------------------------------------------
// Noise
// ---------------------------------------------------------------------------
/// The generator state after `n` normal draws from `s`.
pub open spec fn after_normals(s: u64, n: nat) -> u64
    decreases n,
{
    if n == 0 {
        s
    } else {
        crate::rng::after_normal(after_normals(s, (n - 1) as nat))
    }
}

/// Channel `d` of the AR(1) noise at step `k`: `beta` times its last value plus `smear`
/// times a fresh normal number. Four numbers are drawn per step, in the order of the
/// channels; `s` is the generator state before the first step.
pub open spec fn ar_noise_at<S: Real>(s: u64, beta: S, smear: S, k: nat, d: nat) -> S
    decreases k,
{
    let last = if k == 0 {
        S::spec_zero()
    } else {
        ar_noise_at(s, beta, smear, (k - 1) as nat, d)
    };
    beta * last + smear * crate::rng::spec_normal::<S>(after_normals(s, 4 * k + d))
}

/// The innovation weight that keeps AR(1) noise at unit variance.
pub open spec fn spec_smear<S: Real>(beta: S) -> S {
    (S::spec_one() - beta * beta).spec_sqrt()
}

pub fn smear_of<S: Real>(beta: S) -> (r: S)
    ensures
        r == spec_smear(beta),
{
    S::one().sub(beta.mul(beta)).sqrt()
}

/// Draw `t` steps of four-channel AR(1) noise.
pub fn ar_noise<S: Real>(rng: &mut Rng, beta: S, smear: S, t: usize) -> (r: Vec<[S; 4]>)
    ensures
        r@.len() == t,
        forall|k: int, d: int|
            0 <= k < t && 0 <= d < 4 ==> #[trigger] r@[k][d] == ar_noise_at(
                old(rng)@,
                beta,
                smear,
                k as nat,
                d as nat,
            ),
        final(rng)@ == after_normals(old(rng)@, 4 * t as nat),
{
    let ghost s = rng@;
    let z = S::zero();
    let mut e = [z; 4];
    let mut out: Vec<[S; 4]> = Vec::new();
    for k in 0..t
        invariant
            z == S::spec_zero(),
            out@.len() == k,
            rng@ == after_normals(s, 4 * k as nat),
            forall|d: int|
                0 <= d < 4 ==> #[trigger] e[d] == if k == 0 {
                    S::spec_zero()
                } else {
                    ar_noise_at(s, beta, smear, (k - 1) as nat, d as nat)
                },
            forall|p: int, d: int|
                0 <= p < k && 0 <= d < 4 ==> #[trigger] out@[p][d] == ar_noise_at(
                    s,
                    beta,
                    smear,
                    p as nat,
                    d as nat,
                ),
    {
        for d in 0..4
            invariant
                rng@ == after_normals(s, (4 * k + d) as nat),
                forall|c: int|
                    d <= c < 4 ==> #[trigger] e[c] == if k == 0 {
                        S::spec_zero()
                    } else {
                        ar_noise_at(s, beta, smear, (k - 1) as nat, c as nat)
                    },
                forall|c: int|
                    0 <= c < d ==> #[trigger] e[c] == ar_noise_at(
                        s,
                        beta,
                        smear,
                        k as nat,
                        c as nat,
                    ),
        {
            let n = rng.normal::<S>();
            e[d] = beta.mul(e[d]).add(smear.mul(n));
        }
        out.push(e);
    }
    out
}

/// Draws in two batches are draws in one.
pub proof fn lemma_after_normals_add(s: u64, m: nat, n: nat)
    ensures
        after_normals(after_normals(s, m), n) == after_normals(s, m + n),
    decreases n,
{
    if n > 0 {
        lemma_after_normals_add(s, m, (n - 1) as nat);
    }
}

// ---------------------------------------------------------------------------
// Softmax
// ---------------------------------------------------------------------------
/// The least of the first `n` costs; infinite if there are none.
pub open spec fn least<S: Real>(costs: Seq<S>, n: nat) -> S
    decreases n,
{
    if n == 0 {
        S::spec_infinity()
    } else {
        least(costs, (n - 1) as nat).spec_min(costs[n - 1])
    }
}

/// The weight of cost `c` before it is normalised: `exp(-(c - min) / lambda)`.
pub open spec fn raw_weight<S: Real>(c: S, min: S, lambda: S) -> S {
    ((-(c - min)) / lambda).spec_exp()
}

/// The sum of the first `n` weights.
pub open spec fn weight_sum<S: Real>(costs: Seq<S>, min: S, lambda: S, n: nat) -> S
    decreases n,
{
    if n == 0 {
        S::spec_zero()
    } else {
        weight_sum(costs, min, lambda, (n - 1) as nat) + raw_weight(costs[n - 1], min, lambda)
    }
}

/// `1 / x` for a positive `x`, else 0.
pub open spec fn inverse_or_zero<S: Real>(x: S) -> S {
    if S::spec_zero() < x {
        S::spec_one() / x
    } else {
        S::spec_zero()
    }
}

/// The normalised weights of the candidates: the cheaper, the heavier.
pub open spec fn spec_softmax<S: Real>(costs: Seq<S>, lambda: S) -> Seq<S> {
    let min = least(costs, costs.len());
    let inv = inverse_or_zero(weight_sum(costs, min, lambda, costs.len()));
    Seq::new(costs.len(), |i: int| raw_weight(costs[i], min, lambda) * inv)
}

pub fn softmax<S: Real>(costs: &Vec<S>, lambda: S) -> (r: Vec<S>)
    ensures
        r@ == spec_softmax(costs@, lambda),
{
    let s: usize = costs.len();
    let mut min_c = S::infinity();
    for i in 0..s
        invariant
            s == costs@.len(),
            min_c == least(costs@, i as nat),
    {
        min_c = min_c.min(costs[i]);
    }
    let mut wsum = S::zero();
    let mut weights: Vec<S> = Vec::new();
    for i in 0..s
        invariant
            s == costs@.len(),
            wsum == weight_sum(costs@, min_c, lambda, i as nat),
            weights@.len() == i,
            forall|p: int|
                0 <= p < i ==> #[trigger] weights@[p] == raw_weight(costs@[p], min_c, lambda),
    {
        let w = costs[i].sub(min_c).neg().div(lambda).exp();
        weights.push(w);
        wsum = wsum.add(w);
    }
    let inv = if S::zero().lt(wsum) {
        S::one().div(wsum)
    } else {
        S::zero()
    };
    let mut out: Vec<S> = Vec::new();
    for i in 0..s
        invariant
            s == costs@.len(),
            weights@.len() == s,
            out@.len() == i,
            forall|p: int|
                0 <= p < s ==> #[trigger] weights@[p] == raw_weight(costs@[p], min_c, lambda),
            forall|p: int|
                0 <= p < i ==> #[trigger] out@[p] == raw_weight(costs@[p], min_c, lambda) * inv,
    {
        let w = weights[i];
        out.push(w.mul(inv));
    }
    assert(out@ =~= spec_softmax(costs@, lambda));
    out
}

/// The sum of `w[i] * x[i]` over the first `n` indices.
pub open spec fn weighted_sum<S: Scalar>(w: Seq<S>, x: Seq<S>, n: nat) -> S
    decreases n,
{
    if n == 0 {
        S::spec_zero()
    } else {
        weighted_sum(w, x, (n - 1) as nat) + w[n - 1] * x[n - 1]
    }
}

/// A cost that is not a number, or infinite, becomes a large penalty.
pub open spec fn spec_guard_cost<S: Real>(c: S) -> S {
    if c.spec_is_finite() {
        c
    } else {
        S::spec_splat(1000000000000, 1)
    }
}

/// Keep a blown-up rollout from poisoning the weights of the others.
pub fn guard_cost<S: Real>(c: S) -> (r: S)
    ensures
        r == spec_guard_cost(c),
        S::spec_splat(1000000000000, 1).spec_is_finite() ==> r.spec_is_finite(),
{
    if c.is_finite() {
        c
    } else {
        S::splat(1000000000000, 1)
    }
}

// ---------------------------------------------------------------------------
// Candidate plans
// ---------------------------------------------------------------------------
/// Four action channels: how far the search strays in each, and its limits.
pub struct ActionSpace<S> {
    pub sigma: [S; 4],
    pub lo: [S; 4],
    pub hi: [S; 4],
}

impl<S: Real> ActionSpace<S> {
    /// No lower limit lies above the upper one.
    pub open spec fn wf(self) -> bool {
        &&& self.lo[0] <= self.hi[0]
        &&& self.lo[1] <= self.hi[1]
        &&& self.lo[2] <= self.hi[2]
        &&& self.lo[3] <= self.hi[3]
    }

    /// Channel `d` held within its limits.
    pub open spec fn clip_at(self, x: S, d: int) -> S {
        crate::scalar::spec_clip(x, self.lo[d], self.hi[d])
    }

    /// Each channel held within its limits.
    pub open spec fn spec_clamp(self, a: Seq<S>) -> [S; 4] {
        [
            self.clip_at(a[0], 0),
            self.clip_at(a[1], 1),
            self.clip_at(a[2], 2),
            self.clip_at(a[3], 3),
        ]
    }

    pub fn clamp(&self, a: [S; 4]) -> (r: [S; 4])
        requires
            self.wf(),
        ensures
            r == self.spec_clamp(a@),
    {
        [
            clip(a[0], self.lo[0], self.hi[0]),
            clip(a[1], self.lo[1], self.hi[1]),
            clip(a[2], self.lo[2], self.hi[2]),
            clip(a[3], self.lo[3], self.hi[3]),
        ]
    }

    /// Step `k` of the candidate that is drawn from generator state `s`: the nominal
    /// action strayed from by AR(1) noise, within the limits.
    pub open spec fn candidate_at(self, nominal: Seq<[S; 4]>, s: u64, beta: S, k: int) -> [S; 4] {
        let smear = spec_smear(beta);
        self.spec_clamp(
            seq![
                nominal[k][0] + self.sigma[0] * ar_noise_at(s, beta, smear, k as nat, 0),
                nominal[k][1] + self.sigma[1] * ar_noise_at(s, beta, smear, k as nat, 1),
                nominal[k][2] + self.sigma[2] * ar_noise_at(s, beta, smear, k as nat, 2),
                nominal[k][3] + self.sigma[3] * ar_noise_at(s, beta, smear, k as nat, 3),
            ],
        )
    }

    /// The candidate of `t` steps that is drawn from generator state `s`.
    pub open spec fn candidate(self, nominal: Seq<[S; 4]>, s: u64, beta: S, t: nat) -> Seq<
        [S; 4],
    > {
        Seq::new(t, |k: int| self.candidate_at(nominal, s, beta, k))
    }

    /// `n` candidates drawn one after the other.
    pub open spec fn spec_candidates(
        self,
        nominal: Seq<[S; 4]>,
        s: u64,
        beta: S,
        t: nat,
        n: nat,
    ) -> Seq<Seq<[S; 4]>> {
        Seq::new(n, |i: int| self.candidate(nominal, after_normals(s, 4 * t * i as nat), beta, t))
    }

    /// Step `k` of the plan: the weighted average of the candidates, within the limits.
    pub open spec fn plan_at(self, cands: Seq<Seq<[S; 4]>>, w: Seq<S>, k: int) -> [S; 4] {
        let n = cands.len();
        self.spec_clamp(
            seq![
                weighted_sum(w, channel(cands, k, 0), n),
                weighted_sum(w, channel(cands, k, 1), n),
                weighted_sum(w, channel(cands, k, 2), n),
                weighted_sum(w, channel(cands, k, 3), n),
            ],
        )
    }

    /// The plan of `t` steps.
    pub open spec fn spec_plan(self, cands: Seq<Seq<[S; 4]>>, w: Seq<S>, t: nat) -> Seq<[S; 4]> {
        Seq::new(t, |k: int| self.plan_at(cands, w, k))
    }

    /// Draw one candidate.
    fn draw(&self, rng: &mut Rng, nominal: &Vec<[S; 4]>, beta: S, t: usize) -> (r: Vec<[S; 4]>)
        requires
            self.wf(),
            t <= nominal@.len(),
        ensures
            r@ == self.candidate(nominal@, old(rng)@, beta, t as nat),
            final(rng)@ == after_normals(old(rng)@, 4 * t as nat),
    {
        let ghost s = rng@;
        let smear = smear_of(beta);
        let e = ar_noise(rng, beta, smear, t);
        let mut out: Vec<[S; 4]> = Vec::new();
        for k in 0..t
            invariant
                self.wf(),
                t <= nominal@.len(),
                smear == spec_smear(beta),
                e@.len() == t,
                forall|p: int, d: int|
                    0 <= p < t && 0 <= d < 4 ==> #[trigger] e@[p][d] == ar_noise_at(
                        s,
                        beta,
                        smear,
                        p as nat,
                        d as nat,
                    ),
                out@.len() == k,
                forall|p: int|
                    0 <= p < k ==> #[trigger] out@[p] == self.candidate_at(nominal@, s, beta, p),
        {
            let base = nominal[k];
            let x = e[k];
            let a = [
                base[0].add(self.sigma[0].mul(x[0])),
                base[1].add(self.sigma[1].mul(x[1])),
                base[2].add(self.sigma[2].mul(x[2])),
                base[3].add(self.sigma[3].mul(x[3])),
            ];
            proof {
                let kk = k as nat;
                assert(e@[k as int][0] == ar_noise_at(s, beta, smear, kk, 0));
                assert(e@[k as int][1] == ar_noise_at(s, beta, smear, kk, 1));
                assert(e@[k as int][2] == ar_noise_at(s, beta, smear, kk, 2));
                assert(e@[k as int][3] == ar_noise_at(s, beta, smear, kk, 3));
            }
            out.push(self.clamp(a));
        }
        assert(out@ =~= self.candidate(nominal@, s, beta, t as nat));
        out
    }

    /// Draw `n` candidates of `t` steps about the nominal plan.
    pub fn draw_candidates(
        &self,
        rng: &mut Rng,
        nominal: &Vec<[S; 4]>,
        beta: S,
        t: usize,
        n: usize,
    ) -> (r: Vec<Vec<[S; 4]>>)
        requires
            self.wf(),
            t <= nominal@.len(),
        ensures
            deep(r@) == self.spec_candidates(nominal@, old(rng)@, beta, t as nat, n as nat),
            r@.len() == n,
            forall|i: int| 0 <= i < n ==> (#[trigger] r@[i])@.len() == t,
            final(rng)@ == after_normals(old(rng)@, 4 * t as nat * n as nat),
    {
        let ghost s = rng@;
        let mut out: Vec<Vec<[S; 4]>> = Vec::new();
        assert(4 * t as nat * 0 == 0) by (nonlinear_arith);
        for i in 0..n
            invariant
                self.wf(),
                t <= nominal@.len(),
                rng@ == after_normals(s, 4 * t as nat * i as nat),
                out@.len() == i,
                forall|p: int|
                    0 <= p < i ==> #[trigger] out@[p]@ == self.candidate(
                        nominal@,
                        after_normals(s, 4 * t as nat * p as nat),
                        beta,
                        t as nat,
                    ),
        {
            out.push(self.draw(rng, nominal, beta, t));
            proof {
                lemma_after_normals_add(s, 4 * t as nat * i as nat, 4 * t as nat);
                assert(4 * t as nat * i as nat + 4 * t as nat == 4 * t as nat * (i + 1) as nat)
                    by (nonlinear_arith);
            }
        }
        assert(deep(out@) =~~= self.spec_candidates(nominal@, s, beta, t as nat, n as nat));
        out
    }

    /// Average the candidates into a plan of `t` steps.
    pub fn plan(&self, cands: &Vec<Vec<[S; 4]>>, w: &Vec<S>, t: usize) -> (r: Vec<[S; 4]>)
        requires
            self.wf(),
            w@.len() == cands@.len(),
            forall|i: int| 0 <= i < cands@.len() ==> (#[trigger] cands@[i])@.len() == t,
        ensures
            r@ == self.spec_plan(deep(cands@), w@, t as nat),
    {
        let n: usize = cands.len();
        let ghost cs = deep(cands@);
        let z = S::zero();
        let mut out: Vec<[S; 4]> = Vec::new();
        for k in 0..t
            invariant
                self.wf(),
                z == S::spec_zero(),
                cs == deep(cands@),
                n == cands@.len(),
                w@.len() == cands@.len(),
                forall|i: int| 0 <= i < cands@.len() ==> (#[trigger] cands@[i])@.len() == t,
                out@.len() == k,
                forall|p: int| 0 <= p < k ==> #[trigger] out@[p] == self.plan_at(cs, w@, p),
        {
            let mut acc = [z; 4];
            for i in 0..n
                invariant
                    cs == deep(cands@),
                    n == cands@.len(),
                    w@.len() == cands@.len(),
                    k < t,
                    forall|j: int| 0 <= j < cands@.len() ==> (#[trigger] cands@[j])@.len() == t,
                    acc[0] == weighted_sum(w@, channel(cs, k as int, 0), i as nat),
                    acc[1] == weighted_sum(w@, channel(cs, k as int, 1), i as nat),
                    acc[2] == weighted_sum(w@, channel(cs, k as int, 2), i as nat),
                    acc[3] == weighted_sum(w@, channel(cs, k as int, 3), i as nat),
            {
                let wi = w[i];
                let c = cands[i][k];
                acc = [
                    acc[0].add(wi.mul(c[0])),
                    acc[1].add(wi.mul(c[1])),
                    acc[2].add(wi.mul(c[2])),
                    acc[3].add(wi.mul(c[3])),
                ];
            }
            out.push(self.clamp(acc));
        }
        assert(out@ =~= self.spec_plan(cs, w@, t as nat));
        out
    }
}

/// The inner vectors as sequences.
pub open spec fn deep<T>(v: Seq<Vec<T>>) -> Seq<Seq<T>> {
    Seq::new(v.len(), |i: int| v[i]@)
}

/// Channel `d` of step `k` over the candidates.
pub open spec fn channel<S>(cands: Seq<Seq<[S; 4]>>, k: int, d: int) -> Seq<S> {
    Seq::new(cands.len(), |i: int| cands[i][k][d])
}

/// The nominal plan for the next call: the executed step dropped, `last` at the end;
/// what lies beyond the plan stays.
pub open spec fn spec_shift<A>(nominal: Seq<A>, plan: Seq<A>, last: A) -> Seq<A> {
    Seq::new(
        nominal.len(),
        |k: int|
            if k + 1 < plan.len() {
                plan[k + 1]
            } else if k + 1 == plan.len() {
                last
            } else {
                nominal[k]
            },
    )
}

// ---------------------------------------------------------------------------
// Laws
// ---------------------------------------------------------------------------
/// The sum of the first `n` entries.
pub open spec fn total<S: Real>(w: Seq<S>, n: nat) -> real
    decreases n,
{
    if n == 0 {
        0real
    } else {
        total(w, (n - 1) as nat) + w[n - 1].val()
    }
}

proof fn lemma_total_scales<S: Real>(costs: Seq<S>, min: S, lambda: S, inv: S, w: Seq<S>, n: nat)
    requires
        crate::scalar::exact::<S>(),
        n <= costs.len(),
        w.len() == costs.len(),
        forall|i: int| 0 <= i < w.len() ==> w[i] == raw_weight(costs[i], min, lambda) * inv,
    ensures
        total(w, n) == weight_sum(costs, min, lambda, n).val() * inv.val(),
    decreases n,
{
    if n > 0 {
        lemma_total_scales(costs, min, lambda, inv, w, (n - 1) as nat);
        let a = weight_sum(costs, min, lambda, (n - 1) as nat).val();
        let b = raw_weight(costs[n - 1], min, lambda).val();
        let c = inv.val();
        assert(w[n - 1] == raw_weight(costs[n - 1], min, lambda) * inv);
        assert((a + b) * c == a * c + b * c) by (nonlinear_arith);
    } else {
        assert(0real * inv.val() == 0real) by (nonlinear_arith);
    }
}

proof fn lemma_weight_sum_positive<S: Real>(costs: Seq<S>, min: S, lambda: S, n: nat)
    requires
        crate::scalar::exact::<S>(),
        forall|x: S| (#[trigger] x.spec_exp()).val() > 0real,
    ensures
        weight_sum(costs, min, lambda, n).val() >= 0real,
        n > 0 ==> weight_sum(costs, min, lambda, n).val() > 0real,
    decreases n,
{
    if n > 0 {
        lemma_weight_sum_positive(costs, min, lambda, (n - 1) as nat);
    }
}

/// Without rounding, and with an exponential that is positive, the weights of at least
/// one candidate are positive and add up to one: the plan is a convex combination of the
/// candidates.
pub proof fn law_softmax_is_convex<S: Real>(costs: Seq<S>, lambda: S)
    requires
        crate::scalar::exact::<S>(),
        forall|x: S| (#[trigger] x.spec_exp()).val() > 0real,
        costs.len() > 0,
    ensures
        total(spec_softmax(costs, lambda), costs.len()) == 1real,
        forall|i: int|
            0 <= i < costs.len() ==> (#[trigger] spec_softmax(costs, lambda)[i]).val() > 0real,
{
    let min = least(costs, costs.len());
    let sum = weight_sum(costs, min, lambda, costs.len());
    let inv = inverse_or_zero(sum);
    let w = spec_softmax(costs, lambda);
    lemma_weight_sum_positive(costs, min, lambda, costs.len());
    assert(S::spec_zero() < sum);
    let (a, b) = (sum.val(), inv.val());
    assert(b == 1real / a);
    assert(a * b == 1real && b > 0real) by (nonlinear_arith)
        requires
            b == 1real / a,
            a > 0real,
    ;
    lemma_total_scales(costs, min, lambda, inv, w, costs.len());
    assert forall|i: int| 0 <= i < costs.len() implies (#[trigger] w[i]).val() > 0real by {
        let c = raw_weight(costs[i], min, lambda).val();
        assert(c * b > 0real) by (nonlinear_arith)
            requires
                c > 0real,
                b > 0real,
        ;
    }
}

/// A convex combination of numbers within bounds lies within them: averaging candidates
/// that respect a limit respects it.
pub proof fn law_weighted_sum_in_bounds<S: Real>(w: Seq<S>, x: Seq<S>, lo: real, hi: real, n: nat)
    requires
        crate::scalar::exact::<S>(),
        n <= w.len(),
        w.len() == x.len(),
        forall|i: int| 0 <= i < w.len() ==> (#[trigger] w[i]).val() >= 0real,
        forall|i: int| 0 <= i < x.len() ==> lo <= (#[trigger] x[i]).val() <= hi,
    ensures
        lo * total(w, n) <= weighted_sum(w, x, n).val() <= hi * total(w, n),
    decreases n,
{
    if n > 0 {
        law_weighted_sum_in_bounds(w, x, lo, hi, (n - 1) as nat);
        let a = total(w, (n - 1) as nat);
        let (b, y) = (w[n - 1].val(), x[n - 1].val());
        assert(lo * (a + b) == lo * a + lo * b && hi * (a + b) == hi * a + hi * b)
            by (nonlinear_arith);
        assert(lo * b <= b * y && b * y <= hi * b) by (nonlinear_arith)
            requires
                b >= 0real,
                lo <= y,
                y <= hi,
        ;
    } else {
        assert(lo * 0real == 0real && hi * 0real == 0real) by (nonlinear_arith);
    }
}

/// A plan respects the limits in every channel of every step.
pub proof fn law_plan_in_bounds<S: Real>(
    space: ActionSpace<S>,
    cands: Seq<Seq<[S; 4]>>,
    w: Seq<S>,
    k: int,
    d: int,
)
    requires
        crate::scalar::ordered::<S>(),
        space.wf(),
        0 <= d < 4,
        space.lo[d].spec_is_finite(),
        space.hi[d].spec_is_finite(),
        weighted_sum(w, channel(cands, k, d), cands.len()).spec_is_finite(),
    ensures
        space.lo[d] <= space.plan_at(cands, w, k)[d],
        space.plan_at(cands, w, k)[d] <= space.hi[d],
{
    let x = weighted_sum(w, channel(cands, k, d), cands.len());
    assert(space.plan_at(cands, w, k)[d] == space.clip_at(x, d));
    crate::scalar::law_clip_in_bounds(x, space.lo[d], space.hi[d]);
}

/// Every number of the sequence is finite.
pub open spec fn all_finite<S: Real>(x: Seq<S>) -> bool {
    forall|i: int| 0 <= i < x.len() ==> (#[trigger] x[i]).spec_is_finite()
}

/// Every normal draw is a finite number of at most 8 in size: its logarithm is one of at
/// least 1e-12, and its cosine at most one.
pub open spec fn draws_bounded<S: Real>() -> bool {
    forall|s: u64|
        (#[trigger] crate::rng::spec_normal::<S>(s)).spec_is_finite() && crate::scalar::size(
            crate::rng::spec_normal::<S>(s),
        ) <= 8real
}

/// The arithmetic of a search: exact, or floating-point with draws that are bounded.
#[verifier::opaque]
pub open spec fn searchable<S: Real>() -> bool {
    ||| crate::scalar::exact::<S>()
    ||| crate::scalar::floating::<S>() && draws_bounded::<S>()
}

/// The settings of a search are finite, its noise is correlated by a factor in `[0, 1]`,
/// and its temperature is positive.
pub open spec fn search_finite<S: Real>(space: ActionSpace<S>, beta: S, lambda: S) -> bool {
    &&& all_finite(space.sigma@)
    &&& all_finite(space.lo@)
    &&& all_finite(space.hi@)
    &&& crate::scalar::is_share(beta)
    &&& lambda.spec_is_finite()
    &&& lambda.val() > 0real
}

/// Every action of the plan is made of finite numbers.
pub open spec fn plan_finite<S: Real>(nominal: Seq<[S; 4]>) -> bool {
    forall|k: int| 0 <= k < nominal.len() ==> all_finite((#[trigger] nominal[k])@)
}

/// The action lies within the limits of every channel.
pub open spec fn within<S: Real>(space: ActionSpace<S>, a: [S; 4]) -> bool {
    forall|d: int| 0 <= d < 4 ==> space.lo[d] <= #[trigger] a[d] && a[d] <= space.hi[d]
}

/// A guarded cost is finite, whatever the cost was.
pub proof fn law_guarded_cost_is_finite<S: Real>(c: S)
    requires
        crate::scalar::exact::<S>() || crate::scalar::floating::<S>(),
    ensures
        spec_guard_cost(c).spec_is_finite(),
{
    if crate::scalar::floating::<S>() {
        crate::scalar::lemma_floating_constant::<S>(1000000000000, 1);
    }
}

/// The same of every cost, in the arithmetic of a search; and of zero.
pub proof fn lemma_guarded_costs_finite<S: Real>()
    requires
        searchable::<S>(),
    ensures
        S::spec_zero().spec_is_finite(),
        forall|c: S| (#[trigger] spec_guard_cost(c)).spec_is_finite(),
{
    reveal(searchable);
    if crate::scalar::floating::<S>() {
        crate::scalar::lemma_floating_orders::<S>();
    }
    assert forall|c: S| (#[trigger] spec_guard_cost(c)).spec_is_finite() by {
        law_guarded_cost_is_finite(c);
    }
}

proof fn lemma_least<S: Real>(costs: Seq<S>, n: nat) -> (j: int)
    requires
        crate::scalar::floating::<S>(),
        all_finite(costs),
        1 <= n <= costs.len(),
    ensures
        0 <= j < n,
        least(costs, n) == costs[j],
        forall|i: int| 0 <= i < n ==> costs[j].val() <= (#[trigger] costs[i]).val(),
    decreases n,
{
    let c = costs[n - 1];
    assert(c.spec_is_finite());
    if n > 1 {
        let j = lemma_least(costs, (n - 1) as nat);
        crate::scalar::lemma_floating_orders::<S>();
        let m = costs[j];
        assert(m.spec_is_finite());
        assert(m.spec_min(c) == m && m.val() <= c.val() || m.spec_min(c) == c && c.val()
            <= m.val());
        if m.spec_min(c) == m && m.val() <= c.val() {
            j
        } else {
            n - 1
        }
    } else {
        reveal(crate::scalar::floating);
        assert(least(costs, 0) == S::spec_infinity());
        0
    }
}

/// The weight of a cost that is at least the least one lies in `[0, 1]`; that of the least
/// one is 1. The difference of the costs may overflow.
proof fn lemma_raw_weight<S: Real>(c: S, min: S, lambda: S)
    requires
        crate::scalar::floating::<S>(),
        c.spec_is_finite(),
        min.spec_is_finite(),
        min.val() <= c.val(),
        lambda.spec_is_finite(),
        lambda.val() > 0real,
    ensures
        crate::scalar::is_share(raw_weight(c, min, lambda)),
        c == min ==> raw_weight(c, min, lambda).val() == 1real,
{
    reveal(crate::scalar::floating);
    let d = c - min;
    assert(S::spec_zero() <= d);
    assert(-d <= S::spec_zero());
    assert((-d) / lambda <= S::spec_zero());
    if c == min {
        assert(d.spec_is_finite() && d.val() == 0real);
        assert((-d).spec_is_finite() && (-d).val() == 0real);
    }
}

proof fn lemma_weight_sum<S: Real>(costs: Seq<S>, min: S, lambda: S, n: nat)
    requires
        crate::scalar::floating::<S>(),
        all_finite(costs),
        min.spec_is_finite(),
        forall|i: int| 0 <= i < costs.len() ==> min.val() <= (#[trigger] costs[i]).val(),
        lambda.spec_is_finite(),
        lambda.val() > 0real,
        n <= costs.len(),
    ensures
        weight_sum(costs, min, lambda, n).spec_is_finite(),
        0real <= weight_sum(costs, min, lambda, n).val() <= crate::scalar::huge(),
        forall|i: int|
            0 <= i < n ==> raw_weight(#[trigger] costs[i], min, lambda).val() <= weight_sum(
                costs,
                min,
                lambda,
                n,
            ).val(),
    decreases n,
{
    crate::scalar::lemma_floating_orders::<S>();
    if n > 0 {
        lemma_weight_sum(costs, min, lambda, (n - 1) as nat);
        let c = costs[n - 1];
        assert(c.spec_is_finite());
        lemma_raw_weight(c, min, lambda);
        let (a, b) = (
            weight_sum(costs, min, lambda, (n - 1) as nat),
            raw_weight(c, min, lambda),
        );
        assert((a + b).spec_is_finite() && a.val() <= (a + b).val() && b.val() <= (a + b).val()
            && crate::scalar::size(a + b) <= crate::scalar::huge()) by {
            reveal(crate::scalar::floating);
        }
    }
}

/// Weights of finite costs are finite; in floating-point arithmetic they lie in `[0, 1]`
/// however far apart the costs are.
pub proof fn law_weights_are_finite<S: Real>(costs: Seq<S>, lambda: S)
    requires
        crate::scalar::exact::<S>() || crate::scalar::floating::<S>(),
        all_finite(costs),
        lambda.spec_is_finite(),
        lambda.val() > 0real,
    ensures
        all_finite(spec_softmax(costs, lambda)),
        crate::scalar::floating::<S>() ==> forall|i: int|
            0 <= i < costs.len() ==> crate::scalar::is_share(
                #[trigger] spec_softmax(costs, lambda)[i],
            ),
{
    if crate::scalar::floating::<S>() && costs.len() > 0 {
        let n = costs.len();
        let j = lemma_least(costs, n);
        let min = costs[j];
        assert(min.spec_is_finite());
        lemma_weight_sum(costs, min, lambda, n);
        lemma_raw_weight(costs[j], min, lambda);
        let sum = weight_sum(costs, min, lambda, n);
        crate::scalar::lemma_floating_orders::<S>();
        assert(sum.val() >= 1real);
        assert(S::spec_zero() < sum);
        let w = spec_softmax(costs, lambda);
        assert forall|i: int| 0 <= i < n implies crate::scalar::is_share(#[trigger] w[i]) by {
            let c = costs[i];
            assert(c.spec_is_finite());
            lemma_raw_weight(c, min, lambda);
            reveal(crate::scalar::floating);
            let a = raw_weight(c, min, lambda);
            assert(crate::scalar::is_share(a * (S::spec_one() / sum)));
        }
    }
}

/// Noise of unit variance is built from bounded draws; however long it runs it stays
/// finite.
proof fn lemma_noise_finite<S: Real>(s: u64, beta: S, k: nat, d: nat)
    requires
        crate::scalar::floating::<S>(),
        draws_bounded::<S>(),
        crate::scalar::is_share(beta),
    ensures
        ar_noise_at(s, beta, spec_smear(beta), k, d).spec_is_finite(),
        crate::scalar::size(ar_noise_at(s, beta, spec_smear(beta), k, d))
            <= crate::scalar::huge(),
    decreases k,
{
    crate::scalar::lemma_floating_orders::<S>();
    let smear = spec_smear(beta);
    let last = if k == 0 {
        S::spec_zero()
    } else {
        ar_noise_at(s, beta, smear, (k - 1) as nat, d)
    };
    if k > 0 {
        lemma_noise_finite(s, beta, (k - 1) as nat, d);
    }
    let x = crate::rng::spec_normal::<S>(after_normals(s, 4 * k + d));
    assert(x.spec_is_finite() && crate::scalar::size(x) <= 8real);
    reveal(crate::scalar::floating);
    assert(crate::scalar::is_share(beta * beta));
    assert(crate::scalar::is_share(S::spec_one() - beta * beta));
    assert(crate::scalar::is_share(smear));
    let (a, b) = (beta * last, smear * x);
    assert(a.spec_is_finite() && crate::scalar::size(a) <= crate::scalar::size(last));
    assert(b.spec_is_finite() && crate::scalar::size(b) <= 8real);
    assert((a + b).spec_is_finite());
}

/// A channel of a candidate is finite and within its limits.
proof fn lemma_strayed<S: Real>(base: S, sigma: S, noise: S, lo: S, hi: S)
    requires
        crate::scalar::exact::<S>() || crate::scalar::floating::<S>(),
        base.spec_is_finite(),
        sigma.spec_is_finite(),
        noise.spec_is_finite(),
        lo.spec_is_finite(),
        hi.spec_is_finite(),
        lo <= hi,
    ensures
        ({
            let c = crate::scalar::spec_clip(base + sigma * noise, lo, hi);
            c.spec_is_finite() && lo <= c && c <= hi
        }),
{
    let x = base + sigma * noise;
    if crate::scalar::exact::<S>() {
        crate::scalar::law_clip_in_bounds(x, lo, hi);
    } else {
        assert(crate::scalar::is_number(x)) by {
            reveal(crate::scalar::floating);
        }
        crate::scalar::law_clip_holds_any_number(x, lo, hi);
    }
}

proof fn lemma_candidate_finite<S: Real>(
    space: ActionSpace<S>,
    nominal: Seq<[S; 4]>,
    s: u64,
    beta: S,
    lambda: S,
    k: int,
)
    requires
        searchable::<S>(),
        search_finite(space, beta, lambda),
        space.wf(),
        plan_finite(nominal),
        0 <= k < nominal.len(),
    ensures
        all_finite(space.candidate_at(nominal, s, beta, k)@),
        within(space, space.candidate_at(nominal, s, beta, k)),
{
    reveal(searchable);
    let c = space.candidate_at(nominal, s, beta, k);
    let smear = spec_smear(beta);
    assert(all_finite(nominal[k]@));
    assert forall|d: int| 0 <= d < 4 implies (#[trigger] c[d]).spec_is_finite() && space.lo[d]
        <= c[d] && c[d] <= space.hi[d] by {
        let e = ar_noise_at(s, beta, smear, k as nat, d as nat);
        if !crate::scalar::exact::<S>() {
            lemma_noise_finite(s, beta, k as nat, d as nat);
        }
        assert(nominal[k]@[d].spec_is_finite() && space.sigma@[d].spec_is_finite());
        assert(space.lo@[d].spec_is_finite() && space.hi@[d].spec_is_finite());
        assert(d == 0 || d == 1 || d == 2 || d == 3);
        lemma_strayed(nominal[k][d], space.sigma[d], e, space.lo[d], space.hi[d]);
        assert(c[d] == space.clip_at(nominal[k][d] + space.sigma[d] * e, d));
    }
    assert forall|d: int| 0 <= d < c@.len() implies (#[trigger] c@[d]).spec_is_finite() by {
        assert(c[d].spec_is_finite());
    }
}

/// Terms that are finite add up to a number, though the sum may overflow.
proof fn lemma_weighted_sum_is_number<S: Real>(w: Seq<S>, x: Seq<S>, n: nat)
    requires
        crate::scalar::floating::<S>(),
        forall|i: int| 0 <= i < w.len() ==> crate::scalar::is_share(#[trigger] w[i]),
        all_finite(x),
        n <= w.len(),
        n <= x.len(),
    ensures
        crate::scalar::is_number(weighted_sum(w, x, n)),
    decreases n,
{
    crate::scalar::lemma_floating_orders::<S>();
    if n > 0 {
        lemma_weighted_sum_is_number(w, x, (n - 1) as nat);
        assert(crate::scalar::is_share(w[n - 1]) && x[n - 1].spec_is_finite());
        reveal(crate::scalar::floating);
        assert((w[n - 1] * x[n - 1]).spec_is_finite());
    }
}

/// One step of a plan, in one channel.
proof fn lemma_plan_channel<S: Real>(
    space: ActionSpace<S>,
    cands: Seq<Seq<[S; 4]>>,
    costs: Seq<S>,
    lambda: S,
    k: int,
    d: int,
)
    requires
        crate::scalar::exact::<S>() || crate::scalar::floating::<S>(),
        space.wf(),
        0 <= d < 4,
        space.lo[d].spec_is_finite(),
        space.hi[d].spec_is_finite(),
        lambda.spec_is_finite(),
        lambda.val() > 0real,
        all_finite(costs),
        cands.len() == costs.len(),
        all_finite(channel(cands, k, d)),
    ensures
        ({
            let a = space.plan_at(cands, spec_softmax(costs, lambda), k)[d];
            a.spec_is_finite() && space.lo[d] <= a && a <= space.hi[d]
        }),
{
    let w = spec_softmax(costs, lambda);
    let sum = weighted_sum(w, channel(cands, k, d), cands.len());
    assert(d == 0 || d == 1 || d == 2 || d == 3);
    assert(space.plan_at(cands, w, k)[d] == space.clip_at(sum, d));
    if crate::scalar::exact::<S>() {
        crate::scalar::law_clip_in_bounds(sum, space.lo[d], space.hi[d]);
    } else {
        law_weights_are_finite(costs, lambda);
        lemma_weighted_sum_is_number(w, channel(cands, k, d), cands.len());
        crate::scalar::law_clip_holds_any_number(sum, space.lo[d], space.hi[d]);
    }
}

/// A search with finite settings about a finite plan: every candidate, and every step of
/// the plan that its costs give, is finite and within the limits, as long as the costs are
/// finite numbers. This holds of floating-point arithmetic, whatever overflows on the way.
pub proof fn law_search_in_bounds<S: Real>(
    space: ActionSpace<S>,
    nominal: Seq<[S; 4]>,
    s: u64,
    beta: S,
    lambda: S,
    t: nat,
    costs: Seq<S>,
)
    requires
        searchable::<S>(),
        search_finite(space, beta, lambda),
        space.wf(),
        plan_finite(nominal),
        t <= nominal.len(),
        all_finite(costs),
    ensures
        ({
            let cands = space.spec_candidates(nominal, s, beta, t, costs.len());
            let plan = space.spec_plan(cands, spec_softmax(costs, lambda), t);
            &&& forall|i: int, k: int|
                0 <= i < costs.len() && 0 <= k < t ==> within(space, #[trigger] cands[i][k])
            &&& forall|k: int| 0 <= k < t ==> within(space, #[trigger] plan[k])
            &&& plan_finite(plan)
        }),
{
    let n = costs.len();
    let cands = space.spec_candidates(nominal, s, beta, t, n);
    let w = spec_softmax(costs, lambda);
    let plan = space.spec_plan(cands, w, t);
    assert(crate::scalar::exact::<S>() || crate::scalar::floating::<S>()) by {
        reveal(searchable);
    }
    assert forall|i: int, k: int| 0 <= i < n && 0 <= k < t implies within(
        space,
        #[trigger] cands[i][k],
    ) && all_finite(cands[i][k]@) by {
        let from = after_normals(s, 4 * t * i as nat);
        lemma_candidate_finite(space, nominal, from, beta, lambda, k);
        assert(cands[i][k] == space.candidate_at(nominal, from, beta, k));
    }
    assert forall|k: int| 0 <= k < t implies within(space, #[trigger] plan[k]) && all_finite(
        plan[k]@,
    ) by {
        let a = plan[k];
        assert(a == space.plan_at(cands, w, k));
        assert forall|d: int| 0 <= d < 4 implies (#[trigger] a[d]).spec_is_finite() && space.lo[d]
            <= a[d] && a[d] <= space.hi[d] by {
            let x = channel(cands, k, d);
            assert forall|i: int| 0 <= i < x.len() implies (#[trigger] x[i]).spec_is_finite() by {
                assert(all_finite(cands[i][k]@));
                assert(x[i] == cands[i][k]@[d]);
            }
            assert(space.lo@[d].spec_is_finite() && space.hi@[d].spec_is_finite());
            lemma_plan_channel(space, cands, costs, lambda, k, d);
        }
        assert forall|d: int| 0 <= d < a@.len() implies (#[trigger] a@[d]).spec_is_finite() by {
            assert(a[d].spec_is_finite());
        }
    }
}

/// Clipping goes by the values.
proof fn lemma_clip_by_value<S: Real>(x: S, y: S, lo: S, hi: S)
    requires
        crate::scalar::exact::<S>(),
        x.val() == y.val(),
    ensures
        crate::scalar::spec_clip(x, lo, hi).val() == crate::scalar::spec_clip(y, lo, hi).val(),
{
}

/// Without noise in a channel the plan is the nominal plan there, held within the limits,
/// whatever the costs.
pub proof fn law_no_noise_no_change<S: Real>(
    space: ActionSpace<S>,
    nominal: Seq<[S; 4]>,
    s: u64,
    beta: S,
    lambda: S,
    t: nat,
    costs: Seq<S>,
    k: int,
    d: int,
)
    requires
        crate::scalar::exact::<S>(),
        forall|x: S| (#[trigger] x.spec_exp()).val() > 0real,
        space.wf(),
        costs.len() > 0,
        0 <= k < t,
        t <= nominal.len(),
        0 <= d < 4,
        space.sigma[d].val() == 0real,
    ensures
        ({
            let cands = space.spec_candidates(nominal, s, beta, t, costs.len());
            space.plan_at(cands, spec_softmax(costs, lambda), k)[d].val() == space.clip_at(
                nominal[k][d],
                d,
            ).val()
        }),
{
    let n = costs.len();
    let cands = space.spec_candidates(nominal, s, beta, t, n);
    let w = spec_softmax(costs, lambda);
    let x = channel(cands, k, d);
    let v = space.clip_at(nominal[k][d], d).val();
    assert forall|i: int| 0 <= i < n implies (#[trigger] x[i]).val() == v by {
        let from = after_normals(s, 4 * t * i as nat);
        let e = ar_noise_at(from, beta, spec_smear(beta), k as nat, d as nat);
        let y = nominal[k][d] + space.sigma[d] * e;
        let (a, b) = (space.sigma[d].val(), e.val());
        assert(a * b == 0real) by (nonlinear_arith)
            requires
                a == 0real,
        ;
        assert(d == 0 || d == 1 || d == 2 || d == 3);
        assert(cands[i][k] == space.candidate_at(nominal, from, beta, k));
        assert(x[i] == space.clip_at(y, d));
        lemma_clip_by_value(y, nominal[k][d], space.lo[d], space.hi[d]);
    }
    law_softmax_is_convex(costs, lambda);
    law_weighted_sum_in_bounds(w, x, v, v, n);
    assert(v * 1real == v) by (nonlinear_arith);
    let sum = weighted_sum(w, x, n);
    assert(sum.val() == v);
    assert(d == 0 || d == 1 || d == 2 || d == 3);
    assert(space.plan_at(cands, w, k)[d] == space.clip_at(sum, d));
    let (c, lo, hi) = (space.clip_at(nominal[k][d], d), space.lo[d], space.hi[d]);
    lemma_clip_by_value(sum, c, lo, hi);
    crate::scalar::law_clip_in_bounds(nominal[k][d], lo, hi);
    crate::scalar::law_clip_in_bounds(c, lo, hi);
}

} // verus!
