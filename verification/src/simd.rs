//! A vector of lanes that is itself a [`Scalar`]: the generic dynamics then steps as many
//! drones at once as there are lanes, each with parameters of its own. There is no
//! branch that depends on the data, so all lanes run the same instructions.
use vstd::prelude::*;

use crate::linalg::{Mat3, Mat4, Quat, Vec3};
use crate::params::{QuadParams, NUM_ROTORS};
use crate::scalar::Scalar;
use crate::state::State;

verus! {

/// `L` lanes of the scalar `S`.
#[derive(Clone, Copy, Debug)]
pub struct F64x<S, const L: usize>(pub [S; L]);

/// Lane `l`.
pub open spec fn lane<S, const L: usize>(v: F64x<S, L>, l: int) -> S {
    v.0[l]
}

/// `base` with its first `n` entries given by `f`.
pub open spec fn filled<S, const L: usize>(base: [S; L], f: spec_fn(int) -> S, n: nat) -> [S; L]
    decreases n,
{
    if n == 0 {
        base
    } else {
        vstd::array::spec_array_update(filled(base, f, (n - 1) as nat), n - 1, f(n - 1))
    }
}

/// The lane vector whose lanes are given by `f`.
pub open spec fn from_lanes<S, const L: usize>(f: spec_fn(int) -> S) -> F64x<S, L> {
    F64x(filled(vstd::pervasive::arbitrary(), f, L as nat))
}

proof fn lemma_filled<S, const L: usize>(base: [S; L], f: spec_fn(int) -> S, n: nat)
    requires
        n <= L,
    ensures
        forall|l: int| 0 <= l < n ==> #[trigger] filled(base, f, n)[l] == f(l),
    decreases n,
{
    if n > 0 {
        lemma_filled(base, f, (n - 1) as nat);
        let prev = filled(base, f, (n - 1) as nat);
        assert(filled(base, f, n)@ == prev@.update(n - 1, f(n - 1)));
        assert forall|l: int| 0 <= l < n implies #[trigger] filled(base, f, n)[l] == f(l) by {
            if l < n - 1 {
                assert(prev[l] == f(l));
            }
        }
    }
}

/// A lane of a vector given lane by lane.
pub broadcast proof fn lemma_from_lanes<S, const L: usize>(f: spec_fn(int) -> S, l: int)
    requires
        0 <= l < L,
    ensures
        #[trigger] lane(from_lanes::<S, L>(f), l) == f(l),
{
    lemma_filled(vstd::pervasive::arbitrary::<[S; L]>(), f, L as nat);
}

/// Vectors with equal lanes are equal.
proof fn lemma_same_lanes<S, const L: usize>(a: F64x<S, L>, b: F64x<S, L>)
    requires
        forall|l: int| 0 <= l < L ==> lane(a, l) == #[trigger] lane(b, l),
    ensures
        a == b,
{
    assert forall|l: int| 0 <= l < L implies a.0[l] == b.0[l] by {
        assert(lane(a, l) == lane(b, l));
    }
    assert(a.0 =~= b.0);
}

/// What the arrays hold, lane by lane, is what the specification gives.
proof fn lemma_is_from_lanes<S, const L: usize>(a: [S; L], f: spec_fn(int) -> S)
    requires
        forall|l: int| 0 <= l < L ==> #[trigger] a[l] == f(l),
    ensures
        F64x(a) == from_lanes::<S, L>(f),
{
    broadcast use lemma_from_lanes;

    assert forall|l: int| 0 <= l < L implies lane(F64x(a), l) == #[trigger] lane(
        from_lanes::<S, L>(f),
        l,
    ) by {
        assert(a[l] == f(l));
    }
    lemma_same_lanes(F64x(a), from_lanes::<S, L>(f));
}

impl<S: Scalar, const L: usize> Scalar for F64x<S, L> {
    open spec fn spec_zero() -> Self {
        from_lanes(|l: int| S::spec_zero())
    }

    open spec fn spec_one() -> Self {
        from_lanes(|l: int| S::spec_one())
    }

    open spec fn spec_splat(num: int, den: nat) -> Self {
        from_lanes(|l: int| S::spec_splat(num, den))
    }

    open spec fn spec_add(self, o: Self) -> Self {
        from_lanes(|l: int| self.0[l] + o.0[l])
    }

    open spec fn spec_sub(self, o: Self) -> Self {
        from_lanes(|l: int| self.0[l] - o.0[l])
    }

    open spec fn spec_mul(self, o: Self) -> Self {
        from_lanes(|l: int| self.0[l] * o.0[l])
    }

    open spec fn spec_euclidean_or_real_div(self, o: Self) -> Self {
        from_lanes(|l: int| self.0[l] / o.0[l])
    }

    open spec fn spec_neg(self) -> Self {
        from_lanes(|l: int| -self.0[l])
    }

    open spec fn spec_sqrt(self) -> Self {
        from_lanes(|l: int| self.0[l].spec_sqrt())
    }

    open spec fn spec_abs(self) -> Self {
        from_lanes(|l: int| self.0[l].spec_abs())
    }

    open spec fn spec_signum(self) -> Self {
        from_lanes(|l: int| self.0[l].spec_signum())
    }

    open spec fn spec_min(self, o: Self) -> Self {
        from_lanes(|l: int| self.0[l].spec_min(o.0[l]))
    }

    open spec fn spec_max(self, o: Self) -> Self {
        from_lanes(|l: int| self.0[l].spec_max(o.0[l]))
    }

    fn zero() -> (r: Self) {
        let r = [S::zero(); L];
        proof {
            lemma_is_from_lanes(r, |l: int| S::spec_zero());
        }
        F64x(r)
    }

    fn one() -> (r: Self) {
        let r = [S::one(); L];
        proof {
            lemma_is_from_lanes(r, |l: int| S::spec_one());
        }
        F64x(r)
    }

    fn splat(num: i128, den: u64) -> (r: Self) {
        let r = [S::splat(num, den); L];
        proof {
            lemma_is_from_lanes(r, |l: int| S::spec_splat(num as int, den as nat));
        }
        F64x(r)
    }

    fn add(self, o: Self) -> (r: Self) {
        let mut r = self.0;
        for i in 0..L
            invariant
                forall|l: int| 0 <= l < i ==> #[trigger] r[l] == self.0[l] + o.0[l],
                forall|l: int| i <= l < L ==> #[trigger] r[l] == self.0[l],
        {
            r[i] = self.0[i].add(o.0[i]);
        }
        proof {
            lemma_is_from_lanes(r, |l: int| self.0[l] + o.0[l]);
        }
        F64x(r)
    }

    fn sub(self, o: Self) -> (r: Self) {
        let mut r = self.0;
        for i in 0..L
            invariant
                forall|l: int| 0 <= l < i ==> #[trigger] r[l] == self.0[l] - o.0[l],
                forall|l: int| i <= l < L ==> #[trigger] r[l] == self.0[l],
        {
            r[i] = self.0[i].sub(o.0[i]);
        }
        proof {
            lemma_is_from_lanes(r, |l: int| self.0[l] - o.0[l]);
        }
        F64x(r)
    }

    fn mul(self, o: Self) -> (r: Self) {
        let mut r = self.0;
        for i in 0..L
            invariant
                forall|l: int| 0 <= l < i ==> #[trigger] r[l] == self.0[l] * o.0[l],
                forall|l: int| i <= l < L ==> #[trigger] r[l] == self.0[l],
        {
            r[i] = self.0[i].mul(o.0[i]);
        }
        proof {
            lemma_is_from_lanes(r, |l: int| self.0[l] * o.0[l]);
        }
        F64x(r)
    }

    fn div(self, o: Self) -> (r: Self) {
        let mut r = self.0;
        for i in 0..L
            invariant
                forall|l: int| 0 <= l < i ==> #[trigger] r[l] == self.0[l] / o.0[l],
                forall|l: int| i <= l < L ==> #[trigger] r[l] == self.0[l],
        {
            r[i] = self.0[i].div(o.0[i]);
        }
        proof {
            lemma_is_from_lanes(r, |l: int| self.0[l] / o.0[l]);
        }
        F64x(r)
    }

    fn neg(self) -> (r: Self) {
        let mut r = self.0;
        for i in 0..L
            invariant
                forall|l: int| 0 <= l < i ==> #[trigger] r[l] == -self.0[l],
                forall|l: int| i <= l < L ==> #[trigger] r[l] == self.0[l],
        {
            r[i] = self.0[i].neg();
        }
        proof {
            lemma_is_from_lanes(r, |l: int| -self.0[l]);
        }
        F64x(r)
    }

    fn sqrt(self) -> (r: Self) {
        let mut r = self.0;
        for i in 0..L
            invariant
                forall|l: int| 0 <= l < i ==> #[trigger] r[l] == self.0[l].spec_sqrt(),
                forall|l: int| i <= l < L ==> #[trigger] r[l] == self.0[l],
        {
            r[i] = self.0[i].sqrt();
        }
        proof {
            lemma_is_from_lanes(r, |l: int| self.0[l].spec_sqrt());
        }
        F64x(r)
    }

    fn abs(self) -> (r: Self) {
        let mut r = self.0;
        for i in 0..L
            invariant
                forall|l: int| 0 <= l < i ==> #[trigger] r[l] == self.0[l].spec_abs(),
                forall|l: int| i <= l < L ==> #[trigger] r[l] == self.0[l],
        {
            r[i] = self.0[i].abs();
        }
        proof {
            lemma_is_from_lanes(r, |l: int| self.0[l].spec_abs());
        }
        F64x(r)
    }

    fn signum(self) -> (r: Self) {
        let mut r = self.0;
        for i in 0..L
            invariant
                forall|l: int| 0 <= l < i ==> #[trigger] r[l] == self.0[l].spec_signum(),
                forall|l: int| i <= l < L ==> #[trigger] r[l] == self.0[l],
        {
            r[i] = self.0[i].signum();
        }
        proof {
            lemma_is_from_lanes(r, |l: int| self.0[l].spec_signum());
        }
        F64x(r)
    }

    fn min(self, o: Self) -> (r: Self) {
        let mut r = self.0;
        for i in 0..L
            invariant
                forall|l: int| 0 <= l < i ==> #[trigger] r[l] == self.0[l].spec_min(o.0[l]),
                forall|l: int| i <= l < L ==> #[trigger] r[l] == self.0[l],
        {
            r[i] = self.0[i].min(o.0[i]);
        }
        proof {
            lemma_is_from_lanes(r, |l: int| self.0[l].spec_min(o.0[l]));
        }
        F64x(r)
    }

    fn max(self, o: Self) -> (r: Self) {
        let mut r = self.0;
        for i in 0..L
            invariant
                forall|l: int| 0 <= l < i ==> #[trigger] r[l] == self.0[l].spec_max(o.0[l]),
                forall|l: int| i <= l < L ==> #[trigger] r[l] == self.0[l],
        {
            r[i] = self.0[i].max(o.0[i]);
        }
        proof {
            lemma_is_from_lanes(r, |l: int| self.0[l].spec_max(o.0[l]));
        }
        F64x(r)
    }
}

// ---------------------------------------------------------------------------
// Every operation works lane by lane
// ---------------------------------------------------------------------------
broadcast proof fn lemma_lane_add<S: Scalar, const L: usize>(a: F64x<S, L>, b: F64x<S, L>, l: int)
    requires
        0 <= l < L,
    ensures
        #[trigger] lane(a + b, l) == lane(a, l) + lane(b, l),
{
    broadcast use lemma_from_lanes;

}

broadcast proof fn lemma_lane_sub<S: Scalar, const L: usize>(a: F64x<S, L>, b: F64x<S, L>, l: int)
    requires
        0 <= l < L,
    ensures
        #[trigger] lane(a - b, l) == lane(a, l) - lane(b, l),
{
    broadcast use lemma_from_lanes;

}

broadcast proof fn lemma_lane_mul<S: Scalar, const L: usize>(a: F64x<S, L>, b: F64x<S, L>, l: int)
    requires
        0 <= l < L,
    ensures
        #[trigger] lane(a * b, l) == lane(a, l) * lane(b, l),
{
    broadcast use lemma_from_lanes;

}

broadcast proof fn lemma_lane_div<S: Scalar, const L: usize>(a: F64x<S, L>, b: F64x<S, L>, l: int)
    requires
        0 <= l < L,
    ensures
        #[trigger] lane(a / b, l) == lane(a, l) / lane(b, l),
{
    broadcast use lemma_from_lanes;

}

broadcast proof fn lemma_lane_min<S: Scalar, const L: usize>(a: F64x<S, L>, b: F64x<S, L>, l: int)
    requires
        0 <= l < L,
    ensures
        #[trigger] lane(a.spec_min(b), l) == lane(a, l).spec_min(lane(b, l)),
{
    broadcast use lemma_from_lanes;

}

broadcast proof fn lemma_lane_max<S: Scalar, const L: usize>(a: F64x<S, L>, b: F64x<S, L>, l: int)
    requires
        0 <= l < L,
    ensures
        #[trigger] lane(a.spec_max(b), l) == lane(a, l).spec_max(lane(b, l)),
{
    broadcast use lemma_from_lanes;

}

broadcast proof fn lemma_lane_neg<S: Scalar, const L: usize>(a: F64x<S, L>, l: int)
    requires
        0 <= l < L,
    ensures
        #[trigger] lane(-a, l) == -lane(a, l),
{
    broadcast use lemma_from_lanes;

}

broadcast proof fn lemma_lane_sqrt<S: Scalar, const L: usize>(a: F64x<S, L>, l: int)
    requires
        0 <= l < L,
    ensures
        #[trigger] lane(a.spec_sqrt(), l) == lane(a, l).spec_sqrt(),
{
    broadcast use lemma_from_lanes;

}

broadcast proof fn lemma_lane_abs<S: Scalar, const L: usize>(a: F64x<S, L>, l: int)
    requires
        0 <= l < L,
    ensures
        #[trigger] lane(a.spec_abs(), l) == lane(a, l).spec_abs(),
{
    broadcast use lemma_from_lanes;

}

broadcast proof fn lemma_lane_signum<S: Scalar, const L: usize>(a: F64x<S, L>, l: int)
    requires
        0 <= l < L,
    ensures
        #[trigger] lane(a.spec_signum(), l) == lane(a, l).spec_signum(),
{
    broadcast use lemma_from_lanes;

}

broadcast proof fn lemma_lane_zero<S: Scalar, const L: usize>(l: int)
    requires
        0 <= l < L,
    ensures
        #[trigger] lane(F64x::<S, L>::spec_zero(), l) == S::spec_zero(),
{
    broadcast use lemma_from_lanes;

}

broadcast proof fn lemma_lane_one<S: Scalar, const L: usize>(l: int)
    requires
        0 <= l < L,
    ensures
        #[trigger] lane(F64x::<S, L>::spec_one(), l) == S::spec_one(),
{
    broadcast use lemma_from_lanes;

}

broadcast proof fn lemma_lane_splat<S: Scalar, const L: usize>(num: int, den: nat, l: int)
    requires
        0 <= l < L,
    ensures
        #[trigger] lane(F64x::<S, L>::spec_splat(num, den), l) == S::spec_splat(num, den),
{
    broadcast use lemma_from_lanes;

}

broadcast group group_lanes {
    lemma_lane_add,
    lemma_lane_sub,
    lemma_lane_mul,
    lemma_lane_div,
    lemma_lane_min,
    lemma_lane_max,
    lemma_lane_neg,
    lemma_lane_sqrt,
    lemma_lane_abs,
    lemma_lane_signum,
    lemma_lane_zero,
    lemma_lane_one,
    lemma_lane_splat,
}

// ---------------------------------------------------------------------------
// One lane of a batch
// ---------------------------------------------------------------------------
/// Lane `l` of `a` is `b`.
pub open spec fn agree3<S: Scalar, const L: usize>(
    a: Vec3<F64x<S, L>>,
    b: Vec3<S>,
    l: int,
) -> bool {
    lane(a.x, l) == b.x && lane(a.y, l) == b.y && lane(a.z, l) == b.z
}

/// Lane `l` of `a` is `b`.
pub open spec fn agree_quat<S: Scalar, const L: usize>(
    a: Quat<F64x<S, L>>,
    b: Quat<S>,
    l: int,
) -> bool {
    lane(a.i, l) == b.i && lane(a.j, l) == b.j && lane(a.k, l) == b.k && lane(a.w, l) == b.w
}

/// Lane `l` of `a` is `b`.
pub open spec fn agree_mat3<S: Scalar, const L: usize>(
    a: Mat3<F64x<S, L>>,
    b: Mat3<S>,
    l: int,
) -> bool {
    &&& lane(a.at(0, 0), l) == b.at(0, 0)
    &&& lane(a.at(0, 1), l) == b.at(0, 1)
    &&& lane(a.at(0, 2), l) == b.at(0, 2)
    &&& lane(a.at(1, 0), l) == b.at(1, 0)
    &&& lane(a.at(1, 1), l) == b.at(1, 1)
    &&& lane(a.at(1, 2), l) == b.at(1, 2)
    &&& lane(a.at(2, 0), l) == b.at(2, 0)
    &&& lane(a.at(2, 1), l) == b.at(2, 1)
    &&& lane(a.at(2, 2), l) == b.at(2, 2)
}

/// Row `i` of lane `l` of `a` is that of `b`.
pub open spec fn agree_row4<S: Scalar, const L: usize>(
    a: Mat4<F64x<S, L>>,
    b: Mat4<S>,
    i: int,
    l: int,
) -> bool {
    &&& lane(a.at(i, 0), l) == b.at(i, 0)
    &&& lane(a.at(i, 1), l) == b.at(i, 1)
    &&& lane(a.at(i, 2), l) == b.at(i, 2)
    &&& lane(a.at(i, 3), l) == b.at(i, 3)
}

/// Lane `l` of `a` is `b`.
pub open spec fn agree_mat4<S: Scalar, const L: usize>(
    a: Mat4<F64x<S, L>>,
    b: Mat4<S>,
    l: int,
) -> bool {
    &&& agree_row4(a, b, 0, l)
    &&& agree_row4(a, b, 1, l)
    &&& agree_row4(a, b, 2, l)
    &&& agree_row4(a, b, 3, l)
}

/// Lane `l` of `a` is `b`, entry by entry.
pub open spec fn agree_seq<S: Scalar, const L: usize>(
    a: Seq<F64x<S, L>>,
    b: Seq<S>,
    l: int,
) -> bool {
    &&& a.len() == b.len()
    &&& forall|i: int| 0 <= i < b.len() ==> lane(#[trigger] a[i], l) == b[i]
}

/// Lane `l` of `a` is `b`, rotor by rotor.
pub open spec fn agree4<S: Scalar, const L: usize>(
    a: [F64x<S, L>; NUM_ROTORS],
    b: [S; NUM_ROTORS],
    l: int,
) -> bool {
    &&& lane(a[0], l) == b[0]
    &&& lane(a[1], l) == b[1]
    &&& lane(a[2], l) == b[2]
    &&& lane(a[3], l) == b[3]
}

/// The drone in lane `l` of `a` is `b`.
pub open spec fn agree_params<S: Scalar, const L: usize>(
    a: QuadParams<F64x<S, L>>,
    b: QuadParams<S>,
    l: int,
) -> bool {
    &&& lane(a.mass, l) == b.mass
    &&& agree_mat3(a.inertia, b.inertia, l)
    &&& agree_mat3(a.inv_inertia, b.inv_inertia, l)
    &&& agree3(a.weight, b.weight, l)
    &&& agree3(a.drag_diag, b.drag_diag, l)
    &&& lane(a.k_eta, l) == b.k_eta
    &&& lane(a.k_m, l) == b.k_m
    &&& lane(a.k_d, l) == b.k_d
    &&& lane(a.k_z, l) == b.k_z
    &&& lane(a.k_h, l) == b.k_h
    &&& lane(a.k_flap, l) == b.k_flap
    &&& lane(a.tau_m, l) == b.tau_m
    &&& lane(a.rotor_speed_min, l) == b.rotor_speed_min
    &&& lane(a.rotor_speed_max, l) == b.rotor_speed_max
    &&& lane(a.k_w, l) == b.k_w
    &&& agree3(a.rotor_pos[0], b.rotor_pos[0], l)
    &&& agree3(a.rotor_pos[1], b.rotor_pos[1], l)
    &&& agree3(a.rotor_pos[2], b.rotor_pos[2], l)
    &&& agree3(a.rotor_pos[3], b.rotor_pos[3], l)
    &&& agree4(a.rotor_dir, b.rotor_dir, l)
    &&& agree4(a.rotor_gain, b.rotor_gain, l)
    &&& agree_mat4(a.tm_to_f, b.tm_to_f, l)
}

/// The state in lane `l` of `a` is `b`.
pub open spec fn agree_state<S: Scalar, const L: usize>(
    a: State<F64x<S, L>>,
    b: State<S>,
    l: int,
) -> bool {
    &&& agree3(a.x, b.x, l)
    &&& agree3(a.v, b.v, l)
    &&& agree_quat(a.q, b.q, l)
    &&& agree3(a.w, b.w, l)
    &&& agree3(a.wind, b.wind, l)
    &&& agree4(a.rotor_speeds, b.rotor_speeds, l)
}

// ---------------------------------------------------------------------------
// Packing
// ---------------------------------------------------------------------------
fn put<S: Scalar, const L: usize>(v: F64x<S, L>, i: usize, x: S) -> (r: F64x<S, L>)
    requires
        i < L,
    ensures
        lane(r, i as int) == x,
        forall|l: int| 0 <= l < L && l != i ==> #[trigger] lane(r, l) == lane(v, l),
{
    let mut a = v.0;
    a[i] = x;
    F64x(a)
}

fn put3<S: Scalar, const L: usize>(v: Vec3<F64x<S, L>>, i: usize, x: Vec3<S>) -> (r: Vec3<
    F64x<S, L>,
>)
    requires
        i < L,
    ensures
        agree3(r, x, i as int),
        forall|l: int, b: Vec3<S>|
            0 <= l < L && l != i && agree3(v, b, l) ==> #[trigger] agree3(r, b, l),
{
    Vec3 { x: put(v.x, i, x.x), y: put(v.y, i, x.y), z: put(v.z, i, x.z) }
}

fn put4<S: Scalar, const L: usize>(v: [F64x<S, L>; 4], i: usize, x: [S; 4]) -> (r: [F64x<S, L>; 4])
    requires
        i < L,
    ensures
        agree4(r, x, i as int),
        forall|l: int, b: [S; 4]|
            0 <= l < L && l != i && agree4(v, b, l) ==> #[trigger] agree4(r, b, l),
{
    [put(v[0], i, x[0]), put(v[1], i, x[1]), put(v[2], i, x[2]), put(v[3], i, x[3])]
}

fn put_mat3<S: Scalar, const L: usize>(v: Mat3<F64x<S, L>>, i: usize, x: &Mat3<S>) -> (r: Mat3<
    F64x<S, L>,
>)
    requires
        i < L,
    ensures
        agree_mat3(r, *x, i as int),
        forall|l: int, b: Mat3<S>|
            0 <= l < L && l != i && agree_mat3(v, b, l) ==> #[trigger] agree_mat3(r, b, l),
{
    let (m, n) = (&v.rows, &x.rows);
    Mat3 {
        rows: [
            [put(m[0][0], i, n[0][0]), put(m[0][1], i, n[0][1]), put(m[0][2], i, n[0][2])],
            [put(m[1][0], i, n[1][0]), put(m[1][1], i, n[1][1]), put(m[1][2], i, n[1][2])],
            [put(m[2][0], i, n[2][0]), put(m[2][1], i, n[2][1]), put(m[2][2], i, n[2][2])],
        ],
    }
}

fn put_mat4<S: Scalar, const L: usize>(v: Mat4<F64x<S, L>>, i: usize, x: &Mat4<S>) -> (r: Mat4<
    F64x<S, L>,
>)
    requires
        i < L,
    ensures
        agree_mat4(r, *x, i as int),
        forall|l: int, b: Mat4<S>|
            0 <= l < L && l != i && agree_mat4(v, b, l) ==> #[trigger] agree_mat4(r, b, l),
{
    let (m, n) = (&v.rows, &x.rows);
    let r0 = put4(m[0], i, n[0]);
    let r1 = put4(m[1], i, n[1]);
    let r2 = put4(m[2], i, n[2]);
    let r3 = put4(m[3], i, n[3]);
    let r = Mat4 { rows: [r0, r1, r2, r3] };
    proof {
        assert(agree4(r0, n[0], i as int) && agree4(r1, n[1], i as int));
        assert(agree4(r2, n[2], i as int) && agree4(r3, n[3], i as int));
        assert forall|l: int, b: Mat4<S>|
            0 <= l < L && l != i && agree_mat4(v, b, l) implies #[trigger] agree_mat4(r, b, l) by {
            assert(agree4(m[0], b.rows[0], l) && agree4(m[1], b.rows[1], l));
            assert(agree4(m[2], b.rows[2], l) && agree4(m[3], b.rows[3], l));
            assert(agree4(r0, b.rows[0], l) && agree4(r1, b.rows[1], l));
            assert(agree4(r2, b.rows[2], l) && agree4(r3, b.rows[3], l));
        }
    }
    r
}

fn put_params<S: Scalar, const L: usize>(
    v: QuadParams<F64x<S, L>>,
    i: usize,
    x: &QuadParams<S>,
) -> (r: QuadParams<F64x<S, L>>)
    requires
        i < L,
    ensures
        agree_params(r, *x, i as int),
        forall|l: int, b: QuadParams<S>|
            0 <= l < L && l != i && agree_params(v, b, l) ==> #[trigger] agree_params(r, b, l),
{
    QuadParams {
        mass: put(v.mass, i, x.mass),
        inertia: put_mat3(v.inertia, i, &x.inertia),
        inv_inertia: put_mat3(v.inv_inertia, i, &x.inv_inertia),
        weight: put3(v.weight, i, x.weight),
        drag_diag: put3(v.drag_diag, i, x.drag_diag),
        k_eta: put(v.k_eta, i, x.k_eta),
        k_m: put(v.k_m, i, x.k_m),
        k_d: put(v.k_d, i, x.k_d),
        k_z: put(v.k_z, i, x.k_z),
        k_h: put(v.k_h, i, x.k_h),
        k_flap: put(v.k_flap, i, x.k_flap),
        tau_m: put(v.tau_m, i, x.tau_m),
        rotor_speed_min: put(v.rotor_speed_min, i, x.rotor_speed_min),
        rotor_speed_max: put(v.rotor_speed_max, i, x.rotor_speed_max),
        k_w: put(v.k_w, i, x.k_w),
        rotor_pos: [
            put3(v.rotor_pos[0], i, x.rotor_pos[0]),
            put3(v.rotor_pos[1], i, x.rotor_pos[1]),
            put3(v.rotor_pos[2], i, x.rotor_pos[2]),
            put3(v.rotor_pos[3], i, x.rotor_pos[3]),
        ],
        rotor_dir: put4(v.rotor_dir, i, x.rotor_dir),
        rotor_gain: put4(v.rotor_gain, i, x.rotor_gain),
        tm_to_f: put_mat4(v.tm_to_f, i, &x.tm_to_f),
    }
}

fn put_state<S: Scalar, const L: usize>(v: State<F64x<S, L>>, i: usize, x: &State<S>) -> (r: State<
    F64x<S, L>,
>)
    requires
        i < L,
    ensures
        agree_state(r, *x, i as int),
        forall|l: int, b: State<S>|
            0 <= l < L && l != i && agree_state(v, b, l) ==> #[trigger] agree_state(r, b, l),
{
    State {
        x: put3(v.x, i, x.x),
        v: put3(v.v, i, x.v),
        q: Quat {
            i: put(v.q.i, i, x.q.i),
            j: put(v.q.j, i, x.q.j),
            k: put(v.q.k, i, x.q.k),
            w: put(v.q.w, i, x.q.w),
        },
        w: put3(v.w, i, x.w),
        wind: put3(v.wind, i, x.wind),
        rotor_speeds: put4(v.rotor_speeds, i, x.rotor_speeds),
    }
}

/// One drone per lane. Inverses and allocation are computed per drone beforehand, by
/// [`QuadParams::from_input`], and only moved into lanes here.
pub fn pack_params<S: Scalar, const L: usize>(ps: &[QuadParams<S>; L]) -> (r: QuadParams<
    F64x<S, L>,
>)
    ensures
        forall|l: int| 0 <= l < L ==> agree_params(r, #[trigger] ps[l], l),
{
    let z = F64x::<S, L>::zero();
    let z3 = Vec3 { x: z, y: z, z };
    let zm = Mat3 { rows: [[z, z, z], [z, z, z], [z, z, z]] };
    let z4 = [z, z, z, z];
    let mut r = QuadParams {
        mass: z,
        inertia: zm,
        inv_inertia: zm,
        weight: z3,
        drag_diag: z3,
        k_eta: z,
        k_m: z,
        k_d: z,
        k_z: z,
        k_h: z,
        k_flap: z,
        tau_m: z,
        rotor_speed_min: z,
        rotor_speed_max: z,
        k_w: z,
        rotor_pos: [z3, z3, z3, z3],
        rotor_dir: z4,
        rotor_gain: z4,
        tm_to_f: Mat4 { rows: [z4, z4, z4, z4] },
    };
    for i in 0..L
        invariant
            forall|l: int| 0 <= l < i ==> agree_params(r, #[trigger] ps[l], l),
    {
        r = put_params(r, i, &ps[i]);
    }
    r
}

/// One state per lane.
pub fn pack_state<S: Scalar, const L: usize>(s: &[State<S>; L]) -> (r: State<F64x<S, L>>)
    ensures
        forall|l: int| 0 <= l < L ==> agree_state(r, #[trigger] s[l], l),
{
    let z = F64x::<S, L>::zero();
    let z3 = Vec3 { x: z, y: z, z };
    let mut r = State {
        x: z3,
        v: z3,
        q: Quat { i: z, j: z, k: z, w: z },
        w: z3,
        wind: z3,
        rotor_speeds: [z, z, z, z],
    };
    for i in 0..L
        invariant
            forall|l: int| 0 <= l < i ==> agree_state(r, #[trigger] s[l], l),
    {
        r = put_state(r, i, &s[i]);
    }
    r
}

/// The state in lane `l`.
pub fn unpack_state_lane<S: Scalar, const L: usize>(s: &State<F64x<S, L>>, l: usize) -> (r: State<
    S,
>)
    requires
        l < L,
    ensures
        agree_state(*s, r, l as int),
{
    State {
        x: Vec3::new(s.x.x.0[l], s.x.y.0[l], s.x.z.0[l]),
        v: Vec3::new(s.v.x.0[l], s.v.y.0[l], s.v.z.0[l]),
        q: Quat::new(s.q.i.0[l], s.q.j.0[l], s.q.k.0[l], s.q.w.0[l]),
        w: Vec3::new(s.w.x.0[l], s.w.y.0[l], s.w.z.0[l]),
        wind: Vec3::new(s.wind.x.0[l], s.wind.y.0[l], s.wind.z.0[l]),
        rotor_speeds: [
            s.rotor_speeds[0].0[l],
            s.rotor_speeds[1].0[l],
            s.rotor_speeds[2].0[l],
            s.rotor_speeds[3].0[l],
        ],
    }
}

/// One set of rotor forces per lane.
pub fn pack_rotor_forces<S: Scalar, const L: usize>(f: &[[S; NUM_ROTORS]; L]) -> (r: [F64x<S, L>;
    NUM_ROTORS])
    ensures
        forall|l: int| 0 <= l < L ==> agree4(r, #[trigger] f[l], l),
{
    let z = F64x::<S, L>::zero();
    let mut r = [z, z, z, z];
    for i in 0..L
        invariant
            forall|l: int| 0 <= l < i ==> agree4(r, #[trigger] f[l], l),
    {
        r = put4(r, i, f[i]);
    }
    r
}

// ---------------------------------------------------------------------------
// The kernel works lane by lane
// ---------------------------------------------------------------------------
proof fn lemma_vec3<S: Scalar, const L: usize>(
    a: Vec3<F64x<S, L>>,
    b: Vec3<S>,
    c: Vec3<F64x<S, L>>,
    d: Vec3<S>,
    s: F64x<S, L>,
    t: S,
    l: int,
)
    requires
        0 <= l < L,
        agree3(a, b, l),
        agree3(c, d, l),
        lane(s, l) == t,
    ensures
        agree3(a + c, b + d, l),
        agree3(a - c, b - d, l),
        agree3(a.spec_scale(s), b.spec_scale(t), l),
        agree3(a.spec_hadamard(c), b.spec_hadamard(d), l),
        agree3(a.spec_cross(c), b.spec_cross(d), l),
        lane(a.spec_dot(c), l) == b.spec_dot(d),
        lane(a.spec_norm(), l) == b.spec_norm(),
{
    broadcast use group_lanes;

}

proof fn lemma_matvec<S: Scalar, const L: usize>(
    m: Mat3<F64x<S, L>>,
    n: Mat3<S>,
    a: Vec3<F64x<S, L>>,
    b: Vec3<S>,
    l: int,
)
    requires
        0 <= l < L,
        agree_mat3(m, n, l),
        agree3(a, b, l),
    ensures
        agree3(m.spec_matvec(a), n.spec_matvec(b), l),
        agree3(m.spec_tmatvec(a), n.spec_tmatvec(b), l),
{
    broadcast use group_lanes;

}

proof fn lemma_quat<S: Scalar, const L: usize>(q: Quat<F64x<S, L>>, p: Quat<S>, l: int)
    requires
        0 <= l < L,
        agree_quat(q, p, l),
    ensures
        agree_quat(q.spec_normalized(), p.spec_normalized(), l),
        agree_mat3(q.spec_to_rotmat(), p.spec_to_rotmat(), l),
{
    broadcast use group_lanes;

}

proof fn lemma_quat_dot<S: Scalar, const L: usize>(
    q: Quat<F64x<S, L>>,
    p: Quat<S>,
    a: Vec3<F64x<S, L>>,
    b: Vec3<S>,
    l: int,
)
    requires
        0 <= l < L,
        agree_quat(q, p, l),
        agree3(a, b, l),
    ensures
        agree_quat(crate::so3::spec_quat_dot(q, a), crate::so3::spec_quat_dot(p, b), l),
{
    broadcast use group_lanes;

}

/// The parts of the parameters that one rotor uses.
proof fn lemma_rotor<S: Scalar, const L: usize>(
    a: QuadParams<F64x<S, L>>,
    b: QuadParams<S>,
    ra: Vec3<F64x<S, L>>,
    rb: Vec3<S>,
    oa: F64x<S, L>,
    ob: S,
    va: Vec3<F64x<S, L>>,
    vb: Vec3<S>,
    j: int,
    l: int,
)
    requires
        0 <= l < L,
        0 <= j < NUM_ROTORS,
        agree_params(a, b, l),
        agree3(ra, rb, l),
        lane(oa, l) == ob,
        agree3(va, vb, l),
    ensures
        agree3(
            crate::multirotor::spec_rotor_air(a, ra, va, j),
            crate::multirotor::spec_rotor_air(b, rb, vb, j),
            l,
        ),
        agree3(
            crate::multirotor::spec_rotor_force(a, oa, va, j),
            crate::multirotor::spec_rotor_force(b, ob, vb, j),
            l,
        ),
        agree3(
            crate::multirotor::spec_rotor_yaw(a, oa, j),
            crate::multirotor::spec_rotor_yaw(b, ob, j),
            l,
        ),
        agree3(
            crate::multirotor::spec_rotor_flap(a, oa, va),
            crate::multirotor::spec_rotor_flap(b, ob, vb),
            l,
        ),
        agree3(a.rotor_pos[j], b.rotor_pos[j], l),
{
    broadcast use group_lanes;

    assert(j == 0 || j == 1 || j == 2 || j == 3);
    lemma_vec3(ra, rb, a.rotor_pos[j], b.rotor_pos[j], oa, ob, l);
}

proof fn lemma_rotor_sums<S: Scalar, const L: usize>(
    a: QuadParams<F64x<S, L>>,
    b: QuadParams<S>,
    ra: Vec3<F64x<S, L>>,
    rb: Vec3<S>,
    sa: Seq<F64x<S, L>>,
    sb: Seq<S>,
    va: Vec3<F64x<S, L>>,
    vb: Vec3<S>,
    n: nat,
    l: int,
)
    requires
        0 <= l < L,
        n <= NUM_ROTORS,
        sb.len() == NUM_ROTORS,
        agree_params(a, b, l),
        agree3(ra, rb, l),
        agree_seq(sa, sb, l),
        agree3(va, vb, l),
    ensures
        ({
            let p = crate::multirotor::spec_rotor_sums(a, ra, sa, va, n);
            let q = crate::multirotor::spec_rotor_sums(b, rb, sb, vb, n);
            agree3(p.0, q.0, l) && agree3(p.1, q.1, l) && agree3(p.2, q.2, l)
        }),
    decreases n,
{
    broadcast use group_lanes;

    if n > 0 {
        let j = n - 1;
        lemma_rotor_sums(a, b, ra, rb, sa, sb, va, vb, j as nat, l);
        let (p, q) = (
            crate::multirotor::spec_rotor_sums(a, ra, sa, va, j as nat),
            crate::multirotor::spec_rotor_sums(b, rb, sb, vb, j as nat),
        );
        let (oa, ob) = (sa[j], sb[j]);
        let aa = crate::multirotor::spec_rotor_air(a, ra, va, j);
        let ab = crate::multirotor::spec_rotor_air(b, rb, vb, j);
        lemma_rotor(a, b, ra, rb, oa, ob, va, vb, j, l);
        lemma_rotor(a, b, ra, rb, oa, ob, aa, ab, j, l);
        let fa = crate::multirotor::spec_rotor_force(a, oa, aa, j);
        let fb = crate::multirotor::spec_rotor_force(b, ob, ab, j);
        let (ya, yb) = (
            crate::multirotor::spec_rotor_yaw(a, oa, j),
            crate::multirotor::spec_rotor_yaw(b, ob, j),
        );
        let (pa, pb) = (
            crate::multirotor::spec_rotor_flap(a, oa, aa),
            crate::multirotor::spec_rotor_flap(b, ob, ab),
        );
        lemma_vec3(p.0, q.0, fa, fb, oa, ob, l);
        lemma_vec3(a.rotor_pos[j], b.rotor_pos[j], fa, fb, oa, ob, l);
        lemma_vec3(
            p.1,
            q.1,
            a.rotor_pos[j].spec_cross(fa),
            b.rotor_pos[j].spec_cross(fb),
            oa,
            ob,
            l,
        );
        lemma_vec3(p.2, q.2, ya, yb, oa, ob, l);
        lemma_vec3(p.2 + ya, q.2 + yb, pa, pb, oa, ob, l);
    }
}

proof fn lemma_body_wrench<S: Scalar, const L: usize>(
    a: QuadParams<F64x<S, L>>,
    b: QuadParams<S>,
    ra: Vec3<F64x<S, L>>,
    rb: Vec3<S>,
    sa: Seq<F64x<S, L>>,
    sb: Seq<S>,
    va: Vec3<F64x<S, L>>,
    vb: Vec3<S>,
    l: int,
)
    requires
        0 <= l < L,
        sb.len() == NUM_ROTORS,
        agree_params(a, b, l),
        agree3(ra, rb, l),
        agree_seq(sa, sb, l),
        agree3(va, vb, l),
    ensures
        ({
            let p = crate::multirotor::spec_body_wrench(a, ra, sa, va);
            let q = crate::multirotor::spec_body_wrench(b, rb, sb, vb);
            agree3(p.0, q.0, l) && agree3(p.1, q.1, l)
        }),
{
    broadcast use group_lanes;

    lemma_rotor_sums(a, b, ra, rb, sa, sb, va, vb, NUM_ROTORS as nat, l);
    let p = crate::multirotor::spec_rotor_sums(a, ra, sa, va, NUM_ROTORS as nat);
    let q = crate::multirotor::spec_rotor_sums(b, rb, sb, vb, NUM_ROTORS as nat);
    lemma_vec3(va, vb, a.drag_diag, b.drag_diag, va.x, vb.x, l);
    let (na, nb) = (-va.spec_norm(), -vb.spec_norm());
    let (ha, hb) = (va.spec_hadamard(a.drag_diag), vb.spec_hadamard(b.drag_diag));
    lemma_vec3(ha, hb, ha, hb, na, nb, l);
    lemma_vec3(p.0, q.0, ha.spec_scale(na), hb.spec_scale(nb), na, nb, l);
    lemma_vec3(p.1, q.1, p.2, q.2, na, nb, l);
}

proof fn lemma_unpack<S: Scalar, const L: usize>(a: Seq<F64x<S, L>>, b: Seq<S>, l: int)
    requires
        0 <= l < L,
        b.len() == crate::state::STATE_LEN,
        agree_seq(a, b, l),
    ensures
        agree_state(State::spec_unpack(a), State::spec_unpack(b), l),
{
    assert(lane(a[0], l) == b[0] && lane(a[1], l) == b[1] && lane(a[2], l) == b[2]);
    assert(lane(a[3], l) == b[3] && lane(a[4], l) == b[4] && lane(a[5], l) == b[5]);
    assert(lane(a[6], l) == b[6] && lane(a[7], l) == b[7] && lane(a[8], l) == b[8]);
    assert(lane(a[9], l) == b[9] && lane(a[10], l) == b[10] && lane(a[11], l) == b[11]);
    assert(lane(a[12], l) == b[12] && lane(a[13], l) == b[13] && lane(a[14], l) == b[14]);
    assert(lane(a[15], l) == b[15] && lane(a[16], l) == b[16] && lane(a[17], l) == b[17]);
    assert(lane(a[18], l) == b[18] && lane(a[19], l) == b[19]);
}

proof fn lemma_pack<S: Scalar, const L: usize>(a: State<F64x<S, L>>, b: State<S>, l: int)
    requires
        0 <= l < L,
        agree_state(a, b, l),
    ensures
        agree_seq(a.spec_pack(), b.spec_pack(), l),
{
}

proof fn lemma_rotors_seq<S: Scalar, const L: usize>(
    a: [F64x<S, L>; NUM_ROTORS],
    b: [S; NUM_ROTORS],
    l: int,
)
    requires
        0 <= l < L,
        agree4(a, b, l),
    ensures
        agree_seq(a@, b@, l),
{
    assert forall|i: int| 0 <= i < 4 implies lane(#[trigger] a@[i], l) == b@[i] by {
        assert(i == 0 || i == 1 || i == 2 || i == 3);
    }
}

/// The motor lag of one rotor.
proof fn lemma_lag<S: Scalar, const L: usize>(
    c: F64x<S, L>,
    d: S,
    m: F64x<S, L>,
    k: S,
    t: F64x<S, L>,
    u: S,
    l: int,
)
    requires
        0 <= l < L,
        lane(c, l) == d,
        lane(m, l) == k,
        lane(t, l) == u,
    ensures
        lane(F64x::<S, L>::spec_zero(), l) == S::spec_zero(),
        lane(F64x::<S, L>::spec_one(), l) == S::spec_one(),
        lane(F64x::<S, L>::spec_one() / t, l) == S::spec_one() / u,
        lane((c - m) * (F64x::<S, L>::spec_one() / t), l) == (d - k) * (S::spec_one() / u),
{
    broadcast use group_lanes;

}

/// The parts of a state derivative agree.
proof fn lemma_derivative<S: Scalar, const L: usize>(
    a: QuadParams<F64x<S, L>>,
    b: QuadParams<S>,
    x: State<F64x<S, L>>,
    y: State<S>,
    l: int,
)
    requires
        0 <= l < L,
        agree_params(a, b, l),
        agree_state(x, y, l),
    ensures
        ({
            let (ra, rb) = (x.q.spec_to_rotmat(), y.q.spec_to_rotmat());
            let va = ra.spec_tmatvec(x.v - x.wind);
            let vb = rb.spec_tmatvec(y.v - y.wind);
            let (fa, ma) = crate::multirotor::spec_body_wrench(a, x.w, x.rotor_speeds@, va);
            let (fb, mb) = crate::multirotor::spec_body_wrench(b, y.w, y.rotor_speeds@, vb);
            let ga = x.w.spec_cross(a.inertia.spec_matvec(x.w));
            let gb = y.w.spec_cross(b.inertia.spec_matvec(y.w));
            &&& agree3(
                (a.weight + ra.spec_matvec(fa)).spec_scale(F64x::<S, L>::spec_one() / a.mass),
                (b.weight + rb.spec_matvec(fb)).spec_scale(S::spec_one() / b.mass),
                l,
            )
            &&& agree3(
                a.inv_inertia.spec_matvec(ma - ga),
                b.inv_inertia.spec_matvec(mb - gb),
                l,
            )
            &&& agree_quat(
                crate::so3::spec_quat_dot(x.q, x.w),
                crate::so3::spec_quat_dot(y.q, y.w),
                l,
            )
        }),
{
    let (one, o) = (F64x::<S, L>::spec_one(), S::spec_one());
    lemma_lag(a.mass, b.mass, a.mass, b.mass, a.mass, b.mass, l);
    lemma_quat(x.q, y.q, l);
    let (ra, rb) = (x.q.spec_to_rotmat(), y.q.spec_to_rotmat());
    lemma_vec3(x.v, y.v, x.wind, y.wind, one, o, l);
    lemma_matvec(ra, rb, x.v - x.wind, y.v - y.wind, l);
    let (va, vb) = (ra.spec_tmatvec(x.v - x.wind), rb.spec_tmatvec(y.v - y.wind));
    lemma_rotors_seq(x.rotor_speeds, y.rotor_speeds, l);
    lemma_body_wrench(a, b, x.w, y.w, x.rotor_speeds@, y.rotor_speeds@, va, vb, l);
    let (wa, wb) = (
        crate::multirotor::spec_body_wrench(a, x.w, x.rotor_speeds@, va),
        crate::multirotor::spec_body_wrench(b, y.w, y.rotor_speeds@, vb),
    );
    lemma_matvec(ra, rb, wa.0, wb.0, l);
    lemma_vec3(a.weight, b.weight, ra.spec_matvec(wa.0), rb.spec_matvec(wb.0), one, o, l);
    let (sum_a, sum_b) = (a.weight + ra.spec_matvec(wa.0), b.weight + rb.spec_matvec(wb.0));
    lemma_vec3(sum_a, sum_b, sum_a, sum_b, one / a.mass, o / b.mass, l);
    lemma_matvec(a.inertia, b.inertia, x.w, y.w, l);
    let (ia, ib) = (a.inertia.spec_matvec(x.w), b.inertia.spec_matvec(y.w));
    lemma_vec3(x.w, y.w, ia, ib, one, o, l);
    let (ga, gb) = (x.w.spec_cross(ia), y.w.spec_cross(ib));
    lemma_vec3(wa.1, wb.1, ga, gb, one, o, l);
    lemma_matvec(a.inv_inertia, b.inv_inertia, wa.1 - ga, wb.1 - gb, l);
    lemma_quat_dot(x.q, y.q, x.w, y.w, l);
}

proof fn lemma_s_dot<S: Scalar, const L: usize>(
    a: QuadParams<F64x<S, L>>,
    b: QuadParams<S>,
    sa: Seq<F64x<S, L>>,
    sb: Seq<S>,
    ca: Seq<F64x<S, L>>,
    cb: Seq<S>,
    l: int,
)
    requires
        0 <= l < L,
        agree_params(a, b, l),
        sb.len() == crate::state::STATE_LEN,
        agree_seq(sa, sb, l),
        cb.len() == NUM_ROTORS,
        agree_seq(ca, cb, l),
    ensures
        agree_seq(
            crate::multirotor::spec_s_dot(a, sa, ca),
            crate::multirotor::spec_s_dot(b, sb, cb),
            l,
        ),
        crate::multirotor::spec_s_dot(b, sb, cb).len() == crate::state::STATE_LEN,
{
    lemma_unpack(sa, sb, l);
    let (x, y) = (State::spec_unpack(sa), State::spec_unpack(sb));
    lemma_derivative(a, b, x, y, l);
    assert(lane(ca[0], l) == cb[0] && lane(ca[1], l) == cb[1]);
    assert(lane(ca[2], l) == cb[2] && lane(ca[3], l) == cb[3]);
    let (m, n) = (x.rotor_speeds, y.rotor_speeds);
    lemma_lag(ca[0], cb[0], m[0], n[0], a.tau_m, b.tau_m, l);
    lemma_lag(ca[1], cb[1], m[1], n[1], a.tau_m, b.tau_m, l);
    lemma_lag(ca[2], cb[2], m[2], n[2], a.tau_m, b.tau_m, l);
    lemma_lag(ca[3], cb[3], m[3], n[3], a.tau_m, b.tau_m, l);
    let (p, q) = (
        crate::multirotor::spec_s_dot(a, sa, ca),
        crate::multirotor::spec_s_dot(b, sb, cb),
    );
    reveal(crate::multirotor::spec_s_dot);
    assert(p.len() == q.len());
    assert forall|i: int| 0 <= i < q.len() implies lane(#[trigger] p[i], l) == q[i] by {
        if i < 3 {
        } else if i < 6 {
        } else if i < 10 {
        } else if i < 13 {
        } else if i < 16 {
        }
    }
}

proof fn lemma_axpy<S: Scalar, const L: usize>(
    ha: F64x<S, L>,
    hb: S,
    xa: Seq<F64x<S, L>>,
    xb: Seq<S>,
    ya: Seq<F64x<S, L>>,
    yb: Seq<S>,
    l: int,
)
    requires
        0 <= l < L,
        lane(ha, l) == hb,
        xb.len() == crate::state::STATE_LEN,
        yb.len() == crate::state::STATE_LEN,
        agree_seq(xa, xb, l),
        agree_seq(ya, yb, l),
    ensures
        agree_seq(
            crate::multirotor::spec_axpy(ha, xa, ya),
            crate::multirotor::spec_axpy(hb, xb, yb),
            l,
        ),
{
    broadcast use group_lanes;

    let (p, q) = (
        crate::multirotor::spec_axpy(ha, xa, ya),
        crate::multirotor::spec_axpy(hb, xb, yb),
    );
    assert forall|i: int| 0 <= i < q.len() implies lane(#[trigger] p[i], l) == q[i] by {
        assert(lane(xa[i], l) == xb[i] && lane(ya[i], l) == yb[i]);
    }
}

/// The weighted sum of the four slopes.
proof fn lemma_rk4_sum<S: Scalar, const L: usize>(
    s: F64x<S, L>,
    t: S,
    h: F64x<S, L>,
    g: S,
    k: (F64x<S, L>, F64x<S, L>, F64x<S, L>, F64x<S, L>),
    m: (S, S, S, S),
    l: int,
)
    requires
        0 <= l < L,
        lane(s, l) == t,
        lane(h, l) == g,
        lane(k.0, l) == m.0,
        lane(k.1, l) == m.1,
        lane(k.2, l) == m.2,
        lane(k.3, l) == m.3,
    ensures
        ({
            let (sixth, third) = (
                h * F64x::<S, L>::spec_splat(1, 6),
                h * F64x::<S, L>::spec_splat(1, 3),
            );
            let (u, v) = (g * S::spec_splat(1, 6), g * S::spec_splat(1, 3));
            lane(s + sixth * (k.0 + k.3) + third * (k.1 + k.2), l) == t + u * (m.0 + m.3) + v * (
            m.1 + m.2)
        }),
        lane(h * F64x::<S, L>::spec_splat(1, 2), l) == g * S::spec_splat(1, 2),
{
    broadcast use group_lanes;

}

proof fn lemma_rk4<S: Scalar, const L: usize>(
    a: QuadParams<F64x<S, L>>,
    b: QuadParams<S>,
    sa: Seq<F64x<S, L>>,
    sb: Seq<S>,
    ca: Seq<F64x<S, L>>,
    cb: Seq<S>,
    ha: F64x<S, L>,
    hb: S,
    l: int,
)
    requires
        0 <= l < L,
        agree_params(a, b, l),
        sb.len() == crate::state::STATE_LEN,
        agree_seq(sa, sb, l),
        cb.len() == NUM_ROTORS,
        agree_seq(ca, cb, l),
        lane(ha, l) == hb,
    ensures
        agree_seq(
            crate::multirotor::spec_rk4(a, sa, ca, ha),
            crate::multirotor::spec_rk4(b, sb, cb, hb),
            l,
        ),
        crate::multirotor::spec_rk4(b, sb, cb, hb).len() == crate::state::STATE_LEN,
{
    lemma_rk4_sum(ha, hb, ha, hb, (ha, ha, ha, ha), (hb, hb, hb, hb), l);
    let (fa, fb) = (ha * F64x::<S, L>::spec_splat(1, 2), hb * S::spec_splat(1, 2));
    let (k1, m1) = (
        crate::multirotor::spec_s_dot(a, sa, ca),
        crate::multirotor::spec_s_dot(b, sb, cb),
    );
    lemma_s_dot(a, b, sa, sb, ca, cb, l);
    let (x2, y2) = (
        crate::multirotor::spec_axpy(fa, k1, sa),
        crate::multirotor::spec_axpy(fb, m1, sb),
    );
    lemma_axpy(fa, fb, k1, m1, sa, sb, l);
    let (k2, m2) = (
        crate::multirotor::spec_s_dot(a, x2, ca),
        crate::multirotor::spec_s_dot(b, y2, cb),
    );
    lemma_s_dot(a, b, x2, y2, ca, cb, l);
    let (x3, y3) = (
        crate::multirotor::spec_axpy(fa, k2, sa),
        crate::multirotor::spec_axpy(fb, m2, sb),
    );
    lemma_axpy(fa, fb, k2, m2, sa, sb, l);
    let (k3, m3) = (
        crate::multirotor::spec_s_dot(a, x3, ca),
        crate::multirotor::spec_s_dot(b, y3, cb),
    );
    lemma_s_dot(a, b, x3, y3, ca, cb, l);
    let (x4, y4) = (
        crate::multirotor::spec_axpy(ha, k3, sa),
        crate::multirotor::spec_axpy(hb, m3, sb),
    );
    lemma_axpy(ha, hb, k3, m3, sa, sb, l);
    let (k4, m4) = (
        crate::multirotor::spec_s_dot(a, x4, ca),
        crate::multirotor::spec_s_dot(b, y4, cb),
    );
    lemma_s_dot(a, b, x4, y4, ca, cb, l);
    let (p, q) = (
        crate::multirotor::spec_rk4(a, sa, ca, ha),
        crate::multirotor::spec_rk4(b, sb, cb, hb),
    );
    reveal(crate::multirotor::spec_rk4);
    assert forall|i: int| 0 <= i < q.len() implies lane(#[trigger] p[i], l) == q[i] by {
        assert(lane(sa[i], l) == sb[i]);
        assert(lane(k1[i], l) == m1[i] && lane(k2[i], l) == m2[i]);
        assert(lane(k3[i], l) == m3[i] && lane(k4[i], l) == m4[i]);
        lemma_rk4_sum(
            sa[i],
            sb[i],
            ha,
            hb,
            (k1[i], k2[i], k3[i], k4[i]),
            (m1[i], m2[i], m3[i], m4[i]),
            l,
        );
    }
}

proof fn lemma_rk4_steps<S: Scalar, const L: usize>(
    a: QuadParams<F64x<S, L>>,
    b: QuadParams<S>,
    sa: Seq<F64x<S, L>>,
    sb: Seq<S>,
    ca: Seq<F64x<S, L>>,
    cb: Seq<S>,
    ha: F64x<S, L>,
    hb: S,
    n: nat,
    l: int,
)
    requires
        0 <= l < L,
        agree_params(a, b, l),
        sb.len() == crate::state::STATE_LEN,
        agree_seq(sa, sb, l),
        cb.len() == NUM_ROTORS,
        agree_seq(ca, cb, l),
        lane(ha, l) == hb,
    ensures
        agree_seq(
            crate::multirotor::spec_rk4_steps(a, sa, ca, ha, n),
            crate::multirotor::spec_rk4_steps(b, sb, cb, hb, n),
            l,
        ),
        crate::multirotor::spec_rk4_steps(b, sb, cb, hb, n).len() == crate::state::STATE_LEN,
    decreases n,
{
    if n > 0 {
        lemma_rk4_steps(a, b, sa, sb, ca, cb, ha, hb, (n - 1) as nat, l);
        lemma_rk4(
            a,
            b,
            crate::multirotor::spec_rk4_steps(a, sa, ca, ha, (n - 1) as nat),
            crate::multirotor::spec_rk4_steps(b, sb, cb, hb, (n - 1) as nat),
            ca,
            cb,
            ha,
            hb,
            l,
        );
    }
}

/// Cutting rotor speeds to the motor range works lane by lane.
pub proof fn law_batched_clip<S: Scalar, const L: usize>(
    a: QuadParams<F64x<S, L>>,
    b: QuadParams<S>,
    ra: Seq<F64x<S, L>>,
    rb: Seq<S>,
    l: int,
)
    requires
        0 <= l < L,
        agree_params(a, b, l),
        rb.len() == NUM_ROTORS,
        agree_seq(ra, rb, l),
    ensures
        agree_seq(
            crate::multirotor::spec_clip_speeds(a, ra),
            crate::multirotor::spec_clip_speeds(b, rb),
            l,
        ),
{
    broadcast use group_lanes;

    assert(lane(ra[0], l) == rb[0] && lane(ra[1], l) == rb[1]);
    assert(lane(ra[2], l) == rb[2] && lane(ra[3], l) == rb[3]);
}

/// Turning rotor forces into rotor speeds works lane by lane.
pub proof fn law_batched_forces<S: Scalar, const L: usize>(
    a: QuadParams<F64x<S, L>>,
    b: QuadParams<S>,
    fa: [F64x<S, L>; NUM_ROTORS],
    fb: [S; NUM_ROTORS],
    l: int,
)
    requires
        0 <= l < L,
        agree_params(a, b, l),
        agree4(fa, fb, l),
    ensures
        agree_seq(
            crate::control::spec_forces_to_speeds(fa@, a.k_eta),
            crate::control::spec_forces_to_speeds(fb@, b.k_eta),
            l,
        ),
{
    broadcast use group_lanes;

}

proof fn lemma_step_size<S: Scalar, const L: usize>(h: F64x<S, L>, g: S, n: nat, l: int)
    requires
        0 <= l < L,
        lane(h, l) == g,
    ensures
        lane(h * F64x::<S, L>::spec_splat(1, n), l) == g * S::spec_splat(1, n),
{
    broadcast use group_lanes;

}

/// A batched step is one step of every drone in it: lane `l` of the result is, to the last
/// bit, what stepping the drone of that lane alone gives.
pub proof fn law_batched_step_matches_lane<S: Scalar, const L: usize>(
    a: QuadParams<F64x<S, L>>,
    b: QuadParams<S>,
    sa: State<F64x<S, L>>,
    sb: State<S>,
    ca: Seq<F64x<S, L>>,
    cb: Seq<S>,
    ha: F64x<S, L>,
    hb: S,
    n_sub: nat,
    l: int,
)
    requires
        0 <= l < L,
        agree_params(a, b, l),
        agree_state(sa, sb, l),
        cb.len() == NUM_ROTORS,
        agree_seq(ca, cb, l),
        lane(ha, l) == hb,
    ensures
        agree_state(
            crate::multirotor::spec_integrate(a, sa, ca, ha, n_sub),
            crate::multirotor::spec_integrate(b, sb, cb, hb, n_sub),
            l,
        ),
{
    let n = crate::multirotor::spec_substeps(n_sub);
    lemma_step_size(ha, hb, n, l);
    let (ga, gb) = (ha * F64x::<S, L>::spec_splat(1, n), hb * S::spec_splat(1, n));
    lemma_pack(sa, sb, l);
    lemma_rk4_steps(a, b, sa.spec_pack(), sb.spec_pack(), ca, cb, ga, gb, n, l);
    let p = crate::multirotor::spec_rk4_steps(a, sa.spec_pack(), ca, ga, n);
    let q = crate::multirotor::spec_rk4_steps(b, sb.spec_pack(), cb, gb, n);
    lemma_unpack(p, q, l);
    let (x, y) = (State::spec_unpack(p), State::spec_unpack(q));
    lemma_quat(x.q, y.q, l);
    lemma_rotors_seq(x.rotor_speeds, y.rotor_speeds, l);
    law_batched_clip(a, b, x.rotor_speeds@, y.rotor_speeds@, l);
    let (ma, mb) = (
        crate::multirotor::spec_clip_speeds(a, x.rotor_speeds@),
        crate::multirotor::spec_clip_speeds(b, y.rotor_speeds@),
    );
    assert(lane(ma[0], l) == mb[0] && lane(ma[1], l) == mb[1]);
    assert(lane(ma[2], l) == mb[2] && lane(ma[3], l) == mb[3]);
}

} // verus!
