//! The arithmetic the whole crate is generic over.
//!
//! The physics, the planners and the network are written once against these
//! traits. A plain floating-point type implements all three; a lane vector
//! ([`crate::simd::F64x`]) implements [`Scalar`] alone, and the identical kernel
//! then steps a whole batch of drones at once.
//!
//! Every executable operation is tied to a specification function of the same
//! meaning: what the crate promises of a computation is the exact expression that
//! is evaluated, in its order of evaluation, since a rounding scalar tells
//! `a + (b + c)` from `(a + b) + c`. Inside specifications `+ - * /` and unary `-`
//! stand for these functions. The contract of an implementation is that its
//! operations are functions of their operands (for a floating-point type, with all
//! NaNs taken as one value). The specification functions of the traits are left open: an
//! implementation in unverified code need not give them.
use vstd::prelude::*;

verus! {

/// Branchless arithmetic: everything the dynamics kernel needs.
pub trait Scalar: Copy {
    /// The value of [`Scalar::zero`].
    closed spec fn spec_zero() -> Self {
        vstd::pervasive::arbitrary()
    }

    /// The value of [`Scalar::one`].
    closed spec fn spec_one() -> Self {
        vstd::pervasive::arbitrary()
    }

    /// The scalar that stands for the fraction `num / den`.
    closed spec fn spec_splat(num: int, den: nat) -> Self {
        vstd::pervasive::arbitrary()
    }

    /// The meaning of `+`.
    closed spec fn spec_add(self, o: Self) -> Self {
        vstd::pervasive::arbitrary()
    }

    /// The meaning of `-`.
    closed spec fn spec_sub(self, o: Self) -> Self {
        vstd::pervasive::arbitrary()
    }

    /// The meaning of `*`.
    closed spec fn spec_mul(self, o: Self) -> Self {
        vstd::pervasive::arbitrary()
    }

    /// The meaning of `/` (this is the name that a `/` in a specification resolves to).
    closed spec fn spec_euclidean_or_real_div(self, o: Self) -> Self {
        vstd::pervasive::arbitrary()
    }

    /// The meaning of unary `-`.
    closed spec fn spec_neg(self) -> Self {
        vstd::pervasive::arbitrary()
    }

    /// The value of [`Scalar::sqrt`].
    closed spec fn spec_sqrt(self) -> Self {
        vstd::pervasive::arbitrary()
    }

    /// The value of [`Scalar::abs`].
    closed spec fn spec_abs(self) -> Self {
        vstd::pervasive::arbitrary()
    }

    /// The value of [`Scalar::signum`].
    closed spec fn spec_signum(self) -> Self {
        vstd::pervasive::arbitrary()
    }

    /// The value of [`Scalar::min`].
    closed spec fn spec_min(self, o: Self) -> Self {
        vstd::pervasive::arbitrary()
    }

    /// The value of [`Scalar::max`].
    closed spec fn spec_max(self, o: Self) -> Self {
        vstd::pervasive::arbitrary()
    }

    /// Zero in every lane.
    fn zero() -> (r: Self)
        ensures
            r == Self::spec_zero(),
    ;

    /// One in every lane.
    fn one() -> (r: Self)
        ensures
            r == Self::spec_one(),
    ;

    /// Broadcast the constant `num / den` to every lane. For a floating-point type
    /// this is the rounded quotient of the two rounded integers.
    fn splat(num: i128, den: u64) -> (r: Self)
        requires
            den > 0,
        ensures
            r == Self::spec_splat(num as int, den as nat),
    ;

    fn add(self, o: Self) -> (r: Self)
        ensures
            r == self + o,
    ;

    fn sub(self, o: Self) -> (r: Self)
        ensures
            r == self - o,
    ;

    fn mul(self, o: Self) -> (r: Self)
        ensures
            r == self * o,
    ;

    fn div(self, o: Self) -> (r: Self)
        ensures
            r == self / o,
    ;

    fn neg(self) -> (r: Self)
        ensures
            r == -self,
    ;

    fn sqrt(self) -> (r: Self)
        ensures
            r == self.spec_sqrt(),
    ;

    fn abs(self) -> (r: Self)
        ensures
            r == self.spec_abs(),
    ;

    /// `copysign(1, self)`: magnitude 1 carrying the sign of `self`, `+1` at zero.
    fn signum(self) -> (r: Self)
        ensures
            r == self.spec_signum(),
    ;

    fn min(self, o: Self) -> (r: Self)
        ensures
            r == self.spec_min(o),
    ;

    fn max(self, o: Self) -> (r: Self)
        ensures
            r == self.spec_max(o),
    ;

    /// Raise to `lo`, then cut to `hi`; no branch.
    fn clamp(self, lo: Self, hi: Self) -> (r: Self)
        ensures
            r == self.spec_max(lo).spec_min(hi),
    {
        self.max(lo).min(hi)
    }
}

/// A scalar of one lane: it can be compared and branched on, and it has the
/// elementary functions.
pub trait Real: Scalar {
    /// The number that a finite scalar stands for.
    closed spec fn val(self) -> real {
        vstd::pervasive::arbitrary()
    }

    /// The meaning of `<`.
    closed spec fn spec_lt(self, o: Self) -> bool {
        vstd::pervasive::arbitrary()
    }

    /// The meaning of `<=`.
    closed spec fn spec_le(self, o: Self) -> bool {
        vstd::pervasive::arbitrary()
    }

    /// The value of [`Real::is_finite`].
    closed spec fn spec_is_finite(self) -> bool {
        vstd::pervasive::arbitrary()
    }

    /// The value of [`Real::infinity`].
    closed spec fn spec_infinity() -> Self {
        vstd::pervasive::arbitrary()
    }

    /// The value of [`Real::nan`].
    closed spec fn spec_nan() -> Self {
        vstd::pervasive::arbitrary()
    }

    /// The value of [`Real::pi`].
    closed spec fn spec_pi() -> Self {
        vstd::pervasive::arbitrary()
    }

    /// The value of [`Real::exp`].
    closed spec fn spec_exp(self) -> Self {
        vstd::pervasive::arbitrary()
    }

    /// The value of [`Real::ln`].
    closed spec fn spec_ln(self) -> Self {
        vstd::pervasive::arbitrary()
    }

    /// The value of [`Real::sin`].
    closed spec fn spec_sin(self) -> Self {
        vstd::pervasive::arbitrary()
    }

    /// The value of [`Real::cos`].
    closed spec fn spec_cos(self) -> Self {
        vstd::pervasive::arbitrary()
    }

    /// The value of [`Real::tanh`].
    closed spec fn spec_tanh(self) -> Self {
        vstd::pervasive::arbitrary()
    }

    fn lt(self, o: Self) -> (r: bool)
        ensures
            r == (self < o),
    ;

    fn le(self, o: Self) -> (r: bool)
        ensures
            r == (self <= o),
    ;

    /// Neither infinite nor NaN.
    fn is_finite(self) -> (r: bool)
        ensures
            r == self.spec_is_finite(),
    ;

    fn infinity() -> (r: Self)
        ensures
            r == Self::spec_infinity(),
    ;

    fn nan() -> (r: Self)
        ensures
            r == Self::spec_nan(),
    ;

    fn pi() -> (r: Self)
        ensures
            r == Self::spec_pi(),
    ;

    fn exp(self) -> (r: Self)
        ensures
            r == self.spec_exp(),
    ;

    fn ln(self) -> (r: Self)
        ensures
            r == self.spec_ln(),
    ;

    fn sin(self) -> (r: Self)
        ensures
            r == self.spec_sin(),
    ;

    fn cos(self) -> (r: Self)
        ensures
            r == self.spec_cos(),
    ;

    fn tanh(self) -> (r: Self)
        ensures
            r == self.spec_tanh(),
    ;
}

/// A double-precision scalar, with the single-precision one that the networks
/// compute in.
pub trait Wide: Real {
    type Narrow: Real;

    /// The value of [`Wide::narrow`].
    closed spec fn spec_narrow(self) -> Self::Narrow {
        vstd::pervasive::arbitrary()
    }

    /// The value of [`Wide::widen`].
    closed spec fn spec_widen(n: Self::Narrow) -> Self {
        vstd::pervasive::arbitrary()
    }

    /// The value of [`Wide::from_bits`].
    closed spec fn spec_from_bits(bits: u64) -> Self {
        vstd::pervasive::arbitrary()
    }

    /// The value of [`Wide::narrow_from_bits`].
    closed spec fn spec_narrow_from_bits(bits: u32) -> Self::Narrow {
        vstd::pervasive::arbitrary()
    }

    /// Round to single precision.
    fn narrow(self) -> (r: Self::Narrow)
        ensures
            r == self.spec_narrow(),
    ;

    /// The same number in double precision.
    fn widen(n: Self::Narrow) -> (r: Self)
        ensures
            r == Self::spec_widen(n),
    ;

    /// The double with this IEEE 754 bit pattern.
    fn from_bits(bits: u64) -> (r: Self)
        ensures
            r == Self::spec_from_bits(bits),
    ;

    /// The single with this IEEE 754 bit pattern.
    fn narrow_from_bits(bits: u32) -> (r: Self::Narrow)
        ensures
            r == Self::spec_narrow_from_bits(bits),
    ;
}

/// Arithmetic without rounding: each operation gives the number it stands for.
/// Floating-point types approach this; the laws of geometry and interpolation that
/// hold of them only up to rounding are stated of scalars for which it holds.
pub open spec fn exact<S: Real>() -> bool {
    &&& S::spec_zero().val() == 0real
    &&& S::spec_one().val() == 1real
    &&& forall|n: int, d: nat|
        d > 0 ==> (#[trigger] S::spec_splat(n, d)).val() * (d as real) == n as real
    &&& forall|a: S, b: S| (#[trigger] (a + b)).val() == a.val() + b.val()
    &&& forall|a: S, b: S| (#[trigger] (a - b)).val() == a.val() - b.val()
    &&& forall|a: S, b: S| (#[trigger] (a * b)).val() == a.val() * b.val()
    &&& forall|a: S, b: S|
        b.val() != 0real ==> (#[trigger] (a / b)).val() == a.val() / b.val()
    &&& forall|a: S| (#[trigger] (-a)).val() == -a.val()
    &&& forall|a: S|
        a.val() >= 0real ==> (#[trigger] a.spec_sqrt()).val() >= 0real && a.spec_sqrt().val()
            * a.spec_sqrt().val() == a.val()
    &&& forall|a: S|
        (#[trigger] a.spec_signum()).val() == if a.val() >= 0real {
            1real
        } else {
            -1real
        }
    &&& forall|a: S| #[trigger] a.spec_is_finite()
    &&& ordered::<S>()
}

/// Comparisons, `min`, `max` and `abs` of finite scalars agree with the order of the
/// numbers. None of these rounds, so this holds of a floating-point type too.
pub open spec fn ordered<S: Real>() -> bool {
    &&& forall|a: S, b: S|
        a.spec_is_finite() && b.spec_is_finite() ==> ((#[trigger] (a < b)) <==> a.val() < b.val())
    &&& forall|a: S, b: S|
        a.spec_is_finite() && b.spec_is_finite() ==> ((#[trigger] (a <= b)) <==> a.val()
            <= b.val())
    &&& forall|a: S, b: S|
        a.spec_is_finite() && b.spec_is_finite() ==> ((#[trigger] a.spec_min(b)) == a && a.val()
            <= b.val() || a.spec_min(b) == b && b.val() <= a.val())
    &&& forall|a: S, b: S|
        a.spec_is_finite() && b.spec_is_finite() ==> ((#[trigger] a.spec_max(b)) == a && a.val()
            >= b.val() || a.spec_max(b) == b && b.val() >= a.val())
    &&& forall|a: S|
        a.spec_is_finite() ==> (#[trigger] a.spec_abs()).val() == if a.val() >= 0real {
            a.val()
        } else {
            -a.val()
        }
}

/// A scalar is told by the number it stands for: there are no two of the same value.
pub open spec fn faithful<S: Real>() -> bool {
    forall|a: S, b: S| #[trigger] a.val() == #[trigger] b.val() ==> a == b
}

/// A number, finite or not: anything but a NaN.
pub open spec fn is_number<S: Real>(x: S) -> bool {
    x <= x
}

/// The size of the number that a scalar stands for.
pub open spec fn size<S: Real>(x: S) -> real {
    if x.val() >= 0real {
        x.val()
    } else {
        -x.val()
    }
}

/// A finite scalar in `[0, 1]`.
pub open spec fn is_share<S: Real>(x: S) -> bool {
    x.spec_is_finite() && 0real <= x.val() <= 1real
}

/// A power of two, 2 to the 60th, so large that adding a few units to it is lost in
/// rounding.
pub open spec fn huge() -> real {
    1152921504606846976real
}

/// How a binary floating-point arithmetic behaves that rounds to nearest, ties to even,
/// in single or double precision. Sums and products of finite scalars may overflow to an
/// infinity, but are numbers. None of the clauses on sums and products asks that they be
/// exact; bounds that are representable are not crossed by rounding.
#[verifier::opaque]
pub open spec fn floating<S: Real>() -> bool {
    &&& ordered::<S>()
    &&& S::spec_zero().spec_is_finite() && S::spec_zero().val() == 0real
    &&& S::spec_one().spec_is_finite() && S::spec_one().val() == 1real
    &&& forall|n: int, d: nat|
        i128::MIN <= n <= i128::MAX && 0 < d <= u64::MAX ==> (#[trigger] S::spec_splat(
            n,
            d,
        )).spec_is_finite()
    // numbers that may be infinite
    &&& forall|a: S, b: S|
        is_number(a) && b.spec_is_finite() ==> ((#[trigger] (a < b)) <==> !(b <= a))
    &&& forall|a: S, b: S|
        is_number(a) && b.spec_is_finite() ==> ((#[trigger] (b < a)) <==> !(a <= b))
    &&& forall|a: S, lo: S, hi: S|
        lo.spec_is_finite() && hi.spec_is_finite() && #[trigger] (lo <= a) && #[trigger] (a <= hi)
            ==> a.spec_is_finite()
    &&& forall|a: S, b: S|
        is_number(a) && b.spec_is_finite() ==> is_number(#[trigger] (a + b))
    &&& forall|a: S, b: S|
        a.spec_is_finite() && is_number(b) ==> is_number(#[trigger] (a + b))
    &&& forall|a: S, b: S|
        a.spec_is_finite() && b.spec_is_finite() ==> is_number(#[trigger] (a * b))
    &&& forall|a: S| a.spec_is_finite() ==> #[trigger] S::spec_infinity().spec_min(a) == a
    // the sign of a difference and of a quotient
    &&& forall|a: S, b: S|
        a.spec_is_finite() && b.spec_is_finite() && b.val() <= a.val() ==> S::spec_zero()
            <= #[trigger] (a - b)
    &&& forall|a: S|
        a.spec_is_finite() ==> (#[trigger] (a - a)).spec_is_finite() && (a - a).val() == 0real
    &&& forall|a: S| S::spec_zero() <= a ==> #[trigger] (-a) <= S::spec_zero()
    &&& forall|a: S|
        a.spec_is_finite() ==> (#[trigger] (-a)).spec_is_finite() && (-a).val() == -a.val()
    &&& forall|a: S, b: S|
        a <= S::spec_zero() && b.spec_is_finite() && b.val() > 0real ==> #[trigger] (a / b)
            <= S::spec_zero()
    &&& forall|a: S, b: S|
        a.spec_is_finite() && a.val() == 0real && b.spec_is_finite() && b.val() > 0real
            ==> (#[trigger] (a / b)).spec_is_finite() && (a / b).val() == 0real
    // the exponential of what is not positive
    &&& forall|a: S| a <= S::spec_zero() ==> is_share(#[trigger] a.spec_exp())
    &&& forall|a: S|
        a.spec_is_finite() && a.val() == 0real ==> (#[trigger] a.spec_exp()).val() == 1real
    // what stays small
    &&& forall|a: S, b: S|
        is_share(a) && b.spec_is_finite() ==> (#[trigger] (a * b)).spec_is_finite() && size(a * b)
            <= size(b) && (b.val() >= 0real ==> (a * b).val() >= 0real)
    &&& forall|a: S| is_share(a) ==> is_share(#[trigger] (S::spec_one() - a))
    &&& forall|a: S| is_share(a) ==> is_share(#[trigger] a.spec_sqrt())
    &&& forall|a: S, b: S|
        a.spec_is_finite() && size(a) <= huge() && b.spec_is_finite() && size(b) <= 8real
            ==> (#[trigger] (a + b)).spec_is_finite() && size(a + b) <= huge()
    &&& forall|a: S, b: S|
        a.spec_is_finite() && b.spec_is_finite() && 0real <= a.val() <= huge() && 0real <= b.val()
            <= 8real ==> a.val() <= (#[trigger] (a + b)).val() && b.val() <= (a + b).val()
    &&& forall|a: S, b: S|
        a.spec_is_finite() && b.spec_is_finite() && 0real <= a.val() <= b.val() && 1real <= b.val()
            <= huge() ==> is_share(#[trigger] (a * (S::spec_one() / b)))
}

/// Floating-point comparisons agree with the order of the numbers.
pub proof fn lemma_floating_orders<S: Real>()
    requires
        floating::<S>(),
    ensures
        ordered::<S>(),
        S::spec_zero().spec_is_finite(),
        S::spec_zero().val() == 0real,
        S::spec_one().spec_is_finite(),
        S::spec_one().val() == 1real,
{
    reveal(floating);
}

/// Constants are finite.
pub proof fn lemma_floating_constant<S: Real>(n: int, d: nat)
    requires
        floating::<S>(),
        i128::MIN <= n <= i128::MAX,
        0 < d <= u64::MAX,
    ensures
        S::spec_splat(n, d).spec_is_finite(),
{
    reveal(floating);
}

/// The number that an integer constant stands for.
pub proof fn lemma_splat_int<S: Real>(n: int)
    requires
        exact::<S>(),
    ensures
        S::spec_splat(n, 1).val() == n as real,
{
    let x = S::spec_splat(n, 1).val();
    assert(x * (1nat as real) == n as real);
    assert(x * 1real == x) by (nonlinear_arith);
}

/// The number that a fraction stands for.
pub proof fn lemma_splat_fraction<S: Real>(n: int, d: nat)
    requires
        exact::<S>(),
        d > 0,
    ensures
        S::spec_splat(n, d).val() == n as real / d as real,
{
    let (x, a, b) = (S::spec_splat(n, d).val(), n as real, d as real);
    assert(x == a / b) by (nonlinear_arith)
        requires
            x * b == a,
            b > 0real,
    ;
}

/// `x` held between `lo` and `hi`; a NaN passes through.
pub open spec fn spec_clip<S: Real>(x: S, lo: S, hi: S) -> S {
    let y = if x < lo {
        lo
    } else {
        x
    };
    if hi < y {
        hi
    } else {
        y
    }
}

/// Hold `x` between `lo` and `hi`.
pub fn clip<S: Real>(x: S, lo: S, hi: S) -> (r: S)
    ensures
        r == spec_clip(x, lo, hi),
{
    let y = if x.lt(lo) {
        lo
    } else {
        x
    };
    if hi.lt(y) {
        hi
    } else {
        y
    }
}

/// What is held between two bounds lies between them.
pub proof fn law_clip_in_bounds<S: Real>(x: S, lo: S, hi: S)
    requires
        ordered::<S>(),
        x.spec_is_finite(),
        lo.spec_is_finite(),
        hi.spec_is_finite(),
        lo <= hi,
    ensures
        lo <= spec_clip(x, lo, hi),
        spec_clip(x, lo, hi) <= hi,
        lo <= x && x <= hi ==> spec_clip(x, lo, hi) == x,
{
}

/// Whatever number is held between two finite bounds, an infinite one included, ends up
/// finite and between them; nothing but a NaN slips through.
pub proof fn law_clip_holds_any_number<S: Real>(x: S, lo: S, hi: S)
    requires
        floating::<S>(),
        is_number(x),
        lo.spec_is_finite(),
        hi.spec_is_finite(),
        lo <= hi,
    ensures
        lo <= spec_clip(x, lo, hi),
        spec_clip(x, lo, hi) <= hi,
        spec_clip(x, lo, hi).spec_is_finite(),
{
    reveal(floating);
    let y = if x < lo {
        lo
    } else {
        x
    };
    assert(is_number(y) && lo <= y);
    if !(hi < y) {
        assert(y <= hi);
    }
}

} // verus!
