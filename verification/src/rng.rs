//! A small seedable generator for the samplers: xorshift64* and Box-Muller. The whole
//! stream is a function of the seed, so racing runs are reproducible.
use vstd::prelude::*;

use crate::scalar::Real;

verus! {

pub struct Rng {
    s: u64,
}

impl View for Rng {
    type V = u64;

    /// The internal state.
    closed spec fn view(&self) -> u64 {
        self.s
    }
}

/// The state that a seed gives; never zero.
pub open spec fn spec_seed(seed: u64) -> u64 {
    (seed ^ 0x9E3779B97F4A7C15u64) | 1u64
}

/// The state that follows `s` (xorshift64).
pub open spec fn spec_advance(s: u64) -> u64 {
    let a = s ^ (s >> 12u64);
    let b = a ^ (a << 25u64);
    b ^ (b >> 27u64)
}

/// The number drawn on arriving in state `s`.
pub open spec fn spec_output(s: u64) -> u64 {
    s.wrapping_mul(0x2545F4914F6CDD1Du64)
}

/// The number in `[0, 1)` drawn from state `s`: the upper 53 bits of the next output.
pub open spec fn spec_uniform<S: Real>(s: u64) -> S {
    S::spec_splat((spec_output(spec_advance(s)) >> 11u64) as int, 1) * S::spec_splat(
        1,
        9007199254740992,
    )
}

/// The state after a uniform draw from `s`.
pub open spec fn after_uniform(s: u64) -> u64 {
    spec_advance(s)
}

/// The standard normal number drawn from state `s`, by Box-Muller from two uniform draws.
pub open spec fn spec_normal<S: Real>(s: u64) -> S {
    let u1 = spec_uniform::<S>(s).spec_max(S::spec_splat(1, 1000000000000));
    let u2 = spec_uniform::<S>(after_uniform(s));
    (S::spec_splat(-2, 1) * u1.spec_ln()).spec_sqrt() * (S::spec_splat(2, 1) * S::spec_pi()
        * u2).spec_cos()
}

/// The state after a normal draw from `s`.
pub open spec fn after_normal(s: u64) -> u64 {
    after_uniform(after_uniform(s))
}

impl Rng {
    pub fn new(seed: u64) -> (r: Self)
        ensures
            r@ == spec_seed(seed),
    {
        Rng { s: (seed ^ 0x9E3779B97F4A7C15) | 1 }
    }

    /// Draw 64 bits.
    pub fn next_u64(&mut self) -> (r: u64)
        ensures
            final(self)@ == spec_advance(old(self)@),
            r == spec_output(final(self)@),
    {
        let mut x: u64 = self.s;
        x = x ^ (x >> 12);
        x = x ^ (x << 25);
        x = x ^ (x >> 27);
        self.s = x;
        x.wrapping_mul(0x2545F4914F6CDD1D)
    }

    /// Draw a number in `[0, 1)`.
    pub fn uniform<S: Real>(&mut self) -> (r: S)
        ensures
            r == spec_uniform::<S>(old(self)@),
            final(self)@ == after_uniform(old(self)@),
    {
        let bits: u64 = self.next_u64() >> 11;
        S::splat(bits as i128, 1).mul(S::splat(1, 9007199254740992))
    }

    /// Draw a standard normal number.
    pub fn normal<S: Real>(&mut self) -> (r: S)
        ensures
            r == spec_normal::<S>(old(self)@),
            final(self)@ == after_normal(old(self)@),
    {
        // kept away from 0 for the logarithm
        let u1 = self.uniform::<S>().max(S::splat(1, 1000000000000));
        let u2 = self.uniform::<S>();
        S::splat(-2, 1).mul(u1.ln()).sqrt().mul(S::splat(2, 1).mul(S::pi()).mul(u2).cos())
    }
}

/// No seed gives the all-zero state, in which the generator would be stuck, and none
/// is ever reached.
pub proof fn law_state_never_zero(seed: u64, s: u64)
    ensures
        spec_seed(seed) != 0,
        s != 0 ==> spec_advance(s) != 0,
{
    assert((seed ^ 0x9E3779B97F4A7C15u64) | 1u64 != 0u64) by (bit_vector);
    let a = s ^ (s >> 12u64);
    let b = a ^ (a << 25u64);
    assert(s != 0 ==> s ^ (s >> 12u64) != 0) by (bit_vector);
    assert(a != 0 ==> a ^ (a << 25u64) != 0) by (bit_vector);
    assert(b != 0 ==> b ^ (b >> 27u64) != 0) by (bit_vector);
}

/// A state other than zero gives an output other than zero: the multiplier is odd.
proof fn lemma_output_not_zero(s: u64)
    requires
        s != 0,
    ensures
        spec_output(s) != 0,
{
    let c = 0x2545F4914F6CDD1Dint;
    // c * e == 1 + q * 2^64
    let e = 0x59071d96d81ecd35int;
    let q = 934034299265436267int;
    let m = 0x1_0000_0000_0000_0000int;
    let x = s as int;
    if spec_output(s) == 0 {
        assert((x * c) % m == 0);
        let k = (x * c) / m;
        assert(x * c == m * k) by (nonlinear_arith)
            requires
                (x * c) % m == 0,
                k == (x * c) / m,
                m == 0x1_0000_0000_0000_0000int,
        ;
        assert(c * e == 1 + q * m);
        assert((x * c) * e == x * (c * e)) by (nonlinear_arith);
        assert((m * k) * e == m * (k * e)) by (nonlinear_arith);
        assert(x * (1 + q * m) == x + m * (x * q)) by (nonlinear_arith);
        let d = k * e - x * q;
        assert(m * (k * e) - m * (x * q) == m * (k * e - x * q)) by (nonlinear_arith);
        assert(x == m * d);
        assert(false) by (nonlinear_arith)
            requires
                x == m * d,
                0 < x < m,
        ;
    }
}

/// The state after `n` draws from `s`.
pub open spec fn advanced(s: u64, n: nat) -> u64
    decreases n,
{
    if n == 0 {
        s
    } else {
        spec_advance(advanced(s, (n - 1) as nat))
    }
}

/// Whatever the seed, no draw of 64 bits is ever zero.
pub proof fn law_no_output_is_zero(seed: u64, n: nat)
    ensures
        advanced(spec_seed(seed), n) != 0,
        n > 0 ==> spec_output(advanced(spec_seed(seed), n)) != 0,
    decreases n,
{
    law_state_never_zero(seed, 1);
    if n > 0 {
        law_no_output_is_zero(seed, (n - 1) as nat);
        law_state_never_zero(seed, advanced(spec_seed(seed), (n - 1) as nat));
        lemma_output_not_zero(advanced(spec_seed(seed), n));
    }
}

/// Distinct states are followed by distinct states: the generator loses no information.
pub proof fn law_advance_injective(s: u64, t: u64)
    requires
        spec_advance(s) == spec_advance(t),
    ensures
        s == t,
{
    let (a, c) = (s ^ (s >> 12u64), t ^ (t >> 12u64));
    let (b, d) = (a ^ (a << 25u64), c ^ (c << 25u64));
    assert(b ^ (b >> 27u64) == d ^ (d >> 27u64) ==> b == d) by (bit_vector);
    assert(a ^ (a << 25u64) == c ^ (c << 25u64) ==> a == c) by (bit_vector);
    assert(s ^ (s >> 12u64) == t ^ (t >> 12u64) ==> s == t) by (bit_vector);
}

/// A uniform draw lies in `[0, 1)`.
pub proof fn law_uniform_in_range<S: Real>(s: u64)
    requires
        crate::scalar::exact::<S>(),
    ensures
        0real <= spec_uniform::<S>(s).val() < 1real,
{
    let o = spec_output(spec_advance(s));
    let n = (o >> 11u64) as int;
    assert(o >> 11u64 < 9007199254740992u64) by (bit_vector);
    let a = S::spec_splat(n, 1).val();
    let b = S::spec_splat(1, 9007199254740992).val();
    assert(a * (1nat as real) == n as real);
    assert(b * (9007199254740992nat as real) == 1int as real);
    assert(0real <= a * b < 1real) by (nonlinear_arith)
        requires
            a == n as real,
            b * 9007199254740992real == 1real,
            0real <= n as real,
            (n as real) < 9007199254740992real,
    ;
}

} // verus!
