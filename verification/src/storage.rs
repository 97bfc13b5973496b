//! What the weight files give back: laws that relate what was written to what is read.
use vstd::prelude::*;

use crate::blob::{
    dims_fit, dims_product, le16, le32, le64, spec_record, spec_short_text, Tensor,
};
use crate::jepa::{spec_head, BlobHead};
use crate::scalar::Wide;

verus! {

// ---------------------------------------------------------------------------
// Bytes
// ---------------------------------------------------------------------------
/// Digit `k` of `x` to the base 256, the lowest first.
pub open spec fn digit(x: int, k: nat) -> u8
    decreases k,
{
    if k == 0 {
        (x % 256) as u8
    } else {
        digit(x / 256, (k - 1) as nat)
    }
}

/// The number `x` in `n` bytes, the lowest first.
pub open spec fn word(x: int, n: nat) -> Seq<u8> {
    Seq::new(n, |k: int| digit(x, k as nat))
}

/// The bytes `s` stand in `b` from `p` on.
pub open spec fn stands(b: Seq<u8>, p: int, s: Seq<u8>) -> bool {
    &&& 0 <= p
    &&& p + s.len() <= b.len()
    &&& forall|i: int| 0 <= i < s.len() ==> b[p + i] == #[trigger] s[i]
}

proof fn lemma_parts(b: Seq<u8>, p: int, s: Seq<u8>, t: Seq<u8>)
    requires
        stands(b, p, s + t),
    ensures
        stands(b, p, s),
        stands(b, p + s.len(), t),
{
    assert forall|i: int| 0 <= i < s.len() implies b[p + i] == #[trigger] s[i] by {
        assert((s + t)[i] == s[i]);
    }
    assert forall|i: int| 0 <= i < t.len() implies b[p + s.len() + i] == #[trigger] t[i] by {
        assert((s + t)[s.len() + i] == t[i]);
    }
}

proof fn lemma_word16(b: Seq<u8>, p: int, x: int)
    requires
        stands(b, p, word(x, 2)),
        0 <= x < 65536,
    ensures
        le16(b, p) == x,
{
    reveal_with_fuel(digit, 3);
    let w = word(x, 2);
    assert(b[p + 0] == w[0] && b[p + 1] == w[1]);
}

proof fn lemma_word_halves(b: Seq<u8>, p: int, x: int)
    requires
        stands(b, p, word(x, 4)),
        0 <= x,
    ensures
        stands(b, p, word(x % 65536, 2)),
        stands(b, p + 2, word(x / 65536, 2)),
{
    reveal_with_fuel(digit, 5);
    let (w, u, v) = (word(x, 4), word(x % 65536, 2), word(x / 65536, 2));
    assert(b[p + 0] == w[0] && b[p + 1] == w[1] && b[p + 2] == w[2] && b[p + 3] == w[3]);
    assert(u[0] == w[0] && u[1] == w[1]);
    assert(v[0] == w[2] && v[1] == w[3]);
}

/// A 32-bit number reads back.
pub proof fn law_number_reads_back(b: Seq<u8>, p: int, x: int)
    requires
        stands(b, p, word(x, 4)),
        0 <= x < 4294967296,
    ensures
        le32(b, p) == x,
{
    lemma_word_halves(b, p, x);
    lemma_word16(b, p, x % 65536);
    lemma_word16(b, p + 2, x / 65536);
}

/// So does a 64-bit one.
pub proof fn law_long_number_reads_back(b: Seq<u8>, p: int, x: u64)
    requires
        stands(b, p, word(x as int, 8)),
    ensures
        le64(b, p) == x,
{
    reveal_with_fuel(digit, 9);
    let n = x as int;
    let (lo, hi) = (n % 4294967296, n / 4294967296);
    let (w, u, v) = (word(n, 8), word(lo, 4), word(hi, 4));
    assert(b[p + 0] == w[0] && b[p + 1] == w[1] && b[p + 2] == w[2] && b[p + 3] == w[3]);
    assert(b[p + 4] == w[4] && b[p + 5] == w[5] && b[p + 6] == w[6] && b[p + 7] == w[7]);
    assert(u[0] == w[0] && u[1] == w[1] && u[2] == w[2] && u[3] == w[3]);
    assert(v[0] == w[4] && v[1] == w[5] && v[2] == w[6] && v[3] == w[7]);
    law_number_reads_back(b, p, lo);
    law_number_reads_back(b, p + 4, hi);
}

// ---------------------------------------------------------------------------
// Text
// ---------------------------------------------------------------------------
/// A text, its length in bytes before it.
pub open spec fn text_bytes(s: Seq<char>) -> Seq<u8> {
    word(vstd::utf8::encode_utf8(s).len() as int, 2) + vstd::utf8::encode_utf8(s)
}

/// A text can be written: its length takes 16 bits at most.
pub open spec fn is_short(s: Seq<char>) -> bool {
    vstd::utf8::encode_utf8(s).len() < 65536
}

/// A text reads back, and what follows it starts behind it.
pub proof fn law_text_reads_back(b: Seq<u8>, p: int, s: Seq<char>)
    requires
        stands(b, p, text_bytes(s)),
        is_short(s),
    ensures
        spec_short_text(b, p) == Some((s, p + text_bytes(s).len())),
{
    let e = vstd::utf8::encode_utf8(s);
    lemma_parts(b, p, word(e.len() as int, 2), e);
    lemma_word16(b, p, e.len() as int);
    assert(b.subrange(p + 2, p + 2 + e.len()) =~= e) by {
        assert forall|i: int| 0 <= i < e.len() implies b.subrange(p + 2, p + 2 + e.len())[i]
            == e[i] by {
            assert(b[p + 2 + i] == e[i]);
        }
    }
    vstd::utf8::encode_utf8_valid_utf8(s);
    vstd::utf8::encode_utf8_decode_utf8(s);
}

// ---------------------------------------------------------------------------
// The head of a weight file
// ---------------------------------------------------------------------------
/// The numbers of a head: lengths of history and prediction, the bit patterns of time step,
/// mass and gravity, and the number of tensors.
pub open spec fn head_numbers(h: u32, t: u32, dt: u64, m: u64, g: u64, n: u32) -> Seq<u8> {
    word(h as int, 4) + (word(t as int, 4) + (word(dt as int, 8) + (word(m as int, 8) + (word(
        g as int,
        8,
    ) + word(n as int, 4)))))
}

/// A head: the magic word, the two modes and the numbers.
pub open spec fn head_bytes(mode: Seq<char>, pos: Seq<char>, numbers: Seq<u8>) -> Seq<u8> {
    seq![74u8, 66u8, 76u8, 79u8, 66u8, 49u8, 10u8] + (text_bytes(mode) + (text_bytes(pos)
        + numbers))
}

/// The head of a weight file reads back, every entry as itself, and the tensors start behind
/// it.
pub proof fn law_head_reads_back<S: Wide>(
    b: Seq<u8>,
    mode: Seq<char>,
    pos: Seq<char>,
    h: u32,
    t: u32,
    dt: u64,
    m: u64,
    g: u64,
    n: u32,
)
    requires
        stands(b, 0, head_bytes(mode, pos, head_numbers(h, t, dt, m, g, n))),
        is_short(mode),
        is_short(pos),
    ensures
        spec_head::<S>(b) == Some(
            (BlobHead {
                ctbr: mode == "ctbr"@,
                relative: pos == "relative"@,
                h: h as int,
                t: t as int,
                dt: S::spec_from_bits(dt),
                m: S::spec_from_bits(m),
                g: S::spec_from_bits(g),
                n: n as int,
                start: head_bytes(mode, pos, head_numbers(h, t, dt, m, g, n)).len() as int,
            }),
        ),
{
    let magic = seq![74u8, 66u8, 76u8, 79u8, 66u8, 49u8, 10u8];
    let numbers = head_numbers(h, t, dt, m, g, n);
    let (a, c) = (text_bytes(mode), text_bytes(pos));
    lemma_parts(b, 0, magic, a + (c + numbers));
    lemma_parts(b, 7, a, c + numbers);
    lemma_parts(b, 7int + a.len(), c, numbers);
    assert(b.subrange(0, 7) =~= magic) by {
        assert forall|i: int| 0 <= i < 7 implies b.subrange(0, 7)[i] == magic[i] by {
            assert(b[0 + i] == magic[i]);
        }
    }
    law_text_reads_back(b, 7, mode);
    law_text_reads_back(b, 7int + a.len(), pos);
    let q: int = 7int + a.len() + c.len();
    let (wh, wt) = (word(h as int, 4), word(t as int, 4));
    let (wd, wm, wg) = (word(dt as int, 8), word(m as int, 8), word(g as int, 8));
    let wn = word(n as int, 4);
    lemma_parts(b, q, wh, wt + (wd + (wm + (wg + wn))));
    lemma_parts(b, q + 4, wt, wd + (wm + (wg + wn)));
    lemma_parts(b, q + 8, wd, wm + (wg + wn));
    lemma_parts(b, q + 16, wm, wg + wn);
    lemma_parts(b, q + 24, wg, wn);
    law_number_reads_back(b, q, h as int);
    law_number_reads_back(b, q + 4, t as int);
    law_long_number_reads_back(b, q + 8, dt);
    law_long_number_reads_back(b, q + 16, m);
    law_long_number_reads_back(b, q + 24, g);
    law_number_reads_back(b, q + 32, n as int);
}

// ---------------------------------------------------------------------------
// Tensors
// ---------------------------------------------------------------------------
/// Numbers of four bytes each, one after the other.
pub open spec fn words(x: Seq<int>) -> Seq<u8> {
    Seq::new(4 * x.len(), |i: int| digit(x[i / 4], (i % 4) as nat))
}

proof fn lemma_words(b: Seq<u8>, p: int, x: Seq<int>, k: int)
    requires
        stands(b, p, words(x)),
        0 <= k < x.len(),
        0 <= x[k] < 4294967296,
    ensures
        le32(b, p + 4 * k) == x[k],
{
    let w = words(x);
    let v = word(x[k], 4);
    assert forall|i: int| 0 <= i < 4 implies b[p + 4 * k + i] == #[trigger] v[i] by {
        let j = 4 * k + i;
        assert(j / 4 == k && j % 4 == i);
        assert(b[p + j] == w[j]);
    }
    law_number_reads_back(b, p + 4 * k, x[k]);
}

/// The product of the first `n` entries.
pub open spec fn product(x: Seq<int>, n: nat) -> int
    decreases n,
{
    if n == 0 {
        1
    } else {
        product(x, (n - 1) as nat) * x[n - 1]
    }
}

/// A tensor can be written: its dimensions take 32 bits each, there are fewer than 256 of
/// them, and they ask for as many entries as there are.
pub open spec fn writable(shape: Seq<int>, bits: Seq<int>) -> bool {
    &&& shape.len() < 256
    &&& forall|i: int| 0 <= i < shape.len() ==> 0 <= #[trigger] shape[i] < 4294967296
    &&& forall|i: int| 0 <= i < bits.len() ==> 0 <= #[trigger] bits[i] < 4294967296
    &&& product(shape, shape.len()) == bits.len()
    &&& forall|n: nat| n <= shape.len() ==> #[trigger] product(shape, n) <= usize::MAX
}

/// A record: the name, the number of dimensions, the dimensions, and the bit patterns of the
/// entries.
pub open spec fn record_bytes(name: Seq<char>, shape: Seq<int>, bits: Seq<int>) -> Seq<u8> {
    text_bytes(name) + (seq![shape.len() as u8] + (words(shape) + words(bits)))
}

proof fn lemma_dims(b: Seq<u8>, p: int, shape: Seq<int>, n: nat)
    requires
        stands(b, p, words(shape)),
        n <= shape.len(),
        forall|i: int| 0 <= i < shape.len() ==> 0 <= #[trigger] shape[i] < 4294967296,
        forall|k: nat| k <= shape.len() ==> #[trigger] product(shape, k) <= usize::MAX,
    ensures
        dims_product(b, p, n) == product(shape, n),
        dims_fit(b, p, n),
    decreases n,
{
    if n > 0 {
        lemma_dims(b, p, shape, (n - 1) as nat);
        lemma_words(b, p, shape, n - 1);
        assert(product(shape, n) <= usize::MAX);
    }
}

/// A tensor reads back: under its name, with its shape and with its entries in order; and the
/// next record starts behind it.
pub proof fn law_record_reads_back<S: Wide>(
    b: Seq<u8>,
    p: int,
    name: Seq<char>,
    shape: Seq<int>,
    bits: Seq<int>,
)
    requires
        stands(b, p, record_bytes(name, shape, bits)),
        is_short(name),
        writable(shape, bits),
    ensures
        spec_record::<S>(b, p) == Some(
            (
                name,
                Tensor {
                    shape: Seq::new(shape.len(), |k: int| shape[k] as usize),
                    data: Seq::new(
                        bits.len(),
                        |k: int| S::spec_narrow_from_bits(bits[k] as u32),
                    ),
                },
                p + record_bytes(name, shape, bits).len(),
            ),
        ),
{
    let t = text_bytes(name);
    let one = seq![shape.len() as u8];
    let (ws, wb) = (words(shape), words(bits));
    lemma_parts(b, p, t, one + (ws + wb));
    let q = p + t.len();
    lemma_parts(b, q, one, ws + wb);
    lemma_parts(b, q + 1, ws, wb);
    law_text_reads_back(b, p, name);
    assert(b[q + 0] == one[0]);
    lemma_dims(b, q + 1, shape, shape.len());
    let start = q + 1 + 4 * shape.len();
    let got = (spec_record::<S>(b, p)->0).1;
    assert(spec_record::<S>(b, p) is Some);
    assert forall|k: int| 0 <= k < shape.len() implies #[trigger] got.shape[k] == shape[k] as usize by {
        lemma_words(b, q + 1, shape, k);
    }
    assert forall|k: int| 0 <= k < bits.len() implies #[trigger] got.data[k]
        == S::spec_narrow_from_bits(bits[k] as u32) by {
        lemma_words(b, start, bits, k);
    }
    assert(got.shape =~= Seq::new(shape.len(), |k: int| shape[k] as usize));
    assert(got.data =~= Seq::new(
        bits.len(),
        |k: int| S::spec_narrow_from_bits(bits[k] as u32),
    ));
}

} // verus!
