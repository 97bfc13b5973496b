//! Reading the weight files: little-endian numbers, names and tensors, one after the
//! other.
use vstd::prelude::*;

use crate::scalar::Wide;

verus! {

// ---------------------------------------------------------------------------
// Numbers
// ---------------------------------------------------------------------------
/// The 16-bit number at `p`.
pub open spec fn le16(b: Seq<u8>, p: int) -> int {
    b[p] + 256 * b[p + 1]
}

/// The 32-bit number at `p`.
pub open spec fn le32(b: Seq<u8>, p: int) -> int {
    le16(b, p) + 65536 * le16(b, p + 2)
}

/// The 64-bit number at `p`.
pub open spec fn le64(b: Seq<u8>, p: int) -> int {
    le32(b, p) + 4294967296 * le32(b, p + 4)
}

pub fn read_u16(b: &[u8], p: usize) -> (r: u16)
    requires
        p + 2 <= b@.len(),
    ensures
        r == le16(b@, p as int),
{
    b[p] as u16 + 256 * (b[p + 1] as u16)
}

pub fn read_u32(b: &[u8], p: usize) -> (r: u32)
    requires
        p + 4 <= b@.len(),
    ensures
        r == le32(b@, p as int),
{
    assert(b.len() == b@.len());
    read_u16(b, p) as u32 + 65536 * (read_u16(b, p + 2) as u32)
}

pub fn read_u64(b: &[u8], p: usize) -> (r: u64)
    requires
        p + 8 <= b@.len(),
    ensures
        r == le64(b@, p as int),
{
    assert(b.len() == b@.len());
    read_u32(b, p) as u64 + 4294967296 * (read_u32(b, p + 4) as u64)
}

// ---------------------------------------------------------------------------
// Text
// ---------------------------------------------------------------------------
/// The text of `n` bytes at `p`, if they are there and are UTF-8.
pub open spec fn spec_text(b: Seq<u8>, p: int, n: int) -> Option<Seq<char>> {
    if p + n > b.len() || !vstd::utf8::valid_utf8(b.subrange(p, p + n)) {
        None
    } else {
        Some(vstd::utf8::decode_utf8(b.subrange(p, p + n)))
    }
}

/// The text at `p` that its length, a 16-bit number, precedes, and where it ends.
pub open spec fn spec_short_text(b: Seq<u8>, p: int) -> Option<(Seq<char>, int)> {
    if p + 2 > b.len() {
        None
    } else {
        match spec_text(b, p + 2, le16(b, p)) {
            None => None,
            Some(s) => Some((s, p + 2 + le16(b, p))),
        }
    }
}

/// `String::from_utf8`: the text that the bytes encode, or nothing where they are not
/// valid UTF-8.
#[verifier::external_body]
fn utf8_string(v: Vec<u8>) -> (r: Option<String>)
    ensures
        r is Some <==> vstd::utf8::valid_utf8(v@),
        r matches Some(s) ==> s@ == vstd::utf8::decode_utf8(v@),
{
    String::from_utf8(v).ok()
}

fn bytes_at(b: &[u8], p: usize, n: usize) -> (r: Vec<u8>)
    requires
        p + n <= b@.len(),
    ensures
        r@ == b@.subrange(p as int, p + n),
{
    assert(b.len() == b@.len());
    let mut r: Vec<u8> = Vec::new();
    for i in 0..n
        invariant
            p + n <= b@.len(),
            b@.len() <= usize::MAX,
            r@ == b@.subrange(p as int, p + i),
    {
        r.push(b[p + i]);
        assert(b@.subrange(p as int, p + i).push(b@[p + i]) =~= b@.subrange(
            p as int,
            p + i + 1,
        ));
    }
    r
}

/// Read a text that its length precedes.
pub fn read_short_text(b: &[u8], p: usize) -> (r: Option<(String, usize)>)
    requires
        p <= b@.len(),
    ensures
        match r {
            None => spec_short_text(b@, p as int) is None,
            Some((s, q)) => spec_short_text(b@, p as int) == Some((s@, q as int)) && q
                <= b@.len(),
        },
{
    if b.len() - p < 2 {
        return None;
    }
    let n: usize = read_u16(b, p) as usize;
    if b.len() - p - 2 < n {
        return None;
    }
    match utf8_string(bytes_at(b, p + 2, n)) {
        None => None,
        Some(s) => Some((s, p + 2 + n)),
    }
}

// ---------------------------------------------------------------------------
// Tensors
// ---------------------------------------------------------------------------
/// A tensor: its shape, and its entries in row-major order.
pub struct Tensor<N> {
    pub shape: Seq<usize>,
    pub data: Seq<N>,
}

/// A tensor in memory.
pub struct Arr<N> {
    pub shape: Vec<usize>,
    pub data: Vec<N>,
}

impl<N> View for Arr<N> {
    type V = Tensor<N>;

    open spec fn view(&self) -> Tensor<N> {
        Tensor { shape: self.shape@, data: self.data@ }
    }
}

/// The product of the first `n` dimensions at `p`.
pub open spec fn dims_product(b: Seq<u8>, p: int, n: nat) -> int
    decreases n,
{
    if n == 0 {
        1
    } else {
        dims_product(b, p, (n - 1) as nat) * le32(b, p + 4 * (n - 1))
    }
}

/// No product of leading dimensions exceeds what a length can be.
pub open spec fn dims_fit(b: Seq<u8>, p: int, n: nat) -> bool
    decreases n,
{
    n == 0 || dims_fit(b, p, (n - 1) as nat) && dims_product(b, p, n) <= usize::MAX
}

/// The record at `p`: a name, the number of dimensions, the dimensions, and as many
/// single-precision entries as they ask for; and where it ends.
pub open spec fn spec_record<S: Wide>(b: Seq<u8>, p: int) -> Option<
    (Seq<char>, Tensor<S::Narrow>, int),
> {
    match spec_short_text(b, p) {
        None => None,
        Some((name, q)) => {
            let dims = q + 1;
            if dims > b.len() || dims + 4 * b[q] > b.len() || !dims_fit(b, dims, b[q] as nat) {
                None
            } else {
                let start = dims + 4 * b[q];
                let count = dims_product(b, dims, b[q] as nat);
                if start + 4 * count > b.len() {
                    None
                } else {
                    Some(
                        (
                            name,
                            Tensor {
                                shape: Seq::new(
                                    b[q] as nat,
                                    |k: int| le32(b, dims + 4 * k) as usize,
                                ),
                                data: Seq::new(
                                    count as nat,
                                    |k: int|
                                        S::spec_narrow_from_bits(le32(b, start + 4 * k) as u32),
                                ),
                            },
                            start + 4 * count,
                        ),
                    )
                }
            }
        },
    }
}

proof fn lemma_dims_product_positive(b: Seq<u8>, p: int, n: nat)
    ensures
        dims_product(b, p, n) >= 0,
    decreases n,
{
    if n > 0 {
        lemma_dims_product_positive(b, p, (n - 1) as nat);
        let (x, y) = (dims_product(b, p, (n - 1) as nat), le32(b, p + 4 * (n - 1)));
        assert(x * y >= 0) by (nonlinear_arith)
            requires
                x >= 0,
                y >= 0,
        ;
    }
}

proof fn lemma_dims_fit_prefix(b: Seq<u8>, p: int, m: nat, n: nat)
    requires
        m <= n,
        dims_fit(b, p, n),
    ensures
        dims_fit(b, p, m),
    decreases n,
{
    if m < n {
        lemma_dims_fit_prefix(b, p, m, (n - 1) as nat);
    }
}

/// Read one record.
fn read_record<S: Wide>(b: &[u8], p: usize) -> (r: Option<(String, Arr<S::Narrow>, usize)>)
    requires
        p <= b@.len(),
    ensures
        match r {
            None => spec_record::<S>(b@, p as int) is None,
            Some((s, a, q)) => spec_record::<S>(b@, p as int) == Some((s@, a@, q as int)) && q
                <= b@.len(),
        },
{
    let (name, q) = match read_short_text(b, p) {
        None => {
            return None;
        },
        Some(t) => t,
    };
    if b.len() - q < 1 {
        return None;
    }
    let nd: usize = b[q] as usize;
    let dims: usize = q + 1;
    if b.len() - dims < 4 * nd {
        return None;
    }
    let mut shape: Vec<usize> = Vec::new();
    let mut count: usize = 1;
    for k in 0..nd
        invariant
            nd == b@[q as int],
            dims == q + 1,
            dims + 4 * nd <= b@.len(),
            b@.len() <= usize::MAX,
            spec_short_text(b@, p as int) == Some((name@, q as int)),
            shape@.len() == k,
            forall|j: int| 0 <= j < k ==> #[trigger] shape@[j] == le32(b@, dims + 4 * j) as usize,
            count == dims_product(b@, dims as int, k as nat),
            dims_fit(b@, dims as int, k as nat),
    {
        let d: usize = read_u32(b, dims + 4 * k) as usize;
        shape.push(d);
        match count.checked_mul(d) {
            None => {
                proof {
                    if dims_fit(b@, dims as int, nd as nat) {
                        lemma_dims_fit_prefix(b@, dims as int, (k + 1) as nat, nd as nat);
                    }
                }
                return None;
            },
            Some(c) => {
                count = c;
            },
        }
    }
    let start: usize = dims + 4 * nd;
    if (b.len() - start) / 4 < count {
        return None;
    }
    let mut data: Vec<S::Narrow> = Vec::new();
    for k in 0..count
        invariant
            start + 4 * count <= b@.len(),
            b@.len() <= usize::MAX,
            data@.len() == k,
            forall|j: int|
                0 <= j < k ==> #[trigger] data@[j] == S::spec_narrow_from_bits(
                    le32(b@, start + 4 * j) as u32,
                ),
    {
        data.push(S::narrow_from_bits(read_u32(b, start + 4 * k)));
    }
    let a = Arr { shape, data };
    proof {
        lemma_dims_product_positive(b@, dims as int, nd as nat);
        let (_, t, _) = spec_record::<S>(b@, p as int)->0;
        assert(a@.shape =~= t.shape);
        assert(a@.data =~= t.data);
    }
    Some((name, a, start + 4 * count))
}

// ---------------------------------------------------------------------------
// Tables of tensors
// ---------------------------------------------------------------------------
/// Tensors by name; a later tensor replaces an earlier one of the same name.
pub struct Table<N> {
    names: Vec<String>,
    arrs: Vec<Arr<N>>,
}

impl<N> Table<N> {
    spec fn upto(self, n: nat) -> Map<Seq<char>, Tensor<N>>
        decreases n,
    {
        if n == 0 {
            Map::empty()
        } else {
            self.upto((n - 1) as nat).insert(self.names@[n - 1]@, self.arrs@[n - 1]@)
        }
    }

    #[verifier::type_invariant]
    spec fn inv(self) -> bool {
        self.names@.len() == self.arrs@.len()
    }

    proof fn lemma_upto_prefix(self, other: Self, n: nat)
        requires
            n <= self.names@.len(),
            n <= other.names@.len(),
            n <= self.arrs@.len(),
            n <= other.arrs@.len(),
            forall|i: int| 0 <= i < n ==> self.names@[i] == #[trigger] other.names@[i],
            forall|i: int| 0 <= i < n ==> self.arrs@[i] == #[trigger] other.arrs@[i],
        ensures
            self.upto(n) == other.upto(n),
        decreases n,
    {
        if n > 0 {
            self.lemma_upto_prefix(other, (n - 1) as nat);
            assert(self.names@[n - 1] == other.names@[n - 1]);
            assert(self.arrs@[n - 1] == other.arrs@[n - 1]);
        }
    }

    pub fn new() -> (r: Self)
        ensures
            r@ == Map::<Seq<char>, Tensor<N>>::empty(),
    {
        Table { names: Vec::new(), arrs: Vec::new() }
    }

    /// The table with one tensor more.
    pub fn with(self, name: String, arr: Arr<N>) -> (r: Self)
        ensures
            r@ == self@.insert(name@, arr@),
    {
        proof {
            use_type_invariant(&self);
        }
        let ghost was = self;
        let mut names = self.names;
        let mut arrs = self.arrs;
        names.push(name);
        arrs.push(arr);
        let r = Table { names, arrs };
        proof {
            r.lemma_upto_prefix(was, was.names@.len());
        }
        r
    }

    /// The tensor of that name.
    pub fn get(&self, name: &String) -> (r: Option<&Arr<N>>)
        ensures
            match r {
                None => !self@.dom().contains(name@),
                Some(a) => self@.dom().contains(name@) && self@[name@] == a@,
            },
    {
        proof {
            use_type_invariant(self);
        }
        let mut i: usize = self.names.len();
        while i > 0
            invariant
                i <= self.names@.len(),
                self.names@.len() == self.arrs@.len(),
                self@.dom().contains(name@) == self.upto(i as nat).dom().contains(name@),
                self@[name@] == self.upto(i as nat)[name@],
            decreases i,
        {
            i = i - 1;
            if self.names[i].eq(name) {
                return Some(&self.arrs[i]);
            }
        }
        None
    }
}

impl<N> View for Table<N> {
    type V = Map<Seq<char>, Tensor<N>>;

    closed spec fn view(&self) -> Map<Seq<char>, Tensor<N>> {
        self.upto(self.names@.len())
    }
}

/// The tensors of the first `n` records from `p` on, and where they end.
pub open spec fn spec_records<S: Wide>(b: Seq<u8>, p: int, n: nat) -> Option<
    (Map<Seq<char>, Tensor<S::Narrow>>, int),
>
    decreases n,
{
    if n == 0 {
        Some((Map::empty(), p))
    } else {
        match spec_records::<S>(b, p, (n - 1) as nat) {
            None => None,
            Some((m, q)) => match spec_record::<S>(b, q) {
                None => None,
                Some((name, t, e)) => Some((m.insert(name, t), e)),
            },
        }
    }
}

proof fn lemma_records_stay_none<S: Wide>(b: Seq<u8>, p: int, m: nat, n: nat)
    requires
        m <= n,
        spec_records::<S>(b, p, m) is None,
    ensures
        spec_records::<S>(b, p, n) is None,
    decreases n,
{
    if m < n {
        lemma_records_stay_none::<S>(b, p, m, (n - 1) as nat);
    }
}

/// Read `n` records.
pub fn read_records<S: Wide>(b: &[u8], p: usize, n: u32) -> (r: Option<Table<S::Narrow>>)
    requires
        p <= b@.len(),
    ensures
        match r {
            None => spec_records::<S>(b@, p as int, n as nat) is None,
            Some(t) => spec_records::<S>(b@, p as int, n as nat) matches Some((m, _)) && t@ == m,
        },
{
    let mut t: Table<S::Narrow> = Table::new();
    let mut q: usize = p;
    for i in 0..n
        invariant
            q <= b@.len(),
            spec_records::<S>(b@, p as int, i as nat) == Some((t@, q as int)),
    {
        match read_record::<S>(b, q) {
            None => {
                proof {
                    lemma_records_stay_none::<S>(b@, p as int, (i + 1) as nat, n as nat);
                }
                return None;
            },
            Some((name, a, e)) => {
                t = t.with(name, a);
                q = e;
            },
        }
    }
    Some(t)
}

} // verus!
