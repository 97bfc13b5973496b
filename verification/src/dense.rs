//! Small dense matrices for the optimizer, each product accumulated from left to right.
use vstd::prelude::*;

use crate::scalar::{Real, Scalar};

verus! {

/// The rows of an array as sequences.
pub open spec fn mat<S, const R: usize, const C: usize>(m: [[S; C]; R]) -> Seq<Seq<S>> {
    Seq::new(R as nat, |i: int| m[i]@)
}

/// A vector of arrays as a sequence of sequences.
pub open spec fn rows<S, const C: usize>(v: Seq<[S; C]>) -> Seq<Seq<S>> {
    Seq::new(v.len(), |i: int| v[i]@)
}

/// `init + sum over k < n of a[i][k] * b[k][j]`.
pub open spec fn acc_row_col<S: Scalar>(
    init: S,
    a: Seq<Seq<S>>,
    b: Seq<Seq<S>>,
    i: int,
    j: int,
    n: nat,
) -> S
    decreases n,
{
    if n == 0 {
        init
    } else {
        acc_row_col(init, a, b, i, j, (n - 1) as nat) + a[i][n - 1] * b[n - 1][j]
    }
}

/// `init + sum over k < n of a[k][i] * b[k][j]`.
pub open spec fn acc_col_col<S: Scalar>(
    init: S,
    a: Seq<Seq<S>>,
    b: Seq<Seq<S>>,
    i: int,
    j: int,
    n: nat,
) -> S
    decreases n,
{
    if n == 0 {
        init
    } else {
        acc_col_col(init, a, b, i, j, (n - 1) as nat) + a[n - 1][i] * b[n - 1][j]
    }
}

/// `init + sum over k < n of a[k][i] * v[k]`.
pub open spec fn acc_col_vec<S: Scalar>(
    init: S,
    a: Seq<Seq<S>>,
    v: Seq<S>,
    i: int,
    n: nat,
) -> S
    decreases n,
{
    if n == 0 {
        init
    } else {
        acc_col_vec(init, a, v, i, (n - 1) as nat) + a[n - 1][i] * v[n - 1]
    }
}

/// The product of an `r` by `k` with a `k` by `c` matrix.
pub open spec fn spec_product<S: Scalar>(
    a: Seq<Seq<S>>,
    b: Seq<Seq<S>>,
    r: nat,
    k: nat,
    c: nat,
) -> Seq<Seq<S>> {
    Seq::new(r, |i: int| Seq::new(c, |j: int| acc_row_col(S::spec_zero(), a, b, i, j, k)))
}

/// The product of the transpose of a `k` by `r` with a `k` by `c` matrix.
pub open spec fn spec_tproduct<S: Scalar>(
    a: Seq<Seq<S>>,
    b: Seq<Seq<S>>,
    r: nat,
    k: nat,
    c: nat,
) -> Seq<Seq<S>> {
    Seq::new(r, |i: int| Seq::new(c, |j: int| acc_col_col(S::spec_zero(), a, b, i, j, k)))
}

/// `v0` plus the transpose of a `k` by `r` matrix times `v`.
pub open spec fn spec_tmatvec_onto<S: Scalar>(
    v0: Seq<S>,
    a: Seq<Seq<S>>,
    v: Seq<S>,
    r: nat,
    k: nat,
) -> Seq<S> {
    Seq::new(r, |i: int| acc_col_vec(v0[i], a, v, i, k))
}

/// `a * b`.
pub fn product<S: Scalar, const R: usize, const K: usize, const C: usize>(
    a: &[[S; K]; R],
    b: &[[S; C]; K],
) -> (r: [[S; C]; R])
    ensures
        mat(r) == spec_product(mat(*a), mat(*b), R as nat, K as nat, C as nat),
{
    let z = S::zero();
    let mut r = [[z; C]; R];
    for i in 0..R
        invariant
            z == S::spec_zero(),
            forall|p: int, q: int|
                0 <= p < i && 0 <= q < C ==> #[trigger] r[p][q] == acc_row_col(
                    S::spec_zero(),
                    mat(*a),
                    mat(*b),
                    p,
                    q,
                    K as nat,
                ),
    {
        for j in 0..C
            invariant
                0 <= i < R,
                z == S::spec_zero(),
                forall|p: int, q: int|
                    0 <= p < i && 0 <= q < C ==> #[trigger] r[p][q] == acc_row_col(
                        S::spec_zero(),
                        mat(*a),
                        mat(*b),
                        p,
                        q,
                        K as nat,
                    ),
                forall|q: int|
                    0 <= q < j ==> #[trigger] r[i as int][q] == acc_row_col(
                        S::spec_zero(),
                        mat(*a),
                        mat(*b),
                        i as int,
                        q,
                        K as nat,
                    ),
        {
            let mut s = z;
            for k in 0..K
                invariant
                    0 <= i < R,
                    0 <= j < C,
                    s == acc_row_col(
                        S::spec_zero(),
                        mat(*a),
                        mat(*b),
                        i as int,
                        j as int,
                        k as nat,
                    ),
            {
                s = s.add(a[i][k].mul(b[k][j]));
            }
            r[i][j] = s;
        }
    }
    assert(mat(r) =~~= spec_product(mat(*a), mat(*b), R as nat, K as nat, C as nat));
    r
}

/// `a^T * b`.
pub fn tproduct<S: Scalar, const R: usize, const K: usize, const C: usize>(
    a: &[[S; R]; K],
    b: &[[S; C]; K],
) -> (r: [[S; C]; R])
    ensures
        mat(r) == spec_tproduct(mat(*a), mat(*b), R as nat, K as nat, C as nat),
{
    let z = S::zero();
    let mut r = [[z; C]; R];
    for i in 0..R
        invariant
            z == S::spec_zero(),
            forall|p: int, q: int|
                0 <= p < i && 0 <= q < C ==> #[trigger] r[p][q] == acc_col_col(
                    S::spec_zero(),
                    mat(*a),
                    mat(*b),
                    p,
                    q,
                    K as nat,
                ),
    {
        for j in 0..C
            invariant
                0 <= i < R,
                z == S::spec_zero(),
                forall|p: int, q: int|
                    0 <= p < i && 0 <= q < C ==> #[trigger] r[p][q] == acc_col_col(
                        S::spec_zero(),
                        mat(*a),
                        mat(*b),
                        p,
                        q,
                        K as nat,
                    ),
                forall|q: int|
                    0 <= q < j ==> #[trigger] r[i as int][q] == acc_col_col(
                        S::spec_zero(),
                        mat(*a),
                        mat(*b),
                        i as int,
                        q,
                        K as nat,
                    ),
        {
            let mut s = z;
            for k in 0..K
                invariant
                    0 <= i < R,
                    0 <= j < C,
                    s == acc_col_col(
                        S::spec_zero(),
                        mat(*a),
                        mat(*b),
                        i as int,
                        j as int,
                        k as nat,
                    ),
            {
                s = s.add(a[k][i].mul(b[k][j]));
            }
            r[i][j] = s;
        }
    }
    assert(mat(r) =~~= spec_tproduct(mat(*a), mat(*b), R as nat, K as nat, C as nat));
    r
}

/// `v0 + a^T * v`.
pub fn tmatvec_onto<S: Scalar, const R: usize, const K: usize>(
    v0: &[S; R],
    a: &[[S; R]; K],
    v: &[S; K],
) -> (r: [S; R])
    ensures
        r@ == spec_tmatvec_onto(v0@, mat(*a), v@, R as nat, K as nat),
{
    let mut r = *v0;
    for i in 0..R
        invariant
            forall|p: int|
                0 <= p < i ==> #[trigger] r[p] == acc_col_vec(v0[p], mat(*a), v@, p, K as nat),
            forall|p: int| i <= p < R ==> #[trigger] r[p] == v0[p],
    {
        let mut s = r[i];
        for k in 0..K
            invariant
                0 <= i < R,
                s == acc_col_vec(v0[i as int], mat(*a), v@, i as int, k as nat),
        {
            s = s.add(a[k][i].mul(v[k]));
        }
        r[i] = s;
    }
    assert(r@ =~= spec_tmatvec_onto(v0@, mat(*a), v@, R as nat, K as nat));
    r
}

// ---------------------------------------------------------------------------
// 4x4 inverse by Gauss-Jordan elimination
// ---------------------------------------------------------------------------
/// The row among `col..n` with the entry of largest magnitude in column `col`; the first
/// of several.
pub open spec fn spec_pivot<S: Real>(a: Seq<Seq<S>>, col: int, n: int) -> int
    decreases n - col,
{
    if n <= col + 1 {
        col
    } else {
        let p = spec_pivot(a, col, n - 1);
        if a[p][col].spec_abs() < a[n - 1][col].spec_abs() {
            n - 1
        } else {
            p
        }
    }
}

/// The matrix with rows `p` and `q` exchanged.
pub open spec fn swap_rows<S>(a: Seq<Seq<S>>, p: int, q: int) -> Seq<Seq<S>> {
    a.update(p, a[q]).update(q, a[p])
}

/// Row `col` divided by `d`; from every other row, `f[r]` times that subtracted.
pub open spec fn spec_eliminate<S: Scalar>(
    a: Seq<Seq<S>>,
    col: int,
    d: S,
    f: Seq<S>,
) -> Seq<Seq<S>> {
    Seq::new(
        4,
        |r: int|
            Seq::new(
                4,
                |k: int|
                    if r == col {
                        a[col][k] / d
                    } else {
                        a[r][k] - f[r] * (a[col][k] / d)
                    },
            ),
    )
}

/// Column `col` of a matrix.
pub open spec fn column<S>(a: Seq<Seq<S>>, col: int) -> Seq<S> {
    Seq::new(4, |r: int| a[r][col])
}

/// Elimination of column `col` in the pair of the matrix and what becomes its inverse;
/// `None` where no pivot is left.
pub open spec fn spec_gauss_step<S: Real>(
    a: Seq<Seq<S>>,
    inv: Seq<Seq<S>>,
    col: int,
) -> Option<(Seq<Seq<S>>, Seq<Seq<S>>)> {
    let p = spec_pivot(a, col, 4);
    if a[p][col].spec_abs() < S::spec_splat(1, 1000000000000) {
        None
    } else {
        let b = swap_rows(a, col, p);
        let d = b[col][col];
        let f = column(b, col);
        Some(
            (
                spec_eliminate(b, col, d, f),
                spec_eliminate(swap_rows(inv, col, p), col, d, f),
            ),
        )
    }
}

/// The first `n` columns eliminated.
pub open spec fn spec_gauss<S: Real>(
    a: Seq<Seq<S>>,
    inv: Seq<Seq<S>>,
    n: nat,
) -> Option<(Seq<Seq<S>>, Seq<Seq<S>>)>
    decreases n,
{
    if n == 0 {
        Some((a, inv))
    } else {
        match spec_gauss(a, inv, (n - 1) as nat) {
            None => None,
            Some((b, c)) => spec_gauss_step(b, c, n - 1),
        }
    }
}

/// The 4x4 identity.
pub open spec fn identity4<S: Scalar>() -> Seq<Seq<S>> {
    Seq::new(
        4,
        |i: int|
            Seq::new(
                4,
                |j: int|
                    if i == j {
                        S::spec_one()
                    } else {
                        S::spec_zero()
                    },
            ),
    )
}

/// The inverse of a 4x4 matrix; `None` if a pivot is below 1e-12.
pub open spec fn spec_inv4<S: Real>(m: Seq<Seq<S>>) -> Option<Seq<Seq<S>>> {
    match spec_gauss(m, identity4(), 4) {
        None => None,
        Some((_, inv)) => Some(inv),
    }
}

fn pivot<S: Real>(a: &[[S; 4]; 4], col: usize) -> (r: usize)
    requires
        col < 4,
    ensures
        col <= r < 4,
        r == spec_pivot(mat(*a), col as int, 4),
{
    let mut piv: usize = col;
    let mut best = a[col][col].abs();
    let mut r: usize = col + 1;
    while r < 4
        invariant
            col < r <= 4,
            col <= piv < r,
            piv == spec_pivot(mat(*a), col as int, r as int),
            best == a[piv as int][col as int].spec_abs(),
        decreases 4 - r,
    {
        let m = a[r][col].abs();
        if best.lt(m) {
            best = m;
            piv = r;
        }
        r = r + 1;
    }
    piv
}

fn eliminate<S: Scalar>(a: &[[S; 4]; 4], col: usize, d: S, f: &[S; 4]) -> (r: [[S; 4]; 4])
    requires
        col < 4,
    ensures
        mat(r) == spec_eliminate(mat(*a), col as int, d, f@),
{
    let mut out = *a;
    for k in 0..4
        invariant
            col < 4,
            forall|q: int|
                0 <= q < k ==> #[trigger] out[col as int][q] == a[col as int][q] / d,
            forall|q: int| k <= q < 4 ==> #[trigger] out[col as int][q] == a[col as int][q],
            forall|p: int| 0 <= p < 4 && p != col ==> #[trigger] out[p] == a[p],
    {
        out[col][k] = out[col][k].div(d);
    }
    let row = out[col];
    for r in 0..4
        invariant
            col < 4,
            row == out[col as int],
            forall|q: int| 0 <= q < 4 ==> #[trigger] row[q] == a[col as int][q] / d,
            forall|p: int, q: int|
                0 <= p < r && p != col && 0 <= q < 4 ==> #[trigger] out[p][q] == a[p][q] - f[p]
                    * row[q],
            forall|p: int| r <= p < 4 && p != col ==> #[trigger] out[p] == a[p],
    {
        if r != col {
            for k in 0..4
                invariant
                    col < 4,
                    r < 4,
                    r != col,
                    row == out[col as int],
                    forall|q: int|
                        0 <= q < k ==> #[trigger] out[r as int][q] == a[r as int][q] - f[r as int]
                            * row[q],
                    forall|q: int| k <= q < 4 ==> #[trigger] out[r as int][q] == a[r as int][q],
                    forall|p: int, q: int|
                        0 <= p < r && p != col && 0 <= q < 4 ==> #[trigger] out[p][q] == a[p][q]
                            - f[p] * row[q],
                    forall|p: int| r < p < 4 && p != col ==> #[trigger] out[p] == a[p],
            {
                out[r][k] = out[r][k].sub(f[r].mul(row[k]));
            }
        }
    }
    assert(mat(out) =~~= spec_eliminate(mat(*a), col as int, d, f@));
    out
}

fn swapped<S: Copy>(a: &[[S; 4]; 4], p: usize, q: usize) -> (r: [[S; 4]; 4])
    requires
        p < 4,
        q < 4,
    ensures
        mat(r) == swap_rows(mat(*a), p as int, q as int),
{
    let mut r = *a;
    r[p] = a[q];
    r[q] = a[p];
    assert(mat(r) =~~= swap_rows(mat(*a), p as int, q as int));
    r
}

/// 4x4 inverse by Gauss-Jordan elimination with partial pivoting; `None` if singular.
pub fn inv4<S: Real>(m: &[[S; 4]; 4]) -> (r: Option<[[S; 4]; 4]>)
    ensures
        match r {
            Some(inv) => spec_inv4(mat(*m)) == Some(mat(inv)),
            None => spec_inv4(mat(*m)) is None,
        },
{
    let (o, z) = (S::one(), S::zero());
    let mut a = *m;
    let mut inv = [[o, z, z, z], [z, o, z, z], [z, z, o, z], [z, z, z, o]];
    assert(mat(inv) =~~= identity4::<S>());
    for col in 0..4
        invariant
            spec_gauss(mat(*m), identity4::<S>(), col as nat) == Some((mat(a), mat(inv))),
    {
        let piv = pivot(&a, col);
        if a[piv][col].abs().lt(S::splat(1, 1000000000000)) {
            assert(spec_gauss(mat(*m), identity4::<S>(), (col + 1) as nat) is None);
            proof {
                lemma_gauss_stays_none(mat(*m), identity4::<S>(), (col + 1) as nat, 4);
            }
            return None;
        }
        let b = swapped(&a, col, piv);
        let c = swapped(&inv, col, piv);
        let d = b[col][col];
        let f = [b[0][col], b[1][col], b[2][col], b[3][col]];
        assert(f@ =~= column(mat(b), col as int));
        assert(d == mat(b)[col as int][col as int]);
        a = eliminate(&b, col, d, &f);
        inv = eliminate(&c, col, d, &f);
    }
    Some(inv)
}

proof fn lemma_gauss_stays_none<S: Real>(a: Seq<Seq<S>>, inv: Seq<Seq<S>>, n: nat, m: nat)
    requires
        n <= m,
        spec_gauss(a, inv, n) is None,
    ensures
        spec_gauss(a, inv, m) is None,
    decreases m,
{
    if n < m {
        lemma_gauss_stays_none(a, inv, n, (m - 1) as nat);
    }
}

// ---------------------------------------------------------------------------
// The inverse inverts
// ---------------------------------------------------------------------------
/// Row `p` of `x` times column `q` of `m`, in numbers.
pub open spec fn entry4<S: Real>(x: Seq<Seq<S>>, m: Seq<Seq<S>>, p: int, q: int) -> real {
    x[p][0].val() * m[0][q].val() + x[p][1].val() * m[1][q].val() + x[p][2].val()
        * m[2][q].val() + x[p][3].val() * m[3][q].val()
}

/// A matrix of four rows and columns.
pub open spec fn square4<S>(a: Seq<Seq<S>>) -> bool {
    a.len() == 4 && forall|i: int| 0 <= i < 4 ==> (#[trigger] a[i]).len() == 4
}

/// `a` is `x` times `m`.
pub open spec fn is_product4<S: Real>(a: Seq<Seq<S>>, x: Seq<Seq<S>>, m: Seq<Seq<S>>) -> bool {
    forall|p: int, q: int|
        0 <= p < 4 && 0 <= q < 4 ==> #[trigger] a[p][q].val() == entry4(x, m, p, q)
}

/// The first `n` columns of `a` are those of the identity.
pub open spec fn unit_columns<S: Real>(a: Seq<Seq<S>>, n: int) -> bool {
    forall|p: int, q: int|
        0 <= p < 4 && 0 <= q < n ==> #[trigger] a[p][q].val() == crate::linalg::unit(p, q)
}

proof fn lemma_pivot_range<S: Real>(a: Seq<Seq<S>>, col: int, n: int)
    requires
        0 <= col < n,
    ensures
        col <= spec_pivot(a, col, n) < n,
    decreases n - col,
{
    if n > col + 1 {
        lemma_pivot_range(a, col, n - 1);
    }
}

/// A quotient as a product with the reciprocal.
pub proof fn lemma_ratio(x: real, d: real)
    requires
        d != 0real,
    ensures
        x / d == x * (1real / d),
        d / d == 1real,
        0real / d == 0real,
{
    assert(x / d == x * (1real / d)) by (nonlinear_arith)
        requires
            d != 0real,
    ;
    assert(d / d == 1real) by (nonlinear_arith)
        requires
            d != 0real,
    ;
    assert(0real / d == 0real) by (nonlinear_arith)
        requires
            d != 0real,
    ;
}

/// Scaling a row scales its products.
proof fn lemma_scaled_entry(x: crate::algebra::Row4, m: crate::algebra::Row4, r: real)
    ensures
        (x.a * r) * m.a + (x.b * r) * m.b + (x.c * r) * m.c + (x.d * r) * m.d
            == crate::algebra::dot4(x, m) * r,
{
    let s = crate::algebra::Row4 { a: x.a * r, b: x.b * r, c: x.c * r, d: x.d * r };
    crate::algebra::lemma_scale4(m, x, r);
    crate::algebra::lemma_comm(s.a, m.a);
    crate::algebra::lemma_comm(s.b, m.b);
    crate::algebra::lemma_comm(s.c, m.c);
    crate::algebra::lemma_comm(s.d, m.d);
    crate::algebra::lemma_comm(x.a, m.a);
    crate::algebra::lemma_comm(x.b, m.b);
    crate::algebra::lemma_comm(x.c, m.c);
    crate::algebra::lemma_comm(x.d, m.d);
}

/// Subtracting a multiple of another row does the same to the products.
proof fn lemma_shifted_entry(
    x: crate::algebra::Row4,
    y: crate::algebra::Row4,
    m: crate::algebra::Row4,
    f: real,
)
    ensures
        (x.a - f * y.a) * m.a + (x.b - f * y.b) * m.b + (x.c - f * y.c) * m.c + (x.d - f * y.d)
            * m.d == crate::algebra::dot4(x, m) - f * crate::algebra::dot4(y, m),
{
    crate::algebra::lemma_dist(m.a, x.a, f * y.a);
    crate::algebra::lemma_dist(m.b, x.b, f * y.b);
    crate::algebra::lemma_dist(m.c, x.c, f * y.c);
    crate::algebra::lemma_dist(m.d, x.d, f * y.d);
    crate::algebra::lemma_comm(f, y.a);
    crate::algebra::lemma_comm(f, y.b);
    crate::algebra::lemma_comm(f, y.c);
    crate::algebra::lemma_comm(f, y.d);
    lemma_scaled_entry(y, m, f);
    crate::algebra::lemma_comm(f, crate::algebra::dot4(y, m));
}

/// The numbers in row `p`.
pub open spec fn row4<S: Real>(x: Seq<Seq<S>>, p: int) -> crate::algebra::Row4 {
    crate::algebra::Row4 {
        a: x[p][0].val(),
        b: x[p][1].val(),
        c: x[p][2].val(),
        d: x[p][3].val(),
    }
}

/// The numbers in column `q`.
pub open spec fn col4<S: Real>(m: Seq<Seq<S>>, q: int) -> crate::algebra::Row4 {
    crate::algebra::Row4 {
        a: m[0][q].val(),
        b: m[1][q].val(),
        c: m[2][q].val(),
        d: m[3][q].val(),
    }
}

/// Eliminating a column on both sides keeps the product.
proof fn lemma_eliminate_keeps_product<S: Real>(
    a: Seq<Seq<S>>,
    x: Seq<Seq<S>>,
    m: Seq<Seq<S>>,
    col: int,
    d: S,
    f: Seq<S>,
)
    requires
        crate::scalar::exact::<S>(),
        is_product4(a, x, m),
        0 <= col < 4,
        d.val() != 0real,
    ensures
        is_product4(spec_eliminate(a, col, d, f), spec_eliminate(x, col, d, f), m),
{
    let (b, y) = (spec_eliminate(a, col, d, f), spec_eliminate(x, col, d, f));
    let r = 1real / d.val();
    assert forall|p: int, q: int| 0 <= p < 4 && 0 <= q < 4 implies #[trigger] b[p][q].val()
        == entry4(y, m, p, q) by {
        let mq = col4(m, q);
        let (xc, xp) = (row4(x, col), row4(x, p));
        lemma_ratio(a[col][q].val(), d.val());
        lemma_ratio(x[col][0].val(), d.val());
        lemma_ratio(x[col][1].val(), d.val());
        lemma_ratio(x[col][2].val(), d.val());
        lemma_ratio(x[col][3].val(), d.val());
        lemma_scaled_entry(xc, mq, r);
        assert(a[col][q].val() == entry4(x, m, col, q));
        assert(entry4(x, m, col, q) == crate::algebra::dot4(xc, mq));
        let sc = crate::algebra::Row4 { a: xc.a * r, b: xc.b * r, c: xc.c * r, d: xc.d * r };
        assert((a[col][q] / d).val() == crate::algebra::dot4(sc, mq));
        if p == col {
            assert(b[p][q].val() == (a[col][q] / d).val());
        } else {
            let fp = f[p].val();
            assert(a[p][q].val() == entry4(x, m, p, q));
            assert(entry4(x, m, p, q) == crate::algebra::dot4(xp, mq));
            lemma_shifted_entry(xp, sc, mq, fp);
            assert(b[p][q].val() == a[p][q].val() - fp * (a[col][q] / d).val());
            assert(y[p][0].val() == xp.a - fp * sc.a);
            assert(y[p][1].val() == xp.b - fp * sc.b);
            assert(y[p][2].val() == xp.c - fp * sc.c);
            assert(y[p][3].val() == xp.d - fp * sc.d);
        }
    }
}

/// Eliminating column `col` makes it a column of the identity, and leaves those before it.
proof fn lemma_eliminate_makes_unit<S: Real>(a: Seq<Seq<S>>, col: int)
    requires
        crate::scalar::exact::<S>(),
        unit_columns(a, col),
        0 <= col < 4,
        a[col][col].val() != 0real,
    ensures
        unit_columns(spec_eliminate(a, col, a[col][col], column(a, col)), col + 1),
{
    let d = a[col][col];
    let f = column(a, col);
    let b = spec_eliminate(a, col, d, f);
    assert forall|p: int, q: int| 0 <= p < 4 && 0 <= q < col + 1 implies #[trigger] b[p][q].val()
        == crate::linalg::unit(p, q) by {
        lemma_ratio(a[col][q].val(), d.val());
        assert(f[p] == a[p][col]);
        if q == col {
            assert((a[col][q] / d).val() == 1real);
            assert(a[p][col].val() * 1real == a[p][col].val()) by (nonlinear_arith);
        } else {
            assert(a[col][q].val() == crate::linalg::unit(col, q));
            assert((a[col][q] / d).val() == 0real);
            assert(a[p][q].val() == crate::linalg::unit(p, q));
            assert(f[p].val() * 0real == 0real) by (nonlinear_arith);
        }
    }
}

proof fn lemma_gauss<S: Real>(m: Seq<Seq<S>>, n: nat)
    requires
        crate::scalar::exact::<S>(),
        square4(m),
        n <= 4,
        spec_gauss(m, identity4(), n) is Some,
    ensures
        ({
            let (a, x) = spec_gauss(m, identity4::<S>(), n)->0;
            square4(a) && square4(x) && is_product4(a, x, m) && unit_columns(a, n as int)
        }),
    decreases n,
{
    if n == 0 {
        let id = identity4::<S>();
        assert forall|p: int, q: int| 0 <= p < 4 && 0 <= q < 4 implies #[trigger] m[p][q].val()
            == entry4(id, m, p, q) by {
            crate::linalg::lemma_unit_times(m[0][q].val());
            crate::linalg::lemma_unit_times(m[1][q].val());
            crate::linalg::lemma_unit_times(m[2][q].val());
            crate::linalg::lemma_unit_times(m[3][q].val());
            assert(p == 0 || p == 1 || p == 2 || p == 3);
        }
    } else {
        let col = n - 1;
        lemma_gauss(m, (n - 1) as nat);
        let (a, x) = spec_gauss(m, identity4::<S>(), (n - 1) as nat)->0;
        let p = spec_pivot(a, col, 4);
        lemma_pivot_range(a, col, 4);
        crate::scalar::lemma_splat_fraction::<S>(1, 1000000000000);
        let tiny = S::spec_splat(1, 1000000000000);
        assert((a[p][col].spec_abs() < tiny) <==> a[p][col].spec_abs().val() < tiny.val());
        assert(a[p][col].val() != 0real);
        let (b, y) = (swap_rows(a, col, p), swap_rows(x, col, p));
        assert(is_product4(b, y, m)) by {
            assert forall|i: int, q: int| 0 <= i < 4 && 0 <= q < 4 implies #[trigger] b[i][q].val()
                == entry4(y, m, i, q) by {
                let k = if i == col {
                    p
                } else if i == p {
                    col
                } else {
                    i
                };
                assert(b[i] == a[k] && y[i] == x[k]);
                assert(a[k][q].val() == entry4(x, m, k, q));
            }
        }
        assert(unit_columns(b, col)) by {
            assert forall|i: int, q: int| 0 <= i < 4 && 0 <= q < col implies #[trigger] b[i][q].val()
                == crate::linalg::unit(i, q) by {
                let k = if i == col {
                    p
                } else if i == p {
                    col
                } else {
                    i
                };
                assert(b[i] == a[k]);
                assert(a[k][q].val() == crate::linalg::unit(k, q));
            }
        }
        lemma_eliminate_keeps_product(b, y, m, col, b[col][col], column(b, col));
        lemma_eliminate_makes_unit(b, col);
    }
}

/// What Gauss-Jordan elimination gives, times the matrix, is the identity.
pub proof fn law_inv4_inverts<S: Real>(m: Seq<Seq<S>>)
    requires
        crate::scalar::exact::<S>(),
        square4(m),
        spec_inv4(m) is Some,
    ensures
        forall|p: int, q: int|
            0 <= p < 4 && 0 <= q < 4 ==> #[trigger] entry4(spec_inv4(m)->0, m, p, q)
                == crate::linalg::unit(p, q),
{
    lemma_gauss(m, 4);
    let (a, x) = spec_gauss(m, identity4::<S>(), 4)->0;
    assert forall|p: int, q: int| 0 <= p < 4 && 0 <= q < 4 implies #[trigger] entry4(x, m, p, q)
        == crate::linalg::unit(p, q) by {
        assert(a[p][q].val() == entry4(x, m, p, q));
    }
}

} // verus!
