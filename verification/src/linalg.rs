//! Fixed-size linear algebra: 3-vectors, 3x3 and 4x4 matrices, quaternions.
//!
//! Only the operations that the vehicle dynamics need, each without a branch. The
//! specification function of an operation is the expression that it evaluates; the
//! geometric meaning of those expressions is proved at the end of the file for
//! exact arithmetic.
use vstd::prelude::*;

use crate::scalar::{Real, Scalar};

verus! {

// ---------------------------------------------------------------------------
// Vec3
// ---------------------------------------------------------------------------
#[derive(Clone, Copy, Debug)]
pub struct Vec3<S> {
    pub x: S,
    pub y: S,
    pub z: S,
}

impl<S: Real> Vec3<S> {
    /// Both stand for the same vector of numbers.
    pub open spec fn same(self, o: Self) -> bool {
        self.x.val() == o.x.val() && self.y.val() == o.y.val() && self.z.val() == o.z.val()
    }

    /// The numbers of the vector.
    pub open spec fn row(self) -> crate::algebra::Row3 {
        crate::algebra::Row3 { x: self.x.val(), y: self.y.val(), z: self.z.val() }
    }
}

impl<S: Scalar> Vec3<S> {
    pub open spec fn spec_zero() -> Self {
        Vec3 { x: S::spec_zero(), y: S::spec_zero(), z: S::spec_zero() }
    }

    pub open spec fn spec_add(self, o: Self) -> Self {
        Vec3 { x: self.x + o.x, y: self.y + o.y, z: self.z + o.z }
    }

    pub open spec fn spec_sub(self, o: Self) -> Self {
        Vec3 { x: self.x - o.x, y: self.y - o.y, z: self.z - o.z }
    }

    pub open spec fn spec_neg(self) -> Self {
        Vec3 { x: -self.x, y: -self.y, z: -self.z }
    }

    pub open spec fn spec_scale(self, s: S) -> Self {
        Vec3 { x: self.x * s, y: self.y * s, z: self.z * s }
    }

    pub open spec fn spec_dot(self, o: Self) -> S {
        self.x * o.x + self.y * o.y + self.z * o.z
    }

    pub open spec fn spec_cross(self, o: Self) -> Self {
        Vec3 {
            x: self.y * o.z - self.z * o.y,
            y: self.z * o.x - self.x * o.z,
            z: self.x * o.y - self.y * o.x,
        }
    }

    pub open spec fn spec_norm(self) -> S {
        self.spec_dot(self).spec_sqrt()
    }

    pub open spec fn spec_hadamard(self, o: Self) -> Self {
        Vec3 { x: self.x * o.x, y: self.y * o.y, z: self.z * o.z }
    }

    pub fn new(x: S, y: S, z: S) -> (r: Self)
        ensures
            r == (Vec3 { x, y, z }),
    {
        Vec3 { x, y, z }
    }

    pub fn zero() -> (r: Self)
        ensures
            r == Self::spec_zero(),
    {
        Vec3 { x: S::zero(), y: S::zero(), z: S::zero() }
    }

    pub fn add(self, o: Self) -> (r: Self)
        ensures
            r == self + o,
    {
        Vec3 { x: self.x.add(o.x), y: self.y.add(o.y), z: self.z.add(o.z) }
    }

    pub fn sub(self, o: Self) -> (r: Self)
        ensures
            r == self - o,
    {
        Vec3 { x: self.x.sub(o.x), y: self.y.sub(o.y), z: self.z.sub(o.z) }
    }

    pub fn neg(self) -> (r: Self)
        ensures
            r == -self,
    {
        Vec3 { x: self.x.neg(), y: self.y.neg(), z: self.z.neg() }
    }

    pub fn scale(self, s: S) -> (r: Self)
        ensures
            r == self.spec_scale(s),
    {
        Vec3 { x: self.x.mul(s), y: self.y.mul(s), z: self.z.mul(s) }
    }

    pub fn dot(self, o: Self) -> (r: S)
        ensures
            r == self.spec_dot(o),
    {
        self.x.mul(o.x).add(self.y.mul(o.y)).add(self.z.mul(o.z))
    }

    pub fn cross(self, o: Self) -> (r: Self)
        ensures
            r == self.spec_cross(o),
    {
        Vec3 {
            x: self.y.mul(o.z).sub(self.z.mul(o.y)),
            y: self.z.mul(o.x).sub(self.x.mul(o.z)),
            z: self.x.mul(o.y).sub(self.y.mul(o.x)),
        }
    }

    pub fn norm(self) -> (r: S)
        ensures
            r == self.spec_norm(),
    {
        self.dot(self).sqrt()
    }

    /// Component-wise (Hadamard) product.
    pub fn hadamard(self, o: Self) -> (r: Self)
        ensures
            r == self.spec_hadamard(o),
    {
        Vec3 { x: self.x.mul(o.x), y: self.y.mul(o.y), z: self.z.mul(o.z) }
    }

    pub fn to_array(self) -> (r: [S; 3])
        ensures
            r@ == seq![self.x, self.y, self.z],
    {
        [self.x, self.y, self.z]
    }
}

// ---------------------------------------------------------------------------
// Mat3 (row-major)
// ---------------------------------------------------------------------------
#[derive(Clone, Copy, Debug)]
pub struct Mat3<S> {
    /// `rows[i]` is the i-th row.
    pub rows: [[S; 3]; 3],
}

impl<S: Scalar> Mat3<S> {
    /// The entry in row `i` and column `j`.
    pub open spec fn at(self, i: int, j: int) -> S {
        self.rows[i][j]
    }

    pub open spec fn spec_hat(s: Vec3<S>) -> Self {
        let z = S::spec_zero();
        Mat3 { rows: [[z, -s.z, s.y], [s.z, z, -s.x], [-s.y, s.x, z]] }
    }

    pub open spec fn spec_matvec(self, v: Vec3<S>) -> Vec3<S> {
        Vec3 {
            x: self.at(0, 0) * v.x + self.at(0, 1) * v.y + self.at(0, 2) * v.z,
            y: self.at(1, 0) * v.x + self.at(1, 1) * v.y + self.at(1, 2) * v.z,
            z: self.at(2, 0) * v.x + self.at(2, 1) * v.y + self.at(2, 2) * v.z,
        }
    }

    pub open spec fn spec_transpose(self) -> Self {
        Mat3 {
            rows: [
                [self.at(0, 0), self.at(1, 0), self.at(2, 0)],
                [self.at(0, 1), self.at(1, 1), self.at(2, 1)],
                [self.at(0, 2), self.at(1, 2), self.at(2, 2)],
            ],
        }
    }

    /// The transpose applied to a vector.
    pub open spec fn spec_tmatvec(self, v: Vec3<S>) -> Vec3<S> {
        self.spec_transpose().spec_matvec(v)
    }

    /// Entry `(i, j)` of the product with `o`.
    pub open spec fn mul_at(self, o: Self, i: int, j: int) -> S {
        self.at(i, 0) * o.at(0, j) + self.at(i, 1) * o.at(1, j) + self.at(i, 2) * o.at(2, j)
    }

    pub open spec fn spec_mul(self, o: Self) -> Self {
        Mat3 {
            rows: [
                [self.mul_at(o, 0, 0), self.mul_at(o, 0, 1), self.mul_at(o, 0, 2)],
                [self.mul_at(o, 1, 0), self.mul_at(o, 1, 1), self.mul_at(o, 1, 2)],
                [self.mul_at(o, 2, 0), self.mul_at(o, 2, 1), self.mul_at(o, 2, 2)],
            ],
        }
    }

    /// The 2x2 minor of rows `a`, `b` and columns `c`, `d`.
    pub open spec fn minor(self, a: int, b: int, c: int, d: int) -> S {
        self.at(a, c) * self.at(b, d) - self.at(a, d) * self.at(b, c)
    }

    pub open spec fn spec_det(self) -> S {
        self.at(0, 0) * self.minor(1, 2, 1, 2) + self.at(0, 1) * self.minor(1, 2, 2, 0)
            + self.at(0, 2) * self.minor(1, 2, 0, 1)
    }

    /// The adjugate times the reciprocal of the determinant.
    pub open spec fn spec_inverse(self) -> Self {
        let d = S::spec_one() / self.spec_det();
        Mat3 {
            rows: [
                [
                    self.minor(1, 2, 1, 2) * d,
                    (self.at(0, 2) * self.at(2, 1) - self.at(0, 1) * self.at(2, 2)) * d,
                    self.minor(0, 1, 1, 2) * d,
                ],
                [
                    self.minor(1, 2, 2, 0) * d,
                    self.minor(0, 2, 0, 2) * d,
                    self.minor(0, 1, 2, 0) * d,
                ],
                [
                    self.minor(1, 2, 0, 1) * d,
                    (self.at(0, 1) * self.at(2, 0) - self.at(0, 0) * self.at(2, 1)) * d,
                    self.minor(0, 1, 0, 1) * d,
                ],
            ],
        }
    }

    pub fn new(rows: [[S; 3]; 3]) -> (r: Self)
        ensures
            r == (Mat3 { rows }),
    {
        Mat3 { rows }
    }

    /// Skew-symmetric matrix of `s`: applied to `v` it gives `s.cross(v)`.
    pub fn hat(s: Vec3<S>) -> (r: Self)
        ensures
            r == Self::spec_hat(s),
    {
        let z = S::zero();
        Mat3 { rows: [[z, s.z.neg(), s.y], [s.z, z, s.x.neg()], [s.y.neg(), s.x, z]] }
    }

    pub fn matvec(&self, v: Vec3<S>) -> (r: Vec3<S>)
        ensures
            r == self.spec_matvec(v),
    {
        let m = &self.rows;
        Vec3 {
            x: m[0][0].mul(v.x).add(m[0][1].mul(v.y)).add(m[0][2].mul(v.z)),
            y: m[1][0].mul(v.x).add(m[1][1].mul(v.y)).add(m[1][2].mul(v.z)),
            z: m[2][0].mul(v.x).add(m[2][1].mul(v.y)).add(m[2][2].mul(v.z)),
        }
    }

    /// Transpose times vector (the world-to-body rotation).
    pub fn tmatvec(&self, v: Vec3<S>) -> (r: Vec3<S>)
        ensures
            r == self.spec_tmatvec(v),
    {
        let m = &self.rows;
        Vec3 {
            x: m[0][0].mul(v.x).add(m[1][0].mul(v.y)).add(m[2][0].mul(v.z)),
            y: m[0][1].mul(v.x).add(m[1][1].mul(v.y)).add(m[2][1].mul(v.z)),
            z: m[0][2].mul(v.x).add(m[1][2].mul(v.y)).add(m[2][2].mul(v.z)),
        }
    }

    pub fn transpose(&self) -> (r: Self)
        ensures
            r == self.spec_transpose(),
    {
        let m = &self.rows;
        Mat3 {
            rows: [
                [m[0][0], m[1][0], m[2][0]],
                [m[0][1], m[1][1], m[2][1]],
                [m[0][2], m[1][2], m[2][2]],
            ],
        }
    }

    /// Matrix product `self * o`.
    pub fn mul(&self, o: &Self) -> (r: Self)
        ensures
            r == self.spec_mul(*o),
    {
        let a = &self.rows;
        let b = &o.rows;
        let mut rows = [[S::zero(); 3]; 3];
        for i in 0..3
            invariant
                a == &self.rows,
                b == &o.rows,
                forall|p: int, q: int|
                    0 <= p < i && 0 <= q < 3 ==> #[trigger] rows[p][q] == self.mul_at(*o, p, q),
        {
            for j in 0..3
                invariant
                    0 <= i < 3,
                    a == &self.rows,
                    b == &o.rows,
                    forall|p: int, q: int|
                        0 <= p < i && 0 <= q < 3 ==> #[trigger] rows[p][q] == self.mul_at(
                            *o,
                            p,
                            q,
                        ),
                    forall|q: int|
                        0 <= q < j ==> #[trigger] rows[i as int][q] == self.mul_at(
                            *o,
                            i as int,
                            q,
                        ),
            {
                rows[i][j] = a[i][0].mul(b[0][j]).add(a[i][1].mul(b[1][j])).add(
                    a[i][2].mul(b[2][j]),
                );
            }
        }
        let ghost want = self.spec_mul(*o);
        assert(rows[0] =~= want.rows[0]);
        assert(rows[1] =~= want.rows[1]);
        assert(rows[2] =~= want.rows[2]);
        assert(rows =~= want.rows);
        Mat3 { rows }
    }

    /// General inverse by cofactors over the determinant.
    pub fn inverse(&self) -> (r: Self)
        ensures
            r == self.spec_inverse(),
    {
        let m = &self.rows;
        let c00 = m[1][1].mul(m[2][2]).sub(m[1][2].mul(m[2][1]));
        let c01 = m[1][2].mul(m[2][0]).sub(m[1][0].mul(m[2][2]));
        let c02 = m[1][0].mul(m[2][1]).sub(m[1][1].mul(m[2][0]));
        let c10 = m[0][2].mul(m[2][1]).sub(m[0][1].mul(m[2][2]));
        let c11 = m[0][0].mul(m[2][2]).sub(m[0][2].mul(m[2][0]));
        let c12 = m[0][1].mul(m[2][0]).sub(m[0][0].mul(m[2][1]));
        let c20 = m[0][1].mul(m[1][2]).sub(m[0][2].mul(m[1][1]));
        let c21 = m[0][2].mul(m[1][0]).sub(m[0][0].mul(m[1][2]));
        let c22 = m[0][0].mul(m[1][1]).sub(m[0][1].mul(m[1][0]));
        let det = m[0][0].mul(c00).add(m[0][1].mul(c01)).add(m[0][2].mul(c02));
        let d = S::one().div(det);
        Mat3 {
            rows: [
                [c00.mul(d), c10.mul(d), c20.mul(d)],
                [c01.mul(d), c11.mul(d), c21.mul(d)],
                [c02.mul(d), c12.mul(d), c22.mul(d)],
            ],
        }
    }
}

// ---------------------------------------------------------------------------
// Mat4 (row-major), for the control allocation
// ---------------------------------------------------------------------------
#[derive(Clone, Copy, Debug)]
pub struct Mat4<S> {
    pub rows: [[S; 4]; 4],
}

impl<S: Scalar> Mat4<S> {
    /// The entry in row `i` and column `j`.
    pub open spec fn at(self, i: int, j: int) -> S {
        self.rows[i][j]
    }

    /// Entry `i` of the product with the vector `v`.
    pub open spec fn matvec_at(self, v: Seq<S>, i: int) -> S {
        self.at(i, 0) * v[0] + self.at(i, 1) * v[1] + self.at(i, 2) * v[2] + self.at(i, 3) * v[3]
    }

    pub open spec fn spec_matvec(self, v: Seq<S>) -> Seq<S> {
        seq![
            self.matvec_at(v, 0),
            self.matvec_at(v, 1),
            self.matvec_at(v, 2),
            self.matvec_at(v, 3),
        ]
    }

    /// The 2x2 minor of rows `a`, `b` and columns `c`, `d`.
    pub open spec fn minor(self, a: int, b: int, c: int, d: int) -> S {
        self.at(a, c) * self.at(b, d) - self.at(b, c) * self.at(a, d)
    }

    /// The determinant, by the minors of the upper and of the lower two rows.
    pub open spec fn spec_det(self) -> S {
        self.minor(0, 1, 0, 1) * self.minor(2, 3, 2, 3) - self.minor(0, 1, 0, 2) * self.minor(
            2,
            3,
            1,
            3,
        ) + self.minor(0, 1, 0, 3) * self.minor(2, 3, 1, 2) + self.minor(0, 1, 1, 2) * self.minor(
            2,
            3,
            0,
            3,
        ) - self.minor(0, 1, 1, 3) * self.minor(2, 3, 0, 2) + self.minor(0, 1, 2, 3) * self.minor(
            2,
            3,
            0,
            1,
        )
    }

    /// `r` expanded along row `i`: the columns `a < b < c` against the minors `x`,
    /// `y`, `z` with signs `+ - +`.
    pub open spec fn along(self, i: int, a: int, x: S, b: int, y: S, c: int, z: S) -> S {
        self.at(i, a) * x - self.at(i, b) * y + self.at(i, c) * z
    }

    /// The same with signs `- + -`.
    pub open spec fn against(self, i: int, a: int, x: S, b: int, y: S, c: int, z: S) -> S {
        (-self.at(i, a)) * x + self.at(i, b) * y - self.at(i, c) * z
    }

    /// The adjugate times the reciprocal of the determinant.
    pub open spec fn spec_inverse(self) -> Self {
        let d = S::spec_one() / self.spec_det();
        let s0 = self.minor(0, 1, 0, 1);
        let s1 = self.minor(0, 1, 0, 2);
        let s2 = self.minor(0, 1, 0, 3);
        let s3 = self.minor(0, 1, 1, 2);
        let s4 = self.minor(0, 1, 1, 3);
        let s5 = self.minor(0, 1, 2, 3);
        let c0 = self.minor(2, 3, 0, 1);
        let c1 = self.minor(2, 3, 0, 2);
        let c2 = self.minor(2, 3, 0, 3);
        let c3 = self.minor(2, 3, 1, 2);
        let c4 = self.minor(2, 3, 1, 3);
        let c5 = self.minor(2, 3, 2, 3);
        Mat4 {
            rows: [
                [
                    self.along(1, 1, c5, 2, c4, 3, c3) * d,
                    self.against(0, 1, c5, 2, c4, 3, c3) * d,
                    self.along(3, 1, s5, 2, s4, 3, s3) * d,
                    self.against(2, 1, s5, 2, s4, 3, s3) * d,
                ],
                [
                    self.against(1, 0, c5, 2, c2, 3, c1) * d,
                    self.along(0, 0, c5, 2, c2, 3, c1) * d,
                    self.against(3, 0, s5, 2, s2, 3, s1) * d,
                    self.along(2, 0, s5, 2, s2, 3, s1) * d,
                ],
                [
                    self.along(1, 0, c4, 1, c2, 3, c0) * d,
                    self.against(0, 0, c4, 1, c2, 3, c0) * d,
                    self.along(3, 0, s4, 1, s2, 3, s0) * d,
                    self.against(2, 0, s4, 1, s2, 3, s0) * d,
                ],
                [
                    self.against(1, 0, c3, 1, c1, 2, c0) * d,
                    self.along(0, 0, c3, 1, c1, 2, c0) * d,
                    self.against(3, 0, s3, 1, s1, 2, s0) * d,
                    self.along(2, 0, s3, 1, s1, 2, s0) * d,
                ],
            ],
        }
    }

    pub fn new(rows: [[S; 4]; 4]) -> (r: Self)
        ensures
            r == (Mat4 { rows }),
    {
        Mat4 { rows }
    }

    pub fn matvec(&self, v: [S; 4]) -> (r: [S; 4])
        ensures
            r@ == self.spec_matvec(v@),
    {
        let m = &self.rows;
        let mut out = [S::zero(); 4];
        for i in 0..4
            invariant
                m == &self.rows,
                forall|p: int| 0 <= p < i ==> #[trigger] out[p] == self.matvec_at(v@, p),
        {
            out[i] = m[i][0].mul(v[0]).add(m[i][1].mul(v[1])).add(m[i][2].mul(v[2])).add(
                m[i][3].mul(v[3]),
            );
        }
        assert(out@ =~= self.spec_matvec(v@));
        out
    }

    fn along_row(
        row: &[S; 4],
        a: usize,
        x: S,
        b: usize,
        y: S,
        c: usize,
        z: S,
    ) -> (r: S)
        requires
            a < 4,
            b < 4,
            c < 4,
        ensures
            r == row[a as int] * x - row[b as int] * y + row[c as int] * z,
    {
        row[a].mul(x).sub(row[b].mul(y)).add(row[c].mul(z))
    }

    fn against_row(
        row: &[S; 4],
        a: usize,
        x: S,
        b: usize,
        y: S,
        c: usize,
        z: S,
    ) -> (r: S)
        requires
            a < 4,
            b < 4,
            c < 4,
        ensures
            r == (-row[a as int]) * x + row[b as int] * y - row[c as int] * z,
    {
        row[a].neg().mul(x).add(row[b].mul(y)).sub(row[c].mul(z))
    }

    /// General inverse by the adjugate: no pivoting, no branch.
    pub fn inverse(&self) -> (r: Self)
        ensures
            r == self.spec_inverse(),
    {
        let m = &self.rows;
        // minors of the upper two rows, then of the lower two
        let s0 = m[0][0].mul(m[1][1]).sub(m[1][0].mul(m[0][1]));
        let s1 = m[0][0].mul(m[1][2]).sub(m[1][0].mul(m[0][2]));
        let s2 = m[0][0].mul(m[1][3]).sub(m[1][0].mul(m[0][3]));
        let s3 = m[0][1].mul(m[1][2]).sub(m[1][1].mul(m[0][2]));
        let s4 = m[0][1].mul(m[1][3]).sub(m[1][1].mul(m[0][3]));
        let s5 = m[0][2].mul(m[1][3]).sub(m[1][2].mul(m[0][3]));
        let c5 = m[2][2].mul(m[3][3]).sub(m[3][2].mul(m[2][3]));
        let c4 = m[2][1].mul(m[3][3]).sub(m[3][1].mul(m[2][3]));
        let c3 = m[2][1].mul(m[3][2]).sub(m[3][1].mul(m[2][2]));
        let c2 = m[2][0].mul(m[3][3]).sub(m[3][0].mul(m[2][3]));
        let c1 = m[2][0].mul(m[3][2]).sub(m[3][0].mul(m[2][2]));
        let c0 = m[2][0].mul(m[3][1]).sub(m[3][0].mul(m[2][1]));
        let det = s0.mul(c5).sub(s1.mul(c4)).add(s2.mul(c3)).add(s3.mul(c2)).sub(s4.mul(c1)).add(
            s5.mul(c0),
        );
        let d = S::one().div(det);
        Mat4 {
            rows: [
                [
                    Self::along_row(&m[1], 1, c5, 2, c4, 3, c3).mul(d),
                    Self::against_row(&m[0], 1, c5, 2, c4, 3, c3).mul(d),
                    Self::along_row(&m[3], 1, s5, 2, s4, 3, s3).mul(d),
                    Self::against_row(&m[2], 1, s5, 2, s4, 3, s3).mul(d),
                ],
                [
                    Self::against_row(&m[1], 0, c5, 2, c2, 3, c1).mul(d),
                    Self::along_row(&m[0], 0, c5, 2, c2, 3, c1).mul(d),
                    Self::against_row(&m[3], 0, s5, 2, s2, 3, s1).mul(d),
                    Self::along_row(&m[2], 0, s5, 2, s2, 3, s1).mul(d),
                ],
                [
                    Self::along_row(&m[1], 0, c4, 1, c2, 3, c0).mul(d),
                    Self::against_row(&m[0], 0, c4, 1, c2, 3, c0).mul(d),
                    Self::along_row(&m[3], 0, s4, 1, s2, 3, s0).mul(d),
                    Self::against_row(&m[2], 0, s4, 1, s2, 3, s0).mul(d),
                ],
                [
                    Self::against_row(&m[1], 0, c3, 1, c1, 2, c0).mul(d),
                    Self::along_row(&m[0], 0, c3, 1, c1, 2, c0).mul(d),
                    Self::against_row(&m[3], 0, s3, 1, s1, 2, s0).mul(d),
                    Self::along_row(&m[2], 0, s3, 1, s1, 2, s0).mul(d),
                ],
            ],
        }
    }
}

// ---------------------------------------------------------------------------
// Quaternion [i, j, k, w]
// ---------------------------------------------------------------------------
#[derive(Clone, Copy, Debug)]
pub struct Quat<S> {
    pub i: S,
    pub j: S,
    pub k: S,
    pub w: S,
}

impl<S: Scalar> Quat<S> {
    pub open spec fn spec_norm(self) -> S {
        (self.i * self.i + self.j * self.j + self.k * self.k + self.w * self.w).spec_sqrt()
    }

    pub open spec fn spec_normalized(self) -> Self {
        let inv = S::spec_one() / self.spec_norm();
        Quat { i: self.i * inv, j: self.j * inv, k: self.k * inv, w: self.w * inv }
    }

    pub open spec fn spec_to_array(self) -> Seq<S> {
        seq![self.i, self.j, self.k, self.w]
    }

    pub open spec fn spec_to_rotmat(self) -> Mat3<S> {
        let q = self.spec_normalized();
        let (x, y, z, w) = (q.i, q.j, q.k, q.w);
        let two = S::spec_splat(2, 1);
        let one = S::spec_one();
        Mat3 {
            rows: [
                [one - two * (y * y + z * z), two * (x * y - z * w), two * (x * z + y * w)],
                [two * (x * y + z * w), one - two * (x * x + z * z), two * (y * z - x * w)],
                [two * (x * z - y * w), two * (y * z + x * w), one - two * (x * x + y * y)],
            ],
        }
    }

    pub fn new(i: S, j: S, k: S, w: S) -> (r: Self)
        ensures
            r == (Quat { i, j, k, w }),
    {
        Quat { i, j, k, w }
    }

    pub fn from_array(a: [S; 4]) -> (r: Self)
        ensures
            r == (Quat { i: a[0], j: a[1], k: a[2], w: a[3] }),
    {
        Quat { i: a[0], j: a[1], k: a[2], w: a[3] }
    }

    pub fn to_array(self) -> (r: [S; 4])
        ensures
            r@ == self.spec_to_array(),
    {
        [self.i, self.j, self.k, self.w]
    }

    pub fn norm(self) -> (r: S)
        ensures
            r == self.spec_norm(),
    {
        self.i.mul(self.i).add(self.j.mul(self.j)).add(self.k.mul(self.k)).add(
            self.w.mul(self.w),
        ).sqrt()
    }

    pub fn normalized(self) -> (r: Self)
        ensures
            r == self.spec_normalized(),
    {
        let inv = S::one().div(self.norm());
        Quat { i: self.i.mul(inv), j: self.j.mul(inv), k: self.k.mul(inv), w: self.w.mul(inv) }
    }

    /// Body-to-world rotation matrix. The quaternion is normalized first, so that
    /// the result is a rotation even when it has drifted off the unit sphere.
    pub fn to_rotmat(self) -> (r: Mat3<S>)
        ensures
            r == self.spec_to_rotmat(),
    {
        let q = self.normalized();
        let (x, y, z, w) = (q.i, q.j, q.k, q.w);
        let two = S::splat(2, 1);
        let one = S::one();
        Mat3::new(
            [
                [
                    one.sub(two.mul(y.mul(y).add(z.mul(z)))),
                    two.mul(x.mul(y).sub(z.mul(w))),
                    two.mul(x.mul(z).add(y.mul(w))),
                ],
                [
                    two.mul(x.mul(y).add(z.mul(w))),
                    one.sub(two.mul(x.mul(x).add(z.mul(z)))),
                    two.mul(y.mul(z).sub(x.mul(w))),
                ],
                [
                    two.mul(x.mul(z).sub(y.mul(w))),
                    two.mul(y.mul(z).add(x.mul(w))),
                    one.sub(two.mul(x.mul(x).add(y.mul(y)))),
                ],
            ],
        )
    }
}

// ---------------------------------------------------------------------------
// Laws
// ---------------------------------------------------------------------------
/// The skew-symmetric matrix of `s` applied to `v` is the cross product.
pub proof fn law_hat_is_cross<S: Real>(s: Vec3<S>, v: Vec3<S>)
    requires
        crate::scalar::exact::<S>(),
    ensures
        Mat3::spec_hat(s).spec_matvec(v).same(s.spec_cross(v)),
{
    let o = S::spec_zero().val();
    let (x, y, z) = (v.x.val(), v.y.val(), v.z.val());
    lemma_zero_times(o, x);
    lemma_zero_times(o, y);
    lemma_zero_times(o, z);
    crate::algebra::lemma_neg(s.x.val(), z);
    crate::algebra::lemma_neg(s.y.val(), x);
    crate::algebra::lemma_neg(s.z.val(), y);
}

proof fn lemma_zero_times(o: real, x: real)
    requires
        o == 0real,
    ensures
        o * x == 0real,
{
    assert(o * x == 0real) by (nonlinear_arith)
        requires
            o == 0real,
    ;
}

/// What the entries of the identity do as factors.
pub proof fn lemma_unit_times(x: real)
    ensures
        1real * x == x,
        0real * x == 0real,
{
    assert(1real * x == x) by (nonlinear_arith);
    assert(0real * x == 0real) by (nonlinear_arith);
}

/// A number times its reciprocal.
pub proof fn lemma_reciprocal(d: real, r: real)
    requires
        d != 0real,
        r == 1real / d,
    ensures
        d * r == 1real,
{
    assert(d * r == 1real) by (nonlinear_arith)
        requires
            d != 0real,
            r == 1real / d,
    ;
}

/// Entry `(i, j)` of the identity.
pub open spec fn unit(i: int, j: int) -> real {
    if i == j {
        1real
    } else {
        0real
    }
}

impl<S: Real> Mat3<S> {
    /// The numbers in row `i`.
    pub open spec fn row(self, i: int) -> crate::algebra::Row3 {
        crate::algebra::Row3 {
            x: self.at(i, 0).val(),
            y: self.at(i, 1).val(),
            z: self.at(i, 2).val(),
        }
    }

    /// The numbers in column `j`.
    pub open spec fn col(self, j: int) -> crate::algebra::Row3 {
        crate::algebra::Row3 {
            x: self.at(0, j).val(),
            y: self.at(1, j).val(),
            z: self.at(2, j).val(),
        }
    }

    /// The columns are orthonormal.
    pub open spec fn orthonormal(self) -> bool {
        forall|i: int, j: int|
            0 <= i < 3 && 0 <= j < 3 ==> #[trigger] crate::algebra::dot(self.col(i), self.col(j))
                == unit(i, j)
    }
}

/// Column `j` of an inverse is a cross product of two rows over the determinant.
proof fn lemma_inverse_columns<S: Real>(m: Mat3<S>, r: real)
    requires
        crate::scalar::exact::<S>(),
        r == (S::spec_one() / m.spec_det()).val(),
    ensures
        m.spec_det().val() == crate::algebra::dot(
            m.row(0),
            crate::algebra::cross(m.row(1), m.row(2)),
        ),
        forall|u: crate::algebra::Row3| #[trigger]
            crate::algebra::dot(u, m.spec_inverse().col(0)) == crate::algebra::dot(
                u,
                crate::algebra::cross(m.row(1), m.row(2)),
            ) * r,
        forall|u: crate::algebra::Row3| #[trigger]
            crate::algebra::dot(u, m.spec_inverse().col(1)) == crate::algebra::dot(
                u,
                crate::algebra::cross(m.row(2), m.row(0)),
            ) * r,
        forall|u: crate::algebra::Row3| #[trigger]
            crate::algebra::dot(u, m.spec_inverse().col(2)) == crate::algebra::dot(
                u,
                crate::algebra::cross(m.row(0), m.row(1)),
            ) * r,
{
    let n = m.spec_inverse();
    let (a, b, c) = (m.row(0), m.row(1), m.row(2));
    let (bc, ca, ab) = (
        crate::algebra::cross(b, c),
        crate::algebra::cross(c, a),
        crate::algebra::cross(a, b),
    );
    crate::algebra::lemma_comm(a.x, c.y);
    crate::algebra::lemma_comm(a.x, c.z);
    crate::algebra::lemma_comm(a.y, c.x);
    crate::algebra::lemma_comm(a.y, c.z);
    crate::algebra::lemma_comm(a.z, c.x);
    crate::algebra::lemma_comm(a.z, c.y);
    crate::algebra::lemma_comm(a.x, b.y);
    crate::algebra::lemma_comm(a.x, b.z);
    crate::algebra::lemma_comm(a.y, b.x);
    crate::algebra::lemma_comm(a.y, b.z);
    crate::algebra::lemma_comm(a.z, b.x);
    crate::algebra::lemma_comm(a.z, b.y);
    assert(n.at(0, 0).val() == bc.x * r && n.at(1, 0).val() == bc.y * r && n.at(2, 0).val() == bc.z
        * r);
    assert(n.at(0, 1).val() == ca.x * r && n.at(1, 1).val() == ca.y * r && n.at(2, 1).val() == ca.z
        * r);
    assert(n.at(0, 2).val() == ab.x * r && n.at(1, 2).val() == ab.y * r && n.at(2, 2).val() == ab.z
        * r);
    assert forall|u: crate::algebra::Row3| #[trigger] crate::algebra::dot(u, n.col(0))
        == crate::algebra::dot(u, bc) * r by {
        crate::algebra::lemma_scale3(u.x, bc.x, u.y, bc.y, u.z, bc.z, r);
    }
    assert forall|u: crate::algebra::Row3| #[trigger] crate::algebra::dot(u, n.col(1))
        == crate::algebra::dot(u, ca) * r by {
        crate::algebra::lemma_scale3(u.x, ca.x, u.y, ca.y, u.z, ca.z, r);
    }
    assert forall|u: crate::algebra::Row3| #[trigger] crate::algebra::dot(u, n.col(2))
        == crate::algebra::dot(u, ab) * r by {
        crate::algebra::lemma_scale3(u.x, ab.x, u.y, ab.y, u.z, ab.z, r);
    }
}

/// Row `i` of an inverse is a cross product of two columns over the determinant.
proof fn lemma_inverse_rows<S: Real>(m: Mat3<S>, r: real)
    requires
        crate::scalar::exact::<S>(),
        r == (S::spec_one() / m.spec_det()).val(),
    ensures
        m.spec_det().val() == crate::algebra::dot(
            m.col(0),
            crate::algebra::cross(m.col(1), m.col(2)),
        ),
        m.spec_inverse().row(0) == crate::algebra::times3(
            crate::algebra::cross(m.col(1), m.col(2)),
            r,
        ),
        m.spec_inverse().row(1) == crate::algebra::times3(
            crate::algebra::cross(m.col(2), m.col(0)),
            r,
        ),
        m.spec_inverse().row(2) == crate::algebra::times3(
            crate::algebra::cross(m.col(0), m.col(1)),
            r,
        ),
{
    let (a, b, c) = (m.row(0), m.row(1), m.row(2));
    let (p, q, t) = (m.col(0), m.col(1), m.col(2));
    lemma_inverse_columns(m, r);
    crate::algebra::lemma_det_of_columns(a, b, c);
    assert(p == crate::algebra::column(a.x, b.x, c.x));
    assert(q == crate::algebra::column(a.y, b.y, c.y));
    assert(t == crate::algebra::column(a.z, b.z, c.z));
    lemma_commuting_row(a, b);
    lemma_commuting_row(b, c);
    lemma_commuting_row(a, c);
}

/// Products of the entries of two rows do not depend on the order.
pub proof fn lemma_commuting_row(a: crate::algebra::Row3, b: crate::algebra::Row3)
    ensures
        a.x * b.y == b.y * a.x,
        a.x * b.z == b.z * a.x,
        a.y * b.x == b.x * a.y,
        a.y * b.z == b.z * a.y,
        a.z * b.x == b.x * a.z,
        a.z * b.y == b.y * a.z,
{
    crate::algebra::lemma_comm(a.x, b.y);
    crate::algebra::lemma_comm(a.x, b.z);
    crate::algebra::lemma_comm(a.y, b.x);
    crate::algebra::lemma_comm(a.y, b.z);
    crate::algebra::lemma_comm(a.z, b.x);
    crate::algebra::lemma_comm(a.z, b.y);
}

/// The inverse of a 3x3 matrix with a determinant other than zero gives the identity from
/// the left.
proof fn lemma_left_inverse<S: Real>(m: Mat3<S>)
    requires
        crate::scalar::exact::<S>(),
        m.spec_det().val() != 0real,
    ensures
        forall|i: int, j: int|
            0 <= i < 3 && 0 <= j < 3 ==> (#[trigger] m.spec_inverse().mul_at(m, i, j)).val()
                == unit(i, j),
{
    let n = m.spec_inverse();
    let r = (S::spec_one() / m.spec_det()).val();
    lemma_reciprocal(m.spec_det().val(), r);
    lemma_inverse_rows(m, r);
    lemma_zero_times(0real, r);
    let (a, b, c) = (m.col(0), m.col(1), m.col(2));
    crate::algebra::lemma_triple(a, b, c);
    crate::algebra::lemma_triple(b, c, a);
    crate::algebra::lemma_triple(c, a, b);
    assert forall|i: int, j: int| 0 <= i < 3 && 0 <= j < 3 implies (#[trigger] n.mul_at(
        m,
        i,
        j,
    )).val() == unit(i, j) by {
        let u = m.col(j);
        assert(n.mul_at(m, i, j).val() == crate::algebra::dot(n.row(i), u));
        crate::algebra::lemma_dot_comm(n.row(i), u);
        assert(i == 0 || i == 1 || i == 2);
        assert(j == 0 || j == 1 || j == 2);
        let w = if i == 0 {
            crate::algebra::cross(b, c)
        } else if i == 1 {
            crate::algebra::cross(c, a)
        } else {
            crate::algebra::cross(a, b)
        };
        assert(n.row(i) == crate::algebra::times3(w, r));
        crate::algebra::lemma_scale3(u.x, w.x, u.y, w.y, u.z, w.z, r);
    }
}

proof fn lemma_twice_scaled(x: real, d: real, r: real)
    requires
        d * r == 1real,
    ensures
        (x * d) * (r * r) == x * r,
        (x * r) * d == x,
{
    assert((x * d) * (r * r) == (x * r) * (d * r)) by (nonlinear_arith);
    assert((x * r) * d == x * (d * r)) by (nonlinear_arith);
    assert((x * r) * (d * r) == x * r) by (nonlinear_arith)
        requires
            d * r == 1real,
    ;
    assert(x * (d * r) == x) by (nonlinear_arith)
        requires
            d * r == 1real,
    ;
}

/// The cross product of two neighbouring columns of the inverse is a row over the
/// determinant `d`.
proof fn lemma_cross_of_crosses(
    a: crate::algebra::Row3,
    b: crate::algebra::Row3,
    c: crate::algebra::Row3,
    d: real,
    r: real,
)
    requires
        d == crate::algebra::dot(a, crate::algebra::cross(b, c)),
        d * r == 1real,
    ensures
        crate::algebra::cross(
            crate::algebra::times3(crate::algebra::cross(c, a), r),
            crate::algebra::times3(crate::algebra::cross(a, b), r),
        ) == crate::algebra::times3(a, r),
{
    let ca = crate::algebra::cross(c, a);
    let ab = crate::algebra::cross(a, b);
    crate::algebra::lemma_scaled_products(ca, ab, r);
    crate::algebra::lemma_double_cross(ca, a, b);
    crate::algebra::lemma_triple(a, b, c);
    crate::algebra::lemma_triple(c, a, b);
    crate::algebra::lemma_dot_comm(ca, b);
    crate::algebra::lemma_dot_comm(ca, a);
    assert(b.x * 0real == 0real && b.y * 0real == 0real && b.z * 0real == 0real)
        by (nonlinear_arith);
    assert(crate::algebra::cross(ca, ab) == crate::algebra::times3(a, d));
    lemma_twice_scaled(a.x, d, r);
    lemma_twice_scaled(a.y, d, r);
    lemma_twice_scaled(a.z, d, r);
}

/// The determinant of the inverse is the reciprocal, and inverting twice gives every entry
/// back.
proof fn lemma_inverse_twice<S: Real>(m: Mat3<S>)
    requires
        crate::scalar::exact::<S>(),
        m.spec_det().val() != 0real,
    ensures
        m.spec_inverse().spec_det().val() * m.spec_det().val() == 1real,
        forall|i: int, j: int|
            0 <= i < 3 && 0 <= j < 3 ==> (#[trigger] m.spec_inverse().spec_inverse().at(i, j)).val()
                == m.at(i, j).val(),
{
    let n = m.spec_inverse();
    let d = m.spec_det().val();
    let r = (S::spec_one() / m.spec_det()).val();
    lemma_reciprocal(d, r);
    lemma_inverse_columns(m, r);
    let (a, b, c) = (m.row(0), m.row(1), m.row(2));
    let (bc, ca, ab) = (
        crate::algebra::cross(b, c),
        crate::algebra::cross(c, a),
        crate::algebra::cross(a, b),
    );
    lemma_commuting_row(a, b);
    lemma_commuting_row(b, c);
    lemma_commuting_row(a, c);
    assert(n.col(0) == crate::algebra::times3(bc, r));
    assert(n.col(1) == crate::algebra::times3(ca, r));
    assert(n.col(2) == crate::algebra::times3(ab, r));
    crate::algebra::lemma_triple(a, b, c);
    lemma_cross_of_crosses(a, b, c, d, r);
    lemma_cross_of_crosses(b, c, a, d, r);
    lemma_cross_of_crosses(c, a, b, d, r);
    let t = (S::spec_one() / n.spec_det()).val();
    lemma_inverse_rows(n, t);
    crate::algebra::lemma_scaled_products(bc, a, r);
    crate::algebra::lemma_dot_comm(bc, a);
    lemma_twice_scaled(1real, d, r);
    assert(1real * d == d && 1real * r == r) by (nonlinear_arith);
    assert(n.spec_det().val() == r);
    crate::algebra::lemma_comm(d, r);
    assert(r != 0real) by (nonlinear_arith)
        requires
            d * r == 1real,
    ;
    lemma_reciprocal(r, t);
    assert(t == d) by (nonlinear_arith)
        requires
            r * t == 1real,
            d * r == 1real,
    ;
    assert forall|i: int, j: int| 0 <= i < 3 && 0 <= j < 3 implies (#[trigger] n.spec_inverse().at(
        i,
        j,
    )).val() == m.at(i, j).val() by {
        assert(i == 0 || i == 1 || i == 2);
        assert(j == 0 || j == 1 || j == 2);
        let u = m.row(i);
        assert(n.spec_inverse().row(i) == crate::algebra::times3(
            crate::algebra::times3(u, r),
            d,
        ));
        lemma_twice_scaled(u.x, d, r);
        lemma_twice_scaled(u.y, d, r);
        lemma_twice_scaled(u.z, d, r);
        assert(n.spec_inverse().row(i) == u);
        let (v, w) = (n.spec_inverse(), m);
        assert(v.row(i).x == v.at(i, 0).val() && v.row(i).y == v.at(i, 1).val() && v.row(i).z
            == v.at(i, 2).val());
        assert(w.row(i).x == w.at(i, 0).val() && w.row(i).y == w.at(i, 1).val() && w.row(i).z
            == w.at(i, 2).val());
    }
}

/// A 3x3 matrix with a determinant other than zero and its inverse give the identity in
/// either order, and inverting twice gives the matrix back.
pub proof fn law_mat3_inverse<S: Real>(m: Mat3<S>)
    requires
        crate::scalar::exact::<S>(),
        m.spec_det().val() != 0real,
    ensures
        forall|i: int, j: int|
            0 <= i < 3 && 0 <= j < 3 ==> (#[trigger] m.mul_at(m.spec_inverse(), i, j)).val()
                == unit(i, j),
        forall|i: int, j: int|
            0 <= i < 3 && 0 <= j < 3 ==> (#[trigger] m.spec_inverse().mul_at(m, i, j)).val()
                == unit(i, j),
        m.spec_inverse().spec_det().val() * m.spec_det().val() == 1real,
        forall|i: int, j: int|
            0 <= i < 3 && 0 <= j < 3 ==> (#[trigger] m.spec_inverse().spec_inverse().at(i, j)).val()
                == m.at(i, j).val(),
{
    lemma_left_inverse(m);
    lemma_inverse_twice(m);
    let n = m.spec_inverse();
    let r = (S::spec_one() / m.spec_det()).val();
    lemma_reciprocal(m.spec_det().val(), r);
    lemma_inverse_columns(m, r);
    lemma_zero_times(0real, r);
    let (a, b, c) = (m.row(0), m.row(1), m.row(2));
    crate::algebra::lemma_triple(a, b, c);
    crate::algebra::lemma_triple(b, c, a);
    crate::algebra::lemma_triple(c, a, b);
    assert forall|i: int, j: int| 0 <= i < 3 && 0 <= j < 3 implies (#[trigger] m.mul_at(
        n,
        i,
        j,
    )).val() == unit(i, j) by {
        assert(m.mul_at(n, i, j).val() == crate::algebra::dot(m.row(i), n.col(j)));
        assert(i == 0 || i == 1 || i == 2);
        assert(j == 0 || j == 1 || j == 2);
    }
}

impl<S: Real> Mat4<S> {
    /// The numbers in row `i`.
    pub open spec fn row(self, i: int) -> crate::algebra::Row4 {
        crate::algebra::Row4 {
            a: self.at(i, 0).val(),
            b: self.at(i, 1).val(),
            c: self.at(i, 2).val(),
            d: self.at(i, 3).val(),
        }
    }

    /// Column `j`.
    pub open spec fn col(self, j: int) -> Seq<S> {
        seq![self.at(0, j), self.at(1, j), self.at(2, j), self.at(3, j)]
    }

    /// The numbers in column `j`.
    pub open spec fn col_row(self, j: int) -> crate::algebra::Row4 {
        crate::algebra::Row4 {
            a: self.at(0, j).val(),
            b: self.at(1, j).val(),
            c: self.at(2, j).val(),
            d: self.at(3, j).val(),
        }
    }
}

/// The columns of an inverse are columns of cofactors over the determinant.
proof fn lemma_inverse_columns4<S: Real>(m: Mat4<S>, r: real)
    requires
        crate::scalar::exact::<S>(),
        r == (S::spec_one() / m.spec_det()).val(),
    ensures
        m.spec_det().val() == crate::algebra::det4(m.row(0), m.row(1), m.row(2), m.row(3)),
        ({
            let s = crate::algebra::minors(m.row(0), m.row(1));
            let c = crate::algebra::minors(m.row(2), m.row(3));
            &&& m.spec_inverse().col_row(0) == scaled(
                crate::algebra::cofactors(m.row(1), c),
                r,
            )
            &&& m.spec_inverse().col_row(1) == scaled(
                crate::algebra::anti_cofactors(m.row(0), c),
                r,
            )
            &&& m.spec_inverse().col_row(2) == scaled(
                crate::algebra::cofactors(m.row(3), s),
                r,
            )
            &&& m.spec_inverse().col_row(3) == scaled(
                crate::algebra::anti_cofactors(m.row(2), s),
                r,
            )
        }),
{
}

/// A row of numbers times a number.
pub open spec fn scaled(v: crate::algebra::Row4, r: real) -> crate::algebra::Row4 {
    crate::algebra::Row4 { a: v.a * r, b: v.b * r, c: v.c * r, d: v.d * r }
}

/// A 4x4 matrix with a determinant other than zero takes the columns of its inverse to the
/// unit vectors.
pub proof fn law_mat4_inverse<S: Real>(m: Mat4<S>)
    requires
        crate::scalar::exact::<S>(),
        m.spec_det().val() != 0real,
    ensures
        forall|i: int, j: int|
            0 <= i < 4 && 0 <= j < 4 ==> (#[trigger] m.matvec_at(
                m.spec_inverse().col(j),
                i,
            )).val() == unit(i, j),
{
    let n = m.spec_inverse();
    let r = (S::spec_one() / m.spec_det()).val();
    lemma_reciprocal(m.spec_det().val(), r);
    lemma_inverse_columns4(m, r);
    lemma_zero_times(0real, r);
    let (a, b, c, d) = (m.row(0), m.row(1), m.row(2), m.row(3));
    let (s, l) = (crate::algebra::minors(a, b), crate::algebra::minors(c, d));
    assert forall|i: int, j: int| 0 <= i < 4 && 0 <= j < 4 implies (#[trigger] m.matvec_at(
        n.col(j),
        i,
    )).val() == unit(i, j) by {
        let u = m.row(i);
        assert(m.matvec_at(n.col(j), i).val() == crate::algebra::dot4(u, n.col_row(j)));
        assert(i == 0 || i == 1 || i == 2 || i == 3);
        crate::algebra::lemma_det4(a, b, c, d);
        if j == 0 {
            crate::algebra::lemma_scale4(u, crate::algebra::cofactors(b, l), r);
            crate::algebra::lemma_cofactors(u, b, l);
            crate::algebra::lemma_det4(c, b, c, d);
            crate::algebra::lemma_det4(d, b, c, d);
            crate::algebra::lemma_det4(b, b, c, d);
        } else if j == 1 {
            crate::algebra::lemma_scale4(u, crate::algebra::anti_cofactors(a, l), r);
            crate::algebra::lemma_cofactors(u, a, l);
            crate::algebra::lemma_det4(a, a, c, d);
            crate::algebra::lemma_det4(c, a, c, d);
            crate::algebra::lemma_det4(d, a, c, d);
        } else if j == 2 {
            crate::algebra::lemma_scale4(u, crate::algebra::cofactors(d, s), r);
            crate::algebra::lemma_cofactors(u, d, s);
            crate::algebra::lemma_det4(a, d, a, b);
            crate::algebra::lemma_det4(b, d, a, b);
            crate::algebra::lemma_det4(d, d, a, b);
        } else {
            crate::algebra::lemma_scale4(u, crate::algebra::anti_cofactors(c, s), r);
            crate::algebra::lemma_cofactors(u, c, s);
            crate::algebra::lemma_det4(a, c, a, b);
            crate::algebra::lemma_det4(b, c, a, b);
            crate::algebra::lemma_det4(c, c, a, b);
            crate::algebra::lemma_det4(d, c, a, b);
        }
    }
}

/// The inverse of a 4x4 matrix with a determinant other than zero takes the columns of the
/// matrix to the unit vectors.
pub proof fn law_mat4_left_inverse<S: Real>(m: Mat4<S>)
    requires
        crate::scalar::exact::<S>(),
        m.spec_det().val() != 0real,
    ensures
        forall|i: int, j: int|
            0 <= i < 4 && 0 <= j < 4 ==> (#[trigger] m.spec_inverse().matvec_at(
                m.col(j),
                i,
            )).val() == unit(i, j),
{
    let n = m.spec_inverse();
    let r = (S::spec_one() / m.spec_det()).val();
    lemma_reciprocal(m.spec_det().val(), r);
    lemma_inverse_columns4(m, r);
    lemma_zero_times(0real, r);
    let (a, b, c, d) = (m.row(0), m.row(1), m.row(2), m.row(3));
    let (s, l) = (crate::algebra::minors(a, b), crate::algebra::minors(c, d));
    let (c0, c1) = (crate::algebra::cofactors(b, l), crate::algebra::anti_cofactors(a, l));
    let (c2, c3) = (crate::algebra::cofactors(d, s), crate::algebra::anti_cofactors(c, s));
    assert forall|i: int, j: int| 0 <= i < 4 && 0 <= j < 4 implies (#[trigger] n.matvec_at(
        m.col(j),
        i,
    )).val() == unit(i, j) by {
        crate::algebra::lemma_columns_of_cofactors(a, b, c, d, i);
        let v = m.col_row(j);
        assert(n.matvec_at(m.col(j), i).val() == n.row(i).a * v.a + n.row(i).b * v.b + n.row(i).c
            * v.c + n.row(i).d * v.d);
        assert(i == 0 || i == 1 || i == 2 || i == 3);
        assert(j == 0 || j == 1 || j == 2 || j == 3);
        let w = if i == 0 {
            crate::algebra::Row4 { a: c0.a, b: c1.a, c: c2.a, d: c3.a }
        } else if i == 1 {
            crate::algebra::Row4 { a: c0.b, b: c1.b, c: c2.b, d: c3.b }
        } else if i == 2 {
            crate::algebra::Row4 { a: c0.c, b: c1.c, c: c2.c, d: c3.c }
        } else {
            crate::algebra::Row4 { a: c0.d, b: c1.d, c: c2.d, d: c3.d }
        };
        assert(n.col_row(0) == scaled(c0, r) && n.col_row(1) == scaled(c1, r));
        assert(n.col_row(2) == scaled(c2, r) && n.col_row(3) == scaled(c3, r));
        assert(n.row(i) == scaled(w, r));
        crate::algebra::lemma_scale4(v, w, r);
        crate::algebra::lemma_comm(v.a, w.a * r);
        crate::algebra::lemma_comm(v.b, w.b * r);
        crate::algebra::lemma_comm(v.c, w.c * r);
        crate::algebra::lemma_comm(v.d, w.d * r);
        assert(crate::algebra::dot4(v, w) == crate::algebra::against_column(
            i,
            a,
            b,
            c,
            d,
            v.a,
            v.b,
            v.c,
            v.d,
        ));
    }
}

/// What two matrices with the identity as their product do to a vector, one after the other.
proof fn lemma_undone<S: Real>(m: Mat4<S>, n: Mat4<S>, v: Seq<S>)
    requires
        crate::scalar::exact::<S>(),
        forall|i: int, j: int|
            0 <= i < 4 && 0 <= j < 4 ==> (#[trigger] m.matvec_at(n.col(j), i)).val() == unit(i, j),
    ensures
        forall|i: int|
            0 <= i < 4 ==> (#[trigger] m.spec_matvec(n.spec_matvec(v))[i]).val() == v[i].val(),
{
    let x = crate::algebra::Row4 {
        a: v[0].val(),
        b: v[1].val(),
        c: v[2].val(),
        d: v[3].val(),
    };
    assert forall|i: int| 0 <= i < 4 implies (#[trigger] m.spec_matvec(n.spec_matvec(v))[i]).val()
        == v[i].val() by {
        let u = m.row(i);
        let w = n.spec_matvec(v);
        assert(m.spec_matvec(w)[i] == m.matvec_at(w, i));
        assert(w[0].val() == crate::algebra::dot4(n.row(0), x));
        assert(w[1].val() == crate::algebra::dot4(n.row(1), x));
        assert(w[2].val() == crate::algebra::dot4(n.row(2), x));
        assert(w[3].val() == crate::algebra::dot4(n.row(3), x));
        crate::algebra::lemma_dot4_twice(u, n.row(0), n.row(1), n.row(2), n.row(3), x);
        assert(m.matvec_at(n.col(0), i).val() == crate::algebra::dot4(u, n.col_row(0)));
        assert(m.matvec_at(n.col(1), i).val() == crate::algebra::dot4(u, n.col_row(1)));
        assert(m.matvec_at(n.col(2), i).val() == crate::algebra::dot4(u, n.col_row(2)));
        assert(m.matvec_at(n.col(3), i).val() == crate::algebra::dot4(u, n.col_row(3)));
        lemma_unit_times(x.a);
        lemma_unit_times(x.b);
        lemma_unit_times(x.c);
        lemma_unit_times(x.d);
        assert(i == 0 || i == 1 || i == 2 || i == 3);
    }
}

/// A 4x4 matrix with a determinant other than zero and its inverse undo each other on every
/// vector, whichever comes first.
pub proof fn law_mat4_inverse_undoes<S: Real>(m: Mat4<S>, v: Seq<S>)
    requires
        crate::scalar::exact::<S>(),
        m.spec_det().val() != 0real,
    ensures
        forall|i: int|
            0 <= i < 4 ==> (#[trigger] m.spec_matvec(m.spec_inverse().spec_matvec(v))[i]).val()
                == v[i].val(),
        forall|i: int|
            0 <= i < 4 ==> (#[trigger] m.spec_inverse().spec_matvec(m.spec_matvec(v))[i]).val()
                == v[i].val(),
{
    law_mat4_inverse(m);
    law_mat4_left_inverse(m);
    lemma_undone(m, m.spec_inverse(), v);
    lemma_undone(m.spec_inverse(), m, v);
}

/// A quaternion other than zero has unit norm once normalized.
pub proof fn law_normalized_has_unit_norm<S: Real>(q: Quat<S>)
    requires
        crate::scalar::exact::<S>(),
        q.spec_norm().val() != 0real,
    ensures
        ({
            let u = q.spec_normalized();
            let (x, y, z, w) = (u.i.val(), u.j.val(), u.k.val(), u.w.val());
            x * x + y * y + z * z + w * w == 1real
        }),
{
    let (x, y, z, w) = (q.i.val(), q.j.val(), q.k.val(), q.w.val());
    let s = q.i * q.i + q.j * q.j + q.k * q.k + q.w * q.w;
    let n = q.spec_norm().val();
    lemma_square_sign(x);
    lemma_square_sign(y);
    lemma_square_sign(z);
    lemma_square_sign(w);
    assert(s.val() == x * x + y * y + z * z + w * w);
    assert(n * n == s.val());
    let r = (S::spec_one() / q.spec_norm()).val();
    lemma_reciprocal(n, r);
    lemma_scaled_square(x, r);
    lemma_scaled_square(y, r);
    lemma_scaled_square(z, r);
    lemma_scaled_square(w, r);
    lemma_scaled_square(n, r);
    crate::algebra::lemma_dist(r * r, x * x, y * y);
    crate::algebra::lemma_dist(r * r, x * x + y * y, z * z);
    crate::algebra::lemma_dist(r * r, x * x + y * y + z * z, w * w);
}

/// A square is not negative.
pub proof fn lemma_square_sign(x: real)
    ensures
        x * x >= 0real,
{
    assert(x * x >= 0real) by (nonlinear_arith);
}

/// The square of a product.
pub proof fn lemma_scaled_square(x: real, r: real)
    ensures
        (x * r) * (x * r) == (x * x) * (r * r),
{
    assert((x * r) * (x * r) == (x * x) * (r * r)) by (nonlinear_arith);
}

/// The rotation matrix of any quaternion other than zero is orthonormal.
pub proof fn law_rotmat_is_orthonormal<S: Real>(q: Quat<S>)
    requires
        crate::scalar::exact::<S>(),
        q.spec_norm().val() != 0real,
    ensures
        q.spec_to_rotmat().orthonormal(),
{
    law_normalized_has_unit_norm(q);
    crate::scalar::lemma_splat_int::<S>(2);
    let u = q.spec_normalized();
    let (x, y, z, w) = (u.i.val(), u.j.val(), u.k.val(), u.w.val());
    let m = q.spec_to_rotmat();
    crate::algebra::lemma_turned_axis_is_unit(x, y, z, w);
    crate::algebra::lemma_turned_axis_is_unit(y, z, x, w);
    crate::algebra::lemma_turned_axis_is_unit(z, x, y, w);
    crate::algebra::lemma_turned_axes_are_orthogonal(x, y, z, w);
    crate::algebra::lemma_turned_axes_are_orthogonal(y, z, x, w);
    crate::algebra::lemma_turned_axes_are_orthogonal(z, x, y, w);
    crate::algebra::lemma_comm(x, y);
    crate::algebra::lemma_comm(y, z);
    crate::algebra::lemma_comm(z, x);
    let (c0, c1, c2) = (
        crate::algebra::turned_axis(x, y, z, w),
        crate::algebra::turned_axis(y, z, x, w),
        crate::algebra::turned_axis(z, x, y, w),
    );
    assert(m.at(0, 0).val() == c0.x && m.at(1, 0).val() == c0.y && m.at(2, 0).val() == c0.z);
    assert(m.at(1, 1).val() == c1.x && m.at(2, 1).val() == c1.y && m.at(0, 1).val() == c1.z);
    assert(m.at(2, 2).val() == c2.x && m.at(0, 2).val() == c2.y && m.at(1, 2).val() == c2.z);
    let (a, b, c) = (m.col(0), m.col(1), m.col(2));
    assert(crate::algebra::dot(a, b) == 0real);
    assert(crate::algebra::dot(b, c) == 0real);
    assert(crate::algebra::dot(c, a) == 0real);
    crate::algebra::lemma_dot_comm(a, b);
    crate::algebra::lemma_dot_comm(b, c);
    crate::algebra::lemma_dot_comm(c, a);
    assert forall|i: int, j: int| 0 <= i < 3 && 0 <= j < 3 implies #[trigger] crate::algebra::dot(
        m.col(i),
        m.col(j),
    ) == unit(i, j) by {
        assert(i == 0 || i == 1 || i == 2);
        assert(j == 0 || j == 1 || j == 2);
    }
}

/// The rotation matrix of any quaternion other than zero keeps orientation: its
/// determinant is one.
pub proof fn law_rotmat_is_proper<S: Real>(q: Quat<S>)
    requires
        crate::scalar::exact::<S>(),
        q.spec_norm().val() != 0real,
    ensures
        q.spec_to_rotmat().spec_det().val() == 1real,
{
    law_normalized_has_unit_norm(q);
    law_rotmat_is_orthonormal(q);
    crate::scalar::lemma_splat_int::<S>(2);
    let u = q.spec_normalized();
    let (x, y, z, w) = (u.i.val(), u.j.val(), u.k.val(), u.w.val());
    let m = q.spec_to_rotmat();
    crate::algebra::lemma_turned_axes_are_right_handed(x, y, z, w);
    crate::algebra::lemma_comm(x, y);
    crate::algebra::lemma_comm(y, z);
    crate::algebra::lemma_comm(z, x);
    let (c0, c1, c2) = (
        crate::algebra::turned_axis(x, y, z, w),
        crate::algebra::turned_axis(y, z, x, w),
        crate::algebra::turned_axis(z, x, y, w),
    );
    assert(m.at(0, 0).val() == c0.x && m.at(1, 0).val() == c0.y && m.at(2, 0).val() == c0.z);
    assert(m.at(1, 1).val() == c1.x && m.at(2, 1).val() == c1.y && m.at(0, 1).val() == c1.z);
    assert(m.at(2, 2).val() == c2.x && m.at(0, 2).val() == c2.y && m.at(1, 2).val() == c2.z);
    let (a, b, c) = (m.col(0), m.col(1), m.col(2));
    assert(crate::algebra::cross(b, c) == a);
    assert(crate::algebra::dot(m.col(0), m.col(0)) == unit(0, 0));
    lemma_inverse_rows(m, (S::spec_one() / m.spec_det()).val());
}

/// A quaternion with every part times `k`.
pub open spec fn stretched<S: Real>(q: Quat<S>, k: S) -> Quat<S> {
    Quat { i: k * q.i, j: k * q.j, k: k * q.k, w: k * q.w }
}

proof fn lemma_stretched_pair(k: real, x: real, y: real, r: real, t: real)
    requires
        (k * k) * (t * t) == r * r,
    ensures
        ((k * x) * t) * ((k * y) * t) == (x * r) * (y * r),
{
    assert(((k * x) * t) * ((k * y) * t) == (x * y) * ((k * k) * (t * t))) by (nonlinear_arith);
    assert((x * r) * (y * r) == (x * y) * (r * r)) by (nonlinear_arith);
}

/// The rotation depends on the direction of the quaternion alone: stretching it, turning
/// its sign included, changes no entry.
pub proof fn law_rotmat_ignores_scale<S: Real>(q: Quat<S>, k: S)
    requires
        crate::scalar::exact::<S>(),
        q.spec_norm().val() != 0real,
        k.val() != 0real,
    ensures
        stretched(q, k).spec_norm().val() != 0real,
        forall|i: int, j: int|
            0 <= i < 3 && 0 <= j < 3 ==> (#[trigger] stretched(q, k).spec_to_rotmat().at(
                i,
                j,
            )).val() == q.spec_to_rotmat().at(i, j).val(),
{
    let p = stretched(q, k);
    let (x, y, z, w, h) = (q.i.val(), q.j.val(), q.k.val(), q.w.val(), k.val());
    let s = x * x + y * y + z * z + w * w;
    let (n, o) = (q.spec_norm().val(), p.spec_norm().val());
    lemma_square_sign(x);
    lemma_square_sign(y);
    lemma_square_sign(z);
    lemma_square_sign(w);
    lemma_square_sign(h * x);
    lemma_square_sign(h * y);
    lemma_square_sign(h * z);
    lemma_square_sign(h * w);
    let a = q.i * q.i + q.j * q.j + q.k * q.k + q.w * q.w;
    let b = p.i * p.i + p.j * p.j + p.k * p.k + p.w * p.w;
    assert(a.val() == s);
    assert(n * n == s);
    assert(b.val() == (h * x) * (h * x) + (h * y) * (h * y) + (h * z) * (h * z) + (h * w) * (h
        * w));
    assert(o * o == b.val());
    let hh = h * h;
    assert((h * x) * (h * x) == hh * (x * x)) by (nonlinear_arith)
        requires
            hh == h * h,
    ;
    assert((h * y) * (h * y) == hh * (y * y)) by (nonlinear_arith)
        requires
            hh == h * h,
    ;
    assert((h * z) * (h * z) == hh * (z * z)) by (nonlinear_arith)
        requires
            hh == h * h,
    ;
    assert((h * w) * (h * w) == hh * (w * w)) by (nonlinear_arith)
        requires
            hh == h * h,
    ;
    crate::algebra::lemma_dist(hh, x * x, y * y);
    crate::algebra::lemma_dist(hh, x * x + y * y, z * z);
    crate::algebra::lemma_dist(hh, x * x + y * y + z * z, w * w);
    assert(o * o == hh * s);
    assert(n * n != 0real) by (nonlinear_arith)
        requires
            n != 0real,
    ;
    assert(hh != 0real) by (nonlinear_arith)
        requires
            hh == h * h,
            h != 0real,
    ;
    assert(hh * s != 0real) by (nonlinear_arith)
        requires
            hh != 0real,
            s != 0real,
    ;
    assert(o != 0real) by (nonlinear_arith)
        requires
            o * o != 0real,
    ;
    let r = (S::spec_one() / q.spec_norm()).val();
    let t = (S::spec_one() / p.spec_norm()).val();
    lemma_reciprocal(n, r);
    lemma_reciprocal(o, t);
    lemma_scaled_square(n, r);
    lemma_scaled_square(o, t);
    assert(s * (r * r) == 1real);
    assert((hh * s) * (t * t) == 1real);
    assert(hh * (t * t) == r * r) by (nonlinear_arith)
        requires
            s * (r * r) == 1real,
            (hh * s) * (t * t) == 1real,
            s != 0real,
    ;
    lemma_stretched_pair(h, x, x, r, t);
    lemma_stretched_pair(h, y, y, r, t);
    lemma_stretched_pair(h, z, z, r, t);
    lemma_stretched_pair(h, x, y, r, t);
    lemma_stretched_pair(h, x, z, r, t);
    lemma_stretched_pair(h, y, z, r, t);
    lemma_stretched_pair(h, x, w, r, t);
    lemma_stretched_pair(h, y, w, r, t);
    lemma_stretched_pair(h, z, w, r, t);
    assert forall|i: int, j: int| 0 <= i < 3 && 0 <= j < 3 implies (#[trigger]
        p.spec_to_rotmat().at(i, j)).val() == q.spec_to_rotmat().at(i, j).val() by {
        assert(i == 0 || i == 1 || i == 2);
        assert(j == 0 || j == 1 || j == 2);
    }
}

} // verus!
