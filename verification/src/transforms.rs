//! Laws of vectors, matrices and quaternions that relate several of their operations.
use vstd::prelude::*;

use crate::linalg::{Mat3, Quat, Vec3};
use crate::scalar::Real;

verus! {

/// The entries of two matrices stand for the same numbers.
pub open spec fn same_entries<S: Real>(a: Mat3<S>, b: Mat3<S>) -> bool {
    forall|i: int, j: int|
        0 <= i < 3 && 0 <= j < 3 ==> (#[trigger] a.at(i, j)).val() == b.at(i, j).val()
}

/// A matrix applied to a vector is the combination of its columns.
pub proof fn lemma_matvec_columns<S: Real>(m: Mat3<S>, v: Vec3<S>)
    requires
        crate::scalar::exact::<S>(),
    ensures
        m.spec_matvec(v).row() == crate::algebra::in_frame(m.col(0), m.col(1), m.col(2), v.row()),
        m.spec_matvec(v).row() == (crate::algebra::Row3 {
            x: crate::algebra::dot(m.row(0), v.row()),
            y: crate::algebra::dot(m.row(1), v.row()),
            z: crate::algebra::dot(m.row(2), v.row()),
        }),
{
}

/// The transpose is the adjoint: `(M v) . u` is `v . (M^T u)`.
pub proof fn law_transpose_is_adjoint<S: Real>(m: Mat3<S>, u: Vec3<S>, v: Vec3<S>)
    requires
        crate::scalar::exact::<S>(),
    ensures
        m.spec_matvec(v).spec_dot(u).val() == v.spec_dot(m.spec_tmatvec(u)).val(),
{
    lemma_matvec_columns(m, v);
    lemma_matvec_columns(m.spec_transpose(), u);
    crate::algebra::lemma_dot_in_frame(m.col(0), m.col(1), m.col(2), v.row(), u.row());
    assert(m.spec_transpose().row(0) == m.col(0));
    assert(m.spec_transpose().row(1) == m.col(1));
    assert(m.spec_transpose().row(2) == m.col(2));
}

/// A product applied to a vector is its factors applied one after the other.
pub proof fn law_product_composes<S: Real>(a: Mat3<S>, b: Mat3<S>, v: Vec3<S>)
    requires
        crate::scalar::exact::<S>(),
    ensures
        a.spec_mul(b).spec_matvec(v).same(a.spec_matvec(b.spec_matvec(v))),
{
    let w = b.spec_matvec(v);
    lemma_matvec_columns(b, v);
    lemma_matvec_columns(a, w);
    lemma_matvec_columns(a.spec_mul(b), v);
    lemma_product_row(a, b, v, 0);
    lemma_product_row(a, b, v, 1);
    lemma_product_row(a, b, v, 2);
}

proof fn lemma_product_row<S: Real>(a: Mat3<S>, b: Mat3<S>, v: Vec3<S>, i: int)
    requires
        crate::scalar::exact::<S>(),
        0 <= i < 3,
    ensures
        crate::algebra::dot(a.row(i), b.spec_matvec(v).row()) == crate::algebra::dot(
            a.spec_mul(b).row(i),
            v.row(),
        ),
{
    let (r, x, w) = (a.row(i), v.row(), b.spec_matvec(v).row());
    lemma_matvec_columns(b, v);
    crate::algebra::lemma_dot_in_frame(b.col(0), b.col(1), b.col(2), x, r);
    crate::algebra::lemma_dot_comm(w, r);
    crate::algebra::lemma_dot_comm(b.col(0), r);
    crate::algebra::lemma_dot_comm(b.col(1), r);
    crate::algebra::lemma_dot_comm(b.col(2), r);
    let p = a.spec_mul(b);
    assert(i == 0 || i == 1 || i == 2);
    assert(p.at(i, 0) == a.mul_at(b, i, 0));
    assert(p.at(i, 1) == a.mul_at(b, i, 1));
    assert(p.at(i, 2) == a.mul_at(b, i, 2));
    let q = p.row(i);
    assert(q.x == crate::algebra::dot(r, b.col(0)));
    assert(q.y == crate::algebra::dot(r, b.col(1)));
    assert(q.z == crate::algebra::dot(r, b.col(2)));
    crate::algebra::lemma_comm(x.x, q.x);
    crate::algebra::lemma_comm(x.y, q.y);
    crate::algebra::lemma_comm(x.z, q.z);
}

/// The transpose of a product is the product of the transposes in the other order; and
/// transposing twice changes nothing.
pub proof fn law_transpose_of_product<S: Real>(a: Mat3<S>, b: Mat3<S>)
    requires
        crate::scalar::exact::<S>(),
    ensures
        same_entries(
            a.spec_mul(b).spec_transpose(),
            b.spec_transpose().spec_mul(a.spec_transpose()),
        ),
        same_entries(a.spec_transpose().spec_transpose(), a),
{
    let (p, q) = (
        a.spec_mul(b).spec_transpose(),
        b.spec_transpose().spec_mul(a.spec_transpose()),
    );
    assert forall|i: int, j: int| 0 <= i < 3 && 0 <= j < 3 implies (#[trigger] p.at(i, j)).val()
        == q.at(i, j).val() by {
        assert(i == 0 || i == 1 || i == 2);
        assert(j == 0 || j == 1 || j == 2);
        assert(p.at(i, j) == a.mul_at(b, j, i));
        assert(q.at(i, j) == b.spec_transpose().mul_at(a.spec_transpose(), i, j));
        crate::algebra::lemma_comm(a.at(j, 0).val(), b.at(0, i).val());
        crate::algebra::lemma_comm(a.at(j, 1).val(), b.at(1, i).val());
        crate::algebra::lemma_comm(a.at(j, 2).val(), b.at(2, i).val());
    }
    let t = a.spec_transpose().spec_transpose();
    assert forall|i: int, j: int| 0 <= i < 3 && 0 <= j < 3 implies (#[trigger] t.at(i, j)).val()
        == a.at(i, j).val() by {
        assert(i == 0 || i == 1 || i == 2);
        assert(j == 0 || j == 1 || j == 2);
    }
}

/// A matrix acts linearly on vectors.
pub proof fn law_matvec_is_linear<S: Real>(m: Mat3<S>, u: Vec3<S>, v: Vec3<S>, s: S)
    requires
        crate::scalar::exact::<S>(),
    ensures
        m.spec_matvec(u + v).same(m.spec_matvec(u) + m.spec_matvec(v)),
        m.spec_matvec(u.spec_scale(s)).same(m.spec_matvec(u).spec_scale(s)),
{
    lemma_matvec_columns(m, u);
    lemma_matvec_columns(m, v);
    lemma_matvec_columns(m, u + v);
    lemma_matvec_columns(m, u.spec_scale(s));
    crate::algebra::lemma_dot_linear(m.row(0), u.row(), v.row(), s.val());
    crate::algebra::lemma_dot_linear(m.row(1), u.row(), v.row(), s.val());
    crate::algebra::lemma_dot_linear(m.row(2), u.row(), v.row(), s.val());
    assert(u.spec_scale(s).row() == crate::algebra::times3(u.row(), s.val()));
}

/// The cross product changes its sign with the order, vanishes for equal factors, and is
/// orthogonal to both; its square is that of the lengths less that of the inner product;
/// and a cross product with it is `v (u . w) - w (u . v)`.
pub proof fn law_cross_product<S: Real>(u: Vec3<S>, v: Vec3<S>, w: Vec3<S>)
    requires
        crate::scalar::exact::<S>(),
    ensures
        u.spec_cross(v).same(-v.spec_cross(u)),
        u.spec_cross(u).same(Vec3::spec_zero()),
        u.spec_dot(u.spec_cross(v)).val() == 0real,
        v.spec_dot(u.spec_cross(v)).val() == 0real,
        u.spec_cross(v).spec_dot(u.spec_cross(v)).val() == u.spec_dot(u).val() * v.spec_dot(
            v,
        ).val() - u.spec_dot(v).val() * u.spec_dot(v).val(),
        u.spec_cross(v.spec_cross(w)).same(
            v.spec_scale(u.spec_dot(w)) - w.spec_scale(u.spec_dot(v)),
        ),
{
    let (a, b, c) = (u.row(), v.row(), w.row());
    crate::linalg::lemma_commuting_row(a, b);
    crate::linalg::lemma_commuting_row(a, a);
    assert(u.spec_cross(v).row() == crate::algebra::cross(a, b));
    assert(v.spec_cross(u).row() == crate::algebra::cross(b, a));
    assert(v.spec_cross(w).row() == crate::algebra::cross(b, c));
    crate::algebra::lemma_triple(a, b, c);
    crate::algebra::lemma_lagrange(a, b);
    crate::algebra::lemma_double_cross(a, b, c);
}

/// Normalizing a quaternion twice is normalizing it once.
pub proof fn law_normalizing_twice<S: Real>(q: Quat<S>)
    requires
        crate::scalar::exact::<S>(),
        q.spec_norm().val() != 0real,
    ensures
        ({
            let (a, b) = (q.spec_normalized(), q.spec_normalized().spec_normalized());
            &&& a.spec_norm().val() == 1real
            &&& b.i.val() == a.i.val() && b.j.val() == a.j.val()
            &&& b.k.val() == a.k.val() && b.w.val() == a.w.val()
        }),
{
    let a = q.spec_normalized();
    crate::linalg::law_normalized_has_unit_norm(q);
    let (x, y, z, w) = (a.i.val(), a.j.val(), a.k.val(), a.w.val());
    let s = a.i * a.i + a.j * a.j + a.k * a.k + a.w * a.w;
    assert(s.val() == x * x + y * y + z * z + w * w);
    let n = a.spec_norm().val();
    assert(n >= 0real && n * n == 1real);
    assert(n == 1real) by (nonlinear_arith)
        requires
            n >= 0real,
            n * n == 1real,
    ;
    let r = (S::spec_one() / a.spec_norm()).val();
    crate::linalg::lemma_reciprocal(n, r);
    assert(r == 1real);
    lemma_times_unit(x, r);
    lemma_times_unit(y, r);
    lemma_times_unit(z, r);
    lemma_times_unit(w, r);
}

proof fn lemma_times_unit(x: real, r: real)
    requires
        r == 1real,
    ensures
        x * r == x,
{
    assert(x * r == x) by (nonlinear_arith)
        requires
            r == 1real,
    ;
}

} // verus!
