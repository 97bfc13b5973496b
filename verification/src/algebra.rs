//! Identities of real numbers behind the laws of geometry: 3x3 and 4x4 determinants by
//! their rows, and the rotation of a unit quaternion.
use vstd::prelude::*;

verus! {

// ---------------------------------------------------------------------------
// Products
// ---------------------------------------------------------------------------
/// The product of two differences.
pub proof fn lemma_foil(p: real, q: real, s: real, t: real)
    ensures
        (p - q) * (s - t) == p * s - p * t - q * s + q * t,
{
    assert((p - q) * (s - t) == p * s - p * t - q * s + q * t) by (nonlinear_arith);
}

/// Products distribute over sums and differences.
pub proof fn lemma_dist(x: real, u: real, v: real)
    ensures
        x * (u + v) == x * u + x * v,
        x * (u - v) == x * u - x * v,
        (u + v) * x == u * x + v * x,
        (u - v) * x == u * x - v * x,
{
    assert(x * (u + v) == x * u + x * v) by (nonlinear_arith);
    assert(x * (u - v) == x * u - x * v) by (nonlinear_arith);
    assert((u + v) * x == u * x + v * x) by (nonlinear_arith);
    assert((u - v) * x == u * x - v * x) by (nonlinear_arith);
}

/// The order of two factors does not matter.
pub proof fn lemma_comm(x: real, y: real)
    ensures
        x * y == y * x,
{
    assert(x * y == y * x) by (nonlinear_arith);
}

/// Nor does the grouping of three.
pub proof fn lemma_assoc(x: real, y: real, z: real)
    ensures
        x * (y * z) == (x * y) * z,
{
    assert(x * (y * z) == (x * y) * z) by (nonlinear_arith);
}

/// A common factor of three products.
pub proof fn lemma_scale3(p: real, x: real, q: real, y: real, s: real, z: real, r: real)
    ensures
        p * (x * r) + q * (y * r) + s * (z * r) == (p * x + q * y + s * z) * r,
{
    lemma_assoc(p, x, r);
    lemma_assoc(q, y, r);
    lemma_assoc(s, z, r);
    lemma_dist(r, p * x, q * y);
    lemma_dist(r, p * x + q * y, s * z);
}

// ---------------------------------------------------------------------------
// Three rows
// ---------------------------------------------------------------------------
/// A row of three numbers.
pub struct Row3 {
    pub x: real,
    pub y: real,
    pub z: real,
}

/// The cross product.
pub open spec fn cross(u: Row3, v: Row3) -> Row3 {
    Row3 { x: u.y * v.z - u.z * v.y, y: u.z * v.x - u.x * v.z, z: u.x * v.y - u.y * v.x }
}

/// The inner product.
pub open spec fn dot(u: Row3, v: Row3) -> real {
    u.x * v.x + u.y * v.y + u.z * v.z
}

/// The inner product does not depend on the order.
pub proof fn lemma_dot_comm(u: Row3, v: Row3)
    ensures
        dot(u, v) == dot(v, u),
{
    lemma_comm(u.x, v.x);
    lemma_comm(u.y, v.y);
    lemma_comm(u.z, v.z);
}

/// Three factors in another order.
pub proof fn lemma_cycle3(x: real, y: real, z: real)
    ensures
        x * (y * z) == y * (z * x),
        x * (y * z) == y * (x * z),
{
    assert(x * (y * z) == y * (z * x)) by (nonlinear_arith);
    assert(x * (y * z) == y * (x * z)) by (nonlinear_arith);
}

proof fn lemma_triple_flat(p: Row3, u: Row3, v: Row3)
    ensures
        dot(p, cross(u, v)) == p.x * (u.y * v.z) - p.x * (u.z * v.y) + p.y * (u.z * v.x) - p.y * (
        u.x * v.z) + p.z * (u.x * v.y) - p.z * (u.y * v.x),
{
    lemma_dist(p.x, u.y * v.z, u.z * v.y);
    lemma_dist(p.y, u.z * v.x, u.x * v.z);
    lemma_dist(p.z, u.x * v.y, u.y * v.x);
}

/// The triple product vanishes where a row stands twice, and does not change when the rows
/// are turned round.
pub proof fn lemma_triple(u: Row3, v: Row3, w: Row3)
    ensures
        dot(u, cross(u, v)) == 0real,
        dot(v, cross(u, v)) == 0real,
        dot(v, cross(w, u)) == dot(u, cross(v, w)),
        dot(w, cross(u, v)) == dot(u, cross(v, w)),
{
    lemma_triple_flat(u, u, v);
    lemma_cycle3(u.x, u.y, v.z);
    lemma_cycle3(u.x, u.z, v.y);
    lemma_cycle3(u.y, u.z, v.x);
    lemma_triple_flat(v, u, v);
    lemma_comm(v.z, v.y);
    lemma_comm(v.z, v.x);
    lemma_comm(v.x, v.y);
    lemma_cycle3(v.x, u.y, v.z);
    lemma_cycle3(v.x, u.z, v.y);
    lemma_cycle3(v.y, u.z, v.x);
    lemma_cycle3(v.y, u.x, v.z);
    lemma_cycle3(v.z, u.x, v.y);
    lemma_cycle3(v.z, u.y, v.x);
    lemma_triple_flat(u, v, w);
    lemma_triple_flat(v, w, u);
    lemma_triple_flat(w, u, v);
    lemma_cycle3(u.x, v.y, w.z);
    lemma_cycle3(u.x, v.z, w.y);
    lemma_cycle3(u.y, v.z, w.x);
    lemma_cycle3(u.y, v.x, w.z);
    lemma_cycle3(u.z, v.x, w.y);
    lemma_cycle3(u.z, v.y, w.x);
    lemma_cycle3(v.y, w.z, u.x);
    lemma_cycle3(v.z, w.y, u.x);
    lemma_cycle3(v.z, w.x, u.y);
    lemma_cycle3(v.x, w.z, u.y);
    lemma_cycle3(v.x, w.y, u.z);
    lemma_cycle3(v.y, w.x, u.z);
}

/// The rows written as columns.
pub open spec fn column(a: real, b: real, c: real) -> Row3 {
    Row3 { x: a, y: b, z: c }
}

/// A row times a number.
pub open spec fn times3(u: Row3, r: real) -> Row3 {
    Row3 { x: u.x * r, y: u.y * r, z: u.z * r }
}

/// The determinant of the columns is that of the rows.
pub proof fn lemma_det_of_columns(a: Row3, b: Row3, c: Row3)
    ensures
        dot(
            column(a.x, b.x, c.x),
            cross(column(a.y, b.y, c.y), column(a.z, b.z, c.z)),
        ) == dot(a, cross(b, c)),
{
    lemma_triple_flat(
        column(a.x, b.x, c.x),
        column(a.y, b.y, c.y),
        column(a.z, b.z, c.z),
    );
    lemma_triple_flat(a, b, c);
    assert(a.x * (c.y * b.z) == a.x * (b.z * c.y)) by (nonlinear_arith);
    assert(b.x * (c.y * a.z) == a.z * (b.x * c.y)) by (nonlinear_arith);
    assert(b.x * (a.y * c.z) == a.y * (b.x * c.z)) by (nonlinear_arith);
    assert(c.x * (a.y * b.z) == a.y * (b.z * c.x)) by (nonlinear_arith);
    assert(c.x * (b.y * a.z) == a.z * (b.y * c.x)) by (nonlinear_arith);
}

proof fn lemma_double_cross_entry(
    ux: real,
    uy: real,
    uz: real,
    vx: real,
    vy: real,
    vz: real,
    wx: real,
    wy: real,
    wz: real,
)
    ensures
        uy * (vx * wy - vy * wx) - uz * (vz * wx - vx * wz) == vx * (ux * wx + uy * wy + uz * wz)
            - wx * (ux * vx + uy * vy + uz * vz),
{
    lemma_dist(uy, vx * wy, vy * wx);
    lemma_dist(uz, vz * wx, vx * wz);
    lemma_dist(vx, ux * wx, uy * wy);
    lemma_dist(vx, ux * wx + uy * wy, uz * wz);
    lemma_dist(wx, ux * vx, uy * vy);
    lemma_dist(wx, ux * vx + uy * vy, uz * vz);
    assert(vx * (ux * wx) == wx * (ux * vx)) by (nonlinear_arith);
    assert(uy * (vx * wy) == vx * (uy * wy)) by (nonlinear_arith);
    assert(uy * (vy * wx) == wx * (uy * vy)) by (nonlinear_arith);
    assert(uz * (vz * wx) == wx * (uz * vz)) by (nonlinear_arith);
    assert(uz * (vx * wz) == vx * (uz * wz)) by (nonlinear_arith);
}

/// The cross product with a cross product: `u x (v x w) = v (u . w) - w (u . v)`.
pub proof fn lemma_double_cross(u: Row3, v: Row3, w: Row3)
    ensures
        cross(u, cross(v, w)) == (Row3 {
            x: v.x * dot(u, w) - w.x * dot(u, v),
            y: v.y * dot(u, w) - w.y * dot(u, v),
            z: v.z * dot(u, w) - w.z * dot(u, v),
        }),
{
    lemma_double_cross_entry(u.x, u.y, u.z, v.x, v.y, v.z, w.x, w.y, w.z);
    lemma_double_cross_entry(u.y, u.z, u.x, v.y, v.z, v.x, w.y, w.z, w.x);
    lemma_double_cross_entry(u.z, u.x, u.y, v.z, v.x, v.y, w.z, w.x, w.y);
    assert(u.y * w.y + u.z * w.z + u.x * w.x == dot(u, w));
    assert(u.z * w.z + u.x * w.x + u.y * w.y == dot(u, w));
    assert(u.y * v.y + u.z * v.z + u.x * v.x == dot(u, v));
    assert(u.z * v.z + u.x * v.x + u.y * v.y == dot(u, v));
}

/// The cross product and the inner product of scaled rows.
pub proof fn lemma_scaled_products(u: Row3, v: Row3, r: real)
    ensures
        cross(times3(u, r), times3(v, r)) == times3(cross(u, v), r * r),
        dot(times3(u, r), times3(v, r)) == dot(u, v) * (r * r),
{
    lemma_scaled_pair(u.y, v.z, r);
    lemma_scaled_pair(u.z, v.y, r);
    lemma_scaled_pair(u.z, v.x, r);
    lemma_scaled_pair(u.x, v.z, r);
    lemma_scaled_pair(u.x, v.y, r);
    lemma_scaled_pair(u.y, v.x, r);
    lemma_scaled_pair(u.x, v.x, r);
    lemma_scaled_pair(u.y, v.y, r);
    lemma_scaled_pair(u.z, v.z, r);
    let q = r * r;
    lemma_dist(q, u.y * v.z, u.z * v.y);
    lemma_dist(q, u.z * v.x, u.x * v.z);
    lemma_dist(q, u.x * v.y, u.y * v.x);
    lemma_dist(q, u.x * v.x, u.y * v.y);
    lemma_dist(q, u.x * v.x + u.y * v.y, u.z * v.z);
}

/// The inner product is linear.
pub proof fn lemma_dot_linear(a: Row3, u: Row3, v: Row3, r: real)
    ensures
        dot(a, Row3 { x: u.x + v.x, y: u.y + v.y, z: u.z + v.z }) == dot(a, u) + dot(a, v),
        dot(a, times3(u, r)) == dot(a, u) * r,
{
    lemma_dist(a.x, u.x, v.x);
    lemma_dist(a.y, u.y, v.y);
    lemma_dist(a.z, u.z, v.z);
    lemma_scale3(a.x, u.x, a.y, u.y, a.z, u.z, r);
}

/// Lagrange: the square of a cross product is that of the lengths less that of the inner
/// product.
pub proof fn lemma_lagrange(u: Row3, v: Row3)
    ensures
        dot(cross(u, v), cross(u, v)) == dot(u, u) * dot(v, v) - dot(u, v) * dot(u, v),
{
    let w = cross(u, v);
    let (p, q) = (dot(v, v), dot(u, v));
    lemma_triple(u, v, w);
    lemma_double_cross(v, u, v);
    lemma_dot_comm(v, u);
    let x = cross(v, w);
    assert(x == Row3 { x: u.x * p - v.x * q, y: u.y * p - v.y * q, z: u.z * p - v.z * q });
    lemma_dist(u.x, u.x * p, v.x * q);
    lemma_dist(u.y, u.y * p, v.y * q);
    lemma_dist(u.z, u.z * p, v.z * q);
    lemma_scale3(u.x, u.x, u.y, u.y, u.z, u.z, p);
    lemma_scale3(u.x, v.x, u.y, v.y, u.z, v.z, q);
}

/// The product of two scaled numbers.
pub proof fn lemma_scaled_pair(x: real, y: real, r: real)
    ensures
        (x * r) * (y * r) == (x * y) * (r * r),
{
    assert((x * r) * (y * r) == (x * y) * (r * r)) by (nonlinear_arith);
}

// ---------------------------------------------------------------------------
// Four rows
// ---------------------------------------------------------------------------
/// A row of four numbers.
pub struct Row4 {
    pub a: real,
    pub b: real,
    pub c: real,
    pub d: real,
}

/// Six numbers, one for each pair of columns.
pub struct Minors {
    pub ab: real,
    pub ac: real,
    pub ad: real,
    pub bc: real,
    pub bd: real,
    pub cd: real,
}

/// The 2x2 minors of two rows.
pub open spec fn minors(u: Row4, v: Row4) -> Minors {
    Minors {
        ab: u.a * v.b - v.a * u.b,
        ac: u.a * v.c - v.a * u.c,
        ad: u.a * v.d - v.a * u.d,
        bc: u.b * v.c - v.b * u.c,
        bd: u.b * v.d - v.b * u.d,
        cd: u.c * v.d - v.c * u.d,
    }
}

/// Minors of two rows against those of two others.
pub open spec fn pair(s: Minors, c: Minors) -> real {
    s.ab * c.cd - s.ac * c.bd + s.ad * c.bc + s.bc * c.ad - s.bd * c.ac + s.cd * c.ab
}

/// The determinant of four rows.
pub open spec fn det4(u: Row4, v: Row4, x: Row4, y: Row4) -> real {
    pair(minors(u, v), minors(x, y))
}

/// A column of cofactors: of the row `v` and the minors `m`.
pub open spec fn cofactors(v: Row4, m: Minors) -> Row4 {
    Row4 {
        a: v.b * m.cd - v.c * m.bd + v.d * m.bc,
        b: (-v.a) * m.cd + v.c * m.ad - v.d * m.ac,
        c: v.a * m.bd - v.b * m.ad + v.d * m.ab,
        d: (-v.a) * m.bc + v.b * m.ac - v.c * m.ab,
    }
}

/// The same with every sign turned.
pub open spec fn anti_cofactors(v: Row4, m: Minors) -> Row4 {
    Row4 {
        a: (-v.b) * m.cd + v.c * m.bd - v.d * m.bc,
        b: v.a * m.cd - v.c * m.ad + v.d * m.ac,
        c: (-v.a) * m.bd + v.b * m.ad - v.d * m.ab,
        d: v.a * m.bc - v.b * m.ac + v.c * m.ab,
    }
}

/// The inner product.
pub open spec fn dot4(u: Row4, v: Row4) -> real {
    u.a * v.a + u.b * v.b + u.c * v.c + u.d * v.d
}

/// Products distribute over three terms.
pub proof fn lemma_dist3(x: real, u: real, v: real, w: real)
    ensures
        x * (u - v + w) == x * u - x * v + x * w,
        x * (-u + v - w) == -(x * u) + x * v - x * w,
{
    lemma_dist(x, u, v);
    lemma_dist(x, u - v, w);
    lemma_dist(x, v, u);
    lemma_dist(x, v - u, w);
    assert(-u + v - w == v - u - w);
}

/// A negative factor.
pub proof fn lemma_neg(x: real, y: real)
    ensures
        (-x) * y == -(x * y),
{
    assert((-x) * y == -(x * y)) by (nonlinear_arith);
}

proof fn lemma_minor_times(p: real, q: real, r: real, s: real, m: real)
    ensures
        (p * q - r * s) * m == p * (q * m) - s * (r * m),
{
    lemma_dist(m, p * q, r * s);
    lemma_assoc(p, q, m);
    lemma_comm(r, s);
    lemma_assoc(s, r, m);
}

/// A row against the cofactors of another row is their pair of minors.
pub proof fn lemma_cofactors(u: Row4, v: Row4, m: Minors)
    ensures
        dot4(u, cofactors(v, m)) == pair(minors(u, v), m),
        dot4(u, anti_cofactors(v, m)) == -pair(minors(u, v), m),
{
    lemma_dist3(u.a, v.b * m.cd, v.c * m.bd, v.d * m.bc);
    lemma_dist3(u.b, v.a * m.cd, v.c * m.ad, v.d * m.ac);
    lemma_dist3(u.c, v.a * m.bd, v.b * m.ad, v.d * m.ab);
    lemma_dist3(u.d, v.a * m.bc, v.b * m.ac, v.c * m.ab);
    lemma_neg(v.a, m.cd);
    lemma_neg(v.a, m.bc);
    lemma_neg(v.b, m.cd);
    lemma_neg(v.a, m.bd);
    lemma_minor_times(u.a, v.b, v.a, u.b, m.cd);
    lemma_minor_times(u.a, v.c, v.a, u.c, m.bd);
    lemma_minor_times(u.a, v.d, v.a, u.d, m.bc);
    lemma_minor_times(u.b, v.c, v.b, u.c, m.ad);
    lemma_minor_times(u.b, v.d, v.b, u.d, m.ac);
    lemma_minor_times(u.c, v.d, v.c, u.d, m.ab);
}

/// Minors change sign with the order of the rows, and vanish for equal rows.
proof fn lemma_minors(u: Row4, v: Row4)
    ensures
        minors(v, u) == (Minors {
            ab: -minors(u, v).ab,
            ac: -minors(u, v).ac,
            ad: -minors(u, v).ad,
            bc: -minors(u, v).bc,
            bd: -minors(u, v).bd,
            cd: -minors(u, v).cd,
        }),
{
}

proof fn lemma_pair_sign(s: Minors, c: Minors)
    ensures
        ({
            let n = Minors { ab: -s.ab, ac: -s.ac, ad: -s.ad, bc: -s.bc, bd: -s.bd, cd: -s.cd };
            pair(n, c) == -pair(s, c)
        }),
        pair(s, c) == pair(c, s),
{
    lemma_neg(s.ab, c.cd);
    lemma_neg(s.ac, c.bd);
    lemma_neg(s.ad, c.bc);
    lemma_neg(s.bc, c.ad);
    lemma_neg(s.bd, c.ac);
    lemma_neg(s.cd, c.ab);
    lemma_comm(s.ab, c.cd);
    lemma_comm(s.ac, c.bd);
    lemma_comm(s.ad, c.bc);
    lemma_comm(s.bc, c.ad);
    lemma_comm(s.bd, c.ac);
    lemma_comm(s.cd, c.ab);
}

/// The determinant changes sign when two neighbours of a half change places, and none when
/// the halves do.
proof fn lemma_det4_order(u: Row4, v: Row4, x: Row4, y: Row4)
    ensures
        det4(v, u, x, y) == -det4(u, v, x, y),
        det4(u, v, y, x) == -det4(u, v, x, y),
        det4(x, y, u, v) == det4(u, v, x, y),
{
    lemma_minors(u, v);
    lemma_minors(x, y);
    lemma_pair_sign(minors(u, v), minors(x, y));
    lemma_pair_sign(minors(x, y), minors(u, v));
    lemma_pair_sign(minors(y, x), minors(u, v));
    lemma_pair_sign(minors(u, v), minors(y, x));
}

/// The determinant vanishes where the first row stands again in the other half.
proof fn lemma_det4_repeats(u: Row4, v: Row4, y: Row4)
    ensures
        det4(u, v, u, y) == 0real,
{
    lemma_foil(u.a * v.b, v.a * u.b, u.c * y.d, y.c * u.d);
    lemma_foil(u.a * v.c, v.a * u.c, u.b * y.d, y.b * u.d);
    lemma_foil(u.a * v.d, v.a * u.d, u.b * y.c, y.b * u.c);
    lemma_foil(u.b * v.c, v.b * u.c, u.a * y.d, y.a * u.d);
    lemma_foil(u.b * v.d, v.b * u.d, u.a * y.c, y.a * u.c);
    lemma_foil(u.c * v.d, v.c * u.d, u.a * y.b, y.a * u.b);
    assert((u.a * v.b) * (u.c * y.d) == (v.b * u.c) * (u.a * y.d)) by (nonlinear_arith);
    assert((u.a * v.b) * (y.c * u.d) == (v.b * u.d) * (u.a * y.c)) by (nonlinear_arith);
    assert((v.a * u.b) * (u.c * y.d) == (v.a * u.c) * (u.b * y.d)) by (nonlinear_arith);
    assert((v.a * u.b) * (y.c * u.d) == (v.a * u.d) * (u.b * y.c)) by (nonlinear_arith);
    assert((u.a * v.c) * (u.b * y.d) == (u.b * v.c) * (u.a * y.d)) by (nonlinear_arith);
    assert((u.a * v.c) * (y.b * u.d) == (v.c * u.d) * (u.a * y.b)) by (nonlinear_arith);
    assert((v.a * u.c) * (y.b * u.d) == (v.a * u.d) * (y.b * u.c)) by (nonlinear_arith);
    assert((u.a * v.d) * (u.b * y.c) == (u.b * v.d) * (u.a * y.c)) by (nonlinear_arith);
    assert((u.a * v.d) * (y.b * u.c) == (u.c * v.d) * (u.a * y.b)) by (nonlinear_arith);
    assert((u.b * v.c) * (y.a * u.d) == (v.c * u.d) * (y.a * u.b)) by (nonlinear_arith);
    assert((v.b * u.c) * (y.a * u.d) == (v.b * u.d) * (y.a * u.c)) by (nonlinear_arith);
    assert((u.b * v.d) * (y.a * u.c) == (u.c * v.d) * (y.a * u.b)) by (nonlinear_arith);
}

/// A determinant with a row standing twice vanishes.
pub proof fn lemma_det4(u: Row4, v: Row4, x: Row4, y: Row4)
    ensures
        det4(u, u, x, y) == 0real,
        det4(u, v, x, x) == 0real,
        det4(u, v, u, y) == 0real,
        det4(u, v, x, u) == 0real,
        det4(u, v, v, y) == 0real,
        det4(u, v, x, v) == 0real,
        det4(v, u, x, y) == -det4(u, v, x, y),
        det4(u, v, y, x) == -det4(u, v, x, y),
        det4(x, y, u, v) == det4(u, v, x, y),
{
    lemma_det4_order(u, v, x, y);
    lemma_det4_order(u, u, x, y);
    lemma_det4_order(u, v, x, x);
    lemma_det4_repeats(u, v, y);
    lemma_det4_repeats(u, v, x);
    lemma_det4_order(u, v, u, x);
    lemma_det4_repeats(v, u, y);
    lemma_det4_order(v, u, v, y);
    lemma_det4_repeats(v, u, x);
    lemma_det4_order(v, u, v, x);
    lemma_det4_order(v, u, x, v);
    lemma_det4_order(u, v, v, y);
}

proof fn lemma_column_pair(
    p: real,
    q: real,
    u1: real,
    v1: real,
    u2: real,
    v2: real,
    u3: real,
    v3: real,
    m1: real,
    m2: real,
    m3: real,
)
    ensures
        p * (v1 * m1 - v2 * m2 + v3 * m3) + q * ((-u1) * m1 + u2 * m2 - u3 * m3) == (p * v1 - q
            * u1) * m1 - (p * v2 - q * u2) * m2 + (p * v3 - q * u3) * m3,
{
    lemma_neg(u1, m1);
    lemma_dist3(p, v1 * m1, v2 * m2, v3 * m3);
    lemma_dist3(q, u1 * m1, u2 * m2, u3 * m3);
    lemma_dist(m1, p * v1, q * u1);
    lemma_dist(m2, p * v2, q * u2);
    lemma_dist(m3, p * v3, q * u3);
    lemma_assoc(p, v1, m1);
    lemma_assoc(p, v2, m2);
    lemma_assoc(p, v3, m3);
    lemma_assoc(q, u1, m1);
    lemma_assoc(q, u2, m2);
    lemma_assoc(q, u3, m3);
}

/// Entry `k` of the cofactors of the four rows, gathered by columns, against the column
/// `(p, q, s, t)`.
pub open spec fn against_column(
    k: int,
    u: Row4,
    v: Row4,
    x: Row4,
    y: Row4,
    p: real,
    q: real,
    s: real,
    t: real,
) -> real {
    let (m, n) = (minors(x, y), minors(u, v));
    let (c0, c1) = (cofactors(v, m), anti_cofactors(u, m));
    let (c2, c3) = (cofactors(y, n), anti_cofactors(x, n));
    if k == 0 {
        p * c0.a + q * c1.a + s * c2.a + t * c3.a
    } else if k == 1 {
        p * c0.b + q * c1.b + s * c2.b + t * c3.b
    } else if k == 2 {
        p * c0.c + q * c1.c + s * c2.c + t * c3.c
    } else {
        p * c0.d + q * c1.d + s * c2.d + t * c3.d
    }
}

proof fn lemma_against_column(
    u: Row4,
    v: Row4,
    x: Row4,
    y: Row4,
    p: real,
    q: real,
    s: real,
    t: real,
)
    ensures
        ({
            let (m, n) = (minors(x, y), minors(u, v));
            let f = |a: real, b: real| p * b - q * a;
            let g = |a: real, b: real| s * b - t * a;
            &&& against_column(0, u, v, x, y, p, q, s, t) == f(u.b, v.b) * m.cd - f(u.c, v.c)
                * m.bd + f(u.d, v.d) * m.bc + g(x.b, y.b) * n.cd - g(x.c, y.c) * n.bd + g(
                x.d,
                y.d,
            ) * n.bc
            &&& against_column(1, u, v, x, y, p, q, s, t) == -(f(u.a, v.a) * m.cd) + f(u.c, v.c)
                * m.ad - f(u.d, v.d) * m.ac - g(x.a, y.a) * n.cd + g(x.c, y.c) * n.ad - g(
                x.d,
                y.d,
            ) * n.ac
            &&& against_column(2, u, v, x, y, p, q, s, t) == f(u.a, v.a) * m.bd - f(u.b, v.b)
                * m.ad + f(u.d, v.d) * m.ab + g(x.a, y.a) * n.bd - g(x.b, y.b) * n.ad + g(
                x.d,
                y.d,
            ) * n.ab
            &&& against_column(3, u, v, x, y, p, q, s, t) == -(f(u.a, v.a) * m.bc) + f(u.b, v.b)
                * m.ac - f(u.c, v.c) * m.ab - g(x.a, y.a) * n.bc + g(x.b, y.b) * n.ac - g(
                x.c,
                y.c,
            ) * n.ab
        }),
{
    let (m, n) = (minors(x, y), minors(u, v));
    lemma_column_pair(p, q, u.b, v.b, u.c, v.c, u.d, v.d, m.cd, m.bd, m.bc);
    lemma_column_pair(s, t, x.b, y.b, x.c, y.c, x.d, y.d, n.cd, n.bd, n.bc);
    lemma_column_pair(p, q, u.a, v.a, u.b, v.b, u.d, v.d, m.bd, m.ad, m.ab);
    lemma_column_pair(s, t, x.a, y.a, x.b, y.b, x.d, y.d, n.bd, n.ad, n.ab);
    lemma_turned_pair(p, q, u.a, v.a, u.c, v.c, u.d, v.d, m.cd, m.ad, m.ac);
    lemma_turned_pair(s, t, x.a, y.a, x.c, y.c, x.d, y.d, n.cd, n.ad, n.ac);
    lemma_turned_pair(p, q, u.a, v.a, u.b, v.b, u.c, v.c, m.bc, m.ac, m.ab);
    lemma_turned_pair(s, t, x.a, y.a, x.b, y.b, x.c, y.c, n.bc, n.ac, n.ab);
}

proof fn lemma_turned_pair(
    p: real,
    q: real,
    u1: real,
    v1: real,
    u2: real,
    v2: real,
    u3: real,
    v3: real,
    m1: real,
    m2: real,
    m3: real,
)
    ensures
        p * ((-v1) * m1 + v2 * m2 - v3 * m3) + q * (u1 * m1 - u2 * m2 + u3 * m3) == -((p * v1 - q
            * u1) * m1) + (p * v2 - q * u2) * m2 - (p * v3 - q * u3) * m3,
{
    lemma_neg(v1, m1);
    lemma_dist3(p, v1 * m1, v2 * m2, v3 * m3);
    lemma_dist3(q, u1 * m1, u2 * m2, u3 * m3);
    lemma_dist(m1, p * v1, q * u1);
    lemma_dist(m2, p * v2, q * u2);
    lemma_dist(m3, p * v3, q * u3);
    lemma_assoc(p, v1, m1);
    lemma_assoc(p, v2, m2);
    lemma_assoc(p, v3, m3);
    lemma_assoc(q, u1, m1);
    lemma_assoc(q, u2, m2);
    lemma_assoc(q, u3, m3);
}

/// The cofactors gathered by columns take a column to the determinant where it is their
/// own, and to zero else.
pub proof fn lemma_columns_of_cofactors(u: Row4, v: Row4, x: Row4, y: Row4, k: int)
    requires
        0 <= k < 4,
    ensures
        ({
            let d = det4(u, v, x, y);
            &&& against_column(k, u, v, x, y, u.a, v.a, x.a, y.a) == if k == 0 { d } else { 0real }
            &&& against_column(k, u, v, x, y, u.b, v.b, x.b, y.b) == if k == 1 { d } else { 0real }
            &&& against_column(k, u, v, x, y, u.c, v.c, x.c, y.c) == if k == 2 { d } else { 0real }
            &&& against_column(k, u, v, x, y, u.d, v.d, x.d, y.d) == if k == 3 { d } else { 0real }
        }),
{
    let (m, n) = (minors(x, y), minors(u, v));
    lemma_against_column(u, v, x, y, u.a, v.a, x.a, y.a);
    lemma_against_column(u, v, x, y, u.b, v.b, x.b, y.b);
    lemma_against_column(u, v, x, y, u.c, v.c, x.c, y.c);
    lemma_against_column(u, v, x, y, u.d, v.d, x.d, y.d);
    lemma_minor_entries(u, v);
    lemma_minor_entries(x, y);
    lemma_signed_products(m.ab, n);
    lemma_signed_products(m.ac, n);
    lemma_signed_products(m.ad, n);
    lemma_signed_products(m.bc, n);
    lemma_signed_products(m.bd, n);
    lemma_signed_products(m.cd, n);
}

proof fn lemma_minor_entries(u: Row4, v: Row4)
    ensures
        u.a * v.a - v.a * u.a == 0real,
        u.b * v.b - v.b * u.b == 0real,
        u.c * v.c - v.c * u.c == 0real,
        u.d * v.d - v.d * u.d == 0real,
        u.b * v.a - v.b * u.a == -minors(u, v).ab,
        u.c * v.a - v.c * u.a == -minors(u, v).ac,
        u.d * v.a - v.d * u.a == -minors(u, v).ad,
        u.c * v.b - v.c * u.b == -minors(u, v).bc,
        u.d * v.b - v.d * u.b == -minors(u, v).bd,
        u.d * v.c - v.d * u.c == -minors(u, v).cd,
{
    lemma_comm(u.a, v.a);
    lemma_comm(u.b, v.b);
    lemma_comm(u.c, v.c);
    lemma_comm(u.d, v.d);
    lemma_comm(u.a, v.b);
    lemma_comm(u.b, v.a);
    lemma_comm(u.a, v.c);
    lemma_comm(u.c, v.a);
    lemma_comm(u.a, v.d);
    lemma_comm(u.d, v.a);
    lemma_comm(u.b, v.c);
    lemma_comm(u.c, v.b);
    lemma_comm(u.b, v.d);
    lemma_comm(u.d, v.b);
    lemma_comm(u.c, v.d);
    lemma_comm(u.d, v.c);
}

proof fn lemma_signed_products(m: real, n: Minors)
    ensures
        0real * m == 0real,
        0real * n.ab == 0real,
        0real * n.ac == 0real,
        0real * n.ad == 0real,
        0real * n.bc == 0real,
        0real * n.bd == 0real,
        0real * n.cd == 0real,
        n.ab * m == m * n.ab && (-n.ab) * m == -(n.ab * m) && (-m) * n.ab == -(n.ab * m),
        n.ac * m == m * n.ac && (-n.ac) * m == -(n.ac * m) && (-m) * n.ac == -(n.ac * m),
        n.ad * m == m * n.ad && (-n.ad) * m == -(n.ad * m) && (-m) * n.ad == -(n.ad * m),
        n.bc * m == m * n.bc && (-n.bc) * m == -(n.bc * m) && (-m) * n.bc == -(n.bc * m),
        n.bd * m == m * n.bd && (-n.bd) * m == -(n.bd * m) && (-m) * n.bd == -(n.bd * m),
        n.cd * m == m * n.cd && (-n.cd) * m == -(n.cd * m) && (-m) * n.cd == -(n.cd * m),
{
    lemma_signed(m, n.ab);
    lemma_signed(m, n.ac);
    lemma_signed(m, n.ad);
    lemma_signed(m, n.bc);
    lemma_signed(m, n.bd);
    lemma_signed(m, n.cd);
}

proof fn lemma_signed(m: real, n: real)
    ensures
        0real * m == 0real,
        0real * n == 0real,
        n * m == m * n,
        (-n) * m == -(n * m),
        (-m) * n == -(n * m),
{
    lemma_comm(m, n);
    lemma_neg(n, m);
    lemma_neg(m, n);
    assert(0real * m == 0real && 0real * n == 0real) by (nonlinear_arith);
}

/// A row against rows against a column: it does not matter which product is taken first.
pub proof fn lemma_dot4_twice(u: Row4, a: Row4, b: Row4, c: Row4, d: Row4, v: Row4)
    ensures
        dot4(u, Row4 { a: dot4(a, v), b: dot4(b, v), c: dot4(c, v), d: dot4(d, v) }) == dot4(
            Row4 {
                a: dot4(u, Row4 { a: a.a, b: b.a, c: c.a, d: d.a }),
                b: dot4(u, Row4 { a: a.b, b: b.b, c: c.b, d: d.b }),
                c: dot4(u, Row4 { a: a.c, b: b.c, c: c.c, d: d.c }),
                d: dot4(u, Row4 { a: a.d, b: b.d, c: c.d, d: d.d }),
            },
            v,
        ),
{
    lemma_spread4(u.a, a, v);
    lemma_spread4(u.b, b, v);
    lemma_spread4(u.c, c, v);
    lemma_spread4(u.d, d, v);
    lemma_gather4(u.a * a.a, u.b * b.a, u.c * c.a, u.d * d.a, v.a);
    lemma_gather4(u.a * a.b, u.b * b.b, u.c * c.b, u.d * d.b, v.b);
    lemma_gather4(u.a * a.c, u.b * b.c, u.c * c.c, u.d * d.c, v.c);
    lemma_gather4(u.a * a.d, u.b * b.d, u.c * c.d, u.d * d.d, v.d);
}

proof fn lemma_spread4(x: real, a: Row4, v: Row4)
    ensures
        x * dot4(a, v) == (x * a.a) * v.a + (x * a.b) * v.b + (x * a.c) * v.c + (x * a.d) * v.d,
{
    lemma_dist(x, a.a * v.a, a.b * v.b);
    lemma_dist(x, a.a * v.a + a.b * v.b, a.c * v.c);
    lemma_dist(x, a.a * v.a + a.b * v.b + a.c * v.c, a.d * v.d);
    lemma_assoc(x, a.a, v.a);
    lemma_assoc(x, a.b, v.b);
    lemma_assoc(x, a.c, v.c);
    lemma_assoc(x, a.d, v.d);
}

proof fn lemma_gather4(p: real, q: real, s: real, t: real, v: real)
    ensures
        (p + q + s + t) * v == p * v + q * v + s * v + t * v,
{
    lemma_dist(v, p, q);
    lemma_dist(v, p + q, s);
    lemma_dist(v, p + q + s, t);
}

/// A row against a scaled column.
pub proof fn lemma_scale4(u: Row4, v: Row4, r: real)
    ensures
        dot4(u, Row4 { a: v.a * r, b: v.b * r, c: v.c * r, d: v.d * r }) == dot4(u, v) * r,
{
    lemma_scale3(u.a, v.a, u.b, v.b, u.c, v.c, r);
    lemma_assoc(u.d, v.d, r);
    lemma_dist(r, u.a * v.a + u.b * v.b + u.c * v.c, u.d * v.d);
}

// ---------------------------------------------------------------------------
// The rotation of a unit quaternion
// ---------------------------------------------------------------------------
/// The first column of the rotation of the quaternion with vector part `(x, y, z)` and
/// scalar part `w`, starting on the diagonal and going down. The other columns are this
/// one with the axes turned round.
pub open spec fn turned_axis(x: real, y: real, z: real, w: real) -> Row3 {
    Row3 {
        x: 1real - 2real * (y * y + z * z),
        y: 2real * (x * y + z * w),
        z: 2real * (x * z - y * w),
    }
}

proof fn lemma_foil_add(p: real, q: real, s: real, t: real)
    ensures
        (p + q) * (s + t) == p * s + p * t + q * s + q * t,
{
    lemma_dist(p + q, s, t);
    lemma_dist(s, p, q);
    lemma_dist(t, p, q);
}

proof fn lemma_foil_mixed(p: real, q: real, s: real, t: real)
    ensures
        (p + q) * (s - t) == p * s - p * t + q * s - q * t,
        (p - q) * (s + t) == p * s + p * t - q * s - q * t,
{
    lemma_dist(p + q, s, t);
    lemma_dist(s, p, q);
    lemma_dist(t, p, q);
    lemma_dist(p - q, s, t);
}

proof fn lemma_twice(p: real, q: real)
    ensures
        (2real * p) * (2real * q) == 4real * (p * q),
        p * (2real * q) == 2real * (p * q),
        (2real * p) * q == 2real * (p * q),
{
    assert((2real * p) * (2real * q) == 4real * (p * q)) by (nonlinear_arith);
    assert(p * (2real * q) == 2real * (p * q)) by (nonlinear_arith);
    assert((2real * p) * q == 2real * (p * q)) by (nonlinear_arith);
}

/// A turned axis has unit length.
pub proof fn lemma_turned_axis_is_unit(x: real, y: real, z: real, w: real)
    requires
        x * x + y * y + z * z + w * w == 1real,
    ensures
        dot(turned_axis(x, y, z, w), turned_axis(x, y, z, w)) == 1real,
{
    let c = turned_axis(x, y, z, w);
    let (xx, yy, zz, ww) = (x * x, y * y, z * z, w * w);
    let (p, q, r, t) = (x * y, z * w, x * z, y * w);
    let (a, b) = (xx + ww, yy + zz);
    assert(c.x == a - b);
    lemma_foil(a, b, a, b);
    lemma_foil_add(a, b, a, b);
    assert((a + b) * (a + b) == 1real) by (nonlinear_arith)
        requires
            a + b == 1real,
    ;
    lemma_comm(a, b);
    assert(c.x * c.x == 1real - 4real * (a * b));
    lemma_foil_add(xx, ww, yy, zz);
    lemma_comm(ww, yy);
    lemma_comm(ww, zz);
    assert(a * b == xx * yy + xx * zz + yy * ww + zz * ww);
    lemma_twice(p + q, p + q);
    lemma_foil_add(p, q, p, q);
    lemma_twice(r - t, r - t);
    lemma_foil(r, t, r, t);
    lemma_comm(p, q);
    lemma_comm(r, t);
    assert((x * y) * (x * y) == (x * x) * (y * y)) by (nonlinear_arith);
    assert((z * w) * (z * w) == (z * z) * (w * w)) by (nonlinear_arith);
    assert((x * z) * (x * z) == (x * x) * (z * z)) by (nonlinear_arith);
    assert((y * w) * (y * w) == (y * y) * (w * w)) by (nonlinear_arith);
    assert((x * y) * (z * w) == (x * z) * (y * w)) by (nonlinear_arith);
    assert(c.y * c.y == 4real * (xx * yy + 2real * (p * q) + zz * ww));
    assert(c.z * c.z == 4real * (xx * zz - 2real * (r * t) + yy * ww));
}

/// A turned axis is orthogonal to the next one.
pub proof fn lemma_turned_axes_are_orthogonal(x: real, y: real, z: real, w: real)
    requires
        x * x + y * y + z * z + w * w == 1real,
    ensures
        ({
            let c = turned_axis(x, y, z, w);
            let n = turned_axis(y, z, x, w);
            c.x * n.z + c.y * n.x + c.z * n.y == 0real
        }),
{
    let c = turned_axis(x, y, z, w);
    let n = turned_axis(y, z, x, w);
    let (xx, yy, zz, ww) = (x * x, y * y, z * z, w * w);
    let (p, q, r, t, m, o) = (x * y, z * w, x * z, y * w, y * z, x * w);
    let (u, v) = (ww - zz, xx - yy);
    lemma_comm(y, x);
    assert(c.x == u + v);
    assert(n.x == u - v);
    assert(n.z == 2real * (p - q));
    assert(n.y == 2real * (m + o));
    lemma_twice(u + v, p - q);
    lemma_foil_mixed(u, v, p, q);
    lemma_twice(p + q, u - v);
    lemma_foil_mixed(p, q, u, v);
    lemma_comm(u, p);
    lemma_comm(u, q);
    lemma_comm(v, p);
    lemma_comm(v, q);
    assert(c.x * n.z + c.y * n.x == 4real * (p * u) - 4real * (q * v));
    lemma_twice(r - t, m + o);
    lemma_foil_mixed(r, t, m, o);
    assert((x * z) * (y * z) == (x * y) * (z * z)) by (nonlinear_arith);
    assert((x * z) * (x * w) == (z * w) * (x * x)) by (nonlinear_arith);
    assert((y * w) * (y * z) == (z * w) * (y * y)) by (nonlinear_arith);
    assert((y * w) * (x * w) == (x * y) * (w * w)) by (nonlinear_arith);
    lemma_dist(p, ww, zz);
    lemma_dist(q, xx, yy);
    assert(c.z * n.y == 4real * (q * v) - 4real * (p * u));
}

/// The turned axes are right-handed: the second and the third span the first.
pub proof fn lemma_turned_axes_are_right_handed(x: real, y: real, z: real, w: real)
    requires
        x * x + y * y + z * z + w * w == 1real,
    ensures
        ({
            let c = turned_axis(x, y, z, w);
            let n = turned_axis(y, z, x, w);
            let o = turned_axis(z, x, y, w);
            &&& n.x * o.x - n.y * o.z == c.x
            &&& n.y * o.y - n.z * o.x == c.y
            &&& n.z * o.z - n.x * o.y == c.z
        }),
{
    let c = turned_axis(x, y, z, w);
    let n = turned_axis(y, z, x, w);
    let o = turned_axis(z, x, y, w);
    let (xx, yy, zz, ww) = (x * x, y * y, z * z, w * w);
    let (p, q, r, t, m, i) = (x * y, z * w, x * z, y * w, y * z, x * w);
    lemma_comm(y, x);
    lemma_comm(z, x);
    lemma_comm(z, y);
    let (e, f) = (ww - xx, yy - zz);
    assert(n.x == e + f);
    assert(o.x == e - f);
    assert(c.x == ww + xx - yy - zz);
    assert(c.y == 2real * (p + q));
    assert(c.z == 2real * (r - t));
    assert(n.y == 2real * (m + i));
    assert(n.z == 2real * (p - q));
    assert(o.y == 2real * (r + t));
    assert(o.z == 2real * (m - i));
    // first entry
    lemma_foil_mixed(e, f, e, f);
    lemma_comm(e, f);
    lemma_twice(m + i, m - i);
    lemma_foil_mixed(m, i, m, i);
    lemma_comm(m, i);
    lemma_foil(ww, xx, ww, xx);
    lemma_foil(yy, zz, yy, zz);
    lemma_comm(ww, xx);
    lemma_comm(yy, zz);
    assert((y * z) * (y * z) == (y * y) * (z * z)) by (nonlinear_arith);
    assert((x * w) * (x * w) == (w * w) * (x * x)) by (nonlinear_arith);
    lemma_foil_mixed(ww + xx, yy + zz, ww + xx, yy + zz);
    lemma_comm(ww + xx, yy + zz);
    lemma_foil_add(ww, xx, ww, xx);
    lemma_foil_add(yy, zz, yy, zz);
    assert(((ww + xx) + (yy + zz)) * ((ww + xx) - (yy + zz)) == (ww + xx) - (yy + zz))
        by (nonlinear_arith)
        requires
            (ww + xx) + (yy + zz) == 1real,
    ;
    assert(n.x * o.x == e * e - f * f);
    assert(n.y * o.z == 4real * (m * m - i * i));
    // second entry: (2(m + i)) (2(r + t)) - 2(p - q) (e - f)
    lemma_twice(m + i, r + t);
    lemma_foil_add(m, i, r, t);
    lemma_twice(p - q, e - f);
    assert((y * z) * (x * z) == (x * y) * (z * z)) by (nonlinear_arith);
    assert((y * z) * (y * w) == (z * w) * (y * y)) by (nonlinear_arith);
    assert((x * w) * (x * z) == (z * w) * (x * x)) by (nonlinear_arith);
    assert((x * w) * (y * w) == (x * y) * (w * w)) by (nonlinear_arith);
    lemma_foil(p, q, e, f);
    lemma_dist(p, ww, xx);
    lemma_dist(p, yy, zz);
    lemma_dist(q, ww, xx);
    lemma_dist(q, yy, zz);
    lemma_times_one(p, xx, yy, zz, ww);
    lemma_times_one(q, xx, yy, zz, ww);
    assert(n.y * o.y == 4real * (p * zz + q * yy + q * xx + p * ww));
    assert(n.z * o.x == 2real * (p * e - p * f - q * e + q * f));
    // third entry: (2(p - q)) (2(m - i)) - (e + f) (2(r + t))
    lemma_twice(p - q, m - i);
    lemma_foil(p, q, m, i);
    lemma_twice(e + f, r + t);
    lemma_foil_add(e, f, r, t);
    assert((x * y) * (y * z) == (x * z) * (y * y)) by (nonlinear_arith);
    assert((x * y) * (x * w) == (y * w) * (x * x)) by (nonlinear_arith);
    assert((z * w) * (y * z) == (y * w) * (z * z)) by (nonlinear_arith);
    assert((z * w) * (x * w) == (x * z) * (w * w)) by (nonlinear_arith);
    lemma_comm(e, r);
    lemma_comm(e, t);
    lemma_comm(f, r);
    lemma_comm(f, t);
    lemma_dist(r, ww, xx);
    lemma_dist(r, yy, zz);
    lemma_dist(t, ww, xx);
    lemma_dist(t, yy, zz);
    lemma_times_one(r, xx, yy, zz, ww);
    lemma_times_one(t, xx, yy, zz, ww);
    assert(n.z * o.z == 4real * (r * yy - t * xx - t * zz + r * ww));
    assert(n.x * o.y == 2real * (r * e + t * e + r * f + t * f));
}

proof fn lemma_times_one(p: real, a: real, b: real, c: real, d: real)
    requires
        a + b + c + d == 1real,
    ensures
        p * a + p * b + p * c + p * d == p,
{
    lemma_dist(p, a, b);
    lemma_dist(p, a + b, c);
    lemma_dist(p, a + b + c, d);
    assert(p * 1real == p) by (nonlinear_arith);
}

// ---------------------------------------------------------------------------
// The rotation by an angle about an axis
// ---------------------------------------------------------------------------
/// The first column of the rotation about the unit axis `(x, y, z)` by the angle with sine
/// `s` and cosine `1 - c`, starting on the diagonal and going down. The other columns are
/// this one with the axes turned round.
pub open spec fn swung_axis(x: real, y: real, z: real, s: real, c: real) -> Row3 {
    Row3 { x: 1real + c * (-(y * y) - z * z), y: s * z + c * (x * y), z: -(s * y) + c * (x * z) }
}

/// A swung axis has unit length.
pub proof fn lemma_swung_axis_is_unit(x: real, y: real, z: real, s: real, c: real)
    requires
        x * x + y * y + z * z == 1real,
        s * s + c * c == 2real * c,
    ensures
        dot(swung_axis(x, y, z, s, c), swung_axis(x, y, z, s, c)) == 1real,
{
    let v = swung_axis(x, y, z, s, c);
    let q = y * y + z * z;
    let (a, b, e, g) = (s * z, c * (x * y), s * y, c * (x * z));
    // the diagonal entry
    lemma_neg(q, c);
    lemma_comm(c, q);
    lemma_comm(c, -q);
    assert(v.x == 1real - c * q);
    lemma_foil(1real, c * q, 1real, c * q);
    assert((c * q) * (c * q) == (c * c) * (q * q)) by (nonlinear_arith);
    assert(1real * (c * q) == c * q && (c * q) * 1real == c * q && 1real * 1real == 1real)
        by (nonlinear_arith);
    assert(v.x * v.x == 1real - 2real * (c * q) + (c * c) * (q * q));
    // the other two
    lemma_foil_add(a, b, a, b);
    lemma_comm(a, b);
    assert(-e + g == g - e);
    lemma_foil(g, e, g, e);
    lemma_comm(g, e);
    assert((s * z) * (s * z) == (s * s) * (z * z)) by (nonlinear_arith);
    assert((s * y) * (s * y) == (s * s) * (y * y)) by (nonlinear_arith);
    assert((c * (x * y)) * (c * (x * y)) == (c * c) * ((x * x) * (y * y))) by (nonlinear_arith);
    assert((c * (x * z)) * (c * (x * z)) == (c * c) * ((x * x) * (z * z))) by (nonlinear_arith);
    assert((s * z) * (c * (x * y)) == (s * y) * (c * (x * z))) by (nonlinear_arith);
    lemma_dist(s * s, y * y, z * z);
    lemma_dist(x * x, y * y, z * z);
    lemma_dist(c * c, (x * x) * (y * y), (x * x) * (z * z));
    assert(v.y * v.y + v.z * v.z == (s * s) * q + (c * c) * ((x * x) * q));
    // together
    lemma_dist(q, x * x, q);
    lemma_dist(c * c, (x * x) * q, q * q);
    assert(q * 1real == q && 1real * q == q) by (nonlinear_arith);
    lemma_comm(x * x, q);
    assert((x * x) * q + q * q == q);
    lemma_dist(q, s * s, c * c);
    assert((2real * c) * q == 2real * (c * q)) by (nonlinear_arith);
}

/// A swung axis is orthogonal to the next one.
pub proof fn lemma_swung_axes_are_orthogonal(x: real, y: real, z: real, s: real, c: real)
    requires
        x * x + y * y + z * z == 1real,
        s * s + c * c == 2real * c,
    ensures
        ({
            let v = swung_axis(x, y, z, s, c);
            let n = swung_axis(y, z, x, s, c);
            v.x * n.z + v.y * n.x + v.z * n.y == 0real
        }),
{
    let v = swung_axis(x, y, z, s, c);
    let n = swung_axis(y, z, x, s, c);
    let (xx, yy, zz) = (x * x, y * y, z * z);
    let (q, r) = (yy + zz, zz + xx);
    let (sz, m) = (s * z, x * y);
    let cm = c * m;
    lemma_comm(y, x);
    lemma_neg(q, c);
    lemma_neg(r, c);
    lemma_comm(c, q);
    lemma_comm(c, -q);
    lemma_comm(c, r);
    lemma_comm(c, -r);
    assert(v.x == 1real - c * q);
    assert(n.x == 1real - c * r);
    assert(n.z == cm - sz);
    assert(v.y == cm + sz);
    assert(1real * cm == cm && 1real * sz == sz && cm * 1real == cm && sz * 1real == sz)
        by (nonlinear_arith);
    lemma_foil(1real, c * q, cm, sz);
    lemma_foil_mixed(cm, sz, 1real, c * r);
    lemma_comm(cm, c * r);
    lemma_comm(sz, c * r);
    // v.x * n.z + v.y * n.x == 2 cm - (cq + cr) cm + (cq - cr) sz
    let (cq, cr) = (c * q, c * r);
    assert(v.x * n.z == cm - sz - cq * cm + cq * sz);
    assert(v.y * n.x == cm - cr * cm + sz - cr * sz);
    // the last product
    let (sx, sy, cyz, cxz) = (s * x, s * y, c * (y * z), c * (x * z));
    assert(n.y == sx + cyz);
    assert(v.z == cxz - sy);
    lemma_foil_mixed(cxz, sy, sx, cyz);
    assert((c * (x * z)) * (s * x) == (c * (x * x)) * (s * z)) by (nonlinear_arith);
    assert((c * (x * z)) * (c * (y * z)) == (c * (z * z)) * (c * (x * y))) by (nonlinear_arith);
    assert((s * y) * (s * x) == (s * s) * (x * y)) by (nonlinear_arith);
    assert((s * y) * (c * (y * z)) == (c * (y * y)) * (s * z)) by (nonlinear_arith);
    assert(v.z * n.y == (c * xx) * sz + (c * zz) * cm - (s * s) * m - (c * yy) * sz);
    // the sine terms cancel
    lemma_dist(c, yy, zz);
    lemma_dist(c, zz, xx);
    lemma_dist(sz, c * yy, c * zz);
    lemma_dist(sz, c * zz, c * xx);
    lemma_dist(cm, c * yy, c * zz);
    lemma_dist(cm, c * zz, c * xx);
    assert(cq * sz == (c * yy) * sz + (c * zz) * sz);
    assert(cr * sz == (c * zz) * sz + (c * xx) * sz);
    // and so do the others
    lemma_dist(c, xx, yy);
    lemma_dist(c, xx + yy, zz);
    assert(c * 1real == c) by (nonlinear_arith);
    assert(c * xx + c * yy + c * zz == c);
    lemma_dist(cm, c * xx, c * yy);
    lemma_dist(cm, c * xx + c * yy, c * zz);
    assert((c * xx) * cm + (c * yy) * cm + (c * zz) * cm == c * cm);
    lemma_assoc(c, c, m);
    lemma_dist(m, s * s, c * c);
    assert((2real * c) * m == 2real * (c * m)) by (nonlinear_arith);
}

// ---------------------------------------------------------------------------
// Orthonormal frames
// ---------------------------------------------------------------------------
/// The vector with coordinates `p` in the frame `a`, `b`, `c`.
pub open spec fn in_frame(a: Row3, b: Row3, c: Row3, p: Row3) -> Row3 {
    Row3 {
        x: a.x * p.x + b.x * p.y + c.x * p.z,
        y: a.y * p.x + b.y * p.y + c.y * p.z,
        z: a.z * p.x + b.z * p.y + c.z * p.z,
    }
}

proof fn lemma_times_sum3(a: real, p: real, b: real, q: real, c: real, r: real, w: real)
    ensures
        (a * p + b * q + c * r) * w == p * (a * w) + q * (b * w) + r * (c * w),
{
    lemma_dist(w, a * p, b * q);
    lemma_dist(w, a * p + b * q, c * r);
    assert((a * p) * w == p * (a * w)) by (nonlinear_arith);
    assert((b * q) * w == q * (b * w)) by (nonlinear_arith);
    assert((c * r) * w == r * (c * w)) by (nonlinear_arith);
}

/// The inner product with a vector given in a frame.
pub proof fn lemma_dot_in_frame(a: Row3, b: Row3, c: Row3, p: Row3, w: Row3)
    ensures
        dot(in_frame(a, b, c, p), w) == p.x * dot(a, w) + p.y * dot(b, w) + p.z * dot(c, w),
{
    lemma_times_sum3(a.x, p.x, b.x, p.y, c.x, p.z, w.x);
    lemma_times_sum3(a.y, p.x, b.y, p.y, c.y, p.z, w.y);
    lemma_times_sum3(a.z, p.x, b.z, p.y, c.z, p.z, w.z);
    lemma_dist(p.x, a.x * w.x, a.y * w.y);
    lemma_dist(p.x, a.x * w.x + a.y * w.y, a.z * w.z);
    lemma_dist(p.y, b.x * w.x, b.y * w.y);
    lemma_dist(p.y, b.x * w.x + b.y * w.y, b.z * w.z);
    lemma_dist(p.z, c.x * w.x, c.y * w.y);
    lemma_dist(p.z, c.x * w.x + c.y * w.y, c.z * w.z);
}

/// Inner products are the same in every orthonormal frame.
pub proof fn lemma_frame_keeps_dot(a: Row3, b: Row3, c: Row3, p: Row3, q: Row3)
    requires
        dot(a, a) == 1real,
        dot(b, b) == 1real,
        dot(c, c) == 1real,
        dot(a, b) == 0real,
        dot(b, c) == 0real,
        dot(c, a) == 0real,
    ensures
        dot(in_frame(a, b, c, p), in_frame(a, b, c, q)) == dot(p, q),
{
    let v = in_frame(a, b, c, q);
    lemma_dot_in_frame(a, b, c, p, v);
    lemma_dot_in_frame(a, b, c, q, a);
    lemma_dot_in_frame(a, b, c, q, b);
    lemma_dot_in_frame(a, b, c, q, c);
    lemma_dot_comm(v, a);
    lemma_dot_comm(v, b);
    lemma_dot_comm(v, c);
    lemma_dot_comm(a, b);
    lemma_dot_comm(b, c);
    lemma_dot_comm(c, a);
    assert(q.x * 1real == q.x && q.y * 1real == q.y && q.z * 1real == q.z) by (nonlinear_arith);
    assert(q.x * 0real == 0real && q.y * 0real == 0real && q.z * 0real == 0real)
        by (nonlinear_arith);
}

} // verus!
