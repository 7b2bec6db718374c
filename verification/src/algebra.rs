//! Identities of vectors and 3x3 matrices over the integers.

use vstd::prelude::*;
use crate::linear::{is_root, root_of, signum, Mat3, Vec3};

verus! {

/// A factor distributes over a difference of two products.
proof fn lemma_distribute(x: int, p: int, q: int, r: int, s: int)
    by (nonlinear_arith)
    ensures
        x * (p * q - r * s) == x * p * q - x * r * s,
{
}

/// A product of three factors does not depend on their order.
proof fn lemma_permute(x: int, y: int, z: int)
    by (nonlinear_arith)
    ensures
        x * y * z == y * z * x,
        x * y * z == z * x * y,
        x * y * z == x * z * y,
        x * y * z == y * x * z,
        x * y * z == z * y * x,
{
}

/// The triple product written out as its six products of three entries.
proof fn lemma_triple_product_expands(a: Vec3, b: Vec3, c: Vec3)
    ensures
        a.dot(b.cross(c)) == a.x * b.y * c.z - a.x * b.z * c.y + a.y * b.z * c.x - a.y * b.x * c.z
            + a.z * b.x * c.y - a.z * b.y * c.x,
{
    lemma_distribute(a.x, b.y, c.z, b.z, c.y);
    lemma_distribute(a.y, b.z, c.x, b.x, c.z);
    lemma_distribute(a.z, b.x, c.y, b.y, c.x);
}

/// A vector is orthogonal to each cross product that it enters.
pub proof fn lemma_cross_orthogonal(u: Vec3, v: Vec3)
    ensures
        u.dot(u.cross(v)) == 0,
        u.dot(v.cross(u)) == 0,
{
    lemma_triple_product_expands(u, u, v);
    lemma_triple_product_expands(u, v, u);
    lemma_permute(u.x, u.y, v.z);
    lemma_permute(u.x, u.z, v.y);
    lemma_permute(u.y, u.z, v.x);
    lemma_permute(u.x, v.y, u.z);
    lemma_permute(u.x, v.z, u.y);
    lemma_permute(u.y, v.z, u.x);
    lemma_permute(u.y, v.x, u.z);
    lemma_permute(u.z, v.x, u.y);
    lemma_permute(u.z, v.y, u.x);
}

/// The triple product is unchanged when its three vectors are rotated.
pub proof fn lemma_triple_product_cyclic(a: Vec3, b: Vec3, c: Vec3)
    ensures
        a.dot(b.cross(c)) == b.dot(c.cross(a)),
        a.dot(b.cross(c)) == c.dot(a.cross(b)),
{
    lemma_triple_product_expands(a, b, c);
    lemma_triple_product_expands(b, c, a);
    lemma_triple_product_expands(c, a, b);
    lemma_permute(a.x, b.y, c.z);
    lemma_permute(a.x, b.z, c.y);
    lemma_permute(a.y, b.z, c.x);
    lemma_permute(a.y, b.x, c.z);
    lemma_permute(a.z, b.x, c.y);
    lemma_permute(a.z, b.y, c.x);
}

/// Two directions and their cross product have the squared length of the
/// cross product as their determinant: they span the whole space unless the
/// cross product is zero.
pub proof fn lemma_basis_spans(u: Vec3, v: Vec3)
    ensures
        (Mat3 { x_axis: u, y_axis: v, z_axis: u.cross(v) }).determinant() == u.cross(v).dot(
            u.cross(v),
        ),
        (Mat3 { x_axis: u, y_axis: v, z_axis: u.cross(v) }).invertible() <==> u.cross(v)
            != Vec3::zero(),
{
    let n = u.cross(v);
    lemma_triple_product_cyclic(u, v, n);
    assert(n.x * n.x + n.y * n.y + n.z * n.z == 0 <==> n.x == 0 && n.y == 0 && n.z == 0)
        by (nonlinear_arith);
}

/// The determinant of the transpose is the determinant.
pub proof fn lemma_determinant_of_transpose(m: Mat3)
    ensures
        m.transpose().determinant() == m.determinant(),
{
    let t = m.transpose();
    lemma_triple_product_expands(m.x_axis, m.y_axis, m.z_axis);
    lemma_triple_product_expands(t.x_axis, t.y_axis, t.z_axis);
    lemma_permute(m.x_axis.x, m.y_axis.y, m.z_axis.z);
    lemma_permute(m.x_axis.x, m.y_axis.z, m.z_axis.y);
    lemma_permute(m.x_axis.y, m.y_axis.z, m.z_axis.x);
    lemma_permute(m.x_axis.y, m.y_axis.x, m.z_axis.z);
    lemma_permute(m.x_axis.z, m.y_axis.x, m.z_axis.y);
    lemma_permute(m.x_axis.z, m.y_axis.y, m.z_axis.x);
}

/// The cofactors of the transpose are the transposed cofactors.
pub proof fn lemma_cofactors_of_transpose(m: Mat3)
    ensures
        m.transpose().cofactors() == m.cofactors().transpose(),
{
    let l = m.transpose().cofactors();
    let r = m.cofactors().transpose();
    assert(l.x_axis == r.x_axis) by (nonlinear_arith)
        requires
            l == m.transpose().cofactors(),
            r == m.cofactors().transpose(),
    ;
    assert(l.y_axis == r.y_axis) by (nonlinear_arith)
        requires
            l == m.transpose().cofactors(),
            r == m.cofactors().transpose(),
    ;
    assert(l.z_axis == r.z_axis) by (nonlinear_arith)
        requires
            l == m.transpose().cofactors(),
            r == m.cofactors().transpose(),
    ;
}

/// Transposing a product reverses its factors.
pub proof fn lemma_transpose_of_product(m: Mat3, n: Mat3)
    ensures
        m.times(n).transpose() == n.transpose().times(m.transpose()),
{
    let l = m.times(n).transpose();
    let r = n.transpose().times(m.transpose());
    assert(l.x_axis == r.x_axis) by (nonlinear_arith)
        requires
            l == m.times(n).transpose(),
            r == n.transpose().times(m.transpose()),
    ;
    assert(l.y_axis == r.y_axis) by (nonlinear_arith)
        requires
            l == m.times(n).transpose(),
            r == n.transpose().times(m.transpose()),
    ;
    assert(l.z_axis == r.z_axis) by (nonlinear_arith)
        requires
            l == m.times(n).transpose(),
            r == n.transpose().times(m.transpose()),
    ;
}

/// The adjugate times the matrix is the identity scaled by the determinant.
pub proof fn lemma_adjugate_inverts_left(m: Mat3)
    ensures
        m.adjugate().times(m) == Mat3::identity().scaled(m.determinant()),
{
    let a = m.x_axis;
    let b = m.y_axis;
    let c = m.z_axis;
    lemma_triple_product_cyclic(a, b, c);
    lemma_cross_orthogonal(a, b);
    lemma_cross_orthogonal(b, c);
    lemma_cross_orthogonal(c, a);
    lemma_cross_orthogonal(a, c);
    lemma_cross_orthogonal(b, a);
    lemma_cross_orthogonal(c, b);
}

/// A matrix times its adjugate, in either order, is the identity scaled by
/// the determinant.
pub proof fn lemma_adjugate_inverts(m: Mat3)
    ensures
        m.times(m.adjugate()) == Mat3::identity().scaled(m.determinant()),
        m.adjugate().times(m) == Mat3::identity().scaled(m.determinant()),
{
    lemma_adjugate_inverts_left(m);
    let t = m.transpose();
    lemma_adjugate_inverts_left(t);
    lemma_determinant_of_transpose(m);
    lemma_cofactors_of_transpose(m);
    assert(t.adjugate() == m.cofactors());
    assert(t.transpose() == m);
    lemma_transpose_of_product(m, m.adjugate());
    assert(m.times(m.adjugate()).transpose() == m.cofactors().times(t));
    assert(m.times(m.adjugate()) == m.times(m.adjugate()).transpose().transpose());
}

/// A combination of three terms whose weights are sums splits in two.
proof fn lemma_combination_splits(a: int, b: int, c: int, d: int, e: int, f: int, p: int, q: int, r: int)
    by (nonlinear_arith)
    ensures
        (a + d) * p + (b + e) * q + (c + f) * r == (a * p + b * q + c * r) + (d * p + e * q + f * r),
{
}

/// A product of three factors may be bracketed either way.
proof fn lemma_associate(k: int, a: int, p: int)
    by (nonlinear_arith)
    ensures
        (k * a) * p == k * (a * p),
{
}

/// A factor distributes over a sum of three terms.
proof fn lemma_distribute_sum(k: int, x: int, y: int, z: int)
    by (nonlinear_arith)
    ensures
        k * (x + y + z) == k * x + k * y + k * z,
{
}

/// A common factor of the weights of a combination can be taken out.
proof fn lemma_combination_scales(k: int, a: int, b: int, c: int, p: int, q: int, r: int)
    ensures
        (k * a) * p + (k * b) * q + (k * c) * r == k * (a * p + b * q + c * r),
{
    lemma_associate(k, a, p);
    lemma_associate(k, b, q);
    lemma_associate(k, c, r);
    lemma_distribute_sum(k, a * p, b * q, c * r);
}

/// Applying a matrix to a sum gives the sum of the images.
pub proof fn lemma_apply_additive(m: Mat3, u: Vec3, v: Vec3)
    ensures
        m.apply(u.plus(v)) == m.apply(u).plus(m.apply(v)),
{
    lemma_combination_splits(u.x, u.y, u.z, v.x, v.y, v.z, m.x_axis.x, m.y_axis.x, m.z_axis.x);
    lemma_combination_splits(u.x, u.y, u.z, v.x, v.y, v.z, m.x_axis.y, m.y_axis.y, m.z_axis.y);
    lemma_combination_splits(u.x, u.y, u.z, v.x, v.y, v.z, m.x_axis.z, m.y_axis.z, m.z_axis.z);
}

/// Applying a matrix to a scaled vector gives the scaled image.
pub proof fn lemma_apply_homogeneous(m: Mat3, v: Vec3, k: int)
    ensures
        m.apply(v.scaled(k)) == m.apply(v).scaled(k),
{
    lemma_combination_scales(k, v.x, v.y, v.z, m.x_axis.x, m.y_axis.x, m.z_axis.x);
    lemma_combination_scales(k, v.x, v.y, v.z, m.x_axis.y, m.y_axis.y, m.z_axis.y);
    lemma_combination_scales(k, v.x, v.y, v.z, m.x_axis.z, m.y_axis.z, m.z_axis.z);
}

/// Applying two matrices in turn is applying their product.
pub proof fn lemma_apply_product(m: Mat3, n: Mat3, v: Vec3)
    ensures
        m.apply(n.apply(v)) == m.times(n).apply(v),
{
    let a = n.x_axis.scaled(v.x);
    let b = n.y_axis.scaled(v.y);
    let c = n.z_axis.scaled(v.z);
    lemma_apply_additive(m, a.plus(b), c);
    lemma_apply_additive(m, a, b);
    lemma_apply_homogeneous(m, n.x_axis, v.x);
    lemma_apply_homogeneous(m, n.y_axis, v.y);
    lemma_apply_homogeneous(m, n.z_axis, v.z);
}

/// The identity scaled by `k` scales every vector by `k`.
pub proof fn lemma_apply_scaled_identity(k: int, v: Vec3)
    ensures
        Mat3::identity().scaled(k).apply(v) == v.scaled(k),
{
    let l = Mat3::identity().scaled(k).apply(v);
    let r = v.scaled(k);
    assert(l.x == r.x) by (nonlinear_arith)
        requires
            l == Mat3::identity().scaled(k).apply(v),
            r == v.scaled(k),
    ;
    assert(l.y == r.y) by (nonlinear_arith)
        requires
            l == Mat3::identity().scaled(k).apply(v),
            r == v.scaled(k),
    ;
    assert(l.z == r.z) by (nonlinear_arith)
        requires
            l == Mat3::identity().scaled(k).apply(v),
            r == v.scaled(k),
    ;
}

/// A factor of a weight can be taken to the front of the product.
proof fn lemma_factor_forward(a: int, k: int, p: int)
    by (nonlinear_arith)
    ensures
        a * (k * p) == k * (a * p),
{
}

/// Applying a scaled matrix gives the scaled image.
pub proof fn lemma_scaled_apply(m: Mat3, k: int, v: Vec3)
    ensures
        m.scaled(k).apply(v) == m.apply(v).scaled(k),
{
    lemma_factor_forward(v.x, k, m.x_axis.x);
    lemma_factor_forward(v.y, k, m.y_axis.x);
    lemma_factor_forward(v.z, k, m.z_axis.x);
    lemma_distribute_sum(k, v.x * m.x_axis.x, v.y * m.y_axis.x, v.z * m.z_axis.x);
    lemma_factor_forward(v.x, k, m.x_axis.y);
    lemma_factor_forward(v.y, k, m.y_axis.y);
    lemma_factor_forward(v.z, k, m.z_axis.y);
    lemma_distribute_sum(k, v.x * m.x_axis.y, v.y * m.y_axis.y, v.z * m.z_axis.y);
    lemma_factor_forward(v.x, k, m.x_axis.z);
    lemma_factor_forward(v.y, k, m.y_axis.z);
    lemma_factor_forward(v.z, k, m.z_axis.z);
    lemma_distribute_sum(k, v.x * m.x_axis.z, v.y * m.y_axis.z, v.z * m.z_axis.z);
}

/// Scaling twice is scaling by the product.
pub proof fn lemma_scaled_twice(v: Vec3, j: int, k: int)
    ensures
        v.scaled(j).scaled(k) == v.scaled(k * j),
{
    lemma_associate(k, j, v.x);
    lemma_associate(k, j, v.y);
    lemma_associate(k, j, v.z);
}

/// For an invertible matrix, the numerators of the inverse applied after or
/// before the matrix scale every vector by the denominator, which is
/// positive: numerators over denominator is the inverse.
pub proof fn lemma_inverse_inverts(m: Mat3, v: Vec3)
    requires
        m.invertible(),
    ensures
        m.inverse_denominator() > 0,
        m.inverse_numerators().apply(m.apply(v)) == v.scaled(m.inverse_denominator()),
        m.apply(m.inverse_numerators().apply(v)) == v.scaled(m.inverse_denominator()),
{
    let d = m.determinant();
    let s = signum(d);
    let adj = m.adjugate();
    lemma_adjugate_inverts(m);
    // numerators * (m * v) = s * (adj * m) * v = s * d * v
    lemma_scaled_apply(adj, s, m.apply(v));
    lemma_apply_product(adj, m, v);
    lemma_apply_scaled_identity(d, v);
    lemma_scaled_twice(v, d, s);
    // m * (numerators * v) = s * (m * adj) * v = s * d * v
    lemma_scaled_apply(adj, s, v);
    lemma_apply_homogeneous(m, adj.apply(v), s);
    lemma_apply_product(m, adj, v);
    assert(s * d == d * s) by (nonlinear_arith);
}

/// Numerators over denominator is the inverse, as a product of matrices: in
/// either order the matrix times the numerators is the identity scaled by
/// the denominator, which is positive.
pub proof fn lemma_inverse_is_inverse(m: Mat3)
    requires
        m.invertible(),
    ensures
        m.inverse_denominator() > 0,
        m.times(m.inverse_numerators()) == Mat3::identity().scaled(m.inverse_denominator()),
        m.inverse_numerators().times(m) == Mat3::identity().scaled(m.inverse_denominator()),
{
    let d = m.determinant();
    let s = signum(d);
    let adj = m.adjugate();
    let unit = Mat3::identity();
    lemma_adjugate_inverts(m);
    lemma_apply_homogeneous(m, adj.x_axis, s);
    lemma_apply_homogeneous(m, adj.y_axis, s);
    lemma_apply_homogeneous(m, adj.z_axis, s);
    lemma_scaled_apply(adj, s, m.x_axis);
    lemma_scaled_apply(adj, s, m.y_axis);
    lemma_scaled_apply(adj, s, m.z_axis);
    lemma_scaled_twice(unit.x_axis, d, s);
    lemma_scaled_twice(unit.y_axis, d, s);
    lemma_scaled_twice(unit.z_axis, d, s);
    assert(s * d == d * s) by (nonlinear_arith);
}

/// The product of two bounded integers is bounded by the product of the
/// bounds.
pub proof fn lemma_product_bound(a: int, b: int, m: int, n: int)
    by (nonlinear_arith)
    requires
        -m <= a <= m,
        -n <= b <= n,
    ensures
        -(m * n) <= a * b <= m * n,
{
}

/// A product of four factors bracketed two ways.
pub proof fn lemma_associate_product(a: int, k: int, b: int, x: int)
    by (nonlinear_arith)
    ensures
        a * (k * (b * x)) == (b * (a * k)) * x,
{
}

/// A factor of the second factor can be taken to the first.
proof fn lemma_factor_across(p: int, k: int, q: int)
    by (nonlinear_arith)
    ensures
        p * (k * q) == (k * p) * q,
{
}

/// A matrix whose first two columns are scaled by `a` and whose third is
/// scaled by `b` acts as the matrix does on a vector stretched by the same
/// factors.
pub proof fn lemma_apply_scaled_columns(m: Mat3, v: Vec3, a: int, b: int)
    ensures
        (Mat3 { x_axis: m.x_axis.scaled(a), y_axis: m.y_axis.scaled(a), z_axis: m.z_axis.scaled(b) })
            .apply(v) == m.apply(v.stretched(a, b)),
{
    lemma_factor_across(v.x, a, m.x_axis.x);
    lemma_factor_across(v.y, a, m.y_axis.x);
    lemma_factor_across(v.z, b, m.z_axis.x);
    lemma_factor_across(v.x, a, m.x_axis.y);
    lemma_factor_across(v.y, a, m.y_axis.y);
    lemma_factor_across(v.z, b, m.z_axis.y);
    lemma_factor_across(v.x, a, m.x_axis.z);
    lemma_factor_across(v.y, a, m.y_axis.z);
    lemma_factor_across(v.z, b, m.z_axis.z);
}

/// A matrix whose columns are stretched acts as the matrix does, followed by
/// the stretch.
pub proof fn lemma_apply_stretched_columns(m: Mat3, v: Vec3, a: int, b: int)
    ensures
        (Mat3 {
            x_axis: m.x_axis.stretched(a, b),
            y_axis: m.y_axis.stretched(a, b),
            z_axis: m.z_axis.stretched(a, b),
        }).apply(v) == m.apply(v).stretched(a, b),
{
    lemma_factor_forward(v.x, a, m.x_axis.x);
    lemma_factor_forward(v.y, a, m.y_axis.x);
    lemma_factor_forward(v.z, a, m.z_axis.x);
    lemma_distribute_sum(a, v.x * m.x_axis.x, v.y * m.y_axis.x, v.z * m.z_axis.x);
    lemma_factor_forward(v.x, a, m.x_axis.y);
    lemma_factor_forward(v.y, a, m.y_axis.y);
    lemma_factor_forward(v.z, a, m.z_axis.y);
    lemma_distribute_sum(a, v.x * m.x_axis.y, v.y * m.y_axis.y, v.z * m.z_axis.y);
    lemma_factor_forward(v.x, b, m.x_axis.z);
    lemma_factor_forward(v.y, b, m.y_axis.z);
    lemma_factor_forward(v.z, b, m.z_axis.z);
    lemma_distribute_sum(b, v.x * m.x_axis.z, v.y * m.y_axis.z, v.z * m.z_axis.z);
}

/// A factor of one side of a cross product is a factor of the product.
pub proof fn lemma_scaled_cross(u: Vec3, v: Vec3, k: int)
    ensures
        u.cross(v.scaled(k)) == u.cross(v).scaled(k),
{
    let l = u.cross(v.scaled(k));
    let r = u.cross(v).scaled(k);
    assert(l.x == r.x) by (nonlinear_arith)
        requires
            l.x == u.y * (k * v.z) - u.z * (k * v.y),
            r.x == k * (u.y * v.z - u.z * v.y),
    ;
    assert(l.y == r.y) by (nonlinear_arith)
        requires
            l.y == u.z * (k * v.x) - u.x * (k * v.z),
            r.y == k * (u.z * v.x - u.x * v.z),
    ;
    assert(l.z == r.z) by (nonlinear_arith)
        requires
            l.z == u.x * (k * v.y) - u.y * (k * v.x),
            r.z == k * (u.x * v.y - u.y * v.x),
    ;
}

/// Exchanging the sides of a cross product changes its sign.
pub proof fn lemma_cross_exchanged(u: Vec3, v: Vec3)
    ensures
        v.cross(u) == u.cross(v).scaled(-1),
{
    let l = v.cross(u);
    let r = u.cross(v).scaled(-1);
    assert(l.x == r.x) by (nonlinear_arith)
        requires
            l.x == v.y * u.z - v.z * u.y,
            r.x == -1 * (u.y * v.z - u.z * v.y),
    ;
    assert(l.y == r.y) by (nonlinear_arith)
        requires
            l.y == v.z * u.x - v.x * u.z,
            r.y == -1 * (u.z * v.x - u.x * v.z),
    ;
    assert(l.z == r.z) by (nonlinear_arith)
        requires
            l.z == v.x * u.y - v.y * u.x,
            r.z == -1 * (u.x * v.y - u.y * v.x),
    ;
}

/// A factor of one side of a dot product is a factor of the product.
pub proof fn lemma_scaled_dot(u: Vec3, v: Vec3, k: int)
    ensures
        u.dot(v.scaled(k)) == k * u.dot(v),
{
    lemma_factor_forward(u.x, k, v.x);
    lemma_factor_forward(u.y, k, v.y);
    lemma_factor_forward(u.z, k, v.z);
    lemma_distribute_sum(k, u.x * v.x, u.y * v.y, u.z * v.z);
}

/// The square of a product is the product of the squares.
proof fn lemma_square_of_product(s: int, x: int)
    by (nonlinear_arith)
    ensures
        (s * x) * (s * x) == (s * s) * (x * x),
        (s * x) * (s * x) >= 0,
{
}

/// A vector scaled by `s` has `s * s` times the squared length.
pub proof fn lemma_scaled_length(v: Vec3, s: int)
    ensures
        v.scaled(s).dot(v.scaled(s)) == s * s * v.dot(v),
        v.dot(v) >= 0,
        v.dot(v) == 0 <==> v == Vec3::zero(),
{
    lemma_square_of_product(s, v.x);
    lemma_square_of_product(s, v.y);
    lemma_square_of_product(s, v.z);
    lemma_distribute_sum(s * s, v.x * v.x, v.y * v.y, v.z * v.z);
    assert(v.x * v.x + v.y * v.y + v.z * v.z == 0 <==> v.x == 0 && v.y == 0 && v.z == 0)
        by (nonlinear_arith);
    assert(v.x * v.x >= 0 && v.y * v.y >= 0 && v.z * v.z >= 0) by (nonlinear_arith);
}

/// Squaring keeps the order of numbers that are not below zero.
pub proof fn lemma_square_order(a: int, b: int)
    by (nonlinear_arith)
    requires
        0 <= a <= b,
    ensures
        a * a <= b * b,
{
}

/// `root_of` gives the integer square root.
pub proof fn lemma_root_of_is_root(n: nat)
    ensures
        is_root(root_of(n) as int, n as int),
    decreases n,
{
    if n > 0 {
        lemma_root_of_is_root((n - 1) as nat);
        let r = root_of((n - 1) as nat) as int;
        assert((r + 2) * (r + 2) == (r + 1) * (r + 1) + 2 * r + 3) by (nonlinear_arith);
        assert((r + 1) * (r + 1) == r * r + 2 * r + 1) by (nonlinear_arith);
    }
}

/// A number has one integer square root: whatever passes for it is
/// `root_of`.
pub proof fn lemma_root_is_unique(r: int, s: int, n: int)
    requires
        n >= 0,
        is_root(r, n),
        s == root_of(n as nat),
    ensures
        r == s,
{
    lemma_root_of_is_root(n as nat);
    if r < s {
        lemma_square_order(r + 1, s);
    }
    if s < r {
        lemma_square_order(s + 1, r);
    }
}

} // verus!
