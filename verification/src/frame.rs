//! Frames in space and the affine maps that set them up.

use vstd::prelude::*;
use vstd::arithmetic::div_mod::lemma_fundamental_div_mod;
use crate::algebra::{
    lemma_apply_homogeneous,
    lemma_apply_scaled_columns,
    lemma_apply_stretched_columns,
    lemma_associate_product,
    lemma_basis_spans,
    lemma_cross_orthogonal,
    lemma_inverse_inverts,
    lemma_product_bound,
    lemma_root_is_unique,
    lemma_root_of_is_root,
    lemma_scaled_length,
    lemma_scaled_twice,
    lemma_square_order,
    lemma_triple_product_cyclic,
};
use crate::linear::{integer_root, root_of, Direction, Mat3, Matrix3, Vec3, Vector3};
use crate::point::{lemma_scaled_is_same, Position};

verus! {

/// A frame in space: an origin and three axes. The first two axes are the
/// first two columns of `axes`; the third axis is the third column times
/// `normal_num / normal_den`.
pub struct Frame {
    pub origin: Vec3,
    pub axes: Mat3,
    pub normal_num: int,
    pub normal_den: int,
}

impl Frame {
    /// Whether the axes span the space, so that every position has
    /// coordinates in the frame.
    pub open spec fn valid(self) -> bool {
        self.axes.invertible() && self.normal_num > 0 && self.normal_den > 0
    }

    /// Whether the frame is one that an `AffineTransform` holds: the scale
    /// of the third axis is one, or the first two axes are within 2^15; and
    /// the third column times the numerator of the scale is within 2^31.
    pub open spec fn compact(self) -> bool {
        &&& 1 <= self.normal_num <= 0x8000_0000
        &&& 1 <= self.normal_den <= 0xffff_ffff
        &&& self.axes.x_axis.within(0x8000_0000)
        &&& self.axes.y_axis.within(0x8000_0000)
        &&& self.axes.z_axis.scaled(self.normal_num).within(0x8000_0000)
        &&& self.origin.within(0x8000_0000)
        &&& (self.normal_num == 1 && self.normal_den == 1) || (self.axes.x_axis.within(0x8000)
            && self.axes.y_axis.within(0x8000))
    }

    /// The three axes as the columns of a matrix, over the common
    /// denominator `normal_den`.
    pub open spec fn rotation_numerators(self) -> Mat3 {
        Mat3 {
            x_axis: self.axes.x_axis.scaled(self.normal_den),
            y_axis: self.axes.y_axis.scaled(self.normal_den),
            z_axis: self.axes.z_axis.scaled(self.normal_num),
        }
    }

    /// The numerators of the inverse of the three axes: those of the inverse
    /// of `axes`, with the scale of the third axis taken out of the third
    /// row.
    pub open spec fn inverse_numerators(self) -> Mat3 {
        self.axes.inverse_numerators_with(self.normal_num, self.normal_den)
    }

    /// The denominator of the inverse of the three axes.
    pub open spec fn inverse_denominator(self) -> int {
        self.normal_num * self.axes.inverse_denominator()
    }

    /// The factor by which a round trip through the frame multiplies
    /// numerators and denominator.
    pub open spec fn round_trip_factor(self) -> int {
        self.normal_den * self.inverse_denominator()
    }

    /// The squared length of the third axis, as `numerator / denominator`
    /// of the pair.
    pub open spec fn normal_length_squared(self) -> (int, int) {
        (
            self.normal_num * self.normal_num * self.axes.z_axis.dot(self.axes.z_axis),
            self.normal_den * self.normal_den,
        )
    }

    /// The position in space that has the coordinates `p` in the frame: the
    /// origin plus the axes weighted by the coordinates.
    pub open spec fn to_global(self, p: Position) -> Position {
        Position::over(
            self.origin.scaled(self.normal_den * p.w).plus(
                self.rotation_numerators().apply(p.numerators()),
            ),
            self.normal_den * p.w,
        )
    }

    /// The coordinates in the frame of the position `g` in space: the
    /// inverse of the axes applied to the offset of `g` from the origin.
    pub open spec fn to_local(self, g: Position) -> Position {
        Position::over(
            self.inverse_numerators().apply(g.numerators().minus(self.origin.scaled(g.w))),
            self.inverse_denominator() * g.w,
        )
    }

    /// Whether `g` lies in the plane of the first two axes through the
    /// origin: its third coordinate in the frame is zero.
    pub open spec fn on_plane(self, g: Position) -> bool {
        self.to_local(g).z == 0
    }
}

/// The numerators of the inverse applied after or before the numerators of
/// the axes scale every vector by the round-trip factor, which is positive:
/// inverse numerators over inverse denominator is the inverse of the axes.
pub proof fn lemma_frame_inverse_inverts(frame: Frame, v: Vec3)
    requires
        frame.valid(),
    ensures
        frame.inverse_denominator() > 0,
        frame.round_trip_factor() > 0,
        frame.inverse_numerators().apply(frame.rotation_numerators().apply(v)) == v.scaled(
            frame.round_trip_factor(),
        ),
        frame.rotation_numerators().apply(frame.inverse_numerators().apply(v)) == v.scaled(
            frame.round_trip_factor(),
        ),
{
    let num = frame.normal_num;
    let den = frame.normal_den;
    let k = frame.axes.inverse_denominator();
    let n = frame.axes.inverse_numerators();
    let f = frame.round_trip_factor();
    lemma_inverse_inverts(frame.axes, v);
    assert(num * k > 0 && den * (num * k) > 0) by (nonlinear_arith)
        requires
            num > 0,
            den > 0,
            k > 0,
    ;
    // inverse * (axes * v)
    let vs = v.stretched(den, num);
    lemma_apply_scaled_columns(frame.axes, v, den, num);
    lemma_apply_stretched_columns(n, frame.axes.apply(vs), num, den);
    lemma_inverse_inverts(frame.axes, vs);
    lemma_associate_product(num, k, den, v.x);
    lemma_associate_product(num, k, den, v.y);
    lemma_associate_product(den, k, num, v.z);
    assert(den * (k * (num * v.z)) == (den * (num * k)) * v.z) by (nonlinear_arith);
    assert(num * (k * (den * v.x)) == (den * (num * k)) * v.x) by (nonlinear_arith);
    assert(num * (k * (den * v.y)) == (den * (num * k)) * v.y) by (nonlinear_arith);
    assert(vs.scaled(k).stretched(num, den) == v.scaled(f));
    // axes * (inverse * v)
    let t = n.apply(v);
    let s = t.stretched(num, den);
    lemma_apply_stretched_columns(n, v, num, den);
    lemma_apply_scaled_columns(frame.axes, s, den, num);
    assert(den * (num * t.x) == (den * num) * t.x) by (nonlinear_arith);
    assert(den * (num * t.y) == (den * num) * t.y) by (nonlinear_arith);
    assert(num * (den * t.z) == (den * num) * t.z) by (nonlinear_arith);
    assert(s.stretched(den, num) == t.scaled(den * num));
    lemma_apply_homogeneous(frame.axes, t, den * num);
    lemma_scaled_twice(v, k, den * num);
    assert((den * num) * k == den * (num * k)) by (nonlinear_arith);
}

/// The axes times their inverse, in either order and as matrices of
/// numerators, are the identity scaled by the round-trip factor.
pub proof fn lemma_frame_inverse_is_inverse(frame: Frame)
    requires
        frame.valid(),
    ensures
        frame.round_trip_factor() > 0,
        frame.rotation_numerators().times(frame.inverse_numerators()) == Mat3::identity().scaled(
            frame.round_trip_factor(),
        ),
        frame.inverse_numerators().times(frame.rotation_numerators()) == Mat3::identity().scaled(
            frame.round_trip_factor(),
        ),
{
    let unit = Mat3::identity();
    let r = frame.rotation_numerators();
    let i = frame.inverse_numerators();
    lemma_frame_inverse_inverts(frame, unit.x_axis);
    lemma_frame_inverse_inverts(frame, unit.y_axis);
    lemma_frame_inverse_inverts(frame, unit.z_axis);
    assert(r.apply(unit.x_axis) == r.x_axis);
    assert(r.apply(unit.y_axis) == r.y_axis);
    assert(r.apply(unit.z_axis) == r.z_axis);
    assert(i.apply(unit.x_axis) == i.x_axis);
    assert(i.apply(unit.y_axis) == i.y_axis);
    assert(i.apply(unit.z_axis) == i.z_axis);
}

/// Taking coordinates in a frame to space and back gives the coordinates
/// again: the same position, with numerators and denominator multiplied by
/// the round-trip factor.
pub proof fn lemma_round_trip_from_local(frame: Frame, p: Position)
    requires
        frame.valid(),
        p.valid(),
    ensures
        frame.round_trip_factor() > 0,
        frame.to_global(p).valid(),
        frame.to_local(frame.to_global(p)).valid(),
        frame.to_local(frame.to_global(p)) == p.scaled(frame.round_trip_factor()),
        frame.to_local(frame.to_global(p)).same_as(p),
{
    let g = frame.to_global(p);
    let num = frame.normal_num;
    let den = frame.normal_den;
    let k = frame.axes.inverse_denominator();
    let offset = g.numerators().minus(frame.origin.scaled(g.w));
    assert(offset == frame.rotation_numerators().apply(p.numerators()));
    lemma_frame_inverse_inverts(frame, p.numerators());
    lemma_scaled_is_same(p, frame.round_trip_factor());
    assert(den * p.w > 0) by (nonlinear_arith)
        requires
            den > 0,
            p.w > 0,
    ;
    assert((num * k) * (den * p.w) == (den * (num * k)) * p.w) by (nonlinear_arith);
}

/// Taking a position in space to coordinates in a frame and back gives the
/// position again, with numerators and denominator multiplied by the
/// round-trip factor.
pub proof fn lemma_round_trip_from_global(frame: Frame, g: Position)
    requires
        frame.valid(),
        g.valid(),
    ensures
        frame.round_trip_factor() > 0,
        frame.to_local(g).valid(),
        frame.to_global(frame.to_local(g)).valid(),
        frame.to_global(frame.to_local(g)) == g.scaled(frame.round_trip_factor()),
        frame.to_global(frame.to_local(g)).same_as(g),
{
    let f = frame.round_trip_factor();
    let j = frame.inverse_denominator();
    let den = frame.normal_den;
    let o = frame.origin;
    let offset = g.numerators().minus(o.scaled(g.w));
    let l = frame.to_local(g);
    lemma_frame_inverse_inverts(frame, offset);
    lemma_scaled_is_same(g, f);
    assert(l.numerators() == frame.inverse_numerators().apply(offset));
    assert(j * g.w > 0) by (nonlinear_arith)
        requires
            j > 0,
            g.w > 0,
    ;
    assert(den * (j * g.w) == (den * j) * g.w) by (nonlinear_arith);
    assert((den * (j * g.w)) * o.x + (den * j) * (g.x - g.w * o.x) == (den * j) * g.x)
        by (nonlinear_arith);
    assert((den * (j * g.w)) * o.y + (den * j) * (g.y - g.w * o.y) == (den * j) * g.y)
        by (nonlinear_arith);
    assert((den * (j * g.w)) * o.z + (den * j) * (g.z - g.w * o.z) == (den * j) * g.z)
        by (nonlinear_arith);
}

/// Whether `c` lies along one of the three coordinate axes: two of its
/// components are zero.
pub open spec fn axis_aligned(c: Vec3) -> bool {
    (c.x == 0 && c.y == 0) || (c.x == 0 && c.z == 0) || (c.y == 0 && c.z == 0)
}

/// 1, 0 or -1 as `x` is above, at or below zero.
pub open spec fn direction_of(x: int) -> int {
    if x > 0 {
        1
    } else if x < 0 {
        -1
    } else {
        0
    }
}

/// The vector that the third column of a frame holds for the normal `c`:
/// the unit vector along `c` where `c` lies along a coordinate axis, and
/// `c` itself elsewhere.
pub open spec fn normal_axis(c: Vec3) -> Vec3 {
    if axis_aligned(c) {
        Vec3 { x: direction_of(c.x), y: direction_of(c.y), z: direction_of(c.z) }
    } else {
        c
    }
}

/// The scale that brings `normal_axis(c)` to unit length, as numerator and
/// denominator. Along a coordinate axis it is one. Where the length of `c`
/// is a whole number, it is one over the length. Elsewhere the numerator is
/// the greatest that keeps the scaled components within 2^31, and the
/// denominator is the integer square root of the squared length of `c`
/// scaled by the numerator.
pub open spec fn normal_scale(c: Vec3) -> (int, int) {
    let cc = c.dot(c);
    let t = root_of(cc as nat) as int;
    if axis_aligned(c) {
        (1, 1)
    } else if t * t == cc {
        (1, t)
    } else {
        let s = 0x8000_0000int / c.max_abs();
        (s, root_of((s * s * cc) as nat) as int)
    }
}

/// The frame at `center` whose first two axes are `u` and `v` and whose
/// third is their cross product brought to unit length.
pub open spec fn basis_frame(center: Vec3, u: Vec3, v: Vec3) -> Frame {
    Frame {
        origin: center,
        axes: Mat3 { x_axis: u, y_axis: v, z_axis: normal_axis(u.cross(v)) },
        normal_num: normal_scale(u.cross(v)).0,
        normal_den: normal_scale(u.cross(v)).1,
    }
}

/// Where the length of a normal off the coordinate axes is the whole number
/// `t`, the scale is one over `t`: the third axis has unit length exactly.
pub proof fn lemma_normal_scale_of_whole_length(c: Vec3, t: int)
    requires
        t >= 0,
        t * t == c.dot(c),
        !axis_aligned(c),
    ensures
        normal_scale(c) == (1int, t),
{
    assert((t + 1) * (t + 1) == t * t + 2 * t + 1) by (nonlinear_arith);
    lemma_root_is_unique(t, root_of(c.dot(c) as nat) as int, c.dot(c));
}

/// The frame of two directions that are not parallel is valid, and one that
/// an `AffineTransform` holds. Its third axis is orthogonal to both
/// directions, points to the side of their cross product, and has unit
/// length: the square of its length is at least one and exceeds one by at
/// most one part in 100000.
pub proof fn lemma_basis_frame_is_orthonormal(center: Vec3, u: Vec3, v: Vec3)
    requires
        u.within(0x8000),
        v.within(0x8000),
        u.cross(v) != Vec3::zero(),
    ensures
        basis_frame(center, u, v).valid(),
        center.within(0x8000_0000) ==> basis_frame(center, u, v).compact(),
        u.dot(basis_frame(center, u, v).axes.z_axis) == 0,
        v.dot(basis_frame(center, u, v).axes.z_axis) == 0,
        basis_frame(center, u, v).axes.z_axis.dot(u.cross(v)) > 0,
        basis_frame(center, u, v).normal_num > 0,
        basis_frame(center, u, v).normal_den > 0,
        ({
            let (n, d) = basis_frame(center, u, v).normal_length_squared();
            d <= n && 100000 * (n - d) <= d
        }),
{
    let c = u.cross(v);
    let cc = c.dot(c);
    let m = c.max_abs();
    let f = basis_frame(center, u, v);
    let z = f.axes.z_axis;
    lemma_basis_spans(u, v);
    lemma_cross_orthogonal(u, v);
    lemma_cross_orthogonal(v, u);
    lemma_scaled_length(c, 1);
    lemma_root_of_is_root(cc as nat);
    lemma_cross_bound(u, v);
    lemma_max_abs_bounds(c);
    let t = root_of(cc as nat) as int;
    assert(cc <= 3 * (m * m));
    assert(m * m <= 0x8000_0000 * 0x8000_0000) by {
        lemma_square_order(m, 0x8000_0000);
    }
    if axis_aligned(c) {
        lemma_triple_product_cyclic(u, v, z);
        assert(z.dot(c) > 0 && z.dot(z) == 1) by (nonlinear_arith)
            requires
                z == normal_axis(c),
                axis_aligned(c),
                c != Vec3::zero(),
        ;
        assert(u.dot(z) == 0) by (nonlinear_arith)
            requires
                u.dot(c) == 0,
                z == normal_axis(c),
                axis_aligned(c),
                c != Vec3::zero(),
        ;
        assert(v.dot(z) == 0) by (nonlinear_arith)
            requires
                v.dot(c) == 0,
                z == normal_axis(c),
                axis_aligned(c),
                c != Vec3::zero(),
        ;
        assert(f.axes.determinant() == z.dot(c));
        assert(1 * 1 * z.dot(z) == 1);
    } else if t * t == cc {
        assert(t >= 1);
        if t > 0xffff_ffff {
            lemma_square_order(0x1_0000_0000, t);
        }
        assert(1 * 1 * cc == cc);
    } else {
        let s = 0x8000_0000int / m;
        lemma_fundamental_div_mod(0x8000_0000, m);
        assert(m * s == s * m) by (nonlinear_arith);
        assert(s >= 1) by (nonlinear_arith)
            requires
                0x8000_0000 == s * m + 0x8000_0000int % m,
                0 <= 0x8000_0000int % m < m,
                1 <= m <= 0x8000_0000,
        ;
        assert(s * m >= m) by (nonlinear_arith)
            requires
                s >= 1,
                m >= 1,
        ;
        let sm = s * m;
        assert(0x4000_0000 < sm <= 0x8000_0000);
        let n = s * s * cc;
        lemma_scaled_length(c, s);
        assert(s * s * (m * m) == sm * sm) by (nonlinear_arith)
            requires
                sm == s * m,
        ;
        assert(s * s * (m * m) <= n && n <= 3 * (s * s * (m * m))) by (nonlinear_arith)
            requires
                n == s * s * cc,
                m * m <= cc <= 3 * (m * m),
        ;
        lemma_square_order(0x4000_0001, sm);
        lemma_square_order(sm, 0x8000_0000);
        lemma_root_of_is_root(n as nat);
        let d = root_of(n as nat) as int;
        if d + 1 <= 0x4000_0000 {
            lemma_square_order(d + 1, 0x4000_0000);
        }
        if d > 0xffff_ffff {
            lemma_square_order(0x1_0000_0000, d);
        }
        assert((d + 1) * (d + 1) == d * d + 2 * d + 1) by (nonlinear_arith);
        assert(d * d >= 200000 * d) by (nonlinear_arith)
            requires
                d >= 200000,
        ;
        assert(s <= 0x8000_0000) by (nonlinear_arith)
            requires
                s * m <= 0x8000_0000,
                m >= 1,
                s >= 1,
        ;
        lemma_scaled_within(c, s, m);
    }
}

/// The cross product of two vectors within 2^15 is within 2^31.
proof fn lemma_cross_bound(u: Vec3, v: Vec3)
    requires
        u.within(0x8000),
        v.within(0x8000),
    ensures
        u.cross(v).within(0x8000_0000),
{
    lemma_product_bound(u.y, v.z, 0x8000, 0x8000);
    lemma_product_bound(u.z, v.y, 0x8000, 0x8000);
    lemma_product_bound(u.z, v.x, 0x8000, 0x8000);
    lemma_product_bound(u.x, v.z, 0x8000, 0x8000);
    lemma_product_bound(u.x, v.y, 0x8000, 0x8000);
    lemma_product_bound(u.y, v.x, 0x8000, 0x8000);
}

/// The greatest magnitude bounds every component, and the squared length
/// lies between its square and three times its square.
proof fn lemma_max_abs_bounds(c: Vec3)
    ensures
        c.within(c.max_abs()),
        c.max_abs() >= 0,
        c != Vec3::zero() ==> c.max_abs() >= 1,
        c.max_abs() * c.max_abs() <= c.dot(c) <= 3 * (c.max_abs() * c.max_abs()),
{
    let m = c.max_abs();
    assert(c.x * c.x <= m * m && c.y * c.y <= m * m && c.z * c.z <= m * m && c.x * c.x >= 0 && c.y
        * c.y >= 0 && c.z * c.z >= 0) by (nonlinear_arith)
        requires
            -m <= c.x <= m,
            -m <= c.y <= m,
            -m <= c.z <= m,
    ;
    assert(c.x * c.x == m * m || c.y * c.y == m * m || c.z * c.z == m * m) by (nonlinear_arith)
        requires
            c.x == m || c.x == -m || c.y == m || c.y == -m || c.z == m || c.z == -m,
    ;
}

/// A vector within `m`, scaled by `s`, is within `s * m`.
proof fn lemma_scaled_within(c: Vec3, s: int, m: int)
    requires
        c.within(m),
        s >= 0,
        s * m <= 0x8000_0000,
    ensures
        c.scaled(s).within(0x8000_0000),
{
    lemma_product_bound(s, c.x, s, m);
    lemma_product_bound(s, c.y, s, m);
    lemma_product_bound(s, c.z, s, m);
}

/// 1, 0 or -1 as `x` is above, at or below zero.
fn direction(x: i32) -> (d: i32)
    ensures
        d == direction_of(x as int),
{
    if x > 0 {
        1
    } else if x < 0 {
        -1
    } else {
        0
    }
}

/// An affine map of space that sets up a frame: a linear part, whose third
/// column is taken times a positive scale, and a translation.
#[derive(Clone, Copy, Debug, PartialEq, Eq, Structural)]
pub struct AffineTransform {
    linear: Matrix3,
    translation: Vector3,
    normal_num: u32,
    normal_den: u32,
}

impl View for AffineTransform {
    type V = Frame;

    /// The frame that the map takes the standard frame to.
    closed spec fn view(&self) -> Frame {
        Frame {
            origin: self.translation@,
            axes: self.linear@,
            normal_num: self.normal_num as int,
            normal_den: self.normal_den as int,
        }
    }
}

impl AffineTransform {
    #[verifier::type_invariant]
    spec fn is_compact(self) -> bool {
        self@.compact()
    }

    /// The map that applies `linear` and then moves by `translation`.
    pub fn new(linear: Matrix3, translation: Vector3) -> (t: AffineTransform)
        ensures
            t@ == (Frame { origin: translation@, axes: linear@, normal_num: 1, normal_den: 1 }),
    {
        AffineTransform { linear, translation, normal_num: 1, normal_den: 1 }
    }

    /// The map that takes the standard frame to the frame at `center` with
    /// the axes `diru`, `dirv` and their cross product brought to unit
    /// length. Directions that are parallel, or zero, span no frame.
    pub fn from_basis(center: Vector3, diru: Direction, dirv: Direction) -> (r: Option<
        AffineTransform,
    >)
        ensures
            match r {
                Some(t) => diru@.cross(dirv@) != Vec3::zero() && t@ == basis_frame(
                    center@,
                    diru@,
                    dirv@,
                ),
                None => diru@.cross(dirv@) == Vec3::zero(),
            },
    {
        let normal = diru.cross(&dirv);
        if normal.x == 0 && normal.y == 0 && normal.z == 0 {
            return None;
        }
        proof {
            lemma_basis_frame_is_orthonormal(center@, diru@, dirv@);
        }
        let along_axis = if normal.x == 0 {
            normal.y == 0 || normal.z == 0
        } else {
            normal.y == 0 && normal.z == 0
        };
        let (z_axis, normal_num, normal_den) = if along_axis {
            (
                Vector3 {
                    x: direction(normal.x),
                    y: direction(normal.y),
                    z: direction(normal.z),
                },
                1u32,
                1u32,
            )
        } else {
            let length_squared = normal.widen().squared_length();
            let length = integer_root(length_squared);
            proof {
                lemma_product_bound(length as int, length as int, 0xffff_ffff, 0xffff_ffff);
            }
            if (length as u64) * (length as u64) == length_squared {
                (normal, 1u32, length)
            } else {
                let numerator = (0x8000_0000u64 / normal.greatest_magnitude()) as u32;
                let scaled = normal.scaled_by(numerator);
                proof {
                    lemma_scaled_length(normal@, numerator as int);
                }
                (normal, numerator, integer_root(scaled.squared_length()))
            }
        };
        Some(
            AffineTransform {
                linear: Matrix3 { x_axis: diru.to_vector(), y_axis: dirv.to_vector(), z_axis },
                translation: center,
                normal_num,
                normal_den,
            },
        )
    }

    /// The map that the homogeneous matrix `m` stands for, where `m` is
    /// affine.
    pub fn from_matrix(m: &Matrix4) -> (r: Option<AffineTransform>)
        ensures
            match r {
                Some(t) => m.affine() && t@ == m.frame(),
                None => !m.affine(),
            },
    {
        if m.m41 == 0 && m.m42 == 0 && m.m43 == 0 && m.m44 == 1 {
            Some(
                AffineTransform {
                    linear: Matrix3 {
                        x_axis: Vector3 { x: m.m11, y: m.m21, z: m.m31 },
                        y_axis: Vector3 { x: m.m12, y: m.m22, z: m.m32 },
                        z_axis: Vector3 { x: m.m13, y: m.m23, z: m.m33 },
                    },
                    translation: Vector3 { x: m.m14, y: m.m24, z: m.m34 },
                    normal_num: 1,
                    normal_den: 1,
                },
            )
        } else {
            None
        }
    }

    /// The map in homogeneous form, where the scale of its third column is
    /// one: a scale that is not one has no matrix of whole numbers.
    pub fn to_matrix(&self) -> (r: Option<Matrix4>)
        ensures
            match r {
                Some(m) => m.affine() && m.frame() == self@,
                None => !(self@.normal_num == 1 && self@.normal_den == 1),
            },
    {
        if self.normal_num == 1 && self.normal_den == 1 {
            Some(
                Matrix4 {
                    m11: self.linear.x_axis.x,
                    m12: self.linear.y_axis.x,
                    m13: self.linear.z_axis.x,
                    m14: self.translation.x,
                    m21: self.linear.x_axis.y,
                    m22: self.linear.y_axis.y,
                    m23: self.linear.z_axis.y,
                    m24: self.translation.y,
                    m31: self.linear.x_axis.z,
                    m32: self.linear.y_axis.z,
                    m33: self.linear.z_axis.z,
                    m34: self.translation.z,
                    m41: 0,
                    m42: 0,
                    m43: 0,
                    m44: 1,
                },
            )
        } else {
            None
        }
    }

    /// The linear part, of which the third column is taken times the scale.
    pub fn linear(&self) -> (m: Matrix3)
        ensures
            m@ == self@.axes,
    {
        self.linear
    }

    /// The translation: the origin of the frame.
    pub fn translation(&self) -> (v: Vector3)
        ensures
            v@ == self@.origin,
    {
        self.translation
    }

    /// The scale of the third column, as numerator and denominator, both
    /// positive.
    pub fn normal_scale(&self) -> (s: (u32, u32))
        ensures
            s.0 == self@.normal_num,
            s.1 == self@.normal_den,
            self@.compact(),
    {
        proof {
            use_type_invariant(self);
        }
        (self.normal_num, self.normal_den)
    }
}

/// An affine map in homogeneous form: a 4x4 matrix with the rows
/// `(m11, m12, m13, m14)` to `(m41, m42, m43, m44)`, of which the last is
/// `(0, 0, 0, 1)` for an affine map.
#[derive(Clone, Copy, Debug, PartialEq, Eq, Structural)]
pub struct Matrix4 {
    pub m11: i32,
    pub m12: i32,
    pub m13: i32,
    pub m14: i32,
    pub m21: i32,
    pub m22: i32,
    pub m23: i32,
    pub m24: i32,
    pub m31: i32,
    pub m32: i32,
    pub m33: i32,
    pub m34: i32,
    pub m41: i32,
    pub m42: i32,
    pub m43: i32,
    pub m44: i32,
}

impl Matrix4 {
    /// Whether the last row is `(0, 0, 0, 1)`.
    pub open spec fn affine(self) -> bool {
        self.m41 == 0 && self.m42 == 0 && self.m43 == 0 && self.m44 == 1
    }

    /// The frame that an affine matrix stands for: the upper left 3x3 block
    /// holds the axes, the last column the origin.
    pub open spec fn frame(self) -> Frame {
        Frame {
            origin: Vec3 { x: self.m14 as int, y: self.m24 as int, z: self.m34 as int },
            axes: Mat3 {
                x_axis: Vec3 { x: self.m11 as int, y: self.m21 as int, z: self.m31 as int },
                y_axis: Vec3 { x: self.m12 as int, y: self.m22 as int, z: self.m32 as int },
                z_axis: Vec3 { x: self.m13 as int, y: self.m23 as int, z: self.m33 as int },
            },
            normal_num: 1,
            normal_den: 1,
        }
    }

    /// The product of the matrix with the homogeneous form of `p`.
    pub open spec fn apply(self, p: Position) -> Position {
        Position {
            x: self.m11 * p.x + self.m12 * p.y + self.m13 * p.z + self.m14 * p.w,
            y: self.m21 * p.x + self.m22 * p.y + self.m23 * p.z + self.m24 * p.w,
            z: self.m31 * p.x + self.m32 * p.y + self.m33 * p.z + self.m34 * p.w,
            w: self.m41 * p.x + self.m42 * p.y + self.m43 * p.z + self.m44 * p.w,
        }
    }

    /// The matrix with the given entries, row by row.
    pub fn new(
        m11: i32,
        m12: i32,
        m13: i32,
        m14: i32,
        m21: i32,
        m22: i32,
        m23: i32,
        m24: i32,
        m31: i32,
        m32: i32,
        m33: i32,
        m34: i32,
        m41: i32,
        m42: i32,
        m43: i32,
        m44: i32,
    ) -> (m: Matrix4)
        ensures
            m == (Matrix4 {
                m11,
                m12,
                m13,
                m14,
                m21,
                m22,
                m23,
                m24,
                m31,
                m32,
                m33,
                m34,
                m41,
                m42,
                m43,
                m44,
            }),
    {
        Matrix4 { m11, m12, m13, m14, m21, m22, m23, m24, m31, m32, m33, m34, m41, m42, m43, m44 }
    }
}

/// An affine matrix times the homogeneous form of a position is the
/// position that has those coordinates in the matrix's frame.
pub proof fn lemma_homogeneous_product(m: Matrix4, p: Position)
    requires
        m.affine(),
    ensures
        m.apply(p) == m.frame().to_global(p),
{
    let l = m.apply(p);
    let r = m.frame().to_global(p);
    assert(l.x == r.x) by (nonlinear_arith)
        requires
            l == m.apply(p),
            r == m.frame().to_global(p),
    ;
    assert(l.y == r.y) by (nonlinear_arith)
        requires
            l == m.apply(p),
            r == m.frame().to_global(p),
    ;
    assert(l.z == r.z) by (nonlinear_arith)
        requires
            l == m.apply(p),
            r == m.frame().to_global(p),
    ;
}

} // verus!
