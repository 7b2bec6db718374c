//! Integer vectors and 3x3 matrices, with their mathematical counterparts.

use vstd::prelude::*;
use crate::algebra::{
    lemma_cross_exchanged,
    lemma_product_bound,
    lemma_root_is_unique,
    lemma_scaled_cross,
    lemma_scaled_dot,
    lemma_scaled_twice,
};

verus! {

/// A vector of three mathematical integers.
pub struct Vec3 {
    pub x: int,
    pub y: int,
    pub z: int,
}

impl Vec3 {
    /// The vector without length.
    pub open spec fn zero() -> Vec3 {
        Vec3 { x: 0, y: 0, z: 0 }
    }

    /// The sum, component by component.
    pub open spec fn plus(self, other: Vec3) -> Vec3 {
        Vec3 { x: self.x + other.x, y: self.y + other.y, z: self.z + other.z }
    }

    /// The difference, component by component.
    pub open spec fn minus(self, other: Vec3) -> Vec3 {
        Vec3 { x: self.x - other.x, y: self.y - other.y, z: self.z - other.z }
    }

    /// Every component multiplied by `k`.
    pub open spec fn scaled(self, k: int) -> Vec3 {
        Vec3 { x: k * self.x, y: k * self.y, z: k * self.z }
    }

    /// The first two components multiplied by `a`, the third by `b`.
    pub open spec fn stretched(self, a: int, b: int) -> Vec3 {
        Vec3 { x: a * self.x, y: a * self.y, z: b * self.z }
    }

    /// The greatest distance of a component from zero.
    pub open spec fn max_abs(self) -> int {
        let x = if self.x < 0 { -self.x } else { self.x };
        let y = if self.y < 0 { -self.y } else { self.y };
        let z = if self.z < 0 { -self.z } else { self.z };
        if x >= y && x >= z {
            x
        } else if y >= z {
            y
        } else {
            z
        }
    }

    /// The dot product.
    pub open spec fn dot(self, other: Vec3) -> int {
        self.x * other.x + self.y * other.y + self.z * other.z
    }

    /// The cross product.
    pub open spec fn cross(self, other: Vec3) -> Vec3 {
        Vec3 {
            x: self.y * other.z - self.z * other.y,
            y: self.z * other.x - self.x * other.z,
            z: self.x * other.y - self.y * other.x,
        }
    }

    /// Whether every component lies within `bound` of zero.
    pub open spec fn within(self, bound: int) -> bool {
        &&& -bound <= self.x <= bound
        &&& -bound <= self.y <= bound
        &&& -bound <= self.z <= bound
    }
}

/// A 3x3 matrix of mathematical integers, held by its columns.
pub struct Mat3 {
    pub x_axis: Vec3,
    pub y_axis: Vec3,
    pub z_axis: Vec3,
}

impl Mat3 {
    /// The matrix that leaves every vector as it is.
    pub open spec fn identity() -> Mat3 {
        Mat3 {
            x_axis: Vec3 { x: 1, y: 0, z: 0 },
            y_axis: Vec3 { x: 0, y: 1, z: 0 },
            z_axis: Vec3 { x: 0, y: 0, z: 1 },
        }
    }

    /// Every entry multiplied by `k`.
    pub open spec fn scaled(self, k: int) -> Mat3 {
        Mat3 {
            x_axis: self.x_axis.scaled(k),
            y_axis: self.y_axis.scaled(k),
            z_axis: self.z_axis.scaled(k),
        }
    }

    /// The matrix with rows and columns exchanged.
    pub open spec fn transpose(self) -> Mat3 {
        Mat3 {
            x_axis: Vec3 { x: self.x_axis.x, y: self.y_axis.x, z: self.z_axis.x },
            y_axis: Vec3 { x: self.x_axis.y, y: self.y_axis.y, z: self.z_axis.y },
            z_axis: Vec3 { x: self.x_axis.z, y: self.y_axis.z, z: self.z_axis.z },
        }
    }

    /// The product of the matrix with a column vector: the combination of the
    /// columns that the vector's components weigh.
    pub open spec fn apply(self, v: Vec3) -> Vec3 {
        self.x_axis.scaled(v.x).plus(self.y_axis.scaled(v.y)).plus(self.z_axis.scaled(v.z))
    }

    /// The matrix product `self * other`.
    pub open spec fn times(self, other: Mat3) -> Mat3 {
        Mat3 {
            x_axis: self.apply(other.x_axis),
            y_axis: self.apply(other.y_axis),
            z_axis: self.apply(other.z_axis),
        }
    }

    /// The determinant, expanded along the first column.
    pub open spec fn determinant(self) -> int {
        self.x_axis.dot(self.y_axis.cross(self.z_axis))
    }

    /// The matrix of cofactors: each column is the cross product of the other
    /// two columns, taken in cyclic order.
    pub open spec fn cofactors(self) -> Mat3 {
        Mat3 {
            x_axis: self.y_axis.cross(self.z_axis),
            y_axis: self.z_axis.cross(self.x_axis),
            z_axis: self.x_axis.cross(self.y_axis),
        }
    }

    /// The adjugate: the transpose of the matrix of cofactors.
    pub open spec fn adjugate(self) -> Mat3 {
        self.cofactors().transpose()
    }
}

/// The sign of a determinant: -1 below zero, 1 otherwise.
pub open spec fn signum(d: int) -> int {
    if d < 0 {
        -1
    } else {
        1
    }
}

impl Mat3 {
    /// Whether the matrix has an inverse over the rationals.
    pub open spec fn invertible(self) -> bool {
        self.determinant() != 0
    }

    /// The numerators of the inverse: the adjugate, with the sign that makes
    /// the denominator positive.
    pub open spec fn inverse_numerators(self) -> Mat3 {
        self.adjugate().scaled(signum(self.determinant()))
    }

    /// The denominator of the inverse: the magnitude of the determinant.
    pub open spec fn inverse_denominator(self) -> int {
        self.determinant() * signum(self.determinant())
    }

    /// The numerators of the inverse of the matrix whose third column is
    /// taken times `num / den`: those of the inverse, with the first two
    /// rows times `num` and the third times `den`, over `num` times the
    /// denominator of the inverse.
    pub open spec fn inverse_numerators_with(self, num: int, den: int) -> Mat3 {
        let n = self.inverse_numerators();
        Mat3 {
            x_axis: n.x_axis.stretched(num, den),
            y_axis: n.y_axis.stretched(num, den),
            z_axis: n.z_axis.stretched(num, den),
        }
    }
}

/// Whether `r` is the integer square root of `n`: the greatest number whose
/// square is at most `n`.
pub open spec fn is_root(r: int, n: int) -> bool {
    0 <= r && r * r <= n < (r + 1) * (r + 1)
}

/// The integer square root of `n`, found by counting up.
pub open spec fn root_of(n: nat) -> nat
    decreases n,
{
    if n == 0 {
        0
    } else {
        let r = root_of((n - 1) as nat);
        if (r + 1) * (r + 1) <= n {
            r + 1
        } else {
            r
        }
    }
}

/// The integer square root of `n`, by bisection.
pub fn integer_root(n: u64) -> (r: u32)
    ensures
        is_root(r as int, n as int),
        r == root_of(n as nat),
{
    let mut low: u64 = 0;
    let mut high: u64 = 0x1_0000_0000;
    while high - low > 1
        invariant
            low < high <= 0x1_0000_0000,
            low * low <= n < high * high,
        decreases high - low,
    {
        let middle = low + (high - low) / 2;
        proof {
            lemma_product_bound(middle as int, middle as int, 0xffff_ffff, 0xffff_ffff);
        }
        if middle * middle <= n {
            low = middle;
        } else {
            high = middle;
        }
    }
    proof {
        lemma_root_is_unique(low as int, root_of(n as nat) as int, n as int);
    }
    low as u32
}

/// A direction with integer components of half width, so that the cross
/// product of two directions has room in a `Vector3`.
#[derive(Clone, Copy, Debug, PartialEq, Eq, Structural)]
pub struct Direction {
    pub x: i16,
    pub y: i16,
    pub z: i16,
}

/// A vector with integer components.
#[derive(Clone, Copy, Debug, PartialEq, Eq, Structural)]
pub struct Vector3 {
    pub x: i32,
    pub y: i32,
    pub z: i32,
}

/// A vector with integer components of double width, as a cross product of
/// two `Vector3` needs them.
#[derive(Clone, Copy, Debug, PartialEq, Eq, Structural)]
pub struct WideVector3 {
    pub x: i64,
    pub y: i64,
    pub z: i64,
}

impl View for Direction {
    type V = Vec3;

    open spec fn view(&self) -> Vec3 {
        Vec3 { x: self.x as int, y: self.y as int, z: self.z as int }
    }
}

impl View for Vector3 {
    type V = Vec3;

    open spec fn view(&self) -> Vec3 {
        Vec3 { x: self.x as int, y: self.y as int, z: self.z as int }
    }
}

impl View for WideVector3 {
    type V = Vec3;

    open spec fn view(&self) -> Vec3 {
        Vec3 { x: self.x as int, y: self.y as int, z: self.z as int }
    }
}

/// The product of two integers, in double width.
pub(crate) fn product(a: i32, b: i32) -> (p: i64)
    ensures
        p == a * b,
        -0x4000_0000_0000_0000 <= p <= 0x4000_0000_0000_0000,
{
    proof {
        lemma_product_bound(a as int, b as int, 0x8000_0000, 0x8000_0000);
    }
    (a as i64) * (b as i64)
}

/// `a * b - c * d` for four small integers; the result has room in an `i32`.
fn small_minor(a: i16, b: i16, c: i16, d: i16) -> (r: i32)
    ensures
        r == a * b - c * d,
{
    proof {
        lemma_product_bound(a as int, b as int, 0x8000, 0x8000);
        lemma_product_bound(c as int, d as int, 0x8000, 0x8000);
        // Only the square of the least value reaches 0x4000_0000, and no
        // product goes as far below zero.
        assert(a * b - c * d <= 0x7fff_ffff) by (nonlinear_arith)
            requires
                -0x8000 <= a < 0x8000,
                -0x8000 <= b < 0x8000,
                -0x8000 <= c < 0x8000,
                -0x8000 <= d < 0x8000,
        ;
    }
    let p: i32 = (a as i32) * (b as i32);
    let q: i32 = (c as i32) * (d as i32);
    p - q
}

impl Direction {
    /// The direction with the given components.
    pub fn new(x: i16, y: i16, z: i16) -> (d: Direction)
        ensures
            d == (Direction { x, y, z }),
    {
        Direction { x, y, z }
    }

    /// The same vector with components of the usual width.
    pub fn to_vector(&self) -> (v: Vector3)
        ensures
            v@ == self@,
    {
        Vector3 { x: self.x as i32, y: self.y as i32, z: self.z as i32 }
    }

    /// The cross product, which is orthogonal to both directions and is zero
    /// exactly when they are parallel or one of them is zero.
    pub fn cross(&self, other: &Direction) -> (n: Vector3)
        ensures
            n@ == self@.cross(other@),
    {
        Vector3 {
            x: small_minor(self.y, other.z, self.z, other.y),
            y: small_minor(self.z, other.x, self.x, other.z),
            z: small_minor(self.x, other.y, self.y, other.x),
        }
    }
}

/// `a * b - c * d` for four integers; the result has room in an `i64`, and
/// so has its negation.
fn minor(a: i32, b: i32, c: i32, d: i32) -> (r: i64)
    ensures
        r == a * b - c * d,
        -0x7fff_ffff_ffff_ffff <= r <= 0x7fff_ffff_ffff_ffff,
{
    proof {
        lemma_product_bound(a as int, b as int, 0x8000_0000, 0x8000_0000);
        lemma_product_bound(c as int, d as int, 0x8000_0000, 0x8000_0000);
        // Only the square of the least value reaches 0x4000_0000_0000_0000,
        // and no product goes as far below zero.
        assert(a * b >= -0x3fff_ffff_8000_0000) by (nonlinear_arith)
            requires
                -0x8000_0000 <= a < 0x8000_0000,
                -0x8000_0000 <= b < 0x8000_0000,
        ;
        assert(c * d >= -0x3fff_ffff_8000_0000) by (nonlinear_arith)
            requires
                -0x8000_0000 <= c < 0x8000_0000,
                -0x8000_0000 <= d < 0x8000_0000,
        ;
    }
    let p: i64 = (a as i64) * (b as i64);
    let q: i64 = (c as i64) * (d as i64);
    p - q
}

impl Vector3 {
    /// The vector with the given components.
    pub fn new(x: i32, y: i32, z: i32) -> (v: Vector3)
        ensures
            v == (Vector3 { x, y, z }),
    {
        Vector3 { x, y, z }
    }

    /// The cross product, in components of double width.
    pub fn cross(&self, other: &Vector3) -> (n: WideVector3)
        ensures
            n@ == self@.cross(other@),
            n@.within(0x7fff_ffff_ffff_ffff),
    {
        WideVector3 {
            x: minor(self.y, other.z, self.z, other.y),
            y: minor(self.z, other.x, self.x, other.z),
            z: minor(self.x, other.y, self.y, other.x),
        }
    }

    /// The same vector in double width.
    pub fn widen(&self) -> (w: WideVector3)
        ensures
            w@ == self@,
    {
        WideVector3 { x: self.x as i64, y: self.y as i64, z: self.z as i64 }
    }

    /// The greatest distance of a component from zero.
    pub fn greatest_magnitude(&self) -> (m: u64)
        ensures
            m == self@.max_abs(),
            m <= 0x8000_0000,
    {
        let x: i64 = if self.x < 0 { -(self.x as i64) } else { self.x as i64 };
        let y: i64 = if self.y < 0 { -(self.y as i64) } else { self.y as i64 };
        let z: i64 = if self.z < 0 { -(self.z as i64) } else { self.z as i64 };
        if x >= y && x >= z {
            x as u64
        } else if y >= z {
            y as u64
        } else {
            z as u64
        }
    }

    /// The vector scaled by `k`, where the scaled components stay within
    /// 2^31.
    pub(crate) fn scaled_by(&self, k: u32) -> (w: WideVector3)
        requires
            self@.scaled(k as int).within(0x8000_0000),
        ensures
            w@ == self@.scaled(k as int),
    {
        WideVector3 {
            x: (k as i64) * (self.x as i64),
            y: (k as i64) * (self.y as i64),
            z: (k as i64) * (self.z as i64),
        }
    }

    /// The cross product of a vector within 2^15 with one within 2^31.
    pub(crate) fn cross_wide(&self, other: &WideVector3) -> (n: WideVector3)
        requires
            self@.within(0x8000),
            other@.within(0x8000_0000),
        ensures
            n@ == self@.cross(other@),
            n@.within(0x8000_0000_0000),
    {
        proof {
            lemma_product_bound(self.y as int, other.z as int, 0x8000, 0x8000_0000);
            lemma_product_bound(self.z as int, other.y as int, 0x8000, 0x8000_0000);
            lemma_product_bound(self.z as int, other.x as int, 0x8000, 0x8000_0000);
            lemma_product_bound(self.x as int, other.z as int, 0x8000, 0x8000_0000);
            lemma_product_bound(self.x as int, other.y as int, 0x8000, 0x8000_0000);
            lemma_product_bound(self.y as int, other.x as int, 0x8000, 0x8000_0000);
        }
        WideVector3 {
            x: (self.y as i64) * other.z - (self.z as i64) * other.y,
            y: (self.z as i64) * other.x - (self.x as i64) * other.z,
            z: (self.x as i64) * other.y - (self.y as i64) * other.x,
        }
    }

    /// The dot product with a vector of double width.
    pub fn dot_wide(&self, other: &WideVector3) -> (d: i128)
        ensures
            d == self@.dot(other@),
            -0xc000_0000_0000_0000_0000_0000 <= d <= 0xc000_0000_0000_0000_0000_0000,
    {
        proof {
            lemma_product_bound(self.x as int, other.x as int, 0x8000_0000, 0x8000_0000_0000_0000);
            lemma_product_bound(self.y as int, other.y as int, 0x8000_0000, 0x8000_0000_0000_0000);
            lemma_product_bound(self.z as int, other.z as int, 0x8000_0000, 0x8000_0000_0000_0000);
        }
        let a: i128 = (self.x as i128) * (other.x as i128);
        let b: i128 = (self.y as i128) * (other.y as i128);
        let c: i128 = (self.z as i128) * (other.z as i128);
        a + b + c
    }
}

impl WideVector3 {
    /// The vector with the given components.
    pub fn new(x: i64, y: i64, z: i64) -> (v: WideVector3)
        ensures
            v == (WideVector3 { x, y, z }),
    {
        WideVector3 { x, y, z }
    }

    /// The dot product of a vector whose components stay within 2^62 with
    /// any other.
    pub(crate) fn dot(&self, other: &WideVector3) -> (d: i128)
        requires
            self@.within(0x4000_0000_0000_0000),
        ensures
            d == self@.dot(other@),
    {
        proof {
            lemma_product_bound(
                self.x as int,
                other.x as int,
                0x4000_0000_0000_0000,
                0x8000_0000_0000_0000,
            );
            lemma_product_bound(
                self.y as int,
                other.y as int,
                0x4000_0000_0000_0000,
                0x8000_0000_0000_0000,
            );
            lemma_product_bound(
                self.z as int,
                other.z as int,
                0x4000_0000_0000_0000,
                0x8000_0000_0000_0000,
            );
        }
        let a: i128 = (self.x as i128) * (other.x as i128);
        let b: i128 = (self.y as i128) * (other.y as i128);
        let c: i128 = (self.z as i128) * (other.z as i128);
        a + b + c
    }

    /// The squared length of a vector within 2^31.
    pub(crate) fn squared_length(&self) -> (n: u64)
        requires
            self@.within(0x8000_0000),
        ensures
            n == self@.dot(self@),
    {
        proof {
            lemma_product_bound(self.x as int, self.x as int, 0x8000_0000, 0x8000_0000);
            lemma_product_bound(self.y as int, self.y as int, 0x8000_0000, 0x8000_0000);
            lemma_product_bound(self.z as int, self.z as int, 0x8000_0000, 0x8000_0000);
            assert(self.x * self.x >= 0 && self.y * self.y >= 0 && self.z * self.z >= 0)
                by (nonlinear_arith);
        }
        let x: i64 = self.x * self.x;
        let y: i64 = self.y * self.y;
        let z: i64 = self.z * self.z;
        (x as u64) + (y as u64) + (z as u64)
    }

    /// The vector scaled by `k`, for a vector within 2^31.
    pub(crate) fn scaled_by(&self, k: u32) -> (w: WideVector3)
        requires
            self@.within(0x8000_0000),
        ensures
            w@ == self@.scaled(k as int),
            w@.within(0x7fff_ffff_ffff_ffff),
    {
        proof {
            lemma_product_bound(k as int, self.x as int, 0xffff_ffff, 0x8000_0000);
            lemma_product_bound(k as int, self.y as int, 0xffff_ffff, 0x8000_0000);
            lemma_product_bound(k as int, self.z as int, 0xffff_ffff, 0x8000_0000);
        }
        WideVector3 { x: (k as i64) * self.x, y: (k as i64) * self.y, z: (k as i64) * self.z }
    }

    /// The vector with every component negated.
    pub(crate) fn negated(&self) -> (v: WideVector3)
        requires
            self@.within(0x7fff_ffff_ffff_ffff),
        ensures
            v@ == self@.scaled(-1),
            v@.within(0x7fff_ffff_ffff_ffff),
    {
        WideVector3 { x: -self.x, y: -self.y, z: -self.z }
    }
}

/// A 3x3 matrix with integer entries, held by its columns.
#[derive(Clone, Copy, Debug, PartialEq, Eq, Structural)]
pub struct Matrix3 {
    pub x_axis: Vector3,
    pub y_axis: Vector3,
    pub z_axis: Vector3,
}

/// The inverse of a `Matrix3`: three rows of numerators over one positive
/// denominator.
#[derive(Clone, Copy, Debug, PartialEq, Eq, Structural)]
pub struct MatrixInverse {
    pub x_row: WideVector3,
    pub y_row: WideVector3,
    pub z_row: WideVector3,
    pub denominator: i128,
}

impl View for Matrix3 {
    type V = Mat3;

    open spec fn view(&self) -> Mat3 {
        Mat3 { x_axis: self.x_axis@, y_axis: self.y_axis@, z_axis: self.z_axis@ }
    }
}

impl MatrixInverse {
    /// The matrix of numerators.
    pub open spec fn numerators(&self) -> Mat3 {
        Mat3 { x_axis: self.x_row@, y_axis: self.y_row@, z_axis: self.z_row@ }.transpose()
    }

    /// Whether this is the inverse of `m`.
    pub open spec fn inverts(&self, m: Mat3) -> bool {
        &&& m.invertible()
        &&& self.numerators() == m.inverse_numerators()
        &&& self.denominator == m.inverse_denominator()
    }

    /// Whether this is the inverse of `m` with its third column taken times
    /// `num / den`.
    pub open spec fn inverts_with(&self, m: Mat3, num: int, den: int) -> bool {
        &&& m.invertible()
        &&& num > 0
        &&& den > 0
        &&& self.numerators() == m.inverse_numerators_with(num, den)
        &&& self.denominator == num * m.inverse_denominator()
    }
}

impl Matrix3 {
    /// The matrix with the given columns.
    pub fn from_columns(x_axis: Vector3, y_axis: Vector3, z_axis: Vector3) -> (m: Matrix3)
        ensures
            m == (Matrix3 { x_axis, y_axis, z_axis }),
    {
        Matrix3 { x_axis, y_axis, z_axis }
    }

    /// The matrix that leaves every vector as it is.
    pub fn identity() -> (m: Matrix3)
        ensures
            m@ == Mat3::identity(),
    {
        Matrix3 {
            x_axis: Vector3 { x: 1, y: 0, z: 0 },
            y_axis: Vector3 { x: 0, y: 1, z: 0 },
            z_axis: Vector3 { x: 0, y: 0, z: 1 },
        }
    }

    /// The determinant, by cofactor expansion along the first column.
    pub fn determinant(&self) -> (d: i128)
        ensures
            d == self@.determinant(),
            -0xc000_0000_0000_0000_0000_0000 <= d <= 0xc000_0000_0000_0000_0000_0000,
    {
        let minors = self.y_axis.cross(&self.z_axis);
        self.x_axis.dot_wide(&minors)
    }

    /// The inverse by the adjugate: the transposed cofactors over the
    /// determinant, with signs such that the denominator is positive. There
    /// is none exactly when the determinant is zero.
    pub fn try_inverse(&self) -> (r: Option<MatrixInverse>)
        ensures
            match r {
                Some(inverse) => inverse.inverts(self@) && inverse.denominator
                    <= 0xc000_0000_0000_0000_0000_0000,
                None => !self@.invertible(),
            },
    {
        let x_row = self.y_axis.cross(&self.z_axis);
        let y_row = self.z_axis.cross(&self.x_axis);
        let z_row = self.x_axis.cross(&self.y_axis);
        let d = self.x_axis.dot_wide(&x_row);
        if d == 0 {
            return None;
        }
        let inverse = if d < 0 {
            MatrixInverse {
                x_row: x_row.negated(),
                y_row: y_row.negated(),
                z_row: z_row.negated(),
                denominator: -d,
            }
        } else {
            MatrixInverse { x_row, y_row, z_row, denominator: d }
        };
        proof {
            let sign = signum(d as int);
            let cofactors = self@.cofactors();
            assert(self@.determinant() == d);
            assert(inverse.denominator == d * sign);
            assert(inverse.x_row@ == cofactors.x_axis.scaled(sign));
            assert(inverse.y_row@ == cofactors.y_axis.scaled(sign));
            assert(inverse.z_row@ == cofactors.z_axis.scaled(sign));
            assert(inverse.numerators() == self@.adjugate().scaled(sign));
        }
        Some(inverse)
    }

    /// The inverse of the matrix whose third column is taken times
    /// `num / den`, for a matrix whose first two columns are within 2^15
    /// and whose third, times `num`, is within 2^31. As in `try_inverse`,
    /// the rows are cross products of the columns, the denominator is
    /// positive, and there is no inverse exactly when the determinant is
    /// zero.
    pub(crate) fn try_inverse_with(&self, num: u32, den: u32) -> (r: Option<MatrixInverse>)
        requires
            num >= 1,
            den >= 1,
            self@.x_axis.within(0x8000),
            self@.y_axis.within(0x8000),
            self@.z_axis.scaled(num as int).within(0x8000_0000),
        ensures
            match r {
                Some(inverse) => inverse.inverts_with(self@, num as int, den as int)
                    && inverse.denominator <= 0xc000_0000_0000_0000_0000_0000,
                None => !self@.invertible(),
            },
    {
        let a = &self.x_axis;
        let b = &self.y_axis;
        let c = &self.z_axis;
        let scaled = c.scaled_by(num);
        let first = b.cross_wide(&scaled);
        let second = a.cross_wide(&scaled);
        let plain = a.cross(b);
        proof {
            lemma_product_bound(a.y as int, b.z as int, 0x8000, 0x8000);
            lemma_product_bound(a.z as int, b.y as int, 0x8000, 0x8000);
            lemma_product_bound(a.z as int, b.x as int, 0x8000, 0x8000);
            lemma_product_bound(a.x as int, b.z as int, 0x8000, 0x8000);
            lemma_product_bound(a.x as int, b.y as int, 0x8000, 0x8000);
            lemma_product_bound(a.y as int, b.x as int, 0x8000, 0x8000);
        }
        let third = plain.scaled_by(den);
        let d = a.dot_wide(&first);
        let ghost det = self@.determinant();
        let ghost cofactors = self@.cofactors();
        proof {
            lemma_scaled_cross(b@, c@, num as int);
            lemma_scaled_cross(a@, c@, num as int);
            lemma_cross_exchanged(a@, c@);
            lemma_scaled_dot(a@, cofactors.x_axis, num as int);
            assert(d == num * det);
            assert((d == 0 <==> det == 0) && (d < 0 <==> det < 0)) by (nonlinear_arith)
                requires
                    d == num * det,
                    num >= 1,
            ;
        }
        if d == 0 {
            return None;
        }
        let inverse = if d < 0 {
            MatrixInverse {
                x_row: first.negated(),
                y_row: second,
                z_row: third.negated(),
                denominator: -d,
            }
        } else {
            MatrixInverse { x_row: first, y_row: second.negated(), z_row: third, denominator: d }
        };
        proof {
            let sign = signum(det);
            let ac = a@.cross(c@);
            lemma_scaled_twice(cofactors.x_axis, num as int, -1);
            lemma_scaled_twice(cofactors.x_axis, -1, num as int);
            lemma_scaled_twice(cofactors.z_axis, den as int, -1);
            lemma_scaled_twice(cofactors.z_axis, -1, den as int);
            lemma_scaled_twice(ac, num as int, -1);
            lemma_scaled_twice(ac, -1, num as int);
            lemma_scaled_twice(ac, -1, -1);
            assert(ac.scaled(1) == ac);
            assert(inverse.x_row@ == cofactors.x_axis.scaled(sign).scaled(num as int));
            assert(inverse.y_row@ == cofactors.y_axis.scaled(sign).scaled(num as int));
            assert(inverse.z_row@ == cofactors.z_axis.scaled(sign).scaled(den as int));
            assert(inverse.numerators() == self@.inverse_numerators_with(num as int, den as int));
            assert(inverse.denominator == num * (det * sign)) by (nonlinear_arith)
                requires
                    d == num * det,
                    inverse.denominator == if d < 0 {
                        -d
                    } else {
                        d as int
                    },
                    sign == if det < 0 {
                        -1int
                    } else {
                        1int
                    },
                    d < 0 <==> det < 0,
            ;
        }
        Some(inverse)
    }
}

} // verus!
