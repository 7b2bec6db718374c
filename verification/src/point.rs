//! Positions with exact rational coordinates.

use vstd::prelude::*;
use crate::algebra::lemma_product_bound;
use crate::linear::Vec3;

verus! {

/// A position in space in homogeneous form: the point with the coordinates
/// `x / w`, `y / w` and `z / w`.
pub struct Position {
    pub x: int,
    pub y: int,
    pub z: int,
    pub w: int,
}

impl Position {
    /// Whether the denominator is positive, as it is for every position that
    /// the library holds.
    pub open spec fn valid(self) -> bool {
        self.w > 0
    }

    /// The three numerators as a vector.
    pub open spec fn numerators(self) -> Vec3 {
        Vec3 { x: self.x, y: self.y, z: self.z }
    }

    /// The position with the numerators `v` over the denominator `w`.
    pub open spec fn over(v: Vec3, w: int) -> Position {
        Position { x: v.x, y: v.y, z: v.z, w }
    }

    /// Numerators and denominator multiplied by `k`.
    pub open spec fn scaled(self, k: int) -> Position {
        Position { x: k * self.x, y: k * self.y, z: k * self.z, w: k * self.w }
    }

    /// Whether two forms denote one point: their coordinates agree as
    /// fractions.
    pub open spec fn same_as(self, other: Position) -> bool {
        &&& self.x * other.w == other.x * self.w
        &&& self.y * other.w == other.y * self.w
        &&& self.z * other.w == other.z * self.w
    }
}

/// Multiplying numerators and denominator by a positive factor gives another
/// form of the same point.
pub proof fn lemma_scaled_is_same(p: Position, k: int)
    requires
        p.valid(),
        k > 0,
    ensures
        p.scaled(k).valid(),
        p.scaled(k).same_as(p),
        p.same_as(p.scaled(k)),
{
    assert(k * p.w > 0) by (nonlinear_arith)
        requires
            k > 0,
            p.w > 0,
    ;
    assert((k * p.x) * p.w == p.x * (k * p.w)) by (nonlinear_arith);
    assert((k * p.y) * p.w == p.y * (k * p.w)) by (nonlinear_arith);
    assert((k * p.z) * p.w == p.z * (k * p.w)) by (nonlinear_arith);
}

/// A position given by numerators and a positive denominator of machine
/// width.
#[derive(Clone, Copy, Debug, PartialEq, Eq, Structural)]
pub struct Point {
    x: i32,
    y: i32,
    z: i32,
    w: i32,
}

/// A position as the maps of a plane return it: numerators and a positive
/// denominator wide enough for every image of a `Point`.
#[derive(Clone, Copy, Debug, PartialEq, Eq, Structural)]
pub struct ExactPoint {
    x: i128,
    y: i128,
    z: i128,
    w: i128,
}

impl View for Point {
    type V = Position;

    closed spec fn view(&self) -> Position {
        Position { x: self.x as int, y: self.y as int, z: self.z as int, w: self.w as int }
    }
}

impl View for ExactPoint {
    type V = Position;

    closed spec fn view(&self) -> Position {
        Position { x: self.x as int, y: self.y as int, z: self.z as int, w: self.w as int }
    }
}

impl Point {
    #[verifier::type_invariant]
    spec fn positive_denominator(self) -> bool {
        self.w > 0
    }

    /// The point with the integer coordinates `x`, `y` and `z`.
    pub fn new(x: i32, y: i32, z: i32) -> (p: Point)
        ensures
            p@ == (Position { x: x as int, y: y as int, z: z as int, w: 1 }),
    {
        Point { x, y, z, w: 1 }
    }

    /// The point with the coordinates `x / w`, `y / w` and `z / w`, where `w`
    /// is positive.
    pub fn from_ratio(x: i32, y: i32, z: i32, w: i32) -> (r: Option<Point>)
        ensures
            match r {
                Some(p) => w > 0 && p@ == (Position {
                    x: x as int,
                    y: y as int,
                    z: z as int,
                    w: w as int,
                }),
                None => w <= 0,
            },
    {
        if w > 0 {
            Some(Point { x, y, z, w })
        } else {
            None
        }
    }

    /// The numerator of the first coordinate.
    pub fn x(&self) -> (x: i32)
        ensures
            x == self@.x,
    {
        self.x
    }

    /// The numerator of the second coordinate.
    pub fn y(&self) -> (y: i32)
        ensures
            y == self@.y,
    {
        self.y
    }

    /// The numerator of the third coordinate.
    pub fn z(&self) -> (z: i32)
        ensures
            z == self@.z,
    {
        self.z
    }

    /// The common denominator, which is positive.
    pub fn w(&self) -> (w: i32)
        ensures
            w == self@.w,
            w > 0,
    {
        proof {
            use_type_invariant(self);
        }
        self.w
    }

    /// Whether the two points are one position, whatever their denominators.
    pub fn same_position(&self, other: &Point) -> (same: bool)
        ensures
            same == self@.same_as(other@),
    {
        proof {
            lemma_product_bound(self.x as int, other.w as int, 0x8000_0000, 0x8000_0000);
            lemma_product_bound(self.y as int, other.w as int, 0x8000_0000, 0x8000_0000);
            lemma_product_bound(self.z as int, other.w as int, 0x8000_0000, 0x8000_0000);
            lemma_product_bound(other.x as int, self.w as int, 0x8000_0000, 0x8000_0000);
            lemma_product_bound(other.y as int, self.w as int, 0x8000_0000, 0x8000_0000);
            lemma_product_bound(other.z as int, self.w as int, 0x8000_0000, 0x8000_0000);
        }
        (self.x as i64) * (other.w as i64) == (other.x as i64) * (self.w as i64)
            && (self.y as i64) * (other.w as i64) == (other.y as i64) * (self.w as i64)
            && (self.z as i64) * (other.w as i64) == (other.z as i64) * (self.w as i64)
    }

    /// The same position in the wide form.
    pub fn widen(&self) -> (e: ExactPoint)
        ensures
            e@ == self@,
    {
        proof {
            use_type_invariant(self);
        }
        ExactPoint { x: self.x as i128, y: self.y as i128, z: self.z as i128, w: self.w as i128 }
    }
}

/// Whether `v` has room in an `i32`.
pub open spec fn fits_i32(v: int) -> bool {
    -0x8000_0000 <= v <= 0x7fff_ffff
}

impl ExactPoint {
    #[verifier::type_invariant]
    spec fn positive_denominator(self) -> bool {
        self.w > 0
    }

    /// The point with the coordinates `x / w`, `y / w` and `z / w`, where `w`
    /// is positive.
    pub fn new(x: i128, y: i128, z: i128, w: i128) -> (r: Option<ExactPoint>)
        ensures
            match r {
                Some(p) => w > 0 && p@ == (Position {
                    x: x as int,
                    y: y as int,
                    z: z as int,
                    w: w as int,
                }),
                None => w <= 0,
            },
    {
        if w > 0 {
            Some(ExactPoint { x, y, z, w })
        } else {
            None
        }
    }

    /// The point with the given numerators over the positive denominator
    /// `w`.
    pub(crate) fn over(x: i128, y: i128, z: i128, w: i128) -> (p: ExactPoint)
        requires
            w > 0,
        ensures
            p@ == (Position { x: x as int, y: y as int, z: z as int, w: w as int }),
    {
        ExactPoint { x, y, z, w }
    }

    /// The numerator of the first coordinate.
    pub fn x(&self) -> (x: i128)
        ensures
            x == self@.x,
    {
        self.x
    }

    /// The numerator of the second coordinate.
    pub fn y(&self) -> (y: i128)
        ensures
            y == self@.y,
    {
        self.y
    }

    /// The numerator of the third coordinate.
    pub fn z(&self) -> (z: i128)
        ensures
            z == self@.z,
    {
        self.z
    }

    /// The common denominator, which is positive.
    pub fn w(&self) -> (w: i128)
        ensures
            w == self@.w,
            w > 0,
    {
        proof {
            use_type_invariant(self);
        }
        self.w
    }

    /// The same numerators and denominator as a `Point`, where each of them
    /// has room in one.
    pub fn narrow(&self) -> (r: Option<Point>)
        ensures
            match r {
                Some(p) => p@ == self@,
                None => !(fits_i32(self@.x) && fits_i32(self@.y) && fits_i32(self@.z) && fits_i32(
                    self@.w,
                )),
            },
    {
        proof {
            use_type_invariant(self);
        }
        if -0x8000_0000 <= self.x && self.x <= 0x7fff_ffff && -0x8000_0000 <= self.y && self.y
            <= 0x7fff_ffff && -0x8000_0000 <= self.z && self.z <= 0x7fff_ffff && self.w
            <= 0x7fff_ffff {
            Some(Point { x: self.x as i32, y: self.y as i32, z: self.z as i32, w: self.w as i32 })
        } else {
            None
        }
    }
}

} // verus!
