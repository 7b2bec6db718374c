//! Bounds of a plane, asked about positions in the plane's own frame.

use vstd::prelude::*;
use vstd::arithmetic::div_mod::lemma_fundamental_div_mod;
use crate::point::{ExactPoint, Position};

verus! {

/// A shape in a plane that can be asked whether it holds a position given in
/// the plane's frame.
pub trait BoundCheck {
    /// Whether the shape holds the position `p`.
    spec fn covers(&self, p: Position) -> bool;

    /// The answer depends on the first two coordinates only: the height of a
    /// position above the plane plays no part in it.
    proof fn lemma_height_is_ignored(&self, p: Position, q: Position)
        requires
            p.x == q.x,
            p.y == q.y,
            p.w == q.w,
        ensures
            self.covers(p) == self.covers(q),
    ;

    /// The answer is the same for every form of a position: it depends on
    /// the first two coordinates as fractions, not on the denominator that
    /// they are written over.
    proof fn lemma_form_is_ignored(&self, p: Position, q: Position)
        requires
            p.valid(),
            q.valid(),
            p.x * q.w == q.x * p.w,
            p.y * q.w == q.y * p.w,
        ensures
            self.covers(p) == self.covers(q),
    ;

    /// Whether the shape holds `point`.
    fn inside_bounds(&self, point: ExactPoint) -> (inside: bool)
        ensures
            inside == self.covers(point@),
    ;
}

/// A rectangle centred at the origin of the frame, `width` along the first
/// axis and `height` along the second.
#[derive(Clone, Copy, Debug, PartialEq, Eq, Structural)]
pub struct RectangularBounds {
    pub width: u32,
    pub height: u32,
}

/// Whether `x` is at most half of `extent` away from zero.
pub open spec fn within_half(x: int, extent: int) -> bool {
    -extent <= 2 * x <= extent
}

/// Both sides of an order can be multiplied by a positive number.
proof fn lemma_positive_factor(a: int, b: int, c: int)
    by (nonlinear_arith)
    requires
        c > 0,
    ensures
        a <= b <==> a * c <= b * c,
{
}

/// Two forms of one fraction are within half of an extent of zero together.
proof fn lemma_within_half_of_forms(x: int, w: int, y: int, v: int, extent: int)
    requires
        w > 0,
        v > 0,
        x * v == y * w,
    ensures
        within_half(x, extent * w) == within_half(y, extent * v),
{
    // Over the common denominator w * v both tests read the same.
    lemma_positive_factor(2 * x, extent * w, v);
    lemma_positive_factor(-(extent * w), 2 * x, v);
    lemma_positive_factor(2 * y, extent * v, w);
    lemma_positive_factor(-(extent * v), 2 * y, w);
    assert((2 * x) * v == (2 * y) * w) by (nonlinear_arith)
        requires
            x * v == y * w,
    ;
    assert((extent * w) * v == (extent * v) * w) by (nonlinear_arith);
    assert((-(extent * w)) * v == (-(extent * v)) * w) by (nonlinear_arith);
}

/// The distance of `a` from zero.
fn magnitude(a: i128) -> (m: u128)
    ensures
        m == if a < 0 {
            -a
        } else {
            a as int
        },
{
    if a < 0 {
        let b: i128 = -(a + 1);
        (b as u128) + 1
    } else {
        a as u128
    }
}

/// `(e - 2q) * w` multiplied out.
proof fn lemma_margin(e: int, q: int, w: int)
    by (nonlinear_arith)
    ensures
        (e - 2 * q) * w == e * w - 2 * (q * w),
{
}

/// A multiple of a positive number is on the same side of it as the factor
/// is of one.
proof fn lemma_multiple_order(k: int, w: int)
    by (nonlinear_arith)
    requires
        w > 0,
    ensures
        k <= -1 ==> k * w <= -w,
        k == 0 ==> k * w == 0,
        k == 1 ==> k * w == w,
        k >= 2 ==> k * w >= 2 * w,
{
}

/// Whether the fraction `a / w` is at most half of `extent` away from zero.
/// The test divides rather than multiplies, so that it has room for every
/// numerator and denominator.
fn within_half_extent(a: i128, w: i128, extent: u32) -> (inside: bool)
    requires
        w > 0,
    ensures
        inside == within_half(a as int, extent * w),
{
    let m = magnitude(a);
    let d = w as u128;
    let q = m / d;
    let r = m % d;
    proof {
        lemma_fundamental_div_mod(m as int, d as int);
        assert(m == d * q + r);
        assert(d * q == q * d) by (nonlinear_arith);
        lemma_margin(extent as int, q as int, d as int);
        lemma_multiple_order(extent - 2 * q, d as int);
        // 2m <= extent * w  is  2r <= (extent - 2q) * w, with 0 <= r < w.
    }
    if q > extent as u128 {
        false
    } else {
        let twice = 2 * q;
        let e = extent as u128;
        if twice > e {
            false
        } else if twice == e {
            r == 0
        } else if twice + 1 == e {
            r <= d - r
        } else {
            true
        }
    }
}

impl RectangularBounds {
    /// The rectangle with the given extents.
    pub fn new(width: u32, height: u32) -> (b: RectangularBounds)
        ensures
            b == (RectangularBounds { width, height }),
    {
        RectangularBounds { width, height }
    }
}

impl BoundCheck for RectangularBounds {
    /// The rectangle holds the positions whose first coordinate is at most
    /// half the width, and whose second is at most half the height, away
    /// from zero; its edges belong to it.
    open spec fn covers(&self, p: Position) -> bool {
        &&& within_half(p.x, self.width * p.w)
        &&& within_half(p.y, self.height * p.w)
    }

    proof fn lemma_height_is_ignored(&self, p: Position, q: Position) {
    }

    proof fn lemma_form_is_ignored(&self, p: Position, q: Position) {
        lemma_within_half_of_forms(p.x, p.w, q.x, q.w, self.width as int);
        lemma_within_half_of_forms(p.y, p.w, q.y, q.w, self.height as int);
    }

    fn inside_bounds(&self, point: ExactPoint) -> (inside: bool) {
        let w = point.w();
        within_half_extent(point.x(), w, self.width) && within_half_extent(
            point.y(),
            w,
            self.height,
        )
    }
}

} // verus!
