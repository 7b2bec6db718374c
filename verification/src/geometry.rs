//! The bounded plane: a frame in space, the maps between the frame and the
//! space around it, and the test whether a position lies on the plane within
//! its bound.

use vstd::prelude::*;
use crate::bounds::BoundCheck;
use crate::algebra::lemma_product_bound;
use crate::frame::{
    basis_frame,
    lemma_basis_frame_is_orthonormal,
    lemma_frame_inverse_inverts,
    lemma_frame_inverse_is_inverse,
    lemma_round_trip_from_local,
    AffineTransform,
    Frame,
};
use crate::linear::{product, Direction, Mat3, MatrixInverse, Vec3, Vector3, WideVector3};
use crate::point::{ExactPoint, Point, Position};

verus! {

/// Why a plane could not be made.
#[derive(Clone, Copy, Debug, PartialEq, Eq, Structural)]
pub enum ConstructionError {
    /// The two directions are parallel, or one of them is zero: they span no
    /// plane.
    DegenerateBasis,
    /// The transform has no inverse.
    SingularTransform,
}

impl ConstructionError {
    /// What went wrong, in words.
    pub open spec fn description(self) -> Seq<char> {
        match self {
            ConstructionError::DegenerateBasis => "the directions are parallel or zero and span no plane"@,
            ConstructionError::SingularTransform => "the transform has no inverse"@,
        }
    }

    /// What went wrong, in words.
    pub fn message(&self) -> (text: &'static str)
        ensures
            text@ == self.description(),
    {
        match self {
            ConstructionError::DegenerateBasis => "the directions are parallel or zero and span no plane",
            ConstructionError::SingularTransform => "the transform has no inverse",
        }
    }
}

/// `w * o + (x * a + y * b + z * c)`: one coordinate of the origin over the
/// denominator `w`, plus the axes weighted by the numerators.
fn weighted_sum(w: i64, o: i32, x: i32, a: i64, y: i32, b: i64, z: i32, c: i64) -> (s: i128)
    requires
        -0x8000_0000_0000 <= a <= 0x8000_0000_0000,
        -0x8000_0000_0000 <= b <= 0x8000_0000_0000,
        -0x8000_0000 <= c <= 0x8000_0000,
    ensures
        s == w * o + (x * a + y * b + z * c),
{
    proof {
        lemma_product_bound(w as int, o as int, 0x8000_0000_0000_0000, 0x8000_0000);
        lemma_product_bound(x as int, a as int, 0x8000_0000, 0x8000_0000_0000);
        lemma_product_bound(y as int, b as int, 0x8000_0000, 0x8000_0000_0000);
        lemma_product_bound(z as int, c as int, 0x8000_0000, 0x8000_0000);
    }
    (w as i128) * (o as i128) + ((x as i128) * (a as i128) + (y as i128) * (b as i128) + (z as i128)
        * (c as i128))
}

/// The axis `v` times `k`, where `k` is one or the axis is within 2^15.
fn axis_numerators(v: &Vector3, k: u32) -> (n: WideVector3)
    requires
        k == 1 || v@.within(0x8000),
    ensures
        n@ == v@.scaled(k as int),
        n@.within(0x8000_0000_0000),
{
    proof {
        if k != 1 {
            lemma_product_bound(k as int, v.x as int, 0xffff_ffff, 0x8000);
            lemma_product_bound(k as int, v.y as int, 0xffff_ffff, 0x8000);
            lemma_product_bound(k as int, v.z as int, 0xffff_ffff, 0x8000);
        } else {
            lemma_product_bound(k as int, v.x as int, 1, 0x8000_0000);
            lemma_product_bound(k as int, v.y as int, 1, 0x8000_0000);
            lemma_product_bound(k as int, v.z as int, 1, 0x8000_0000);
        }
    }
    WideVector3 {
        x: (k as i64) * (v.x as i64),
        y: (k as i64) * (v.y as i64),
        z: (k as i64) * (v.z as i64),
    }
}

/// A plane in space with a bound: the plane of the first two axes of a frame
/// through its origin, and a shape in that plane.
#[derive(Debug)]
pub struct Plane<B: BoundCheck> {
    transformation: AffineTransform,
    inverse: MatrixInverse,
    bounds: B,
}

impl<B: BoundCheck> View for Plane<B> {
    type V = Frame;

    closed spec fn view(&self) -> Frame {
        self.transformation@
    }
}

impl<B: BoundCheck> Plane<B> {
    #[verifier::type_invariant]
    spec fn inverse_is_cached(self) -> bool {
        &&& self.transformation@.compact()
        &&& self.inverse.inverts_with(
            self.transformation@.axes,
            self.transformation@.normal_num,
            self.transformation@.normal_den,
        )
        &&& self.inverse.denominator <= 0xc000_0000_0000_0000_0000_0000
    }

    /// The bound of the plane.
    pub closed spec fn bound(&self) -> B {
        self.bounds
    }

    /// Whether the position `g` in space lies on the plane and within its
    /// bound.
    pub open spec fn contains(&self, g: Position) -> bool {
        &&& self@.on_plane(g)
        &&& self.bound().covers(self@.to_local(g))
    }

    /// The plane of the frame that `transform` takes the standard frame to,
    /// with the bound `bounds`. The inverse of the transform is worked out
    /// here, once; a transform without an inverse gives no plane.
    pub fn new(transform: AffineTransform, bounds: B) -> (r: Result<Plane<B>, ConstructionError>)
        ensures
            match r {
                Ok(plane) => transform@.valid() && plane@ == transform@ && plane.bound() == bounds,
                Err(e) => !transform@.valid() && e == ConstructionError::SingularTransform,
            },
    {
        let (num, den) = transform.normal_scale();
        let linear = transform.linear();
        let found = if num == 1 && den == 1 {
            linear.try_inverse()
        } else {
            linear.try_inverse_with(num, den)
        };
        match found {
            Some(inverse) => Ok(Plane { transformation: transform, inverse, bounds }),
            None => Err(ConstructionError::SingularTransform),
        }
    }

    /// The plane through `center` that the directions `diru` and `dirv`
    /// span, with the bound `bounds`. The directions are the first two axes
    /// of the frame as they stand. The third is orthogonal to both, on the
    /// side of their cross product, and of unit length: the square of its
    /// length is one, or above one by at most one part in 100000 where the
    /// unit vector has no exact form. It is the plane of the transform that
    /// `AffineTransform::from_basis` gives. Directions that are parallel, or
    /// zero, give no plane.
    pub fn from_basis(center: Vector3, diru: Direction, dirv: Direction, bounds: B) -> (r: Result<
        Plane<B>,
        ConstructionError,
    >)
        ensures
            match r {
                Ok(plane) => {
                    &&& diru@.cross(dirv@) != Vec3::zero()
                    &&& plane@ == basis_frame(center@, diru@, dirv@)
                    &&& plane@.valid()
                    &&& plane.bound() == bounds
                    &&& diru@.dot(plane@.axes.z_axis) == 0
                    &&& dirv@.dot(plane@.axes.z_axis) == 0
                    &&& plane@.axes.z_axis.dot(diru@.cross(dirv@)) > 0
                    &&& ({
                        let (n, d) = plane@.normal_length_squared();
                        d > 0 && d <= n && 100000 * (n - d) <= d
                    })
                },
                Err(e) => diru@.cross(dirv@) == Vec3::zero() && e
                    == ConstructionError::DegenerateBasis,
            },
    {
        match AffineTransform::from_basis(center, diru, dirv) {
            Some(transform) => {
                proof {
                    lemma_basis_frame_is_orthonormal(center@, diru@, dirv@);
                    let d = transform@.normal_den;
                    assert(d * d > 0) by (nonlinear_arith)
                        requires
                            d > 0,
                    ;
                }
                // The frame of a basis is valid, so the transform has an
                // inverse.
                match Plane::new(transform, bounds) {
                    Ok(plane) => Ok(plane),
                    Err(_) => Err(ConstructionError::DegenerateBasis),
                }
            },
            None => Err(ConstructionError::DegenerateBasis),
        }
    }

    /// The transform that takes coordinates in the plane's frame to space.
    pub fn transformation(&self) -> (t: AffineTransform)
        ensures
            t@ == self@,
    {
        self.transformation
    }

    /// The inverse of the axes, as it was worked out when the plane was
    /// made: numerators over a positive denominator. In either order the
    /// numerators of the axes times the numerators of the inverse are the
    /// identity scaled by the product of the two denominators.
    pub fn inverse_rotation(&self) -> (inverse: MatrixInverse)
        ensures
            self@.valid(),
            inverse.numerators() == self@.inverse_numerators(),
            inverse.denominator == self@.inverse_denominator(),
            inverse.denominator > 0,
            self@.rotation_numerators().times(inverse.numerators()) == Mat3::identity().scaled(
                self@.normal_den * inverse.denominator,
            ),
            inverse.numerators().times(self@.rotation_numerators()) == Mat3::identity().scaled(
                self@.normal_den * inverse.denominator,
            ),
    {
        proof {
            use_type_invariant(self);
            lemma_frame_inverse_inverts(self@, Vec3::zero());
            lemma_frame_inverse_is_inverse(self@);
        }
        self.inverse
    }

    /// The bound of the plane.
    pub fn bounds(&self) -> (b: &B)
        ensures
            *b == self.bound(),
    {
        &self.bounds
    }

    /// The position in space of the point with the coordinates `point` in
    /// the plane's frame.
    pub fn local_to_global(&self, point: Point) -> (global: ExactPoint)
        ensures
            self@.valid(),
            global@ == self@.to_global(point@),
    {
        proof {
            use_type_invariant(self);
        }
        let (num, den) = self.transformation.normal_scale();
        let o = self.transformation.translation();
        let m = self.transformation.linear();
        let w = point.w();
        proof {
            lemma_product_bound(den as int, w as int, 0xffff_ffff, 0x7fff_ffff);
            assert(den * w > 0) by (nonlinear_arith)
                requires
                    den > 0,
                    w > 0,
            ;
        }
        let scaled_w: i64 = (den as i64) * (w as i64);
        let a = axis_numerators(&m.x_axis, den);
        let b = axis_numerators(&m.y_axis, den);
        let c = m.z_axis.scaled_by(num);
        let (px, py, pz) = (point.x(), point.y(), point.z());
        let x = weighted_sum(scaled_w, o.x, px, a.x, py, b.x, pz, c.x);
        let y = weighted_sum(scaled_w, o.y, px, a.y, py, b.y, pz, c.y);
        let z = weighted_sum(scaled_w, o.z, px, a.z, py, b.z, pz, c.z);
        ExactPoint::over(x, y, z, scaled_w as i128)
    }

    /// The coordinates in the plane's frame of the position `point` in
    /// space, by the inverse that the plane holds.
    pub fn global_to_local(&self, point: Point) -> (local: ExactPoint)
        ensures
            self@.valid(),
            local@ == self@.to_local(point@),
    {
        proof {
            use_type_invariant(self);
        }
        let w = point.w();
        let o = self.transformation.translation();
        proof {
            lemma_product_bound(w as int, o.x as int, 0x7fff_ffff, 0x8000_0000);
            lemma_product_bound(w as int, o.y as int, 0x7fff_ffff, 0x8000_0000);
            lemma_product_bound(w as int, o.z as int, 0x7fff_ffff, 0x8000_0000);
        }
        let offset = WideVector3 {
            x: point.x() as i64 - product(w, o.x),
            y: point.y() as i64 - product(w, o.y),
            z: point.z() as i64 - product(w, o.z),
        };
        let x = offset.dot(&self.inverse.x_row);
        let y = offset.dot(&self.inverse.y_row);
        let z = offset.dot(&self.inverse.z_row);
        proof {
            lemma_frame_inverse_inverts(self@, Vec3::zero());
            lemma_product_bound(
                self.inverse.denominator as int,
                w as int,
                0xc000_0000_0000_0000_0000_0000,
                0x8000_0000,
            );
            assert(self.inverse.denominator * w > 0) by (nonlinear_arith)
                requires
                    self.inverse.denominator > 0,
                    w > 0,
            ;
        }
        let denominator = self.inverse.denominator * (w as i128);
        ExactPoint::over(x, y, z, denominator)
    }

    /// Whether the position `point` in space lies on the plane and within
    /// its bound. A position off the plane is outside, whatever the bound.
    pub fn is_inside(&self, point: Point) -> (inside: bool)
        ensures
            self@.valid(),
            inside == self.contains(point@),
    {
        let local = self.global_to_local(point);
        if local.z() == 0 {
            self.bounds.inside_bounds(local)
        } else {
            false
        }
    }
}

/// The position in space of a point given in a plane's frame is inside the
/// plane exactly when the point has no height above the plane and the bound
/// holds it.
pub proof fn lemma_image_is_inside<B: BoundCheck>(plane: Plane<B>, p: Position)
    requires
        plane@.valid(),
        p.valid(),
    ensures
        plane.contains(plane@.to_global(p)) == (p.z == 0 && plane.bound().covers(p)),
{
    let k = plane@.round_trip_factor();
    let back = plane@.to_local(plane@.to_global(p));
    lemma_round_trip_from_local(plane@, p);
    assert(k * p.z == 0 <==> p.z == 0) by (nonlinear_arith)
        requires
            k > 0,
    ;
    plane.bound().lemma_form_is_ignored(back, p);
}

} // verus!
