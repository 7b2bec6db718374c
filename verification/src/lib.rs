//! Bounded planes in three-dimensional space, over exact integer arithmetic.
//!
//! A plane carries a frame (an origin and three axes) and a bound, a shape
//! around the origin in the plane of the first two axes. The library takes
//! positions between the plane's frame and the space around it, and tells
//! whether a position in space lies on the plane and within its bound.
//!
//! The maps are exact. Axes and origins have integer components; positions
//! are fractions over a common positive denominator. The inverse of the axes
//! is held as integer numerators over one denominator, so the two maps
//! invert one another exactly, and a position is on the plane when its
//! height above it is zero, not when it is small.
//!
//! One number is rounded, once, when a plane is made from two directions:
//! the scale that brings their cross product to unit length. Where the unit
//! vector has an exact form, it is taken; elsewhere the square of the length
//! of the third axis is above one by less than one part in 100000. Whatever
//! the scale, it is a fraction, and the maps stay exact inverses.
//!
//! What goes in is narrow and what comes out is wide: a `Point` has
//! components of 32 bits, and its images are `ExactPoint`s with components
//! of 128 bits, which have room for every image. No operation of a plane can
//! fail or overflow once the plane is made.

pub mod algebra;
pub mod bounds;
pub mod frame;
pub mod geometry;
pub mod linear;
pub mod point;

pub use bounds::{BoundCheck, RectangularBounds};
pub use frame::{AffineTransform, Frame, Matrix4};
pub use geometry::{ConstructionError, Plane};
pub use linear::{Direction, Mat3, Matrix3, MatrixInverse, Vec3, Vector3, WideVector3};
pub use point::{ExactPoint, Point, Position};
