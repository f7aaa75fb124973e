//! Collidable shape kinds.

use vstd::prelude::*;

use crate::vec2::Vec2;

verus! {

/// A closed set of shape kinds, pattern-matched exhaustively so that a new
/// kind is a localized change.
#[derive(Debug, Clone, Copy, PartialEq, Eq, Structural)]
pub enum Shape {
    /// A circle of the given fixed-point radius.
    Circle(i64),
}

/// The radius that bounds the shape on each axis.
pub open spec fn spec_radius(s: Shape) -> int {
    match s {
        Shape::Circle(radius) => radius as int,
    }
}

impl Shape {
    /// Half of the extent of the shape's bounding box on each axis.
    pub fn half_dimension(&self) -> (r: Vec2)
        ensures
            r.x as int == spec_radius(*self),
            r.y as int == spec_radius(*self),
    {
        match *self {
            Shape::Circle(radius) => Vec2::xy(radius, radius),
        }
    }
}

} // verus!
