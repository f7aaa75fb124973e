//! Axis-aligned bounding boxes.
//!
//! A box is stored by its four edges. After toroidal wrapping the stored
//! `left` may exceed the stored `right` (and `top` exceed `bottom`): such a
//! box straddles a domain edge and must be treated as wrapping, not as
//! inverted.

use vstd::prelude::*;

use crate::scalar::{sat_add, sat_sub, spec_add, spec_sub, tdiv, tdiv_exec};
use crate::vec2::Vec2;

verus! {

/// An axis-aligned bounding box given by its four edges.
#[derive(Debug, Clone, Copy, PartialEq, Eq, Structural)]
pub struct AxisAlignmentBoundingBox {
    pub left: i64,
    pub right: i64,
    pub top: i64,
    pub bottom: i64,
}

impl AxisAlignmentBoundingBox {
    /// The box of a circle of the given radius centred at `position`.
    pub open spec fn spec_of_circle(position: Vec2, radius: int) -> AxisAlignmentBoundingBox {
        AxisAlignmentBoundingBox {
            left: spec_sub(position.x as int, radius) as i64,
            right: spec_add(position.x as int, radius) as i64,
            top: spec_sub(position.y as int, radius) as i64,
            bottom: spec_add(position.y as int, radius) as i64,
        }
    }

    /// The box centred at `position` extending `half_size` to each side.
    pub fn new(position: Vec2, half_size: Vec2) -> (r: AxisAlignmentBoundingBox)
        ensures
            r.left as int == spec_sub(position.x as int, half_size.x as int),
            r.right as int == spec_add(position.x as int, half_size.x as int),
            r.top as int == spec_sub(position.y as int, half_size.y as int),
            r.bottom as int == spec_add(position.y as int, half_size.y as int),
    {
        AxisAlignmentBoundingBox {
            left: sat_sub(position.x, half_size.x),
            right: sat_add(position.x, half_size.x),
            top: sat_sub(position.y, half_size.y),
            bottom: sat_add(position.y, half_size.y),
        }
    }

    /// The box with the given edges.
    pub fn from_bounds(left: i64, right: i64, top: i64, bottom: i64) -> (r:
        AxisAlignmentBoundingBox)
        ensures
            r.left == left,
            r.right == right,
            r.top == top,
            r.bottom == bottom,
    {
        AxisAlignmentBoundingBox { left, right, top, bottom }
    }

    /// The left edge.
    pub fn left(&self) -> (r: i64)
        ensures
            r == self.left,
    {
        self.left
    }

    /// The right edge.
    pub fn right(&self) -> (r: i64)
        ensures
            r == self.right,
    {
        self.right
    }

    /// The top edge.
    pub fn top(&self) -> (r: i64)
        ensures
            r == self.top,
    {
        self.top
    }

    /// The bottom edge.
    pub fn bottom(&self) -> (r: i64)
        ensures
            r == self.bottom,
    {
        self.bottom
    }

    /// The centre of the box.
    pub fn position(&self) -> (r: Vec2)
        ensures
            r.x as int == tdiv(spec_add(self.right as int, self.left as int), 2),
            r.y as int == tdiv(spec_add(self.bottom as int, self.top as int), 2),
    {
        Vec2::xy(
            tdiv_exec(sat_add(self.right, self.left), 2),
            tdiv_exec(sat_add(self.bottom, self.top), 2),
        )
    }

    /// Half of the extent of the box on each axis.
    pub fn half_dimension(&self) -> (r: Vec2)
        ensures
            r.x as int == tdiv(spec_sub(self.right as int, self.left as int), 2),
            r.y as int == tdiv(spec_sub(self.bottom as int, self.top as int), 2),
    {
        Vec2::xy(
            tdiv_exec(sat_sub(self.right, self.left), 2),
            tdiv_exec(sat_sub(self.bottom, self.top), 2),
        )
    }

    /// The extent of the box on each axis.
    pub fn dimension(&self) -> (r: Vec2)
        ensures
            r.x as int == spec_sub(self.right as int, self.left as int),
            r.y as int == spec_sub(self.bottom as int, self.top as int),
    {
        Vec2::xy(sat_sub(self.right, self.left), sat_sub(self.bottom, self.top))
    }
}

} // verus!
