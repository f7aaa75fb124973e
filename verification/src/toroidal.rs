//! Toroidal geometry: canonical coordinates and shortest signed distances
//! under periodic identification of the domain edges.

use vstd::prelude::*;

use crate::bounding::AxisAlignmentBoundingBox;
use crate::scalar::{HALF_SCALE, SCALE};
use crate::vec2::Vec2;

verus! {

/// Raw extent of a toroidal axis of `length` units.
pub open spec fn period(length: int) -> int {
    length * SCALE
}

/// Raw extent of half a toroidal axis of `length` units.
pub open spec fn half_period(length: int) -> int {
    length * HALF_SCALE
}

/// The shortest signed distance equivalent to `d` on a toroidal axis of
/// `length` units: a difference beyond half the period is folded once by a
/// full period, and a difference beyond the whole period is clamped to the
/// half period as a degenerate fallback.
pub open spec fn spec_min_distance(d: int, length: int) -> int {
    if d > half_period(length) {
        if d <= period(length) {
            d - period(length)
        } else {
            half_period(length)
        }
    } else if d < -half_period(length) {
        if d >= -period(length) {
            d + period(length)
        } else {
            -half_period(length)
        }
    } else {
        d
    }
}

/// The canonical representative of `c` on a toroidal axis of `length` units:
/// the Euclidean remainder of `c` modulo the period, always in
/// `[0, period)`.
pub open spec fn spec_min_coordinate(c: int, length: int) -> int {
    c % period(length)
}

/// The shortest signed distance never leaves `[-half_period, half_period]`.
pub proof fn lemma_min_distance_bounded(d: int, length: int)
    requires
        length >= 1,
    ensures
        -half_period(length) <= spec_min_distance(d, length) <= half_period(length),
{
    assert(period(length) == 2 * half_period(length)) by (nonlinear_arith)
        requires
            SCALE == 1024 && HALF_SCALE == 512,
    ;
}

/// Computes the minimal analogous distance in a toroidal space of the
/// specified length. The magnitude of this minimal distance is never greater
/// than half the period.
pub fn min_distance(distance: i64, length: u32) -> (r: i64)
    requires
        length >= 1,
    ensures
        r as int == spec_min_distance(distance as int, length as int),
        -half_period(length as int) <= r as int <= half_period(length as int),
{
    proof {
        lemma_min_distance_bounded(distance as int, length as int);
    }
    let l: i64 = length as i64 * SCALE;
    let h: i64 = length as i64 * HALF_SCALE;
    if distance > h {
        if distance <= l {
            distance - l
        } else {
            h
        }
    } else if distance < -h {
        if distance >= -l {
            distance + l
        } else {
            -h
        }
    } else {
        distance
    }
}

/// Canonicalization stays in `[0, period)` and is periodic: shifting the
/// input by any whole number of periods leaves the result unchanged.
pub proof fn lemma_min_coordinate_canonical(c: int, k: int, length: int)
    requires
        length >= 1,
    ensures
        0 <= spec_min_coordinate(c, length) < period(length),
        spec_min_coordinate(c + k * period(length), length) == spec_min_coordinate(c, length),
{
    let l = period(length);
    assert(l >= 1024) by (nonlinear_arith)
        requires
            length >= 1 && SCALE == 1024 && l == length * SCALE,
    ;
    vstd::arithmetic::div_mod::lemma_mod_bound(c, l);
    assert((l * k + c) % l == c % l) by {
        vstd::arithmetic::div_mod::lemma_mod_multiples_vanish(k, c, l);
    }
    assert(c + k * l == l * k + c) by (nonlinear_arith);
}

/// The shortest signed distance is an odd function of the difference.
pub proof fn lemma_min_distance_odd(d: int, length: int)
    requires
        length >= 1,
    ensures
        spec_min_distance(-d, length) == -spec_min_distance(d, length),
{
    assert(period(length) == 2 * half_period(length)) by (nonlinear_arith)
        requires
            SCALE == 1024 && HALF_SCALE == 512,
    ;
}

/// Computes the minimal representation of a coordinate in a toroidal space of
/// the specified length. The computed coordinate is always in `[0, period)`.
pub fn min_coordinate(coordinate: i64, length: u32) -> (r: i64)
    requires
        length >= 1,
    ensures
        r as int == spec_min_coordinate(coordinate as int, length as int),
        0 <= r && (r as int) < period(length as int),
{
    let l: i64 = length as i64 * SCALE;
    proof {
        lemma_min_coordinate_canonical(coordinate as int, 0, length as int);
    }
    if coordinate >= 0 {
        let m: u64 = (coordinate as u64) % (l as u64);
        m as i64
    } else {
        let a: u128 = (-(coordinate as i128)) as u128;
        let m: u128 = a % (l as u128);
        proof {
            let c = coordinate as int;
            let q = a as int / l as int;
            vstd::arithmetic::div_mod::lemma_fundamental_div_mod(a as int, l as int);
            if m == 0 {
                assert(c == (-q) * (l as int) + 0) by (nonlinear_arith)
                    requires
                        c == -(a as int) && a as int == q * (l as int) + m && m == 0,
                ;
                vstd::arithmetic::div_mod::lemma_fundamental_div_mod_converse(
                    c,
                    l as int,
                    -q,
                    0,
                );
            } else {
                assert(c == (-q - 1) * (l as int) + (l as int - m as int)) by (nonlinear_arith)
                    requires
                        c == -(a as int) && a as int == q * (l as int) + m,
                ;
                vstd::arithmetic::div_mod::lemma_fundamental_div_mod_converse(
                    c,
                    l as int,
                    -q - 1,
                    l as int - m as int,
                );
            }
        }
        if m == 0 {
            0
        } else {
            (l as u64 - m as u64) as i64
        }
    }
}

/// A 2D toroidal bounds definition: the rectangular domain of `width` by
/// `height` units whose opposite edges are identified.
#[derive(Debug, Clone, Copy, PartialEq, Eq, Structural)]
pub struct Bounds {
    pub width: u32,
    pub height: u32,
}

impl Bounds {
    /// Whether the bounds describe a non-empty domain.
    pub open spec fn wf(self) -> bool {
        self.width >= 1 && self.height >= 1
    }

    /// The bounds of a `width` by `height` toroidal domain.
    pub fn new(width: u32, height: u32) -> (r: Bounds)
        requires
            width >= 1,
            height >= 1,
        ensures
            r.width == width,
            r.height == height,
            r.wf(),
    {
        Bounds { width, height }
    }

    /// Like `min_distance`, applied to each axis of a 2D difference.
    pub fn get_toroidal_distance(&self, distance: Vec2) -> (r: Vec2)
        requires
            self.wf(),
        ensures
            r.x as int == spec_min_distance(distance.x as int, self.width as int),
            r.y as int == spec_min_distance(distance.y as int, self.height as int),
    {
        Vec2::xy(min_distance(distance.x, self.width), min_distance(distance.y, self.height))
    }

    /// Like `min_coordinate`, applied to each axis of a 2D position.
    pub fn get_toroidal_position(&self, position: Vec2) -> (r: Vec2)
        requires
            self.wf(),
        ensures
            r.x as int == spec_min_coordinate(position.x as int, self.width as int),
            r.y as int == spec_min_coordinate(position.y as int, self.height as int),
            0 <= r.x && (r.x as int) < period(self.width as int),
            0 <= r.y && (r.y as int) < period(self.height as int),
    {
        Vec2::xy(min_coordinate(position.x, self.width), min_coordinate(position.y, self.height))
    }

    /// Like `min_coordinate`, applied to each edge of a bounding box
    /// independently: a wrapped box whose `left` exceeds its `right`
    /// straddles the domain edge.
    pub fn get_toroidal_aabb(&self, aabb: &AxisAlignmentBoundingBox) -> (r:
        AxisAlignmentBoundingBox)
        requires
            self.wf(),
        ensures
            r.left as int == spec_min_coordinate(aabb.left as int, self.width as int),
            r.right as int == spec_min_coordinate(aabb.right as int, self.width as int),
            r.top as int == spec_min_coordinate(aabb.top as int, self.height as int),
            r.bottom as int == spec_min_coordinate(aabb.bottom as int, self.height as int),
            0 <= r.left && (r.left as int) < period(self.width as int),
            0 <= r.right && (r.right as int) < period(self.width as int),
            0 <= r.top && (r.top as int) < period(self.height as int),
            0 <= r.bottom && (r.bottom as int) < period(self.height as int),
    {
        AxisAlignmentBoundingBox::from_bounds(
            min_coordinate(aabb.left(), self.width),
            min_coordinate(aabb.right(), self.width),
            min_coordinate(aabb.top(), self.height),
            min_coordinate(aabb.bottom(), self.height),
        )
    }

    /// The raw extents of the domain as a vector.
    pub fn dimension(&self) -> (r: Vec2)
        ensures
            r.x as int == period(self.width as int),
            r.y as int == period(self.height as int),
    {
        Vec2::xy(self.width as i64 * SCALE, self.height as i64 * SCALE)
    }
}

} // verus!
