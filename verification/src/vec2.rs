//! 2D vectors of fixed-point scalars.

use vstd::prelude::*;

use crate::scalar::{
    in_range, isqrt_u128, sat_add, sat_div, sat_mul, sat_neg, sat_sub, spec_add, spec_div,
    spec_mul, spec_neg, spec_sub, sqrt_floor, tdiv, sat,
};

verus! {

/// A pair of fixed-point scalars.
#[derive(Debug, Clone, Copy, PartialEq, Eq, Structural)]
pub struct Vec2 {
    pub x: i64,
    pub y: i64,
}

/// Component-wise saturating addition.
pub open spec fn spec_vadd(a: Vec2, b: Vec2) -> Vec2 {
    Vec2 { x: spec_add(a.x as int, b.x as int) as i64, y: spec_add(a.y as int, b.y as int) as i64 }
}

/// Component-wise saturating subtraction.
pub open spec fn spec_vsub(a: Vec2, b: Vec2) -> Vec2 {
    Vec2 { x: spec_sub(a.x as int, b.x as int) as i64, y: spec_sub(a.y as int, b.y as int) as i64 }
}

/// Component-wise saturating multiplication.
pub open spec fn spec_vmul(a: Vec2, b: Vec2) -> Vec2 {
    Vec2 { x: spec_mul(a.x as int, b.x as int) as i64, y: spec_mul(a.y as int, b.y as int) as i64 }
}

/// Component-wise saturating division.
pub open spec fn spec_vdiv(a: Vec2, b: Vec2) -> Vec2 {
    Vec2 { x: spec_div(a.x as int, b.x as int) as i64, y: spec_div(a.y as int, b.y as int) as i64 }
}

/// Component-wise saturating negation.
pub open spec fn spec_vneg(a: Vec2) -> Vec2 {
    Vec2 { x: spec_neg(a.x as int) as i64, y: spec_neg(a.y as int) as i64 }
}

/// Both components scaled by the scalar `s`.
pub open spec fn spec_vscale(a: Vec2, s: int) -> Vec2 {
    Vec2 { x: spec_mul(a.x as int, s) as i64, y: spec_mul(a.y as int, s) as i64 }
}

/// Both components divided by the scalar `s`.
pub open spec fn spec_vscale_div(a: Vec2, s: int) -> Vec2 {
    Vec2 { x: spec_div(a.x as int, s) as i64, y: spec_div(a.y as int, s) as i64 }
}

/// Saturating fixed-point dot product.
pub open spec fn spec_dot(a: Vec2, b: Vec2) -> int {
    sat(tdiv(a.x * b.x + a.y * b.y, crate::scalar::SCALE as int))
}

/// Sum of the squared raw components: the squared length in raw units, before
/// any rescaling or truncation.
pub open spec fn spec_square_length(a: Vec2) -> int {
    a.x * a.x + a.y * a.y
}

/// Length of the vector in raw units: the floor square root of the exact
/// squared norm.
pub open spec fn spec_length(a: Vec2) -> int {
    sqrt_floor(spec_square_length(a) as nat) as int
}

impl Vec2 {
    /// The zero vector.
    pub fn zero() -> (r: Vec2)
        ensures
            r.x == 0 && r.y == 0,
    {
        Vec2 { x: 0, y: 0 }
    }

    /// The vector with the given components.
    pub fn xy(x: i64, y: i64) -> (r: Vec2)
        ensures
            r.x == x && r.y == y,
    {
        Vec2 { x, y }
    }

    /// The vector along the first axis.
    pub fn x(x: i64) -> (r: Vec2)
        ensures
            r.x == x && r.y == 0,
    {
        Vec2 { x, y: 0 }
    }

    /// The vector along the second axis.
    pub fn y(y: i64) -> (r: Vec2)
        ensures
            r.x == 0 && r.y == y,
    {
        Vec2 { x: 0, y }
    }

    /// Reset both components to zero.
    pub fn clear(&mut self)
        ensures
            final(self).x == 0 && final(self).y == 0,
    {
        self.x = 0;
        self.y = 0;
    }

    /// Component-wise saturating addition.
    pub fn add(self, other: Vec2) -> (r: Vec2)
        ensures
            r == spec_vadd(self, other),
    {
        Vec2 { x: sat_add(self.x, other.x), y: sat_add(self.y, other.y) }
    }

    /// Component-wise saturating subtraction.
    pub fn sub(self, other: Vec2) -> (r: Vec2)
        ensures
            r == spec_vsub(self, other),
    {
        Vec2 { x: sat_sub(self.x, other.x), y: sat_sub(self.y, other.y) }
    }

    /// Component-wise saturating multiplication.
    pub fn mul(self, other: Vec2) -> (r: Vec2)
        ensures
            r == spec_vmul(self, other),
    {
        Vec2 { x: sat_mul(self.x, other.x), y: sat_mul(self.y, other.y) }
    }

    /// Component-wise saturating division.
    pub fn div(self, other: Vec2) -> (r: Vec2)
        requires
            other.x != 0,
            other.y != 0,
        ensures
            r == spec_vdiv(self, other),
    {
        Vec2 { x: sat_div(self.x, other.x), y: sat_div(self.y, other.y) }
    }

    /// Component-wise saturating negation.
    pub fn neg(self) -> (r: Vec2)
        ensures
            r == spec_vneg(self),
    {
        Vec2 { x: sat_neg(self.x), y: sat_neg(self.y) }
    }

    /// Both components scaled by the scalar `s`.
    pub fn scale(self, s: i64) -> (r: Vec2)
        ensures
            r == spec_vscale(self, s as int),
    {
        Vec2 { x: sat_mul(self.x, s), y: sat_mul(self.y, s) }
    }

    /// Both components divided by the scalar `s`.
    pub fn scale_div(self, s: i64) -> (r: Vec2)
        requires
            s != 0,
        ensures
            r == spec_vscale_div(self, s as int),
    {
        Vec2 { x: sat_div(self.x, s), y: sat_div(self.y, s) }
    }

    /// In-place component-wise addition.
    pub fn add_assign(&mut self, other: Vec2)
        ensures
            *final(self) == spec_vadd(*old(self), other),
    {
        *self = self.add(other);
    }

    /// In-place component-wise subtraction.
    pub fn sub_assign(&mut self, other: Vec2)
        ensures
            *final(self) == spec_vsub(*old(self), other),
    {
        *self = self.sub(other);
    }

    /// In-place component-wise multiplication.
    pub fn mul_assign(&mut self, other: Vec2)
        ensures
            *final(self) == spec_vmul(*old(self), other),
    {
        *self = self.mul(other);
    }

    /// In-place component-wise division.
    pub fn div_assign(&mut self, other: Vec2)
        requires
            other.x != 0,
            other.y != 0,
        ensures
            *final(self) == spec_vdiv(*old(self), other),
    {
        *self = self.div(other);
    }

    /// In-place scaling by the scalar `s`.
    pub fn scale_assign(&mut self, s: i64)
        ensures
            *final(self) == spec_vscale(*old(self), s as int),
    {
        *self = self.scale(s);
    }

    /// In-place division by the scalar `s`.
    pub fn scale_div_assign(&mut self, s: i64)
        requires
            s != 0,
        ensures
            *final(self) == spec_vscale_div(*old(self), s as int),
    {
        *self = self.scale_div(s);
    }

    /// Saturating fixed-point dot product.
    pub fn dot(self, other: Vec2) -> (r: i64)
        requires
            in_range(self.x as int),
            in_range(self.y as int),
            in_range(other.x as int),
            in_range(other.y as int),
        ensures
            r as int == spec_dot(self, other),
    {
        proof {
            crate::scalar::lemma_i64_product_fits(self.x as int, other.x as int);
            crate::scalar::lemma_i64_product_fits(self.y as int, other.y as int);
            assert((self.x as int) * (other.x as int) + (self.y as int) * (other.y as int)
                < i128::MAX && (self.x as int) * (other.x as int) + (self.y as int) * (other.y
                as int) > i128::MIN) by (nonlinear_arith)
                requires
                    in_range(self.x as int),
                    in_range(self.y as int),
                    in_range(other.x as int),
                    in_range(other.y as int),
            ;
        }
        let p: i128 = self.x as i128 * other.x as i128 + self.y as i128 * other.y as i128;
        crate::scalar::sat_rescale(p)
    }

    /// The exact squared length of the vector in raw units.
    pub fn square_length(self) -> (r: u128)
        ensures
            r as int == spec_square_length(self),
    {
        proof {
            crate::scalar::lemma_i64_product_fits(self.x as int, self.x as int);
            crate::scalar::lemma_i64_product_fits(self.y as int, self.y as int);
        }
        let px: u128 = (self.x as i128 * self.x as i128) as u128;
        let py: u128 = (self.y as i128 * self.y as i128) as u128;
        px + py
    }

    /// The length of the vector in raw units, truncated to an integer number
    /// of raw steps.
    pub fn length(self) -> (r: i64)
        requires
            in_range(self.x as int),
            in_range(self.y as int),
        ensures
            r as int == spec_length(self),
            0 <= r,
    {
        let sq: u128 = self.square_length();
        proof {
            assert(sq as int <= 2 * (crate::scalar::MAX_SCALAR as int) * (
            crate::scalar::MAX_SCALAR as int)) by (nonlinear_arith)
                requires
                    sq as int == (self.x as int) * (self.x as int) + (self.y as int) * (self.y
                        as int),
                    in_range(self.x as int),
                    in_range(self.y as int),
                    crate::scalar::MAX_SCALAR == 0x4_0000_0000_0000,
            ;
        }
        let root: u64 = isqrt_u128(sq);
        proof {
            assert((root as int) * (root as int) <= sq as int);
            assert(root < i64::MAX) by (nonlinear_arith)
                requires
                    (root as int) * (root as int) <= sq as int,
                    sq as int <= 2 * (crate::scalar::MAX_SCALAR as int) * (
                    crate::scalar::MAX_SCALAR as int),
                    root >= 0,
                    crate::scalar::MAX_SCALAR == 0x4_0000_0000_0000,
            ;
        }
        root as i64
    }
}

} // verus!
