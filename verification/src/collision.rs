//! Narrow-phase toroidal circle-circle testing and impulse-based contact
//! resolution.

use vstd::prelude::*;

use crate::body::Body;
use crate::scalar::{
    in_range, sat_add, sat_div, sat_mul, sat_neg, sat_sub, spec_add, spec_div, spec_mul,
    spec_neg, spec_sub, tdiv,
};
use crate::shapes::{spec_radius, Shape};
use crate::toroidal::{half_period, spec_min_distance, Bounds};
use crate::vec2::{spec_dot, spec_length, spec_square_length, spec_vadd, spec_vscale, spec_vsub, Vec2};

verus! {

/// An ephemeral contact: the unit-ish normal from the second body toward the
/// first along the shortest toroidal separation, and the penetration depth
/// along it.
#[derive(Debug, Clone, Copy, PartialEq, Eq, Structural)]
pub struct Contact {
    pub normal: Vec2,
    pub overlap: i64,
}

/// The shortest toroidal separation vector from `p2` to `p1`.
pub open spec fn spec_separation(bounds: Bounds, p1: Vec2, p2: Vec2) -> Vec2 {
    Vec2 {
        x: spec_min_distance(spec_sub(p1.x as int, p2.x as int), bounds.width as int) as i64,
        y: spec_min_distance(spec_sub(p1.y as int, p2.y as int), bounds.height as int) as i64,
    }
}

/// Whether two circles at `p1` and `p2` with radii `r1` and `r2` overlap
/// under the toroidal metric: the squared separation is strictly below the
/// squared sum of radii.
pub open spec fn spec_circles_overlap(bounds: Bounds, p1: Vec2, r1: int, p2: Vec2, r2: int) -> bool {
    let d = spec_separation(bounds, p1, p2);
    let cl = spec_add(r1, r2);
    spec_square_length(d) < cl * cl
}

/// The narrow-phase result for two circles: a contact exactly when they
/// overlap, with the normal along the separation (zero for exactly
/// coincident centres) and the overlap along it.
pub open spec fn spec_check_circle(bounds: Bounds, p1: Vec2, r1: int, p2: Vec2, r2: int) -> Option<
    Contact,
> {
    let d = spec_separation(bounds, p1, p2);
    let cl = spec_add(r1, r2);
    if spec_square_length(d) < cl * cl {
        let len = spec_length(d);
        Some(
            Contact {
                normal: if len > 0 {
                    Vec2 {
                        x: spec_div(d.x as int, len) as i64,
                        y: spec_div(d.y as int, len) as i64,
                    }
                } else {
                    Vec2 { x: 0, y: 0 }
                },
                overlap: spec_sub(cl, len) as i64,
            },
        )
    } else {
        None
    }
}

/// The narrow-phase result for two shapes.
pub open spec fn spec_check_collision(
    bounds: Bounds,
    p1: Vec2,
    s1: Shape,
    p2: Vec2,
    s2: Shape,
) -> Option<Contact> {
    spec_check_circle(bounds, p1, spec_radius(s1), p2, spec_radius(s2))
}

/// The narrow-phase result for two bodies: nothing unless both carry a shape.
pub open spec fn spec_test_collision(bounds: Bounds, b1: Body, b2: Body) -> Option<Contact> {
    match (b1.shape, b2.shape) {
        (Some(s1), Some(s2)) => spec_check_collision(bounds, b1.position, s1, b2.position, s2),
        _ => None,
    }
}

/// The two bodies after the positional correction of a contact: each is
/// displaced along the normal by the overlap weighted by its share of the
/// total inverse mass, in opposite directions.
pub open spec fn spec_resolve_overlap(c: Contact, b1: Body, b2: Body) -> (Body, Body) {
    let total = spec_add(b1.inverse_mass as int, b2.inverse_mass as int);
    let displacement = spec_vscale(c.normal, spec_div(c.overlap as int, total));
    (
        Body {
            position: spec_vadd(b1.position, spec_vscale(displacement, b1.inverse_mass as int)),
            ..b1
        },
        Body {
            position: spec_vadd(
                b2.position,
                spec_vscale(displacement, spec_neg(b2.inverse_mass as int)),
            ),
            ..b2
        },
    )
}

/// The two bodies after the velocity correction of a contact: if they are
/// approaching along the normal, an impulse reverses the separating speed
/// scaled by the product of both restitutions, weighted by inverse mass.
pub open spec fn spec_resolve_velocity(c: Contact, b1: Body, b2: Body) -> (Body, Body) {
    let s = spec_dot(c.normal, spec_vsub(b1.velocity, b2.velocity));
    if s < 0 {
        let new_s = spec_mul(
            spec_mul(spec_neg(s), b1.restitution as int),
            b2.restitution as int,
        );
        let delta = spec_sub(new_s, s);
        let total = spec_add(b1.inverse_mass as int, b2.inverse_mass as int);
        let impulse = spec_vscale(c.normal, spec_div(delta, total));
        (
            Body {
                velocity: spec_vadd(b1.velocity, spec_vscale(impulse, b1.inverse_mass as int)),
                ..b1
            },
            Body {
                velocity: spec_vadd(
                    b2.velocity,
                    spec_vscale(impulse, spec_neg(b2.inverse_mass as int)),
                ),
                ..b2
            },
        )
    } else {
        (b1, b2)
    }
}

/// Whether two circles overlap does not depend on their order.
pub proof fn lemma_overlap_symmetric(bounds: Bounds, p1: Vec2, r1: int, p2: Vec2, r2: int)
    requires
        bounds.wf(),
    ensures
        spec_circles_overlap(bounds, p1, r1, p2, r2) == spec_circles_overlap(
            bounds,
            p2,
            r2,
            p1,
            r1,
        ),
{
    let d12 = spec_separation(bounds, p1, p2);
    let d21 = spec_separation(bounds, p2, p1);
    assert(spec_sub(p2.x as int, p1.x as int) == -spec_sub(p1.x as int, p2.x as int));
    assert(spec_sub(p2.y as int, p1.y as int) == -spec_sub(p1.y as int, p2.y as int));
    crate::toroidal::lemma_min_distance_odd(
        spec_sub(p1.x as int, p2.x as int),
        bounds.width as int,
    );
    crate::toroidal::lemma_min_distance_odd(
        spec_sub(p1.y as int, p2.y as int),
        bounds.height as int,
    );
    assert(d21.x == -(d12.x as int) && d21.y == -(d12.y as int));
    assert(spec_square_length(d21) == spec_square_length(d12)) by (nonlinear_arith)
        requires
            d21.x == -(d12.x as int) && d21.y == -(d12.y as int),
            spec_square_length(d21) == d21.x * d21.x + d21.y * d21.y,
            spec_square_length(d12) == d12.x * d12.x + d12.y * d12.y,
    ;
}

/// Whether two bodies collide does not depend on their order.
pub proof fn lemma_test_collision_symmetric(bounds: Bounds, b1: Body, b2: Body)
    requires
        bounds.wf(),
    ensures
        spec_test_collision(bounds, b1, b2) is Some <==> spec_test_collision(bounds, b2, b1)
            is Some,
{
    match (b1.shape, b2.shape) {
        (Some(s1), Some(s2)) => {
            lemma_overlap_symmetric(
                bounds,
                b1.position,
                spec_radius(s1),
                b2.position,
                spec_radius(s2),
            );
        },
        _ => {},
    }
}

impl Contact {
    /// The contact normal.
    pub fn normal(&self) -> (r: Vec2)
        ensures
            r == self.normal,
    {
        self.normal
    }

    /// The penetration depth along the normal.
    pub fn overlap(&self) -> (r: i64)
        ensures
            r == self.overlap,
    {
        self.overlap
    }

    /// The positional correction: displace both bodies out of overlap,
    /// weighted by inverse mass.
    pub fn resolve_overlap(&self, b1: &mut Body, b2: &mut Body)
        requires
            spec_add(old(b1).inverse_mass as int, old(b2).inverse_mass as int) != 0,
        ensures
            (*final(b1), *final(b2)) == spec_resolve_overlap(*self, *old(b1), *old(b2)),
            final(b1).wf() == old(b1).wf(),
            final(b2).wf() == old(b2).wf(),
    {
        let total_inverse_mass = sat_add(b1.inverse_mass(), b2.inverse_mass());
        let displacement = self.normal.scale(sat_div(self.overlap, total_inverse_mass));
        b1.displace(displacement.scale(b1.inverse_mass()));
        b2.displace(displacement.scale(sat_neg(b2.inverse_mass())));
    }

    /// The velocity correction: apply the restitution impulse if the bodies
    /// are approaching along the normal.
    pub fn resolve_velocity(&self, b1: &mut Body, b2: &mut Body)
        requires
            spec_add(old(b1).inverse_mass as int, old(b2).inverse_mass as int) != 0,
            in_range(self.normal.x as int),
            in_range(self.normal.y as int),
        ensures
            (*final(b1), *final(b2)) == spec_resolve_velocity(*self, *old(b1), *old(b2)),
            old(b1).wf() ==> final(b1).wf(),
            old(b2).wf() ==> final(b2).wf(),
    {
        let separating_speed = self.normal.dot(b1.velocity().sub(b2.velocity()));
        if separating_speed < 0 {
            let new_separating_speed = sat_mul(
                sat_mul(sat_neg(separating_speed), b1.restitution()),
                b2.restitution(),
            );
            let delta_speed = sat_sub(new_separating_speed, separating_speed);

            let total_inverse_mass = sat_add(b1.inverse_mass(), b2.inverse_mass());
            let impulse = self.normal.scale(sat_div(delta_speed, total_inverse_mass));

            b1.add_velocity(impulse.scale(b1.inverse_mass()));
            b2.add_velocity(impulse.scale(sat_neg(b2.inverse_mass())));
        }
    }

    /// Resolve a contact fully: the positional correction first, then the
    /// velocity correction.
    pub fn resolve(&self, b1: &mut Body, b2: &mut Body)
        requires
            spec_add(old(b1).inverse_mass as int, old(b2).inverse_mass as int) != 0,
            in_range(self.normal.x as int),
            in_range(self.normal.y as int),
        ensures
            ({
                let mid = spec_resolve_overlap(*self, *old(b1), *old(b2));
                (*final(b1), *final(b2)) == spec_resolve_velocity(*self, mid.0, mid.1)
            }),
            old(b1).wf() ==> final(b1).wf(),
            old(b2).wf() ==> final(b2).wf(),
    {
        self.resolve_overlap(b1, b2);
        self.resolve_velocity(b1, b2);
    }
}

/// Head-on impact of two equal-mass, fully elastic circles exchanges their
/// velocities: for a contact whose normal is the positive horizontal unit,
/// two approaching bodies of equal positive inverse mass and unit
/// restitution leave the velocity correction with each other's velocity.
/// Stated for the inputs on which the mass-weighted impulse divides exactly,
/// so no truncation is lost.
pub proof fn lemma_velocity_exchange(c: Contact, b1: Body, b2: Body)
    requires
        c.normal == (Vec2 { x: crate::scalar::SCALE, y: 0 }),
        b1.wf(),
        b2.wf(),
        b1.inverse_mass == b2.inverse_mass,
        0 < b1.inverse_mass,
        2 * b1.inverse_mass <= crate::scalar::MAX_SCALAR,
        b1.restitution == crate::scalar::SCALE,
        b2.restitution == crate::scalar::SCALE,
        b1.velocity.y == b2.velocity.y,
        b1.velocity.x < b2.velocity.x,
        in_range(b1.velocity.x - b2.velocity.x),
        in_range(2 * (b2.velocity.x - b1.velocity.x)),
        ((b2.velocity.x - b1.velocity.x) * crate::scalar::SCALE) % (b1.inverse_mass as int) == 0,
        ((b2.velocity.x - b1.velocity.x) * crate::scalar::SCALE) / (b1.inverse_mass as int)
            <= crate::scalar::MAX_SCALAR,
    ensures
        spec_resolve_velocity(c, b1, b2).0 == (Body {
            velocity: Vec2 { x: b2.velocity.x, y: b1.velocity.y },
            ..b1
        }),
        spec_resolve_velocity(c, b1, b2).1 == (Body {
            velocity: Vec2 { x: b1.velocity.x, y: b2.velocity.y },
            ..b2
        }),
        spec_dot(
            c.normal,
            spec_vsub(
                spec_resolve_velocity(c, b1, b2).0.velocity,
                spec_resolve_velocity(c, b1, b2).1.velocity,
            ),
        ) == b2.velocity.x - b1.velocity.x,
{
    let scale = crate::scalar::SCALE as int;
    let im = b1.inverse_mass as int;
    let gap = b2.velocity.x - b1.velocity.x;
    let dv = spec_vsub(b1.velocity, b2.velocity);
    assert(dv.x == -gap && dv.y == 0);
    let s = spec_dot(c.normal, dv);
    assert(s == -gap) by {
        crate::scalar::lemma_tdiv_mul_cancel(dv.x as int, scale);
        assert(scale * dv.x + 0 * dv.y == dv.x * scale) by (nonlinear_arith);
    }
    assert(s < 0);
    let new_s = spec_mul(spec_mul(spec_neg(s), b1.restitution as int), b2.restitution as int);
    assert(new_s == gap) by {
        assert(spec_neg(s) == gap);
        crate::scalar::lemma_tdiv_mul_cancel(gap, scale);
        assert(spec_mul(gap, scale) == gap);
    }
    let delta = spec_sub(new_s, s);
    assert(delta == 2 * gap);
    let total = spec_add(im, im);
    assert(total == 2 * im);
    let q = (gap * scale) / im;
    let impulse_scalar = spec_div(delta, total);
    assert(impulse_scalar == q) by {
        assert(delta * scale == 2 * (gap * scale)) by (nonlinear_arith)
            requires
                delta == 2 * gap,
        ;
        crate::scalar::lemma_tdiv_halve(gap * scale, im);
        assert(tdiv(gap * scale, im) == q) by {
            vstd::arithmetic::div_mod::lemma_div_pos_is_pos(gap * scale, im);
            assert(gap * scale >= 0) by (nonlinear_arith)
                requires
                    gap > 0,
                    scale > 0,
            ;
        }
        crate::scalar::lemma_tdiv_exact(gap * scale, im);
    }
    let impulse = spec_vscale(c.normal, impulse_scalar);
    assert(impulse.x == q && impulse.y == 0) by {
        crate::scalar::lemma_tdiv_mul_cancel(q, scale);
        assert(scale * q == q * scale) by (nonlinear_arith);
        assert(0 * q == 0) by (nonlinear_arith);
        crate::scalar::lemma_tdiv_exact(gap * scale, im);
        assert(0 <= q <= crate::scalar::MAX_SCALAR);
    }
    assert(spec_mul(q, im) == gap) by {
        crate::scalar::lemma_tdiv_exact(gap * scale, im);
        assert(q * im == gap * scale);
        crate::scalar::lemma_tdiv_mul_cancel(gap, scale);
    }
    assert(spec_mul(q, spec_neg(im)) == -gap) by {
        assert(spec_neg(im) == -im);
        crate::scalar::lemma_tdiv_exact(gap * scale, im);
        assert(q * (-im) == -(gap * scale)) by (nonlinear_arith)
            requires
                q * im == gap * scale,
        ;
        crate::scalar::lemma_tdiv_mul_cancel(-gap, scale);
        assert((-gap) * scale == -(gap * scale)) by (nonlinear_arith);
    }
    assert(spec_mul(0, im) == 0 && spec_mul(0, spec_neg(im)) == 0) by {
        assert(0 * im == 0 && 0 * spec_neg(im) == 0) by (nonlinear_arith);
    }
    let r = spec_resolve_velocity(c, b1, b2);
    assert(r.0.velocity.x == b1.velocity.x + gap);
    assert(r.0.velocity.x == b2.velocity.x);
    assert(r.1.velocity.x == b1.velocity.x);
    // The pair separates with exactly the closing speed: fully elastic.
    let dv_after = spec_vsub(r.0.velocity, r.1.velocity);
    assert(dv_after.x == gap && dv_after.y == 0);
    assert(spec_dot(c.normal, dv_after) == gap) by {
        crate::scalar::lemma_tdiv_mul_cancel(gap, scale);
        assert(scale * dv_after.x + 0 * dv_after.y == gap * scale) by (nonlinear_arith)
            requires
                dv_after.x == gap && dv_after.y == 0,
        ;
    }
}

/// The narrow-phase tester for a toroidal domain.
pub struct CollisionResolver<'a> {
    pub bounds: &'a Bounds,
}

impl<'a> CollisionResolver<'a> {
    /// A tester over the given bounds.
    pub fn new(bounds: &'a Bounds) -> (r: CollisionResolver<'a>)
        ensures
            r.bounds == bounds,
    {
        CollisionResolver { bounds }
    }

    /// Narrow-phase test of two positioned shapes.
    pub fn check_collision(&self, p1: Vec2, s1: &Shape, p2: Vec2, s2: &Shape) -> (r: Option<
        Contact,
    >)
        requires
            self.bounds.wf(),
        ensures
            r == spec_check_collision(*self.bounds, p1, *s1, p2, *s2),
            r.is_some() <==> spec_circles_overlap(
                *self.bounds,
                p1,
                spec_radius(*s1),
                p2,
                spec_radius(*s2),
            ),
    {
        match *s1 {
            Shape::Circle(r1) => match *s2 {
                Shape::Circle(r2) => self.check_circle_circle(p1, r1, p2, r2),
            },
        }
    }

    /// Narrow-phase test of two bodies: nothing unless both carry a shape.
    pub fn test_collision(&self, b1: &Body, b2: &Body) -> (r: Option<Contact>)
        requires
            self.bounds.wf(),
        ensures
            r == spec_test_collision(*self.bounds, *b1, *b2),
    {
        match b1.shape() {
            Some(s1) => {
                let s1 = *s1;
                match b2.shape() {
                    Some(s2) => {
                        let s2 = *s2;
                        self.check_collision(b1.position(), &s1, b2.position(), &s2)
                    },
                    None => None,
                }
            },
            None => None,
        }
    }

    /// Narrow-phase test of two circles under the toroidal metric.
    fn check_circle_circle(&self, p1: Vec2, r1: i64, p2: Vec2, r2: i64) -> (r: Option<Contact>)
        requires
            self.bounds.wf(),
        ensures
            r == spec_check_circle(*self.bounds, p1, r1 as int, p2, r2 as int),
            r.is_some() <==> spec_circles_overlap(*self.bounds, p1, r1 as int, p2, r2 as int),
    {
        let distance = self.bounds.get_toroidal_distance(p1.sub(p2));
        let collision_length = sat_add(r1, r2);
        proof {
            crate::scalar::lemma_i64_product_fits(
                collision_length as int,
                collision_length as int,
            );
            assert(in_range(distance.x as int) && in_range(distance.y as int)) by {
                crate::toroidal::lemma_min_distance_bounded(
                    spec_sub(p1.x as int, p2.x as int),
                    self.bounds.width as int,
                );
                crate::toroidal::lemma_min_distance_bounded(
                    spec_sub(p1.y as int, p2.y as int),
                    self.bounds.height as int,
                );
                assert(half_period(self.bounds.width as int) <= crate::scalar::MAX_SCALAR)
                    by (nonlinear_arith)
                    requires
                        self.bounds.width <= u32::MAX,
                        crate::scalar::HALF_SCALE == 512,
                        crate::scalar::MAX_SCALAR == 0x4_0000_0000_0000,
                ;
                assert(half_period(self.bounds.height as int) <= crate::scalar::MAX_SCALAR)
                    by (nonlinear_arith)
                    requires
                        self.bounds.height <= u32::MAX,
                        crate::scalar::HALF_SCALE == 512,
                        crate::scalar::MAX_SCALAR == 0x4_0000_0000_0000,
                ;
            }
        }
        let square_length: u128 = distance.square_length();
        proof {
            assert(spec_square_length(distance) < i128::MAX) by (nonlinear_arith)
                requires
                    in_range(distance.x as int),
                    in_range(distance.y as int),
                    spec_square_length(distance) == distance.x * distance.x + distance.y
                        * distance.y,
                    crate::scalar::MAX_SCALAR == 0x4_0000_0000_0000,
            ;
        }
        let cl2: i128 = collision_length as i128 * collision_length as i128;
        if (square_length as i128) < cl2 {
            let length = distance.length();
            let normal = if length > 0 {
                distance.scale_div(length)
            } else {
                Vec2::zero()
            };
            Some(Contact { normal, overlap: sat_sub(collision_length, length) })
        } else {
            None
        }
    }
}

} // verus!
