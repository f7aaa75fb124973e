//! The simulated entity: shape, kinematic state and material parameters.

use vstd::prelude::*;

use crate::bounding::AxisAlignmentBoundingBox;
use crate::scalar::{
    in_range, sat, sat_add, sat_div, sat_mul, spec_add, spec_div, spec_mul, SCALE,
};
use crate::shapes::{spec_radius, Shape};
use crate::vec2::{
    spec_vadd, spec_vscale, spec_vsub, Vec2,
};

verus! {

/// A rigid body: an optional collidable shape, a position, and the state
/// driven by integration and contact resolution. Mass is stored inverted so
/// that an immovable body is representable as `inverse_mass == 0`.
#[derive(Debug, Clone, Copy)]
pub struct Body {
    pub shape: Option<Shape>,
    pub position: Vec2,
    pub inverse_mass: i64,
    pub velocity: Vec2,
    pub force: Vec2,
    pub drag_force: (i64, i64),
    pub restitution: i64,
}

/// The state of a body after one semi-implicit Euler step of `dt`:
/// the accumulated force minus the combined linear and quadratic drag term
/// accelerates the body, the position moves by the updated velocity, and the
/// force accumulator is reset.
pub open spec fn spec_integrate(b: Body, dt: int) -> Body {
    let speed = crate::vec2::spec_length(b.velocity);
    let drag = spec_add(b.drag_force.0 as int, spec_mul(b.drag_force.1 as int, speed));
    let real_force = spec_vsub(b.force, spec_vscale(b.velocity, drag));
    let velocity = spec_vadd(b.velocity, spec_vscale(real_force, spec_mul(b.inverse_mass as int, dt)));
    let position = spec_vadd(b.position, spec_vscale(velocity, dt));
    Body {
        shape: b.shape,
        position,
        inverse_mass: b.inverse_mass,
        velocity,
        force: Vec2 { x: 0, y: 0 },
        drag_force: b.drag_force,
        restitution: b.restitution,
    }
}

impl Body {
    /// The stored velocity stays in the representable scalar range, so that
    /// its length is always computable.
    pub open spec fn wf(self) -> bool {
        in_range(self.velocity.x as int) && in_range(self.velocity.y as int)
    }

    /// A body at `position` with no shape, unit mass, no motion, no pending
    /// force, no drag and full restitution.
    pub fn new(position: Vec2) -> (r: Body)
        ensures
            r.shape.is_none(),
            r.position == position,
            r.inverse_mass == SCALE,
            r.velocity == (Vec2 { x: 0, y: 0 }),
            r.force == (Vec2 { x: 0, y: 0 }),
            r.drag_force == (0i64, 0i64),
            r.restitution == SCALE,
            r.wf(),
    {
        Body {
            shape: None,
            position,
            inverse_mass: SCALE,
            velocity: Vec2::zero(),
            force: Vec2::zero(),
            drag_force: (0, 0),
            restitution: SCALE,
        }
    }

    /// Move the body to `position`.
    pub fn set_position(&mut self, position: Vec2)
        ensures
            *final(self) == (Body { position, ..*old(self) }),
    {
        self.position = position;
    }

    /// Move the body by `displacement`, saturating at the scalar bound.
    pub fn displace(&mut self, displacement: Vec2)
        ensures
            *final(self) == (Body { position: spec_vadd(old(self).position, displacement), ..*old(self) }),
    {
        let p = self.position.add(displacement);
        self.position = p;
    }

    /// The current position.
    pub fn position(&self) -> (r: Vec2)
        ensures
            r == self.position,
    {
        self.position
    }

    /// Give the body a collidable shape.
    pub fn set_shape(&mut self, shape: Shape)
        ensures
            *final(self) == (Body { shape: Some(shape), ..*old(self) }),
    {
        self.shape = Some(shape);
    }

    /// Exclude the body from collision.
    pub fn remove_shape(&mut self)
        ensures
            *final(self) == (Body { shape: None, ..*old(self) }),
    {
        self.shape = None;
    }

    /// The current shape, if any.
    pub fn shape(&self) -> (r: &Option<Shape>)
        ensures
            r == self.shape,
    {
        &self.shape
    }

    /// Set the mass; callers must guarantee it positive.
    pub fn set_mass(&mut self, mass: i64)
        requires
            mass > 0,
        ensures
            *final(self) == (Body {
                inverse_mass: spec_div(SCALE as int, mass as int) as i64,
                ..*old(self)
            }),
    {
        self.inverse_mass = sat_div(SCALE, mass);
    }

    /// Add to the mass; the current and the resulting mass must be nonzero.
    pub fn add_mass(&mut self, mass: i64)
        requires
            old(self).inverse_mass != 0,
            spec_add(spec_div(SCALE as int, old(self).inverse_mass as int), mass as int) != 0,
        ensures
            *final(self) == (Body {
                inverse_mass: spec_div(
                    SCALE as int,
                    spec_add(spec_div(SCALE as int, old(self).inverse_mass as int), mass as int),
                ) as i64,
                ..*old(self)
            }),
    {
        let total = sat_add(sat_div(SCALE, self.inverse_mass), mass);
        self.inverse_mass = sat_div(SCALE, total);
    }

    /// The mass, reconstructed from its stored inverse.
    pub fn mass(&self) -> (r: i64)
        requires
            self.inverse_mass != 0,
        ensures
            r as int == spec_div(SCALE as int, self.inverse_mass as int),
    {
        sat_div(SCALE, self.inverse_mass)
    }

    /// The stored inverse mass.
    pub fn inverse_mass(&self) -> (r: i64)
        ensures
            r == self.inverse_mass,
    {
        self.inverse_mass
    }

    /// Set the velocity, saturating each component at the scalar bound.
    pub fn set_velocity(&mut self, velocity: Vec2)
        ensures
            *final(self) == (Body {
                velocity: Vec2 {
                    x: sat(velocity.x as int) as i64,
                    y: sat(velocity.y as int) as i64,
                },
                ..*old(self)
            }),
            final(self).wf(),
    {
        self.velocity = Vec2::xy(sat_add(0, velocity.x), sat_add(0, velocity.y));
    }

    /// Add to the velocity, saturating at the scalar bound.
    pub fn add_velocity(&mut self, velocity: Vec2)
        ensures
            *final(self) == (Body {
                velocity: spec_vadd(old(self).velocity, velocity),
                ..*old(self)
            }),
            final(self).wf(),
    {
        let v = self.velocity.add(velocity);
        self.velocity = v;
    }

    /// The current velocity.
    pub fn velocity(&self) -> (r: Vec2)
        ensures
            r == self.velocity,
    {
        self.velocity
    }

    /// Replace the accumulated force.
    pub fn set_force(&mut self, force: Vec2)
        ensures
            *final(self) == (Body { force, ..*old(self) }),
    {
        self.force = force;
    }

    /// Add to the accumulated force, saturating at the scalar bound.
    pub fn add_force(&mut self, force: Vec2)
        ensures
            *final(self) == (Body { force: spec_vadd(old(self).force, force), ..*old(self) }),
    {
        let f = self.force.add(force);
        self.force = f;
    }

    /// The accumulated force.
    pub fn force(&self) -> (r: Vec2)
        ensures
            r == self.force,
    {
        self.force
    }

    /// Set the linear and quadratic drag coefficients.
    pub fn set_drag_force(&mut self, drag_force: (i64, i64))
        ensures
            *final(self) == (Body { drag_force, ..*old(self) }),
    {
        self.drag_force = drag_force;
    }

    /// The linear and quadratic drag coefficients.
    pub fn drag_force(&self) -> (r: (i64, i64))
        ensures
            r == self.drag_force,
    {
        self.drag_force
    }

    /// Set the restitution coefficient.
    pub fn set_restitution(&mut self, restitution: i64)
        ensures
            *final(self) == (Body { restitution, ..*old(self) }),
    {
        self.restitution = restitution;
    }

    /// The restitution coefficient.
    pub fn restitution(&self) -> (r: i64)
        ensures
            r == self.restitution,
    {
        self.restitution
    }

    /// The bounding box of the body's shape around its position, or nothing
    /// for a body excluded from collision.
    pub fn aabb(&self) -> (r: Option<AxisAlignmentBoundingBox>)
        ensures
            r.is_some() <==> self.shape.is_some(),
            self.shape matches Some(s) ==> r == Some(
                AxisAlignmentBoundingBox::spec_of_circle(self.position, spec_radius(s)),
            ),
    {
        match &self.shape {
            Some(shape) => Some(AxisAlignmentBoundingBox::new(self.position, shape.half_dimension())),
            None => None,
        }
    }

    /// One semi-implicit Euler step of `dt`.
    pub fn integrate(&mut self, dt: i64)
        requires
            old(self).wf(),
        ensures
            *final(self) == spec_integrate(*old(self), dt as int),
            final(self).wf(),
    {
        let speed = self.velocity.length();
        let drag = sat_add(self.drag_force.0, sat_mul(self.drag_force.1, speed));
        let real_force = self.force.sub(self.velocity.scale(drag));
        let v = self.velocity.add(real_force.scale(sat_mul(self.inverse_mass, dt)));
        self.velocity = v;
        let p = self.position.add(self.velocity.scale(dt));
        self.position = p;
        self.force = Vec2::zero();
    }
}

} // verus!
