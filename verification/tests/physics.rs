//! Tests of the body model, the narrow phase and the contact resolution.

use torophy::collision::CollisionResolver;
use torophy::{Body, Bounds, Shape, Vec2, SCALE};

#[test]
fn new_body_defaults() {
    let b = Body::new(Vec2::xy(3 * SCALE, 4 * SCALE));
    assert_eq!(b.position(), Vec2::xy(3 * SCALE, 4 * SCALE));
    assert_eq!(b.velocity(), Vec2::zero());
    assert_eq!(b.force(), Vec2::zero());
    assert_eq!(b.inverse_mass(), SCALE);
    assert_eq!(b.restitution(), SCALE);
    assert_eq!(b.drag_force(), (0, 0));
    assert!(b.shape().is_none());
}

#[test]
fn mass_is_stored_inverted() {
    let mut b = Body::new(Vec2::zero());
    b.set_mass(2 * SCALE);
    assert_eq!(b.inverse_mass(), SCALE / 2);
    assert_eq!(b.mass(), 2 * SCALE);
    b.add_mass(2 * SCALE);
    assert_eq!(b.inverse_mass(), SCALE / 4);
    assert_eq!(b.mass(), 4 * SCALE);
}

#[test]
fn integrate_without_drag() {
    let mut b = Body::new(Vec2::xy(SCALE, SCALE));
    b.set_velocity(Vec2::xy(3 * SCALE, 4 * SCALE));
    b.set_force(Vec2::xy(10 * SCALE, 0));
    b.integrate(SCALE);
    assert_eq!(b.velocity(), Vec2::xy(13 * SCALE, 4 * SCALE));
    assert_eq!(b.position(), Vec2::xy(14 * SCALE, 5 * SCALE));
    assert_eq!(b.force(), Vec2::zero());
}

#[test]
fn integrate_with_linear_drag() {
    let mut b = Body::new(Vec2::zero());
    b.set_velocity(Vec2::xy(2 * SCALE, 0));
    b.set_drag_force((SCALE, 0));
    b.integrate(SCALE / 2);
    // Effective force is -velocity * k1; over half a second the velocity
    // drops by half of (2, 0) => (1, 0), and the position moves by the
    // updated velocity times dt.
    assert_eq!(b.velocity(), Vec2::xy(SCALE, 0));
    assert_eq!(b.position(), Vec2::xy(SCALE / 2, 0));
}

#[test]
fn integrate_with_quadratic_drag() {
    let mut b = Body::new(Vec2::zero());
    // Speed is exactly 5 units: a 3-4-5 triangle.
    b.set_velocity(Vec2::xy(3 * SCALE, 4 * SCALE));
    b.set_drag_force((0, SCALE / 5));
    b.integrate(SCALE);
    // Drag coefficient is k2 * |v| ~ 1/5 * 5 = 1, so the velocity is all but
    // cancelled in one unit step; SCALE / 5 truncates to 204/1024, leaving a
    // 12/1024 and 16/1024 remainder on the two components.
    assert_eq!(b.velocity(), Vec2::xy(12, 16));
    assert_eq!(b.position(), Vec2::xy(12, 16));
}

#[test]
fn no_contact_when_apart() {
    let bounds = Bounds::new(100, 100);
    let resolver = CollisionResolver::new(&bounds);
    let b1 = Vec2::xy(10 * SCALE, 10 * SCALE);
    let b2 = Vec2::xy(50 * SCALE, 50 * SCALE);
    let c = resolver.check_collision(b1, &Shape::Circle(2 * SCALE), b2, &Shape::Circle(2 * SCALE));
    assert!(c.is_none());
}

#[test]
fn no_contact_for_shapeless_bodies() {
    let bounds = Bounds::new(100, 100);
    let resolver = CollisionResolver::new(&bounds);
    let b1 = Body::new(Vec2::xy(10 * SCALE, 10 * SCALE));
    let mut b2 = Body::new(Vec2::xy(10 * SCALE, 10 * SCALE));
    b2.set_shape(Shape::Circle(2 * SCALE));
    assert!(resolver.test_collision(&b1, &b2).is_none());
    assert!(resolver.test_collision(&b2, &b1).is_none());
}

#[test]
fn contact_normal_and_overlap() {
    let bounds = Bounds::new(100, 100);
    let resolver = CollisionResolver::new(&bounds);
    let p1 = Vec2::xy(13 * SCALE, 10 * SCALE);
    let p2 = Vec2::xy(10 * SCALE, 10 * SCALE);
    let c = resolver
        .check_collision(p1, &Shape::Circle(2 * SCALE), p2, &Shape::Circle(2 * SCALE))
        .expect("circles 3 apart with radii summing to 4 must touch");
    // Separation is (3, 0), length 3, sum of radii 4.
    assert_eq!(c.normal(), Vec2::xy(SCALE, 0));
    assert_eq!(c.overlap(), SCALE);
}

#[test]
fn coincident_centres_use_zero_normal() {
    let bounds = Bounds::new(100, 100);
    let resolver = CollisionResolver::new(&bounds);
    let p = Vec2::xy(10 * SCALE, 10 * SCALE);
    let c = resolver
        .check_collision(p, &Shape::Circle(SCALE), p, &Shape::Circle(SCALE))
        .expect("coincident circles overlap");
    assert_eq!(c.normal(), Vec2::zero());
    assert_eq!(c.overlap(), 2 * SCALE);
}

#[test]
fn wraparound_collision_detected() {
    // Flat-space distance 38 exceeds the radius sum 4, but the toroidal
    // distance around the edge is only 2.
    let bounds = Bounds::new(40, 40);
    let resolver = CollisionResolver::new(&bounds);
    let p1 = Vec2::xy(SCALE, 10 * SCALE);
    let p2 = Vec2::xy(39 * SCALE, 10 * SCALE);
    let c = resolver
        .check_collision(p1, &Shape::Circle(2 * SCALE), p2, &Shape::Circle(2 * SCALE))
        .expect("circles must collide around the domain edge");
    assert_eq!(c.normal(), Vec2::xy(SCALE, 0));
    assert_eq!(c.overlap(), 2 * SCALE);
}

#[test]
fn head_on_equal_mass_exchange() {
    // Two equal-mass, fully elastic circles approaching head-on exchange
    // their velocities; the combined speed is preserved.
    let bounds = Bounds::new(100, 100);
    let resolver = CollisionResolver::new(&bounds);
    let mut b1 = Body::new(Vec2::xy(10 * SCALE, 10 * SCALE));
    b1.set_shape(Shape::Circle(2 * SCALE));
    b1.set_velocity(Vec2::xy(3 * SCALE, 0));
    let mut b2 = Body::new(Vec2::xy(13 * SCALE, 10 * SCALE));
    b2.set_shape(Shape::Circle(2 * SCALE));
    b2.set_velocity(Vec2::xy(-5 * SCALE, 0));
    let c = resolver.test_collision(&b1, &b2).expect("overlapping circles");
    c.resolve_velocity(&mut b1, &mut b2);
    assert_eq!(b1.velocity(), Vec2::xy(-5 * SCALE, 0));
    assert_eq!(b2.velocity(), Vec2::xy(3 * SCALE, 0));
}

#[test]
fn separating_bodies_get_no_impulse() {
    let bounds = Bounds::new(100, 100);
    let resolver = CollisionResolver::new(&bounds);
    let mut b1 = Body::new(Vec2::xy(13 * SCALE, 10 * SCALE));
    b1.set_shape(Shape::Circle(2 * SCALE));
    b1.set_velocity(Vec2::xy(4 * SCALE, 0));
    let mut b2 = Body::new(Vec2::xy(10 * SCALE, 10 * SCALE));
    b2.set_shape(Shape::Circle(2 * SCALE));
    b2.set_velocity(Vec2::xy(-4 * SCALE, 0));
    let c = resolver.test_collision(&b1, &b2).expect("overlapping circles");
    c.resolve_velocity(&mut b1, &mut b2);
    assert_eq!(b1.velocity(), Vec2::xy(4 * SCALE, 0));
    assert_eq!(b2.velocity(), Vec2::xy(-4 * SCALE, 0));
}

#[test]
fn overlap_resolution_weights_by_inverse_mass() {
    let bounds = Bounds::new(100, 100);
    let resolver = CollisionResolver::new(&bounds);
    let mut b1 = Body::new(Vec2::xy(13 * SCALE, 10 * SCALE));
    b1.set_shape(Shape::Circle(2 * SCALE));
    let mut b2 = Body::new(Vec2::xy(10 * SCALE, 10 * SCALE));
    b2.set_shape(Shape::Circle(2 * SCALE));
    let c = resolver.test_collision(&b1, &b2).expect("overlapping circles");
    // Equal masses: each body moves half of the overlap (1 unit), in
    // opposite directions along the normal (1, 0).
    c.resolve_overlap(&mut b1, &mut b2);
    assert_eq!(b1.position(), Vec2::xy(13 * SCALE + SCALE / 2, 10 * SCALE));
    assert_eq!(b2.position(), Vec2::xy(10 * SCALE - SCALE / 2, 10 * SCALE));
}

#[test]
fn immovable_body_does_not_move() {
    let bounds = Bounds::new(100, 100);
    let resolver = CollisionResolver::new(&bounds);
    let mut b = Body::new(Vec2::xy(13 * SCALE, 10 * SCALE));
    b.set_shape(Shape::Circle(2 * SCALE));
    b.set_mass(SCALE);
    let mut fixed = Body::new(Vec2::xy(10 * SCALE, 10 * SCALE));
    fixed.set_shape(Shape::Circle(2 * SCALE));
    // A mass too large to invert gives inverse mass zero: an immovable body.
    fixed.set_mass(i64::MAX);
    assert_eq!(fixed.inverse_mass(), 0);
    let c = resolver.test_collision(&b, &fixed).expect("overlapping circles");
    c.resolve_overlap(&mut b, &mut fixed);
    // The immovable body stays; the movable one takes the whole overlap.
    assert_eq!(fixed.position(), Vec2::xy(10 * SCALE, 10 * SCALE));
    assert_eq!(b.position(), Vec2::xy(14 * SCALE, 10 * SCALE));
}
