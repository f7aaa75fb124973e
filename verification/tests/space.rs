//! Tests of the full pipeline: broad phase, the spatial table and `update`.

use torophy::spatial_table::SpatialTable;
use torophy::{AxisAlignmentBoundingBox, Body, Shape, Space, Vec2, SCALE};

#[test]
fn update_is_integration_only_when_separated() {
    // Bodies farther apart than their radius sums see no resolution: the
    // step is exactly integrate-then-wrap.
    let mut space = Space::new(100, 100);
    let mut b1 = Body::new(Vec2::xy(10 * SCALE, 10 * SCALE));
    b1.set_shape(Shape::Circle(2 * SCALE));
    b1.set_velocity(Vec2::xy(SCALE, 0));
    let mut b2 = Body::new(Vec2::xy(50 * SCALE, 50 * SCALE));
    b2.set_shape(Shape::Circle(2 * SCALE));
    b2.set_velocity(Vec2::xy(0, -2 * SCALE));
    space.add(b1);
    space.add(b2);
    space.update(SCALE);
    let bodies = space.bodies();
    assert_eq!(bodies[0].position(), Vec2::xy(11 * SCALE, 10 * SCALE));
    assert_eq!(bodies[0].velocity(), Vec2::xy(SCALE, 0));
    assert_eq!(bodies[1].position(), Vec2::xy(50 * SCALE, 48 * SCALE));
    assert_eq!(bodies[1].velocity(), Vec2::xy(0, -2 * SCALE));
}

#[test]
fn update_resolves_head_on_contact() {
    let mut space = Space::new(100, 100);
    let mut b1 = Body::new(Vec2::xy(10 * SCALE, 10 * SCALE));
    b1.set_shape(Shape::Circle(2 * SCALE));
    b1.set_velocity(Vec2::xy(3 * SCALE, 0));
    let mut b2 = Body::new(Vec2::xy(13 * SCALE, 10 * SCALE));
    b2.set_shape(Shape::Circle(2 * SCALE));
    b2.set_velocity(Vec2::xy(-5 * SCALE, 0));
    space.add(b1);
    space.add(b2);
    // A zero-length tick skips motion and only resolves the overlap.
    space.update(0);
    let bodies = space.bodies();
    // Velocities exchanged; each body pushed half the overlap apart.
    assert_eq!(bodies[0].velocity(), Vec2::xy(-5 * SCALE, 0));
    assert_eq!(bodies[1].velocity(), Vec2::xy(3 * SCALE, 0));
    assert_eq!(bodies[0].position(), Vec2::xy(10 * SCALE - SCALE / 2, 10 * SCALE));
    assert_eq!(bodies[1].position(), Vec2::xy(13 * SCALE + SCALE / 2, 10 * SCALE));
}

#[test]
fn update_detects_wraparound_contact() {
    // The two circles touch only around the domain edge; update must still
    // resolve them.
    let mut space = Space::new(40, 40);
    let mut b1 = Body::new(Vec2::xy(SCALE, 10 * SCALE));
    b1.set_shape(Shape::Circle(2 * SCALE));
    let mut b2 = Body::new(Vec2::xy(39 * SCALE, 10 * SCALE));
    b2.set_shape(Shape::Circle(2 * SCALE));
    space.add(b1);
    space.add(b2);
    space.update(0);
    let bodies = space.bodies();
    // Toroidal separation is (2, 0); overlap 2; equal masses move 1 each,
    // away from each other across the edge.
    assert_eq!(bodies[0].position(), Vec2::xy(2 * SCALE, 10 * SCALE));
    assert_eq!(bodies[1].position(), Vec2::xy(38 * SCALE, 10 * SCALE));
}

#[test]
fn step_records_candidates_and_contacts() {
    // After a step the table holds the candidate pair and the contact
    // buffer holds exactly the one resolved contact, later body first.
    let mut space = Space::new(100, 100);
    let mut b1 = Body::new(Vec2::xy(10 * SCALE, 10 * SCALE));
    b1.set_shape(Shape::Circle(2 * SCALE));
    let mut b2 = Body::new(Vec2::xy(13 * SCALE, 10 * SCALE));
    b2.set_shape(Shape::Circle(2 * SCALE));
    space.add(b1);
    space.add(b2);
    space.update(0);
    assert_eq!(space.spatial_table.pairs().len(), 1);
    assert_eq!(space.spatial_table.pairs()[0], (1, 0));
    assert_eq!(space.contacts_info.len(), 1);
    assert_eq!(space.contacts_info[0].first, 1);
    assert_eq!(space.contacts_info[0].second, 0);
    assert_eq!(space.contacts_info[0].contact.normal(), Vec2::xy(SCALE, 0));
    assert_eq!(space.contacts_info[0].contact.overlap(), SCALE);
}

#[test]
fn positions_stay_canonical() {
    let mut space = Space::new(20, 20);
    let mut b = Body::new(Vec2::xy(19 * SCALE, SCALE));
    b.set_shape(Shape::Circle(SCALE));
    b.set_velocity(Vec2::xy(3 * SCALE, -2 * SCALE));
    space.add(b);
    for _ in 0..50 {
        space.update(SCALE);
        let p = space.bodies()[0].position();
        assert!(0 <= p.x && p.x < 20 * SCALE);
        assert!(0 <= p.y && p.y < 20 * SCALE);
    }
}

#[test]
fn add_wraps_position() {
    let mut space = Space::new(100, 100);
    space.add(Body::new(Vec2::xy(-5 * SCALE, 250 * SCALE)));
    assert_eq!(space.bodies()[0].position(), Vec2::xy(95 * SCALE, 50 * SCALE));
}

#[test]
fn forces_accumulate_until_integrated() {
    let mut space = Space::new(100, 100);
    space.add(Body::new(Vec2::xy(10 * SCALE, 10 * SCALE)));
    {
        let bodies = space.bodies_mut();
        bodies[0].add_force(Vec2::xy(2 * SCALE, 0));
        bodies[0].add_force(Vec2::xy(0, 3 * SCALE));
    }
    space.update(SCALE);
    let b = &space.bodies()[0];
    // Unit mass: one second of (2, 3) force becomes (2, 3) velocity, and the
    // accumulator is cleared.
    assert_eq!(b.velocity(), Vec2::xy(2 * SCALE, 3 * SCALE));
    assert_eq!(b.force(), Vec2::zero());
    assert_eq!(b.position(), Vec2::xy(12 * SCALE, 13 * SCALE));
}

#[test]
fn shapeless_bodies_are_excluded_from_collision() {
    let mut space = Space::new(100, 100);
    let mut b1 = Body::new(Vec2::xy(10 * SCALE, 10 * SCALE));
    b1.set_shape(Shape::Circle(2 * SCALE));
    let b2 = Body::new(Vec2::xy(10 * SCALE, 10 * SCALE));
    space.add(b1);
    space.add(b2);
    space.update(0);
    // Coincident, but the second body carries no shape: nothing moves.
    assert_eq!(space.bodies()[0].position(), Vec2::xy(10 * SCALE, 10 * SCALE));
    assert_eq!(space.bodies()[1].position(), Vec2::xy(10 * SCALE, 10 * SCALE));
}

#[test]
fn broad_phase_emits_overlapping_pair() {
    let mut table = SpatialTable::new(20, 20, 2 * SCALE);
    table.insert(0, &AxisAlignmentBoundingBox::from_bounds(SCALE, 5 * SCALE, SCALE, 5 * SCALE));
    table.insert(
        1,
        &AxisAlignmentBoundingBox::from_bounds(4 * SCALE, 8 * SCALE, 4 * SCALE, 8 * SCALE),
    );
    assert!(table.pairs().contains(&(1, 0)));
}

#[test]
fn broad_phase_emits_wrapping_pair() {
    // The first box straddles the domain edge: its wrapped left edge exceeds
    // its right edge. It still meets the second box near the origin.
    let mut table = SpatialTable::new(20, 20, 2 * SCALE);
    table.insert(
        0,
        &AxisAlignmentBoundingBox::from_bounds(19 * SCALE, SCALE, 5 * SCALE, 7 * SCALE),
    );
    table.insert(
        1,
        &AxisAlignmentBoundingBox::from_bounds(0, 2 * SCALE, 5 * SCALE, 7 * SCALE),
    );
    assert!(table.pairs().contains(&(1, 0)));
}

#[test]
fn clear_forgets_pairs() {
    let mut table = SpatialTable::new(20, 20, 2 * SCALE);
    table.insert(0, &AxisAlignmentBoundingBox::from_bounds(SCALE, 5 * SCALE, SCALE, 5 * SCALE));
    table.insert(
        1,
        &AxisAlignmentBoundingBox::from_bounds(4 * SCALE, 8 * SCALE, 4 * SCALE, 8 * SCALE),
    );
    table.clear();
    assert!(table.pairs().is_empty());
}

#[test]
fn distant_boxes_share_no_pair() {
    let mut table = SpatialTable::new(20, 20, 2 * SCALE);
    table.insert(0, &AxisAlignmentBoundingBox::from_bounds(0, SCALE, 0, SCALE));
    table.insert(
        1,
        &AxisAlignmentBoundingBox::from_bounds(10 * SCALE, 11 * SCALE, 10 * SCALE, 11 * SCALE),
    );
    assert!(table.pairs().is_empty());
}

#[test]
fn custom_cell_size_keeps_behaviour() {
    let mut space = Space::new(100, 100).with_optimization_cell_size(4 * SCALE);
    let mut b1 = Body::new(Vec2::xy(10 * SCALE, 10 * SCALE));
    b1.set_shape(Shape::Circle(2 * SCALE));
    b1.set_velocity(Vec2::xy(3 * SCALE, 0));
    let mut b2 = Body::new(Vec2::xy(13 * SCALE, 10 * SCALE));
    b2.set_shape(Shape::Circle(2 * SCALE));
    b2.set_velocity(Vec2::xy(-5 * SCALE, 0));
    space.add(b1);
    space.add(b2);
    space.update(0);
    assert_eq!(space.bodies()[0].velocity(), Vec2::xy(-5 * SCALE, 0));
    assert_eq!(space.bodies()[1].velocity(), Vec2::xy(3 * SCALE, 0));
}
