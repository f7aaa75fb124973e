//! Tests of the fixed-point vector arithmetic and bounding boxes.

use torophy::{AxisAlignmentBoundingBox, Vec2, MAX_SCALAR, SCALE};

#[test]
fn vector_arithmetic() {
    let a = Vec2::xy(3 * SCALE, 4 * SCALE);
    let b = Vec2::xy(SCALE, 2 * SCALE);
    assert_eq!(a.add(b), Vec2::xy(4 * SCALE, 6 * SCALE));
    assert_eq!(a.sub(b), Vec2::xy(2 * SCALE, 2 * SCALE));
    assert_eq!(a.mul(b), Vec2::xy(3 * SCALE, 8 * SCALE));
    assert_eq!(a.div(b), Vec2::xy(3 * SCALE, 2 * SCALE));
    assert_eq!(a.neg(), Vec2::xy(-3 * SCALE, -4 * SCALE));
    assert_eq!(a.scale(2 * SCALE), Vec2::xy(6 * SCALE, 8 * SCALE));
    assert_eq!(a.scale_div(2 * SCALE), Vec2::xy(3 * SCALE / 2, 2 * SCALE));
}

#[test]
fn in_place_arithmetic() {
    let mut a = Vec2::xy(3 * SCALE, 4 * SCALE);
    a.add_assign(Vec2::xy(SCALE, SCALE));
    assert_eq!(a, Vec2::xy(4 * SCALE, 5 * SCALE));
    a.sub_assign(Vec2::xy(2 * SCALE, 2 * SCALE));
    assert_eq!(a, Vec2::xy(2 * SCALE, 3 * SCALE));
    a.mul_assign(Vec2::xy(2 * SCALE, 2 * SCALE));
    assert_eq!(a, Vec2::xy(4 * SCALE, 6 * SCALE));
    a.div_assign(Vec2::xy(4 * SCALE, 3 * SCALE));
    assert_eq!(a, Vec2::xy(SCALE, 2 * SCALE));
    a.clear();
    assert_eq!(a, Vec2::zero());
}

#[test]
fn axis_constructors() {
    assert_eq!(Vec2::x(7 * SCALE), Vec2::xy(7 * SCALE, 0));
    assert_eq!(Vec2::y(7 * SCALE), Vec2::xy(0, 7 * SCALE));
}

#[test]
fn saturation_bounds_results() {
    let a = Vec2::xy(MAX_SCALAR, -MAX_SCALAR);
    let r = a.add(Vec2::xy(SCALE, -SCALE));
    assert_eq!(r, Vec2::xy(MAX_SCALAR, -MAX_SCALAR));
}

#[test]
fn length_of_pythagorean_vector() {
    assert_eq!(Vec2::xy(3 * SCALE, 4 * SCALE).length(), 5 * SCALE);
    assert_eq!(Vec2::zero().length(), 0);
}

#[test]
fn dot_product() {
    let a = Vec2::xy(2 * SCALE, 3 * SCALE);
    let b = Vec2::xy(4 * SCALE, -SCALE);
    assert_eq!(a.dot(b), 5 * SCALE);
}

#[test]
fn bounding_box_geometry() {
    let aabb = AxisAlignmentBoundingBox::new(
        Vec2::xy(10 * SCALE, 20 * SCALE),
        Vec2::xy(2 * SCALE, 3 * SCALE),
    );
    assert_eq!(aabb.left(), 8 * SCALE);
    assert_eq!(aabb.right(), 12 * SCALE);
    assert_eq!(aabb.top(), 17 * SCALE);
    assert_eq!(aabb.bottom(), 23 * SCALE);
    assert_eq!(aabb.position(), Vec2::xy(10 * SCALE, 20 * SCALE));
    assert_eq!(aabb.half_dimension(), Vec2::xy(2 * SCALE, 3 * SCALE));
    assert_eq!(aabb.dimension(), Vec2::xy(4 * SCALE, 6 * SCALE));
}
