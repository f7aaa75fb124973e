//! Tests of the toroidal coordinate and distance canonicalization.
//!
//! All quantities are fixed-point: a value of `x` units is written
//! `x * SCALE`, and halves as `(2x + 1) * SCALE / 2`.

use torophy::toroidal::{min_coordinate, min_distance};
use torophy::SCALE;

#[test]
fn positive_coordinate() {
    assert_eq!(min_coordinate(25 * SCALE / 2, 20), 25 * SCALE / 2);
    assert_eq!(min_coordinate(65 * SCALE / 2, 20), 25 * SCALE / 2);
    assert_eq!(min_coordinate(105 * SCALE / 2, 20), 25 * SCALE / 2);
}

#[test]
fn negative_coordinate() {
    assert_eq!(min_coordinate(-25 * SCALE / 2, 20), 15 * SCALE / 2);
    assert_eq!(min_coordinate(-65 * SCALE / 2, 20), 15 * SCALE / 2);
    assert_eq!(min_coordinate(-105 * SCALE / 2, 20), 15 * SCALE / 2);
}

#[test]
fn positive_distance() {
    assert_eq!(min_distance(15 * SCALE / 2, 20), 15 * SCALE / 2);
    assert_eq!(min_distance(25 * SCALE / 2, 20), -(15 * SCALE / 2));
    assert_eq!(min_distance(10 * SCALE, 20), 10 * SCALE);
    assert_eq!(min_distance(20 * SCALE, 20), 0);
    assert_eq!(min_distance(55 * SCALE / 2, 20), 10 * SCALE);
}

#[test]
fn negative_distance() {
    assert_eq!(min_distance(-(15 * SCALE / 2), 20), -(15 * SCALE / 2));
    assert_eq!(min_distance(-(25 * SCALE / 2), 20), 15 * SCALE / 2);
    assert_eq!(min_distance(-10 * SCALE, 20), -10 * SCALE);
    assert_eq!(min_distance(-20 * SCALE, 20), 0);
    assert_eq!(min_distance(-(55 * SCALE / 2), 20), -10 * SCALE);
}

#[test]
fn coordinate_stays_canonical() {
    for c in [-3000 * SCALE, -1, 0, 1, 7 * SCALE, 3000 * SCALE + 511] {
        let r = min_coordinate(c, 20);
        assert!(0 <= r && r < 20 * SCALE);
    }
}

#[test]
fn coordinate_is_periodic() {
    let period: i64 = 20 * SCALE;
    for k in [-3i64, -1, 0, 1, 5] {
        assert_eq!(min_coordinate(7 * SCALE + k * period, 20), 7 * SCALE);
    }
}

#[test]
fn distance_stays_within_half_period() {
    for d in [-3000 * SCALE, -10 * SCALE - 1, 0, 10 * SCALE + 1, 3000 * SCALE] {
        let r = min_distance(d, 20);
        assert!(-10 * SCALE <= r && r <= 10 * SCALE);
    }
}
