//! A small 2D rigid-body simulation kernel for a toroidal world: a
//! rectangular domain whose opposite edges are identified, so positions,
//! distances and collisions are computed modulo the domain size.
//!
//! Every physical quantity is a fixed-point value: an `i64` counting
//! `1/SCALE` units (see the `scalar` module), which keeps the whole physics
//! pipeline in exact integer arithmetic.

pub mod body;
pub mod bounding;
pub mod collision;
pub mod scalar;
pub mod shapes;
pub mod space;
pub mod spatial_table;
pub mod toroidal;
pub mod util;
pub mod vec2;

pub use body::Body;
pub use bounding::AxisAlignmentBoundingBox;
pub use shapes::Shape;
pub use space::Space;
pub use toroidal::Bounds;
pub use vec2::Vec2;

pub use scalar::MAX_SCALAR;
pub use scalar::SCALE;
