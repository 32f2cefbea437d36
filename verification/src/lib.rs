//! A small ray tracer core, verified end to end.
//!
//! The library renders the geometry of a single scene: three-component
//! vector algebra, rays, analytic ray-sphere intersection with a consistent
//! outward-normal convention, and the per-pixel color resolution that maps
//! a ray either to a normal-derived surface color or to a vertical sky
//! gradient.
//!
//! All scalars are fixed-point numbers: an `i64` raw value counts millionths
//! of a unit (see [`scalar::SCALE`]). Every arithmetic operation carries an
//! exact contract over the mathematical integers, so each public function's
//! result is pinned down completely by its `ensures` clause.

pub mod scalar;
pub mod camera;
pub mod color;
pub mod hit;
pub mod ray;
pub mod vec3;
