//! Exact collision tests between capsules on an integer grid.
//!
//! A capsule is a line segment swept by a radius. Two capsules collide when
//! the distance between their segments is below the sum of their radii. All
//! coordinates are whole numbers of grid units, and every derived quantity is
//! kept exactly, so no answer depends on rounding: a fraction as its numerator
//! and denominator, a length as its square, and a coefficient of a unit
//! vector as a whole number beside the square of the length that divides it.
//!
//! The types and their operations are in `vector`, `point`, `line`, `segment`
//! and `capsule`, over the numbers of `exact`. What holds of them is proved in
//! `laws`, `symmetry`, `collinear`, `nearest` and `overlap`, with the help of
//! `algebra`, `relative` and `parallel`.

pub mod algebra;
pub mod capsule;
pub mod collinear;
pub mod error;
pub mod exact;
pub mod laws;
pub mod line;
pub mod nearest;
pub mod overlap;
pub mod parallel;
pub mod point;
pub mod relative;
pub mod segment;
pub mod symmetry;
pub mod vector;
