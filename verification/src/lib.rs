//! A grid ray caster in fixed-point arithmetic.
//!
//! Lengths are measured in tiles and angles in degrees; both are stored as
//! `i64` values in sixteen-bit binary fixed point, so that `fixed::ONE` stands
//! for one tile or one degree. Sines and cosines are carried with thirty
//! fractional bits, so that `trig::TRIG_ONE` stands for 1.

pub mod fixed;
pub mod trig;
pub mod grid;
pub mod direction;
pub mod caster;
pub mod camera;
pub mod perspective;
pub mod plan;
pub mod palette;
