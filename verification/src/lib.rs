//! Kelly stake sizing on a fixed-point number line.
//!
//! The crate has two layers: a general-purpose bounded scalar minimiser
//! (a golden-section / parabolic-interpolation hybrid) and the negative
//! expected-log-wealth objective that Kelly staking minimises.  All
//! arithmetic is carried out on a fixed-point representation of the real
//! line (`fixed::SCALE` units per whole unit), so every step of the
//! numerical loop is verified; the one transcendental operation, the
//! natural logarithm, is supplied by the caller as a closure.

pub mod fixed;
pub mod kelly;
pub mod minimize;
