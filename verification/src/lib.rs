//! Joylight backend: lighting fixtures, their parameters, DMX encoding and the
//! node-based effects engine.
//!
//! Floating-point quantities (levels, colours, view values) are carried through the
//! library as their IEEE-754 bit patterns (`u32` for `f32`, `u64` for `f64`); the
//! library moves, compares and encodes them, and computes with them only where the
//! arithmetic is stated exactly (see [`scalar`]).

pub mod colors;
pub mod effects;
pub mod fixtures;
pub mod parameter;
pub mod scalar;
pub mod show;
pub mod parameters;
pub mod utils;
