//! Joylight's effects engine is a node-based engine.
//!
//! The node graph is synchronous, meaning that one input should create timely outputs in the same cycle.
//!
//! Inputs, intermediate values and outputs can be of different types, or even contain multiple values in a vector.

pub mod io;
pub mod node;
pub mod graph;
pub mod nodes;
