//! Node definitions whose work is the library's own logic.

pub mod output;
