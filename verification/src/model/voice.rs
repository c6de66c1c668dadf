//! Per-voice decision trees keyed on questions, and the models built on
//! them.

pub mod model;
pub mod tree;
