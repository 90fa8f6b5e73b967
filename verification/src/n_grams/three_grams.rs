//! Three-gram inputs and their validation.

pub mod model;
