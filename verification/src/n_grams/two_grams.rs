//! Two-gram inputs and their query parameters.

pub mod model;
