//! Objections, as the methodology layer has them.

pub use crate::methodology::objection::{ObjectionGuard, ObjectionRegistry};
