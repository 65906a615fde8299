//! The check-phase collector and the agent mode, as the methodology layer
//! has them.

pub use crate::methodology::component::{Active, CheckSink};
