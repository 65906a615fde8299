pub mod analysis;
pub mod fifo;
pub mod objection;
pub mod sequence;
pub mod config;
pub mod error;
pub mod component;
pub mod factory;
pub mod singleton;
