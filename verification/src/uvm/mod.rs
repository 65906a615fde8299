pub mod channel;
pub mod component;
pub mod error;
pub mod fifo;
pub mod objection;
