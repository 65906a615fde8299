pub mod clock;
pub mod combinators;
pub mod executor;
pub mod log;
pub mod path;
pub mod poll;
pub mod queue;
pub mod sync;
pub mod time;
