//! rustdv: the decision logic of a cocotb/pyuvm-style verification framework
//! (simulation time, component paths, sim-aware queues and synchronisation,
//! the task scheduler, logging configuration, the configuration database,
//! sequencer handshakes and TLM channels), written as verified state machines.
//! The simulator interface and the actual polling of futures live in the
//! application layer that drives these machines.

pub mod sim;
pub mod text;
pub mod gpi;
pub mod tinyalu;
pub mod methodology;
pub mod uvm;
pub mod runner;
pub mod macros;
