# rustdv

A verification framework for RTL designs in the style of cocotb and pyuvm,
with its decision logic written in Verus and proved against its contracts.

- `src/` — the verified library:
  - `sim/` simulation time, component paths, sim-aware queues, events and
    locks, the task scheduler, race/join combinators, logging policy;
  - `gpi/` four-state values and vectors, the simulator's two-word vector
    encoding, object classification and handle-kind checks;
  - `methodology/` the configuration database, factory overrides, the
    sequencer handshake, TLM FIFOs, analysis broadcast, objections,
    singletons, check collection and port-connection checks;
  - `uvm/` TLM channels and FIFOs;
  - `runner.rs` test scoring, the test-case filter, seeds, report text;
  - `macros/` the test attribute's options and registration, and the
    component derive's reading of a struct and the code it emits;
  - `tinyalu/` the TinyALU transactions, golden model, scoreboard and
    coverage decisions.
- `app/` — the runtime around it: polling tasks, the futures over the
  library's waiting operations, log and report output, typed configuration
  values, the component tree walks, the factory's makers and the
  per-test singletons, delivery to analysis and FIFO-tap subscribers, the
  link-time registries, and the
  token conversion and code rendering for the procedural macros.
- `tests/` — unit tests of the library.
