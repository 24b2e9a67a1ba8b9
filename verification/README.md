# modbus_watch

A Modbus TCP polling service with a file watcher, written as a verified
library (`src/`) and a small tokio program around it (`app/`).

- `src/worker.rs`: the device polling loop as a state machine
  (`WorkerState::step`), with its laws: the invariant is kept, a round makes at
  most one connection plus five retries, a cleared running flag ends
  connecting and a worker whose flag stays clear stops within five moves after at most one more connection and read, reads are numbered by successful connections, a stopped worker
  stays stopped.
- `src/device_manager.rs`: the registry of device workers keyed by socket
  address and slave id.
- `src/file_watcher.rs`: the watcher configuration and its event filter
  (event types and glob ignore patterns), the table of watched paths, the
  conversion of `notify` events into per-path file events, which handler
  method receives each event, and when the watch loop stops (only when its
  channel closes).
- `app/`: Modbus TCP connections, `notify` watches, tokio tasks and printing.
