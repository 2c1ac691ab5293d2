# find_stutter

The rules of a desktop stutter monitor, as a Verus library: when a stutter starts and ends, which
causes it had and which came first, how events are aggregated into rankings and profiles, what the
event log and the call stacks of culprits tell, and how the service, its installation and the
command line behave.

- `src/` is the library. Every function has a contract that fixes its result; `detector_laws.rs` and
  the public proof functions of the other modules state what holds over several calls.
- `app/` is the program around it: collecting samples, the database, the service manager, the
  terminal.
- `tests/` runs the library.

Readings are held by their rank (`level::Level`), which orders them exactly as the floating-point
numbers themselves. Averages, ratios and rendered numbers are calculated in `app/` and handed in.

Calls into other crates go through a few trusted functions: `timestamps.rs` (chrono), `json.rs`
(serde_json), and for the standard library `text.rs`, `event_log.rs` and `install.rs`.
