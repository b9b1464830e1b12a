# ordering_probe

A probe of how a CPU orders memory operations, with a verified core.

`src/` is verified with Verus:

- `json/` — JSON values (`Value`, `Number`, `Object`), string escaping and the
  compact text of a value, all proved against specifications over characters
  and their UTF-8 bytes.
- `records.rs` — the log lines the probes write.
- `probe.rs` — the per-round decisions of the probes.
- `log_name.rs` — the log file's name, stamped with the local time by `chrono`.
- `pattern.rs` — regular-expression search through `regex`.
- `channel_data.rs`, `dummy_data.rs` — the log writer's messages and a block
  of shared counters.

`app/` is the program: the probe threads, the log writer thread, reading the
temperature sensor and the entry point.
