# dtop

A terminal monitor for Docker containers and the host they run on.

## Layout

- `src/` — the verified library. Everything that decides or computes stands
  here with a contract:
  - `app.rs`: the interface state machine (keys, selection, filters,
    settings, confirmations, runtime events) and the laws it keeps.
  - `supervisor.rs`: the decisions of the Docker supervisor, as a step
    function from state and input to the next state and the actions to run.
  - `runtime.rs`: error classification and the rotation of stats batches.
  - `docker/`: turning Docker API responses into rows, details, events, log
    lines and stats counters; GPU tool output; `/proc/meminfo`.
  - `host/`: `/proc` parsers (stat, diskstats, partitions, net/dev, mounts,
    per-process stat and status) and the counter differences between samples.
  - `order.rs`: stable ordering of listings by integer keys.
  - `theme.rs`: the colours of each theme.
  - `ui.rs`: what the screens list: rankings, the rows that fit, labels.
  - `config.rs`, `cli.rs`, `input.rs`, `text.rs`, `model/`: settings, command
    line, keys, text helpers and the data model.
- `app/` — the program around the library: terminal, Docker client
  (bollard), `/proc` reading, the async loops, floating-point statistics and
  rendering (ratatui).
- `tests/` — tests of the library's public functions on concrete values.
