# Trace

The verified core of a Linux machine observatory and control center: it reads
what `/proc`, `/sys` and system tools report, decides what to show and what to
do, and phrases the outcome of every control action.

- `src/` is the library, verified with Verus. Each module holds the logic of
  one area (processes and cgroups, network, systemd, Docker, GPU, USB,
  windows, autostart, storage, projects, namespaces, monitoring history,
  profiles, update checks) with contracts over `Seq`, `Map` and spec
  functions. `text`, `scan` and `sort` are the shared string, parsing and
  stable-sorting foundations. Laws that relate several functions (version
  ordering, profile undo and dry runs, autostart rewriting, USB authorization
  read-back, clipboard history bounds) are public proof functions.
- `app/` is the ordinary Rust around it: file and process I/O, D-Bus, the
  Docker and GitHub clients, SQLite, sampling with `sysinfo`, and the
  floating-point figures (CPU, GPU, temperatures, rates, durations).
- `tests/` exercises the library on concrete values.
