# collector

Executes benchmarks for a collector of compiler performance data. A benchmark is a
crate that is built in several kinds of build (check, debug, optimized) and several
states (from scratch, with the new borrow checker, incrementally with and without
changes), under `perf stat` or another profiler.

`src/` is the library. It is written in Verus and decides how a benchmark is built,
measured and profiled: the commands of a build and their arguments, the order of all
that is done, what the output says, and what is reported. It does no input or output.
`measure.rs` and `profile.rs` are state machines: they say what is to be done next and
are told what came of it.

- `benchmark.rs`, `config.rs`, `patch.rs`: a benchmark, its settings and its patches
- `cargo.rs`, `command.rs`, `profiler.rs`: the commands of a build
- `perf_stat.rs`: what `perf stat` prints
- `stats.rs`, `group.rs`: what is reported of repeated measurements
- `schedule.rs`, `measure.rs`: what measuring consists of, step by step
- `history.rs`: what whole measurements lead to
- `profile.rs`: a run under a profiler, and the files that are kept of it
- `text.rs`, `path.rs`: texts and file paths

Measured values are floating point numbers. The library holds them as their bits and
compares those; turning text into numbers is left to the caller.

`app/` runs the processes, makes the directories and reads and writes the files. How a
patch is applied and whether `perf` can be started at all is its business too.
`tests/` runs the library.
