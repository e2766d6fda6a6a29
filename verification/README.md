# iomark

The rules of a CrystalDiskMark-style disk benchmark for the terminal, written
in Verus: which fio workloads run in which order, how their results are scored,
and what is shown of them. Verus proves the contracts of the library's
functions, except those of a few small wrappers, marked `external_body`, around
calls into other crates and the standard library: those contracts, and the one
given to `String::push`, are trusted, and each says what it claims. The files
under `app/` are the program around the library.

| Where | What |
|---|---|
| `src/task.rs`, `src/cli.rs`, `src/human.rs` | task grammar, settings, durations in words |
| `src/fio.rs`, `src/eta.rs` | what fio is asked for, and what its output says |
| `src/runner.rs`, `src/steps.rs`, `src/trace.rs` | plan, scoring, the benchmark step by step, and what holds of it as a whole |
| `src/disk.rs`, `src/mounts.rs`, `src/paths.rs` | the volume under test |
| `src/session.rs`, `src/abort.rs`, `src/report.rs` | checks at the start, cancellation, the record of a result |
| `src/ui/` | the plain and the interactive presentation |
| `src/text.rs`, `src/duration.rs`, `src/measure.rs`, `src/platform.rs` | texts, lengths of time, measured numbers, systems |
| `app/` | command line, processes, terminal, operating system |

Measured numbers are 64-bit floating point. The library holds them by their
place in the order of such numbers, which is all that scoring needs; the
program converts and formats them.
