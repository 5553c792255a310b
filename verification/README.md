# Buildprof

Records a build as a Perfetto trace of its processes, their timing and the
files they open.

`src/` is the library: what a recording means and what becomes of it, with its
contracts proved by Verus.

- `args`: the command line, and what it comes to where it runs
- `ancestry`: which process came from which, and whose work it belongs to
- `linux`: the tracer's state, the seccomp filter, wait statuses and `/proc`
- `macos`: kernel trace records, the collector that reconstructs a build from
  them, the tracker that turns it into segments, and the Endpoint Security
  helper
- `compiler`: wrappers around compilers, and their traces
- `perfetto`: the trace writer, its messages and their wire format
- `blind_spots`, `report`, `util`: what the person is told
- `json`, `text`, `status`, `table`, `model`: what the others share

What the library takes on trust of serde_json, libc and the standard library
stands in `json`, `status` and `text`, each item with what is claimed of it.

`app/` is the program around it: system calls, files, the terminal and the
network. It moves the writer's bytes to a file as one zstd stream.

`tests/` runs the library from outside.
