# oculus

A streaming log analyzer for Apache, Nginx and JSON access logs, as a verified library and a
thin command-line program around it.

- `src/` is the library, written in Verus. Every function carries a contract that Verus
  proves: the access-log grammar and its parsers, format detection, the filter engine (with an
  IP address parser and CIDR membership), the counters a run folds its lines into, the report
  with its ordering of status codes and top paths, and the table and CSV renderers, whose
  output is specified character by character. Public proof functions (`lemma_*`) state the
  properties that hold across calls.
- `app/` is the `oculus` binary: command-line parsing with `clap`, file and gzip reading, JSON
  decoding and encoding with `serde`, and printing.
- `tests/` runs the library on concrete inputs.

Calls into `chrono` (timestamps), `regex` (the `--regex` filter) and `ipnet` (CIDR parsing)
go through a few small trusted functions whose contracts name what those crates compute.
