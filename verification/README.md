# cargo_core

The core logic of a Rust package build tool, written in Verus and proved
against its contracts: source identifiers and their URLs, package id
specifications, summaries and the dependency resolver (its context, its
conflict cache, its backtracking search as a state machine, and the checks
on a finished resolution), build profiles and compile modes, the unit graph,
build-script output parsing and the environment of build scripts, output
file names, packaging plans, and the credential decisions of git fetches.

Layout:

- `src/` — the verified library, one module per part of the tool. Each
  public function states in `ensures` what it returns over spec functions
  and views; public proof functions state the laws that span several
  calls (for example what the conflict cache and the build-script outputs
  give back after a history of inserts, or that every cycle of build
  dependencies is found).
- `tests/` — tests of the library on concrete values.
- `app/` — the command-line front end: file and process I/O, messages, and
  the loop that drives the resolver's search by asking a registry for the
  candidates of each dependency.
