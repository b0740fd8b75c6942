# elba

A package manager for the Idris language. This crate is its core, written in Verus: every
function under `src/` carries a contract that Verus proves.

- `src/` — the verified library: versions and their order (`version`), bounds and ranges
  (`interval`), constraints as unions of ranges with union, intersection, difference and
  complement (`constraint`), their text syntax (`syntax`), package names and checksums
  (`package`), sources and package identifiers (`resolution`, `ids`, `registry`), the
  checks made when a source is fetched (`fetch`), manifests and `ipkg` files (`manifest`,
  `ipkg`), package indices and lockfiles (`index`, `lockfile`), the PubGrub resolver
  (`resolve`, `retriever`, `solver`), and the build plan, compiler invocations and job
  graph (`builds`, `invoke`, `jobs`), and what building a library or a binary does once it is
  known which of its files exist (`plan`). `laws` states and proves what holds of constraints for
  every input: what union, intersection, unification and the complement hold, and what the
  relation between two constraints says of their versions.
- `tests/` — tests of the library on concrete values.
- `app/` — the command-line program: reading and writing files, TOML, running the compiler.
