# koru

A library of permission-aware, budgeted building blocks for running Lua
workflows, verified with Verus, and a small command-line program around it.

- `src/` is the verified library: bounded JSON parsing and emission with exact
  number values, the schema subset for tool contracts, configuration files,
  credentials, command declarations, source capture, the run ledger and its
  identities, prepared actions and their authorization, staged-diff snapshots
  and commit plans, provider catalogs, terminal rendering, and the conversion
  between Lua values and JSON.
- `app/` holds what the library leaves to its caller: the command line, file
  and process I/O, the terminal, and the Lua virtual machine.
- `tests/` exercises the library through its public interface.

Contracts are stated over mathematical models (`Seq`, `Map`, `int`) of each
type; laws that span several calls, such as the JSON and configuration round
trips or the growth of a run's usage within its limits, are public proof
functions beside the code they speak of.
