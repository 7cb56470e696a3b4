# solray

A Solidity source explorer for Foundry projects, written as a Verus-verified
library over the data that `forge build` leaves in `out/` and the sources it
points to.

- `src/` is the library: call graphs and call paths, function sources with
  their references, inheritance graphs, external functions, modifiers,
  storage layouts, interface generation, the transfer scans, listings,
  the artifact index, the choice of artifact or declaration each command
  works on, and the `foundry.toml` configuration. Verus proves every
  function's contract there, except for a few trusted wrappers around
  outside code, each documented where it stands: `String::push` from std,
  and the `toml` parser (the parse, the turning of its values into the
  library's own value type).
- `app/` is the command line: it reads the project from disk, turns the
  artifacts' ASTs into the library's types, and prints the library's reports.
  It offers `inspect abstracts|contracts|interfaces|libraries`,
  `inspect storage-layout|inheritance-graph|modifiers`, `gen interface` and
  `scan erc20-transfer-sink|asset-transfers`.
- `tests/` runs the library on concrete values.
