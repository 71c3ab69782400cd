# rglint

GraphQL lint rules and the harness that checks them against fixtures,
written in Verus: every rule is a function from a document's syntax tree
(and, where it needs one, the schema and the project's executable
definitions) to its findings, with a contract that states exactly which
findings come out.

## Layout

- `src/model.rs`, `src/schema.rs`, `src/executable.rs`, `src/json.rs`: the
  data the rules read. A document is a flat syntax tree whose nodes carry a
  kind, a name, a span (in characters; parity records give columns in bytes) and their parent; a schema lists its
  types, fields, arguments, enum values and directives; rule options arrive
  as JSON.
- `src/cst.rs`: the syntax tree of a document, built in verified code from
  the elements `apollo-parser` lists (kinds, token texts, depths, byte
  ranges).
- `src/rules/`: one module per rule, each with a spec function that defines
  its findings and a `check` proved to return them.
- `src/case.rs`, `src/comments.rs`, `src/relay.rs`, `src/oneof.rs`,
  `src/reach.rs`, `src/usage.rs`: helpers shared by rules (naming styles,
  comments, Relay conventions, `@oneOf` inputs, reachable types, used
  fields), re-exported under `shared`.
- `src/harness.rs`, `src/fixture.rs`, `src/snapshot.rs`, `src/property.rs`:
  parity records and their comparison, the choice of a fixture's files and
  its settings, the caret snapshot of diagnostics, and the parser
  round-trip check.
- `src/pattern.rs`, `src/paths.rs`, `src/text.rs`: the trusted boundary to
  `regex`, to `std::path` and to string conversions, each call behind a
  small wrapper whose contract names its result.
- `app/`: ordinary Rust around the library: building the schema and
  executable definitions from `apollo-compiler`,
  deserializing rule options with `serde`, reading fixture directories and
  asserting `insta` snapshots.
- `tests/`: the test suite, run against the compiled library.
