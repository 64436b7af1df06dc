# chisel_server

The logic of the ChiselStrike server, verified with Verus: query planning and
the SQL it produces, filters and CRUD URLs, storing objects, rebuilding
objects from rows, policies and authorization, routing, applying new type
definitions, and schema migration steps.

## Layout

- `src/` is the verified library. Every function there has a contract that
  Verus proves. Calls into outside crates (regex, petgraph, base64, uuid,
  form_urlencoded, format-sql-query, hyper) go through small trusted
  wrappers whose contracts say what those crates document.
- `src/laws.rs` holds properties that span several functions.
- `tests/` runs the library on concrete values.
- `app/` is plain Rust around the library: serde and YAML forms of the
  library's types, and a small command-line front end that checks a policy
  file.
