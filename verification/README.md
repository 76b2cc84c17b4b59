# osi_substrait

Compiles [Open Semantic Interchange](https://github.com/open-semantic-interchange/OSI) (OSI)
semantic models into query plans: OSI document → validated model → bound query → logical
plan → Substrait (or ANSI-style SQL). The library is written in Verus: every function in
`src/` carries a contract that Verus proves, except a few small wrappers around std and
`serde_json` calls (in `src/text.rs` and `src/json.rs`), whose contracts are trusted: Verus
believes them without proof, and each one's doc comment says what it claims.

```
OSI ──► validate ──► bind_query(model, SemanticQuery) ──► LogicalPlan ──► Substrait
                                                                     └──► SQL
```

## Layout

- `src/model/` — the OSI document types, MNML dialect bodies, expression envelopes and
  storage extensions, with their decoders from JSON.
- `src/json.rs` — the JSON data model (objects as ordered members) the library reads, and the
  `serde_json` parse and rendering it is read from and written with.
- `src/validate.rs` — document validation; `validate` succeeds exactly when no issue is found.
- `src/resolver/` — binding a `SemanticQuery` against a named model: field and metric
  resolution and the relationship join tree.
- `src/planner.rs`, `src/plan/` — the logical plan, its SQL fragments, its indented display,
  and the compilation of MNML expressions.
- `src/emit/` — SQL text and the Substrait plan model built from a logical plan.
- `src/laws.rs`, `src/resolver/laws.rs` and the `law_*` proof functions — properties that
  span several functions (model lookup, the shape of a binding and its join tree, plan shape,
  Substrait output names, validation messages, storage checks, the MNML metric normalization).
- `src/prelude.rs` — the items of a typical flow: validate, bind, plan, emit.
- `app/` — the serde, `thiserror` and protobuf edge: reading YAML/JSON/files into the
  library's types, error types with `Display`, and the Substrait protobuf message and its
  encoding.
- `tests/` — the scenarios of the library, run against the compiled crate.
