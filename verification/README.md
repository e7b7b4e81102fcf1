# codex_core

The decisions of a coding agent, as a library that Verus proves: which threads a
listing shows, when an automation runs next, which hook command is run and what its
end means, whether a runtime archive may be unpacked where, how shell commands are
read, in what form two versions of a schema are compared.

- `src/` is the library. Each public function states in its contract what it
  returns; the proof functions named `law_…` state what holds of several functions
  together.
- `tests/` runs the library on concrete values.
- `app/` holds the input and output around it: files, processes, databases and the
  terminal. It asks the library what to do, does it, and hands back what came of it.

Calls into other crates stand behind small functions marked
`#[verifier::external_body]`, whose contracts are believed and not proved. The
comment above each says what is claimed of the function that it calls.
