# rail_signature

Finds the call sites of an LLVM module that matter to a security analysis of a
Rust program: calls whose demangled callee a catalog lists as an LLM call, as an
access control check or as an access to a data store.

- `src/` is the verified library.
  - `catalog` loads signatures from the JSON text of a catalog.
  - `symbol` strips sigils and quotes off linker symbols and demangles them.
  - `path` takes demangled paths apart: generics, `<Type as Trait>::method`,
    short names.
  - `matching` matches a callee against the catalogs, by suffix and then by
    short name.
  - `module` scans the calls of a module.
  - `*_laws` hold what is proved of these beyond the contract of one function.
- `app/` reads catalogs from disk and turns modules of `llvm-ir` into those of
  the library. It needs LLVM 19.
- `tests/` runs the library on examples.

What is taken on trust of `serde_json`, `rustc_demangle` and the standard library
stands in `catalog`, `symbol` and `text`, each with a comment that says so.
