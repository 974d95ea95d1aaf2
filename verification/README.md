# comet

Comet is an isomorphic web framework for Rust: one crate describes the
components of a page, the models stored in PostgreSQL and the remote
procedures between browser and server, and code generators turn it into a
WebAssembly client and an axum server. A command-line tool builds, runs and
creates such projects.

This crate holds the framework's logic as a library verified with Verus, and
the glue around it as ordinary Rust.

- `src/` — the verified library:
  - `html`, `component`, `msg`: the view tree of `html!`/`component!`, what
    the generator computes from it (handlers, bindings, attribute code, the
    message enum and update match), and the hashed message names.
  - `rpc`, `sql`, `models`, `migrations`: the registries of remote
    procedures, watched queries and models, the dispatch table, the derived
    names, and the SQL migrations of `#[model]` structs.
  - `socket`, `proto`, `dom`: request ids and answers of the websocket, the
    protocol trait and the shared component cell, and what the client sets on
    a new DOM element.
  - `cli`, `cli_legacy`: the commands of the tool — the steps of `build` and
    `run`, the installers, how a command's outcome is reported, and the
    project that `new` writes.
  - `cache`: the client's cache of query results — which query each
    request asked, the rows each query returned, and the rows of each model
    in id order.
  - `text`: string operations with their specifications.
  - `app_model`: the example application's components.
- `app/` — the command-line tool, the parsing and rendering with `syn` and
  `quote`, the axum server and the browser client, calling the library.
- `tests/` — tests of the library on concrete values.
