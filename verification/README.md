# openclaw

The core of a one-click deployment tool: recipes (TOML documents that
describe deployment steps), the dependency graph of their steps, the task
that runs a recipe step by step, environment detection, error diagnosis
and plugins. The library is written in Verus and every function carries a
contract that Verus proves.

Layout:

- `src/` — the verified library.
  - `recipe/` — the recipe document and its validation, variables
    (`${name}`), the in-memory registry, and the conversion of a recipe
    into a task.
  - `task/` — the step graph (built with petgraph), task steps, the task
    state machine and the decisions of the task runner: which step may run
    once its dependencies are done, and what follows a failure (a re-run
    after a fixed or doubling wait, skipping, or failing the task).
  - `env/` — install hints, display names, version parsing and the records
    of probed tools.
  - `error/` — error values and the regex-based diagnosis of failed steps.
  - `plugin/` — plugin manifests and the plugin manager.
  - `log/` — log entries.
  - `text.rs` — string helpers: equality, decimal rendering, text order.
- `tests/` — tests of the library.
- `app/` — the application around it: TOML and file input, the search for
  tools on the machine, child processes, the asynchronous task runner,
  directory watching, HTTP fetches and serialisable copies of the types.
