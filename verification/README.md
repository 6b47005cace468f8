# oxc_svelte_backend

Adapter between the Svelte compiler and the Oxc tools. It turns what the compiler
answers into the payload that linting and formatting work on, settles what the
formatter is asked to do, and serves the `overrides` and `--print-config` parts of
the lint configuration.

The library under `src/` is verified with [Verus](https://github.com/verus-lang/verus):
every function states in its contract what it returns, over plain mathematical
models of sources, syntax trees and JSON documents, and the `law_*` proof functions
state what holds across functions. The compiler and the formatter themselves are
run from `app/`, which hands the library their answers as plain values.

What is believed without proof is the behaviour of the `serde_json` functions that
the configuration code calls. It stands in one place, `src/json.rs`.

- `src/` the verified library
- `tests/` its tests
- `app/` compiler, formatter, configuration files and standard output
