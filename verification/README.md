# summer_lsp

A verified core for a language server for summer-rs applications, written
in Verus. The library (`src/`) holds the analysis logic with contracts
proved by Verus; `app/` wraps it into a server process.

## Layout

- `src/text.rs`, `src/lsp.rs`, `src/json.rs`: text helpers, protocol value
  types (positions, ranges, diagnostics), and JSON values as plain data,
  read through cursors (`src/json_dom.rs`) from what `serde_json` parses.
- `src/document.rs`: positions placed in a document's text, and changes
  applied to it.
- `src/env_vars.rs`: `${NAME:default}` references in configuration files.
- `src/toml_dom.rs`, `src/toml_tree.rs`, `src/toml_analyzer.rs`,
  `src/toml_sections.rs`: parsing configuration files (with `taplo`, read
  through cursors into its DOM), their sections (a map from prefixes to
  sections), validation against the schema, hover.
- `src/schema.rs`, `src/schema_files.rs`: the plugin configuration schema,
  its provider, the built-in fallback, and the merge of workspace schema
  files (newest wins).
- `src/completion.rs`: completion of prefixes, properties, enum values,
  environment variables and macro arguments.
- `src/config.rs`, `src/logging.rs`: server settings, how sources are
  merged, and validation.
- `src/di_validator.rs`, `src/index.rs`, `src/macros.rs`: dependency
  injection checks over the summer-rs macros of a workspace.
- `src/scanner/`: components, routes, jobs and plugins of a project.
- `src/server.rs`: lifecycle, routing of requests and notifications, the
  message loop's decisions, diagnostics published for a document, and
  document and workspace symbols.
- `src/status.rs`, `src/error.rs`, `src/decimal.rs`: counters, errors and
  their recovery, and exact comparison of decimal texts.
- `app/`: the protocol connection and message loop, file, network and
  environment access, logging setup, metrics, and serialisable copies of
  the library's answers.

Each public proof function whose name starts with `law_` states a property
that holds across calls or for all inputs.
