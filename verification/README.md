# lsp-broker

A daemon that runs one language server for each project and language and shares it between all
editors that have the project open. Tools that want a single answer ask on a second socket.

The logic is a library verified with Verus:

- `src/` decides: framing, routing of requests and answers, counting of open documents,
  initialization, idle servers, project roots, languages and configuration. Every function states
  what it returns and how it changes the state; `src/laws.rs` and the functions named `law_..`
  state what holds over many calls.
- `app/` acts: sockets, processes, files, the clock.
- `tests/` runs the library on concrete values.

The library holds JSON as `serde_json::Value`. All calls into `serde_json` stand in
`src/json.rs`, behind functions whose contracts are believed; `src/text.rs` holds two such
functions for `String`.

## Configuration

`~/.config/lsp-broker/config.toml`. Where there is none, there are commands for Rust, Python, Go
and Markdown.

```toml
[languages]
rs = "rust"
md = "markdown"

[servers.rust]
command = ["rust-analyzer"]

[servers.markdown]
command = ["markdown-oxide"]
```
