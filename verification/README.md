# vanyline-sandbox

The sandbox server of vanyline: an MCP endpoint (JSON-RPC over HTTP, OIDC
bearer tokens) giving an assistant the language-server tools of a workspace,
git routes over the same workspace, two small linter language servers
(hadolint, ruff) and the `vanyline-maint` workspace maintenance utility.

## Layout

- `src/` — the library, verified with Verus: the decisions of the server,
  each with its contract, including the step-by-step procedures of a
  checkout and of the reference-file scan, which `app/` drives.
  - `config`, `auth`, `oidc`: configuration checks, the access policy and
    bearer-token validation;
  - `mcp`: MCP routing;
  - `lsp`: `Content-Length` framing, the bookkeeping of a language-server
    session shared by several clients and of its auxiliary servers;
  - `linters`: the linter servers' reading of received frames and of the
    linters' JSON output, their document book and diagnostic conversion;
  - `json`: reads of values out of JSON text by JSON Pointer, through
    `serde_json`;
  - `tools`: path confinement, position resolution, text edits, hover and
    symbol rendering, the decisions of the LSP tools and their input schemas;
  - `git`: git output parsing and argument lists;
  - `maint`: workspace maintenance rules and the checkout procedure;
  - `flush`, `venv`, `telemetry`: flush requests to the editors, the `.venv`
    overlay and the `/metrics` answer.
- `app/` — the processes around it: command line, HTTP server, child
  processes, files, network, JSON (de)serialisation, the async plumbing of
  language-server sessions and telemetry setup. It hands the library plain
  values and acts on what comes back.
- `tests/` — tests of the library's public functions.
