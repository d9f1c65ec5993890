//! Verified core of the sandbox server: configuration checks, access policy,
//! git porcelain parsing, workspace maintenance rules, LSP framing and
//! session bookkeeping, and the pure helpers behind the MCP tools.

pub mod telemetry;
pub mod text;
pub mod assoc;
pub mod auth;
pub mod config;
pub mod flush;
pub mod git;
pub mod json;
pub mod linters;
pub mod lsp;
pub mod maint;
pub mod mcp;
pub mod oidc;
pub mod tools;
pub mod venv;
