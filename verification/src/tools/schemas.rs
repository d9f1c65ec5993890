//! The input schemas of the LSP tools, as `tools/list` announces them.

use vstd::prelude::*;

verus! {

/// A property of a tool's input: its name, JSON type and description.
pub struct ToolProperty {
    pub name: &'static str,
    pub kind: &'static str,
    pub description: &'static str,
}

/// A tool: its name, description, required properties and properties.
pub struct ToolSpec {
    pub name: &'static str,
    pub description: &'static str,
    pub required: Vec<&'static str>,
    pub properties: Vec<ToolProperty>,
}

/// A property by its views.
pub type PropertyView = (Seq<char>, Seq<char>, Seq<char>);

/// A tool by its views.
pub type ToolView = (Seq<char>, Seq<char>, Seq<Seq<char>>, Seq<PropertyView>);

/// The view of a property.
pub open spec fn property_view(p: ToolProperty) -> PropertyView {
    (p.name@, p.kind@, p.description@)
}

/// The view of a tool.
pub open spec fn tool_view(t: ToolSpec) -> ToolView {
    (
        t.name@,
        t.description@,
        t.required@.map_values(|s: &'static str| s@),
        t.properties@.map_values(|p: ToolProperty| property_view(p)),
    )
}

pub const PATH_DESC: &'static str = "Path to the file within the sandbox workspace.";
pub const LINE_DESC: &'static str = "1-based line number (as shown by read_file). Required.";
pub const SYMBOL_DESC: &'static str = "Identifier name to target on that line (recommended). Resolved to the first delimited-identifier occurrence; if it appears several times the first is used and the answer says so.";
pub const CHARACTER_DESC: &'static str = "1-based column, precise targeting when symbol is absent or ambiguous. Ignored when symbol is set.";
pub const NEW_NAME_DESC: &'static str = "New name for the symbol.";
pub const PREVIEW_DESC: &'static str = "If true, compute and list the edits without applying them (no file is modified). Default false applies the rename and returns a before/after report.";
pub const QUERY_DESC: &'static str = "Symbol name or partial name to search for.";
pub const HINT_PATH_DESC: &'static str = "Optional path of a file in the language whose server should answer (toolchain hint only — the file is not read).";
pub const DIAGNOSTICS_DESC: &'static str = "Get diagnostics (errors/warnings) for a file via the LSP server. Supported extensions: .rs (rust), .ts/.tsx/.mts/.cts/.js/.jsx/.mjs/.cjs (node) — others (including .vue) return VNL-SBX-LSP-006, no LSP configured for that extension.";
pub const DEFINITION_DESC: &'static str = "Go to definition of the symbol at a position in a file via the LSP server, with the hover signature/doc for the same position when available. Supported extensions: .rs (rust), .ts/.tsx/.mts/.cts/.js/.jsx/.mjs/.cjs (node) — others (including .vue) return VNL-SBX-LSP-006, no LSP configured for that extension.";
pub const REFERENCES_DESC: &'static str = "Find all references of the symbol at a position in a file via the LSP server. Results are grouped by file: each reference is rendered under its enclosing symbol (name + signature, resolved with one documentSymbol per distinct file — never per reference) with a line snippet; out-of-workspace references render raw (bare line, never read). Supported extensions: .rs (rust), .ts/.tsx/.mts/.cts/.js/.jsx/.mjs/.cjs (node) — others (including .vue) return VNL-SBX-LSP-006, no LSP configured for that extension.";
pub const RENAME_DESC: &'static str = "Rename a symbol at a position in a file via the LSP server. Default (preview false) applies the resulting WorkspaceEdit to the filesystem and returns a before/after report per edited site. With preview true, the WorkspaceEdit is computed and its sites listed grouped by file — no file is modified. Supported extensions: .rs (rust), .ts/.tsx/.mts/.cts/.js/.jsx/.mjs/.cjs (node) — others (including .vue) return VNL-SBX-LSP-006, no LSP configured for that extension.";
pub const DOCUMENT_SYMBOLS_DESC: &'static str = "Outline a file's symbols (functions, structs, etc.) with kinds, signatures and line numbers via the LSP server. Supported extensions: .rs (rust), .ts/.tsx/.mts/.cts/.js/.jsx/.mjs/.cjs (node) — others (including .vue) return VNL-SBX-LSP-006, no LSP configured for that extension.";
pub const WORKSPACE_SYMBOLS_DESC: &'static str = "Search symbols by name across the whole workspace via the LSP server (workspace/symbol). Results come back ranked by relevance: path, line, kind and name. Optional path only selects which toolchain's server answers (extension must be supported: .rs, .ts/.tsx/.js/…); no file is read from it. Supported toolchains: rust, node — others return VNL-SBX-LSP-006.";

/// The properties of a position target.
pub open spec fn position_properties() -> Seq<PropertyView> {
    seq![
        ("path"@, "string"@, PATH_DESC@),
        ("line"@, "integer"@, LINE_DESC@),
        ("symbol"@, "string"@, SYMBOL_DESC@),
        ("character"@, "integer"@, CHARACTER_DESC@),
    ]
}

/// The six LSP tools, in the order `tools/list` gives them.
pub open spec fn lsp_tool_specs_spec() -> Seq<ToolView> {
    seq![
        ("lsp_diagnostics"@, DIAGNOSTICS_DESC@, seq!["path"@], seq![("path"@, "string"@, PATH_DESC@)]),
        ("lsp_definition"@, DEFINITION_DESC@, seq!["path"@, "line"@], position_properties()),
        ("lsp_references"@, REFERENCES_DESC@, seq!["path"@, "line"@], position_properties()),
        (
            "lsp_rename"@,
            RENAME_DESC@,
            seq!["path"@, "line"@, "new_name"@],
            position_properties() + seq![("new_name"@, "string"@, NEW_NAME_DESC@), ("preview"@, "boolean"@, PREVIEW_DESC@)],
        ),
        ("lsp_document_symbols"@, DOCUMENT_SYMBOLS_DESC@, seq!["path"@], seq![("path"@, "string"@, PATH_DESC@)]),
        (
            "lsp_workspace_symbols"@,
            WORKSPACE_SYMBOLS_DESC@,
            seq!["query"@],
            seq![("query"@, "string"@, QUERY_DESC@), ("path"@, "string"@, HINT_PATH_DESC@)],
        ),
    ]
}

fn prop(name: &'static str, kind: &'static str, description: &'static str) -> (r: ToolProperty)
    ensures
        property_view(r) == (name@, kind@, description@),
{
    ToolProperty { name, kind, description }
}

fn position_props() -> (r: Vec<ToolProperty>)
    ensures
        r@.map_values(|p: ToolProperty| property_view(p)) == position_properties(),
{
    let r = vec![
        prop("path", "string", PATH_DESC),
        prop("line", "integer", LINE_DESC),
        prop("symbol", "string", SYMBOL_DESC),
        prop("character", "integer", CHARACTER_DESC),
    ];
    assert(r@.map_values(|p: ToolProperty| property_view(p)) =~= position_properties());
    r
}

fn tool(
    name: &'static str,
    description: &'static str,
    required: Vec<&'static str>,
    properties: Vec<ToolProperty>,
) -> (r: ToolSpec)
    ensures
        tool_view(r) == (
            name@,
            description@,
            required@.map_values(|s: &'static str| s@),
            properties@.map_values(|p: ToolProperty| property_view(p)),
        ),
{
    ToolSpec { name, description, required, properties }
}

/// The input schemas of the LSP tools.
pub fn lsp_tool_specs() -> (r: Vec<ToolSpec>)
    ensures
        r@.map_values(|t: ToolSpec| tool_view(t)) == lsp_tool_specs_spec(),
{
    let diagnostics = vec!["path"];
    let d_props = vec![prop("path", "string", PATH_DESC)];
    assert(diagnostics@.map_values(|s: &'static str| s@) =~= seq!["path"@]);
    assert(d_props@.map_values(|p: ToolProperty| property_view(p)) =~= seq![("path"@, "string"@, PATH_DESC@)]);
    let t0 = tool("lsp_diagnostics", DIAGNOSTICS_DESC, diagnostics, d_props);

    let req1 = vec!["path", "line"];
    assert(req1@.map_values(|s: &'static str| s@) =~= seq!["path"@, "line"@]);
    let t1 = tool("lsp_definition", DEFINITION_DESC, req1, position_props());

    let req2 = vec!["path", "line"];
    assert(req2@.map_values(|s: &'static str| s@) =~= seq!["path"@, "line"@]);
    let t2 = tool("lsp_references", REFERENCES_DESC, req2, position_props());

    let req3 = vec!["path", "line", "new_name"];
    assert(req3@.map_values(|s: &'static str| s@) =~= seq!["path"@, "line"@, "new_name"@]);
    let props3 = vec![
        prop("path", "string", PATH_DESC),
        prop("line", "integer", LINE_DESC),
        prop("symbol", "string", SYMBOL_DESC),
        prop("character", "integer", CHARACTER_DESC),
        prop("new_name", "string", NEW_NAME_DESC),
        prop("preview", "boolean", PREVIEW_DESC),
    ];
    assert(props3@.map_values(|p: ToolProperty| property_view(p)) =~= position_properties() + seq![
        ("new_name"@, "string"@, NEW_NAME_DESC@),
        ("preview"@, "boolean"@, PREVIEW_DESC@),
    ]);
    let t3 = tool("lsp_rename", RENAME_DESC, req3, props3);

    let req4 = vec!["path"];
    let p4 = vec![prop("path", "string", PATH_DESC)];
    assert(req4@.map_values(|s: &'static str| s@) =~= seq!["path"@]);
    assert(p4@.map_values(|p: ToolProperty| property_view(p)) =~= seq![("path"@, "string"@, PATH_DESC@)]);
    let t4 = tool("lsp_document_symbols", DOCUMENT_SYMBOLS_DESC, req4, p4);

    let req5 = vec!["query"];
    let p5 = vec![prop("query", "string", QUERY_DESC), prop("path", "string", HINT_PATH_DESC)];
    assert(req5@.map_values(|s: &'static str| s@) =~= seq!["query"@]);
    assert(p5@.map_values(|p: ToolProperty| property_view(p)) =~= seq![
        ("query"@, "string"@, QUERY_DESC@),
        ("path"@, "string"@, HINT_PATH_DESC@),
    ]);
    let t5 = tool("lsp_workspace_symbols", WORKSPACE_SYMBOLS_DESC, req5, p5);

    let r = vec![t0, t1, t2, t3, t4, t5];
    assert(r@.map_values(|t: ToolSpec| tool_view(t)) =~= lsp_tool_specs_spec());
    r
}

} // verus!
