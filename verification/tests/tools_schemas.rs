use vanyline_sandbox::tools::schemas::{lsp_tool_specs, ToolSpec};

fn find<'a>(tools: &'a [ToolSpec], name: &str) -> &'a ToolSpec {
    tools.iter().find(|t| t.name == name).unwrap_or_else(|| panic!("{name} should be in lsp_tool_specs()"))
}

#[test]
fn lsp_tools_position_schemas_updated() {
    let tools = lsp_tool_specs();
    let cases = [
        ("lsp_definition", vec!["line"]),
        ("lsp_references", vec!["line"]),
        ("lsp_rename", vec!["line", "new_name"]),
    ];
    for (name, required_keys) in cases {
        let tool = find(&tools, name);
        for key in required_keys {
            assert!(tool.required.contains(&key), "{name}: required should contain '{key}'");
        }
        assert!(tool.properties.iter().any(|p| p.name == "symbol"), "{name}: properties.symbol should be present");
        let line = tool.properties.iter().find(|p| p.name == "line").expect("line property");
        assert!(line.description.contains("1-based"), "{name}: line description should mention 1-based");
        let character = tool.properties.iter().find(|p| p.name == "character").expect("character property");
        assert_eq!(character.kind, "integer");
    }
}

#[test]
fn lsp_rename_schema_has_preview_property() {
    let tools = lsp_tool_specs();
    let tool = find(&tools, "lsp_rename");
    let preview = tool.properties.iter().find(|p| p.name == "preview").expect("preview property should be present");
    assert_eq!(preview.kind, "boolean");
    assert!(preview.description.contains("no file is modified") && preview.description.contains("Default false"));
}

#[test]
fn lsp_tool_specs_names_in_order() {
    let names: Vec<&str> = lsp_tool_specs().iter().map(|t| t.name).collect();
    assert_eq!(
        names,
        vec![
            "lsp_diagnostics",
            "lsp_definition",
            "lsp_references",
            "lsp_rename",
            "lsp_document_symbols",
            "lsp_workspace_symbols"
        ]
    );
    let ws = lsp_tool_specs().into_iter().find(|t| t.name == "lsp_workspace_symbols").unwrap();
    assert_eq!(ws.required, vec!["query"]);
}
