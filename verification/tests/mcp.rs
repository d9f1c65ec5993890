use vanyline_sandbox::mcp::{
    method_not_found, missing_tool_name, route_request, unknown_tool, JsonRpcResponse, McpRoute,
    INVALID_PARAMS, METHOD_NOT_FOUND,
};

#[test]
fn rpc_ok_has_no_error() {
    let resp = JsonRpcResponse::ok(Some(serde_json::Value::from(42)), serde_json::Value::from("data"));
    assert!(resp.error.is_none());
    assert_eq!(resp.result.unwrap(), "data");
    assert_eq!(resp.jsonrpc, "2.0");
}

#[test]
fn rpc_err_has_no_result() {
    let resp = JsonRpcResponse::err(Some(serde_json::Value::from(42)), -32601, "not found");
    assert!(resp.result.is_none());
    let err = resp.error.unwrap();
    assert_eq!(err.code, -32601);
    assert_eq!(err.message, "not found");
}

#[test]
fn rpc_err_code_method_not_found() {
    let resp = JsonRpcResponse::err(None, -32601, "Method not found: foo");
    assert_eq!(resp.error.unwrap().code, -32601);
}

#[test]
fn tools_call_unknown_tool_returns_error() {
    let error = unknown_tool("nope");
    assert_eq!(error.code, -32602);
    assert_eq!(error.message, "Unknown tool: nope");
}

#[test]
fn tools_call_missing_name_returns_error() {
    let error = missing_tool_name();
    assert_eq!(error.code, -32602);
    assert_eq!(error.message, "Missing tool name in params");
}

// ── further cases ───────────────────────────────────────────────────────────

#[test]
fn initialize_echoes_request_id() {
    let id = serde_json::Value::from("req-abc");
    let resp = JsonRpcResponse::ok(Some(id.clone()), serde_json::Value::Null);
    assert_eq!(resp.id.unwrap(), id);
}

#[test]
fn requests_are_routed_by_method() {
    assert_eq!(route_request(false, "tools/call"), McpRoute::Accepted);
    assert_eq!(route_request(true, "initialize"), McpRoute::Initialize);
    assert_eq!(route_request(true, "notifications/initialized"), McpRoute::Accepted);
    assert_eq!(route_request(true, "tools/list"), McpRoute::ToolsList);
    assert_eq!(route_request(true, "tools/call"), McpRoute::ToolsCall);
    assert_eq!(route_request(true, "tools/calls"), McpRoute::MethodNotFound);
}

#[test]
fn method_not_found_names_the_method() {
    let e = method_not_found("foo");
    assert_eq!(e.code, METHOD_NOT_FOUND);
    assert_eq!(e.message, "Method not found: foo");
    assert_eq!(INVALID_PARAMS, -32602);
}
