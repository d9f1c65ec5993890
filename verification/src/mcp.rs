//! JSON-RPC envelope of the MCP endpoint: responses, error objects and the
//! routing of a request by its method.

use vstd::prelude::*;
use vstd::string::StringExecFns;
use crate::text::{chars_of, eq_chars};

verus! {

#[verifier::external_type_specification]
#[verifier::external_body]
pub struct ExJsonValue(serde_json::Value);

/// JSON-RPC code of an unknown method.
pub const METHOD_NOT_FOUND: i32 = -32601;

/// JSON-RPC code of invalid parameters.
pub const INVALID_PARAMS: i32 = -32602;

/// The `error` member of a JSON-RPC response.
pub struct RpcError {
    pub code: i32,
    pub message: String,
}

/// A JSON-RPC 2.0 response: exactly one of `result` and `error` is set.
pub struct JsonRpcResponse {
    pub jsonrpc: &'static str,
    pub id: Option<serde_json::Value>,
    pub result: Option<serde_json::Value>,
    pub error: Option<RpcError>,
}

impl JsonRpcResponse {
    /// A success response carrying `result`, echoing `id`.
    pub fn ok(id: Option<serde_json::Value>, result: serde_json::Value) -> (r: Self)
        ensures
            r.jsonrpc@ == "2.0"@,
            r.id == id,
            r.result == Some(result),
            r.error is None,
    {
        JsonRpcResponse { jsonrpc: "2.0", id, result: Some(result), error: None }
    }

    /// An error response with the given code and message, echoing `id`.
    pub fn err(id: Option<serde_json::Value>, code: i32, message: &str) -> (r: Self)
        ensures
            r.jsonrpc@ == "2.0"@,
            r.id == id,
            r.result is None,
            r.error matches Some(e) && e.code == code && e.message@ == message@,
    {
        JsonRpcResponse {
            jsonrpc: "2.0",
            id,
            result: None,
            error: Some(RpcError { code, message: message.to_owned() }),
        }
    }
}

/// What the endpoint does with a request.
#[derive(PartialEq, Eq, Structural, Debug, Clone, Copy)]
pub enum McpRoute {
    /// A notification: answered by HTTP 202 with no body.
    Accepted,
    Initialize,
    ToolsList,
    ToolsCall,
    /// Answered by a JSON-RPC error `METHOD_NOT_FOUND`.
    MethodNotFound,
}

/// Routing of a request: one without an id is a notification; otherwise
/// the method decides (`notifications/initialized` is accepted like a
/// notification).
pub open spec fn route_spec(has_id: bool, method: Seq<char>) -> McpRoute {
    if !has_id {
        McpRoute::Accepted
    } else if method == "initialize"@ {
        McpRoute::Initialize
    } else if method == "notifications/initialized"@ {
        McpRoute::Accepted
    } else if method == "tools/list"@ {
        McpRoute::ToolsList
    } else if method == "tools/call"@ {
        McpRoute::ToolsCall
    } else {
        McpRoute::MethodNotFound
    }
}

fn str_is(s: &Vec<char>, lit: &str) -> (b: bool)
    ensures
        b == (s@ == lit@),
{
    let l = chars_of(lit);
    eq_chars(s.as_slice(), l.as_slice())
}

/// Routes a request by whether it carries an id and by its method.
pub fn route_request(has_id: bool, method: &str) -> (r: McpRoute)
    ensures
        r == route_spec(has_id, method@),
{
    if !has_id {
        return McpRoute::Accepted;
    }
    let m = chars_of(method);
    if str_is(&m, "initialize") {
        McpRoute::Initialize
    } else if str_is(&m, "notifications/initialized") {
        McpRoute::Accepted
    } else if str_is(&m, "tools/list") {
        McpRoute::ToolsList
    } else if str_is(&m, "tools/call") {
        McpRoute::ToolsCall
    } else {
        McpRoute::MethodNotFound
    }
}

/// The error for a method the endpoint does not serve.
pub fn method_not_found(method: &str) -> (e: RpcError)
    ensures
        e.code == METHOD_NOT_FOUND,
        e.message@ == "Method not found: "@ + method@,
{
    let mut message = "Method not found: ".to_owned();
    message.append(method);
    RpcError { code: METHOD_NOT_FOUND, message }
}

/// The error for a `tools/call` whose params carry no tool name.
pub fn missing_tool_name() -> (e: RpcError)
    ensures
        e.code == INVALID_PARAMS,
        e.message@ == "Missing tool name in params"@,
{
    RpcError { code: INVALID_PARAMS, message: "Missing tool name in params".to_owned() }
}

/// The error for a `tools/call` naming no known tool.
pub fn unknown_tool(name: &str) -> (e: RpcError)
    ensures
        e.code == INVALID_PARAMS,
        e.message@ == "Unknown tool: "@ + name@,
{
    let mut message = "Unknown tool: ".to_owned();
    message.append(name);
    RpcError { code: INVALID_PARAMS, message }
}

} // verus!
