//! Dispatch of MCP (JSON-RPC 2.0) requests to the tools the server offers.
use vstd::prelude::*;
use crate::text::{concat, str_eq};

verus! {

/// The tools offered over MCP.
#[derive(PartialEq, Eq, Structural, Clone, Copy, Debug)]
pub enum McpTool {
    AdviseToolUse,
    ResolveMemoryHome,
    QueryRegistry,
    DetectCandidates,
    RecallMemory,
    RecordMemory,
    CheckConflicts,
    Doctor,
}

/// What a request asks for.
pub enum McpRoute {
    /// `tools/list`.
    ListTools,
    /// `tools/call` of a known tool.
    CallTool(McpTool),
    /// `initialize`.
    Initialize,
    /// `notifications/initialized`.
    InitializedNotice,
    /// An unknown method or tool: a JSON-RPC error.
    Failure { code: i64, message: String },
}

/// The JSON-RPC code for an unknown method (or tool).
pub const METHOD_NOT_FOUND: i64 = -32601;

/// The tool of a `tools/call` name, if it is one the server offers.
pub open spec fn tool_named(name: Seq<char>) -> Option<McpTool> {
    if name == "advise_tool_use"@ {
        Some(McpTool::AdviseToolUse)
    } else if name == "resolve_memory_home"@ {
        Some(McpTool::ResolveMemoryHome)
    } else if name == "query_registry"@ {
        Some(McpTool::QueryRegistry)
    } else if name == "detect_candidates"@ {
        Some(McpTool::DetectCandidates)
    } else if name == "recall_memory"@ {
        Some(McpTool::RecallMemory)
    } else if name == "record_memory"@ {
        Some(McpTool::RecordMemory)
    } else if name == "check_conflicts"@ {
        Some(McpTool::CheckConflicts)
    } else if name == "doctor"@ {
        Some(McpTool::Doctor)
    } else {
        None
    }
}

/// The route of a request with `method`; `tool` is the `name` parameter of a
/// `tools/call` (empty when absent).
pub open spec fn route_of(method: Seq<char>, tool: Seq<char>) -> Option<McpRoute> {
    if method == "tools/list"@ {
        Some(McpRoute::ListTools)
    } else if method == "tools/call"@ {
        match tool_named(tool) {
            Some(t) => Some(McpRoute::CallTool(t)),
            None => None,
        }
    } else if method == "initialize"@ {
        Some(McpRoute::Initialize)
    } else if method == "notifications/initialized"@ {
        Some(McpRoute::InitializedNotice)
    } else {
        None
    }
}

/// The tool of a `tools/call` name (see [`tool_named`]).
pub fn tool_from_name(name: &str) -> (t: Option<McpTool>)
    ensures
        t == tool_named(name@),
{
    if str_eq(name, "advise_tool_use") {
        Some(McpTool::AdviseToolUse)
    } else if str_eq(name, "resolve_memory_home") {
        Some(McpTool::ResolveMemoryHome)
    } else if str_eq(name, "query_registry") {
        Some(McpTool::QueryRegistry)
    } else if str_eq(name, "detect_candidates") {
        Some(McpTool::DetectCandidates)
    } else if str_eq(name, "recall_memory") {
        Some(McpTool::RecallMemory)
    } else if str_eq(name, "record_memory") {
        Some(McpTool::RecordMemory)
    } else if str_eq(name, "check_conflicts") {
        Some(McpTool::CheckConflicts)
    } else if str_eq(name, "doctor") {
        Some(McpTool::Doctor)
    } else {
        None
    }
}

/// Routes a request: known methods and tools to their handling; an unknown
/// `tools/call` name to error -32601 "Unknown tool: {name}", any other method to
/// error -32601 "Unknown method: {method}".
pub fn route_request(method: &str, tool: &str) -> (r: McpRoute)
    ensures
        match route_of(method@, tool@) {
            Some(x) => r == x,
            None => r matches McpRoute::Failure { code, message } && code == METHOD_NOT_FOUND
                && message@ == if method@ == "tools/call"@ {
                "Unknown tool: "@ + tool@
            } else {
                "Unknown method: "@ + method@
            },
        },
{
    if str_eq(method, "tools/list") {
        McpRoute::ListTools
    } else if str_eq(method, "tools/call") {
        match tool_from_name(tool) {
            Some(t) => McpRoute::CallTool(t),
            None => McpRoute::Failure {
                code: METHOD_NOT_FOUND,
                message: concat("Unknown tool: ", tool),
            },
        }
    } else if str_eq(method, "initialize") {
        McpRoute::Initialize
    } else if str_eq(method, "notifications/initialized") {
        McpRoute::InitializedNotice
    } else {
        McpRoute::Failure { code: METHOD_NOT_FOUND, message: concat("Unknown method: ", method) }
    }
}

} // verus!
