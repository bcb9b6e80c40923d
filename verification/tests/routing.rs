use tool_first::mcp::{route_request, tool_from_name, McpRoute, McpTool, METHOD_NOT_FOUND};
use tool_first::routing::{
    has_commodity_action, infer_category, is_applicable, requests_software_implementation,
};

#[test]
fn categories_follow_the_first_matching_rule() {
    assert_eq!(infer_category("convert docx to pdf").as_deref(), Some("document"));
    assert_eq!(infer_category("PDF page count").as_deref(), Some("pdf"));
    assert_eq!(infer_category("resize a PNG").as_deref(), Some("image"));
    assert_eq!(infer_category("extract audio from MP4").as_deref(), Some("media"));
    assert_eq!(infer_category("filter a CSV").as_deref(), Some("data"));
    assert_eq!(infer_category("ripgrep for TODO").as_deref(), Some("search"));
    assert_eq!(infer_category("解压这个文件").as_deref(), Some("archive"));
    assert_eq!(infer_category("curl a URL").as_deref(), Some("web"));
    assert_eq!(infer_category("把这张 PNG 图片转换成 JPG").as_deref(), Some("image"));
    assert_eq!(infer_category("hello there"), None);
}

#[test]
fn implementation_requests_need_a_verb_and_a_noun() {
    assert!(requests_software_implementation("Write a Python script"));
    assert!(requests_software_implementation("请用 Rust 编写一个 PNG 转换程序"));
    assert!(!requests_software_implementation("write a letter"));
    assert!(!requests_software_implementation("convert a python file"));
    assert!(requests_software_implementation("create an app"));
    assert!(!requests_software_implementation("create a report"));
}

#[test]
fn commodity_actions_are_recognized() {
    assert!(has_commodity_action("CONVERT this"));
    assert!(has_commodity_action("把这张图片转换成 JPG"));
    assert!(has_commodity_action("unzip it"));
    assert!(!has_commodity_action("explain the sky"));
}

#[test]
fn applicability_rules() {
    assert!(!is_applicable("write a python script to convert", Some("data"), None, Some("data")));
    assert!(!is_applicable("convert json", None, Some("other"), Some("data")));
    assert!(is_applicable("anything at all", Some("dev"), Some("avoid_custom_code"), Some("dev")));
    assert!(is_applicable("convert json", None, None, Some("data")));
    assert!(!is_applicable("convert json", None, None, None));
    assert!(!is_applicable("show json", None, None, Some("data")));
}

#[test]
fn mcp_requests_are_routed() {
    assert!(matches!(route_request("tools/list", ""), McpRoute::ListTools));
    assert!(matches!(route_request("initialize", "x"), McpRoute::Initialize));
    assert!(matches!(
        route_request("notifications/initialized", ""),
        McpRoute::InitializedNotice
    ));
    assert!(matches!(
        route_request("tools/call", "doctor"),
        McpRoute::CallTool(McpTool::Doctor)
    ));
    assert!(matches!(
        route_request("tools/call", "recall_memory"),
        McpRoute::CallTool(McpTool::RecallMemory)
    ));
    assert!(matches!(
        route_request("tools/call", "advise_tool_use"),
        McpRoute::CallTool(McpTool::AdviseToolUse)
    ));
    match route_request("tools/call", "nope") {
        McpRoute::Failure { code, message } => {
            assert_eq!(code, METHOD_NOT_FOUND);
            assert_eq!(message, "Unknown tool: nope");
        }
        _ => panic!("expected an error"),
    }
    match route_request("resources/list", "doctor") {
        McpRoute::Failure { code, message } => {
            assert_eq!(code, -32601);
            assert_eq!(message, "Unknown method: resources/list");
        }
        _ => panic!("expected an error"),
    }
}

#[test]
fn mcp_tool_names() {
    assert_eq!(tool_from_name("advise_tool_use"), Some(McpTool::AdviseToolUse));
    assert_eq!(tool_from_name("resolve_memory_home"), Some(McpTool::ResolveMemoryHome));
    assert_eq!(tool_from_name("query_registry"), Some(McpTool::QueryRegistry));
    assert_eq!(tool_from_name("detect_candidates"), Some(McpTool::DetectCandidates));
    assert_eq!(tool_from_name("record_memory"), Some(McpTool::RecordMemory));
    assert_eq!(tool_from_name("check_conflicts"), Some(McpTool::CheckConflicts));
    assert_eq!(tool_from_name("Doctor"), None);
}
