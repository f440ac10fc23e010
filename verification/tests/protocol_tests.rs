use rkllm_cli::json::JsonValue;
use rkllm_cli::protocol::{
    decide_line, encode_notification, encode_request, JsonRpcError, JsonRpcNotification,
    JsonRpcRequest, LineDecision, RequestId, PROTOCOL_VERSION,
};
use rkllm_cli::session::{
    parse_call_tool_result, parse_initialize_result, parse_tools_list, version_mismatch,
    InitializeParams, ToolResult,
};

#[test]
fn types_test_request_serialization() {
    let req = JsonRpcRequest::new("test_method", None, 1);
    let json = encode_request(req);
    assert!(json.contains(r#""jsonrpc":"2.0""#));
    assert!(json.contains(r#""method":"test_method""#));
    assert!(json.contains(r#""id":1"#));
    assert!(!json.contains('\n'));
}

#[test]
fn types_test_notification_serialization() {
    let notif = JsonRpcNotification::new("test_notification", None);
    let json = encode_notification(notif);
    assert!(json.contains(r#""jsonrpc":"2.0""#));
    assert!(json.contains(r#""method":"test_notification""#));
    assert!(!json.contains(r#""id""#));
    assert!(!json.contains('\n'));
}

#[test]
fn stdio_test_request_serialization() {
    let request = JsonRpcRequest::new("test", None, 1);
    let json = encode_request(request);
    assert!(!json.contains('\n'));
}

#[test]
fn stdio_test_notification_serialization() {
    let notification = JsonRpcNotification::new("test", None);
    let json = encode_notification(notification);
    assert!(!json.contains('\n'));
    assert!(!json.contains(r#""id""#));
}

#[test]
fn encode_request_is_exact() {
    let req = JsonRpcRequest::new("initialize", None, 7);
    assert_eq!(encode_request(req), r#"{"jsonrpc":"2.0","method":"initialize","id":7}"#);
}

#[test]
fn test_error_codes() {
    assert_eq!(JsonRpcError::PARSE_ERROR, -32700);
    assert_eq!(JsonRpcError::INVALID_REQUEST, -32600);
    assert_eq!(JsonRpcError::METHOD_NOT_FOUND, -32601);
    assert_eq!(JsonRpcError::INVALID_PARAMS, -32602);
    assert_eq!(JsonRpcError::INTERNAL_ERROR, -32603);
}

#[test]
fn test_initialize_params() {
    let params = InitializeParams::default();
    assert_eq!(params.protocol_version, PROTOCOL_VERSION);
    assert_eq!(params.client_info.name, "rkllm-cli");
}

#[test]
fn test_initialize_params_default() {
    let params = InitializeParams::default();
    assert_eq!(params.protocol_version, PROTOCOL_VERSION);
    assert_eq!(params.client_info.name, "rkllm-cli");
}

#[test]
fn decide_line_matches_awaited_id() {
    let line = r#"{"jsonrpc":"2.0","result":{"ok":true},"id":3}"#;
    match decide_line(line, 3) {
        LineDecision::Match(resp) => {
            assert!(resp.result.is_some());
            assert!(resp.error.is_none());
            assert!(matches!(resp.id, RequestId::Number(3)));
        }
        _ => panic!("expected a match"),
    }
}

#[test]
fn decide_line_mismatch_is_discarded_not_fatal() {
    let line = r#"{"jsonrpc":"2.0","result":null,"id":9}"#;
    assert!(matches!(decide_line(line, 3), LineDecision::Mismatch(_)));
}

#[test]
fn decide_line_without_id_is_a_notification() {
    let line = r#"{"jsonrpc":"2.0","method":"notifications/progress","params":{"p":1}}"#;
    match decide_line(line, 3) {
        LineDecision::Note { method, params } => {
            assert_eq!(method.as_deref(), Some("notifications/progress"));
            assert!(params.is_some());
        }
        _ => panic!("expected a notification"),
    }
}

#[test]
fn decide_line_rejects_non_json() {
    assert!(matches!(decide_line("not json at all", 1), LineDecision::Malformed));
}

#[test]
fn decide_line_promotes_error_objects() {
    let line = r#"{"jsonrpc":"2.0","error":{"code":-32601,"message":"no such method"},"id":3}"#;
    match decide_line(line, 3) {
        LineDecision::Match(resp) => {
            let err = resp.error.expect("error object expected");
            assert_eq!(err.code, -32601);
            assert_eq!(err.message, "no such method");
        }
        _ => panic!("expected a match"),
    }
}

#[test]
fn version_mismatch_warns_but_never_fails() {
    // A server naming another protocol revision still completes the
    // handshake: its result parses, only the warning flag is set.
    let body = r#"{"protocolVersion":"2024-11-05","capabilities":{"tools":{}},"serverInfo":{"name":"srv","version":"1.0"}}"#;
    let v = parse_json_value(body);
    let res = parse_initialize_result(&v).expect("handshake must complete");
    assert!(version_mismatch(&res.protocol_version));
    assert!(res.capabilities.tools.is_some());

    let same = r#"{"protocolVersion":"2025-06-18","capabilities":{},"serverInfo":{"name":"srv","version":"1.0"}}"#;
    let v2 = parse_json_value(same);
    let res2 = parse_initialize_result(&v2).expect("handshake must complete");
    assert!(!version_mismatch(&res2.protocol_version));
}

fn parse_json_value(s: &str) -> JsonValue {
    rkllm_cli::json::parse_json(s).expect("test input must be valid JSON")
}

#[test]
fn tools_list_parses_and_reports_cursor() {
    let body = r#"{"tools":[{"name":"echo","description":"says things back","inputSchema":{"type":"object","properties":{"message":{"type":"string"}},"required":["message"]}}],"nextCursor":"page2"}"#;
    let v = parse_json_value(body);
    let listed = parse_tools_list(&v).expect("list must parse");
    assert_eq!(listed.tools.len(), 1);
    assert_eq!(listed.tools[0].name, "echo");
    assert_eq!(listed.tools[0].description.as_deref(), Some("says things back"));
    assert_eq!(listed.tools[0].input_schema.schema_type, "object");
    assert_eq!(listed.next_cursor.as_deref(), Some("page2"));
}

#[test]
fn test_tool_result_conversion() {
    let body = r#"{"content":[{"type":"text","text":"Hello"},{"type":"text","text":"World"}],"isError":false}"#;
    let v = parse_json_value(body);
    let call_result = parse_call_tool_result(&v).expect("result must parse");
    let tool_result = ToolResult::from(call_result);
    assert!(tool_result.success);
    assert!(tool_result.output.contains("Hello"));
    assert!(tool_result.output.contains("World"));
}

#[test]
fn test_tool_result_error() {
    let body = r#"{"content":[{"type":"text","text":"Error message"}],"isError":true}"#;
    let v = parse_json_value(body);
    let call_result = parse_call_tool_result(&v).expect("result must parse");
    let tool_result = ToolResult::from(call_result);
    assert!(!tool_result.success);
    assert!(tool_result.output.contains("Error message"));
}

#[test]
fn tool_result_renders_image_and_resource_placeholders() {
    let body = r#"{"content":[{"type":"image","data":"...","mimeType":"image/png"},{"type":"resource","resource":{"uri":"file:///a"}}]}"#;
    let v = parse_json_value(body);
    let call_result = parse_call_tool_result(&v).expect("result must parse");
    let tool_result = ToolResult::from(call_result);
    assert!(tool_result.success);
    assert_eq!(tool_result.output, "[Image: image/png]\n[Resource: file:///a]\n");
}
