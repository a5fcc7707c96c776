use std::collections::HashMap;

use openshell_inspect::jsonrpc::{
    jsonrpc_receive_stream_request, parse_jsonrpc_body, parse_jsonrpc_body_with_options,
    JsonRpcInspectionMode, JsonRpcInspectionOptions, JsonRpcRequestInfo,
};
use openshell_inspect::l7::{BodyLength, L7Request};

#[test]
fn parses_method_from_request_body() {
    let body = br#"{"jsonrpc":"2.0","id":1,"method":"initialize","params":{}}"#;
    let info = parse_jsonrpc_body(body, JsonRpcInspectionMode::JsonRpc);
    assert_eq!(
        info.calls.first().map(|call| call.method.as_str()),
        Some("initialize")
    );
    assert_eq!(info.calls.len(), 1);
    assert!(!info.is_batch);
    assert!(!info.has_response);
    assert!(info.error.is_none());
}

#[test]
fn parses_jsonrpc_response_body_without_method() {
    let body = br#"{"jsonrpc":"2.0","id":1,"result":{"action":"accept","content":{}}}"#;
    let info = parse_jsonrpc_body(body, JsonRpcInspectionMode::JsonRpc);

    assert!(info.calls.is_empty());
    assert!(!info.is_batch);
    assert!(info.has_response);
    assert!(info.error.is_none());
}

#[test]
fn parses_jsonrpc_error_response_body_without_method() {
    let body =
        br#"{"jsonrpc":"2.0","id":"request-1","error":{"code":-32603,"message":"failed"}}"#;
    let info = parse_jsonrpc_body(body, JsonRpcInspectionMode::JsonRpc);

    assert!(info.calls.is_empty());
    assert!(info.has_response);
    assert!(info.error.is_none());
}

#[test]
fn ignores_params_when_extracting_method() {
    let body = br#"{"jsonrpc":"2.0","id":1,"method":"reports.search","params":{"query":"quarterly","filters":{"scope":"workspace/main"}}}"#;
    let info = parse_jsonrpc_body(body, JsonRpcInspectionMode::JsonRpc);
    assert!(info.error.is_none());
    assert_eq!(
        info.calls.first().map(|call| call.method.as_str()),
        Some("reports.search")
    );
    let call = info.calls.first().expect("single request call");
    assert!(call.params.is_empty());
    assert!(call.tool.is_none());
}

#[test]
fn ignores_dotted_param_collisions_for_generic_jsonrpc() {
    let body = br#"{"jsonrpc":"2.0","id":1,"method":"reports.search","params":{"filters.scope":{"value":"literal"},"filters":{"scope.value":"nested"}}}"#;
    let info = parse_jsonrpc_body(body, JsonRpcInspectionMode::JsonRpc);

    assert!(info.error.is_none(), "params should be ignored: {info:?}");
    assert_eq!(
        info.calls.first().map(|call| call.method.as_str()),
        Some("reports.search")
    );
    assert!(
        info.calls
            .first()
            .is_some_and(|call| call.params.is_empty() && call.tool.is_none())
    );
}

#[test]
fn mcp_mode_validates_known_methods_and_extracts_tool() {
    let body = br#"{"jsonrpc":"2.0","id":1,"method":"tools/call","params":{"name":"search_web","arguments":{"query":"openshell"}}}"#;
    let info = parse_jsonrpc_body(body, JsonRpcInspectionMode::Mcp);

    assert!(info.error.is_none(), "expected valid MCP call: {info:?}");
    let call = info.calls.first().expect("single MCP call");
    assert_eq!(call.method, "tools/call");
    assert_eq!(call.tool.as_deref(), Some("search_web"));
    assert_eq!(
        call.params.get("name").map(String::as_str),
        Some("search_web")
    );
    assert_eq!(call.params.len(), 1);
}

#[test]
fn mcp_mode_rejects_non_recommended_tool_names_by_default() {
    let body = br#"{"jsonrpc":"2.0","id":1,"method":"tools/call","params":{"name":"read status","arguments":{}}}"#;
    let info = parse_jsonrpc_body(body, JsonRpcInspectionMode::Mcp);

    assert!(info.calls.is_empty());
    assert!(
        info.error
            .as_deref()
            .is_some_and(|error| error.contains("strict_tool_names")),
        "expected strict tool-name error, got {info:?}"
    );
}

#[test]
fn mcp_mode_can_disable_strict_tool_names() {
    let body = br#"{"jsonrpc":"2.0","id":1,"method":"tools/call","params":{"name":"read status","arguments":{}}}"#;
    let info = parse_jsonrpc_body_with_options(
        body,
        JsonRpcInspectionOptions {
            mode: JsonRpcInspectionMode::Mcp,
            mcp_strict_tool_names: false,
        },
    );

    let call = info
        .calls
        .first()
        .expect("permissive MCP call should parse");
    assert!(info.error.is_none(), "permissive MCP call failed: {info:?}");
    assert_eq!(call.tool.as_deref(), Some("read status"));
    assert_eq!(
        call.params.get("name").map(String::as_str),
        Some("read status")
    );
}

#[test]
fn mcp_mode_rejects_invalid_known_method_params() {
    let body = br#"{"jsonrpc":"2.0","id":1,"method":"tools/call","params":{"arguments":{"query":"openshell"}}}"#;
    let info = parse_jsonrpc_body(body, JsonRpcInspectionMode::Mcp);

    assert!(info.calls.is_empty());
    assert!(
        info.error
            .as_deref()
            .is_some_and(|error| error.contains("invalid MCP request params")),
        "expected MCP params validation error, got {info:?}"
    );
}

#[test]
fn mcp_mode_allows_unknown_extension_methods() {
    let body =
        br#"{"jsonrpc":"2.0","id":1,"method":"vendor/extension","params":{"name":"custom"}}"#;
    let info = parse_jsonrpc_body(body, JsonRpcInspectionMode::Mcp);

    assert!(
        info.error.is_none(),
        "extension method should remain addressable"
    );
    assert_eq!(
        info.calls.first().map(|call| call.method.as_str()),
        Some("vendor/extension")
    );
    assert!(
        info.calls
            .first()
            .is_some_and(|call| call.params.is_empty() && call.tool.is_none())
    );
}

#[test]
fn mcp_mode_ignores_tool_arguments_when_extracting_policy_params() {
    let body = br#"{"jsonrpc":"2.0","id":1,"method":"tools/call","params":{"name":"read_status","arguments":{"scope.key":"literal","scope":{"key":"nested"}}}}"#;
    let info = parse_jsonrpc_body(body, JsonRpcInspectionMode::Mcp);
    let call = info.calls.first().expect("single MCP call");

    assert!(info.error.is_none(), "expected valid MCP call: {info:?}");
    assert_eq!(call.tool.as_deref(), Some("read_status"));
    assert_eq!(
        call.params.get("name").map(String::as_str),
        Some("read_status")
    );
    assert_eq!(call.params.len(), 1);
}

#[test]
fn accepts_any_valid_jsonrpc_params_shape() {
    let body =
        br#"{"jsonrpc":"2.0","id":1,"method":"reports.search","params":["ignored",{"nested":true}]}"#;
    let info = parse_jsonrpc_body(body, JsonRpcInspectionMode::JsonRpc);

    assert!(info.error.is_none());
    assert_eq!(
        info.calls.first().map(|call| call.method.as_str()),
        Some("reports.search")
    );
    assert!(
        info.calls
            .first()
            .is_some_and(|call| call.params.is_empty() && call.tool.is_none())
    );
}

#[test]
fn recognizes_streamable_http_get_receive_streams() {
    let request = L7Request {
        action: "GET".to_string(),
        target: "/rpc".to_string(),
        query_params: HashMap::new(),
        raw_header: b"GET /rpc HTTP/1.1\r\nHost: jsonrpc.test\r\nAccept: application/json, text/event-stream\r\n\r\n".to_vec(),
        body_length: BodyLength::Absent,
    };

    assert!(jsonrpc_receive_stream_request(&request));

    let info = JsonRpcRequestInfo::receive_stream();
    assert!(info.receive_stream);
    assert!(info.error.is_none());
    assert!(info.calls.is_empty());
}

#[test]
fn bodyless_get_without_sse_accept_is_not_receive_stream() {
    let request = L7Request {
        action: "GET".to_string(),
        target: "/rpc".to_string(),
        query_params: HashMap::new(),
        raw_header:
            b"GET /rpc HTTP/1.1\r\nHost: jsonrpc.test\r\nAccept: application/json\r\n\r\n"
                .to_vec(),
        body_length: BodyLength::Absent,
    };

    assert!(!jsonrpc_receive_stream_request(&request));
}

#[test]
fn rejects_requests_missing_jsonrpc_version() {
    let body = br#"{"id":1,"method":"reports.list"}"#;
    let info = parse_jsonrpc_body(body, JsonRpcInspectionMode::JsonRpc);

    assert!(info.calls.is_empty());
    assert_eq!(
        info.error.as_deref(),
        Some("missing or non-string 'jsonrpc' field")
    );
}

#[test]
fn rejects_batch_items_missing_jsonrpc_version() {
    let body = br#"[
        {"jsonrpc":"2.0","id":1,"method":"reports.list"},
        {"id":2,"method":"reports.search","params":{"query":"quarterly"}}
    ]"#;
    let info = parse_jsonrpc_body(body, JsonRpcInspectionMode::JsonRpc);

    assert!(info.calls.is_empty());
    assert!(info.is_batch);
    assert_eq!(
        info.error.as_deref(),
        Some("batch item invalid: missing or non-string 'jsonrpc' field")
    );
}

#[test]
fn rejects_unsupported_jsonrpc_version() {
    let body = br#"{"jsonrpc":"1.0","id":1,"method":"reports.list"}"#;
    let info = parse_jsonrpc_body(body, JsonRpcInspectionMode::JsonRpc);

    assert!(info.calls.is_empty());
    assert_eq!(
        info.error.as_deref(),
        Some("unsupported JSON-RPC version '1.0'")
    );
}

#[test]
fn parses_valid_batch_without_error() {
    let body = br#"[
        {"jsonrpc":"2.0","id":1,"method":"reports.list"},
        {"jsonrpc":"2.0","id":2,"method":"reports.search","params":{"query":"quarterly"}}
    ]"#;
    let info = parse_jsonrpc_body(body, JsonRpcInspectionMode::JsonRpc);
    assert!(info.error.is_none());
    assert!(info.is_batch);
    assert!(!info.has_response);
    assert_eq!(info.calls.len(), 2);
    assert_eq!(info.calls[0].method, "reports.list");
    assert_eq!(info.calls[1].method, "reports.search");
}

#[test]
fn parses_batch_with_calls_and_responses() {
    let body = br#"[
        {"jsonrpc":"2.0","id":1,"method":"reports.list"},
        {"jsonrpc":"2.0","id":2,"result":{"ok":true}}
    ]"#;
    let info = parse_jsonrpc_body(body, JsonRpcInspectionMode::JsonRpc);

    assert!(info.error.is_none());
    assert!(info.is_batch);
    assert!(info.has_response);
    assert_eq!(info.calls.len(), 1);
    assert_eq!(info.calls[0].method, "reports.list");
}

#[test]
fn rejects_invalid_jsonrpc_response_body() {
    let body =
        br#"{"jsonrpc":"2.0","id":1,"result":{},"error":{"code":-32603,"message":"failed"}}"#;
    let info = parse_jsonrpc_body(body, JsonRpcInspectionMode::JsonRpc);

    assert!(info.calls.is_empty());
    assert!(!info.has_response);
    assert_eq!(
        info.error.as_deref(),
        Some("JSON-RPC response includes both result and error")
    );
}

#[test]
fn rejects_message_with_method_and_result_or_error() {
    let result_body = br#"{"jsonrpc":"2.0","id":1,"method":"initialize","result":{}}"#;
    let result_info = parse_jsonrpc_body(result_body, JsonRpcInspectionMode::JsonRpc);
    assert!(result_info.calls.is_empty());
    assert_eq!(
        result_info.error.as_deref(),
        Some("JSON-RPC message includes both method and result/error")
    );

    let error_body = br#"{"jsonrpc":"2.0","id":1,"method":"initialize","error":{"code":-32603,"message":"failed"}}"#;
    let error_info = parse_jsonrpc_body(error_body, JsonRpcInspectionMode::JsonRpc);
    assert!(error_info.calls.is_empty());
    assert_eq!(
        error_info.error.as_deref(),
        Some("JSON-RPC message includes both method and result/error")
    );
}

#[test]
fn rejects_batch_item_with_method_and_result() {
    let body = br#"[
        {"jsonrpc":"2.0","id":1,"method":"reports.list"},
        {"jsonrpc":"2.0","id":2,"method":"initialize","result":{}}
    ]"#;
    let info = parse_jsonrpc_body(body, JsonRpcInspectionMode::JsonRpc);

    assert!(info.calls.is_empty());
    assert!(info.is_batch);
    assert_eq!(
        info.error.as_deref(),
        Some("batch item invalid: JSON-RPC message includes both method and result/error")
    );
}
