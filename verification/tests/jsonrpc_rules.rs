use std::collections::HashMap;

use openshell_inspect::accept::{header_accepts_sse, request_accepts_sse};
use openshell_inspect::json::JsonValue;
use openshell_inspect::jsonrpc::{
    finish_jsonrpc_http_request, inspect_json, jsonrpc_receive_stream_request, mcp_request_call,
    parse_jsonrpc_body, parse_jsonrpc_body_with_options, parse_jsonrpc_http_request,
    parse_jsonrpc_message, parse_mcp_call, JsonRpcHttpStep, JsonRpcInspectionMode, JsonRpcInspectionOptions,
    JsonRpcMessageInfo, JsonRpcRequestInfo, DEFAULT_MAX_BODY_BYTES,
};
use openshell_inspect::l7::{BodyLength, L7EndpointConfig, L7Protocol, L7Request};
use openshell_inspect::mcp::{
    mcp_policy_params, mcp_tool_name, validate_mcp_tool_name, McpRequestInfo, McpRequestParams,
};

fn generic(body: &str) -> JsonRpcRequestInfo {
    parse_jsonrpc_body(body.as_bytes(), JsonRpcInspectionMode::JsonRpc)
}

fn mcp(body: &str) -> JsonRpcRequestInfo {
    parse_jsonrpc_body(body.as_bytes(), JsonRpcInspectionMode::Mcp)
}

fn error_of(info: &JsonRpcRequestInfo) -> &str {
    assert!(info.calls.is_empty());
    assert!(!info.has_response);
    assert!(!info.receive_stream);
    info.error.as_deref().expect("an error")
}

#[test]
fn each_reason_is_given() {
    let cases = [
        ("not valid json {", "invalid JSON"),
        ("", "invalid JSON"),
        ("[]", "empty batch"),
        ("{}", "missing or non-string 'jsonrpc' field"),
        ("3", "missing or non-string 'jsonrpc' field"),
        (r#"{"jsonrpc":2.0}"#, "missing or non-string 'jsonrpc' field"),
        (r#"{"jsonrpc":"2.0"}"#, "missing or non-string 'method' field"),
        (r#"{"jsonrpc":"2.0","method":7}"#, "missing or non-string 'method' field"),
        (
            r#"{"jsonrpc":"2.0","result":1}"#,
            "JSON-RPC response missing id",
        ),
        (
            r#"{"jsonrpc":"2.0","id":[1],"result":1}"#,
            "JSON-RPC response id must be string, number, or null",
        ),
        (
            r#"{"jsonrpc":"2.0","id":null,"error":"x"}"#,
            "JSON-RPC response error must be an object",
        ),
        (
            r#"[3]"#,
            "batch item invalid: missing or non-string 'jsonrpc' field",
        ),
        (
            r#"[[]]"#,
            "batch item invalid: missing or non-string 'jsonrpc' field",
        ),
    ];
    for (body, reason) in cases {
        let info = generic(body);
        assert_eq!(error_of(&info), reason, "{body}");
        assert_eq!(info.is_batch, body.starts_with('['));
    }
}

#[test]
fn response_ids_may_be_text_number_or_null() {
    for id in ["\"a\"", "1", "-2.5e3", "null"] {
        let info = generic(&format!(r#"{{"jsonrpc":"2.0","id":{id},"result":null}}"#));
        assert!(info.has_response && info.error.is_none() && info.calls.is_empty(), "{id}");
    }
}

#[test]
fn the_last_of_equal_members_counts() {
    let info = generic(r#"{"jsonrpc":"1.0","method":"a","jsonrpc":"2.0","method":"b"}"#);
    assert_eq!(info.calls[0].method, "b");
}

#[test]
fn mcp_request_errors_name_their_stage() {
    let e = mcp(r#"{"jsonrpc":"2.0","id":1.5,"method":"ping"}"#);
    assert!(error_of(&e).starts_with("invalid MCP request: "));
    let e = mcp(r#"{"jsonrpc":"2.0","id":1,"method":7}"#);
    assert!(error_of(&e).starts_with("invalid MCP request: "));
    let e = mcp(r#"{"jsonrpc":"2.0","id":1,"method":"resources/read","params":{}}"#);
    assert!(error_of(&e).starts_with("invalid MCP request params: "));
    let e = mcp(r#"{"jsonrpc":"2.0","method":7}"#);
    assert!(error_of(&e).starts_with("invalid MCP notification: "));
    let e = mcp(r#"{"jsonrpc":"2.0","method":"notifications/progress","params":[]}"#);
    assert!(error_of(&e).starts_with("invalid MCP notification params: "));
    let e = mcp(r#"{"jsonrpc":"1.1","method":"ping"}"#);
    assert_eq!(error_of(&e), "unsupported JSON-RPC version '1.1'");
}

#[test]
fn mcp_notifications_are_calls_without_tool() {
    for method in ["notifications/initialized", "vendor/note", "tools/call"] {
        let info = mcp(&format!(r#"{{"jsonrpc":"2.0","method":"{method}","params":{{"name":"x"}}}}"#));
        assert!(info.error.is_none(), "{info:?}");
        assert_eq!(info.calls[0].method, method);
        assert!(info.calls[0].params.is_empty());
        assert!(info.calls[0].tool.is_none());
    }
}

#[test]
fn mcp_methods_with_unchecked_params_pass_whatever_these_are() {
    for method in ["ping", "tools/list", "server/discover", "tasks/list", "x"] {
        for id in ["1", "\"one\"", "9007199254740993"] {
            let info =
                mcp(&format!(r#"{{"jsonrpc":"2.0","id":{id},"method":"{method}","params":[1]}}"#));
            assert!(info.error.is_none(), "{info:?}");
            assert_eq!(info.calls[0].method, method);
            assert!(info.calls[0].tool.is_none());
        }
    }
}

#[test]
fn mcp_methods_with_checked_params_need_them() {
    for method in [
        "initialize",
        "tools/call",
        "resources/read",
        "resources/subscribe",
        "resources/unsubscribe",
        "prompts/get",
        "tasks/get",
        "tasks/update",
        "tasks/cancel",
        "logging/setLevel",
        "completion/complete",
    ] {
        let info = mcp(&format!(r#"{{"jsonrpc":"2.0","id":1,"method":"{method}"}}"#));
        assert!(error_of(&info).starts_with("invalid MCP request params: "), "{info:?}");
    }
}

#[test]
fn mcp_tool_calls_show_the_named_tool() {
    let info = mcp(
        r#"{"jsonrpc":"2.0","id":1,"method":"tools/call","params":{"name":"a","name":"b","arguments":[{"name":"c"}],"other":{"name":"d"}}}"#,
    );
    assert_eq!(info.calls[0].tool.as_deref(), Some("b"));
    assert_eq!(info.calls[0].params.get("name").map(String::as_str), Some("b"));
    assert_eq!(info.calls[0].params.len(), 1);
    let e = mcp(r#"{"jsonrpc":"2.0","id":1,"method":"tools/call","params":{"name":1}}"#);
    assert!(error_of(&e).starts_with("invalid MCP request params: "));
}

#[test]
fn tool_names_are_held_to_the_strict_rule() {
    let longest = "x".repeat(128);
    for name in ["a", "Az09_.-", longest.as_str()] {
        assert_eq!(validate_mcp_tool_name(name), Ok(()));
    }
    let too_long = "x".repeat(129);
    for name in ["", "a b", "é", "a/b", "a\n", too_long.as_str()] {
        assert_eq!(
            validate_mcp_tool_name(name),
            Err("MCP tool name must match ^[A-Za-z0-9_.-]{1,128}$ when strict_tool_names is enabled"
                .to_string()),
            "{name:?}"
        );
    }
}

#[test]
fn strict_rule_only_refuses() {
    let bodies = [
        r#"{"jsonrpc":"2.0","id":1,"method":"tools/call","params":{"name":"ok"}}"#,
        r#"{"jsonrpc":"2.0","id":1,"method":"tools/call","params":{"name":"not ok"}}"#,
        r#"{"jsonrpc":"2.0","id":1,"method":"ping"}"#,
        r#"{"jsonrpc":"2.0","id":1,"result":{}}"#,
    ];
    for body in bodies {
        let strict = mcp(body);
        let lenient = parse_jsonrpc_body_with_options(
            body.as_bytes(),
            JsonRpcInspectionOptions {
                mode: JsonRpcInspectionMode::Mcp,
                mcp_strict_tool_names: false,
            },
        );
        if strict.error.is_none() {
            assert_eq!(strict, lenient);
        }
        assert!(lenient.error.is_none());
        let loose = generic(body);
        assert!(loose.error.is_none());
        assert_eq!(
            loose.calls.iter().map(|c| &c.method).collect::<Vec<_>>(),
            lenient.calls.iter().map(|c| &c.method).collect::<Vec<_>>()
        );
    }
}

#[test]
fn one_bad_item_spoils_a_batch() {
    let good = r#"{"jsonrpc":"2.0","id":1,"method":"ping"}"#;
    let answer = r#"{"jsonrpc":"2.0","id":1,"result":{}}"#;
    let bad = r#"{"jsonrpc":"2.0"}"#;
    for mode in [JsonRpcInspectionMode::JsonRpc, JsonRpcInspectionMode::Mcp] {
        let info = parse_jsonrpc_body(format!("[{good},{answer},{good}]").as_bytes(), mode);
        assert!(info.error.is_none() && info.has_response && info.is_batch);
        assert_eq!(info.calls.len(), 2);
        for batch in [format!("[{bad},{good}]"), format!("[{good},{answer},{bad}]")] {
            let info = parse_jsonrpc_body(batch.as_bytes(), mode);
            assert_eq!(
                error_of(&info),
                "batch item invalid: missing or non-string 'method' field"
            );
        }
    }
}

#[test]
fn batch_is_its_messages() {
    let messages = [
        r#"{"jsonrpc":"2.0","id":1,"method":"ping"}"#,
        r#"{"jsonrpc":"2.0","id":1,"result":{}}"#,
        r#"{"jsonrpc":"2.0","id":1,"method":"tools/call","params":{"name":"t"}}"#,
        r#"{"jsonrpc":"2.0","id":1,"method":"tools/call","params":{}}"#,
        r#"{"jsonrpc":"2.0"}"#,
    ];
    for a in messages {
        for b in messages {
            let singles = [mcp(a), mcp(b)];
            let batch = mcp(&format!("[{a},{b}]"));
            assert!(batch.is_batch);
            match singles.iter().find_map(|s| s.error.clone()) {
                Some(e) => assert_eq!(error_of(&batch), format!("batch item invalid: {e}")),
                None => {
                    assert!(batch.error.is_none());
                    assert_eq!(batch.has_response, singles.iter().any(|s| s.has_response));
                    let calls: Vec<_> =
                        singles.iter().flat_map(|s| s.calls.iter().cloned()).collect();
                    assert_eq!(batch.calls, calls);
                }
            }
        }
    }
}

#[test]
fn settled_reasons_are_repeated() {
    for params in [
        r#"{}"#,
        r#"{"name":7}"#,
        r#"3"#,
        r#"{"name":"x","_meta":{"io.modelcontextprotocol/clientCapabilities":{"extensions":{"a":1}}}}"#,
        r#"{"name":"x","task":{"ttl":0.1234567890123456789}}"#,
    ] {
        let body = format!(
            r#"{{"jsonrpc":"2.0","id":1,"method":"tools/call","params":{params}}}"#
        );
        let first = mcp(&body);
        assert!(error_of(&first).starts_with("invalid MCP request params: Serialization error: "));
        assert_eq!(first, mcp(&body));
        let lenient = parse_jsonrpc_body_with_options(
            body.as_bytes(),
            JsonRpcInspectionOptions {
                mode: JsonRpcInspectionMode::Mcp,
                mcp_strict_tool_names: false,
            },
        );
        assert_eq!(first, lenient);
    }
}

#[test]
fn refused_params_have_a_fixed_reason() {
    let start = "invalid MCP request params: Serialization error: ";
    for (method, params, reason) in [
        ("tools/call", "[]", "invalid length 0, expected struct CallToolParams with 6 elements"),
        ("tools/call", "[7]", "invalid type: integer `7`, expected a string"),
        ("tasks/get", "[[]]", "invalid type: sequence, expected a string"),
        (
            "tools/call",
            r#"{"name":7,"_meta":{"io.modelcontextprotocol/clientCapabilities":{"extensions":{"a":{},"b":{}}}}}"#,
            "invalid type: integer `7`, expected a string",
        ),
        (
            "tools/call",
            r#"["a",{},null,null,{"io.modelcontextprotocol/clientCapabilities":{"extensions":{"a":{},"b/c":{}}}}]"#,
            "extension identifier \"a\" requires a prefix",
        ),
        (
            "logging/setLevel",
            r#"["info",{"io.modelcontextprotocol/clientCapabilities":[null,null,null,null,null,{"a/b":1,"b/c":{}}]}]"#,
            "extension \"a/b\" settings must be a JSON object",
        ),
        (
            "initialize",
            r#"["v",{"extensions":{"a.b-c/d_e.f":{},"a.-b/c":{},"x/":{}}}]"#,
            "metadata key \"a.-b/c\" has an invalid prefix",
        ),
        (
            "initialize",
            r#"{"protocolVersion":"v","capabilities":{"extensions":{"a/b-":{},"b/c":{}}}}"#,
            "metadata key \"a/b-\" has an invalid name",
        ),
    ] {
        let body =
            format!(r#"{{"jsonrpc":"2.0","id":1,"method":"{method}","params":{params}}}"#);
        assert_eq!(error_of(&mcp(&body)), format!("{start}{reason}"), "{body}");
    }
}

#[test]
fn faulty_extensions_are_reported_one_at_a_time() {
    let place = |method: &str| match method {
        "initialize" => r#"{"protocolVersion":"v","capabilities":{"extensions":EXT}}"#,
        "tools/call" => {
            r#"{"name":"t","_meta":{"io.modelcontextprotocol/clientCapabilities":{"extensions":EXT}}}"#
        }
        "resources/read" => {
            r#"["u",null,null,{"io.modelcontextprotocol/clientCapabilities":{"extensions":EXT}}]"#
        }
        "tasks/update" | "tasks/cancel" => {
            r#"["t",METHOD,{"io.modelcontextprotocol/clientCapabilities":{"extensions":EXT}}]"#
        }
        "prompts/get" => {
            r#"["p",{},null,null,{"io.modelcontextprotocol/clientCapabilities":{"extensions":EXT}}]"#
        }
        _ => r#"["u",{"io.modelcontextprotocol/clientCapabilities":{"extensions":EXT}}]"#,
    };
    for method in [
        "initialize",
        "tools/call",
        "resources/read",
        "resources/subscribe",
        "resources/unsubscribe",
        "prompts/get",
        "tasks/get",
        "tasks/update",
        "tasks/cancel",
    ] {
        let second = if method == "tasks/update" { "{}" } else { "null" };
        let params = place(method)
            .replace("METHOD", second)
            .replace("EXT", r#"{"plain":{},"a/b":7,"fine/x":{}}"#);
        let body =
            format!(r#"{{"jsonrpc":"2.0","id":1,"method":"{method}","params":{params}}}"#);
        let info = mcp(&body);
        let start = "invalid MCP request params: Serialization error: ";
        let reasons = [
            format!("{start}extension identifier \"plain\" requires a prefix"),
            format!("{start}extension \"a/b\" settings must be a JSON object"),
        ];
        assert!(reasons.iter().any(|r| r == error_of(&info)), "{info:?}");
    }
    let body = r#"{"jsonrpc":"2.0","id":1,"method":"completion/complete","params":{"_meta":{"io.modelcontextprotocol/clientCapabilities":{"extensions":{"a":1,"b":2}}}}}"#;
    assert_eq!(
        error_of(&mcp(body)),
        "invalid MCP request params: Serialization error: missing field `ref`"
    );
}

#[test]
fn numbers_are_handed_on_exactly() {
    for number in ["0.1", "1.7976931348623157e308", "4.9406564584124654e-324", "-0.0", "1e22",
        "9007199254740993.0", "2.2250738585072011e-308", "1.2345678901234567e-7"]
    {
        let info = mcp(&format!(
            r#"{{"jsonrpc":"2.0","id":1,"method":"tools/call","params":{{"name":{number}}}}}"#
        ));
        let value: serde_json::Value = serde_json::from_str(number).unwrap();
        let reason = serde_json::from_value::<String>(value).unwrap_err();
        assert_eq!(
            error_of(&info),
            format!("invalid MCP request params: Serialization error: {reason}")
        );
    }
}

#[test]
fn tools_in_listed_params() {
    let body = |params: &str| {
        format!(r#"{{"jsonrpc":"2.0","id":1,"method":"tools/call","params":{params}}}"#)
    };
    let info = mcp(&body(r#"["listed",{}]"#));
    assert!(info.error.is_none(), "{info:?}");
    assert_eq!(info.calls[0].tool.as_deref(), Some("listed"));
    for params in ["null", "[]", "[7]", "\"name\"", "true"] {
        assert!(error_of(&mcp(&body(params))).starts_with("invalid MCP request params: "));
    }
}

#[test]
fn strict_and_lenient_reading_agree_but_for_tool_names() {
    let fault =
        "MCP tool name must match ^[A-Za-z0-9_.-]{1,128}$ when strict_tool_names is enabled";
    for (method, name, id) in [
        ("tools/call", "ok", true),
        ("tools/call", "not ok", true),
        ("tools/call", "not ok", false),
        ("vendor/x", "not ok", true),
        ("prompts/get", "not ok", true),
        ("resources/read", "not ok", true),
    ] {
        let mut members = vec![
            ("jsonrpc", text("2.0")),
            ("method", text(method)),
            ("params", object(vec![("name", text(name))])),
        ];
        if id {
            members.push(("id", text("1")));
        }
        let value = object(members);
        let strict = parse_mcp_call(&value, true);
        let lenient = parse_mcp_call(&value, false);
        if method == "tools/call" && name == "not ok" && id {
            assert!(lenient.is_ok());
            assert_eq!(strict.unwrap_err(), fault);
        } else {
            assert_eq!(strict, lenient);
        }
    }
}

fn object(members: Vec<(&str, JsonValue)>) -> JsonValue {
    JsonValue::Object(members.into_iter().map(|(k, v)| (k.to_string(), v)).collect())
}

fn text(s: &str) -> JsonValue {
    JsonValue::String(s.to_string())
}

#[test]
fn values_can_be_inspected_without_parsing() {
    let options = JsonRpcInspectionOptions::from(JsonRpcInspectionMode::JsonRpc);
    let call = || object(vec![("jsonrpc", text("2.0")), ("method", text("m"))]);
    let info = inspect_json(Some(call()), options);
    assert_eq!(info.calls[0].method, "m");
    let info = inspect_json(Some(JsonValue::Array(vec![call(), call()])), options);
    assert_eq!(info.calls.len(), 2);
    assert_eq!(inspect_json(None, options).error.as_deref(), Some("invalid JSON"));
    assert_eq!(
        inspect_json(Some(JsonValue::Array(Vec::new())), options).error.as_deref(),
        Some("empty batch")
    );
    assert!(matches!(
        parse_jsonrpc_message(&call(), options),
        Ok(JsonRpcMessageInfo::Call(info)) if info.method == "m"
    ));
}

#[test]
fn json_members_are_looked_up() {
    let value = object(vec![("a", text("1")), ("b", JsonValue::Null), ("a", text("2"))]);
    assert_eq!(value.get("a").and_then(|v| v.as_str()), Some("2"));
    assert_eq!(value.get("b"), Some(&JsonValue::Null));
    assert_eq!(value.get("c"), None);
    assert_eq!(text("x").get("a"), None);
    assert_eq!(JsonValue::Bool(true).as_str(), None);
}

#[test]
fn typed_requests_become_calls() {
    let request = |name: &str| McpRequestInfo {
        method: "tools/call".to_string(),
        params: McpRequestParams::CallTool { name: name.to_string() },
    };
    assert_eq!(
        mcp_request_call(Err("why".to_string()), true).unwrap_err(),
        "invalid MCP request params: why"
    );
    assert!(mcp_request_call(Ok(request("a b")), true).is_err());
    let call = mcp_request_call(Ok(request("a b")), false).unwrap();
    assert_eq!(call.tool.as_deref(), Some("a b"));
    assert_eq!(call.params.get("name").map(String::as_str), Some("a b"));
    let other =
        McpRequestInfo { method: "ping".to_string(), params: McpRequestParams::Other };
    assert_eq!(mcp_tool_name(&other), None);
    let call = mcp_request_call(Ok(other), true).unwrap();
    assert_eq!(call.method, "ping");
    assert!(call.params.is_empty() && call.tool.is_none());
    assert!(mcp_policy_params(None).is_empty());
}

#[test]
fn options_follow_the_endpoint() {
    for (protocol, mode) in [
        (L7Protocol::Rest, JsonRpcInspectionMode::JsonRpc),
        (L7Protocol::JsonRpc, JsonRpcInspectionMode::JsonRpc),
        (L7Protocol::Mcp, JsonRpcInspectionMode::Mcp),
    ] {
        assert_eq!(JsonRpcInspectionMode::for_protocol(protocol), mode);
        for strict in [true, false] {
            let config = L7EndpointConfig { protocol, mcp_strict_tool_names: strict };
            assert_eq!(
                JsonRpcInspectionOptions::for_config(&config),
                JsonRpcInspectionOptions { mode, mcp_strict_tool_names: strict }
            );
        }
        assert!(JsonRpcInspectionOptions::from(mode).mcp_strict_tool_names);
    }
    assert_eq!(DEFAULT_MAX_BODY_BYTES, 64 * 1024);
}

fn get(header: &[u8], body_length: BodyLength) -> L7Request {
    L7Request {
        action: "get".to_string(),
        target: "/rpc".to_string(),
        query_params: HashMap::new(),
        raw_header: header.to_vec(),
        body_length,
    }
}

#[test]
fn accept_header_is_read_leniently() {
    for header in [
        "GET /\r\nAccept: text/event-stream\r\n\r\n",
        "GET /\r\naccept:TEXT/Event-Stream;q=0.5\r\n\r\n",
        "GET /\r\n Accept : a/b , text/event-stream \r\n\r\n",
        "GET /\nAccept: text/event-stream",
        "GET /\r\nAccept: a/b\r\nAccept: text/event-stream\r\n\r\n",
    ] {
        assert!(header_accepts_sse(header), "{header:?}");
    }
    for header in [
        "Accept: text/event-stream\r\n\r\n",
        "GET /\r\nAccept: text/event-streams\r\n\r\n",
        "GET /\r\nAccept: a;text/event-stream\r\n\r\n",
        "GET /\r\nX-Accept: text/event-stream\r\n\r\n",
        "GET /\r\nAccept text/event-stream\r\n\r\n",
        "",
    ] {
        assert!(!header_accepts_sse(header), "{header:?}");
    }
}

#[test]
fn stream_requests_have_no_body() {
    let header = b"GET / HTTP/1.1\r\nX: \xff\r\nAccept: text/event-stream\r\n\r\n";
    assert!(jsonrpc_receive_stream_request(&get(header, BodyLength::Absent)));
    assert!(jsonrpc_receive_stream_request(&get(header, BodyLength::ContentLength(0))));
    assert!(!jsonrpc_receive_stream_request(&get(header, BodyLength::ContentLength(1))));
    assert!(!jsonrpc_receive_stream_request(&get(header, BodyLength::Chunked)));
    let mut post = get(header, BodyLength::Absent);
    post.action = "POST".to_string();
    assert!(!jsonrpc_receive_stream_request(&post));
    let late = b"GET / HTTP/1.1\r\n\r\nAccept: text/event-stream\r\n\r\n";
    assert!(!request_accepts_sse(&get(late, BodyLength::Absent)));
}

#[test]
fn http_requests_are_streams_or_read_on() {
    let header = b"GET / HTTP/1.1\r\nAccept: text/event-stream\r\n\r\n";
    match parse_jsonrpc_http_request(get(header, BodyLength::Absent)) {
        JsonRpcHttpStep::Done(done) => {
            assert_eq!(done.info, JsonRpcRequestInfo::receive_stream());
            assert_eq!(done.request.raw_header, header);
        }
        other => panic!("unexpected {other:?}"),
    }
    match parse_jsonrpc_http_request(get(b"GET / HTTP/1.1\r\n\r\n", BodyLength::Absent)) {
        JsonRpcHttpStep::ReadBody(request) => {
            let read = finish_jsonrpc_http_request(
                request,
                br#"{"jsonrpc":"2.0","method":"m"}"#,
                JsonRpcInspectionOptions::from(JsonRpcInspectionMode::JsonRpc),
            );
            assert_eq!(read.info.calls[0].method, "m");
            assert_eq!(read.request.target, "/rpc");
        }
        other => panic!("unexpected {other:?}"),
    }
}

#[test]
fn mcp_messages_of_another_version_are_refused() {
    let request = object(vec![
        ("jsonrpc", text("1.0")),
        ("id", JsonValue::Number("7".to_string())),
        ("method", text("ping")),
    ]);
    let error = parse_mcp_call(&request, true).unwrap_err();
    assert_eq!(
        error,
        "invalid MCP request: JsonRpcError { code: -32600, message: \
         \"Invalid JSON-RPC version: expected '2.0', got '1.0'\", data: None }"
    );
    let notification = object(vec![("jsonrpc", text("1.0")), ("method", text("ping"))]);
    assert_eq!(
        parse_mcp_call(&notification, true).unwrap_err(),
        "unsupported JSON-RPC version '1.0'"
    );
    let current = object(vec![
        ("jsonrpc", text("2.0")),
        ("id", text("7")),
        ("method", text("ping")),
        ("params", JsonValue::Array(vec![JsonValue::Number("1.50".to_string())])),
    ]);
    assert_eq!(parse_mcp_call(&current, true).unwrap().method, "ping");
}
