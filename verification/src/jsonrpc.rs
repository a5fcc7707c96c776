//! Inspection of JSON-RPC 2.0 messages carried over HTTP.

use vstd::prelude::*;
use vstd::string::*;
use vstd::utf8::*;
use crate::accept::{accepts_sse, request_accepts_sse};
use crate::http::head;
use crate::json::{parse_json, parsed_json, JsonValue, JsonView};
use crate::l7::{BodyLength, L7EndpointConfig, L7Protocol, L7Request};
use crate::mcp::{
    check_notification, decode_notification, decode_request, decoded_notification, decoded_request,
    jsonrpc_version, mcp_policy_params, mcp_tool_name, named_tool, notification_fault, param_str,
    params_checked, plain_id, plain_tool_call, policy_params, refusal_doubts, tool_name_fault,
    type_request, typed_request, valid_tool_name, validate_mcp_tool_name, validate_request,
    version_fault, McpRequestInfo, McpRequestView,
};
use crate::string_map::StringMap;
use crate::text::{
    chars_of, eq_ignore_ascii_case, joined, same_ignoring_ascii_case, same_text,
};
use crate::utf8::lossy_text;

verus! {

/// The most body bytes that are inspected unless an endpoint says otherwise.
pub const DEFAULT_MAX_BODY_BYTES: usize = 65536;

/// Whether a message is read as generic JSON-RPC 2.0, or as an MCP message whose
/// method and params are checked.
#[derive(Debug, Clone, Copy, PartialEq, Eq, Structural)]
pub enum JsonRpcInspectionMode {
    JsonRpc,
    Mcp,
}

impl JsonRpcInspectionMode {
    /// The mode for the protocol of an endpoint.
    pub fn for_protocol(protocol: L7Protocol) -> (r: Self)
        ensures
            r == (if protocol == L7Protocol::Mcp {
                JsonRpcInspectionMode::Mcp
            } else {
                JsonRpcInspectionMode::JsonRpc
            }),
    {
        match protocol {
            L7Protocol::Mcp => JsonRpcInspectionMode::Mcp,
            _ => JsonRpcInspectionMode::JsonRpc,
        }
    }
}

/// How the messages for an endpoint are inspected.
#[derive(Debug, Clone, Copy, PartialEq, Eq, Structural)]
pub struct JsonRpcInspectionOptions {
    pub mode: JsonRpcInspectionMode,
    pub mcp_strict_tool_names: bool,
}

impl JsonRpcInspectionOptions {
    /// The options that the settings of an endpoint give.
    pub fn for_config(config: &L7EndpointConfig) -> (r: Self)
        ensures
            r.mode == JsonRpcInspectionMode::Mcp <==> config.protocol == L7Protocol::Mcp,
            r.mcp_strict_tool_names == config.mcp_strict_tool_names,
    {
        JsonRpcInspectionOptions {
            mode: JsonRpcInspectionMode::for_protocol(config.protocol),
            mcp_strict_tool_names: config.mcp_strict_tool_names,
        }
    }
}

/// The options for a mode where nothing else is set: tool names are held to the
/// strict rule.
pub open spec fn strict_options(mode: JsonRpcInspectionMode) -> JsonRpcInspectionOptions {
    JsonRpcInspectionOptions { mode, mcp_strict_tool_names: true }
}

impl From<JsonRpcInspectionMode> for JsonRpcInspectionOptions {
    fn from(mode: JsonRpcInspectionMode) -> (r: Self) {
        JsonRpcInspectionOptions { mode, mcp_strict_tool_names: true }
    }
}

impl vstd::std_specs::convert::FromSpecImpl<JsonRpcInspectionMode> for JsonRpcInspectionOptions {
    open spec fn obeys_from_spec() -> bool {
        true
    }

    open spec fn from_spec(mode: JsonRpcInspectionMode) -> Self {
        strict_options(mode)
    }
}

/// A call found in a message.
#[derive(Debug, Clone, PartialEq, Eq)]
pub struct JsonRpcCallInfo {
    /// The method.
    pub method: String,
    /// The params that policy gets to see: none for generic JSON-RPC, and for MCP
    /// the name of the called tool.
    pub params: StringMap,
    /// The tool that an MCP `tools/call` is about.
    pub tool: Option<String>,
}

/// A [`JsonRpcCallInfo`] as a mathematical value.
pub struct CallView {
    pub method: Seq<char>,
    pub params: Map<Seq<char>, Seq<char>>,
    pub tool: Option<Seq<char>>,
}

/// The view of an optional text.
pub open spec fn text_view(text: Option<String>) -> Option<Seq<char>> {
    match text {
        Some(s) => Some(s@),
        None => None,
    }
}

impl JsonRpcCallInfo {
    pub open spec fn view(&self) -> CallView {
        CallView { method: self.method@, params: self.params@, tool: text_view(self.tool) }
    }
}

/// What a request body was found to hold.
#[derive(Debug, Clone, PartialEq, Eq)]
pub struct JsonRpcRequestInfo {
    /// The calls, in order. Responses and requests for a stream have none.
    pub calls: Vec<JsonRpcCallInfo>,
    /// Whether the messages came as a batch.
    pub is_batch: bool,
    /// Whether the request asks for a stream of server messages.
    pub receive_stream: bool,
    /// Whether there is a response among the messages.
    pub has_response: bool,
    /// Why the body is not let through, if it is not.
    pub error: Option<String>,
}

/// A [`JsonRpcRequestInfo`] as a mathematical value.
pub struct InfoView {
    pub calls: Seq<CallView>,
    pub is_batch: bool,
    pub receive_stream: bool,
    pub has_response: bool,
    pub error: Option<Seq<char>>,
}

impl JsonRpcRequestInfo {
    pub open spec fn view(&self) -> InfoView {
        InfoView {
            calls: self.calls@.map_values(|c: JsonRpcCallInfo| c@),
            is_batch: self.is_batch,
            receive_stream: self.receive_stream,
            has_response: self.has_response,
            error: text_view(self.error),
        }
    }

    /// What is found of a request for a stream of server messages, which has no
    /// body.
    pub fn receive_stream() -> (r: Self)
        ensures
            r@ == (InfoView {
                calls: Seq::empty(),
                is_batch: false,
                receive_stream: true,
                has_response: false,
                error: None,
            }),
    {
        let r = JsonRpcRequestInfo {
            calls: Vec::new(),
            is_batch: false,
            receive_stream: true,
            has_response: false,
            error: None,
        };
        assert(r@.calls == Seq::<CallView>::empty());
        r
    }
}

/// A request, and what its body was found to hold.
#[derive(Debug)]
pub struct JsonRpcHttpRequest {
    pub request: L7Request,
    pub info: JsonRpcRequestInfo,
}

/// A message that is let through.
#[derive(Debug)]
pub enum JsonRpcMessageInfo {
    Call(JsonRpcCallInfo),
    Response,
}

/// What one message amounts to.
pub enum MessageView {
    /// A call.
    Call(CallView),
    /// A response.
    Response,
    /// Nothing that is let through, for this reason.
    Invalid(Seq<char>),
    /// An MCP request whose params are refused for one of these reasons; which one
    /// depends on more than the message, since several extensions are at fault.
    Refused(Set<Seq<char>>),
}

/// What the reason starts with where the params of an MCP request are refused.
pub open spec fn refused_params() -> Seq<char> {
    "invalid MCP request params: "@
}

/// Whether `e` is why a message of this kind is not let through, behind `prefix`.
pub open spec fn reason_for(e: Seq<char>, prefix: Seq<char>, m: MessageView) -> bool {
    match m {
        MessageView::Call(_) => false,
        MessageView::Response => false,
        MessageView::Invalid(text) => e == prefix + text,
        MessageView::Refused(reasons) => exists|text: Seq<char>| #[trigger]
            reasons.contains(text) && e == prefix + text,
    }
}

/// Whether `r` says what `m` is.
pub open spec fn reports(r: Result<JsonRpcMessageInfo, String>, m: MessageView) -> bool {
    match r {
        Ok(JsonRpcMessageInfo::Call(call)) => m == MessageView::Call(call@),
        Ok(JsonRpcMessageInfo::Response) => m is Response,
        Err(e) => reason_for(e@, Seq::empty(), m),
    }
}

/// Whether `r` says what the call `m` is.
pub open spec fn reports_call(r: Result<JsonRpcCallInfo, String>, m: MessageView) -> bool {
    match r {
        Ok(call) => m == MessageView::Call(call@),
        Err(e) => reason_for(e@, Seq::empty(), m),
    }
}

/// A call without policy-visible params.
pub open spec fn bare_call(method: Seq<char>) -> CallView {
    CallView { method, params: Map::empty(), tool: None }
}

/// Whether a value holds the outcome of a call.
pub open spec fn has_outcome(value: JsonView) -> bool {
    value.get("result"@) is Some || value.get("error"@) is Some
}

/// Why a value with the outcome of a call is no response, where it is none.
pub open spec fn response_fault(value: JsonView) -> Option<Seq<char>> {
    match (value.get("result"@), value.get("error"@), value.get("id"@)) {
        (Some(_), Some(_), _) => Some("JSON-RPC response includes both result and error"@),
        (None, None, _) => Some("JSON-RPC response missing result or error"@),
        (_, _, None) => Some("JSON-RPC response missing id"@),
        (_, error, Some(id)) => if !(id is String || id is Number || id is Null) {
            Some("JSON-RPC response id must be string, number, or null"@)
        } else if error is Some && !(error->0 is Object) {
            Some("JSON-RPC response error must be an object"@)
        } else {
            None
        },
    }
}

/// The view of what an MCP request was read as.
pub open spec fn typed_view(typed: Result<McpRequestInfo, String>) -> Result<
    McpRequestView,
    Seq<char>,
> {
    match typed {
        Ok(info) => Ok(info@),
        Err(e) => Err(e@),
    }
}

/// The reasons for which params may be refused, given the messages of which any one
/// may be given.
pub open spec fn possible_reasons(messages: Set<Seq<char>>) -> Set<Seq<char>> {
    Set::new(
        |reason: Seq<char>|
            exists|text: Seq<char>| #[trigger]
                messages.contains(text) && reason == refused_params() + text,
    )
}

/// What a request amounts to, given what it was read as, and the messages of which
/// any one may stand for any other where its params are refused, if there are such.
pub open spec fn typed_message(
    typed: Result<McpRequestView, Seq<char>>,
    doubts: Option<Set<Seq<char>>>,
    strict: bool,
) -> MessageView {
    match typed {
        Err(e) => match doubts {
            Some(messages) if messages.contains(e) => MessageView::Refused(
                possible_reasons(messages),
            ),
            _ => MessageView::Invalid(refused_params() + e),
        },
        Ok(request) => if strict && request.tool is Some && !valid_tool_name(request.tool->0) {
            MessageView::Invalid(tool_name_fault())
        } else {
            MessageView::Call(
                CallView {
                    method: request.method,
                    params: policy_params(request.tool),
                    tool: request.tool,
                },
            )
        },
    }
}

/// The reason why a message of version `version` is not let through.
pub open spec fn version_unsupported(version: Seq<char>) -> Seq<char> {
    "unsupported JSON-RPC version '"@ + version + "'"@
}

/// What a message with a method amounts to as an MCP message: one with an id is a
/// request, one without is a notification.
pub open spec fn mcp_message(value: JsonView, strict: bool) -> MessageView {
    if value.get("id"@) is Some {
        match decoded_request(value) {
            Err(e) => MessageView::Invalid("invalid MCP request: "@ + e),
            Ok(frame) => if frame.jsonrpc != "2.0"@ {
                MessageView::Invalid("invalid MCP request: "@ + version_fault(frame.jsonrpc))
            } else {
                typed_message(
                    typed_request(frame.method, frame.params),
                    refusal_doubts(frame.method, frame.params),
                    strict,
                )
            },
        }
    } else {
        match decoded_notification(value) {
            Err(e) => MessageView::Invalid("invalid MCP notification: "@ + e),
            Ok(frame) => if frame.jsonrpc != "2.0"@ {
                MessageView::Invalid(version_unsupported(frame.jsonrpc))
            } else {
                match notification_fault(frame.method, frame.params) {
                    Some(e) => MessageView::Invalid("invalid MCP notification params: "@ + e),
                    None => MessageView::Call(bare_call(frame.method)),
                }
            },
        }
    }
}

/// What a message with a method amounts to.
pub open spec fn call_message(value: JsonView, options: JsonRpcInspectionOptions) -> MessageView {
    if options.mode == JsonRpcInspectionMode::Mcp {
        mcp_message(value, options.mcp_strict_tool_names)
    } else {
        match value.get_str("method"@) {
            None => MessageView::Invalid("missing or non-string 'method' field"@),
            Some(method) => MessageView::Call(bare_call(method)),
        }
    }
}

/// What a value amounts to as a JSON-RPC message.
pub open spec fn message(value: JsonView, options: JsonRpcInspectionOptions) -> MessageView {
    match value.get_str("jsonrpc"@) {
        None => MessageView::Invalid("missing or non-string 'jsonrpc' field"@),
        Some(version) => if version != "2.0"@ {
            MessageView::Invalid(version_unsupported(version))
        } else if value.get("method"@) is Some && has_outcome(value) {
            MessageView::Invalid("JSON-RPC message includes both method and result/error"@)
        } else if has_outcome(value) {
            match response_fault(value) {
                Some(text) => MessageView::Invalid(text),
                None => MessageView::Response,
            }
        } else if value.get("method"@) is Some {
            call_message(value, options)
        } else {
            MessageView::Invalid("missing or non-string 'method' field"@)
        },
    }
}

/// Whether a message is a call that is let through whatever else it holds.
pub open spec fn surely_call(value: JsonView, options: JsonRpcInspectionOptions) -> bool {
    &&& value.get_str("jsonrpc"@) == Some("2.0"@)
    &&& !has_outcome(value)
    &&& value.get_str("method"@) matches Some(method) && {
        ||| options.mode == JsonRpcInspectionMode::JsonRpc
        ||| value.get("id"@) is None && method != "notifications/cancelled"@ && method
            != "notifications/progress"@
        ||| plain_id(value.get("id"@)) && !params_checked(method)
        ||| plain_id(value.get("id"@)) && method == "tools/call"@ && plain_tool_call(
            value.get("params"@),
        ) && (options.mcp_strict_tool_names ==> valid_tool_name(
            param_str(value.get("params"@), "name"@)->0,
        ))
    }
}

/// Whether `call` says of the message `value` what it holds: its method, and the
/// tool it names where it is an MCP `tools/call`.
pub open spec fn call_agrees(
    value: JsonView,
    call: CallView,
    options: JsonRpcInspectionOptions,
) -> bool {
    &&& value.get_str("method"@) == Some(call.method)
    &&& call.params == policy_params(call.tool)
    &&& call.tool is Some <==> options.mode == JsonRpcInspectionMode::Mcp && call.method
        == "tools/call"@ && value.get("id"@) is Some
    &&& call.tool is Some ==> call.tool == named_tool(value.get("params"@))
    &&& call.tool is Some && options.mcp_strict_tool_names ==> valid_tool_name(call.tool->0)
}

/// Whether the reason for which a message may be refused depends on it alone.
pub open spec fn settled_message(value: JsonView) -> bool {
    value.get_str("method"@) matches Some(method) ==> refusal_doubts(
        method,
        value.get("params"@),
    ) is None
}

/// What is sure of a message besides what [`message`] makes of it.
pub open spec fn message_facts(value: JsonView, options: JsonRpcInspectionOptions) -> bool {
    &&& message(value, options) matches MessageView::Call(call) ==> call_agrees(
        value,
        call,
        options,
    )
    &&& surely_call(value, options) ==> message(value, options) is Call
    &&& settled_message(value) ==> !(message(value, options) is Refused)
}

/// The text of the member `key` of a value, where it is a string.
fn get_str<'a>(value: &'a JsonValue, key: &str) -> (r: Option<&'a str>)
    ensures
        match r {
            Some(s) => value@.get_str(key@) == Some(s@),
            None => value@.get_str(key@) is None,
        },
{
    match value.get(key) {
        Some(member) => member.as_str(),
        None => None,
    }
}

/// `text` as it is.
fn plain(text: &str) -> (r: String)
    ensures
        r@ == text@,
        r@ == Seq::<char>::empty() + text@,
{
    assert(Seq::<char>::empty() + text@ == text@);
    text.to_string()
}

/// `prefix` followed by `text`.
fn prefixed(prefix: &str, text: String) -> (r: String)
    ensures
        r@ == prefix@ + text@,
        r@ == Seq::<char>::empty() + (prefix@ + text@),
{
    let r = joined(prefix, text.as_str());
    assert(Seq::<char>::empty() + r@ == r@);
    r
}

/// The reason why a message of version `version` is not let through.
fn unsupported_version(version: &str) -> (r: String)
    ensures
        r@ == version_unsupported(version@),
        r@ == Seq::<char>::empty() + version_unsupported(version@),
{
    let mut r = joined("unsupported JSON-RPC version '", version);
    r.append("'");
    assert(Seq::<char>::empty() + r@ == r@);
    r
}

/// What becomes of a request that has been read as an MCP request.
pub fn mcp_request_call(typed: Result<McpRequestInfo, String>, strict_tool_names: bool) -> (r:
    Result<JsonRpcCallInfo, String>)
    ensures
        reports_call(r, typed_message(typed_view(typed), None, strict_tool_names)),
{
    match typed {
        Err(e) => Err(prefixed("invalid MCP request params: ", e)),
        Ok(request) => {
            let tool = mcp_tool_name(&request);
            let params = match &tool {
                Some(name) => {
                    if strict_tool_names {
                        if let Err(e) = validate_mcp_tool_name(name.as_str()) {
                            assert(Seq::<char>::empty() + e@ == e@);
                            return Err(e);
                        }
                    }
                    mcp_policy_params(Some(name.as_str()))
                },
                None => mcp_policy_params(None),
            };
            Ok(JsonRpcCallInfo { method: request.method, params, tool })
        },
    }
}

/// What is sure of an MCP message besides what [`mcp_message`] makes of it.
pub open spec fn mcp_facts(value: JsonView, strict: bool) -> bool {
    let options = JsonRpcInspectionOptions {
        mode: JsonRpcInspectionMode::Mcp,
        mcp_strict_tool_names: strict,
    };
    &&& mcp_message(value, strict) matches MessageView::Call(call) ==> call_agrees(
        value,
        call,
        options,
    )
    &&& surely_call(value, options) ==> mcp_message(value, strict) is Call
    &&& settled_message(value) ==> !(mcp_message(value, strict) is Refused)
}

/// Reads a message with a method as an MCP message.
pub fn parse_mcp_call(value: &JsonValue, strict_tool_names: bool) -> (r: Result<
    JsonRpcCallInfo,
    String,
>)
    ensures
        reports_call(r, mcp_message(value@, strict_tool_names)),
        value@ is Object ==> mcp_facts(value@, strict_tool_names),
{
    if value.get("id").is_some() {
        let frame = match decode_request(value) {
            Err(e) => {
                return Err(prefixed("invalid MCP request: ", e));
            },
            Ok(frame) => frame,
        };
        if let Err(e) = validate_request(&frame) {
            return Err(prefixed("invalid MCP request: ", e));
        }
        let typed = type_request(&frame);
        proof {
            if typed is Err {
                let reason = refused_params() + typed->Err_0@;
                assert(Seq::<char>::empty() + reason == reason);
                if let MessageView::Refused(reasons) = mcp_message(value@, strict_tool_names) {
                    assert(reasons.contains(reason));
                }
            }
        }
        return mcp_request_call(typed, strict_tool_names);
    }
    let notification = match decode_notification(value) {
        Err(e) => {
            return Err(prefixed("invalid MCP notification: ", e));
        },
        Ok(notification) => notification,
    };
    if !same_text(notification.jsonrpc.as_str(), jsonrpc_version()) {
        return Err(unsupported_version(notification.jsonrpc.as_str()));
    }
    if let Err(e) = check_notification(&notification) {
        return Err(prefixed("invalid MCP notification params: ", e));
    }
    Ok(JsonRpcCallInfo { method: notification.method, params: StringMap::new(), tool: None })
}

/// Reads a message with a method as a call.
pub fn parse_jsonrpc_call(value: &JsonValue, inspection_options: JsonRpcInspectionOptions) -> (r:
    Result<JsonRpcCallInfo, String>)
    ensures
        reports_call(r, call_message(value@, inspection_options)),
        value@ is Object && inspection_options.mode == JsonRpcInspectionMode::Mcp ==> mcp_facts(
            value@,
            inspection_options.mcp_strict_tool_names,
        ),
{
    if inspection_options.mode == JsonRpcInspectionMode::Mcp {
        return parse_mcp_call(value, inspection_options.mcp_strict_tool_names);
    }
    match get_str(value, "method") {
        None => Err(plain("missing or non-string 'method' field")),
        Some(method) => Ok(
            JsonRpcCallInfo { method: method.to_string(), params: StringMap::new(), tool: None },
        ),
    }
}

/// Whether a value holds the outcome of a call.
pub fn jsonrpc_response_payload_present(value: &JsonValue) -> (r: bool)
    ensures
        r == has_outcome(value@),
{
    value.get("result").is_some() || value.get("error").is_some()
}

/// Checks a value with the outcome of a call as a response.
pub fn parse_jsonrpc_response(value: &JsonValue) -> (r: Result<(), String>)
    ensures
        match r {
            Ok(()) => response_fault(value@) is None,
            Err(e) => response_fault(value@) == Some(e@),
        },
{
    let has_result: bool = value.get("result").is_some();
    let error = value.get("error");
    if has_result && error.is_some() {
        return Err("JSON-RPC response includes both result and error".to_string());
    }
    if !has_result && error.is_none() {
        return Err("JSON-RPC response missing result or error".to_string());
    }
    match value.get("id") {
        None => {
            return Err("JSON-RPC response missing id".to_string());
        },
        Some(JsonValue::String(_)) | Some(JsonValue::Number(_)) | Some(JsonValue::Null) => {},
        Some(_) => {
            return Err("JSON-RPC response id must be string, number, or null".to_string());
        },
    }
    match error {
        None | Some(JsonValue::Object(_)) => Ok(()),
        Some(_) => Err("JSON-RPC response error must be an object".to_string()),
    }
}

/// Reads one JSON-RPC message.
pub fn parse_jsonrpc_message(value: &JsonValue, inspection_options: JsonRpcInspectionOptions) -> (r:
    Result<JsonRpcMessageInfo, String>)
    ensures
        reports(r, message(value@, inspection_options)),
        message_facts(value@, inspection_options),
{
    match get_str(value, "jsonrpc") {
        None => {
            return Err(plain("missing or non-string 'jsonrpc' field"));
        },
        Some(version) => {
            if !same_text(version, jsonrpc_version()) {
                return Err(unsupported_version(version));
            }
        },
    }
    let has_method: bool = value.get("method").is_some();
    let has_response_payload: bool = jsonrpc_response_payload_present(value);
    if has_method && has_response_payload {
        return Err(plain("JSON-RPC message includes both method and result/error"));
    }
    if has_response_payload {
        return match parse_jsonrpc_response(value) {
            Ok(()) => Ok(JsonRpcMessageInfo::Response),
            Err(e) => {
                assert(Seq::<char>::empty() + e@ == e@);
                Err(e)
            },
        };
    }
    if has_method {
        return match parse_jsonrpc_call(value, inspection_options) {
            Ok(call) => Ok(JsonRpcMessageInfo::Call(call)),
            Err(e) => Err(e),
        };
    }
    Err(plain("missing or non-string 'method' field"))
}

/// The messages that a body holds: the items of a batch, or the one value that is
/// none.
pub open spec fn messages(value: JsonView) -> Seq<JsonView> {
    match value {
        JsonView::Array(items) => items,
        _ => seq![value],
    }
}

/// Whether a message is let through.
pub open spec fn passes(value: JsonView, options: JsonRpcInspectionOptions) -> bool {
    message(value, options) is Call || message(value, options) is Response
}

/// The first message from `from` on that is not let through.
pub open spec fn first_invalid(
    items: Seq<JsonView>,
    from: int,
    options: JsonRpcInspectionOptions,
) -> Option<int>
    decreases items.len() - from,
{
    if from < 0 || from >= items.len() {
        None
    } else if !passes(items[from], options) {
        Some(from)
    } else {
        first_invalid(items, from + 1, options)
    }
}

/// The calls among the first `n` messages, in order.
pub open spec fn calls_among(
    items: Seq<JsonView>,
    n: int,
    options: JsonRpcInspectionOptions,
) -> Seq<CallView>
    decreases n,
{
    if n <= 0 {
        Seq::empty()
    } else {
        match message(items[n - 1], options) {
            MessageView::Call(call) => calls_among(items, n - 1, options).push(call),
            _ => calls_among(items, n - 1, options),
        }
    }
}

/// Whether there is a response among the first `n` messages.
pub open spec fn response_among(
    items: Seq<JsonView>,
    n: int,
    options: JsonRpcInspectionOptions,
) -> bool {
    exists|i: int| 0 <= i < n && #[trigger] message(items[i], options) is Response
}

/// Whether `info` says that the body is not let through: it then holds nothing
/// but the reason, for which `reason` is asked.
pub open spec fn rejects(
    info: JsonRpcRequestInfo,
    is_batch: bool,
    reason: spec_fn(Seq<char>) -> bool,
) -> bool {
    &&& info.calls@.len() == 0
    &&& info.is_batch == is_batch
    &&& !info.receive_stream
    &&& !info.has_response
    &&& info.error matches Some(e)
    &&& reason(e@)
}

/// Whether `info` says what a body holds, given the JSON value it was read as.
pub open spec fn describes(
    info: JsonRpcRequestInfo,
    parsed: Option<JsonView>,
    options: JsonRpcInspectionOptions,
) -> bool {
    match parsed {
        None => rejects(info, false, |e: Seq<char>| e == "invalid JSON"@),
        Some(value) => {
            let items = messages(value);
            let prefix = if value is Array {
                "batch item invalid: "@
            } else {
                Seq::empty()
            };
            if items.len() == 0 {
                rejects(info, true, |e: Seq<char>| e == "empty batch"@)
            } else {
                match first_invalid(items, 0, options) {
                    Some(i) => rejects(
                        info,
                        value is Array,
                        |e: Seq<char>| reason_for(e, prefix, message(items[i], options)),
                    ),
                    None => info@ == (InfoView {
                        calls: calls_among(items, items.len() as int, options),
                        is_batch: value is Array,
                        receive_stream: false,
                        has_response: response_among(items, items.len() as int, options),
                        error: None,
                    }),
                }
            }
        },
    }
}

/// What is sure of a body besides what [`describes`] says of it: what every call
/// is about, that plain calls are let through, and when the reason for a refusal is
/// settled.
pub open spec fn body_facts(
    info: JsonRpcRequestInfo,
    value: JsonView,
    options: JsonRpcInspectionOptions,
) -> bool {
    let items = messages(value);
    &&& info.error is None ==> forall|i: int|
        0 <= i < items.len() ==> match #[trigger] message(items[i], options) {
            MessageView::Call(call) => call_agrees(items[i], call, options),
            _ => true,
        }
    &&& items.len() > 0 && (forall|i: int|
        0 <= i < items.len() ==> surely_call(#[trigger] items[i], options)) ==> info.error is None
        && info.calls@.len() == items.len()
    &&& match first_invalid(items, 0, options) {
        Some(i) => settled_message(items[i]) ==> message(items[i], options) is Invalid,
        None => true,
    }
}

/// What is found of a body that is not let through.
fn rejected(is_batch: bool, error: String) -> (r: JsonRpcRequestInfo)
    ensures
        r.calls@.len() == 0,
        r.is_batch == is_batch,
        !r.receive_stream,
        !r.has_response,
        r.error == Some(error),
{
    JsonRpcRequestInfo {
        calls: Vec::new(),
        is_batch,
        receive_stream: false,
        has_response: false,
        error: Some(error),
    }
}

/// Inspects the items of a batch.
fn inspect_batch(
    items: &Vec<JsonValue>,
    inspection_options: JsonRpcInspectionOptions,
    Ghost(value): Ghost<JsonView>,
) -> (r: JsonRpcRequestInfo)
    requires
        value is Array,
        messages(value).len() == items@.len(),
        forall|i: int| 0 <= i < items@.len() ==> (#[trigger] items@[i])@ == messages(value)[i],
    ensures
        describes(r, Some(value), inspection_options),
        body_facts(r, value, inspection_options),
{
    let ghost all = messages(value);
    if items.len() == 0 {
        return rejected(true, "empty batch".to_string());
    }
    let mut calls: Vec<JsonRpcCallInfo> = Vec::new();
    let mut has_response: bool = false;
    let mut i: usize = 0;
    assert(calls@.map_values(|c: JsonRpcCallInfo| c@) =~= calls_among(all, 0, inspection_options));
    while i < items.len()
        invariant
            i <= items@.len(),
            items@.len() > 0,
            value is Array,
            all == messages(value),
            all.len() == items@.len(),
            forall|k: int| 0 <= k < items@.len() ==> (#[trigger] items@[k])@ == all[k],
            first_invalid(all, 0, inspection_options) == first_invalid(
                all,
                i as int,
                inspection_options,
            ),
            calls@.map_values(|c: JsonRpcCallInfo| c@) == calls_among(
                all,
                i as int,
                inspection_options,
            ),
            has_response == response_among(all, i as int, inspection_options),
            forall|k: int| 0 <= k < i ==> #[trigger] message_facts(all[k], inspection_options),
            (forall|k: int| 0 <= k < i ==> surely_call(#[trigger] all[k], inspection_options))
                ==> calls@.len() == i,
        decreases items@.len() - i,
    {
        let ghost calls_before = calls@;
        assert(items@[i as int]@ == all[i as int]);
        let outcome = parse_jsonrpc_message(&items[i], inspection_options);
        match outcome {
            Ok(JsonRpcMessageInfo::Call(call)) => {
                calls.push(call);
                assert(calls@.map_values(|c: JsonRpcCallInfo| c@) =~= calls_before.map_values(
                    |c: JsonRpcCallInfo| c@,
                ).push(call@));
            },
            Ok(JsonRpcMessageInfo::Response) => {
                has_response = true;
            },
            Err(e) => {
                let text = joined("batch item invalid: ", e.as_str());
                proof {
                    let m = message(all[i as int], inspection_options);
                    lemma_reason_behind("batch item invalid: "@, e@, m);
                    assert(first_invalid(all, 0, inspection_options) == Some(i as int));
                    assert(!surely_call(all[i as int], inspection_options));
                }
                return rejected(true, text);
            },
        }
        assert(message_facts(all[i as int], inspection_options));
        proof {
            let before = response_among(all, i as int, inspection_options);
            let after = response_among(all, i + 1, inspection_options);
            if before {
                let k = choose|k: int|
                    0 <= k < i && #[trigger] message(all[k], inspection_options) is Response;
                assert(message(all[k], inspection_options) is Response);
            }
            if message(all[i as int], inspection_options) is Response {
                assert(after);
            }
        }
        i = i + 1;
    }
    assert forall|k: int| 0 <= k < all.len() implies match #[trigger] message(
        all[k],
        inspection_options,
    ) {
        MessageView::Call(call) => call_agrees(all[k], call, inspection_options),
        _ => true,
    } by {
        assert(message_facts(all[k], inspection_options));
    }
    JsonRpcRequestInfo { calls, is_batch: true, receive_stream: false, has_response, error: None }
}

/// The reason for a message, behind a prefix.
proof fn lemma_reason_behind(prefix: Seq<char>, e: Seq<char>, m: MessageView)
    requires
        reason_for(e, Seq::empty(), m),
    ensures
        reason_for(prefix + e, prefix, m),
{
    match m {
        MessageView::Invalid(text) => {
            assert(Seq::<char>::empty() + text == text);
        },
        MessageView::Refused(reasons) => {
            let text = choose|text: Seq<char>| #[trigger]
                reasons.contains(text) && e == Seq::<char>::empty() + text;
            assert(Seq::<char>::empty() + text == text);
            assert(reasons.contains(text) && prefix + e == prefix + text);
        },
        _ => {},
    }
}

/// Inspects the value that a body was read as, where it was.
pub fn inspect_json(parsed: Option<JsonValue>, inspection_options: JsonRpcInspectionOptions) -> (r:
    JsonRpcRequestInfo)
    ensures
        match parsed {
            None => describes(r, None, inspection_options),
            Some(value) => describes(r, Some(value@), inspection_options) && body_facts(
                r,
                value@,
                inspection_options,
            ),
        },
{
    let value = match parsed {
        None => {
            return rejected(false, "invalid JSON".to_string());
        },
        Some(value) => value,
    };
    if let JsonValue::Array(items) = &value {
        return inspect_batch(items, inspection_options, Ghost(value@));
    }
    let ghost items = messages(value@);
    assert(items == seq![value@]);
    let outcome = parse_jsonrpc_message(&value, inspection_options);
    proof {
        assert(items[0] == value@);
        reveal_with_fuel(first_invalid, 2);
        reveal_with_fuel(calls_among, 2);
        assert(response_among(items, 1, inspection_options) == (message(
            items[0],
            inspection_options,
        ) is Response));
    }
    match outcome {
        Ok(JsonRpcMessageInfo::Call(call)) => {
            let mut calls: Vec<JsonRpcCallInfo> = Vec::new();
            calls.push(call);
            let r = JsonRpcRequestInfo {
                calls,
                is_batch: false,
                receive_stream: false,
                has_response: false,
                error: None,
            };
            assert(r@.calls =~= calls_among(items, 1, inspection_options));
            r
        },
        Ok(JsonRpcMessageInfo::Response) => {
            let r = JsonRpcRequestInfo {
                calls: Vec::new(),
                is_batch: false,
                receive_stream: false,
                has_response: true,
                error: None,
            };
            assert(r@.calls =~= calls_among(items, 1, inspection_options));
            assert(!surely_call(items[0], inspection_options));
            r
        },
        Err(error) => {
            assert(!surely_call(items[0], inspection_options));
            rejected(false, error)
        },
    }
}

/// Inspects a body under the options of an endpoint.
pub fn parse_jsonrpc_body_with_options(
    body: &[u8],
    inspection_options: JsonRpcInspectionOptions,
) -> (r: JsonRpcRequestInfo)
    ensures
        describes(r, parsed_json(body@), inspection_options),
        parsed_json(body@) matches Some(value) ==> body_facts(r, value, inspection_options),
{
    inspect_json(parse_json(body), inspection_options)
}

/// Inspects a body in the mode of an endpoint; tool names are held to the strict
/// rule.
pub fn parse_jsonrpc_body(body: &[u8], inspection_mode: JsonRpcInspectionMode) -> (r:
    JsonRpcRequestInfo)
    ensures
        describes(r, parsed_json(body@), strict_options(inspection_mode)),
        parsed_json(body@) matches Some(value) ==> body_facts(
            r,
            value,
            strict_options(inspection_mode),
        ),
{
    parse_jsonrpc_body_with_options(body, JsonRpcInspectionOptions::from(inspection_mode))
}

/// Whether a request, given the text of its header, asks for a stream of server
/// messages: an empty `GET` that accepts server-sent events.
pub open spec fn asks_for_stream(request: L7Request, header: Seq<char>) -> bool {
    &&& same_ignoring_ascii_case(request.action@, "GET"@)
    &&& request.body_length == BodyLength::Absent || request.body_length
        == BodyLength::ContentLength(0)
    &&& accepts_sse(header)
}

/// Whether a request asks for a stream of server messages.
pub fn jsonrpc_receive_stream_request(request: &L7Request) -> (r: bool)
    ensures
        r == asks_for_stream(*request, lossy_text(head(request.raw_header@))),
        valid_utf8(head(request.raw_header@)) ==> r == asks_for_stream(
            *request,
            decode_utf8(head(request.raw_header@)),
        ),
{
    let no_body: bool = match request.body_length {
        BodyLength::Absent => true,
        BodyLength::ContentLength(n) => n == 0,
        BodyLength::Chunked => false,
    };
    eq_ignore_ascii_case(&chars_of(request.action.as_str()), "GET") && no_body
        && request_accepts_sse(request)
}

/// What to do about a request whose header has been read.
#[derive(Debug)]
pub enum JsonRpcHttpStep {
    /// There is nothing to read: this is what was found.
    Done(JsonRpcHttpRequest),
    /// The body has to be read; then [`finish_jsonrpc_http_request`] takes it.
    ReadBody(L7Request),
}

/// Starts on a request: one that asks for a stream of server messages is let
/// through without a body, of any other the body has to be read.
pub fn parse_jsonrpc_http_request(request: L7Request) -> (r: JsonRpcHttpStep)
    ensures
        if asks_for_stream(request, lossy_text(head(request.raw_header@))) {
            r matches JsonRpcHttpStep::Done(done) && done.request == request && done.info@ == (
            InfoView {
                calls: Seq::empty(),
                is_batch: false,
                receive_stream: true,
                has_response: false,
                error: None,
            })
        } else {
            r == JsonRpcHttpStep::ReadBody(request)
        },
{
    if jsonrpc_receive_stream_request(&request) {
        return JsonRpcHttpStep::Done(
            JsonRpcHttpRequest { request, info: JsonRpcRequestInfo::receive_stream() },
        );
    }
    JsonRpcHttpStep::ReadBody(request)
}

/// Inspects the body that was read of a request.
pub fn finish_jsonrpc_http_request(
    request: L7Request,
    body: &[u8],
    inspection_options: JsonRpcInspectionOptions,
) -> (r: JsonRpcHttpRequest)
    ensures
        r.request == request,
        describes(r.info, parsed_json(body@), inspection_options),
        parsed_json(body@) matches Some(value) ==> body_facts(r.info, value, inspection_options),
{
    let info = parse_jsonrpc_body_with_options(body, inspection_options);
    JsonRpcHttpRequest { request, info }
}

} // verus!
