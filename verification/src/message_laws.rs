//! Which messages are calls, which are responses, and why others are refused, by the
//! members of the message.

use vstd::prelude::*;
use vstd::string::*;
use crate::json::{member, parsed_json, JsonValue, JsonView};
use crate::http_error::quoted;
use crate::jsonrpc::{
    calls_among, finish_jsonrpc_http_request, first_invalid, inspect_json,
    jsonrpc_response_payload_present, mcp_message, mcp_request_call, message, messages,
    parse_jsonrpc_body, parse_jsonrpc_body_with_options, parse_jsonrpc_call,
    parse_jsonrpc_message, parse_jsonrpc_response, parse_mcp_call, passes, response_among,
    CallView, InfoView, JsonRpcCallInfo, JsonRpcHttpRequest, JsonRpcInspectionMode,
    JsonRpcInspectionOptions, JsonRpcMessageInfo, JsonRpcRequestInfo, MessageView,
};
use crate::jsonrpc_laws::{
    lemma_first_invalid, lemma_outcome_is_determined, lemma_single, unsettled_refusal,
};
use crate::l7::{L7EndpointConfig, L7Protocol, L7Request};
use crate::mcp::{
    decoded_notification, decoded_request, faulty_extension, listed_extensions,
    mcp_policy_params, mcp_tool_name, notification_fault, refusal_doubts, tool_name_char,
    tool_name_fault, typed_request, valid_tool_name, validate_mcp_tool_name, McpFrameView,
    McpRequestInfo, McpRequestParams, McpRequestView,
};
use crate::string_map::StringMap;

verus! {

/// Whether member `i` is the one that counts among those with its name: the last.
pub open spec fn counts(members: Seq<(Seq<char>, JsonView)>, i: int) -> bool {
    &&& 0 <= i < members.len()
    &&& forall|j: int| i < j < members.len() ==> (#[trigger] members[j]).0 != members[i].0
}

proof fn lemma_member_found(members: Seq<(Seq<char>, JsonView)>, key: Seq<char>)
    ensures
        match member(members, key) {
            Some(v) => exists|i: int|
                counts(members, i) && (#[trigger] members[i]).0 == key && members[i].1 == v,
            None => forall|i: int| 0 <= i < members.len() ==> (#[trigger] members[i]).0 != key,
        },
    decreases members.len(),
{
    if members.len() > 0 {
        let n = members.len() - 1;
        let rest = members.drop_last();
        if members[n].0 == key {
            assert(counts(members, n) && members[n].0 == key);
        } else {
            lemma_member_found(rest, key);
            if let Some(v) = member(rest, key) {
                let i = choose|i: int|
                    counts(rest, i) && (#[trigger] rest[i]).0 == key && rest[i].1 == v;
                assert(counts(members, i)) by {
                    assert forall|j: int| i < j < members.len() implies (#[trigger] members[j]).0
                        != members[i].0 by {
                        if j < n {
                            assert(rest[j].0 != rest[i].0);
                        }
                    }
                }
                assert(members[i].0 == key && members[i].1 == v);
            } else {
                assert forall|i: int| 0 <= i < members.len() implies (#[trigger] members[i]).0
                    != key by {
                    if i < n {
                        assert(rest[i].0 != key);
                    }
                }
            }
        }
    }
}

/// A value has a member exactly if it is an object with a member of that name, and the
/// last one with the name counts.
pub proof fn lemma_members(value: &JsonValue, key: &str, r: Option<&JsonValue>)
    requires
        call_ensures(JsonValue::get, (value, key), r),
    ensures
        !(value@ is Object) ==> r is None,
        value@ matches JsonView::Object(members) ==> match r {
            Some(v) => exists|i: int|
                counts(members, i) && (#[trigger] members[i]).0 == key@ && members[i].1 == v@,
            None => forall|i: int| 0 <= i < members.len() ==> (#[trigger] members[i]).0 != key@,
        },
{
    if let JsonView::Object(members) = value@ {
        lemma_member_found(members, key@);
    }
}

/// What the text of a member is: that of the member's value, where it is a string.
pub proof fn lemma_member_text(value: JsonView, key: Seq<char>)
    ensures
        value.get_str(key) == (match value.get(key) {
            Some(JsonView::String(text)) => Some(text),
            _ => None,
        }),
{
}

/// A value is a response to a call exactly if it has one of `result` and `error` and not
/// both, an id that is a string, a number or null, and an object for its error, where it
/// has one. What is missing otherwise is said.
pub proof fn lemma_responses(value: &JsonValue, r: Result<(), String>)
    requires
        call_ensures(parse_jsonrpc_response, (value,), r),
    ensures
        ({
            let result = value@.get("result"@);
            let error = value@.get("error"@);
            let id = value@.get("id"@);
            let proper_id = id matches Some(v) && (v is String || v is Number || v is Null);
            let proper_error = error matches Some(v) ==> v is Object;
            &&& r is Ok <==> {
                &&& result is Some <==> error is None
                &&& proper_id
                &&& proper_error
            }
            &&& r matches Err(e) ==> {
                &&& result is Some && error is Some ==> e@
                    == "JSON-RPC response includes both result and error"@
                &&& result is None && error is None ==> e@
                    == "JSON-RPC response missing result or error"@
                &&& (result is Some <==> error is None) && id is None ==> e@
                    == "JSON-RPC response missing id"@
                &&& (result is Some <==> error is None) && id is Some && !proper_id ==> e@
                    == "JSON-RPC response id must be string, number, or null"@
                &&& (result is Some <==> error is None) && proper_id ==> e@
                    == "JSON-RPC response error must be an object"@
            }
        }),
{
}

/// A message is taken for a response exactly if it is of version 2.0, has no method, has
/// one of `result` and `error` and not both, an id that is a string, a number or null,
/// and an object for its error, where it has one. The mode does not matter.
pub proof fn lemma_response_messages(
    value: &JsonValue,
    options: JsonRpcInspectionOptions,
    r: Result<JsonRpcMessageInfo, String>,
)
    requires
        call_ensures(parse_jsonrpc_message, (value, options), r),
    ensures
        (r matches Ok(JsonRpcMessageInfo::Response)) <==> {
            &&& value@.get("jsonrpc"@) == Some(JsonView::String("2.0"@))
            &&& value@.get("method"@) is None
            &&& value@.get("result"@) is Some <==> value@.get("error"@) is None
            &&& value@.get("id"@) matches Some(id) && (id is String || id is Number || id is Null)
            &&& value@.get("error"@) matches Some(error) ==> error is Object
        },
{
}

/// Read as generic JSON-RPC, a message is a call exactly if it is of version 2.0, has a
/// string for its method, and neither `result` nor `error`. All that is shown of it is
/// that method.
pub proof fn lemma_generic_calls(
    value: &JsonValue,
    options: JsonRpcInspectionOptions,
    r: Result<JsonRpcMessageInfo, String>,
)
    requires
        call_ensures(parse_jsonrpc_message, (value, options), r),
        options.mode == JsonRpcInspectionMode::JsonRpc,
    ensures
        (r matches Ok(JsonRpcMessageInfo::Call(_))) <==> {
            &&& value@.get("jsonrpc"@) == Some(JsonView::String("2.0"@))
            &&& value@.get("method"@) matches Some(JsonView::String(_))
            &&& value@.get("result"@) is None
            &&& value@.get("error"@) is None
        },
        r matches Ok(JsonRpcMessageInfo::Call(call)) ==> {
            &&& value@.get("method"@) == Some(JsonView::String(call.method@))
            &&& call.params@ == Map::<Seq<char>, Seq<char>>::empty()
            &&& call.tool is None
        },
{
}

/// Whether a refusal says just this.
pub open spec fn refused_for<T>(r: Result<T, String>, text: Seq<char>) -> bool {
    r matches Err(e) && e@ == text
}

/// Why a message is refused before its method is looked at, in any mode.
pub proof fn lemma_refused_messages(
    value: &JsonValue,
    options: JsonRpcInspectionOptions,
    r: Result<JsonRpcMessageInfo, String>,
)
    requires
        call_ensures(parse_jsonrpc_message, (value, options), r),
    ensures
        ({
            let method = value@.get("method"@);
            let outcome = value@.get("result"@) is Some || value@.get("error"@) is Some;
            match value@.get("jsonrpc"@) {
                Some(JsonView::String(version)) => if version == "2.0"@ {
                    &&& method is Some && outcome ==> refused_for(
                        r,
                        "JSON-RPC message includes both method and result/error"@,
                    )
                    &&& method is None && !outcome ==> refused_for(
                        r,
                        "missing or non-string 'method' field"@,
                    )
                    &&& method is Some && !(method->0 is String) && !outcome && options.mode
                        == JsonRpcInspectionMode::JsonRpc ==> refused_for(
                        r,
                        "missing or non-string 'method' field"@,
                    )
                } else {
                    refused_for(r, "unsupported JSON-RPC version '"@ + version + "'"@)
                },
                _ => refused_for(r, "missing or non-string 'jsonrpc' field"@),
            }
        }),
{
    if let Err(e) = r {
        if let MessageView::Invalid(text) = message(value@, options) {
            assert(Seq::<char>::empty() + text =~= text);
        }
    }
}

/// A tool name passes the strict rule exactly if it has from 1 to 128 characters, each an
/// ASCII letter, a digit, an underscore, a full stop or a hyphen.
pub proof fn lemma_tool_names(name: &str, r: Result<(), String>)
    requires
        call_ensures(validate_mcp_tool_name, (name,), r),
    ensures
        r is Ok <==> 1 <= name@.len() <= 128 && forall|i: int|
            0 <= i < name@.len() ==> name_code((#[trigger] name@[i]) as u32),
        r matches Err(e) ==> e@
            == "MCP tool name must match ^[A-Za-z0-9_.-]{1,128}$ when strict_tool_names is enabled"@,
{
    lemma_valid_names(name@);
}

/// Whether a name has from 1 to 128 characters of those that tool names may hold.
pub open spec fn proper_name(name: Seq<char>) -> bool {
    1 <= name.len() <= 128 && forall|i: int|
        0 <= i < name.len() ==> name_code((#[trigger] name[i]) as u32)
}

proof fn lemma_valid_names(name: Seq<char>)
    ensures
        valid_tool_name(name) <==> proper_name(name),
{
    if proper_name(name) {
        assert forall|i: int| 0 <= i < name.len() implies tool_name_char(#[trigger] name[i]) by {
            lemma_name_code(name[i]);
        }
    }
    if valid_tool_name(name) {
        assert forall|i: int| 0 <= i < name.len() implies name_code(
            (#[trigger] name[i]) as u32,
        ) by {
            lemma_name_code(name[i]);
        }
    }
}

proof fn lemma_name_code(c: char)
    ensures
        tool_name_char(c) <==> name_code(c as u32),
{
}

/// The ASCII codes of letters, digits, the underscore, the full stop and the hyphen.
pub open spec fn name_code(code: u32) -> bool {
    ||| 65 <= code <= 90
    ||| 97 <= code <= 122
    ||| 48 <= code <= 57
    ||| code == 95
    ||| code == 46
    ||| code == 45
}

/// What policy gets to see of the params of a call: the name of the tool, if there is
/// one.
pub open spec fn shown_params(tool: Option<Seq<char>>) -> Map<Seq<char>, Seq<char>> {
    match tool {
        Some(name) => Map::<Seq<char>, Seq<char>>::empty().insert("name"@, name),
        None => Map::<Seq<char>, Seq<char>>::empty(),
    }
}

/// Whether a call shows this method and this tool.
pub open spec fn shows(call: JsonRpcCallInfo, method: Seq<char>, tool: Option<Seq<char>>) -> bool {
    &&& call.method@ == method
    &&& match call.tool {
        Some(name) => tool == Some(name@),
        None => tool is None,
    }
    &&& call.params@ == shown_params(tool)
}

/// An MCP request that reads as a JSON-RPC request of version 2.0 and whose params are
/// accepted for its method is a call, whatever the method, unless strict names are on and
/// it names a tool against the rule. It shows its method and the tool it names.
pub proof fn lemma_accepted_request_is_call(
    value: &JsonValue,
    strict: bool,
    r: Result<JsonRpcCallInfo, String>,
    method: Seq<char>,
    params: Option<JsonView>,
    tool: Option<Seq<char>>,
)
    requires
        call_ensures(parse_mcp_call, (value, strict), r),
        value@.get("id"@) is Some,
        decoded_request(value@) == Ok::<McpFrameView, Seq<char>>(
            McpFrameView { jsonrpc: "2.0"@, method, params },
        ),
        typed_request(method, params) == Ok::<McpRequestView, Seq<char>>(
            McpRequestView { method, tool },
        ),
    ensures
        r is Err <==> strict && tool is Some && !proper_name(tool->0),
        r matches Ok(call) ==> shows(call, method, tool),
        r matches Err(e) ==> e@
            == "MCP tool name must match ^[A-Za-z0-9_.-]{1,128}$ when strict_tool_names is enabled"@,
{
    if let Some(name) = tool {
        lemma_valid_names(name);
    }
    if let Err(e) = r {
        assert(Seq::<char>::empty() + tool_name_fault() =~= tool_name_fault());
    }
    if let Ok(call) = r {
        assert(call.params@ =~= shown_params(tool));
    }
}

/// An MCP request is refused where it reads as no JSON-RPC request, is of another
/// version, or has params that are not accepted for its method. The reason says which.
pub proof fn lemma_refused_requests(
    value: &JsonValue,
    strict: bool,
    r: Result<JsonRpcCallInfo, String>,
)
    requires
        call_ensures(parse_mcp_call, (value, strict), r),
        value@.get("id"@) is Some,
    ensures
        match decoded_request(value@) {
            Err(e) => refused_for(r, "invalid MCP request: "@ + e),
            Ok(frame) => if frame.jsonrpc != "2.0"@ {
                refused_for(
                    r,
                    "invalid MCP request: "@ + ("JsonRpcError { code: -32600, message: "@ + quoted(
                        "Invalid JSON-RPC version: expected '2.0', got '"@ + frame.jsonrpc + "'"@,
                    ) + ", data: None }"@),
                )
            } else {
                match typed_request(frame.method, frame.params) {
                    Err(e) => {
                        &&& r matches Err(text) && "invalid MCP request params: "@.is_prefix_of(
                            text@,
                        )
                        &&& refusal_doubts(frame.method, frame.params) is None ==> refused_for(
                            r,
                            "invalid MCP request params: "@ + e,
                        )
                    },
                    Ok(_) => true,
                }
            },
        },
{
    let m = mcp_message(value@, strict);
    if let MessageView::Invalid(text) = m {
        assert(Seq::<char>::empty() + text =~= text);
    }
    if let MessageView::Refused(reasons) = m {
        let text = choose|text: Seq<char>| #[trigger]
            reasons.contains(text) && r->Err_0@ == Seq::<char>::empty() + text;
        assert(Seq::<char>::empty() + text =~= text);
    }
}

/// An MCP message without an id is a call exactly if it reads as a notification of
/// version 2.0 whose params are accepted for its method. It shows its method and nothing
/// else. The strict rule for tool names does not matter.
pub proof fn lemma_notifications(
    value: &JsonValue,
    strict: bool,
    r: Result<JsonRpcCallInfo, String>,
)
    requires
        call_ensures(parse_mcp_call, (value, strict), r),
        value@.get("id"@) is None,
    ensures
        match decoded_notification(value@) {
            Err(e) => refused_for(r, "invalid MCP notification: "@ + e),
            Ok(frame) => if frame.jsonrpc != "2.0"@ {
                refused_for(r, "unsupported JSON-RPC version '"@ + frame.jsonrpc + "'"@)
            } else {
                match notification_fault(frame.method, frame.params) {
                    Some(e) => refused_for(r, "invalid MCP notification params: "@ + e),
                    None => r matches Ok(call) && shows(call, frame.method, None),
                }
            },
        },
{
    if let MessageView::Invalid(text) = mcp_message(value@, strict) {
        assert(Seq::<char>::empty() + text =~= text);
    }
}

/// In MCP mode a message of version 2.0 with a method and without an outcome is what
/// reading it as an MCP message makes of it; where the reason for a refusal is not
/// settled, both are refused.
pub proof fn lemma_mcp_mode(
    value: &JsonValue,
    options: JsonRpcInspectionOptions,
    as_message: Result<JsonRpcMessageInfo, String>,
    as_call: Result<JsonRpcCallInfo, String>,
    as_mcp: Result<JsonRpcCallInfo, String>,
)
    requires
        call_ensures(parse_jsonrpc_message, (value, options), as_message),
        call_ensures(parse_jsonrpc_call, (value, options), as_call),
        call_ensures(parse_mcp_call, (value, options.mcp_strict_tool_names), as_mcp),
        options.mode == JsonRpcInspectionMode::Mcp,
        value@.get("jsonrpc"@) == Some(JsonView::String("2.0"@)),
        value@.get("method"@) is Some,
        value@.get("result"@) is None,
        value@.get("error"@) is None,
    ensures
        match as_mcp {
            Ok(call) => {
                &&& as_message matches Ok(JsonRpcMessageInfo::Call(c)) && c@ == call@
                &&& as_call matches Ok(c) && c@ == call@
            },
            Err(e) => {
                &&& as_message is Err
                &&& as_call is Err
                &&& !(mcp_message(value@, options.mcp_strict_tool_names) is Refused)
                    ==> refused_for(as_message, e@) && refused_for(as_call, e@)
            },
        },
{
}

/// Whether an outcome is that of a body that is not let through: nothing but a reason.
pub open spec fn nothing_but_reason(info: JsonRpcRequestInfo) -> bool {
    &&& info.error is Some
    &&& info.calls@.len() == 0
    &&& !info.has_response
    &&& !info.receive_stream
}

/// Bytes that are no JSON text, and a batch without messages, are refused.
pub proof fn lemma_nothing_to_inspect(
    parsed: Option<JsonValue>,
    options: JsonRpcInspectionOptions,
    info: JsonRpcRequestInfo,
)
    requires
        call_ensures(inspect_json, (parsed, options), info),
    ensures
        parsed is None ==> {
            &&& nothing_but_reason(info)
            &&& !info.is_batch
            &&& info@.error == Some("invalid JSON"@)
        },
        parsed matches Some(value) && value@ == JsonView::Array(Seq::empty()) ==> {
            &&& nothing_but_reason(info)
            &&& info.is_batch
            &&& info@.error == Some("empty batch"@)
        },
{
}

/// A body that is no batch is what its one message is: a call, a response, or refused
/// for the reason for which the message is; where that reason is not settled, refused.
pub proof fn lemma_single_message(
    value: JsonValue,
    options: JsonRpcInspectionOptions,
    info: JsonRpcRequestInfo,
    r: Result<JsonRpcMessageInfo, String>,
)
    requires
        call_ensures(inspect_json, (Some(value), options), info),
        call_ensures(parse_jsonrpc_message, (&value, options), r),
        !(value@ is Array),
    ensures
        !info.is_batch,
        !info.receive_stream,
        match r {
            Ok(JsonRpcMessageInfo::Call(call)) => {
                &&& info.error is None
                &&& info@.calls == seq![call@]
                &&& !info.has_response
            },
            Ok(JsonRpcMessageInfo::Response) => {
                &&& info.error is None
                &&& info.calls@.len() == 0
                &&& info.has_response
            },
            Err(e) => {
                &&& nothing_but_reason(info)
                &&& !(message(value@, options) is Refused) ==> info@.error == Some(e@)
            },
        },
{
    lemma_single(info, value@, options);
    assert(info@.calls.len() == info.calls@.len());
    if let Err(e) = r {
        if let MessageView::Invalid(text) = message(value@, options) {
            assert(Seq::<char>::empty() + text =~= text);
        }
        assert(!passes(value@, options));
    }
}

/// A body is inspected as the JSON value that it is the text of.
pub proof fn lemma_body_is_its_value(
    body: &[u8],
    value: JsonValue,
    options: JsonRpcInspectionOptions,
    of_body: JsonRpcRequestInfo,
    of_value: JsonRpcRequestInfo,
)
    requires
        call_ensures(parse_jsonrpc_body_with_options, (body, options), of_body),
        call_ensures(inspect_json, (Some(value), options), of_value),
        parsed_json(body@) == Some(value@),
    ensures
        (InfoView { error: None, ..of_body@ }) == (InfoView { error: None, ..of_value@ }),
        of_body.error is None <==> of_value.error is None,
        !unsettled_refusal(Some(value@), options) ==> of_body@ == of_value@,
{
    lemma_outcome_is_determined(of_body, of_value, Some(value@), options);
}

/// The options of an endpoint: MCP messages are checked for MCP endpoints and for no
/// others, and tool names are held to the strict rule where the endpoint says so.
pub proof fn lemma_endpoint_options(config: &L7EndpointConfig, r: JsonRpcInspectionOptions)
    requires
        call_ensures(JsonRpcInspectionOptions::for_config, (config,), r),
    ensures
        r.mode == JsonRpcInspectionMode::Mcp <==> config.protocol == L7Protocol::Mcp,
        r.mcp_strict_tool_names <==> config.mcp_strict_tool_names,
{
}

/// Inspecting a request does not change it, and says of it what its body holds.
pub proof fn lemma_inspected_request(
    request: L7Request,
    body: &[u8],
    options: JsonRpcInspectionOptions,
    r: JsonRpcHttpRequest,
    of_body: JsonRpcRequestInfo,
)
    requires
        call_ensures(finish_jsonrpc_http_request, (request, body, options), r),
        call_ensures(parse_jsonrpc_body_with_options, (body, options), of_body),
    ensures
        r.request == request,
        r.info.error is None <==> of_body.error is None,
        !unsettled_refusal(parsed_json(body@), options) ==> r.info@ == of_body@,
{
    lemma_outcome_is_determined(r.info, of_body, parsed_json(body@), options);
}

/// Without further settings tool names are held to the strict rule.
pub proof fn lemma_mode_is_strict(
    body: &[u8],
    mode: JsonRpcInspectionMode,
    by_mode: JsonRpcRequestInfo,
    by_options: JsonRpcRequestInfo,
)
    requires
        call_ensures(parse_jsonrpc_body, (body, mode), by_mode),
        call_ensures(
            parse_jsonrpc_body_with_options,
            (body, JsonRpcInspectionOptions { mode, mcp_strict_tool_names: true }),
            by_options,
        ),
    ensures
        by_mode.error is None <==> by_options.error is None,
        !unsettled_refusal(
            parsed_json(body@),
            JsonRpcInspectionOptions { mode, mcp_strict_tool_names: true },
        ) ==> by_mode@ == by_options@,
{
    lemma_outcome_is_determined(
        by_mode,
        by_options,
        parsed_json(body@),
        JsonRpcInspectionOptions { mode, mcp_strict_tool_names: true },
    );
}

/// What becomes of a request follows from what it was read as: params that were refused
/// are refused, and what was accepted is a call, unless strict names are on and the tool it
/// names is against the rule.
pub proof fn lemma_read_requests(
    typed: Result<McpRequestInfo, String>,
    strict: bool,
    r: Result<JsonRpcCallInfo, String>,
)
    requires
        call_ensures(mcp_request_call, (typed, strict), r),
    ensures
        typed matches Err(e) ==> refused_for(r, "invalid MCP request params: "@ + e@),
        typed matches Ok(request) ==> {
            &&& r is Err <==> match request.params {
                McpRequestParams::CallTool { name } => strict && !proper_name(name@),
                McpRequestParams::Other => false,
            }
            &&& r matches Ok(call) ==> match request.params {
                McpRequestParams::CallTool { name } => shows(call, request.method@, Some(name@)),
                McpRequestParams::Other => shows(call, request.method@, None),
            }
        },
{
    match typed {
        Err(e) => {
            let text = "invalid MCP request params: "@ + e@;
            assert(Seq::<char>::empty() + text =~= text);
        },
        Ok(request) => {
            if let McpRequestParams::CallTool { name } = request.params {
                lemma_valid_names(name@);
            }
            if let Ok(call) = r {
                assert(call.params@ =~= shown_params(request@.tool));
            }
        },
    }
}

/// The tool of a request is the one that it calls, and policy gets to see its name and
/// nothing else.
pub proof fn lemma_shown_tool(
    request: &McpRequestInfo,
    tool: Option<String>,
    name: Option<&str>,
    params: StringMap,
)
    requires
        call_ensures(mcp_tool_name, (request,), tool),
        call_ensures(mcp_policy_params, (name,), params),
    ensures
        match request.params {
            McpRequestParams::CallTool { name } => tool matches Some(t) && t@ == name@,
            McpRequestParams::Other => tool is None,
        },
        params@ == shown_params(
            match name {
                Some(n) => Some(n@),
                None => None,
            },
        ),
{
    assert(params@ =~= shown_params(
        match name {
            Some(n) => Some(n@),
            None => None,
        },
    ));
}

/// A value holds an outcome exactly if it has a `result` or an `error`, and has a text
/// exactly if it is a string.
pub proof fn lemma_outcomes_and_texts(value: &JsonValue, outcome: bool, text: Option<&str>)
    requires
        call_ensures(jsonrpc_response_payload_present, (value,), outcome),
        call_ensures(JsonValue::as_str, (value,), text),
    ensures
        outcome <==> value@.get("result"@) is Some || value@.get("error"@) is Some,
        match text {
            Some(t) => value@ == JsonView::String(t@),
            None => !(value@ is String),
        },
{
}

/// The calls among the first `n` results, in order.
pub open spec fn calls_of(results: Seq<Result<JsonRpcMessageInfo, String>>, n: int) -> Seq<CallView>
    decreases n,
{
    if n <= 0 {
        Seq::empty()
    } else {
        match results[n - 1] {
            Ok(JsonRpcMessageInfo::Call(call)) => calls_of(results, n - 1).push(call@),
            _ => calls_of(results, n - 1),
        }
    }
}

/// Whether `results` are what the messages of a batch are read as, one by one.
pub open spec fn read_one_by_one(
    items: Seq<JsonValue>,
    options: JsonRpcInspectionOptions,
    results: Seq<Result<JsonRpcMessageInfo, String>>,
) -> bool {
    &&& results.len() == items.len()
    &&& forall|i: int|
        0 <= i < items.len() ==> call_ensures(
            parse_jsonrpc_message,
            (&#[trigger] items[i], options),
            results[i],
        )
}

proof fn lemma_calls_of(
    items: Seq<JsonValue>,
    all: Seq<JsonView>,
    options: JsonRpcInspectionOptions,
    results: Seq<Result<JsonRpcMessageInfo, String>>,
    n: int,
)
    requires
        read_one_by_one(items, options, results),
        all.len() == items.len(),
        forall|i: int| 0 <= i < items.len() ==> (#[trigger] items[i])@ == all[i],
        0 <= n <= items.len(),
    ensures
        calls_of(results, n) == calls_among(all, n, options),
    decreases n,
{
    if n > 0 {
        lemma_calls_of(items, all, options, results, n - 1);
        let item = items[n - 1];
        assert(call_ensures(parse_jsonrpc_message, (&item, options), results[n - 1]));
        assert(item@ == all[n - 1]);
    }
}

/// A batch of any size is its messages, each read by itself: where all of them are let
/// through, it has their calls in order, and a response if one of them is one. Otherwise it
/// is refused as its first message that is not let through is, behind a prefix.
pub proof fn lemma_batches(
    items: Vec<JsonValue>,
    options: JsonRpcInspectionOptions,
    results: Seq<Result<JsonRpcMessageInfo, String>>,
    info: JsonRpcRequestInfo,
)
    requires
        items@.len() > 0,
        call_ensures(inspect_json, (Some(JsonValue::Array(items)), options), info),
        read_one_by_one(items@, options, results),
    ensures
        info.is_batch,
        !info.receive_stream,
        info.error is None <==> forall|i: int|
            0 <= i < results.len() ==> (#[trigger] results[i]) is Ok,
        info.error is None ==> {
            &&& info@.calls == calls_of(results, results.len() as int)
            &&& info.has_response <==> exists|i: int|
                0 <= i < results.len() && (#[trigger] results[i]) matches Ok(
                    JsonRpcMessageInfo::Response,
                )
        },
        info.error is Some ==> nothing_but_reason(info),
        forall|i: int|
            0 <= i < results.len() && (#[trigger] results[i]) is Err && (forall|k: int|
                0 <= k < i ==> (#[trigger] results[k]) is Ok) && !(message(items@[i]@, options)
                is Refused) ==> info@.error == Some("batch item invalid: "@ + results[i]->Err_0@),
{
    let value = JsonValue::Array(items);
    let all = messages(value@);
    let n = all.len() as int;
    assert(all.len() == items@.len());
    assert forall|i: int| 0 <= i < items@.len() implies (#[trigger] items@[i])@ == all[i] by {}
    assert forall|i: int| 0 <= i < n implies (#[trigger] results[i] is Ok <==> passes(
        all[i],
        options,
    )) && (results[i] matches Ok(JsonRpcMessageInfo::Response) <==> message(all[i], options)
        is Response) by {
        let item = items@[i];
        assert(call_ensures(parse_jsonrpc_message, (&item, options), results[i]));
    }
    lemma_first_invalid(all, 0, options);
    lemma_calls_of(items@, all, options, results, n);
    match first_invalid(all, 0, options) {
        None => {
            assert forall|i: int| 0 <= i < results.len() implies (#[trigger] results[i]) is Ok by {
                assert(passes(all[i], options));
            }
            if response_among(all, n, options) {
                let i = choose|i: int|
                    0 <= i < n && #[trigger] message(all[i], options) is Response;
                assert(results[i] matches Ok(JsonRpcMessageInfo::Response));
            }
            if exists|i: int|
                0 <= i < results.len() && (#[trigger] results[i]) matches Ok(
                    JsonRpcMessageInfo::Response,
                ) {
                let i = choose|i: int|
                    0 <= i < results.len() && (#[trigger] results[i]) matches Ok(
                        JsonRpcMessageInfo::Response,
                    );
                assert(message(all[i], options) is Response);
            }
        },
        Some(f) => {
            assert(!(results[f] is Ok));
            assert forall|i: int|
                0 <= i < results.len() && (#[trigger] results[i]) is Err && (forall|k: int|
                    0 <= k < i ==> (#[trigger] results[k]) is Ok) && !(message(
                    items@[i]@,
                    options,
                ) is Refused) implies info@.error == Some(
                "batch item invalid: "@ + results[i]->Err_0@,
            ) by {
                assert(i == f) by {
                    if f < i {
                        assert(results[f] is Ok);
                    } else if i < f {
                        assert(passes(all[i], options));
                    }
                }
                let item = items@[i];
                assert(call_ensures(parse_jsonrpc_message, (&item, options), results[i]));
                assert(items@[i]@ == all[i]);
                if let MessageView::Invalid(text) = message(all[i], options) {
                    assert(Seq::<char>::empty() + text =~= text);
                }
            }
        },
    }
}

/// The mode of a protocol: MCP messages are checked for MCP and for nothing else.
pub proof fn lemma_protocol_modes(protocol: L7Protocol, r: JsonRpcInspectionMode)
    requires
        call_ensures(JsonRpcInspectionMode::for_protocol, (protocol,), r),
    ensures
        r == JsonRpcInspectionMode::Mcp <==> protocol == L7Protocol::Mcp,
{
}

/// A value stands for what it is made of: its kind, its text, its items and its members in
/// order.
pub proof fn lemma_values(value: JsonValue)
    ensures
        match value {
            JsonValue::Null => value@ == JsonView::Null,
            JsonValue::Bool(b) => value@ == JsonView::Bool(b),
            JsonValue::Number(n) => value@ == JsonView::Number(n@),
            JsonValue::String(s) => value@ == JsonView::String(s@),
            JsonValue::Array(items) => value@ matches JsonView::Array(all) && all.len()
                == items@.len() && forall|i: int|
                0 <= i < items@.len() ==> #[trigger] all[i] == items@[i]@,
            JsonValue::Object(members) => value@ matches JsonView::Object(all) && all.len()
                == members@.len() && forall|i: int|
                0 <= i < members@.len() ==> #[trigger] all[i] == (
                    members@[i].0@,
                    members@[i].1@,
                ),
        },
{
}

/// An outcome stands for its calls in order, and a call for its method, params and tool.
pub proof fn lemma_outcomes(info: JsonRpcRequestInfo, call: JsonRpcCallInfo)
    ensures
        info@.calls.len() == info.calls@.len(),
        forall|i: int| 0 <= i < info.calls@.len() ==> #[trigger] info@.calls[i] == info.calls@[i]@,
        info@.is_batch == info.is_batch,
        info@.receive_stream == info.receive_stream,
        info@.has_response == info.has_response,
        match info.error {
            Some(e) => info@.error == Some(e@),
            None => info@.error is None,
        },
        call@.method == call.method@,
        call@.params == call.params@,
        match call.tool {
            Some(name) => call@.tool == Some(name@),
            None => call@.tool is None,
        },
{
}

/// Why params are refused is settled wherever they are no list and hold neither metadata
/// nor capabilities. Where it is not, all reasons that may be given are of one kind.
pub proof fn lemma_settled_reasons(method: Seq<char>, params: Option<JsonView>)
    ensures
        (match params {
            Some(v) => !(v is Array) && v.get("_meta"@) is None && v.get("capabilities"@) is None,
            None => true,
        }) ==> refusal_doubts(method, params) is None,
        refusal_doubts(method, params) matches Some(reasons) ==> forall|text: Seq<char>| #[trigger]
            reasons.contains(text) ==> "Serialization error: "@.is_prefix_of(text),
{
    let extensions = listed_extensions(method, params);
    if (match params {
        Some(v) => !(v is Array) && v.get("_meta"@) is None && v.get("capabilities"@) is None,
        None => true,
    }) {
        assert(extensions is Null);
        assert forall|a: Seq<char>| !#[trigger] faulty_extension(extensions, a) by {}
    }
}

} // verus!
