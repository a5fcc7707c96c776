//! MCP messages: typed reading of requests and notifications, which
//! `tower_mcp_types` does, and what policy gets to see of a call.

use vstd::prelude::*;
use vstd::string::*;
use tower_mcp_types::protocol::{
    JsonRpcNotification, JsonRpcRequest, McpNotification, McpRequest, RequestId, JSONRPC_VERSION,
};
use crate::http_error::quoted;
use crate::json::{json_from_value, json_to_value, JsonValue, JsonView};
use crate::string_map::StringMap;
use crate::text::{chars_of, decimal, first_index, split};

verus! {

/// The parts of a JSON-RPC request or notification that its method and params
/// are checked by.
#[derive(Debug, PartialEq, Eq)]
pub struct McpFrame {
    pub jsonrpc: String,
    pub method: String,
    pub params: Option<JsonValue>,
}

/// An [`McpFrame`] as a mathematical value.
pub struct McpFrameView {
    pub jsonrpc: Seq<char>,
    pub method: Seq<char>,
    pub params: Option<JsonView>,
}

/// The view of optional params.
pub open spec fn params_view(params: Option<JsonValue>) -> Option<JsonView> {
    match params {
        Some(v) => Some(v@),
        None => None,
    }
}

impl McpFrame {
    pub open spec fn view(&self) -> McpFrameView {
        McpFrameView {
            jsonrpc: self.jsonrpc@,
            method: self.method@,
            params: params_view(self.params),
        }
    }
}

/// The params of an MCP request as far as policy looks at them.
#[derive(Debug, PartialEq, Eq)]
pub enum McpRequestParams {
    /// `tools/call` of the tool with this name.
    CallTool { name: String },
    /// Any other request.
    Other,
}

/// An MCP request whose params have been checked.
#[derive(Debug, PartialEq, Eq)]
pub struct McpRequestInfo {
    pub method: String,
    pub params: McpRequestParams,
}

/// An [`McpRequestInfo`] as a mathematical value.
pub struct McpRequestView {
    pub method: Seq<char>,
    pub tool: Option<Seq<char>>,
}

impl McpRequestInfo {
    pub open spec fn view(&self) -> McpRequestView {
        McpRequestView {
            method: self.method@,
            tool: match self.params {
                McpRequestParams::CallTool { name } => Some(name@),
                McpRequestParams::Other => None,
            },
        }
    }
}

/// The text of the member `key` of optional params, where it is a string.
pub open spec fn param_str(params: Option<JsonView>, key: Seq<char>) -> Option<Seq<char>> {
    match params {
        Some(v) => v.get_str(key),
        None => None,
    }
}

/// Whether optional params are an object with a member `key`.
pub open spec fn has_param(params: Option<JsonView>, key: Seq<char>) -> bool {
    params matches Some(v) && v.get(key) is Some
}

/// The tool that the params of a `tools/call` name: their member `name`, or the
/// first item where they are a list.
pub open spec fn named_tool(params: Option<JsonView>) -> Option<Seq<char>> {
    match params {
        Some(JsonView::Array(items)) => if items.len() > 0 {
            items[0].as_str()
        } else {
            None
        },
        _ => param_str(params, "name"@),
    }
}

/// The field `name` of a value that stands for a record: a member of an object, or
/// the item at `position` of a list.
pub open spec fn field(value: JsonView, name: Seq<char>, position: int) -> Option<JsonView> {
    match value {
        JsonView::Array(items) => if position < items.len() {
            Some(items[position])
        } else {
            None
        },
        _ => value.get(name),
    }
}

/// Where the metadata stands in the params of a request that are a list.
pub open spec fn meta_position(method: Seq<char>) -> int {
    if method == "tools/call"@ || method == "prompts/get"@ {
        4
    } else if method == "resources/read"@ {
        3
    } else if method == "tasks/update"@ || method == "tasks/cancel"@ {
        2
    } else {
        1
    }
}

/// The client capabilities that a request carries: `initialize` among its params,
/// completion requests not at all, others in their metadata.
pub open spec fn client_capabilities(method: Seq<char>, params: Option<JsonView>) -> Option<
    JsonView,
> {
    match params {
        None => None,
        Some(v) => if method == "initialize"@ {
            field(v, "capabilities"@, 1)
        } else if method == "completion/complete"@ {
            None
        } else {
            match field(v, "_meta"@, meta_position(method)) {
                Some(meta) => meta.get("io.modelcontextprotocol/clientCapabilities"@),
                None => None,
            }
        },
    }
}

/// The extensions that the client capabilities of a request list.
pub open spec fn listed_extensions(method: Seq<char>, params: Option<JsonView>) -> JsonView {
    match client_capabilities(method, params) {
        Some(capabilities) => match field(capabilities, "extensions"@, 5) {
            Some(extensions) => extensions,
            None => JsonView::Null,
        },
        None => JsonView::Null,
    }
}

/// An ASCII letter or digit.
pub open spec fn letter_or_digit(c: char) -> bool {
    'A' <= c <= 'Z' || 'a' <= c <= 'z' || '0' <= c <= '9'
}

/// Whether a label may stand in the prefix of an extension identifier.
pub open spec fn prefix_label(label: Seq<char>) -> bool {
    &&& label.len() > 0
    &&& letter_or_digit(label[0]) && !('0' <= label[0] <= '9')
    &&& letter_or_digit(label.last())
    &&& forall|i: int|
        0 <= i < label.len() ==> letter_or_digit(#[trigger] label[i]) || label[i] == '-'
}

/// Whether a name may stand behind the prefix of an extension identifier.
pub open spec fn extension_name(name: Seq<char>) -> bool {
    name.len() > 0 ==> {
        &&& letter_or_digit(name[0])
        &&& letter_or_digit(name.last())
        &&& forall|i: int|
            0 <= i < name.len() ==> letter_or_digit(#[trigger] name[i]) || name[i] == '-' || name[i]
                == '_' || name[i] == '.'
    }
}

/// What is wrong with an extension, if anything is: its identifier needs a prefix
/// of labels with full stops between them and a slash behind, and its settings are
/// an object.
pub open spec fn extension_fault(identifier: Seq<char>, settings: JsonView) -> Option<Seq<char>> {
    let slash = first_index(identifier, '/');
    let labels = split(identifier.take(slash), '.');
    if slash >= identifier.len() {
        Some("extension identifier "@ + quoted(identifier) + " requires a prefix"@)
    } else if exists|i: int| 0 <= i < labels.len() && !prefix_label(#[trigger] labels[i]) {
        Some("metadata key "@ + quoted(identifier) + " has an invalid prefix"@)
    } else if !extension_name(identifier.skip(slash + 1)) {
        Some("metadata key "@ + quoted(identifier) + " has an invalid name"@)
    } else if !(settings is Object) {
        Some("extension "@ + quoted(identifier) + " settings must be a JSON object"@)
    } else {
        None
    }
}

/// Whether `identifier` is among the extensions and faulty.
pub open spec fn faulty_extension(extensions: JsonView, identifier: Seq<char>) -> bool {
    extensions.get(identifier) matches Some(settings) && extension_fault(identifier, settings)
        is Some
}

/// The message that says that the extension `identifier` is faulty.
pub open spec fn fault_message(extensions: JsonView, identifier: Seq<char>) -> Seq<char> {
    "Serialization error: "@ + extension_fault(identifier, extensions.get(identifier)->0)->0
}

/// The messages of which any one may be given where the params of a request are
/// refused: two extensions or more are faulty, and a hash map yields one of them
/// first. There are none where at most one is faulty.
pub open spec fn refusal_doubts(method: Seq<char>, params: Option<JsonView>) -> Option<
    Set<Seq<char>>,
> {
    let extensions = listed_extensions(method, params);
    if exists|a: Seq<char>, b: Seq<char>|
        a != b && #[trigger] faulty_extension(extensions, a) && #[trigger] faulty_extension(
            extensions,
            b,
        ) {
        Some(
            Set::new(
                |text: Seq<char>|
                    exists|a: Seq<char>| #[trigger]
                        faulty_extension(extensions, a) && text == fault_message(extensions, a),
            ),
        )
    } else {
        None
    }
}

/// Whether `frame` holds the version, the method and, as far as member names, texts,
/// the tool they name and their extensions go, the params of the object `value`.
pub open spec fn frames(value: JsonView, frame: McpFrameView) -> bool {
    &&& value.get_str("jsonrpc"@) == Some(frame.jsonrpc)
    &&& value.get_str("method"@) == Some(frame.method)
    &&& named_tool(frame.params) == named_tool(value.get("params"@))
    &&& refusal_doubts(frame.method, frame.params) == refusal_doubts(
        frame.method,
        value.get("params"@),
    )
    &&& forall|key: Seq<char>| #[trigger]
        has_param(frame.params, key) == has_param(value.get("params"@), key)
    &&& forall|key: Seq<char>| #[trigger]
        param_str(frame.params, key) == param_str(value.get("params"@), key)
}

/// Whether a request id is a text or a number of the kind `1`, `2`, `3`.
pub open spec fn plain_id(id: Option<JsonView>) -> bool {
    match id {
        Some(JsonView::String(_)) => true,
        Some(JsonView::Number(text)) => exists|n: nat|
            n <= i64::MAX && text == #[trigger] decimal(n),
        _ => false,
    }
}

/// Whether params name a tool and hold nothing that depends on the version of
/// the protocol.
pub open spec fn plain_tool_call(params: Option<JsonView>) -> bool {
    &&& param_str(params, "name"@) is Some
    &&& !has_param(params, "inputResponses"@)
    &&& !has_param(params, "requestState"@)
    &&& !has_param(params, "_meta"@)
    &&& !has_param(params, "task"@)
}

/// The methods whose params can be refused. Those of any other method are let
/// through unchecked.
pub open spec fn params_checked(method: Seq<char>) -> bool {
    ||| method == "initialize"@
    ||| method == "tools/call"@
    ||| method == "resources/read"@
    ||| method == "resources/subscribe"@
    ||| method == "resources/unsubscribe"@
    ||| method == "prompts/get"@
    ||| method == "tasks/get"@
    ||| method == "tasks/update"@
    ||| method == "tasks/cancel"@
    ||| method == "logging/setLevel"@
    ||| method == "completion/complete"@
}

/// The version that every message has to carry, `JSONRPC_VERSION` of
/// `tower_mcp_types`.
#[verifier::external_body]
pub(crate) fn jsonrpc_version() -> (r: &'static str)
    ensures
        r@ == "2.0"@,
{
    JSONRPC_VERSION
}

/// What a JSON value reads as when a request is expected: its frame, or the
/// message that says why it is none.
pub uninterp spec fn decoded_request(value: JsonView) -> Result<McpFrameView, Seq<char>>;

/// Reads a request with `serde_json::from_value` into a `JsonRpcRequest`. The
/// result depends on the value alone, and the name [`decoded_request`] stands
/// for it. Of an object this much is stated besides: what is read agrees with
/// the members of the object, and an object with texts for version and method
/// and a plain id is always read.
#[verifier::external_body]
pub(crate) fn decode_request(value: &JsonValue) -> (r: Result<McpFrame, String>)
    ensures
        match r {
            Ok(frame) => decoded_request(value@) == Ok::<McpFrameView, Seq<char>>(frame@),
            Err(e) => decoded_request(value@) == Err::<McpFrameView, Seq<char>>(e@),
        },
        value@ is Object && r is Ok ==> frames(value@, (r->Ok_0)@),
        value@.get_str("jsonrpc"@) is Some && value@.get_str("method"@) is Some && plain_id(
            value@.get("id"@),
        ) ==> r is Ok,
{
    let request: JsonRpcRequest = serde_json::from_value(json_to_value(value)).map_err(
        |e| e.to_string(),
    )?;
    Ok(
        McpFrame {
            jsonrpc: request.jsonrpc,
            method: request.method,
            params: request.params.map(json_from_value),
        },
    )
}

/// The error that a request of a version other than the right one is refused with,
/// in its `Debug` form.
pub open spec fn version_fault(version: Seq<char>) -> Seq<char> {
    "JsonRpcError { code: -32600, message: "@ + quoted(
        "Invalid JSON-RPC version: expected '2.0', got '"@ + version + "'"@,
    ) + ", data: None }"@
}

/// Calls `JsonRpcRequest::validate`, which looks at the version alone and, where it
/// is not the right one, gives an invalid-request error whose message names both.
/// The id takes no part in it and is set to zero.
#[verifier::external_body]
pub(crate) fn validate_request(frame: &McpFrame) -> (r: Result<(), String>)
    ensures
        match r {
            Ok(()) => frame.jsonrpc@ == "2.0"@,
            Err(e) => frame.jsonrpc@ != "2.0"@ && e@ == version_fault(frame.jsonrpc@),
        },
{
    let mut request = JsonRpcRequest::new(RequestId::Number(0), frame.method.clone());
    request.jsonrpc = frame.jsonrpc.clone();
    request.validate().map_err(|e| format!("{e:?}"))
}

/// What a request with this method and these params is read as: what policy gets
/// to see of it, or the message that says why its params are refused. Where any one
/// of several messages may be given, it is one of them.
pub uninterp spec fn typed_request(method: Seq<char>, params: Option<JsonView>) -> Result<
    McpRequestView,
    Seq<char>,
>;

/// Calls `McpRequest::from_jsonrpc`, which checks the params by the method; its
/// id takes no part in it and is set to zero. Whether the params are let through
/// depends on method and params alone, and the name [`typed_request`] stands for
/// the result. It keeps the method, it yields a tool for `tools/call` and for
/// nothing else, that tool is the one that the params name, it refuses params of
/// certain methods only, and it lets a plain `tools/call` through. The text of an
/// error depends on method and params alone too, unless it is about the extensions
/// that client capabilities list and two of them or more are faulty: it can then be
/// that of any one of them, in the order in which a hash map yields them, and which
/// one is not said.
#[verifier::external_body]
pub(crate) fn type_request(frame: &McpFrame) -> (r: Result<McpRequestInfo, String>)
    ensures
        match r {
            Ok(info) => typed_request(frame@.method, frame@.params) == Ok::<
                McpRequestView,
                Seq<char>,
            >(info@),
            Err(e) => typed_request(frame@.method, frame@.params) matches Err(text) && (text == e@
                || (refusal_doubts(frame@.method, frame@.params) matches Some(messages)
                && messages.contains(text) && messages.contains(e@))),
        },
        r matches Ok(info) ==> {
            &&& info@.method == frame@.method
            &&& info@.tool is Some <==> frame@.method == "tools/call"@
            &&& info@.tool is Some ==> info@.tool == named_tool(frame@.params)
        },
        !params_checked(frame@.method) ==> r is Ok,
        frame@.method == "tools/call"@ && plain_tool_call(frame@.params) ==> r is Ok,
{
    let mut request = JsonRpcRequest::new(RequestId::Number(0), frame.method.clone());
    request.params = frame.params.as_ref().map(json_to_value);
    let typed = McpRequest::from_jsonrpc(&request).map_err(|e| e.to_string())?;
    let method = typed.method_name().to_string();
    let params = match typed {
        McpRequest::CallTool(call) => McpRequestParams::CallTool { name: call.name },
        _ => McpRequestParams::Other,
    };
    Ok(McpRequestInfo { method, params })
}

/// What a JSON value reads as when a notification is expected: its frame, or the
/// message that says why it is none.
pub uninterp spec fn decoded_notification(value: JsonView) -> Result<McpFrameView, Seq<char>>;

/// Reads a notification with `serde_json::from_value` into a
/// `JsonRpcNotification`. The result depends on the value alone, and the name
/// [`decoded_notification`] stands for it. Of an object this much is stated
/// besides: what is read agrees with the members of the object, and an object
/// with texts for version and method is always read.
#[verifier::external_body]
pub(crate) fn decode_notification(value: &JsonValue) -> (r: Result<McpFrame, String>)
    ensures
        match r {
            Ok(frame) => decoded_notification(value@) == Ok::<McpFrameView, Seq<char>>(frame@),
            Err(e) => decoded_notification(value@) == Err::<McpFrameView, Seq<char>>(e@),
        },
        value@ is Object && r is Ok ==> frames(value@, (r->Ok_0)@),
        value@.get_str("jsonrpc"@) is Some && value@.get_str("method"@) is Some ==> r is Ok,
{
    let notification: JsonRpcNotification = serde_json::from_value(json_to_value(value)).map_err(
        |e| e.to_string(),
    )?;
    Ok(
        McpFrame {
            jsonrpc: notification.jsonrpc,
            method: notification.method,
            params: notification.params.map(json_from_value),
        },
    )
}

/// The message that says why a notification with this method and these params is
/// not let through, where it is not.
pub uninterp spec fn notification_fault(method: Seq<char>, params: Option<JsonView>) -> Option<
    Seq<char>,
>;

/// Calls `McpNotification::from_jsonrpc`, which checks the params by the method.
/// The result depends on these alone, and the name [`notification_fault`] stands
/// for it. Only two methods have params that can be refused.
#[verifier::external_body]
pub(crate) fn check_notification(frame: &McpFrame) -> (r: Result<(), String>)
    ensures
        match r {
            Ok(()) => notification_fault(frame@.method, frame@.params) is None,
            Err(e) => notification_fault(frame@.method, frame@.params) == Some(e@),
        },
        frame@.method != "notifications/cancelled"@ && frame@.method != "notifications/progress"@
            ==> r is Ok,
{
    let mut notification = JsonRpcNotification::new(frame.method.clone());
    notification.params = frame.params.as_ref().map(json_to_value);
    McpNotification::from_jsonrpc(&notification).map(|_| ()).map_err(|e| e.to_string())
}

/// A character that a tool name may hold under the strict rule.
pub open spec fn tool_name_char(c: char) -> bool {
    ||| 'A' <= c <= 'Z'
    ||| 'a' <= c <= 'z'
    ||| '0' <= c <= '9'
    ||| c == '_'
    ||| c == '.'
    ||| c == '-'
}

/// Whether a tool name is one that the strict rule lets through:
/// `^[A-Za-z0-9_.-]{1,128}$`.
pub open spec fn valid_tool_name(name: Seq<char>) -> bool {
    &&& 1 <= name.len() <= 128
    &&& forall|i: int| 0 <= i < name.len() ==> tool_name_char(#[trigger] name[i])
}

/// The message for a tool name that the strict rule refuses.
pub open spec fn tool_name_fault() -> Seq<char> {
    "MCP tool name must match ^[A-Za-z0-9_.-]{1,128}$ when strict_tool_names is enabled"@
}

/// Checks a tool name against the strict rule.
pub fn validate_mcp_tool_name(name: &str) -> (r: Result<(), String>)
    ensures
        match r {
            Ok(()) => valid_tool_name(name@),
            Err(e) => !valid_tool_name(name@) && e@ == tool_name_fault(),
        },
{
    let chars = chars_of(name);
    let mut valid: bool = 1 <= chars.len() && chars.len() <= 128;
    let mut i: usize = 0;
    while valid && i < chars.len()
        invariant
            chars@ == name@,
            i <= chars@.len(),
            valid ==> 1 <= name@.len() <= 128 && forall|j: int|
                0 <= j < i ==> tool_name_char(#[trigger] name@[j]),
            !valid ==> !valid_tool_name(name@),
        decreases chars@.len() - i,
    {
        let c = chars[i];
        assert(c == name@[i as int]);
        valid = ('A' <= c && c <= 'Z') || ('a' <= c && c <= 'z') || ('0' <= c && c <= '9') || c
            == '_' || c == '.' || c == '-';
        i = i + 1;
    }
    if valid {
        Ok(())
    } else {
        let text =
            "MCP tool name must match ^[A-Za-z0-9_.-]{1,128}$ when strict_tool_names is enabled";
        Err(text.to_string())
    }
}

/// The tool that a request calls.
pub fn mcp_tool_name(request: &McpRequestInfo) -> (r: Option<String>)
    ensures
        match r {
            Some(name) => request@.tool == Some(name@),
            None => request@.tool is None,
        },
{
    match &request.params {
        McpRequestParams::CallTool { name } => Some(name.clone()),
        McpRequestParams::Other => None,
    }
}

/// The params that policy gets to see: the name of the called tool, if any.
pub open spec fn policy_params(tool: Option<Seq<char>>) -> Map<Seq<char>, Seq<char>> {
    match tool {
        Some(name) => map!["name"@ => name],
        None => Map::empty(),
    }
}

/// The params that policy gets to see.
pub fn mcp_policy_params(tool: Option<&str>) -> (r: StringMap)
    ensures
        r@ == policy_params(
            match tool {
                Some(name) => Some(name@),
                None => None,
            },
        ),
{
    let mut params = StringMap::new();
    if let Some(tool) = tool {
        params.insert_if_absent("name".to_string(), tool.to_string());
        assert(params@ == map!["name"@ => tool@]);
    }
    params
}

} // verus!
