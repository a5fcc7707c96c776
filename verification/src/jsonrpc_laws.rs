//! What holds of the outcome of an inspection, whatever the body.

use vstd::prelude::*;
use vstd::string::*;
use crate::json::JsonView;
use crate::jsonrpc::{
    bare_call, calls_among, describes, first_invalid, mcp_facts, mcp_message, message,
    message_facts, messages, passes, reason_for, reports_call, response_among,
    strict_options, CallView, InfoView, JsonRpcCallInfo, JsonRpcInspectionMode,
    JsonRpcInspectionOptions, JsonRpcRequestInfo, MessageView,
};
use crate::mcp::{policy_params, tool_name_fault, valid_tool_name};

verus! {

pub proof fn lemma_first_invalid(items: Seq<JsonView>, from: int, options: JsonRpcInspectionOptions)
    requires
        0 <= from <= items.len(),
    ensures
        match first_invalid(items, from, options) {
            Some(i) => from <= i < items.len() && !passes(items[i], options) && forall|k: int|
                from <= k < i ==> passes(#[trigger] items[k], options),
            None => forall|k: int| from <= k < items.len() ==> passes(#[trigger] items[k], options),
        },
    decreases items.len() - from,
{
    if from < items.len() && passes(items[from], options) {
        lemma_first_invalid(items, from + 1, options);
    }
}

/// What can be seen of a call under given options: generic calls show neither
/// params nor a tool; MCP calls show the name of the tool and nothing else; and a
/// tool name has passed the strict rule where that applies.
pub open spec fn call_rule(call: CallView, options: JsonRpcInspectionOptions) -> bool {
    &&& options.mode == JsonRpcInspectionMode::JsonRpc ==> call == bare_call(call.method)
    &&& call.params == policy_params(call.tool)
    &&& options.mcp_strict_tool_names && call.tool is Some ==> valid_tool_name(call.tool->0)
}

/// Every call that is let through shows what its mode allows and no more.
pub proof fn lemma_call_rule(value: JsonView, options: JsonRpcInspectionOptions)
    ensures
        message(value, options) matches MessageView::Call(call) ==> call_rule(call, options),
{
}

proof fn lemma_calls_among(items: Seq<JsonView>, n: int, options: JsonRpcInspectionOptions)
    requires
        0 <= n <= items.len(),
    ensures
        calls_among(items, n, options).len() <= n,
        forall|k: int| 0 <= k < calls_among(items, n, options).len() ==> call_rule(
            #[trigger] calls_among(items, n, options)[k],
            options,
        ),
        (forall|k: int| 0 <= k < n ==> passes(#[trigger] items[k], options))
            && calls_among(items, n, options).len() < n ==> response_among(items, n, options),
        response_among(items, n, options) ==> calls_among(items, n, options).len() < n,
    decreases n,
{
    if n > 0 {
        lemma_calls_among(items, n - 1, options);
        lemma_call_rule(items[n - 1], options);
        let m = message(items[n - 1], options);
        if forall|k: int| 0 <= k < n ==> passes(#[trigger] items[k], options) {
            assert(passes(items[n - 1], options));
            if response_among(items, n - 1, options) {
                let k = choose|k: int|
                    0 <= k < n - 1 && #[trigger] message(items[k], options) is Response;
                assert(message(items[k], options) is Response);
            }
        }
        if response_among(items, n, options) && !(m is Response) {
            let k = choose|k: int|
                0 <= k < n && #[trigger] message(items[k], options) is Response;
            assert(message(items[k], options) is Response);
        }
    }
}

/// A body is let through exactly if it is JSON, holds a message, and every message
/// is let through: one that is not spoils the whole batch.
pub proof fn lemma_all_or_nothing(
    info: JsonRpcRequestInfo,
    value: JsonView,
    options: JsonRpcInspectionOptions,
)
    requires
        describes(info, Some(value), options),
    ensures
        info.error is None <==> messages(value).len() > 0 && forall|i: int|
            0 <= i < messages(value).len() ==> passes(#[trigger] messages(value)[i], options),
{
    lemma_first_invalid(messages(value), 0, options);
}

/// An outcome never says two things at once: a body that is not let through shows
/// no call and no response, one that is shows at least one of them, and no body
/// counts as a request for a stream. A body that is no batch shows one call or
/// one response.
pub proof fn lemma_outcome_is_coherent(
    info: JsonRpcRequestInfo,
    parsed: Option<JsonView>,
    options: JsonRpcInspectionOptions,
)
    requires
        describes(info, parsed, options),
    ensures
        !info.receive_stream,
        info.error is Some ==> info.calls@.len() == 0 && !info.has_response,
        info.error is None ==> parsed is Some && (info.calls@.len() > 0 || info.has_response),
        info.error is None && !info.is_batch ==> info.calls@.len() == (if info.has_response {
            0nat
        } else {
            1nat
        }),
        info.is_batch <==> parsed is Some && parsed->0 is Array,
        forall|k: int| 0 <= k < info.calls@.len() ==> call_rule(
            (#[trigger] info.calls@[k])@,
            options,
        ),
{
    if let Some(value) = parsed {
        let items = messages(value);
        lemma_first_invalid(items, 0, options);
        if items.len() > 0 && first_invalid(items, 0, options) is None {
            let n = items.len() as int;
            lemma_calls_among(items, n, options);
            let calls = calls_among(items, n, options);
            assert(info@.calls == calls);
            assert(info@.calls.len() == info.calls@.len());
            assert forall|k: int| 0 <= k < info.calls@.len() implies call_rule(
                (#[trigger] info.calls@[k])@,
                options,
            ) by {
                assert(info@.calls[k] == info.calls@[k]@);
                assert(call_rule(calls[k], options));
            }
            if !(value is Array) {
                assert(items.len() == 1);
            }
        }
    }
}

/// The strict rule for tool names only ever refuses: a message is read under it as
/// it is without it, unless it is a call that is let through with a tool name
/// against the rule, and then that is the reason.
pub proof fn lemma_strict_rule_only_refuses(value: JsonView, mode: JsonRpcInspectionMode)
    ensures
        ({
            let strict = JsonRpcInspectionOptions { mode, mcp_strict_tool_names: true };
            let lenient = JsonRpcInspectionOptions { mode, mcp_strict_tool_names: false };
            if message(value, lenient) matches MessageView::Call(call) && breaks_tool_rule(call) {
                message(value, strict) == MessageView::Invalid(tool_name_fault())
            } else {
                message(value, strict) == message(value, lenient)
            }
        }),
{
}

/// Whether a call names a tool against the strict rule.
pub open spec fn breaks_tool_rule(call: CallView) -> bool {
    call.tool is Some && !valid_tool_name(call.tool->0)
}

/// The view of what a call was read as.
pub open spec fn outcome_view(r: Result<JsonRpcCallInfo, String>) -> Result<CallView, Seq<char>> {
    match r {
        Ok(call) => Ok(call@),
        Err(e) => Err(e@),
    }
}

/// Strict against lenient reading of the same MCP message: the outcomes are the
/// same, unless the lenient one is a call with a tool name against the strict rule,
/// and then the strict one is the fault of that name. Where params are refused and
/// the reason is not settled, both are refused for one of the same reasons. A
/// notification, or a message with another method than
/// `tools/call`, is never refused for a tool name.
pub proof fn lemma_strict_against_lenient(
    value: JsonView,
    strict: Result<JsonRpcCallInfo, String>,
    lenient: Result<JsonRpcCallInfo, String>,
)
    requires
        reports_call(strict, mcp_message(value, true)),
        reports_call(lenient, mcp_message(value, false)),
    ensures
        if lenient matches Ok(call) && breaks_tool_rule(call@) {
            outcome_view(strict) == Err::<CallView, Seq<char>>(tool_name_fault())
        } else {
            match mcp_message(value, false) {
                MessageView::Refused(reasons) => {
                    &&& strict matches Err(e) && reasons.contains(e@)
                    &&& lenient matches Err(e) && reasons.contains(e@)
                },
                _ => outcome_view(strict) == outcome_view(lenient),
            }
        },
        value.get("id"@) is None ==> !(lenient matches Ok(call) && breaks_tool_rule(call@)),
        mcp_facts(value, false) && value.get_str("method"@) != Some("tools/call"@) ==> !(
        lenient matches Ok(call) && breaks_tool_rule(call@)),
{
    assert(Seq::<char>::empty() + tool_name_fault() =~= tool_name_fault());
    if let MessageView::Refused(reasons) = mcp_message(value, false) {
        lemma_reason_is_possible(reasons, strict->Err_0@);
        lemma_reason_is_possible(reasons, lenient->Err_0@);
    }
}

proof fn lemma_reason_is_possible(reasons: Set<Seq<char>>, e: Seq<char>)
    requires
        reason_for(e, Seq::empty(), MessageView::Refused(reasons)),
    ensures
        reasons.contains(e),
{
    let text = choose|text: Seq<char>| #[trigger]
        reasons.contains(text) && e == Seq::<char>::empty() + text;
    assert(Seq::<char>::empty() + text =~= text);
}

/// Generic inspection is looser than MCP inspection: a message that passes as MCP
/// passes as generic JSON-RPC, with the same method.
pub proof fn lemma_generic_mode_is_looser(value: JsonView, strict: bool)
    requires
        message_facts(
            value,
            JsonRpcInspectionOptions {
                mode: JsonRpcInspectionMode::Mcp,
                mcp_strict_tool_names: strict,
            },
        ),
    ensures
        ({
            let mcp = JsonRpcInspectionOptions {
                mode: JsonRpcInspectionMode::Mcp,
                mcp_strict_tool_names: strict,
            };
            let generic = JsonRpcInspectionOptions {
                mode: JsonRpcInspectionMode::JsonRpc,
                mcp_strict_tool_names: strict,
            };
            match message(value, mcp) {
                MessageView::Call(call) => message(value, generic) == MessageView::Call(
                    bare_call(call.method),
                ),
                MessageView::Response => message(value, generic) is Response,
                _ => true,
            }
        }),
{
}

/// Whether a body is refused for a reason that is not settled.
pub open spec fn unsettled_refusal(
    parsed: Option<JsonView>,
    options: JsonRpcInspectionOptions,
) -> bool {
    parsed matches Some(value) && match first_invalid(messages(value), 0, options) {
        Some(i) => message(messages(value)[i], options) is Refused,
        None => false,
    }
}

/// The value that was read and the options determine the outcome, but for the text
/// of a reason that is not settled.
pub proof fn lemma_outcome_is_determined(
    a: JsonRpcRequestInfo,
    b: JsonRpcRequestInfo,
    parsed: Option<JsonView>,
    options: JsonRpcInspectionOptions,
)
    requires
        describes(a, parsed, options),
        describes(b, parsed, options),
    ensures
        (InfoView { error: None, ..a@ }) == (InfoView { error: None, ..b@ }),
        a.error is None <==> b.error is None,
        !unsettled_refusal(parsed, options) ==> a@ == b@,
{
    if a.error is Some {
        assert(a@.calls =~= b@.calls);
    }
}

/// Strict tool names are on by default: inspecting in a mode is inspecting under the
/// options with that mode and strict tool names. `by_mode` is what
/// [`crate::jsonrpc::parse_jsonrpc_body`] gives, `by_options` what
/// [`crate::jsonrpc::parse_jsonrpc_body_with_options`] gives.
pub proof fn lemma_strict_names_by_default(
    by_mode: JsonRpcRequestInfo,
    by_options: JsonRpcRequestInfo,
    parsed: Option<JsonView>,
    mode: JsonRpcInspectionMode,
)
    requires
        describes(by_mode, parsed, strict_options(mode)),
        describes(
            by_options,
            parsed,
            JsonRpcInspectionOptions { mode, mcp_strict_tool_names: true },
        ),
        !unsettled_refusal(parsed, strict_options(mode)),
    ensures
        by_mode@ == by_options@,
{
    lemma_outcome_is_determined(by_mode, by_options, parsed, strict_options(mode));
}

/// The calls of the first `n` outcomes, one after the other.
pub open spec fn joined_calls(singles: Seq<JsonRpcRequestInfo>, n: int) -> Seq<CallView>
    decreases n,
{
    if n <= 0 {
        Seq::empty()
    } else {
        joined_calls(singles, n - 1) + singles[n - 1]@.calls
    }
}

/// The first outcome from `from` on that is a refusal.
pub open spec fn first_refused(singles: Seq<JsonRpcRequestInfo>, from: int) -> Option<int>
    decreases singles.len() - from,
{
    if from < 0 || from >= singles.len() {
        None
    } else if singles[from].error is Some {
        Some(from)
    } else {
        first_refused(singles, from + 1)
    }
}

/// Whether there is a response among the outcomes.
pub open spec fn some_response(singles: Seq<JsonRpcRequestInfo>) -> bool {
    exists|i: int| 0 <= i < singles.len() && (#[trigger] singles[i]).has_response
}

/// Whether `singles` are the outcomes for the messages `items`, each by itself.
pub open spec fn inspected_alone(
    singles: Seq<JsonRpcRequestInfo>,
    items: Seq<JsonView>,
    options: JsonRpcInspectionOptions,
) -> bool {
    &&& singles.len() == items.len()
    &&& forall|i: int|
        0 <= i < items.len() ==> !(#[trigger] items[i] is Array) && describes(
            singles[i],
            Some(items[i]),
            options,
        )
}

pub proof fn lemma_single(
    info: JsonRpcRequestInfo,
    value: JsonView,
    options: JsonRpcInspectionOptions,
)
    requires
        !(value is Array),
        describes(info, Some(value), options),
    ensures
        info.error is None <==> passes(value, options),
        info.error matches Some(e) ==> reason_for(e@, Seq::empty(), message(value, options)),
        passes(value, options) ==> info.has_response == (message(value, options) is Response),
        passes(value, options) ==> info@.calls == (match message(value, options) {
            MessageView::Call(call) => seq![call],
            _ => Seq::empty(),
        }),
{
    let items = messages(value);
    assert(items[0] == value);
    lemma_first_invalid(items, 0, options);
    reveal_with_fuel(calls_among, 2);
    if passes(value, options) {
        assert(response_among(items, 1, options) == (message(items[0], options) is Response));
        assert(info@.calls =~= (match message(value, options) {
            MessageView::Call(call) => seq![call],
            _ => Seq::empty(),
        }));
    }
}

proof fn lemma_joined_calls(
    singles: Seq<JsonRpcRequestInfo>,
    items: Seq<JsonView>,
    n: int,
    options: JsonRpcInspectionOptions,
)
    requires
        inspected_alone(singles, items, options),
        0 <= n <= items.len(),
        forall|i: int| 0 <= i < n ==> passes(#[trigger] items[i], options),
    ensures
        joined_calls(singles, n) == calls_among(items, n, options),
    decreases n,
{
    if n > 0 {
        lemma_joined_calls(singles, items, n - 1, options);
        assert(!(items[n - 1] is Array));
        assert(passes(items[n - 1], options));
        lemma_single(singles[n - 1], items[n - 1], options);
        assert(joined_calls(singles, n) =~= calls_among(items, n, options));
    }
}

proof fn lemma_first_refused(
    singles: Seq<JsonRpcRequestInfo>,
    items: Seq<JsonView>,
    from: int,
    options: JsonRpcInspectionOptions,
)
    requires
        inspected_alone(singles, items, options),
        0 <= from <= items.len(),
    ensures
        first_refused(singles, from) == first_invalid(items, from, options),
    decreases items.len() - from,
{
    if from < items.len() {
        assert(!(items[from] is Array));
        lemma_single(singles[from], items[from], options);
        lemma_first_refused(singles, items, from + 1, options);
    }
}

/// A batch is its messages: where each of them alone is let through, the batch has
/// their calls one after the other, and a response if one of them is one. Otherwise
/// it is refused for the reason of the first that is not, behind a prefix; where
/// that reason is not settled, for one of the same reasons, behind the prefix.
pub proof fn lemma_batch_is_its_messages(
    batch: JsonRpcRequestInfo,
    singles: Seq<JsonRpcRequestInfo>,
    items: Seq<JsonView>,
    options: JsonRpcInspectionOptions,
)
    requires
        items.len() > 0,
        inspected_alone(singles, items, options),
        describes(batch, Some(JsonView::Array(items)), options),
    ensures
        batch.is_batch,
        !batch.receive_stream,
        match first_refused(singles, 0) {
            None => {
                &&& batch.error is None
                &&& batch@.calls == joined_calls(singles, singles.len() as int)
                &&& batch.has_response == some_response(singles)
            },
            Some(i) => {
                &&& batch.calls@.len() == 0
                &&& !batch.has_response
                &&& batch.error matches Some(text)
                &&& singles[i].error matches Some(e)
                &&& match message(items[i], options) {
                    MessageView::Refused(reasons) => {
                        &&& reasons.contains(e@)
                        &&& exists|reason: Seq<char>| #[trigger]
                            reasons.contains(reason) && text@ == "batch item invalid: "@ + reason
                    },
                    _ => text@ == "batch item invalid: "@ + e@,
                }
            },
        },
{
    lemma_first_refused(singles, items, 0, options);
    lemma_first_invalid(items, 0, options);
    match first_invalid(items, 0, options) {
        None => {
            let n = items.len() as int;
            lemma_joined_calls(singles, items, n, options);
            assert forall|i: int| 0 <= i < n implies (#[trigger] singles[i]).has_response == (
            message(items[i], options) is Response) by {
                assert(!(items[i] is Array));
                assert(passes(items[i], options));
                lemma_single(singles[i], items[i], options);
            }
            if some_response(singles) {
                let i = choose|i: int|
                    0 <= i < singles.len() && (#[trigger] singles[i]).has_response;
                assert(message(items[i], options) is Response);
            }
            if response_among(items, n, options) {
                let i = choose|i: int|
                    0 <= i < n && #[trigger] message(items[i], options) is Response;
                assert(singles[i].has_response);
            }
        },
        Some(i) => {
            assert(!(items[i] is Array));
            lemma_single(singles[i], items[i], options);
            match message(items[i], options) {
                MessageView::Invalid(text) => {
                    assert(Seq::<char>::empty() + text =~= text);
                },
                MessageView::Refused(reasons) => {
                    lemma_reason_is_possible(reasons, singles[i].error->0@);
                },
                _ => {},
            }
        },
    }
}

} // verus!
