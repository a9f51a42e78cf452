//! The frames that the relay answers a gateway with.
use vstd::prelude::*;
use vstd::string::*;

use crate::json::{
    bool_text, field_views, json_bool, json_string, object_of, object_text, push_number, push_text,
};
use crate::relay::inbound::InboundAckResult;
use crate::relay::results::{
    failure_json, failure_text, ActionResultView, GatewayActionResult, ResultRetirement,
};
use crate::relay::state::INBOUND_HANDOFF_VERSION;
use crate::text::decimal;
use crate::value::{json_text, natural_value, tree_fields, Json, JsonView};

verus! {

/// What the gateway is told of this platform: replies are spoken, so plain
/// words only.
pub open spec fn descriptor_value() -> JsonView {
    JsonView::Object(
        seq![
            ("contract_version"@, natural_value(3)),
            ("emoji"@, JsonView::Text("🧠"@)),
            ("inbound_ack_required"@, JsonView::Bool(true)),
            ("inbound_ack_type"@, JsonView::Text("inbound_ack"@)),
            ("inbound_handoff_version"@, natural_value(INBOUND_HANDOFF_VERSION as u64)),
            ("label"@, JsonView::Text("Telepathy voice"@)),
            ("len_unit"@, JsonView::Text("chars"@)),
            ("markdown_dialect"@, JsonView::Text("plain"@)),
            ("max_message_length"@, natural_value(0)),
            ("outbound_result_ack_required"@, JsonView::Bool(true)),
            ("outbound_result_ack_type"@, JsonView::Text("outbound_result_ack"@)),
            ("platform"@, JsonView::Text("relay"@)),
            ("platform_hint"@, JsonView::Text(PLATFORM_HINT@)),
            (
                "supported_ops"@,
                JsonView::List(seq![JsonView::Text("send"@), JsonView::Text("typing"@)]),
            ),
            ("supports_draft_streaming"@, JsonView::Bool(false)),
            ("supports_edit"@, JsonView::Bool(false)),
            ("supports_threads"@, JsonView::Bool(false)),
        ],
    )
}

/// How replies should be worded.
pub const PLATFORM_HINT: &'static str =
    "User talks through open-ear earbuds. Replies are converted to speech on their phone. Prefer short conversational answers; never emit code blocks, tables, or long lists. If a result includes a visual artifact (image, file, page), deliver it as a link AND summarize it aloud — an artifact alone is never a complete reply.";

/// What the gateway is told of this platform.
pub fn capability_descriptor() -> (r: Json)
    ensures
        r@ == descriptor_value(),
{
    let mut ops: Vec<Json> = Vec::new();
    ops.push(Json::string("send"));
    ops.push(Json::string("typing"));
    let ops = Json::List(ops);
    let ghost whole = descriptor_value()->Object_0;
    assert(ops@->List_0 =~= whole[13].1->List_0);
    let mut fields: Vec<(&'static str, Json)> = Vec::new();
    fields.push(("contract_version", Json::number(3)));
    fields.push(("emoji", Json::string("🧠")));
    fields.push(("inbound_ack_required", Json::Bool(true)));
    fields.push(("inbound_ack_type", Json::string("inbound_ack")));
    fields.push(("inbound_handoff_version", Json::number(INBOUND_HANDOFF_VERSION as u64)));
    fields.push(("label", Json::string("Telepathy voice")));
    fields.push(("len_unit", Json::string("chars")));
    fields.push(("markdown_dialect", Json::string("plain")));
    fields.push(("max_message_length", Json::number(0)));
    fields.push(("outbound_result_ack_required", Json::Bool(true)));
    fields.push(("outbound_result_ack_type", Json::string("outbound_result_ack")));
    fields.push(("platform", Json::string("relay")));
    fields.push(("platform_hint", Json::string(PLATFORM_HINT)));
    fields.push(("supported_ops", ops));
    fields.push(("supports_draft_streaming", Json::Bool(false)));
    fields.push(("supports_edit", Json::Bool(false)));
    fields.push(("supports_threads", Json::Bool(false)));
    assert(tree_fields(fields@) =~= whole);
    Json::object(fields)
}

/// The frame that answers a gateway's hello.
pub open spec fn descriptor_reply() -> Seq<char> {
    json_text(
        JsonView::Object(
            seq![
                ("descriptor"@, descriptor_value()),
                ("type"@, JsonView::Text("descriptor"@)),
            ],
        ),
    )
}

/// The frame that answers a gateway's hello.
pub fn descriptor_frame() -> (r: String)
    ensures
        r@ == descriptor_reply(),
{
    let mut fields: Vec<(&'static str, Json)> = Vec::new();
    fields.push(("descriptor", capability_descriptor()));
    fields.push(("type", Json::string("descriptor")));
    assert(tree_fields(fields@) =~= seq![
        ("descriptor"@, descriptor_value()),
        ("type"@, JsonView::Text("descriptor"@)),
    ]);
    Json::object(fields).to_text()
}

/// The answer to an action: its response, and its identifier where it has one.
pub open spec fn action_reply(request_id: Seq<char>, a: ActionResultView) -> Seq<char> {
    let head = seq![("requestId"@, json_string(request_id)), ("result"@, a.result)];
    let id = match a.result_id {
        Some(n) => seq![("resultId"@, decimal(n as nat))],
        None => seq![],
    };
    object_text(head + id + seq![("type"@, json_string("outbound_result"@))])
}

/// The answer to an action.
pub fn reply_gateway_action_result(request_id: &str, result: &GatewayActionResult) -> (r: String)
    ensures
        r@ == action_reply(request_id@, result@),
{
    let mut fields: Vec<(&'static str, String)> = Vec::new();
    push_text(&mut fields, "requestId", request_id);
    let ghost first = field_views(fields@);
    fields.push(("result", result.result.clone()));
    assert(field_views(fields@) =~= first.push(("result"@, result.result@)));
    match result.result_id {
        Some(n) => {
            push_number(&mut fields, "resultId", n);
        },
        None => {},
    }
    push_text(&mut fields, "type", "outbound_result");
    proof {
        let head = seq![("requestId"@, json_string(request_id@)), ("result"@, result.result@)];
        let id = match result.result_id {
            Some(n) => seq![("resultId"@, decimal(n as nat))],
            None => seq![],
        };
        assert(field_views(fields@) =~= head + id + seq![
            ("type"@, json_string("outbound_result"@)),
        ]);
    }
    object_of(&fields)
}

/// A refusal that leaves nothing behind.
pub open spec fn refusal_reply(request_id: Seq<char>, error: Seq<char>) -> Seq<char> {
    action_reply(
        request_id,
        ActionResultView { result: failure_json(error), result_id: None },
    )
}

/// A refusal that leaves nothing behind.
pub fn reply_refusal(request_id: &str, error: &str) -> (r: String)
    ensures
        r@ == refusal_reply(request_id@, error@),
{
    let result = GatewayActionResult { result: failure_text(error), result_id: None };
    assert(result@ =~= (ActionResultView { result: failure_json(error@), result_id: None }));
    reply_gateway_action_result(request_id, &result)
}

/// A frame about the confirmation of a response.
pub open spec fn retirement_frame(
    request_id: Seq<char>,
    result_id: u64,
    result: Seq<char>,
) -> Seq<char> {
    object_text(
        seq![
            ("requestId"@, json_string(request_id)),
            ("result"@, result),
            ("resultId"@, decimal(result_id as nat)),
            ("type"@, json_string("outbound_result_retired"@)),
        ],
    )
}

fn retirement_text(request_id: &str, result_id: u64, result: String) -> (r: String)
    ensures
        r@ == retirement_frame(request_id@, result_id, result@),
{
    let mut fields: Vec<(&'static str, String)> = Vec::new();
    push_text(&mut fields, "requestId", request_id);
    let ghost first = field_views(fields@);
    let ghost shown = result@;
    fields.push(("result", result));
    assert(field_views(fields@) =~= first.push(("result"@, shown)));
    push_number(&mut fields, "resultId", result_id);
    push_text(&mut fields, "type", "outbound_result_retired");
    assert(field_views(fields@) =~= seq![
        ("requestId"@, json_string(request_id@)),
        ("result"@, shown),
        ("resultId"@, decimal(result_id as nat)),
        ("type"@, json_string("outbound_result_retired"@)),
    ]);
    object_of(&fields)
}

/// The answer to a confirmation that is accepted.
pub open spec fn retirement_reply(
    request_id: Seq<char>,
    result_id: u64,
    retirement: ResultRetirement,
) -> Seq<char> {
    retirement_frame(
        request_id,
        result_id,
        object_text(
            seq![
                (
                    "alreadyRetired"@,
                    json_bool(retirement == ResultRetirement::AlreadyRetired),
                ),
                ("success"@, json_bool(true)),
            ],
        ),
    )
}

/// The answer to a confirmation that is accepted.
pub fn reply_result_retirement(
    request_id: &str,
    result_id: u64,
    retirement: ResultRetirement,
) -> (r: String)
    ensures
        r@ == retirement_reply(request_id@, result_id, retirement),
{
    let mut fields: Vec<(&'static str, String)> = Vec::new();
    fields.push(("alreadyRetired", bool_text(retirement == ResultRetirement::AlreadyRetired)));
    fields.push(("success", bool_text(true)));
    assert(field_views(fields@) =~= seq![
        ("alreadyRetired"@, json_bool(retirement == ResultRetirement::AlreadyRetired)),
        ("success"@, json_bool(true)),
    ]);
    retirement_text(request_id, result_id, object_of(&fields))
}

/// The answer to a confirmation that is refused.
pub open spec fn retirement_error_reply(
    request_id: Seq<char>,
    result_id: u64,
    error: Seq<char>,
) -> Seq<char> {
    retirement_frame(request_id, result_id, failure_json(error))
}

/// The answer to a confirmation that is refused.
pub fn reply_result_retirement_error(request_id: &str, result_id: u64, error: &str) -> (r: String)
    ensures
        r@ == retirement_error_reply(request_id@, result_id, error@),
{
    retirement_text(request_id, result_id, failure_text(error))
}

/// A frame about the acknowledgement of a turn.
pub open spec fn acknowledgement_frame(
    message_id: Seq<char>,
    generation: u64,
    result: Seq<char>,
) -> Seq<char> {
    object_text(
        seq![
            ("generation"@, decimal(generation as nat)),
            ("messageId"@, json_string(message_id)),
            ("result"@, result),
            ("type"@, json_string("inbound_acknowledged"@)),
        ],
    )
}

fn acknowledgement_text(message_id: &str, generation: u64, result: String) -> (r: String)
    ensures
        r@ == acknowledgement_frame(message_id@, generation, result@),
{
    let mut fields: Vec<(&'static str, String)> = Vec::new();
    push_number(&mut fields, "generation", generation);
    push_text(&mut fields, "messageId", message_id);
    let ghost first = field_views(fields@);
    let ghost shown = result@;
    fields.push(("result", result));
    assert(field_views(fields@) =~= first.push(("result"@, shown)));
    push_text(&mut fields, "type", "inbound_acknowledged");
    assert(field_views(fields@) =~= seq![
        ("generation"@, decimal(generation as nat)),
        ("messageId"@, json_string(message_id@)),
        ("result"@, shown),
        ("type"@, json_string("inbound_acknowledged"@)),
    ]);
    object_of(&fields)
}

/// The answer to an acknowledgement that is accepted.
pub open spec fn acknowledgement_reply(
    message_id: Seq<char>,
    generation: u64,
    result: InboundAckResult,
) -> Seq<char> {
    acknowledgement_frame(
        message_id,
        generation,
        object_text(
            seq![
                (
                    "alreadyAcknowledged"@,
                    json_bool(result == InboundAckResult::AlreadyAcknowledged),
                ),
                ("success"@, json_bool(true)),
            ],
        ),
    )
}

/// The answer to an acknowledgement that is accepted.
pub fn reply_inbound_ack(message_id: &str, generation: u64, result: InboundAckResult) -> (r: String)
    ensures
        r@ == acknowledgement_reply(message_id@, generation, result),
{
    let mut fields: Vec<(&'static str, String)> = Vec::new();
    fields.push(
        ("alreadyAcknowledged", bool_text(result == InboundAckResult::AlreadyAcknowledged)),
    );
    fields.push(("success", bool_text(true)));
    assert(field_views(fields@) =~= seq![
        ("alreadyAcknowledged"@, json_bool(result == InboundAckResult::AlreadyAcknowledged)),
        ("success"@, json_bool(true)),
    ]);
    acknowledgement_text(message_id, generation, object_of(&fields))
}

/// The answer to an acknowledgement that is refused.
pub open spec fn acknowledgement_error_reply(
    message_id: Seq<char>,
    generation: u64,
    error: Seq<char>,
) -> Seq<char> {
    acknowledgement_frame(message_id, generation, failure_json(error))
}

/// The answer to an acknowledgement that is refused.
pub fn reply_inbound_ack_error(message_id: &str, generation: u64, error: &str) -> (r: String)
    ensures
        r@ == acknowledgement_error_reply(message_id@, generation, error@),
{
    acknowledgement_text(message_id, generation, failure_text(error))
}

} // verus!
