//! What a gateway finds in the replies of the relay, and what the records of the
//! relay hold as JSON: under each key the value of that name.
use vstd::prelude::*;

use crate::frames::{has_optional_text, is_object_text, lemma_found};
use crate::interactions::EntryView;
use crate::journal::journal_line;
use crate::json::{json_bool, json_string};
use crate::relay::inbound::InboundAckResult;
use crate::relay::records::{
    delivery_json, delivery_members, inbound_json, inbound_members, result_json, result_members,
    retired_json, retired_members, tombstone_json, tombstone_members, DeliveryView,
    InboundAckTombstoneView, InboundMessageView, OutboundResultView, RetiredOutboundResultView,
};
use crate::relay::replies::{
    acknowledgement_error_reply, acknowledgement_reply, action_reply, descriptor_reply,
    descriptor_value, retirement_error_reply, retirement_reply,
};
use crate::relay::results::{failure_json, success_json, ActionResultView, ResultRetirement};
use crate::text::decimal;
use crate::trees::{lemma_object, written_as};
use crate::value::{json_text, natural_value, JsonView};

verus! {

// ---- results --------------------------------------------------------------------

/// Whether a value says that something was done.
pub open spec fn says_done(v: JsonView) -> bool {
    v is Object && v.get("success"@) == Some(JsonView::Bool(true))
}

/// Whether a value says that something was not done, and why.
pub open spec fn says_failed(v: JsonView, error: Seq<char>) -> bool {
    &&& v is Object
    &&& v.get("success"@) == Some(JsonView::Bool(false))
    &&& v.get("error"@) == Some(JsonView::Text(error))
}

/// The response of an action that was done says so.
pub proof fn law_success_says_done() -> (v: JsonView)
    ensures
        is_object_text(success_json(), v),
        says_done(v),
{
    let f = seq![("success"@, JsonView::Bool(true))];
    let members = seq![("success"@, json_bool(true))];
    assert(written_as(members, f));
    lemma_object(members, f);
    lemma_found(f);
    JsonView::Object(f)
}

/// The response of an action that was not done says so, and why.
pub proof fn law_failure_says_why(error: Seq<char>) -> (v: JsonView)
    ensures
        is_object_text(failure_json(error), v),
        says_failed(v, error),
{
    let f = seq![("error"@, JsonView::Text(error)), ("success"@, JsonView::Bool(false))];
    let members = seq![("error"@, json_string(error)), ("success"@, json_bool(false))];
    assert(written_as(members, f));
    lemma_object(members, f);
    lemma_found(f);
    lemma_reply_keys();
    JsonView::Object(f)
}

proof fn lemma_reply_keys()
    ensures
        "error"@.len() == 5 && "success"@.len() == 7,
        "requestId"@.len() == 9 && "result"@.len() == 6 && "resultId"@.len() == 8 && "type"@.len()
            == 4,
        "generation"@.len() == 10 && "messageId"@.len() == 9,
        "messageId"@ != "requestId"@,
        "alreadyRetired"@.len() == 14 && "alreadyAcknowledged"@.len() == 19,
{
    reveal_strlit("error");
    reveal_strlit("success");
    reveal_strlit("requestId");
    reveal_strlit("result");
    reveal_strlit("resultId");
    reveal_strlit("type");
    reveal_strlit("generation");
    reveal_strlit("messageId");
    reveal_strlit("alreadyRetired");
    reveal_strlit("alreadyAcknowledged");
    assert("messageId"@[0] == 'm' && "requestId"@[0] == 'r');
}

// ---- replies --------------------------------------------------------------------

/// The reply to an action names its request, holds the response, and its
/// identifier where there is one to confirm.
pub proof fn law_action_reply_holds_the_response(
    request_id: Seq<char>,
    a: ActionResultView,
    result: JsonView,
) -> (v: JsonView)
    requires
        a.result == json_text(result),
    ensures
        is_object_text(action_reply(request_id, a), v),
        v.get("type"@) == Some(JsonView::Text("outbound_result"@)),
        v.get("requestId"@) == Some(JsonView::Text(request_id)),
        v.get("result"@) == Some(result),
        match a.result_id {
            Some(n) => v.get("resultId"@) == Some(natural_value(n)),
            None => v.get("resultId"@) is None,
        },
{
    let id = match a.result_id {
        Some(n) => seq![("resultId"@, natural_value(n))],
        None => seq![],
    };
    let f = seq![("requestId"@, JsonView::Text(request_id)), ("result"@, result)] + id + seq![
        ("type"@, JsonView::Text("outbound_result"@)),
    ];
    let id_text = match a.result_id {
        Some(n) => seq![("resultId"@, decimal(n as nat))],
        None => seq![],
    };
    let members = seq![("requestId"@, json_string(request_id)), ("result"@, a.result)] + id_text
        + seq![("type"@, json_string("outbound_result"@))];
    assert(written_as(members, f));
    lemma_object(members, f);
    lemma_found(f);
    lemma_reply_keys();
    JsonView::Object(f)
}

/// Whether a reply is about the confirmation of this response.
pub open spec fn about_confirmation(
    v: JsonView,
    request_id: Seq<char>,
    result_id: u64,
    result: JsonView,
) -> bool {
    &&& v.get("type"@) == Some(JsonView::Text("outbound_result_retired"@))
    &&& v.get("requestId"@) == Some(JsonView::Text(request_id))
    &&& v.get("resultId"@) == Some(natural_value(result_id))
    &&& v.get("result"@) == Some(result)
}

proof fn lemma_confirmation(
    request_id: Seq<char>,
    result_id: u64,
    result: JsonView,
) -> (v: JsonView)
    ensures
        is_object_text(
            crate::relay::replies::retirement_frame(request_id, result_id, json_text(result)),
            v,
        ),
        about_confirmation(v, request_id, result_id, result),
{
    let f = seq![
        ("requestId"@, JsonView::Text(request_id)),
        ("result"@, result),
        ("resultId"@, natural_value(result_id)),
        ("type"@, JsonView::Text("outbound_result_retired"@)),
    ];
    let members = seq![
        ("requestId"@, json_string(request_id)),
        ("result"@, json_text(result)),
        ("resultId"@, decimal(result_id as nat)),
        ("type"@, json_string("outbound_result_retired"@)),
    ];
    assert(written_as(members, f));
    lemma_object(members, f);
    lemma_found(f);
    lemma_reply_keys();
    JsonView::Object(f)
}

/// The reply to a confirmation names the request and the response, and says
/// whether it was confirmed before.
pub proof fn law_confirmation_reply_names_the_response(
    request_id: Seq<char>,
    result_id: u64,
    retirement: ResultRetirement,
) -> (r: (JsonView, JsonView))
    ensures
        is_object_text(retirement_reply(request_id, result_id, retirement), r.0),
        about_confirmation(r.0, request_id, result_id, r.1),
        says_done(r.1),
        r.1.get("alreadyRetired"@) == Some(
            JsonView::Bool(retirement is AlreadyRetired),
        ),
{
    let flag = retirement == ResultRetirement::AlreadyRetired;
    let f = seq![("alreadyRetired"@, JsonView::Bool(flag)), ("success"@, JsonView::Bool(true))];
    let members = seq![("alreadyRetired"@, json_bool(flag)), ("success"@, json_bool(true))];
    assert(written_as(members, f));
    lemma_object(members, f);
    lemma_found(f);
    lemma_reply_keys();
    let result = JsonView::Object(f);
    let v = lemma_confirmation(request_id, result_id, result);
    (v, result)
}

/// The reply to a confirmation that is refused names both too, and the reason.
pub proof fn law_refused_confirmation_says_why(
    request_id: Seq<char>,
    result_id: u64,
    error: Seq<char>,
) -> (r: (JsonView, JsonView))
    ensures
        is_object_text(retirement_error_reply(request_id, result_id, error), r.0),
        about_confirmation(r.0, request_id, result_id, r.1),
        says_failed(r.1, error),
{
    let result = law_failure_says_why(error);
    let v = lemma_confirmation(request_id, result_id, result);
    (v, result)
}

/// Whether a reply is about the acknowledgement of this turn.
pub open spec fn about_acknowledgement(
    v: JsonView,
    message_id: Seq<char>,
    generation: u64,
    result: JsonView,
) -> bool {
    &&& v.get("type"@) == Some(JsonView::Text("inbound_acknowledged"@))
    &&& v.get("messageId"@) == Some(JsonView::Text(message_id))
    &&& v.get("generation"@) == Some(natural_value(generation))
    &&& v.get("result"@) == Some(result)
}

proof fn lemma_acknowledgement(
    message_id: Seq<char>,
    generation: u64,
    result: JsonView,
) -> (v: JsonView)
    ensures
        is_object_text(
            crate::relay::replies::acknowledgement_frame(
                message_id,
                generation,
                json_text(result),
            ),
            v,
        ),
        about_acknowledgement(v, message_id, generation, result),
{
    let f = seq![
        ("generation"@, natural_value(generation)),
        ("messageId"@, JsonView::Text(message_id)),
        ("result"@, result),
        ("type"@, JsonView::Text("inbound_acknowledged"@)),
    ];
    let members = seq![
        ("generation"@, decimal(generation as nat)),
        ("messageId"@, json_string(message_id)),
        ("result"@, json_text(result)),
        ("type"@, json_string("inbound_acknowledged"@)),
    ];
    assert(written_as(members, f));
    lemma_object(members, f);
    lemma_found(f);
    lemma_reply_keys();
    JsonView::Object(f)
}

/// The reply to an acknowledgement names the turn by its message and generation,
/// and says whether it was acknowledged before.
pub proof fn law_acknowledgement_reply_names_the_turn(
    message_id: Seq<char>,
    generation: u64,
    ack: InboundAckResult,
) -> (r: (JsonView, JsonView))
    ensures
        is_object_text(acknowledgement_reply(message_id, generation, ack), r.0),
        about_acknowledgement(r.0, message_id, generation, r.1),
        says_done(r.1),
        r.1.get("alreadyAcknowledged"@) == Some(JsonView::Bool(ack is AlreadyAcknowledged)),
{
    let flag = ack == InboundAckResult::AlreadyAcknowledged;
    let f = seq![
        ("alreadyAcknowledged"@, JsonView::Bool(flag)),
        ("success"@, JsonView::Bool(true)),
    ];
    let members = seq![("alreadyAcknowledged"@, json_bool(flag)), ("success"@, json_bool(true))];
    assert(written_as(members, f));
    lemma_object(members, f);
    lemma_found(f);
    lemma_reply_keys();
    let result = JsonView::Object(f);
    let v = lemma_acknowledgement(message_id, generation, result);
    (v, result)
}

/// The reply to an acknowledgement that is refused names both too, and the
/// reason.
pub proof fn law_refused_acknowledgement_says_why(
    message_id: Seq<char>,
    generation: u64,
    error: Seq<char>,
) -> (r: (JsonView, JsonView))
    ensures
        is_object_text(acknowledgement_error_reply(message_id, generation, error), r.0),
        about_acknowledgement(r.0, message_id, generation, r.1),
        says_failed(r.1, error),
{
    let result = law_failure_says_why(error);
    let v = lemma_acknowledgement(message_id, generation, result);
    (v, result)
}

// ---- records --------------------------------------------------------------------

proof fn lemma_record_keys()
    ensures
        "seq"@.len() == 3 && "chat_id"@.len() == 7 && "content"@.len() == 7 && "reply_to"@.len()
            == 8 && "arrived_at"@.len() == 10,
        "chat_id"@ != "content"@,
        "gateway_id"@.len() == 10 && "request_id"@.len() == 10 && "result_id"@.len() == 9
            && "result"@.len() == 6 && "delivery_seq"@.len() == 12 && "last_seen_at_ms"@.len()
            == 15,
        "gateway_id"@ != "request_id"@,
        "message_id"@.len() == 10 && "generation"@.len() == 10 && "frame"@.len() == 5,
        "message_id"@ != "generation"@,
        "interaction_id"@.len() == 14 && "lane_id"@.len() == 7
            && "interaction_created_at_ms"@.len() == 25 && "lane_interactions"@.len() == 17,
{
    reveal_strlit("seq");
    reveal_strlit("chat_id");
    reveal_strlit("content");
    reveal_strlit("reply_to");
    reveal_strlit("arrived_at");
    reveal_strlit("gateway_id");
    reveal_strlit("request_id");
    reveal_strlit("result_id");
    reveal_strlit("result");
    reveal_strlit("delivery_seq");
    reveal_strlit("last_seen_at_ms");
    reveal_strlit("message_id");
    reveal_strlit("generation");
    reveal_strlit("frame");
    reveal_strlit("interaction_id");
    reveal_strlit("lane_id");
    reveal_strlit("interaction_created_at_ms");
    reveal_strlit("lane_interactions");
    assert("chat_id"@[1] == 'h' && "content"@[1] == 'o');
    assert("gateway_id"@[0] == 'g' && "request_id"@[0] == 'r');
    assert("message_id"@[0] == 'm' && "generation"@[0] == 'g');
}

/// A delivery is kept with every field under its own name.
pub proof fn law_delivery_record_holds_it(d: DeliveryView) -> (v: JsonView)
    ensures
        is_object_text(delivery_json(d), v),
        v.get("seq"@) == Some(natural_value(d.seq)),
        v.get("chat_id"@) == Some(JsonView::Text(d.chat_id)),
        v.get("content"@) == Some(JsonView::Text(d.content)),
        has_optional_text(v, "reply_to"@, d.reply_to),
        v.get("arrived_at"@) == Some(natural_value(d.arrived_at)),
{
    let reply = match d.reply_to {
        Some(t) => seq![("reply_to"@, JsonView::Text(t))],
        None => seq![],
    };
    let f = seq![
        ("seq"@, natural_value(d.seq)),
        ("chat_id"@, JsonView::Text(d.chat_id)),
        ("content"@, JsonView::Text(d.content)),
    ] + reply + seq![("arrived_at"@, natural_value(d.arrived_at))];
    assert(written_as(delivery_members(d), f));
    lemma_object(delivery_members(d), f);
    lemma_found(f);
    lemma_record_keys();
    JsonView::Object(f)
}

/// A response is kept with every field under its own name.
pub proof fn law_response_record_holds_it(r: OutboundResultView, result: JsonView) -> (v: JsonView)
    requires
        r.result == json_text(result),
    ensures
        is_object_text(result_json(r), v),
        v.get("gateway_id"@) == Some(JsonView::Text(r.gateway_id)),
        v.get("request_id"@) == Some(JsonView::Text(r.request_id)),
        v.get("result_id"@) == Some(natural_value(r.result_id)),
        v.get("result"@) == Some(result),
        v.get("delivery_seq"@) == Some(
            match r.delivery_seq {
                Some(n) => natural_value(n),
                None => JsonView::Null,
            },
        ),
        v.get("last_seen_at_ms"@) == Some(natural_value(r.last_seen_at_ms)),
{
    let f = seq![
        ("gateway_id"@, JsonView::Text(r.gateway_id)),
        ("request_id"@, JsonView::Text(r.request_id)),
        ("result_id"@, natural_value(r.result_id)),
        ("result"@, result),
        (
            "delivery_seq"@,
            match r.delivery_seq {
                Some(n) => natural_value(n),
                None => JsonView::Null,
            },
        ),
        ("last_seen_at_ms"@, natural_value(r.last_seen_at_ms)),
    ];
    assert(written_as(result_members(r), f));
    lemma_object(result_members(r), f);
    lemma_found(f);
    lemma_record_keys();
    JsonView::Object(f)
}

/// A trace of a response is kept with every field under its own name.
pub proof fn law_trace_record_holds_it(r: RetiredOutboundResultView) -> (v: JsonView)
    ensures
        is_object_text(retired_json(r), v),
        v.get("gateway_id"@) == Some(JsonView::Text(r.gateway_id)),
        v.get("request_id"@) == Some(JsonView::Text(r.request_id)),
        v.get("result_id"@) == Some(natural_value(r.result_id)),
{
    let f = seq![
        ("gateway_id"@, JsonView::Text(r.gateway_id)),
        ("request_id"@, JsonView::Text(r.request_id)),
        ("result_id"@, natural_value(r.result_id)),
    ];
    assert(written_as(retired_members(r), f));
    lemma_object(retired_members(r), f);
    lemma_found(f);
    lemma_record_keys();
    JsonView::Object(f)
}

/// A waiting turn is kept with every field under its own name.
pub proof fn law_turn_record_holds_it(m: InboundMessageView) -> (v: JsonView)
    ensures
        is_object_text(inbound_json(m), v),
        v.get("message_id"@) == Some(JsonView::Text(m.message_id)),
        v.get("generation"@) == Some(natural_value(m.generation)),
        v.get("frame"@) == Some(JsonView::Text(m.frame)),
{
    let f = seq![
        ("message_id"@, JsonView::Text(m.message_id)),
        ("generation"@, natural_value(m.generation)),
        ("frame"@, JsonView::Text(m.frame)),
    ];
    assert(written_as(inbound_members(m), f));
    lemma_object(inbound_members(m), f);
    lemma_found(f);
    lemma_record_keys();
    JsonView::Object(f)
}

/// A trace of a turn is kept with every field under its own name.
pub proof fn law_tombstone_record_holds_it(m: InboundAckTombstoneView) -> (v: JsonView)
    ensures
        is_object_text(tombstone_json(m), v),
        v.get("message_id"@) == Some(JsonView::Text(m.message_id)),
        v.get("generation"@) == Some(natural_value(m.generation)),
{
    let f = seq![
        ("message_id"@, JsonView::Text(m.message_id)),
        ("generation"@, natural_value(m.generation)),
    ];
    assert(written_as(tombstone_members(m), f));
    lemma_object(tombstone_members(m), f);
    lemma_found(f);
    lemma_record_keys();
    JsonView::Object(f)
}

/// A line of the journal holds a counted turn with every field under its own
/// name, and ends there.
pub proof fn law_journal_line_holds_the_turn(e: EntryView) -> (v: JsonView)
    ensures
        journal_line(e) == json_text(v).push('\n'),
        v.get("interaction_id"@) == Some(JsonView::Text(e.interaction_id)),
        v.get("lane_id"@) == Some(JsonView::Text(e.lane_id)),
        v.get("interaction_created_at_ms"@) == Some(natural_value(e.interaction_created_at_ms)),
        v.get("lane_interactions"@) == Some(natural_value(e.lane_interactions)),
{
    let f = seq![
        ("interaction_id"@, JsonView::Text(e.interaction_id)),
        ("lane_id"@, JsonView::Text(e.lane_id)),
        ("interaction_created_at_ms"@, natural_value(e.interaction_created_at_ms)),
        ("lane_interactions"@, natural_value(e.lane_interactions)),
    ];
    let members = seq![
        ("interaction_id"@, json_string(e.interaction_id)),
        ("lane_id"@, json_string(e.lane_id)),
        ("interaction_created_at_ms"@, decimal(e.interaction_created_at_ms as nat)),
        ("lane_interactions"@, decimal(e.lane_interactions as nat)),
    ];
    assert(written_as(members, f));
    lemma_object(members, f);
    lemma_found(f);
    lemma_record_keys();
    JsonView::Object(f)
}

/// A gateway that says hello is told the contract: which frames must be
/// acknowledged and by which, what the relay can do, and how texts are to be
/// written.
pub proof fn law_descriptor_tells_the_contract() -> (v: JsonView)
    ensures
        is_object_text(descriptor_reply(), v),
        v.get("type"@) == Some(JsonView::Text("descriptor"@)),
        v.get("descriptor"@) is Some,
        ({
            let d = v.get("descriptor"@)->0;
            &&& d.get("contract_version"@) == Some(natural_value(3))
            &&& d.get("inbound_ack_required"@) == Some(JsonView::Bool(true))
            &&& d.get("inbound_ack_type"@) == Some(JsonView::Text("inbound_ack"@))
            &&& d.get("inbound_handoff_version"@) == Some(natural_value(2))
            &&& d.get("outbound_result_ack_required"@) == Some(JsonView::Bool(true))
            &&& d.get("outbound_result_ack_type"@) == Some(JsonView::Text("outbound_result_ack"@))
            &&& d.get("markdown_dialect"@) == Some(JsonView::Text("plain"@))
            &&& d.get("max_message_length"@) == Some(natural_value(0))
            &&& d.get("supported_ops"@) == Some(
                JsonView::List(seq![JsonView::Text("send"@), JsonView::Text("typing"@)]),
            )
            &&& d.get("supports_edit"@) == Some(JsonView::Bool(false))
            &&& d.get("supports_threads"@) == Some(JsonView::Bool(false))
            &&& d.get("supports_draft_streaming"@) == Some(JsonView::Bool(false))
            &&& d.get("platform"@) == Some(JsonView::Text("relay"@))
        }),
{
    reveal_strlit("descriptor");
    reveal_strlit("type");
    let fields = seq![
        ("descriptor"@, descriptor_value()),
        ("type"@, JsonView::Text("descriptor"@)),
    ];
    assert("descriptor"@.len() != "type"@.len());
    crate::trees::lemma_member(fields, "descriptor"@, 0, 0);
    crate::trees::lemma_member(fields, "type"@, 0, 1);
    lemma_descriptor_order();
    let d = descriptor_value()->Object_0;
    crate::trees::lemma_ordered_members(d);
    assert(d.len() == 17);
    assert(d[0].0 == "contract_version"@);
    assert(d[2].0 == "inbound_ack_required"@);
    assert(d[3].0 == "inbound_ack_type"@);
    assert(d[4].0 == "inbound_handoff_version"@);
    assert(d[7].0 == "markdown_dialect"@);
    assert(d[8].0 == "max_message_length"@);
    assert(d[9].0 == "outbound_result_ack_required"@);
    assert(d[10].0 == "outbound_result_ack_type"@);
    assert(d[11].0 == "platform"@);
    assert(d[13].0 == "supported_ops"@);
    assert(d[14].0 == "supports_draft_streaming"@);
    assert(d[15].0 == "supports_edit"@);
    assert(d[16].0 == "supports_threads"@);
    JsonView::Object(fields)
}

/// The keys of the descriptor are in order.
proof fn lemma_descriptor_order()
    ensures
        crate::trees::in_order(descriptor_value()->Object_0),
{
    reveal_strlit("contract_version");
    reveal_strlit("emoji");
    reveal_strlit("inbound_ack_required");
    reveal_strlit("inbound_ack_type");
    reveal_strlit("inbound_handoff_version");
    reveal_strlit("label");
    reveal_strlit("len_unit");
    reveal_strlit("markdown_dialect");
    reveal_strlit("max_message_length");
    reveal_strlit("outbound_result_ack_required");
    reveal_strlit("outbound_result_ack_type");
    reveal_strlit("platform");
    reveal_strlit("platform_hint");
    reveal_strlit("supported_ops");
    reveal_strlit("supports_draft_streaming");
    reveal_strlit("supports_edit");
    reveal_strlit("supports_threads");
    let d = descriptor_value()->Object_0;
    crate::trees::lemma_before("contract_version"@, "emoji"@, 0);
    crate::trees::lemma_before("emoji"@, "inbound_ack_required"@, 0);
    crate::trees::lemma_before("inbound_ack_required"@, "inbound_ack_type"@, 12);
    crate::trees::lemma_before("inbound_ack_type"@, "inbound_handoff_version"@, 8);
    crate::trees::lemma_before("inbound_handoff_version"@, "label"@, 0);
    crate::trees::lemma_before("label"@, "len_unit"@, 1);
    crate::trees::lemma_before("len_unit"@, "markdown_dialect"@, 0);
    crate::trees::lemma_before("markdown_dialect"@, "max_message_length"@, 2);
    crate::trees::lemma_before("max_message_length"@, "outbound_result_ack_required"@, 0);
    crate::trees::lemma_before("outbound_result_ack_required"@, "outbound_result_ack_type"@, 20);
    crate::trees::lemma_before("outbound_result_ack_type"@, "platform"@, 0);
    crate::trees::lemma_before("platform"@, "platform_hint"@, 8);
    crate::trees::lemma_before("platform_hint"@, "supported_ops"@, 0);
    crate::trees::lemma_before("supported_ops"@, "supports_draft_streaming"@, 7);
    crate::trees::lemma_before("supports_draft_streaming"@, "supports_edit"@, 9);
    crate::trees::lemma_before("supports_edit"@, "supports_threads"@, 9);
    assert(d.len() == 17);
}

} // verus!
