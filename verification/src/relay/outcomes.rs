//! What the gateway's frames come to, in terms of what they hold: which reply is
//! queued, which response is recorded or confirmed, which turn is acknowledged.
use vstd::prelude::*;

use crate::lanes::LaneView;
use crate::proto::{valid_lane_id, valid_opaque_id, MAX_SAFE_SEQUENCE};
use crate::relay::actions::{record_turn, send_turn};
use crate::relay::deliveries::{
    answered_by, enqueue_refusal, gateway_queued, queue_overflows, request_position,
};
use crate::relay::errors::RelayError;
use crate::relay::gateway::{
    admission_turn, durable_turn, first_turn, frame_step, next_turn, outbound_step,
    protected_gateway, GatewayActionView, GatewayStepView, ProgressView, TurnView,
};
use crate::relay::inbound::{has_identity, other_than, tombstone_fits, waits, InboundAckResult};
use crate::relay::records::{
    result_json, result_jsons, DeliveryView, InboundAckTombstoneView, InboundMessageView,
    OutboundResultView, PendingRequestView, RetiredOutboundResultView,
};
use crate::relay::replies::{
    acknowledgement_error_reply, acknowledgement_reply, action_reply, descriptor_reply,
    retirement_error_reply, retirement_reply,
};
use crate::relay::results::{
    answers, failure_json, law_traces_are_bounded, ledger_full, ledger_overflows,
    lemma_result_position_is, live, live_position, of_gateway, reclaimed, success_json, ticked,
    trace_of, unexpired, ActionResultView, ResultRetirement,
};
use crate::relay::retries::{lemma_kinds_differ, lemma_live_position};
use crate::relay::session::{connection_turn, finished, is_send};
use crate::relay::snapshots::valid_result;
use crate::relay::soundness::{
    law_reclaiming_keeps_ledger_sound, law_ticking_keeps_ledger_sound, lemma_filter_bytes,
    lemma_valid_trace_fits, sound_ledger,
};
use crate::relay::state::{
    active_gateway, is_active, owns, RelayView, WriteOutcome, MAX_DELIVERY_CONTENT_BYTES,
    MAX_OUTBOUND_OPERATION_BYTES, MAX_PENDING_DELIVERIES,
};
use crate::text::{blank, utf8_len};
use crate::value::JsonView;

verus! {

// ---- sends ----------------------------------------------------------------------

/// Whether a frame asks to queue this reply for this lane.
pub open spec fn asks_to_send(
    frame: JsonView,
    request_id: Seq<char>,
    chat_id: Seq<char>,
    content: Seq<char>,
    reply_to: Option<Seq<char>>,
) -> bool {
    let action = frame.field("action"@);
    &&& frame.field("type"@).text() == Some("outbound"@)
    &&& frame.field("requestId"@).text() == Some(request_id)
    &&& action.field("op"@).text() == Some("send"@)
    &&& action.field("chat_id"@).text() == Some(chat_id)
    &&& action.field("content"@).text() == Some(content)
    &&& action.field("reply_to"@).text() == reply_to
}

/// Whether a reply may be queued as it is.
pub open spec fn may_be_sent(
    request_id: Seq<char>,
    chat_id: Seq<char>,
    content: Seq<char>,
    reply_to: Option<Seq<char>>,
) -> bool {
    &&& valid_opaque_id(request_id)
    &&& !blank(chat_id)
    &&& !blank(content)
    &&& utf8_len(content) <= MAX_DELIVERY_CONTENT_BYTES
    &&& (reply_to is Some ==> valid_opaque_id(reply_to->0))
}

/// Whether no response to a request is recorded.
pub open spec fn is_new(v: Seq<OutboundResultView>, gateway_id: Seq<char>, request_id: Seq<char>) ->
    bool {
    forall|i: int|
        0 <= i < v.len() ==> (#[trigger] v[i]).gateway_id != gateway_id || v[i].request_id
            != request_id
}

/// Whether the ledger takes one more response.
pub open spec fn ledger_has_room(s: RelayView, r: OutboundResultView) -> bool {
    &&& !ledger_full(s.outbound_results, r.gateway_id)
    &&& s.next_outbound_result_id < MAX_SAFE_SEQUENCE
    &&& !ledger_overflows(s.outbound_results, r)
}

/// Whether the queue takes one more delivery.
pub open spec fn queue_has_room(s: RelayView, d: DeliveryView) -> bool {
    &&& s.deliveries.len() < MAX_PENDING_DELIVERIES
    &&& s.next_seq < MAX_SAFE_SEQUENCE
    &&& !queue_overflows(s.deliveries, d)
}

/// The later of two instants.
pub open spec fn later(a: u64, b: u64) -> u64 {
    if a < b {
        b
    } else {
        a
    }
}

proof fn lemma_ops_differ()
    ensures
        "send"@ != "typing"@,
        utf8_len("send"@) <= MAX_OUTBOUND_OPERATION_BYTES,
        utf8_len("typing"@) <= MAX_OUTBOUND_OPERATION_BYTES,
{
    reveal_strlit("send");
    reveal_strlit("typing");
    assert("send"@.len() == 4 && "typing"@.len() == 6);
    crate::json::lemma_key_bytes("send"@);
    crate::json::lemma_key_bytes("typing"@);
}

proof fn lemma_filter_share<A>(v: Seq<A>, p: spec_fn(A) -> bool, q: spec_fn(A) -> bool)
    ensures
        v.filter(p).filter(q).len() <= v.filter(q).len(),
    decreases v.len(),
{
    reveal(Seq::filter);
    if v.len() > 0 {
        let d = v.drop_last();
        lemma_filter_share(d, p, q);
        if p(v.last()) {
            assert(v.filter(p).drop_last() =~= d.filter(p));
        }
    }
}

/// What a selection holds is from what it was made of, and meets the choice; what
/// meets the choice is in it.
pub proof fn lemma_filter_holds<A>(v: Seq<A>, p: spec_fn(A) -> bool)
    ensures
        forall|a: A| #[trigger] v.filter(p).contains(a) <==> v.contains(a) && p(a),
    decreases v.len(),
{
    reveal(Seq::filter);
    if v.len() > 0 {
        let d = v.drop_last();
        let x = v.last();
        lemma_filter_holds(d, p);
        assert forall|a: A| #[trigger] v.filter(p).contains(a) <==> v.contains(a) && p(a) by {
            assert(v =~= d.push(x));
            assert(v.contains(a) <==> d.contains(a) || a == x) by {
                broadcast use vstd::seq_lib::group_seq_properties;

            }
            assert(d.filter(p).contains(a) <==> d.contains(a) && p(a));
            if p(x) {
                assert(v.filter(p) == d.filter(p).push(x));
                assert(v.filter(p).contains(a) <==> d.filter(p).contains(a) || a == x) by {
                    broadcast use vstd::seq_lib::group_seq_properties;

                }
            }
        }
    } else {
        assert(v.filter(p) =~= v);
    }
}

/// A ledger that has room has it too when responses were given up.
proof fn lemma_room_after_reclaiming(
    s: RelayView,
    now_ms: u64,
    protected: Option<Seq<char>>,
    r: OutboundResultView,
)
    requires
        ledger_has_room(s, r),
        is_new(s.outbound_results, r.gateway_id, r.request_id),
    ensures
        ledger_has_room(reclaimed(s, now_ms, protected), r),
        is_new(reclaimed(s, now_ms, protected).outbound_results, r.gateway_id, r.request_id),
{
    let v = s.outbound_results;
    let p = unexpired(now_ms, protected);
    let w = v.filter(p);
    let f = |x: OutboundResultView| result_json(x);
    lemma_filter_bytes(v, p, f);
    lemma_filter_share(v, p, of_gateway(r.gateway_id));
    assert(result_jsons(v) =~= v.map_values(f));
    assert(result_jsons(w) =~= w.map_values(f));
    crate::json::lemma_array_bytes_push(result_jsons(v), result_json(r));
    crate::json::lemma_array_bytes_push(result_jsons(w), result_json(r));
    assert forall|i: int| 0 <= i < w.len() implies (#[trigger] w[i]).gateway_id != r.gateway_id
        || w[i].request_id != r.request_id by {
        lemma_filter_holds(v, p);
        assert(w.contains(w[i]));
        let k = choose|k: int| 0 <= k < v.len() && v[k] == w[i];
        assert(v[k].gateway_id != r.gateway_id || v[k].request_id != r.request_id);
    }
}

/// A request that a reply names is pending once less, and every other request
/// as often as before.
proof fn lemma_answered(
    v: Seq<PendingRequestView>,
    lane_id: Seq<char>,
    message_id: Seq<char>,
    i: int,
)
    requires
        0 <= i <= v.len(),
    ensures
        ({
            let r = PendingRequestView { lane_id, message_id };
            let p = request_position(v, lane_id, message_id, i);
            &&& i <= p <= v.len()
            &&& (p < v.len() ==> v[p] == r)
            &&& forall|k: int| i <= k < p ==> #[trigger] v[k] != r
        }),
    decreases v.len() - i,
{
    if i < v.len() {
        lemma_answered(v, lane_id, message_id, i + 1);
    }
}

/// What a reply does to the pending requests, whatever it names.
proof fn lemma_answered_by(
    v: Seq<PendingRequestView>,
    lane_id: Seq<char>,
    reply_to: Option<Seq<char>>,
)
    ensures
        match reply_to {
            Some(message_id) => answered_by(v, lane_id, reply_to).to_multiset()
                == v.to_multiset().remove(PendingRequestView { lane_id, message_id }),
            None => answered_by(v, lane_id, reply_to) == v,
        },
{
    if let Some(message_id) = reply_to {
        let r = PendingRequestView { lane_id, message_id };
        lemma_answered(v, lane_id, message_id, 0);
        let p = request_position(v, lane_id, message_id, 0);
        broadcast use vstd::seq_lib::group_to_multiset_ensures;

        if p < v.len() {
            assert(v.remove(p).to_multiset() =~= v.to_multiset().remove(v[p]));
        } else {
            assert(!v.contains(r));
            assert(v.to_multiset().count(r) == 0);
            assert(v.to_multiset().remove(r) =~= v.to_multiset());
        }
    }
}

/// A send that the connection in charge makes under a new request, while there
/// is room for it, is queued as the frame words it: for the lane, with the
/// content and with the message that the frame names. That message is no longer
/// awaited, no other is touched, and the response that the gateway gets is
/// recorded under its request.
pub proof fn law_send_frame_queues_its_reply(
    s: RelayView,
    frame: JsonView,
    connection: Option<u64>,
    gateway_id: Seq<char>,
    request_id: Seq<char>,
    chat_id: Seq<char>,
    content: Seq<char>,
    reply_to: Option<Seq<char>>,
    now_ms: u64,
    arrived_at: u64,
)
    requires
        sound_ledger(s),
        s.persistence_failure is None,
        asks_to_send(frame, request_id, chat_id, content, reply_to),
        may_be_sent(request_id, chat_id, content, reply_to),
        connection is Some ==> owns(s.connections, connection->0, gateway_id),
        is_new(s.outbound_results, gateway_id, request_id),
        queue_has_room(
            s,
            DeliveryView {
                seq: (s.next_seq + 1) as u64,
                chat_id,
                content,
                reply_to,
                arrived_at,
            },
        ),
        ledger_has_room(
            s,
            OutboundResultView {
                gateway_id,
                request_id,
                result_id: (s.next_outbound_result_id + 1) as u64,
                result: success_json(),
                delivery_seq: Some((s.next_seq + 1) as u64),
                last_seen_at_ms: later(s.clock_high_water_ms, now_ms),
            },
        ),
    ensures
        ({
            let x = finished(first_turn(s, frame, connection, gateway_id, now_ms, arrived_at));
            let d = x.0.deliveries.last();
            let r = x.0.outbound_results.last();
            &&& x.0.deliveries.drop_last() == s.deliveries
            &&& d.seq == s.next_seq + 1
            &&& d.chat_id == chat_id
            &&& d.content == content
            &&& d.reply_to == reply_to
            &&& d.arrived_at == arrived_at
            &&& x.0.next_seq == d.seq
            &&& match reply_to {
                Some(message_id) => x.0.pending_requests.to_multiset()
                    == s.pending_requests.to_multiset().remove(
                    PendingRequestView { lane_id: chat_id, message_id },
                ),
                None => x.0.pending_requests == s.pending_requests,
            }
            &&& r.gateway_id == gateway_id
            &&& r.request_id == request_id
            &&& r.result_id == s.next_outbound_result_id + 1
            &&& r.result == success_json()
            &&& r.delivery_seq == Some(d.seq)
            &&& r.last_seen_at_ms == later(s.clock_high_water_ms, now_ms)
            &&& x.0.next_outbound_result_id == r.result_id
            &&& x.0.inbound == s.inbound
            &&& x.0.acknowledged_inbound == s.acknowledged_inbound
            &&& x.0.connections == s.connections
            &&& x.1 == Some(
                action_reply(
                    request_id,
                    ActionResultView { result: success_json(), result_id: Some(r.result_id) },
                ),
            )
        }),
{
    lemma_kinds_differ();
    lemma_ops_differ();
    let t = ticked(s, now_ms);
    let v = s.outbound_results;
    let active = active_gateway(t.connections);
    lemma_live_position(v, gateway_id, request_id, t.clock_high_water_ms, active, 0);
    assert(live_position(v, gateway_id, request_id, t.clock_high_water_ms, active, 0) == v.len());
    let step = frame_step(s, frame, connection, gateway_id, now_ms);
    assert(step == outbound_step(s, frame, connection, gateway_id, now_ms));
    let action = GatewayActionView::Send(request_id, chat_id, content, reply_to);
    assert(step == GatewayStepView::Act(action));
    let protected = protected_gateway(t, connection, gateway_id);
    law_ticking_keeps_ledger_sound(s, now_ms);
    let u = ticked(t, now_ms);
    assert(u =~= t);
    law_reclaiming_keeps_ledger_sound(u, u.clock_high_water_ms, protected);
    let w = reclaimed(u, u.clock_high_water_ms, protected);
    let r = OutboundResultView {
        gateway_id,
        request_id,
        result_id: (s.next_outbound_result_id + 1) as u64,
        result: success_json(),
        delivery_seq: Some((s.next_seq + 1) as u64),
        last_seen_at_ms: later(s.clock_high_water_ms, now_ms),
    };
    lemma_room_after_reclaiming(u, u.clock_high_water_ms, protected, r);
    lemma_result_position_is(w.outbound_results, gateway_id, request_id, w.outbound_results.len() as int);
    lemma_answered_by(s.pending_requests, chat_id, reply_to);
    let q = durable_turn(t, gateway_id, action, protected, now_ms, arrived_at);
    assert(first_turn(s, frame, connection, gateway_id, now_ms, arrived_at) == q);
    let z = admission_turn(w, gateway_id, action, arrived_at);
    assert(finished(q) == finished(z));
    assert(finished(z).0.deliveries.drop_last() =~= s.deliveries);
}

// ---- other actions --------------------------------------------------------------

/// Whether a state is the one before with one more response, given to this
/// request at this instant, and its identifier the next one. Old responses may
/// have been given up; nothing else is different.
pub open spec fn records(
    before: RelayView,
    after: RelayView,
    gateway_id: Seq<char>,
    request_id: Seq<char>,
    result: Seq<char>,
    now_ms: u64,
) -> bool {
    let r = after.outbound_results.last();
    &&& after.outbound_results.len() > 0
    &&& r.gateway_id == gateway_id
    &&& r.request_id == request_id
    &&& r.result_id == before.next_outbound_result_id + 1
    &&& r.result == result
    &&& r.delivery_seq is None
    &&& r.last_seen_at_ms == later(before.clock_high_water_ms, now_ms)
    &&& after.next_outbound_result_id == r.result_id
    &&& after.deliveries == before.deliveries
    &&& after.next_seq == before.next_seq
    &&& after.pending_requests == before.pending_requests
    &&& after.inbound == before.inbound
    &&& after.acknowledged_inbound == before.acknowledged_inbound
    &&& after.connections == before.connections
}

/// The record that an action leaves at an instant.
pub open spec fn record_at(
    s: RelayView,
    gateway_id: Seq<char>,
    request_id: Seq<char>,
    result: Seq<char>,
    now_ms: u64,
) -> OutboundResultView {
    OutboundResultView {
        gateway_id,
        request_id,
        result_id: (s.next_outbound_result_id + 1) as u64,
        result,
        delivery_seq: None,
        last_seen_at_ms: later(s.clock_high_water_ms, now_ms),
    }
}

proof fn lemma_recorded(
    s: RelayView,
    frame: JsonView,
    connection: Option<u64>,
    gateway_id: Seq<char>,
    request_id: Seq<char>,
    result: Seq<char>,
    now_ms: u64,
    arrived_at: u64,
)
    requires
        sound_ledger(s),
        s.persistence_failure is None,
        frame.field("type"@).text() == Some("outbound"@),
        frame.field("requestId"@).text() == Some(request_id),
        valid_opaque_id(request_id),
        is_new(s.outbound_results, gateway_id, request_id),
        ledger_has_room(s, record_at(s, gateway_id, request_id, result, now_ms)),
        outbound_step(s, frame, connection, gateway_id, now_ms) == GatewayStepView::Act(
            GatewayActionView::Record(request_id, result),
        ),
    ensures
        ({
            let x = finished(first_turn(s, frame, connection, gateway_id, now_ms, arrived_at));
            &&& records(s, x.0, gateway_id, request_id, result, now_ms)
            &&& x.1 == Some(
                action_reply(
                    request_id,
                    ActionResultView {
                        result,
                        result_id: Some((s.next_outbound_result_id + 1) as u64),
                    },
                ),
            )
        }),
{
    lemma_kinds_differ();
    let t = ticked(s, now_ms);
    let action = GatewayActionView::Record(request_id, result);
    let protected = protected_gateway(t, connection, gateway_id);
    law_ticking_keeps_ledger_sound(s, now_ms);
    let u = ticked(t, now_ms);
    assert(u =~= t);
    law_reclaiming_keeps_ledger_sound(u, u.clock_high_water_ms, protected);
    let w = reclaimed(u, u.clock_high_water_ms, protected);
    let r = record_at(s, gateway_id, request_id, result, now_ms);
    lemma_room_after_reclaiming(u, u.clock_high_water_ms, protected, r);
    lemma_result_position_is(
        w.outbound_results,
        gateway_id,
        request_id,
        w.outbound_results.len() as int,
    );
    let q = durable_turn(t, gateway_id, action, protected, now_ms, arrived_at);
    assert(first_turn(s, frame, connection, gateway_id, now_ms, arrived_at) == q);
    let z = admission_turn(w, gateway_id, action, arrived_at);
    assert(finished(q) == finished(z));
}

/// A typing notice under a new request is answered with success and recorded;
/// nothing is queued.
pub proof fn law_typing_frame_is_recorded(
    s: RelayView,
    frame: JsonView,
    connection: Option<u64>,
    gateway_id: Seq<char>,
    request_id: Seq<char>,
    now_ms: u64,
    arrived_at: u64,
)
    requires
        sound_ledger(s),
        s.persistence_failure is None,
        frame.field("type"@).text() == Some("outbound"@),
        frame.field("requestId"@).text() == Some(request_id),
        frame.field("action"@).field("op"@).text() == Some("typing"@),
        valid_opaque_id(request_id),
        connection is Some ==> owns(s.connections, connection->0, gateway_id),
        is_new(s.outbound_results, gateway_id, request_id),
        ledger_has_room(s, record_at(s, gateway_id, request_id, success_json(), now_ms)),
    ensures
        ({
            let x = finished(first_turn(s, frame, connection, gateway_id, now_ms, arrived_at));
            &&& records(s, x.0, gateway_id, request_id, success_json(), now_ms)
            &&& x.1 == Some(
                action_reply(
                    request_id,
                    ActionResultView {
                        result: success_json(),
                        result_id: Some((s.next_outbound_result_id + 1) as u64),
                    },
                ),
            )
        }),
{
    lemma_ops_differ();
    lemma_unanswered(s, gateway_id, request_id, now_ms);
    lemma_recorded(
        s,
        frame,
        connection,
        gateway_id,
        request_id,
        success_json(),
        now_ms,
        arrived_at,
    );
}

/// An operation that the relay does not know, under a new request, is answered
/// with a failure that names it, and the failure is recorded; nothing is queued.
pub proof fn law_unknown_operation_is_recorded(
    s: RelayView,
    frame: JsonView,
    connection: Option<u64>,
    gateway_id: Seq<char>,
    request_id: Seq<char>,
    op: Seq<char>,
    now_ms: u64,
    arrived_at: u64,
)
    requires
        sound_ledger(s),
        s.persistence_failure is None,
        frame.field("type"@).text() == Some("outbound"@),
        frame.field("requestId"@).text() == Some(request_id),
        frame.field("action"@).field("op"@).text() == Some(op),
        op != "send"@,
        op != "typing"@,
        utf8_len(op) <= MAX_OUTBOUND_OPERATION_BYTES,
        valid_opaque_id(request_id),
        connection is Some ==> owns(s.connections, connection->0, gateway_id),
        is_new(s.outbound_results, gateway_id, request_id),
        ledger_has_room(
            s,
            record_at(
                s,
                gateway_id,
                request_id,
                failure_json("op "@ + op + " not implemented"@),
                now_ms,
            ),
        ),
    ensures
        ({
            let x = finished(first_turn(s, frame, connection, gateway_id, now_ms, arrived_at));
            let result = failure_json("op "@ + op + " not implemented"@);
            &&& records(s, x.0, gateway_id, request_id, result, now_ms)
            &&& x.1 == Some(
                action_reply(
                    request_id,
                    ActionResultView {
                        result,
                        result_id: Some((s.next_outbound_result_id + 1) as u64),
                    },
                ),
            )
        }),
{
    lemma_unanswered(s, gateway_id, request_id, now_ms);
    lemma_recorded(
        s,
        frame,
        connection,
        gateway_id,
        request_id,
        failure_json("op "@ + op + " not implemented"@),
        now_ms,
        arrived_at,
    );
}

proof fn lemma_unanswered(
    s: RelayView,
    gateway_id: Seq<char>,
    request_id: Seq<char>,
    now_ms: u64,
)
    requires
        is_new(s.outbound_results, gateway_id, request_id),
    ensures
        ({
            let t = ticked(s, now_ms);
            live_position(
                t.outbound_results,
                gateway_id,
                request_id,
                t.clock_high_water_ms,
                active_gateway(t.connections),
                0,
            ) == t.outbound_results.len()
        }),
{
    let t = ticked(s, now_ms);
    lemma_live_position(
        t.outbound_results,
        gateway_id,
        request_id,
        t.clock_high_water_ms,
        active_gateway(t.connections),
        0,
    );
}

/// Whether only the clock may have moved on.
pub open spec fn only_time_passed(before: RelayView, after: RelayView) -> bool {
    after == (RelayView { clock_high_water_ms: after.clock_high_water_ms, ..before })
}

/// An action over a connection that is not in charge of its gateway is not
/// heard: no answer, and nothing is changed.
pub proof fn law_only_the_connection_in_charge_acts(
    s: RelayView,
    frame: JsonView,
    connection: u64,
    gateway_id: Seq<char>,
    request_id: Seq<char>,
    now_ms: u64,
    arrived_at: u64,
)
    requires
        !owns(s.connections, connection, gateway_id),
        frame.field("requestId"@).text() == Some(request_id),
        valid_opaque_id(request_id),
        is_new(s.outbound_results, gateway_id, request_id),
        ({
            ||| {
                &&& frame.field("type"@).text() == Some("outbound_result_ack"@)
                &&& frame.field("resultId"@).natural() is Some
                &&& 1 <= frame.field("resultId"@).natural()->0 <= MAX_SAFE_SEQUENCE
            }
            ||| {
                &&& frame.field("type"@).text() == Some("outbound"@)
                &&& frame.field("action"@).field("op"@).text() == Some("typing"@)
            }
            ||| exists|chat_id: Seq<char>, content: Seq<char>, reply_to: Option<Seq<char>>|
                #[trigger] asks_to_send(frame, request_id, chat_id, content, reply_to)
                    && may_be_sent(request_id, chat_id, content, reply_to)
        }),
    ensures
        ({
            let x = finished(
                first_turn(s, frame, Some(connection), gateway_id, now_ms, arrived_at),
            );
            &&& only_time_passed(s, x.0)
            &&& x.1 is None
        }),
{
    lemma_kinds_differ();
    lemma_more_kinds();
    lemma_ops_differ();
    lemma_unanswered(s, gateway_id, request_id, now_ms);
}

proof fn lemma_more_kinds()
    ensures
        "hello"@ != "outbound_result_ack"@,
        "hello"@ != "inbound_ack"@,
        "outbound_result_ack"@ != "inbound_ack"@,
{
    reveal_strlit("hello");
    reveal_strlit("outbound_result_ack");
    reveal_strlit("inbound_ack");
    assert("hello"@.len() == 5 && "outbound_result_ack"@.len() == 19 && "inbound_ack"@.len() == 11);
}

/// A send that cannot be made as it is is refused with the reason, and nothing
/// is queued, recorded or answered by it. The reasons are looked for in this
/// order: no lane, no content, too much content, an empty message named.
pub proof fn law_faulty_send_is_refused(
    s: RelayView,
    frame: JsonView,
    connection: Option<u64>,
    gateway_id: Seq<char>,
    request_id: Seq<char>,
    now_ms: u64,
    arrived_at: u64,
)
    requires
        frame.field("type"@).text() == Some("outbound"@),
        frame.field("requestId"@).text() == Some(request_id),
        frame.field("action"@).field("op"@).text() == Some("send"@),
        valid_opaque_id(request_id),
        is_new(s.outbound_results, gateway_id, request_id),
    ensures
        ({
            let x = finished(first_turn(s, frame, connection, gateway_id, now_ms, arrived_at));
            let chat_id = frame.field("action"@).field("chat_id"@).text();
            let content = frame.field("action"@).field("content"@).text();
            let reply_to = frame.field("action"@).field("reply_to"@).text();
            let no_lane = chat_id is None || blank(chat_id->0);
            let no_content = content is None || blank(content->0);
            let too_much = content is Some && utf8_len(content->0) > MAX_DELIVERY_CONTENT_BYTES;
            let no_message = reply_to is Some && !valid_opaque_id(reply_to->0);
            let error = if no_lane {
                RelayError::ChatIdRequired
            } else if no_content {
                RelayError::ContentRequired
            } else if too_much {
                RelayError::ContentTooLarge
            } else {
                RelayError::ReplyToBlank
            };
            no_lane || no_content || too_much || no_message ==> {
                &&& only_time_passed(s, x.0)
                &&& x.1 == Some(
                    action_reply(
                        request_id,
                        ActionResultView { result: failure_json(error.words()), result_id: None },
                    ),
                )
            }
        }),
{
    lemma_kinds_differ();
    lemma_ops_differ();
    lemma_unanswered(s, gateway_id, request_id, now_ms);
}

/// A hello is answered with the descriptor and changes nothing; a frame of a kind
/// that is not known is not answered and changes nothing.
pub proof fn law_hello_and_unknown_frames_change_nothing(
    s: RelayView,
    frame: JsonView,
    connection: Option<u64>,
    gateway_id: Seq<char>,
    now_ms: u64,
    arrived_at: u64,
)
    ensures
        ({
            let x = finished(first_turn(s, frame, connection, gateway_id, now_ms, arrived_at));
            let kind = frame.field("type"@).text();
            &&& kind == Some("hello"@) ==> x == (s, Some(descriptor_reply()))
            &&& (kind != Some("hello"@) && kind != Some("outbound"@) && kind != Some(
                "outbound_result_ack"@,
            ) && kind != Some("inbound_ack"@)) ==> x == (s, None::<Seq<char>>)
        }),
{
    lemma_kinds_differ();
    lemma_more_kinds();
}

// ---- confirmations --------------------------------------------------------------

/// Selects the responses other than this one.
pub open spec fn other_response(
    gateway_id: Seq<char>,
    request_id: Seq<char>,
    result_id: u64,
) -> spec_fn(OutboundResultView) -> bool {
    |r: OutboundResultView|
        !(r.gateway_id == gateway_id && r.request_id == request_id && r.result_id == result_id)
}

proof fn lemma_remove_is_filter(
    v: Seq<OutboundResultView>,
    p: int,
    q: spec_fn(OutboundResultView) -> bool,
)
    requires
        0 <= p < v.len(),
        !q(v[p]),
        forall|i: int| 0 <= i < v.len() && i != p ==> q(#[trigger] v[i]),
    ensures
        v.remove(p) == v.filter(q),
    decreases v.len(),
{
    reveal(Seq::filter);
    let d = v.drop_last();
    if p == v.len() - 1 {
        assert(v.remove(p) =~= d);
        lemma_filter_all(d, q);
    } else {
        assert forall|i: int| 0 <= i < d.len() && i != p implies q(#[trigger] d[i]) by {
            assert(d[i] == v[i]);
        }
        lemma_remove_is_filter(d, p, q);
        assert(q(v[v.len() - 1]));
        assert(v.remove(p) =~= d.remove(p).push(v.last()));
    }
}

proof fn lemma_filter_all<A>(v: Seq<A>, q: spec_fn(A) -> bool)
    requires
        forall|i: int| 0 <= i < v.len() ==> q(#[trigger] v[i]),
    ensures
        v.filter(q) == v,
    decreases v.len(),
{
    reveal(Seq::filter);
    if v.len() > 0 {
        let d = v.drop_last();
        assert forall|i: int| 0 <= i < d.len() implies q(#[trigger] d[i]) by {
            assert(d[i] == v[i]);
        }
        lemma_filter_all(d, q);
        assert(q(v[v.len() - 1]));
        assert(d.push(v.last()) =~= v);
    } else {
        assert(v.filter(q) =~= v);
    }
}

/// A confirmation of a recorded response, by its request and its identifier,
/// removes exactly that response, and is answered with both.
pub proof fn law_confirmation_frame_retires_the_response(
    s: RelayView,
    frame: JsonView,
    connection: Option<u64>,
    gateway_id: Seq<char>,
    request_id: Seq<char>,
    result_id: u64,
    i: int,
    now_ms: u64,
    arrived_at: u64,
)
    requires
        sound_ledger(s),
        s.persistence_failure is None,
        frame.field("type"@).text() == Some("outbound_result_ack"@),
        frame.field("requestId"@).text() == Some(request_id),
        frame.field("resultId"@).natural() == Some(result_id),
        valid_opaque_id(request_id),
        connection is Some ==> owns(s.connections, connection->0, gateway_id),
        0 <= i < s.outbound_results.len(),
        s.outbound_results[i].gateway_id == gateway_id,
        s.outbound_results[i].request_id == request_id,
        s.outbound_results[i].result_id == result_id,
    ensures
        ({
            let x = finished(first_turn(s, frame, connection, gateway_id, now_ms, arrived_at));
            let trace = RetiredOutboundResultView { gateway_id, request_id, result_id };
            &&& x.0.outbound_results == s.outbound_results.filter(
                other_response(gateway_id, request_id, result_id),
            )
            &&& x.0.retired_outbound_results.len() > 0
            &&& x.0.retired_outbound_results.last() == trace
            &&& x.0 == (RelayView {
                outbound_results: x.0.outbound_results,
                retired_outbound_results: x.0.retired_outbound_results,
                ..s
            })
            &&& x.1 == Some(retirement_reply(request_id, result_id, ResultRetirement::Retired))
        }),
{
    lemma_kinds_differ();
    lemma_more_kinds();
    let v = s.outbound_results;
    assert(valid_result(v[i], s.next_outbound_result_id, s.clock_high_water_ms, s.next_seq));
    lemma_valid_trace_fits(trace_of(v[i]), s.next_outbound_result_id);
    assert forall|k: int| 0 <= k < i implies !answers(#[trigger] v[k], gateway_id, request_id) by {
        assert(!answers(v[i], v[k].gateway_id, v[k].request_id));
    }
    lemma_result_position_is(v, gateway_id, request_id, i);
    let q = other_response(gateway_id, request_id, result_id);
    assert forall|k: int| 0 <= k < v.len() && k != i implies q(#[trigger] v[k]) by {
        if k < i {
            assert(!answers(v[i], v[k].gateway_id, v[k].request_id));
        } else {
            assert(!answers(v[k], v[i].gateway_id, v[i].request_id));
        }
    }
    lemma_remove_is_filter(v, i, q);
    law_traces_are_bounded(s.retired_outbound_results, trace_of(v[i]));
    assert(trace_of(v[i]) =~= RetiredOutboundResultView { gateway_id, request_id, result_id });
}

/// A confirmation of anything else removes nothing: one that was confirmed before
/// is accepted again, any other is refused.
pub proof fn law_other_confirmations_change_nothing(
    s: RelayView,
    frame: JsonView,
    connection: Option<u64>,
    gateway_id: Seq<char>,
    request_id: Seq<char>,
    result_id: u64,
    now_ms: u64,
    arrived_at: u64,
)
    requires
        s.persistence_failure is None,
        frame.field("type"@).text() == Some("outbound_result_ack"@),
        frame.field("requestId"@).text() == Some(request_id),
        frame.field("resultId"@).natural() == Some(result_id),
        1 <= result_id <= MAX_SAFE_SEQUENCE,
        valid_opaque_id(request_id),
        connection is Some ==> owns(s.connections, connection->0, gateway_id),
        is_new(s.outbound_results, gateway_id, request_id),
    ensures
        finished(first_turn(s, frame, connection, gateway_id, now_ms, arrived_at)) == (
            s,
            Some(
                if s.retired_outbound_results.contains(
                    RetiredOutboundResultView { gateway_id, request_id, result_id },
                ) {
                    retirement_reply(request_id, result_id, ResultRetirement::AlreadyRetired)
                } else {
                    retirement_error_reply(
                        request_id,
                        result_id,
                        RelayError::ResultIdMismatch.words(),
                    )
                },
            ),
        ),
{
    lemma_kinds_differ();
    lemma_more_kinds();
    lemma_result_position_is(
        s.outbound_results,
        gateway_id,
        request_id,
        s.outbound_results.len() as int,
    );
}

// ---- acknowledgements -----------------------------------------------------------

/// Selects the turns other than this one.
pub open spec fn other_turn(message_id: Seq<char>, generation: u64) -> spec_fn(
    InboundMessageView,
) -> bool {
    |m: InboundMessageView| !(m.message_id == message_id && m.generation == generation)
}

/// An acknowledgement of a waiting turn, by its message and its generation,
/// removes exactly that turn, remembers it, and is answered with both.
pub proof fn law_acknowledgement_frame_removes_the_turn(
    s: RelayView,
    frame: JsonView,
    connection: Option<u64>,
    gateway_id: Seq<char>,
    message_id: Seq<char>,
    generation: u64,
    i: int,
    now_ms: u64,
    arrived_at: u64,
)
    requires
        s.persistence_failure is None,
        frame.field("type"@).text() == Some("inbound_ack"@),
        frame.field("messageId"@).text() == Some(message_id),
        frame.field("generation"@).natural() == Some(generation),
        1 <= generation <= MAX_SAFE_SEQUENCE,
        valid_opaque_id(message_id),
        connection is Some ==> is_active(s.connections, connection->0),
        0 <= i < s.inbound.len(),
        s.inbound[i].message_id == message_id,
        s.inbound[i].generation == generation,
        !s.acknowledged_inbound.contains(InboundAckTombstoneView { message_id, generation }),
        tombstone_fits(InboundAckTombstoneView { message_id, generation }),
    ensures
        ({
            let x = finished(first_turn(s, frame, connection, gateway_id, now_ms, arrived_at));
            &&& x.0.inbound == s.inbound.filter(other_turn(message_id, generation))
            &&& x.0.acknowledged_inbound.len() > 0
            &&& x.0.acknowledged_inbound.last() == (InboundAckTombstoneView {
                message_id,
                generation,
            })
            &&& x.0 == (RelayView {
                inbound: x.0.inbound,
                acknowledged_inbound: x.0.acknowledged_inbound,
                ..s
            })
            &&& x.1 == Some(
                acknowledgement_reply(message_id, generation, InboundAckResult::Acknowledged),
            )
        }),
{
    lemma_kinds_differ();
    lemma_more_kinds();
    assert(has_identity(s.inbound[i], message_id, generation));
    assert(waits(s.inbound, message_id, generation));
    crate::daemon::answers::lemma_filter_same(
        s.inbound,
        other_than(message_id, generation),
        other_turn(message_id, generation),
    );
}

/// An acknowledgement of anything else removes nothing: one that was acknowledged
/// before is accepted again, any other is refused.
pub proof fn law_other_acknowledgements_change_nothing(
    s: RelayView,
    frame: JsonView,
    connection: Option<u64>,
    gateway_id: Seq<char>,
    message_id: Seq<char>,
    generation: u64,
    now_ms: u64,
    arrived_at: u64,
)
    requires
        s.persistence_failure is None,
        frame.field("type"@).text() == Some("inbound_ack"@),
        frame.field("messageId"@).text() == Some(message_id),
        frame.field("generation"@).natural() == Some(generation),
        1 <= generation <= MAX_SAFE_SEQUENCE,
        valid_opaque_id(message_id),
        connection is Some ==> is_active(s.connections, connection->0),
    ensures
        s.acknowledged_inbound.contains(InboundAckTombstoneView { message_id, generation })
            ==> finished(first_turn(s, frame, connection, gateway_id, now_ms, arrived_at)) == (
            s,
            Some(
                acknowledgement_reply(
                    message_id,
                    generation,
                    InboundAckResult::AlreadyAcknowledged,
                ),
            ),
        ),
        !s.acknowledged_inbound.contains(InboundAckTombstoneView { message_id, generation }) && (
        forall|i: int|
            0 <= i < s.inbound.len() ==> (#[trigger] s.inbound[i]).message_id != message_id
                || s.inbound[i].generation != generation) ==> finished(
            first_turn(s, frame, connection, gateway_id, now_ms, arrived_at),
        ) == (
            s,
            Some(
                acknowledgement_error_reply(
                    message_id,
                    generation,
                    RelayError::InboundAckMismatch.words(),
                ),
            ),
        ),
{
    lemma_kinds_differ();
    lemma_more_kinds();
}

/// An acknowledgement over a socket that is not in charge is not heard.
pub proof fn law_only_the_active_connection_acknowledges(
    s: RelayView,
    frame: JsonView,
    connection: u64,
    gateway_id: Seq<char>,
    message_id: Seq<char>,
    generation: u64,
    now_ms: u64,
    arrived_at: u64,
)
    requires
        !is_active(s.connections, connection),
        frame.field("type"@).text() == Some("inbound_ack"@),
        frame.field("messageId"@).text() == Some(message_id),
        frame.field("generation"@).natural() == Some(generation),
        1 <= generation <= MAX_SAFE_SEQUENCE,
        valid_opaque_id(message_id),
    ensures
        finished(first_turn(s, frame, Some(connection), gateway_id, now_ms, arrived_at)) == (
            s,
            None::<Seq<char>>,
        ),
{
    lemma_kinds_differ();
    lemma_more_kinds();
}

// ---- over a connection ----------------------------------------------------------

/// Over the connection in charge a frame does what it does anywhere, but for a
/// send to a lane that is not known: that one is refused by name, and nothing is
/// changed. Over any other connection nothing is heard.
pub proof fn law_line_does_what_its_frame_does(
    s: RelayView,
    connection_id: u64,
    gateway_id: Seq<char>,
    frame: JsonView,
    lanes: Seq<LaneView>,
    now_ms: u64,
    arrived_at: u64,
)
    ensures
        ({
            let c = connection_turn(
                s,
                connection_id,
                gateway_id,
                Some(frame),
                Some(lanes),
                now_ms,
                arrived_at,
            );
            let heard = owns(s.connections, connection_id, gateway_id) && is_active(
                s.connections,
                connection_id,
            );
            let request_id = frame.field("requestId"@).text();
            let chat_id = frame.field("action"@).field("chat_id"@).text();
            let sends = {
                &&& frame.field("type"@).text() == Some("outbound"@)
                &&& frame.field("action"@).field("op"@).text() == Some("send"@)
                &&& request_id is Some
                &&& valid_opaque_id(request_id->0)
            };
            let known = exists|i: int|
                0 <= i < lanes.len() && Some((#[trigger] lanes[i]).id) == chat_id;
            &&& !heard ==> finished(c) == (s, None::<Seq<char>>)
            &&& (heard && (!sends || is_new(s.outbound_results, gateway_id, request_id->0)) && (
            !sends || chat_id is None || blank(chat_id->0) || known)) ==> finished(c) == finished(
                first_turn(s, frame, Some(connection_id), gateway_id, now_ms, arrived_at),
            )
            &&& (heard && sends && is_new(s.outbound_results, gateway_id, request_id->0) && chat_id
                is Some && !blank(chat_id->0) && !known) ==> {
                &&& only_time_passed(s, finished(c).0)
                &&& finished(c).1 == Some(
                    action_reply(
                        request_id->0,
                        ActionResultView {
                            result: failure_json("unknown lane "@ + chat_id->0),
                            result_id: None,
                        },
                    ),
                )
            }
        }),
{
    let t = ticked(s, now_ms);
    assert(ticked(t, now_ms) =~= t);
    let request_id = frame.field("requestId"@).text();
    if request_id is Some && is_new(s.outbound_results, gateway_id, request_id->0) {
        lemma_unanswered(s, gateway_id, request_id->0, now_ms);
    }
    if is_send(frame) {
        lemma_kinds_differ();
        assert(first_turn(t, frame, Some(connection_id), gateway_id, now_ms, arrived_at)
            == first_turn(s, frame, Some(connection_id), gateway_id, now_ms, arrived_at));
    }
}

// ---- without a frame ------------------------------------------------------------

/// A reply that is queued for a lane stands last in the queue, under the next
/// sequence, as it was given; the message that it names is no longer awaited, and
/// nothing else is different.
pub proof fn law_queued_reply_stands_last(
    before: RelayView,
    after: RelayView,
    chat_id: Seq<char>,
    content: Seq<char>,
    reply_to: Option<Seq<char>>,
    arrived_at: u64,
    seq: u64,
)
    requires
        gateway_queued(
            before,
            after,
            chat_id,
            content,
            reply_to,
            arrived_at,
            Ok::<u64, RelayError>(seq),
        ),
    ensures
        seq == before.next_seq + 1,
        after.deliveries.len() == before.deliveries.len() + 1,
        after.deliveries.drop_last() == before.deliveries,
        after.deliveries.last().seq == seq,
        after.deliveries.last().chat_id == chat_id,
        after.deliveries.last().content == content,
        after.deliveries.last().reply_to == reply_to,
        after.deliveries.last().arrived_at == arrived_at,
        after.next_seq == seq,
        match reply_to {
            Some(message_id) => after.pending_requests.to_multiset()
                == before.pending_requests.to_multiset().remove(
                PendingRequestView { lane_id: chat_id, message_id },
            ),
            None => after.pending_requests == before.pending_requests,
        },
        after == (RelayView {
            deliveries: after.deliveries,
            next_seq: after.next_seq,
            pending_requests: after.pending_requests,
            ..before
        }),
{
    lemma_answered_by(before.pending_requests, chat_id, reply_to);
    assert(after.deliveries.drop_last() =~= before.deliveries);
}

/// A delivery is queued exactly when its lane is well named, its content is not
/// too long, it names a message or none, the relay can write, and the queue has
/// room.
pub proof fn law_delivery_is_queued_when_it_can_be(
    s: RelayView,
    chat_id: Seq<char>,
    content: Seq<char>,
    reply_to: Option<Seq<char>>,
    arrived_at: u64,
)
    ensures
        enqueue_refusal(s, chat_id, content, reply_to, arrived_at) is None <==> {
            &&& valid_lane_id(chat_id)
            &&& utf8_len(content) <= MAX_DELIVERY_CONTENT_BYTES
            &&& (reply_to is Some ==> valid_opaque_id(reply_to->0))
            &&& s.persistence_failure is None
            &&& queue_has_room(
                s,
                DeliveryView {
                    seq: (s.next_seq + 1) as u64,
                    chat_id,
                    content,
                    reply_to,
                    arrived_at,
                },
            )
        },
{
}

/// A send under a new request, while there is room, is queued as it was given,
/// and its response recorded, also where no frame asked for it.
pub proof fn law_direct_send_queues_its_reply(
    s: RelayView,
    gateway_id: Seq<char>,
    request_id: Seq<char>,
    chat_id: Seq<char>,
    content: Seq<char>,
    reply_to: Option<Seq<char>>,
    protected: Option<Seq<char>>,
    now_ms: u64,
    arrived_at: u64,
)
    requires
        sound_ledger(s),
        s.persistence_failure is None,
        utf8_len(content) <= MAX_DELIVERY_CONTENT_BYTES,
        reply_to is Some ==> valid_opaque_id(reply_to->0),
        is_new(s.outbound_results, gateway_id, request_id),
        queue_has_room(
            s,
            DeliveryView {
                seq: (s.next_seq + 1) as u64,
                chat_id,
                content,
                reply_to,
                arrived_at,
            },
        ),
        ledger_has_room(
            s,
            OutboundResultView {
                gateway_id,
                request_id,
                result_id: (s.next_outbound_result_id + 1) as u64,
                result: success_json(),
                delivery_seq: Some((s.next_seq + 1) as u64),
                last_seen_at_ms: later(s.clock_high_water_ms, now_ms),
            },
        ),
    ensures
        ({
            let x = send_turn(
                s,
                gateway_id,
                request_id,
                chat_id,
                content,
                reply_to,
                protected,
                now_ms,
                arrived_at,
            );
            let d = x.0.deliveries.last();
            let r = x.0.outbound_results.last();
            &&& x.0.deliveries.drop_last() == s.deliveries
            &&& d.seq == s.next_seq + 1
            &&& d.chat_id == chat_id
            &&& d.content == content
            &&& d.reply_to == reply_to
            &&& d.arrived_at == arrived_at
            &&& r.gateway_id == gateway_id
            &&& r.request_id == request_id
            &&& r.result_id == s.next_outbound_result_id + 1
            &&& r.result == success_json()
            &&& r.delivery_seq == Some(d.seq)
            &&& r.last_seen_at_ms == later(s.clock_high_water_ms, now_ms)
            &&& match reply_to {
                Some(message_id) => x.0.pending_requests.to_multiset()
                    == s.pending_requests.to_multiset().remove(
                    PendingRequestView { lane_id: chat_id, message_id },
                ),
                None => x.0.pending_requests == s.pending_requests,
            }
            &&& x.1 == Ok::<ActionResultView, RelayError>(
                ActionResultView { result: success_json(), result_id: Some(r.result_id) },
            )
        }),
{
    let t = ticked(s, now_ms);
    law_ticking_keeps_ledger_sound(s, now_ms);
    law_reclaiming_keeps_ledger_sound(t, t.clock_high_water_ms, protected);
    let w = reclaimed(t, t.clock_high_water_ms, protected);
    let r = OutboundResultView {
        gateway_id,
        request_id,
        result_id: (s.next_outbound_result_id + 1) as u64,
        result: success_json(),
        delivery_seq: Some((s.next_seq + 1) as u64),
        last_seen_at_ms: later(s.clock_high_water_ms, now_ms),
    };
    lemma_room_after_reclaiming(t, t.clock_high_water_ms, protected, r);
    lemma_result_position_is(
        w.outbound_results,
        gateway_id,
        request_id,
        w.outbound_results.len() as int,
    );
    lemma_answered_by(s.pending_requests, chat_id, reply_to);
    let x = send_turn(
        s,
        gateway_id,
        request_id,
        chat_id,
        content,
        reply_to,
        protected,
        now_ms,
        arrived_at,
    );
    assert(x.0.deliveries.drop_last() =~= s.deliveries);
}

/// A response under a new request, while there is room, is recorded as it was
/// given, and given back with its identifier.
pub proof fn law_direct_record_is_kept(
    s: RelayView,
    gateway_id: Seq<char>,
    request_id: Seq<char>,
    result: Seq<char>,
    protected: Option<Seq<char>>,
    now_ms: u64,
)
    requires
        sound_ledger(s),
        s.persistence_failure is None,
        is_new(s.outbound_results, gateway_id, request_id),
        ledger_has_room(s, record_at(s, gateway_id, request_id, result, now_ms)),
    ensures
        ({
            let x = record_turn(s, gateway_id, request_id, result, protected, now_ms);
            &&& records(s, x.0, gateway_id, request_id, result, now_ms)
            &&& x.1 == Ok::<ActionResultView, RelayError>(
                ActionResultView {
                    result,
                    result_id: Some((s.next_outbound_result_id + 1) as u64),
                },
            )
        }),
{
    let t = ticked(s, now_ms);
    law_ticking_keeps_ledger_sound(s, now_ms);
    law_reclaiming_keeps_ledger_sound(t, t.clock_high_water_ms, protected);
    let w = reclaimed(t, t.clock_high_water_ms, protected);
    let r = record_at(s, gateway_id, request_id, result, now_ms);
    lemma_room_after_reclaiming(t, t.clock_high_water_ms, protected, r);
    lemma_result_position_is(
        w.outbound_results,
        gateway_id,
        request_id,
        w.outbound_results.len() as int,
    );
}

/// Giving up old responses removes exactly those of other gateways that are a day
/// old or more; whatever is younger, or of the protected gateway, stays.
pub proof fn law_day_old_responses_are_given_up(
    s: RelayView,
    now_ms: u64,
    protected: Option<Seq<char>>,
    r: OutboundResultView,
)
    ensures
        reclaimed(s, now_ms, protected).outbound_results.contains(r) <==> {
            &&& s.outbound_results.contains(r)
            &&& (protected == Some(r.gateway_id) || now_ms - r.last_seen_at_ms < 86_400_000)
        },
        reclaimed(s, now_ms, protected) == (RelayView {
            outbound_results: reclaimed(s, now_ms, protected).outbound_results,
            retired_outbound_results: reclaimed(s, now_ms, protected).retired_outbound_results,
            ..s
        }),
{
    lemma_filter_holds(s.outbound_results, unexpired(now_ms, protected));
}

/// A response protects its request while its gateway is connected, and for a day
/// after that it was last seen.
pub proof fn law_response_protects_for_a_day(
    r: OutboundResultView,
    now_ms: u64,
    active: Option<Seq<char>>,
)
    ensures
        live(r, now_ms, active) <==> active == Some(r.gateway_id) || now_ms - r.last_seen_at_ms
            < 86_400_000,
{
}

// ---- what cannot be taken -------------------------------------------------------

/// The reply that refuses a request.
pub open spec fn refused(request_id: Seq<char>, why: Seq<char>) -> Seq<char> {
    action_reply(request_id, ActionResultView { result: failure_json(why), result_id: None })
}

/// A frame that lacks what it must name is told so under the name that it has, and
/// changes nothing.
pub proof fn law_malformed_frames_are_told_why(
    s: RelayView,
    frame: JsonView,
    connection: Option<u64>,
    gateway_id: Seq<char>,
    now_ms: u64,
    arrived_at: u64,
)
    ensures
        ({
            let kind = frame.field("type"@).text();
            let request_id = frame.field("requestId"@).text();
            let message_id = frame.field("messageId"@).text();
            let result_id = frame.field("resultId"@).natural();
            let generation = frame.field("generation"@).natural();
            let named = request_id is Some && valid_opaque_id(request_id->0);
            let told = |reply: Seq<char>|
                first_turn(s, frame, connection, gateway_id, now_ms, arrived_at) == (
                    s,
                    ProgressView::Done(Some(reply)),
                );
            &&& kind == Some("outbound_result_ack"@) && !named ==> told(
                refused(Seq::empty(), "requestId is required"@),
            )
            &&& kind == Some("outbound_result_ack"@) && named && (result_id is None || result_id->0
                == 0 || result_id->0 > 9_007_199_254_740_991) ==> told(
                refused(request_id->0, "resultId is required"@),
            )
            &&& kind == Some("outbound"@) && request_id is None ==> told(
                refused(Seq::empty(), "requestId is required"@),
            )
            &&& kind == Some("outbound"@) && request_id is Some && !named ==> told(
                refused(Seq::empty(), "requestId exceeds maximum length"@),
            )
            &&& kind == Some("inbound_ack"@) && (message_id is None || !valid_opaque_id(
                message_id->0,
            )) ==> told(acknowledgement_error_reply(Seq::empty(), 0, "messageId is required"@))
            &&& kind == Some("inbound_ack"@) && message_id is Some && valid_opaque_id(
                message_id->0,
            ) && (generation is None || generation->0 == 0 || generation->0
                > 9_007_199_254_740_991) ==> told(
                acknowledgement_error_reply(message_id->0, 0, "generation is required"@),
            )
        }),
{
    lemma_kinds_differ();
    lemma_more_kinds();
}

/// Where a snapshot cannot be written for certain, whoever asked for it is told so
/// under the name of the request or the turn; a snapshot that was not replaced
/// leaves the relay as it was.
pub proof fn law_unwritten_action_is_told(
    s: RelayView,
    turn: TurnView,
    outcome: WriteOutcome,
    failure: Seq<char>,
)
    requires
        outcome != WriteOutcome::Committed,
        s.persistence_failure is None,
    ensures
        ({
            let p = next_turn(s, turn, outcome, failure);
            &&& p.1 is Done
            &&& p.1->Done_0 == Some(
                match turn.action {
                    GatewayActionView::Send(request_id, _, _, _) => refused(
                        request_id,
                        "delivery persistence failed"@,
                    ),
                    GatewayActionView::Record(request_id, _) => refused(
                        request_id,
                        "result persistence failed"@,
                    ),
                    GatewayActionView::Retire(request_id, result_id) => retirement_error_reply(
                        request_id,
                        result_id,
                        "result retirement persistence failed"@,
                    ),
                    GatewayActionView::Acknowledge(message_id, generation) =>
                        acknowledgement_error_reply(
                        message_id,
                        generation,
                        "inbound acknowledgement persistence failed"@,
                    ),
                },
            )
            &&& outcome == WriteOutcome::NotReplaced ==> {
                &&& p.0.deliveries == turn.before.deliveries
                &&& p.0.next_seq == turn.before.next_seq
                &&& p.0.outbound_results == turn.before.outbound_results
                &&& p.0.retired_outbound_results == turn.before.retired_outbound_results
                &&& p.0.inbound == turn.before.inbound
                &&& p.0.acknowledged_inbound == turn.before.acknowledged_inbound
                &&& p.0.pending_requests == turn.before.pending_requests
                &&& p.0.persistence_failure is None
            }
            &&& outcome == WriteOutcome::Uncertain ==> p.0.persistence_failure == Some(failure)
        }),
{
}

} // verus!
