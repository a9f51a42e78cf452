//! What callers of the relay can count on across operations: retries, receipts,
//! namespaces, consumption, and the handoff of voice turns.
use vstd::prelude::*;

use crate::json::{
    json_string, lemma_array_bytes_push, lemma_decimal_bytes, lemma_json_string_bytes,
    lemma_key_bytes, lemma_member_bytes, lemma_object_bytes, member, member_texts,
};
use crate::proto::valid_opaque_id;
use crate::relay::deliveries::{enqueued, left, next_delivery, of_lane, picked, unspoken};
use crate::relay::errors::RelayError;
use crate::relay::inbound::{
    acknowledgement, after_acknowledgement, carries, entombed, event_value, has_identity,
    identity_of, inbound_added, inbound_frame, inbound_position, inbound_record, inbound_verdict,
    law_tombstones_are_bounded, lemma_inbound_position, next_inbound, other_than,
    room_for_tombstone, tombstone, tombstone_fits, waits, InboundAckResult, InboundVerdict,
};
use crate::relay::records::{
    inbound_json, inbound_jsons, tombstone_json, tombstone_jsons, tombstone_members, DeliveryView,
    InboundAckTombstoneView, InboundMessageView, OutboundResultView,
};
use crate::relay::results::{
    after_record, after_retirement, after_send, answers, law_traces_are_bounded,
    lemma_result_position, lemma_result_position_is, next_result, record_verdict, recorded,
    result_position, retirement, room_for_trace, send_verdict, success_json, trace_of, traced,
    verdict_answer, ResultRetirement,
};
use crate::relay::snapshots::{
    first_turn_fault, inbound_fault, turn_fault, valid_identity, valid_result, valid_tombstone,
};
use crate::relay::soundness::{
    lemma_filter_bytes, lemma_valid_trace_fits, sound_deliveries, sound_ledger,
};
use crate::relay::state::{
    fresh_relay, RelayView, INBOUND_HANDOFF_VERSION, INBOUND_SNAPSHOT_VERSION,
};
use crate::text::decimal;
use crate::value::{
    differs_at, law_json_same_as_itself, member_from, natural_value, plain_key, plain_value,
    reads_back, text_before, JsonView,
};

verus! {

// ---- retries --------------------------------------------------------------------

proof fn lemma_pushed_is_found(
    v: Seq<OutboundResultView>,
    r: OutboundResultView,
)
    requires
        result_position(v, r.gateway_id, r.request_id, 0) == v.len(),
    ensures
        result_position(v.push(r), r.gateway_id, r.request_id, 0) == v.len(),
{
    lemma_result_position(v, r.gateway_id, r.request_id, 0);
    let w = v.push(r);
    assert forall|k: int| 0 <= k < v.len() implies !answers(
        #[trigger] w[k],
        r.gateway_id,
        r.request_id,
    ) by {
        assert(!answers(v[k], r.gateway_id, r.request_id));
    }
    lemma_result_position_is(w, r.gateway_id, r.request_id, v.len() as int);
}

/// A retry of a recorded action, whatever it asks for now, gets the recorded
/// response and changes nothing.
pub proof fn law_retry_gets_the_same_response(
    s: RelayView,
    gateway_id: Seq<char>,
    request_id: Seq<char>,
    result: Seq<char>,
    later_result: Seq<char>,
    later_delivery: DeliveryView,
)
    requires
        record_verdict(s, gateway_id, request_id, result) is Recorded,
    ensures
        ({
            let t = after_record(s, gateway_id, request_id, result);
            let first = verdict_answer(
                s,
                record_verdict(s, gateway_id, request_id, result),
                result,
            );
            let v = record_verdict(t, gateway_id, request_id, later_result);
            let w = send_verdict(t, gateway_id, request_id, later_delivery);
            &&& v is Existing && w is Existing
            &&& verdict_answer(t, v, later_result) == first
            &&& verdict_answer(t, w, success_json()) == first
            &&& after_record(t, gateway_id, request_id, later_result) == t
            &&& after_send(t, gateway_id, request_id, later_delivery) == t
        }),
{
    lemma_result_position(s.outbound_results, gateway_id, request_id, 0);
    lemma_pushed_is_found(
        s.outbound_results,
        next_result(s, gateway_id, request_id, result, None),
    );
}

/// A retry of a send that was done, whatever it asks for now, gets the same
/// response and queues nothing.
pub proof fn law_retried_send_queues_once(
    s: RelayView,
    gateway_id: Seq<char>,
    request_id: Seq<char>,
    d: DeliveryView,
    later_result: Seq<char>,
    later_delivery: DeliveryView,
)
    requires
        send_verdict(s, gateway_id, request_id, d) is Recorded,
    ensures
        ({
            let t = after_send(s, gateway_id, request_id, d);
            let first = verdict_answer(
                s,
                send_verdict(s, gateway_id, request_id, d),
                success_json(),
            );
            let v = record_verdict(t, gateway_id, request_id, later_result);
            let w = send_verdict(t, gateway_id, request_id, later_delivery);
            &&& t.deliveries == s.deliveries.push(d)
            &&& v is Existing && w is Existing
            &&& verdict_answer(t, v, later_result) == first
            &&& verdict_answer(t, w, success_json()) == first
            &&& after_record(t, gateway_id, request_id, later_result) == t
            &&& after_send(t, gateway_id, request_id, later_delivery) == t
        }),
{
    lemma_result_position(s.outbound_results, gateway_id, request_id, 0);
    lemma_pushed_is_found(
        s.outbound_results,
        next_result(s, gateway_id, request_id, success_json(), Some(d.seq)),
    );
}

/// What one gateway records does not touch what another finds.
pub proof fn law_gateways_are_separate(
    s: RelayView,
    gateway_id: Seq<char>,
    request_id: Seq<char>,
    result: Seq<char>,
    other: Seq<char>,
    other_request: Seq<char>,
)
    requires
        other != gateway_id,
    ensures
        ({
            let t = after_record(s, gateway_id, request_id, result);
            let p = result_position(s.outbound_results, other, other_request, 0);
            let q = result_position(t.outbound_results, other, other_request, 0);
            &&& (p < s.outbound_results.len() <==> q < t.outbound_results.len())
            &&& (p < s.outbound_results.len() ==> t.outbound_results[q] == s.outbound_results[p])
        }),
{
    let t = after_record(s, gateway_id, request_id, result);
    let v = s.outbound_results;
    let w = t.outbound_results;
    lemma_result_position(v, other, other_request, 0);
    let p = result_position(v, other, other_request, 0);
    if record_verdict(s, gateway_id, request_id, result) is Recorded {
        let q = if p < v.len() {
            p
        } else {
            w.len() as int
        };
        assert forall|k: int| 0 <= k < q implies !answers(
            #[trigger] w[k],
            other,
            other_request,
        ) by {
            if k < v.len() {
                assert(w[k] == v[k]);
            }
        }
        lemma_result_position_is(w, other, other_request, q);
    }
}

// ---- receipts -------------------------------------------------------------------

/// Once retired, a receipt is accepted again as it was and in no other form,
/// and neither changes anything.
pub proof fn law_retired_receipt_is_exact(
    s: RelayView,
    gateway_id: Seq<char>,
    request_id: Seq<char>,
    result_id: u64,
    other_id: u64,
)
    requires
        sound_ledger(s),
        retirement(s, gateway_id, request_id, result_id) == Ok::<ResultRetirement, RelayError>(
            ResultRetirement::Retired,
        ),
        other_id != result_id,
        !crate::relay::results::is_retired(
            s.retired_outbound_results,
            gateway_id,
            request_id,
            other_id,
        ),
    ensures
        ({
            let t = after_retirement(s, gateway_id, request_id, result_id);
            &&& retirement(t, gateway_id, request_id, result_id) == Ok::<
                ResultRetirement,
                RelayError,
            >(ResultRetirement::AlreadyRetired)
            &&& after_retirement(t, gateway_id, request_id, result_id) == t
            &&& retirement(t, gateway_id, request_id, other_id) == Err::<
                ResultRetirement,
                RelayError,
            >(RelayError::ResultIdMismatch)
            &&& after_retirement(t, gateway_id, request_id, other_id) == t
            &&& t.deliveries == s.deliveries
        }),
{
    let t = after_retirement(s, gateway_id, request_id, result_id);
    let v = s.outbound_results;
    lemma_result_position(v, gateway_id, request_id, 0);
    let p = result_position(v, gateway_id, request_id, 0);
    let w = v.remove(p);
    assert forall|k: int| 0 <= k < w.len() implies !answers(
        #[trigger] w[k],
        gateway_id,
        request_id,
    ) by {
        if k < p {
            assert(w[k] == v[k]);
        } else {
            assert(w[k] == v[k + 1]);
            assert(!answers(v[k + 1], v[p].gateway_id, v[p].request_id));
        }
    }
    lemma_result_position_is(w, gateway_id, request_id, w.len() as int);
    let c = trace_of(v[p]);
    assert(valid_result(v[p], s.next_outbound_result_id, s.clock_high_water_ms, s.next_seq));
    lemma_valid_trace_fits(c, s.next_outbound_result_id);
    let old_traces = s.retired_outbound_results;
    law_traces_are_bounded(old_traces, c);
    let u = traced(old_traces, c);
    assert(u[u.len() - 1] == c);
    assert(u.contains(c));
    let wanted = crate::relay::records::RetiredOutboundResultView {
        gateway_id,
        request_id,
        result_id: other_id,
    };
    if u.contains(wanted) {
        let i = choose|i: int| 0 <= i < u.len() && u[i] == wanted;
        let k = room_for_trace(old_traces, c);
        if i < k.len() {
            assert(u[i] == old_traces[old_traces.len() - k.len() + i]);
            assert(old_traces.contains(wanted));
        }
    }
}

/// After its response was retired a request may be used again. It gets a
/// greater identifier, and a late confirmation of the old one is refused and
/// changes nothing.
pub proof fn law_late_confirmation_spares_the_new_response(
    s: RelayView,
    gateway_id: Seq<char>,
    request_id: Seq<char>,
    result_id: u64,
    result: Seq<char>,
)
    requires
        sound_ledger(s),
        retirement(s, gateway_id, request_id, result_id) == Ok::<ResultRetirement, RelayError>(
            ResultRetirement::Retired,
        ),
        record_verdict(
            after_retirement(s, gateway_id, request_id, result_id),
            gateway_id,
            request_id,
            result,
        ) is Recorded,
    ensures
        ({
            let t = after_retirement(s, gateway_id, request_id, result_id);
            let u = after_record(t, gateway_id, request_id, result);
            &&& u.outbound_results.last().result_id > result_id
            &&& retirement(u, gateway_id, request_id, result_id) == Err::<
                ResultRetirement,
                RelayError,
            >(RelayError::ResultIdMismatch)
            &&& after_retirement(u, gateway_id, request_id, result_id) == u
        }),
{
    let v = s.outbound_results;
    lemma_result_position(v, gateway_id, request_id, 0);
    let p = result_position(v, gateway_id, request_id, 0);
    assert(valid_result(v[p], s.next_outbound_result_id, s.clock_high_water_ms, s.next_seq));
    let t = after_retirement(s, gateway_id, request_id, result_id);
    lemma_result_position(t.outbound_results, gateway_id, request_id, 0);
    lemma_pushed_is_found(
        t.outbound_results,
        next_result(t, gateway_id, request_id, result, None),
    );
}

// ---- consumption ----------------------------------------------------------------

proof fn lemma_filter_filter<A>(
    v: Seq<A>,
    p: spec_fn(A) -> bool,
    q: spec_fn(A) -> bool,
)
    requires
        forall|a: A| #[trigger] q(a) ==> p(a),
    ensures
        v.filter(p).filter(q) == v.filter(q),
    decreases v.len(),
{
    reveal(Seq::filter);
    if v.len() > 0 {
        let d = v.drop_last();
        let x = v.last();
        lemma_filter_filter(d, p, q);
        if p(x) {
            assert(v.filter(p) == d.filter(p).push(x));
            assert(v.filter(p).drop_last() =~= d.filter(p));
            assert(v.filter(p).last() == x);
        }
    } else {
        assert(v.filter(p) =~= v);
    }
}

proof fn lemma_filter_none<A>(v: Seq<A>, p: spec_fn(A) -> bool, q: spec_fn(A) -> bool)
    requires
        forall|a: A| #[trigger] p(a) ==> !q(a),
    ensures
        v.filter(p).filter(q).len() == 0,
    decreases v.len(),
{
    reveal(Seq::filter);
    if v.len() > 0 {
        let d = v.drop_last();
        let x = v.last();
        lemma_filter_none(d, p, q);
        if p(x) {
            assert(v.filter(p) == d.filter(p).push(x));
            assert(v.filter(p).drop_last() =~= d.filter(p));
            assert(v.filter(p).last() == x);
        }
    }
}

/// A queued delivery is what a reader of its lane gets next, after everything
/// that waited before it.
pub proof fn law_queued_delivery_is_read_back(
    s: RelayView,
    chat_id: Seq<char>,
    content: Seq<char>,
    reply_to: Option<Seq<char>>,
    arrived_at: u64,
    after: u64,
)
    requires
        after <= s.next_seq < u64::MAX,
    ensures
        ({
            let d = next_delivery(s, chat_id, content, reply_to, arrived_at);
            let p = picked(after, Some(chat_id), None, None);
            &&& enqueued(s, d).deliveries.filter(p) == s.deliveries.filter(p).push(d)
            &&& d.content == content
            &&& d.reply_to == reply_to
        }),
{
    let d = next_delivery(s, chat_id, content, reply_to, arrived_at);
    let p = picked(after, Some(chat_id), None, None);
    reveal(Seq::filter);
    assert(s.deliveries.push(d).drop_last() =~= s.deliveries);
    assert(p(d));
}

/// A turn that was queued waits, under a generation of its own.
pub proof fn law_queued_turn_waits(s: RelayView, message_id: Seq<char>, event: JsonView)
    requires
        inbound_verdict(s, message_id, event) is Added,
    ensures
        ({
            let m = next_inbound(s, message_id, event);
            &&& waits(inbound_added(s, m).inbound, message_id, m.generation)
            &&& m.generation == s.next_inbound_generation + 1
        }),
{
    let m = next_inbound(s, message_id, event);
    let v = inbound_added(s, m).inbound;
    assert(has_identity(v[v.len() - 1], message_id, m.generation));
}

/// What was consumed is not there to be read again.
pub proof fn law_consumed_deliveries_are_gone(
    v: Seq<DeliveryView>,
    after: u64,
    lane_id: Option<Seq<char>>,
    reply_to: Option<Seq<char>>,
    through: Option<u64>,
)
    ensures
        v.filter(left(after, lane_id, reply_to, through)).filter(
            picked(after, lane_id, reply_to, through),
        ).len() == 0,
{
    lemma_filter_none(
        v,
        left(after, lane_id, reply_to, through),
        picked(after, lane_id, reply_to, through),
    );
}

/// Consuming on one lane leaves the deliveries of every other lane as they
/// were.
pub proof fn law_other_lanes_keep_their_deliveries(
    v: Seq<DeliveryView>,
    lane_id: Seq<char>,
    sequences: Seq<u64>,
    other: Seq<char>,
    after: u64,
    reply_to: Option<Seq<char>>,
    through: Option<u64>,
)
    requires
        other != lane_id,
    ensures
        v.filter(unspoken(lane_id, sequences)).filter(of_lane(other)) == v.filter(of_lane(other)),
        v.filter(left(after, Some(lane_id), reply_to, through)).filter(of_lane(other)) == v.filter(
            of_lane(other),
        ),
{
    lemma_filter_filter(v, unspoken(lane_id, sequences), of_lane(other));
    lemma_filter_filter(v, left(after, Some(lane_id), reply_to, through), of_lane(other));
}

/// A reply that names another request, or none, outlives the consumption of
/// this request's replies.
pub proof fn law_other_replies_stay(
    v: Seq<DeliveryView>,
    after: u64,
    lane_id: Option<Seq<char>>,
    reply_to: Seq<char>,
    through: Option<u64>,
)
    ensures
        v.filter(left(after, lane_id, Some(reply_to), through)).filter(
            |d: DeliveryView| d.reply_to != Some(reply_to),
        ) == v.filter(|d: DeliveryView| d.reply_to != Some(reply_to)),
{
    lemma_filter_filter(
        v,
        left(after, lane_id, Some(reply_to), through),
        |d: DeliveryView| d.reply_to != Some(reply_to),
    );
}

// ---- the handoff of voice turns -------------------------------------------------

proof fn lemma_text_before(a: Seq<char>, b: Seq<char>, k: int)
    requires
        0 <= k < a.len(),
        k < b.len(),
        forall|i: int| 0 <= i < k ==> a[i] == b[i],
        (a[k] as u32) < (b[k] as u32),
    ensures
        text_before(a, b),
{
    assert(a.take(k) =~= b.take(k));
    assert(differs_at(a, b, k));
}

/// An utterance is a plain value.
pub proof fn law_message_event_is_plain(
    lane_id: Seq<char>,
    lane_name: Seq<char>,
    text: Seq<char>,
    msg_seq: u64,
)
    ensures
        plain_value(event_value(lane_id, lane_name, text, msg_seq), 2),
{
    let e = event_value(lane_id, lane_name, text, msg_seq);
    let f = e->Object_0;
    let src = f[2].1->Object_0;
    reveal_strlit("message_id");
    reveal_strlit("message_type");
    reveal_strlit("source");
    reveal_strlit("text");
    reveal_strlit("user_id");
    reveal_strlit("user_name");
    reveal_strlit("chat_id");
    reveal_strlit("chat_name");
    reveal_strlit("chat_topic");
    reveal_strlit("chat_type");
    reveal_strlit("platform");
    reveal_strlit("thread_id");
    lemma_text_before("message_id"@, "message_type"@, 8);
    lemma_text_before("message_type"@, "source"@, 0);
    lemma_text_before("source"@, "text"@, 0);
    lemma_text_before("text"@, "user_id"@, 0);
    lemma_text_before("user_id"@, "user_name"@, 5);
    lemma_text_before("chat_id"@, "chat_name"@, 5);
    lemma_text_before("chat_name"@, "chat_topic"@, 5);
    lemma_text_before("chat_topic"@, "chat_type"@, 6);
    lemma_text_before("chat_type"@, "platform"@, 0);
    lemma_text_before("platform"@, "thread_id"@, 0);
    lemma_text_before("thread_id"@, "user_id"@, 0);
    assert(plain_value(JsonView::Object(src), 1)) by {
        assert forall|i: int| 0 <= i < src.len() implies plain_key((#[trigger] src[i]).0)
            && plain_value(src[i].1, 0) by {
            if i == 0 || i == 1 || i == 2 || i == 3 || i == 4 || i == 5 || i == 6 || i == 7 {
            }
        }
        assert forall|i: int| 0 < i < src.len() implies text_before(
            src[i - 1].0,
            (#[trigger] src[i]).0,
        ) by {
            if i == 1 || i == 2 || i == 3 || i == 4 || i == 5 || i == 6 || i == 7 {
            }
        }
    }
    assert forall|i: int| 0 <= i < f.len() implies plain_key((#[trigger] f[i]).0)
        && plain_value(f[i].1, 1) by {
        if i == 2 {
            assert(f[2].1 == JsonView::Object(src));
        } else if i == 0 || i == 1 || i == 3 || i == 4 || i == 5 {
        }
    }
    assert forall|i: int| 0 < i < f.len() implies text_before(f[i - 1].0, (#[trigger] f[i]).0) by {
        if i == 1 || i == 2 || i == 3 || i == 4 || i == 5 {
        }
    }
}

/// The frame of a plain event is a plain value, one level deeper.
pub proof fn law_frame_of_plain_event_is_plain(
    message_id: Seq<char>,
    generation: u64,
    event: JsonView,
    depth: nat,
)
    requires
        plain_value(event, depth),
    ensures
        plain_value(inbound_frame(message_id, generation, event), depth + 1),
{
    let f = inbound_frame(message_id, generation, event)->Object_0;
    reveal_strlit("event");
    reveal_strlit("generation");
    reveal_strlit("handoffVersion");
    reveal_strlit("messageId");
    reveal_strlit("type");
    lemma_text_before("event"@, "generation"@, 0);
    lemma_text_before("generation"@, "handoffVersion"@, 0);
    lemma_text_before("handoffVersion"@, "messageId"@, 0);
    lemma_text_before("messageId"@, "type"@, 0);
    assert forall|i: int| 0 <= i < f.len() implies plain_key((#[trigger] f[i]).0) && plain_value(
        f[i].1,
        (depth + 1 - 1) as nat,
    ) by {
        if i == 0 {
            assert(f[0].1 == event);
        } else if i == 1 {
            assert(f[1].1 == natural_value(generation));
        } else if i == 2 {
            assert(f[2].1 == natural_value(INBOUND_HANDOFF_VERSION as u64));
        }
    }
    assert forall|i: int| 0 < i < f.len() implies text_before(f[i - 1].0, (#[trigger] f[i]).0) by {
        if i == 1 || i == 2 || i == 3 || i == 4 {
        }
    }
}

/// The members of an inbound frame.
pub proof fn lemma_frame_fields(message_id: Seq<char>, generation: u64, event: JsonView)
    ensures
        ({
            let v = inbound_frame(message_id, generation, event);
            &&& v.get("event"@) == Some(event)
            &&& v.field("generation"@) == natural_value(generation)
            &&& v.field("handoffVersion"@) == natural_value(INBOUND_HANDOFF_VERSION as u64)
            &&& v.field("messageId"@) == JsonView::Text(message_id)
            &&& v.field("type"@) == JsonView::Text("inbound"@)
        }),
{
    let f = inbound_frame(message_id, generation, event)->Object_0;
    reveal_strlit("event");
    reveal_strlit("generation");
    reveal_strlit("handoffVersion");
    reveal_strlit("messageId");
    reveal_strlit("type");
    reveal_with_fuel(member_from, 6);
    assert(f[0].0.len() == 5 && f[1].0.len() == 10 && f[2].0.len() == 14 && f[3].0.len() == 9
        && f[4].0.len() == 4);
}

/// The frame of an event carries the identity it was built with, and the event
/// itself, wherever the frame is read back from its own text.
pub proof fn law_frame_carries_its_identity(
    message_id: Seq<char>,
    generation: u64,
    event: JsonView,
)
    requires
        reads_back(inbound_frame(message_id, generation, event)),
        event.field("message_id"@).text() == Some(message_id),
    ensures
        identity_of(inbound_record(message_id, generation, event).frame) == Some(
            (message_id, generation),
        ),
        carries(inbound_record(message_id, generation, event).frame, event),
{
    lemma_frame_fields(message_id, generation, event);
    law_json_same_as_itself(event);
}

/// Pushing an event that waits already finds it and adds nothing.
pub proof fn law_repeated_event_is_queued_once(
    s: RelayView,
    message_id: Seq<char>,
    event: JsonView,
)
    requires
        inbound_verdict(s, message_id, event) is Added,
        reads_back(inbound_frame(message_id, (s.next_inbound_generation + 1) as u64, event)),
        event.field("message_id"@).text() == Some(message_id),
    ensures
        inbound_verdict(
            inbound_added(s, next_inbound(s, message_id, event)),
            message_id,
            event,
        ) == InboundVerdict::Queued(s.inbound.len() as int),
{
    let m = next_inbound(s, message_id, event);
    let v = s.inbound;
    let w = v.push(m);
    law_frame_carries_its_identity(
        message_id,
        (s.next_inbound_generation + 1) as u64,
        event,
    );
    lemma_inbound_position(v, message_id, 0);
    lemma_inbound_position(w, message_id, 0);
    let p = inbound_position(w, message_id, 0);
    assert(w[v.len() as int].message_id == message_id);
    if p < v.len() {
        assert(w[p] == v[p]);
        assert(v[p].message_id != message_id);
    }
}

/// Whether the inbound side could be taken up again.
pub open spec fn sound_inbound(s: RelayView) -> bool {
    inbound_fault(
        INBOUND_SNAPSHOT_VERSION,
        s.next_inbound_generation,
        s.inbound,
        s.acknowledged_inbound,
    ) is None
}

proof fn lemma_no_turn_fault(v: Seq<InboundMessageView>, i: int, n: u64)
    requires
        0 <= i <= v.len(),
    ensures
        first_turn_fault(v, i, n) is None <==> (forall|k: int|
            i <= k < v.len() ==> #[trigger] turn_fault(v, k, n) is None),
    decreases v.len() - i,
{
    if i < v.len() {
        lemma_no_turn_fault(v, i + 1, n);
    }
}

/// A queued turn keeps the inbound side sound, and its generation is greater
/// than every one before it.
pub proof fn law_queued_turn_keeps_inbound_sound(
    s: RelayView,
    message_id: Seq<char>,
    event: JsonView,
)
    requires
        sound_inbound(s),
        inbound_verdict(s, message_id, event) is Added,
        reads_back(inbound_frame(message_id, (s.next_inbound_generation + 1) as u64, event)),
        event.field("message_id"@).text() == Some(message_id),
    ensures
        sound_inbound(inbound_added(s, next_inbound(s, message_id, event))),
        forall|i: int|
            0 <= i < s.inbound.len() ==> (#[trigger] s.inbound[i]).generation < next_inbound(
                s,
                message_id,
                event,
            ).generation,
{
    let m = next_inbound(s, message_id, event);
    let n = s.next_inbound_generation;
    let g = m.generation;
    let v = s.inbound;
    let w = v.push(m);
    let t = s.acknowledged_inbound;
    lemma_no_turn_fault(v, 0, n);
    lemma_inbound_position(v, message_id, 0);
    law_frame_carries_its_identity(message_id, g, event);
    lemma_frame_fields(message_id, g, event);
    assert(inbound_jsons(w) =~= inbound_jsons(v).push(inbound_json(m)));
    assert forall|i: int| 0 <= i < v.len() implies (#[trigger] v[i]).generation < g by {
        assert(turn_fault(v, i, n) is None);
    }
    assert forall|k: int| 0 <= k < w.len() implies #[trigger] turn_fault(w, k, g) is None by {
        if k < v.len() {
            assert(turn_fault(v, k, n) is None);
            assert(w[k] == v[k]);
            assert(valid_identity(v, k, n));
            assert forall|j: int| 0 <= j < k implies (#[trigger] w[j]).message_id
                != w[k].message_id by {
                assert(v[j].message_id != v[k].message_id);
            }
        } else {
            assert(w[k] == m);
            assert forall|j: int| 0 <= j < k implies (#[trigger] w[j]).message_id
                != m.message_id by {
                assert(v[j].message_id != message_id);
            }
        }
    }
    lemma_no_turn_fault(w, 0, g);
    assert forall|i: int| 0 <= i < t.len() implies #[trigger] valid_tombstone(t, i, w, g) by {
        assert(valid_tombstone(t, i, v, n));
        assert forall|k: int| 0 <= k < w.len() implies !((#[trigger] w[k]).message_id
            == t[i].message_id && w[k].generation == t[i].generation) by {
            if k < v.len() {
                assert(w[k] == v[k]);
            }
        }
    }
}

/// The trace of a valid turn always fits its ledger.
pub proof fn lemma_valid_tombstone_fits(c: InboundAckTombstoneView)
    requires
        valid_opaque_id(c.message_id),
    ensures
        tombstone_fits(c),
{
    reveal_strlit("message_id");
    reveal_strlit("generation");
    lemma_key_bytes("message_id"@);
    lemma_key_bytes("generation"@);
    lemma_json_string_bytes(c.message_id);
    lemma_decimal_bytes(c.generation);
    let fields = tombstone_members(c);
    lemma_object_bytes(fields);
    let m = member_texts(fields);
    lemma_member_bytes("message_id"@, json_string(c.message_id));
    lemma_member_bytes("generation"@, decimal(c.generation as nat));
    let e = Seq::<Seq<char>>::empty();
    lemma_array_bytes_push(e, m[0]);
    lemma_array_bytes_push(e.push(m[0]), m[1]);
    assert(e.push(m[0]).push(m[1]) =~= m);
    assert(m[0] == member("message_id"@, json_string(c.message_id)));
    assert(m[1] == member("generation"@, decimal(c.generation as nat)));
    lemma_array_bytes_push(e, tombstone_json(c));
    assert(tombstone_jsons(Seq::empty()) =~= e);
}

proof fn lemma_filter_turns(v: Seq<InboundMessageView>, p: spec_fn(InboundMessageView) -> bool, n: u64)
    requires
        forall|k: int| 0 <= k < v.len() ==> #[trigger] turn_fault(v, k, n) is None,
    ensures
        ({
            let w = v.filter(p);
            &&& forall|k: int| 0 <= k < w.len() ==> #[trigger] turn_fault(w, k, n) is None
            &&& forall|i: int|
                0 <= i < w.len() ==> p(#[trigger] w[i]) && exists|k: int|
                    0 <= k < v.len() && v[k] == w[i]
        }),
    decreases v.len(),
{
    reveal(Seq::filter);
    let w = v.filter(p);
    if v.len() > 0 {
        let d = v.drop_last();
        let x = v.last();
        assert forall|k: int| 0 <= k < d.len() implies #[trigger] turn_fault(d, k, n) is None by {
            assert(turn_fault(v, k, n) is None);
            assert(valid_identity(v, k, n));
            assert forall|j: int| 0 <= j < k implies (#[trigger] d[j]).message_id
                != d[k].message_id by {
                assert(v[j].message_id != v[k].message_id);
            }
        }
        lemma_filter_turns(d, p, n);
        let u = d.filter(p);
        assert forall|i: int| 0 <= i < w.len() implies p(#[trigger] w[i]) && exists|k: int|
            0 <= k < v.len() && v[k] == w[i] by {
            if i < u.len() {
                assert(w[i] == u[i]);
                let k = choose|k: int| 0 <= k < d.len() && d[k] == u[i];
                assert(v[k] == w[i]);
            } else {
                assert(v[v.len() - 1] == w[i]);
            }
        }
        if p(x) {
            assert(w == u.push(x));
            assert(turn_fault(v, v.len() - 1, n) is None);
            assert(valid_identity(v, v.len() - 1, n));
            assert forall|k: int| 0 <= k < w.len() implies #[trigger] turn_fault(
                w,
                k,
                n,
            ) is None by {
                if k < u.len() {
                    assert(turn_fault(u, k, n) is None);
                    assert(valid_identity(u, k, n));
                    assert(w[k] == u[k]);
                    assert forall|j: int| 0 <= j < k implies (#[trigger] w[j]).message_id
                        != w[k].message_id by {
                        assert(u[j].message_id != u[k].message_id);
                    }
                } else {
                    assert forall|j: int| 0 <= j < k implies (#[trigger] w[j]).message_id
                        != x.message_id by {
                        assert(w[j] == u[j]);
                        let q = choose|q: int| 0 <= q < d.len() && d[q] == u[j];
                        assert(v[q].message_id != v[v.len() - 1].message_id);
                    }
                }
            }
        }
    }
}

/// An acknowledged turn leaves the inbound side sound; in a sound one its trace
/// always fits, so an acknowledgement that matches is never refused.
pub proof fn law_acknowledging_keeps_inbound_sound(
    s: RelayView,
    message_id: Seq<char>,
    generation: u64,
)
    requires
        sound_inbound(s),
    ensures
        sound_inbound(after_acknowledgement(s, message_id, generation)),
        acknowledgement(s, message_id, generation) != Err::<InboundAckResult, RelayError>(
            RelayError::TombstoneTooLarge,
        ),
{
    let v = s.inbound;
    let n = s.next_inbound_generation;
    let t = s.acknowledged_inbound;
    let c = tombstone(message_id, generation);
    lemma_no_turn_fault(v, 0, n);
    if waits(v, message_id, generation) {
        let i = choose|i: int|
            0 <= i < v.len() && has_identity(#[trigger] v[i], message_id, generation);
        assert(turn_fault(v, i, n) is None);
        assert(valid_identity(v, i, n));
        lemma_valid_tombstone_fits(c);
        if s.persistence_failure is None && !t.contains(c) {
            let p = other_than(message_id, generation);
            let w = v.filter(p);
            lemma_filter_turns(v, p, n);
            lemma_no_turn_fault(w, 0, n);
            let f = |m: InboundMessageView| inbound_json(m);
            lemma_filter_bytes(v, p, f);
            assert(inbound_jsons(v) =~= v.map_values(f));
            assert(inbound_jsons(w) =~= w.map_values(f));
            law_tombstones_are_bounded(t, c);
            let k = room_for_tombstone(t, c);
            let u = entombed(t, c);
            let off = t.len() - k.len();
            assert forall|j: int| 0 <= j < u.len() implies #[trigger] valid_tombstone(
                u,
                j,
                w,
                n,
            ) by {
                if j < k.len() {
                    assert(u[j] == t[off + j]);
                    assert(valid_tombstone(t, off + j, v, n));
                    assert forall|a: int| 0 <= a < j implies #[trigger] u[a] != u[j] by {
                        assert(u[a] == t[off + a]);
                        assert(t[off + a] != t[off + j]);
                    }
                    assert forall|a: int| 0 <= a < w.len() implies !((#[trigger] w[a]).message_id
                        == u[j].message_id && w[a].generation == u[j].generation) by {
                        let q = choose|q: int| 0 <= q < v.len() && v[q] == w[a];
                        assert(!(v[q].message_id == t[off + j].message_id && v[q].generation
                            == t[off + j].generation));
                    }
                } else {
                    assert(u[j] == c);
                    assert forall|a: int| 0 <= a < j implies #[trigger] u[a] != c by {
                        assert(u[a] == t[off + a]);
                    }
                    assert forall|a: int| 0 <= a < w.len() implies !((#[trigger] w[a]).message_id
                        == c.message_id && w[a].generation == c.generation) by {
                        assert(p(w[a]));
                    }
                }
            }
        }
    }
}

/// An acknowledged turn waits no more, the same acknowledgement is accepted
/// again, and one of another generation never removes anything.
pub proof fn law_acknowledgement_is_exact(
    s: RelayView,
    message_id: Seq<char>,
    generation: u64,
    other: u64,
)
    requires
        acknowledgement(s, message_id, generation) == Ok::<InboundAckResult, RelayError>(
            InboundAckResult::Acknowledged,
        ),
        other != generation,
        !waits(s.inbound, message_id, other),
    ensures
        ({
            let t = after_acknowledgement(s, message_id, generation);
            &&& !waits(t.inbound, message_id, generation)
            &&& acknowledgement(t, message_id, generation) == Ok::<InboundAckResult, RelayError>(
                InboundAckResult::AlreadyAcknowledged,
            )
            &&& after_acknowledgement(t, message_id, generation) == t
            &&& after_acknowledgement(t, message_id, other) == t
        }),
{
    let t = after_acknowledgement(s, message_id, generation);
    let c = tombstone(message_id, generation);
    let u = entombed(s.acknowledged_inbound, c);
    assert(u[u.len() - 1] == c);
    lemma_filter_waits(s.inbound, message_id, generation, generation);
    lemma_filter_waits(s.inbound, message_id, generation, other);
}

proof fn lemma_filter_waits(
    v: Seq<InboundMessageView>,
    message_id: Seq<char>,
    generation: u64,
    other: u64,
)
    ensures
        waits(v.filter(other_than(message_id, generation)), message_id, other) ==> other
            != generation && waits(v, message_id, other),
    decreases v.len(),
{
    reveal(Seq::filter);
    let p = other_than(message_id, generation);
    let w = v.filter(p);
    if v.len() > 0 {
        let d = v.drop_last();
        lemma_filter_waits(d, message_id, generation, other);
        if waits(w, message_id, other) {
            let i = choose|i: int|
                0 <= i < w.len() && has_identity(#[trigger] w[i], message_id, other);
            let u = d.filter(p);
            if i < u.len() {
                assert(has_identity(u[i], message_id, other));
                assert(waits(u, message_id, other));
                let k = choose|k: int|
                    0 <= k < d.len() && has_identity(#[trigger] d[k], message_id, other);
                assert(has_identity(v[k], message_id, other));
            } else {
                assert(has_identity(v[v.len() - 1], message_id, other));
            }
        }
    }
}

/// A relay that has seen nothing is sound.
pub proof fn law_fresh_relay_is_sound()
    ensures
        sound_deliveries(fresh_relay()),
        sound_ledger(fresh_relay()),
        sound_inbound(fresh_relay()),
{
    let e = Seq::<Seq<char>>::empty();
    lemma_array_bytes_push(e, Seq::<char>::empty());
    let f = fresh_relay();
    assert(crate::relay::records::delivery_jsons(f.deliveries) =~= e);
    assert(crate::relay::records::result_jsons(f.outbound_results) =~= e);
    assert(crate::relay::records::retired_jsons(f.retired_outbound_results) =~= e);
    assert(inbound_jsons(f.inbound) =~= e);
    assert(tombstone_jsons(f.acknowledged_inbound) =~= e);
}

} // verus!
