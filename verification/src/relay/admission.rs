//! What the relay takes in: a turn, a message for the gateway, the numbers of
//! deliveries that were heard, and what a snapshot holds.
use vstd::prelude::*;

use crate::json::array_bytes;
use crate::lanes::LaneView;
use crate::proto::{valid_lane_id, valid_opaque_id};
use crate::relay::deliveries::{
    consume_refusal, first_sequence_fault, latest_requests, latest_seq, sequence_fault,
};
use crate::relay::inbound::{
    identity_of, inbound_position, inbound_verdict, lemma_inbound_position, next_inbound,
    preflight_refusal, push_refusal, pushed, InboundVerdict,
};
use crate::relay::records::{
    delivery_jsons, inbound_json, inbound_jsons, result_jsons, retired_jsons, tombstone_jsons,
    DeliveryView, InboundAckTombstoneView, InboundMessageView, OutboundResultView,
    PendingRequestView, RetiredOutboundResultView,
};
use crate::relay::snapshots::{
    deliveries_fault, delivery_fault, first_delivery_fault, first_turn_fault, inbound_fault,
    ledger_fault, requests_fault, turn_fault, valid_tombstone,
};
use crate::relay::soundness::sound_deliveries;
use crate::relay::state::RelayView;
use crate::text::{blank, utf8_len};
use crate::value::JsonView;

verus! {

// ---- turns ----------------------------------------------------------------------

/// Whether an event names no lane, or one by a sound identifier.
pub open spec fn lane_is_sound(event: JsonView) -> bool {
    match event.get("source"@) {
        None => true,
        Some(source) => match source.get("chat_id"@) {
            None => true,
            Some(JsonView::Text(id)) => valid_lane_id(id),
            Some(_) => false,
        },
    }
}

/// A turn is added exactly when the relay can write, the turn and its lane are
/// well named, no waiting turn has its name, and the queue and its numbers have
/// room for it.
pub proof fn law_turn_is_added_when_it_can_be(s: RelayView, id: Seq<char>, event: JsonView)
    ensures
        ({
            let m = next_inbound(s, id, event);
            inbound_verdict(s, id, event) == InboundVerdict::Added <==> {
                &&& s.persistence_failure is None
                &&& lane_is_sound(event)
                &&& valid_opaque_id(id)
                &&& forall|i: int|
                    0 <= i < s.inbound.len() ==> (#[trigger] s.inbound[i]).message_id != id
                &&& s.next_inbound_generation < 9_007_199_254_740_991
                &&& s.inbound.len() < 200
                &&& utf8_len(inbound_json(m)) <= 1_048_576
                &&& array_bytes(inbound_jsons(s.inbound).push(inbound_json(m))) <= 8_388_608
            }
        }),
{
    lemma_inbound_position(s.inbound, id, 0);
    let p = inbound_position(s.inbound, id, 0);
    if p < s.inbound.len() {
        assert(s.inbound[p].message_id == id);
    }
}

/// A message is pushed only where a gateway is connected: it is refused otherwise,
/// for that reason where it is sound in itself.
pub proof fn law_message_needs_a_gateway(
    s: RelayView,
    event: JsonView,
    lane_id: Option<Seq<char>>,
    id: Seq<char>,
)
    requires
        event.field("message_id"@).text() == Some(id),
        inbound_verdict(s, id, event) is Added,
        lane_id is Some ==> valid_lane_id(lane_id->0),
    ensures
        push_refusal(s, event, lane_id) is None <==> s.connections.outbound is Some,
        s.connections.outbound is None ==> push_refusal(s, event, lane_id)
            == Some(crate::relay::errors::RelayError::NoGateway),
        preflight_refusal(s, event) is None,
{
}

/// A reply that is awaited is awaited last; of those that were awaited before, all
/// are kept, but for the oldest where there were two hundred.
pub proof fn law_awaited_replies_are_the_newest(
    s: RelayView,
    event: JsonView,
    lane_id: Seq<char>,
    id: Seq<char>,
)
    requires
        event.field("message_id"@).text() == Some(id),
        s.pending_requests.len() <= 200,
    ensures
        ({
            let v = pushed(s, event, Some(lane_id)).pending_requests;
            &&& v.last().lane_id == lane_id
            &&& v.last().message_id == id
            &&& v.drop_last() == (if s.pending_requests.len() < 200 {
                s.pending_requests
            } else {
                s.pending_requests.drop_first()
            })
        }),
        pushed(s, event, None).pending_requests == s.pending_requests,
{
    let v = s.pending_requests.push(PendingRequestView { lane_id, message_id: id });
    let w = latest_requests(v);
    if s.pending_requests.len() < 200 {
        assert(w.drop_last() =~= s.pending_requests);
    } else {
        assert(w.drop_last() =~= s.pending_requests.drop_first());
    }
}

// ---- deliveries -----------------------------------------------------------------

proof fn lemma_sequence_faults(v: Seq<u64>, i: int)
    requires
        0 <= i <= v.len(),
    ensures
        first_sequence_fault(v, i) is None <==> (forall|k: int|
            i <= k < v.len() ==> #[trigger] sequence_fault(v, k) is None),
    decreases v.len() - i,
{
    if i < v.len() {
        lemma_sequence_faults(v, i + 1);
    }
}

/// From one to two hundred sequences can be taken as heard at a time, each a safe
/// number from one up and none twice, while the relay can write.
pub proof fn law_sequences_are_consumed_when_they_can_be(s: RelayView, v: Seq<u64>)
    ensures
        consume_refusal(s, v) is None <==> {
            &&& 1 <= v.len() <= 200
            &&& forall|i: int| 0 <= i < v.len() ==> 1 <= #[trigger] v[i] <= 9_007_199_254_740_991
            &&& v.no_duplicates()
            &&& s.persistence_failure is None
        },
{
    lemma_sequence_faults(v, 0);
    if first_sequence_fault(v, 0) is None {
        assert forall|i: int| 0 <= i < v.len() implies 1 <= #[trigger] v[i]
            <= 9_007_199_254_740_991 by {
            assert(sequence_fault(v, i) is None);
        }
        assert forall|i: int, j: int| 0 <= i < j < v.len() implies v[i] != v[j] by {
            assert(sequence_fault(v, j) is None);
            assert(v.take(j)[i] == v[i]);
        }
    }
    if v.no_duplicates() && forall|i: int|
        0 <= i < v.len() ==> 1 <= #[trigger] v[i] <= 9_007_199_254_740_991 {
        assert forall|k: int| 0 <= k < v.len() implies #[trigger] sequence_fault(v, k) is None by {
            if v.take(k).contains(v[k]) {
                let j = choose|j: int| 0 <= j < v.take(k).len() && v.take(k)[j] == v[k];
                assert(v[j] == v[k]);
            }
        }
    }
}

/// What is told as the newest is at least every waiting sequence, and one of them;
/// where none waits it is what the reader has.
pub proof fn law_latest_is_the_newest(s: RelayView, after: u64, i: int)
    requires
        sound_deliveries(s),
    ensures
        0 <= i < s.deliveries.len() ==> s.deliveries[i].seq <= latest_seq(s, after),
        s.deliveries.len() > 0 ==> exists|k: int|
            0 <= k < s.deliveries.len() && (#[trigger] s.deliveries[k]).seq == latest_seq(s, after),
        s.deliveries.len() == 0 ==> latest_seq(s, after) == after,
{
    crate::relay::soundness::lemma_rising(s.deliveries, s.next_seq);
    if 0 <= i < s.deliveries.len() {
        assert(s.deliveries.last() == s.deliveries[s.deliveries.len() - 1]);
        if i < s.deliveries.len() - 1 {
            assert(s.deliveries[i].seq < s.deliveries[s.deliveries.len() - 1].seq);
        }
    }
    if s.deliveries.len() > 0 {
        assert(s.deliveries[s.deliveries.len() - 1].seq == latest_seq(s, after));
    }
}

// ---- snapshots ------------------------------------------------------------------

/// Whether a delivery of a snapshot is sound in itself.
pub open spec fn delivery_is_sound(d: DeliveryView, lanes: Option<Seq<LaneView>>) -> bool {
    &&& 1 <= d.seq <= 9_007_199_254_740_991
    &&& valid_lane_id(d.chat_id)
    &&& lanes is Some ==> exists|i: int|
        0 <= i < lanes->0.len() && (#[trigger] lanes->0[i]).id == d.chat_id
    &&& !blank(d.content)
    &&& utf8_len(d.content) <= 524_288
    &&& d.reply_to is Some ==> valid_opaque_id(d.reply_to->0)
}

proof fn lemma_delivery_faults(v: Seq<DeliveryView>, i: int, lanes: Option<Seq<LaneView>>)
    requires
        0 <= i <= v.len(),
    ensures
        first_delivery_fault(v, i, lanes) is None <==> (forall|k: int|
            i <= k < v.len() ==> #[trigger] delivery_fault(v, k, lanes) is None),
    decreases v.len() - i,
{
    if i < v.len() {
        lemma_delivery_faults(v, i + 1, lanes);
    }
}

/// A snapshot of deliveries is taken exactly when there are at most two hundred, of
/// at most eight mebibytes, each sound and each above the one before it, and none
/// above the last number that was given.
pub proof fn law_delivery_snapshot_is_taken_when_sound(
    v: Seq<DeliveryView>,
    next_seq: u64,
    lanes: Option<Seq<LaneView>>,
)
    ensures
        deliveries_fault(v, next_seq, lanes) is None <==> {
            &&& v.len() <= 200
            &&& array_bytes(delivery_jsons(v)) <= 8_388_608
            &&& forall|i: int| 0 <= i < v.len() ==> delivery_is_sound(#[trigger] v[i], lanes)
            &&& forall|i: int, j: int|
                0 <= i < j < v.len() && j == i + 1 ==> (#[trigger] v[i]).seq < (
                #[trigger] v[j]).seq
            &&& v.len() > 0 ==> v.last().seq <= next_seq
            &&& next_seq <= 9_007_199_254_740_991
        },
{
    lemma_delivery_faults(v, 0, lanes);
    if first_delivery_fault(v, 0, lanes) is None {
        assert forall|i: int| 0 <= i < v.len() implies delivery_is_sound(#[trigger] v[i], lanes) by {
            assert(delivery_fault(v, i, lanes) is None);
        }
        assert forall|i: int, j: int| 0 <= i < j < v.len() && j == i + 1 implies (
        #[trigger] v[i]).seq < (#[trigger] v[j]).seq by {
            assert(delivery_fault(v, j, lanes) is None);
        }
    }
    if (forall|i: int| 0 <= i < v.len() ==> delivery_is_sound(#[trigger] v[i], lanes)) && (forall|
        i: int,
        j: int,
    |
        0 <= i < j < v.len() && j == i + 1 ==> (#[trigger] v[i]).seq < (#[trigger] v[j]).seq) {
        assert forall|k: int| 0 <= k < v.len() implies #[trigger] delivery_fault(
            v,
            k,
            lanes,
        ) is None by {
            assert(delivery_is_sound(v[k], lanes));
            if k > 0 {
                assert(v[k - 1].seq < v[k].seq);
            }
        }
    }
}

/// A snapshot of awaited replies is taken exactly when there are at most two
/// hundred, each with a well named lane and message.
pub proof fn law_request_snapshot_is_taken_when_sound(v: Seq<PendingRequestView>)
    ensures
        requests_fault(v) is None <==> {
            &&& v.len() <= 200
            &&& forall|i: int|
                0 <= i < v.len() ==> valid_lane_id((#[trigger] v[i]).lane_id) && valid_opaque_id(
                    v[i].message_id,
                )
        },
{
}

/// A snapshot of responses is taken only where no two have the same identifier, or
/// the same request of the same gateway, none is both waiting and given up, and all
/// their numbers are among those that were given.
pub proof fn law_response_snapshot_is_sound(
    results: Seq<OutboundResultView>,
    traces: Seq<RetiredOutboundResultView>,
    next_id: u64,
    clock_ms: u64,
    next_seq: u64,
    i: int,
    j: int,
)
    requires
        ledger_fault(results, traces, next_id, clock_ms, next_seq) is None,
    ensures
        results.len() <= 200,
        traces.len() <= 200,
        array_bytes(result_jsons(results)) <= 1_048_576,
        array_bytes(retired_jsons(traces)) <= 32_768,
        next_id <= 9_007_199_254_740_991,
        0 <= i < results.len() ==> {
            let r = results[i];
            &&& 1 <= utf8_len(r.gateway_id) <= 256
            &&& valid_opaque_id(r.request_id)
            &&& 1 <= r.result_id <= next_id
            &&& r.last_seen_at_ms <= clock_ms
            &&& r.delivery_seq is Some ==> 1 <= r.delivery_seq->0 <= next_seq
        },
        0 <= i < j < results.len() ==> results[i].result_id != results[j].result_id && !(
        results[i].gateway_id == results[j].gateway_id && results[i].request_id
            == results[j].request_id),
        0 <= i < traces.len() ==> {
            let r = traces[i];
            &&& 1 <= utf8_len(r.gateway_id) <= 256
            &&& valid_opaque_id(r.request_id)
            &&& 1 <= r.result_id <= next_id
        },
        0 <= i < j < traces.len() ==> traces[i].result_id != traces[j].result_id,
        0 <= i < results.len() && 0 <= j < traces.len() ==> !(results[i].gateway_id
            == traces[j].gateway_id && results[i].result_id == traces[j].result_id),
{
    if 0 <= i < results.len() {
        crate::text::lemma_len_bounds(results[i].gateway_id);
    }
    if 0 <= i < traces.len() {
        crate::text::lemma_len_bounds(traces[i].gateway_id);
    }
}

proof fn lemma_turn_faults(v: Seq<InboundMessageView>, i: int, next_generation: u64)
    requires
        0 <= i <= v.len(),
        first_turn_fault(v, i, next_generation) is None,
    ensures
        forall|k: int|
            i <= k < v.len() ==> #[trigger] turn_fault(v, k, next_generation) is None,
    decreases v.len() - i,
{
    if i < v.len() {
        lemma_turn_faults(v, i + 1, next_generation);
    }
}

/// A snapshot of turns is taken only where its version is the one that is written,
/// no two turns have the same name, none waits that was acknowledged, and all their
/// generations are among those that were given.
pub proof fn law_turn_snapshot_is_sound(
    version: u32,
    next_generation: u64,
    turns: Seq<InboundMessageView>,
    traces: Seq<InboundAckTombstoneView>,
    i: int,
    j: int,
)
    requires
        inbound_fault(version, next_generation, turns, traces) is None,
    ensures
        version == 1,
        next_generation <= 9_007_199_254_740_991,
        turns.len() <= 200,
        traces.len() <= 200,
        array_bytes(inbound_jsons(turns)) <= 8_388_608,
        array_bytes(tombstone_jsons(traces)) <= 32_768,
        0 <= i < turns.len() ==> {
            &&& valid_opaque_id(turns[i].message_id)
            &&& 1 <= turns[i].generation <= next_generation
            &&& identity_of(turns[i].frame) == Some((turns[i].message_id, turns[i].generation))
            &&& utf8_len(inbound_json(turns[i])) <= 1_048_576
        },
        0 <= i < j < turns.len() ==> turns[i].message_id != turns[j].message_id,
        0 <= i < traces.len() ==> {
            &&& valid_opaque_id(traces[i].message_id)
            &&& 1 <= traces[i].generation <= next_generation
        },
        0 <= i < j < traces.len() ==> traces[i] != traces[j],
        0 <= i < turns.len() && 0 <= j < traces.len() ==> !(turns[i].message_id
            == traces[j].message_id && turns[i].generation == traces[j].generation),
{
    lemma_turn_faults(turns, 0, next_generation);
    if 0 <= i < turns.len() {
        assert(turn_fault(turns, i, next_generation) is None);
    }
    if 0 <= i < j < turns.len() {
        assert(turn_fault(turns, j, next_generation) is None);
    }
    if 0 <= i < traces.len() {
        assert(valid_tombstone(traces, i, turns, next_generation));
    }
    if 0 <= j < traces.len() {
        assert(valid_tombstone(traces, j, turns, next_generation));
    }
}

} // verus!
